//! What holds of escaping and of reading CLIXML.

use vstd::prelude::*;

use crate::psrp::clixml;
use crate::search;
use crate::text;
use crate::text::Blank;

verus! {

/// The text holds no control character that escaping rewrites.
pub open spec fn free_of_controls(s: Seq<char>) -> bool {
    forall|i: int| 0 <= i < s.len() ==> !clixml::is_forbidden_control(#[trigger] s[i])
}

/// A character that may stand in XML text and in attribute values as it is.
pub open spec fn is_inert(c: char) -> bool {
    c != '<' && c != '>' && c != '"' && c != '\'' && !clixml::is_forbidden_control(c)
}

/// Makes the entities known character by character.
proof fn reveal_entities()
    ensures
        "&lt;"@ =~= seq!['&', 'l', 't', ';'],
        "&gt;"@ =~= seq!['&', 'g', 't', ';'],
        "&amp;"@ =~= seq!['&', 'a', 'm', 'p', ';'],
        "&quot;"@ =~= seq!['&', 'q', 'u', 'o', 't', ';'],
        "&apos;"@ =~= seq!['&', 'a', 'p', 'o', 's', ';'],
        "<"@ =~= seq!['<'],
        ">"@ =~= seq!['>'],
        "&"@ =~= seq!['&'],
        "\""@ =~= seq!['"'],
        "'"@ =~= seq!['\''],
{
    reveal_strlit("&lt;");
    reveal_strlit("&gt;");
    reveal_strlit("&amp;");
    reveal_strlit("&quot;");
    reveal_strlit("&apos;");
    reveal_strlit("<");
    reveal_strlit(">");
    reveal_strlit("&");
    reveal_strlit("\"");
    reveal_strlit("'");
}

/// The escaped form of one character is inert throughout.
proof fn lemma_escaped_char_inert(c: char)
    ensures
        forall|j: int| 0 <= j < clixml::escaped_char(c).len() ==> is_inert(
            #[trigger] clixml::escaped_char(c)[j],
        ),
{
    reveal_entities();
    reveal_strlit("_x00");
    let e = clixml::escaped_char(c);
    assert forall|j: int| 0 <= j < e.len() implies is_inert(#[trigger] e[j]) by {
        if clixml::is_forbidden_control(c) {
            assert(e.len() == 7);
            assert("_x00"@ =~= seq!['_', 'x', '0', '0']);
        }
    }
}

/// Escaped text cannot end the element or the attribute in which it stands: it holds no angle
/// bracket, no quote and no control character.
pub proof fn law_escaped_text_is_inert(s: Seq<char>)
    ensures
        forall|j: int| 0 <= j < clixml::escaped(s).len() ==> is_inert(
            #[trigger] clixml::escaped(s)[j],
        ),
    decreases s.len(),
{
    if s.len() > 0 {
        law_escaped_text_is_inert(s.drop_last());
        lemma_escaped_char_inert(s.last());
        let a = clixml::escaped(s.drop_last());
        let e = clixml::escaped_char(s.last());
        assert forall|j: int| 0 <= j < (a + e).len() implies is_inert(#[trigger] (a + e)[j]) by {
            if j >= a.len() {
                assert((a + e)[j] == e[j - a.len()]);
            }
        }
    }
}

/// Escaping a text is escaping its parts.
pub proof fn law_escaping_is_piecewise(a: Seq<char>, b: Seq<char>)
    ensures
        clixml::escaped(a + b) == clixml::escaped(a) + clixml::escaped(b),
    decreases b.len(),
{
    if b.len() == 0 {
        assert(a + b =~= a);
        assert(clixml::escaped(a) + clixml::escaped(b) =~= clixml::escaped(a));
    } else {
        law_escaping_is_piecewise(a, b.drop_last());
        assert((a + b).drop_last() =~= a + b.drop_last());
        assert(clixml::escaped(a + b) =~= clixml::escaped(a) + clixml::escaped(b));
    }
}

/// The character whose entity is resolved in step `k`.
spec fn step_char(k: int) -> char {
    if k == 0 {
        '<'
    } else if k == 1 {
        '>'
    } else if k == 2 {
        '&'
    } else if k == 3 {
        '"'
    } else {
        '\''
    }
}

/// The entity that is resolved in step `k`.
spec fn step_entity(k: int) -> Seq<char> {
    if k == 0 {
        "&lt;"@
    } else if k == 1 {
        "&gt;"@
    } else if k == 2 {
        "&amp;"@
    } else if k == 3 {
        "&quot;"@
    } else {
        "&apos;"@
    }
}

/// The number of steps after which the entity of a character is resolved.
spec fn rank(c: char) -> int {
    if c == '<' {
        1
    } else if c == '>' {
        2
    } else if c == '&' {
        3
    } else if c == '"' {
        4
    } else if c == '\'' {
        5
    } else {
        0
    }
}

/// What stands for a character after `k` steps of unescaping.
spec fn partly_char(k: int, c: char) -> Seq<char> {
    if rank(c) > k {
        step_entity(rank(c) - 1)
    } else {
        seq![c]
    }
}

/// What stands for a text after `k` steps of unescaping.
spec fn partly(k: int, s: Seq<char>) -> Seq<char>
    decreases s.len(),
{
    if s.len() == 0 {
        Seq::empty()
    } else {
        partly_char(k, s[0]) + partly(k, s.drop_first())
    }
}

/// The text holds the entities of quotes nowhere.
pub open spec fn free_of_quote_entities(s: Seq<char>) -> bool {
    &&& forall|i: int| 0 <= i ==> !search::occurs_at(s, "&quot;"@, i)
    &&& forall|i: int| 0 <= i ==> !search::occurs_at(s, "&apos;"@, i)
}

/// What a text is free of, the text without its first character is free of too.
proof fn lemma_quote_entities_suffix(s: Seq<char>)
    requires
        s.len() > 0,
        free_of_quote_entities(s),
    ensures
        free_of_quote_entities(s.drop_first()),
{
    let a = seq![s[0]];
    let t = s.drop_first();
    assert(s =~= a + t);
    assert forall|i: int| 0 <= i implies !search::occurs_at(t, "&quot;"@, i) by {
        search::lemma_occurs_shift(a, t, "&quot;"@, i);
    }
    assert forall|i: int| 0 <= i implies !search::occurs_at(t, "&apos;"@, i) by {
        search::lemma_occurs_shift(a, t, "&apos;"@, i);
    }
}

/// Where the partly unescaped form of a text goes on with characters that no entity begins
/// with, so does the text.
proof fn lemma_partly_reads_plain(k: int, s: Seq<char>, w: Seq<char>)
    requires
        0 <= k <= 5,
        search::occurs_at(partly(k, s), w, 0),
        forall|j: int| 0 <= j < w.len() ==> #[trigger] w[j] != '&',
    ensures
        search::occurs_at(s, w, 0),
    decreases w.len(),
{
    reveal_entities();
    let x = partly(k, s);
    assert(x.subrange(0, w.len() as int) =~= w);
    if w.len() > 0 {
        assert(x[0] == w[0]);
        assert(w[0] != '&');
        assert(s.len() > 0);
        assert(x[0] == partly_char(k, s[0])[0]);
        assert(partly_char(k, s[0]) =~= seq![s[0]]);
        let y = partly(k, s.drop_first());
        let v = w.drop_first();
        assert(y.subrange(0, v.len() as int) =~= x.subrange(1, w.len() as int));
        assert(x.subrange(1, w.len() as int) =~= v);
        assert forall|j: int| 0 <= j < v.len() implies #[trigger] v[j] != '&' by {
            assert(v[j] == w[j + 1]);
        }
        lemma_partly_reads_plain(k, s.drop_first(), v);
        assert(s.drop_first().subrange(0, v.len() as int) =~= v);
        assert(s.subrange(0, w.len() as int) =~= w) by {
            assert forall|j: int| 0 <= j < w.len() implies s[j] == w[j] by {
                if j > 0 {
                    assert(s.drop_first().subrange(0, v.len() as int)[j - 1] == v[j - 1]);
                }
            }
        }
    } else {
        assert(s.subrange(0, 0) =~= w);
    }
}

/// An entity begins with an ampersand and holds no other.
proof fn lemma_entity_shape(k: int)
    requires
        0 <= k < 5,
    ensures
        step_entity(k).len() > 0,
        step_entity(k)[0] == '&',
        forall|j: int| 1 <= j < step_entity(k).len() ==> #[trigger] step_entity(k)[j] != '&',
{
    reveal_entities();
}

/// The entity of step `k` does not begin at the front of another entity.
proof fn lemma_entities_differ(k: int, m: int, y: Seq<char>)
    requires
        0 <= k < 5,
        0 <= m < 5,
        k != m,
    ensures
        !search::occurs_at(step_entity(m) + y, step_entity(k), 0),
{
    reveal_entities();
    let x = step_entity(m) + y;
    let p = step_entity(k);
    if search::occurs_at(x, p, 0) {
        assert(x.subrange(0, p.len() as int) =~= p);
        assert(x[1] == p[1]);
        assert(x[2] == p[2]);
    }
}

/// One step of unescaping resolves the entity of one character.
proof fn lemma_unescape_step(k: int, s: Seq<char>)
    requires
        0 <= k < 5,
        free_of_quote_entities(s),
    ensures
        text::replace_all(partly(k, s), step_entity(k), seq![step_char(k)]) == partly(k + 1, s),
    decreases s.len(),
{
    let p = step_entity(k);
    let r = seq![step_char(k)];
    lemma_entity_shape(k);
    let x = partly(k, s);
    if s.len() == 0 {
        assert(search::find(x, p) is None);
    } else {
        let c = s[0];
        let rest = s.drop_first();
        let g = partly_char(k, c);
        let y = partly(k, rest);
        lemma_quote_entities_suffix(s);
        lemma_unescape_step(k, rest);
        if rank(c) == k + 1 {
            assert(c == step_char(k));
            assert(x.subrange(0, p.len() as int) =~= p);
            text::lemma_replace_hit(x, p, r);
            assert(x.skip(p.len() as int) =~= y);
        } else {
            if rank(c) > k {
                lemma_entity_shape(rank(c) - 1);
                lemma_entities_differ(k, rank(c) - 1, y);
            }
            assert forall|j: int| 0 <= j < g.len() implies !search::occurs_at(g + y, p, j) by {
                if search::occurs_at(g + y, p, j) {
                    assert((g + y).subrange(j, j + p.len())[0] == p[0]);
                    assert((g + y)[j] == '&');
                    assert(g[j] == '&');
                    assert(j == 0);
                    if rank(c) <= k {
                        assert(c == '&');
                        lemma_raw_ampersand(k, s);
                    }
                }
            }
            text::lemma_replace_skip(g, y, p, r);
            assert(partly_char(k + 1, c) == g);
        }
    }
}

/// A resolved ampersand does not begin the entity of a quote.
proof fn lemma_raw_ampersand(k: int, s: Seq<char>)
    requires
        3 <= k < 5,
        s.len() > 0,
        s[0] == '&',
        free_of_quote_entities(s),
    ensures
        !search::occurs_at(partly(k, s), step_entity(k), 0),
{
    let p = step_entity(k);
    let x = partly(k, s);
    lemma_entity_shape(k);
    if search::occurs_at(x, p, 0) {
        let w = p.drop_first();
        let y = partly(k, s.drop_first());
        assert(x =~= seq!['&'] + y);
        assert(x.subrange(0, p.len() as int) =~= p);
        assert(y.subrange(0, w.len() as int) =~= w) by {
            assert forall|j: int| 0 <= j < w.len() implies y[j] == w[j] by {
                assert(x.subrange(0, p.len() as int)[j + 1] == p[j + 1]);
            }
        }
        assert forall|j: int| 0 <= j < w.len() implies #[trigger] w[j] != '&' by {
            assert(w[j] == p[j + 1]);
        }
        lemma_partly_reads_plain(k, s.drop_first(), w);
        assert(s.subrange(0, p.len() as int) =~= p) by {
            assert forall|j: int| 0 <= j < p.len() implies s[j] == p[j] by {
                if j > 0 {
                    assert(s.drop_first().subrange(0, w.len() as int)[j - 1] == w[j - 1]);
                }
            }
        }
        assert(search::occurs_at(s, p, 0));
    }
}

/// Without control characters, the escaped form is the form before any step of unescaping.
proof fn lemma_escaped_is_partly(s: Seq<char>)
    requires
        free_of_controls(s),
    ensures
        clixml::escaped(s) == partly(0, s),
    decreases s.len(),
{
    if s.len() > 0 {
        let a = seq![s[0]];
        let t = s.drop_first();
        assert(s =~= a + t);
        assert forall|i: int| 0 <= i < t.len() implies !clixml::is_forbidden_control(
            #[trigger] t[i],
        ) by {
            assert(t[i] == s[i + 1]);
        }
        lemma_escaped_is_partly(t);
        law_escaping_is_piecewise(a, t);
        assert(a.drop_last() =~= Seq::<char>::empty());
        assert(clixml::escaped(a.drop_last()) =~= Seq::<char>::empty());
        assert(clixml::escaped(a) =~= clixml::escaped_char(s[0]));
        assert(!clixml::is_forbidden_control(s[0]));
        assert(clixml::escaped_char(s[0]) =~= partly_char(0, s[0]));
    }
}

/// After all steps nothing is left to resolve.
proof fn lemma_fully_unescaped(s: Seq<char>)
    ensures
        partly(5, s) == s,
    decreases s.len(),
{
    if s.len() > 0 {
        lemma_fully_unescaped(s.drop_first());
        assert(seq![s[0]] + s.drop_first() =~= s);
    }
}

/// Unescaping undoes escaping.
///
/// Left out are texts with control characters, whose escape is not an entity, and texts that
/// hold the entity of a quote themselves: ampersands are resolved before quotes.
pub proof fn law_unescape_undoes_escape(s: Seq<char>)
    requires
        free_of_controls(s),
        free_of_quote_entities(s),
    ensures
        clixml::unescaped(clixml::escaped(s)) == s,
{
    reveal_entities();
    lemma_escaped_is_partly(s);
    lemma_unescape_step(0, s);
    lemma_unescape_step(1, s);
    lemma_unescape_step(2, s);
    lemma_unescape_step(3, s);
    lemma_unescape_step(4, s);
    lemma_fully_unescaped(s);
    assert("<"@ == seq![step_char(0)]);
    assert(">"@ == seq![step_char(1)]);
    assert("&"@ == seq![step_char(2)]);
    assert("\""@ == seq![step_char(3)]);
    assert("'"@ == seq![step_char(4)]);
}

/// The element that carries a text.
pub open spec fn string_element(s: Seq<char>) -> Seq<char> {
    "<S>"@ + clixml::escaped(s) + "</S>"@
}

/// The text of an element whose content was escaped is read back.
///
/// Left out are the texts that unescaping does not give back.
pub proof fn law_string_element_is_read_back(s: Seq<char>)
    requires
        free_of_controls(s),
        free_of_quote_entities(s),
    ensures
        clixml::output_text(string_element(s)) == s,
{
    reveal_strlit("<S>");
    reveal_strlit("</S>");
    reveal_strlit("<S");
    let e = clixml::escaped(s);
    let xml = string_element(s);
    law_escaped_text_is_inert(s);
    law_unescape_undoes_escape(s);
    assert(xml.subrange(0, 2) =~= "<S"@);
    assert(search::find(xml, "<S"@) == Some(0int));
    let after = xml.skip(2);
    assert(after =~= seq!['>'] + e + "</S>"@);
    assert(after.subrange(0, 1) =~= seq!['>']);
    assert(search::find(after, seq!['>']) == Some(0int));
    let content = after.skip(1);
    assert(content =~= e + "</S>"@);
    assert(content.subrange(e.len() as int, e.len() as int + 4) =~= "</S>"@);
    assert forall|j: int| 0 <= j < e.len() implies !search::occurs_at(content, "</S>"@, j) by {
        if search::occurs_at(content, "</S>"@, j) {
            assert(content.subrange(j, j + 4)[0] == '<');
            assert(content[j] == e[j]);
        }
    }
    search::lemma_find_from_is(content, "</S>"@, 0, e.len() as int);
    assert(content.take(e.len() as int) =~= e);
    let rest = content.skip(e.len() as int + 4);
    assert(rest =~= Seq::<char>::empty());
    assert(search::find(rest, "<S"@) is None);
    assert(clixml::string_texts(rest) =~= Seq::<Seq<char>>::empty());
    assert(clixml::string_texts(xml) =~= clixml::non_empty(s));
    if s.len() == 0 {
        lemma_empty_element(xml);
    }
}

/// The empty element yields the empty text.
proof fn lemma_empty_element(xml: Seq<char>)
    requires
        xml == "<S>"@ + Seq::<char>::empty() + "</S>"@,
    ensures
        clixml::to_string_text(xml) is None,
        clixml::without_tags(xml) == Seq::<char>::empty(),
        text::trim(clixml::without_tags(xml), Blank::Unicode) == Seq::<char>::empty(),
{
    reveal_strlit("<S>");
    reveal_strlit("</S>");
    reveal_strlit("<ToString>");
    assert(xml =~= seq!['<', 'S', '>', '<', '/', 'S', '>']);
    assert(search::find(xml, "<ToString>"@) is None);
    let lt = seq!['<'];
    let gt = seq!['>'];
    let none = Seq::<char>::empty();
    assert(xml.subrange(0, 1) =~= lt);
    assert(search::find(xml, lt) == Some(0int));
    assert(xml.take(0) =~= none);
    assert(search::find(none, gt) is None);
    let r1 = xml.skip(1);
    let tag1 = seq!['S', '>'];
    let r2 = seq!['/', 'S', '>'];
    assert(r1 =~= tag1 + (lt + r2));
    search::lemma_find_symbol_after(tag1, lt + r2, '<');
    assert((lt + r2).subrange(0, 1) =~= lt);
    assert(search::find(lt + r2, lt) == Some(0int));
    assert(r1.take(2) =~= tag1);
    assert(r1.skip(3) =~= r2);
    let end1 = seq!['S'];
    assert(tag1 =~= end1 + gt);
    search::lemma_find_symbol_after(end1, gt, '>');
    assert(gt.subrange(0, 1) =~= gt);
    assert(search::find(gt, gt) == Some(0int));
    assert(tag1.skip(2) =~= none);
    assert(clixml::after_tag(tag1) =~= none);
    search::lemma_find_symbol_after(r2, none, '<');
    assert(r2 + none =~= r2);
    assert(search::find(none, lt) is None);
    let end2 = seq!['/', 'S'];
    assert(r2 =~= end2 + gt);
    search::lemma_find_symbol_after(end2, gt, '>');
    assert(r2.skip(3) =~= none);
    assert(clixml::after_tag(r2) =~= none);
    assert(clixml::without_tags(r2) =~= none);
    assert(clixml::without_tags(r1) =~= none);
    assert(clixml::after_tag(none) =~= none);
    assert(clixml::without_tags(xml) =~= none);
    assert(text::trim_start(none, Blank::Unicode) =~= none);
    assert(text::trim_end(none, Blank::Unicode) =~= none);
}

/// A number in decimal notation, with a minus sign where it is negative.
pub open spec fn signed_decimal(v: int) -> Seq<char> {
    if v < 0 {
        seq!['-'] + text::decimal((-v) as nat)
    } else {
        text::decimal(v as nat)
    }
}

/// The element that carries a number under a name.
pub open spec fn named_element(name: Seq<char>, value: Seq<char>) -> Seq<char> {
    "<I32 "@ + clixml::name_attribute(name) + seq!['>'] + value + "</I32>"@
}

/// The notation of a number is read as that number.
proof fn lemma_signed_decimal_is_read(v: i32)
    ensures
        text::i32_of(signed_decimal(v as int)) == Some(v),
        signed_decimal(v as int).len() > 0,
        forall|i: int| 0 <= i < signed_decimal(v as int).len() ==> {
            let c = #[trigger] signed_decimal(v as int)[i];
            text::is_digit(c) || c == '-'
        },
{
    let s = signed_decimal(v as int);
    if v < 0 {
        let d = text::decimal((-v) as nat);
        text::lemma_decimal_value((-v) as nat);
        assert(s.skip(1) =~= d);
    } else {
        text::lemma_decimal_value(v as nat);
        assert(text::is_digit(s[0]));
    }
}

/// Behind a start tag that carries the name, what follows the tag is found, if the name stands
/// nowhere before it.
#[verifier::rlimit(40)]
pub proof fn lemma_named_content(before: Seq<char>, name: Seq<char>, content: Seq<char>)
    requires
        search::find(
            before + "<I32 "@ + clixml::name_attribute(name) + seq!['>'] + content,
            clixml::name_attribute(name),
        ) == Some(before.len() + 5int),
    ensures
        clixml::named_content(
            before + "<I32 "@ + clixml::name_attribute(name) + seq!['>'] + content,
            name,
        ) == Some(content),
    decreases before.len(),
{
    reveal_strlit("<I32 ");
    reveal_strlit("<I32");
    let needle = clixml::name_attribute(name);
    let open = "<I32"@;
    let xml = before + "<I32 "@ + needle + seq!['>'] + content;
    let n = before.len() as int;
    assert(xml.subrange(n, n + 4) =~= open);
    search::lemma_find_from(xml, open, 0);
    assert(search::occurs_at(xml, open, n));
    let start = search::find(xml, open)->0;
    assert(start == n || start + 4 <= n) by {
        if start < n < start + 4 {
            assert(xml.subrange(start, start + 4)[n - start] == '<');
        }
    }
    let k = start + 4;
    let after = xml.skip(k);
    assert(xml =~= xml.take(k) + after);
    search::lemma_find_from(xml, needle, 0);
    search::lemma_find_from_is(xml, needle, k, n + 5);
    search::lemma_find_shift(xml.take(k), after, needle, 0);
    let at = n + 5 - k;
    assert(search::find(after, needle) == Some(at));
    let tail = after.skip(at + needle.len());
    assert(tail =~= seq!['>'] + content);
    assert(clixml::tag_end(tail) == Some(0int));
    assert(tail.skip(1) =~= content);
    if start == n {
        assert(after =~= seq![' '] + needle + seq!['>'] + content);
        assert(Blank::Ascii.covers(' '));
        let gt = seq!['>'];
        clixml::lemma_tag_end(after);
        search::lemma_find_from(after, gt, 0);
        assert(after.subrange(1int + needle.len(), 2int + needle.len()) =~= gt);
        assert(search::occurs_at(after, gt, 1int + needle.len()));
        assert(clixml::tag_ends_behind(after, at));
    } else {
        let rest = before.skip(k);
        assert(after =~= rest + "<I32 "@ + needle + seq!['>'] + content);
        lemma_named_content(rest, name, content);
    }
}

/// The number in a named element is read, whatever its name is and whatever surrounds it, if the
/// name is given to nothing before it.
pub proof fn law_first_named_element_is_read(
    before: Seq<char>,
    name: Seq<char>,
    v: i32,
    behind: Seq<char>,
)
    requires
        search::find(
            before + named_element(name, signed_decimal(v as int)) + behind,
            clixml::name_attribute(name),
        ) == Some(before.len() + 5int),
    ensures
        clixml::named_i32(
            before + named_element(name, signed_decimal(v as int)) + behind,
            name,
        ) == Some(v),
{
    reveal_strlit("</I32>");
    let value = signed_decimal(v as int);
    let needle = clixml::name_attribute(name);
    let xml = before + named_element(name, value) + behind;
    let close = "</I32>"@ + behind;
    let content = value + close;
    lemma_signed_decimal_is_read(v);
    assert(xml =~= before + "<I32 "@ + needle + seq!['>'] + content);
    lemma_named_content(before, name, content);
    search::lemma_find_symbol_after(value, close, '<');
    assert(close.subrange(0, 1) =~= seq!['<']);
    assert(search::find(close, seq!['<']) == Some(0int));
    assert(content.take(value.len() as int) =~= value);
    assert(!Blank::Unicode.covers(value[0]));
    assert(!Blank::Unicode.covers(value[value.len() - 1]));
    assert(text::trim(value, Blank::Unicode) == value);
}

/// The number in a named element is read back, whatever its name is.
pub proof fn law_named_element_is_read_back(name: Seq<char>, v: i32)
    ensures
        clixml::named_i32(named_element(name, signed_decimal(v as int)), name) == Some(v),
{
    reveal_strlit("<I32 ");
    reveal_strlit("N=\"");
    let needle = clixml::name_attribute(name);
    let xml = named_element(name, signed_decimal(v as int));
    let none = Seq::<char>::empty();
    assert(needle[0] == 'N');
    assert(xml.subrange(5, 5int + needle.len()) =~= needle);
    assert forall|j: int| 0 <= j < 5 implies !search::occurs_at(xml, needle, j) by {
        if search::occurs_at(xml, needle, j) {
            assert(xml.subrange(j, j + needle.len())[0] == xml[j]);
            assert(xml[j] == "<I32 "@[j]);
        }
    }
    search::lemma_find_from_is(xml, needle, 0, 5);
    assert(none + xml + none =~= xml);
    law_first_named_element_is_read(none, name, v, none);
}

/// A run of characters that neither ends a tag nor changes the open quote is passed over.
pub proof fn lemma_run_is_passed(s: Seq<char>, quote: Option<char>, from: int, to: int)
    requires
        0 <= from <= to <= s.len(),
        forall|i: int|
            from <= i < to ==> #[trigger] s[i] != '<' && clixml::next_quote(quote, s[i]) == quote
                && (quote is None ==> s[i] != '>'),
    ensures
        clixml::unquoted_end(s, quote, from) == clixml::unquoted_end(s, quote, to),
    decreases to - from,
{
    if from < to {
        lemma_run_is_passed(s, quote, from + 1, to);
    }
}

/// A character of a tag outside of quoted values.
pub open spec fn is_plain(c: char) -> bool {
    c != '<' && c != '>' && c != '"' && c != '\''
}

/// A tag with a quoted value ends at the first `>` behind the value, also where the value holds
/// one.
pub proof fn law_quoted_value_ends_no_tag(
    before: Seq<char>,
    value: Seq<char>,
    behind: Seq<char>,
    rest: Seq<char>,
)
    requires
        forall|i: int| 0 <= i < before.len() ==> is_plain(#[trigger] before[i]),
        forall|i: int| 0 <= i < behind.len() ==> is_plain(#[trigger] behind[i]),
        search::free_of(value, '<'),
        search::free_of(value, '"'),
    ensures
        clixml::tag_end(
            before + seq!['"'] + value + seq!['"'] + behind + seq!['>'] + rest,
        ) == Some(before.len() + value.len() + behind.len() + 2int),
{
    let s = before + seq!['"'] + value + seq!['"'] + behind + seq!['>'] + rest;
    let a = before.len() as int;
    let b = a + 1 + value.len();
    let c = b + 1 + behind.len();
    assert forall|i: int| 0 <= i < a implies is_plain(#[trigger] s[i]) by {
        assert(s[i] == before[i]);
    }
    assert forall|i: int| a < i < b implies #[trigger] s[i] != '<' && s[i] != '"' by {
        assert(s[i] == value[i - a - 1]);
    }
    assert forall|i: int| b < i < c implies is_plain(#[trigger] s[i]) by {
        assert(s[i] == behind[i - b - 1]);
    }
    lemma_run_is_passed(s, None, 0, a);
    lemma_run_is_passed(s, Some('"'), a + 1, b);
    lemma_run_is_passed(s, None, b + 1, c);
}

/// A text without an `I32` start tag holds no number, whatever names its tags carry.
pub proof fn law_only_i32_elements_are_read(xml: Seq<char>, name: Seq<char>)
    requires
        !search::contains(xml, "<I32"@),
    ensures
        clixml::named_i32(xml, name) is None,
{
}

/// An element whose tag only begins like that of a string is passed over: what is read is what
/// would be read behind it.
pub proof fn law_other_tags_are_no_strings(rest: Seq<char>)
    requires
        rest.len() > 0,
        !clixml::name_ended(rest),
    ensures
        clixml::string_texts("<S"@ + rest) == clixml::string_texts(rest),
{
    reveal_strlit("<S");
    let xml = "<S"@ + rest;
    assert(xml.subrange(0, 2) =~= "<S"@);
    assert(search::find(xml, "<S"@) == Some(0int));
    assert(xml.skip(2) =~= rest);
}

} // verus!
