//! What holds of the texts and numbers that are read out of CLIXML, and of the escapes in it.

use vstd::prelude::*;

use crate::psrp::clixml;
use crate::psrp::xml_laws;
use crate::search;
use crate::text;
use crate::text::Blank;
use crate::text_laws;

verus! {

/// A pattern that holds its first symbol only once stands nowhere across the beginning of a part
/// that begins with that symbol.
proof fn lemma_first_at(before: Seq<char>, p: Seq<char>, rest: Seq<char>)
    requires
        p.len() > 0,
        forall|k: int| 0 < k < p.len() ==> #[trigger] p[k] != p[0],
        rest.len() > 0,
        rest[0] == p[0],
        !search::contains(before, p),
    ensures
        forall|j: int| 0 <= j < before.len() ==> !#[trigger] search::occurs_at(before + rest, p, j),
        search::occurs_at(rest, p, 0) ==> search::find(before + rest, p) == Some(
            before.len() as int,
        ),
{
    let s = before + rest;
    let n = before.len() as int;
    search::lemma_find_from(before, p, 0);
    assert forall|j: int| 0 <= j < n implies !#[trigger] search::occurs_at(s, p, j) by {
        if search::occurs_at(s, p, j) {
            if j + p.len() <= n {
                assert(before.subrange(j, j + p.len()) =~= s.subrange(j, j + p.len()));
                assert(search::occurs_at(before, p, j));
            } else {
                assert(s.subrange(j, j + p.len())[n - j] == s[n]);
                assert(s[n] == rest[0]);
                assert(p[n - j] == p[0]);
            }
        }
    }
    if search::occurs_at(rest, p, 0) {
        search::lemma_occurs_shift(before, rest, p, 0);
        search::lemma_find_from_is(s, p, 0, n);
    }
}

/// A closing tag is found behind a text without angle brackets.
proof fn lemma_closed_by(inner: Seq<char>, close: Seq<char>, rest: Seq<char>)
    requires
        close.len() > 0,
        close[0] == '<',
        search::free_of(inner, '<'),
    ensures
        search::find(inner + close + rest, close) == Some(inner.len() as int),
{
    let s = inner + close + rest;
    let n = inner.len() as int;
    assert(s.subrange(n, n + close.len()) =~= close);
    assert forall|j: int| 0 <= j < n implies !#[trigger] search::occurs_at(s, close, j) by {
        if search::occurs_at(s, close, j) {
            assert(s.subrange(j, j + close.len())[0] == s[j]);
            assert(s[j] == inner[j]);
        }
    }
    search::lemma_find_from_is(s, close, 0, n);
}

/// Escaped text holds no opening angle bracket.
proof fn lemma_escaped_has_no_tag(s: Seq<char>)
    ensures
        search::free_of(clixml::escaped(s), '<'),
{
    xml_laws::law_escaped_text_is_inert(s);
    let e = clixml::escaped(s);
    assert forall|i: int| 0 <= i < e.len() implies #[trigger] e[i] != '<' by {
        assert(xml_laws::is_inert(e[i]));
    }
}

/// A text stands for a value and not for an enumeration's default.
pub open spec fn tells(t: Seq<char>) -> bool {
    t.len() > 0 && t != "None"@ && t != "Default"@ && t != "UNKNOWN"@
}

/// No string element begins in an object's text and what surrounds it.
proof fn lemma_no_strings(before: Seq<char>, inner: Seq<char>, behind: Seq<char>)
    requires
        !search::contains(before, "<S"@),
        !search::contains(behind, "<S"@),
        search::free_of(inner, '<'),
    ensures
        clixml::string_texts(before + "<ToString>"@ + inner + "</ToString>"@ + behind).len() == 0,
{
    reveal_strlit("<S");
    reveal_strlit("<ToString>");
    reveal_strlit("</ToString>");
    let p = "<S"@;
    let open = "<ToString>"@;
    let close = "</ToString>"@;
    let rest = open + inner + close + behind;
    let xml = before + open + inner + close + behind;
    assert(xml =~= before + rest);
    lemma_first_at(before, p, rest);
    search::lemma_find_from(behind, p, 0);
    let n = before.len() as int;
    let m = inner.len() as int;
    assert forall|j: int| 0 <= j implies !#[trigger] search::occurs_at(xml, p, j) by {
        if search::occurs_at(xml, p, j) {
            let found = xml.subrange(j, j + 2);
            assert(found[0] == '<' && found[1] == 'S');
            assert(xml[j] == '<' && xml[j + 1] == 'S');
            if j >= n + 10 + m + 11 {
                search::lemma_occurs_shift(
                    before + open + inner + close,
                    behind,
                    p,
                    j - (n + 10 + m + 11),
                );
            } else if j >= n + 10 + m {
                assert(xml[j] == close[j - n - 10 - m]);
                assert(j == n + 10 + m);
                assert(xml[j + 1] == close[1]);
            } else if j >= n + 10 {
                assert(xml[j] == inner[j - n - 10]);
            } else if j >= n {
                assert(xml[j] == open[j - n]);
                assert(j == n);
                assert(xml[j + 1] == open[1]);
            }
        }
    }
    search::lemma_find_from_none(xml, p, 0);
}

/// The text of an object is read back, whatever surrounds it, if it is the first such text and no
/// string is there. Left out are texts that stand for defaults, and texts that unescaping does not
/// give back.
pub proof fn law_object_text_is_read_back(before: Seq<char>, s: Seq<char>, behind: Seq<char>)
    requires
        tells(s),
        xml_laws::free_of_controls(s),
        xml_laws::free_of_quote_entities(s),
        !search::contains(before, "<S"@),
        !search::contains(before, "<ToString>"@),
        !search::contains(behind, "<S"@),
    ensures
        clixml::output_text(
            before + "<ToString>"@ + clixml::escaped(s) + "</ToString>"@ + behind,
        ) == s,
{
    reveal_strlit("<ToString>");
    reveal_strlit("</ToString>");
    let e = clixml::escaped(s);
    let open = "<ToString>"@;
    let close = "</ToString>"@;
    let rest = open + e + close + behind;
    let xml = before + open + e + close + behind;
    lemma_escaped_has_no_tag(s);
    lemma_no_strings(before, e, behind);
    assert(xml =~= before + rest);
    assert(rest.subrange(0, 10) =~= open);
    lemma_first_at(before, open, rest);
    let content = xml.skip(before.len() as int + 10);
    assert(content =~= e + close + behind);
    lemma_closed_by(e, close, behind);
    assert(content.take(e.len() as int) =~= e);
    xml_laws::law_unescape_undoes_escape(s);
}

/// The text of a lone object is read back.
pub proof fn law_lone_object_is_read_back(s: Seq<char>)
    requires
        tells(s),
        xml_laws::free_of_controls(s),
        xml_laws::free_of_quote_entities(s),
    ensures
        clixml::output_text("<Obj><ToString>"@ + clixml::escaped(s) + "</ToString></Obj>"@) == s,
{
    reveal_strlit("<Obj>");
    reveal_strlit("</Obj>");
    reveal_strlit("<S");
    reveal_strlit("<ToString>");
    reveal_strlit("</ToString>");
    reveal_strlit("<Obj><ToString>");
    reveal_strlit("</ToString></Obj>");
    let before = "<Obj>"@;
    let behind = "</Obj>"@;
    lemma_absent(before, "<S"@, 'S');
    lemma_absent(behind, "<S"@, 'S');
    lemma_absent(before, "<ToString>"@, 'T');
    law_object_text_is_read_back(before, s, behind);
    let e = clixml::escaped(s);
    assert("<Obj><ToString>"@ =~= before + "<ToString>"@);
    assert("</ToString></Obj>"@ =~= "</ToString>"@ + behind);
    assert("<Obj><ToString>"@ + e + "</ToString></Obj>"@ =~= before + "<ToString>"@ + e
        + "</ToString>"@ + behind);
}

/// A pattern is absent from a text that lacks its second symbol.
proof fn lemma_absent(s: Seq<char>, p: Seq<char>, c: char)
    requires
        p.len() > 1,
        p[1] == c,
        search::free_of(s, c),
    ensures
        !search::contains(s, p),
{
    assert forall|j: int| 0 <= j implies !#[trigger] search::occurs_at(s, p, j) by {
        if search::occurs_at(s, p, j) {
            assert(s.subrange(j, j + p.len())[1] == s[j + 1]);
        }
    }
    search::lemma_find_from_none(s, p, 0);
}

/// An object's text that stands for a default is passed over, and so is an empty one.
pub proof fn law_defaults_are_passed_over(before: Seq<char>, t: Seq<char>, rest: Seq<char>)
    requires
        t == "None"@ || t == "Default"@ || t == "UNKNOWN"@ || t.len() == 0,
        !search::contains(before, "<ToString>"@),
    ensures
        clixml::to_string_text(before + "<ToString>"@ + t + "</ToString>"@ + rest)
            == clixml::to_string_text(rest),
{
    reveal_strlit("<ToString>");
    reveal_strlit("</ToString>");
    reveal_strlit("None");
    reveal_strlit("Default");
    reveal_strlit("UNKNOWN");
    let open = "<ToString>"@;
    let close = "</ToString>"@;
    let more = open + t + close + rest;
    let xml = before + open + t + close + rest;
    assert(xml =~= before + more);
    assert(more.subrange(0, 10) =~= open);
    lemma_first_at(before, open, more);
    let content = xml.skip(before.len() as int + 10);
    assert(content =~= t + close + rest);
    assert(search::free_of(t, '<'));
    assert(search::free_of(t, '&'));
    lemma_closed_by(t, close, rest);
    assert(content.take(t.len() as int) =~= t);
    law_text_without_entities(t);
    assert(content.skip(t.len() as int + 11) =~= rest);
}

/// A string element stands in front of the rest of a text, with the given rest of its tag.
proof fn lemma_string_in_front(
    before: Seq<char>,
    tag: Seq<char>,
    s: Seq<char>,
    behind: Seq<char>,
)
    requires
        xml_laws::free_of_controls(s),
        xml_laws::free_of_quote_entities(s),
        !search::contains(before, "<S"@),
        clixml::name_ended(tag + seq!['>']),
        tag.len() > 0 ==> tag.last() != '/',
        clixml::tag_end(
            tag + seq!['>'] + (clixml::escaped(s) + "</S>"@ + behind),
        ) == Some(tag.len() as int),
    ensures
        clixml::string_texts(
            before + "<S"@ + tag + seq!['>'] + clixml::escaped(s) + "</S>"@ + behind,
        ) == (if s.len() == 0 {
            Seq::<Seq<char>>::empty()
        } else {
            seq![s]
        }) + clixml::string_texts(behind),
{
    reveal_strlit("<S");
    reveal_strlit("</S>");
    let e = clixml::escaped(s);
    let p = "<S"@;
    let close = "</S>"@;
    let content = e + close + behind;
    let after = tag + seq!['>'] + content;
    let rest = p + after;
    let xml = before + p + tag + seq!['>'] + e + close + behind;
    assert(xml =~= before + rest);
    assert(rest.subrange(0, 2) =~= p);
    lemma_first_at(before, p, rest);
    assert(xml.skip(before.len() as int + 2) =~= after);
    assert((tag + seq!['>'])[0] == after[0]);
    assert(after.skip(tag.len() as int + 1) =~= content);
    lemma_escaped_has_no_tag(s);
    lemma_closed_by(e, close, behind);
    assert(content.take(e.len() as int) =~= e);
    assert(content.skip(e.len() as int + 4) =~= behind);
    xml_laws::law_unescape_undoes_escape(s);
    if tag.len() > 0 {
        assert(after[tag.len() - 1] == tag.last());
    }
}

/// Every string is collected in its turn, whatever stands between: what is read from a text is the
/// first string in it, unless that is empty, and then what is read behind it. Left out are strings
/// that unescaping does not give back.
pub proof fn law_strings_are_collected_in_order(
    before: Seq<char>,
    s: Seq<char>,
    behind: Seq<char>,
)
    requires
        xml_laws::free_of_controls(s),
        xml_laws::free_of_quote_entities(s),
        !search::contains(before, "<S"@),
    ensures
        clixml::string_texts(before + "<S>"@ + clixml::escaped(s) + "</S>"@ + behind) == (
        if s.len() == 0 {
            Seq::<Seq<char>>::empty()
        } else {
            seq![s]
        }) + clixml::string_texts(behind),
{
    reveal_strlit("<S");
    reveal_strlit("<S>");
    let none = Seq::<char>::empty();
    let rest = clixml::escaped(s) + "</S>"@ + behind;
    assert((none + seq!['>'])[0] == '>');
    assert((none + seq!['>'] + rest)[0] == '>');
    lemma_string_in_front(before, none, s, behind);
    assert(before + "<S"@ + none + seq!['>'] + clixml::escaped(s) + "</S>"@ + behind =~= before
        + "<S>"@ + clixml::escaped(s) + "</S>"@ + behind);
}

/// A string with a name is collected like one without.
pub proof fn law_named_strings_are_collected(
    before: Seq<char>,
    name: Seq<char>,
    s: Seq<char>,
    behind: Seq<char>,
)
    requires
        xml_laws::free_of_controls(s),
        xml_laws::free_of_quote_entities(s),
        !search::contains(before, "<S"@),
        search::free_of(name, '<'),
        search::free_of(name, '"'),
    ensures
        clixml::string_texts(
            before + "<S N=\""@ + name + "\">"@ + clixml::escaped(s) + "</S>"@ + behind,
        ) == (if s.len() == 0 {
            Seq::<Seq<char>>::empty()
        } else {
            seq![s]
        }) + clixml::string_texts(behind),
{
    reveal_strlit("<S");
    reveal_strlit("<S N=\"");
    reveal_strlit("\">");
    let head = seq![' ', 'N', '='];
    let none = Seq::<char>::empty();
    let tag = head + seq!['"'] + name + seq!['"'];
    let e = clixml::escaped(s);
    let rest = e + "</S>"@ + behind;
    xml_laws::law_quoted_value_ends_no_tag(head, name, none, rest);
    assert(head + seq!['"'] + name + seq!['"'] + none + seq!['>'] + rest =~= tag + seq!['>']
        + rest);
    assert((tag + seq!['>'])[0] == ' ');
    text_laws::law_blanks(' ');
    lemma_string_in_front(before, tag, s, behind);
    assert(before + "<S"@ + tag + seq!['>'] + e + "</S>"@ + behind =~= before + "<S N=\""@ + name
        + "\">"@ + e + "</S>"@ + behind);
}

/// A string element that closes itself holds nothing, and a text without any yields nothing.
pub proof fn law_no_strings(before: Seq<char>, rest: Seq<char>)
    requires
        !search::contains(before, "<S"@),
    ensures
        clixml::string_texts(before).len() == 0,
        clixml::string_texts(before + "<S/>"@ + rest) == clixml::string_texts(rest),
{
    reveal_strlit("<S");
    reveal_strlit("<S/>");
    let more = "<S/>"@ + rest;
    let xml = before + "<S/>"@ + rest;
    assert(xml =~= before + more);
    assert(more.subrange(0, 2) =~= "<S"@);
    lemma_first_at(before, "<S"@, more);
    let after = xml.skip(before.len() as int + 2);
    assert(after =~= seq!['/', '>'] + rest);
    assert(clixml::next_quote(None, '/') is None);
    assert(clixml::unquoted_end(after, None, 1) == Some(1int));
    assert(clixml::unquoted_end(after, None, 0) == clixml::unquoted_end(after, None, 1));
    assert(after.skip(2) =~= rest);
}

/// The name of a tag ends with the tag, with a slash or with a blank.
pub proof fn law_where_a_name_ends(after: Seq<char>)
    ensures
        clixml::name_ended(after) <==> after.len() > 0 && (after[0] == '>' || after[0] == '/'
            || after[0] == ' ' || after[0] == '\t' || after[0] == '\n' || after[0] == '\r'
            || after[0] == '\u{c}'),
{
    if after.len() > 0 {
        text_laws::law_blanks(after[0]);
    }
}

/// Strings are shown one to a line, and come before any other text.
pub proof fn law_strings_are_lines(xml: Seq<char>, parts: Seq<Seq<char>>, p: Seq<char>)
    ensures
        clixml::joined(seq![p]) == p,
        parts.len() > 0 ==> clixml::joined(parts.push(p)) == clixml::joined(parts) + seq!['\n'] + p,
        clixml::string_texts(xml).len() > 0 ==> clixml::output_text(xml) == clixml::joined(
            clixml::string_texts(xml),
        ),
{
    assert(parts.push(p).drop_last() =~= parts);
}

/// A tag ends at the first `>` behind a quoted value, whichever quote it is in, also where the
/// value holds a `>` or the other quote.
pub proof fn law_either_quote_ends_no_tag(
    before: Seq<char>,
    q: char,
    value: Seq<char>,
    behind: Seq<char>,
    rest: Seq<char>,
)
    requires
        q == '"' || q == '\'',
        forall|i: int| 0 <= i < before.len() ==> xml_laws::is_plain(#[trigger] before[i]),
        forall|i: int| 0 <= i < behind.len() ==> xml_laws::is_plain(#[trigger] behind[i]),
        search::free_of(value, '<'),
        search::free_of(value, q),
    ensures
        clixml::tag_end(
            before + seq![q] + value + seq![q] + behind + seq!['>'] + rest,
        ) == Some(before.len() + value.len() + behind.len() + 2int),
{
    let s = before + seq![q] + value + seq![q] + behind + seq!['>'] + rest;
    let a = before.len() as int;
    let b = a + 1 + value.len();
    let c = b + 1 + behind.len();
    assert forall|i: int| 0 <= i < a implies xml_laws::is_plain(#[trigger] s[i]) by {
        assert(s[i] == before[i]);
    }
    assert forall|i: int| a < i < b implies #[trigger] s[i] != '<' && s[i] != q by {
        assert(s[i] == value[i - a - 1]);
    }
    assert forall|i: int| b < i < c implies xml_laws::is_plain(#[trigger] s[i]) by {
        assert(s[i] == behind[i - b - 1]);
    }
    xml_laws::lemma_run_is_passed(s, None, 0, a);
    xml_laws::lemma_run_is_passed(s, Some(q), a + 1, b);
    xml_laws::lemma_run_is_passed(s, None, b + 1, c);
}

/// A quote that is not closed before the next tag hides nothing: the first `>` ends the tag.
pub proof fn law_unmatched_quote(
    before: Seq<char>,
    q: char,
    t: Seq<char>,
    u: Seq<char>,
    rest: Seq<char>,
)
    requires
        q == '"' || q == '\'',
        forall|i: int| 0 <= i < before.len() ==> xml_laws::is_plain(#[trigger] before[i]),
        search::free_of(t, '<'),
        search::free_of(t, '>'),
        search::free_of(t, q),
        search::free_of(u, '<'),
        search::free_of(u, q),
    ensures
        clixml::tag_end(before + seq![q] + t + seq!['>'] + u + seq!['<'] + rest) == Some(
            before.len() + 1int + t.len(),
        ),
{
    let s = before + seq![q] + t + seq!['>'] + u + seq!['<'] + rest;
    let a = before.len() as int;
    let b = a + 1 + t.len();
    let c = b + 1 + u.len();
    let front = before + seq![q] + t;
    assert forall|i: int| 0 <= i < a implies xml_laws::is_plain(#[trigger] s[i]) by {
        assert(s[i] == before[i]);
    }
    assert forall|i: int| a < i < c implies #[trigger] s[i] != '<' && s[i] != q by {
        if i < b {
            assert(s[i] == t[i - a - 1]);
        } else if i > b {
            assert(s[i] == u[i - b - 1]);
        }
    }
    xml_laws::lemma_run_is_passed(s, None, 0, a);
    xml_laws::lemma_run_is_passed(s, Some(q), a + 1, c);
    assert(s[c] == '<');
    assert(clixml::unquoted_end(s, None, 0) is None);
    assert forall|i: int| 0 <= i < front.len() implies #[trigger] front[i] != '>' by {
        if i < a {
            assert(front[i] == before[i]);
            assert(xml_laws::is_plain(before[i]));
        } else if i > a {
            assert(front[i] == t[i - a - 1]);
        }
    }
    let tail = u + seq!['<'] + rest;
    search::lemma_symbol_first(front, tail, '>');
    assert(front + seq!['>'] + tail =~= s);
}

/// A number is read neither from an element that closes itself, nor under the name of another
/// element, nor from an element whose name only begins alike.
pub proof fn law_what_holds_no_number(name: Seq<char>, rest: Seq<char>)
    ensures
        !search::contains(" N=\""@ + name + "\"/>"@ + rest, "<I32"@) ==> clixml::named_i32(
            "<I32 N=\""@ + name + "\"/>"@ + rest,
            name,
        ) is None,
        !search::contains(seq!['>'] + rest, "<I32"@) ==> clixml::named_i32(
            "<I32>"@ + rest,
            name,
        ) is None,
        !search::contains(rest, "<I32"@) && !clixml::name_ended(rest) ==> clixml::named_i32(
            "<I32"@ + rest,
            name,
        ) is None,
{
    reveal_strlit("<I32");
    reveal_strlit("<I32>");
    reveal_strlit("<I32 N=\"");
    reveal_strlit(" N=\"");
    reveal_strlit("N=\"");
    reveal_strlit("\"");
    reveal_strlit("\"/>");
    let open = "<I32"@;
    let needle = clixml::name_attribute(name);
    let closed = "<I32 N=\""@ + name + "\"/>"@ + rest;
    let after = " N=\""@ + name + "\"/>"@ + rest;
    assert(closed.subrange(0, 4) =~= open);
    assert(closed.skip(4) =~= after);
    assert(search::find(closed, open) == Some(0int));
    assert(needle[0] == 'N');
    assert(after.subrange(1, 1int + needle.len()) =~= needle);
    assert(!search::occurs_at(after, needle, 0)) by {
        if search::occurs_at(after, needle, 0) {
            assert(after.subrange(0, needle.len() as int)[0] == ' ');
        }
    }
    search::lemma_find_from_is(after, needle, 0, 1);
    let tail = after.skip(1int + needle.len());
    assert(tail =~= seq!['/', '>'] + rest);
    assert(clixml::next_quote(None, '/') is None);
    assert(clixml::unquoted_end(tail, None, 1) == Some(1int));
    assert(clixml::unquoted_end(tail, None, 0) == clixml::unquoted_end(tail, None, 1));
    if !search::contains(after, open) {
        assert(clixml::named_content(after, name) is None);
        assert(clixml::named_content(closed, name) is None);
    }
    let nameless = "<I32>"@ + rest;
    let behind = seq!['>'] + rest;
    assert(nameless.subrange(0, 4) =~= open);
    assert(nameless.skip(4) =~= behind);
    assert(search::find(nameless, open) == Some(0int));
    assert(clixml::tag_end(behind) == Some(0int));
    search::lemma_find_from(behind, needle, 0);
    if let Some(at) = search::find(behind, needle) {
        assert(at > 0) by {
            if at == 0 {
                assert(behind.subrange(0, needle.len() as int)[0] == '>');
            }
        }
    }
    if !search::contains(behind, open) {
        assert(clixml::named_content(behind, name) is None);
        assert(clixml::named_content(nameless, name) is None);
    }
    let other = "<I32"@ + rest;
    assert(other.subrange(0, 4) =~= open);
    assert(other.skip(4) =~= rest);
    assert(search::find(other, open) == Some(0int));
    if !search::contains(rest, open) {
        assert(clixml::named_content(rest, name) is None);
    }
}

/// An element that is not closed yields nothing: no string, no object's text and no number.
pub proof fn law_unclosed_elements(before: Seq<char>, name: Seq<char>, rest: Seq<char>)
    ensures
        !search::contains(before, "<S"@) && !search::contains(rest, "</S>"@)
            ==> clixml::string_texts(before + "<S>"@ + rest).len() == 0,
        !search::contains(before, "<ToString>"@) && !search::contains(rest, "</ToString>"@)
            ==> clixml::to_string_text(before + "<ToString>"@ + rest) is None,
        search::free_of(rest, '<') && search::find(
            before + "<I32 "@ + clixml::name_attribute(name) + seq!['>'] + rest,
            clixml::name_attribute(name),
        ) == Some(before.len() + 5int) ==> clixml::named_i32(
            before + "<I32 "@ + clixml::name_attribute(name) + seq!['>'] + rest,
            name,
        ) is None,
{
    reveal_strlit("<S");
    reveal_strlit("<S>");
    reveal_strlit("<ToString>");
    let n = before.len() as int;
    if !search::contains(before, "<S"@) && !search::contains(rest, "</S>"@) {
        let xml = before + "<S>"@ + rest;
        let more = "<S>"@ + rest;
        assert(xml =~= before + more);
        assert(more.subrange(0, 2) =~= "<S"@);
        lemma_first_at(before, "<S"@, more);
        let after = xml.skip(n + 2);
        assert(after =~= seq!['>'] + rest);
        assert(clixml::tag_end(after) == Some(0int));
        assert(after.skip(1) =~= rest);
    }
    if !search::contains(before, "<ToString>"@) && !search::contains(rest, "</ToString>"@) {
        let xml = before + "<ToString>"@ + rest;
        let more = "<ToString>"@ + rest;
        assert(xml =~= before + more);
        assert(more.subrange(0, 10) =~= "<ToString>"@);
        lemma_first_at(before, "<ToString>"@, more);
        assert(xml.skip(n + 10) =~= rest);
    }
    let wire = before + "<I32 "@ + clixml::name_attribute(name) + seq!['>'] + rest;
    if search::free_of(rest, '<') && search::find(wire, clixml::name_attribute(name)) == Some(
        n + 5int,
    ) {
        xml_laws::lemma_named_content(before, name, rest);
        search::lemma_symbol_absent(rest, '<');
    }
}

/// What is shown where there is neither a string nor an object's text: between any two tags, what
/// stands up to a stray `>`, one piece behind the other and without the blanks around the whole.
pub proof fn law_text_between_tags(a: Seq<char>, t: Seq<char>, u: Seq<char>, xml: Seq<char>)
    requires
        search::free_of(a, '<'),
        search::free_of(a, '>'),
        search::free_of(t, '<'),
        search::free_of(t, '>'),
        search::free_of(u, '<'),
    ensures
        clixml::without_tags(a).len() == 0,
        clixml::without_tags(a + seq!['>'] + t) == t,
        clixml::without_tags(a + seq!['>'] + t + seq!['>'] + u) == t,
        clixml::without_tags(a + seq!['>'] + t + seq!['<'] + xml) == t + clixml::without_tags(xml),
        clixml::without_tags(a + seq!['>'] + t + seq!['>'] + u + seq!['<'] + xml) == t
            + clixml::without_tags(xml),
        clixml::without_tags(a + seq!['<'] + xml) == clixml::without_tags(xml),
        clixml::string_texts(xml).len() == 0 && clixml::to_string_text(xml) is None
            ==> clixml::output_text(xml) == text::trim(clixml::without_tags(xml), Blank::Unicode),
{
    let none = Seq::<char>::empty();
    let one = a + seq!['>'] + t;
    let two = a + seq!['>'] + t + seq!['>'] + u;
    search::lemma_symbol_absent(a, '<');
    search::lemma_symbol_absent(a, '>');
    assert(clixml::after_tag(a) =~= none);
    search::lemma_symbol_first(a, t, '>');
    assert(one.skip(a.len() as int + 1) =~= t);
    search::lemma_symbol_absent(t, '>');
    assert(clixml::after_tag(one) =~= t);
    let more = t + seq!['>'] + u;
    search::lemma_symbol_first(a, more, '>');
    assert(two =~= a + seq!['>'] + more);
    assert(two.skip(a.len() as int + 1) =~= more);
    search::lemma_symbol_first(t, u, '>');
    assert(more.take(t.len() as int) =~= t);
    assert(clixml::after_tag(two) =~= t);
    assert forall|i: int| 0 <= i < one.len() implies #[trigger] one[i] != '<' by {
        if i < a.len() {
            assert(one[i] == a[i]);
        } else if i > a.len() {
            assert(one[i] == t[i - a.len() - 1]);
        }
    }
    assert forall|i: int| 0 <= i < two.len() implies #[trigger] two[i] != '<' by {
        if i < one.len() {
            assert(two[i] == one[i]);
        } else if i > one.len() {
            assert(two[i] == u[i - one.len() - 1]);
        }
    }
    search::lemma_symbol_absent(one, '<');
    search::lemma_symbol_absent(two, '<');
    lemma_next_piece(a, xml);
    lemma_next_piece(one, xml);
    lemma_next_piece(two, xml);
    assert(none + clixml::without_tags(xml) =~= clixml::without_tags(xml));
}

/// Text outside of tags is taken piece by piece.
proof fn lemma_next_piece(a: Seq<char>, xml: Seq<char>)
    requires
        search::free_of(a, '<'),
    ensures
        clixml::without_tags(a + seq!['<'] + xml) == clixml::after_tag(a) + clixml::without_tags(
            xml,
        ),
{
    let s = a + seq!['<'] + xml;
    search::lemma_symbol_first(a, xml, '<');
    assert(s.take(a.len() as int) =~= a);
    assert(s.skip(a.len() as int + 1) =~= xml);
}

/// A number is read under its name whatever quoted values stand before and behind the name in its
/// tag, unless the name attribute occurs earlier.
pub proof fn law_values_around_a_name(
    v: Seq<char>,
    name: Seq<char>,
    w: Seq<char>,
    t: Seq<char>,
    behind: Seq<char>,
)
    requires
        search::free_of(v, '<'),
        search::free_of(v, '"'),
        search::free_of(name, '<'),
        search::free_of(name, '"'),
        search::free_of(w, '<'),
        search::free_of(w, '"'),
        search::free_of(t, '<'),
        search::find(
            " X=\""@ + v + "\" N=\""@ + name + "\" Y=\""@ + w + "\">"@ + t + "</I32>"@ + behind,
            "N=\""@ + name + "\""@,
        ) == Some(v.len() + 6int),
    ensures
        clixml::named_i32(
            "<I32"@ + (" X=\""@ + v + "\" N=\""@ + name + "\" Y=\""@ + w + "\">"@ + t + "</I32>"@
                + behind),
            name,
        ) == text::i32_of(text::trim(t, Blank::Unicode)),
{
    let after = " X=\""@ + v + "\" N=\""@ + name + "\" Y=\""@ + w + "\">"@ + t + "</I32>"@
        + behind;
    let content = t + "</I32>"@ + behind;
    lemma_shape_of_tag(v, name, w, content);
    assert(after =~= " X=\""@ + v + "\" N=\""@ + name + "\" Y=\""@ + w + "\">"@ + content);
    lemma_content_of_tag(after, name, v.len() as int, w.len() as int, content);
    reveal_strlit("</I32>");
    lemma_number_in_content(t, "</I32>"@ + behind);
    assert(content =~= t + ("</I32>"@ + behind));
}

/// A name stands between two quoted values in the rest of a tag, and content follows the tag.
spec fn is_tag_with_values(
    after: Seq<char>,
    name: Seq<char>,
    n: int,
    k: int,
    content: Seq<char>,
) -> bool {
    let m = name.len() as int;
    let x = n + m + 10;
    &&& 0 <= n
    &&& 0 <= k
    &&& after.len() >= x + k + 6
    &&& after[0] == ' ' && after[1] == 'X' && after[2] == '=' && after[3] == '"'
    &&& forall|i: int| 4 <= i < 4 + n ==> #[trigger] after[i] != '<' && after[i] != '"'
    &&& after[n + 4] == '"' && after[n + 5] == ' ' && after[n + 6] == 'N' && after[n + 7] == '='
        && after[n + 8] == '"'
    &&& forall|i: int| n + 9 <= i < n + 9 + m ==> #[trigger] after[i] != '<' && after[i] != '"'
    &&& after[n + m + 9] == '"'
    &&& after[x] == ' ' && after[x + 1] == 'Y' && after[x + 2] == '=' && after[x + 3] == '"'
    &&& forall|i: int| x + 4 <= i < x + 4 + k ==> #[trigger] after[i] != '<' && after[i] != '"'
    &&& after[x + k + 4] == '"'
    &&& after[x + k + 5] == '>'
    &&& after.skip(x + k + 6) == content
}

/// The text of such a tag has that shape.
#[verifier::rlimit(40)]
proof fn lemma_shape_of_tag(v: Seq<char>, name: Seq<char>, w: Seq<char>, content: Seq<char>)
    requires
        search::free_of(v, '<'),
        search::free_of(v, '"'),
        search::free_of(name, '<'),
        search::free_of(name, '"'),
        search::free_of(w, '<'),
        search::free_of(w, '"'),
    ensures
        is_tag_with_values(
            " X=\""@ + v + "\" N=\""@ + name + "\" Y=\""@ + w + "\">"@ + content,
            name,
            v.len() as int,
            w.len() as int,
            content,
        ),
{
    reveal_strlit(" X=\"");
    reveal_strlit("\" N=\"");
    reveal_strlit("\" Y=\"");
    reveal_strlit("\">");
    let after = " X=\""@ + v + "\" N=\""@ + name + "\" Y=\""@ + w + "\">"@ + content;
    let n = v.len() as int;
    let m = name.len() as int;
    let x = n + m + 10;
    assert forall|i: int| 4 <= i < 4 + n implies #[trigger] after[i] != '<' && after[i] != '"' by {
        assert(after[i] == v[i - 4]);
    }
    assert forall|i: int| n + 9 <= i < n + 9 + m implies #[trigger] after[i] != '<' && after[i]
        != '"' by {
        assert(after[i] == name[i - n - 9]);
    }
    assert forall|i: int| x + 4 <= i < x + 4 + w.len() implies #[trigger] after[i] != '<'
        && after[i] != '"' by {
        assert(after[i] == w[i - x - 4]);
    }
    assert(after.skip(x + w.len() + 6) =~= content);
}

/// The content of an element with such a tag is found under its name.
proof fn lemma_content_of_tag(
    after: Seq<char>,
    name: Seq<char>,
    n: int,
    k: int,
    content: Seq<char>,
)
    requires
        is_tag_with_values(after, name, n, k, content),
        search::find(after, "N=\""@ + name + "\""@) == Some(n + 6),
    ensures
        clixml::named_content("<I32"@ + after, name) == Some(content),
{
    reveal_strlit("<I32");
    reveal_strlit("N=\"");
    reveal_strlit("\"");
    let xml = "<I32"@ + after;
    let m = name.len() as int;
    let x = n + m + 10;
    assert(clixml::name_attribute(name) =~= "N=\""@ + name + "\""@);
    assert(clixml::name_attribute(name).len() == m + 4);
    assert(xml.subrange(0, 4) =~= "<I32"@);
    assert(xml.skip(4) =~= after);
    assert(search::find(xml, "<I32"@) == Some(0int));
    text_laws::law_blanks(' ');
    let tail = after.skip(x);
    lemma_values_passed(after, n, m);
    lemma_last_value(after, x, k);
    assert forall|i: int| 4 <= i < 4 + k implies #[trigger] tail[i] != '<' && tail[i] != '"' by {
        assert(tail[i] == after[x + i]);
    }
    lemma_last_value(tail, 0, k);
    assert(tail.skip(k + 6) =~= after.skip(x + k + 6));
    assert(clixml::tag_end(after) == Some(x + k + 5));
    assert(clixml::tag_end(tail) == Some(k + 5));
    assert(tail[k + 4] == '"');
}

/// The number in an element is what stands before the next tag.
proof fn lemma_number_in_content(t: Seq<char>, close: Seq<char>)
    requires
        search::free_of(t, '<'),
        close.len() > 0,
        close[0] == '<',
    ensures
        search::find(t + close, seq!['<']) == Some(t.len() as int),
        (t + close).take(t.len() as int) == t,
{
    assert(close =~= seq!['<'] + close.skip(1));
    search::lemma_symbol_first(t, close.skip(1), '<');
    assert(t + seq!['<'] + close.skip(1) =~= t + close);
    assert((t + close).take(t.len() as int) =~= t);
}

/// A quoted value at the end of a tag is passed over, and the tag ends behind it.
proof fn lemma_last_value(after: Seq<char>, x: int, n: int)
    requires
        0 <= x,
        0 <= n,
        after.len() >= x + n + 6,
        after[x] == ' ' && after[x + 1] == 'Y' && after[x + 2] == '=' && after[x + 3] == '"',
        forall|i: int| x + 4 <= i < x + 4 + n ==> #[trigger] after[i] != '<' && after[i] != '"',
        after[x + n + 4] == '"',
        after[x + n + 5] == '>',
    ensures
        clixml::unquoted_end(after, None, x) == Some(x + n + 5),
{
    xml_laws::lemma_run_is_passed(after, None, x, x + 3);
    xml_laws::lemma_run_is_passed(after, Some('"'), x + 4, x + n + 4);
    assert(clixml::unquoted_end(after, None, x + n + 5) == Some(x + n + 5));
    assert(clixml::unquoted_end(after, Some('"'), x + n + 4) == clixml::unquoted_end(
        after,
        None,
        x + n + 5,
    ));
    assert(clixml::unquoted_end(after, None, x + 3) == clixml::unquoted_end(
        after,
        Some('"'),
        x + 4,
    ));
}

/// A quoted value and a quoted name at the front of a tag are passed over.
proof fn lemma_values_passed(after: Seq<char>, n: int, m: int)
    requires
        0 <= n,
        0 <= m,
        after.len() >= n + m + 10,
        after[0] == ' ' && after[1] == 'X' && after[2] == '=' && after[3] == '"',
        forall|i: int| 4 <= i < 4 + n ==> #[trigger] after[i] != '<' && after[i] != '"',
        after[n + 4] == '"' && after[n + 5] == ' ' && after[n + 6] == 'N' && after[n + 7] == '='
            && after[n + 8] == '"',
        forall|i: int| n + 9 <= i < n + 9 + m ==> #[trigger] after[i] != '<' && after[i] != '"',
        after[n + m + 9] == '"',
    ensures
        clixml::unquoted_end(after, None, 0) == clixml::unquoted_end(after, None, n + m + 10),
{
    xml_laws::lemma_run_is_passed(after, None, 0, 3);
    xml_laws::lemma_run_is_passed(after, Some('"'), 4, n + 4);
    xml_laws::lemma_run_is_passed(after, None, n + 5, n + 8);
    xml_laws::lemma_run_is_passed(after, Some('"'), n + 9, n + m + 9);
}

/// Two strings one behind the other are shown as two lines.
pub proof fn law_two_strings_are_two_lines(before: Seq<char>, s: Seq<char>, t: Seq<char>)
    requires
        s.len() > 0,
        t.len() > 0,
        xml_laws::free_of_controls(s),
        xml_laws::free_of_quote_entities(s),
        xml_laws::free_of_controls(t),
        xml_laws::free_of_quote_entities(t),
        !search::contains(before, "<S"@),
    ensures
        clixml::output_text(
            before + xml_laws::string_element(s) + xml_laws::string_element(t),
        ) == s + seq!['\n'] + t,
{
    let none = Seq::<char>::empty();
    let second = xml_laws::string_element(t);
    let xml = before + xml_laws::string_element(s) + second;
    reveal_strlit("<S");
    lemma_absent(none, "<S"@, 'S');
    law_strings_are_collected_in_order(before, s, second);
    law_strings_are_collected_in_order(none, t, none);
    law_no_strings(none, none);
    assert(none + "<S>"@ + clixml::escaped(t) + "</S>"@ + none =~= second);
    assert(before + "<S>"@ + clixml::escaped(s) + "</S>"@ + second =~= xml);
    assert(clixml::string_texts(second) =~= seq![t]);
    assert(clixml::string_texts(xml) =~= seq![s].push(t));
    law_strings_are_lines(xml, seq![s], t);
    law_strings_are_lines(xml, seq![s], s);
}

/// A text without an ampersand has nothing to unescape.
pub proof fn law_text_without_entities(t: Seq<char>)
    requires
        search::free_of(t, '&'),
    ensures
        clixml::unescaped(t) == t,
{
    reveal_strlit("&lt;");
    reveal_strlit("&gt;");
    reveal_strlit("&amp;");
    reveal_strlit("&quot;");
    reveal_strlit("&apos;");
    lemma_unreplaced(t, "&lt;"@, "<"@);
    lemma_unreplaced(t, "&gt;"@, ">"@);
    lemma_unreplaced(t, "&amp;"@, "&"@);
    lemma_unreplaced(t, "&quot;"@, "\""@);
    lemma_unreplaced(t, "&apos;"@, "'"@);
}

/// Nothing is replaced in a text that lacks the first symbol of the pattern.
proof fn lemma_unreplaced(t: Seq<char>, p: Seq<char>, r: Seq<char>)
    requires
        p.len() > 0,
        search::free_of(t, p[0]),
    ensures
        text::replace_all(t, p, r) == t,
{
    assert forall|j: int| !#[trigger] search::occurs_at(t, p, j) by {
        if search::occurs_at(t, p, j) {
            assert(t.subrange(j, j + p.len())[0] == t[j]);
        }
    }
    text_laws::law_replace(t, p, t, r);
}

/// The only occurrence of a symbol decides whether a pattern is replaced.
proof fn lemma_one_replacement(
    a: Seq<char>,
    e: Seq<char>,
    b: Seq<char>,
    p: Seq<char>,
    r: Seq<char>,
)
    requires
        p.len() > 0,
        e.len() > 0,
        search::free_of(a, p[0]),
        search::free_of(b, p[0]),
        forall|k: int| 0 < k < e.len() ==> #[trigger] e[k] != p[0],
    ensures
        e == p ==> text::replace_all(a + e + b, p, r) == a + r + b,
        !search::occurs_at(e + b, p, 0) ==> text::replace_all(a + e + b, p, r) == a + e + b,
{
    let s = a + e + b;
    let n = a.len() as int;
    assert forall|j: int| j != n implies !#[trigger] search::occurs_at(s, p, j) by {
        if search::occurs_at(s, p, j) {
            assert(s.subrange(j, j + p.len())[0] == s[j]);
            if j < n {
                assert(s[j] == a[j]);
            } else if j < n + e.len() {
                assert(s[j] == e[j - n]);
            } else {
                assert(s[j] == b[j - n - e.len()]);
            }
        }
    }
    if e == p {
        text_laws::law_replace(a, p, b, r);
        lemma_unreplaced(b, p, r);
    }
    if !search::occurs_at(e + b, p, 0) {
        assert(s =~= a + (e + b));
        search::lemma_occurs_shift(a, e + b, p, 0);
        text_laws::law_replace(s, p, b, r);
    }
}

/// An entity is left alone where another one is replaced.
proof fn lemma_other_entity(
    a: Seq<char>,
    e: Seq<char>,
    b: Seq<char>,
    p: Seq<char>,
    r: Seq<char>,
    k: int,
)
    requires
        p.len() > 0,
        0 <= k < e.len(),
        k < p.len(),
        e[k] != p[k],
        search::free_of(a, p[0]),
        search::free_of(b, p[0]),
        forall|i: int| 0 < i < e.len() ==> #[trigger] e[i] != p[0],
    ensures
        text::replace_all(a + e + b, p, r) == a + e + b,
{
    if search::occurs_at(e + b, p, 0) {
        assert((e + b).subrange(0, p.len() as int)[k] == e[k]);
    }
    lemma_one_replacement(a, e, b, p, r);
}

/// Makes the entities known character by character.
proof fn reveal_entities()
    ensures
        "&lt;"@ =~= seq!['&', 'l', 't', ';'],
        "&gt;"@ =~= seq!['&', 'g', 't', ';'],
        "&amp;"@ =~= seq!['&', 'a', 'm', 'p', ';'],
        "&quot;"@ =~= seq!['&', 'q', 'u', 'o', 't', ';'],
        "&apos;"@ =~= seq!['&', 'a', 'p', 'o', 's', ';'],
        "<"@ =~= seq!['<'],
        ">"@ =~= seq!['>'],
        "&"@ =~= seq!['&'],
        "\""@ =~= seq!['"'],
        "'"@ =~= seq!['\''],
{
    reveal_strlit("&lt;");
    reveal_strlit("&gt;");
    reveal_strlit("&amp;");
    reveal_strlit("&quot;");
    reveal_strlit("&apos;");
    reveal_strlit("<");
    reveal_strlit(">");
    reveal_strlit("&");
    reveal_strlit("\"");
    reveal_strlit("'");
}

/// A character other than the ampersand between texts without one.
proof fn lemma_free_around(a: Seq<char>, c: char, b: Seq<char>)
    requires
        search::free_of(a, '&'),
        search::free_of(b, '&'),
        c != '&',
    ensures
        search::free_of(a + seq![c] + b, '&'),
{
}

/// The entity of the opening angle bracket.
proof fn lemma_lt(a: Seq<char>, b: Seq<char>)
    requires
        search::free_of(a, '&'),
        search::free_of(b, '&'),
    ensures
        clixml::unescaped(a + "&lt;"@ + b) == a + seq!['<'] + b,
{
    reveal_entities();
    let e = "&lt;"@;
    lemma_one_replacement(a, e, b, e, "<"@);
    let t = a + seq!['<'] + b;
    lemma_free_around(a, '<', b);
    lemma_unreplaced(t, "&gt;"@, ">"@);
    lemma_unreplaced(t, "&amp;"@, "&"@);
    lemma_unreplaced(t, "&quot;"@, "\""@);
    lemma_unreplaced(t, "&apos;"@, "'"@);
}

/// The entity of the closing angle bracket.
proof fn lemma_gt(a: Seq<char>, b: Seq<char>)
    requires
        search::free_of(a, '&'),
        search::free_of(b, '&'),
    ensures
        clixml::unescaped(a + "&gt;"@ + b) == a + seq!['>'] + b,
{
    reveal_entities();
    let e = "&gt;"@;
    lemma_other_entity(a, e, b, "&lt;"@, "<"@, 1);
    lemma_one_replacement(a, e, b, e, ">"@);
    let t = a + seq!['>'] + b;
    lemma_free_around(a, '>', b);
    lemma_unreplaced(t, "&amp;"@, "&"@);
    lemma_unreplaced(t, "&quot;"@, "\""@);
    lemma_unreplaced(t, "&apos;"@, "'"@);
}

/// The entity of the double quote.
proof fn lemma_quot(a: Seq<char>, b: Seq<char>)
    requires
        search::free_of(a, '&'),
        search::free_of(b, '&'),
    ensures
        clixml::unescaped(a + "&quot;"@ + b) == a + seq!['"'] + b,
{
    reveal_entities();
    let e = "&quot;"@;
    lemma_other_entity(a, e, b, "&lt;"@, "<"@, 1);
    lemma_other_entity(a, e, b, "&gt;"@, ">"@, 1);
    lemma_other_entity(a, e, b, "&amp;"@, "&"@, 1);
    lemma_one_replacement(a, e, b, e, "\""@);
    lemma_free_around(a, '"', b);
    lemma_unreplaced(a + seq!['"'] + b, "&apos;"@, "'"@);
}

/// The entity of the apostrophe.
proof fn lemma_apos(a: Seq<char>, b: Seq<char>)
    requires
        search::free_of(a, '&'),
        search::free_of(b, '&'),
    ensures
        clixml::unescaped(a + "&apos;"@ + b) == a + seq!['\''] + b,
{
    reveal_entities();
    let e = "&apos;"@;
    lemma_other_entity(a, e, b, "&lt;"@, "<"@, 1);
    lemma_other_entity(a, e, b, "&gt;"@, ">"@, 1);
    lemma_other_entity(a, e, b, "&amp;"@, "&"@, 2);
    lemma_other_entity(a, e, b, "&quot;"@, "\""@, 1);
    lemma_one_replacement(a, e, b, e, "'"@);
}

/// The entity of the ampersand, up to where quotes are resolved.
proof fn lemma_amp(a: Seq<char>, b: Seq<char>)
    requires
        search::free_of(a, '&'),
        search::free_of(b, '&'),
    ensures
        clixml::unescaped(a + "&amp;"@ + b) == text::replace_all(
            text::replace_all(a + seq!['&'] + b, "&quot;"@, "\""@),
            "&apos;"@,
            "'"@,
        ),
{
    reveal_entities();
    let e = "&amp;"@;
    lemma_other_entity(a, e, b, "&lt;"@, "<"@, 1);
    lemma_other_entity(a, e, b, "&gt;"@, ">"@, 1);
    lemma_one_replacement(a, e, b, e, "&"@);
}

/// The entity of the ampersand before a text that does not go on as the entity of a quote.
proof fn lemma_lone_amp(a: Seq<char>, b: Seq<char>)
    requires
        search::free_of(a, '&'),
        search::free_of(b, '&'),
        !search::starts_with(b, "quot;"@),
        !search::starts_with(b, "apos;"@),
    ensures
        clixml::unescaped(a + "&amp;"@ + b) == a + seq!['&'] + b,
{
    reveal_entities();
    reveal_strlit("quot;");
    reveal_strlit("apos;");
    lemma_amp(a, b);
    let e = seq!['&'];
    if search::occurs_at(e + b, "&quot;"@, 0) {
        assert(b.subrange(0, 5) =~= "quot;"@) by {
            assert((e + b).subrange(0, 6).skip(1) =~= b.subrange(0, 5));
            assert("&quot;"@.skip(1) =~= "quot;"@);
        }
    }
    if search::occurs_at(e + b, "&apos;"@, 0) {
        assert(b.subrange(0, 5) =~= "apos;"@) by {
            assert((e + b).subrange(0, 6).skip(1) =~= b.subrange(0, 5));
            assert("&apos;"@.skip(1) =~= "apos;"@);
        }
    }
    lemma_one_replacement(a, e, b, "&quot;"@, "\""@);
    lemma_one_replacement(a, e, b, "&apos;"@, "'"@);
}

/// The entity of a quote whose ampersand is an entity itself.
proof fn lemma_double_entities(a: Seq<char>, b: Seq<char>)
    requires
        search::free_of(a, '&'),
        search::free_of(b, '&'),
    ensures
        clixml::unescaped(a + "&amp;quot;"@ + b) == a + seq!['"'] + b,
        clixml::unescaped(a + "&amp;apos;"@ + b) == a + seq!['\''] + b,
{
    reveal_entities();
    reveal_strlit("&amp;quot;");
    reveal_strlit("&amp;apos;");
    let q = seq!['q', 'u', 'o', 't', ';'];
    let p = seq!['a', 'p', 'o', 's', ';'];
    assert(a + "&amp;quot;"@ + b =~= a + "&amp;"@ + (q + b));
    assert(a + "&amp;apos;"@ + b =~= a + "&amp;"@ + (p + b));
    lemma_amp(a, q + b);
    lemma_amp(a, p + b);
    assert(a + seq!['&'] + (q + b) =~= a + "&quot;"@ + b);
    assert(a + seq!['&'] + (p + b) =~= a + "&apos;"@ + b);
    lemma_one_replacement(a, "&quot;"@, b, "&quot;"@, "\""@);
    lemma_free_around(a, '"', b);
    lemma_unreplaced(a + seq!['"'] + b, "&apos;"@, "'"@);
    lemma_other_entity(a, "&apos;"@, b, "&quot;"@, "\""@, 1);
    lemma_one_replacement(a, "&apos;"@, b, "&apos;"@, "'"@);
}

/// Each of the five entities stands for one character. Ampersands are resolved before quotes, so
/// that the entity of a quote may be written with the entity of the ampersand.
pub proof fn law_entities(a: Seq<char>, b: Seq<char>)
    requires
        search::free_of(a, '&'),
        search::free_of(b, '&'),
    ensures
        clixml::unescaped(a + "&lt;"@ + b) == a + seq!['<'] + b,
        clixml::unescaped(a + "&gt;"@ + b) == a + seq!['>'] + b,
        clixml::unescaped(a + "&quot;"@ + b) == a + seq!['"'] + b,
        clixml::unescaped(a + "&apos;"@ + b) == a + seq!['\''] + b,
        !search::starts_with(b, "quot;"@) && !search::starts_with(b, "apos;"@)
            ==> clixml::unescaped(a + "&amp;"@ + b) == a + seq!['&'] + b,
        clixml::unescaped(a + "&amp;quot;"@ + b) == a + seq!['"'] + b,
        clixml::unescaped(a + "&amp;apos;"@ + b) == a + seq!['\''] + b,
{
    lemma_lt(a, b);
    lemma_gt(a, b);
    lemma_quot(a, b);
    lemma_apos(a, b);
    if !search::starts_with(b, "quot;"@) && !search::starts_with(b, "apos;"@) {
        lemma_lone_amp(a, b);
    }
    lemma_double_entities(a, b);
}

/// How a character is escaped: five have entities, a control character that XML does not allow is
/// given by its number, and every other stands for itself.
pub proof fn law_escape_of_a_character(c: char)
    ensures
        clixml::escaped(Seq::empty()).len() == 0,
        clixml::escaped(seq!['<']) == "&lt;"@,
        clixml::escaped(seq!['>']) == "&gt;"@,
        clixml::escaped(seq!['&']) == "&amp;"@,
        clixml::escaped(seq!['"']) == "&quot;"@,
        clixml::escaped(seq!['\'']) == "&apos;"@,
        c >= ' ' && c != '<' && c != '>' && c != '&' && c != '"' && c != '\'' || c == '\t' || c
            == '\n' || c == '\r' ==> clixml::escaped(seq![c]) == seq![c],
        c < ' ' && c != '\t' && c != '\n' && c != '\r' ==> {
            let e = clixml::escaped(seq![c]);
            let low = c as int % 16;
            &&& e.len() == 7
            &&& e.take(4) == seq!['_', 'x', '0', '0']
            &&& e[4] as int == '0' as int + c as int / 16
            &&& e[5] as int == if low <= 9 {
                '0' as int + low
            } else {
                'A' as int + (low - 10)
            }
            &&& e[6] == '_'
        },
{
    lemma_escaped_one('<');
    lemma_escaped_one('>');
    lemma_escaped_one('&');
    lemma_escaped_one('"');
    lemma_escaped_one('\'');
    lemma_escaped_one(c);
    reveal_strlit("_x00");
    assert("_x00"@ =~= seq!['_', 'x', '0', '0']);
    if clixml::is_forbidden_control(c) {
        assert(clixml::escaped_char(c).take(4) =~= "_x00"@);
    }
}

/// A text of one character is escaped as that character.
proof fn lemma_escaped_one(c: char)
    ensures
        clixml::escaped(seq![c]) == clixml::escaped_char(c),
{
    let none = Seq::<char>::empty();
    assert(seq![c].drop_last() =~= none);
    assert(clixml::escaped(none) =~= none);
    assert(clixml::escaped(seq![c]) =~= clixml::escaped_char(c));
}

/// What stands in the first element with a name is read as a number, blanks aside, if it is one.
pub proof fn law_named_content_is_read(
    before: Seq<char>,
    name: Seq<char>,
    t: Seq<char>,
    behind: Seq<char>,
)
    requires
        search::free_of(t, '<'),
        search::find(
            before + "<I32 N=\""@ + name + "\">"@ + t + "</I32>"@ + behind,
            "N=\""@ + name + "\""@,
        ) == Some(before.len() + 5int),
    ensures
        clixml::named_i32(
            before + "<I32 N=\""@ + name + "\">"@ + t + "</I32>"@ + behind,
            name,
        ) == text::i32_of(text::trim(t, Blank::Unicode)),
{
    reveal_strlit("<I32 ");
    reveal_strlit("<I32 N=\"");
    reveal_strlit("N=\"");
    reveal_strlit("\"");
    reveal_strlit("\">");
    reveal_strlit("</I32>");
    let close = "</I32>"@ + behind;
    let content = t + close;
    let xml = before + "<I32 N=\""@ + name + "\">"@ + t + "</I32>"@ + behind;
    assert(clixml::name_attribute(name) =~= "N=\""@ + name + "\""@);
    assert(xml =~= before + "<I32 "@ + clixml::name_attribute(name) + seq!['>'] + content);
    xml_laws::lemma_named_content(before, name, content);
    search::lemma_find_symbol_after(t, close, '<');
    assert(close.subrange(0, 1) =~= seq!['<']);
    assert(search::find(close, seq!['<']) == Some(0int));
    assert(content.take(t.len() as int) =~= t);
}

/// The text of an element that holds neither a string nor an object's text is shown without its
/// tags and without the blanks around it.
#[verifier::rlimit(40)]
pub proof fn law_other_text_is_shown(tag: Seq<char>, t: Seq<char>)
    requires
        tag.len() > 0,
        tag[0] != 'S',
        tag != "ToString"@,
        search::free_of(tag, '<'),
        search::free_of(tag, '>'),
        search::free_of(t, '<'),
        search::free_of(t, '>'),
    ensures
        clixml::output_text(seq!['<'] + tag + seq!['>'] + t + seq!['<', '/'] + tag + seq!['>'])
            == text::trim(t, Blank::Unicode),
{
    reveal_strlit("<S");
    reveal_strlit("ToString");
    reveal_strlit("<ToString>");
    let lt = seq!['<'];
    let gt = seq!['>'];
    let none = Seq::<char>::empty();
    let xml = lt + tag + gt + t + seq!['<', '/'] + tag + gt;
    let one = tag + gt + t;
    let two = seq!['/'] + tag + gt;
    let n = tag.len() as int;
    let m = t.len() as int;
    assert forall|j: int|
        0 <= j < xml.len() && j != 0 && j != n + m + 2 implies #[trigger] xml[j] != '<' by {
        if j < n + 1 {
            assert(xml[j] == tag[j - 1]);
        } else if j == n + 1 {
            assert(xml[j] == '>');
        } else if j < n + m + 2 {
            assert(xml[j] == t[j - n - 2]);
        } else if j == n + m + 3 {
            assert(xml[j] == '/');
        } else if j < n + m + 4 + n {
            assert(xml[j] == tag[j - n - m - 4]);
        } else {
            assert(xml[j] == '>');
        }
    }
    assert(xml[1] == tag[0]);
    assert(xml[n + m + 3] == '/');
    assert forall|j: int| 0 <= j implies !#[trigger] search::occurs_at(xml, "<S"@, j) by {
        if search::occurs_at(xml, "<S"@, j) {
            assert(xml.subrange(j, j + 2)[0] == xml[j] && xml.subrange(j, j + 2)[1] == xml[j + 1]);
        }
    }
    search::lemma_find_from_none(xml, "<S"@, 0);
    assert forall|j: int| 0 <= j implies !#[trigger] search::occurs_at(xml, "<ToString>"@, j) by {
        if search::occurs_at(xml, "<ToString>"@, j) {
            let found = xml.subrange(j, j + 10);
            assert(found[0] == xml[j] && found[1] == xml[j + 1] && found[9] == xml[j + 9]);
            assert(j == 0);
            assert forall|k: int| 1 <= k < 9 implies #[trigger] found[k] != '>' by {}
            if n < 8 {
                assert(found[n + 1] == xml[n + 1]);
            } else if n > 8 {
                assert(xml[9] == tag[8]);
            } else {
                assert forall|k: int| 0 <= k < 8 implies #[trigger] tag[k] == "ToString"@[k] by {
                    assert(found[k + 1] == xml[k + 1]);
                    assert("<ToString>"@[k + 1] == "ToString"@[k]);
                }
                assert(tag =~= "ToString"@);
            }
        }
    }
    search::lemma_find_from_none(xml, "<ToString>"@, 0);
    assert(xml =~= none + lt + (one + lt + two));
    search::lemma_symbol_first(none, one + lt + two, '<');
    assert(xml.take(0) =~= none);
    assert(xml.skip(1) =~= one + lt + two);
    assert forall|i: int| 0 <= i < one.len() implies #[trigger] one[i] != '<' by {
        if i < n {
            assert(one[i] == tag[i]);
        } else if i > n {
            assert(one[i] == t[i - n - 1]);
        }
    }
    search::lemma_symbol_first(one, two, '<');
    assert((one + lt + two).take(one.len() as int) =~= one);
    assert((one + lt + two).skip(one.len() as int + 1) =~= two);
    assert forall|i: int| 0 <= i < two.len() implies #[trigger] two[i] != '<' by {
        if 0 < i <= n {
            assert(two[i] == tag[i - 1]);
        }
    }
    search::lemma_symbol_absent(two, '<');
    search::lemma_symbol_absent(none, '>');
    assert(clixml::after_tag(none) =~= none);
    search::lemma_symbol_first(tag, t, '>');
    assert(one.skip(n + 1) =~= t);
    search::lemma_symbol_absent(t, '>');
    assert(clixml::after_tag(one) =~= t);
    let slash = seq!['/'] + tag;
    assert forall|i: int| 0 <= i < slash.len() implies #[trigger] slash[i] != '>' by {
        if i > 0 {
            assert(slash[i] == tag[i - 1]);
        }
    }
    search::lemma_symbol_first(slash, none, '>');
    assert(slash + gt + none =~= two);
    assert(two.skip(n + 2) =~= none);
    assert(clixml::after_tag(two) =~= none);
    assert(clixml::without_tags(two) =~= none);
    assert(clixml::without_tags(one + lt + two) =~= t + none);
    assert(clixml::without_tags(xml) =~= none + (t + none));
    assert(none + (t + none) =~= t);
}

/// What precedes a script ends with the start tag of its element, and what follows it begins with
/// the end tag.
#[verifier::rlimit(40)]
proof fn lemma_script_tags()
    ensures
        clixml::CREATE_PIPELINE_HEAD@.len() >= 11,
        clixml::CREATE_PIPELINE_HEAD@.skip(clixml::CREATE_PIPELINE_HEAD@.len() - 11)
            == "<S N=\"Cmd\">"@,
        clixml::CREATE_PIPELINE_TAIL@.len() >= 4,
        clixml::CREATE_PIPELINE_TAIL@.take(4) == "</S>"@,
{
    reveal_strlit(
        r#"<B N="NoInput">true</B><Obj RefId="1" N="ApartmentState"><TN RefId="0"><T>System.Management.Automation.Runspaces.ApartmentState</T><T>System.Enum</T><T>System.ValueType</T><T>System.Object</T></TN><ToString>UNKNOWN</ToString><I32>2</I32></Obj><Obj RefId="2" N="RemoteStreamOptions"><TN RefId="1"><T>System.Management.Automation.Runspaces.RemoteStreamOptions</T><T>System.Enum</T><T>System.ValueType</T><T>System.Object</T></TN><ToString>None</ToString><I32>0</I32></Obj><B N="AddToHistory">false</B><Obj RefId="3" N="HostInfo"><MS><B N="_isHostNull">true</B><B N="_isHostUINull">true</B><B N="_isHostRawUINull">true</B><B N="_useRunspaceHost">true</B></MS></Obj><Obj RefId="4" N="PowerShell"><MS><B N="IsNested">false</B><Nil N="ExtraCmds" /><Obj RefId="5" N="Cmds"><TN RefId="2"><T>System.Collections.Generic.List`1[[System.Management.Automation.PSObject, System.Management.Automation, Version=1.0.0.0, Culture=neutral, PublicKeyToken=31bf3856ad364e35]]</T><T>System.Object</T></TN><LST><Obj RefId="6"><MS><S N="Cmd">"#,
    );
    reveal_strlit(
        r#"</S><B N="IsScript">true</B><Nil N="UseLocalScope" /><Obj RefId="7" N="MergeMyResult"><TN RefId="3"><T>System.Management.Automation.Runspaces.PipelineResultTypes</T><T>System.Enum</T><T>System.ValueType</T><T>System.Object</T></TN><ToString>None</ToString><I32>0</I32></Obj><Obj RefId="8" N="MergeToResult"><TNRef RefId="3" /><ToString>None</ToString><I32>0</I32></Obj><Obj RefId="9" N="MergePreviousResults"><TNRef RefId="3" /><ToString>None</ToString><I32>0</I32></Obj><Obj RefId="10" N="Args"><TNRef RefId="2" /><LST /></Obj><Obj RefId="11" N="MergeError"><TNRef RefId="3" /><ToString>None</ToString><I32>0</I32></Obj><Obj RefId="12" N="MergeWarning"><TNRef RefId="3" /><ToString>None</ToString><I32>0</I32></Obj><Obj RefId="13" N="MergeVerbose"><TNRef RefId="3" /><ToString>None</ToString><I32>0</I32></Obj><Obj RefId="14" N="MergeDebug"><TNRef RefId="3" /><ToString>None</ToString><I32>0</I32></Obj><Obj RefId="15" N="MergeInformation"><TNRef RefId="3" /><ToString>None</ToString><I32>0</I32></Obj></MS></Obj></LST></Obj><Nil N="History" /><B N="RedirectShellErrorOutputPipe">false</B></MS></Obj><B N="IsNested">false</B></MS></Obj>"#,
    );
    reveal_strlit("<S N=\"Cmd\">");
    reveal_strlit("</S>");
    assert(clixml::CREATE_PIPELINE_HEAD@.len() == 1018);
    assert(clixml::CREATE_PIPELINE_HEAD@.skip(1007) =~= "<S N=\"Cmd\">"@);
    assert(clixml::CREATE_PIPELINE_TAIL@.take(4) =~= "</S>"@);
}

/// The script is sent as the text of the command, escaped and whole, in the one place that is made
/// for it: whatever the script is, the same head precedes it and the same tail follows it.
pub proof fn law_script_is_sent_whole(script: Seq<char>)
    ensures
        ({
            let blank = clixml::pipeline_xml(Seq::empty());
            let n = clixml::OBJECT_HEAD@.len() + clixml::CREATE_PIPELINE_HEAD@.len();
            let xml = clixml::pipeline_xml(script);
            &&& xml == blank.take(n as int) + clixml::escaped(script) + blank.skip(n as int)
            &&& search::occurs_at(
                xml,
                "<S N=\"Cmd\">"@ + clixml::escaped(script) + "</S>"@,
                n - 11,
            )
        }),
{
    let none = Seq::<char>::empty();
    let e = clixml::escaped(script);
    let head = clixml::OBJECT_HEAD@ + clixml::CREATE_PIPELINE_HEAD@;
    let tail = clixml::CREATE_PIPELINE_TAIL@;
    let n = head.len() as int;
    let xml = clixml::pipeline_xml(script);
    lemma_script_tags();
    reveal_strlit("<S N=\"Cmd\">");
    reveal_strlit("</S>");
    assert(clixml::escaped(none) =~= none);
    let blank = clixml::pipeline_xml(none);
    assert(blank =~= head + tail);
    assert(blank.take(n) =~= head);
    assert(blank.skip(n) =~= tail);
    let open = "<S N=\"Cmd\">"@;
    let close = "</S>"@;
    let found = xml.subrange(n - 11, n + e.len() + 4);
    let own = clixml::CREATE_PIPELINE_HEAD@;
    assert forall|k: int| 0 <= k < 11 implies #[trigger] found[k] == open[k] by {
        assert(own.skip(own.len() - 11)[k] == own[own.len() - 11 + k]);
    }
    assert forall|k: int| 0 <= k < 4 implies #[trigger] close[k] == found[11 + e.len() + k] by {
        assert(tail.take(4)[k] == tail[k]);
    }
    assert(found =~= open + e + close);
}

/// What the two messages that open a pool say: the versions that the client speaks, and that one
/// runspace without a host is wanted.
pub proof fn law_bodies_that_open_a_pool()
    ensures
        clixml::session_capability_body() == r#"<Obj RefId="0"><MS>"#@
            + r#"<Version N="PSVersion">2.0</Version><Version N="protocolversion">2.3</Version><Version N="SerializationVersion">1.1.0.1</Version></MS></Obj>"#@,
        clixml::init_runspace_pool_body() == r#"<Obj RefId="0"><MS>"#@
            + r#"<I32 N="MinRunspaces">1</I32><I32 N="MaxRunspaces">1</I32><Obj N="PSThreadOptions" RefId="1"><TN RefId="2"><T>System.Management.Automation.Runspaces.PSThreadOptions</T><T>System.Enum</T><T>System.ValueType</T><T>System.Object</T></TN><ToString>Default</ToString><I32>0</I32></Obj><Obj N="ApartmentState" RefId="3"><TN RefId="4"><T>System.Management.Automation.Runspaces.ApartmentState</T><T>System.Enum</T><T>System.ValueType</T><T>System.Object</T></TN><ToString>UNKNOWN</ToString><I32>2</I32></Obj><Obj N="HostInfo" RefId="5"><MS><B N="_isHostNull">true</B><B N="_isHostUINull">true</B><B N="_isHostRawUINull">true</B><B N="_useRunspaceHost">true</B></MS></Obj><Nil N="ApplicationArguments"/></MS></Obj>"#@,
{
}

} // verus!
