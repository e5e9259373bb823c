//! What holds of blanks, numbers and replacements in texts.

use vstd::prelude::*;

use crate::search;
use crate::text;
use crate::text::Blank;

verus! {

/// Every character is blank.
pub open spec fn all_blank(s: Seq<char>, blank: Blank) -> bool {
    forall|i: int| 0 <= i < s.len() ==> blank.covers(#[trigger] s[i])
}

/// Which characters are blank.
pub proof fn law_blanks(c: char)
    ensures
        Blank::Ascii.covers(c) <==> c == ' ' || c == '\t' || c == '\n' || c == '\r' || c
            == '\u{c}',
        Blank::Unicode.covers(c) <==> '\t' <= c <= '\r' || c == ' ' || c == '\u{85}' || c
            == '\u{a0}' || c == '\u{1680}' || '\u{2000}' <= c <= '\u{200a}' || c == '\u{2028}' || c
            == '\u{2029}' || c == '\u{202f}' || c == '\u{205f}' || c == '\u{3000}',
{
}

/// Blanks before a text do not matter.
proof fn lemma_trim_start(a: Seq<char>, t: Seq<char>, blank: Blank)
    requires
        all_blank(a, blank),
    ensures
        text::trim_start(a + t, blank) == text::trim_start(t, blank),
    decreases a.len(),
{
    if a.len() == 0 {
        assert(a + t =~= t);
    } else {
        let rest = a.drop_first();
        assert(blank.covers(a[0]));
        assert forall|i: int| 0 <= i < rest.len() implies blank.covers(#[trigger] rest[i]) by {
            assert(rest[i] == a[i + 1]);
        }
        assert((a + t).drop_first() =~= rest + t);
        lemma_trim_start(rest, t, blank);
    }
}

/// Blanks behind a text do not matter.
proof fn lemma_trim_end(t: Seq<char>, b: Seq<char>, blank: Blank)
    requires
        all_blank(b, blank),
    ensures
        text::trim_end(t + b, blank) == text::trim_end(t, blank),
    decreases b.len(),
{
    if b.len() == 0 {
        assert(t + b =~= t);
    } else {
        let rest = b.drop_last();
        assert(blank.covers(b[b.len() - 1]));
        assert forall|i: int| 0 <= i < rest.len() implies blank.covers(#[trigger] rest[i]) by {
            assert(rest[i] == b[i]);
        }
        assert((t + b).drop_last() =~= t + rest);
        lemma_trim_end(t, rest, blank);
    }
}

/// Trimming takes away the blanks on both sides and nothing else.
pub proof fn law_trim(a: Seq<char>, t: Seq<char>, b: Seq<char>, blank: Blank)
    requires
        all_blank(a, blank),
        all_blank(b, blank),
        t.len() > 0 ==> !blank.covers(t[0]) && !blank.covers(t[t.len() - 1]),
    ensures
        text::trim(a + t + b, blank) == t,
{
    assert(a + t + b =~= a + (t + b));
    lemma_trim_start(a, t + b, blank);
    if t.len() == 0 {
        let none = Seq::<char>::empty();
        assert(t + b =~= b + none);
        lemma_trim_start(b, none, blank);
        assert(text::trim_start(none, blank) =~= none);
        assert(text::trim_end(none, blank) =~= none);
        assert(t =~= none);
    } else {
        assert((t + b)[0] == t[0]);
        lemma_trim_end(t, b, blank);
    }
}

/// The value of digits: each one weighs ten times what the next one weighs.
pub proof fn law_digits_value(s: Seq<char>, c: char)
    ensures
        text::digits_value(Seq::empty()) == 0,
        text::digits_value(s.push(c)) == 10 * text::digits_value(s) + (c as u32 - '0' as u32),
        text::is_digit(c) <==> '0' <= c <= '9',
{
    assert(s.push(c).drop_last() =~= s);
}

/// A number is read from digits with an optional sign, leading zeros included, if it fits.
pub proof fn law_number_is_read(d: Seq<char>)
    requires
        d.len() > 0,
        text::all_digits(d),
    ensures
        ({
            let v = text::digits_value(d);
            &&& text::i32_of(d) == if v <= 0x7fff_ffff {
                Some(v as i32)
            } else {
                None
            }
            &&& text::i32_of(seq!['+'] + d) == text::i32_of(d)
            &&& text::i32_of(seq!['-'] + d) == if v <= 0x8000_0000 {
                Some((-v) as i32)
            } else {
                None
            }
        }),
{
    text::lemma_digits_value_prefix(d, 0);
    assert(text::is_digit(d[0]));
    assert((seq!['+'] + d).skip(1) =~= d);
    assert((seq!['-'] + d).skip(1) =~= d);
}

/// Nothing but digits with an optional sign before them is a number.
pub proof fn law_no_number(s: Seq<char>, i: int)
    ensures
        s.len() == 0 ==> text::i32_of(s) is None,
        s.len() == 1 && !('0' <= s[0] <= '9') ==> text::i32_of(s) is None,
        0 <= i < s.len() && !('0' <= s[i] <= '9') && !(i == 0 && (s[0] == '+' || s[0] == '-'))
            ==> text::i32_of(s) is None,
{
    if 0 <= i < s.len() && !('0' <= s[i] <= '9') && !(i == 0 && (s[0] == '+' || s[0] == '-')) {
        let d = text::unsigned_part(s);
        let k = i - (s.len() - d.len());
        law_digits_value(Seq::empty(), s[i]);
        assert(d[k] == s[i]);
        assert(!text::is_digit(d[k]));
    }
    if s.len() == 1 && !('0' <= s[0] <= '9') {
        let d = text::unsigned_part(s);
        law_digits_value(Seq::empty(), s[0]);
        assert(d.len() > 0 ==> d[0] == s[0] && !text::is_digit(d[0]));
    }
}

/// Decimal notation: the digits of the tenth part, if there is any, and then the digit of the
/// rest.
pub proof fn law_decimal(n: nat)
    ensures
        text::decimal(n).len() > 0,
        text::decimal(n).last() as int == '0' as int + n % 10,
        n < 10 ==> text::decimal(n).len() == 1,
        n >= 10 ==> text::decimal(n).drop_last() == text::decimal(n / 10),
{
    if n >= 10 {
        assert(text::decimal(n).drop_last() =~= text::decimal(n / 10));
    }
}

/// Hexadecimal notation: the digits of the sixteenth part, and then the digit of the rest.
pub proof fn law_hex(n: nat, width: nat)
    ensures
        text::hex(n, 0).len() == 0,
        text::hex(n, width + 1).drop_last() == text::hex(n / 16, width),
        text::hex(n, width + 1).last() as int == if n % 16 < 10 {
            '0' as int + n % 16
        } else {
            'a' as int + (n % 16 - 10)
        },
{
    assert(text::hex(n, width + 1).drop_last() =~= text::hex(n / 16, width));
}

/// Replacing goes on behind the first occurrence, and changes nothing where there is none.
pub proof fn law_replace(a: Seq<char>, p: Seq<char>, b: Seq<char>, r: Seq<char>)
    requires
        p.len() > 0,
    ensures
        (forall|j: int| 0 <= j < a.len() ==> !#[trigger] search::occurs_at(a + p + b, p, j))
            ==> text::replace_all(a + p + b, p, r) == a + r + text::replace_all(b, p, r),
        (forall|j: int| !#[trigger] search::occurs_at(a, p, j)) ==> text::replace_all(a, p, r)
            == a,
{
    let s = a + p + b;
    let n = a.len() as int;
    if forall|j: int| 0 <= j < n ==> !#[trigger] search::occurs_at(s, p, j) {
        assert(s.subrange(n, n + p.len()) =~= p);
        search::lemma_find_from_is(s, p, 0, n);
        assert(s.take(n) =~= a);
        assert(s.skip(n + p.len()) =~= b);
    }
    search::lemma_find_from(a, p, 0);
}

} // verus!
