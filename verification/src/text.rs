//! Character sequences: conversion, trimming, numbers, replacement.

use vstd::prelude::*;
use vstd::slice::slice_subrange;

use crate::search;

verus! {

/// `String::push` appends the given character and keeps what was there.
pub assume_specification[ String::push ](s: &mut String, c: char)
    ensures
        final(s)@ == old(s)@.push(c),
;

/// The characters of a string slice.
pub fn chars_of(s: &str) -> (r: Vec<char>)
    ensures
        r@ == s@,
{
    let mut out: Vec<char> = Vec::new();
    for c in it: s.chars()
        invariant
            it.seq() == s@,
            out@ == s@.take(it.index() as int),
    {
        out.push(c);
    }
    assert(s@.take(s@.len() as int) =~= s@);
    out
}

/// The string that holds the given characters.
pub fn string_of(s: &[char]) -> (r: String)
    ensures
        r@ == s@,
{
    let mut out = String::new();
    let mut i: usize = 0;
    while i < s.len()
        invariant
            i <= s@.len(),
            out@ == s@.take(i as int),
        decreases s@.len() - i,
    {
        out.push(s[i]);
        i += 1;
        assert(s@.take(i as int) =~= s@.take(i - 1).push(s@[i - 1]));
    }
    assert(s@.take(s@.len() as int) =~= s@);
    out
}

/// The concatenation of two strings.
pub fn concat(a: &str, b: &str) -> (r: String)
    ensures
        r@ == a@ + b@,
{
    let mut out = a.to_owned();
    out.append(b);
    out
}

/// Whether a text holds another.
pub fn has(s: &str, p: &str) -> (r: bool)
    ensures
        r == search::contains(s@, p@),
{
    search::find_in(chars_of(s).as_slice(), chars_of(p).as_slice()).is_some()
}

/// The decimal digit of a number below ten.
pub open spec fn digit_char(d: nat) -> char {
    (48 + d) as char
}

/// A number in decimal notation, without leading zeros.
pub open spec fn decimal(n: nat) -> Seq<char>
    decreases n,
{
    if n < 10 {
        seq![digit_char(n)]
    } else {
        decimal(n / 10).push(digit_char(n % 10))
    }
}

/// A number in decimal notation.
pub fn decimal_text(n: u64) -> (r: String)
    ensures
        r@ == decimal(n as nat),
    decreases n,
{
    let mut out = if n < 10 {
        String::new()
    } else {
        decimal_text(n / 10)
    };
    out.push((48 + (n % 10) as u8) as char);
    assert(out@ =~= decimal(n as nat));
    out
}

/// The hexadecimal digit of a number below sixteen, in lower case.
pub open spec fn hex_char(d: nat) -> char {
    if d < 10 {
        (48 + d) as char
    } else {
        (87 + d) as char
    }
}

/// The `width` low hexadecimal digits of a number, most significant first, in lower case.
pub open spec fn hex(n: nat, width: nat) -> Seq<char>
    decreases width,
{
    if width == 0 {
        Seq::empty()
    } else {
        hex(n / 16, (width - 1) as nat).push(hex_char(n % 16))
    }
}

/// The `width` low hexadecimal digits of a number.
pub fn hex_text(n: u32, width: u32) -> (r: String)
    ensures
        r@ == hex(n as nat, width as nat),
    decreases width,
{
    if width == 0 {
        return String::new();
    }
    let mut out = hex_text(n / 16, width - 1);
    let d: u8 = (n % 16) as u8;
    out.push(if d < 10 { (48 + d) as char } else { (87 + d) as char });
    out
}

/// Which characters count as blank.
#[derive(Clone, Copy)]
pub enum Blank {
    /// The Unicode property `White_Space`.
    Unicode,
    /// Space, tab, line feed, form feed and carriage return.
    Ascii,
}

impl Blank {
    /// The character is blank.
    pub open spec fn covers(self, c: char) -> bool {
        match self {
            Blank::Unicode => {
                ||| 0x9 <= c as u32 <= 0xd
                ||| c as u32 == 0x20
                ||| c as u32 == 0x85
                ||| c as u32 == 0xa0
                ||| c as u32 == 0x1680
                ||| 0x2000 <= c as u32 <= 0x200a
                ||| c as u32 == 0x2028
                ||| c as u32 == 0x2029
                ||| c as u32 == 0x202f
                ||| c as u32 == 0x205f
                ||| c as u32 == 0x3000
            },
            Blank::Ascii => {
                ||| c as u32 == 0x9
                ||| c as u32 == 0xa
                ||| c as u32 == 0xc
                ||| c as u32 == 0xd
                ||| c as u32 == 0x20
            },
        }
    }

    /// Whether the character is blank.
    pub fn is_blank(self, c: char) -> (r: bool)
        ensures
            r == self.covers(c),
    {
        let u: u32 = c as u32;
        match self {
            Blank::Unicode => (0x9 <= u && u <= 0xd) || u == 0x20 || u == 0x85 || u == 0xa0
                || u == 0x1680 || (0x2000 <= u && u <= 0x200a) || u == 0x2028 || u == 0x2029
                || u == 0x202f || u == 0x205f || u == 0x3000,
            Blank::Ascii => u == 0x9 || u == 0xa || u == 0xc || u == 0xd || u == 0x20,
        }
    }
}

/// The sequence without its leading blanks.
pub open spec fn trim_start(s: Seq<char>, blank: Blank) -> Seq<char>
    decreases s.len(),
{
    if s.len() > 0 && blank.covers(s.first()) {
        trim_start(s.drop_first(), blank)
    } else {
        s
    }
}

/// The sequence without its trailing blanks.
pub open spec fn trim_end(s: Seq<char>, blank: Blank) -> Seq<char>
    decreases s.len(),
{
    if s.len() > 0 && blank.covers(s.last()) {
        trim_end(s.drop_last(), blank)
    } else {
        s
    }
}

/// The sequence without its leading and trailing blanks.
pub open spec fn trim(s: Seq<char>, blank: Blank) -> Seq<char> {
    trim_end(trim_start(s, blank), blank)
}

/// The slice without its leading and trailing blanks.
pub fn trimmed<'a>(s: &'a [char], blank: Blank) -> (r: &'a [char])
    ensures
        r@ == trim(s@, blank),
{
    let mut from: usize = 0;
    assert(s@.skip(0) =~= s@);
    while from < s.len() && blank.is_blank(s[from])
        invariant
            from <= s@.len(),
            trim_start(s@, blank) == trim_start(s@.skip(from as int), blank),
        decreases s@.len() - from,
    {
        assert(s@.skip(from as int).drop_first() =~= s@.skip(from + 1));
        from += 1;
    }
    let ghost front = s@.skip(from as int);
    assert(trim_start(s@, blank) == front);
    let mut upto: usize = s.len();
    assert(s@.subrange(from as int, upto as int) =~= front);
    while from < upto && blank.is_blank(s[upto - 1])
        invariant
            from <= upto <= s@.len(),
            trim_end(front, blank) == trim_end(s@.subrange(from as int, upto as int), blank),
        decreases upto,
    {
        assert(s@.subrange(from as int, upto as int).drop_last() =~= s@.subrange(
            from as int,
            upto - 1,
        ));
        upto -= 1;
    }
    slice_subrange(s, from, upto)
}

/// The character is a decimal digit.
pub open spec fn is_digit(c: char) -> bool {
    48 <= c as u32 <= 57
}

/// Every character is a decimal digit.
pub open spec fn all_digits(s: Seq<char>) -> bool {
    forall|i: int| 0 <= i < s.len() ==> is_digit(#[trigger] s[i])
}

/// The number that a sequence of decimal digits denotes.
pub open spec fn digits_value(s: Seq<char>) -> int
    decreases s.len(),
{
    if s.len() == 0 {
        0
    } else {
        digits_value(s.drop_last()) * 10 + (s.last() as u32 - 48)
    }
}

/// What follows an optional leading sign.
pub open spec fn unsigned_part(s: Seq<char>) -> Seq<char> {
    if s.len() > 0 && (s[0] == '+' || s[0] == '-') {
        s.skip(1)
    } else {
        s
    }
}

/// The number that an optional sign and at least one digit denote.
pub open spec fn signed_value(s: Seq<char>) -> int {
    if s.len() > 0 && s[0] == '-' {
        -digits_value(unsigned_part(s))
    } else {
        digits_value(unsigned_part(s))
    }
}

/// The value of a 32-bit signed number in decimal notation.
///
/// There is one only if the text is an optional sign and at least one digit, and the number fits.
pub open spec fn i32_of(s: Seq<char>) -> Option<i32> {
    let digits = unsigned_part(s);
    if digits.len() > 0 && all_digits(digits) && i32::MIN <= signed_value(s) <= i32::MAX {
        Some(signed_value(s) as i32)
    } else {
        None
    }
}

/// The value of digits stays above zero, and appending digits does not make it smaller.
pub proof fn lemma_digits_value_prefix(s: Seq<char>, n: int)
    requires
        all_digits(s),
        0 <= n <= s.len(),
    ensures
        0 <= digits_value(s.take(n)) <= digits_value(s),
    decreases s.len(),
{
    if s.len() > 0 {
        let front = s.drop_last();
        assert forall|i: int| 0 <= i < front.len() implies is_digit(#[trigger] front[i]) by {
            assert(front[i] == s[i]);
        }
        assert(is_digit(s[s.len() - 1]));
        if n == s.len() {
            assert(s.take(n) =~= s);
            lemma_digits_value_prefix(front, 0);
        } else {
            assert(s.take(n) =~= front.take(n));
            lemma_digits_value_prefix(front, n);
        }
    } else {
        assert(s.take(n) =~= s);
    }
}

/// The decimal notation of a number consists of digits that denote it.
pub proof fn lemma_decimal_value(n: nat)
    ensures
        decimal(n).len() > 0,
        all_digits(decimal(n)),
        digits_value(decimal(n)) == n,
    decreases n,
{
    let s = decimal(n);
    if n < 10 {
        assert(s.drop_last() =~= Seq::<char>::empty());
        assert(digits_value(s.drop_last()) == 0);
    } else {
        lemma_decimal_value(n / 10);
        assert(s.drop_last() =~= decimal(n / 10));
    }
}

/// Reads a 32-bit signed number in decimal notation.
pub fn read_i32(s: &[char]) -> (r: Option<i32>)
    ensures
        r == i32_of(s@),
{
    let signed = s.len() > 0 && (s[0] == '+' || s[0] == '-');
    let negative = s.len() > 0 && s[0] == '-';
    let digits = if signed {
        slice_subrange(s, 1, s.len())
    } else {
        s
    };
    assert(digits@ =~= unsigned_part(s@));
    if digits.len() == 0 {
        return None;
    }
    let mut i: usize = 0;
    while i < digits.len()
        invariant
            i <= digits@.len(),
            digits@ == unsigned_part(s@),
            forall|j: int| 0 <= j < i ==> is_digit(#[trigger] digits@[j]),
        decreases digits@.len() - i,
    {
        let u: u32 = digits[i] as u32;
        if u < 48 || u > 57 {
            assert(!is_digit(digits@[i as int]));
            return None;
        }
        i += 1;
    }
    assert(all_digits(digits@));
    let mut value: i64 = 0;
    let mut k: usize = 0;
    assert(digits@.take(0) =~= Seq::<char>::empty());
    while k < digits.len()
        invariant
            k <= digits@.len(),
            all_digits(digits@),
            digits@ == unsigned_part(s@),
            negative == (s@.len() > 0 && s@[0] == '-'),
            0 <= value <= 2147483648,
            value == digits_value(digits@.take(k as int)),
        decreases digits@.len() - k,
    {
        assert(is_digit(digits@[k as int]));
        value = value * 10 + (digits[k] as u32 - 48) as i64;
        k += 1;
        assert(digits@.take(k as int).drop_last() =~= digits@.take(k - 1));
        if value > 2147483648 {
            proof {
                lemma_digits_value_prefix(digits@, k as int);
            }
            return None;
        }
    }
    assert(digits@.take(k as int) =~= digits@);
    let total: i64 = if negative { -value } else { value };
    if total > 2147483647 {
        None
    } else {
        Some(total as i32)
    }
}

/// Every occurrence of `p`, taken from the left without overlap, replaced by `r`.
pub open spec fn replace_all(s: Seq<char>, p: Seq<char>, r: Seq<char>) -> Seq<char>
    decreases s.len(),
    when p.len() > 0
    via replace_all_decreases
{
    match search::find(s, p) {
        Some(i) => s.take(i) + r + replace_all(s.skip(i + p.len()), p, r),
        None => s,
    }
}

#[via_fn]
proof fn replace_all_decreases(s: Seq<char>, p: Seq<char>, r: Seq<char>) {
    search::lemma_find_from(s, p, 0);
}

/// Replacing in a sequence that begins with `p`.
pub proof fn lemma_replace_hit(s: Seq<char>, p: Seq<char>, r: Seq<char>)
    requires
        p.len() > 0,
        search::occurs_at(s, p, 0),
    ensures
        replace_all(s, p, r) == r + replace_all(s.skip(p.len() as int), p, r),
{
    assert(s.take(0) + r =~= r);
}

/// Replacing in a sequence that does not begin with `p`.
pub proof fn lemma_replace_miss(s: Seq<char>, p: Seq<char>, r: Seq<char>)
    requires
        p.len() > 0,
        s.len() > 0,
        !search::occurs_at(s, p, 0),
    ensures
        replace_all(s, p, r) == seq![s[0]] + replace_all(s.drop_first(), p, r),
{
    let a = seq![s[0]];
    let t = s.drop_first();
    assert(s =~= a + t);
    search::lemma_find_shift(a, t, p, 0);
    search::lemma_find_from(t, p, 0);
    match search::find(t, p) {
        Some(i) => {
            assert(s.take(i + 1) =~= a + t.take(i));
            assert(s.skip(i + 1 + p.len()) =~= t.skip(i + p.len()));
            assert(replace_all(s, p, r) =~= a + replace_all(t, p, r));
        },
        None => {
            assert(replace_all(s, p, r) =~= a + replace_all(t, p, r));
        },
    }
}

/// Replacing leaves a front alone at which `p` nowhere begins.
pub proof fn lemma_replace_skip(g: Seq<char>, y: Seq<char>, p: Seq<char>, r: Seq<char>)
    requires
        p.len() > 0,
        forall|j: int| 0 <= j < g.len() ==> !search::occurs_at(g + y, p, j),
    ensures
        replace_all(g + y, p, r) == g + replace_all(y, p, r),
    decreases g.len(),
{
    if g.len() == 0 {
        assert(g + y =~= y);
        assert(g + replace_all(y, p, r) =~= replace_all(y, p, r));
    } else {
        let t = g.drop_first();
        lemma_replace_miss(g + y, p, r);
        assert((g + y).drop_first() =~= t + y);
        assert forall|j: int| 0 <= j < t.len() implies !search::occurs_at(t + y, p, j) by {
            search::lemma_occurs_shift(seq![g[0]], t + y, p, j);
            assert(seq![g[0]] + (t + y) =~= g + y);
            assert(!search::occurs_at(g + y, p, j + 1));
        }
        lemma_replace_skip(t, y, p, r);
        assert(seq![g[0]] + (t + replace_all(y, p, r)) =~= g + replace_all(y, p, r));
    }
}

/// Replaces every occurrence of `p` by `with`.
pub fn replaced(s: &[char], p: &[char], with: &[char]) -> (r: Vec<char>)
    requires
        p@.len() > 0,
    ensures
        r@ == replace_all(s@, p@, with@),
{
    let mut out: Vec<char> = Vec::new();
    let mut rest = s;
    loop
        invariant
            p@.len() > 0,
            out@ + replace_all(rest@, p@, with@) =~= replace_all(s@, p@, with@),
        decreases rest@.len(),
    {
        match search::find_in(rest, p) {
            Some(i) => {
                out.extend_from_slice(slice_subrange(rest, 0, i));
                out.extend_from_slice(with);
                rest = slice_subrange(rest, i + p.len(), rest.len());
            },
            None => {
                out.extend_from_slice(rest);
                return out;
            },
        }
    }
}

} // verus!
