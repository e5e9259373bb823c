//! Searching for a pattern in a sequence of bytes or characters.

use vstd::prelude::*;
use vstd::slice::slice_subrange;

verus! {

/// The pattern `p` stands in `s` at index `i`.
pub open spec fn occurs_at<T>(s: Seq<T>, p: Seq<T>, i: int) -> bool {
    0 <= i && i + p.len() <= s.len() && s.subrange(i, i + p.len()) == p
}

/// The least index at or after `from` at which `p` stands in `s`.
pub open spec fn find_from<T>(s: Seq<T>, p: Seq<T>, from: int) -> Option<int>
    decreases s.len() - from + 1,
{
    if from + p.len() > s.len() {
        None
    } else if occurs_at(s, p, from) {
        Some(from)
    } else {
        find_from(s, p, from + 1)
    }
}

/// The index of the first occurrence of `p` in `s`.
pub open spec fn find<T>(s: Seq<T>, p: Seq<T>) -> Option<int> {
    find_from(s, p, 0)
}

/// The greatest index at or before `upto` at which `p` stands in `s`.
pub open spec fn rfind_upto<T>(s: Seq<T>, p: Seq<T>, upto: int) -> Option<int>
    decreases upto + 1,
{
    if upto < 0 {
        None
    } else if occurs_at(s, p, upto) {
        Some(upto)
    } else {
        rfind_upto(s, p, upto - 1)
    }
}

/// The index of the last occurrence of `p` in `s`.
pub open spec fn rfind<T>(s: Seq<T>, p: Seq<T>) -> Option<int> {
    rfind_upto(s, p, s.len() - p.len())
}

/// `p` stands somewhere in `s`.
pub open spec fn contains<T>(s: Seq<T>, p: Seq<T>) -> bool {
    find(s, p) is Some
}

/// `s` begins with `p`.
pub open spec fn starts_with<T>(s: Seq<T>, p: Seq<T>) -> bool {
    occurs_at(s, p, 0)
}

/// What precedes the first occurrence of `p` in `s`, or all of `s` if there is none.
pub open spec fn before_first<T>(s: Seq<T>, p: Seq<T>) -> Seq<T> {
    match find(s, p) {
        Some(i) => s.take(i),
        None => s,
    }
}

/// What follows the last occurrence of `p` in `s`, or all of `s` if there is none.
pub open spec fn after_last<T>(s: Seq<T>, p: Seq<T>) -> Seq<T> {
    match rfind(s, p) {
        Some(i) => s.skip(i + p.len()),
        None => s,
    }
}

/// What precedes the last occurrence of `p` in `s`, or all of `s` if there is none.
pub open spec fn before_last<T>(s: Seq<T>, p: Seq<T>) -> Seq<T> {
    match rfind(s, p) {
        Some(i) => s.take(i),
        None => s,
    }
}

/// `find_from` yields the least occurrence at or after `from`, and `None` only where there is none.
pub proof fn lemma_find_from<T>(s: Seq<T>, p: Seq<T>, from: int)
    requires
        0 <= from,
    ensures
        match find_from(s, p, from) {
            Some(i) => {
                &&& from <= i
                &&& occurs_at(s, p, i)
                &&& forall|j: int| from <= j < i ==> !occurs_at(s, p, j)
            },
            None => forall|j: int| from <= j ==> !occurs_at(s, p, j),
        },
    decreases s.len() - from + 1,
{
    if from + p.len() > s.len() {
    } else if occurs_at(s, p, from) {
    } else {
        lemma_find_from(s, p, from + 1);
    }
}

/// An occurrence at `i` with none between `from` and `i` is what `find_from` yields.
pub proof fn lemma_find_from_is<T>(s: Seq<T>, p: Seq<T>, from: int, i: int)
    requires
        0 <= from <= i,
        occurs_at(s, p, i),
        forall|j: int| from <= j < i ==> !occurs_at(s, p, j),
    ensures
        find_from(s, p, from) == Some(i),
    decreases i - from,
{
    if from < i {
        lemma_find_from_is(s, p, from + 1, i);
    }
}

/// Without an occurrence at or after `from`, `find_from` yields `None`.
pub proof fn lemma_find_from_none<T>(s: Seq<T>, p: Seq<T>, from: int)
    requires
        0 <= from,
        forall|j: int| from <= j ==> !occurs_at(s, p, j),
    ensures
        find_from(s, p, from) is None,
{
    lemma_find_from(s, p, from);
}

/// What stands in `t` stands in `a + t`, further back by the length of `a`.
pub proof fn lemma_occurs_shift<T>(a: Seq<T>, t: Seq<T>, p: Seq<T>, i: int)
    requires
        0 <= i,
    ensures
        occurs_at(a + t, p, a.len() + i) == occurs_at(t, p, i),
{
    let s = a + t;
    if i + p.len() <= t.len() {
        assert(s.subrange(a.len() + i, a.len() + i + p.len()) =~= t.subrange(i, i + p.len()));
    }
}

/// Searching `a + t` behind `a` is searching `t`.
pub proof fn lemma_find_shift<T>(a: Seq<T>, t: Seq<T>, p: Seq<T>, from: int)
    requires
        0 <= from,
    ensures
        find_from(a + t, p, a.len() + from) == match find_from(t, p, from) {
            Some(i) => Some(a.len() + i),
            None => None,
        },
    decreases t.len() - from + 1,
{
    lemma_occurs_shift(a, t, p, from);
    if from + p.len() <= t.len() && !occurs_at(t, p, from) {
        lemma_find_shift(a, t, p, from + 1);
    }
}

/// A symbol that stands nowhere in `a` is first found in `a + t` where it is first found in `t`.
pub proof fn lemma_find_symbol_after<T>(a: Seq<T>, t: Seq<T>, c: T)
    requires
        forall|i: int| 0 <= i < a.len() ==> a[i] != c,
    ensures
        find(a + t, seq![c]) == match find(t, seq![c]) {
            Some(i) => Some(a.len() + i),
            None => None,
        },
{
    let s = a + t;
    let p = seq![c];
    lemma_find_from(t, p, 0);
    assert forall|j: int| 0 <= j < a.len() implies !occurs_at(s, p, j) by {
        if occurs_at(s, p, j) {
            assert(s.subrange(j, j + 1)[0] == p[0]);
        }
    }
    match find(t, p) {
        Some(i) => {
            lemma_occurs_shift(a, t, p, i);
            assert forall|j: int| 0 <= j < a.len() + i implies !occurs_at(s, p, j) by {
                if j >= a.len() {
                    lemma_occurs_shift(a, t, p, j - a.len());
                }
            }
            lemma_find_from_is(s, p, 0, a.len() + i);
        },
        None => {
            assert forall|j: int| 0 <= j implies !occurs_at(s, p, j) by {
                if j >= a.len() {
                    lemma_occurs_shift(a, t, p, j - a.len());
                }
            }
            lemma_find_from_none(s, p, 0);
        },
    }
}

/// `rfind_upto` yields the greatest occurrence at or before `upto`.
pub proof fn lemma_rfind_upto<T>(s: Seq<T>, p: Seq<T>, upto: int)
    ensures
        match rfind_upto(s, p, upto) {
            Some(i) => {
                &&& i <= upto
                &&& occurs_at(s, p, i)
                &&& forall|j: int| i < j <= upto ==> !occurs_at(s, p, j)
            },
            None => forall|j: int| j <= upto ==> !occurs_at(s, p, j),
        },
    decreases upto + 1,
{
    if upto < 0 {
    } else if occurs_at(s, p, upto) {
    } else {
        lemma_rfind_upto(s, p, upto - 1);
    }
}

/// An occurrence at `i` with none between `i` and `upto` is what `rfind_upto` yields.
pub proof fn lemma_rfind_upto_is<T>(s: Seq<T>, p: Seq<T>, upto: int, i: int)
    requires
        0 <= i <= upto,
        occurs_at(s, p, i),
        forall|j: int| i < j <= upto ==> !occurs_at(s, p, j),
    ensures
        rfind_upto(s, p, upto) == Some(i),
    decreases upto - i,
{
    if i < upto {
        lemma_rfind_upto_is(s, p, upto - 1, i);
    }
}

/// The symbol stands nowhere in `s`.
pub open spec fn free_of<T>(s: Seq<T>, c: T) -> bool {
    forall|i: int| 0 <= i < s.len() ==> #[trigger] s[i] != c
}

/// A symbol occurs as a pattern exactly where it stands.
proof fn lemma_symbol_occurs<T>(s: Seq<T>, c: T, i: int)
    requires
        0 <= i < s.len(),
    ensures
        occurs_at(s, seq![c], i) <==> s[i] == c,
{
    if s[i] == c {
        assert(s.subrange(i, i + 1) =~= seq![c]);
    } else {
        assert(s.subrange(i, i + 1)[0] == s[i]);
    }
}

/// A symbol that stands nowhere is found nowhere.
pub proof fn lemma_symbol_absent<T>(s: Seq<T>, c: T)
    requires
        free_of(s, c),
    ensures
        find(s, seq![c]) is None,
        rfind(s, seq![c]) is None,
{
    let p = seq![c];
    assert forall|j: int| !occurs_at(s, p, j) by {
        if occurs_at(s, p, j) {
            lemma_symbol_occurs(s, c, j);
        }
    }
    lemma_find_from(s, p, 0);
    lemma_rfind_upto(s, p, s.len() - p.len());
}

/// The first occurrence of a symbol is the one behind a part that is free of it.
pub proof fn lemma_symbol_first<T>(a: Seq<T>, b: Seq<T>, c: T)
    requires
        free_of(a, c),
    ensures
        find(a + seq![c] + b, seq![c]) == Some(a.len() as int),
{
    let p = seq![c];
    let s = a + p + b;
    let n = a.len() as int;
    lemma_symbol_occurs(s, c, n);
    assert forall|j: int| 0 <= j < n implies !occurs_at(s, p, j) by {
        lemma_symbol_occurs(s, c, j);
        assert(s[j] == a[j]);
    }
    lemma_find_from_is(s, p, 0, n);
}

/// The last occurrence of a symbol is the one before a part that is free of it.
pub proof fn lemma_symbol_last<T>(a: Seq<T>, b: Seq<T>, c: T)
    requires
        free_of(b, c),
    ensures
        rfind(a + seq![c] + b, seq![c]) == Some(a.len() as int),
{
    let p = seq![c];
    let s = a + p + b;
    let n = a.len() as int;
    lemma_symbol_occurs(s, c, n);
    assert forall|j: int| n < j < s.len() implies !occurs_at(s, p, j) by {
        lemma_symbol_occurs(s, c, j);
        assert(s[j] == b[j - n - 1]);
    }
    lemma_rfind_upto_is(s, p, s.len() - 1, n);
}

/// A pattern stands where all of its symbols stand, and is found if and only if it stands
/// somewhere.
pub proof fn law_occurrence<T>(s: Seq<T>, p: Seq<T>, i: int)
    ensures
        occurs_at(s, p, i) <==> 0 <= i && i + p.len() <= s.len() && forall|k: int|
            0 <= k < p.len() ==> #[trigger] p[k] == s[i + k],
        contains(s, p) <==> exists|j: int| #[trigger] occurs_at(s, p, j),
        starts_with(s, p) <==> exists|t: Seq<T>| s == #[trigger] (p + t),
{
    if 0 <= i && i + p.len() <= s.len() {
        let part = s.subrange(i, i + p.len());
        if forall|k: int| 0 <= k < p.len() ==> #[trigger] p[k] == s[i + k] {
            assert(part =~= p);
        }
        if part == p {
            assert forall|k: int| 0 <= k < p.len() implies #[trigger] p[k] == s[i + k] by {
                assert(part[k] == s[i + k]);
            }
        }
    }
    lemma_find_from(s, p, 0);
    if let Some(j) = find(s, p) {
        assert(occurs_at(s, p, j));
    }
    if starts_with(s, p) {
        assert(s =~= p + s.skip(p.len() as int));
    }
    if exists|t: Seq<T>| s == #[trigger] (p + t) {
        let t = choose|t: Seq<T>| s == #[trigger] (p + t);
        assert(s.subrange(0, p.len() as int) =~= p);
    }
}

/// A text is cut at the first occurrence of a pattern, or at the last, and is left whole where
/// there is none.
pub proof fn law_cut<T>(a: Seq<T>, p: Seq<T>, b: Seq<T>)
    requires
        p.len() > 0,
    ensures
        (forall|j: int| 0 <= j < a.len() ==> !#[trigger] occurs_at(a + p + b, p, j))
            ==> before_first(a + p + b, p) == a,
        (forall|j: int| a.len() < j ==> !#[trigger] occurs_at(a + p + b, p, j)) ==> after_last(
            a + p + b,
            p,
        ) == b && before_last(a + p + b, p) == a,
        (forall|j: int| !#[trigger] occurs_at(a, p, j)) ==> before_first(a, p) == a && after_last(
            a,
            p,
        ) == a && before_last(a, p) == a,
{
    let s = a + p + b;
    let n = a.len() as int;
    assert(s.subrange(n, n + p.len()) =~= p);
    assert(s.take(n) =~= a);
    assert(s.skip(n + p.len()) =~= b);
    if forall|j: int| 0 <= j < n ==> !#[trigger] occurs_at(s, p, j) {
        lemma_find_from_is(s, p, 0, n);
    }
    if forall|j: int| n < j ==> !#[trigger] occurs_at(s, p, j) {
        lemma_rfind_upto_is(s, p, s.len() - p.len(), n);
    }
    lemma_find_from(a, p, 0);
    lemma_rfind_upto(a, p, a.len() - p.len());
}

/// A value that can be compared exactly in executable code.
pub trait Symbol: Copy {
    fn same(self, other: Self) -> (r: bool)
        ensures
            r == (self == other),
    ;
}

impl Symbol for u8 {
    fn same(self, other: u8) -> (r: bool) {
        self == other
    }
}

impl Symbol for char {
    fn same(self, other: char) -> (r: bool) {
        self == other
    }
}

/// Whether two slices hold the same symbols.
pub fn same_symbols<T: Symbol>(a: &[T], b: &[T]) -> (r: bool)
    ensures
        r == (a@ == b@),
{
    if a.len() != b.len() {
        return false;
    }
    let mut k: usize = 0;
    while k < a.len()
        invariant
            k <= a.len(),
            a@.len() == b@.len(),
            forall|j: int| 0 <= j < k ==> a@[j] == b@[j],
        decreases a.len() - k,
    {
        if !a[k].same(b[k]) {
            return false;
        }
        k += 1;
    }
    assert(a@ =~= b@);
    true
}

/// Whether `p` stands in `s` at index `i`.
pub fn stands_at<T: Symbol>(s: &[T], p: &[T], i: usize) -> (r: bool)
    ensures
        r == occurs_at(s@, p@, i as int),
{
    if p.len() > s.len() || i > s.len() - p.len() {
        return false;
    }
    same_symbols(slice_subrange(s, i, i + p.len()), p)
}

/// The index of the first occurrence of `p` in `s`.
pub fn find_in<T: Symbol>(s: &[T], p: &[T]) -> (r: Option<usize>)
    ensures
        match r {
            Some(i) => find(s@, p@) == Some(i as int) && i + p@.len() <= s@.len() <= usize::MAX,
            None => find(s@, p@) is None,
        },
{
    if p.len() > s.len() {
        return None;
    }
    let last: usize = s.len() - p.len();
    let mut i: usize = 0;
    while i <= last
        invariant
            last == s@.len() - p@.len(),
            s@.len() <= usize::MAX,
            i <= last + 1,
            find(s@, p@) == find_from(s@, p@, i as int),
        decreases last + 1 - i,
    {
        if stands_at(s, p, i) {
            return Some(i);
        }
        if i == last {
            assert(find_from(s@, p@, i + 1) is None);
            return None;
        }
        i += 1;
    }
    None
}

/// The index of the last occurrence of `p` in `s`.
pub fn rfind_in<T: Symbol>(s: &[T], p: &[T]) -> (r: Option<usize>)
    ensures
        match r {
            Some(i) => rfind(s@, p@) == Some(i as int) && i + p@.len() <= s@.len() <= usize::MAX,
            None => rfind(s@, p@) is None,
        },
{
    if p.len() > s.len() {
        return None;
    }
    let mut i: usize = s.len() - p.len();
    loop
        invariant
            i + p@.len() <= s@.len() <= usize::MAX,
            rfind(s@, p@) == rfind_upto(s@, p@, i as int),
        decreases i,
    {
        if stands_at(s, p, i) {
            return Some(i);
        }
        if i == 0 {
            proof {
                assert(rfind_upto(s@, p@, -1int) is None);
            }
            return None;
        }
        i -= 1;
    }
}

} // verus!
