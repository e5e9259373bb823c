//! The RC4 stream cipher.

use vstd::prelude::*;

verus! {

/// Cipher state: a permutation of the bytes and two positions in it.
#[derive(Clone, Copy, Debug)]
pub struct Rc4State {
    s: [u8; 256],
    i: u8,
    j: u8,
}

/// What an [`Rc4State`] holds.
#[verifier::ext_equal]
pub struct Rc4View {
    pub s: Seq<u8>,
    pub i: u8,
    pub j: u8,
}

impl View for Rc4State {
    type V = Rc4View;

    closed spec fn view(&self) -> Rc4View {
        Rc4View { s: self.s@, i: self.i, j: self.j }
    }
}

/// The sum of two bytes, modulo 256.
pub open spec fn byte_sum(a: u8, b: u8) -> u8 {
    ((a + b) % 256) as u8
}

/// A sequence with two of its elements exchanged.
pub open spec fn swapped(s: Seq<u8>, a: int, b: int) -> Seq<u8> {
    s.update(a, s[b]).update(b, s[a])
}

/// The identity permutation.
pub open spec fn identity() -> Seq<u8> {
    Seq::new(256, |i: int| i as u8)
}

/// The permutation and the second position after the first `n` steps of keying.
pub open spec fn keyed(key: Seq<u8>, n: nat) -> (Seq<u8>, u8)
    decreases n,
{
    if n == 0 {
        (identity(), 0)
    } else {
        let (s, j) = keyed(key, (n - 1) as nat);
        let k = byte_sum(byte_sum(j, s[n - 1]), key[(n - 1) % key.len() as int]);
        (swapped(s, n - 1, k as int), k)
    }
}

impl Rc4View {
    /// The state for a key.
    pub open spec fn new(key: Seq<u8>) -> Rc4View {
        Rc4View { s: keyed(key, 256).0, i: 0, j: 0 }
    }

    /// The state after one more byte of key stream.
    pub open spec fn next(self) -> Rc4View {
        let i = byte_sum(self.i, 1);
        let j = byte_sum(self.j, self.s[i as int]);
        Rc4View { s: swapped(self.s, i as int, j as int), i, j }
    }

    /// The byte of key stream that led to this state.
    pub open spec fn output(self) -> u8 {
        self.s[byte_sum(self.s[self.i as int], self.s[self.j as int]) as int]
    }

    /// The state after `n` bytes of key stream.
    pub open spec fn after(self, n: nat) -> Rc4View
        decreases n,
    {
        if n == 0 {
            self
        } else {
            self.after((n - 1) as nat).next()
        }
    }

    /// Data combined with the key stream that begins here.
    pub open spec fn applied(self, data: Seq<u8>) -> Seq<u8> {
        Seq::new(data.len(), |k: int| data[k] ^ self.after((k + 1) as nat).output())
    }
}

/// Applying the key stream twice gives the data back.
pub proof fn law_rc4_is_involutive(state: Rc4View, data: Seq<u8>)
    ensures
        state.applied(state.applied(data)) == data,
{
    let once = state.applied(data);
    assert forall|k: int| 0 <= k < data.len() implies state.applied(once)[k] == data[k] by {
        let a = data[k];
        let b = state.after((k + 1) as nat).output();
        assert((a ^ b) ^ b == a) by (bit_vector);
    }
    assert(state.applied(once) =~= data);
}

/// The key stream goes on where it was left.
pub proof fn law_rc4_stream_continues(state: Rc4View, a: Seq<u8>, b: Seq<u8>)
    ensures
        state.applied(a + b) == state.applied(a) + state.after(a.len()).applied(b),
        state.after(a.len() + b.len()) == state.after(a.len()).after(b.len()),
{
    lemma_after_sum(state, a.len(), b.len());
    assert forall|k: int| 0 <= k < b.len() implies state.after((a.len() + k + 1) as nat)
        == #[trigger] state.after(a.len()).after((k + 1) as nat) by {
        lemma_after_sum(state, a.len(), (k + 1) as nat);
    }
    let whole = state.applied(a + b);
    let parts = state.applied(a) + state.after(a.len()).applied(b);
    assert forall|k: int| 0 <= k < whole.len() implies whole[k] == parts[k] by {
        if k >= a.len() {
            let n = k - a.len();
            assert(state.after((a.len() + n + 1) as nat) == state.after(a.len()).after(
                (n + 1) as nat,
            ));
        }
    }
    assert(whole =~= parts);
}

/// A state holds a whole permutation table, wherever the key stream stands.
proof fn lemma_table_len(state: Rc4View, n: nat)
    requires
        state.s.len() == 256,
    ensures
        state.after(n).s.len() == 256,
    decreases n,
{
    if n > 0 {
        lemma_table_len(state, (n - 1) as nat);
    }
}

/// Keying keeps the length of the table.
proof fn lemma_keyed_len(key: Seq<u8>, n: nat)
    requires
        n <= 256,
    ensures
        keyed(key, n).0.len() == 256,
    decreases n,
{
    if n > 0 {
        lemma_keyed_len(key, (n - 1) as nat);
    }
}

/// `t` is `s` with the elements at `a` and `b` exchanged.
pub open spec fn exchanges(s: Seq<u8>, t: Seq<u8>, a: int, b: int) -> bool {
    &&& t.len() == s.len()
    &&& t[a] == s[b]
    &&& t[b] == s[a]
    &&& forall|m: int| 0 <= m < s.len() && m != a && m != b ==> #[trigger] t[m] == s[m]
}

/// Two updates exchange two elements.
proof fn lemma_swapped(s: Seq<u8>, a: int, b: int)
    requires
        0 <= a < s.len(),
        0 <= b < s.len(),
    ensures
        exchanges(s, swapped(s, a, b), a, b),
{
}

/// Adding byte by byte is adding modulo 256.
proof fn lemma_byte_sum(a: u8, b: u8, c: u8)
    ensures
        byte_sum(a, b) as int == (a + b) % 256,
        byte_sum(byte_sum(a, b), c) as int == (a + b + c) % 256,
{
}

/// One step of keying.
proof fn lemma_keying_step(key: Seq<u8>, n: nat)
    requires
        n < 256,
    ensures
        keyed(key, n + 1).1 as int == (keyed(key, n).1 + keyed(key, n).0[n as int] + key[n as int
            % key.len() as int]) % 256,
        exchanges(keyed(key, n).0, keyed(key, n + 1).0, n as int, keyed(key, n + 1).1 as int),
{
    lemma_keyed_len(key, n);
    let (s, j) = keyed(key, n);
    let y = key[n as int % key.len() as int];
    let k = byte_sum(byte_sum(j, s[n as int]), y);
    lemma_byte_sum(j, s[n as int], y);
    lemma_swapped(s, n as int, k as int);
    assert(keyed(key, n + 1) == (swapped(s, n as int, k as int), k));
}

/// One step of the key stream.
proof fn lemma_stream_step(state: Rc4View)
    requires
        state.s.len() == 256,
    ensures
        state.next().i as int == (state.i + 1) % 256,
        state.next().j as int == (state.j + state.s[(state.i + 1) % 256]) % 256,
        exchanges(state.s, state.next().s, state.next().i as int, state.next().j as int),
{
    let i = byte_sum(state.i, 1);
    let j = byte_sum(state.j, state.s[i as int]);
    lemma_byte_sum(state.i, 1, 0);
    lemma_byte_sum(state.j, state.s[i as int], 0);
    lemma_swapped(state.s, i as int, j as int);
}

/// Keying begins with the identity and takes 256 steps. Step `n` adds the element at `n` and the
/// key byte for `n`, counted round the key, to the second position, and exchanges the elements at
/// these two places. The key stream begins with both positions at zero.
pub proof fn law_rc4_keying(key: Seq<u8>, n: nat)
    requires
        key.len() > 0,
        n < 256,
    ensures
        keyed(key, 0).0.len() == 256,
        forall|m: int| 0 <= m < 256 ==> #[trigger] keyed(key, 0).0[m] == m,
        keyed(key, 0).1 == 0,
        keyed(key, n + 1).1 as int == (keyed(key, n).1 + keyed(key, n).0[n as int] + key[n as int
            % key.len() as int]) % 256,
        exchanges(keyed(key, n).0, keyed(key, n + 1).0, n as int, keyed(key, n + 1).1 as int),
        Rc4View::new(key).s == keyed(key, 256).0,
        Rc4View::new(key).i == 0,
        Rc4View::new(key).j == 0,
{
    lemma_keying_step(key, n);
}

/// The key stream of RC4, at every length: after `n` bytes the first position is `n` modulo 256.
/// Each byte adds the element at the first position to the second position, and exchanges the
/// elements at the two.
pub proof fn law_rc4_step(key: Seq<u8>, n: nat)
    ensures
        Rc4View::new(key).after(n).i as int == n % 256,
        ({
            let before = Rc4View::new(key).after(n);
            let behind = Rc4View::new(key).after(n + 1);
            &&& behind.i as int == (n + 1) % 256
            &&& behind.j as int == (before.j + before.s[(n + 1) as int % 256]) % 256
            &&& exchanges(before.s, behind.s, behind.i as int, behind.j as int)
        }),
    decreases n,
{
    let start = Rc4View::new(key);
    lemma_keyed_len(key, 256);
    lemma_table_len(start, n);
    if n > 0 {
        law_rc4_step(key, (n - 1) as nat);
    }
    lemma_stream_step(start.after(n));
    assert(start.after(n + 1) == start.after(n).next());
}

/// Each byte of data is combined with the element at the sum of the elements at the two
/// positions.
pub proof fn law_rc4_output(state: Rc4View, data: Seq<u8>, k: int)
    requires
        0 <= k < data.len(),
    ensures
        state.applied(data).len() == data.len(),
        ({
            let at = state.after((k + 1) as nat);
            state.applied(data)[k] == data[k] ^ at.s[(at.s[at.i as int] + at.s[at.j as int]) % 256]
        }),
{
}

/// Moving on twice is moving on by the sum.
pub proof fn lemma_after_sum(state: Rc4View, a: nat, b: nat)
    ensures
        state.after(a + b) == state.after(a).after(b),
    decreases b,
{
    if b > 0 {
        lemma_after_sum(state, a, (b - 1) as nat);
    }
}

/// Adds two bytes, modulo 256.
fn add_bytes(a: u8, b: u8) -> (r: u8)
    ensures
        r == byte_sum(a, b),
{
    a.wrapping_add(b)
}

impl Rc4State {
    /// Keys the cipher.
    pub fn new(key: &[u8]) -> (r: Rc4State)
        requires
            key@.len() > 0,
        ensures
            r@ == Rc4View::new(key@),
    {
        let mut s: [u8; 256] = [0; 256];
        let mut n: usize = 0;
        while n < 256
            invariant
                n <= 256,
                forall|m: int| 0 <= m < n ==> s@[m] == m,
            decreases 256 - n,
        {
            s[n] = n as u8;
            n += 1;
        }
        assert(s@ =~= identity());
        let mut j: u8 = 0;
        n = 0;
        while n < 256
            invariant
                n <= 256,
                key@.len() > 0,
                (s@, j) == keyed(key@, n as nat),
            decreases 256 - n,
        {
            let ghost before = s@;
            let x: u8 = s[n];
            let at: usize = n % key.len();
            let k: u8 = add_bytes(add_bytes(j, x), key[at]);
            s[n] = s[k as usize];
            s[k as usize] = x;
            assert(s@ =~= swapped(before, n as int, k as int));
            j = k;
            n += 1;
        }
        Rc4State { s, i: 0, j: 0 }
    }

    /// One more byte of key stream.
    fn next_byte(&mut self) -> (r: u8)
        ensures
            final(self)@ == old(self)@.next(),
            r == old(self)@.next().output(),
    {
        let i: u8 = add_bytes(self.i, 1);
        let x: u8 = self.s[i as usize];
        let j: u8 = add_bytes(self.j, x);
        let y: u8 = self.s[j as usize];
        self.i = i;
        self.j = j;
        self.s[i as usize] = y;
        self.s[j as usize] = x;
        assert(self@ =~= old(self)@.next());
        let at: u8 = add_bytes(self.s[i as usize], self.s[j as usize]);
        self.s[at as usize]
    }

    /// Combines data with the key stream, and moves on by as many bytes.
    pub fn process(&mut self, data: &[u8]) -> (r: Vec<u8>)
        ensures
            r@ == old(self)@.applied(data@),
            final(self)@ == old(self)@.after(data@.len()),
    {
        let mut out: Vec<u8> = Vec::new();
        let mut k: usize = 0;
        while k < data.len()
            invariant
                k <= data@.len(),
                out@ == old(self)@.applied(data@).take(k as int),
                self@ == old(self)@.after(k as nat),
            decreases data@.len() - k,
        {
            let b: u8 = self.next_byte();
            out.push(data[k] ^ b);
            k += 1;
            assert(out@ =~= old(self)@.applied(data@).take(k as int));
        }
        assert(out@ =~= old(self)@.applied(data@));
        out
    }
}

} // verus!
