//! What holds of PSRP framing as a whole.

use vstd::prelude::*;
use vstd::utf8::*;

use crate::codec;
use crate::psrp::protocol;
use crate::psrp::protocol::{Accepted, FragmentView, InFlight, PsrpMessageView, ReassemblerView};
use crate::search;

verus! {

/// A fragment that stands at the front of some bytes stands there whatever follows them.
proof fn lemma_fragment_prefix(x: Seq<u8>, b: Seq<u8>)
    requires
        protocol::has_fragment(x),
    ensures
        protocol::has_fragment(x + b),
        protocol::first_fragment(x + b) == protocol::first_fragment(x),
        protocol::after_fragment(x + b) == protocol::after_fragment(x) + b,
{
    let y = x + b;
    assert(y.subrange(17, 21) =~= x.subrange(17, 21));
    assert(y.subrange(0, 8) =~= x.subrange(0, 8));
    assert(y.subrange(8, 16) =~= x.subrange(8, 16));
    assert(protocol::first_fragment(y).blob =~= protocol::first_fragment(x).blob);
    assert(protocol::after_fragment(y) =~= protocol::after_fragment(x) + b);
}

/// Taking in `x` and then `b` is taking in `x + b`.
proof fn lemma_scan_pieces(state: ReassemblerView, b: Seq<u8>)
    ensures
        ({
            let one = protocol::scan(state);
            let both = protocol::scan(
                ReassemblerView { buffer: state.buffer + b, in_flight: state.in_flight },
            );
            let two = protocol::scan(
                ReassemblerView { buffer: one.state.buffer + b, in_flight: one.state.in_flight },
            );
            match one.mismatch {
                None => {
                    &&& both.state == two.state
                    &&& both.completed == one.completed + two.completed
                    &&& both.mismatch == two.mismatch
                },
                Some(m) => {
                    &&& both.mismatch == one.mismatch
                    &&& both.completed == one.completed
                    &&& both.state.buffer == one.state.buffer + b
                    &&& both.state.in_flight == one.state.in_flight
                },
            }
        }),
    decreases state.buffer.len(),
{
    let x = state.buffer;
    let one = protocol::scan(state);
    let both = protocol::scan(ReassemblerView { buffer: x + b, in_flight: state.in_flight });
    if protocol::has_fragment(x) {
        lemma_fragment_prefix(x, b);
        let (in_flight, outcome) = protocol::accept(state.in_flight, protocol::first_fragment(x));
        let next = ReassemblerView { buffer: protocol::after_fragment(x), in_flight };
        lemma_scan_pieces(next, b);
        let two = protocol::scan(
            ReassemblerView { buffer: one.state.buffer + b, in_flight: one.state.in_flight },
        );
        if let Accepted::Complete(payload) = outcome {
            if one.mismatch is None {
                assert(both.completed =~= one.completed + two.completed);
            }
        }
    } else {
        let two = protocol::scan(
            ReassemblerView { buffer: one.state.buffer + b, in_flight: one.state.in_flight },
        );
        assert(both.completed =~= one.completed + two.completed);
    }
}

/// Decoding two lists one after the other is decoding both at once.
proof fn lemma_decoded_all_concat(a: Seq<Seq<u8>>, b: Seq<Seq<u8>>)
    requires
        protocol::decoded_all(a) is Ok,
        protocol::decoded_all(b) is Ok,
    ensures
        protocol::decoded_all(a + b) == Ok::<Seq<PsrpMessageView>, Seq<char>>(
            protocol::decoded_all(a)->Ok_0 + protocol::decoded_all(b)->Ok_0,
        ),
    decreases b.len(),
{
    if b.len() == 0 {
        assert(a + b =~= a);
        assert(protocol::decoded_all(a)->Ok_0 + protocol::decoded_all(b)->Ok_0
            =~= protocol::decoded_all(a)->Ok_0);
    } else {
        lemma_decoded_all_concat(a, b.drop_last());
        assert((a + b).drop_last() =~= a + b.drop_last());
        assert(protocol::decoded_all(a + b)->Ok_0 =~= protocol::decoded_all(a)->Ok_0
            + protocol::decoded_all(b)->Ok_0);
    }
}

/// How a byte stream is cut into chunks does not matter.
///
/// Feeding `a` and then `b` leaves the state that feeding both at once leaves, and completes
/// the same payloads in the same order; where both calls succeed, so does the single one, and
/// it returns the messages of both.
pub proof fn law_feed_in_pieces(state: ReassemblerView, a: Seq<u8>, b: Seq<u8>)
    requires
        protocol::fed(state, a).mismatch is None,
    ensures
        ({
            let one = protocol::fed(state, a);
            let two = protocol::fed(one.state, b);
            let both = protocol::fed(state, a + b);
            &&& both.state == two.state
            &&& both.completed == one.completed + two.completed
            &&& both.mismatch == two.mismatch
            &&& protocol::fed_result(one) is Ok && protocol::fed_result(two) is Ok
                ==> protocol::fed_result(both) == Ok::<Seq<PsrpMessageView>, Seq<char>>(
                protocol::fed_result(one)->Ok_0 + protocol::fed_result(two)->Ok_0,
            )
        }),
{
    let start = ReassemblerView { buffer: state.buffer + a, in_flight: state.in_flight };
    lemma_scan_pieces(start, b);
    assert(state.buffer + a + b =~= state.buffer + (a + b));
    let one = protocol::fed(state, a);
    let two = protocol::fed(one.state, b);
    if protocol::fed_result(one) is Ok && protocol::fed_result(two) is Ok {
        lemma_decoded_all_concat(one.completed, two.completed);
    }
}

/// A fragment out of order stops the stream: what was fed after it is left in the buffer.
pub proof fn law_mismatch_stops(state: ReassemblerView, a: Seq<u8>, b: Seq<u8>)
    requires
        protocol::fed(state, a).mismatch is Some,
    ensures
        protocol::fed(state, a + b).mismatch == protocol::fed(state, a).mismatch,
        protocol::fed(state, a + b).state.buffer == protocol::fed(state, a).state.buffer + b,
        protocol::fed(state, a + b).state.in_flight == protocol::fed(state, a).state.in_flight,
{
    let start = ReassemblerView { buffer: state.buffer + a, in_flight: state.in_flight };
    lemma_scan_pieces(start, b);
    assert(state.buffer + a + b =~= state.buffer + (a + b));
}

/// A fragment changes nothing about the messages of other objects.
pub proof fn law_objects_are_independent(
    in_flight: Map<u64, InFlight>,
    f: FragmentView,
    other: u64,
)
    requires
        other != f.object_id,
    ensures
        protocol::accept(in_flight, f).0.contains_key(other) == in_flight.contains_key(other),
        in_flight.contains_key(other) ==> protocol::accept(in_flight, f).0[other]
            == in_flight[other],
{
}

/// No more than a partial fragment is ever kept in the buffer of a stream in order.
pub proof fn law_buffer_is_partial_fragment(state: ReassemblerView, chunk: Seq<u8>)
    requires
        protocol::fed(state, chunk).mismatch is None,
    ensures
        !protocol::has_fragment(protocol::fed(state, chunk).state.buffer),
{
    lemma_scan_leaves_partial(
        ReassemblerView { buffer: state.buffer + chunk, in_flight: state.in_flight },
    );
}

/// Scanning stops before a partial fragment.
proof fn lemma_scan_leaves_partial(state: ReassemblerView)
    requires
        protocol::scan(state).mismatch is None,
    ensures
        !protocol::has_fragment(protocol::scan(state).state.buffer),
    decreases state.buffer.len(),
{
    if protocol::has_fragment(state.buffer) {
        let first = protocol::first_fragment(state.buffer);
        let in_flight = protocol::accept(state.in_flight, first).0;
        lemma_scan_leaves_partial(
            ReassemblerView { buffer: protocol::after_fragment(state.buffer), in_flight },
        );
    }
}

/// Reading back the wire form of one fragment gives the fragment, and what follows it.
pub proof fn law_fragment_roundtrip(f: FragmentView, rest: Seq<u8>)
    requires
        f.blob.len() <= u32::MAX,
    ensures
        protocol::has_fragment(protocol::fragment_bytes(f) + rest),
        protocol::first_fragment(protocol::fragment_bytes(f) + rest) == f,
        protocol::after_fragment(protocol::fragment_bytes(f) + rest) == rest,
{
    let b = protocol::fragment_bytes(f) + rest;
    let n = f.blob.len() as u32;
    assert(b.subrange(0, 8) =~= codec::u64_be(f.object_id));
    assert(b.subrange(8, 16) =~= codec::u64_be(f.fragment_id));
    assert(b[16] == protocol::flag_byte(f.start, f.end));
    assert(b.subrange(17, 21) =~= codec::u32_be(n));
    codec::lemma_u64_be_roundtrip(f.object_id);
    codec::lemma_u64_be_roundtrip(f.fragment_id);
    codec::lemma_u32_be_roundtrip(n);
    assert(0x03u8 & 0x01u8 != 0 && 0x03u8 & 0x02u8 != 0 && 0x01u8 & 0x01u8 != 0 && 0x01u8 & 0x02u8
        == 0 && 0x02u8 & 0x01u8 == 0 && 0x02u8 & 0x02u8 != 0 && 0x00u8 & 0x01u8 == 0 && 0x00u8
        & 0x02u8 == 0) by (bit_vector);
    assert(protocol::first_fragment(b).blob =~= f.blob);
    assert(protocol::after_fragment(b) =~= rest);
}

/// The whole fragments at the front of some bytes, in order.
pub open spec fn fragments_in(b: Seq<u8>) -> Seq<FragmentView>
    decreases b.len(),
{
    if protocol::has_fragment(b) {
        seq![protocol::first_fragment(b)] + fragments_in(protocol::after_fragment(b))
    } else {
        Seq::empty()
    }
}

/// The fragment is a whole message of its own.
pub open spec fn is_whole(f: FragmentView) -> bool {
    f.start && f.end
}

/// How many fragments an object has had since its start, after some fragments in order, or `None`
/// where it is not started or has ended. Counting is modulo 2^64.
pub open spec fn fragments_so_far(
    in_flight: Map<u64, InFlight>,
    fs: Seq<FragmentView>,
    object_id: u64,
) -> Option<u64>
    decreases fs.len(),
{
    if fs.len() == 0 {
        if in_flight.contains_key(object_id) && in_flight[object_id].started {
            Some(in_flight[object_id].next)
        } else {
            None
        }
    } else {
        let before = fragments_so_far(in_flight, fs.drop_last(), object_id);
        let f = fs.last();
        if f.object_id != object_id || is_whole(f) {
            before
        } else if f.start {
            Some(1)
        } else if before is Some && !f.end {
            Some(protocol::next_id(before->0))
        } else {
            None
        }
    }
}

/// The id that a fragment must have after some fragments in order, or `None` where it may have
/// any: it is a whole message of its own, or its object is not started.
pub open spec fn expected_id(
    in_flight: Map<u64, InFlight>,
    fs: Seq<FragmentView>,
    f: FragmentView,
) -> Option<u64> {
    if is_whole(f) {
        None
    } else if f.start {
        Some(0)
    } else {
        fragments_so_far(in_flight, fs, f.object_id)
    }
}

/// The fragment at index `k` is out of order.
pub open spec fn out_of_order(
    in_flight: Map<u64, InFlight>,
    fs: Seq<FragmentView>,
    k: int,
) -> bool {
    expected_id(in_flight, fs.take(k), fs[k]) matches Some(id) && id != fs[k].fragment_id
}

/// Counting from the second fragment on is counting from the state that the first one leaves.
proof fn lemma_so_far_step(
    in_flight: Map<u64, InFlight>,
    f: FragmentView,
    rest: Seq<FragmentView>,
    object_id: u64,
)
    requires
        !(expected_id(in_flight, Seq::empty(), f) matches Some(id) && id != f.fragment_id),
    ensures
        fragments_so_far(in_flight, seq![f] + rest, object_id) == fragments_so_far(
            protocol::accept(in_flight, f).0,
            rest,
            object_id,
        ),
    decreases rest.len(),
{
    let fs = seq![f] + rest;
    if rest.len() == 0 {
        reveal_with_fuel(fragments_so_far, 2);
        assert(fs.drop_last() =~= Seq::<FragmentView>::empty());
        assert(fs.last() == f);
    } else {
        lemma_so_far_step(in_flight, f, rest.drop_last(), object_id);
        assert(fs.drop_last() =~= seq![f] + rest.drop_last());
        assert(fs.last() == rest.last());
    }
}

/// Scanning stops at the first fragment that is out of order.
proof fn lemma_scan_mismatch(state: ReassemblerView)
    ensures
        ({
            let fs = fragments_in(state.buffer);
            match protocol::scan(state).mismatch {
                Some((got, expected)) => exists|k: int|
                    {
                        &&& 0 <= k < fs.len()
                        &&& #[trigger] out_of_order(state.in_flight, fs, k)
                        &&& forall|j: int|
                            0 <= j < k ==> !#[trigger] out_of_order(state.in_flight, fs, j)
                        &&& got == fs[k].fragment_id
                        &&& expected_id(state.in_flight, fs.take(k), fs[k]) == Some(expected)
                    },
                None => forall|k: int|
                    0 <= k < fs.len() ==> !#[trigger] out_of_order(state.in_flight, fs, k),
            }
        }),
    decreases state.buffer.len(),
{
    let b = state.buffer;
    let fs = fragments_in(b);
    if protocol::has_fragment(b) {
        let f = protocol::first_fragment(b);
        let rest = fragments_in(protocol::after_fragment(b));
        let (in_flight, outcome) = protocol::accept(state.in_flight, f);
        let next = ReassemblerView { buffer: protocol::after_fragment(b), in_flight };
        assert(fs[0] == f);
        assert(fs.take(0) =~= Seq::<FragmentView>::empty());
        if outcome is Mismatch {
            assert(out_of_order(state.in_flight, fs, 0));
        } else {
            assert(!out_of_order(state.in_flight, fs, 0));
            lemma_scan_mismatch(next);
            assert forall|k: int| 0 <= k < rest.len() implies #[trigger] expected_id(
                in_flight,
                rest.take(k),
                rest[k],
            ) == expected_id(state.in_flight, fs.take(k + 1), fs[k + 1]) by {
                lemma_so_far_step(state.in_flight, f, rest.take(k), rest[k].object_id);
                assert(fs.take(k + 1) =~= seq![f] + rest.take(k));
                assert(fs[k + 1] == rest[k]);
            }
            assert forall|k: int| 0 <= k < rest.len() implies #[trigger] out_of_order(
                in_flight,
                rest,
                k,
            ) == out_of_order(state.in_flight, fs, k + 1) by {
                assert(expected_id(in_flight, rest.take(k), rest[k]) == expected_id(
                    state.in_flight,
                    fs.take(k + 1),
                    fs[k + 1],
                ));
            }
            match protocol::scan(state).mismatch {
                Some((got, expected)) => {
                    let k = choose|k: int|
                        {
                            &&& 0 <= k < rest.len()
                            &&& #[trigger] out_of_order(in_flight, rest, k)
                            &&& forall|j: int|
                                0 <= j < k ==> !#[trigger] out_of_order(in_flight, rest, j)
                            &&& got == rest[k].fragment_id
                            &&& expected_id(in_flight, rest.take(k), rest[k]) == Some(expected)
                        };
                    assert(out_of_order(state.in_flight, fs, k + 1));
                    assert forall|j: int| 0 <= j < k + 1 implies !#[trigger] out_of_order(
                        state.in_flight,
                        fs,
                        j,
                    ) by {
                        if j > 0 {
                            assert(!out_of_order(in_flight, rest, j - 1));
                        }
                    }
                },
                None => {
                    assert forall|j: int| 0 <= j < fs.len() implies !#[trigger] out_of_order(
                        state.in_flight,
                        fs,
                        j,
                    ) by {
                        if j > 0 {
                            assert(!out_of_order(in_flight, rest, j - 1));
                        }
                    }
                },
            }
        }
    }
}

/// The payload is no message: it is shorter than a header, or its body is not UTF-8 behind one
/// optional byte order mark.
pub open spec fn is_no_message(payload: Seq<u8>) -> bool {
    payload.len() < protocol::HEADER_LEN || !valid_utf8(protocol::message_body(payload))
}

/// Decoding fails exactly where one of the payloads is no message.
proof fn lemma_decoded_all_fails(payloads: Seq<Seq<u8>>)
    ensures
        protocol::decoded_all(payloads) is Err <==> exists|i: int|
            0 <= i < payloads.len() && is_no_message(#[trigger] payloads[i]),
    decreases payloads.len(),
{
    if payloads.len() > 0 {
        let front = payloads.drop_last();
        lemma_decoded_all_fails(front);
        let last = payloads.len() - 1;
        assert(payloads[last] == payloads.last());
        if protocol::decoded_all(front) is Err {
            let i = choose|i: int| 0 <= i < front.len() && is_no_message(#[trigger] front[i]);
            assert(is_no_message(payloads[i]));
        } else {
            assert forall|i: int| 0 <= i < last implies !is_no_message(#[trigger] payloads[i]) by {
                assert(!is_no_message(front[i]));
            }
        }
    }
}

/// When feeding fails.
///
/// It fails if a fragment that is not a whole message of its own has another id than its object
/// has had fragments since its start, counting from a start or for an object that is started. If
/// there is none, it fails if a payload that was completed is no message. Otherwise it succeeds.
pub proof fn law_when_feed_fails(state: ReassemblerView, chunk: Seq<u8>)
    ensures
        ({
            let fs = fragments_in(state.buffer + chunk);
            let completed = protocol::fed(state, chunk).completed;
            let disordered = exists|k: int|
                0 <= k < fs.len() && #[trigger] out_of_order(state.in_flight, fs, k);
            let undecodable = exists|i: int|
                0 <= i < completed.len() && is_no_message(#[trigger] completed[i]);
            &&& protocol::fed(state, chunk).mismatch is Some <==> disordered
            &&& protocol::fed_result(protocol::fed(state, chunk)) is Err <==> disordered
                || undecodable
        }),
{
    let start = ReassemblerView { buffer: state.buffer + chunk, in_flight: state.in_flight };
    lemma_scan_mismatch(start);
    lemma_decoded_all_fails(protocol::fed(state, chunk).completed);
}

/// The first fragment that is out of order is the one that is reported, with its id and the one
/// that was expected.
pub proof fn law_first_disorder_is_reported(state: ReassemblerView, chunk: Seq<u8>, k: int)
    requires
        0 <= k < fragments_in(state.buffer + chunk).len(),
        out_of_order(state.in_flight, fragments_in(state.buffer + chunk), k),
        forall|j: int|
            0 <= j < k ==> !#[trigger] out_of_order(
                state.in_flight,
                fragments_in(state.buffer + chunk),
                j,
            ),
    ensures
        ({
            let fs = fragments_in(state.buffer + chunk);
            let expected = expected_id(state.in_flight, fs.take(k), fs[k])->0;
            &&& protocol::fed(state, chunk).mismatch == Some((fs[k].fragment_id, expected))
            &&& protocol::fed_result(protocol::fed(state, chunk)) == Err::<
                Seq<PsrpMessageView>,
                Seq<char>,
            >(protocol::mismatch_text(fs[k].fragment_id, expected))
        }),
{
    let fs = fragments_in(state.buffer + chunk);
    let start = ReassemblerView { buffer: state.buffer + chunk, in_flight: state.in_flight };
    lemma_scan_mismatch(start);
    let (got, expected) = protocol::scan(start).mismatch->0;
    let m = choose|m: int|
        {
            &&& 0 <= m < fs.len()
            &&& #[trigger] out_of_order(state.in_flight, fs, m)
            &&& forall|j: int| 0 <= j < m ==> !#[trigger] out_of_order(state.in_flight, fs, j)
            &&& got == fs[m].fragment_id
            &&& expected_id(state.in_flight, fs.take(m), fs[m]) == Some(expected)
        };
    assert(m == k) by {
        if m < k {
            assert(!out_of_order(state.in_flight, fs, m));
        }
    }
}

/// The state that a multi-fragment message leaves behind before its fragment `index`.
spec fn awaiting(
    in_flight: Map<u64, InFlight>,
    object_id: u64,
    index: nat,
    sofar: Seq<u8>,
) -> bool {
    index > 0 ==> in_flight.contains_key(object_id) && in_flight[object_id] == (InFlight {
        data: sofar,
        next: index as u64,
        started: true,
    })
}

/// What taking in a buffer does when a given fragment stands at its front.
proof fn lemma_scan_step(in_flight: Map<u64, InFlight>, f: FragmentView, rest: Seq<u8>)
    requires
        f.blob.len() <= u32::MAX,
    ensures
        ({
            let s = protocol::scan(
                ReassemblerView { buffer: protocol::fragment_bytes(f) + rest, in_flight },
            );
            let (next_flight, outcome) = protocol::accept(in_flight, f);
            let next = protocol::scan(ReassemblerView { buffer: rest, in_flight: next_flight });
            match outcome {
                Accepted::Pending => s == next,
                Accepted::Complete(payload) => {
                    &&& s.state == next.state
                    &&& s.completed == seq![payload] + next.completed
                    &&& s.mismatch == next.mismatch
                },
                Accepted::Mismatch { .. } => s.mismatch is Some,
            }
        }),
{
    law_fragment_roundtrip(f, rest);
}

/// The outcome that the fragments of a message lead to, from its fragment `index` on.
spec fn reassembles(
    in_flight: Map<u64, InFlight>,
    object_id: u64,
    index: nat,
    sofar: Seq<u8>,
    payload: Seq<u8>,
) -> bool {
    let s = protocol::scan(
        ReassemblerView {
            buffer: protocol::fragments_from(object_id, index, payload),
            in_flight,
        },
    );
    &&& s.mismatch is None
    &&& s.completed == seq![sofar + payload]
    &&& s.state.buffer == Seq::<u8>::empty()
    &&& s.state.in_flight == if index == 0 && payload.len() <= protocol::MAX_FRAGMENT_PAYLOAD {
        in_flight
    } else {
        in_flight.remove(object_id)
    }
}

/// A message whose rest fits in one fragment is reassembled.
proof fn lemma_last_fragment(
    in_flight: Map<u64, InFlight>,
    object_id: u64,
    index: nat,
    sofar: Seq<u8>,
    payload: Seq<u8>,
)
    requires
        awaiting(in_flight, object_id, index, sofar),
        index == 0 ==> sofar.len() == 0,
        index <= u64::MAX,
        payload.len() <= protocol::MAX_FRAGMENT_PAYLOAD,
    ensures
        reassembles(in_flight, object_id, index, sofar, payload),
{
    let f = FragmentView {
        object_id,
        fragment_id: index as u64,
        start: index == 0,
        end: true,
        blob: payload,
    };
    let none = Seq::<u8>::empty();
    lemma_scan_step(in_flight, f, none);
    assert(protocol::fragment_bytes(f) + none =~= protocol::fragment_bytes(f));
    assert(protocol::fragments_from(object_id, index, payload) == protocol::fragment_bytes(f));
    let next_flight = protocol::accept(in_flight, f).0;
    let next = protocol::scan(ReassemblerView { buffer: none, in_flight: next_flight });
    assert(next.completed == Seq::<Seq<u8>>::empty());
    if index == 0 {
        assert(sofar + payload =~= payload);
    }
    assert(seq![sofar + payload] + next.completed =~= seq![sofar + payload]);
}

/// A message is reassembled from any of its fragments on.
proof fn lemma_fragments_from(
    in_flight: Map<u64, InFlight>,
    object_id: u64,
    index: nat,
    sofar: Seq<u8>,
    payload: Seq<u8>,
)
    requires
        awaiting(in_flight, object_id, index, sofar),
        index == 0 ==> sofar.len() == 0,
        index + payload.len() <= u64::MAX,
    ensures
        reassembles(in_flight, object_id, index, sofar, payload),
    decreases payload.len(),
{
    let max = protocol::MAX_FRAGMENT_PAYLOAD as int;
    if payload.len() <= max {
        lemma_last_fragment(in_flight, object_id, index, sofar, payload);
    } else {
        let f = FragmentView {
            object_id,
            fragment_id: index as u64,
            start: index == 0,
            end: false,
            blob: payload.take(max),
        };
        let rest = protocol::fragments_from(object_id, index + 1, payload.skip(max));
        lemma_scan_step(in_flight, f, rest);
        let grown = sofar + payload.take(max);
        if index == 0 {
            assert(sofar =~= Seq::<u8>::empty());
        }
        let next_flight = protocol::accept(in_flight, f).0;
        assert(protocol::accept(in_flight, f).1 is Pending);
        assert(awaiting(next_flight, object_id, index + 1, grown));
        lemma_fragments_from(next_flight, object_id, index + 1, grown, payload.skip(max));
        assert(grown + payload.skip(max) =~= sofar + payload);
        assert(next_flight.remove(object_id) =~= in_flight.remove(object_id));
    }
}

/// What is split into fragments is put together again.
///
/// Fed to a reassembler that holds no partial fragment, the fragments of a payload complete
/// that payload and nothing else, leave no bytes behind, and leave no trace of the object
/// unless the payload needed only one fragment, which changes nothing.
pub proof fn law_fragments_reassemble(
    in_flight: Map<u64, InFlight>,
    object_id: u64,
    payload: Seq<u8>,
)
    requires
        payload.len() <= u64::MAX,
    ensures
        ({
            let s = protocol::fed(
                ReassemblerView { buffer: Seq::empty(), in_flight },
                protocol::message_fragments(object_id, payload),
            );
            &&& s.mismatch is None
            &&& s.completed == seq![payload]
            &&& s.state.buffer == Seq::<u8>::empty()
            &&& s.state.in_flight == if payload.len() <= protocol::MAX_FRAGMENT_PAYLOAD {
                in_flight
            } else {
                in_flight.remove(object_id)
            }
        }),
{
    let none = Seq::<u8>::empty();
    lemma_fragments_from(in_flight, object_id, 0, none, payload);
    let fragments = protocol::message_fragments(object_id, payload);
    assert(none + fragments =~= fragments);
    assert(none + payload =~= payload);
}

/// A body that begins with the encoded byte order mark begins with U+FEFF.
pub proof fn lemma_byte_order_mark(body: Seq<char>)
    ensures
        search::starts_with(encode_utf8(body), protocol::byte_order_mark()) <==> body.len() > 0
            && body[0] == '\u{feff}',
        body.len() > 0 && body[0] == '\u{feff}' ==> encode_utf8(body).skip(3) == encode_utf8(
            body.drop_first(),
        ),
{
    let b = encode_utf8(body);
    if body.len() > 0 {
        encode_utf8_first_scalar(body);
        let c = body[0] as u32;
        assert(b =~= encode_scalar(c) + encode_utf8(body.drop_first()));
        if search::starts_with(b, protocol::byte_order_mark()) {
            assert(b.subrange(0, 3) =~= protocol::byte_order_mark());
            assert(b[0] == b.subrange(0, 3)[0] && b[1] == b.subrange(0, 3)[1] && b[2]
                == b.subrange(0, 3)[2]);
            assert(codepoint_width_3(0xefu8, 0xbbu8, 0xbfu8) == 0xfeffu32) by (bit_vector);
            assert(is_leading_byte_width_3(0xefu8) && !is_leading_byte_width_1(0xefu8)
                && !is_leading_byte_width_2(0xefu8)) by (bit_vector);
            assert(decode_first_scalar(b) == 0xfeffu32);
            assert(c == 0xfeffu32);
            char_u32_cast(body[0], c);
            char_u32_cast('\u{feff}', 0xfeffu32);
        }
        if body[0] == '\u{feff}' {
            assert(c == 0xfeffu32);
            assert(leading_byte_width_3(0xfeffu32) == 0xefu8) by (bit_vector);
            assert(second_last_continuation_byte(0xfeffu32) == 0xbbu8) by (bit_vector);
            assert(last_continuation_byte(0xfeffu32) == 0xbfu8) by (bit_vector);
            assert(encode_scalar(c) =~= protocol::byte_order_mark());
            assert(b.subrange(0, 3) =~= protocol::byte_order_mark());
            assert(search::starts_with(b, protocol::byte_order_mark()));
            assert(b.skip(3) =~= encode_utf8(body.drop_first()));
        }
    } else {
        assert(b.len() == 0);
    }
}

/// A body without the byte order mark at its front, if there is one.
pub open spec fn without_mark(body: Seq<char>) -> Seq<char> {
    if body.len() > 0 && body[0] == '\u{feff}' {
        body.drop_first()
    } else {
        body
    }
}

/// Decoding an encoded message gives back its type and its body.
///
/// A body that begins with U+FEFF loses that character, which is the byte order mark.
pub proof fn law_message_roundtrip(
    destination: u32,
    message_type: u32,
    rpid: Seq<u8>,
    pid: Seq<u8>,
    body: Seq<char>,
)
    ensures
        protocol::decoded(
            protocol::message_bytes(destination, message_type, rpid, pid, body),
        ) == Ok::<PsrpMessageView, Seq<char>>(
            PsrpMessageView { message_type, data: without_mark(body) },
        ),
{
    let b = protocol::message_bytes(destination, message_type, rpid, pid, body);
    assert(b.subrange(4, 8) =~= codec::u32_le(message_type));
    codec::lemma_u32_le_roundtrip(message_type);
    assert(b.skip(protocol::HEADER_LEN as int) =~= encode_utf8(body));
    lemma_byte_order_mark(body);
    encode_utf8_decode_utf8(body);
    encode_utf8_valid_utf8(body);
    encode_utf8_decode_utf8(body.drop_first());
    encode_utf8_valid_utf8(body.drop_first());
}

/// A message that is encoded, split into fragments and fed to a reassembler without a partial
/// fragment comes out as the only message, with its type and its body without a byte order mark.
pub proof fn law_message_over_fragments(
    in_flight: Map<u64, InFlight>,
    object_id: u64,
    destination: u32,
    message_type: u32,
    rpid: Seq<u8>,
    pid: Seq<u8>,
    body: Seq<char>,
)
    requires
        protocol::message_bytes(destination, message_type, rpid, pid, body).len() <= u64::MAX,
    ensures
        protocol::fed_result(
            protocol::fed(
                ReassemblerView { buffer: Seq::empty(), in_flight },
                protocol::message_fragments(
                    object_id,
                    protocol::message_bytes(destination, message_type, rpid, pid, body),
                ),
            ),
        ) == Ok::<Seq<PsrpMessageView>, Seq<char>>(
            seq![PsrpMessageView { message_type, data: without_mark(body) }],
        ),
{
    let payload = protocol::message_bytes(destination, message_type, rpid, pid, body);
    law_fragments_reassemble(in_flight, object_id, payload);
    law_message_roundtrip(destination, message_type, rpid, pid, body);
    let one = seq![payload];
    assert(one.drop_last() =~= Seq::<Seq<u8>>::empty());
    assert(protocol::decoded_all(one.drop_last()) == Ok::<Seq<PsrpMessageView>, Seq<char>>(
        Seq::empty(),
    ));
    assert(protocol::decoded_all(one)->Ok_0 =~= seq![
        PsrpMessageView { message_type, data: without_mark(body) },
    ]);
}

} // verus!
