//! What holds of the bytes that PSRP messages are sent and received as.

use vstd::prelude::*;
use vstd::utf8::*;

use crate::codec;
use crate::psrp::laws;
use crate::psrp::protocol;
use crate::psrp::protocol::{Accepted, FragmentView, InFlight, PsrpMessageView, ReassemblerView};
use crate::search;
use crate::text;

verus! {

/// The number whose four bytes stand at `at`, least significant first.
pub open spec fn number_at(b: Seq<u8>, at: int) -> int {
    b[at] + 0x100 * b[at + 1] + 0x1_0000 * b[at + 2] + 0x100_0000 * b[at + 3]
}

/// A UUID stands at `at` with its first three fields in little-endian order.
pub open spec fn uuid_at(b: Seq<u8>, at: int, id: Seq<u8>) -> bool {
    &&& b[at] == id[3] && b[at + 1] == id[2] && b[at + 2] == id[1] && b[at + 3] == id[0]
    &&& b[at + 4] == id[5] && b[at + 5] == id[4]
    &&& b[at + 6] == id[7] && b[at + 7] == id[6]
    &&& forall|k: int| 8 <= k < 16 ==> #[trigger] id[k] == b[at + k]
}

/// What the bytes of a message hold: the destination, the type, the ids of the pool and of the
/// pipeline, and then the body.
pub open spec fn is_message(
    b: Seq<u8>,
    destination: u32,
    message_type: u32,
    rpid: Seq<u8>,
    pid: Seq<u8>,
    body: Seq<char>,
) -> bool {
    &&& b.len() >= 40
    &&& number_at(b, 0) == destination
    &&& number_at(b, 4) == message_type
    &&& uuid_at(b, 8, rpid)
    &&& uuid_at(b, 24, pid)
    &&& b.skip(40) == encode_utf8(body)
}

/// A message holds all that it is made of, each in its place.
pub proof fn law_message_layout(
    destination: u32,
    message_type: u32,
    rpid: Seq<u8>,
    pid: Seq<u8>,
    body: Seq<char>,
)
    ensures
        is_message(
            protocol::message_bytes(destination, message_type, rpid, pid, body),
            destination,
            message_type,
            rpid,
            pid,
            body,
        ),
{
    let b = protocol::message_bytes(destination, message_type, rpid, pid, body);
    codec::law_u32_le_digits(destination, Seq::empty());
    codec::law_u32_le_digits(message_type, Seq::empty());
    assert(b.skip(40) =~= encode_utf8(body));
}

/// A message is read from its type and its body, whatever else its header holds.
pub proof fn law_any_message_is_read(header: Seq<u8>, body: Seq<char>)
    requires
        header.len() == 40,
    ensures
        protocol::decoded(header + encode_utf8(body)) matches Ok(m) && m.message_type == number_at(
            header,
            4,
        ) && m.data == laws::without_mark(body),
{
    let b = header + encode_utf8(body);
    let four = b.subrange(4, 8);
    codec::law_u32_le_digits(0, four);
    assert(four[0] == header[4] && four[1] == header[5] && four[2] == header[6] && four[3]
        == header[7]);
    assert(b.skip(40) =~= encode_utf8(body));
    laws::lemma_byte_order_mark(body);
    encode_utf8_decode_utf8(body);
    encode_utf8_valid_utf8(body);
    encode_utf8_decode_utf8(body.drop_first());
    encode_utf8_valid_utf8(body.drop_first());
}

/// Bytes hold no message where they are fewer than a header has, or where what follows the header
/// is not UTF-8 behind one optional byte order mark.
pub proof fn law_no_message(bytes: Seq<u8>)
    ensures
        bytes.len() < 40 ==> protocol::decoded(bytes) == Err::<PsrpMessageView, Seq<char>>(
            "message too short: "@ + text::decimal(bytes.len()) + " bytes"@,
        ),
        bytes.len() >= 40 ==> {
            let tail = bytes.skip(40);
            let body = if tail.len() >= 3 && tail[0] == 0xef && tail[1] == 0xbb && tail[2] == 0xbf {
                tail.skip(3)
            } else {
                tail
            };
            &&& protocol::decoded(bytes) is Ok <==> valid_utf8(body)
            &&& !valid_utf8(body) ==> protocol::decoded(bytes) == Err::<PsrpMessageView, Seq<char>>(
                "invalid UTF-8 in PSRP body: "@ + codec::utf8_error_text(body),
            )
        },
{
    if bytes.len() >= 40 {
        let tail = bytes.skip(40);
        let mark = protocol::byte_order_mark();
        if tail.len() >= 3 {
            let front = tail.subrange(0, 3);
            if tail[0] == 0xef && tail[1] == 0xbb && tail[2] == 0xbf {
                assert(front =~= mark);
            } else if front == mark {
                assert(front[0] == tail[0] && front[1] == tail[1] && front[2] == tail[2]);
            }
        }
    }
}

/// What the bytes of a fragment hold: the ids of its object and of itself, most significant byte
/// first, a flag for its being the first and one for its being the last, the length of its blob,
/// and the blob.
pub proof fn law_fragment_layout(f: FragmentView)
    requires
        f.blob.len() <= u32::MAX,
    ensures
        ({
            let b = protocol::fragment_bytes(f);
            &&& b.len() == 21 + f.blob.len()
            &&& f.object_id == 0x1_0000_0000 * codec::u32_from_be(b.subrange(0, 4))
                + codec::u32_from_be(b.subrange(4, 8))
            &&& f.fragment_id == 0x1_0000_0000 * codec::u32_from_be(b.subrange(8, 12))
                + codec::u32_from_be(b.subrange(12, 16))
            &&& b[16] == (if f.start {
                1int
            } else {
                0
            }) + (if f.end {
                2int
            } else {
                0
            })
            &&& f.blob.len() == 0x100_0000 * b[17] + 0x1_0000 * b[18] + 0x100 * b[19] + b[20]
            &&& b.skip(21) == f.blob
        }),
{
    let b = protocol::fragment_bytes(f);
    let object = codec::u64_be(f.object_id);
    let own = codec::u64_be(f.fragment_id);
    codec::law_u64_be_digits(f.object_id, Seq::empty());
    codec::law_u64_be_digits(f.fragment_id, Seq::empty());
    codec::law_u32_be_digits(f.blob.len() as u32, Seq::empty());
    assert(b.subrange(0, 4) =~= object.subrange(0, 4));
    assert(b.subrange(4, 8) =~= object.subrange(4, 8));
    assert(b.subrange(8, 12) =~= own.subrange(0, 4));
    assert(b.subrange(12, 16) =~= own.subrange(4, 8));
    assert(b.skip(21) =~= f.blob);
}

/// Any bytes are read by that layout: a fragment stands at their front once its header and its
/// whole blob do, and what follows is left for the next one.
pub proof fn law_fragment_is_read(b: Seq<u8>)
    ensures
        ({
            let n = 0x100_0000 * b[17] + 0x1_0000 * b[18] + 0x100 * b[19] + b[20];
            let f = protocol::first_fragment(b);
            &&& protocol::has_fragment(b) <==> b.len() >= 21 && b.len() >= 21 + n
            &&& protocol::has_fragment(b) ==> {
                &&& f.object_id == 0x1_0000_0000 * codec::u32_from_be(b.subrange(0, 4))
                    + codec::u32_from_be(b.subrange(4, 8))
                &&& f.fragment_id == 0x1_0000_0000 * codec::u32_from_be(b.subrange(8, 12))
                    + codec::u32_from_be(b.subrange(12, 16))
                &&& f.start <==> b[16] % 2 == 1
                &&& f.end <==> (b[16] / 2) % 2 == 1
                &&& f.blob == b.subrange(21, 21 + n)
                &&& protocol::after_fragment(b) == b.skip(21 + n)
            }
        }),
{
    let flags = b[16];
    assert(flags & 0x01 != 0 <==> flags % 2 == 1) by (bit_vector);
    assert(flags & 0x02 != 0 <==> (flags / 2) % 2 == 1) by (bit_vector);
    if b.len() >= 21 {
        let four = b.subrange(17, 21);
        codec::law_u32_be_digits(0, four);
        assert(four[0] == b[17] && four[1] == b[18] && four[2] == b[19] && four[3] == b[20]);
        let object = b.subrange(0, 8);
        let own = b.subrange(8, 16);
        codec::law_u64_be_digits(0, object);
        codec::law_u64_be_digits(0, own);
        assert(object.subrange(0, 4) =~= b.subrange(0, 4));
        assert(object.subrange(4, 8) =~= b.subrange(4, 8));
        assert(own.subrange(0, 4) =~= b.subrange(8, 12));
        assert(own.subrange(4, 8) =~= b.subrange(12, 16));
    }
}

/// How many fragments a payload is split into: as few as blobs of 32768 bytes allow, and at least
/// one.
pub open spec fn fragment_count(len: nat) -> int {
    if len == 0 {
        1
    } else {
        (len + 32767) as int / 32768
    }
}

/// The fragments are those of a payload, from the one with the given id on.
pub open spec fn are_fragments_of(
    fs: Seq<FragmentView>,
    object_id: u64,
    index: nat,
    payload: Seq<u8>,
) -> bool {
    &&& fs.len() == fragment_count(payload.len())
    &&& forall|k: int| #![trigger fs[k]]
        0 <= k < fs.len() ==> {
            &&& fs[k].object_id == object_id
            &&& fs[k].fragment_id == index + k
            &&& fs[k].start == (index + k == 0)
            &&& fs[k].end == (k == fs.len() - 1)
            &&& fs[k].blob == payload.subrange(
                k * 32768,
                if k == fs.len() - 1 {
                    payload.len() as int
                } else {
                    (k + 1) * 32768
                },
            )
        }
}

/// The fragments of a payload stand at the front of its wire form, whatever follows.
proof fn lemma_fragments_of(object_id: u64, index: nat, payload: Seq<u8>, rest: Seq<u8>)
    requires
        index + payload.len() <= u64::MAX,
    ensures
        exists|fs: Seq<FragmentView>|
            {
                &&& #[trigger] are_fragments_of(fs, object_id, index, payload)
                &&& laws::fragments_in(
                    protocol::fragments_from(object_id, index, payload) + rest,
                ) == fs + laws::fragments_in(rest)
            },
    decreases payload.len(),
{
    let max = 32768int;
    let last = payload.len() <= max;
    let f = FragmentView {
        object_id,
        fragment_id: index as u64,
        start: index == 0,
        end: last,
        blob: if last {
            payload
        } else {
            payload.take(max)
        },
    };
    let wire = protocol::fragments_from(object_id, index, payload);
    if last {
        laws::law_fragment_roundtrip(f, rest);
        let fs = seq![f];
        assert(payload.subrange(0, payload.len() as int) =~= payload);
        assert(are_fragments_of(fs, object_id, index, payload));
    } else {
        let tail = payload.skip(max);
        let more = protocol::fragments_from(object_id, index + 1, tail);
        laws::law_fragment_roundtrip(f, more + rest);
        assert(wire + rest =~= protocol::fragment_bytes(f) + (more + rest));
        lemma_fragments_of(object_id, index + 1, tail, rest);
        let gs = choose|gs: Seq<FragmentView>|
            {
                &&& #[trigger] are_fragments_of(gs, object_id, index + 1, tail)
                &&& laws::fragments_in(more + rest) == gs + laws::fragments_in(rest)
            };
        let fs = seq![f] + gs;
        assert(laws::fragments_in(wire + rest) =~= fs + laws::fragments_in(rest));
        assert forall|k: int| #![trigger fs[k]] 0 <= k < fs.len() implies {
            &&& fs[k].object_id == object_id
            &&& fs[k].fragment_id == index + k
            &&& fs[k].start == (index + k == 0)
            &&& fs[k].end == (k == fs.len() - 1)
            &&& fs[k].blob == payload.subrange(
                k * 32768,
                if k == fs.len() - 1 {
                    payload.len() as int
                } else {
                    (k + 1) * 32768
                },
            )
        } by {
            if k == 0 {
                assert(payload.take(max) =~= payload.subrange(0, max));
            } else {
                assert(fs[k] == gs[k - 1]);
                let upto = if k == fs.len() - 1 {
                    tail.len() as int
                } else {
                    k * 32768
                };
                assert(tail.subrange((k - 1) * 32768, upto) =~= payload.subrange(
                    k * 32768,
                    upto + max,
                ));
            }
        }
        assert(are_fragments_of(fs, object_id, index, payload));
    }
}

/// A message is sent in as few fragments as blobs of 32768 bytes allow, numbered from zero, the
/// first and the last one marked, and their blobs are the payload in order.
pub proof fn law_fragments_of_a_message(object_id: u64, payload: Seq<u8>)
    requires
        payload.len() <= u64::MAX,
    ensures
        are_fragments_of(
            laws::fragments_in(protocol::message_fragments(object_id, payload)),
            object_id,
            0,
            payload,
        ),
{
    let none = Seq::<u8>::empty();
    let wire = protocol::message_fragments(object_id, payload);
    lemma_fragments_of(object_id, 0, payload, none);
    assert(wire + none =~= wire);
    let fs = choose|fs: Seq<FragmentView>|
        {
            &&& #[trigger] are_fragments_of(fs, object_id, 0, payload)
            &&& laws::fragments_in(wire + none) == fs + laws::fragments_in(none)
        };
    assert(laws::fragments_in(none) =~= Seq::<FragmentView>::empty());
    assert(fs + laws::fragments_in(none) =~= fs);
}

/// Two messages that are sent one after the other are sent in the fragments of the first and then
/// those of the second.
pub proof fn law_fragments_of_two_messages(a: u64, first: Seq<u8>, b: u64, second: Seq<u8>)
    requires
        first.len() <= u64::MAX,
        second.len() <= u64::MAX,
    ensures
        ({
            let fs = laws::fragments_in(
                protocol::message_fragments(a, first) + protocol::message_fragments(b, second),
            );
            let n = fragment_count(first.len());
            &&& are_fragments_of(fs.take(n), a, 0, first)
            &&& are_fragments_of(fs.skip(n), b, 0, second)
        }),
{
    let wire = protocol::message_fragments(b, second);
    lemma_fragments_of(a, 0, first, wire);
    law_fragments_of_a_message(b, second);
    let fs = choose|fs: Seq<FragmentView>|
        {
            &&& #[trigger] are_fragments_of(fs, a, 0, first)
            &&& laws::fragments_in(protocol::message_fragments(a, first) + wire) == fs
                + laws::fragments_in(wire)
        };
    let all = fs + laws::fragments_in(wire);
    assert(all.take(fs.len() as int) =~= fs);
    assert(all.skip(fs.len() as int) =~= laws::fragments_in(wire));
}

/// What a fragment brings about. A whole message is complete at once and changes nothing else. A
/// first fragment begins its message anew, and its id is zero. A later one is appended where its
/// message has begun and its id is the next one, and completes the message if it is the last. One
/// of a message that has not begun is dropped.
pub proof fn law_fragment_is_taken_in(in_flight: Map<u64, InFlight>, f: FragmentView)
    ensures
        ({
            let (after, outcome) = protocol::accept(in_flight, f);
            let begun = in_flight.contains_key(f.object_id) && in_flight[f.object_id].started;
            let entry = in_flight[f.object_id];
            let next = entry.next as int;
            &&& f.start && f.end ==> outcome == Accepted::Complete(f.blob) && after == in_flight
            &&& f.start && !f.end && f.fragment_id == 0 ==> outcome is Pending
                && after.contains_key(f.object_id) && after[f.object_id] == (InFlight {
                data: f.blob,
                next: 1,
                started: true,
            })
            &&& f.start && !f.end && f.fragment_id != 0 ==> outcome == (Accepted::Mismatch {
                got: f.fragment_id,
                expected: 0,
            })
            &&& !f.start && begun && f.fragment_id == next && !f.end ==> outcome is Pending
                && after.contains_key(f.object_id) && after[f.object_id].data == entry.data + f.blob
                && after[f.object_id].next as int == (next + 1) % 0x1_0000_0000_0000_0000
                && after[f.object_id].started
            &&& !f.start && begun && f.fragment_id == next && f.end ==> outcome
                == Accepted::Complete(entry.data + f.blob) && !after.contains_key(f.object_id)
            &&& !f.start && begun && f.fragment_id != next ==> outcome == (Accepted::Mismatch {
                got: f.fragment_id,
                expected: entry.next,
            })
            &&& !f.start && !begun ==> outcome is Pending && !(after.contains_key(f.object_id)
                && after[f.object_id].started)
        }),
{
    let none = Seq::<u8>::empty();
    assert(none + f.blob =~= f.blob);
}

/// The fragments of one message, with the given blobs, from the one with the given id on.
pub open spec fn split_message(object_id: u64, index: nat, blobs: Seq<Seq<u8>>) -> Seq<u8>
    decreases blobs.len(),
{
    if blobs.len() == 0 {
        Seq::empty()
    } else {
        protocol::fragment_bytes(
            FragmentView {
                object_id,
                fragment_id: index as u64,
                start: index == 0,
                end: blobs.len() == 1,
                blob: blobs[0],
            },
        ) + split_message(object_id, index + 1, blobs.drop_first())
    }
}

/// The blobs one after the other.
pub open spec fn put_together(blobs: Seq<Seq<u8>>) -> Seq<u8>
    decreases blobs.len(),
{
    if blobs.len() == 0 {
        Seq::empty()
    } else {
        blobs[0] + put_together(blobs.drop_first())
    }
}

/// A message is put together from any of its fragments on.
proof fn lemma_split_message(
    in_flight: Map<u64, InFlight>,
    object_id: u64,
    index: nat,
    sofar: Seq<u8>,
    blobs: Seq<Seq<u8>>,
)
    requires
        blobs.len() > 0,
        index + blobs.len() <= u64::MAX,
        forall|k: int| 0 <= k < blobs.len() ==> #[trigger] blobs[k].len() <= u32::MAX,
        index > 0 ==> in_flight.contains_key(object_id) && in_flight[object_id] == (InFlight {
            data: sofar,
            next: index as u64,
            started: true,
        }),
        index == 0 ==> sofar.len() == 0,
    ensures
        ({
            let s = protocol::scan(
                ReassemblerView { buffer: split_message(object_id, index, blobs), in_flight },
            );
            &&& s.mismatch is None
            &&& s.completed == seq![sofar + put_together(blobs)]
            &&& s.state.buffer.len() == 0
        }),
    decreases blobs.len(),
{
    let f = FragmentView {
        object_id,
        fragment_id: index as u64,
        start: index == 0,
        end: blobs.len() == 1,
        blob: blobs[0],
    };
    let tail = blobs.drop_first();
    let rest = split_message(object_id, index + 1, tail);
    laws::law_fragment_roundtrip(f, rest);
    law_fragment_is_taken_in(in_flight, f);
    let none = Seq::<u8>::empty();
    if index == 0 {
        assert(sofar =~= none);
    }
    let after = protocol::accept(in_flight, f).0;
    if blobs.len() == 1 {
        assert(rest =~= none);
        assert(tail.len() == 0);
        assert(put_together(tail) =~= none);
        assert(sofar + put_together(blobs) =~= sofar + f.blob);
        let next = protocol::scan(ReassemblerView { buffer: rest, in_flight: after });
        assert(next.completed =~= Seq::<Seq<u8>>::empty());
        assert(seq![sofar + f.blob] + next.completed =~= seq![sofar + f.blob]);
        if index == 0 {
            assert(sofar + f.blob =~= f.blob);
        }
    } else {
        assert(sofar + f.blob =~= if index == 0 {
            f.blob
        } else {
            sofar + f.blob
        });
        assert(after[object_id].data =~= sofar + f.blob);
        assert(after[object_id] == (InFlight {
            data: sofar + f.blob,
            next: (index + 1) as u64,
            started: true,
        }));
        assert forall|k: int| 0 <= k < tail.len() implies #[trigger] tail[k].len() <= u32::MAX by {
            assert(tail[k] == blobs[k + 1]);
        }
        lemma_split_message(after, object_id, index + 1, sofar + f.blob, tail);
        assert(sofar + f.blob + put_together(tail) =~= sofar + put_together(blobs));
    }
}

/// A message is put together again however it was split: its blobs in order, and nothing else.
pub proof fn law_any_split_is_put_together(
    in_flight: Map<u64, InFlight>,
    object_id: u64,
    blobs: Seq<Seq<u8>>,
)
    requires
        0 < blobs.len() <= u64::MAX,
        forall|k: int| 0 <= k < blobs.len() ==> #[trigger] blobs[k].len() <= u32::MAX,
    ensures
        ({
            let s = protocol::fed(
                ReassemblerView { buffer: Seq::empty(), in_flight },
                split_message(object_id, 0, blobs),
            );
            &&& s.mismatch is None
            &&& s.completed == seq![put_together(blobs)]
            &&& s.state.buffer.len() == 0
        }),
{
    let none = Seq::<u8>::empty();
    let wire = split_message(object_id, 0, blobs);
    lemma_split_message(in_flight, object_id, 0, none, blobs);
    assert(none + wire =~= wire);
    assert(none + put_together(blobs) =~= put_together(blobs));
}

/// Messages come out in the order in which their last fragments arrived, one for each payload.
pub proof fn law_payloads_are_decoded_in_order(payloads: Seq<Seq<u8>>)
    ensures
        protocol::decoded_all(payloads) matches Ok(msgs) ==> msgs.len() == payloads.len()
            && forall|i: int| #![trigger msgs[i]] #![trigger payloads[i]]
            0 <= i < msgs.len() ==> protocol::decoded(payloads[i]) == Ok::<
                PsrpMessageView,
                Seq<char>,
            >(msgs[i]),
    decreases payloads.len(),
{
    if payloads.len() > 0 {
        let front = payloads.drop_last();
        law_payloads_are_decoded_in_order(front);
        if let Ok(msgs) = protocol::decoded_all(payloads) {
            let before = protocol::decoded_all(front)->Ok_0;
            assert forall|i: int|
                #![trigger msgs[i]]
                #![trigger payloads[i]]
                0 <= i < msgs.len() implies protocol::decoded(payloads[i]) == Ok::<
                PsrpMessageView,
                Seq<char>,
            >(msgs[i]) by {
                if i < front.len() {
                    assert(msgs[i] == before[i]);
                    assert(front[i] == payloads[i]);
                }
            }
        }
    }
}

/// What is said of a fragment out of order: the id that came and the one that was expected.
pub proof fn law_mismatch_text(got: u64, expected: u64)
    ensures
        protocol::mismatch_text(got, expected) == "fragment id mismatch: got "@ + text::decimal(
            got as nat,
        ) + ", expected "@ + text::decimal(expected as nat),
        protocol::protocol_error_text(protocol::mismatch_text(got, expected))
            == "PSRP protocol error: "@ + protocol::mismatch_text(got, expected),
{
}

} // verus!
