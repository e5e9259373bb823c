//! PSRP framing: messages and the fragments that carry them.

use std::collections::HashMap;

use vstd::prelude::*;
use vstd::slice::slice_subrange;
use vstd::utf8::*;

use crate::codec;
use crate::search;
use crate::text;
use crate::uuid;
use crate::uuid::Uuid;

verus! {

broadcast use vstd::std_specs::hash::group_hash_axioms;

/// Length of a message header: destination, type and two identifiers.
pub const HEADER_LEN: usize = 40;

/// Length of a fragment header: object id, fragment id, flags and blob length.
pub const FRAGMENT_HEADER_LEN: usize = 21;

/// Flag of the first fragment of a message.
pub const FLAG_START: u8 = 0x01;

/// Flag of the last fragment of a message.
pub const FLAG_END: u8 = 0x02;

/// Most payload bytes that one fragment carries.
pub const MAX_FRAGMENT_PAYLOAD: usize = 32768;

/// Message type: SessionCapability.
pub const MT_SESSION_CAPABILITY: u32 = 0x0001_0002;

/// Message type: InitRunspacePool.
pub const MT_INIT_RUNSPACE_POOL: u32 = 0x0001_0004;

/// Message type: RunspacePoolState.
pub const MT_RUNSPACE_POOL_STATE: u32 = 0x0002_1005;

/// Message type: CreatePipeline.
pub const MT_CREATE_PIPELINE: u32 = 0x0002_1006;

/// Message type: PipelineOutput.
pub const MT_PIPELINE_OUTPUT: u32 = 0x0004_1004;

/// Message type: ErrorRecord.
pub const MT_ERROR_RECORD: u32 = 0x0004_1005;

/// Message type: PipelineState.
pub const MT_PIPELINE_STATE: u32 = 0x0004_1006;

/// Destination: server.
pub const DEST_SERVER: u32 = 2;

/// Destination: client.
pub const DEST_CLIENT: u32 = 1;

/// Errors of the protocol layer.
#[derive(Debug)]
pub enum PsrpProtocolError {
    /// Malformed fragment stream or message.
    Protocol(String),
}

impl View for PsrpProtocolError {
    type V = Seq<char>;

    open spec fn view(&self) -> Seq<char> {
        match self {
            PsrpProtocolError::Protocol(m) => m@,
        }
    }
}

/// The message that an error with the given details shows.
pub open spec fn protocol_error_text(details: Seq<char>) -> Seq<char> {
    "PSRP protocol error: "@ + details
}

impl PsrpProtocolError {
    /// The error as a message.
    pub fn message(&self) -> (r: String)
        ensures
            r@ == protocol_error_text(self@),
    {
        match self {
            PsrpProtocolError::Protocol(m) => text::concat("PSRP protocol error: ", m.as_str()),
        }
    }
}

/// A decoded message: its type and its body.
#[derive(Debug, Clone)]
pub struct PsrpMessage {
    /// Wire message type code.
    pub message_type: u32,
    /// CLIXML body, without a leading byte order mark.
    pub data: String,
}

/// What a [`PsrpMessage`] holds.
pub struct PsrpMessageView {
    pub message_type: u32,
    pub data: Seq<char>,
}

impl View for PsrpMessage {
    type V = PsrpMessageView;

    open spec fn view(&self) -> PsrpMessageView {
        PsrpMessageView { message_type: self.message_type, data: self.data@ }
    }
}

/// The wire form of a message: a header of forty bytes and the body in UTF-8.
pub open spec fn message_bytes(
    destination: u32,
    message_type: u32,
    rpid: Seq<u8>,
    pid: Seq<u8>,
    body: Seq<char>,
) -> Seq<u8> {
    codec::u32_le(destination) + codec::u32_le(message_type) + uuid::mixed_endian(rpid)
        + uuid::mixed_endian(pid) + encode_utf8(body)
}

/// The UTF-8 byte order mark.
pub open spec fn byte_order_mark() -> Seq<u8> {
    seq![0xef, 0xbb, 0xbf]
}

/// What follows the header of a message, without a leading byte order mark.
pub open spec fn message_body(bytes: Seq<u8>) -> Seq<u8> {
    let body = bytes.skip(HEADER_LEN as int);
    if search::starts_with(body, byte_order_mark()) {
        body.skip(3)
    } else {
        body
    }
}

/// The message that the given bytes hold, or the details of why they hold none.
pub open spec fn decoded(bytes: Seq<u8>) -> Result<PsrpMessageView, Seq<char>> {
    if bytes.len() < HEADER_LEN {
        Err("message too short: "@ + text::decimal(bytes.len()) + " bytes"@)
    } else if valid_utf8(message_body(bytes)) {
        Ok(
            PsrpMessageView {
                message_type: codec::u32_from_le(bytes.subrange(4, 8)),
                data: decode_utf8(message_body(bytes)),
            },
        )
    } else {
        Err("invalid UTF-8 in PSRP body: "@ + codec::utf8_error_text(message_body(bytes)))
    }
}

/// The view of the outcome of decoding one message.
pub open spec fn message_result(r: Result<PsrpMessage, PsrpProtocolError>) -> Result<
    PsrpMessageView,
    Seq<char>,
> {
    match r {
        Ok(m) => Ok(m@),
        Err(e) => Err(e@),
    }
}

/// Serializes a message.
pub fn encode_psrp_message(
    destination: u32,
    message_type: u32,
    rpid: Uuid,
    pid: Uuid,
    body: &str,
) -> (r: Vec<u8>)
    ensures
        r@ == message_bytes(destination, message_type, rpid@, pid@, body@),
{
    let mut out: Vec<u8> = Vec::new();
    codec::put_u32_le(&mut out, destination);
    codec::put_u32_le(&mut out, message_type);
    out.extend_from_slice(&rpid.to_bytes_le());
    out.extend_from_slice(&pid.to_bytes_le());
    out.extend_from_slice(body.as_bytes());
    assert(out@ =~= message_bytes(destination, message_type, rpid@, pid@, body@));
    out
}

/// Decodes a complete message.
pub fn decode_message(bytes: &[u8]) -> (r: Result<PsrpMessage, PsrpProtocolError>)
    ensures
        message_result(r) == decoded(bytes@),
{
    if bytes.len() < HEADER_LEN {
        let mut m = text::concat(
            "message too short: ",
            text::decimal_text(bytes.len() as u64).as_str(),
        );
        m.append(" bytes");
        return Err(PsrpProtocolError::Protocol(m));
    }
    let message_type: u32 = codec::get_u32_le(bytes, 4);
    let whole = slice_subrange(bytes, HEADER_LEN, bytes.len());
    assert(whole@ =~= bytes@.skip(HEADER_LEN as int));
    let mark: [u8; 3] = [0xef, 0xbb, 0xbf];
    assert(mark@ =~= byte_order_mark());
    let body = if search::stands_at(whole, &mark, 0) {
        slice_subrange(whole, 3, whole.len())
    } else {
        whole
    };
    assert(body@ =~= message_body(bytes@));
    let mut owned: Vec<u8> = Vec::new();
    owned.extend_from_slice(body);
    assert(owned@ =~= body@);
    match codec::string_from_utf8(owned) {
        Ok(data) => Ok(PsrpMessage { message_type, data }),
        Err(e) => Err(
            PsrpProtocolError::Protocol(text::concat("invalid UTF-8 in PSRP body: ", e.as_str())),
        ),
    }
}

/// One fragment of a message.
pub struct FragmentView {
    pub object_id: u64,
    pub fragment_id: u64,
    pub start: bool,
    pub end: bool,
    pub blob: Seq<u8>,
}

/// The flag byte of a fragment.
pub open spec fn flag_byte(start: bool, end: bool) -> u8 {
    if start && end {
        0x03
    } else if start {
        FLAG_START
    } else if end {
        FLAG_END
    } else {
        0x00
    }
}

/// The wire form of one fragment.
pub open spec fn fragment_bytes(f: FragmentView) -> Seq<u8> {
    codec::u64_be(f.object_id) + codec::u64_be(f.fragment_id) + seq![flag_byte(f.start, f.end)]
        + codec::u32_be(f.blob.len() as u32) + f.blob
}

/// The wire form of what is left of a message from its fragment `index` on.
pub open spec fn fragments_from(object_id: u64, index: nat, payload: Seq<u8>) -> Seq<u8>
    decreases payload.len(),
{
    let max = MAX_FRAGMENT_PAYLOAD as int;
    if payload.len() <= max {
        fragment_bytes(
            FragmentView {
                object_id,
                fragment_id: index as u64,
                start: index == 0,
                end: true,
                blob: payload,
            },
        )
    } else {
        fragment_bytes(
            FragmentView {
                object_id,
                fragment_id: index as u64,
                start: index == 0,
                end: false,
                blob: payload.take(max),
            },
        ) + fragments_from(object_id, index + 1, payload.skip(max))
    }
}

/// The wire form of a message that is split into fragments.
pub open spec fn message_fragments(object_id: u64, payload: Seq<u8>) -> Seq<u8> {
    fragments_from(object_id, 0, payload)
}

/// Serializes one fragment.
///
/// The length field holds the low 32 bits of the blob's length.
pub fn encode_one_fragment(
    object_id: u64,
    fragment_id: u64,
    start: bool,
    end: bool,
    blob: &[u8],
) -> (r: Vec<u8>)
    ensures
        r@ == fragment_bytes(
            (FragmentView { object_id, fragment_id, start, end, blob: blob@ }),
        ),
{
    let mut flags: u8 = 0;
    if start {
        flags = flags | FLAG_START;
    }
    if end {
        flags = flags | FLAG_END;
    }
    assert(flags == flag_byte(start, end)) by {
        assert(0u8 | 0x01u8 == 0x01u8) by (bit_vector);
        assert(0u8 | 0x02u8 == 0x02u8) by (bit_vector);
        assert(0x01u8 | 0x02u8 == 0x03u8) by (bit_vector);
    }
    let mut out: Vec<u8> = Vec::new();
    codec::put_u64_be(&mut out, object_id);
    codec::put_u64_be(&mut out, fragment_id);
    out.push(flags);
    codec::put_u32_be(&mut out, blob.len() as u32);
    out.extend_from_slice(blob);
    assert(out@ =~= fragment_bytes(
        FragmentView { object_id, fragment_id, start, end, blob: blob@ },
    ));
    out
}

/// Splits a message into the fragments that carry it, one after the other.
pub fn encode_fragments(object_id: u64, payload: &[u8]) -> (r: Vec<u8>)
    ensures
        r@ == message_fragments(object_id, payload@),
{
    let mut out: Vec<u8> = Vec::new();
    let mut from: usize = 0;
    let mut index: u64 = 0;
    assert(payload@.skip(0) =~= payload@);
    while payload.len() - from > MAX_FRAGMENT_PAYLOAD
        invariant
            from <= payload@.len(),
            index <= from,
            message_fragments(object_id, payload@) =~= out@ + fragments_from(
                object_id,
                index as nat,
                payload@.skip(from as int),
            ),
        decreases payload@.len() - from,
    {
        let chunk = slice_subrange(payload, from, from + MAX_FRAGMENT_PAYLOAD);
        let one = encode_one_fragment(object_id, index, index == 0, false, chunk);
        out.extend_from_slice(one.as_slice());
        proof {
            let rest = payload@.skip(from as int);
            assert(chunk@ =~= rest.take(MAX_FRAGMENT_PAYLOAD as int));
            assert(rest.skip(MAX_FRAGMENT_PAYLOAD as int) =~= payload@.skip(
                from + MAX_FRAGMENT_PAYLOAD,
            ));
        }
        from += MAX_FRAGMENT_PAYLOAD;
        index += 1;
    }
    let chunk = slice_subrange(payload, from, payload.len());
    let one = encode_one_fragment(object_id, index, index == 0, true, chunk);
    out.extend_from_slice(one.as_slice());
    assert(chunk@ =~= payload@.skip(from as int));
    assert(out@ =~= message_fragments(object_id, payload@));
    out
}

/// A message of which some fragments have arrived.
pub struct InFlight {
    /// The blobs so far.
    pub data: Seq<u8>,
    /// The fragment id that comes next.
    pub next: u64,
    /// Whether the first fragment has been seen.
    pub started: bool,
}

/// The state of a [`Reassembler`].
pub struct ReassemblerView {
    /// Bytes that do not make up a whole fragment yet.
    pub buffer: Seq<u8>,
    /// The messages in flight, by object id.
    pub in_flight: Map<u64, InFlight>,
}

/// Blob length that the fragment header at the front of `b` announces.
pub open spec fn blob_len(b: Seq<u8>) -> int {
    codec::u32_from_be(b.subrange(17, 21)) as int
}

/// A whole fragment stands at the front of `b`.
pub open spec fn has_fragment(b: Seq<u8>) -> bool {
    b.len() >= FRAGMENT_HEADER_LEN && b.len() >= FRAGMENT_HEADER_LEN + blob_len(b)
}

/// The fragment at the front of `b`.
pub open spec fn first_fragment(b: Seq<u8>) -> FragmentView {
    FragmentView {
        object_id: codec::u64_from_be(b.subrange(0, 8)),
        fragment_id: codec::u64_from_be(b.subrange(8, 16)),
        start: b[16] & FLAG_START != 0,
        end: b[16] & FLAG_END != 0,
        blob: b.subrange(FRAGMENT_HEADER_LEN as int, FRAGMENT_HEADER_LEN + blob_len(b)),
    }
}

/// What follows the fragment at the front of `b`.
pub open spec fn after_fragment(b: Seq<u8>) -> Seq<u8> {
    b.skip(FRAGMENT_HEADER_LEN + blob_len(b))
}

/// What a fragment brings about.
pub enum Accepted {
    /// The message goes on, or the fragment belongs to no message that was started.
    Pending,
    /// The message is complete.
    Complete(Seq<u8>),
    /// The fragment is out of order.
    Mismatch { got: u64, expected: u64 },
}

/// What is known of the message of a fragment before its blob is added.
pub open spec fn entry_for(in_flight: Map<u64, InFlight>, f: FragmentView) -> InFlight {
    if f.start {
        InFlight { data: Seq::empty(), next: 0, started: true }
    } else if in_flight.contains_key(f.object_id) {
        in_flight[f.object_id]
    } else {
        InFlight { data: Seq::empty(), next: 0, started: false }
    }
}

/// The fragment id after the given one.
pub open spec fn next_id(id: u64) -> u64 {
    if id == u64::MAX {
        0
    } else {
        (id + 1) as u64
    }
}

/// The messages in flight after a fragment, and what the fragment brings about.
pub open spec fn accept(in_flight: Map<u64, InFlight>, f: FragmentView) -> (
    Map<u64, InFlight>,
    Accepted,
) {
    let entry = entry_for(in_flight, f);
    if f.start && f.end {
        (in_flight, Accepted::Complete(f.blob))
    } else if !entry.started {
        (in_flight.insert(f.object_id, entry), Accepted::Pending)
    } else if f.fragment_id != entry.next {
        (
            in_flight.insert(f.object_id, entry),
            Accepted::Mismatch { got: f.fragment_id, expected: entry.next },
        )
    } else if f.end {
        (in_flight.remove(f.object_id), Accepted::Complete(entry.data + f.blob))
    } else {
        (
            in_flight.insert(
                f.object_id,
                InFlight { data: entry.data + f.blob, next: next_id(entry.next), started: true },
            ),
            Accepted::Pending,
        )
    }
}

/// The outcome of taking in every whole fragment of a buffer.
pub struct Scan {
    /// The state afterwards.
    pub state: ReassemblerView,
    /// The messages that were completed, in order.
    pub completed: Seq<Seq<u8>>,
    /// The fragment id that came and the one that was expected, where they differed.
    pub mismatch: Option<(u64, u64)>,
}

/// Takes in the whole fragments at the front of the buffer, up to one that is out of order.
pub open spec fn scan(state: ReassemblerView) -> Scan
    decreases state.buffer.len(),
{
    let b = state.buffer;
    if !has_fragment(b) {
        Scan { state, completed: Seq::empty(), mismatch: None }
    } else {
        let (in_flight, outcome) = accept(state.in_flight, first_fragment(b));
        let next = ReassemblerView { buffer: after_fragment(b), in_flight };
        match outcome {
            Accepted::Pending => scan(next),
            Accepted::Complete(payload) => {
                let rest = scan(next);
                Scan {
                    state: rest.state,
                    completed: seq![payload] + rest.completed,
                    mismatch: rest.mismatch,
                }
            },
            Accepted::Mismatch { got, expected } => Scan {
                state: next,
                completed: Seq::empty(),
                mismatch: Some((got, expected)),
            },
        }
    }
}

/// The messages that the given payloads hold, or the details of the first that holds none.
pub open spec fn decoded_all(payloads: Seq<Seq<u8>>) -> Result<Seq<PsrpMessageView>, Seq<char>>
    decreases payloads.len(),
{
    if payloads.len() == 0 {
        Ok(Seq::empty())
    } else {
        match decoded_all(payloads.drop_last()) {
            Ok(front) => match decoded(payloads.last()) {
                Ok(m) => Ok(front.push(m)),
                Err(e) => Err(e),
            },
            Err(e) => Err(e),
        }
    }
}

/// Details of the error that a fragment out of order raises.
pub open spec fn mismatch_text(got: u64, expected: u64) -> Seq<char> {
    "fragment id mismatch: got "@ + text::decimal(got as nat) + ", expected "@ + text::decimal(
        expected as nat,
    )
}

/// The state after feeding bytes to a reassembler.
pub open spec fn fed(state: ReassemblerView, chunk: Seq<u8>) -> Scan {
    scan(ReassemblerView { buffer: state.buffer + chunk, in_flight: state.in_flight })
}

/// What feeding bytes returns.
pub open spec fn fed_result(scan: Scan) -> Result<Seq<PsrpMessageView>, Seq<char>> {
    match scan.mismatch {
        Some((got, expected)) => Err(mismatch_text(got, expected)),
        None => decoded_all(scan.completed),
    }
}

/// Stateful reassembler for incoming fragments.
#[derive(Debug)]
pub struct Reassembler {
    buffer: Vec<u8>,
    in_flight: HashMap<u64, (Vec<u8>, u64, bool)>,
}

/// The messages in flight behind the entries of a map.
pub open spec fn flights(m: Map<u64, (Vec<u8>, u64, bool)>) -> Map<u64, InFlight> {
    m.map_values(
        |e: (Vec<u8>, u64, bool)| InFlight { data: e.0@, next: e.1, started: e.2 },
    )
}

impl View for Reassembler {
    type V = ReassemblerView;

    closed spec fn view(&self) -> ReassemblerView {
        ReassemblerView { buffer: self.buffer@, in_flight: flights(self.in_flight@) }
    }
}

/// The view of a list of messages.
pub open spec fn messages_view(v: Seq<PsrpMessage>) -> Seq<PsrpMessageView> {
    v.map_values(|m: PsrpMessage| m@)
}

/// The view of what feeding returns.
pub open spec fn messages_result(r: Result<Vec<PsrpMessage>, PsrpProtocolError>) -> Result<
    Seq<PsrpMessageView>,
    Seq<char>,
> {
    match r {
        Ok(v) => Ok(messages_view(v@)),
        Err(e) => Err(e@),
    }
}

/// The view of a list of payloads.
spec fn payloads_view(v: Seq<Vec<u8>>) -> Seq<Seq<u8>> {
    v.map_values(|p: Vec<u8>| p@)
}

/// Decodes payloads in order, up to the first that does not decode.
fn decode_messages(payloads: &Vec<Vec<u8>>) -> (r: Result<Vec<PsrpMessage>, PsrpProtocolError>)
    ensures
        messages_result(r) == decoded_all(payloads_view(payloads@)),
{
    let ghost all = payloads_view(payloads@);
    let mut msgs: Vec<PsrpMessage> = Vec::new();
    let mut i: usize = 0;
    assert(messages_view(msgs@) =~= Seq::empty());
    while i < payloads.len()
        invariant
            i <= payloads@.len(),
            all == payloads_view(payloads@),
            decoded_all(all.take(i as int)) == Ok::<Seq<PsrpMessageView>, Seq<char>>(
                messages_view(msgs@),
            ),
        decreases payloads@.len() - i,
    {
        let ghost before = msgs@;
        assert(all.take(i + 1).drop_last() =~= all.take(i as int));
        match decode_message(payloads[i].as_slice()) {
            Ok(m) => {
                msgs.push(m);
                assert(messages_view(msgs@) =~= messages_view(before).push(m@));
            },
            Err(e) => {
                proof {
                    lemma_decoded_all_stops(all, i + 1);
                }
                return Err(e);
            },
        }
        i += 1;
    }
    assert(all.take(i as int) =~= all);
    Ok(msgs)
}

/// An error on a prefix of the payloads is the error on all of them.
proof fn lemma_decoded_all_stops(payloads: Seq<Seq<u8>>, n: int)
    requires
        0 <= n <= payloads.len(),
        decoded_all(payloads.take(n)) is Err,
    ensures
        decoded_all(payloads) == decoded_all(payloads.take(n)),
    decreases payloads.len() - n,
{
    if n < payloads.len() {
        assert(payloads.take(n + 1).drop_last() =~= payloads.take(n));
        lemma_decoded_all_stops(payloads, n + 1);
    } else {
        assert(payloads.take(n) =~= payloads);
    }
}

impl Reassembler {
    /// An empty reassembler.
    pub fn new() -> (r: Reassembler)
        ensures
            r@ == (ReassemblerView { buffer: Seq::empty(), in_flight: Map::empty() }),
    {
        let r = Reassembler { buffer: Vec::new(), in_flight: HashMap::new() };
        assert(r@.in_flight =~= Map::empty());
        assert(r@.buffer =~= Seq::empty());
        r
    }

    /// Takes in one fragment and returns the payload of the message that it completes.
    fn take_fragment(
        &mut self,
        object_id: u64,
        fragment_id: u64,
        start: bool,
        end: bool,
        blob: &[u8],
    ) -> (r: Result<Option<Vec<u8>>, (u64, u64)>)
        ensures
            final(self)@.buffer == old(self)@.buffer,
            ({
                let f = FragmentView { object_id, fragment_id, start, end, blob: blob@ };
                let (in_flight, outcome) = accept(old(self)@.in_flight, f);
                &&& final(self)@.in_flight == in_flight
                &&& match outcome {
                    Accepted::Pending => r == Ok::<Option<Vec<u8>>, (u64, u64)>(None),
                    Accepted::Complete(payload) => r matches Ok(Some(v)) && v@ == payload,
                    Accepted::Mismatch { got, expected } => r matches Err(e) && e == (
                        got,
                        expected,
                    ),
                }
            }),
    {
        let ghost f = FragmentView { object_id, fragment_id, start, end, blob: blob@ };
        let ghost before = flights(self.in_flight@);
        if start && end {
            let mut whole: Vec<u8> = Vec::new();
            whole.extend_from_slice(blob);
            assert(whole@ =~= blob@);
            return Ok(Some(whole));
        }
        let known = self.in_flight.remove(&object_id);
        assert(flights(self.in_flight@) =~= before.remove(object_id));
        let (mut data, next, started): (Vec<u8>, u64, bool) = if start {
            (Vec::new(), 0, true)
        } else {
            match known {
                Some(entry) => entry,
                None => (Vec::new(), 0, false),
            }
        };
        assert(entry_for(before, f) == (InFlight { data: data@, next, started }));
        if !started {
            self.in_flight.insert(object_id, (data, next, started));
            assert(flights(self.in_flight@) =~= before.insert(object_id, entry_for(before, f)));
            return Ok(None);
        }
        if fragment_id != next {
            self.in_flight.insert(object_id, (data, next, started));
            assert(flights(self.in_flight@) =~= before.insert(object_id, entry_for(before, f)));
            return Err((fragment_id, next));
        }
        let ghost sofar = data@;
        data.extend_from_slice(blob);
        assert(data@ =~= sofar + blob@);
        if end {
            return Ok(Some(data));
        }
        self.in_flight.insert(object_id, (data, next.wrapping_add(1), true));
        assert(flights(self.in_flight@) =~= before.insert(
            object_id,
            InFlight { data: data@, next: next_id(next), started: true },
        ));
        Ok(None)
    }

    /// Feeds bytes and returns the messages that they complete.
    ///
    /// Fragment ids are counted modulo 2^64.
    pub fn feed(&mut self, chunk: &[u8]) -> (r: Result<Vec<PsrpMessage>, PsrpProtocolError>)
        ensures
            final(self)@ == fed(old(self)@, chunk@).state,
            messages_result(r) == fed_result(fed(old(self)@, chunk@)),
    {
        let ghost outcome = fed(self@, chunk@);
        self.buffer.extend_from_slice(chunk);
        assert(self@.buffer =~= old(self)@.buffer + chunk@);
        let mut completed: Vec<Vec<u8>> = Vec::new();
        assert(payloads_view(completed@) =~= Seq::empty());
        while self.buffer.len() >= FRAGMENT_HEADER_LEN
            invariant_except_break
                scan(self@).state == outcome.state,
                payloads_view(completed@) + scan(self@).completed =~= outcome.completed,
                scan(self@).mismatch == outcome.mismatch,
            invariant
                outcome == fed(old(self)@, chunk@),
            ensures
                self@ == outcome.state,
                payloads_view(completed@) == outcome.completed,
                outcome.mismatch is None,
            decreases self@.buffer.len(),
        {
            let ghost b = self@.buffer;
            let object_id: u64 = codec::get_u64_be(self.buffer.as_slice(), 0);
            let fragment_id: u64 = codec::get_u64_be(self.buffer.as_slice(), 8);
            let flags: u8 = self.buffer[16];
            let len: usize = codec::get_u32_be(self.buffer.as_slice(), 17) as usize;
            if self.buffer.len() - FRAGMENT_HEADER_LEN < len {
                break ;
            }
            let mut front: Vec<u8> = Vec::new();
            let total: usize = FRAGMENT_HEADER_LEN + len;
            let rest = self.buffer.split_off(total);
            std::mem::swap(&mut front, &mut self.buffer);
            self.buffer = rest;
            assert(self@.buffer =~= after_fragment(b));
            let blob = slice_subrange(front.as_slice(), FRAGMENT_HEADER_LEN, total);
            let start = flags & FLAG_START != 0;
            let end = flags & FLAG_END != 0;
            proof {
                assert(blob@ =~= first_fragment(b).blob);
            }
            let ghost sofar = completed@;
            match self.take_fragment(object_id, fragment_id, start, end, blob) {
                Ok(Some(payload)) => {
                    completed.push(payload);
                    assert(payloads_view(completed@) =~= payloads_view(sofar).push(payload@));
                },
                Ok(None) => {},
                Err((got, expected)) => {
                    let mut m = text::concat(
                        "fragment id mismatch: got ",
                        text::decimal_text(got).as_str(),
                    );
                    m.append(", expected ");
                    m.append(text::decimal_text(expected).as_str());
                    return Err(PsrpProtocolError::Protocol(m));
                },
            }
        }
        decode_messages(&completed)
    }
}

} // verus!
