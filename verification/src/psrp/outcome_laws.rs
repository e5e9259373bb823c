//! What a caller gets out of a run, and what the peer gets.

use vstd::prelude::*;
use vstd::utf8::encode_utf8;

use crate::error::{SoapErrorView, WinrmErrorView};
use crate::psrp::clixml;
use crate::psrp::laws;
use crate::psrp::protocol;
use crate::psrp::protocol::{InFlight, PsrpMessageView, ReassemblerView};
use crate::psrp::run;
use crate::psrp::run::{Output, RunActionView, RunPhase, RunView};
use crate::psrp::run_laws;
use crate::psrp::wire_laws;
use crate::psrp::xml_laws;
use crate::search;

verus! {

/// When a run ends with an outcome, that is all the text that was collected on each stream up to
/// the terminal state, whether the pipeline completed, failed or was stopped.
pub proof fn law_outcome_is_all_that_was_collected(
    r: RunView,
    chunk: Seq<u8>,
    msgs: Seq<PsrpMessageView>,
)
    requires
        r.phase is Running,
        protocol::fed_result(protocol::fed(r.reassembler, chunk)) == Ok::<
            Seq<PsrpMessageView>,
            Seq<char>,
        >(msgs),
    ensures
        ({
            let (after, action) = run::run_step(r, chunk);
            let o = run::absorb(r.output(), msgs);
            &&& after.stdout == o.stdout
            &&& after.stderr == o.stderr
            &&& after.exit_code == o.exit_code
            &&& action matches RunActionView::Close(Ok(out)) ==> out.stdout == encode_utf8(o.stdout)
                && out.stderr == encode_utf8(o.stderr) && out.exit_code == o.exit_code
            &&& (action matches RunActionView::Close(Ok(_))) <==> o.done
        }),
{
}

/// A text behind another, and a line feed unless it ends in one.
pub open spec fn is_line_behind(before: Seq<char>, t: Seq<char>, after: Seq<char>) -> bool {
    let s = before + t;
    if s.len() > 0 && s[s.len() - 1] == '\n' {
        after == s
    } else {
        after == s + seq!['\n']
    }
}

/// What each message of a running pipeline does: output and errors are added as lines, each to
/// its own stream. The states 4, 5 and 6 end the pipeline, and 5 sets the exit code to 1. Nothing
/// else does anything, and nothing does once the pipeline has ended.
pub proof fn law_effect_of_a_message(o: Output, m: PsrpMessageView)
    ensures
        ({
            let after = run::absorb_one(o, m);
            let t = clixml::output_text(m.data);
            let state = clixml::named_i32(m.data, "PipelineState"@);
            let ends = m.message_type == 0x41006 && (state == Some(4i32) || state == Some(5i32)
                || state == Some(6i32));
            &&& o.done ==> after == o
            &&& !o.done && m.message_type == 0x41004 ==> is_line_behind(o.stdout, t, after.stdout)
            &&& m.message_type != 0x41004 ==> after.stdout == o.stdout
            &&& !o.done && m.message_type == 0x41005 ==> is_line_behind(o.stderr, t, after.stderr)
            &&& m.message_type != 0x41005 ==> after.stderr == o.stderr
            &&& !o.done ==> after.done == ends
            &&& !o.done ==> after.exit_code == if ends && state == Some(5i32) {
                1
            } else {
                o.exit_code
            }
        }),
{
    let s = o.stdout + clixml::output_text(m.data);
    let e = o.stderr + clixml::output_text(m.data);
    assert(s.push('\n') =~= s + seq!['\n']);
    assert(e.push('\n') =~= e + seq!['\n']);
}

/// Messages are taken in one after the other.
pub proof fn law_messages_in_order(o: Output, msgs: Seq<PsrpMessageView>, m: PsrpMessageView)
    ensures
        run::absorb(o, Seq::empty()) == o,
        run::absorb(o, msgs.push(m)) == run::absorb_one(run::absorb(o, msgs), m),
{
    assert(msgs.push(m).drop_last() =~= msgs);
}

/// The script is started as soon as the pool reports state 2, and not before. What was collected
/// until then stays as it was, and the peer's bytes are not lost.
pub proof fn law_when_the_script_is_started(
    r: RunView,
    chunk: Seq<u8>,
    msgs: Seq<PsrpMessageView>,
)
    requires
        r.phase is Opening,
        protocol::fed_result(protocol::fed(r.reassembler, chunk)) == Ok::<
            Seq<PsrpMessageView>,
            Seq<char>,
        >(msgs),
    ensures
        ({
            let (after, action) = run::run_step(r, chunk);
            let opened = exists|i: int| #![trigger msgs[i]]
                0 <= i < msgs.len() && msgs[i].message_type == 0x21005 && clixml::named_i32(
                    msgs[i].data,
                    "RunspaceState"@,
                ) == Some(2i32);
            &&& action is StartPipeline <==> opened
            &&& opened ==> after.phase is Running && after.polls == 0
            &&& !opened && r.polls < 63 ==> action is Receive && after.phase is Opening
                && after.polls == r.polls + 1
            &&& !opened && r.polls == 63 ==> action == RunActionView::Close(
                Err(WinrmErrorView::Psrp("runspace pool did not reach Opened state"@)),
            )
            &&& after.stdout == r.stdout
            &&& after.stderr == r.stderr
            &&& after.exit_code == r.exit_code
            &&& after.rpid == r.rpid
            &&& after.reassembler == protocol::fed(r.reassembler, chunk).state
        }),
{
    let opened = exists|i: int| #![trigger msgs[i]]
        0 <= i < msgs.len() && msgs[i].message_type == 0x21005 && clixml::named_i32(
            msgs[i].data,
            "RunspaceState"@,
        ) == Some(2i32);
    if opened {
        let i = choose|i: int| #![trigger msgs[i]]
            0 <= i < msgs.len() && msgs[i].message_type == 0x21005 && clixml::named_i32(
                msgs[i].data,
                "RunspaceState"@,
            ) == Some(2i32);
        assert(run::tells_opened(msgs[i]));
    }
    if run::any_opened(msgs) {
        let i = choose|i: int| 0 <= i < msgs.len() && run::tells_opened(#[trigger] msgs[i]);
        assert(msgs[i].message_type == 0x21005);
    }
}

/// A pipeline that has not ended is waited for, for 256 chunks at most. Bytes that are no PSRP
/// end the run in any phase, with the reason.
pub proof fn law_how_long_a_run_waits(r: RunView, chunk: Seq<u8>)
    requires
        !(r.phase is Over),
    ensures
        ({
            let (after, action) = run::run_step(r, chunk);
            match protocol::fed_result(protocol::fed(r.reassembler, chunk)) {
                Err(details) => {
                    &&& action == RunActionView::Fail(
                        WinrmErrorView::Psrp("PSRP protocol error: "@ + details),
                    )
                    &&& after.phase is Over
                },
                Ok(msgs) => {
                    let ended = run::absorb(r.output(), msgs).done;
                    &&& r.phase is Running && !ended && r.polls < 255 ==> action is Receive
                        && after.phase is Running && after.polls == r.polls + 1
                    &&& r.phase is Running && !ended && r.polls == 255 ==> action
                        == RunActionView::Close(
                        Err(WinrmErrorView::Psrp("pipeline did not reach a terminal state"@)),
                    )
                    &&& !(action is Fail)
                },
            }
        }),
        run::run_step(r, chunk).0.rpid == r.rpid,
        run::run_step(r, chunk).0.reassembler == protocol::fed(r.reassembler, chunk).state,
{
}

/// How the output is cut into chunks does not matter: two chunks one after the other lead to the
/// output, and to the outcome, that both at once lead to.
pub proof fn law_chunks_do_not_matter(r: RunView, a: Seq<u8>, b: Seq<u8>)
    requires
        r.wf(),
        r.phase is Running,
        run::run_step(r, a).1 is Receive,
        protocol::fed_result(protocol::fed(run::run_step(r, a).0.reassembler, b)) is Ok,
    ensures
        ({
            let two = run::run_step(run::run_step(r, a).0, b);
            let one = run::run_step(r, a + b);
            &&& one.0.stdout == two.0.stdout
            &&& one.0.stderr == two.0.stderr
            &&& one.0.exit_code == two.0.exit_code
            &&& one.0.reassembler == two.0.reassembler
            &&& one.1 matches RunActionView::Close(Ok(_)) ==> two.1 == one.1
            &&& two.1 matches RunActionView::Close(Ok(_)) ==> two.1 == one.1
        }),
{
    let first = protocol::fed(r.reassembler, a);
    let ma = protocol::fed_result(first)->Ok_0;
    let mb = protocol::fed_result(protocol::fed(first.state, b))->Ok_0;
    laws::law_feed_in_pieces(r.reassembler, a, b);
    run_laws::law_output_in_pieces(r.output(), ma, mb);
    run::lemma_absorb_keeps(r.output(), ma);
    let o = run::absorb(r.output(), ma);
    assert(run::run_step(r, a).0.output() == o);
}

/// Without bytes left over before, the bytes complete the given payloads, which hold the given
/// messages, and leave no bytes behind.
#[verifier::opaque]
spec fn takes_in(
    in_flight: Map<u64, InFlight>,
    bytes: Seq<u8>,
    payloads: Seq<Seq<u8>>,
    msgs: Seq<PsrpMessageView>,
) -> bool {
    let s = protocol::fed(ReassemblerView { buffer: Seq::empty(), in_flight }, bytes);
    &&& s.mismatch is None
    &&& s.completed == payloads
    &&& s.state.buffer == Seq::<u8>::empty()
    &&& protocol::fed_result(s) == Ok::<Seq<PsrpMessageView>, Seq<char>>(msgs)
}

/// The fragments of a message complete it and nothing else.
proof fn lemma_lone_message(
    in_flight: Map<u64, InFlight>,
    object_id: u64,
    destination: u32,
    message_type: u32,
    rpid: Seq<u8>,
    pid: Seq<u8>,
    data: Seq<char>,
)
    requires
        protocol::message_bytes(destination, message_type, rpid, pid, data).len() <= u64::MAX,
        data.len() > 0,
        data[0] == '<',
    ensures
        takes_in(
            in_flight,
            protocol::message_fragments(
                object_id,
                protocol::message_bytes(destination, message_type, rpid, pid, data),
            ),
            seq![protocol::message_bytes(destination, message_type, rpid, pid, data)],
            seq![PsrpMessageView { message_type, data }],
        ),
{
    reveal(takes_in);
    laws::law_fragments_reassemble(
        in_flight,
        object_id,
        protocol::message_bytes(destination, message_type, rpid, pid, data),
    );
    laws::law_message_over_fragments(
        in_flight,
        object_id,
        destination,
        message_type,
        rpid,
        pid,
        data,
    );
}

/// What is taken in piece by piece is taken in as a whole.
proof fn lemma_in_sequence(
    in_flight: Map<u64, InFlight>,
    a: Seq<u8>,
    pa: Seq<Seq<u8>>,
    ma: Seq<PsrpMessageView>,
    b: Seq<u8>,
    pb: Seq<Seq<u8>>,
    mb: Seq<PsrpMessageView>,
)
    requires
        takes_in(in_flight, a, pa, ma),
        forall|f: Map<u64, InFlight>| takes_in(f, b, pb, mb),
    ensures
        takes_in(in_flight, a + b, pa + pb, ma + mb),
{
    reveal(takes_in);
    let start = ReassemblerView { buffer: Seq::empty(), in_flight };
    let mid = protocol::fed(start, a).state;
    laws::law_feed_in_pieces(start, a, b);
    assert(takes_in(mid.in_flight, b, pb, mb));
    assert(mid == ReassemblerView { buffer: Seq::empty(), in_flight: mid.in_flight });
}

/// What is taken in is what comes out of feeding.
proof fn lemma_fed_result(
    state: ReassemblerView,
    bytes: Seq<u8>,
    payloads: Seq<Seq<u8>>,
    msgs: Seq<PsrpMessageView>,
)
    requires
        state.buffer.len() == 0,
        takes_in(state.in_flight, bytes, payloads, msgs),
    ensures
        protocol::fed(state, bytes).mismatch is None,
        protocol::fed(state, bytes).completed == payloads,
        protocol::fed_result(protocol::fed(state, bytes)) == Ok::<
            Seq<PsrpMessageView>,
            Seq<char>,
        >(msgs),
{
    reveal(takes_in);
    assert(state.buffer =~= Seq::<u8>::empty());
    assert(state == ReassemblerView { buffer: Seq::empty(), in_flight: state.in_flight });
}

/// Two messages one behind the other are the two that are taken in.
proof fn lemma_two_messages(
    in_flight: Map<u64, InFlight>,
    ids: (u64, u64),
    destination: u32,
    rpid: Seq<u8>,
    pid: Seq<u8>,
    first: PsrpMessageView,
    second: PsrpMessageView,
)
    requires
        first.data.len() > 0,
        first.data[0] == '<',
        second.data.len() > 0,
        second.data[0] == '<',
        protocol::message_bytes(destination, first.message_type, rpid, pid, first.data).len()
            <= u64::MAX,
        protocol::message_bytes(destination, second.message_type, rpid, pid, second.data).len()
            <= u64::MAX,
    ensures
        takes_in(
            in_flight,
            protocol::message_fragments(
                ids.0,
                protocol::message_bytes(destination, first.message_type, rpid, pid, first.data),
            ) + protocol::message_fragments(
                ids.1,
                protocol::message_bytes(destination, second.message_type, rpid, pid, second.data),
            ),
            seq![
                protocol::message_bytes(destination, first.message_type, rpid, pid, first.data),
                protocol::message_bytes(destination, second.message_type, rpid, pid, second.data),
            ],
            seq![first, second],
        ),
{
    let one = protocol::message_bytes(destination, first.message_type, rpid, pid, first.data);
    let two = protocol::message_bytes(destination, second.message_type, rpid, pid, second.data);
    let a = protocol::message_fragments(ids.0, one);
    let b = protocol::message_fragments(ids.1, two);
    lemma_lone_message(
        in_flight,
        ids.0,
        destination,
        first.message_type,
        rpid,
        pid,
        first.data,
    );
    assert forall|f: Map<u64, InFlight>| takes_in(f, b, seq![two], seq![second]) by {
        lemma_lone_message(f, ids.1, destination, second.message_type, rpid, pid, second.data);
    }
    lemma_in_sequence(in_flight, a, seq![one], seq![first], b, seq![two], seq![second]);
    assert(seq![one] + seq![two] =~= seq![one, two]);
    assert(seq![first] + seq![second] =~= seq![first, second]);
}

/// The outcome of a run whose pipeline writes one string and ends.
proof fn lemma_outcome_of_one_string(
    r: RunView,
    chunk: Seq<u8>,
    s: Seq<char>,
    error: bool,
    state: i32,
)
    requires
        r.wf(),
        r.phase is Running,
        s.len() > 0,
        xml_laws::free_of_controls(s),
        xml_laws::free_of_quote_entities(s),
        4 <= state <= 6,
        protocol::fed_result(protocol::fed(r.reassembler, chunk)) == Ok::<
            Seq<PsrpMessageView>,
            Seq<char>,
        >(
            seq![
                PsrpMessageView {
                    message_type: if error {
                        0x41005
                    } else {
                        0x41004
                    },
                    data: xml_laws::string_element(s),
                },
                PsrpMessageView {
                    message_type: 0x41006,
                    data: xml_laws::named_element(
                        "PipelineState"@,
                        xml_laws::signed_decimal(state as int),
                    ),
                },
            ],
        ),
    ensures
        is_outcome_of_one_string(r, s, error, state, run::run_step(r, chunk).1),
{
    let first = PsrpMessageView {
        message_type: if error {
            0x41005
        } else {
            0x41004
        },
        data: xml_laws::string_element(s),
    };
    let second = PsrpMessageView {
        message_type: 0x41006,
        data: xml_laws::named_element("PipelineState"@, xml_laws::signed_decimal(state as int)),
    };
    xml_laws::law_string_element_is_read_back(s);
    xml_laws::law_named_element_is_read_back("PipelineState"@, state);
    let o = r.output();
    let none = Seq::<PsrpMessageView>::empty();
    law_messages_in_order(o, none, first);
    law_messages_in_order(o, none.push(first), second);
    assert(none.push(first).push(second) =~= seq![first, second]);
    law_effect_of_a_message(o, first);
    law_effect_of_a_message(run::absorb_one(o, first), second);
    law_outcome_is_all_that_was_collected(r, chunk, seq![first, second]);
    let before = if error {
        r.stderr
    } else {
        r.stdout
    };
    assert((before + s)[(before + s).len() - 1] == s.last());
    assert(before + s + seq!['\n'] =~= before + (s + seq!['\n']));
}

/// The action closes a run with one more line on one of the streams, and with the exit code for
/// the state in which the pipeline ended.
pub open spec fn is_outcome_of_one_string(
    r: RunView,
    s: Seq<char>,
    error: bool,
    state: i32,
    action: RunActionView,
) -> bool {
    let line = if s.last() == '\n' {
        s
    } else {
        s + seq!['\n']
    };
    &&& action matches RunActionView::Close(Ok(out))
    &&& out.stdout == encode_utf8(
        if error {
            r.stdout
        } else {
            r.stdout + line
        },
    )
    &&& out.stderr == encode_utf8(
        if error {
            r.stderr + line
        } else {
            r.stderr
        },
    )
    &&& out.exit_code == if state == 5 {
        1int
    } else {
        0
    }
}

/// A string that the pipeline writes before it ends is a line of the outcome, behind what was
/// printed before, whether the pipeline completed, failed or was stopped, and so is one in an
/// error record on the other stream. The exit code is 1 for a failed pipeline and 0 otherwise.
/// Left out are the strings that unescaping does not give back.
pub proof fn law_written_string_is_returned(
    r: RunView,
    ids: (u64, u64),
    destination: u32,
    rpid: Seq<u8>,
    pid: Seq<u8>,
    s: Seq<char>,
    error: bool,
    state: i32,
)
    requires
        r.wf(),
        r.phase is Running,
        r.reassembler.buffer.len() == 0,
        s.len() > 0,
        xml_laws::free_of_controls(s),
        xml_laws::free_of_quote_entities(s),
        4 <= state <= 6,
        protocol::message_bytes(
            destination,
            if error {
                0x41005
            } else {
                0x41004
            },
            rpid,
            pid,
            xml_laws::string_element(s),
        ).len() <= u64::MAX,
        protocol::message_bytes(
            destination,
            0x41006,
            rpid,
            pid,
            xml_laws::named_element("PipelineState"@, xml_laws::signed_decimal(state as int)),
        ).len() <= u64::MAX,
    ensures
        is_outcome_of_one_string(
            r,
            s,
            error,
            state,
            run::run_step(
                r,
                protocol::message_fragments(
                    ids.0,
                    protocol::message_bytes(
                        destination,
                        if error {
                            0x41005
                        } else {
                            0x41004
                        },
                        rpid,
                        pid,
                        xml_laws::string_element(s),
                    ),
                ) + protocol::message_fragments(
                    ids.1,
                    protocol::message_bytes(
                        destination,
                        0x41006,
                        rpid,
                        pid,
                        xml_laws::named_element(
                            "PipelineState"@,
                            xml_laws::signed_decimal(state as int),
                        ),
                    ),
                ),
            ).1,
        ),
{
    reveal_strlit("<S>");
    reveal_strlit("<I32 ");
    let first = PsrpMessageView {
        message_type: if error {
            0x41005
        } else {
            0x41004
        },
        data: xml_laws::string_element(s),
    };
    let second = PsrpMessageView {
        message_type: 0x41006,
        data: xml_laws::named_element("PipelineState"@, xml_laws::signed_decimal(state as int)),
    };
    let one = protocol::message_bytes(destination, first.message_type, rpid, pid, first.data);
    let two = protocol::message_bytes(destination, second.message_type, rpid, pid, second.data);
    let chunk = protocol::message_fragments(ids.0, one) + protocol::message_fragments(ids.1, two);
    lemma_two_messages(r.reassembler.in_flight, ids, destination, rpid, pid, first, second);
    lemma_fed_result(r.reassembler, chunk, seq![one, two], seq![first, second]);
    lemma_outcome_of_one_string(r, chunk, s, error, state);
}

/// The message that starts a script reaches the peer with the ids of the pool and of the pipeline
/// in its header, addressed to the server, and with the script in its body. It is the third
/// object.
pub proof fn law_message_that_starts_a_script(
    in_flight: Map<u64, InFlight>,
    rpid: Seq<u8>,
    pid: Seq<u8>,
    script: Seq<char>,
)
    requires
        run::create_pipeline_message(rpid, pid, script).len() <= u64::MAX,
    ensures
        ({
            let wire = run::pipeline_fragments(rpid, pid, script);
            let s = protocol::fed(ReassemblerView { buffer: Seq::empty(), in_flight }, wire);
            &&& s.mismatch is None
            &&& s.completed.len() == 1
            &&& wire_laws::is_message(
                s.completed[0],
                2,
                0x21006,
                rpid,
                pid,
                clixml::pipeline_xml(script),
            )
            &&& wire_laws::are_fragments_of(laws::fragments_in(wire), 3, 0, s.completed[0])
        }),
{
    let payload = run::create_pipeline_message(rpid, pid, script);
    laws::law_fragments_reassemble(in_flight, 3, payload);
    wire_laws::law_message_layout(2, 0x21006, rpid, pid, clixml::pipeline_xml(script));
    wire_laws::law_fragments_of_a_message(3, payload);
}

/// The two messages that open a pool reach the peer with the id of the pool and no pipeline in
/// their headers, addressed to the server. They are the first and the second object.
pub proof fn law_messages_that_open_a_pool(rpid: Seq<u8>)
    requires
        run::session_capability_message(rpid).len() <= u64::MAX,
        run::init_runspace_pool_message(rpid).len() <= u64::MAX,
    ensures
        ({
            let wire = run::creation_fragments(rpid);
            let s = protocol::fed(
                ReassemblerView { buffer: Seq::empty(), in_flight: Map::empty() },
                wire,
            );
            let fs = laws::fragments_in(wire);
            let n = wire_laws::fragment_count(s.completed[0].len());
            let nil = Seq::new(16, |i: int| 0u8);
            &&& s.mismatch is None
            &&& s.completed.len() == 2
            &&& wire_laws::is_message(
                s.completed[0],
                2,
                0x10002,
                rpid,
                nil,
                clixml::session_capability_body(),
            )
            &&& wire_laws::is_message(
                s.completed[1],
                2,
                0x10004,
                rpid,
                nil,
                clixml::init_runspace_pool_body(),
            )
            &&& wire_laws::are_fragments_of(fs.take(n), 1, 0, s.completed[0])
            &&& wire_laws::are_fragments_of(fs.skip(n), 2, 0, s.completed[1])
        }),
{
    let nil = Seq::new(16, |i: int| 0u8);
    let first = run::session_capability_message(rpid);
    let second = run::init_runspace_pool_message(rpid);
    let start = ReassemblerView { buffer: Seq::empty(), in_flight: Map::empty() };
    let one = PsrpMessageView {
        message_type: 0x10002,
        data: clixml::session_capability_body(),
    };
    let two = PsrpMessageView { message_type: 0x10004, data: clixml::init_runspace_pool_body() };
    run_laws::lemma_bodies_begin(Seq::empty());
    assert(run::nil_uuid() =~= nil);
    lemma_two_messages(Map::empty(), (1, 2), 2, rpid, nil, one, two);
    lemma_fed_result(start, run::creation_fragments(rpid), seq![first, second], seq![one, two]);
    wire_laws::law_message_layout(2, 0x10002, rpid, nil, one.data);
    wire_laws::law_message_layout(2, 0x10004, rpid, nil, two.data);
    wire_laws::law_fragments_of_two_messages(1, first, 2, second);
}

/// When to ask for output again: where none came from a command that has not ended, and where
/// either side ran out of time. Every other error is final.
pub proof fn law_when_to_ask_again(
    stdout: Seq<u8>,
    done: bool,
    e: WinrmErrorView,
    a: Seq<char>,
    b: Seq<char>,
    reason: Seq<char>,
    secs: u64,
)
    ensures
        run::nothing_yet(Ok::<(Seq<u8>, bool), WinrmErrorView>((stdout, done))) <==> stdout.len()
            == 0 && !done,
        run::nothing_yet(Err::<(Seq<u8>, bool), WinrmErrorView>(WinrmErrorView::Timeout(secs))),
        run::nothing_yet(
            Err::<(Seq<u8>, bool), WinrmErrorView>(
                WinrmErrorView::Soap(
                    SoapErrorView::Fault { code: a + "TimedOut"@ + b, reason },
                ),
            ),
        ),
        run::nothing_yet(Err::<(Seq<u8>, bool), WinrmErrorView>(e)) ==> e is Timeout || (
        e matches WinrmErrorView::Soap(SoapErrorView::Fault { code, .. }) && exists|i: int|
         #[trigger]
            search::occurs_at(code, "TimedOut"@, i)),
{
    let code = a + "TimedOut"@ + b;
    let n = a.len() as int;
    assert(code.subrange(n, n + "TimedOut"@.len()) =~= "TimedOut"@);
    assert(search::occurs_at(code, "TimedOut"@, n));
    search::lemma_find_from(code, "TimedOut"@, 0);
    if let WinrmErrorView::Soap(SoapErrorView::Fault { code, .. }) = e {
        search::law_occurrence(code, "TimedOut"@, 0);
    }
}

/// A run begins by waiting for its pool, with nothing received and nothing printed.
pub proof fn law_how_a_run_begins(rpid: Seq<u8>)
    ensures
        ({
            let r = RunView::initial(rpid);
            &&& r.rpid == rpid
            &&& r.phase is Opening
            &&& r.polls == 0
            &&& r.stdout.len() == 0
            &&& r.stderr.len() == 0
            &&& r.exit_code == 0
            &&& r.reassembler.buffer.len() == 0
            &&& r.reassembler.in_flight.dom().is_empty()
        }),
{
}

} // verus!
