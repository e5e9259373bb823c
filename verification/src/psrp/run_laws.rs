//! What holds of every run of a script.

use vstd::prelude::*;

use crate::psrp::clixml;
use crate::psrp::laws;
use crate::psrp::protocol;
use crate::psrp::protocol::{InFlight, PsrpMessageView, ReassemblerView};
use crate::psrp::run;
use crate::psrp::run::{Output, RunActionView, RunPhase, RunView};
use crate::psrp::xml_laws;

verus! {

/// The three bodies that are sent begin with the opening angle bracket.
pub proof fn lemma_bodies_begin(script: Seq<char>)
    ensures
        clixml::session_capability_body().len() > 0,
        clixml::session_capability_body()[0] == '<',
        clixml::init_runspace_pool_body().len() > 0,
        clixml::init_runspace_pool_body()[0] == '<',
        clixml::pipeline_xml(script).len() > 0,
        clixml::pipeline_xml(script)[0] == '<',
{
    reveal_strlit(r#"<Obj RefId="0"><MS>"#);
}

/// A message is read back from its own fragments.
proof fn lemma_message_is_read_back(
    in_flight: Map<u64, InFlight>,
    object_id: u64,
    rpid: Seq<u8>,
    pid: Seq<u8>,
    m: PsrpMessageView,
)
    requires
        protocol::message_bytes(protocol::DEST_SERVER, m.message_type, rpid, pid, m.data).len()
            <= u64::MAX,
        m.data.len() > 0,
        m.data[0] != '\u{feff}',
    ensures
        run::read_back(
            in_flight,
            protocol::message_fragments(
                object_id,
                protocol::message_bytes(
                    protocol::DEST_SERVER,
                    m.message_type,
                    rpid,
                    pid,
                    m.data,
                ),
            ),
            seq![m],
        ),
{
    reveal(run::read_back);
    laws::law_fragments_reassemble(
        in_flight,
        object_id,
        protocol::message_bytes(protocol::DEST_SERVER, m.message_type, rpid, pid, m.data),
    );
    laws::law_message_over_fragments(
        in_flight,
        object_id,
        protocol::DEST_SERVER,
        m.message_type,
        rpid,
        pid,
        m.data,
    );
}

/// What is read back piece by piece is read back as a whole.
proof fn lemma_read_back_in_sequence(
    in_flight: Map<u64, InFlight>,
    a: Seq<u8>,
    ma: Seq<PsrpMessageView>,
    b: Seq<u8>,
    mb: Seq<PsrpMessageView>,
)
    requires
        run::read_back(in_flight, a, ma),
        run::read_back(
            protocol::fed(ReassemblerView { buffer: Seq::empty(), in_flight }, a).state.in_flight,
            b,
            mb,
        ),
    ensures
        run::read_back(in_flight, a + b, ma + mb),
{
    reveal(run::read_back);
    laws::law_feed_in_pieces(ReassemblerView { buffer: Seq::empty(), in_flight }, a, b);
}

/// Two messages are read back where each is.
proof fn lemma_two_messages_are_read_back(
    in_flight: Map<u64, InFlight>,
    a: Seq<u8>,
    first: PsrpMessageView,
    b: Seq<u8>,
    second: PsrpMessageView,
)
    requires
        forall|f: Map<u64, InFlight>| run::read_back(f, a, seq![first]),
        forall|f: Map<u64, InFlight>| run::read_back(f, b, seq![second]),
    ensures
        run::read_back(in_flight, a + b, seq![first, second]),
{
    lemma_read_back_in_sequence(in_flight, a, seq![first], b, seq![second]);
    assert(seq![first] + seq![second] =~= seq![first, second]);
}

/// The peer reads the two messages that open a runspace pool back as they were sent, and
/// nothing is left over.
pub proof fn law_creation_is_read_back(rpid: Seq<u8>)
    requires
        run::session_capability_message(rpid).len() <= u64::MAX,
        run::init_runspace_pool_message(rpid).len() <= u64::MAX,
    ensures
        run::read_back(
            Map::empty(),
            run::creation_fragments(rpid),
            seq![
                run::session_capability_view(),
                run::init_runspace_pool_view(),
            ],
        ),
{
    lemma_bodies_begin(Seq::empty());
    let a = protocol::message_fragments(1, run::session_capability_message(rpid));
    let b = protocol::message_fragments(2, run::init_runspace_pool_message(rpid));
    let first = run::session_capability_view();
    let second = run::init_runspace_pool_view();
    assert forall|f: Map<u64, InFlight>| run::read_back(f, a, seq![first]) by {
        lemma_message_is_read_back(f, 1, rpid, run::nil_uuid(), first);
    }
    assert forall|f: Map<u64, InFlight>| run::read_back(f, b, seq![second]) by {
        lemma_message_is_read_back(f, 2, rpid, run::nil_uuid(), second);
    }
    lemma_two_messages_are_read_back(Map::empty(), a, first, b, second);
}

/// The peer reads the message that starts a script back as it was sent, whatever else is in
/// flight.
pub proof fn law_pipeline_is_read_back(
    in_flight: Map<u64, InFlight>,
    rpid: Seq<u8>,
    pid: Seq<u8>,
    script: Seq<char>,
)
    requires
        run::create_pipeline_message(rpid, pid, script).len() <= u64::MAX,
    ensures
        run::read_back(
            in_flight,
            run::pipeline_fragments(rpid, pid, script),
            seq![run::create_pipeline_view(script)],
        ),
{
    lemma_bodies_begin(script);
    lemma_message_is_read_back(
        in_flight,
        run::PIPELINE_OBJECT_ID,
        rpid,
        pid,
        run::create_pipeline_view(script),
    );
}

/// Output does not depend on how its messages are spread over chunks.
pub proof fn law_output_in_pieces(o: Output, a: Seq<PsrpMessageView>, b: Seq<PsrpMessageView>)
    ensures
        run::absorb(o, a + b) == run::absorb(run::absorb(o, a), b),
    decreases b.len(),
{
    if b.len() == 0 {
        assert(a + b =~= a);
    } else {
        assert((a + b).drop_last() =~= a + b.drop_last());
        law_output_in_pieces(o, a, b.drop_last());
    }
}

/// The message ends the pipeline.
pub open spec fn ends_pipeline(m: PsrpMessageView) -> bool {
    m.message_type == protocol::MT_PIPELINE_STATE && (clixml::named_i32(m.data, "PipelineState"@)
        matches Some(state) && run::is_terminal(state))
}

/// As long as no message ends the pipeline, it runs on and its exit code stays.
pub proof fn law_running_until_terminal_state(o: Output, msgs: Seq<PsrpMessageView>)
    requires
        !o.done,
        forall|i: int| 0 <= i < msgs.len() ==> !ends_pipeline(#[trigger] msgs[i]),
    ensures
        !run::absorb(o, msgs).done,
        run::absorb(o, msgs).exit_code == o.exit_code,
    decreases msgs.len(),
{
    if msgs.len() > 0 {
        assert(!ends_pipeline(msgs[msgs.len() - 1]));
        assert forall|i: int| 0 <= i < msgs.drop_last().len() implies !ends_pipeline(
            #[trigger] msgs.drop_last()[i],
        ) by {
            assert(!ends_pipeline(msgs[i]));
        }
        law_running_until_terminal_state(o, msgs.drop_last());
    }
}

/// The first message with a terminal state ends the pipeline and decides the exit code, which
/// is 1 for a failed pipeline and left alone otherwise. No message after it counts.
pub proof fn law_first_terminal_state_decides(o: Output, msgs: Seq<PsrpMessageView>, i: int)
    requires
        !o.done,
        0 <= i < msgs.len(),
        ends_pipeline(msgs[i]),
        forall|j: int| 0 <= j < i ==> !ends_pipeline(#[trigger] msgs[j]),
    ensures
        ({
            let end = run::absorb(o, msgs);
            let before = run::absorb(o, msgs.take(i));
            &&& end.done
            &&& end.stdout == before.stdout
            &&& end.stderr == before.stderr
            &&& end.exit_code == if clixml::named_i32(msgs[i].data, "PipelineState"@) == Some(
                5i32,
            ) {
                1
            } else {
                o.exit_code
            }
        }),
{
    assert forall|j: int| 0 <= j < msgs.take(i).len() implies !ends_pipeline(
        #[trigger] msgs.take(i)[j],
    ) by {
        assert(!ends_pipeline(msgs[j]));
    }
    law_running_until_terminal_state(o, msgs.take(i));
    assert(msgs.take(i + 1).drop_last() =~= msgs.take(i));
    assert(msgs.take(i + 1).last() == msgs[i]);
    run::lemma_absorb_stops(o, msgs, i + 1);
}

/// A string that the pipeline writes is printed as a line, and a string in an error record is
/// printed as a line of errors. Left out are the strings that unescaping does not give back.
pub proof fn law_written_string_is_printed(o: Output, s: Seq<char>)
    requires
        !o.done,
        xml_laws::free_of_controls(s),
        xml_laws::free_of_quote_entities(s),
    ensures
        run::absorb_one(
            o,
            PsrpMessageView {
                message_type: protocol::MT_PIPELINE_OUTPUT,
                data: xml_laws::string_element(s),
            },
        ) == (Output { stdout: run::with_line(o.stdout, s), ..o }),
        run::absorb_one(
            o,
            PsrpMessageView {
                message_type: protocol::MT_ERROR_RECORD,
                data: xml_laws::string_element(s),
            },
        ) == (Output { stderr: run::with_line(o.stderr, s), ..o }),
{
    xml_laws::law_string_element_is_read_back(s);
}

/// A reported state is acted on by its number: the pool is open in state 2 and no other, and the
/// pipeline has ended in states 4, 5 and 6 and no other.
pub proof fn law_reported_state_decides(v: i32)
    ensures
        run::tells_opened(
            PsrpMessageView {
                message_type: protocol::MT_RUNSPACE_POOL_STATE,
                data: xml_laws::named_element(
                    "RunspaceState"@,
                    xml_laws::signed_decimal(v as int),
                ),
            },
        ) <==> v == 2,
        ends_pipeline(
            PsrpMessageView {
                message_type: protocol::MT_PIPELINE_STATE,
                data: xml_laws::named_element(
                    "PipelineState"@,
                    xml_laws::signed_decimal(v as int),
                ),
            },
        ) <==> (v == 4 || v == 5 || v == 6),
{
    xml_laws::law_named_element_is_read_back("RunspaceState"@, v);
    xml_laws::law_named_element_is_read_back("PipelineState"@, v);
}

/// Output is only ever added to.
pub proof fn law_output_only_grows(o: Output, msgs: Seq<PsrpMessageView>)
    ensures
        o.stdout.is_prefix_of(run::absorb(o, msgs).stdout),
        o.stderr.is_prefix_of(run::absorb(o, msgs).stderr),
    decreases msgs.len(),
{
    if msgs.len() > 0 {
        law_output_only_grows(o, msgs.drop_last());
        let mid = run::absorb(o, msgs.drop_last());
        let end = run::absorb(o, msgs);
        assert(mid.stdout.is_prefix_of(end.stdout));
        assert(mid.stderr.is_prefix_of(end.stderr));
    }
}

/// The state after some chunks; a run that is over takes in none.
pub open spec fn after_chunks(r: RunView, chunks: Seq<Seq<u8>>) -> RunView
    decreases chunks.len(),
{
    if chunks.len() == 0 {
        r
    } else {
        let before = after_chunks(r, chunks.drop_last());
        if before.phase is Over {
            before
        } else {
            run::run_step(before, chunks.last()).0
        }
    }
}

/// The most chunks that a run takes in from here on.
pub open spec fn chunks_left(r: RunView) -> int {
    match r.phase {
        RunPhase::Opening => run::MAX_OPEN_POLLS - r.polls + run::MAX_RUN_POLLS,
        RunPhase::Running => run::MAX_RUN_POLLS - r.polls,
        RunPhase::Over => 0,
    }
}

/// A run stays well-formed, and every chunk that it takes in brings it nearer to its end.
proof fn lemma_chunks_left(r: RunView, chunks: Seq<Seq<u8>>)
    requires
        r.wf(),
    ensures
        after_chunks(r, chunks).wf(),
        after_chunks(r, chunks).phase is Over || chunks_left(after_chunks(r, chunks))
            <= chunks_left(r) - chunks.len(),
    decreases chunks.len(),
{
    if chunks.len() > 0 {
        lemma_chunks_left(r, chunks.drop_last());
        let before = after_chunks(r, chunks.drop_last());
        if !(before.phase is Over) {
            run::lemma_run_step_wf(before, chunks.last());
        }
    }
}

/// Whatever the peer sends, a run is over after at most as many chunks as both phases allow.
pub proof fn law_run_ends(rpid: Seq<u8>, chunks: Seq<Seq<u8>>)
    requires
        chunks.len() >= run::MAX_OPEN_POLLS + run::MAX_RUN_POLLS,
    ensures
        after_chunks(RunView::initial(rpid), chunks).phase is Over,
{
    lemma_chunks_left(RunView::initial(rpid), chunks);
}

/// A run is over exactly when the caller is told to close the shell or to give up.
pub proof fn law_over_means_close_or_fail(r: RunView, chunk: Seq<u8>)
    requires
        !(r.phase is Over),
    ensures
        run::run_step(r, chunk).0.phase is Over <==> (run::run_step(r, chunk).1 is Close
            || run::run_step(r, chunk).1 is Fail),
{
}

/// An outcome is only ever reported for a pipeline that has ended, its exit code is 0 or 1, and
/// the script is started only from a pool that reported itself open.
pub proof fn law_outcome_of_ended_pipeline(r: RunView, chunk: Seq<u8>)
    requires
        r.wf(),
        !(r.phase is Over),
    ensures
        run::run_step(r, chunk).1 matches RunActionView::Close(Ok(out)) ==> {
            &&& r.phase is Running
            &&& out.exit_code == 0 || out.exit_code == 1
            &&& protocol::fed_result(protocol::fed(r.reassembler, chunk)) matches Ok(msgs)
            &&& exists|i: int| 0 <= i < msgs.len() && ends_pipeline(#[trigger] msgs[i])
        },
        run::run_step(r, chunk).1 is StartPipeline ==> {
            &&& r.phase is Opening
            &&& protocol::fed_result(protocol::fed(r.reassembler, chunk)) matches Ok(msgs)
            &&& run::any_opened(msgs)
        },
{
    if let Ok(msgs) = protocol::fed_result(protocol::fed(r.reassembler, chunk)) {
        run::lemma_absorb_keeps(r.output(), msgs);
        if forall|i: int| 0 <= i < msgs.len() ==> !ends_pipeline(#[trigger] msgs[i]) {
            law_running_until_terminal_state(r.output(), msgs);
        }
    }
}

} // verus!
