//! Running a PowerShell script: what to send, and what to make of each reply.
//!
//! A caller opens a shell with the payload of [`PowerShellRun::open`], feeds each chunk that it
//! receives to [`PowerShellRun::on_chunk`], and does what the returned action says.

use vstd::prelude::*;

use crate::base64_text;
use crate::error::{SoapError, SoapErrorView, WinrmError, WinrmErrorView};
use crate::psrp::clixml;
use crate::psrp::protocol;
use crate::psrp::protocol::{
    InFlight, PsrpMessage, PsrpMessageView, PsrpProtocolError, Reassembler, ReassemblerView,
};
use crate::psrp::run_laws;
use crate::search;
use crate::text;
use crate::uuid;
use crate::uuid::Uuid;

verus! {

/// Most chunks that are awaited until the runspace pool is open.
pub const MAX_OPEN_POLLS: u32 = 64;

/// Most chunks that are awaited until the pipeline has ended.
pub const MAX_RUN_POLLS: u32 = 256;

/// Object id of the CreatePipeline message; the two messages before it are sent on opening.
pub const PIPELINE_OBJECT_ID: u64 = 3;

/// The bytes of the nil UUID.
pub open spec fn nil_uuid() -> Seq<u8> {
    Seq::new(16, |i: int| 0u8)
}

/// The SessionCapability message.
pub open spec fn session_capability_message(rpid: Seq<u8>) -> Seq<u8> {
    protocol::message_bytes(
        protocol::DEST_SERVER,
        protocol::MT_SESSION_CAPABILITY,
        rpid,
        nil_uuid(),
        clixml::session_capability_body(),
    )
}

/// The InitRunspacePool message.
pub open spec fn init_runspace_pool_message(rpid: Seq<u8>) -> Seq<u8> {
    protocol::message_bytes(
        protocol::DEST_SERVER,
        protocol::MT_INIT_RUNSPACE_POOL,
        rpid,
        nil_uuid(),
        clixml::init_runspace_pool_body(),
    )
}

/// The CreatePipeline message of a script.
pub open spec fn create_pipeline_message(
    rpid: Seq<u8>,
    pid: Seq<u8>,
    script: Seq<char>,
) -> Seq<u8> {
    protocol::message_bytes(
        protocol::DEST_SERVER,
        protocol::MT_CREATE_PIPELINE,
        rpid,
        pid,
        clixml::pipeline_xml(script),
    )
}

/// What a SessionCapability message is read as.
pub open spec fn session_capability_view() -> PsrpMessageView {
    PsrpMessageView {
        message_type: protocol::MT_SESSION_CAPABILITY,
        data: clixml::session_capability_body(),
    }
}

/// What an InitRunspacePool message is read as.
pub open spec fn init_runspace_pool_view() -> PsrpMessageView {
    PsrpMessageView {
        message_type: protocol::MT_INIT_RUNSPACE_POOL,
        data: clixml::init_runspace_pool_body(),
    }
}

/// What the CreatePipeline message of a script is read as.
pub open spec fn create_pipeline_view(script: Seq<char>) -> PsrpMessageView {
    PsrpMessageView {
        message_type: protocol::MT_CREATE_PIPELINE,
        data: clixml::pipeline_xml(script),
    }
}

/// The wire form of the two messages that open a runspace pool.
pub open spec fn creation_fragments(rpid: Seq<u8>) -> Seq<u8> {
    protocol::message_fragments(1, session_capability_message(rpid))
        + protocol::message_fragments(2, init_runspace_pool_message(rpid))
}

/// The wire form of the message that starts a script.
pub open spec fn pipeline_fragments(rpid: Seq<u8>, pid: Seq<u8>, script: Seq<char>) -> Seq<u8> {
    protocol::message_fragments(PIPELINE_OBJECT_ID, create_pipeline_message(rpid, pid, script))
}

/// A reassembler with nothing buffered reads exactly the given messages from the bytes, and has
/// nothing buffered then either.
#[verifier::opaque]
pub open spec fn read_back(
    in_flight: Map<u64, InFlight>,
    bytes: Seq<u8>,
    msgs: Seq<PsrpMessageView>,
) -> bool {
    let scan = protocol::fed(ReassemblerView { buffer: Seq::empty(), in_flight }, bytes);
    &&& protocol::fed_result(scan) == Ok::<Seq<PsrpMessageView>, Seq<char>>(msgs)
    &&& scan.state.buffer == Seq::<u8>::empty()
}

/// Builds the two messages that open a runspace pool. It never fails.
pub fn build_creation_fragments(rpid: Uuid) -> (r: Result<Vec<u8>, PsrpProtocolError>)
    ensures
        r matches Ok(bytes) && bytes@ == creation_fragments(rpid@),
        r matches Ok(bytes) && read_back(
            Map::empty(),
            bytes@,
            seq![session_capability_view(), init_runspace_pool_view()],
        ),
{
    let session_cap = clixml::session_capability_xml();
    let init = clixml::init_runspace_pool_xml();
    let m1 = protocol::encode_psrp_message(
        protocol::DEST_SERVER,
        protocol::MT_SESSION_CAPABILITY,
        rpid,
        Uuid::nil(),
        session_cap.as_str(),
    );
    let mut buf = protocol::encode_fragments(1, m1.as_slice());
    let m2 = protocol::encode_psrp_message(
        protocol::DEST_SERVER,
        protocol::MT_INIT_RUNSPACE_POOL,
        rpid,
        Uuid::nil(),
        init.as_str(),
    );
    buf.extend_from_slice(protocol::encode_fragments(2, m2.as_slice()).as_slice());
    proof {
        assert(buf@ =~= creation_fragments(rpid@));
        assert(m1@.len() == m1.len() && m2@.len() == m2.len());
        run_laws::law_creation_is_read_back(rpid@);
    }
    Ok(buf)
}

/// What a script printed and how it ended.
#[derive(Debug)]
pub struct CommandOutput {
    pub stdout: Vec<u8>,
    pub stderr: Vec<u8>,
    pub exit_code: i32,
}

/// What a [`CommandOutput`] holds.
pub struct CommandOutputView {
    pub stdout: Seq<u8>,
    pub stderr: Seq<u8>,
    pub exit_code: i32,
}

impl View for CommandOutput {
    type V = CommandOutputView;

    open spec fn view(&self) -> CommandOutputView {
        CommandOutputView {
            stdout: self.stdout@,
            stderr: self.stderr@,
            exit_code: self.exit_code,
        }
    }
}

/// The request that starts a script.
#[derive(Debug)]
pub struct PipelineCommand {
    /// The CreatePipeline message as Base64 text, the only argument of the command.
    pub argument: String,
    /// The id under which the command runs.
    pub command_id: String,
}

/// Where a run stands.
#[derive(Clone, Copy, Debug)]
pub enum RunPhase {
    /// Waiting for the runspace pool to open.
    Opening,
    /// Waiting for the pipeline to end.
    Running,
    /// Nothing is left to do.
    Over,
}

/// What the caller does next.
#[derive(Debug)]
pub enum RunAction {
    /// Receive another chunk.
    Receive,
    /// Start the script, and then receive chunks of it.
    StartPipeline,
    /// Close the shell, whatever comes of that, and return.
    Close(Result<CommandOutput, WinrmError>),
    /// Return the error at once.
    Fail(WinrmError),
}

/// What a [`RunAction`] holds.
pub enum RunActionView {
    Receive,
    StartPipeline,
    Close(Result<CommandOutputView, WinrmErrorView>),
    Fail(WinrmErrorView),
}

impl View for RunAction {
    type V = RunActionView;

    open spec fn view(&self) -> RunActionView {
        match self {
            RunAction::Receive => RunActionView::Receive,
            RunAction::StartPipeline => RunActionView::StartPipeline,
            RunAction::Close(Ok(out)) => RunActionView::Close(Ok(out@)),
            RunAction::Close(Err(e)) => RunActionView::Close(Err(e@)),
            RunAction::Fail(e) => RunActionView::Fail(e@),
        }
    }
}

/// What a pipeline has printed so far, and whether it has ended.
pub struct Output {
    pub stdout: Seq<char>,
    pub stderr: Seq<char>,
    pub exit_code: i32,
    pub done: bool,
}

/// A text with another appended, and a line feed unless it ends in one.
pub open spec fn with_line(sofar: Seq<char>, t: Seq<char>) -> Seq<char> {
    let s = sofar + t;
    if s.len() > 0 && s.last() == '\n' {
        s
    } else {
        s.push('\n')
    }
}

/// The pipeline state is one that the pipeline does not leave: completed, failed or stopped.
pub open spec fn is_terminal(state: i32) -> bool {
    state == 4 || state == 5 || state == 6
}

/// The output after one more message. Once the pipeline has ended, nothing is added.
pub open spec fn absorb_one(o: Output, m: PsrpMessageView) -> Output {
    if o.done {
        o
    } else if m.message_type == protocol::MT_PIPELINE_OUTPUT {
        Output { stdout: with_line(o.stdout, clixml::output_text(m.data)), ..o }
    } else if m.message_type == protocol::MT_ERROR_RECORD {
        Output { stderr: with_line(o.stderr, clixml::output_text(m.data)), ..o }
    } else if m.message_type == protocol::MT_PIPELINE_STATE {
        match clixml::named_i32(m.data, "PipelineState"@) {
            Some(state) => if is_terminal(state) {
                Output {
                    exit_code: if state == 5 {
                        1
                    } else {
                        o.exit_code
                    },
                    done: true,
                    ..o
                }
            } else {
                o
            },
            None => o,
        }
    } else {
        o
    }
}

/// The output after more messages.
pub open spec fn absorb(o: Output, msgs: Seq<PsrpMessageView>) -> Output
    decreases msgs.len(),
{
    if msgs.len() == 0 {
        o
    } else {
        absorb_one(absorb(o, msgs.drop_last()), msgs.last())
    }
}

/// The message tells that the runspace pool is open.
pub open spec fn tells_opened(m: PsrpMessageView) -> bool {
    m.message_type == protocol::MT_RUNSPACE_POOL_STATE && clixml::named_i32(
        m.data,
        "RunspaceState"@,
    ) == Some(2i32)
}

/// One of the messages tells that the runspace pool is open.
pub open spec fn any_opened(msgs: Seq<PsrpMessageView>) -> bool {
    exists|i: int| 0 <= i < msgs.len() && tells_opened(#[trigger] msgs[i])
}

/// A run of one PowerShell script.
#[derive(Debug)]
pub struct PowerShellRun {
    rpid: Uuid,
    reassembler: Reassembler,
    phase: RunPhase,
    polls: u32,
    stdout: String,
    stderr: String,
    exit_code: i32,
}

/// The state of a [`PowerShellRun`].
pub struct RunView {
    pub rpid: Seq<u8>,
    pub reassembler: ReassemblerView,
    pub phase: RunPhase,
    /// Chunks received in the current phase.
    pub polls: u32,
    pub stdout: Seq<char>,
    pub stderr: Seq<char>,
    pub exit_code: i32,
}

impl View for PowerShellRun {
    type V = RunView;

    closed spec fn view(&self) -> RunView {
        RunView {
            rpid: self.rpid@,
            reassembler: self.reassembler@,
            phase: self.phase,
            polls: self.polls,
            stdout: self.stdout@,
            stderr: self.stderr@,
            exit_code: self.exit_code,
        }
    }
}

/// A text that is empty or ends in a line feed.
pub open spec fn is_lines(s: Seq<char>) -> bool {
    s.len() == 0 || s.last() == '\n'
}

impl RunView {
    /// The run has not used up its chunks, and its output consists of whole lines.
    pub open spec fn wf(self) -> bool {
        &&& self.phase is Opening ==> self.polls < MAX_OPEN_POLLS
        &&& self.phase is Running ==> self.polls < MAX_RUN_POLLS
        &&& !(self.phase is Over) ==> self.exit_code == 0
        &&& is_lines(self.stdout)
        &&& is_lines(self.stderr)
    }

    /// The state before the first chunk.
    pub open spec fn initial(rpid: Seq<u8>) -> RunView {
        RunView {
            rpid,
            reassembler: ReassemblerView { buffer: Seq::empty(), in_flight: Map::empty() },
            phase: RunPhase::Opening,
            polls: 0,
            stdout: Seq::empty(),
            stderr: Seq::empty(),
            exit_code: 0,
        }
    }

    /// The output so far.
    pub open spec fn output(self) -> Output {
        Output {
            stdout: self.stdout,
            stderr: self.stderr,
            exit_code: self.exit_code,
            done: false,
        }
    }
}

/// The outcome of a pipeline that has ended.
pub open spec fn finished_output(o: Output) -> CommandOutputView {
    CommandOutputView {
        stdout: vstd::utf8::encode_utf8(o.stdout),
        stderr: vstd::utf8::encode_utf8(o.stderr),
        exit_code: o.exit_code,
    }
}

/// The state after a chunk, and what the caller does then.
pub open spec fn run_step(run: RunView, chunk: Seq<u8>) -> (RunView, RunActionView) {
    let scan = protocol::fed(run.reassembler, chunk);
    let fed = RunView { reassembler: scan.state, ..run };
    match protocol::fed_result(scan) {
        Err(details) => (
            RunView { phase: RunPhase::Over, ..fed },
            RunActionView::Fail(WinrmErrorView::Psrp(protocol::protocol_error_text(details))),
        ),
        Ok(msgs) => match run.phase {
            RunPhase::Opening => if any_opened(msgs) {
                (
                    RunView { phase: RunPhase::Running, polls: 0, ..fed },
                    RunActionView::StartPipeline,
                )
            } else if run.polls + 1 < MAX_OPEN_POLLS {
                (RunView { polls: (run.polls + 1) as u32, ..fed }, RunActionView::Receive)
            } else {
                (
                    RunView { phase: RunPhase::Over, polls: (run.polls + 1) as u32, ..fed },
                    RunActionView::Close(
                        Err(WinrmErrorView::Psrp("runspace pool did not reach Opened state"@)),
                    ),
                )
            },
            RunPhase::Running => {
                let o = absorb(run.output(), msgs);
                let after = RunView {
                    polls: (run.polls + 1) as u32,
                    stdout: o.stdout,
                    stderr: o.stderr,
                    exit_code: o.exit_code,
                    ..fed
                };
                if o.done {
                    (
                        RunView { phase: RunPhase::Over, ..after },
                        RunActionView::Close(Ok(finished_output(o))),
                    )
                } else if run.polls + 1 < MAX_RUN_POLLS {
                    (after, RunActionView::Receive)
                } else {
                    (
                        RunView { phase: RunPhase::Over, ..after },
                        RunActionView::Close(
                            Err(WinrmErrorView::Psrp("pipeline did not reach a terminal state"@)),
                        ),
                    )
                }
            },
            RunPhase::Over => (fed, RunActionView::Receive),
        },
    }
}

/// Appends a text, and a line feed unless the whole ends in one.
fn push_line(out: &mut String, t: &str)
    ensures
        final(out)@ == with_line(old(out)@, t@),
{
    out.append(t);
    let n: usize = out.as_str().unicode_len();
    if n == 0 || out.as_str().get_char(n - 1) != '\n' {
        out.push('\n');
    }
}

/// Whether one of the messages tells that the runspace pool is open.
fn find_opened(msgs: &Vec<PsrpMessage>) -> (r: bool)
    ensures
        r == any_opened(protocol::messages_view(msgs@)),
{
    let ghost view = protocol::messages_view(msgs@);
    let mut i: usize = 0;
    while i < msgs.len()
        invariant
            i <= msgs@.len(),
            view == protocol::messages_view(msgs@),
            forall|j: int| 0 <= j < i ==> !tells_opened(#[trigger] view[j]),
        decreases msgs@.len() - i,
    {
        let m = &msgs[i];
        assert(view[i as int] == m@);
        if m.message_type == protocol::MT_RUNSPACE_POOL_STATE {
            if let Some(state) = clixml::extract_named_i32(m.data.as_str(), "RunspaceState") {
                if state == 2 {
                    assert(tells_opened(view[i as int]));
                    return true;
                }
            }
        }
        i += 1;
    }
    false
}

/// What one receive request brought back.
#[derive(Debug)]
pub struct Received {
    /// The bytes of the output stream.
    pub stdout: Vec<u8>,
    /// Whether the command has ended.
    pub done: bool,
}

/// The view of a receive request's outcome: its bytes and whether the command has ended.
pub open spec fn received_view(reply: Result<Received, WinrmError>) -> Result<
    (Seq<u8>, bool),
    WinrmErrorView,
> {
    match reply {
        Ok(out) => Ok((out.stdout@, out.done)),
        Err(e) => Err(e@),
    }
}

/// The outcome says that there was nothing to receive yet: no bytes of a running command, or a
/// timeout on either side.
pub open spec fn nothing_yet(reply: Result<(Seq<u8>, bool), WinrmErrorView>) -> bool {
    match reply {
        Ok((stdout, done)) => stdout.len() == 0 && !done,
        Err(WinrmErrorView::Timeout(_)) => true,
        Err(WinrmErrorView::Soap(SoapErrorView::Fault { code, .. })) => search::contains(
            code,
            "TimedOut"@,
        ),
        Err(_) => false,
    }
}

/// Decides what to make of a receive request's outcome.
///
/// `None` means to ask again. Otherwise the result is the next chunk, or the error with which
/// to give up.
pub fn next_chunk(reply: Result<Received, WinrmError>) -> (r: Option<Result<Vec<u8>, WinrmError>>)
    ensures
        r is None <==> nothing_yet(received_view(reply)),
        r matches Some(Ok(chunk)) ==> (received_view(reply) matches Ok(got) && got.0 == chunk@),
        r matches Some(Err(e)) ==> (received_view(reply) matches Err(sent) && sent == e@),
{
    match reply {
        Ok(out) => {
            if out.stdout.len() == 0 && !out.done {
                return None;
            }
            Some(Ok(out.stdout))
        },
        Err(WinrmError::Timeout(_)) => None,
        Err(WinrmError::Soap(SoapError::Fault { code, reason })) => {
            if text::has(code.as_str(), "TimedOut") {
                return None;
            }
            Some(Err(WinrmError::Soap(SoapError::Fault { code, reason })))
        },
        Err(e) => Some(Err(e)),
    }
}

/// The error of the caller for an error of the protocol layer.
pub fn map_proto(e: &PsrpProtocolError) -> (r: WinrmError)
    ensures
        r@ == WinrmErrorView::Psrp(protocol::protocol_error_text(e@)),
{
    WinrmError::Psrp(e.message())
}

/// The bytes of a text.
fn bytes_of(s: &str) -> (r: Vec<u8>)
    ensures
        r@ == vstd::utf8::encode_utf8(s@),
{
    let mut out: Vec<u8> = Vec::new();
    out.extend_from_slice(s.as_bytes());
    assert(out@ =~= vstd::utf8::encode_utf8(s@));
    out
}

impl PowerShellRun {
    /// Begins a run for a given runspace pool id.
    ///
    /// The text is the payload with which the shell is opened.
    pub fn with_rpid(rpid: Uuid) -> (r: (PowerShellRun, String))
        ensures
            r.0@ == RunView::initial(rpid@),
            r.0@.wf(),
            r.1@ == base64_text::base64_encoded(creation_fragments(rpid@)),
            base64_text::decodes_to(r.1@, creation_fragments(rpid@)),
            read_back(
                Map::empty(),
                creation_fragments(rpid@),
                seq![session_capability_view(), init_runspace_pool_view()],
            ),
    {
        let run = PowerShellRun {
            rpid,
            reassembler: Reassembler::new(),
            phase: RunPhase::Opening,
            polls: 0,
            stdout: String::new(),
            stderr: String::new(),
            exit_code: 0,
        };
        let creation = match build_creation_fragments(rpid) {
            Ok(bytes) => bytes,
            Err(_) => Vec::new(),
        };
        (run, base64_text::encode(creation.as_slice()))
    }

    /// Begins a run for a random runspace pool id.
    pub fn open() -> (r: (PowerShellRun, String))
        ensures
            r.0@ == RunView::initial(r.0@.rpid),
            r.0@.wf(),
            r.0@.rpid[6] & 0xf0 == 0x40,
            r.0@.rpid[8] & 0xc0 == 0x80,
            r.1@ == base64_text::base64_encoded(creation_fragments(r.0@.rpid)),
            base64_text::decodes_to(r.1@, creation_fragments(r.0@.rpid)),
            read_back(
                Map::empty(),
                creation_fragments(r.0@.rpid),
                seq![session_capability_view(), init_runspace_pool_view()],
            ),
    {
        PowerShellRun::with_rpid(Uuid::new_v4())
    }

    /// The request that starts a script under a given pipeline id.
    pub fn pipeline_command(&self, pid: Uuid, script: &str) -> (r: PipelineCommand)
        ensures
            r.argument@ == base64_text::base64_encoded(
                pipeline_fragments(self@.rpid, pid@, script@),
            ),
            base64_text::decodes_to(r.argument@, pipeline_fragments(self@.rpid, pid@, script@)),
            forall|in_flight: Map<u64, InFlight>| #[trigger]
                read_back(
                    in_flight,
                    pipeline_fragments(self@.rpid, pid@, script@),
                    seq![create_pipeline_view(script@)],
                ),
            r.command_id@ == uuid::hyphenated_text(pid@),
    {
        let xml = clixml::create_pipeline_xml(script);
        let msg = protocol::encode_psrp_message(
            protocol::DEST_SERVER,
            protocol::MT_CREATE_PIPELINE,
            self.rpid,
            pid,
            xml.as_str(),
        );
        let frag = protocol::encode_fragments(PIPELINE_OBJECT_ID, msg.as_slice());
        proof {
            assert(msg@.len() == msg.len());
            assert forall|in_flight: Map<u64, InFlight>| #[trigger]
                read_back(in_flight, frag@, seq![create_pipeline_view(script@)]) by {
                run_laws::law_pipeline_is_read_back(in_flight, self.rpid@, pid@, script@);
            }
        }
        PipelineCommand {
            argument: base64_text::encode(frag.as_slice()),
            command_id: pid.hyphenated(),
        }
    }

    /// The request that starts a script under a random pipeline id, and that id.
    pub fn new_pipeline_command(&self, script: &str) -> (r: (PipelineCommand, Uuid))
        ensures
            r.0.argument@ == base64_text::base64_encoded(
                pipeline_fragments(self@.rpid, r.1@, script@),
            ),
            base64_text::decodes_to(r.0.argument@, pipeline_fragments(self@.rpid, r.1@, script@)),
            forall|in_flight: Map<u64, InFlight>| #[trigger]
                read_back(
                    in_flight,
                    pipeline_fragments(self@.rpid, r.1@, script@),
                    seq![create_pipeline_view(script@)],
                ),
            r.0.command_id@ == uuid::hyphenated_text(r.1@),
            r.1@[6] & 0xf0 == 0x40,
            r.1@[8] & 0xc0 == 0x80,
    {
        let pid = Uuid::new_v4();
        (self.pipeline_command(pid, script), pid)
    }

    /// Adds one message to the output. Returns whether the pipeline has ended.
    fn absorb_message(&mut self, m: &PsrpMessage) -> (done: bool)
        ensures
            ({
                let o = absorb_one(old(self)@.output(), m@);
                &&& final(self)@ == (RunView {
                    stdout: o.stdout,
                    stderr: o.stderr,
                    exit_code: o.exit_code,
                    ..old(self)@
                })
                &&& done == o.done
            }),
    {
        if m.message_type == protocol::MT_PIPELINE_OUTPUT {
            push_line(&mut self.stdout, clixml::extract_output_text(m.data.as_str()).as_str());
        } else if m.message_type == protocol::MT_ERROR_RECORD {
            push_line(&mut self.stderr, clixml::extract_output_text(m.data.as_str()).as_str());
        } else if m.message_type == protocol::MT_PIPELINE_STATE {
            if let Some(state) = clixml::extract_named_i32(m.data.as_str(), "PipelineState") {
                if state == 4 || state == 5 || state == 6 {
                    if state == 5 {
                        self.exit_code = 1;
                    }
                    return true;
                }
            }
        }
        false
    }

    /// Adds messages to the output, up to the one that ends the pipeline.
    fn absorb_messages(&mut self, msgs: &Vec<PsrpMessage>) -> (done: bool)
        ensures
            ({
                let o = absorb(old(self)@.output(), protocol::messages_view(msgs@));
                &&& final(self)@ == (RunView {
                    stdout: o.stdout,
                    stderr: o.stderr,
                    exit_code: o.exit_code,
                    ..old(self)@
                })
                &&& done == o.done
            }),
    {
        let ghost view = protocol::messages_view(msgs@);
        let ghost begin = self@.output();
        let mut i: usize = 0;
        assert(view.take(0) =~= Seq::<PsrpMessageView>::empty());
        while i < msgs.len()
            invariant
                i <= msgs@.len(),
                view == protocol::messages_view(msgs@),
                begin == old(self)@.output(),
                self@.output() == absorb(begin, view.take(i as int)),
                self@ == (RunView {
                    stdout: self@.stdout,
                    stderr: self@.stderr,
                    exit_code: self@.exit_code,
                    ..old(self)@
                }),
            decreases msgs@.len() - i,
        {
            assert(view.take(i + 1).drop_last() =~= view.take(i as int));
            assert(view[i as int] == msgs@[i as int]@);
            if self.absorb_message(&msgs[i]) {
                proof {
                    lemma_absorb_stops(begin, view, i + 1);
                }
                return true;
            }
            i += 1;
        }
        assert(view.take(i as int) =~= view);
        false
    }

    /// Takes in a chunk that was received, and says what to do next.
    pub fn on_chunk(&mut self, chunk: &[u8]) -> (r: RunAction)
        requires
            old(self)@.wf(),
            !(old(self)@.phase is Over),
        ensures
            final(self)@ == run_step(old(self)@, chunk@).0,
            r@ == run_step(old(self)@, chunk@).1,
            final(self)@.wf(),
    {
        proof {
            lemma_run_step_wf(self@, chunk@);
        }
        let msgs = match self.reassembler.feed(chunk) {
            Ok(msgs) => msgs,
            Err(e) => {
                self.phase = RunPhase::Over;
                return RunAction::Fail(map_proto(&e));
            },
        };
        match self.phase {
            RunPhase::Opening => {
                if find_opened(&msgs) {
                    self.phase = RunPhase::Running;
                    self.polls = 0;
                    return RunAction::StartPipeline;
                }
                self.polls = self.polls + 1;
                if self.polls < MAX_OPEN_POLLS {
                    return RunAction::Receive;
                }
                self.phase = RunPhase::Over;
                RunAction::Close(
                    Err(WinrmError::Psrp("runspace pool did not reach Opened state".to_owned())),
                )
            },
            _ => {
                let done = self.absorb_messages(&msgs);
                self.polls = self.polls + 1;
                if done {
                    self.phase = RunPhase::Over;
                    return RunAction::Close(
                        Ok(
                            CommandOutput {
                                stdout: bytes_of(self.stdout.as_str()),
                                stderr: bytes_of(self.stderr.as_str()),
                                exit_code: self.exit_code,
                            },
                        ),
                    );
                }
                if self.polls < MAX_RUN_POLLS {
                    return RunAction::Receive;
                }
                self.phase = RunPhase::Over;
                RunAction::Close(
                    Err(WinrmError::Psrp("pipeline did not reach a terminal state".to_owned())),
                )
            },
        }
    }
}

/// Messages after the one that ends the pipeline change nothing.
pub proof fn lemma_absorb_stops(o: Output, msgs: Seq<PsrpMessageView>, n: int)
    requires
        0 <= n <= msgs.len(),
        absorb(o, msgs.take(n)).done,
    ensures
        absorb(o, msgs) == absorb(o, msgs.take(n)),
    decreases msgs.len() - n,
{
    if n < msgs.len() {
        assert(msgs.take(n + 1).drop_last() =~= msgs.take(n));
        lemma_absorb_stops(o, msgs, n + 1);
    } else {
        assert(msgs.take(n) =~= msgs);
    }
}

/// Output consists of whole lines, and the exit code is zero until the pipeline has failed.
pub proof fn lemma_absorb_keeps(o: Output, msgs: Seq<PsrpMessageView>)
    requires
        !o.done,
        o.exit_code == 0,
        is_lines(o.stdout),
        is_lines(o.stderr),
    ensures
        is_lines(absorb(o, msgs).stdout),
        is_lines(absorb(o, msgs).stderr),
        !absorb(o, msgs).done ==> absorb(o, msgs).exit_code == 0,
        absorb(o, msgs).exit_code == 0 || absorb(o, msgs).exit_code == 1,
    decreases msgs.len(),
{
    if msgs.len() > 0 {
        lemma_absorb_keeps(o, msgs.drop_last());
    }
}

/// A step keeps a run well-formed.
pub proof fn lemma_run_step_wf(run: RunView, chunk: Seq<u8>)
    requires
        run.wf(),
        !(run.phase is Over),
    ensures
        run_step(run, chunk).0.wf(),
{
    let scan = protocol::fed(run.reassembler, chunk);
    if let Ok(msgs) = protocol::fed_result(scan) {
        lemma_absorb_keeps(run.output(), msgs);
    }
}

} // verus!
