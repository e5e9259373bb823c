use base64::Engine;
use winrm::error::{SoapError, WinrmError};
use winrm::psrp::protocol::{
    encode_fragments, encode_one_fragment, encode_psrp_message, Reassembler, DEST_CLIENT,
    MT_CREATE_PIPELINE, MT_ERROR_RECORD, MT_PIPELINE_OUTPUT, MT_PIPELINE_STATE,
    MT_RUNSPACE_POOL_STATE,
};
use winrm::psrp::run::{next_chunk, PowerShellRun, Received, RunAction};
use winrm::uuid::Uuid;

const RPID: Uuid = Uuid { bytes: [7; 16] };
const PID: Uuid = Uuid { bytes: [0, 1, 2, 3, 4, 5, 6, 7, 8, 9, 10, 11, 12, 13, 14, 15] };

fn message(message_type: u32, body: &str) -> Vec<u8> {
    let bytes = encode_psrp_message(DEST_CLIENT, message_type, RPID, PID, body);
    encode_fragments(1, &bytes)
}

fn state(name: &str, value: i32) -> String {
    format!("<Obj><MS><I32 N=\"{name}\">{value}</I32></MS></Obj>")
}

fn opened() -> Vec<u8> {
    message(MT_RUNSPACE_POOL_STATE, &state("RunspaceState", 2))
}

fn decoded(text: &str) -> Vec<u8> {
    base64::engine::general_purpose::STANDARD.decode(text).unwrap()
}

fn running() -> PowerShellRun {
    let (mut run, _) = PowerShellRun::with_rpid(RPID);
    assert!(matches!(run.on_chunk(&opened()), RunAction::StartPipeline));
    run
}

#[test]
fn run_powershell_is_in_tree_psrp() {
    let (run, creation) = PowerShellRun::open();
    assert_eq!(Reassembler::new().feed(&decoded(&creation)).unwrap().len(), 2);
    let (command, _) = run.new_pipeline_command("whoami");
    let msgs = Reassembler::new().feed(&decoded(&command.argument)).unwrap();
    assert!(msgs[0].data.contains("whoami"));
    assert!(!msgs[0].data.contains("EncodedCommand"));
    assert!(!msgs[0].data.contains("powershell.exe"));
}

#[test]
fn pipeline_command_is_exact() {
    let (run, _) = PowerShellRun::with_rpid(RPID);
    let command = run.pipeline_command(PID, "1 -lt 2");
    assert_eq!(command.command_id, "00010203-0405-0607-0809-0a0b0c0d0e0f");
    let bytes = decoded(&command.argument);
    assert_eq!(&bytes[0..8], &3u64.to_be_bytes());
    assert_eq!(&bytes[21..25], &2u32.to_le_bytes());
    assert_eq!(&bytes[29..45], &[7; 16]);
    let msgs = Reassembler::new().feed(&bytes).unwrap();
    assert_eq!(msgs.len(), 1);
    assert_eq!(msgs[0].message_type, MT_CREATE_PIPELINE);
    assert!(msgs[0].data.contains("1 -lt 2"));
}

#[test]
fn random_ids_differ_and_are_version_4() {
    let (a, b) = (Uuid::new_v4(), Uuid::new_v4());
    assert_ne!(a, b);
    assert_eq!(a.bytes[6] >> 4, 4);
    assert_eq!(a.bytes[8] >> 6, 2);
}

#[test]
fn output_is_collected_until_completion() {
    let mut run = running();
    let mut chunk = message(MT_PIPELINE_OUTPUT, "<S>one</S>");
    chunk.extend(message(MT_ERROR_RECORD, "<S>bad\n</S>"));
    assert!(matches!(run.on_chunk(&chunk), RunAction::Receive));
    let mut chunk = message(MT_PIPELINE_OUTPUT, "<S>two</S>");
    chunk.extend(message(MT_PIPELINE_STATE, &state("PipelineState", 4)));
    chunk.extend(message(MT_PIPELINE_OUTPUT, "<S>late</S>"));
    match run.on_chunk(&chunk) {
        RunAction::Close(Ok(out)) => {
            assert_eq!(out.stdout, b"one\ntwo\n");
            assert_eq!(out.stderr, b"bad\n");
            assert_eq!(out.exit_code, 0);
        }
        other => panic!("unexpected {other:?}"),
    }
}

#[test]
fn failed_pipeline_exits_with_one() {
    for (value, exit_code) in [(4, 0), (5, 1), (6, 0)] {
        let chunk = message(MT_PIPELINE_STATE, &state("PipelineState", value));
        match running().on_chunk(&chunk) {
            RunAction::Close(Ok(out)) => {
                assert_eq!(out.exit_code, exit_code);
                assert!(out.stdout.is_empty() && out.stderr.is_empty());
            }
            other => panic!("unexpected {other:?}"),
        }
    }
    let chunk = message(MT_PIPELINE_STATE, &state("PipelineState", 2));
    assert!(matches!(running().on_chunk(&chunk), RunAction::Receive));
}

#[test]
fn empty_output_is_an_empty_line() {
    let mut run = running();
    let mut chunk = message(MT_PIPELINE_OUTPUT, "<S></S>");
    chunk.extend(message(MT_PIPELINE_STATE, &state("PipelineState", 4)));
    match run.on_chunk(&chunk) {
        RunAction::Close(Ok(out)) => assert_eq!(out.stdout, b"\n"),
        other => panic!("unexpected {other:?}"),
    }
}

#[test]
fn pool_that_never_opens_is_given_up_after_64_chunks() {
    let (mut run, _) = PowerShellRun::with_rpid(RPID);
    let chunk = message(MT_RUNSPACE_POOL_STATE, &state("RunspaceState", 1));
    for _ in 0..63 {
        assert!(matches!(run.on_chunk(&chunk), RunAction::Receive));
    }
    match run.on_chunk(&chunk) {
        RunAction::Close(Err(WinrmError::Psrp(m))) => {
            assert_eq!(m, "runspace pool did not reach Opened state")
        }
        other => panic!("unexpected {other:?}"),
    }
}

#[test]
fn pipeline_that_never_ends_is_given_up_after_256_chunks() {
    let mut run = running();
    for _ in 0..255 {
        assert!(matches!(run.on_chunk(&[]), RunAction::Receive));
    }
    match run.on_chunk(&[]) {
        RunAction::Close(Err(WinrmError::Psrp(m))) => {
            assert_eq!(m, "pipeline did not reach a terminal state")
        }
        other => panic!("unexpected {other:?}"),
    }
}

#[test]
fn broken_stream_fails_at_once() {
    let mut run = running();
    let mut chunk = encode_one_fragment(9, 0, true, false, &[1]);
    chunk.extend(encode_one_fragment(9, 5, false, true, &[2]));
    match run.on_chunk(&chunk) {
        RunAction::Fail(WinrmError::Psrp(m)) => assert_eq!(
            m,
            "PSRP protocol error: fragment id mismatch: got 5, expected 1"
        ),
        other => panic!("unexpected {other:?}"),
    }
}

#[test]
fn polling_goes_on_while_there_is_nothing_yet() {
    let received = |stdout: &[u8], done| Ok(Received { stdout: stdout.to_vec(), done });
    let fault = |code: &str| {
        Err(WinrmError::Soap(SoapError::Fault { code: code.into(), reason: "r".into() }))
    };
    assert!(next_chunk(received(b"", false)).is_none());
    assert!(next_chunk(Err(WinrmError::Timeout(3))).is_none());
    assert!(next_chunk(fault("w:TimedOut")).is_none());
    assert_eq!(next_chunk(received(b"", true)).unwrap().unwrap(), b"");
    assert_eq!(next_chunk(received(b"x", false)).unwrap().unwrap(), b"x");
    assert!(matches!(
        next_chunk(fault("w:AccessDenied")),
        Some(Err(WinrmError::Soap(SoapError::Fault { .. })))
    ));
    assert!(matches!(
        next_chunk(Err(WinrmError::Cancelled)),
        Some(Err(WinrmError::Cancelled))
    ));
}
