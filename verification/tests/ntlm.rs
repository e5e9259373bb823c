use base64::Engine;
use hmac::Mac;
use md5::Digest;
use winrm::error::{NtlmError, SoapError, WinrmError};
use winrm::ntlm::authentication::{Authentication, Stage, Step};
use winrm::ntlm::handshake::{
    authenticate_request, choose_binding, read_authenticated, read_challenge, read_token,
    settle_authenticated, settle_token, target_name, Binding, ServerCert,
};
use winrm::ntlm::rc4::Rc4State;
use winrm::ntlm::sealing::{extract_payload, frame, read_body, seal_body, unseal_body};
use winrm::ntlm::session::NtlmSession;

const ENCRYPTED_BOUNDARY: &str = "--Encrypted Boundary";

fn unhex(text: &str) -> Vec<u8> {
    (0..text.len() / 2)
        .map(|i| u8::from_str_radix(&text[2 * i..2 * i + 2], 16).unwrap())
        .collect()
}

/// What a server seals, one message after another.
struct Server {
    sign_key: [u8; 16],
    cipher: Rc4State,
    seq: u32,
}

impl Server {
    fn new(session_key: &[u8; 16]) -> Server {
        let derive = |purpose: &str| -> [u8; 16] {
            md5::Md5::new()
                .chain_update(session_key)
                .chain_update(format!("session key to server-to-client {purpose} key magic constant\0"))
                .finalize()
                .into()
        };
        Server { sign_key: derive("signing"), cipher: Rc4State::new(&derive("sealing")), seq: 0 }
    }

    fn seal(&mut self, message: &[u8]) -> Vec<u8> {
        let encrypted = self.cipher.process(message);
        let tag = hmac::Hmac::<md5::Md5>::new_from_slice(&self.sign_key)
            .unwrap()
            .chain_update(self.seq.to_le_bytes())
            .chain_update(message)
            .finalize()
            .into_bytes();
        let mut out = vec![1, 0, 0, 0];
        out.extend(self.cipher.process(&tag[..8]));
        out.extend(self.seq.to_le_bytes());
        out.extend(encrypted);
        self.seq += 1;
        out
    }

    fn seal_reply(&mut self, body: &str) -> Vec<u8> {
        let sealed = self.seal(body.as_bytes());
        frame(body.len(), &sealed)
    }
}

fn details(e: WinrmError) -> String {
    match e {
        WinrmError::Ntlm(NtlmError::InvalidMessage(m)) => m,
        other => panic!("unexpected {other:?}"),
    }
}

#[test]
fn rc4_matches_published_vectors() {
    assert_eq!(Rc4State::new(b"Key").process(b"Plaintext"), unhex("bbf316e8d940af0ad3"));
    assert_eq!(Rc4State::new(b"Wiki").process(b"pedia"), unhex("1021bf0420"));
    assert_eq!(
        Rc4State::new(b"Secret").process(b"Attack at dawn"),
        unhex("45a01f645fc35b383552544b9bf5")
    );
}

#[test]
fn rc4_stream_continues_and_undoes_itself() {
    let mut whole = Rc4State::new(b"some key");
    let mut parts = Rc4State::new(b"some key");
    let data: Vec<u8> = (0..1000).map(|i| i as u8).collect();
    let once = whole.process(&data);
    let mut joined = parts.process(&data[..333]);
    joined.extend(parts.process(&data[333..]));
    assert_eq!(once, joined);
    assert_eq!(Rc4State::new(b"some key").process(&once), data);
}

#[test]
fn sealed_message_matches_published_vector() {
    let mut session = NtlmSession::from_auth(&[0x55; 16]);
    let plain: Vec<u8> = "Plaintext".encode_utf16().flat_map(u16::to_le_bytes).collect();
    let mut expected = unhex("010000007fb38ec5c55d497600000000");
    expected.extend(unhex("54e50165bf1936dc996020c1811b0f06fb5f"));
    assert_eq!(session.seal(&plain), expected);
}

#[test]
fn session_numbers_its_messages() {
    let mut session = NtlmSession::from_auth(&[0x55; 16]);
    let first = session.seal(b"same");
    let second = session.seal(b"same");
    assert_eq!(&first[12..16], &[0, 0, 0, 0]);
    assert_eq!(&second[12..16], &[1, 0, 0, 0]);
    assert_ne!(first[16..], second[16..]);
}

#[test]
fn client_reads_what_the_server_sealed() {
    let mut session = NtlmSession::from_auth(&[9; 16]);
    let mut server = Server::new(&[9; 16]);
    for text in ["first", "", "third message"] {
        let sealed = server.seal(text.as_bytes());
        assert_eq!(session.unseal(&sealed).unwrap(), text.as_bytes());
    }
}

#[test]
fn refused_message_leaves_the_session_as_it_was() {
    let mut session = NtlmSession::from_auth(&[9; 16]);
    let sealed = Server::new(&[9; 16]).seal(b"hello");
    let mut broken = sealed.clone();
    broken[17] ^= 1;
    let NtlmError::InvalidMessage(m) = session.unseal(&broken).unwrap_err();
    assert_eq!(m, "message signature mismatch");
    let NtlmError::InvalidMessage(m) = session.unseal(&sealed[..15]).unwrap_err();
    assert_eq!(m, "sealed message too short");
    assert_eq!(session.unseal(&sealed).unwrap(), b"hello");
}

#[test]
fn seal_body_produces_multipart_format() {
    let mut session = NtlmSession::from_auth(&[0xAB; 16]);
    let body = "<soap>hello</soap>";
    let (content_type, mime_body) = seal_body(&mut session, body);

    assert!(content_type.contains("multipart/encrypted"));
    assert!(content_type.contains("HTTP-SPNEGO-session-encrypted"));
    assert!(content_type.contains("Encrypted Boundary"));

    let body_str = String::from_utf8_lossy(&mime_body);
    assert!(body_str.contains("--Encrypted Boundary"));
    assert!(body_str.contains("application/HTTP-SPNEGO-session-encrypted"));
    assert!(body_str.contains("application/octet-stream"));
    assert!(body_str.contains(&format!("Length={}", body.len())));
}

#[test]
fn framed_body_is_exact() {
    let expected = "--Encrypted Boundary\r\n\
        \tContent-Type: application/HTTP-SPNEGO-session-encrypted\r\n\
        \tOriginalContent: type=application/soap+xml;charset=UTF-8;Length=12\r\n\
        --Encrypted Boundary\r\n\
        \tContent-Type: application/octet-stream\r\n\
        \u{10}\0\0\0sealed--Encrypted Boundary--\r\n";
    assert_eq!(String::from_utf8(frame(12, b"sealed")).unwrap(), expected);
}

#[test]
fn sealed_length_counts_bytes() {
    let mut session = NtlmSession::from_auth(&[0xAB; 16]);
    let (_, mime_body) = seal_body(&mut session, "é");
    assert!(String::from_utf8_lossy(&mime_body).contains("Length=2\r\n"));
}

#[test]
fn seal_body_includes_signature_length_prefix() {
    let mut session = NtlmSession::from_auth(&[0xCD; 16]);
    let (_, mime_body) = seal_body(&mut session, "test");
    let marker = b"application/octet-stream\r\n";
    let pos = mime_body
        .windows(marker.len())
        .position(|w| w == marker)
        .expect("octet-stream marker present");
    let sig_len_bytes = &mime_body[pos + marker.len()..pos + marker.len() + 4];
    let sig_len = u32::from_le_bytes([
        sig_len_bytes[0],
        sig_len_bytes[1],
        sig_len_bytes[2],
        sig_len_bytes[3],
    ]);
    assert_eq!(sig_len, 16, "NTLM signature is always 16 bytes");
}

#[test]
fn seal_body_ends_with_closing_boundary() {
    let mut session = NtlmSession::from_auth(&[0xEF; 16]);
    let (_, mime_body) = seal_body(&mut session, "x");
    let body_str = String::from_utf8_lossy(&mime_body);
    assert!(body_str.trim_end().ends_with("--Encrypted Boundary--"));
}

#[test]
fn unseal_body_sig_len_parsing_is_correct() {
    let mut session = NtlmSession::from_auth(&[0x55; 16]);
    let (_, sealed) = seal_body(&mut session, "test");

    let marker = b"application/octet-stream\r\n";
    let pos = sealed
        .windows(marker.len())
        .position(|w| w == marker)
        .unwrap();
    let sig_len_offset = pos + marker.len();
    let sig_len = u32::from_le_bytes([
        sealed[sig_len_offset],
        sealed[sig_len_offset + 1],
        sealed[sig_len_offset + 2],
        sealed[sig_len_offset + 3],
    ]);
    assert_eq!(sig_len, 16);
}

#[test]
fn unseal_body_rejects_short_data_with_exact_boundary() {
    let mut session = NtlmSession::from_auth(&[0u8; 16]);
    let mut bad = b"application/octet-stream\r\n".to_vec();
    bad.extend_from_slice(&100u32.to_le_bytes());
    bad.extend_from_slice(&[0xAA; 10]);
    bad.extend_from_slice(b"\r\n--Encrypted Boundary--\r\n");
    let err = unseal_body(&mut session, &bad).unwrap_err();
    assert!(err.message().contains("too short"));
}

#[test]
fn unseal_body_rejects_missing_octet_stream_marker() {
    let mut session = NtlmSession::from_auth(&[0u8; 16]);
    let bad = b"no marker here";
    let result = unseal_body(&mut session, bad);
    assert!(result.is_err());
    let err = result.unwrap_err().message();
    assert!(err.contains("octet-stream marker"));
}

#[test]
fn unseal_body_rejects_truncated_signature_after_marker() {
    let mut session = NtlmSession::from_auth(&[0u8; 16]);
    let bad = b"application/octet-stream\r\n\x10\x00\x00";
    let err = unseal_body(&mut session, bad).unwrap_err();
    assert!(err.message().contains("truncated"));
}

#[test]
fn unseal_body_rejects_data_too_short_for_signature() {
    let mut session = NtlmSession::from_auth(&[0u8; 16]);
    let mut data = b"application/octet-stream\r\n".to_vec();
    data.extend_from_slice(&100u32.to_le_bytes());
    data.extend_from_slice(format!("\r\n{ENCRYPTED_BOUNDARY}--").as_bytes());
    let err = unseal_body(&mut session, &data).unwrap_err();
    assert!(err.message().contains("too short"));
}

#[test]
fn unseal_body_rejects_truncated_data() {
    let mut session = NtlmSession::from_auth(&[0u8; 16]);
    let bad = b"application/octet-stream\r\n\x01\x02";
    let result = unseal_body(&mut session, bad);
    assert!(result.is_err());
}

#[test]
fn unseal_body_errors_are_exact() {
    let mut session = NtlmSession::from_auth(&[3; 16]);
    let mut server = Server::new(&[3; 16]);
    let invalid = server.seal(&[0x61, 0xff]);
    let expected = String::from_utf8(vec![0x61, 0xff]).unwrap_err().to_string();
    assert_eq!(
        details(unseal_body(&mut session, &frame(2, &invalid)).unwrap_err()),
        format!("sealed response: invalid UTF-8: {expected}")
    );
    assert_eq!(
        details(unseal_body(&mut session, b"x").unwrap_err()),
        "sealed response: missing octet-stream marker"
    );
    assert_eq!(
        details(unseal_body(&mut session, &frame(2, &[0; 16])).unwrap_err()),
        "message signature mismatch"
    );
}

#[test]
fn sealed_reply_is_read_back() {
    let mut session = NtlmSession::from_auth(&[3; 16]);
    let mut server = Server::new(&[3; 16]);
    for body in ["<a/>", "", "<b>é</b>"] {
        assert_eq!(unseal_body(&mut session, &server.seal_reply(body)).unwrap(), body);
    }
}

#[test]
fn payload_ends_at_boundary_or_at_the_end() {
    assert_eq!(extract_payload(&frame(0, &[7; 20])).unwrap(), vec![7; 20]);
    let mut open = b"application/octet-stream\r\n\x02\0\0\0".to_vec();
    open.extend_from_slice(b"abc");
    assert_eq!(extract_payload(&open).unwrap(), b"abc");
    assert_eq!(read_body(b"ok".to_vec()).unwrap(), "ok");
}

fn auth_failed<T>(r: Result<T, WinrmError>) -> String {
    match r {
        Err(WinrmError::AuthFailed(m)) => m,
        Err(other) => panic!("unexpected {other:?}"),
        Ok(_) => panic!("unexpected success"),
    }
}

#[test]
fn challenge_is_taken_from_the_reply() {
    let token = base64::engine::general_purpose::STANDARD.encode(b"NTLMSSP\0");
    let header = Some(format!("Negotiate  {token} \t"));
    assert_eq!(read_token(401, "401 Unauthorized", header.clone()).unwrap(), token);
    assert_eq!(read_challenge(401, "401 Unauthorized", header).unwrap(), b"NTLMSSP\0");
}

#[test]
fn challenge_errors_are_exact() {
    assert_eq!(
        auth_failed(read_challenge(200, "200 OK", None)),
        "expected 401 for NTLM negotiate, got 200 OK"
    );
    assert_eq!(
        auth_failed(read_challenge(401, "401 Unauthorized", None)),
        "missing WWW-Authenticate header in 401"
    );
    assert_eq!(
        auth_failed(read_challenge(401, "401 Unauthorized", Some("Basic x".into()))),
        "missing Negotiate prefix in challenge"
    );
    let expected = base64::engine::general_purpose::STANDARD.decode("!").unwrap_err();
    assert_eq!(
        auth_failed(read_challenge(401, "401 Unauthorized", Some("Negotiate !".into()))),
        format!("base64 decode: {expected}")
    );
    assert_eq!(auth_failed(settle_token(Err("e".into()))), "base64 decode: e");
}

#[test]
fn target_name_is_the_url_host() {
    assert_eq!(target_name("http://win.local:5985/wsman"), "http/win.local:5985");
    assert_eq!(target_name("https://win.local:5986/wsman"), "http/win.local:5986");
    assert_eq!(target_name("http://bare"), "http/bare");
    assert_eq!(target_name("other"), "http/other");
}

#[test]
fn binding_follows_the_certificate() {
    assert!(matches!(
        choose_binding(ServerCert::Captured(vec![1, 2])),
        Binding::Channel(der) if der == [1, 2]
    ));
    assert!(matches!(
        choose_binding(ServerCert::Missing),
        Binding::Messages { degraded: true }
    ));
    assert!(matches!(
        choose_binding(ServerCert::Unused),
        Binding::Messages { degraded: false }
    ));
}

#[test]
fn authenticate_request_is_plain_or_sealed() {
    let plain = authenticate_request("<s/>", false, &[1; 16]);
    assert_eq!(plain.content_type, "application/soap+xml;charset=UTF-8");
    assert_eq!(plain.body, b"<s/>");
    assert!(!plain.declare_empty && plain.session.is_none());
    assert!(authenticate_request("", false, &[1; 16]).declare_empty);
    let sealed = authenticate_request("<s/>", true, &[1; 16]);
    let mut session = NtlmSession::from_auth(&[1; 16]);
    let (content_type, body) = seal_body(&mut session, "<s/>");
    assert_eq!(sealed.content_type, content_type);
    assert_eq!(sealed.body, body);
    assert!(!sealed.declare_empty && sealed.session.is_some());
}

#[test]
fn only_401_rejects_credentials() {
    assert_eq!(
        auth_failed(read_authenticated(None, false, 401, b"x")),
        "NTLM authentication rejected (bad credentials or CBT mismatch)"
    );
    assert_eq!(read_authenticated(None, true, 500, b"x").unwrap(), "");
    assert_eq!(read_authenticated(None, false, 500, b"busy\xff").unwrap(), "busy\u{fffd}");
    assert!(matches!(
        settle_authenticated(false, 503, "busy".into(), None),
        Err(WinrmError::HttpStatus { status: 503, body }) if body == "busy"
    ));
    assert_eq!(settle_authenticated(true, 500, "".into(), None).unwrap(), "");
    assert_eq!(settle_authenticated(false, 204, "t".into(), None).unwrap(), "t");
}

#[test]
fn sealed_authentication_reply_is_unsealed() {
    let request = authenticate_request("<s/>", true, &[5; 16]);
    let reply = Server::new(&[5; 16]).seal_reply("<r/>");
    assert_eq!(read_authenticated(request.session, false, 200, &reply).unwrap(), "<r/>");
    let request = authenticate_request("<s/>", true, &[5; 16]);
    assert_eq!(read_authenticated(request.session, false, 200, b"plain").unwrap(), "plain");
    let broken = b"Encrypted Boundary";
    let request = authenticate_request("<s/>", true, &[5; 16]);
    assert!(matches!(
        read_authenticated(request.session, false, 200, broken),
        Err(WinrmError::Ntlm(_))
    ));
    let request = authenticate_request("<s/>", true, &[5; 16]);
    assert_eq!(
        read_authenticated(request.session, false, 500, broken).unwrap(),
        "Encrypted Boundary"
    );
}

fn challenged(auth: &mut Authentication) {
    let header = Some("Negotiate AQID".into());
    match auth.on_negotiate(401, "401 Unauthorized", header, ServerCert::Captured(vec![9])) {
        Step::Answer { challenge, target_name, binding } => {
            assert_eq!(challenge, vec![1, 2, 3]);
            assert_eq!(target_name, "http/h:5985");
            assert!(matches!(binding, Binding::Channel(der) if der == [9]));
        }
        other => panic!("unexpected {other:?}"),
    }
}

#[test]
fn authentication_runs_through_its_stages() {
    let (mut auth, step) = Authentication::plain("http://h:5985/wsman", "<s/>");
    assert!(matches!(
        step,
        Step::Negotiate { content_type } if content_type == "application/soap+xml;charset=UTF-8"
    ));
    challenged(&mut auth);
    match auth.on_answer(&[4; 16]) {
        Step::Send { body, declare_empty, .. } => {
            assert_eq!(body, b"<s/>");
            assert!(!declare_empty);
        }
        other => panic!("unexpected {other:?}"),
    }
    match auth.on_reply(200, b"<r/>") {
        Step::Done(Ok((text, key))) => {
            assert_eq!(text, "<r/>");
            assert_eq!(key, [4; 16]);
        }
        other => panic!("unexpected {other:?}"),
    }
    assert!(matches!(auth.stage(), Stage::Over));
}

#[test]
fn failing_authentication_reply_is_searched_for_a_fault() {
    let fault = || SoapError::Fault { code: "c".into(), reason: "r".into() };
    let (mut auth, _) = Authentication::plain("http://h:5985/wsman", "<s/>");
    challenged(&mut auth);
    auth.on_answer(&[4; 16]);
    assert!(matches!(auth.on_reply(500, b"f"), Step::FindFault { text } if text == "f"));
    assert!(matches!(
        auth.on_fault(Some(fault())),
        Step::Done(Err(WinrmError::Soap(SoapError::Fault { .. })))
    ));
    let (mut auth, _) = Authentication::plain("http://h:5985/wsman", "<s/>");
    challenged(&mut auth);
    auth.on_answer(&[4; 16]);
    auth.on_reply(500, b"f");
    assert!(matches!(
        auth.on_fault(None),
        Step::Done(Err(WinrmError::HttpStatus { status: 500, body })) if body == "f"
    ));
}

#[test]
fn blank_authentication_ignores_the_status() {
    let (mut auth, _) = Authentication::plain("http://h:5985/wsman", "");
    challenged(&mut auth);
    assert!(matches!(
        auth.on_answer(&[4; 16]),
        Step::Send { declare_empty: true, .. }
    ));
    assert!(matches!(
        auth.on_reply(500, b"whatever"),
        Step::Done(Ok((text, key))) if text.is_empty() && key == [4; 16]
    ));
}

#[test]
fn sealed_authentication_sends_no_plain_body() {
    let (mut auth, _) = Authentication::sealed("http://h:5985/wsman", "<secret/>");
    challenged(&mut auth);
    match auth.on_answer(&[4; 16]) {
        Step::Send { content_type, body, .. } => {
            assert!(content_type.starts_with("multipart/encrypted"));
            assert!(!String::from_utf8_lossy(&body).contains("<secret/>"));
        }
        other => panic!("unexpected {other:?}"),
    }
    let reply = Server::new(&[4; 16]).seal_reply("<r/>");
    assert!(matches!(
        auth.on_reply(200, &reply),
        Step::Done(Ok((text, _))) if text == "<r/>"
    ));
}

#[test]
fn unanswerable_challenge_ends_the_authentication() {
    let (mut auth, _) = Authentication::plain("http://h:5985/wsman", "");
    challenged(&mut auth);
    let e = NtlmError::InvalidMessage("bad challenge".into());
    assert!(matches!(
        auth.on_refusal(e),
        Step::Done(Err(WinrmError::Ntlm(NtlmError::InvalidMessage(m)))) if m == "bad challenge"
    ));
    let (mut auth, _) = Authentication::plain("http://h:5985/wsman", "");
    assert!(matches!(
        auth.on_negotiate(200, "200 OK", None, ServerCert::Unused),
        Step::Done(Err(WinrmError::AuthFailed(_)))
    ));
}
