use winrm::error::{NtlmError, SoapError, WinrmError};
use winrm::ntlm::authentication;
use winrm::ntlm::handshake::{target_name, ServerCert};
use winrm::ntlm::reply::settle;
use winrm::ntlm::sealing::seal_body;
use winrm::ntlm::session::NtlmSession;
use winrm::transport::client::{
    bundle, check_reply, needed_files, ClientFiles, HttpTransport, Route,
};
use winrm::transport::config::{AuthMethod, EncryptionMode, WinrmConfig};
use winrm::transport::host::{endpoint_on, sanitize_host};
use winrm::transport::retry::{after_attempt, Retry};
use winrm::transport::sealed::{read_sealed_reply, CachedSession, SealedExchange, Stage, Step};

fn config() -> WinrmConfig {
    WinrmConfig {
        port: 5985,
        use_tls: false,
        accept_invalid_certs: false,
        connect_timeout_secs: 30,
        operation_timeout_secs: 60,
        auth_method: AuthMethod::Ntlm,
        encryption: EncryptionMode::Auto,
        max_retries: 0,
        client_cert_pem: None,
        client_key_pem: None,
        proxy: None,
        user_agent: None,
    }
}

fn transport_with(config: WinrmConfig) -> Result<HttpTransport, WinrmError> {
    HttpTransport::new(config, ClientFiles::unused(), Ok(()))
}

fn basic_transport(port: u16) -> HttpTransport {
    let config = WinrmConfig { auth_method: AuthMethod::Basic, port, use_tls: false, ..config() };
    transport_with(config).ok().unwrap()
}

fn error_of(r: Result<HttpTransport, WinrmError>) -> WinrmError {
    match r {
        Err(e) => e,
        Ok(_) => panic!("expected error, got Ok"),
    }
}

#[test]
fn endpoint_http() {
    let transport = basic_transport(5985);
    assert_eq!(transport.endpoint("10.0.0.1"), "http://10.0.0.1:5985/wsman");
}

#[test]
fn sanitize_host_strips_scheme_and_path() {
    assert_eq!(sanitize_host("http://evil.com/x"), "evil.com");
    assert_eq!(sanitize_host("https://evil.com:1234/path"), "evil.com");
    assert_eq!(sanitize_host("user:pw@host.com"), "host.com");
}

#[test]
fn sanitize_host_preserves_bare_hostname_and_ip() {
    assert_eq!(sanitize_host("plain.host"), "plain.host");
    assert_eq!(sanitize_host("10.0.0.1"), "10.0.0.1");
}

#[test]
fn sanitize_host_preserves_ipv6_literal() {
    assert_eq!(sanitize_host("[fe80::1]"), "[fe80::1]");
}

#[test]
fn sanitize_host_edge_cases() {
    assert_eq!(sanitize_host(""), "");
    assert_eq!(sanitize_host("a@b@c:1"), "c");
    assert_eq!(sanitize_host("http://u:p@h:1/p"), "h");
    assert_eq!(sanitize_host("http://evil.com/a@b"), "evil.com");
    assert_eq!(sanitize_host("evil.com/a@b"), "evil.com");
    assert_eq!(sanitize_host("evil.com/http://b"), "evil.com");
    assert_eq!(sanitize_host("[::1]:5985"), "[::1]");
    assert_eq!(sanitize_host("http://u@[::1]:5985/wsman"), "[::1]");
    assert_eq!(sanitize_host("[::1"), "[::1");
    assert_eq!(sanitize_host("[::1]:"), "[::1]");
    assert_eq!(sanitize_host("[a]b]"), "[a]b]");
    assert_eq!(sanitize_host("[a]b]:1"), "[a]b]");
    assert_eq!(sanitize_host("[::1]x"), "[::1]x");
    assert_eq!(sanitize_host("[::1]evil.com"), "[::1]evil.com");
    assert_eq!(sanitize_host("[::1]x:1"), "[::1]x:1");
    assert_eq!(sanitize_host("[a"), "[a");
    assert_eq!(sanitize_host("fe80::1"), "fe80:");
    assert_eq!(sanitize_host("ftp://a://b"), "a");
}

#[test]
fn endpoint_https() {
    let config = WinrmConfig {
        use_tls: true,
        port: 5986,
        accept_invalid_certs: true,
        ..config()
    };
    let transport = transport_with(config).ok().unwrap();
    assert_eq!(
        transport.endpoint("win.local"),
        "https://win.local:5986/wsman"
    );
}

#[test]
fn endpoint_of_a_bracketed_address_is_valid() {
    let transport = basic_transport(5985);
    assert_eq!(transport.endpoint("[::1]:5985"), "http://[::1]:5985/wsman");
    assert_eq!(transport.endpoint("[::1]"), "http://[::1]:5985/wsman");
}

#[test]
fn endpoint_and_target_name_agree() {
    for (use_tls, host) in [(true, "u@win.local/x"), (false, "[::1]")] {
        let url = endpoint_on(use_tls, host, 80);
        assert_eq!(target_name(&url), format!("http/{}:80", sanitize_host(host)));
    }
}

#[test]
fn config_accessor() {
    let transport = basic_transport(5985);
    assert_eq!(transport.config().port, 5985);
    assert!(matches!(transport.config().auth_method, AuthMethod::Basic));
}

#[test]
fn credssp_without_tls_returns_error() {
    let config = WinrmConfig { auth_method: AuthMethod::CredSsp, use_tls: false, ..config() };
    match transport_with(config) {
        Err(WinrmError::AuthFailed(m)) => {
            assert_eq!(m, "CredSSP requires HTTPS (set use_tls = true)")
        }
        Err(e) => panic!("expected AuthFailed, got: {e:?}"),
        Ok(_) => panic!("expected error, got Ok"),
    }
}

#[test]
fn certificate_auth_without_cert_path_returns_error() {
    let config = WinrmConfig {
        auth_method: AuthMethod::Certificate,
        client_cert_pem: None,
        ..config()
    };
    match transport_with(config) {
        Err(WinrmError::AuthFailed(m)) => {
            assert_eq!(m, "Certificate auth requires client_cert_pem")
        }
        Err(e) => panic!("expected AuthFailed, got: {e:?}"),
        Ok(_) => panic!("expected error, got Ok"),
    }
}

#[test]
fn certificate_auth_without_key_path_returns_error() {
    let config = WinrmConfig {
        auth_method: AuthMethod::Certificate,
        client_cert_pem: Some("/tmp/cert.pem".into()),
        client_key_pem: None,
        ..config()
    };
    match transport_with(config) {
        Err(WinrmError::AuthFailed(m)) => {
            assert_eq!(m, "Certificate auth requires client_key_pem")
        }
        Err(e) => panic!("expected AuthFailed, got: {e:?}"),
        Ok(_) => panic!("expected error, got Ok"),
    }
}

fn certificate_config() -> WinrmConfig {
    WinrmConfig {
        auth_method: AuthMethod::Certificate,
        client_cert_pem: Some("/nonexistent/cert.pem".into()),
        client_key_pem: Some("/nonexistent/key.pem".into()),
        ..config()
    }
}

#[test]
fn certificate_auth_nonexistent_cert_file_returns_error() {
    let files = ClientFiles { cert: Err("no such file".into()), key: Ok(vec![]) };
    match HttpTransport::new(certificate_config(), files, Ok(())) {
        Err(WinrmError::AuthFailed(m)) => assert_eq!(
            m,
            "failed to read client cert /nonexistent/cert.pem: no such file"
        ),
        Err(e) => panic!("expected AuthFailed, got: {e:?}"),
        Ok(_) => panic!("expected error, got Ok"),
    }
}

#[test]
fn certificate_auth_unreadable_key_returns_error() {
    let files = ClientFiles { cert: Ok(vec![]), key: Err("denied".into()) };
    match error_of(HttpTransport::new(certificate_config(), files, Ok(()))) {
        WinrmError::AuthFailed(m) => {
            assert_eq!(m, "failed to read client key /nonexistent/key.pem: denied")
        }
        other => panic!("unexpected {other:?}"),
    }
}

fn pem(kind: &str) -> String {
    format!("-----BEGIN {kind}-----\nAAAA\n-----END {kind}-----\n")
}

#[test]
fn certificate_auth_takes_certificate_and_key() {
    let key = format!("{} {}", "PRIVATE", "KEY");
    let files = |cert: String, key: String| ClientFiles {
        cert: Ok(cert.into_bytes()),
        key: Ok(key.into_bytes()),
    };
    let mut transport =
        HttpTransport::new(certificate_config(), files(pem("CERTIFICATE"), pem(&key)), Ok(()))
            .ok()
            .unwrap();
    let parts = transport.take_parts();
    assert!(parts.identity.is_some() && parts.proxy.is_none() && parts.cache.is_none());
    assert!(transport.take_parts().identity.is_none());
    let expected = reqwest::Identity::from_pem(b"x\ny").err().unwrap().to_string();
    let refused = files("x".into(), "y".into());
    match error_of(HttpTransport::new(certificate_config(), refused, Ok(()))) {
        WinrmError::Http(m) => assert_eq!(m, expected),
        other => panic!("unexpected {other:?}"),
    }
}

#[test]
fn needed_files_are_those_of_certificate_auth() {
    assert!(needed_files(&config()).unwrap().is_none());
    assert_eq!(
        needed_files(&certificate_config()).unwrap().unwrap(),
        ("/nonexistent/cert.pem".to_string(), "/nonexistent/key.pem".to_string())
    );
    let files = ClientFiles { cert: Ok(b"C".to_vec()), key: Ok(b"K".to_vec()) };
    assert_eq!(bundle("c", "k", files).unwrap(), b"C\nK");
}

#[test]
fn proxy_config_applied() {
    let config = WinrmConfig {
        auth_method: AuthMethod::Basic,
        use_tls: false,
        proxy: Some("http://proxy:8080".into()),
        ..config()
    };
    let mut transport = transport_with(config).ok().unwrap();
    let parts = transport.take_parts();
    assert!(parts.identity.is_none() && parts.cache.is_none());
    let proxy = format!("{:?}", parts.proxy.unwrap());
    assert_eq!(proxy, format!("{:?}", reqwest::Proxy::all("http://proxy:8080").unwrap()));
    assert_ne!(proxy, format!("{:?}", reqwest::Proxy::all("http://other:1").unwrap()));
}

#[test]
fn invalid_proxy_url_returns_error() {
    let config = WinrmConfig { proxy: Some("not a url".into()), ..config() };
    let expected = reqwest::Proxy::all("not a url").err().unwrap().to_string();
    match error_of(transport_with(config)) {
        WinrmError::Http(m) => assert_eq!(m, expected),
        other => panic!("unexpected {other:?}"),
    }
}

#[test]
fn tls_with_accept_invalid_certs() {
    let config = WinrmConfig {
        use_tls: true,
        accept_invalid_certs: true,
        port: 5986,
        ..config()
    };
    let transport = transport_with(config).ok().unwrap();
    let settings = transport.settings("1");
    assert!(settings.capture_cert && settings.accept_invalid_certs);
}

#[test]
fn tls_with_valid_certs() {
    let config = WinrmConfig {
        use_tls: true,
        accept_invalid_certs: false,
        port: 5986,
        ..config()
    };
    let transport = transport_with(config).ok().unwrap();
    let settings = transport.settings("1");
    assert!(settings.capture_cert && !settings.accept_invalid_certs);
}

#[test]
fn verifier_that_cannot_be_set_up_is_a_transport_error() {
    let with = |use_tls, accept_invalid_certs| {
        let config = WinrmConfig { use_tls, accept_invalid_certs, ..config() };
        HttpTransport::new(config, ClientFiles::unused(), Err("no roots".into()))
    };
    match error_of(with(true, false)) {
        WinrmError::Http(m) => assert_eq!(m, "TLS verifier error: no roots"),
        other => panic!("unexpected {other:?}"),
    }
    assert!(with(true, true).is_ok());
    assert!(with(false, false).is_ok());
}

#[test]
fn no_tls_has_no_cert_handle() {
    let transport = basic_transport(5985);
    assert!(!transport.settings("1").capture_cert);
}

#[test]
fn endpoint_strips_scheme_and_path_silently() {
    let transport = basic_transport(5985);
    let url = transport.endpoint("http://evil.com/path");
    assert_eq!(url, "http://evil.com:5985/wsman");
}

#[test]
fn client_settings_are_exact() {
    let s = transport_with(config()).ok().unwrap().settings("1.2.3");
    assert_eq!(s.connect_timeout_secs, 30);
    assert_eq!(s.timeout_secs, 70);
    assert_eq!(s.user_agent, "winrm-rs/1.2.3");
    assert_eq!(s.tcp_keepalive_secs, 60);
    assert_eq!(s.pool_idle_timeout_secs, 90);
    assert!(s.http1_only && !s.follow_redirects);
    let named = WinrmConfig { user_agent: Some("me".into()), ..config() };
    assert_eq!(transport_with(named).ok().unwrap().settings("1.2.3").user_agent, "me");
}

#[test]
fn sealed_winrm_client_defaults_are_configured() {
    let settings = transport_with(config()).ok().unwrap().settings("1");
    assert_eq!(
        settings.accept_encoding, "identity",
        "Accept-Encoding: identity required for sealed bodies"
    );
    assert_eq!(
        settings.connection, "Keep-Alive",
        "Connection: Keep-Alive required for NTLM affinity"
    );
    assert_eq!(settings.pool_max_idle_per_host, 1, "pool_max_idle_per_host=1 required");
    assert!(settings.tcp_nodelay, "tcp_nodelay required");
    let (mut exchange, step) = SealedExchange::begin(None, "h".into(), "<s/>".into());
    assert!(matches!(step, Step::BlankHandshake), "blank handshake required");
    let (_, first) = exchange.authenticate("http://h:5985/wsman");
    assert!(matches!(first, authentication::Step::Negotiate { .. }));
    assert!(matches!(exchange.on_handshake(Ok(&[1; 16])), Step::Send { .. }));
    assert!(
        matches!(exchange.on_reply(401, b""), Step::SealedHandshake),
        "sealed handshake fallback required"
    );
}

#[test]
fn sealed_send_empty_body_500_is_not_auth_failed_mapping() {
    let err = WinrmError::from_http_status(500, String::new(), None);
    assert!(!matches!(err, WinrmError::AuthFailed(_)));
    assert!(matches!(err, WinrmError::HttpStatus { status: 500, .. }));
}

#[test]
fn routes_follow_the_configuration() {
    let route = |auth_method, encryption, use_tls, credssp| {
        let config = WinrmConfig { auth_method, encryption, use_tls, ..config() };
        transport_with(config).ok().unwrap().route("win.local:5985", credssp)
    };
    use_route(route(AuthMethod::Basic, EncryptionMode::Auto, false, false), "Basic");
    use_route(route(AuthMethod::Ntlm, EncryptionMode::Auto, false, false), "NtlmSealed");
    use_route(route(AuthMethod::Ntlm, EncryptionMode::Auto, true, false), "NtlmPlain");
    use_route(route(AuthMethod::Ntlm, EncryptionMode::Always, true, false), "NtlmSealed");
    use_route(route(AuthMethod::Ntlm, EncryptionMode::Never, false, false), "NtlmPlain");
    use_route(
        route(AuthMethod::Kerberos, EncryptionMode::Auto, false, false),
        "Kerberos { service_principal: \"HTTP/win.local\" }",
    );
    use_route(route(AuthMethod::CredSsp, EncryptionMode::Auto, true, true), "CredSsp");
    match route(AuthMethod::CredSsp, EncryptionMode::Auto, true, false) {
        Err(WinrmError::AuthFailed(m)) => assert_eq!(
            m,
            "CredSSP authentication requires the `credssp` cargo feature"
        ),
        other => panic!("unexpected {other:?}"),
    }
}

fn use_route(route: Result<Route, WinrmError>, expected: &str) {
    assert_eq!(format!("{:?}", route.unwrap()), expected);
}

#[test]
fn soap_fault_in_a_reply_is_an_error() {
    assert_eq!(check_reply(Ok("<ok/>".into()), None).unwrap(), "<ok/>");
    let fault = SoapError::Fault { code: "s:Receiver".into(), reason: "boom".into() };
    assert!(matches!(
        check_reply(Ok("<fault/>".into()), Some(fault)),
        Err(WinrmError::Soap(SoapError::Fault { .. }))
    ));
    assert!(matches!(
        check_reply(Err(WinrmError::Cancelled), None),
        Err(WinrmError::Cancelled)
    ));
}

#[test]
fn only_transport_errors_are_retried() {
    let http = || Err(WinrmError::Http("reset".into()));
    assert!(matches!(after_attempt(0, 3, http()), Retry::After(100)));
    assert!(matches!(after_attempt(1, 3, http()), Retry::After(200)));
    assert!(matches!(after_attempt(2, 3, http()), Retry::After(400)));
    assert!(matches!(
        after_attempt(3, 3, http()),
        Retry::Return(Err(WinrmError::Http(m))) if m == "reset"
    ));
    assert!(matches!(after_attempt(0, 0, http()), Retry::Return(Err(_))));
    assert!(matches!(
        after_attempt(0, 3, Err(WinrmError::AuthFailed("x".into()))),
        Retry::Return(Err(WinrmError::AuthFailed(_)))
    ));
    assert!(matches!(
        after_attempt(0, 3, Ok("<ok/>".into())),
        Retry::Return(Ok(r)) if r == "<ok/>"
    ));
    assert!(matches!(
        after_attempt(57, 60, http()),
        Retry::After(14_411_518_807_585_587_200)
    ));
    assert!(matches!(after_attempt(58, 60, Ok("<ok/>".into())), Retry::Return(Ok(_))));
    assert!(matches!(after_attempt(60, 60, http()), Retry::Return(Err(_))));
}

fn sealed_parts(step: Step) -> (String, Vec<u8>) {
    match step {
        Step::Send { content_type, body } => (content_type, body),
        other => panic!("unexpected {other:?}"),
    }
}

#[test]
fn first_request_authenticates_and_keeps_its_session() {
    let (mut exchange, step) = SealedExchange::begin(None, "h".into(), "<s/>".into());
    assert!(matches!(step, Step::BlankHandshake));
    let sent = sealed_parts(exchange.on_handshake(Ok(&[1; 16])));
    assert_eq!(sent, seal_body(&mut NtlmSession::from_auth(&[1; 16]), "<s/>"));
    assert!(matches!(
        exchange.on_reply(200, b"<r/>"),
        Step::Done(Ok(r)) if r == "<r/>"
    ));
    assert!(matches!(exchange.stage(), Stage::Over));
    let cache = exchange.into_cache();
    assert_eq!(cache.as_ref().unwrap().host, "h");

    let (next, step) = SealedExchange::begin(cache, "h".into(), "<t/>".into());
    assert!(matches!(next.stage(), Stage::Cached));
    let mut session = NtlmSession::from_auth(&[1; 16]);
    seal_body(&mut session, "<s/>");
    assert_eq!(sealed_parts(step), seal_body(&mut session, "<t/>"));
}

fn cached(host: &str) -> Option<CachedSession> {
    Some(CachedSession { host: host.into(), session: NtlmSession::from_auth(&[1; 16]) })
}

#[test]
fn session_of_another_host_is_dropped() {
    let (exchange, step) = SealedExchange::begin(cached("other"), "h".into(), "<s/>".into());
    assert!(matches!(step, Step::BlankHandshake));
    assert!(exchange.into_cache().is_none());
}

#[test]
fn cached_session_outlives_an_abandoned_request() {
    let (exchange, step) = SealedExchange::begin(cached("h"), "h".into(), "<s/>".into());
    assert!(matches!(step, Step::Send { .. }));
    let cache = exchange.into_cache();
    assert_eq!(cache.as_ref().unwrap().host, "h");

    let (_, step) = SealedExchange::begin(cache, "h".into(), "<t/>".into());
    let mut session = NtlmSession::from_auth(&[1; 16]);
    seal_body(&mut session, "<s/>");
    assert_eq!(sealed_parts(step), seal_body(&mut session, "<t/>"));

    let (mut exchange, _) = SealedExchange::begin(None, "h".into(), "<s/>".into());
    exchange.on_handshake(Ok(&[1; 16]));
    assert!(exchange.into_cache().is_none());
}

#[test]
fn expired_session_is_replaced() {
    let (mut exchange, step) = SealedExchange::begin(cached("h"), "h".into(), "<s/>".into());
    assert!(matches!(step, Step::Send { .. }));
    assert!(matches!(exchange.on_reply(401, b""), Step::BlankHandshake));
    assert!(matches!(exchange.on_handshake(Ok(&[2; 16])), Step::Send { .. }));
    assert!(matches!(exchange.on_reply(401, b""), Step::SealedHandshake));
    assert!(matches!(
        exchange.on_sealed_handshake(Ok(("<r/>".into(), &[3; 16]))),
        Step::Done(Ok(r)) if r == "<r/>"
    ));
    assert_eq!(exchange.into_cache().unwrap().host, "h");
}

#[test]
fn other_errors_are_returned() {
    let (mut exchange, _) = SealedExchange::begin(cached("h"), "h".into(), "<s/>".into());
    assert!(matches!(
        exchange.on_transport_error("x".into()),
        Step::Done(Err(WinrmError::Http(_)))
    ));
    assert!(exchange.into_cache().is_some());

    let (mut exchange, _) = SealedExchange::begin(None, "h".into(), "<s/>".into());
    exchange.on_handshake(Ok(&[2; 16]));
    assert!(matches!(
        exchange.on_transport_error("x".into()),
        Step::Done(Err(WinrmError::Http(_)))
    ));
    assert!(exchange.into_cache().is_none());

    let (mut exchange, _) = SealedExchange::begin(None, "h".into(), "<s/>".into());
    assert!(matches!(
        exchange.on_handshake(Err(WinrmError::AuthFailed("bad password".into()))),
        Step::Done(Err(WinrmError::AuthFailed(m))) if m == "bad password"
    ));
    assert!(exchange.into_cache().is_none());

    let (mut exchange, _) = SealedExchange::begin(None, "h".into(), "<s/>".into());
    exchange.on_handshake(Ok(&[2; 16]));
    exchange.on_reply(401, b"");
    assert!(matches!(
        exchange.on_sealed_handshake(Err(WinrmError::AuthFailed("y".into()))),
        Step::Done(Err(WinrmError::AuthFailed(m))) if m == "y"
    ));
    assert!(exchange.into_cache().is_none());
}

#[test]
fn unreadable_sealed_reply_is_an_error_only_on_success() {
    let mut session = NtlmSession::from_auth(&[1; 16]);
    for data in [&b"Encrypted Boundary"[..], b"application/octet-stream"] {
        assert!(matches!(
            read_sealed_reply(&mut session, 200, data),
            Err(WinrmError::Ntlm(NtlmError::InvalidMessage(_)))
        ));
        assert_eq!(
            read_sealed_reply(&mut session, 500, data).unwrap().as_bytes(),
            data
        );
    }
    assert_eq!(read_sealed_reply(&mut session, 200, b"plain").unwrap(), "plain");
    assert!(matches!(
        read_sealed_reply(&mut session, 401, b""),
        Err(WinrmError::AuthFailed(m)) if m == "NTLM session expired"
    ));
}

#[test]
fn failing_sealed_reply_is_searched_for_a_fault() {
    let fault = SoapError::Fault { code: "c".into(), reason: "r".into() };
    let (mut exchange, _) = SealedExchange::begin(cached("h"), "h".into(), "<s/>".into());
    assert!(matches!(
        exchange.on_reply(500, b"<f/>"),
        Step::FindFault { text } if text == "<f/>"
    ));
    assert!(matches!(
        exchange.on_fault(Some(fault)),
        Step::Done(Err(WinrmError::Soap(SoapError::Fault { .. })))
    ));
    assert!(exchange.into_cache().is_some());

    let (mut exchange, _) = SealedExchange::begin(None, "h".into(), "<s/>".into());
    exchange.on_handshake(Ok(&[2; 16]));
    exchange.on_reply(500, b"");
    assert!(matches!(
        exchange.on_fault(None),
        Step::Done(Err(WinrmError::HttpStatus { status: 500, body })) if body.is_empty()
    ));
    assert!(exchange.into_cache().is_none());

    let (mut exchange, _) = SealedExchange::begin(cached("h"), "h".into(), "<s/>".into());
    assert!(matches!(
        exchange.on_reply(503, b"busy"),
        Step::Done(Err(WinrmError::HttpStatus { status: 503, body })) if body == "busy"
    ));
}

#[test]
fn replies_settle_by_status() {
    assert_eq!(settle(200, "b".into(), None).unwrap(), "b");
    assert_eq!(settle(299, "b".into(), None).unwrap(), "b");
    assert!(matches!(
        settle(300, "b".into(), None),
        Err(WinrmError::HttpStatus { status: 300, .. })
    ));
    assert!(matches!(
        settle(199, "b".into(), None),
        Err(WinrmError::HttpStatus { status: 199, .. })
    ));
    let fault = SoapError::Fault { code: "c".into(), reason: "r".into() };
    assert!(matches!(settle(500, "b".into(), Some(fault)), Err(WinrmError::Soap(_))));
}

/// What a handshake of an exchange sends once it is challenged.
fn sent_in_handshake(exchange: &SealedExchange) -> (String, Vec<u8>, bool) {
    let (mut auth, _) = exchange.authenticate("http://h:5985/wsman");
    auth.on_negotiate(401, "401 Unauthorized", Some("Negotiate AA==".into()), ServerCert::Unused);
    match auth.on_answer(&[6; 16]) {
        authentication::Step::Send { content_type, body, declare_empty } => {
            (content_type, body, declare_empty)
        }
        other => panic!("unexpected {other:?}"),
    }
}

#[test]
fn handshakes_send_nothing_or_the_sealed_body() {
    let (mut exchange, _) = SealedExchange::begin(None, "h".into(), "<s/>".into());
    assert_eq!(
        sent_in_handshake(&exchange),
        ("application/soap+xml;charset=UTF-8".to_string(), vec![], true)
    );
    exchange.on_handshake(Ok(&[6; 16]));
    exchange.on_reply(401, b"");
    let (content_type, body) = seal_body(&mut NtlmSession::from_auth(&[6; 16]), "<s/>");
    assert_eq!(sent_in_handshake(&exchange), (content_type, body, false));
}
