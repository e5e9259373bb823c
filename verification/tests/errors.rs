use winrm::error::{CredSspError, NtlmError, SoapError, WinrmError};

#[test]
fn from_http_status_401_is_auth_failed() {
    let err = WinrmError::from_http_status(401, "denied".into(), None);
    assert!(matches!(err, WinrmError::AuthFailed(_)));
}

#[test]
fn from_http_status_empty_500_is_not_auth_failed() {
    let err = WinrmError::from_http_status(500, String::new(), None);
    match err {
        WinrmError::HttpStatus { status: 500, body } => assert!(body.is_empty()),
        other => panic!("expected HttpStatus, got {other:?}"),
    }
}

#[test]
fn from_http_status_500_access_denied_soap_is_soap() {
    let fault = r#"<s:Envelope xmlns:s="http://www.w3.org/2003/05/soap-envelope">
          <s:Body><s:Fault><s:Code><s:Value>s:Receiver</s:Value>
          <s:Subcode><s:Value>w:AccessDenied</s:Value></s:Subcode></s:Code>
          <s:Reason><s:Text>Access is denied.</s:Text></s:Reason></s:Fault></s:Body></s:Envelope>"#;
    let found = SoapError::Fault {
        code: "w:AccessDenied".into(),
        reason: "Access is denied.".into(),
    };
    let err = WinrmError::from_http_status(500, fault.into(), Some(found));
    assert!(
        matches!(err, WinrmError::Soap(_)),
        "expected Soap, got {err:?}"
    );
    assert!(!matches!(err, WinrmError::AuthFailed(_)));
}

#[test]
fn from_http_status_503_is_http_status() {
    let err = WinrmError::from_http_status(503, "busy".into(), None);
    match err {
        WinrmError::HttpStatus { status: 503, body } => assert_eq!(body, "busy"),
        other => panic!("expected HttpStatus, got {other:?}"),
    }
}

#[test]
fn rejected_status_keeps_status_and_body() {
    let fault = SoapError::ParseError("x".into());
    match WinrmError::from_http_status(401, "denied".into(), Some(fault)) {
        WinrmError::AuthFailed(m) => assert_eq!(m, "HTTP 401: denied"),
        other => panic!("unexpected {other:?}"),
    }
}

#[test]
fn messages_are_exact() {
    let cases = vec![
        (WinrmError::Http("refused".into()), "WinRM HTTP error: refused"),
        (
            WinrmError::HttpStatus { status: 500, body: "b".into() },
            "WinRM HTTP status 500: b",
        ),
        (WinrmError::AuthFailed("no".into()), "WinRM auth failed: no"),
        (
            WinrmError::Ntlm(NtlmError::InvalidMessage("bad".into())),
            "WinRM NTLM error: NTLM error: bad",
        ),
        (
            WinrmError::Soap(SoapError::MissingElement("e".into())),
            "WinRM SOAP error: missing element: e",
        ),
        (
            WinrmError::Soap(SoapError::ParseError("p".into())),
            "WinRM SOAP error: parse error: p",
        ),
        (
            WinrmError::Soap(SoapError::Fault { code: "c".into(), reason: "r".into() }),
            "WinRM SOAP error: SOAP fault [c]: r",
        ),
        (WinrmError::Timeout(60), "WinRM operation timed out after 60s"),
        (WinrmError::Transfer("t".into()), "file transfer error: t"),
        (WinrmError::Cancelled, "operation cancelled"),
        (
            WinrmError::CredSsp(CredSspError::Asn1Decode("d".into())),
            "CredSSP error: ASN.1 decode error: d",
        ),
        (
            WinrmError::CredSsp(CredSspError::PublicKeyMismatch),
            "CredSSP error: server public key mismatch",
        ),
        (
            WinrmError::CredSsp(CredSspError::ServerError(0xC000_006D)),
            "CredSSP error: server error: 0xc000006d",
        ),
        (WinrmError::Psrp("p".into()), "WinRM PSRP error: p"),
    ];
    for (err, expected) in cases {
        assert_eq!(err.message(), expected);
    }
}
