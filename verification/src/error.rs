//! Error types of the client.

use vstd::prelude::*;

use crate::text;

verus! {

/// Errors that can occur during WinRM operations.
///
/// `AuthFailed` is reserved for rejected authentication. A password that was accepted while
/// the operation behind it failed shows as `HttpStatus`, `Soap` or `Ntlm`.
#[derive(Debug)]
pub enum WinrmError {
    /// HTTP transport error (connection refused, timeout, TLS), with its message.
    Http(String),
    /// Non-success HTTP status that is not an authentication rejection.
    HttpStatus {
        /// HTTP status code.
        status: u16,
        /// Response body, possibly empty.
        body: String,
    },
    /// Authentication was rejected by the server.
    AuthFailed(String),
    /// NTLM protocol error.
    Ntlm(NtlmError),
    /// SOAP-level fault or XML parsing error returned by the service.
    Soap(SoapError),
    /// The operation exceeded the configured timeout, in seconds.
    Timeout(u64),
    /// File transfer error.
    Transfer(String),
    /// The operation was cancelled.
    Cancelled,
    /// CredSSP protocol error.
    CredSsp(CredSspError),
    /// PowerShell Remoting Protocol error.
    Psrp(String),
}

/// Errors from the CredSSP authentication protocol.
#[derive(Debug)]
pub enum CredSspError {
    /// ASN.1 DER encoding or decoding error.
    Asn1Decode(String),
    /// Server public key verification failed.
    PublicKeyMismatch,
    /// Server returned an NTSTATUS error code.
    ServerError(u32),
}

/// Errors from SOAP envelope parsing or WS-Management fault responses.
#[derive(Debug)]
pub enum SoapError {
    /// A required XML element was not found in the response body.
    MissingElement(String),
    /// The response body could not be parsed.
    ParseError(String),
    /// The service returned a SOAP fault.
    Fault {
        /// Fault code.
        code: String,
        /// Human-readable fault reason from the server.
        reason: String,
    },
}

/// Errors from the NTLM authentication protocol layer.
#[derive(Debug)]
pub enum NtlmError {
    /// The NTLM message is structurally invalid.
    InvalidMessage(String),
}

/// What a [`WinrmError`] holds.
pub enum WinrmErrorView {
    Http(Seq<char>),
    HttpStatus { status: u16, body: Seq<char> },
    AuthFailed(Seq<char>),
    Ntlm(NtlmErrorView),
    Soap(SoapErrorView),
    Timeout(u64),
    Transfer(Seq<char>),
    Cancelled,
    CredSsp(CredSspErrorView),
    Psrp(Seq<char>),
}

/// What a [`CredSspError`] holds.
pub enum CredSspErrorView {
    Asn1Decode(Seq<char>),
    PublicKeyMismatch,
    ServerError(u32),
}

/// What a [`SoapError`] holds.
pub enum SoapErrorView {
    MissingElement(Seq<char>),
    ParseError(Seq<char>),
    Fault { code: Seq<char>, reason: Seq<char> },
}

/// What an [`NtlmError`] holds.
pub enum NtlmErrorView {
    InvalidMessage(Seq<char>),
}

impl View for WinrmError {
    type V = WinrmErrorView;

    open spec fn view(&self) -> WinrmErrorView {
        match self {
            WinrmError::Http(m) => WinrmErrorView::Http(m@),
            WinrmError::HttpStatus { status, body } => WinrmErrorView::HttpStatus {
                status: *status,
                body: body@,
            },
            WinrmError::AuthFailed(m) => WinrmErrorView::AuthFailed(m@),
            WinrmError::Ntlm(e) => WinrmErrorView::Ntlm(e@),
            WinrmError::Soap(e) => WinrmErrorView::Soap(e@),
            WinrmError::Timeout(secs) => WinrmErrorView::Timeout(*secs),
            WinrmError::Transfer(m) => WinrmErrorView::Transfer(m@),
            WinrmError::Cancelled => WinrmErrorView::Cancelled,
            WinrmError::CredSsp(e) => WinrmErrorView::CredSsp(e@),
            WinrmError::Psrp(m) => WinrmErrorView::Psrp(m@),
        }
    }
}

impl View for CredSspError {
    type V = CredSspErrorView;

    open spec fn view(&self) -> CredSspErrorView {
        match self {
            CredSspError::Asn1Decode(m) => CredSspErrorView::Asn1Decode(m@),
            CredSspError::PublicKeyMismatch => CredSspErrorView::PublicKeyMismatch,
            CredSspError::ServerError(code) => CredSspErrorView::ServerError(*code),
        }
    }
}

impl View for SoapError {
    type V = SoapErrorView;

    open spec fn view(&self) -> SoapErrorView {
        match self {
            SoapError::MissingElement(m) => SoapErrorView::MissingElement(m@),
            SoapError::ParseError(m) => SoapErrorView::ParseError(m@),
            SoapError::Fault { code, reason } => SoapErrorView::Fault {
                code: code@,
                reason: reason@,
            },
        }
    }
}

impl View for NtlmError {
    type V = NtlmErrorView;

    open spec fn view(&self) -> NtlmErrorView {
        match self {
            NtlmError::InvalidMessage(m) => NtlmErrorView::InvalidMessage(m@),
        }
    }
}

impl CredSspErrorView {
    /// The error as a message.
    pub open spec fn text(self) -> Seq<char> {
        match self {
            CredSspErrorView::Asn1Decode(m) => "ASN.1 decode error: "@ + m,
            CredSspErrorView::PublicKeyMismatch => "server public key mismatch"@,
            CredSspErrorView::ServerError(code) => "server error: 0x"@ + text::hex(code as nat, 8),
        }
    }
}

impl SoapErrorView {
    /// The error as a message.
    pub open spec fn text(self) -> Seq<char> {
        match self {
            SoapErrorView::MissingElement(m) => "missing element: "@ + m,
            SoapErrorView::ParseError(m) => "parse error: "@ + m,
            SoapErrorView::Fault { code, reason } => "SOAP fault ["@ + code + "]: "@ + reason,
        }
    }
}

impl NtlmErrorView {
    /// The error as a message.
    pub open spec fn text(self) -> Seq<char> {
        match self {
            NtlmErrorView::InvalidMessage(m) => "NTLM error: "@ + m,
        }
    }
}

impl WinrmErrorView {
    /// The error as a message.
    pub open spec fn text(self) -> Seq<char> {
        match self {
            WinrmErrorView::Http(m) => "WinRM HTTP error: "@ + m,
            WinrmErrorView::HttpStatus { status, body } => "WinRM HTTP status "@ + text::decimal(
                status as nat,
            ) + ": "@ + body,
            WinrmErrorView::AuthFailed(m) => "WinRM auth failed: "@ + m,
            WinrmErrorView::Ntlm(e) => "WinRM NTLM error: "@ + e.text(),
            WinrmErrorView::Soap(e) => "WinRM SOAP error: "@ + e.text(),
            WinrmErrorView::Timeout(secs) => "WinRM operation timed out after "@ + text::decimal(
                secs as nat,
            ) + "s"@,
            WinrmErrorView::Transfer(m) => "file transfer error: "@ + m,
            WinrmErrorView::Cancelled => "operation cancelled"@,
            WinrmErrorView::CredSsp(e) => "CredSSP error: "@ + e.text(),
            WinrmErrorView::Psrp(m) => "WinRM PSRP error: "@ + m,
        }
    }
}

/// The error that a non-success HTTP response stands for.
///
/// `fault` is the SOAP error found in the body, if there is one.
pub open spec fn http_status_error(
    status: u16,
    body: Seq<char>,
    fault: Option<SoapErrorView>,
) -> WinrmErrorView {
    if status == 401 {
        WinrmErrorView::AuthFailed("HTTP "@ + text::decimal(status as nat) + ": "@ + body)
    } else if status == 500 && fault is Some {
        WinrmErrorView::Soap(fault->0)
    } else {
        WinrmErrorView::HttpStatus { status, body }
    }
}

/// The view of an optional SOAP error.
pub open spec fn fault_view(fault: Option<SoapError>) -> Option<SoapErrorView> {
    match fault {
        Some(e) => Some(e@),
        None => None,
    }
}

/// The view of a result that holds text.
pub open spec fn text_result(r: Result<String, WinrmError>) -> Result<Seq<char>, WinrmErrorView> {
    match r {
        Ok(s) => Ok(s@),
        Err(e) => Err(e@),
    }
}

impl CredSspError {
    /// The error as a message.
    pub fn message(&self) -> (r: String)
        ensures
            r@ == self@.text(),
    {
        match self {
            CredSspError::Asn1Decode(m) => text::concat("ASN.1 decode error: ", m.as_str()),
            CredSspError::PublicKeyMismatch => "server public key mismatch".to_owned(),
            CredSspError::ServerError(code) => text::concat(
                "server error: 0x",
                text::hex_text(*code, 8).as_str(),
            ),
        }
    }
}

impl SoapError {
    /// The error as a message.
    pub fn message(&self) -> (r: String)
        ensures
            r@ == self@.text(),
    {
        match self {
            SoapError::MissingElement(m) => text::concat("missing element: ", m.as_str()),
            SoapError::ParseError(m) => text::concat("parse error: ", m.as_str()),
            SoapError::Fault { code, reason } => {
                let mut out = text::concat("SOAP fault [", code.as_str());
                out.append("]: ");
                out.append(reason.as_str());
                out
            },
        }
    }
}

impl NtlmError {
    /// The error as a message.
    pub fn message(&self) -> (r: String)
        ensures
            r@ == self@.text(),
    {
        match self {
            NtlmError::InvalidMessage(m) => text::concat("NTLM error: ", m.as_str()),
        }
    }
}

impl WinrmError {
    /// The error as a message.
    pub fn message(&self) -> (r: String)
        ensures
            r@ == self@.text(),
    {
        match self {
            WinrmError::Http(m) => text::concat("WinRM HTTP error: ", m.as_str()),
            WinrmError::HttpStatus { status, body } => {
                let mut out = text::concat(
                    "WinRM HTTP status ",
                    text::decimal_text(*status as u64).as_str(),
                );
                out.append(": ");
                out.append(body.as_str());
                out
            },
            WinrmError::AuthFailed(m) => text::concat("WinRM auth failed: ", m.as_str()),
            WinrmError::Ntlm(e) => text::concat("WinRM NTLM error: ", e.message().as_str()),
            WinrmError::Soap(e) => text::concat("WinRM SOAP error: ", e.message().as_str()),
            WinrmError::Timeout(secs) => {
                let mut out = text::concat(
                    "WinRM operation timed out after ",
                    text::decimal_text(*secs).as_str(),
                );
                out.append("s");
                out
            },
            WinrmError::Transfer(m) => text::concat("file transfer error: ", m.as_str()),
            WinrmError::Cancelled => "operation cancelled".to_owned(),
            WinrmError::CredSsp(e) => text::concat("CredSSP error: ", e.message().as_str()),
            WinrmError::Psrp(m) => text::concat("WinRM PSRP error: ", m.as_str()),
        }
    }

    /// Maps a non-success HTTP response to an error.
    ///
    /// `fault` is the SOAP error found in the body, if there is one. A 401 is an
    /// authentication rejection, a 500 with a fault is that fault, and anything else keeps
    /// its status and body.
    pub fn from_http_status(status: u16, body: String, fault: Option<SoapError>) -> (r: Self)
        ensures
            r@ == http_status_error(status, body@, fault_view(fault)),
    {
        if status == 401 {
            let mut m = text::concat("HTTP ", text::decimal_text(status as u64).as_str());
            m.append(": ");
            m.append(body.as_str());
            return WinrmError::AuthFailed(m);
        }
        if status == 500 {
            if let Some(e) = fault {
                return WinrmError::Soap(e);
            }
        }
        WinrmError::HttpStatus { status, body }
    }
}

/// A response status is taken for an authentication rejection if and only if it is 401, and
/// then whatever the body holds.
pub proof fn law_only_401_is_auth_failed(
    status: u16,
    body: Seq<char>,
    fault: Option<SoapErrorView>,
)
    ensures
        http_status_error(status, body, fault) is AuthFailed <==> status == 401,
        http_status_error(status, body, fault) matches WinrmErrorView::HttpStatus { status: s, .. }
            ==> s != 401,
{
}

/// What an error shows: what it is about, and then all of its details.
pub proof fn law_error_messages(
    m: Seq<char>,
    code: Seq<char>,
    status: u16,
    secs: u64,
    number: u32,
    ntlm: NtlmErrorView,
    soap: SoapErrorView,
    credssp: CredSspErrorView,
)
    ensures
        WinrmErrorView::Http(m).text() == "WinRM HTTP error: "@ + m,
        (WinrmErrorView::HttpStatus { status, body: m }).text() == "WinRM HTTP status "@
            + text::decimal(status as nat) + ": "@ + m,
        WinrmErrorView::AuthFailed(m).text() == "WinRM auth failed: "@ + m,
        WinrmErrorView::Ntlm(ntlm).text() == "WinRM NTLM error: "@ + ntlm.text(),
        WinrmErrorView::Soap(soap).text() == "WinRM SOAP error: "@ + soap.text(),
        WinrmErrorView::Timeout(secs).text() == "WinRM operation timed out after "@ + text::decimal(
            secs as nat,
        ) + "s"@,
        WinrmErrorView::Transfer(m).text() == "file transfer error: "@ + m,
        WinrmErrorView::Cancelled.text() == "operation cancelled"@,
        WinrmErrorView::CredSsp(credssp).text() == "CredSSP error: "@ + credssp.text(),
        WinrmErrorView::Psrp(m).text() == "WinRM PSRP error: "@ + m,
        NtlmErrorView::InvalidMessage(m).text() == "NTLM error: "@ + m,
        SoapErrorView::MissingElement(m).text() == "missing element: "@ + m,
        SoapErrorView::ParseError(m).text() == "parse error: "@ + m,
        (SoapErrorView::Fault { code, reason: m }).text() == "SOAP fault ["@ + code + "]: "@ + m,
        CredSspErrorView::Asn1Decode(m).text() == "ASN.1 decode error: "@ + m,
        CredSspErrorView::PublicKeyMismatch.text() == "server public key mismatch"@,
        CredSspErrorView::ServerError(number).text() == "server error: 0x"@ + text::hex(
            number as nat,
            8,
        ),
{
}

/// What a response without success stands for: a rejected authentication for a 401, the fault for
/// a 500 that holds one, and otherwise its status and its body.
pub proof fn law_response_error(status: u16, body: Seq<char>, fault: Option<SoapErrorView>)
    ensures
        status == 401 ==> http_status_error(status, body, fault) == WinrmErrorView::AuthFailed(
            "HTTP "@ + text::decimal(401) + ": "@ + body,
        ),
        status == 500 ==> (fault matches Some(e) ==> http_status_error(status, body, fault)
            == WinrmErrorView::Soap(e)),
        status != 401 && (status != 500 || fault is None) ==> http_status_error(status, body, fault)
            == (WinrmErrorView::HttpStatus { status, body }),
{
}

} // verus!
