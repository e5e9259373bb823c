//! The three-message exchange that authenticates a connection.
//!
//! The caller sends the negotiate message, hands its reply to [`read_challenge`], sends what
//! [`authenticate_request`] builds, and hands that reply to [`read_authenticated`] and
//! [`settle_authenticated`].

use vstd::prelude::*;
use vstd::slice::slice_subrange;
use vstd::utf8::encode_utf8;

use crate::base64_text;
use crate::codec;
use crate::error;
use crate::error::{SoapError, SoapErrorView, WinrmError, WinrmErrorView};
use crate::ntlm::reply;
use crate::ntlm::sealing;
use crate::ntlm::session;
use crate::ntlm::session::{NtlmSession, SessionView};
use crate::search;
use crate::text;
use crate::text::Blank;

verus! {

/// Content type of a plain body.
pub const SOAP_CONTENT_TYPE: &'static str = "application/soap+xml;charset=UTF-8";

/// What precedes the token of a challenge.
pub const CHALLENGE_PREFIX: &'static str = "Negotiate ";

/// The view of an optional text.
pub open spec fn optional_text(t: Option<String>) -> Option<Seq<char>> {
    match t {
        Some(s) => Some(s@),
        None => None,
    }
}

/// The token of a challenge, in Base64, from the reply to a negotiate message.
///
/// `status_text` is the status as it is shown to people.
pub open spec fn challenge_token(
    status: u16,
    status_text: Seq<char>,
    www_authenticate: Option<Seq<char>>,
) -> Result<Seq<char>, WinrmErrorView> {
    if status != 401 {
        Err(
            WinrmErrorView::AuthFailed(
                "expected 401 for NTLM negotiate, got "@ + status_text,
            ),
        )
    } else {
        match www_authenticate {
            None => Err(WinrmErrorView::AuthFailed("missing WWW-Authenticate header in 401"@)),
            Some(header) => if search::starts_with(header, CHALLENGE_PREFIX@) {
                Ok(text::trim(header.skip(CHALLENGE_PREFIX@.len() as int), Blank::Ascii))
            } else {
                Err(WinrmErrorView::AuthFailed("missing Negotiate prefix in challenge"@))
            },
        }
    }
}

/// The bytes of a challenge, where decoding its token comes to the given result.
pub open spec fn challenge_bytes(decoded: Result<Seq<u8>, Seq<char>>) -> Result<
    Seq<u8>,
    WinrmErrorView,
> {
    match decoded {
        Ok(bytes) => Ok(bytes),
        Err(message) => Err(WinrmErrorView::AuthFailed("base64 decode: "@ + message)),
    }
}

/// The bytes of a challenge, from the reply to a negotiate message.
pub open spec fn challenge(
    status: u16,
    status_text: Seq<char>,
    www_authenticate: Option<Seq<char>>,
) -> Result<Seq<u8>, WinrmErrorView> {
    match challenge_token(status, status_text, www_authenticate) {
        Ok(token) => challenge_bytes(base64_text::base64_decoded(token)),
        Err(e) => Err(e),
    }
}

/// The view of a result that holds bytes.
pub open spec fn bytes_result(r: Result<Vec<u8>, WinrmError>) -> Result<
    Seq<u8>,
    WinrmErrorView,
> {
    match r {
        Ok(bytes) => Ok(bytes@),
        Err(e) => Err(e@),
    }
}

/// The view of what decoding returns.
pub open spec fn decoded_view(r: Result<Vec<u8>, String>) -> Result<Seq<u8>, Seq<char>> {
    match r {
        Ok(bytes) => Ok(bytes@),
        Err(message) => Err(message@),
    }
}

/// Takes the token of a challenge out of the reply to a negotiate message.
pub fn read_token(status: u16, status_text: &str, www_authenticate: Option<String>) -> (r: Result<
    String,
    WinrmError,
>)
    ensures
        error::text_result(r) == challenge_token(
            status,
            status_text@,
            optional_text(www_authenticate),
        ),
{
    if status != 401 {
        return Err(
            WinrmError::AuthFailed(
                text::concat("expected 401 for NTLM negotiate, got ", status_text),
            ),
        );
    }
    match www_authenticate {
        None => Err(
            WinrmError::AuthFailed("missing WWW-Authenticate header in 401".to_owned()),
        ),
        Some(header) => {
            let chars = text::chars_of(header.as_str());
            let prefix = text::chars_of(CHALLENGE_PREFIX);
            if !search::stands_at(chars.as_slice(), prefix.as_slice(), 0) {
                return Err(
                    WinrmError::AuthFailed("missing Negotiate prefix in challenge".to_owned()),
                );
            }
            let token = slice_subrange(chars.as_slice(), prefix.len(), chars.len());
            assert(token@ =~= header@.skip(CHALLENGE_PREFIX@.len() as int));
            Ok(text::string_of(text::trimmed(token, Blank::Ascii)))
        },
    }
}

/// Settles what decoding the token of a challenge comes to.
pub fn settle_token(decoded: Result<Vec<u8>, String>) -> (r: Result<Vec<u8>, WinrmError>)
    ensures
        bytes_result(r) == challenge_bytes(decoded_view(decoded)),
{
    match decoded {
        Ok(bytes) => Ok(bytes),
        Err(message) => Err(
            WinrmError::AuthFailed(text::concat("base64 decode: ", message.as_str())),
        ),
    }
}

/// Takes the challenge out of the reply to a negotiate message.
pub fn read_challenge(
    status: u16,
    status_text: &str,
    www_authenticate: Option<String>,
) -> (r: Result<Vec<u8>, WinrmError>)
    ensures
        bytes_result(r) == challenge(status, status_text@, optional_text(www_authenticate)),
{
    match read_token(status, status_text, www_authenticate) {
        Ok(token) => settle_token(base64_text::decode(token.as_str())),
        Err(e) => Err(e),
    }
}

/// The host part of a URL, or all of it if its scheme is another than HTTP.
pub open spec fn url_host(url: Seq<char>) -> Seq<char> {
    if search::starts_with(url, "http://"@) {
        search::before_first(url.skip("http://"@.len() as int), "/"@)
    } else if search::starts_with(url, "https://"@) {
        search::before_first(url.skip("https://"@.len() as int), "/"@)
    } else {
        url
    }
}

/// What follows `prefix`, up to the first slash, if `url` begins with it.
fn host_after(url: &[char], prefix: &str) -> (r: Option<String>)
    ensures
        match r {
            Some(host) => search::starts_with(url@, prefix@) && host@ == search::before_first(
                url@.skip(prefix@.len() as int),
                "/"@,
            ),
            None => !search::starts_with(url@, prefix@),
        },
{
    let p = text::chars_of(prefix);
    if !search::stands_at(url, p.as_slice(), 0) {
        return None;
    }
    let rest = slice_subrange(url, p.len(), url.len());
    assert(rest@ =~= url@.skip(prefix@.len() as int));
    let host = match search::find_in(rest, text::chars_of("/").as_slice()) {
        Some(i) => slice_subrange(rest, 0, i),
        None => rest,
    };
    assert(host@ =~= search::before_first(rest@, "/"@));
    Some(text::string_of(host))
}

/// The service principal name that authentication to a URL is bound to.
pub fn target_name(url: &str) -> (r: String)
    ensures
        r@ == "http/"@ + url_host(url@),
{
    let chars = text::chars_of(url);
    let host = match host_after(chars.as_slice(), "http://") {
        Some(host) => host,
        None => match host_after(chars.as_slice(), "https://") {
            Some(host) => host,
            None => url.to_owned(),
        },
    };
    text::concat("http/", host.as_str())
}

/// What is known of the server's certificate.
#[derive(Debug)]
pub enum ServerCert {
    /// The connection is not encrypted.
    Unused,
    /// The connection is encrypted, but the certificate was not captured.
    Missing,
    /// The certificate, in DER form.
    Captured(Vec<u8>),
}

/// What an authenticate message is bound to.
#[derive(Debug)]
pub enum Binding {
    /// To the TLS channel, through the server's certificate.
    Channel(Vec<u8>),
    /// To the messages before it. `degraded` tells that the TLS channel should have been used.
    Messages { degraded: bool },
}

/// What a [`ServerCert`] holds.
pub enum ServerCertView {
    Unused,
    Missing,
    Captured(Seq<u8>),
}

/// What a [`Binding`] holds.
pub enum BindingView {
    Channel(Seq<u8>),
    Messages { degraded: bool },
}

impl View for ServerCert {
    type V = ServerCertView;

    open spec fn view(&self) -> ServerCertView {
        match self {
            ServerCert::Unused => ServerCertView::Unused,
            ServerCert::Missing => ServerCertView::Missing,
            ServerCert::Captured(der) => ServerCertView::Captured(der@),
        }
    }
}

impl View for Binding {
    type V = BindingView;

    open spec fn view(&self) -> BindingView {
        match self {
            Binding::Channel(der) => BindingView::Channel(der@),
            Binding::Messages { degraded } => BindingView::Messages { degraded: *degraded },
        }
    }
}

/// What an authenticate message is bound to: the channel if its certificate is known, and the
/// messages otherwise.
pub open spec fn binding_for(cert: ServerCertView) -> BindingView {
    match cert {
        ServerCertView::Captured(der) => BindingView::Channel(der),
        ServerCertView::Missing => BindingView::Messages { degraded: true },
        ServerCertView::Unused => BindingView::Messages { degraded: false },
    }
}

/// Chooses what an authenticate message is bound to.
pub fn choose_binding(cert: ServerCert) -> (r: Binding)
    ensures
        r@ == binding_for(cert@),
{
    match cert {
        ServerCert::Captured(der) => Binding::Channel(der),
        ServerCert::Missing => Binding::Messages { degraded: true },
        ServerCert::Unused => Binding::Messages { degraded: false },
    }
}

/// The request that carries the authenticate message.
#[derive(Debug)]
pub struct AuthenticateRequest {
    pub content_type: String,
    pub body: Vec<u8>,
    /// The length is declared as zero explicitly: a POST without a body is refused otherwise.
    pub declare_empty: bool,
    /// The session under which the body is sealed, if it is.
    pub session: Option<NtlmSession>,
}

/// Builds the request that carries the authenticate message.
///
/// With `seal` the body is sealed under a fresh session for the agreed key.
pub fn authenticate_request(body: &str, seal: bool, session_key: &[u8; 16]) -> (r:
    AuthenticateRequest)
    ensures
        ({
            let plain = encode_utf8(body@);
            let session = SessionView::from_auth(session_key@);
            if seal {
                &&& r.content_type@ == sealing::ENCRYPTED_CONTENT_TYPE@
                &&& r.body@ == sealing::framed(plain.len(), session.outgoing.sealed(plain))
                &&& session::optional_view(r.session) == Some(session.after_seal(plain))
            } else {
                &&& r.content_type@ == SOAP_CONTENT_TYPE@
                &&& r.body@ == plain
                &&& r.session is None
            }
        }),
        r.declare_empty == (r.body@.len() == 0),
{
    if seal {
        let mut session = NtlmSession::from_auth(session_key);
        let (content_type, bytes) = sealing::seal_body(&mut session, body);
        let declare_empty = bytes.len() == 0;
        AuthenticateRequest { content_type, body: bytes, declare_empty, session: Some(session) }
    } else {
        let mut bytes: Vec<u8> = Vec::new();
        bytes.extend_from_slice(body.as_bytes());
        assert(bytes@ =~= encode_utf8(body@));
        let declare_empty = bytes.len() == 0;
        AuthenticateRequest {
            content_type: SOAP_CONTENT_TYPE.to_owned(),
            body: bytes,
            declare_empty,
            session: None,
        }
    }
}

/// The text of the reply to an authenticate message.
///
/// Only a 401 rejects the credentials. The reply to an empty body is not read.
pub open spec fn authenticated_text(
    session: Option<SessionView>,
    empty: bool,
    status: u16,
    data: Seq<u8>,
) -> Result<Seq<char>, WinrmErrorView> {
    if status == 401 {
        Err(
            WinrmErrorView::AuthFailed(
                "NTLM authentication rejected (bad credentials or CBT mismatch)"@,
            ),
        )
    } else if empty {
        Ok(Seq::empty())
    } else {
        match session {
            Some(s) => reply::reply_text(
                s,
                search::contains(data, encode_utf8(sealing::SEALED_MARK@)),
                status,
                data,
            ),
            None => Ok(codec::utf8_lossy(data)),
        }
    }
}

/// What the reply to an authenticate message comes to once its text is known.
pub open spec fn authenticated_outcome(
    empty: bool,
    status: u16,
    body: Seq<char>,
    fault: Option<SoapErrorView>,
) -> Result<Seq<char>, WinrmErrorView> {
    if empty {
        Ok(body)
    } else {
        reply::outcome(status, body, fault)
    }
}

/// What the reply to an authenticate message comes to, where `fault` is the SOAP error found in
/// its text, if there is one.
pub open spec fn authenticated(
    session: Option<SessionView>,
    empty: bool,
    status: u16,
    data: Seq<u8>,
    fault: Option<SoapErrorView>,
) -> Result<Seq<char>, WinrmErrorView> {
    match authenticated_text(session, empty, status, data) {
        Ok(body) => authenticated_outcome(empty, status, body, fault),
        Err(e) => Err(e),
    }
}

/// Reads the reply to an authenticate message.
///
/// `empty` tells that the request carried an empty SOAP body.
pub fn read_authenticated(
    session: Option<NtlmSession>,
    empty: bool,
    status: u16,
    data: &[u8],
) -> (r: Result<String, WinrmError>)
    ensures
        error::text_result(r) == authenticated_text(
            session::optional_view(session),
            empty,
            status,
            data@,
        ),
{
    if status == 401 {
        return Err(
            WinrmError::AuthFailed(
                "NTLM authentication rejected (bad credentials or CBT mismatch)".to_owned(),
            ),
        );
    }
    if empty {
        return Ok(String::new());
    }
    match session {
        Some(s) => {
            let mut s = s;
            let sealed = reply::mentions(data, sealing::SEALED_MARK);
            reply::read_reply(&mut s, sealed, status, data)
        },
        None => Ok(codec::string_from_utf8_lossy(data)),
    }
}

/// Settles what the reply to an authenticate message comes to once its text is known.
pub fn settle_authenticated(
    empty: bool,
    status: u16,
    body: String,
    fault: Option<SoapError>,
) -> (r: Result<String, WinrmError>)
    ensures
        error::text_result(r) == authenticated_outcome(
            empty,
            status,
            body@,
            error::fault_view(fault),
        ),
{
    if empty {
        return Ok(body);
    }
    reply::settle(status, body, fault)
}

/// The credentials count as rejected if and only if the server answers the authenticate message
/// with a 401.
pub proof fn law_only_401_rejects_credentials(
    session: Option<SessionView>,
    empty: bool,
    status: u16,
    data: Seq<u8>,
    fault: Option<SoapErrorView>,
)
    ensures
        (authenticated(session, empty, status, data, fault) matches Err(
            WinrmErrorView::AuthFailed(_),
        )) <==> status == 401,
{
}

/// An empty body establishes the session whatever the status, short of a 401.
pub proof fn law_blank_authentication_succeeds(
    session: Option<SessionView>,
    status: u16,
    data: Seq<u8>,
    fault: Option<SoapErrorView>,
)
    requires
        status != 401,
    ensures
        authenticated(session, true, status, data, fault) == Ok::<Seq<char>, WinrmErrorView>(
            Seq::empty(),
        ),
{
}

} // verus!
