//! Sealed requests over a cached session.
//!
//! A caller begins with [`SealedExchange::begin`], does what each step says, and reports what
//! came of it. A session that worked is kept for the next request to the same host.

use vstd::prelude::*;
use vstd::utf8::encode_utf8;

use crate::error;
use crate::error::{SoapError, SoapErrorView, WinrmError, WinrmErrorView};
use crate::ntlm::authentication;
use crate::ntlm::authentication::{Authentication, AuthenticationView};
use crate::ntlm::handshake;
use crate::ntlm::reply;
use crate::ntlm::sealing;
use crate::ntlm::session;
use crate::ntlm::session::{NtlmSession, SessionView};
use crate::search;

verus! {

/// What marks a reply as sealed even without a boundary.
pub const OCTET_STREAM_MARK: &'static str = "application/octet-stream";

/// The reply is taken for sealed. Faults are sealed no less than successful replies.
pub open spec fn looks_sealed(data: Seq<u8>) -> bool {
    search::contains(data, encode_utf8(sealing::SEALED_MARK@)) || search::contains(
        data,
        encode_utf8(OCTET_STREAM_MARK@),
    )
}

/// The text of the reply to a sealed request.
pub open spec fn sealed_reply_text(session: SessionView, status: u16, data: Seq<u8>) -> Result<
    Seq<char>,
    WinrmErrorView,
> {
    if status == 401 {
        Err(WinrmErrorView::AuthFailed("NTLM session expired"@))
    } else {
        reply::reply_text(session, looks_sealed(data), status, data)
    }
}

/// The session after reading the reply to a sealed request.
pub open spec fn after_sealed_reply(
    session: SessionView,
    status: u16,
    data: Seq<u8>,
) -> SessionView {
    if status == 401 {
        session
    } else {
        reply::session_after_reply(session, looks_sealed(data), data)
    }
}

/// What the reply to a sealed request comes to, where `fault` is the SOAP error found in its
/// text, if there is one.
pub open spec fn sealed_outcome(
    session: SessionView,
    status: u16,
    data: Seq<u8>,
    fault: Option<SoapErrorView>,
) -> Result<Seq<char>, WinrmErrorView> {
    match sealed_reply_text(session, status, data) {
        Ok(body) => reply::outcome(status, body, fault),
        Err(e) => Err(e),
    }
}

/// Reads the reply to a sealed request.
pub fn read_sealed_reply(session: &mut NtlmSession, status: u16, data: &[u8]) -> (r: Result<
    String,
    WinrmError,
>)
    ensures
        error::text_result(r) == sealed_reply_text(old(session)@, status, data@),
        final(session)@ == after_sealed_reply(old(session)@, status, data@),
{
    if status == 401 {
        return Err(WinrmError::AuthFailed("NTLM session expired".to_owned()));
    }
    let sealed = reply::mentions(data, sealing::SEALED_MARK) || reply::mentions(
        data,
        OCTET_STREAM_MARK,
    );
    reply::read_reply(session, sealed, status, data)
}

/// A session that worked, and the host that it was agreed with.
#[derive(Debug)]
pub struct CachedSession {
    pub host: String,
    pub session: NtlmSession,
}

/// What a [`CachedSession`] holds.
#[verifier::ext_equal]
pub struct CacheView {
    pub host: Seq<char>,
    pub session: SessionView,
}

impl View for CachedSession {
    type V = CacheView;

    open spec fn view(&self) -> CacheView {
        CacheView { host: self.host@, session: self.session@ }
    }
}

/// The view of a cache.
pub open spec fn cache_view(cache: Option<CachedSession>) -> Option<CacheView> {
    match cache {
        Some(c) => Some(c@),
        None => None,
    }
}

/// Where an exchange stands.
#[derive(Clone, Copy, Debug)]
pub enum Stage {
    /// The request was sealed under the cached session.
    Cached,
    /// A session is being agreed on, with an empty body.
    Handshake,
    /// The request was sealed under the new session.
    Fresh,
    /// The request is sealed in a handshake of its own.
    Fallback,
    /// Nothing is left to do.
    Over,
}

/// What the caller does next.
#[derive(Debug)]
pub enum Step {
    /// Send a sealed request.
    Send { content_type: String, body: Vec<u8> },
    /// Look for a SOAP fault in a text.
    FindFault { text: String },
    /// Authenticate with an empty body.
    BlankHandshake,
    /// Authenticate with the sealed body.
    SealedHandshake,
    /// Return.
    Done(Result<String, WinrmError>),
}

/// What a [`Step`] holds.
pub enum StepView {
    Send { content_type: Seq<char>, body: Seq<u8> },
    FindFault { text: Seq<char> },
    BlankHandshake,
    SealedHandshake,
    Done(Result<Seq<char>, WinrmErrorView>),
}

impl View for Step {
    type V = StepView;

    open spec fn view(&self) -> StepView {
        match self {
            Step::Send { content_type, body } => StepView::Send {
                content_type: content_type@,
                body: body@,
            },
            Step::FindFault { text } => StepView::FindFault { text: text@ },
            Step::BlankHandshake => StepView::BlankHandshake,
            Step::SealedHandshake => StepView::SealedHandshake,
            Step::Done(r) => StepView::Done(error::text_result(*r)),
        }
    }
}

/// The state of an exchange.
#[verifier::ext_equal]
pub struct ExchangeView {
    pub host: Seq<char>,
    pub body: Seq<char>,
    pub stage: Stage,
    /// The session under which the request was sealed.
    pub session: Option<SessionView>,
    /// Status and text of a reply that tells of a failure.
    pub failure: Option<(u16, Seq<char>)>,
    /// The session that is kept for the next request.
    pub cache: Option<CacheView>,
}

/// One sealed request, until its result is known.
#[derive(Debug)]
pub struct SealedExchange {
    host: String,
    body: String,
    stage: Stage,
    session: Option<NtlmSession>,
    failure: Option<(u16, String)>,
    cache: Option<CachedSession>,
}

impl View for SealedExchange {
    type V = ExchangeView;

    closed spec fn view(&self) -> ExchangeView {
        ExchangeView {
            host: self.host@,
            body: self.body@,
            stage: self.stage,
            session: session::optional_view(self.session),
            failure: authentication::failure_view(self.failure),
            cache: cache_view(self.cache),
        }
    }
}

/// The step that sends a body sealed under a session.
pub open spec fn sealed_send(session: SessionView, body: Seq<char>) -> StepView {
    let plain = encode_utf8(body);
    StepView::Send {
        content_type: sealing::ENCRYPTED_CONTENT_TYPE@,
        body: sealing::framed(plain.len(), session.outgoing.sealed(plain)),
    }
}

impl ExchangeView {
    /// A request is under way exactly where a session is in use, and only then can its reply
    /// tell of a failure.
    pub open spec fn wf(self) -> bool {
        &&& self.stage is Cached || self.stage is Fresh <==> self.session is Some
        &&& self.failure is Some ==> self.session is Some
        &&& !(self.stage is Over) ==> self.cache is None
    }

    /// The reply to the sealed request is awaited.
    pub open spec fn is_waiting(self) -> bool {
        (self.stage is Cached || self.stage is Fresh) && self.failure is None
    }

    /// The exchange with its request sealed under a session.
    pub open spec fn sending(self, stage: Stage, session: SessionView) -> (ExchangeView, StepView) {
        (
            ExchangeView {
                stage,
                session: Some(session.after_seal(encode_utf8(self.body))),
                ..self
            },
            sealed_send(session, self.body),
        )
    }

    /// The exchange with its result known.
    pub open spec fn done(
        self,
        cache: Option<CacheView>,
        result: Result<Seq<char>, WinrmErrorView>,
    ) -> (ExchangeView, StepView) {
        (ExchangeView { stage: Stage::Over, session: None, cache, ..self }, StepView::Done(result))
    }
}

/// How an exchange begins.
///
/// A session for another host is dropped.
pub open spec fn begun(cache: Option<CacheView>, host: Seq<char>, body: Seq<char>) -> (
    ExchangeView,
    StepView,
) {
    let start = ExchangeView {
        host,
        body,
        stage: Stage::Handshake,
        session: None,
        failure: None,
        cache: None,
    };
    match cache {
        Some(c) => if c.host == host {
            start.sending(Stage::Cached, c.session)
        } else {
            (start, StepView::BlankHandshake)
        },
        None => (start, StepView::BlankHandshake),
    }
}

/// How an exchange goes on when the result of its sealed request is known.
///
/// Only a rejected session is given up; any other error is returned.
pub open spec fn after_request(x: ExchangeView, result: Result<Seq<char>, WinrmErrorView>) -> (
    ExchangeView,
    StepView,
) {
    let kept = Some(CacheView { host: x.host, session: x.session->0 });
    match (x.stage, result) {
        (Stage::Cached, Err(WinrmErrorView::AuthFailed(_))) => (
            ExchangeView { stage: Stage::Handshake, session: None, ..x },
            StepView::BlankHandshake,
        ),
        (Stage::Cached, _) => x.done(kept, result),
        (_, Err(WinrmErrorView::AuthFailed(_))) => (
            ExchangeView { stage: Stage::Fallback, session: None, ..x },
            StepView::SealedHandshake,
        ),
        (_, Ok(_)) => x.done(kept, result),
        (_, Err(_)) => x.done(None, result),
    }
}

/// How an exchange goes on after the reply to its sealed request.
///
/// Only an internal server error can hold a SOAP fault.
pub open spec fn after_reply(x: ExchangeView, status: u16, data: Seq<u8>) -> (
    ExchangeView,
    StepView,
) {
    let read = ExchangeView {
        session: Some(after_sealed_reply(x.session->0, status, data)),
        ..x
    };
    match sealed_reply_text(x.session->0, status, data) {
        Err(e) => after_request(read, Err(e)),
        Ok(text) => if status == 500 {
            (
                ExchangeView { failure: Some((status, text)), ..read },
                StepView::FindFault { text },
            )
        } else {
            after_request(read, reply::outcome(status, text, None))
        },
    }
}

/// How an exchange goes on when a failing reply was searched for a fault.
pub open spec fn after_fault(x: ExchangeView, fault: Option<SoapErrorView>) -> (
    ExchangeView,
    StepView,
) {
    let (status, text) = x.failure->0;
    after_request(ExchangeView { failure: None, ..x }, reply::outcome(status, text, fault))
}

/// How an exchange goes on when its sealed request could not be sent, or its reply not be
/// received.
pub open spec fn after_transport_error(x: ExchangeView, message: Seq<char>) -> (
    ExchangeView,
    StepView,
) {
    after_request(x, Err(WinrmErrorView::Http(message)))
}

/// How an exchange goes on when a session was agreed on, or not.
pub open spec fn after_handshake(x: ExchangeView, key: Result<Seq<u8>, WinrmErrorView>) -> (
    ExchangeView,
    StepView,
) {
    match key {
        Ok(k) => x.sending(Stage::Fresh, SessionView::from_auth(k)),
        Err(e) => x.done(None, Err(e)),
    }
}

/// The session that an exchange leaves for the next request, wherever it stands.
///
/// The cached session outlives an exchange that is given up while it is in use.
pub open spec fn left_cache(x: ExchangeView) -> Option<CacheView> {
    match (x.stage, x.session) {
        (Stage::Cached, Some(session)) => Some(CacheView { host: x.host, session }),
        (Stage::Cached, None) => None,
        _ => x.cache,
    }
}

/// The authentication that a handshake step asks for: with an empty body to agree on a session,
/// and with the sealed body as a last resort.
pub open spec fn asked_authentication(x: ExchangeView, url: Seq<char>) -> AuthenticationView {
    if x.stage is Handshake {
        AuthenticationView::new(url, ""@, false)
    } else {
        AuthenticationView::new(url, x.body, true)
    }
}

/// How an exchange ends when the request was sent in a handshake of its own.
pub open spec fn after_sealed_handshake(
    x: ExchangeView,
    result: Result<(Seq<char>, Seq<u8>), WinrmErrorView>,
) -> (ExchangeView, StepView) {
    match result {
        Ok((body, key)) => x.done(
            Some(CacheView { host: x.host, session: SessionView::from_auth(key) }),
            Ok(body),
        ),
        Err(e) => x.done(None, Err(e)),
    }
}

/// The view of an agreed key.
pub open spec fn key_view(key: Result<&[u8; 16], WinrmError>) -> Result<Seq<u8>, WinrmErrorView> {
    match key {
        Ok(k) => Ok(k@),
        Err(e) => Err(e@),
    }
}

/// The view of a reply with an agreed key.
pub open spec fn keyed_reply_view(reply: Result<(String, &[u8; 16]), WinrmError>) -> Result<
    (Seq<char>, Seq<u8>),
    WinrmErrorView,
> {
    match reply {
        Ok((body, key)) => Ok((body@, key@)),
        Err(e) => Err(e@),
    }
}

/// Seals a body into the step that sends it.
fn send_step(session: &mut NtlmSession, body: &str) -> (r: Step)
    ensures
        r@ == sealed_send(old(session)@, body@),
        final(session)@ == old(session)@.after_seal(encode_utf8(body@)),
{
    let (content_type, bytes) = sealing::seal_body(session, body);
    Step::Send { content_type, body: bytes }
}

impl SealedExchange {
    /// Begins an exchange. `cache` is the session that an earlier one kept.
    pub fn begin(cache: Option<CachedSession>, host: String, body: String) -> (r: (
        SealedExchange,
        Step,
    ))
        ensures
            r.0@ == begun(cache_view(cache), host@, body@).0,
            r.1@ == begun(cache_view(cache), host@, body@).1,
            r.0@.wf(),
    {
        if let Some(c) = cache {
            if c.host == host {
                let mut session = c.session;
                let step = send_step(&mut session, body.as_str());
                let x = SealedExchange {
                    host,
                    body,
                    stage: Stage::Cached,
                    session: Some(session),
                    failure: None,
                    cache: None,
                };
                return (x, step);
            }
        }
        let x = SealedExchange {
            host,
            body,
            stage: Stage::Handshake,
            session: None,
            failure: None,
            cache: None,
        };
        (x, Step::BlankHandshake)
    }

    /// Where the exchange stands.
    pub fn stage(&self) -> (r: Stage)
        ensures
            r == self@.stage,
    {
        self.stage
    }

    /// Begins the authentication that a handshake step asks for.
    pub fn authenticate(&self, url: &str) -> (r: (Authentication, authentication::Step))
        requires
            self@.stage is Handshake || self@.stage is Fallback,
        ensures
            r.0@ == asked_authentication(self@, url@),
            r.0@.wf(),
            r.1@ == (authentication::StepView::Negotiate {
                content_type: handshake::SOAP_CONTENT_TYPE@,
            }),
    {
        match self.stage {
            Stage::Handshake => Authentication::plain(url, ""),
            _ => Authentication::sealed(url, self.body.as_str()),
        }
    }

    /// The session that is kept for the next request, also if the exchange is given up.
    pub fn into_cache(self) -> (r: Option<CachedSession>)
        ensures
            cache_view(r) == left_cache(self@),
    {
        match self.stage {
            Stage::Cached => match self.session {
                Some(session) => Some(CachedSession { host: self.host, session }),
                None => None,
            },
            _ => self.cache,
        }
    }

    /// Takes in the reply to the sealed request.
    pub fn on_reply(&mut self, status: u16, data: &[u8]) -> (r: Step)
        requires
            old(self)@.wf(),
            old(self)@.is_waiting(),
        ensures
            final(self)@ == after_reply(old(self)@, status, data@).0,
            r@ == after_reply(old(self)@, status, data@).1,
            final(self)@.wf(),
    {
        let text = match self.session.take() {
            Some(s) => {
                let mut session = s;
                let r = read_sealed_reply(&mut session, status, data);
                self.session = Some(session);
                r
            },
            None => Ok(String::new()),
        };
        match text {
            Err(e) => self.on_request(Err(e)),
            Ok(text) => {
                if status == 500 {
                    let copy = text.as_str().to_owned();
                    self.failure = Some((status, text));
                    Step::FindFault { text: copy }
                } else {
                    self.on_request(reply::settle(status, text, None))
                }
            },
        }
    }

    /// Takes in the SOAP error found in the text of a failing reply, if there is one.
    pub fn on_fault(&mut self, fault: Option<SoapError>) -> (r: Step)
        requires
            old(self)@.wf(),
            old(self)@.failure is Some,
        ensures
            final(self)@ == after_fault(old(self)@, error::fault_view(fault)).0,
            r@ == after_fault(old(self)@, error::fault_view(fault)).1,
            final(self)@.wf(),
    {
        let (status, text): (u16, String) = match self.failure.take() {
            Some(failure) => failure,
            None => (0, String::new()),
        };
        self.on_request(reply::settle(status, text, fault))
    }

    /// Takes in the message of the transport error that the sealed request ended in.
    pub fn on_transport_error(&mut self, message: String) -> (r: Step)
        requires
            old(self)@.wf(),
            old(self)@.is_waiting(),
        ensures
            final(self)@ == after_transport_error(old(self)@, message@).0,
            r@ == after_transport_error(old(self)@, message@).1,
            final(self)@.wf(),
    {
        self.on_request(Err(WinrmError::Http(message)))
    }

    /// Takes in the result of the sealed request.
    fn on_request(&mut self, result: Result<String, WinrmError>) -> (r: Step)
        requires
            old(self)@.wf(),
            old(self)@.is_waiting(),
        ensures
            final(self)@ == after_request(old(self)@, error::text_result(result)).0,
            r@ == after_request(old(self)@, error::text_result(result)).1,
            final(self)@.wf(),
    {
        let session = self.session.take();
        match self.stage {
            Stage::Cached => match result {
                Err(WinrmError::AuthFailed(_)) => {
                    self.stage = Stage::Handshake;
                    Step::BlankHandshake
                },
                result => {
                    self.keep(session);
                    self.stage = Stage::Over;
                    Step::Done(result)
                },
            },
            _ => match result {
                Err(WinrmError::AuthFailed(_)) => {
                    self.stage = Stage::Fallback;
                    Step::SealedHandshake
                },
                Ok(body) => {
                    self.keep(session);
                    self.stage = Stage::Over;
                    Step::Done(Ok(body))
                },
                Err(e) => {
                    self.stage = Stage::Over;
                    Step::Done(Err(e))
                },
            },
        }
    }

    /// Keeps a session for the next request.
    fn keep(&mut self, session: Option<NtlmSession>)
        requires
            session is Some,
        ensures
            final(self)@ == (ExchangeView {
                cache: Some(CacheView { host: old(self)@.host, session: session->0@ }),
                ..old(self)@
            }),
    {
        if let Some(session) = session {
            self.cache = Some(CachedSession { host: self.host.as_str().to_owned(), session });
        }
    }

    /// Takes in the key that was agreed on with an empty body.
    pub fn on_handshake(&mut self, key: Result<&[u8; 16], WinrmError>) -> (r: Step)
        requires
            old(self)@.wf(),
            old(self)@.stage is Handshake,
        ensures
            final(self)@ == after_handshake(old(self)@, key_view(key)).0,
            r@ == after_handshake(old(self)@, key_view(key)).1,
            final(self)@.wf(),
    {
        match key {
            Ok(key) => {
                let mut session = NtlmSession::from_auth(key);
                let step = send_step(&mut session, self.body.as_str());
                self.session = Some(session);
                self.stage = Stage::Fresh;
                step
            },
            Err(e) => {
                self.stage = Stage::Over;
                Step::Done(Err(e))
            },
        }
    }

    /// Takes in the reply to the handshake that carried the request, and the key agreed on.
    pub fn on_sealed_handshake(
        &mut self,
        reply: Result<(String, &[u8; 16]), WinrmError>,
    ) -> (r: Step)
        requires
            old(self)@.wf(),
            old(self)@.stage is Fallback,
        ensures
            final(self)@ == after_sealed_handshake(old(self)@, keyed_reply_view(reply)).0,
            r@ == after_sealed_handshake(old(self)@, keyed_reply_view(reply)).1,
            final(self)@.wf(),
    {
        self.stage = Stage::Over;
        match reply {
            Ok((body, key)) => {
                self.keep(Some(NtlmSession::from_auth(key)));
                Step::Done(Ok(body))
            },
            Err(e) => Step::Done(Err(e)),
        }
    }
}

} // verus!
