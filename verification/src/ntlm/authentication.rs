//! One NTLM authentication, step by step.
//!
//! A caller begins with [`Authentication::plain`] or [`Authentication::sealed`], does what each
//! step says, and reports what came of it.

use vstd::prelude::*;
use vstd::utf8::encode_utf8;

use crate::error;
use crate::error::{
    NtlmError, NtlmErrorView, SoapError, SoapErrorView, WinrmError, WinrmErrorView,
};
use crate::ntlm::handshake;
use crate::ntlm::handshake::{Binding, BindingView, ServerCert, ServerCertView};
use crate::ntlm::sealing;
use crate::ntlm::session;
use crate::ntlm::session::{NtlmSession, SessionView};

verus! {

/// Where an authentication stands.
#[derive(Clone, Copy, Debug)]
pub enum Stage {
    /// The negotiate message was sent.
    Negotiating,
    /// The challenge is known.
    Challenged,
    /// The authenticate message was sent.
    Sent,
    /// The reply tells of a failure, and may hold a SOAP fault.
    Failing,
    /// Nothing is left to do.
    Over,
}

/// What the caller does next.
#[derive(Debug)]
pub enum Step {
    /// Send the negotiate message with an empty body whose length is declared.
    Negotiate { content_type: String },
    /// Build the authenticate message for a challenge.
    Answer { challenge: Vec<u8>, target_name: String, binding: Binding },
    /// Send the authenticate message with a body. `declare_empty` tells to declare the length of
    /// an empty one.
    Send { content_type: String, body: Vec<u8>, declare_empty: bool },
    /// Look for a SOAP fault in a text.
    FindFault { text: String },
    /// Return the text of the reply and the session key, or an error.
    Done(Result<(String, [u8; 16]), WinrmError>),
}

/// What a [`Step`] holds.
pub enum StepView {
    Negotiate { content_type: Seq<char> },
    Answer { challenge: Seq<u8>, target_name: Seq<char>, binding: BindingView },
    Send { content_type: Seq<char>, body: Seq<u8>, declare_empty: bool },
    FindFault { text: Seq<char> },
    Done(Result<(Seq<char>, Seq<u8>), WinrmErrorView>),
}

impl View for Step {
    type V = StepView;

    open spec fn view(&self) -> StepView {
        match self {
            Step::Negotiate { content_type } => StepView::Negotiate {
                content_type: content_type@,
            },
            Step::Answer { challenge, target_name, binding } => StepView::Answer {
                challenge: challenge@,
                target_name: target_name@,
                binding: binding@,
            },
            Step::Send { content_type, body, declare_empty } => StepView::Send {
                content_type: content_type@,
                body: body@,
                declare_empty: *declare_empty,
            },
            Step::FindFault { text } => StepView::FindFault { text: text@ },
            Step::Done(Ok((text, key))) => StepView::Done(Ok((text@, key@))),
            Step::Done(Err(e)) => StepView::Done(Err(e@)),
        }
    }
}

/// The state of an authentication.
#[verifier::ext_equal]
pub struct AuthenticationView {
    pub url: Seq<char>,
    pub body: Seq<char>,
    /// Whether the body is sealed in the authenticate message.
    pub seal: bool,
    pub stage: Stage,
    /// The session under which the body was sealed.
    pub session: Option<SessionView>,
    /// The key that was agreed on.
    pub key: Option<Seq<u8>>,
    /// Status and text of a reply that tells of a failure.
    pub failure: Option<(u16, Seq<char>)>,
}

/// One NTLM authentication, until its result is known.
#[derive(Debug)]
pub struct Authentication {
    url: String,
    body: String,
    seal: bool,
    stage: Stage,
    session: Option<NtlmSession>,
    key: Option<[u8; 16]>,
    failure: Option<(u16, String)>,
}

/// The view of an optional key.
pub open spec fn key_view(key: Option<[u8; 16]>) -> Option<Seq<u8>> {
    match key {
        Some(k) => Some(k@),
        None => None,
    }
}

/// The view of an optional failure.
pub open spec fn failure_view(failure: Option<(u16, String)>) -> Option<(u16, Seq<char>)> {
    match failure {
        Some((status, text)) => Some((status, text@)),
        None => None,
    }
}

impl View for Authentication {
    type V = AuthenticationView;

    closed spec fn view(&self) -> AuthenticationView {
        AuthenticationView {
            url: self.url@,
            body: self.body@,
            seal: self.seal,
            stage: self.stage,
            session: session::optional_view(self.session),
            key: key_view(self.key),
            failure: failure_view(self.failure),
        }
    }
}

impl AuthenticationView {
    /// The state before the first reply.
    pub open spec fn new(url: Seq<char>, body: Seq<char>, seal: bool) -> AuthenticationView {
        AuthenticationView {
            url,
            body,
            seal,
            stage: Stage::Negotiating,
            session: None,
            key: None,
            failure: None,
        }
    }

    /// What is known at each stage.
    pub open spec fn wf(self) -> bool {
        &&& self.stage is Sent || self.stage is Failing ==> self.key is Some
        &&& self.stage is Failing <==> self.failure is Some
    }

    /// The body is empty.
    pub open spec fn is_blank(self) -> bool {
        encode_utf8(self.body).len() == 0
    }

    /// The authentication with its result known.
    pub open spec fn done(self, result: Result<(Seq<char>, Seq<u8>), WinrmErrorView>) -> (
        AuthenticationView,
        StepView,
    ) {
        (AuthenticationView { stage: Stage::Over, failure: None, ..self }, StepView::Done(result))
    }
}

/// How an authentication goes on after the reply to the negotiate message.
pub open spec fn after_negotiate(
    a: AuthenticationView,
    status: u16,
    status_text: Seq<char>,
    www_authenticate: Option<Seq<char>>,
    cert: ServerCertView,
) -> (AuthenticationView, StepView) {
    match handshake::challenge(status, status_text, www_authenticate) {
        Ok(challenge) => (
            AuthenticationView { stage: Stage::Challenged, ..a },
            StepView::Answer {
                challenge,
                target_name: "http/"@ + handshake::url_host(a.url),
                binding: handshake::binding_for(cert),
            },
        ),
        Err(e) => a.done(Err(e)),
    }
}

/// How an authentication ends when its challenge is no valid NTLM message.
pub open spec fn after_refusal(a: AuthenticationView, e: NtlmErrorView) -> (
    AuthenticationView,
    StepView,
) {
    a.done(Err(WinrmErrorView::Ntlm(e)))
}

/// How an authentication goes on when the authenticate message is built.
pub open spec fn after_answer(a: AuthenticationView, key: Seq<u8>) -> (
    AuthenticationView,
    StepView,
) {
    let plain = encode_utf8(a.body);
    let session = SessionView::from_auth(key);
    if a.seal {
        let body = sealing::framed(plain.len(), session.outgoing.sealed(plain));
        (
            AuthenticationView {
                stage: Stage::Sent,
                session: Some(session.after_seal(plain)),
                key: Some(key),
                ..a
            },
            StepView::Send {
                content_type: sealing::ENCRYPTED_CONTENT_TYPE@,
                body,
                declare_empty: body.len() == 0,
            },
        )
    } else {
        (
            AuthenticationView { stage: Stage::Sent, session: None, key: Some(key), ..a },
            StepView::Send {
                content_type: handshake::SOAP_CONTENT_TYPE@,
                body: plain,
                declare_empty: plain.len() == 0,
            },
        )
    }
}

/// How an authentication goes on after the reply to the authenticate message.
///
/// Only an internal server error can hold a SOAP fault. The session has served its purpose.
pub open spec fn after_reply(a: AuthenticationView, status: u16, data: Seq<u8>) -> (
    AuthenticationView,
    StepView,
) {
    let read = AuthenticationView { session: None, ..a };
    match handshake::authenticated_text(a.session, a.is_blank(), status, data) {
        Err(e) => read.done(Err(e)),
        Ok(text) => if status == 500 && !a.is_blank() {
            (
                AuthenticationView { stage: Stage::Failing, failure: Some((status, text)), ..read },
                StepView::FindFault { text },
            )
        } else {
            match handshake::authenticated_outcome(a.is_blank(), status, text, None) {
                Ok(body) => read.done(Ok((body, a.key->0))),
                Err(e) => read.done(Err(e)),
            }
        },
    }
}

/// How an authentication ends when a failing reply was searched for a fault.
pub open spec fn after_fault(a: AuthenticationView, fault: Option<SoapErrorView>) -> (
    AuthenticationView,
    StepView,
) {
    let (status, text) = a.failure->0;
    a.done(Err(error::http_status_error(status, text, fault)))
}

impl Authentication {
    fn start(url: &str, body: &str, seal: bool) -> (r: (Authentication, Step))
        ensures
            r.0@ == AuthenticationView::new(url@, body@, seal),
            r.1@ == (StepView::Negotiate { content_type: handshake::SOAP_CONTENT_TYPE@ }),
            r.0@.wf(),
    {
        (
            Authentication {
                url: url.to_owned(),
                body: body.to_owned(),
                seal,
                stage: Stage::Negotiating,
                session: None,
                key: None,
                failure: None,
            },
            Step::Negotiate { content_type: handshake::SOAP_CONTENT_TYPE.to_owned() },
        )
    }

    /// Begins an authentication that sends the body as it is.
    pub fn plain(url: &str, body: &str) -> (r: (Authentication, Step))
        ensures
            r.0@ == AuthenticationView::new(url@, body@, false),
            r.1@ == (StepView::Negotiate { content_type: handshake::SOAP_CONTENT_TYPE@ }),
            r.0@.wf(),
    {
        Authentication::start(url, body, false)
    }

    /// Begins an authentication that sends the body sealed.
    pub fn sealed(url: &str, body: &str) -> (r: (Authentication, Step))
        ensures
            r.0@ == AuthenticationView::new(url@, body@, true),
            r.1@ == (StepView::Negotiate { content_type: handshake::SOAP_CONTENT_TYPE@ }),
            r.0@.wf(),
    {
        Authentication::start(url, body, true)
    }

    /// Where the authentication stands.
    pub fn stage(&self) -> (r: Stage)
        ensures
            r == self@.stage,
    {
        self.stage
    }

    /// Takes in the reply to the negotiate message: its status, the status as it is shown to
    /// people, its challenge header, and what is known of the server's certificate by then.
    pub fn on_negotiate(
        &mut self,
        status: u16,
        status_text: &str,
        www_authenticate: Option<String>,
        cert: ServerCert,
    ) -> (r: Step)
        requires
            old(self)@.wf(),
            old(self)@.stage is Negotiating,
        ensures
            final(self)@ == after_negotiate(
                old(self)@,
                status,
                status_text@,
                handshake::optional_text(www_authenticate),
                cert@,
            ).0,
            r@ == after_negotiate(
                old(self)@,
                status,
                status_text@,
                handshake::optional_text(www_authenticate),
                cert@,
            ).1,
            final(self)@.wf(),
    {
        match handshake::read_challenge(status, status_text, www_authenticate) {
            Ok(challenge) => {
                self.stage = Stage::Challenged;
                Step::Answer {
                    challenge,
                    target_name: handshake::target_name(self.url.as_str()),
                    binding: handshake::choose_binding(cert),
                }
            },
            Err(e) => {
                self.stage = Stage::Over;
                Step::Done(Err(e))
            },
        }
    }

    /// Gives up on a challenge that is no valid NTLM message.
    pub fn on_refusal(&mut self, e: NtlmError) -> (r: Step)
        requires
            old(self)@.wf(),
            old(self)@.stage is Challenged,
        ensures
            final(self)@ == after_refusal(old(self)@, e@).0,
            r@ == after_refusal(old(self)@, e@).1,
            final(self)@.wf(),
    {
        self.stage = Stage::Over;
        Step::Done(Err(WinrmError::Ntlm(e)))
    }

    /// Takes in the key that the authenticate message agrees on.
    pub fn on_answer(&mut self, key: &[u8; 16]) -> (r: Step)
        requires
            old(self)@.wf(),
            old(self)@.stage is Challenged,
        ensures
            final(self)@ == after_answer(old(self)@, key@).0,
            r@ == after_answer(old(self)@, key@).1,
            final(self)@.wf(),
    {
        let request = handshake::authenticate_request(self.body.as_str(), self.seal, key);
        self.stage = Stage::Sent;
        self.session = request.session;
        self.key = Some(*key);
        Step::Send {
            content_type: request.content_type,
            body: request.body,
            declare_empty: request.declare_empty,
        }
    }

    /// Takes in the reply to the authenticate message.
    pub fn on_reply(&mut self, status: u16, data: &[u8]) -> (r: Step)
        requires
            old(self)@.wf(),
            old(self)@.stage is Sent,
        ensures
            final(self)@ == after_reply(old(self)@, status, data@).0,
            r@ == after_reply(old(self)@, status, data@).1,
            final(self)@.wf(),
    {
        let blank = self.body.as_str().as_bytes().len() == 0;
        let session = self.session.take();
        let key: [u8; 16] = match self.key {
            Some(key) => key,
            None => [0; 16],
        };
        let text = match handshake::read_authenticated(session, blank, status, data) {
            Ok(text) => text,
            Err(e) => {
                self.stage = Stage::Over;
                return Step::Done(Err(e));
            },
        };
        if status == 500 && !blank {
            self.stage = Stage::Failing;
            let copy = text.as_str().to_owned();
            self.failure = Some((status, text));
            return Step::FindFault { text: copy };
        }
        self.stage = Stage::Over;
        match handshake::settle_authenticated(blank, status, text, None) {
            Ok(body) => Step::Done(Ok((body, key))),
            Err(e) => Step::Done(Err(e)),
        }
    }

    /// Takes in the SOAP error found in the text of a failing reply, if there is one.
    pub fn on_fault(&mut self, fault: Option<SoapError>) -> (r: Step)
        requires
            old(self)@.wf(),
            old(self)@.stage is Failing,
        ensures
            final(self)@ == after_fault(old(self)@, error::fault_view(fault)).0,
            r@ == after_fault(old(self)@, error::fault_view(fault)).1,
            final(self)@.wf(),
    {
        self.stage = Stage::Over;
        let (status, text): (u16, String) = match self.failure.take() {
            Some(failure) => failure,
            None => (0, String::new()),
        };
        Step::Done(Err(WinrmError::from_http_status(status, text, fault)))
    }
}

/// From its reply on, an authentication comes to what the reply comes to.
pub proof fn law_result_is_that_of_the_reply(
    a: AuthenticationView,
    status: u16,
    data: Seq<u8>,
    fault: Option<SoapErrorView>,
)
    requires
        a.wf(),
        a.stage is Sent,
    ensures
        ({
            let (next, step) = after_reply(a, status, data);
            let last = if next.stage is Failing {
                after_fault(next, fault).1
            } else {
                step
            };
            let used = if status == 500 {
                fault
            } else {
                None
            };
            last == StepView::Done(
                match handshake::authenticated(a.session, a.is_blank(), status, data, used) {
                    Ok(text) => Ok((text, a.key->0)),
                    Err(e) => Err(e),
                },
            )
        }),
{
}

/// Where sealing is asked for, the body is sent sealed and never empty.
pub proof fn law_sealed_body_is_never_sent_plain(a: AuthenticationView, key: Seq<u8>)
    ensures
        a.seal ==> after_answer(a, key).1 == (StepView::Send {
            content_type: sealing::ENCRYPTED_CONTENT_TYPE@,
            body: sealing::framed(
                encode_utf8(a.body).len(),
                SessionView::from_auth(key).outgoing.sealed(encode_utf8(a.body)),
            ),
            declare_empty: false,
        }),
{
    if a.seal {
        let plain = encode_utf8(a.body);
        session::law_sealed_len(SessionView::from_auth(key).outgoing, plain);
    }
}

} // verus!
