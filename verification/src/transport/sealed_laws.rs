//! What holds of every sealed exchange.

use vstd::prelude::*;
use vstd::utf8::encode_utf8;

use crate::codec;
use crate::error::{SoapErrorView, WinrmErrorView};
use crate::ntlm::authentication;
use crate::ntlm::authentication::AuthenticationView;
use crate::ntlm::handshake;
use crate::ntlm::reply;
use crate::ntlm::reply_laws;
use crate::ntlm::sealing;
use crate::ntlm::sealing_laws;
use crate::ntlm::session::SessionView;
use crate::search;
use crate::transport::sealed;
use crate::transport::sealed::{CacheView, ExchangeView, Stage, StepView};

verus! {

/// The reply to a sealed request counts as a rejected session if and only if its status is 401.
pub proof fn law_only_401_expires_session(
    session: SessionView,
    status: u16,
    data: Seq<u8>,
    fault: Option<SoapErrorView>,
)
    ensures
        (sealed::sealed_outcome(session, status, data, fault) matches Err(
            WinrmErrorView::AuthFailed(_),
        )) <==> status == 401,
{
}

/// Every framed body is recognised as sealed.
pub proof fn law_framed_looks_sealed(n: nat, payload: Seq<u8>)
    ensures
        sealed::looks_sealed(sealing::framed(n, payload)),
        search::contains(sealing::framed(n, payload), encode_utf8(sealing::SEALED_MARK@)),
{
    sealing_laws::lemma_framed_mark(n, payload);
}

/// A body that the other side sealed in its turn is read back from its reply, unless the closing
/// boundary occurs in the ciphertext.
pub proof fn law_sealed_reply_is_read_back(
    session: SessionView,
    status: u16,
    body: Seq<char>,
    fault: Option<SoapErrorView>,
)
    requires
        reply::is_success(status),
        sealing_laws::boundary_only_at_end(session.incoming.sealed(encode_utf8(body))),
    ensures
        ({
            let plain = encode_utf8(body);
            let data = sealing::framed(plain.len(), session.incoming.sealed(plain));
            sealed::sealed_outcome(session, status, data, fault) == Ok::<
                Seq<char>,
                WinrmErrorView,
            >(body)
        }),
{
    let plain = encode_utf8(body);
    law_framed_looks_sealed(plain.len(), session.incoming.sealed(plain));
    sealing_laws::law_body_is_read_back(session.peer(), body);
    assert(session.peer().peer() =~= session);
}

/// From a reply on, an exchange goes on by what the reply comes to: its next step is the one for
/// that outcome, under the session that reading the reply left.
pub proof fn law_reply_decides_next_step(
    x: ExchangeView,
    status: u16,
    data: Seq<u8>,
    fault: Option<SoapErrorView>,
)
    requires
        x.wf(),
        x.is_waiting(),
    ensures
        ({
            let (read, step) = sealed::after_reply(x, status, data);
            let next = if read.failure is Some {
                sealed::after_fault(read, fault)
            } else {
                (read, step)
            };
            let used = if status == 500 {
                fault
            } else {
                None
            };
            let session = sealed::after_sealed_reply(x.session->0, status, data);
            next == sealed::after_request(
                ExchangeView { session: Some(session), ..x },
                sealed::sealed_outcome(x.session->0, status, data, used),
            )
        }),
{
    assert(ExchangeView { failure: None, ..x } == x);
}

/// How far an exchange is from its end.
pub open spec fn requests_left(x: ExchangeView) -> int {
    match x.stage {
        Stage::Cached => 4,
        Stage::Handshake => 3,
        Stage::Fresh => 2,
        Stage::Fallback => 1,
        Stage::Over => 0,
    }
}

/// Every result brings an exchange nearer to its end, so that it takes at most four requests. A
/// reply is a result at once, or once it was searched for a fault.
pub proof fn law_exchange_ends(
    x: ExchangeView,
    status: u16,
    data: Seq<u8>,
    fault: Option<SoapErrorView>,
    message: Seq<char>,
    key: Result<Seq<u8>, WinrmErrorView>,
    last: Result<(Seq<char>, Seq<u8>), WinrmErrorView>,
)
    requires
        x.wf(),
    ensures
        x.is_waiting() ==> {
            let (read, step) = sealed::after_reply(x, status, data);
            requests_left(read) < requests_left(x) || (step is FindFault && read.failure is Some
                && requests_left(read) == requests_left(x))
        },
        x.failure is Some ==> requests_left(sealed::after_fault(x, fault).0) < requests_left(x),
        x.is_waiting() ==> requests_left(sealed::after_transport_error(x, message).0)
            < requests_left(x),
        x.stage is Handshake ==> requests_left(sealed::after_handshake(x, key).0) < requests_left(
            x,
        ),
        x.stage is Fallback ==> requests_left(sealed::after_sealed_handshake(x, last).0)
            < requests_left(x),
        requests_left(x) <= 4,
{
}

/// Without a session for the host, credentials are sent with an empty body first, and the body
/// follows sealed under the session that this establishes.
pub proof fn law_blank_handshake_comes_first(
    cache: Option<CacheView>,
    host: Seq<char>,
    body: Seq<char>,
    key: Seq<u8>,
)
    requires
        cache matches Some(c) ==> c.host != host,
    ensures
        sealed::begun(cache, host, body).1 is BlankHandshake,
        sealed::after_handshake(
            sealed::begun(cache, host, body).0,
            Ok::<Seq<u8>, WinrmErrorView>(key),
        ).1 == sealed::sealed_send(SessionView::from_auth(key), body),
{
}

/// No handshake of an exchange sends the body in the clear: it sends nothing, or the sealed body.
pub proof fn law_handshakes_send_no_plain_body(
    x: ExchangeView,
    url: Seq<char>,
    challenged: AuthenticationView,
    key: Seq<u8>,
)
    requires
        x.stage is Handshake || x.stage is Fallback,
        challenged == (AuthenticationView {
            stage: authentication::Stage::Challenged,
            ..sealed::asked_authentication(x, url)
        }),
    ensures
        authentication::after_answer(challenged, key).1 == if x.stage is Handshake {
            authentication::StepView::Send {
                content_type: handshake::SOAP_CONTENT_TYPE@,
                body: Seq::empty(),
                declare_empty: true,
            }
        } else {
            authentication::StepView::Send {
                content_type: sealing::ENCRYPTED_CONTENT_TYPE@,
                body: sealing::framed(
                    encode_utf8(x.body).len(),
                    SessionView::from_auth(key).outgoing.sealed(encode_utf8(x.body)),
                ),
                declare_empty: false,
            }
        },
{
    reveal_strlit("");
    assert(""@ =~= Seq::<char>::empty());
    assert(encode_utf8(""@) =~= Seq::<u8>::empty());
    authentication::law_sealed_body_is_never_sent_plain(challenged, key);
}

/// A session that worked is used for the next request to the same host, without a handshake.
pub proof fn law_session_is_reused(
    x: ExchangeView,
    result: Result<Seq<char>, WinrmErrorView>,
    next: Seq<char>,
)
    requires
        x.wf(),
        x.is_waiting(),
        result is Ok,
    ensures
        ({
            let after = sealed::after_request(x, result).0;
            &&& after.cache matches Some(c) && c.host == x.host && c.session == x.session->0
            &&& sealed::begun(after.cache, x.host, next).0.stage is Cached
            &&& sealed::begun(after.cache, x.host, next).1 == sealed::sealed_send(
                x.session->0,
                next,
            )
        }),
{
}

/// A rejected session is dropped and replaced: its rejection is never the result of the request.
pub proof fn law_rejected_session_is_replaced(
    x: ExchangeView,
    result: Result<Seq<char>, WinrmErrorView>,
)
    requires
        x.wf(),
        x.is_waiting(),
    ensures
        (result matches Err(WinrmErrorView::AuthFailed(_))) ==> {
            let (after, step) = sealed::after_request(x, result);
            &&& after.session is None
            &&& after.cache is None
            &&& step is BlankHandshake || step is SealedHandshake
        },
        !(result matches Err(WinrmErrorView::AuthFailed(_))) ==> sealed::after_request(
            x,
            result,
        ).1 == StepView::Done(result),
{
}

/// A session is kept exactly where it served the request, or was in use before and was not
/// rejected.
pub proof fn law_what_is_kept(
    x: ExchangeView,
    result: Result<Seq<char>, WinrmErrorView>,
    key: Result<Seq<u8>, WinrmErrorView>,
    last: Result<(Seq<char>, Seq<u8>), WinrmErrorView>,
)
    requires
        x.wf(),
    ensures
        x.stage is Cached ==> (sealed::after_request(x, result).0.cache is Some <==> !(
        result matches Err(WinrmErrorView::AuthFailed(_)))),
        x.stage is Fresh ==> (sealed::after_request(x, result).0.cache is Some <==> result is Ok),
        x.stage is Handshake ==> sealed::after_handshake(x, key).0.cache is None,
        x.stage is Fallback ==> (sealed::after_sealed_handshake(x, last).0.cache is Some
            <==> last is Ok),
{
}

/// A reply that the other side sealed in its turn is read as its plain text for every status but
/// 401, be it a success or a fault, and the session follows it. A 401 is not read at all.
pub proof fn law_sealed_reply_is_read_for_every_status(
    session: SessionView,
    status: u16,
    body: Seq<char>,
)
    requires
        sealing_laws::boundary_only_at_end(session.incoming.sealed(encode_utf8(body))),
    ensures
        ({
            let plain = encode_utf8(body);
            let data = sealing::framed(plain.len(), session.incoming.sealed(plain));
            let after = sealed::after_sealed_reply(session, status, data);
            if status == 401 {
                &&& sealed::sealed_reply_text(session, status, data) == Err::<
                    Seq<char>,
                    WinrmErrorView,
                >(WinrmErrorView::AuthFailed("NTLM session expired"@))
                &&& after == session
            } else {
                &&& sealed::sealed_reply_text(session, status, data) == Ok::<
                    Seq<char>,
                    WinrmErrorView,
                >(body)
                &&& after.incoming == session.incoming.advanced(plain.len())
                &&& after.outgoing == session.outgoing
            }
        }),
{
    let plain = encode_utf8(body);
    law_framed_looks_sealed(plain.len(), session.incoming.sealed(plain));
    reply_laws::law_sealed_reply_is_read(session, status, body);
}

/// A reply is taken for sealed if and only if it names the boundary or the type of a sealed
/// payload. Otherwise it is plain text, which leaves the session alone. A seal that does not hold
/// is an error where the server reports success, and plain text elsewhere.
pub proof fn law_unsealed_replies(session: SessionView, status: u16, data: Seq<u8>)
    requires
        status != 401,
    ensures
        ({
            let sealed = (exists|i: int| #[trigger]
                search::occurs_at(data, encode_utf8("Encrypted Boundary"@), i)) || (exists|i: int|
             #[trigger]
                search::occurs_at(data, encode_utf8("application/octet-stream"@), i));
            let text = sealed::sealed_reply_text(session, status, data);
            let broken = sealing::unsealed_body(session, data);
            &&& !sealed ==> text == Ok::<Seq<char>, WinrmErrorView>(codec::utf8_lossy(data))
                && sealed::after_sealed_reply(session, status, data) == session
            &&& sealed && broken is Ok ==> text == broken
            &&& sealed && broken is Err && 200 <= status <= 299 ==> text == broken
            &&& sealed && broken is Err && !(200 <= status <= 299) ==> text == Ok::<
                Seq<char>,
                WinrmErrorView,
            >(codec::utf8_lossy(data))
            &&& sealed ==> sealed::after_sealed_reply(session, status, data)
                == sealing::after_unseal_body(session, data)
        }),
{
    search::lemma_find_from(data, encode_utf8("Encrypted Boundary"@), 0);
    search::lemma_find_from(data, encode_utf8("application/octet-stream"@), 0);
    if let Some(i) = search::find(data, encode_utf8("Encrypted Boundary"@)) {
        assert(search::occurs_at(data, encode_utf8("Encrypted Boundary"@), i));
    }
    if let Some(i) = search::find(data, encode_utf8("application/octet-stream"@)) {
        assert(search::occurs_at(data, encode_utf8("application/octet-stream"@), i));
    }
}

/// What the caller of a sealed request gets from a reply that the other side sealed in its turn:
/// the plain text on success, the fault that was found in the plain text behind a 500, and
/// otherwise the status with the plain text. A fault is searched for in the plain text.
pub proof fn law_sealed_reply_reaches_the_caller(
    x: ExchangeView,
    status: u16,
    body: Seq<char>,
    fault: Option<SoapErrorView>,
)
    requires
        x.wf(),
        x.is_waiting(),
        status != 401,
        sealing_laws::boundary_only_at_end(x.session->0.incoming.sealed(encode_utf8(body))),
    ensures
        ({
            let plain = encode_utf8(body);
            let data = sealing::framed(plain.len(), x.session->0.incoming.sealed(plain));
            let (read, step) = sealed::after_reply(x, status, data);
            if 200 <= status <= 299 {
                &&& step == StepView::Done(Ok(body))
                &&& read.cache matches Some(c) && c.host == x.host && c.session.incoming
                    == x.session->0.incoming.advanced(plain.len()) && c.session.outgoing
                    == x.session->0.outgoing
            } else if status == 500 {
                &&& step == StepView::FindFault { text: body }
                &&& sealed::after_fault(read, fault).1 == StepView::Done(
                    match fault {
                        Some(e) => Err(WinrmErrorView::Soap(e)),
                        None => Err(WinrmErrorView::HttpStatus { status, body }),
                    },
                )
            } else {
                step == StepView::Done(Err(WinrmErrorView::HttpStatus { status, body }))
            }
        }),
{
    law_sealed_reply_is_read_for_every_status(x.session->0, status, body);
    reply_laws::law_status_decides(status, body, None);
    reply_laws::law_status_decides(status, body, fault);
}

/// The other side reads a request back from what is sent, be it under the cached session or under
/// one that was just agreed on, unless the closing boundary occurs in the ciphertext. The session
/// moves on by the request.
pub proof fn law_server_reads_the_request(
    c: CacheView,
    key: Seq<u8>,
    fresh: ExchangeView,
    host: Seq<char>,
    body: Seq<char>,
)
    requires
        c.host == host,
        fresh.stage is Handshake,
        fresh.body == body,
        sealing_laws::boundary_only_at_end(c.session.outgoing.sealed(encode_utf8(body))),
        sealing_laws::boundary_only_at_end(
            SessionView::from_auth(key).outgoing.sealed(encode_utf8(body)),
        ),
    ensures
        ({
            let (x, step) = sealed::begun(Some(c), host, body);
            &&& step matches StepView::Send { content_type, body: sent }
            &&& content_type == sealing::ENCRYPTED_CONTENT_TYPE@
            &&& sealing::unsealed_text(c.session.peer(), sent) == Ok::<Seq<char>, Seq<char>>(body)
            &&& x.session matches Some(s) && s.outgoing == c.session.outgoing.advanced(
                encode_utf8(body).len(),
            ) && s.incoming == c.session.incoming
        }),
        ({
            let (x, step) = sealed::after_handshake(fresh, Ok::<Seq<u8>, WinrmErrorView>(key));
            let s0 = SessionView::from_auth(key);
            &&& step matches StepView::Send { content_type, body: sent }
            &&& content_type == sealing::ENCRYPTED_CONTENT_TYPE@
            &&& sealing::unsealed_text(s0.peer(), sent) == Ok::<Seq<char>, Seq<char>>(body)
            &&& x.session matches Some(s) && s.outgoing == s0.outgoing.advanced(
                encode_utf8(body).len(),
            ) && s.incoming == s0.incoming
        }),
{
    sealing_laws::law_body_is_read_back(c.session, body);
    sealing_laws::law_body_is_read_back(SessionView::from_auth(key), body);
}

/// What ends an exchange is what its caller gets: the transport error, the error of a handshake,
/// or the reply to a handshake that carried the request. A rejected session is replaced by a blank
/// handshake first and by a sealed one then.
pub proof fn law_what_ends_an_exchange(
    x: ExchangeView,
    message: Seq<char>,
    e: WinrmErrorView,
    body: Seq<char>,
    key: Seq<u8>,
)
    requires
        x.wf(),
    ensures
        x.is_waiting() ==> sealed::after_transport_error(x, message).1 == StepView::Done(
            Err(WinrmErrorView::Http(message)),
        ),
        x.stage is Handshake ==> sealed::after_handshake(x, Err::<Seq<u8>, WinrmErrorView>(e)).1
            == StepView::Done(Err(e)),
        x.stage is Fallback ==> sealed::after_sealed_handshake(
            x,
            Err::<(Seq<char>, Seq<u8>), WinrmErrorView>(e),
        ).1 == StepView::Done(Err(e)),
        x.stage is Fallback ==> {
            let (after, step) = sealed::after_sealed_handshake(
                x,
                Ok::<(Seq<char>, Seq<u8>), WinrmErrorView>((body, key)),
            );
            &&& step == StepView::Done(Ok(body))
            &&& after.cache == Some(CacheView { host: x.host, session: SessionView::from_auth(key) })
        },
        x.is_waiting() && x.stage is Cached && e is AuthFailed ==> sealed::after_request(
            x,
            Err(e),
        ).1 is BlankHandshake,
        x.is_waiting() && x.stage is Fresh && e is AuthFailed ==> sealed::after_request(
            x,
            Err(e),
        ).1 is SealedHandshake,
{
}

/// An exchange goes on with the request that it was begun with, to the same host, up to its end.
pub proof fn law_request_stays_the_same(
    cache: Option<CacheView>,
    host: Seq<char>,
    body: Seq<char>,
    x: ExchangeView,
    status: u16,
    data: Seq<u8>,
    fault: Option<SoapErrorView>,
    message: Seq<char>,
    key: Result<Seq<u8>, WinrmErrorView>,
    last: Result<(Seq<char>, Seq<u8>), WinrmErrorView>,
)
    ensures
        sealed::begun(cache, host, body).0.host == host,
        sealed::begun(cache, host, body).0.body == body,
        sealed::after_reply(x, status, data).0.host == x.host,
        sealed::after_reply(x, status, data).0.body == x.body,
        sealed::after_fault(x, fault).0.host == x.host,
        sealed::after_fault(x, fault).0.body == x.body,
        sealed::after_transport_error(x, message).0.host == x.host,
        sealed::after_transport_error(x, message).0.body == x.body,
        sealed::after_handshake(x, key).0.host == x.host,
        sealed::after_handshake(x, key).0.body == x.body,
        sealed::after_sealed_handshake(x, last).0.host == x.host,
        sealed::after_sealed_handshake(x, last).0.body == x.body,
{
}

/// A handshake authenticates to the URL that is given: with an empty body in the clear at first,
/// and with the body of the request sealed as a last resort.
pub proof fn law_handshake_asked_for(x: ExchangeView, url: Seq<char>)
    requires
        x.stage is Handshake || x.stage is Fallback,
    ensures
        sealed::asked_authentication(x, url).url == url,
        sealed::asked_authentication(x, url).stage is Negotiating,
        x.stage is Handshake ==> sealed::asked_authentication(x, url).body.len() == 0
            && !sealed::asked_authentication(x, url).seal,
        x.stage is Fallback ==> sealed::asked_authentication(x, url).body == x.body
            && sealed::asked_authentication(x, url).seal,
{
    reveal_strlit("");
}

/// An exchange that is given up leaves the cached session as it stands, if it is in use, and what
/// it has kept otherwise, which is nothing before its end.
pub proof fn law_given_up_exchange(x: ExchangeView)
    requires
        x.wf(),
    ensures
        x.stage is Cached ==> sealed::left_cache(x) == Some(
            CacheView { host: x.host, session: x.session->0 },
        ),
        x.stage is Over ==> sealed::left_cache(x) == x.cache,
        !(x.stage is Cached || x.stage is Over) ==> sealed::left_cache(x) is None,
{
}

} // verus!
