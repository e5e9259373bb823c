//! What holds of every reply.

use vstd::prelude::*;
use vstd::utf8::encode_utf8;

use crate::codec;
use crate::error;
use crate::error::{SoapErrorView, WinrmErrorView};
use crate::ntlm::reply;
use crate::ntlm::sealing;
use crate::ntlm::sealing_laws;
use crate::ntlm::session::SessionView;
use crate::text;

verus! {

/// A reply that the other side sealed in its turn is read as its plain text, whatever its status
/// is, and moves the incoming direction on and no other, unless the closing boundary occurs in the
/// ciphertext.
pub proof fn law_sealed_reply_is_read(session: SessionView, status: u16, body: Seq<char>)
    requires
        sealing_laws::boundary_only_at_end(session.incoming.sealed(encode_utf8(body))),
    ensures
        ({
            let plain = encode_utf8(body);
            let data = sealing::framed(plain.len(), session.incoming.sealed(plain));
            &&& reply::reply_text(session, true, status, data) == Ok::<Seq<char>, WinrmErrorView>(
                body,
            )
            &&& reply::session_after_reply(session, true, data).incoming
                == session.incoming.advanced(plain.len())
            &&& reply::session_after_reply(session, true, data).outgoing == session.outgoing
        }),
{
    sealing_laws::law_body_is_read_back(session.peer(), body);
    assert(session.peer().peer() =~= session);
}

/// A reply that is taken for plain text is that text, and leaves the session alone.
pub proof fn law_plain_reply_is_read(session: SessionView, status: u16, data: Seq<u8>)
    ensures
        reply::reply_text(session, false, status, data) == Ok::<Seq<char>, WinrmErrorView>(
            codec::utf8_lossy(data),
        ),
        reply::session_after_reply(session, false, data) == session,
{
}

/// A seal that does not hold is an error where the server reports success, and otherwise the
/// reply is shown as it came.
pub proof fn law_broken_seal(session: SessionView, status: u16, data: Seq<u8>)
    requires
        sealing::unsealed_body(session, data) is Err,
    ensures
        reply::reply_text(session, true, status, data) == if 200 <= status <= 299 {
            sealing::unsealed_body(session, data)
        } else {
            Ok(codec::utf8_lossy(data))
        },
{
}

/// What a reply comes to: its text where its status is between 200 and 299, and otherwise an
/// error. Only a 401 rejects the credentials. A fault is reported as such behind a 500 and nowhere
/// else. Every other reply keeps its status and its text.
pub proof fn law_status_decides(status: u16, body: Seq<char>, fault: Option<SoapErrorView>)
    ensures
        200 <= status <= 299 ==> reply::outcome(status, body, fault) == Ok::<
            Seq<char>,
            WinrmErrorView,
        >(body),
        status == 401 ==> reply::outcome(status, body, fault) == Err::<Seq<char>, WinrmErrorView>(
            WinrmErrorView::AuthFailed("HTTP "@ + text::decimal(401) + ": "@ + body),
        ),
        status == 500 && fault is Some ==> reply::outcome(status, body, fault) == Err::<
            Seq<char>,
            WinrmErrorView,
        >(WinrmErrorView::Soap(fault->0)),
        status < 200 || (status > 299 && status != 401 && !(status == 500 && fault is Some))
            ==> reply::outcome(status, body, fault) == Err::<Seq<char>, WinrmErrorView>(
            WinrmErrorView::HttpStatus { status, body },
        ),
        status < 200 || status > 299 ==> reply::outcome(status, body, fault) == Err::<
            Seq<char>,
            WinrmErrorView,
        >(error::http_status_error(status, body, fault)),
{
}

} // verus!
