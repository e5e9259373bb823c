//! What holds of every authentication.

use vstd::prelude::*;
use vstd::utf8::*;

use crate::base64_text;
use crate::codec;
use crate::error::{NtlmErrorView, SoapErrorView, WinrmErrorView};
use crate::ntlm::authentication;
use crate::ntlm::authentication::{AuthenticationView, Stage, StepView};
use crate::ntlm::handshake;
use crate::ntlm::handshake::{BindingView, ServerCertView};
use crate::ntlm::reply_laws;
use crate::ntlm::sealing;
use crate::ntlm::sealing_laws;
use crate::ntlm::session::SessionView;
use crate::search;
use crate::text::Blank;
use crate::text_laws;

verus! {

/// A challenge is what its token stands for in Base64, whatever blanks surround the token.
pub proof fn law_challenge_is_read(
    status_text: Seq<char>,
    a: Seq<char>,
    token: Seq<char>,
    b: Seq<char>,
)
    requires
        text_laws::all_blank(a, Blank::Ascii),
        text_laws::all_blank(b, Blank::Ascii),
        token.len() > 0 ==> !Blank::Ascii.covers(token[0]) && !Blank::Ascii.covers(
            token[token.len() - 1],
        ),
    ensures
        handshake::challenge(401, status_text, Some("Negotiate "@ + a + token + b)) == match
            base64_text::base64_decoded(token) {
            Ok(bytes) => Ok::<Seq<u8>, WinrmErrorView>(bytes),
            Err(message) => Err(WinrmErrorView::AuthFailed("base64 decode: "@ + message)),
        },
{
    reveal_strlit("Negotiate ");
    let prefix = "Negotiate "@;
    let header = prefix + a + token + b;
    assert(header.subrange(0, prefix.len() as int) =~= prefix);
    assert(header.skip(prefix.len() as int) =~= a + token + b);
    text_laws::law_trim(a, token, b, Blank::Ascii);
}

/// Without a 401 and its header there is no challenge, and the credentials count as rejected.
pub proof fn law_no_challenge(status: u16, status_text: Seq<char>, header: Option<Seq<char>>)
    ensures
        status != 401 ==> handshake::challenge(status, status_text, header) == Err::<
            Seq<u8>,
            WinrmErrorView,
        >(WinrmErrorView::AuthFailed("expected 401 for NTLM negotiate, got "@ + status_text)),
        handshake::challenge(401, status_text, None) == Err::<Seq<u8>, WinrmErrorView>(
            WinrmErrorView::AuthFailed("missing WWW-Authenticate header in 401"@),
        ),
        header is Some && !search::occurs_at(header->0, "Negotiate "@, 0) ==> handshake::challenge(
            401,
            status_text,
            header,
        ) == Err::<Seq<u8>, WinrmErrorView>(
            WinrmErrorView::AuthFailed("missing Negotiate prefix in challenge"@),
        ),
{
}

/// The host of a URL is what stands between its scheme and the next slash.
pub proof fn law_host_of_url(host: Seq<char>, rest: Seq<char>)
    requires
        search::free_of(host, '/'),
        rest.len() > 0 ==> rest[0] == '/',
    ensures
        handshake::url_host("http://"@ + host + rest) == host,
        handshake::url_host("https://"@ + host + rest) == host,
{
    reveal_strlit("http://");
    reveal_strlit("https://");
    reveal_strlit("/");
    assert("/"@ =~= seq!['/']);
    let tail = host + rest;
    let plain = "http://"@ + host + rest;
    let tls = "https://"@ + host + rest;
    assert(plain.subrange(0, 7) =~= "http://"@);
    assert(plain.skip(7) =~= tail);
    assert(tls.subrange(0, 8) =~= "https://"@);
    assert(tls.skip(8) =~= tail);
    assert(!search::occurs_at(tls, "http://"@, 0)) by {
        if search::occurs_at(tls, "http://"@, 0) {
            assert(tls.subrange(0, 7)[4] == ':');
        }
    }
    if rest.len() > 0 {
        assert(tail =~= host + seq!['/'] + rest.skip(1));
        search::lemma_symbol_first(host, rest.skip(1), '/');
        assert(tail.take(host.len() as int) =~= host);
    } else {
        assert(tail =~= host);
        search::lemma_symbol_absent(host, '/');
    }
}

/// What an authenticate message is bound to: the server's certificate where it is known, and the
/// messages otherwise, which is a degradation where the connection is encrypted.
pub proof fn law_binding(der: Seq<u8>)
    ensures
        handshake::binding_for(ServerCertView::Captured(der)) == BindingView::Channel(der),
        handshake::binding_for(ServerCertView::Missing) == (BindingView::Messages {
            degraded: true,
        }),
        handshake::binding_for(ServerCertView::Unused) == (BindingView::Messages {
            degraded: false,
        }),
{
}

/// A challenge is answered, bound to the service of the URL, and without one the authentication
/// ends in the error that says why.
pub proof fn law_challenge_is_answered(
    a: AuthenticationView,
    status: u16,
    status_text: Seq<char>,
    header: Option<Seq<char>>,
    cert: ServerCertView,
    e: NtlmErrorView,
)
    ensures
        ({
            let (next, step) = authentication::after_negotiate(
                a,
                status,
                status_text,
                header,
                cert,
            );
            match handshake::challenge(status, status_text, header) {
                Ok(challenge) => {
                    &&& step == (StepView::Answer {
                        challenge,
                        target_name: "http/"@ + handshake::url_host(a.url),
                        binding: handshake::binding_for(cert),
                    })
                    &&& next == (AuthenticationView { stage: Stage::Challenged, ..a })
                },
                Err(why) => step == StepView::Done(Err(why)) && next.stage is Over,
            }
        }),
        authentication::after_refusal(a, e).1 == StepView::Done(Err(WinrmErrorView::Ntlm(e))),
{
}

/// What is sent with the authenticate message: the body as it is, or sealed in a form that the
/// other side reads it back from, unless the closing boundary occurs in the ciphertext.
pub proof fn law_body_is_sent(a: AuthenticationView, key: Seq<u8>)
    requires
        a.seal ==> sealing_laws::boundary_only_at_end(
            SessionView::from_auth(key).outgoing.sealed(encode_utf8(a.body)),
        ),
    ensures
        ({
            let (next, step) = authentication::after_answer(a, key);
            let s0 = SessionView::from_auth(key);
            &&& next.key == Some(key)
            &&& next.stage is Sent
            &&& next.body == a.body
            &&& step matches StepView::Send { content_type, body, declare_empty }
            &&& declare_empty == (body.len() == 0)
            &&& !a.seal ==> body == encode_utf8(a.body) && next.session is None && content_type
                == "application/soap+xml;charset=UTF-8"@
            &&& a.seal ==> {
                &&& content_type == sealing::ENCRYPTED_CONTENT_TYPE@
                &&& sealing::unsealed_text(s0.peer(), body) == Ok::<Seq<char>, Seq<char>>(a.body)
                &&& next.session matches Some(s) && s.incoming == s0.incoming && s.outgoing
                    == s0.outgoing.advanced(encode_utf8(a.body).len())
            }
        }),
{
    if a.seal {
        sealing_laws::law_body_is_read_back(SessionView::from_auth(key), a.body);
    }
}

/// What the caller gets from the reply to a body that was sent sealed, where the other side sealed
/// the reply in its turn: the plain text and the key on success, the fault found in the plain text
/// behind a 500, and otherwise the status with the plain text.
pub proof fn law_sealed_reply_reaches_the_caller(
    a: AuthenticationView,
    key: Seq<u8>,
    status: u16,
    text: Seq<char>,
    fault: Option<SoapErrorView>,
)
    requires
        a.seal,
        a.stage is Challenged,
        a.body.len() > 0,
        status != 401,
        sealing_laws::boundary_only_at_end(
            SessionView::from_auth(key).incoming.sealed(encode_utf8(text)),
        ),
    ensures
        ({
            let plain = encode_utf8(text);
            let sent = authentication::after_answer(a, key).0;
            let data = sealing::framed(
                plain.len(),
                SessionView::from_auth(key).incoming.sealed(plain),
            );
            let (read, step) = authentication::after_reply(sent, status, data);
            if 200 <= status <= 299 {
                step == StepView::Done(Ok((text, key)))
            } else if status == 500 {
                &&& step == StepView::FindFault { text }
                &&& authentication::after_fault(read, fault).1 == StepView::Done(
                    match fault {
                        Some(e) => Err(WinrmErrorView::Soap(e)),
                        None => Err(WinrmErrorView::HttpStatus { status, body: text }),
                    },
                )
            } else {
                step == StepView::Done(Err(WinrmErrorView::HttpStatus { status, body: text }))
            }
        }),
{
    let plain = encode_utf8(text);
    let sent = authentication::after_answer(a, key).0;
    let session = sent.session->0;
    encode_utf8_first_scalar(a.body);
    assert(!sent.is_blank());
    sealing_laws::lemma_framed_mark(plain.len(), session.incoming.sealed(plain));
    reply_laws::law_sealed_reply_is_read(session, status, text);
    reply_laws::law_status_decides(status, text, None);
    reply_laws::law_status_decides(status, text, fault);
}

/// What the caller gets from the reply to a body that was sent as it is: the text of the reply and
/// the key on success, and an error by its status otherwise. The reply to an empty body is not
/// read, and only a 401 rejects it.
pub proof fn law_plain_reply_reaches_the_caller(
    a: AuthenticationView,
    key: Seq<u8>,
    status: u16,
    data: Seq<u8>,
    fault: Option<SoapErrorView>,
)
    requires
        !a.seal,
        a.stage is Challenged,
    ensures
        ({
            let sent = authentication::after_answer(a, key).0;
            let (read, step) = authentication::after_reply(sent, status, data);
            let body = codec::utf8_lossy(data);
            if status == 401 {
                step == StepView::Done(
                    Err(
                        WinrmErrorView::AuthFailed(
                            "NTLM authentication rejected (bad credentials or CBT mismatch)"@,
                        ),
                    ),
                )
            } else if a.body.len() == 0 {
                step == StepView::Done(Ok((Seq::empty(), key)))
            } else if 200 <= status <= 299 {
                step == StepView::Done(Ok((body, key)))
            } else if status == 500 {
                &&& step == StepView::FindFault { text: body }
                &&& authentication::after_fault(read, fault).1 == StepView::Done(
                    match fault {
                        Some(e) => Err(WinrmErrorView::Soap(e)),
                        None => Err(WinrmErrorView::HttpStatus { status, body }),
                    },
                )
            } else {
                step == StepView::Done(Err(WinrmErrorView::HttpStatus { status, body }))
            }
        }),
{
    let body = codec::utf8_lossy(data);
    let sent = authentication::after_answer(a, key).0;
    if a.body.len() == 0 {
        assert(a.body =~= Seq::<char>::empty());
        assert(encode_utf8(a.body) =~= Seq::<u8>::empty());
    } else {
        encode_utf8_first_scalar(a.body);
        assert(!sent.is_blank());
    }
    reply_laws::law_status_decides(status, body, None);
    reply_laws::law_status_decides(status, body, fault);
}

/// A reply to a sealed body is taken for sealed if and only if it names the boundary, and is plain
/// text otherwise. A seal that does not hold is an error where the server reports success, and
/// plain text elsewhere. A 401 and the reply to an empty body are not read.
pub proof fn law_other_replies_to_sealed_body(
    session: SessionView,
    status: u16,
    data: Seq<u8>,
)
    ensures
        ({
            let marked = exists|i: int| #[trigger]
                search::occurs_at(data, encode_utf8("Encrypted Boundary"@), i);
            let text = handshake::authenticated_text(Some(session), false, status, data);
            let unsealed = sealing::unsealed_body(session, data);
            &&& status != 401 && !marked ==> text == Ok::<Seq<char>, WinrmErrorView>(
                codec::utf8_lossy(data),
            )
            &&& status != 401 && marked && (unsealed is Ok || 200 <= status <= 299) ==> text
                == unsealed
            &&& status != 401 && marked && unsealed is Err && !(200 <= status <= 299) ==> text
                == Ok::<Seq<char>, WinrmErrorView>(codec::utf8_lossy(data))
            &&& status == 401 ==> text == Err::<Seq<char>, WinrmErrorView>(
                WinrmErrorView::AuthFailed(
                    "NTLM authentication rejected (bad credentials or CBT mismatch)"@,
                ),
            )
            &&& status != 401 ==> handshake::authenticated_text(
                Some(session),
                true,
                status,
                data,
            ) == Ok::<Seq<char>, WinrmErrorView>(Seq::empty())
        }),
{
    let mark = encode_utf8("Encrypted Boundary"@);
    search::lemma_find_from(data, mark, 0);
    if let Some(i) = search::find(data, mark) {
        assert(search::occurs_at(data, mark, i));
    }
}

} // verus!
