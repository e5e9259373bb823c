//! Replies to requests whose body is sealed or carries credentials.

use vstd::prelude::*;
use vstd::utf8::encode_utf8;

use crate::codec;
use crate::error;
use crate::error::{SoapError, SoapErrorView, WinrmError, WinrmErrorView};
use crate::ntlm::sealing;
use crate::ntlm::session::{NtlmSession, SessionView};
use crate::search;

verus! {

/// The status stands for success.
pub open spec fn is_success(status: u16) -> bool {
    200 <= status < 300
}

/// Whether a status stands for success.
pub fn succeeded(status: u16) -> (r: bool)
    ensures
        r == is_success(status),
{
    200 <= status && status < 300
}

/// Whether bytes hold the UTF-8 form of a text.
pub fn mentions(data: &[u8], p: &str) -> (r: bool)
    ensures
        r == search::contains(data@, encode_utf8(p@)),
{
    search::find_in(data, p.as_bytes()).is_some()
}

/// The text of a reply that is taken for sealed, or for plain text otherwise.
///
/// A reply that cannot be unsealed is an error where the server reports success. Where it does
/// not, its bytes are read as plain text, so that the failure it tells of is not lost.
pub open spec fn reply_text(
    session: SessionView,
    sealed: bool,
    status: u16,
    data: Seq<u8>,
) -> Result<Seq<char>, WinrmErrorView> {
    if sealed {
        match sealing::unsealed_body(session, data) {
            Ok(body) => Ok(body),
            Err(e) => if is_success(status) {
                Err(e)
            } else {
                Ok(codec::utf8_lossy(data))
            },
        }
    } else {
        Ok(codec::utf8_lossy(data))
    }
}

/// The session after reading a reply.
pub open spec fn session_after_reply(
    session: SessionView,
    sealed: bool,
    data: Seq<u8>,
) -> SessionView {
    if sealed {
        sealing::after_unseal_body(session, data)
    } else {
        session
    }
}

/// Reads a reply that is taken for sealed, or for plain text otherwise.
pub fn read_reply(session: &mut NtlmSession, sealed: bool, status: u16, data: &[u8]) -> (r: Result<
    String,
    WinrmError,
>)
    ensures
        error::text_result(r) == reply_text(old(session)@, sealed, status, data@),
        final(session)@ == session_after_reply(old(session)@, sealed, data@),
{
    if sealed {
        match sealing::unseal_body(session, data) {
            Ok(body) => Ok(body),
            Err(e) => {
                if succeeded(status) {
                    return Err(e);
                }
                Ok(codec::string_from_utf8_lossy(data))
            },
        }
    } else {
        Ok(codec::string_from_utf8_lossy(data))
    }
}

/// What a reply comes to once its text is known.
///
/// `fault` is the SOAP error found in the text, if there is one.
pub open spec fn outcome(
    status: u16,
    body: Seq<char>,
    fault: Option<SoapErrorView>,
) -> Result<Seq<char>, WinrmErrorView> {
    if is_success(status) {
        Ok(body)
    } else {
        Err(error::http_status_error(status, body, fault))
    }
}

/// Settles what a reply comes to once its text is known.
pub fn settle(status: u16, body: String, fault: Option<SoapError>) -> (r: Result<
    String,
    WinrmError,
>)
    ensures
        error::text_result(r) == outcome(status, body@, error::fault_view(fault)),
{
    if succeeded(status) {
        Ok(body)
    } else {
        Err(WinrmError::from_http_status(status, body, fault))
    }
}

} // verus!
