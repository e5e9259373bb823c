//! Sealed SOAP bodies in the multipart/encrypted form of WS-Management.

use vstd::prelude::*;
use vstd::slice::slice_subrange;
use vstd::utf8::*;

use crate::codec;
use crate::error;
use crate::error::{NtlmError, NtlmErrorView, WinrmError, WinrmErrorView};
use crate::ntlm::session;
use crate::ntlm::session::{NtlmSession, SessionView};
use crate::search;
use crate::text;

verus! {

/// Content type of a sealed body.
pub const ENCRYPTED_CONTENT_TYPE: &'static str = "multipart/encrypted;protocol=\"application/HTTP-SPNEGO-session-encrypted\";boundary=\"Encrypted Boundary\"";

/// What precedes the length of the plain body.
pub const FRAME_HEAD: &'static str = "--Encrypted Boundary\r\n\tContent-Type: application/HTTP-SPNEGO-session-encrypted\r\n\tOriginalContent: type=application/soap+xml;charset=UTF-8;Length=";

/// What stands between the length of the plain body and the payload marker.
pub const FRAME_MIDDLE: &'static str = "\r\n--Encrypted Boundary\r\n\tContent-Type: ";

/// What directly precedes the sealed payload.
pub const PAYLOAD_MARKER: &'static str = "application/octet-stream\r\n";

/// What closes the sealed payload.
pub const CLOSING_BOUNDARY: &'static str = "--Encrypted Boundary--";

/// What marks a reply as sealed.
pub const SEALED_MARK: &'static str = "Encrypted Boundary";

/// Length of a signature, as it is announced before the payload.
pub const ANNOUNCED_SIGNATURE_LEN: u32 = 16;

/// What precedes the payload of a body of `n` bytes.
pub open spec fn frame_header(n: nat) -> Seq<char> {
    FRAME_HEAD@ + text::decimal(n) + FRAME_MIDDLE@ + PAYLOAD_MARKER@
}

/// The multipart form of a sealed body of `n` bytes. No line break separates the payload from
/// the closing boundary.
pub open spec fn framed(n: nat, sealed: Seq<u8>) -> Seq<u8> {
    encode_utf8(frame_header(n)) + codec::u32_le(ANNOUNCED_SIGNATURE_LEN) + sealed + encode_utf8(
        CLOSING_BOUNDARY@ + "\r\n"@,
    )
}

/// The sealed payload of a multipart body, or the details of why there is none.
pub open spec fn payload(data: Seq<u8>) -> Result<Seq<u8>, Seq<char>> {
    let marker = encode_utf8(PAYLOAD_MARKER@);
    match search::find(data, marker) {
        None => Err("sealed response: missing octet-stream marker"@),
        Some(pos) => {
            let at = pos + marker.len();
            if at + 4 > data.len() {
                Err("sealed response: truncated"@)
            } else {
                let sealed = search::before_first(
                    data.skip(at + 4),
                    encode_utf8(CLOSING_BOUNDARY@),
                );
                if sealed.len() < codec::u32_from_le(data.subrange(at, at + 4)) {
                    Err("sealed response: data too short for signature"@)
                } else {
                    Ok(sealed)
                }
            }
        },
    }
}

/// The text of an unsealed body, or the details of why it is none.
pub open spec fn body_text(plain: Seq<u8>) -> Result<Seq<char>, Seq<char>> {
    if valid_utf8(plain) {
        Ok(decode_utf8(plain))
    } else {
        Err("sealed response: invalid UTF-8: "@ + codec::utf8_error_text(plain))
    }
}

/// The text of a multipart body, or the details of why it has none.
pub open spec fn unsealed_text(session: SessionView, data: Seq<u8>) -> Result<
    Seq<char>,
    Seq<char>,
> {
    match payload(data) {
        Ok(sealed) => match session.incoming.unsealed(sealed) {
            Ok(plain) => body_text(plain),
            Err(details) => Err(details),
        },
        Err(details) => Err(details),
    }
}

/// The result of unsealing a body. Every failure is one of the message layer.
pub open spec fn unsealed_body(session: SessionView, data: Seq<u8>) -> Result<
    Seq<char>,
    WinrmErrorView,
> {
    match unsealed_text(session, data) {
        Ok(body) => Ok(body),
        Err(details) => Err(WinrmErrorView::Ntlm(NtlmErrorView::InvalidMessage(details))),
    }
}

/// The session after unsealing a body.
pub open spec fn after_unseal_body(session: SessionView, data: Seq<u8>) -> SessionView {
    match payload(data) {
        Ok(sealed) => session.after_unseal(sealed),
        Err(_) => session,
    }
}

/// Puts a sealed body of `n` bytes in its multipart form.
pub fn frame(n: usize, sealed: &[u8]) -> (r: Vec<u8>)
    ensures
        r@ == framed(n as nat, sealed@),
{
    let mut header = text::concat(FRAME_HEAD, text::decimal_text(n as u64).as_str());
    header.append(FRAME_MIDDLE);
    header.append(PAYLOAD_MARKER);
    let mut out: Vec<u8> = Vec::new();
    out.extend_from_slice(header.as_str().as_bytes());
    codec::put_u32_le(&mut out, ANNOUNCED_SIGNATURE_LEN);
    out.extend_from_slice(sealed);
    out.extend_from_slice(text::concat(CLOSING_BOUNDARY, "\r\n").as_str().as_bytes());
    assert(out@ =~= framed(n as nat, sealed@));
    out
}

/// Seals a SOAP body. Returns the content type and the multipart body.
pub fn seal_body(session: &mut NtlmSession, body: &str) -> (r: (String, Vec<u8>))
    ensures
        r.0@ == ENCRYPTED_CONTENT_TYPE@,
        r.1@ == framed(
            encode_utf8(body@).len(),
            old(session)@.outgoing.sealed(encode_utf8(body@)),
        ),
        final(session)@ == old(session)@.after_seal(encode_utf8(body@)),
{
    let bytes = body.as_bytes();
    let sealed = session.seal(bytes);
    (ENCRYPTED_CONTENT_TYPE.to_owned(), frame(bytes.len(), sealed.as_slice()))
}

/// The view of a result that holds text.
pub open spec fn details_result(r: Result<String, NtlmError>) -> Result<Seq<char>, Seq<char>> {
    match r {
        Ok(s) => Ok(s@),
        Err(NtlmError::InvalidMessage(details)) => Err(details@),
    }
}

/// Takes the sealed payload out of a multipart body.
pub fn extract_payload(data: &[u8]) -> (r: Result<Vec<u8>, NtlmError>)
    ensures
        session::message_result(r) == payload(data@),
{
    let marker = PAYLOAD_MARKER.as_bytes();
    let pos: usize = match search::find_in(data, marker) {
        Some(pos) => pos,
        None => {
            return Err(
                NtlmError::InvalidMessage(
                    "sealed response: missing octet-stream marker".to_owned(),
                ),
            );
        },
    };
    let at: usize = pos + marker.len();
    if data.len() - at < 4 {
        return Err(NtlmError::InvalidMessage("sealed response: truncated".to_owned()));
    }
    let sig_len: u32 = codec::get_u32_le(data, at);
    let rest = slice_subrange(data, at + 4, data.len());
    assert(rest@ =~= data@.skip(at + 4));
    let end: usize = match search::find_in(rest, CLOSING_BOUNDARY.as_bytes()) {
        Some(p) => p,
        None => rest.len(),
    };
    if (end as u64) < sig_len as u64 {
        return Err(
            NtlmError::InvalidMessage("sealed response: data too short for signature".to_owned()),
        );
    }
    let mut sealed: Vec<u8> = Vec::new();
    sealed.extend_from_slice(slice_subrange(rest, 0, end));
    assert(sealed@ =~= search::before_first(rest@, encode_utf8(CLOSING_BOUNDARY@)));
    Ok(sealed)
}

/// Takes an unsealed body as text.
pub fn read_body(plain: Vec<u8>) -> (r: Result<String, NtlmError>)
    ensures
        details_result(r) == body_text(plain@),
{
    match codec::string_from_utf8(plain) {
        Ok(body) => Ok(body),
        Err(e) => Err(
            NtlmError::InvalidMessage(text::concat("sealed response: invalid UTF-8: ", e.as_str())),
        ),
    }
}

/// Unseals the SOAP body of a multipart response.
///
/// Whatever goes wrong here is a broken message, never a refused password.
pub fn unseal_body(session: &mut NtlmSession, data: &[u8]) -> (r: Result<String, WinrmError>)
    ensures
        error::text_result(r) == unsealed_body(old(session)@, data@),
        final(session)@ == after_unseal_body(old(session)@, data@),
{
    let sealed = match extract_payload(data) {
        Ok(sealed) => sealed,
        Err(e) => return Err(WinrmError::Ntlm(e)),
    };
    let plain = match session.unseal(sealed.as_slice()) {
        Ok(plain) => plain,
        Err(e) => return Err(WinrmError::Ntlm(e)),
    };
    match read_body(plain) {
        Ok(body) => Ok(body),
        Err(e) => Err(WinrmError::Ntlm(e)),
    }
}

/// A failure to unseal is never taken for an authentication rejection.
pub proof fn law_broken_seal_is_not_auth_failed(session: SessionView, data: Seq<u8>)
    ensures
        unsealed_body(session, data) matches Err(e) ==> e is Ntlm,
{
}

} // verus!
