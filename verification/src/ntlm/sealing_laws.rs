//! What holds of every sealed body.

use vstd::prelude::*;
use vstd::utf8::*;

use crate::codec;
use crate::ntlm::sealing;
use crate::ntlm::session;
use crate::ntlm::session::SessionView;
use crate::search;
use crate::text;

verus! {

/// Where slashes stand in the constant parts of a frame.
proof fn lemma_slashes()
    ensures
        is_ascii_chars(sealing::FRAME_HEAD@),
        forall|k: int|
            0 <= k < sealing::FRAME_HEAD@.len() && #[trigger] sealing::FRAME_HEAD@[k] == '/' ==> k
                + 1 < sealing::FRAME_HEAD@.len() && sealing::FRAME_HEAD@[k + 1] != 'o',
        is_ascii_chars(sealing::FRAME_MIDDLE@),
        forall|k: int|
            0 <= k < sealing::FRAME_MIDDLE@.len() ==> #[trigger] sealing::FRAME_MIDDLE@[k] != '/',
        is_ascii_chars(sealing::PAYLOAD_MARKER@),
        sealing::PAYLOAD_MARKER@.len() == 26,
        sealing::PAYLOAD_MARKER@[11] == '/',
        sealing::PAYLOAD_MARKER@[12] == 'o',
        forall|k: int| 0 <= k < 11 ==> #[trigger] sealing::PAYLOAD_MARKER@[k] != '/',
{
    reveal_strlit(
        "--Encrypted Boundary\r\n\tContent-Type: application/HTTP-SPNEGO-session-encrypted\r\n\tOriginalContent: type=application/soap+xml;charset=UTF-8;Length=",
    );
    reveal_strlit("\r\n--Encrypted Boundary\r\n\tContent-Type: ");
    reveal_strlit("application/octet-stream\r\n");
}

/// A digit is an ASCII character and no slash.
proof fn lemma_digit(c: char)
    requires
        text::is_digit(c),
    ensures
        '\0' <= c <= '\u{7f}',
        c != '/',
{
}

/// A frame header consists of ASCII characters.
proof fn lemma_header_is_ascii(n: nat)
    ensures
        is_ascii_chars(sealing::frame_header(n)),
{
    lemma_slashes();
    text::lemma_decimal_value(n);
    let digits = text::decimal(n);
    assert forall|i: int| 0 <= i < digits.len() implies '\0' <= #[trigger] digits[i]
        <= '\u{7f}' by {
        lemma_digit(digits[i]);
    }
}

/// The payload marker is the end of the frame header, and stands nowhere before that.
proof fn lemma_marker_ends_header(n: nat, rest: Seq<u8>)
    ensures
        ({
            let header = encode_utf8(sealing::frame_header(n));
            let marker = encode_utf8(sealing::PAYLOAD_MARKER@);
            &&& search::find(header + rest, marker) == Some(header.len() - marker.len())
        }),
{
    let chars = sealing::frame_header(n);
    let header = encode_utf8(chars);
    let marker = encode_utf8(sealing::PAYLOAD_MARKER@);
    let data = header + rest;
    let head = sealing::FRAME_HEAD@;
    let digits = text::decimal(n);
    let middle = sealing::FRAME_MIDDLE@;
    let mark = sealing::PAYLOAD_MARKER@;
    lemma_slashes();
    text::lemma_decimal_value(n);
    assert forall|i: int| 0 <= i < digits.len() implies #[trigger] digits[i] != '/' by {
        lemma_digit(digits[i]);
    }
    lemma_header_is_ascii(n);
    is_ascii_chars_encode_utf8(chars);
    is_ascii_chars_encode_utf8(mark);
    let p = (head.len() + digits.len() + middle.len()) as int;
    assert(search::occurs_at(data, marker, p)) by {
        assert(data.subrange(p, p + marker.len()) =~= marker);
    }
    assert forall|i: int| 0 <= i < p implies !search::occurs_at(data, marker, i) by {
        if search::occurs_at(data, marker, i) {
            let q = i + 11;
            assert(data.subrange(i, i + marker.len())[11] == marker[11]);
            assert(data.subrange(i, i + marker.len())[12] == marker[12]);
            assert(mark[11] as u8 == marker[11] && mark[12] as u8 == marker[12]);
            assert(chars[q] as u8 == header[q] && chars[q + 1] as u8 == header[q + 1]);
            assert(chars[q] == '/');
            assert(chars[q + 1] == 'o');
            if q < head.len() {
                assert(head[q] == '/');
                assert(head[q + 1] == 'o');
            } else if q < head.len() + digits.len() {
                assert(chars[q] == digits[q - head.len()]);
            } else if q < p {
                assert(chars[q] == middle[q - head.len() - digits.len()]);
            } else {
                assert(chars[q] == mark[q - p]);
            }
        }
    }
    search::lemma_find_from_is(data, marker, 0, p);
}

/// The mark of a sealed body stands in every frame.
pub proof fn lemma_framed_mark(n: nat, sealed: Seq<u8>)
    ensures
        search::contains(sealing::framed(n, sealed), encode_utf8(sealing::SEALED_MARK@)),
{
    let chars = sealing::frame_header(n);
    let mark = encode_utf8(sealing::SEALED_MARK@);
    let data = sealing::framed(n, sealed);
    reveal_strlit(
        "--Encrypted Boundary\r\n\tContent-Type: application/HTTP-SPNEGO-session-encrypted\r\n\tOriginalContent: type=application/soap+xml;charset=UTF-8;Length=",
    );
    reveal_strlit("Encrypted Boundary");
    lemma_header_is_ascii(n);
    is_ascii_chars_encode_utf8(chars);
    is_ascii_chars_encode_utf8(sealing::SEALED_MARK@);
    let found = data.subrange(2, 2int + mark.len());
    assert forall|k: int| 0 <= k < mark.len() implies #[trigger] found[k] == mark[k] by {
        assert(chars[k + 2] == sealing::FRAME_HEAD@[k + 2]);
        assert(sealing::FRAME_HEAD@[k + 2] == sealing::SEALED_MARK@[k]);
    }
    assert(found =~= mark);
    assert(search::occurs_at(data, mark, 2));
    search::lemma_find_from(data, mark, 0);
}

/// The closing boundary begins nowhere inside the sealed payload.
pub open spec fn boundary_only_at_end(sealed: Seq<u8>) -> bool {
    forall|i: int|
        0 <= i < sealed.len() ==> !#[trigger] search::occurs_at(
            sealed + encode_utf8(sealing::CLOSING_BOUNDARY@ + "\r\n"@),
            encode_utf8(sealing::CLOSING_BOUNDARY@),
            i,
        )
}

/// A payload that holds a signature is taken out of its frame as it was put in, unless the
/// closing boundary occurs in it.
pub proof fn law_frame_is_read_back(n: nat, sealed: Seq<u8>)
    requires
        sealed.len() >= session::SIGNATURE_LEN,
        boundary_only_at_end(sealed),
    ensures
        sealing::payload(sealing::framed(n, sealed)) == Ok::<Seq<u8>, Seq<char>>(sealed),
{
    let header = encode_utf8(sealing::frame_header(n));
    let len = codec::u32_le(sealing::ANNOUNCED_SIGNATURE_LEN);
    let boundary = encode_utf8(sealing::CLOSING_BOUNDARY@);
    let end = encode_utf8(sealing::CLOSING_BOUNDARY@ + "\r\n"@);
    let data = sealing::framed(n, sealed);
    let at = header.len() as int;
    assert(data =~= header + (len + sealed + end));
    lemma_marker_ends_header(n, len + sealed + end);
    assert(data.subrange(at, at + 4) =~= len);
    codec::lemma_u32_le_roundtrip(sealing::ANNOUNCED_SIGNATURE_LEN);
    let rest = data.skip(at + 4);
    assert(rest =~= sealed + end);
    assert(search::occurs_at(rest, boundary, sealed.len() as int)) by {
        reveal_strlit("--Encrypted Boundary--");
        reveal_strlit("\r\n");
        let whole = sealing::CLOSING_BOUNDARY@ + "\r\n"@;
        assert(is_ascii_chars(sealing::CLOSING_BOUNDARY@));
        assert(is_ascii_chars(whole));
        is_ascii_chars_encode_utf8(sealing::CLOSING_BOUNDARY@);
        is_ascii_chars_encode_utf8(whole);
        let found = rest.subrange(sealed.len() as int, sealed.len() as int + boundary.len());
        assert forall|k: int| 0 <= k < boundary.len() implies #[trigger] found[k]
            == boundary[k] by {
            assert(whole[k] == sealing::CLOSING_BOUNDARY@[k]);
        }
        assert(found =~= boundary);
    }
    search::lemma_find_from_is(rest, boundary, 0, sealed.len() as int);
    assert(rest.take(sealed.len() as int) =~= sealed);
}

/// The other side reads a sealed body back as it was sent, and both sides move on together,
/// unless the closing boundary occurs in the ciphertext.
pub proof fn law_body_is_read_back(side: SessionView, body: Seq<char>)
    requires
        boundary_only_at_end(side.outgoing.sealed(encode_utf8(body))),
    ensures
        ({
            let bytes = encode_utf8(body);
            let data = sealing::framed(bytes.len(), side.outgoing.sealed(bytes));
            &&& sealing::unsealed_text(side.peer(), data) == Ok::<Seq<char>, Seq<char>>(body)
            &&& sealing::after_unseal_body(side.peer(), data) == side.after_seal(bytes).peer()
        }),
{
    let bytes = encode_utf8(body);
    session::law_sealed_len(side.outgoing, bytes);
    law_frame_is_read_back(bytes.len(), side.outgoing.sealed(bytes));
    session::law_peer_unseals_what_was_sealed(side, bytes);
    encode_utf8_valid_utf8(body);
    encode_utf8_decode_utf8(body);
}

/// What a frame consists of: a head that announces the length of the plain body, the length of a
/// signature, the payload, and the closing boundary directly behind it.
pub proof fn law_frame_layout(n: nat, sealed: Seq<u8>)
    ensures
        sealing::framed(n, sealed) == encode_utf8(
            "--Encrypted Boundary\r\n\tContent-Type: application/HTTP-SPNEGO-session-encrypted\r\n\tOriginalContent: type=application/soap+xml;charset=UTF-8;Length="@
                + text::decimal(n) + "\r\n--Encrypted Boundary\r\n\tContent-Type: "@
                + "application/octet-stream\r\n"@,
        ) + seq![16u8, 0, 0, 0] + sealed + encode_utf8("--Encrypted Boundary--"@ + "\r\n"@),
        sealing::ENCRYPTED_CONTENT_TYPE@
            == "multipart/encrypted;protocol=\"application/HTTP-SPNEGO-session-encrypted\";boundary=\"Encrypted Boundary\""@,
{
    codec::law_u32_le_digits(16, Seq::empty());
    assert(codec::u32_le(16) =~= seq![16u8, 0, 0, 0]);
}

/// Where the payload of a body stands: behind the first marker and the four bytes that announce
/// the length of a signature, and before the closing boundary or the end.
pub open spec fn is_payload(data: Seq<u8>, at: int, sealed: Seq<u8>) -> bool {
    let marker = encode_utf8("application/octet-stream\r\n"@);
    let boundary = encode_utf8("--Encrypted Boundary--"@);
    let end = at + 4 + sealed.len();
    &&& search::occurs_at(data, marker, at - marker.len())
    &&& forall|j: int| 0 <= j < at - marker.len() ==> !#[trigger] search::occurs_at(data, marker, j)
    &&& end <= data.len()
    &&& sealed == data.subrange(at + 4, end)
    &&& end == data.len() || search::occurs_at(data, boundary, end)
    &&& forall|j: int| at + 4 <= j < end ==> !#[trigger] search::occurs_at(data, boundary, j)
}

/// The payload of any body is what is taken out of it, unless it is shorter than the four bytes
/// before it announce.
pub proof fn law_payload_is_taken_out(data: Seq<u8>, at: int, sealed: Seq<u8>)
    requires
        is_payload(data, at, sealed),
    ensures
        sealing::payload(data) == if data[at] + 0x100 * data[at + 1] + 0x1_0000 * data[at + 2]
            + 0x100_0000 * data[at + 3] <= sealed.len() {
            Ok::<Seq<u8>, Seq<char>>(sealed)
        } else {
            Err("sealed response: data too short for signature"@)
        },
{
    let marker = encode_utf8("application/octet-stream\r\n"@);
    let boundary = encode_utf8("--Encrypted Boundary--"@);
    search::lemma_find_from_is(data, marker, 0, at - marker.len());
    let front = data.take(at + 4);
    let rest = data.skip(at + 4);
    let n = sealed.len() as int;
    assert(data =~= front + rest);
    assert forall|j: int| 0 <= j < n implies !#[trigger] search::occurs_at(rest, boundary, j) by {
        search::lemma_occurs_shift(front, rest, boundary, j);
    }
    assert(rest.take(n) =~= sealed);
    if n < rest.len() {
        search::lemma_occurs_shift(front, rest, boundary, n);
        search::lemma_find_from_is(rest, boundary, 0, n);
    } else {
        reveal_strlit("--Encrypted Boundary--");
        assert(is_ascii_chars("--Encrypted Boundary--"@));
        is_ascii_chars_encode_utf8("--Encrypted Boundary--"@);
        assert forall|j: int| 0 <= j implies !#[trigger] search::occurs_at(rest, boundary, j) by {}
        search::lemma_find_from_none(rest, boundary, 0);
        assert(rest =~= sealed);
    }
    let four = data.subrange(at, at + 4);
    codec::law_u32_le_digits(0, four);
    assert(four[0] == data[at] && four[1] == data[at + 1] && four[2] == data[at + 2] && four[3]
        == data[at + 3]);
}

/// Without a marker there is no payload, nor without room for four bytes behind the first one.
pub proof fn law_no_payload(data: Seq<u8>, at: int)
    ensures
        ({
            let marker = encode_utf8("application/octet-stream\r\n"@);
            &&& !(exists|j: int| #[trigger] search::occurs_at(data, marker, j))
                ==> sealing::payload(data) == Err::<Seq<u8>, Seq<char>>(
                "sealed response: missing octet-stream marker"@,
            )
            &&& search::occurs_at(data, marker, at) && (forall|j: int|
                0 <= j < at ==> !#[trigger] search::occurs_at(data, marker, j)) && data.len() < at
                + marker.len() + 4 ==> sealing::payload(data) == Err::<Seq<u8>, Seq<char>>(
                "sealed response: truncated"@,
            )
        }),
{
    let marker = encode_utf8("application/octet-stream\r\n"@);
    search::lemma_find_from(data, marker, 0);
}

/// The text of an unsealed body is what its bytes encode, and there is none where they are not
/// UTF-8.
pub proof fn law_body_text(plain: Seq<u8>)
    ensures
        valid_utf8(plain) ==> (sealing::body_text(plain) matches Ok(body) && encode_utf8(body)
            == plain),
        !valid_utf8(plain) ==> sealing::body_text(plain) == Err::<Seq<char>, Seq<char>>(
            "sealed response: invalid UTF-8: "@ + codec::utf8_error_text(plain),
        ),
{
    if valid_utf8(plain) {
        decode_utf8_encode_utf8(plain);
    }
}

/// What unsealing a body comes to is decided by its payload and then by its seal, and the session
/// moves on exactly where the seal holds, also where the body is no text.
pub proof fn law_unsealing_a_body(session: SessionView, data: Seq<u8>)
    ensures
        match sealing::payload(data) {
            Err(details) => {
                &&& sealing::unsealed_text(session, data) == Err::<Seq<char>, Seq<char>>(details)
                &&& sealing::after_unseal_body(session, data) == session
            },
            Ok(sealed) => match session.incoming.unsealed(sealed) {
                Err(details) => {
                    &&& sealing::unsealed_text(session, data) == Err::<Seq<char>, Seq<char>>(
                        details,
                    )
                    &&& sealing::after_unseal_body(session, data) == session
                },
                Ok(plain) => {
                    &&& sealing::unsealed_text(session, data) == sealing::body_text(plain)
                    &&& sealing::after_unseal_body(session, data).incoming
                        == session.incoming.advanced(plain.len())
                    &&& sealing::after_unseal_body(session, data).outgoing == session.outgoing
                },
            },
        },
{
}

} // verus!
