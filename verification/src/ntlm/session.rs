//! Sealed messages: encryption and signatures under the keys of an authenticated session.

use vstd::prelude::*;
use vstd::slice::slice_subrange;
use vstd::utf8::encode_utf8;

use crate::codec;
use crate::error::NtlmError;
use crate::ntlm::digest;
use crate::ntlm::rc4;
use crate::ntlm::rc4::{Rc4State, Rc4View};

verus! {

/// Length of a message signature.
pub const SIGNATURE_LEN: usize = 16;

/// Purpose of the key that signs what the client sends.
pub const CLIENT_SIGNING: &'static str = "session key to client-to-server signing key magic constant\0";

/// Purpose of the key that encrypts what the client sends.
pub const CLIENT_SEALING: &'static str = "session key to client-to-server sealing key magic constant\0";

/// Purpose of the key that signs what the server sends.
pub const SERVER_SIGNING: &'static str = "session key to server-to-client signing key magic constant\0";

/// Purpose of the key that encrypts what the server sends.
pub const SERVER_SEALING: &'static str = "session key to server-to-client sealing key magic constant\0";

/// The key for one purpose.
pub open spec fn derived_key(session_key: Seq<u8>, purpose: Seq<char>) -> Seq<u8> {
    digest::md5_digest(session_key + encode_utf8(purpose))
}

/// One direction of a session.
#[verifier::ext_equal]
pub struct ChannelView {
    pub sign_key: Seq<u8>,
    pub cipher: Rc4View,
    /// Number of the next message.
    pub seq: u32,
}

/// The number after the given one.
pub open spec fn next_seq(seq: u32) -> u32 {
    if seq == u32::MAX {
        0
    } else {
        (seq + 1) as u32
    }
}

impl ChannelView {
    /// The channel before its first message.
    pub open spec fn new(
        session_key: Seq<u8>,
        signing: Seq<char>,
        sealing: Seq<char>,
    ) -> ChannelView {
        ChannelView {
            sign_key: derived_key(session_key, signing),
            cipher: Rc4View::new(derived_key(session_key, sealing)),
            seq: 0,
        }
    }

    /// The first half of the tag of a message and its number.
    pub open spec fn checksum(self, message: Seq<u8>) -> Seq<u8> {
        let tag = digest::hmac_md5_tag(self.sign_key, codec::u32_le(self.seq) + message);
        Seq::new(8, |k: int| tag[k])
    }

    /// The signature of a message: version, encrypted checksum and message number. The key
    /// stream for the checksum follows that for the message.
    pub open spec fn signature(self, message: Seq<u8>) -> Seq<u8> {
        codec::u32_le(1) + self.cipher.after(message.len()).applied(self.checksum(message))
            + codec::u32_le(self.seq)
    }

    /// A message as it is sent: its signature, then its ciphertext.
    pub open spec fn sealed(self, message: Seq<u8>) -> Seq<u8> {
        self.signature(message) + self.cipher.applied(message)
    }

    /// The channel after a message of `n` bytes.
    pub open spec fn advanced(self, n: nat) -> ChannelView {
        ChannelView {
            cipher: self.cipher.after(n).after(8),
            seq: next_seq(self.seq),
            ..self
        }
    }

    /// The message that received bytes stand for, or the details of why they stand for none.
    pub open spec fn unsealed(self, data: Seq<u8>) -> Result<Seq<u8>, Seq<char>> {
        if data.len() < SIGNATURE_LEN {
            Err("sealed message too short"@)
        } else {
            let message = self.cipher.applied(data.skip(SIGNATURE_LEN as int));
            if data.take(SIGNATURE_LEN as int) == self.signature(message) {
                Ok(message)
            } else {
                Err("message signature mismatch"@)
            }
        }
    }
}

/// One direction of a session.
#[derive(Debug)]
struct Channel {
    sign_key: [u8; 16],
    cipher: Rc4State,
    seq: u32,
}

impl View for Channel {
    type V = ChannelView;

    closed spec fn view(&self) -> ChannelView {
        ChannelView { sign_key: self.sign_key@, cipher: self.cipher@, seq: self.seq }
    }
}

/// Derives the key for one purpose.
fn derive_key(session_key: &[u8; 16], purpose: &str) -> (r: [u8; 16])
    ensures
        r@ == derived_key(session_key@, purpose@),
{
    let mut input: Vec<u8> = Vec::new();
    input.extend_from_slice(session_key);
    input.extend_from_slice(purpose.as_bytes());
    assert(input@ =~= session_key@ + encode_utf8(purpose@));
    digest::md5(input.as_slice())
}

impl Channel {
    fn new(session_key: &[u8; 16], signing: &str, sealing: &str) -> (r: Channel)
        ensures
            r@ == ChannelView::new(session_key@, signing@, sealing@),
    {
        let seal_key = derive_key(session_key, sealing);
        Channel {
            sign_key: derive_key(session_key, signing),
            cipher: Rc4State::new(&seal_key),
            seq: 0,
        }
    }

    /// The signature of a message. The cipher stands behind the message, and moves behind the
    /// checksum.
    fn sign(&self, cipher: &mut Rc4State, message: &[u8]) -> (r: Vec<u8>)
        requires
            old(cipher)@ == self@.cipher.after(message@.len()),
        ensures
            r@ == self@.signature(message@),
            final(cipher)@ == self@.cipher.after(message@.len()).after(8),
    {
        let mut input: Vec<u8> = Vec::new();
        codec::put_u32_le(&mut input, self.seq);
        input.extend_from_slice(message);
        assert(input@ =~= codec::u32_le(self.seq) + message@);
        let tag = digest::hmac_md5(&self.sign_key, input.as_slice());
        let half = slice_subrange(&tag, 0, 8);
        assert(half@ =~= self@.checksum(message@));
        let encrypted = cipher.process(half);
        let mut out: Vec<u8> = Vec::new();
        codec::put_u32_le(&mut out, 1);
        out.extend_from_slice(encrypted.as_slice());
        codec::put_u32_le(&mut out, self.seq);
        assert(out@ =~= self@.signature(message@));
        out
    }

    fn seal(&mut self, message: &[u8]) -> (r: Vec<u8>)
        ensures
            r@ == old(self)@.sealed(message@),
            final(self)@ == old(self)@.advanced(message@.len()),
    {
        let mut cipher = self.cipher;
        let encrypted = cipher.process(message);
        let mut out = self.sign(&mut cipher, message);
        out.extend_from_slice(encrypted.as_slice());
        self.cipher = cipher;
        self.seq = self.seq.wrapping_add(1);
        assert(out@ =~= old(self)@.sealed(message@));
        out
    }

    fn unseal(&mut self, data: &[u8]) -> (r: Result<Vec<u8>, NtlmError>)
        ensures
            message_result(r) == old(self)@.unsealed(data@),
            final(self)@ == match r {
                Ok(message) => old(self)@.advanced(message@.len()),
                Err(_) => old(self)@,
            },
    {
        if data.len() < SIGNATURE_LEN {
            return Err(NtlmError::InvalidMessage("sealed message too short".to_owned()));
        }
        let mut cipher = self.cipher;
        let encrypted = slice_subrange(data, SIGNATURE_LEN, data.len());
        assert(encrypted@ =~= data@.skip(SIGNATURE_LEN as int));
        let message = cipher.process(encrypted);
        let expected = self.sign(&mut cipher, message.as_slice());
        let given = slice_subrange(data, 0, SIGNATURE_LEN);
        assert(given@ =~= data@.take(SIGNATURE_LEN as int));
        if !digest::same_bytes(given, expected.as_slice()) {
            return Err(NtlmError::InvalidMessage("message signature mismatch".to_owned()));
        }
        self.cipher = cipher;
        self.seq = self.seq.wrapping_add(1);
        Ok(message)
    }
}

/// The view of what unsealing returns.
pub open spec fn message_result(r: Result<Vec<u8>, NtlmError>) -> Result<Seq<u8>, Seq<char>> {
    match r {
        Ok(message) => Ok(message@),
        Err(NtlmError::InvalidMessage(details)) => Err(details@),
    }
}

/// An authenticated session, seen from the client.
#[derive(Debug)]
pub struct NtlmSession {
    outgoing: Channel,
    incoming: Channel,
}

/// The two directions of a session.
#[verifier::ext_equal]
pub struct SessionView {
    pub outgoing: ChannelView,
    pub incoming: ChannelView,
}

impl View for NtlmSession {
    type V = SessionView;

    closed spec fn view(&self) -> SessionView {
        SessionView { outgoing: self.outgoing@, incoming: self.incoming@ }
    }
}

/// The view of an optional session.
pub open spec fn optional_view(session: Option<NtlmSession>) -> Option<SessionView> {
    match session {
        Some(s) => Some(s@),
        None => None,
    }
}

impl SessionView {
    /// The session that authentication has agreed on, seen from the client.
    pub open spec fn from_auth(session_key: Seq<u8>) -> SessionView {
        SessionView {
            outgoing: ChannelView::new(session_key, CLIENT_SIGNING@, CLIENT_SEALING@),
            incoming: ChannelView::new(session_key, SERVER_SIGNING@, SERVER_SEALING@),
        }
    }

    /// The session after sending a message.
    pub open spec fn after_seal(self, message: Seq<u8>) -> SessionView {
        SessionView { outgoing: self.outgoing.advanced(message.len()), ..self }
    }

    /// The session after receiving bytes. A refused message leaves it as it was.
    pub open spec fn after_unseal(self, data: Seq<u8>) -> SessionView {
        match self.incoming.unsealed(data) {
            Ok(message) => SessionView { incoming: self.incoming.advanced(message.len()), ..self },
            Err(_) => self,
        }
    }

    /// The same session, seen from the other side.
    pub open spec fn peer(self) -> SessionView {
        SessionView { outgoing: self.incoming, incoming: self.outgoing }
    }
}

impl NtlmSession {
    /// The session for an exported session key.
    pub fn from_auth(session_key: &[u8; 16]) -> (r: NtlmSession)
        ensures
            r@ == SessionView::from_auth(session_key@),
    {
        NtlmSession {
            outgoing: Channel::new(session_key, CLIENT_SIGNING, CLIENT_SEALING),
            incoming: Channel::new(session_key, SERVER_SIGNING, SERVER_SEALING),
        }
    }

    /// Encrypts and signs a message.
    pub fn seal(&mut self, message: &[u8]) -> (r: Vec<u8>)
        ensures
            r@ == old(self)@.outgoing.sealed(message@),
            final(self)@ == old(self)@.after_seal(message@),
    {
        self.outgoing.seal(message)
    }

    /// Decrypts a message and checks its signature.
    pub fn unseal(&mut self, data: &[u8]) -> (r: Result<Vec<u8>, NtlmError>)
        ensures
            message_result(r) == old(self)@.incoming.unsealed(data@),
            final(self)@ == old(self)@.after_unseal(data@),
    {
        self.incoming.unseal(data)
    }
}

/// The other side reads back what was sealed, and both sides move on together.
pub proof fn law_peer_unseals_what_was_sealed(session: SessionView, message: Seq<u8>)
    ensures
        session.peer().incoming.unsealed(session.outgoing.sealed(message)) == Ok::<
            Seq<u8>,
            Seq<char>,
        >(message),
        session.peer().after_unseal(session.outgoing.sealed(message)) == session.after_seal(
            message,
        ).peer(),
{
    let c = session.outgoing;
    let data = c.sealed(message);
    assert(data.skip(SIGNATURE_LEN as int) =~= c.cipher.applied(message));
    assert(data.take(SIGNATURE_LEN as int) =~= c.signature(message));
    rc4::law_rc4_is_involutive(c.cipher, message);
}

/// Only what the other side would have sealed in this place is accepted.
pub proof fn law_unsealed_was_sealed(session: SessionView, data: Seq<u8>)
    requires
        session.incoming.unsealed(data) is Ok,
    ensures
        data == session.peer().outgoing.sealed(session.incoming.unsealed(data)->Ok_0),
{
    let c = session.incoming;
    let message = c.unsealed(data)->Ok_0;
    rc4::law_rc4_is_involutive(c.cipher, data.skip(SIGNATURE_LEN as int));
    assert(data =~= data.take(SIGNATURE_LEN as int) + data.skip(SIGNATURE_LEN as int));
}

/// A sealed message is longer than the message by the length of a signature.
pub proof fn law_sealed_len(c: ChannelView, message: Seq<u8>)
    ensures
        c.sealed(message).len() == SIGNATURE_LEN + message.len(),
{
}

/// What a sealed message consists of: the number 1, the checksum under the key stream that follows
/// that for the message, the number of the message, and the message under the key stream that
/// begins here. The checksum is the first half of the tag of the message and its number.
pub proof fn law_sealed_layout(c: ChannelView, message: Seq<u8>)
    ensures
        ({
            let sealed = c.sealed(message);
            let tag = digest::hmac_md5_tag(c.sign_key, sealed.subrange(12, 16) + message);
            let checksum = Seq::new(8, |k: int| tag[k]);
            &&& sealed.subrange(0, 4) == seq![1u8, 0, 0, 0]
            &&& sealed.subrange(4, 12) == c.cipher.after(message.len()).applied(checksum)
            &&& c.seq == sealed[12] + 0x100 * sealed[13] + 0x1_0000 * sealed[14] + 0x100_0000
                * sealed[15]
            &&& sealed.skip(16) == c.cipher.applied(message)
        }),
{
    let sealed = c.sealed(message);
    codec::law_u32_le_digits(1, Seq::empty());
    codec::law_u32_le_digits(c.seq, Seq::empty());
    assert(sealed.subrange(0, 4) =~= codec::u32_le(1));
    assert(codec::u32_le(1) =~= seq![1u8, 0, 0, 0]);
    assert(sealed.subrange(12, 16) =~= codec::u32_le(c.seq));
    let tag = digest::hmac_md5_tag(c.sign_key, sealed.subrange(12, 16) + message);
    assert(Seq::new(8, |k: int| tag[k]) =~= c.checksum(message));
    assert(sealed.subrange(4, 12) =~= c.cipher.after(message.len()).applied(c.checksum(message)));
    assert(sealed.skip(16) =~= c.cipher.applied(message));
}

/// A message moves its channel on: the key stream by the message and the eight bytes of its
/// checksum, and the number by one, modulo 2^32. The key for signatures stays.
pub proof fn law_channel_moves_on(c: ChannelView, n: nat)
    ensures
        c.advanced(n).cipher == c.cipher.after(n + 8),
        c.advanced(n).seq as int == (c.seq + 1) % 0x1_0000_0000,
        c.advanced(n).sign_key == c.sign_key,
{
    rc4::lemma_after_sum(c.cipher, n, 8);
}

/// The keys of a session. Each direction signs and encrypts under a digest of the session key and
/// a text of its own, from the beginning of the key stream and with number zero on.
pub proof fn law_session_keys(session_key: Seq<u8>)
    ensures
        ({
            let session = SessionView::from_auth(session_key);
            &&& session.outgoing.sign_key == digest::md5_digest(
                session_key + encode_utf8(
                    "session key to client-to-server signing key magic constant\0"@,
                ),
            )
            &&& session.outgoing.cipher == Rc4View::new(
                digest::md5_digest(
                    session_key + encode_utf8(
                        "session key to client-to-server sealing key magic constant\0"@,
                    ),
                ),
            )
            &&& session.incoming.sign_key == digest::md5_digest(
                session_key + encode_utf8(
                    "session key to server-to-client signing key magic constant\0"@,
                ),
            )
            &&& session.incoming.cipher == Rc4View::new(
                digest::md5_digest(
                    session_key + encode_utf8(
                        "session key to server-to-client sealing key magic constant\0"@,
                    ),
                ),
            )
            &&& session.outgoing.seq == 0
            &&& session.incoming.seq == 0
        }),
{
}

/// Received bytes are accepted if and only if they are what the other side would have sealed in
/// this place. What is refused leaves the session as it was, and is too short or carries a
/// signature that does not match. No direction touches the other.
pub proof fn law_what_is_accepted(session: SessionView, data: Seq<u8>, sent: Seq<u8>)
    ensures
        session.incoming.unsealed(data) is Ok <==> exists|message: Seq<u8>|
            data == #[trigger] session.incoming.sealed(message),
        session.incoming.unsealed(data) is Err ==> session.after_unseal(data) == session,
        session.incoming.unsealed(data) matches Ok(message) ==> session.after_unseal(data).incoming
            == session.incoming.advanced(message.len()),
        session.after_unseal(data).outgoing == session.outgoing,
        session.after_seal(sent).incoming == session.incoming,
        session.after_seal(sent).outgoing == session.outgoing.advanced(sent.len()),
        data.len() < 16 ==> session.incoming.unsealed(data) == Err::<Seq<u8>, Seq<char>>(
            "sealed message too short"@,
        ),
        data.len() >= 16 && session.incoming.unsealed(data) is Err ==> session.incoming.unsealed(
            data,
        ) == Err::<Seq<u8>, Seq<char>>("message signature mismatch"@),
{
    if session.incoming.unsealed(data) is Ok {
        law_unsealed_was_sealed(session, data);
    }
    if exists|message: Seq<u8>| data == #[trigger] session.incoming.sealed(message) {
        let message = choose|message: Seq<u8>| data == #[trigger] session.incoming.sealed(message);
        law_peer_unseals_what_was_sealed(session.peer(), message);
    }
}

} // verus!
