//! NTLM message protection and the exchange that sets it up.

pub mod authentication;
pub mod authentication_laws;
pub mod digest;
pub mod handshake;
pub mod rc4;
pub mod reply;
pub mod reply_laws;
pub mod sealing;
pub mod sealing_laws;
pub mod session;
