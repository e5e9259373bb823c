//! A verified core for Windows Remote Management clients.

pub mod base64_text;
pub mod codec;
pub mod error;
pub mod ntlm;
pub mod psrp;
pub mod search;
pub mod text;
pub mod text_laws;
pub mod transport;
pub mod uuid;

