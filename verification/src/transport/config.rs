//! What a caller configures.

use vstd::prelude::*;

verus! {

/// How requests authenticate.
#[derive(Clone, Copy, Debug, PartialEq, Eq, Structural)]
pub enum AuthMethod {
    Basic,
    Ntlm,
    Kerberos,
    Certificate,
    CredSsp,
}

/// When NTLM requests are sealed.
#[derive(Clone, Copy, Debug, PartialEq, Eq, Structural)]
pub enum EncryptionMode {
    /// Where TLS does not encrypt them already.
    Auto,
    Always,
    Never,
}

/// Connection settings.
#[derive(Clone, Debug)]
pub struct WinrmConfig {
    pub port: u16,
    pub use_tls: bool,
    /// Accepts any server certificate. For tests only.
    pub accept_invalid_certs: bool,
    pub connect_timeout_secs: u64,
    pub operation_timeout_secs: u64,
    pub auth_method: AuthMethod,
    pub encryption: EncryptionMode,
    /// How often a request is tried again after a transport error.
    pub max_retries: u32,
    /// Path of the client certificate, in PEM form.
    pub client_cert_pem: Option<String>,
    /// Path of the client key, in PEM form.
    pub client_key_pem: Option<String>,
    /// URL of a proxy for all requests.
    pub proxy: Option<String>,
    /// Replaces the default user agent.
    pub user_agent: Option<String>,
}

impl EncryptionMode {
    /// NTLM requests are sealed in this mode.
    pub open spec fn seals(self, use_tls: bool) -> bool {
        match self {
            EncryptionMode::Always => true,
            EncryptionMode::Never => false,
            EncryptionMode::Auto => !use_tls,
        }
    }

    /// Whether NTLM requests are sealed in this mode.
    pub fn applies(self, use_tls: bool) -> (r: bool)
        ensures
            r == self.seals(use_tls),
    {
        match self {
            EncryptionMode::Always => true,
            EncryptionMode::Never => false,
            EncryptionMode::Auto => !use_tls,
        }
    }
}

} // verus!
