//! Setting up the HTTP client, and choosing how a request authenticates.

use vstd::prelude::*;
use vstd::slice::slice_subrange;

use crate::error;
use crate::error::{SoapError, SoapErrorView, WinrmError, WinrmErrorView};
use crate::search;
use crate::text;
use crate::transport::config::{AuthMethod, WinrmConfig};
use crate::transport::host;
use crate::transport::sealed;
use crate::transport::sealed::{CacheView, CachedSession};

verus! {

/// A proxy of the HTTP client.
#[verifier::external_type_specification]
#[verifier::external_body]
pub struct ExProxy(reqwest::Proxy);

/// A client certificate with its key.
#[verifier::external_type_specification]
#[verifier::external_body]
pub struct ExIdentity(reqwest::Identity);

/// What `reqwest::Proxy::all` makes of a URL: a proxy, or the message of an error.
pub uninterp spec fn proxy_of(url: Seq<char>) -> Result<reqwest::Proxy, Seq<char>>;

/// What `reqwest::Identity::from_pem` makes of a PEM bundle: an identity, or the message of an
/// error.
pub uninterp spec fn identity_of(pem: Seq<u8>) -> Result<reqwest::Identity, Seq<char>>;

/// The message of the error that a proxy URL raises, if it raises one.
pub open spec fn proxy_error(url: Seq<char>) -> Option<Seq<char>> {
    match proxy_of(url) {
        Ok(_) => None,
        Err(message) => Some(message),
    }
}

/// The message of the error that a PEM bundle raises, if it raises one.
pub open spec fn identity_error(pem: Seq<u8>) -> Option<Seq<char>> {
    match identity_of(pem) {
        Ok(_) => None,
        Err(message) => Some(message),
    }
}

/// The view of what came of a proxy URL or a PEM bundle.
pub open spec fn outcome_view<T>(r: Result<T, String>) -> Result<T, Seq<char>> {
    match r {
        Ok(value) => Ok(value),
        Err(message) => Err(message@),
    }
}

/// `reqwest::Proxy::all`: the proxy, or the message of the error, depends on the URL alone.
#[verifier::external_body]
fn outside_proxy(url: &str) -> (r: Result<reqwest::Proxy, String>)
    ensures
        outcome_view(r) == proxy_of(url@),
{
    reqwest::Proxy::all(url).map_err(|e| e.to_string())
}

/// `reqwest::Identity::from_pem`: the identity, or the message of the error, depends on the bytes
/// of the bundle alone.
#[verifier::external_body]
fn outside_identity(pem: &[u8]) -> (r: Result<reqwest::Identity, String>)
    ensures
        outcome_view(r) == identity_of(pem@),
{
    reqwest::Identity::from_pem(pem).map_err(|e| e.to_string())
}

/// What reading the two files of a client certificate brought: their bytes, or the message of
/// the error.
#[derive(Debug)]
pub struct ClientFiles {
    pub cert: Result<Vec<u8>, String>,
    pub key: Result<Vec<u8>, String>,
}

impl ClientFiles {
    /// Stands for files that are not needed.
    pub fn unused() -> (r: ClientFiles)
        ensures
            r.cert matches Ok(bytes) && bytes@ == Seq::<u8>::empty(),
            r.key matches Ok(bytes) && bytes@ == Seq::<u8>::empty(),
    {
        ClientFiles { cert: Ok(Vec::new()), key: Ok(Vec::new()) }
    }
}

/// The view of what reading a file brought.
pub open spec fn file_view(r: Result<Vec<u8>, String>) -> Result<Seq<u8>, Seq<char>> {
    match r {
        Ok(bytes) => Ok(bytes@),
        Err(message) => Err(message@),
    }
}

/// The paths of the client certificate and its key, where authentication needs them.
pub open spec fn identity_paths(config: WinrmConfig) -> Result<
    Option<(Seq<char>, Seq<char>)>,
    WinrmErrorView,
> {
    if config.auth_method != AuthMethod::Certificate {
        Ok(None)
    } else {
        match (config.client_cert_pem, config.client_key_pem) {
            (None, _) => Err(
                WinrmErrorView::AuthFailed("Certificate auth requires client_cert_pem"@),
            ),
            (Some(_), None) => Err(
                WinrmErrorView::AuthFailed("Certificate auth requires client_key_pem"@),
            ),
            (Some(cert), Some(key)) => Ok(Some((cert@, key@))),
        }
    }
}

/// The bundle of a client certificate and its key, from what reading their files brought.
pub open spec fn identity_bundle(
    paths: (Seq<char>, Seq<char>),
    cert: Result<Seq<u8>, Seq<char>>,
    key: Result<Seq<u8>, Seq<char>>,
) -> Result<Seq<u8>, WinrmErrorView> {
    match (cert, key) {
        (Err(message), _) => Err(
            WinrmErrorView::AuthFailed(
                "failed to read client cert "@ + paths.0 + ": "@ + message,
            ),
        ),
        (Ok(_), Err(message)) => Err(
            WinrmErrorView::AuthFailed(
                "failed to read client key "@ + paths.1 + ": "@ + message,
            ),
        ),
        (Ok(c), Ok(k)) => Ok(c + seq![10u8] + k),
    }
}

/// The bundle that a configuration calls for.
pub open spec fn configured_bundle(
    config: WinrmConfig,
    cert: Result<Seq<u8>, Seq<char>>,
    key: Result<Seq<u8>, Seq<char>>,
) -> Result<Option<Seq<u8>>, WinrmErrorView> {
    match identity_paths(config) {
        Err(e) => Err(e),
        Ok(None) => Ok(None),
        Ok(Some(paths)) => match identity_bundle(paths, cert, key) {
            Ok(pem) => Ok(Some(pem)),
            Err(e) => Err(e),
        },
    }
}

/// The server's certificate is verified, so that a verifier is needed.
pub open spec fn needs_verifier(config: WinrmConfig) -> bool {
    config.use_tls && !config.accept_invalid_certs
}

/// The error with which setting up fails, given the messages of what went wrong with the client
/// certificate, the proxy and the verifier of the server's certificate.
///
/// Where several things are wrong, the certificate comes first and the verifier last. Only
/// CredSSP without TLS is a matter of authentication.
pub open spec fn setup_error(
    config: WinrmConfig,
    identity: Option<Seq<char>>,
    proxy: Option<Seq<char>>,
    verifier: Option<Seq<char>>,
) -> Option<WinrmErrorView> {
    if identity is Some {
        Some(WinrmErrorView::Http(identity->0))
    } else if proxy is Some {
        Some(WinrmErrorView::Http(proxy->0))
    } else if config.auth_method == AuthMethod::CredSsp && !config.use_tls {
        Some(WinrmErrorView::AuthFailed("CredSSP requires HTTPS (set use_tls = true)"@))
    } else if needs_verifier(config) && verifier is Some {
        Some(WinrmErrorView::Http("TLS verifier error: "@ + verifier->0))
    } else {
        None
    }
}

/// The error with which setting up from files fails.
pub open spec fn transport_error(
    config: WinrmConfig,
    cert: Result<Seq<u8>, Seq<char>>,
    key: Result<Seq<u8>, Seq<char>>,
    verifier: Option<Seq<char>>,
) -> Option<WinrmErrorView> {
    match configured_bundle(config, cert, key) {
        Err(e) => Some(e),
        Ok(bundle) => setup_error(
            config,
            match bundle {
                Some(pem) => identity_error(pem),
                None => None,
            },
            match config.proxy {
                Some(url) => proxy_error(url@),
                None => None,
            },
            verifier,
        ),
    }
}

/// The message of an outcome that failed.
pub open spec fn failure<T>(r: Option<Result<T, String>>) -> Option<Seq<char>> {
    match r {
        Some(Err(message)) => Some(message@),
        _ => None,
    }
}

/// The value of an outcome that did not fail.
pub open spec fn success<T>(r: Option<Result<T, String>>) -> Option<T> {
    match r {
        Some(Ok(value)) => Some(value),
        _ => None,
    }
}

/// The paths of the files that setting up needs.
pub fn needed_files(config: &WinrmConfig) -> (r: Result<Option<(String, String)>, WinrmError>)
    ensures
        match r {
            Ok(Some(paths)) => identity_paths(*config) == Ok::<
                Option<(Seq<char>, Seq<char>)>,
                WinrmErrorView,
            >(Some((paths.0@, paths.1@))),
            Ok(None) => identity_paths(*config) == Ok::<
                Option<(Seq<char>, Seq<char>)>,
                WinrmErrorView,
            >(None),
            Err(e) => identity_paths(*config) == Err::<
                Option<(Seq<char>, Seq<char>)>,
                WinrmErrorView,
            >(e@),
        },
{
    match config.auth_method {
        AuthMethod::Certificate => {},
        _ => {
            return Ok(None);
        },
    }
    match &config.client_cert_pem {
        None => Err(
            WinrmError::AuthFailed("Certificate auth requires client_cert_pem".to_owned()),
        ),
        Some(cert) => match &config.client_key_pem {
            None => Err(
                WinrmError::AuthFailed("Certificate auth requires client_key_pem".to_owned()),
            ),
            Some(key) => Ok(Some((cert.as_str().to_owned(), key.as_str().to_owned()))),
        },
    }
}

/// Joins the files of a client certificate and its key.
pub fn bundle(cert_path: &str, key_path: &str, files: ClientFiles) -> (r: Result<
    Vec<u8>,
    WinrmError,
>)
    ensures
        match r {
            Ok(pem) => identity_bundle(
                (cert_path@, key_path@),
                file_view(files.cert),
                file_view(files.key),
            ) == Ok::<Seq<u8>, WinrmErrorView>(pem@),
            Err(e) => identity_bundle(
                (cert_path@, key_path@),
                file_view(files.cert),
                file_view(files.key),
            ) == Err::<Seq<u8>, WinrmErrorView>(e@),
        },
{
    match files.cert {
        Err(e) => {
            let mut message = text::concat("failed to read client cert ", cert_path);
            message.append(": ");
            message.append(e.as_str());
            Err(WinrmError::AuthFailed(message))
        },
        Ok(cert) => match files.key {
            Err(e) => {
                let mut message = text::concat("failed to read client key ", key_path);
                message.append(": ");
                message.append(e.as_str());
                Err(WinrmError::AuthFailed(message))
            },
            Ok(key) => {
                let ghost c = cert@;
                let mut pem = cert;
                pem.push(10);
                pem.extend_from_slice(key.as_slice());
                assert(pem@ =~= c + seq![10u8] + key@);
                Ok(pem)
            },
        },
    }
}

/// What the HTTP client is built with.
#[derive(Debug)]
pub struct ClientSettings {
    /// The only encoding of replies that is accepted. Sealed bodies are never compressed.
    pub accept_encoding: String,
    /// Authentication is bound to the connection, so it is kept alive.
    pub connection: String,
    pub accept_invalid_certs: bool,
    /// A redirect could hand credentials to another host.
    pub follow_redirects: bool,
    pub connect_timeout_secs: u64,
    pub timeout_secs: u64,
    pub http1_only: bool,
    pub tcp_nodelay: bool,
    pub tcp_keepalive_secs: u64,
    /// One idle connection at most, so that a session finds its own again.
    pub pool_max_idle_per_host: usize,
    pub pool_idle_timeout_secs: u64,
    pub user_agent: String,
    /// Whether the server's certificate is captured for channel bindings.
    pub capture_cert: bool,
}

/// The settings are those for a configuration. `version` stands in the default user agent, and
/// `capture_cert` tells whether the server's certificate is captured.
pub open spec fn settings_for(
    config: WinrmConfig,
    capture_cert: bool,
    version: Seq<char>,
    s: ClientSettings,
) -> bool {
    &&& s.accept_encoding@ == "identity"@
    &&& s.connection@ == "Keep-Alive"@
    &&& s.accept_invalid_certs == config.accept_invalid_certs
    &&& !s.follow_redirects
    &&& s.connect_timeout_secs == config.connect_timeout_secs
    &&& s.timeout_secs == config.operation_timeout_secs + 10
    &&& s.http1_only
    &&& s.tcp_nodelay
    &&& s.tcp_keepalive_secs == 60
    &&& s.pool_max_idle_per_host == 1
    &&& s.pool_idle_timeout_secs == 90
    &&& s.user_agent@ == match config.user_agent {
        Some(agent) => agent@,
        None => "winrm-rs/"@ + version,
    }
    &&& s.capture_cert == capture_cert
}

/// How a request authenticates.
#[derive(Debug)]
pub enum Route {
    Basic,
    /// NTLM, with sealed bodies.
    NtlmSealed,
    /// NTLM, with plain bodies.
    NtlmPlain,
    Kerberos { service_principal: String },
    Certificate,
    CredSsp,
}

/// What a [`Route`] holds.
pub enum RouteView {
    Basic,
    NtlmSealed,
    NtlmPlain,
    Kerberos { service_principal: Seq<char> },
    Certificate,
    CredSsp,
}

impl View for Route {
    type V = RouteView;

    open spec fn view(&self) -> RouteView {
        match self {
            Route::Basic => RouteView::Basic,
            Route::NtlmSealed => RouteView::NtlmSealed,
            Route::NtlmPlain => RouteView::NtlmPlain,
            Route::Kerberos { service_principal } => RouteView::Kerberos {
                service_principal: service_principal@,
            },
            Route::Certificate => RouteView::Certificate,
            Route::CredSsp => RouteView::CredSsp,
        }
    }
}

/// How a request to a host authenticates. `credssp` tells whether CredSSP is built in.
pub open spec fn route_for(config: WinrmConfig, given: Seq<char>, credssp: bool) -> Result<
    RouteView,
    WinrmErrorView,
> {
    match config.auth_method {
        AuthMethod::Basic => Ok(RouteView::Basic),
        AuthMethod::Ntlm => if config.encryption.seals(config.use_tls) {
            Ok(RouteView::NtlmSealed)
        } else {
            Ok(RouteView::NtlmPlain)
        },
        AuthMethod::Kerberos => Ok(
            RouteView::Kerberos {
                service_principal: "HTTP/"@ + search::before_first(given, ":"@),
            },
        ),
        AuthMethod::Certificate => Ok(RouteView::Certificate),
        AuthMethod::CredSsp => if credssp {
            Ok(RouteView::CredSsp)
        } else {
            Err(
                WinrmErrorView::AuthFailed(
                    "CredSSP authentication requires the `credssp` cargo feature"@,
                ),
            )
        },
    }
}

/// The view of a chosen route.
pub open spec fn route_result(r: Result<Route, WinrmError>) -> Result<RouteView, WinrmErrorView> {
    match r {
        Ok(route) => Ok(route@),
        Err(e) => Err(e@),
    }
}

/// The result of a request whose reply was read. A SOAP fault in the reply is an error.
pub open spec fn checked_reply(
    reply: Result<Seq<char>, WinrmErrorView>,
    fault: Option<SoapErrorView>,
) -> Result<Seq<char>, WinrmErrorView> {
    match reply {
        Ok(body) => match fault {
            Some(e) => Err(WinrmErrorView::Soap(e)),
            None => Ok(body),
        },
        Err(e) => Err(e),
    }
}

/// Checks the reply to a request for a SOAP fault.
///
/// `fault` is the SOAP error found in the reply, if there is one.
pub fn check_reply(reply: Result<String, WinrmError>, fault: Option<SoapError>) -> (r: Result<
    String,
    WinrmError,
>)
    ensures
        error::text_result(r) == checked_reply(
            error::text_result(reply),
            error::fault_view(fault),
        ),
{
    match reply {
        Ok(body) => match fault {
            Some(e) => Err(WinrmError::Soap(e)),
            None => Ok(body),
        },
        Err(e) => Err(e),
    }
}

/// A transport for SOAP requests, as far as it does not touch the network.
pub struct HttpTransport {
    config: WinrmConfig,
    identity: Option<reqwest::Identity>,
    proxy: Option<reqwest::Proxy>,
    capture_cert: bool,
    cache: Option<CachedSession>,
}

/// What a transport hands over for the HTTP client and the session cache.
pub struct ClientParts {
    /// The client certificate.
    pub identity: Option<reqwest::Identity>,
    /// The proxy.
    pub proxy: Option<reqwest::Proxy>,
    /// The sealed session that is kept for the next request.
    pub cache: Option<CachedSession>,
}

/// The client certificate that a configuration calls for, where setting up succeeds.
pub open spec fn configured_identity(
    config: WinrmConfig,
    cert: Result<Seq<u8>, Seq<char>>,
    key: Result<Seq<u8>, Seq<char>>,
) -> Option<reqwest::Identity> {
    match configured_bundle(config, cert, key) {
        Ok(Some(pem)) => Some(identity_of(pem)->Ok_0),
        _ => None,
    }
}

/// The proxy that a configuration calls for, where setting up succeeds.
pub open spec fn configured_proxy(config: WinrmConfig) -> Option<reqwest::Proxy> {
    match config.proxy {
        Some(url) => Some(proxy_of(url@)->Ok_0),
        None => None,
    }
}

impl HttpTransport {
    /// The configuration.
    pub closed spec fn spec_config(&self) -> WinrmConfig {
        self.config
    }

    /// The client certificate.
    pub closed spec fn spec_identity(&self) -> Option<reqwest::Identity> {
        self.identity
    }

    /// The proxy.
    pub closed spec fn spec_proxy(&self) -> Option<reqwest::Proxy> {
        self.proxy
    }

    /// The server's certificate is captured for channel bindings.
    pub closed spec fn spec_capture_cert(&self) -> bool {
        self.capture_cert
    }

    /// The sealed session that is kept for the next request.
    pub closed spec fn spec_cache(&self) -> Option<CacheView> {
        sealed::cache_view(self.cache)
    }

    /// Sets up a transport from what came of its client certificate and its proxy, if it is to
    /// have them, and of the verifier of the server's certificate.
    pub fn assemble(
        config: WinrmConfig,
        identity: Option<Result<reqwest::Identity, String>>,
        proxy: Option<Result<reqwest::Proxy, String>>,
        verifier: Result<(), String>,
    ) -> (r: Result<HttpTransport, WinrmError>)
        ensures
            match r {
                Ok(t) => {
                    &&& setup_error(
                        config,
                        failure(identity),
                        failure(proxy),
                        failure(Some(verifier)),
                    ) is None
                    &&& t.spec_config() == config
                    &&& t.spec_identity() == success(identity)
                    &&& t.spec_proxy() == success(proxy)
                    &&& t.spec_capture_cert() == config.use_tls
                    &&& t.spec_cache() is None
                },
                Err(e) => setup_error(
                    config,
                    failure(identity),
                    failure(proxy),
                    failure(Some(verifier)),
                ) == Some(e@),
            },
    {
        let identity = match identity {
            Some(Ok(i)) => Some(i),
            Some(Err(message)) => return Err(WinrmError::Http(message)),
            None => None,
        };
        let proxy = match proxy {
            Some(Ok(p)) => Some(p),
            Some(Err(message)) => return Err(WinrmError::Http(message)),
            None => None,
        };
        match config.auth_method {
            AuthMethod::CredSsp => {
                if !config.use_tls {
                    return Err(
                        WinrmError::AuthFailed(
                            "CredSSP requires HTTPS (set use_tls = true)".to_owned(),
                        ),
                    );
                }
            },
            _ => {},
        }
        if config.use_tls && !config.accept_invalid_certs {
            if let Err(message) = verifier {
                return Err(
                    WinrmError::Http(text::concat("TLS verifier error: ", message.as_str())),
                );
            }
        }
        let capture_cert = config.use_tls;
        Ok(HttpTransport { config, identity, proxy, capture_cert, cache: None })
    }

    /// Sets up a transport.
    ///
    /// `files` is what reading the files of [`needed_files`] brought, if there are any, and
    /// `verifier` is what came of the verifier of the server's certificate. A verifier that could
    /// not be set up is a transport error, and counts only where certificates are verified.
    pub fn new(config: WinrmConfig, files: ClientFiles, verifier: Result<(), String>) -> (r: Result<
        HttpTransport,
        WinrmError,
    >)
        ensures
            ({
                let cert = file_view(files.cert);
                let key = file_view(files.key);
                let error = transport_error(config, cert, key, failure(Some(verifier)));
                match r {
                    Ok(t) => {
                        &&& error is None
                        &&& t.spec_config() == config
                        &&& t.spec_identity() == configured_identity(config, cert, key)
                        &&& t.spec_proxy() == configured_proxy(config)
                        &&& t.spec_capture_cert() == config.use_tls
                        &&& t.spec_cache() is None
                        &&& config.auth_method == AuthMethod::CredSsp ==> config.use_tls
                        &&& config.auth_method == AuthMethod::Certificate
                            ==> config.client_cert_pem is Some && config.client_key_pem is Some
                    },
                    Err(e) => error == Some(e@),
                }
            }),
    {
        let identity = match needed_files(&config) {
            Err(e) => return Err(e),
            Ok(None) => None,
            Ok(Some((cert_path, key_path))) => match bundle(
                cert_path.as_str(),
                key_path.as_str(),
                files,
            ) {
                Err(e) => return Err(e),
                Ok(pem) => Some(outside_identity(pem.as_slice())),
            },
        };
        let proxy = match &config.proxy {
            Some(url) => Some(outside_proxy(url.as_str())),
            None => None,
        };
        HttpTransport::assemble(config, identity, proxy, verifier)
    }

    /// What the HTTP client is built with. `version` stands in the default user agent.
    pub fn settings(&self, version: &str) -> (r: ClientSettings)
        requires
            self.spec_config().operation_timeout_secs + 10 <= u64::MAX,
        ensures
            settings_for(self.spec_config(), self.spec_capture_cert(), version@, r),
    {
        let config = &self.config;
        ClientSettings {
            accept_encoding: "identity".to_owned(),
            connection: "Keep-Alive".to_owned(),
            accept_invalid_certs: config.accept_invalid_certs,
            follow_redirects: false,
            connect_timeout_secs: config.connect_timeout_secs,
            timeout_secs: config.operation_timeout_secs + 10,
            http1_only: true,
            tcp_nodelay: true,
            tcp_keepalive_secs: 60,
            pool_max_idle_per_host: 1,
            pool_idle_timeout_secs: 90,
            user_agent: match &config.user_agent {
                Some(agent) => agent.as_str().to_owned(),
                None => text::concat("winrm-rs/", version),
            },
            capture_cert: self.capture_cert,
        }
    }

    /// The configuration.
    pub fn config(&self) -> (r: &WinrmConfig)
        ensures
            *r == self.spec_config(),
    {
        &self.config
    }

    /// Hands over what the HTTP client is built with besides its settings, and the session cache.
    pub fn take_parts(&mut self) -> (r: ClientParts)
        ensures
            r.identity == old(self).spec_identity(),
            r.proxy == old(self).spec_proxy(),
            sealed::cache_view(r.cache) == old(self).spec_cache(),
            final(self).spec_config() == old(self).spec_config(),
            final(self).spec_capture_cert() == old(self).spec_capture_cert(),
            final(self).spec_identity() is None,
            final(self).spec_proxy() is None,
            final(self).spec_cache() is None,
    {
        ClientParts {
            identity: self.identity.take(),
            proxy: self.proxy.take(),
            cache: self.cache.take(),
        }
    }

    /// The URL of the service on a host.
    pub fn endpoint(&self, given: &str) -> (r: String)
        ensures
            r@ == host::endpoint_url(
                self.spec_config().use_tls,
                given@,
                self.spec_config().port,
            ),
    {
        host::endpoint_on(self.config.use_tls, given, self.config.port)
    }

    /// Chooses how a request to a host authenticates. `credssp` tells whether CredSSP is built
    /// in.
    pub fn route(&self, given: &str, credssp: bool) -> (r: Result<Route, WinrmError>)
        ensures
            route_result(r) == route_for(self.spec_config(), given@, credssp),
    {
        match self.config.auth_method {
            AuthMethod::Basic => Ok(Route::Basic),
            AuthMethod::Ntlm => if self.config.encryption.applies(self.config.use_tls) {
                Ok(Route::NtlmSealed)
            } else {
                Ok(Route::NtlmPlain)
            },
            AuthMethod::Kerberos => {
                let chars = text::chars_of(given);
                let name = match search::find_in(
                    chars.as_slice(),
                    text::chars_of(":").as_slice(),
                ) {
                    Some(i) => slice_subrange(chars.as_slice(), 0, i),
                    None => chars.as_slice(),
                };
                assert(name@ =~= search::before_first(given@, ":"@));
                Ok(
                    Route::Kerberos {
                        service_principal: text::concat("HTTP/", text::string_of(name).as_str()),
                    },
                )
            },
            AuthMethod::Certificate => Ok(Route::Certificate),
            AuthMethod::CredSsp => if credssp {
                Ok(Route::CredSsp)
            } else {
                Err(
                    WinrmError::AuthFailed(
                        "CredSSP authentication requires the `credssp` cargo feature".to_owned(),
                    ),
                )
            },
        }
    }
}

/// What holds of every transport that was set up: certificates that are verified have a verifier,
/// CredSSP goes over TLS only, certificate authentication has both its files, a certificate is
/// presented exactly for it, and a proxy is used exactly where one is configured.
pub proof fn law_transport_is_complete(
    config: WinrmConfig,
    cert: Result<Seq<u8>, Seq<char>>,
    key: Result<Seq<u8>, Seq<char>>,
    verifier: Option<Seq<char>>,
)
    requires
        transport_error(config, cert, key, verifier) is None,
    ensures
        needs_verifier(config) ==> verifier is None,
        config.auth_method == AuthMethod::CredSsp ==> config.use_tls,
        config.auth_method == AuthMethod::Certificate ==> config.client_cert_pem is Some
            && config.client_key_pem is Some && cert is Ok && key is Ok,
        configured_identity(config, cert, key) is Some <==> config.auth_method
            == AuthMethod::Certificate,
        configured_identity(config, cert, key) is Some ==> identity_of(
            cert->Ok_0 + seq![10u8] + key->Ok_0,
        ) == Ok::<reqwest::Identity, Seq<char>>(configured_identity(config, cert, key)->0),
        configured_proxy(config) is Some <==> config.proxy is Some,
        config.proxy matches Some(url) ==> proxy_of(url@) == Ok::<reqwest::Proxy, Seq<char>>(
            configured_proxy(config)->0,
        ),
{
}

/// A TLS setup that is at fault is a transport error, never a rejected authentication.
pub proof fn law_invalid_tls_is_a_transport_error(
    config: WinrmConfig,
    cert: Result<Seq<u8>, Seq<char>>,
    key: Result<Seq<u8>, Seq<char>>,
    message: Seq<char>,
)
    requires
        transport_error(config, cert, key, None) is None,
        needs_verifier(config),
    ensures
        transport_error(config, cert, key, Some(message)) == Some(
            WinrmErrorView::Http("TLS verifier error: "@ + message),
        ),
{
}

} // verus!
