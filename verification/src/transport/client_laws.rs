//! What holds of every transport and of every route.

use vstd::prelude::*;

use crate::error::{SoapErrorView, WinrmErrorView};
use crate::search;
use crate::transport::client;
use crate::transport::client::{ClientSettings, RouteView};
use crate::transport::config::{AuthMethod, EncryptionMode, WinrmConfig};

verus! {

/// How the HTTP client is set up: replies come uncompressed over one connection that is kept
/// alive, no redirect is followed, and a reply is awaited for ten seconds longer than the
/// operation may take.
pub proof fn law_settings(
    config: WinrmConfig,
    capture_cert: bool,
    version: Seq<char>,
    s: ClientSettings,
)
    requires
        client::settings_for(config, capture_cert, version, s),
    ensures
        s.accept_encoding@ == "identity"@,
        s.connection@ == "Keep-Alive"@,
        !s.follow_redirects,
        s.http1_only,
        s.tcp_nodelay,
        s.pool_max_idle_per_host == 1,
        s.pool_idle_timeout_secs == 90,
        s.tcp_keepalive_secs == 60,
        s.connect_timeout_secs == config.connect_timeout_secs,
        s.timeout_secs - config.operation_timeout_secs == 10,
        s.accept_invalid_certs == config.accept_invalid_certs,
        s.capture_cert == capture_cert,
        config.user_agent matches Some(agent) ==> s.user_agent@ == agent@,
        config.user_agent is None ==> s.user_agent@ == "winrm-rs/"@ + version,
{
}

/// How a request authenticates: by the method that is configured. NTLM bodies are sealed where
/// that is demanded, or where it is left open and TLS does not encrypt them.
pub proof fn law_route(config: WinrmConfig, given: Seq<char>, credssp: bool)
    ensures
        ({
            let route = client::route_for(config, given, credssp);
            match config.auth_method {
                AuthMethod::Basic => route == Ok::<RouteView, WinrmErrorView>(RouteView::Basic),
                AuthMethod::Ntlm => route == Ok::<RouteView, WinrmErrorView>(
                    if config.encryption == EncryptionMode::Always || (config.encryption
                        == EncryptionMode::Auto && !config.use_tls) {
                        RouteView::NtlmSealed
                    } else {
                        RouteView::NtlmPlain
                    },
                ),
                AuthMethod::Kerberos => route matches Ok(RouteView::Kerberos { .. }),
                AuthMethod::Certificate => route == Ok::<RouteView, WinrmErrorView>(
                    RouteView::Certificate,
                ),
                AuthMethod::CredSsp => route == if credssp {
                    Ok::<RouteView, WinrmErrorView>(RouteView::CredSsp)
                } else {
                    Err(
                        WinrmErrorView::AuthFailed(
                            "CredSSP authentication requires the `credssp` cargo feature"@,
                        ),
                    )
                },
            }
        }),
{
}

/// The service principal of Kerberos names the host up to its port.
pub proof fn law_service_principal(
    config: WinrmConfig,
    name: Seq<char>,
    port: Seq<char>,
    credssp: bool,
)
    requires
        config.auth_method == AuthMethod::Kerberos,
        search::free_of(name, ':'),
    ensures
        client::route_for(config, name, credssp) == Ok::<RouteView, WinrmErrorView>(
            RouteView::Kerberos { service_principal: "HTTP/"@ + name },
        ),
        client::route_for(config, name + seq![':'] + port, credssp) == Ok::<
            RouteView,
            WinrmErrorView,
        >(RouteView::Kerberos { service_principal: "HTTP/"@ + name }),
{
    reveal_strlit(":");
    assert(":"@ =~= seq![':']);
    search::lemma_symbol_absent(name, ':');
    search::lemma_symbol_first(name, port, ':');
    assert((name + seq![':'] + port).take(name.len() as int) =~= name);
}

/// A reply is handed on as it is, unless a fault was found in it, which is then the error. An
/// error is handed on in any case.
pub proof fn law_checked_reply(
    body: Seq<char>,
    e: WinrmErrorView,
    soap: SoapErrorView,
    fault: Option<SoapErrorView>,
)
    ensures
        client::checked_reply(Ok::<Seq<char>, WinrmErrorView>(body), None) == Ok::<
            Seq<char>,
            WinrmErrorView,
        >(body),
        client::checked_reply(Ok::<Seq<char>, WinrmErrorView>(body), Some(soap)) == Err::<
            Seq<char>,
            WinrmErrorView,
        >(WinrmErrorView::Soap(soap)),
        client::checked_reply(Err::<Seq<char>, WinrmErrorView>(e), fault) == Err::<
            Seq<char>,
            WinrmErrorView,
        >(e),
{
}

/// What certificate authentication needs: both paths, in this order, and no other method needs
/// any.
pub proof fn law_needed_files(config: WinrmConfig)
    ensures
        config.auth_method != AuthMethod::Certificate ==> client::identity_paths(config) == Ok::<
            Option<(Seq<char>, Seq<char>)>,
            WinrmErrorView,
        >(None),
        config.auth_method == AuthMethod::Certificate ==> {
            let paths = client::identity_paths(config);
            &&& config.client_cert_pem is None ==> paths == Err::<
                Option<(Seq<char>, Seq<char>)>,
                WinrmErrorView,
            >(WinrmErrorView::AuthFailed("Certificate auth requires client_cert_pem"@))
            &&& config.client_cert_pem is Some && config.client_key_pem is None ==> paths == Err::<
                Option<(Seq<char>, Seq<char>)>,
                WinrmErrorView,
            >(WinrmErrorView::AuthFailed("Certificate auth requires client_key_pem"@))
            &&& config.client_cert_pem is Some && config.client_key_pem is Some ==> paths == Ok::<
                Option<(Seq<char>, Seq<char>)>,
                WinrmErrorView,
            >(Some((config.client_cert_pem->0@, config.client_key_pem->0@)))
        },
{
}

/// A bundle is the certificate, a line feed and the key. A file that could not be read is named,
/// the certificate before the key.
pub proof fn law_bundle(
    paths: (Seq<char>, Seq<char>),
    cert: Seq<u8>,
    key: Seq<u8>,
    message: Seq<char>,
    other: Result<Seq<u8>, Seq<char>>,
)
    ensures
        client::identity_bundle(
            paths,
            Ok::<Seq<u8>, Seq<char>>(cert),
            Ok::<Seq<u8>, Seq<char>>(key),
        ) == Ok::<Seq<u8>, WinrmErrorView>(cert.push(10u8) + key),
        client::identity_bundle(paths, Err::<Seq<u8>, Seq<char>>(message), other) == Err::<
            Seq<u8>,
            WinrmErrorView,
        >(
            WinrmErrorView::AuthFailed(
                "failed to read client cert "@ + paths.0 + ": "@ + message,
            ),
        ),
        client::identity_bundle(
            paths,
            Ok::<Seq<u8>, Seq<char>>(cert),
            Err::<Seq<u8>, Seq<char>>(message),
        ) == Err::<Seq<u8>, WinrmErrorView>(
            WinrmErrorView::AuthFailed("failed to read client key "@ + paths.1 + ": "@ + message),
        ),
{
    assert(cert.push(10u8) + key =~= cert + seq![10u8] + key);
}

/// When setting up fails: on the certificate, then on the proxy, then on CredSSP without TLS, and
/// then on the verifier where certificates are verified. Each failure keeps its message. Nothing
/// else makes it fail.
pub proof fn law_when_setup_fails(
    config: WinrmConfig,
    identity: Option<Seq<char>>,
    proxy: Option<Seq<char>>,
    verifier: Option<Seq<char>>,
)
    ensures
        ({
            let error = client::setup_error(config, identity, proxy, verifier);
            let exposed = config.auth_method == AuthMethod::CredSsp && !config.use_tls;
            let verified = config.use_tls && !config.accept_invalid_certs;
            &&& identity matches Some(m) ==> error == Some(WinrmErrorView::Http(m))
            &&& identity is None ==> (proxy matches Some(m) ==> error == Some(
                WinrmErrorView::Http(m),
            ))
            &&& identity is None && proxy is None && exposed ==> error == Some(
                WinrmErrorView::AuthFailed("CredSSP requires HTTPS (set use_tls = true)"@),
            )
            &&& identity is None && proxy is None && !exposed && verified ==> (verifier matches Some(
                m,
            ) ==> error == Some(WinrmErrorView::Http("TLS verifier error: "@ + m)))
            &&& identity is None && proxy is None && !exposed && (!verified || verifier is None)
                ==> error is None
        }),
{
}

/// What setting up from files comes to: the error of the bundle, or else what setting up comes to
/// with what the bundle and the proxy raise, where they are asked for.
pub proof fn law_setup_from_files(
    config: WinrmConfig,
    cert: Result<Seq<u8>, Seq<char>>,
    key: Result<Seq<u8>, Seq<char>>,
    verifier: Option<Seq<char>>,
)
    ensures
        ({
            let error = client::transport_error(config, cert, key, verifier);
            let proxy = match config.proxy {
                Some(url) => client::proxy_error(url@),
                None => None,
            };
            &&& config.auth_method != AuthMethod::Certificate ==> error == client::setup_error(
                config,
                None,
                proxy,
                verifier,
            )
            &&& config.auth_method == AuthMethod::Certificate ==> match client::identity_paths(
                config,
            ) {
                Err(e) => error == Some(e),
                Ok(None) => false,
                Ok(Some(paths)) => match client::identity_bundle(paths, cert, key) {
                    Err(e) => error == Some(e),
                    Ok(pem) => error == client::setup_error(
                        config,
                        client::identity_error(pem),
                        proxy,
                        verifier,
                    ),
                },
            }
        }),
{
}

/// What a proxy URL and a PEM bundle raise is the message of their error, and nothing where they
/// are accepted. What they are accepted as is what requests are sent with.
pub proof fn law_outside_errors(url: Seq<char>, pem: Seq<u8>, config: WinrmConfig)
    ensures
        client::proxy_error(url) is None <==> client::proxy_of(url) is Ok,
        client::proxy_of(url) matches Err(m) ==> client::proxy_error(url) == Some(m),
        client::identity_error(pem) is None <==> client::identity_of(pem) is Ok,
        client::identity_of(pem) matches Err(m) ==> client::identity_error(pem) == Some(m),
        client::needs_verifier(config) <==> config.use_tls && !config.accept_invalid_certs,
{
}

} // verus!
