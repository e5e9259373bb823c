//! Where requests go.

use vstd::prelude::*;
use vstd::slice::slice_subrange;

use crate::search;
use crate::text;

verus! {

/// A host without its scheme. A scheme is what precedes `://`, unless a path comes first.
pub open spec fn without_scheme(host: Seq<char>) -> Seq<char> {
    match search::find(host, "://"@) {
        Some(i) => if search::find(host, "/"@) == Some(i + 1) {
            host.skip(i + 3)
        } else {
            host
        },
        None => host,
    }
}

/// A host without scheme, path and user information, but with its port.
pub open spec fn authority(host: Seq<char>) -> Seq<char> {
    search::after_last(search::before_first(without_scheme(host), "/"@), "@"@)
}

/// An authority without its port. Behind an address in brackets, a port is what follows the last
/// bracket and begins with a colon. Anything else there is left alone.
pub open spec fn without_port(authority: Seq<char>) -> Seq<char> {
    if authority.len() > 0 && authority[0] == '[' {
        match search::rfind(authority, "]"@) {
            Some(i) => if i + 1 < authority.len() && authority[i + 1] == ':' {
                authority.take(i + 1)
            } else {
                authority
            },
            None => authority,
        }
    } else {
        search::before_last(authority, ":"@)
    }
}

/// A host without scheme, path, user information and port.
pub open spec fn sanitized(host: Seq<char>) -> Seq<char> {
    without_port(authority(host))
}

/// The URL of the service on a host.
pub open spec fn endpoint_url(use_tls: bool, host: Seq<char>, port: u16) -> Seq<char> {
    (if use_tls {
        "https"@
    } else {
        "http"@
    }) + "://"@ + sanitized(host) + ":"@ + text::decimal(port as nat) + "/wsman"@
}

/// Strips scheme, path, user information and port from a host.
///
/// A host is meant to be given bare. An IPv6 literal in brackets is kept as it is, because its
/// colons belong to the address, and so is whatever follows the brackets and is no port.
pub fn sanitize_host(input: &str) -> (r: String)
    ensures
        r@ == sanitized(input@),
{
    let chars = text::chars_of(input);
    let mut s: &[char] = chars.as_slice();
    proof {
        reveal_strlit("://");
        reveal_strlit("@");
        reveal_strlit("]");
    }
    let slash = text::chars_of("/");
    if let Some(i) = search::find_in(s, text::chars_of("://").as_slice()) {
        if let Some(j) = search::find_in(s, slash.as_slice()) {
            if j == i + 1 {
                s = slice_subrange(s, i + 3, s.len());
            }
        }
    }
    assert(s@ =~= without_scheme(input@));
    if let Some(i) = search::find_in(s, slash.as_slice()) {
        s = slice_subrange(s, 0, i);
    }
    assert(s@ =~= search::before_first(without_scheme(input@), "/"@));
    if let Some(i) = search::rfind_in(s, text::chars_of("@").as_slice()) {
        s = slice_subrange(s, i + 1, s.len());
    }
    assert(s@ =~= authority(input@));
    if s.len() > 0 && s[0] == '[' {
        if let Some(i) = search::rfind_in(s, text::chars_of("]").as_slice()) {
            if s.len() - i > 1 && s[i + 1] == ':' {
                s = slice_subrange(s, 0, i + 1);
            }
        }
    } else if let Some(i) = search::rfind_in(s, text::chars_of(":").as_slice()) {
        s = slice_subrange(s, 0, i);
    }
    assert(s@ =~= sanitized(input@));
    text::string_of(s)
}

/// The URL of the service on a host.
pub fn endpoint_on(use_tls: bool, host: &str, port: u16) -> (r: String)
    ensures
        r@ == endpoint_url(use_tls, host@, port),
{
    let mut url = if use_tls {
        "https".to_owned()
    } else {
        "http".to_owned()
    };
    url.append("://");
    url.append(sanitize_host(host).as_str());
    url.append(":");
    url.append(text::decimal_text(port as u64).as_str());
    url.append("/wsman");
    url
}

} // verus!
