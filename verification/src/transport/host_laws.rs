//! What holds of every host and every endpoint.

use vstd::prelude::*;

use crate::ntlm::handshake;
use crate::search;
use crate::text;
use crate::transport::host;

verus! {

/// The separators, as sequences of one character.
proof fn lemma_separators()
    ensures
        "@"@ == seq!['@'],
        "/"@ == seq!['/'],
        ":"@ == seq![':'],
        "]"@ == seq![']'],
        "://"@ == seq![':', '/', '/'],
{
    reveal_strlit("@");
    reveal_strlit("/");
    reveal_strlit(":");
    reveal_strlit("]");
    reveal_strlit("://");
    assert("]"@ =~= seq![']']);
    assert("@"@ =~= seq!['@']);
    assert("/"@ =~= seq!['/']);
    assert(":"@ =~= seq![':']);
    assert("://"@ =~= seq![':', '/', '/']);
}

/// A text without slashes, or without colons before its first slash, has no scheme.
proof fn lemma_no_scheme(s: Seq<char>)
    requires
        search::free_of(s, '/') || search::free_of(search::before_first(s, "/"@), ':'),
    ensures
        host::without_scheme(s) == s,
{
    lemma_separators();
    let p = "://"@;
    search::lemma_find_from(s, p, 0);
    search::lemma_find_from(s, "/"@, 0);
    if let Some(i) = search::find(s, p) {
        assert(s.subrange(i, i + 3)[0] == ':');
        assert(s.subrange(i, i + 3)[1] == '/');
        assert(s[i] == ':' && s[i + 1] == '/');
        if search::find(s, "/"@) == Some(i + 1) {
            assert(s.take(i + 1)[i] == ':');
        }
    }
}

/// What follows the last occurrence of a symbol is free of it.
proof fn lemma_after_last_free(s: Seq<char>, c: char)
    ensures
        search::free_of(search::after_last(s, seq![c]), c),
{
    let p = seq![c];
    let r = search::after_last(s, p);
    search::lemma_rfind_upto(s, p, s.len() - p.len());
    assert forall|i: int| 0 <= i < r.len() implies #[trigger] r[i] != c by {
        let j = match search::rfind(s, p) {
            Some(k) => k + 1 + i,
            None => i,
        };
        assert(r[i] == s[j]);
        if s[j] == c {
            assert(s.subrange(j, j + 1) =~= p);
            assert(search::occurs_at(s, p, j));
        }
    }
}

/// What precedes the first occurrence of a symbol is free of it.
proof fn lemma_before_first_free(s: Seq<char>, c: char)
    ensures
        search::free_of(search::before_first(s, seq![c]), c),
{
    let p = seq![c];
    let r = search::before_first(s, p);
    search::lemma_find_from(s, p, 0);
    assert forall|i: int| 0 <= i < r.len() implies #[trigger] r[i] != c by {
        assert(r[i] == s[i]);
        if s[i] == c {
            assert(s.subrange(i, i + 1) =~= p);
            assert(search::occurs_at(s, p, i));
        }
    }
}

/// What a request is sent to holds neither a path nor user information, whatever host was given.
pub proof fn law_sanitized_is_bare(given: Seq<char>)
    ensures
        search::free_of(host::sanitized(given), '/'),
        search::free_of(host::sanitized(given), '@'),
{
    lemma_separators();
    let a = host::without_scheme(given);
    let b = search::before_first(a, "/"@);
    let c = host::authority(given);
    lemma_before_first_free(a, '/');
    lemma_after_last_free(b, '@');
    search::lemma_rfind_upto(b, "@"@, b.len() - "@"@.len());
    assert forall|i: int| 0 <= i < c.len() implies #[trigger] c[i] != '/' by {
        assert(c[i] == b[i + (b.len() - c.len())]);
    }
    search::lemma_rfind_upto(c, "]"@, c.len() - "]"@.len());
    search::lemma_rfind_upto(c, ":"@, c.len() - ":"@.len());
    let d = host::sanitized(given);
    assert forall|i: int| 0 <= i < d.len() implies #[trigger] d[i] != '/' && d[i] != '@' by {
        assert(d[i] == c[i]);
    }
}

/// A host without any separator is kept as it is: a name or an IPv4 address, without port.
pub proof fn law_bare_host_is_kept(given: Seq<char>)
    requires
        search::free_of(given, '/'),
        search::free_of(given, '@'),
        search::free_of(given, ':'),
    ensures
        host::sanitized(given) == given,
{
    lemma_separators();
    lemma_no_scheme(given);
    search::lemma_symbol_absent(given, '@');
    search::lemma_symbol_absent(given, '/');
    search::lemma_symbol_absent(given, ':');
    search::lemma_rfind_upto(given, "]"@, given.len() - "]"@.len());
}

/// An address in brackets is kept as it is. Of what follows it, a port is dropped and anything
/// else is kept.
pub proof fn law_bracketed_address_is_kept(address: Seq<char>, tail: Seq<char>)
    requires
        search::free_of(address, '/'),
        search::free_of(address, '@'),
        search::free_of(tail, '/'),
        search::free_of(tail, '@'),
        search::free_of(tail, ']'),
    ensures
        host::sanitized(seq!['['] + address + seq![']'] + tail) == seq!['['] + address + seq![']']
            + if tail.len() > 0 && tail[0] == ':' {
            Seq::empty()
        } else {
            tail
        },
{
    lemma_separators();
    let given = seq!['['] + address + seq![']'] + tail;
    let literal = seq!['['] + address;
    let none = Seq::<char>::empty();
    assert(search::free_of(given, '/'));
    assert(search::free_of(given, '@'));
    lemma_no_scheme(given);
    search::lemma_symbol_absent(given, '@');
    search::lemma_symbol_absent(given, '/');
    search::lemma_symbol_last(literal, tail, ']');
    assert(given[0] == '[');
    assert(given.take(literal.len() as int + 1) =~= literal + seq![']'] + none);
    if tail.len() > 0 {
        assert(given[literal.len() as int + 1] == tail[0]);
    }
}

/// A host that begins and ends with brackets is kept as it is, whatever stands between them.
pub proof fn law_enclosed_host_is_kept(given: Seq<char>)
    requires
        given.len() > 1,
        given[0] == '[',
        given.last() == ']',
        search::free_of(given, '/'),
        search::free_of(given, '@'),
    ensures
        host::sanitized(given) == given,
{
    let address = given.subrange(1, given.len() - 1);
    let none = Seq::<char>::empty();
    assert(given =~= seq!['['] + address + seq![']'] + none);
    law_bracketed_address_is_kept(address, none);
    assert(seq!['['] + address + seq![']'] + none =~= given);
}

/// A bracket that is not closed is no address, and the host is kept as it is, colons and all.
pub proof fn law_unclosed_bracket_is_kept(given: Seq<char>)
    requires
        given.len() > 0,
        given[0] == '[',
        search::free_of(given, ']'),
        search::free_of(given, '/'),
        search::free_of(given, '@'),
    ensures
        host::sanitized(given) == given,
{
    lemma_separators();
    lemma_no_scheme(given);
    search::lemma_symbol_absent(given, '@');
    search::lemma_symbol_absent(given, '/');
    search::lemma_symbol_absent(given, ']');
}

/// What a request is sent to is a part of the host that was given.
pub proof fn law_sanitized_is_part_of_host(given: Seq<char>)
    ensures
        exists|i: int, j: int|
            0 <= i <= j <= given.len() && host::sanitized(given) == #[trigger] given.subrange(i, j),
{
    lemma_separators();
    let p = "://"@;
    search::lemma_find_from(given, p, 0);
    let a = host::without_scheme(given);
    let i = given.len() - a.len();
    assert(a =~= given.subrange(i, given.len() as int));
    search::lemma_find_from(a, "/"@, 0);
    let b = search::before_first(a, "/"@);
    assert(b =~= given.subrange(i, i + b.len()));
    search::lemma_rfind_upto(b, "@"@, b.len() - "@"@.len());
    let c = host::authority(given);
    let k = i + b.len() - c.len();
    assert(c =~= given.subrange(k, k + c.len()));
    search::lemma_rfind_upto(c, "]"@, c.len() - "]"@.len());
    search::lemma_rfind_upto(c, ":"@, c.len() - ":"@.len());
    let d = host::sanitized(given);
    assert(d =~= given.subrange(k, k + d.len()));
}

/// A full URL is reduced to its host, whatever its path holds.
pub proof fn law_url_is_reduced_to_its_host(
    scheme: Seq<char>,
    user: Seq<char>,
    name: Seq<char>,
    port: Seq<char>,
    path: Seq<char>,
)
    requires
        search::free_of(scheme, ':'),
        search::free_of(scheme, '/'),
        search::free_of(user, '/'),
        name.len() > 0,
        name[0] != '[',
        search::free_of(name, '/'),
        search::free_of(name, '@'),
        search::free_of(port, '/'),
        search::free_of(port, '@'),
        search::free_of(port, ':'),
    ensures
        host::sanitized(scheme + "://"@ + user + "@"@ + name + ":"@ + port + "/"@ + path) == name,
{
    lemma_separators();
    let place = name + ":"@ + port;
    let front = user + "@"@ + place;
    let rest = front + "/"@ + path;
    let given = scheme + "://"@ + user + "@"@ + name + ":"@ + port + "/"@ + path;
    assert(given =~= scheme + "://"@ + rest);
    lemma_scheme_is_stripped(scheme, rest);
    assert(search::free_of(front, '/'));
    search::lemma_symbol_first(front, path, '/');
    assert(search::before_first(rest, "/"@) =~= front);
    assert(search::free_of(place, '@'));
    search::lemma_symbol_last(user, place, '@');
    assert(search::after_last(front, "@"@) =~= place);
    search::lemma_symbol_last(name, port, ':');
    assert(place[0] == name[0]);
    assert(search::before_last(place, ":"@) =~= name);
}

/// A scheme is stripped, whatever follows it.
proof fn lemma_scheme_is_stripped(scheme: Seq<char>, rest: Seq<char>)
    requires
        search::free_of(scheme, ':'),
        search::free_of(scheme, '/'),
    ensures
        host::without_scheme(scheme + "://"@ + rest) == rest,
{
    lemma_separators();
    let p = "://"@;
    let given = scheme + p + rest;
    let n = scheme.len() as int;
    assert forall|j: int| 0 <= j < n implies !search::occurs_at(given, p, j) by {
        if search::occurs_at(given, p, j) {
            assert(given.subrange(j, j + p.len())[0] == ':');
            assert(given[j] == scheme[j]);
        }
    }
    assert(given.subrange(n, n + p.len()) =~= p);
    search::lemma_find_from_is(given, p, 0, n);
    let before = scheme + seq![':'];
    let behind = seq!['/'] + rest;
    assert(given =~= before + seq!['/'] + behind);
    search::lemma_symbol_first(before, behind, '/');
    assert(given.skip(n + 3) =~= rest);
}

/// What a path holds is of no consequence, with or without a scheme before it: neither an at sign
/// nor a scheme separator in it makes another host of it. Without a scheme, what ends in a colon
/// before the path is left out, because two slashes make a scheme of it.
pub proof fn law_path_is_dropped(place: Seq<char>, path: Seq<char>)
    requires
        search::free_of(place, '/'),
    ensures
        (place.len() > 0 ==> place.last() != ':') ==> host::sanitized(place + "/"@ + path)
            == host::sanitized(place),
        host::sanitized("http://"@ + place + "/"@ + path) == host::sanitized("http://"@ + place),
        host::sanitized("https://"@ + place + "/"@ + path) == host::sanitized("https://"@ + place),
{
    lemma_separators();
    reveal_strlit("http://");
    reveal_strlit("https://");
    let given = place + "/"@ + path;
    search::lemma_symbol_first(place, path, '/');
    search::lemma_symbol_absent(place, '/');
    assert(search::before_first(given, "/"@) =~= place);
    lemma_no_scheme(place);
    if place.len() > 0 ==> place.last() != ':' {
        search::lemma_find_from(given, "://"@, 0);
        if let Some(i) = search::find(given, "://"@) {
            assert(given.subrange(i, i + 3)[0] == ':');
            if i + 1 == place.len() {
                assert(place[i] == ':');
            }
        }
        assert(host::without_scheme(given) == given);
    }
    let http = seq!['h', 't', 't', 'p'];
    let https = seq!['h', 't', 't', 'p', 's'];
    assert("http://"@ =~= http + "://"@);
    assert("https://"@ =~= https + "://"@);
    assert("http://"@ + place + "/"@ + path =~= http + "://"@ + given);
    assert("https://"@ + place + "/"@ + path =~= https + "://"@ + given);
    lemma_scheme_is_stripped(http, given);
    lemma_scheme_is_stripped(https, given);
    lemma_scheme_is_stripped(http, place);
    lemma_scheme_is_stripped(https, place);
}

/// A scheme makes no difference.
pub proof fn law_scheme_is_dropped(scheme: Seq<char>, place: Seq<char>)
    requires
        search::free_of(scheme, ':'),
        search::free_of(scheme, '/'),
        search::free_of(place, '/'),
    ensures
        host::sanitized(scheme + "://"@ + place) == host::sanitized(place),
{
    lemma_scheme_is_stripped(scheme, place);
    lemma_no_scheme(place);
}

/// User information makes no difference.
pub proof fn law_user_is_dropped(user: Seq<char>, place: Seq<char>)
    requires
        search::free_of(user, '/'),
        search::free_of(place, '/'),
        search::free_of(place, '@'),
    ensures
        host::sanitized(user + "@"@ + place) == host::sanitized(place),
{
    lemma_separators();
    let given = user + "@"@ + place;
    assert(search::free_of(given, '/'));
    lemma_no_scheme(given);
    lemma_no_scheme(place);
    search::lemma_symbol_absent(given, '/');
    search::lemma_symbol_absent(place, '/');
    search::lemma_symbol_absent(place, '@');
    search::lemma_symbol_last(user, place, '@');
    assert(search::after_last(given, "@"@) =~= place);
}

/// A port makes no difference to a host name.
pub proof fn law_port_is_dropped(name: Seq<char>, port: Seq<char>)
    requires
        name.len() > 0 ==> name[0] != '[',
        search::free_of(name, '/'),
        search::free_of(name, '@'),
        search::free_of(port, '/'),
        search::free_of(port, '@'),
        search::free_of(port, ':'),
    ensures
        host::sanitized(name + ":"@ + port) == name,
{
    lemma_separators();
    let given = name + ":"@ + port;
    assert(search::free_of(given, '/'));
    assert(search::free_of(given, '@'));
    lemma_no_scheme(given);
    search::lemma_symbol_absent(given, '/');
    search::lemma_symbol_absent(given, '@');
    search::lemma_symbol_last(name, port, ':');
    assert(search::before_last(given, ":"@) =~= name);
}

/// A host as a URL can hold it: an address in one pair of brackets, or a name without any
/// separator.
pub open spec fn is_host(s: Seq<char>) -> bool {
    &&& s.len() > 0
    &&& search::free_of(s, '/')
    &&& search::free_of(s, '@')
    &&& (s[0] == '[' && s.last() == ']' && search::free_of(s.drop_last(), ']'))
        || search::free_of(s, ':')
}

/// An authority in brackets holds one address, and nothing but a port behind it.
pub open spec fn is_one_address(authority: Seq<char>) -> bool {
    search::find(authority, "]"@) matches Some(i) && (i + 1 == authority.len() || authority[i + 1]
        == ':' && search::free_of(authority.skip(i + 1), ']'))
}

/// The endpoint is a scheme, a host as a URL can hold it, the configured port and a fixed path.
///
/// Left out are hosts that come to nothing, such as a lone port, brackets around anything but one
/// address, and IPv6 literals without brackets, whose last group cannot be told from a port.
pub proof fn law_endpoint_is_valid(use_tls: bool, given: Seq<char>, port: u16)
    requires
        host::sanitized(given).len() > 0,
        host::authority(given)[0] == '[' ==> is_one_address(host::authority(given)),
        host::authority(given)[0] != '[' ==> search::free_of(host::sanitized(given), ':'),
    ensures
        is_host(host::sanitized(given)),
        host::endpoint_url(use_tls, given, port) == (if use_tls {
            "https"@
        } else {
            "http"@
        }) + "://"@ + host::sanitized(given) + ":"@ + text::decimal(port as nat) + "/wsman"@,
{
    lemma_separators();
    law_sanitized_is_bare(given);
    let a = host::authority(given);
    search::lemma_find_from(a, "]"@, 0);
    search::lemma_rfind_upto(a, ":"@, a.len() - ":"@.len());
    if a.len() > 0 && a[0] == '[' {
        let i = search::find(a, "]"@)->0;
        assert(a.subrange(i, i + 1)[0] == ']');
        let front = a.take(i);
        let tail = a.skip(i + 1);
        assert(a =~= front + seq![']'] + tail);
        lemma_before_first_free(a, ']');
        assert(search::free_of(tail, ']'));
        search::lemma_symbol_last(front, tail, ']');
        let d = host::sanitized(given);
        assert(d =~= front.push(']'));
        assert(d.drop_last() =~= front);
    }
}

/// The service that authentication is bound to is the one that requests are sent to.
pub proof fn law_endpoint_host(use_tls: bool, given: Seq<char>, port: u16)
    ensures
        handshake::url_host(host::endpoint_url(use_tls, given, port)) == host::sanitized(given)
            + ":"@ + text::decimal(port as nat),
{
    lemma_separators();
    reveal_strlit("http");
    reveal_strlit("https");
    reveal_strlit("http://");
    reveal_strlit("https://");
    reveal_strlit("/wsman");
    reveal_strlit("wsman");
    let url = host::endpoint_url(use_tls, given, port);
    let place = host::sanitized(given) + ":"@ + text::decimal(port as nat);
    law_sanitized_is_bare(given);
    text::lemma_decimal_value(port as nat);
    assert(search::free_of(place, '/')) by {
        assert forall|i: int| 0 <= i < place.len() implies #[trigger] place[i] != '/' by {
            if i > host::sanitized(given).len() {
                let d = text::decimal(port as nat)[i - host::sanitized(given).len() - 1];
                assert(text::is_digit(d));
            }
        }
    }
    let rest = place + "/"@ + "wsman"@;
    search::lemma_symbol_first(place, "wsman"@, '/');
    assert("/wsman"@ =~= "/"@ + "wsman"@);
    if use_tls {
        assert("https"@ + "://"@ =~= "https://"@);
        assert(url =~= "https://"@ + rest);
        assert(url.subrange(0, 7)[4] == 's');
        assert("http://"@[4] == ':');
        assert(url.subrange(0, 8) =~= "https://"@);
        assert(url.skip(8) =~= rest);
    } else {
        assert("http"@ + "://"@ =~= "http://"@);
        assert(url =~= "http://"@ + rest);
        assert(url.subrange(0, 7) =~= "http://"@);
        assert(url.skip(7) =~= rest);
    }
    assert(search::before_first(rest, "/"@) =~= place);
}

} // verus!
