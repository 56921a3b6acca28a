//! Addresses of WebSocket servers.

use crate::outside;
use crate::outside::names_server;
use crate::text;
use crate::ws::WsError;
use vstd::prelude::*;
use vstd::slice::slice_subrange;
use vstd::string::*;

verus! {

/// The port of an address that names none.
pub const DEFAULT_PORT: u16 = 443;

/// What an address says, or what is wrong with it.
pub enum UrlView {
    NotWss,
    BadPort,
    Parts { host: Seq<char>, port: u16, path: Seq<char> },
}

/// The parts of what follows the scheme: the host and port up to the first
/// slash, the path from there on; the port after the last colon.
pub open spec fn authority_and_path(rest: Seq<char>) -> UrlView {
    let slash = text::first_at(rest, '/');
    let host_port = rest.take(slash);
    let path = if slash < rest.len() {
        rest.skip(slash)
    } else {
        seq!['/']
    };
    let colon = text::last_at(host_port, ':');
    if colon < 0 {
        UrlView::Parts { host: host_port, port: DEFAULT_PORT, path }
    } else {
        match text::u16_value(host_port.skip(colon + 1)) {
            Some(port) => UrlView::Parts { host: host_port.take(colon), port, path },
            None => UrlView::BadPort,
        }
    }
}

/// What an address says.
pub open spec fn url_view(url: Seq<char>) -> UrlView {
    if text::starts_with(url, "wss://"@) {
        authority_and_path(url.skip("wss://"@.len() as int))
    } else {
        UrlView::NotWss
    }
}

/// Splits an address into host, port and path.
pub fn parse_ws_url(url: &str) -> (r: Result<(String, u16, String), WsError>)
    ensures
        match url_view(url@) {
            UrlView::NotWss => r == Err::<(String, u16, String), WsError>(WsError::NotWss),
            UrlView::BadPort => r == Err::<(String, u16, String), WsError>(WsError::BadPort),
            UrlView::Parts { host, port, path } => r is Ok && r->Ok_0.0@ == host && r->Ok_0.1 == port
                && r->Ok_0.2@ == path,
        },
{
    proof {
        reveal_strlit("wss://");
        reveal_strlit("/");
    }
    let v: Vec<char> = text::chars_of(url);
    let n: usize = v.len();
    if !text::has_prefix(v.as_slice(), "wss://") {
        return Err(WsError::NotWss);
    }
    let start: usize = 6;
    let rest: &[char] = slice_subrange(v.as_slice(), start, n);
    assert(rest@ =~= url@.skip(start as int));
    let slash: usize = text::find_first(rest, '/');
    let host_port: &[char] = slice_subrange(rest, 0, slash);
    assert(host_port@ =~= rest@.take(slash as int));
    let path: String = if slash < rest.len() {
        assert(url@.subrange(start + slash, n as int) =~= rest@.skip(slash as int));
        url.substring_char(start + slash, n).to_owned()
    } else {
        assert("/"@ =~= seq!['/']);
        "/".to_owned()
    };
    match text::find_last(host_port, ':') {
        None => {
            assert(url@.subrange(start as int, start + slash) =~= host_port@);
            Ok((url.substring_char(start, start + slash).to_owned(), DEFAULT_PORT, path))
        },
        Some(colon) => {
            let digits: &[char] = slice_subrange(host_port, colon + 1, slash);
            assert(digits@ =~= host_port@.skip(colon + 1));
            match text::parse_u16(digits) {
                Some(port) => {
                    assert(url@.subrange(start as int, start + colon) =~= host_port@.take(
                        colon as int,
                    ));
                    Ok((url.substring_char(start, start + colon).to_owned(), port, path))
                },
                None => Err(WsError::BadPort),
            }
        },
    }
}

/// Splits an address into host, port and path, where the host is a name that a
/// server can be known by.
pub fn target(url: &str) -> (r: Result<(String, u16, String), WsError>)
    ensures
        match url_view(url@) {
            UrlView::NotWss => r == Err::<(String, u16, String), WsError>(WsError::NotWss),
            UrlView::BadPort => r == Err::<(String, u16, String), WsError>(WsError::BadPort),
            UrlView::Parts { host, port, path } => if outside::is_server_name(host) {
                r is Ok && r->Ok_0.0@ == host && r->Ok_0.1 == port && r->Ok_0.2@ == path
            } else {
                r matches Err(WsError::BadHost(h)) && h@ == host
            },
        },
{
    match parse_ws_url(url) {
        Ok((host, port, path)) => {
            if names_server(host.as_str()) {
                Ok((host, port, path))
            } else {
                Err(WsError::BadHost(host))
            }
        },
        Err(e) => Err(e),
    }
}

/// An address is read back from its parts: a host without slash, a port in
/// decimal, and a path that starts with a slash.
pub proof fn law_url_roundtrip(host: Seq<char>, port: u16, path: Seq<char>)
    requires
        forall|i: int| 0 <= i < host.len() ==> host[i] != '/',
        path.len() > 0,
        path[0] == '/',
    ensures
        url_view("wss://"@ + host + seq![':'] + text::decimal(port as nat) + path) == (
        UrlView::Parts { host, port, path }),
{
    reveal_strlit("wss://");
    let numeral = text::decimal(port as nat);
    text::law_decimal_roundtrip(port as nat);
    let host_port = host + seq![':'] + numeral;
    let rest = host_port + path;
    let url = "wss://"@ + host + seq![':'] + numeral + path;
    assert(url.take(6) =~= "wss://"@);
    assert(url.skip(6) =~= rest);
    let slash = host_port.len() as int;
    assert forall|i: int| 0 <= i < slash implies rest[i] != '/' by {
        if i > host.len() {
            assert(rest[i] == numeral[i - host.len() - 1]);
            assert(text::is_digit(numeral[i - host.len() - 1]));
        }
    }
    text::lemma_first_at_unique(rest, '/', slash);
    assert(rest.take(slash) =~= host_port);
    assert(rest.skip(slash) =~= path);
    let colon = host.len() as int;
    assert forall|i: int| colon < i < host_port.len() implies host_port[i] != ':' by {
        assert(host_port[i] == numeral[i - colon - 1]);
        assert(text::is_digit(numeral[i - colon - 1]));
    }
    text::lemma_last_at_unique(host_port, ':', colon);
    assert(host_port.skip(colon + 1) =~= numeral);
    assert(host_port.take(colon) =~= host);
    assert(text::is_digit(numeral[0]));
    assert(text::unsigned_digits(numeral) == numeral);
}

/// Without a port the default port is meant, and without a path the root.
pub proof fn law_url_defaults(host: Seq<char>)
    requires
        forall|i: int| 0 <= i < host.len() ==> host[i] != '/' && host[i] != ':',
    ensures
        url_view("wss://"@ + host) == (UrlView::Parts {
            host,
            port: DEFAULT_PORT,
            path: seq!['/'],
        }),
{
    reveal_strlit("wss://");
    let url = "wss://"@ + host;
    assert(url.take(6) =~= "wss://"@);
    assert(url.skip(6) =~= host);
    text::lemma_first_at_unique(host, '/', host.len() as int);
    assert(host.take(host.len() as int) =~= host);
    text::lemma_last_at_unique(host, ':', -1);
}

/// An address that does not start with `wss://` is refused.
pub proof fn law_other_schemes_are_refused(url: Seq<char>)
    ensures
        url_view(url) is NotWss <==> !(url.len() >= 6 && url[0] == 'w' && url[1] == 's' && url[2]
            == 's' && url[3] == ':' && url[4] == '/' && url[5] == '/'),
{
    reveal_strlit("wss://");
    if url.len() >= 6 && url[0] == 'w' && url[1] == 's' && url[2] == 's' && url[3] == ':' && url[4]
        == '/' && url[5] == '/' {
        assert(url.take(6) =~= "wss://"@);
    } else if text::starts_with(url, "wss://"@) {
        let p = url.take(6);
        assert(p[0] == url[0] && p[1] == url[1] && p[2] == url[2] && p[3] == url[3] && p[4] == url[4]
            && p[5] == url[5]);
    }
}

/// The path that is asked for: the root, where the address names none.
pub open spec fn path_or_root(path: Seq<char>) -> Seq<char> {
    if path.len() == 0 {
        seq!['/']
    } else {
        path
    }
}

/// What stands after the last colon before the path is the port, and what stands
/// before it is the host; a port that is no number below 65536 is refused.
pub proof fn law_url_with_port(host: Seq<char>, port: Seq<char>, path: Seq<char>)
    requires
        !host.contains('/'),
        !port.contains('/'),
        !port.contains(':'),
        path.len() > 0 ==> path[0] == '/',
    ensures
        ({
            let url = "wss://"@ + host + seq![':'] + port + path;
            &&& text::u16_value(port) matches Some(n) ==> url_view(url) == (UrlView::Parts {
                host,
                port: n,
                path: path_or_root(path),
            })
            &&& text::u16_value(port) is None ==> url_view(url) is BadPort
        }),
{
    reveal_strlit("wss://");
    let host_port = host + seq![':'] + port;
    let rest = host_port + path;
    let url = "wss://"@ + host + seq![':'] + port + path;
    assert(url.take(6) =~= "wss://"@);
    assert(url.skip(6) =~= rest);
    let slash = host_port.len() as int;
    lemma_absent(host, '/');
    lemma_absent(port, '/');
    lemma_absent(port, ':');
    assert forall|i: int| 0 <= i < slash implies rest[i] != '/' by {
        if i < host.len() {
            assert(rest[i] == host[i]);
        } else if i > host.len() {
            assert(rest[i] == port[i - host.len() - 1]);
        }
    }
    text::lemma_first_at_unique(rest, '/', slash);
    assert(rest.take(slash) =~= host_port);
    if path.len() > 0 {
        assert(rest.skip(slash) =~= path);
    }
    let colon = host.len() as int;
    assert forall|i: int| colon < i < host_port.len() implies host_port[i] != ':' by {
        assert(host_port[i] == port[i - colon - 1]);
    }
    text::lemma_last_at_unique(host_port, ':', colon);
    assert(host_port.skip(colon + 1) =~= port);
    assert(host_port.take(colon) =~= host);
}

/// Without a colon before the path, port 443 is meant.
pub proof fn law_url_without_port(host: Seq<char>, path: Seq<char>)
    requires
        !host.contains('/'),
        !host.contains(':'),
        path.len() > 0 ==> path[0] == '/',
    ensures
        url_view("wss://"@ + host + path) == (UrlView::Parts {
            host,
            port: 443,
            path: path_or_root(path),
        }),
{
    reveal_strlit("wss://");
    let rest = host + path;
    let url = "wss://"@ + host + path;
    assert(url.take(6) =~= "wss://"@);
    assert(url.skip(6) =~= rest);
    lemma_absent(host, '/');
    lemma_absent(host, ':');
    let slash = host.len() as int;
    assert forall|i: int| 0 <= i < slash implies rest[i] != '/' by {
        assert(rest[i] == host[i]);
    }
    text::lemma_first_at_unique(rest, '/', slash);
    assert(rest.take(slash) =~= host);
    if path.len() > 0 {
        assert(rest.skip(slash) =~= path);
    }
    text::lemma_last_at_unique(host, ':', -1);
}

proof fn lemma_absent(s: Seq<char>, c: char)
    requires
        !s.contains(c),
    ensures
        forall|i: int| 0 <= i < s.len() ==> #[trigger] s[i] != c,
{
    assert forall|i: int| 0 <= i < s.len() implies #[trigger] s[i] != c by {
        if s[i] == c {
            assert(s.contains(c));
        }
    }
}

} // verus!
