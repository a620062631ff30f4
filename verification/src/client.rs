//! How a client reaches the server that a websocket URL names.

use vstd::prelude::*;

verus! {

/// The bandwidth a client connection has unless it is configured otherwise.
pub const DEFAULT_BANDWIDTH: usize = 1024 * 1024 * 16;

fn same_text(a: &str, b: &str) -> (r: bool)
    ensures
        r == (a@ == b@),
{
    let x: String = a.to_owned();
    let y: String = b.to_owned();
    x == y
}

/// The port to connect to: the URL's own port where it gives one, else the
/// scheme's default (443 for `wss`, 80 for `ws`); `None` for any other
/// scheme.
pub fn request_port(port: Option<u16>, scheme: Option<&str>) -> (r: Option<u16>)
    ensures
        r == match port {
            Some(p) => Some(p),
            None => match scheme {
                Some(s) => if s@ == "wss"@ {
                    Some(443u16)
                } else if s@ == "ws"@ {
                    Some(80u16)
                } else {
                    None
                },
                None => None,
            },
        },
{
    match port {
        Some(p) => Some(p),
        None => match scheme {
            Some(s) => {
                if same_text(s, "wss") {
                    Some(443)
                } else if same_text(s, "ws") {
                    Some(80)
                } else {
                    None
                }
            },
            None => None,
        },
    }
}

/// Whether the connection is made over TLS: exactly for the `wss` scheme.
pub fn uses_tls(scheme: Option<&str>) -> (r: bool)
    ensures
        r == (scheme matches Some(s) && s@ == "wss"@),
{
    match scheme {
        Some(s) => same_text(s, "wss"),
        None => false,
    }
}

} // verus!
