//! URLs, request bodies, credentials and reconnection times.
use crate::text::{
    begins_with, digits, number_text, replace_all, replace_first, replaced_all, replaced_first,
    starts_with, str_eq, trim_end, trimmed_end,
};
use vstd::prelude::*;

verus! {

/// The WebSocket form of a base URL: `https://` becomes `wss://`, `http://` becomes `ws://`,
/// WebSocket URLs stay as they are and anything else is taken for a host.
pub open spec fn ws_base(base: Seq<char>) -> Seq<char> {
    if begins_with(base, "https://"@) {
        replaced_first(base, "https://"@, "wss://"@)
    } else if begins_with(base, "http://"@) {
        replaced_first(base, "http://"@, "ws://"@)
    } else if begins_with(base, "ws://"@) || begins_with(base, "wss://"@) {
        base
    } else {
        "ws://"@ + base
    }
}

/// Builds the WebSocket URL of the state store from its base URL and a token. Slashes at the end
/// of the base URL are dropped.
pub fn build_ws_url(base_url: &str, token: &str) -> (r: String)
    ensures
        r@ == trimmed_end(ws_base(base_url@), '/') + "/ws?token="@ + token@,
{
    proof {
        reveal_strlit("https://");
        reveal_strlit("http://");
    }
    let ws_url = if starts_with(base_url, "https://") {
        replace_first(base_url, "https://", "wss://")
    } else if starts_with(base_url, "http://") {
        replace_first(base_url, "http://", "ws://")
    } else if starts_with(base_url, "ws://") || starts_with(base_url, "wss://") {
        base_url.to_owned()
    } else {
        String::from_str("ws://").concat(base_url)
    };
    let trimmed = trim_end(ws_url.as_str(), '/');
    trimmed.to_owned().concat("/ws?token=").concat(token)
}

/// The WebSocket form of the proxy's base URL, with a path appended.
pub fn proxy_ws_url(proxy_url: &str, path: &str) -> (r: String)
    ensures
        r@ == replaced_first(
            replaced_first(trimmed_end(proxy_url@, '/'), "http://"@, "ws://"@),
            "https://"@,
            "wss://"@,
        ) + path@,
{
    proof {
        reveal_strlit("https://");
        reveal_strlit("http://");
    }
    let base = trim_end(proxy_url, '/');
    let plain = replace_first(base, "http://", "ws://");
    replace_first(plain.as_str(), "https://", "wss://").concat(path)
}

/// The URL at which the dashboard follows the state store: every `http://` becomes `ws://`, every
/// `https://` becomes `wss://`, and a token goes along if there is one.
pub fn relay_url(state_store_url: &str, token: &str) -> (r: String)
    ensures
        r@ == replaced_all(
            replaced_all(state_store_url@, "http://"@, "ws://"@),
            "https://"@,
            "wss://"@,
        ) + (if token@.len() == 0 {
            "/ws"@
        } else {
            "/ws?token="@ + token@
        }),
{
    proof {
        reveal_strlit("https://");
        reveal_strlit("http://");
    }
    let plain = replace_all(state_store_url, "http://", "ws://");
    let base = replace_all(plain.as_str(), "https://", "wss://");
    if token.is_empty() {
        base.concat("/ws")
    } else {
        let tail = String::from_str("/ws?token=").concat(token);
        base.concat(tail.as_str())
    }
}

/// The URL of the list of pairs in the state store, all of them or those in one state.
pub fn pairs_url(state_store_url: &str, state: Option<&str>) -> (r: String)
    ensures
        r@ == (match state {
            Some(s) => state_store_url@ + "/pairs"@ + "?state="@ + s@,
            None => state_store_url@ + "/pairs"@,
        }),
{
    let url = state_store_url.to_owned().concat("/pairs");
    match state {
        Some(s) => url.concat("?state=").concat(s),
        None => url,
    }
}

/// The URL of the last trades: a hundred unless another number is asked for.
pub fn trades_url(analyzer_url: &str, limit: Option<u32>) -> (r: String)
    ensures
        r@ == analyzer_url@ + "/trades?limit="@ + digits(
            match limit {
                Some(n) => n as nat,
                None => 100,
            },
        ),
{
    let n: u64 = match limit {
        Some(n) => n as u64,
        None => 100,
    };
    analyzer_url.to_owned().concat("/trades?limit=").concat(number_text(n).as_str())
}

/// The body of a signed request: the nonce, followed by the caller's own parameters if any.
pub fn post_data(nonce: &str, body: &str) -> (r: String)
    ensures
        r@ == (if body@.len() == 0 {
            "nonce="@ + nonce@
        } else {
            "nonce="@ + nonce@ + "&"@ + body@
        }),
{
    let head = String::from_str("nonce=").concat(nonce);
    if body.is_empty() {
        head
    } else {
        head.concat("&").concat(body)
    }
}

/// The value of the authorization header that bears a token.
pub open spec fn bearer(token: Seq<char>) -> Seq<char> {
    "Bearer "@ + token
}

/// Whether an authorization header bears the given token.
pub fn bears(header: &str, token: &str) -> (r: bool)
    ensures
        r == (header@ == bearer(token@)),
{
    let want = String::from_str("Bearer ").concat(token);
    str_eq(header, want.as_str())
}

/// How long to wait before the next attempt to connect: twice as long as last time, up to a
/// maximum.
pub fn next_backoff(current: u64, max: u64) -> (r: u64)
    ensures
        r == (if 2 * current <= max {
            (2 * current) as u64
        } else {
            max
        }),
{
    if current <= max / 2 {
        2 * current
    } else {
        max
    }
}

/// The wait after `n` failed attempts.
pub open spec fn backoff_after(base: int, max: int, n: nat) -> int
    decreases n,
{
    if n == 0 {
        base
    } else {
        let last = backoff_after(base, max, (n - 1) as nat);
        if 2 * last <= max {
            2 * last
        } else {
            max
        }
    }
}

/// Waits never get shorter from one attempt to the next and never exceed the maximum.
pub proof fn backoff_grows_to_its_maximum(base: int, max: int, n: nat)
    requires
        0 <= base <= max,
    ensures
        base <= backoff_after(base, max, n) <= max,
        backoff_after(base, max, n) <= backoff_after(base, max, n + 1),
    decreases n,
{
    if n > 0 {
        backoff_grows_to_its_maximum(base, max, (n - 1) as nat);
    }
}

/// How old a WebSocket token may get before it is fetched anew, in seconds.
pub const TOKEN_REFRESH_SECS: u64 = 600;

/// Whether a token of the given age can still be used.
pub fn token_is_fresh(age_secs: u64) -> (r: bool)
    ensures
        r == (age_secs < 600),
{
    age_secs < TOKEN_REFRESH_SECS
}

} // verus!
