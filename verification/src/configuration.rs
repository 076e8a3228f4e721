//! The route catalog: data structures, catalog lookups, duration parsing,
//! and resolution of request paths against route patterns.

use vstd::prelude::*;

use crate::strutil::{
    all_digits, dec_str, dec_val, ends_with, find_str, first_occurrence, lemma_dec_str_val,
    lemma_first_occurrence_from, occurs_at, parse_usize, starts_with, str_ends_with, str_eq,
    str_starts_with, u64_to_string,
};

verus! {

/// The HTTP method of a route, with `WS` marking a WebSocket route.
#[derive(Clone, Copy, Debug, PartialEq, Eq, Structural)]
pub enum RouteMethod {
    /// HTTP GET
    GET,
    /// HTTP HEAD
    HEAD,
    /// HTTP POST
    POST,
    /// HTTP PUT
    PUT,
    /// HTTP DELETE
    DELETE,
    /// HTTP CONNECT
    CONNECT,
    /// HTTP OPTIONS
    OPTIONS,
    /// HTTP TRACE
    TRACE,
    /// HTTP PATCH
    PATCH,
    /// WebSocket
    WS,
}

/// The method named by an upper-case method string, if any.
pub open spec fn method_of_str(s: Seq<char>) -> Option<RouteMethod> {
    if s == "GET"@ {
        Some(RouteMethod::GET)
    } else if s == "HEAD"@ {
        Some(RouteMethod::HEAD)
    } else if s == "POST"@ {
        Some(RouteMethod::POST)
    } else if s == "PUT"@ {
        Some(RouteMethod::PUT)
    } else if s == "DELETE"@ {
        Some(RouteMethod::DELETE)
    } else if s == "CONNECT"@ {
        Some(RouteMethod::CONNECT)
    } else if s == "OPTIONS"@ {
        Some(RouteMethod::OPTIONS)
    } else if s == "TRACE"@ {
        Some(RouteMethod::TRACE)
    } else if s == "PATCH"@ {
        Some(RouteMethod::PATCH)
    } else if s == "WS"@ {
        Some(RouteMethod::WS)
    } else {
        None
    }
}

impl RouteMethod {
    /// Parses an upper-case method name.
    pub fn from_str(s: &str) -> (r: Result<RouteMethod, u8>)
        ensures
            match method_of_str(s@) {
                Some(m) => r == Ok::<RouteMethod, u8>(m),
                None => r == Err::<RouteMethod, u8>(1u8),
            },
    {
        if str_eq(s, "GET") {
            Ok(RouteMethod::GET)
        } else if str_eq(s, "HEAD") {
            Ok(RouteMethod::HEAD)
        } else if str_eq(s, "POST") {
            Ok(RouteMethod::POST)
        } else if str_eq(s, "PUT") {
            Ok(RouteMethod::PUT)
        } else if str_eq(s, "DELETE") {
            Ok(RouteMethod::DELETE)
        } else if str_eq(s, "CONNECT") {
            Ok(RouteMethod::CONNECT)
        } else if str_eq(s, "OPTIONS") {
            Ok(RouteMethod::OPTIONS)
        } else if str_eq(s, "TRACE") {
            Ok(RouteMethod::TRACE)
        } else if str_eq(s, "PATCH") {
            Ok(RouteMethod::PATCH)
        } else if str_eq(s, "WS") {
            Ok(RouteMethod::WS)
        } else {
            Err(1)
        }
    }
}

/// The build mode: `Read` forbids catalog and filesystem mutation, `Write`
/// allows recording on misses.
#[derive(Clone, Copy, Debug, PartialEq, Eq, Structural)]
pub enum BuildMode {
    /// Never modify the filesystem or the catalog.
    Read,
    /// Record missing routes and their bodies.
    Write,
}

/// Response metadata captured at record time: the status code and the
/// headers, kept as an ordered list so duplicate names survive.
#[derive(Clone, Debug, PartialEq, Eq)]
pub struct Metadata {
    /// HTTP status code
    pub code: u16,
    /// HTTP headers, in order, names lower-case
    pub header: Vec<(String, String)>,
}

impl Default for Metadata {
    /// A successful response with no headers.
    fn default() -> (r: Self)
        ensures
            r.code == 200,
            r.header@.len() == 0,
    {
        Metadata { code: 200, header: Vec::new() }
    }
}

/// When a recorded WebSocket message is replayed.
#[derive(Clone, Copy, Debug, PartialEq, Eq, Structural)]
pub enum WsMessageType {
    /// As soon as the socket connects
    Startup,
    /// Once, a given time after the socket connects
    After,
    /// Repeatedly, at a given interval
    Every,
}

/// The frame kind of a WebSocket message.
#[derive(Clone, Copy, Debug, PartialEq, Eq, Structural)]
pub enum WsMessagType {
    /// A text WebSocket message
    Text,
    /// A binary WebSocket message
    Binary,
    /// A ping message
    Ping,
    /// A pong message
    Pong,
    /// A close message
    Close,
    /// A raw frame
    Frame,
}

/// One recorded WebSocket message and when to replay it.
#[derive(Clone, Debug, PartialEq, Eq)]
pub struct WsMessage {
    /// When the message is replayed
    pub kind: WsMessageType,
    /// Duration string for `After` and `Every`, ignored for `Startup`
    pub time: Option<String>,
    /// The frame kind to send
    pub message_type: WsMessagType,
    /// File storage location of the payload
    pub location: String,
}

/// A parsed duration: a count of seconds, minutes or hours, or a count of
/// messages sent or received (reserved, replayed as one second).
#[derive(Clone, Copy, Debug, PartialEq, Eq, Structural)]
pub enum WsMessageTime {
    /// `5s`
    Second(usize),
    /// `5m`
    Minute(usize),
    /// `5h`
    Hour(usize),
    /// `5sent`: after this many sent messages (reserved)
    Sent(usize),
    /// `5received`: after this many received messages (reserved)
    Received(usize),
}

/// A non-empty digit string whose value fits the machine word.
pub open spec fn valid_number(s: Seq<char>) -> bool {
    s.len() > 0 && all_digits(s) && dec_val(s) <= usize::MAX
}

/// The duration named by `s`, if any: digits followed by one of the suffixes
/// `s`, `m`, `h`, `sent`, `received`, tried in that order.
pub open spec fn time_of_str(s: Seq<char>) -> Option<WsMessageTime> {
    if ends_with(s, "s"@) {
        let num = s.subrange(0, s.len() - "s"@.len());
        if valid_number(num) {
            Some(WsMessageTime::Second(dec_val(num) as usize))
        } else {
            None
        }
    } else if ends_with(s, "m"@) {
        let num = s.subrange(0, s.len() - "m"@.len());
        if valid_number(num) {
            Some(WsMessageTime::Minute(dec_val(num) as usize))
        } else {
            None
        }
    } else if ends_with(s, "h"@) {
        let num = s.subrange(0, s.len() - "h"@.len());
        if valid_number(num) {
            Some(WsMessageTime::Hour(dec_val(num) as usize))
        } else {
            None
        }
    } else if ends_with(s, "sent"@) {
        let num = s.subrange(0, s.len() - "sent"@.len());
        if valid_number(num) {
            Some(WsMessageTime::Sent(dec_val(num) as usize))
        } else {
            None
        }
    } else if ends_with(s, "received"@) {
        let num = s.subrange(0, s.len() - "received"@.len());
        if valid_number(num) {
            Some(WsMessageTime::Received(dec_val(num) as usize))
        } else {
            None
        }
    } else {
        None
    }
}

/// The leading number of a duration string, read by cutting `padding`
/// characters of suffix. `Err(2)` when what remains is not a number the
/// machine can hold.
pub fn parse_time_number(number: &str, padding: usize) -> (r: Result<usize, u8>)
    requires
        padding <= number@.len(),
    ensures
        ({
            let num = number@.subrange(0, number@.len() - padding);
            match r {
                Ok(n) => valid_number(num) && n as int == dec_val(num),
                Err(e) => !valid_number(num) && e == 2u8,
            }
        }),
{
    let len = number.unicode_len();
    let cut = len - padding;
    let prefix = number.substring_char(0, cut);
    match parse_usize(prefix) {
        Some(n) => Ok(n),
        None => Err(2),
    }
}

impl WsMessageTime {
    /// Parses a duration string. `Err(1)` when no suffix fits or the number
    /// cannot be read.
    pub fn from_str(s: &str) -> (r: Result<WsMessageTime, u8>)
        ensures
            match time_of_str(s@) {
                Some(t) => r == Ok::<WsMessageTime, u8>(t),
                None => r == Err::<WsMessageTime, u8>(1u8),
            },
    {
        proof {
            reveal_strlit("s");
            reveal_strlit("m");
            reveal_strlit("h");
            reveal_strlit("sent");
            reveal_strlit("received");
        }
        if str_ends_with(s, "s") {
            if let Ok(number) = parse_time_number(s, 1) {
                return Ok(Self::Second(number));
            }
        } else if str_ends_with(s, "m") {
            if let Ok(number) = parse_time_number(s, 1) {
                return Ok(Self::Minute(number));
            }
        } else if str_ends_with(s, "h") {
            if let Ok(number) = parse_time_number(s, 1) {
                return Ok(Self::Hour(number));
            }
        } else if str_ends_with(s, "sent") {
            if let Ok(number) = parse_time_number(s, 4) {
                return Ok(Self::Sent(number));
            }
        } else if str_ends_with(s, "received") {
            if let Ok(number) = parse_time_number(s, 8) {
                return Ok(Self::Received(number));
            }
        }
        Err(1)
    }
}

impl WsMessageTime {
    /// The textual form of the duration, as the catalog stores it.
    pub fn to_text(&self) -> (r: String)
        ensures
            r@ == match *self {
                WsMessageTime::Second(t) => dec_str(t as nat) + "s"@,
                WsMessageTime::Minute(t) => dec_str(t as nat) + "m"@,
                WsMessageTime::Hour(t) => dec_str(t as nat) + "h"@,
                WsMessageTime::Sent(t) => dec_str(t as nat) + "sent"@,
                WsMessageTime::Received(t) => dec_str(t as nat) + "received"@,
            },
    {
        match self {
            WsMessageTime::Second(t) => {
                let mut s = u64_to_string(*t as u64);
                s.append("s");
                s
            },
            WsMessageTime::Minute(t) => {
                let mut s = u64_to_string(*t as u64);
                s.append("m");
                s
            },
            WsMessageTime::Hour(t) => {
                let mut s = u64_to_string(*t as u64);
                s.append("h");
                s
            },
            WsMessageTime::Sent(t) => {
                let mut s = u64_to_string(*t as u64);
                s.append("sent");
                s
            },
            WsMessageTime::Received(t) => {
                let mut s = u64_to_string(*t as u64);
                s.append("received");
                s
            },
        }
    }
}

/// Duration round trip: the text a duration is stored as parses back to
/// exactly that duration.
pub proof fn lemma_time_text_roundtrip(t: WsMessageTime)
    ensures
        ({
            let text = match t {
                WsMessageTime::Second(n) => dec_str(n as nat) + "s"@,
                WsMessageTime::Minute(n) => dec_str(n as nat) + "m"@,
                WsMessageTime::Hour(n) => dec_str(n as nat) + "h"@,
                WsMessageTime::Sent(n) => dec_str(n as nat) + "sent"@,
                WsMessageTime::Received(n) => dec_str(n as nat) + "received"@,
            };
            time_of_str(text) == Some(t)
        }),
{
    reveal_strlit("s");
    reveal_strlit("m");
    reveal_strlit("h");
    reveal_strlit("sent");
    reveal_strlit("received");
    match t {
        WsMessageTime::Second(n) => {
            lemma_dec_str_val(n as nat);
            let num = dec_str(n as nat);
            let text = num + "s"@;
            assert(text.subrange(text.len() - 1, text.len() as int) =~= "s"@);
            assert(ends_with(text, "s"@));
            assert(text.subrange(0, text.len() - "s"@.len()) =~= num);
            assert(valid_number(num));
        },
        WsMessageTime::Minute(n) => {
            lemma_dec_str_val(n as nat);
            let num = dec_str(n as nat);
            let text = num + "m"@;
            assert(text[text.len() - 1] == 'm');
            assert(!ends_with(text, "s"@)) by {
                if ends_with(text, "s"@) {
                    assert(text.subrange(text.len() - 1, text.len() as int)[0] == text[text.len()
                        - 1]);
                }
            }
            assert(text.subrange(text.len() - 1, text.len() as int) =~= "m"@);
            assert(ends_with(text, "m"@));
            assert(text.subrange(0, text.len() - "m"@.len()) =~= num);
            assert(valid_number(num));
        },
        WsMessageTime::Hour(n) => {
            lemma_dec_str_val(n as nat);
            let num = dec_str(n as nat);
            let text = num + "h"@;
            assert(text[text.len() - 1] == 'h');
            assert(!ends_with(text, "s"@)) by {
                if ends_with(text, "s"@) {
                    assert(text.subrange(text.len() - 1, text.len() as int)[0] == text[text.len()
                        - 1]);
                }
            }
            assert(!ends_with(text, "m"@)) by {
                if ends_with(text, "m"@) {
                    assert(text.subrange(text.len() - 1, text.len() as int)[0] == text[text.len()
                        - 1]);
                }
            }
            assert(text.subrange(text.len() - 1, text.len() as int) =~= "h"@);
            assert(ends_with(text, "h"@));
            assert(text.subrange(0, text.len() - "h"@.len()) =~= num);
            assert(valid_number(num));
        },
        WsMessageTime::Sent(n) => {
            lemma_dec_str_val(n as nat);
            let num = dec_str(n as nat);
            let text = num + "sent"@;
            assert(text[text.len() - 1] == 't');
            assert(!ends_with(text, "s"@)) by {
                if ends_with(text, "s"@) {
                    assert(text.subrange(text.len() - 1, text.len() as int)[0] == text[text.len()
                        - 1]);
                }
            }
            assert(!ends_with(text, "m"@)) by {
                if ends_with(text, "m"@) {
                    assert(text.subrange(text.len() - 1, text.len() as int)[0] == text[text.len()
                        - 1]);
                }
            }
            assert(!ends_with(text, "h"@)) by {
                if ends_with(text, "h"@) {
                    assert(text.subrange(text.len() - 1, text.len() as int)[0] == text[text.len()
                        - 1]);
                }
            }
            assert(text.subrange(text.len() - 4, text.len() as int) =~= "sent"@);
            assert(ends_with(text, "sent"@));
            assert(text.subrange(0, text.len() - "sent"@.len()) =~= num);
            assert(valid_number(num));
        },
        WsMessageTime::Received(n) => {
            lemma_dec_str_val(n as nat);
            let num = dec_str(n as nat);
            let text = num + "received"@;
            assert(text[text.len() - 1] == 'd');
            assert(!ends_with(text, "s"@)) by {
                if ends_with(text, "s"@) {
                    assert(text.subrange(text.len() - 1, text.len() as int)[0] == text[text.len()
                        - 1]);
                }
            }
            assert(!ends_with(text, "m"@)) by {
                if ends_with(text, "m"@) {
                    assert(text.subrange(text.len() - 1, text.len() as int)[0] == text[text.len()
                        - 1]);
                }
            }
            assert(!ends_with(text, "h"@)) by {
                if ends_with(text, "h"@) {
                    assert(text.subrange(text.len() - 1, text.len() as int)[0] == text[text.len()
                        - 1]);
                }
            }
            assert(!ends_with(text, "sent"@)) by {
                if ends_with(text, "sent"@) {
                    assert(text.subrange(text.len() - 4, text.len() as int)[3] == text[text.len()
                        - 1]);
                }
            }
            assert(text.subrange(text.len() - 8, text.len() as int) =~= "received"@);
            assert(ends_with(text, "received"@));
            assert(text.subrange(0, text.len() - "received"@.len()) =~= num);
            assert(valid_number(num));
        },
    }
}

/// The length of a parsed duration, in whole seconds; `sent` and `received`
/// are reserved and stand for one second.
pub open spec fn seconds_val(t: WsMessageTime) -> int {
    match t {
        WsMessageTime::Second(s) => s as int,
        WsMessageTime::Minute(m) => 60 * (m as int),
        WsMessageTime::Hour(h) => 3600 * (h as int),
        WsMessageTime::Sent(_) => 1,
        WsMessageTime::Received(_) => 1,
    }
}

impl WsMessageTime {
    /// The duration in whole seconds; `None` when it does not fit 64 bits.
    pub fn seconds(&self) -> (r: Option<u64>)
        ensures
            match r {
                Some(v) => seconds_val(*self) == v as int,
                None => seconds_val(*self) > u64::MAX,
            },
    {
        match self {
            WsMessageTime::Second(s) => Some(*s as u64),
            WsMessageTime::Minute(m) => {
                let m64 = *m as u64;
                if m64 <= u64::MAX / 60 {
                    assert(m64 * 60 <= u64::MAX) by (nonlinear_arith)
                        requires
                            m64 <= u64::MAX / 60,
                    {}
                    Some(m64 * 60)
                } else {
                    assert(m64 * 60 > u64::MAX) by (nonlinear_arith)
                        requires
                            m64 > u64::MAX / 60,
                    {}
                    None
                }
            },
            WsMessageTime::Hour(h) => {
                let h64 = *h as u64;
                if h64 <= u64::MAX / 3600 {
                    assert(h64 * 3600 <= u64::MAX) by (nonlinear_arith)
                        requires
                            h64 <= u64::MAX / 3600,
                    {}
                    Some(h64 * 3600)
                } else {
                    assert(h64 * 3600 > u64::MAX) by (nonlinear_arith)
                        requires
                            h64 > u64::MAX / 3600,
                    {}
                    None
                }
            },
            WsMessageTime::Sent(_) => Some(1),
            WsMessageTime::Received(_) => Some(1),
        }
    }
}

/// The replay delay named by an optional duration string, in whole seconds.
/// `None` when the string is absent, malformed, or too large for 64 bits.
pub open spec fn time_seconds(time: Option<String>) -> Option<int> {
    match time {
        None => None,
        Some(t) => match time_of_str(t@) {
            None => None,
            Some(parsed) => if seconds_val(parsed) <= u64::MAX {
                Some(seconds_val(parsed))
            } else {
                None
            },
        },
    }
}

impl WsMessage {
    /// The parsed replay delay of this message, in whole seconds.
    pub fn get_time(&self) -> (r: Option<u64>)
        ensures
            match r {
                Some(v) => time_seconds(self.time) == Some(v as int),
                None => time_seconds(self.time) is None,
            },
    {
        match &self.time {
            Some(time) => match WsMessageTime::from_str(time.as_str()) {
                Ok(t) => t.seconds(),
                Err(_) => None,
            },
            None => None,
        }
    }
}

/// One entry of the catalog: a method and path pattern mapped to recorded
/// response data or to a WebSocket script.
#[derive(Clone, Debug, PartialEq, Eq)]
pub struct Route {
    /// HTTP method
    pub method: RouteMethod,
    /// URI path pattern, holding `$$$` at most once as a wildcard
    pub path: String,
    /// Response metadata captured at record time
    pub metadata: Option<Metadata>,
    /// File storage location of the body
    pub resource: Option<String>,
    /// Replay script for WS routes
    pub messages: Vec<WsMessage>,
}

/// The wildcard token.
pub open spec fn token() -> Seq<char> {
    seq!['$', '$', '$']
}

/// The position of the first wildcard token in a pattern, if any.
pub open spec fn wildcard_at(p: Seq<char>) -> Option<int> {
    first_occurrence(p, token())
}

/// A pattern with its wildcard at `k` matches `u`: `u` carries the pattern's
/// prefix, carries its suffix, and is long enough to hold both.
pub open spec fn wildcard_match(p: Seq<char>, u: Seq<char>, k: int) -> bool
    recommends
        occurs_at(p, token(), k),
{
    let pre = p.subrange(0, k);
    let suf = p.subrange(k + 3, p.len() as int);
    &&& u.len() >= pre.len() + suf.len()
    &&& starts_with(u, pre)
    &&& ends_with(u, suf)
}

/// The slice of `u` captured by the wildcard of `p` at position `k`.
pub open spec fn wildcard_param(p: Seq<char>, u: Seq<char>, k: int) -> Seq<char>
    recommends
        occurs_at(p, token(), k),
        wildcard_match(p, u, k),
{
    u.subrange(k, u.len() - (p.len() - k - 3))
}

/// A pattern without a wildcard matches any `u` that ends with it.
pub open spec fn suffix_match(p: Seq<char>, u: Seq<char>) -> bool {
    ends_with(u, p)
}

/// Whether a pattern matches a request path: by its wildcard where it has
/// one, or as a plain suffix.
pub open spec fn pattern_matches(p: Seq<char>, u: Seq<char>) -> bool {
    match wildcard_at(p) {
        Some(k) => wildcard_match(p, u, k) || suffix_match(p, u),
        None => suffix_match(p, u),
    }
}

/// The parameter a pattern captures from `u`: only a wildcard hit captures
/// one.
pub open spec fn param_of(p: Seq<char>, u: Seq<char>) -> Option<Seq<char>> {
    match wildcard_at(p) {
        Some(k) => if wildcard_match(p, u, k) {
            Some(wildcard_param(p, u, k))
        } else {
            None
        },
        None => None,
    }
}

/// Whether a route answers a request: same method, matching pattern.
pub open spec fn route_matches(r: Route, m: RouteMethod, u: Seq<char>) -> bool {
    r.method == m && pattern_matches(r.path@, u)
}

/// The route at index `i` answers the request.
pub open spec fn matching_at(routes: Seq<Route>, u: Seq<char>, m: RouteMethod, i: int) -> bool {
    0 <= i < routes.len() && route_matches(routes[i], m, u)
}

/// Matches one route's pattern against a request path: whether it matches,
/// and the captured parameter on a wildcard hit.
pub fn try_match<'a>(route: &Route, uri: &'a str) -> (r: (bool, Option<&'a str>))
    ensures
        r.0 == pattern_matches(route.path@, uri@),
        match param_of(route.path@, uri@) {
            Some(p) => r.1 matches Some(q) && q@ == p,
            None => r.1 is None,
        },
{
    proof {
        reveal_strlit("$$$");
        assert("$$$"@ =~= token());
    }
    let path = route.path.as_str();
    let plen = path.unicode_len();
    let ulen = uri.unicode_len();
    if let Some(k) = find_str(path, "$$$") {
        proof {
            assert(occurs_at(path@, token(), k as int));
        }
        let pre = path.substring_char(0, k);
        if str_starts_with(uri, pre) {
            if k + 3 != plen {
                let suf_len = plen - (k + 3);
                let suf = path.substring_char(k + 3, plen);
                if str_ends_with(uri, suf) && ulen >= k + suf_len {
                    let param = uri.substring_char(k, ulen - suf_len);
                    return (true, Some(param));
                }
            } else {
                proof {
                    assert(path@.subrange(k + 3, path@.len() as int) =~= Seq::<char>::empty());
                    assert(uri@.subrange(uri@.len() as int, uri@.len() as int) =~= Seq::<
                        char,
                    >::empty());
                }
                let param = uri.substring_char(k, ulen);
                return (true, Some(param));
            }
        }
        assert(!wildcard_match(route.path@, uri@, k as int));
        if str_ends_with(uri, path) {
            return (true, None);
        }
        (false, None)
    } else {
        if str_ends_with(uri, path) {
            return (true, None);
        }
        (false, None)
    }
}

/// Resolves a request against the catalog's routes.
///
/// Returns the first route in declaration order whose method equals the
/// request method and whose pattern matches the request path, together with
/// the parameter its wildcard captured, or `(None, None)` when no route
/// matches.
pub fn get_route<'a>(routes: &'a Vec<Route>, uri: &'a str, method: &RouteMethod) -> (r: (
    Option<&'a Route>,
    Option<&'a str>,
))
    ensures
        match r.0 {
            Some(route) => exists|i: int|
                #![auto]
                matching_at(routes@, uri@, *method, i) && routes@[i] == *route && (forall|j: int|
                    0 <= j < i ==> !matching_at(routes@, uri@, *method, j)) && (match param_of(
                    routes@[i].path@,
                    uri@,
                ) {
                    Some(p) => r.1 matches Some(q) && q@ == p,
                    None => r.1 is None,
                }),
            None => r.1 is None && forall|i: int|
                0 <= i < routes@.len() ==> !matching_at(routes@, uri@, *method, i),
        },
{
    let mut idx: usize = 0;
    while idx < routes.len()
        invariant
            idx <= routes@.len(),
            forall|j: int| 0 <= j < idx ==> !matching_at(routes@, uri@, *method, j),
        decreases routes@.len() - idx,
    {
        let route = &routes[idx];
        if route.method == *method {
            let (hit, param) = try_match(route, uri);
            if hit {
                return (Some(route), param);
            }
        }
        idx += 1;
    }
    (None, None)
}

/// The catalog: the ordered route list together with the listen address, the
/// upstream base URL, and the build mode.
#[derive(Clone, Debug)]
pub struct Configuration {
    /// The listen address of the proxy
    pub host: Option<String>,
    /// The upstream base URL misses are forwarded to
    pub remote: Option<String>,
    /// Whether misses may mutate the catalog
    pub build_mode: Option<BuildMode>,
    /// All routes, in declaration order
    pub routes: Vec<Route>,
}

/// The route at index `i` has exactly this path and method.
pub open spec fn exact_match_at(
    routes: Seq<Route>,
    path: Seq<char>,
    m: RouteMethod,
    i: int,
) -> bool {
    0 <= i < routes.len() && routes[i].path@ == path && routes[i].method == m
}

/// The route at index `i` has exactly this resource and method.
pub open spec fn resource_match_at(
    routes: Seq<Route>,
    resource: Seq<char>,
    m: RouteMethod,
    i: int,
) -> bool {
    &&& 0 <= i < routes.len()
    &&& routes[i].resource matches Some(res) && res@ == resource
    &&& routes[i].method == m
}

impl Configuration {
    /// Catalog uniqueness: no two routes share a method and a path pattern.
    pub open spec fn wf(&self) -> bool {
        forall|i: int, j: int|
            0 <= i < j < self.routes@.len() ==> !(#[trigger] self.routes@[i].method
                == #[trigger] self.routes@[j].method && self.routes@[i].path@
                == self.routes@[j].path@)
    }

    /// Whether any route carries exactly this path, whatever its method.
    pub fn has_route(&self, path: &str) -> (r: bool)
        ensures
            r == exists|i: int|
                0 <= i < self.routes@.len() && (#[trigger] self.routes@[i]).path@ == path@,
    {
        let mut idx: usize = 0;
        while idx < self.routes.len()
            invariant
                idx <= self.routes@.len(),
                forall|j: int| 0 <= j < idx ==> (#[trigger] self.routes@[j]).path@ != path@,
            decreases self.routes@.len() - idx,
        {
            if str_eq(self.routes[idx].path.as_str(), path) {
                return true;
            }
            idx += 1;
        }
        false
    }

    /// The first route with exactly this path and method, used for
    /// duplicate suppression; dispatch goes through [`get_route`] instead.
    pub fn get_route(&self, path: &str, method: &RouteMethod) -> (r: Option<&Route>)
        ensures
            match r {
                Some(route) => exists|i: int|
                    #![auto]
                    exact_match_at(self.routes@, path@, *method, i) && self.routes@[i] == *route
                        && (forall|j: int|
                        0 <= j < i ==> !exact_match_at(self.routes@, path@, *method, j)),
                None => forall|i: int|
                    0 <= i < self.routes@.len() ==> !exact_match_at(
                        self.routes@,
                        path@,
                        *method,
                        i,
                    ),
            },
    {
        let mut idx: usize = 0;
        while idx < self.routes.len()
            invariant
                idx <= self.routes@.len(),
                forall|j: int| 0 <= j < idx ==> !exact_match_at(self.routes@, path@, *method, j),
            decreases self.routes@.len() - idx,
        {
            let route = &self.routes[idx];
            if str_eq(route.path.as_str(), path) && route.method == *method {
                return Some(route);
            }
            idx += 1;
        }
        None
    }

    /// The index of the first route with exactly this resource and method,
    /// used by the store to redirect a route whose file was moved.
    pub fn get_route_by_resource_mut(&mut self, resource: &str, method: &RouteMethod) -> (r:
        Option<usize>)
        ensures
            *final(self) == *old(self),
            match r {
                Some(i) => resource_match_at(old(self).routes@, resource@, *method, i as int)
                    && (forall|j: int|
                    0 <= j < i ==> !resource_match_at(old(self).routes@, resource@, *method, j)),
                None => forall|j: int|
                    0 <= j < old(self).routes@.len() ==> !resource_match_at(
                        old(self).routes@,
                        resource@,
                        *method,
                        j,
                    ),
            },
    {
        let mut idx: usize = 0;
        while idx < self.routes.len()
            invariant
                idx <= self.routes@.len(),
                forall|j: int|
                    0 <= j < idx ==> !resource_match_at(self.routes@, resource@, *method, j),
            decreases self.routes@.len() - idx,
        {
            let route = &self.routes[idx];
            if route.method == *method {
                if let Some(res) = &route.resource {
                    if str_eq(res.as_str(), resource) {
                        return Some(idx);
                    }
                }
            }
            idx += 1;
        }
        None
    }

    /// The index of the first route with exactly this path and method.
    pub fn get_route_by_path_mut(&mut self, path: &str, method: &RouteMethod) -> (r: Option<
        usize,
    >)
        ensures
            *final(self) == *old(self),
            match r {
                Some(i) => exact_match_at(old(self).routes@, path@, *method, i as int) && (forall|
                    j: int,
                |
                    0 <= j < i ==> !exact_match_at(old(self).routes@, path@, *method, j)),
                None => forall|j: int|
                    0 <= j < old(self).routes@.len() ==> !exact_match_at(
                        old(self).routes@,
                        path@,
                        *method,
                        j,
                    ),
            },
    {
        let mut idx: usize = 0;
        while idx < self.routes.len()
            invariant
                idx <= self.routes@.len(),
                forall|j: int| 0 <= j < idx ==> !exact_match_at(self.routes@, path@, *method, j),
            decreases self.routes@.len() - idx,
        {
            let route = &self.routes[idx];
            if str_eq(route.path.as_str(), path) && route.method == *method {
                return Some(idx);
            }
            idx += 1;
        }
        None
    }
}

impl Default for Configuration {
    /// The catalog written on first start: listen locally, point at a local
    /// upstream, and do not record.
    fn default() -> (r: Self)
        ensures
            r.host matches Some(h) && h@ == "127.0.0.1:8080"@,
            r.remote matches Some(m) && m@ == "http://localhost"@,
            r.build_mode == Some(BuildMode::Read),
            r.routes@.len() == 0,
            r.wf(),
    {
        Configuration {
            host: Some(String::from_str("127.0.0.1:8080")),
            remote: Some(String::from_str("http://localhost")),
            build_mode: Some(BuildMode::Read),
            routes: Vec::new(),
        }
    }
}

/// Every path is a suffix of itself, so a pattern always matches the path
/// that equals it.
pub proof fn lemma_self_match(p: Seq<char>)
    ensures
        suffix_match(p, p),
{
    assert(p.subrange(p.len() - p.len(), p.len() as int) =~= p);
}

/// A pattern matches any path it is a suffix of, whether or not it carries
/// a wildcard.
pub proof fn lemma_suffix_match_implies(p: Seq<char>, u: Seq<char>)
    requires
        suffix_match(p, u),
    ensures
        pattern_matches(p, u),
{
}

/// Resolver determinism: the answer is fixed by the first matching index,
/// and swapping two matching routes swaps which route that position holds,
/// hence which route is returned.
pub proof fn lemma_resolver_swap(
    routes: Seq<Route>,
    u: Seq<char>,
    m: RouteMethod,
    i: int,
    j: int,
)
    requires
        0 <= i < j < routes.len(),
        route_matches(routes[i], m, u),
        route_matches(routes[j], m, u),
        forall|l: int| 0 <= l < i ==> !matching_at(routes, u, m, l),
    ensures
        matching_at(routes, u, m, i),
        ({
            let swapped = routes.update(i, routes[j]).update(j, routes[i]);
            matching_at(swapped, u, m, i) && swapped[i] == routes[j] && (forall|l: int|
                0 <= l < i ==> !matching_at(swapped, u, m, l))
        }),
{
    let swapped = routes.update(i, routes[j]).update(j, routes[i]);
    assert(swapped.len() == routes.len());
    assert(swapped[i] == routes[j]);
    assert forall|l: int| 0 <= l < i implies !matching_at(swapped, u, m, l) by {
        assert(swapped[l] == routes[l]);
        assert(!matching_at(routes, u, m, l));
    }
}

/// Wildcard round-trip: a route whose pattern is `A`, then the wildcard,
/// then `B`, resolved against `A + X + B`, matches and captures exactly `X`.
pub proof fn lemma_wildcard_roundtrip(
    r: Route,
    m: RouteMethod,
    a: Seq<char>,
    x: Seq<char>,
    b: Seq<char>,
)
    requires
        r.method == m,
        r.path@ == a + token() + b,
        wildcard_at(r.path@) == Some(a.len() as int),
    ensures
        route_matches(r, m, a + x + b),
        param_of(r.path@, a + x + b) == Some(x),
{
    let p = r.path@;
    let u = a + x + b;
    let k = a.len() as int;
    assert(p.subrange(0, k) =~= a);
    assert(p.subrange(k + 3, p.len() as int) =~= b);
    assert(u.subrange(0, k) =~= a);
    assert(u.subrange(u.len() - b.len(), u.len() as int) =~= b);
    assert(wildcard_match(p, u, k));
    assert(u.subrange(k, u.len() - (p.len() - k - 3)) =~= x);
}

/// A pattern built as `A`, then the wildcard, then `B` has its first
/// wildcard exactly at the end of `A` whenever `A` is free of `$`.
pub proof fn lemma_wildcard_position(a: Seq<char>, b: Seq<char>)
    requires
        forall|l: int| 0 <= l < a.len() ==> a[l] != '$',
    ensures
        wildcard_at(a + token() + b) == Some(a.len() as int),
{
    let p = a + token() + b;
    let k = a.len() as int;
    assert(p.subrange(k, k + 3) =~= token());
    assert(occurs_at(p, token(), k));
    assert forall|l: int| 0 <= l < k implies !occurs_at(p, token(), l) by {
        if occurs_at(p, token(), l) {
            assert(p.subrange(l, l + 3)[0] == token()[0]);
            assert(p[l] == '$');
            assert(p[l] == a[l]);
        }
    }
    lemma_first_occurrence_from(p, token(), k);
}

} // verus!
