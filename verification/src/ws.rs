//! The WebSocket engine's verified core: classification of recorded
//! messages into a replay script, the replay schedule, the frame each
//! scripted message is sent as, and the record/replay decision for an
//! upgraded connection.

use vstd::prelude::*;

use crate::configuration::{
    time_seconds, Configuration, Metadata, Route, RouteMethod, WsMessagType, WsMessage,
    WsMessageType, BuildMode, matching_at,
};
use crate::router::first_match;
use crate::storage::{bytes_to_str, get_save_path, is_json, is_json_spec, save_path_spec};
use crate::strutil::{
    dec_str, replace_spec, replace_token, starts_with, str_starts_with, u64_to_string,
};
use vstd::utf8::{decode_utf8, valid_utf8};

verus! {

/// How long a record session may run past the first task that finishes,
/// in seconds.
pub const RECORD_WINDOW_SECS: u64 = 10;

/// The capacity of the channels between the cooperating record tasks.
pub const WS_CHANNEL_CAPACITY: usize = 32;

/// A recording offset up to this many seconds counts as a Startup message.
pub const STARTUP_WINDOW_SECS: u64 = 5;

/// One message seen on a recorded WebSocket session.
#[derive(Clone, Debug, PartialEq, Eq)]
pub struct WsClientMessage {
    /// Seconds after the session began at which the message was seen
    pub offset: u64,
    /// Message payload
    pub content: Vec<u8>,
    /// Frame kind of the message
    pub message_type: WsMessagType,
}

/// A URL with its scheme switched to the WebSocket protocol.
pub open spec fn ws_url_spec(u: Seq<char>) -> Seq<char> {
    if starts_with(u, "http"@) {
        "ws"@ + u.subrange("http"@.len() as int, u.len() as int)
    } else {
        u
    }
}

/// Rewrites an `http` or `https` URL to the `ws` scheme.
pub fn get_ws_url(url: &str) -> (r: String)
    ensures
        r@ == ws_url_spec(url@),
{
    proof {
        reveal_strlit("http");
    }
    if str_starts_with(url, "http") {
        let len = url.unicode_len();
        let mut out = String::from_str("ws");
        out.append(url.substring_char(4, len));
        out
    } else {
        String::from_str(url)
    }
}

/// Turns the messages of a recorded session into the stored script: message
/// `i` of a session at `path` is stored at the save path of
/// `path + "_ws/" + i`, with `.json` added when the payload is a JSON
/// document; a message seen within the startup window replays at `Startup`,
/// a later one at `After` with its offset as the delay.
pub fn plan_ws_messages(path: &str, messages: &Vec<WsClientMessage>) -> (r: Vec<WsMessage>)
    ensures
        r@.len() == messages@.len(),
        forall|i: int|
            0 <= i < r@.len() ==> {
                let m = messages@[i];
                let base = path@ + "_ws/"@ + dec_str(i as nat) + (if is_json_spec(m.content@) {
                    ".json"@
                } else {
                    Seq::<char>::empty()
                });
                &&& (#[trigger] r@[i]).location@ == save_path_spec(base, None)
                &&& r@[i].message_type == m.message_type
                &&& (m.offset <= STARTUP_WINDOW_SECS ==> r@[i].kind == WsMessageType::Startup
                    && r@[i].time is None)
                &&& (m.offset > STARTUP_WINDOW_SECS ==> r@[i].kind == WsMessageType::After && (
                r@[i].time matches Some(t) && t@ == dec_str(m.offset as nat) + "s"@))
            },
{
    let mut out: Vec<WsMessage> = Vec::new();
    let mut idx: usize = 0;
    while idx < messages.len()
        invariant
            idx <= messages@.len(),
            out@.len() == idx,
            forall|i: int|
                0 <= i < idx ==> {
                    let m = messages@[i];
                    let base = path@ + "_ws/"@ + dec_str(i as nat) + (if is_json_spec(
                        m.content@,
                    ) {
                        ".json"@
                    } else {
                        Seq::<char>::empty()
                    });
                    &&& (#[trigger] out@[i]).location@ == save_path_spec(base, None)
                    &&& out@[i].message_type == m.message_type
                    &&& (m.offset <= STARTUP_WINDOW_SECS ==> out@[i].kind
                        == WsMessageType::Startup && out@[i].time is None)
                    &&& (m.offset > STARTUP_WINDOW_SECS ==> out@[i].kind == WsMessageType::After
                        && (out@[i].time matches Some(t) && t@ == dec_str(m.offset as nat)
                        + "s"@))
                },
        decreases messages@.len() - idx,
    {
        let message = &messages[idx];
        let mut base = String::from_str(path);
        base.append("_ws/");
        let number = u64_to_string(idx as u64);
        base.append(number.as_str());
        if is_json(message.content.as_slice()) {
            base.append(".json");
        } else {
            proof {
                assert(base@ =~= base@ + Seq::<char>::empty());
            }
        }
        let location = get_save_path(base.as_str(), None);
        let entry = if message.offset <= STARTUP_WINDOW_SECS {
            WsMessage {
                kind: WsMessageType::Startup,
                time: None,
                message_type: message.message_type,
                location,
            }
        } else {
            let mut time = u64_to_string(message.offset);
            time.append("s");
            WsMessage {
                kind: WsMessageType::After,
                time: Some(time),
                message_type: message.message_type,
                location,
            }
        };
        out.push(entry);
        idx += 1;
    }
    out
}

/// The WS route recorded for a session: the request path, the upgrade
/// metadata, no stored body, and the recorded script.
pub fn make_ws_route(uri: &str, metadata: Option<Metadata>, messages: Vec<WsMessage>) -> (r:
    Route)
    ensures
        r.method == RouteMethod::WS,
        r.path@ == uri@,
        r.metadata == metadata,
        r.resource is None,
        r.messages == messages,
{
    Route {
        method: RouteMethod::WS,
        path: String::from_str(uri),
        metadata,
        resource: None,
        messages,
    }
}

/// A WebSocket frame of the replay.
pub enum WsFrame {
    /// A text frame
    Text(String),
    /// A binary frame
    Binary(Vec<u8>),
    /// A ping frame
    Ping(Vec<u8>),
    /// A pong frame
    Pong(Vec<u8>),
}

/// Copies a payload.
fn clone_bytes(content: &Vec<u8>) -> (r: Vec<u8>)
    ensures
        r@ == content@,
{
    let mut out: Vec<u8> = Vec::new();
    let mut idx: usize = 0;
    while idx < content.len()
        invariant
            idx <= content@.len(),
            out@ =~= content@.subrange(0, idx as int),
        decreases content@.len() - idx,
    {
        out.push(content[idx]);
        idx += 1;
    }
    proof {
        assert(out@ =~= content@);
    }
    out
}

/// The frame one scripted message is replayed as: a text payload goes as a
/// text frame with the escape `^@` standing for NUL; binary, ping and pong
/// payloads go as they are; close and raw frames are reserved and never
/// replayed, and a text payload that is not UTF-8 cannot be sent.
pub fn frame_for(message_type: &WsMessagType, content: &Vec<u8>) -> (r: Option<WsFrame>)
    ensures
        match message_type {
            WsMessagType::Text => {
                &&& (valid_utf8(content@) ==> (r matches Some(WsFrame::Text(s)) && s@
                    == replace_spec(decode_utf8(content@), "^@"@, "\u{0}"@)))
                &&& (!valid_utf8(content@) ==> r is None)
            },
            WsMessagType::Binary => r matches Some(WsFrame::Binary(b)) && b@ == content@,
            WsMessagType::Ping => r matches Some(WsFrame::Ping(b)) && b@ == content@,
            WsMessagType::Pong => r matches Some(WsFrame::Pong(b)) && b@ == content@,
            WsMessagType::Close => r is None,
            WsMessagType::Frame => r is None,
        },
{
    match message_type {
        WsMessagType::Text => match bytes_to_str(content.as_slice()) {
            Some(text) => {
                proof {
                    vstd::utf8::encode_utf8_decode_utf8(text@);
                    reveal_strlit("^@");
                }
                Some(WsFrame::Text(replace_token(text, "^@", "\u{0}")))
            },
            None => None,
        },
        WsMessagType::Binary => Some(WsFrame::Binary(clone_bytes(content))),
        WsMessagType::Ping => Some(WsFrame::Ping(clone_bytes(content))),
        WsMessagType::Pong => Some(WsFrame::Pong(clone_bytes(content))),
        WsMessagType::Close => None,
        WsMessagType::Frame => None,
    }
}

/// One scheduled send of a replayed session.
pub struct ReplayStep {
    /// Index into the route's script
    pub index: usize,
    /// Seconds after the upgrade at which the first send happens
    pub delay: u64,
    /// Whether the send repeats with `delay` as its period
    pub repeat: bool,
}

/// When a scripted message is sent: a Startup message at once, an After
/// message once after its delay, an Every message repeatedly at its
/// interval; an After or Every message without a readable time is dropped.
pub open spec fn step_for(m: WsMessage) -> Option<(int, bool)> {
    match m.kind {
        WsMessageType::Startup => Some((0int, false)),
        WsMessageType::After => match time_seconds(m.time) {
            Some(t) => Some((t, false)),
            None => None,
        },
        WsMessageType::Every => match time_seconds(m.time) {
            Some(t) => Some((t, true)),
            None => None,
        },
    }
}

/// The schedule is faithful to the script: every step carries its message's
/// delay and period, script order is kept, and every schedulable message is
/// scheduled.
pub open spec fn schedule_ok(messages: Seq<WsMessage>, steps: Seq<ReplayStep>) -> bool {
    &&& forall|k: int|
        0 <= k < steps.len() ==> (#[trigger] steps[k]).index < messages.len() && step_for(
            messages[steps[k].index as int],
        ) == Some((steps[k].delay as int, steps[k].repeat))
    &&& forall|k1: int, k2: int|
        0 <= k1 < k2 < steps.len() ==> (#[trigger] steps[k1]).index < (#[trigger] steps[k2]).index
    &&& forall|i: int|
        0 <= i < messages.len() && (#[trigger] step_for(messages[i])) is Some ==> exists|k: int|
            0 <= k < steps.len() && (#[trigger] steps[k]).index == i
}

/// The replay schedule of a script.
pub fn replay_schedule(messages: &Vec<WsMessage>) -> (r: Vec<ReplayStep>)
    ensures
        schedule_ok(messages@, r@),
{
    let mut out: Vec<ReplayStep> = Vec::new();
    let mut idx: usize = 0;
    while idx < messages.len()
        invariant
            idx <= messages@.len(),
            forall|k: int|
                0 <= k < out@.len() ==> (#[trigger] out@[k]).index < idx && step_for(
                    messages@[out@[k].index as int],
                ) == Some((out@[k].delay as int, out@[k].repeat)),
            forall|k1: int, k2: int|
                0 <= k1 < k2 < out@.len() ==> (#[trigger] out@[k1]).index
                    < (#[trigger] out@[k2]).index,
            forall|i: int|
                0 <= i < idx && (#[trigger] step_for(messages@[i])) is Some ==> exists|k: int|
                    0 <= k < out@.len() && (#[trigger] out@[k]).index == i,
        decreases messages@.len() - idx,
    {
        let message = &messages[idx];
        let ghost prev = out@;
        match message.kind {
            WsMessageType::Startup => {
                out.push(ReplayStep { index: idx, delay: 0, repeat: false });
            },
            WsMessageType::After => {
                if let Some(delay) = message.get_time() {
                    out.push(ReplayStep { index: idx, delay, repeat: false });
                }
            },
            WsMessageType::Every => {
                if let Some(delay) = message.get_time() {
                    out.push(ReplayStep { index: idx, delay, repeat: true });
                }
            },
        }
        proof {
            assert forall|i: int|
                0 <= i < idx + 1 && (#[trigger] step_for(messages@[i])) is Some implies exists|
                k: int,
            | 0 <= k < out@.len() && (#[trigger] out@[k]).index == i by {
                if i < idx {
                    let k = choose|k: int| 0 <= k < prev.len() && (#[trigger] prev[k]).index == i;
                    assert(out@[k].index == i);
                } else {
                    assert(out@[out@.len() - 1].index == i);
                }
            }
        }
        idx += 1;
    }
    out
}

/// Replay ordering, first half: a Startup message is delivered before any
/// After message, because it is scheduled with no delay.
pub proof fn lemma_replay_startup_first(
    messages: Seq<WsMessage>,
    steps: Seq<ReplayStep>,
    k1: int,
    k2: int,
)
    requires
        schedule_ok(messages, steps),
        0 <= k1 < steps.len(),
        0 <= k2 < steps.len(),
        messages[steps[k1].index as int].kind == WsMessageType::Startup,
        messages[steps[k2].index as int].kind == WsMessageType::After,
    ensures
        steps[k1].delay == 0,
        steps[k1].delay <= steps[k2].delay,
{
}

/// Replay ordering, second half: of two After messages the one with the
/// earlier time is delivered first, because each is scheduled with its own
/// parsed time as its delay.
pub proof fn lemma_replay_after_order(
    messages: Seq<WsMessage>,
    steps: Seq<ReplayStep>,
    k1: int,
    k2: int,
)
    requires
        schedule_ok(messages, steps),
        0 <= k1 < steps.len(),
        0 <= k2 < steps.len(),
        messages[steps[k1].index as int].kind == WsMessageType::After,
        messages[steps[k2].index as int].kind == WsMessageType::After,
        time_seconds(messages[steps[k1].index as int].time) matches Some(t1) && (time_seconds(
            messages[steps[k2].index as int].time,
        ) matches Some(t2) && t1 < t2),
    ensures
        steps[k1].delay < steps[k2].delay,
{
}

/// What the engine does with an upgraded connection: replay the first
/// matching WS route; with none recorded, record from the upstream under
/// `Write` mode, and otherwise leave the socket alone.
pub enum WsPlan {
    /// Replay the script of the route at this index.
    Replay {
        /// Index of the winning WS route
        index: usize,
    },
    /// Record a new session against this upstream WebSocket URL.
    Record {
        /// The upstream URL, scheme already rewritten
        url: String,
    },
    /// No script, and recording is off or impossible.
    Ignore,
}

/// Appends a freshly recorded WS route to the catalog. No WS route matched
/// the session's path — in particular none carries exactly that path — so
/// catalog uniqueness is preserved.
pub fn record_ws_route(config: &mut Configuration, route: Route)
    requires
        route.method == RouteMethod::WS,
        forall|i: int|
            0 <= i < old(config).routes@.len() ==> !matching_at(
                old(config).routes@,
                route.path@,
                RouteMethod::WS,
                i,
            ),
    ensures
        final(config).host == old(config).host,
        final(config).remote == old(config).remote,
        final(config).build_mode == old(config).build_mode,
        final(config).routes@ == old(config).routes@.push(route),
        old(config).wf() ==> final(config).wf(),
{
    proof {
        let prev = config.routes@;
        let n = prev.len() as int;
        if config.wf() {
            assert forall|i: int, j: int|
                0 <= i < j < prev.push(route).len() implies !(#[trigger] prev.push(
                route,
            )[i].method == #[trigger] prev.push(route)[j].method && prev.push(route)[i].path@
                == prev.push(route)[j].path@) by {
                if j == n {
                    if prev[i].method == route.method && prev[i].path@ == route.path@ {
                        crate::configuration::lemma_self_match(route.path@);
                        crate::configuration::lemma_suffix_match_implies(
                            prev[i].path@,
                            route.path@,
                        );
                        assert(matching_at(prev, route.path@, RouteMethod::WS, i));
                    }
                }
            }
        }
    }
    config.routes.push(route);
}

/// Decides an upgraded WebSocket connection.
pub fn ws_endpoint_plan(config: &Configuration, uri: &str) -> (r: WsPlan)
    ensures
        match r {
            WsPlan::Replay { index } => first_match(
                config.routes@,
                uri@,
                RouteMethod::WS,
                index as int,
            ),
            WsPlan::Record { url } => (forall|i: int|
                0 <= i < config.routes@.len() ==> !matching_at(
                    config.routes@,
                    uri@,
                    RouteMethod::WS,
                    i,
                )) && config.build_mode == Some(BuildMode::Write) && (config.remote matches Some(
                remote,
            ) && url@ == ws_url_spec(remote@ + uri@)),
            WsPlan::Ignore => (forall|i: int|
                0 <= i < config.routes@.len() ==> !matching_at(
                    config.routes@,
                    uri@,
                    RouteMethod::WS,
                    i,
                )) && (config.build_mode != Some(BuildMode::Write) || config.remote is None),
        },
{
    let mut idx: usize = 0;
    while idx < config.routes.len()
        invariant
            idx <= config.routes@.len(),
            forall|j: int| 0 <= j < idx ==> !matching_at(config.routes@, uri@, RouteMethod::WS, j),
        decreases config.routes@.len() - idx,
    {
        let route = &config.routes[idx];
        if route.method == RouteMethod::WS {
            let (hit, _param) = crate::configuration::try_match(route, uri);
            if hit {
                return WsPlan::Replay { index: idx };
            }
        }
        idx += 1;
    }
    let write = match &config.build_mode {
        Some(BuildMode::Write) => true,
        _ => false,
    };
    if write {
        match &config.remote {
            Some(remote) => {
                let target = crate::builder::get_url_str(uri, remote.as_str());
                WsPlan::Record { url: get_ws_url(target.as_str()) }
            },
            None => WsPlan::Ignore,
        }
    } else {
        WsPlan::Ignore
    }
}

} // verus!
