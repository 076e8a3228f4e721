use moxy::builder::{fetch_url_for, get_url, get_url_str, save_route, should_persist, ResourceData};
use moxy::configuration::{
    parse_time_number, BuildMode, Configuration, Metadata, Route, RouteMethod, WsMessagType,
    WsMessage, WsMessageTime, WsMessageType,
};
use moxy::data_loader::load_path;
use moxy::router::{
    after_load_failure, endpoint_plan, get_content_type_with_fallback, response_head, EndpointPlan,
};
use moxy::ws::{
    frame_for, get_ws_url, make_ws_route, plan_ws_messages, replay_schedule, ws_endpoint_plan,
    WsClientMessage, WsFrame, WsPlan, RECORD_WINDOW_SECS,
};

#[test]
fn parse_ws_message_time() {
    assert_eq!(WsMessageTime::from_str("3s").unwrap(), WsMessageTime::Second(3));
    assert_eq!(WsMessageTime::from_str("3m").unwrap(), WsMessageTime::Minute(3));
    assert_eq!(WsMessageTime::from_str("3h").unwrap(), WsMessageTime::Hour(3));
    assert_eq!(WsMessageTime::from_str("3sent").unwrap(), WsMessageTime::Sent(3));
    assert_eq!(WsMessageTime::from_str("3received").unwrap(), WsMessageTime::Received(3));
}

#[test]
fn parse_time_number_reads_the_leading_number() {
    assert_eq!(parse_time_number("3sent", 4), Ok(3));
    assert_eq!(parse_time_number("120s", 1), Ok(120));
    assert_eq!(parse_time_number("xs", 1), Err(2));
    assert_eq!(parse_time_number("s", 1), Err(2));
}

#[test]
fn ws_message_time_text_round_trips() {
    for text in ["3s", "45m", "2h", "3sent", "3received", "120s"] {
        let parsed = WsMessageTime::from_str(text).unwrap();
        assert_eq!(parsed.to_text(), text);
        assert_eq!(WsMessageTime::from_str(&parsed.to_text()).unwrap(), parsed);
    }
}

#[test]
fn ws_message_time_rejects_malformed_strings() {
    assert_eq!(WsMessageTime::from_str("abc"), Err(1));
    assert_eq!(WsMessageTime::from_str(""), Err(1));
    assert_eq!(WsMessageTime::from_str("ms"), Err(1));
}

fn ws_msg(kind: WsMessageType, time: Option<&str>) -> WsMessage {
    WsMessage {
        kind,
        time: time.map(|t| t.to_string()),
        message_type: WsMessagType::Text,
        location: "loc".to_string(),
    }
}

#[test]
fn get_time_converts_units_to_seconds() {
    assert_eq!(ws_msg(WsMessageType::After, Some("2s")).get_time(), Some(2));
    assert_eq!(ws_msg(WsMessageType::After, Some("3m")).get_time(), Some(180));
    assert_eq!(ws_msg(WsMessageType::After, Some("2h")).get_time(), Some(7200));
    assert_eq!(ws_msg(WsMessageType::After, Some("3sent")).get_time(), Some(1));
    assert_eq!(ws_msg(WsMessageType::After, Some("3x")).get_time(), None);
    assert_eq!(ws_msg(WsMessageType::After, None).get_time(), None);
}

#[test]
fn record_window_is_ten_seconds() {
    assert_eq!(RECORD_WINDOW_SECS, 10);
}

#[test]
fn urls_are_joined_by_concatenation() {
    assert_eq!(get_url("/api/x?q=1", "http://upstream"), "http://upstream/api/x?q=1");
    assert_eq!(get_url_str("/s", "http://h"), "http://h/s");
}

#[test]
fn ws_url_rewrites_the_scheme() {
    assert_eq!(get_ws_url("http://upstream/s"), "ws://upstream/s");
    assert_eq!(get_ws_url("https://upstream/s"), "wss://upstream/s");
    assert_eq!(get_ws_url("ftp://upstream/s"), "ftp://upstream/s");
}

#[test]
fn miss_with_no_remote() {
    // Empty catalog, no remote, Write mode: the dispatcher wants to build,
    // but there is nowhere to fetch from, so the client gets 404 and the
    // catalog is untouched.
    let config = Configuration {
        host: None,
        remote: None,
        build_mode: Some(BuildMode::Write),
        routes: vec![],
    };
    let plan = endpoint_plan(&config, "/anything", &RouteMethod::GET);
    assert!(matches!(plan, EndpointPlan::Build));
    assert_eq!(fetch_url_for(&config.build_mode, &config.remote, "/anything"), None);
    assert!(config.routes.is_empty());
}

#[test]
fn miss_in_read_mode_is_not_found() {
    let config = Configuration {
        host: None,
        remote: None,
        build_mode: Some(BuildMode::Read),
        routes: vec![],
    };
    let plan = endpoint_plan(&config, "/anything", &RouteMethod::GET);
    assert!(matches!(plan, EndpointPlan::NotFound));
}

#[test]
fn record_then_replay() {
    // Empty catalog, Write mode, a remote: the first request is built from
    // upstream, recorded, and the second identical request is a local hit.
    let mut config = Configuration {
        host: None,
        remote: Some("http://upstream".to_string()),
        build_mode: Some(BuildMode::Write),
        routes: vec![],
    };

    let plan = endpoint_plan(&config, "/login", &RouteMethod::POST);
    assert!(matches!(plan, EndpointPlan::Build));

    let url = fetch_url_for(&config.build_mode, &config.remote, "/login").unwrap();
    assert_eq!(url, "http://upstream/login");

    let response = ResourceData {
        method: RouteMethod::POST,
        headers: vec![("content-type".to_string(), "application/json".to_string())],
        code: 201,
        payload: Some(b"{\"ok\":true}".to_vec()),
    };
    assert!(should_persist(&config.build_mode, &response));

    let path = moxy::storage::get_save_path("/login", Some("application/json"));
    assert_eq!(path, "./db/login.json");

    let inserted = save_route(
        &mut config,
        &RouteMethod::POST,
        "/login",
        Some(Metadata { code: 201, header: response.headers.clone() }),
        Some(path.clone()),
    );
    assert!(inserted);
    assert_eq!(config.routes.len(), 1);
    assert_eq!(config.routes[0].metadata.as_ref().unwrap().code, 201);

    // A concurrent (or second) recording of the same pair is suppressed.
    let again = save_route(&mut config, &RouteMethod::POST, "/login", None, None);
    assert!(!again);
    assert_eq!(config.routes.len(), 1);

    // The second request is served locally.
    match endpoint_plan(&config, "/login", &RouteMethod::POST) {
        EndpointPlan::Load { index, resource } => {
            assert_eq!(index, 0);
            assert_eq!(resource.as_deref(), Some("./db/login.json"));
        },
        _ => panic!("expected a local hit"),
    }
}

#[test]
fn static_text_hit() {
    let config = Configuration {
        host: None,
        remote: None,
        build_mode: Some(BuildMode::Read),
        routes: vec![Route {
            method: RouteMethod::GET,
            path: "/greeting".to_string(),
            metadata: None,
            resource: Some("./db/greeting.txt".to_string()),
            messages: vec![],
        }],
    };
    match endpoint_plan(&config, "/greeting", &RouteMethod::GET) {
        EndpointPlan::Load { index, resource } => {
            assert_eq!(index, 0);
            assert_eq!(resource.as_deref(), Some("./db/greeting.txt"));
        },
        _ => panic!("expected a local hit"),
    }
    let (code, headers) = response_head(&config.routes[0]);
    assert_eq!(code, 200);
    assert!(headers.is_empty());
    let content_type =
        get_content_type_with_fallback(&headers, &config.routes[0].resource);
    assert_eq!(content_type, "text/plain");
}

#[test]
fn recorded_content_type_wins_over_the_file_guess() {
    let headers = vec![
        ("x-first".to_string(), "1".to_string()),
        ("content-type".to_string(), "application/xml".to_string()),
    ];
    let resource = Some("./db/x.json".to_string());
    assert_eq!(get_content_type_with_fallback(&headers, &resource), "application/xml");
}

#[test]
fn wildcard_capture_serves_the_substituted_file() {
    let config = Configuration {
        host: None,
        remote: None,
        build_mode: Some(BuildMode::Read),
        routes: vec![Route {
            method: RouteMethod::GET,
            path: "/api/$$$.json".to_string(),
            metadata: None,
            resource: Some("./db/api/$$$.json".to_string()),
            messages: vec![],
        }],
    };
    match endpoint_plan(&config, "/api/abc.json", &RouteMethod::GET) {
        EndpointPlan::Load { index, resource } => {
            assert_eq!(index, 0);
            assert_eq!(resource.as_deref(), Some("./db/api/abc.json"));
        },
        _ => panic!("expected a local hit"),
    }
}

#[test]
fn load_path_substitutes_the_wildcard() {
    let route = Route {
        method: RouteMethod::GET,
        path: "/api/$$$.json".to_string(),
        metadata: None,
        resource: Some("./db/api/$$$.json".to_string()),
        messages: vec![],
    };
    assert_eq!(load_path(&route, Some("abc")).as_deref(), Some("./db/api/abc.json"));
    assert_eq!(load_path(&route, None).as_deref(), Some("./db/api/$$$.json"));
    let bodyless = Route { resource: None, ..route };
    assert_eq!(load_path(&bodyless, Some("abc")), None);
}

#[test]
fn stale_file_recovery() {
    // A hit whose file vanished: the stale route is dropped; under Write
    // the request is rebuilt, under Read it is a 404.
    let route = Route {
        method: RouteMethod::GET,
        path: "/stale".to_string(),
        metadata: None,
        resource: Some("./db/stale.txt".to_string()),
        messages: vec![],
    };
    let mut config = Configuration {
        host: None,
        remote: Some("http://upstream".to_string()),
        build_mode: Some(BuildMode::Write),
        routes: vec![route.clone()],
    };
    assert!(after_load_failure(&mut config, 0));
    assert!(config.routes.is_empty());
    assert!(matches!(
        endpoint_plan(&config, "/stale", &RouteMethod::GET),
        EndpointPlan::Build
    ));

    let mut read_config = Configuration {
        host: None,
        remote: Some("http://upstream".to_string()),
        build_mode: Some(BuildMode::Read),
        routes: vec![route],
    };
    assert!(!after_load_failure(&mut read_config, 0));
    assert!(read_config.routes.is_empty());
    assert!(matches!(
        endpoint_plan(&read_config, "/stale", &RouteMethod::GET),
        EndpointPlan::NotFound
    ));
}

#[test]
fn ws_replay_plan_and_schedule() {
    let s1 = WsMessage {
        kind: WsMessageType::Startup,
        time: None,
        message_type: WsMessagType::Text,
        location: "s1".to_string(),
    };
    let s2 = WsMessage {
        kind: WsMessageType::Startup,
        time: None,
        message_type: WsMessagType::Text,
        location: "s2".to_string(),
    };
    let a1 = WsMessage {
        kind: WsMessageType::After,
        time: Some("5s".to_string()),
        message_type: WsMessagType::Binary,
        location: "a1".to_string(),
    };
    let a2 = WsMessage {
        kind: WsMessageType::After,
        time: Some("3s".to_string()),
        message_type: WsMessagType::Binary,
        location: "a2".to_string(),
    };
    let dropped = WsMessage {
        kind: WsMessageType::After,
        time: None,
        message_type: WsMessagType::Text,
        location: "x".to_string(),
    };
    let every = WsMessage {
        kind: WsMessageType::Every,
        time: Some("2s".to_string()),
        message_type: WsMessagType::Ping,
        location: "e".to_string(),
    };
    let messages = vec![s1, s2, a1, a2, dropped, every];
    let steps = replay_schedule(&messages);

    let summary: Vec<(usize, u64, bool)> =
        steps.iter().map(|s| (s.index, s.delay, s.repeat)).collect();
    // Both startups go out at once, each After at its own time (the 3s one
    // thus before the 5s one), the timeless After is dropped, and the Every
    // repeats at its interval.
    assert_eq!(
        summary,
        vec![(0, 0, false), (1, 0, false), (2, 5, false), (3, 3, false), (5, 2, true)]
    );
}

#[test]
fn ws_replay_frames() {
    match frame_for(&WsMessagType::Text, &b"hello".to_vec()).unwrap() {
        WsFrame::Text(s) => assert_eq!(s, "hello"),
        _ => panic!("expected a text frame"),
    }
    match frame_for(&WsMessagType::Text, &b"a^@b".to_vec()).unwrap() {
        WsFrame::Text(s) => assert_eq!(s, "a\u{0}b"),
        _ => panic!("expected a text frame"),
    }
    match frame_for(&WsMessagType::Binary, &vec![1, 2]).unwrap() {
        WsFrame::Binary(b) => assert_eq!(b, vec![1, 2]),
        _ => panic!("expected a binary frame"),
    }
    assert!(frame_for(&WsMessagType::Text, &vec![0xff, 0xfe]).is_none());
    assert!(frame_for(&WsMessagType::Close, &vec![]).is_none());
    assert!(frame_for(&WsMessagType::Frame, &vec![]).is_none());
}

#[test]
fn ws_record_plan_classifies_messages() {
    let messages = vec![
        WsClientMessage { offset: 0, content: b"hello".to_vec(), message_type: WsMessagType::Text },
        WsClientMessage {
            offset: 7,
            content: b"{\"a\":1}".to_vec(),
            message_type: WsMessagType::Text,
        },
    ];
    let script = plan_ws_messages("/stream", &messages);
    assert_eq!(script.len(), 2);

    assert_eq!(script[0].kind, WsMessageType::Startup);
    assert_eq!(script[0].time, None);
    assert_eq!(script[0].location, "./db/stream_ws/0.txt");

    assert_eq!(script[1].kind, WsMessageType::After);
    assert_eq!(script[1].time.as_deref(), Some("7s"));
    assert_eq!(script[1].location, "./db/stream_ws/1.json");

    let route = make_ws_route("/stream", None, script);
    assert_eq!(route.method, RouteMethod::WS);
    assert_eq!(route.path, "/stream");
    assert_eq!(route.resource, None);
    assert_eq!(route.messages.len(), 2);
}

#[test]
fn ws_upgrade_decision() {
    let recorded = Configuration {
        host: None,
        remote: Some("http://upstream".to_string()),
        build_mode: Some(BuildMode::Write),
        routes: vec![Route {
            method: RouteMethod::WS,
            path: "/stream".to_string(),
            metadata: None,
            resource: None,
            messages: vec![],
        }],
    };
    assert!(matches!(ws_endpoint_plan(&recorded, "/stream"), WsPlan::Replay { index: 0 }));

    let empty = Configuration {
        host: None,
        remote: Some("http://upstream".to_string()),
        build_mode: Some(BuildMode::Write),
        routes: vec![],
    };
    match ws_endpoint_plan(&empty, "/stream") {
        WsPlan::Record { url } => assert_eq!(url, "ws://upstream/stream"),
        _ => panic!("expected a record session"),
    }

    let read_only = Configuration { build_mode: Some(BuildMode::Read), ..empty };
    assert!(matches!(ws_endpoint_plan(&read_only, "/stream"), WsPlan::Ignore));
}

#[test]
fn default_configuration_listens_locally() {
    let config = Configuration::default();
    assert_eq!(config.host.as_deref(), Some("127.0.0.1:8080"));
    assert_eq!(config.remote.as_deref(), Some("http://localhost"));
    assert_eq!(config.build_mode, Some(BuildMode::Read));
    assert!(config.routes.is_empty());
    assert_eq!(Metadata::default().code, 200);
}
