use moxy::configuration::{get_route, Configuration, Route, RouteMethod};

fn make_route(path: &str, resource: Option<&str>) -> Route {
    Route {
        method: RouteMethod::GET,
        path: path.to_string(),
        metadata: None,
        resource: resource.map(|s| s.to_string()),
        messages: vec![],
    }
}

#[test]
fn configuration_static_route() {
    let routes = vec![make_route("/api/test", Some("db/api/test.json"))];
    let url = "http://localhost:8080/api/test";
    let (result, parameter) = get_route(&routes, url, &RouteMethod::GET);

    assert_eq!(result.unwrap().resource, routes[0].resource);
    assert_eq!(parameter, None);
}

#[test]
fn configuration_test_static_route() {
    let routes = vec![make_route("/api/test", Some("db/api/test.json"))];
    let url = "http://localhost:8080/api/test".parse::<hyper::Uri>().unwrap();
    let (result, parameter) = get_route(&routes, url.path(), &RouteMethod::GET);

    assert_eq!(result.unwrap().resource, routes[0].resource);
    assert_eq!(parameter, None);
}

#[test]
fn configuration_get_route_should_find_no_route() {
    let configuration = Configuration {
        routes: vec![
            make_route("/a", Some("somefile.txt")),
            make_route("/b", Some("somefile.txt")),
            make_route("/c", Some("somefile.txt")),
        ],
        host: None,
        remote: None,
        build_mode: None,
    };

    assert!(!configuration.get_route("/abc", &RouteMethod::GET).is_some());
}

#[test]
fn configuration_get_route_should_find_route() {
    let configuration = Configuration {
        routes: vec![
            make_route("/a", Some("somefile.txt")),
            make_route("/b", Some("somefile.txt")),
            make_route("/c", Some("somefile.txt")),
        ],
        host: None,
        remote: None,
        build_mode: None,
    };

    assert!(configuration.get_route("/a", &RouteMethod::GET).is_some());
    assert!(configuration.get_route("/b", &RouteMethod::GET).is_some());
    assert!(configuration.get_route("/c", &RouteMethod::GET).is_some());
}

#[test]
fn configuration_dynamic_route_with_different_start() {
    let routes = vec![
        make_route("/api/test/1/$$$.json", Some("db/api/1/$$$.json")),
        make_route("/api/test/2/$$$.json", Some("db/api/2/$$$.json")),
        make_route("/api/test/3/$$$.json", Some("db/api/3/$$$.json")),
    ];

    assert_eq!(
        get_route(&routes, "/api/test/1/abc.json", &RouteMethod::GET)
            .0
            .unwrap()
            .resource
            .as_ref()
            .unwrap(),
        "db/api/1/$$$.json"
    );
    assert_eq!(
        get_route(&routes, "/api/test/2/abc.json", &RouteMethod::GET)
            .0
            .unwrap()
            .resource
            .as_ref()
            .unwrap(),
        "db/api/2/$$$.json"
    );
    assert_eq!(
        get_route(&routes, "/api/test/3/abc.json", &RouteMethod::GET)
            .0
            .unwrap()
            .resource
            .as_ref()
            .unwrap(),
        "db/api/3/$$$.json"
    );
}

#[test]
fn configuration_test_dynamic_route_with_different_start() {
    let routes = vec![
        make_route("/api/test/1/$$$.json", Some("db/api/1/$$$.json")),
        make_route("/api/test/2/$$$.json", Some("db/api/2/$$$.json")),
        make_route("/api/test/3/$$$.json", Some("db/api/3/$$$.json")),
    ];

    let u1 = "http://localhost:8080/api/test/1/abc.json".parse::<hyper::Uri>().unwrap();
    let u2 = "http://localhost:8080/api/test/2/abc.json".parse::<hyper::Uri>().unwrap();
    let u3 = "http://localhost:8080/api/test/3/abc.json".parse::<hyper::Uri>().unwrap();
    assert_eq!(
        get_route(&routes, u1.path(), &RouteMethod::GET).0.unwrap().resource.as_ref().unwrap(),
        "db/api/1/$$$.json"
    );
    assert_eq!(
        get_route(&routes, u2.path(), &RouteMethod::GET).0.unwrap().resource.as_ref().unwrap(),
        "db/api/2/$$$.json"
    );
    assert_eq!(
        get_route(&routes, u3.path(), &RouteMethod::GET).0.unwrap().resource.as_ref().unwrap(),
        "db/api/3/$$$.json"
    );
}

#[test]
fn configuration_dynamic_route_with_different_end() {
    let routes = vec![
        make_route("/api/test/$$$.txt", Some("db/api/$$$.txt")),
        make_route("/api/test/$$$.json", Some("db/api/$$$.json")),
    ];

    assert_eq!(
        get_route(&routes, "/api/test/abc.txt", &RouteMethod::GET)
            .0
            .unwrap()
            .resource
            .as_ref()
            .unwrap(),
        "db/api/$$$.txt"
    );
    assert_eq!(
        get_route(&routes, "/api/test/abc.json", &RouteMethod::GET)
            .0
            .unwrap()
            .resource
            .as_ref()
            .unwrap(),
        "db/api/$$$.json"
    );
}

#[test]
fn configuration_test_dynamic_route_with_different_end() {
    let routes = vec![
        make_route("/api/test/$$$.txt", Some("db/api/$$$.txt")),
        make_route("/api/test/$$$.json", Some("db/api/$$$.json")),
    ];

    let u1 = "http://localhost:8080/api/test/abc.txt".parse::<hyper::Uri>().unwrap();
    let u2 = "http://localhost:8080/api/test/abc.json".parse::<hyper::Uri>().unwrap();
    assert_eq!(
        get_route(&routes, u1.path(), &RouteMethod::GET).0.unwrap().resource.as_ref().unwrap(),
        "db/api/$$$.txt"
    );
    assert_eq!(
        get_route(&routes, u2.path(), &RouteMethod::GET).0.unwrap().resource.as_ref().unwrap(),
        "db/api/$$$.json"
    );
}

#[test]
fn configuration_dynamic_paramerter_end() {
    let routes = vec![make_route("/api/test/$$$", Some("db/api/$$$"))];

    assert_eq!(get_route(&routes, "/api/test/abc", &RouteMethod::GET).1.unwrap(), "abc");
}

#[test]
fn configuration_test_dynamic_paramerter_end() {
    let routes = vec![make_route("/api/test/$$$", Some("db/api/$$$"))];

    let url = "http://localhost:8080/api/test/abc".parse::<hyper::Uri>().unwrap();
    assert_eq!(get_route(&routes, url.path(), &RouteMethod::GET).1.unwrap(), "abc");
}

#[test]
fn configuration_dynamic_paramerter_middle() {
    let routes = vec![make_route("/api/test/$$$.txt", Some("db/api/$$$.txt"))];

    assert_eq!(get_route(&routes, "/api/test/abc.txt", &RouteMethod::GET).1.unwrap(), "abc");
}

#[test]
fn configuration_test_dynamic_paramerter_middle() {
    let routes = vec![make_route("/api/test/$$$.txt", Some("db/api/$$$.txt"))];

    let url = "http://localhost:8080/api/test/abc.txt".parse::<hyper::Uri>().unwrap();
    assert_eq!(get_route(&routes, url.path(), &RouteMethod::GET).1.unwrap(), "abc");
}

#[test]
fn get_route_should_not_find_entry_if_the_url_only_partially_matches() {
    let routes = vec![make_route("/a", Some(""))];

    let uri = "/a/test";

    let result = get_route(&routes, &uri, &RouteMethod::GET);

    assert_eq!(result, (None, None));
}

#[test]
fn get_route_should_not_find_entry_if_the_url_only_partialy_matches() {
    let routes = vec![make_route("/a", Some(""))];

    let uri = hyper::Uri::from_static("/a/test");

    let result = get_route(&routes, uri.path(), &RouteMethod::GET);

    assert_eq!(result, (None, None));
}

#[test]
fn first_matching_route_wins_and_swapping_swaps_the_answer() {
    let routes = vec![make_route("/x", Some("one.txt")), make_route("/x", Some("two.txt"))];
    let (result, _) = get_route(&routes, "/x", &RouteMethod::GET);
    assert_eq!(result.unwrap().resource.as_ref().unwrap(), "one.txt");

    let swapped = vec![routes[1].clone(), routes[0].clone()];
    let (result, _) = get_route(&swapped, "/x", &RouteMethod::GET);
    assert_eq!(result.unwrap().resource.as_ref().unwrap(), "two.txt");
}

#[test]
fn method_must_match_for_a_route_to_win() {
    let mut post = make_route("/x", Some("post.txt"));
    post.method = RouteMethod::POST;
    let routes = vec![post, make_route("/x", Some("get.txt"))];
    let (result, _) = get_route(&routes, "/x", &RouteMethod::GET);
    assert_eq!(result.unwrap().resource.as_ref().unwrap(), "get.txt");
    let (result, _) = get_route(&routes, "/x", &RouteMethod::POST);
    assert_eq!(result.unwrap().resource.as_ref().unwrap(), "post.txt");
}

#[test]
fn wildcard_parameter_may_be_empty() {
    let routes = vec![make_route("/api/$$$.json", Some("db/$$$.json"))];
    let (result, parameter) = get_route(&routes, "/api/.json", &RouteMethod::GET);
    assert!(result.is_some());
    assert_eq!(parameter.unwrap(), "");
}

#[test]
fn has_route_checks_the_exact_path() {
    let configuration = Configuration {
        routes: vec![make_route("/a", Some("somefile.txt"))],
        host: None,
        remote: None,
        build_mode: None,
    };
    assert!(configuration.has_route("/a"));
    assert!(!configuration.has_route("/a/b"));
}

#[test]
fn route_method_from_str_accepts_known_and_rejects_unknown() {
    assert_eq!(RouteMethod::from_str("GET"), Ok(RouteMethod::GET));
    assert_eq!(RouteMethod::from_str("PATCH"), Ok(RouteMethod::PATCH));
    assert_eq!(RouteMethod::from_str("WS"), Ok(RouteMethod::WS));
    assert_eq!(RouteMethod::from_str("get"), Err(1));
    assert_eq!(RouteMethod::from_str("BOGUS"), Err(1));
}
