use moxy::configuration::{Configuration, Metadata, Route, RouteMethod};
use moxy::storage::{
    apply_rewrites, get_content_type, get_folders, get_folders_to_check, get_save_path, is_json,
    plan_repair,
};

#[test]
fn get_folders_to_check_should_return_correct_result_1() {
    let input = "./db/api/asdf-service/user/micmine";

    let expected: Vec<String> = vec![
        ".",
        "./db",
        "./db/api",
        "./db/api/asdf-service",
        "./db/api/asdf-service/user",
        "./db/api/asdf-service/user/micmine",
    ]
    .into_iter()
    .map(|s| s.to_string())
    .collect();

    assert_eq!(get_folders_to_check(input), expected);
}

#[test]
fn get_folders_to_check_should_return_correct_result_2() {
    let input = "./db/a";

    let expected: Vec<String> =
        vec![".", "./db", "./db/a"].into_iter().map(|s| s.to_string()).collect();

    assert_eq!(get_folders_to_check(input), expected);
}

#[test]
fn get_save_path_add_db_folder() {
    let input = "/api/some-service/micmine";
    let expected = "./db/api/some-service/micmine.txt";

    assert_eq!(get_save_path(input, None), expected);
}

#[test]
fn get_save_path_add_index_for_folder() {
    let input = "/api/some-service/micmine/";
    let expected = "./db/api/some-service/micmine/index.txt";

    assert_eq!(get_save_path(input, None), expected);
}

#[test]
fn storage_get_save_path_should_start_with_db() {
    let path = get_save_path("/index.html", None);

    assert!(&path.starts_with("./db"));
}

#[test]
fn storage_get_save_path_should_add_index_if_folder() {
    let path = get_save_path("/", None);

    assert!(&path.ends_with("/index.txt"));
}

#[test]
fn builder_test_get_save_path_should_start_with_db() {
    let path = moxy::builder::get_save_path("/index.html");

    assert!(&path.starts_with("./db"));
}

#[test]
fn builder_test_get_save_path_should_add_index_if_folder() {
    let path = moxy::builder::get_save_path("/");

    assert!(&path.ends_with("/index"));
}

#[test]
fn is_json_should_detect_json() {
    let json_data = "{ \"some\": \"data\", \"and_a_number\": 1 }".as_bytes();

    assert!(is_json(json_data));
}

#[test]
fn is_json_should_detect_invalid_json() {
    let json_data = "{ \"some\": \"data\"".as_bytes();

    assert!(!is_json(json_data));
}

#[test]
fn is_json_should_detect_invalid_text() {
    let json_data: &[u8] = &[0, 1];

    assert!(!is_json(json_data));
}

#[test]
fn get_save_path_uses_the_content_type_extension() {
    assert_eq!(get_save_path("/login", Some("application/json")), "./db/login.json");
}

#[test]
fn get_save_path_cuts_content_type_parameters() {
    assert_eq!(
        get_save_path("/login", Some("application/json; charset=utf-8")),
        "./db/login.json"
    );
}

#[test]
fn get_save_path_falls_back_to_txt_for_malformed_content_type() {
    assert_eq!(get_save_path("/login", Some("not a mime type")), "./db/login.txt");
}

#[test]
fn get_save_path_replaces_reserved_characters() {
    assert_eq!(get_save_path("/a?b*c", None), "./db/a_b_c.txt");
}

#[test]
fn get_save_path_keeps_existing_json_suffix() {
    assert_eq!(get_save_path("/api/user.json", Some("text/html")), "./db/api/user.json");
}

#[test]
fn get_content_type_knows_json_and_falls_back_to_plain_text() {
    assert_eq!(get_content_type("./db/a.json".to_string()), "application/json");
    assert_eq!(get_content_type("./db/a.nosuchextension".to_string()), "text/plain");
}

#[test]
fn get_folders_cuts_the_file_name() {
    assert_eq!(get_folders("./db/api/user.json"), "./db/api");
    assert_eq!(get_folders("plain"), "plain");
}

#[test]
fn plan_repair_promotes_a_colliding_file() {
    let files = vec!["./db/a/b".to_string()];
    let (rewrites, fs) = plan_repair(&files, "./db/a/b");

    assert_eq!(rewrites, vec![("./db/a/b".to_string(), "./db/a/b/index".to_string())]);
    assert!(fs.contains(&"./db/a/b/index".to_string()));
    assert!(!fs.contains(&"./db/a/b".to_string()));
}

#[test]
fn plan_repair_leaves_unrelated_files_alone() {
    let files = vec!["./db/other".to_string()];
    let (rewrites, fs) = plan_repair(&files, "./db/a");

    assert!(rewrites.is_empty());
    assert_eq!(fs, files);
}

#[test]
fn plan_repair_follows_a_chain_of_promotions() {
    let files = vec!["./db/a".to_string()];
    let (rewrites, fs) = plan_repair(&files, "./db/a/index/c");

    assert_eq!(
        rewrites,
        vec![
            ("./db/a".to_string(), "./db/a/index".to_string()),
            ("./db/a/index".to_string(), "./db/a/index/index".to_string()),
        ]
    );
    assert!(fs.contains(&"./db/a/index/index".to_string()));
    assert!(!fs.contains(&"./db/a".to_string()));
    assert!(!fs.contains(&"./db/a/index".to_string()));
}

#[test]
fn file_to_directory_promotion() {
    // A catalog entry points at ./db/a/b, which exists as a file; a new
    // recording for /a/b/c moves it to ./db/a/b/index and redirects the
    // route.
    let mut config = Configuration {
        host: None,
        remote: None,
        build_mode: Some(moxy::configuration::BuildMode::Write),
        routes: vec![Route {
            method: RouteMethod::GET,
            path: "/a/b".to_string(),
            metadata: Some(Metadata { code: 200, header: vec![] }),
            resource: Some("./db/a/b".to_string()),
            messages: vec![],
        }],
    };

    let new_path = get_save_path("/a/b/c", None);
    assert_eq!(new_path, "./db/a/b/c.txt");
    let folders = get_folders(&new_path);
    assert_eq!(folders, "./db/a/b");

    let files = vec!["./db/a/b".to_string()];
    let (rewrites, fs) = plan_repair(&files, &folders);
    assert_eq!(rewrites, vec![("./db/a/b".to_string(), "./db/a/b/index".to_string())]);
    assert!(!fs.contains(&"./db/a/b".to_string()));

    apply_rewrites(&mut config, &rewrites, &RouteMethod::GET);
    assert_eq!(config.routes[0].resource.as_deref(), Some("./db/a/b/index"));
}
