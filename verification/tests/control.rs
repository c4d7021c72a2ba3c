use spo2::registry::Registry;
use spo2::response::{
    into_bad_request, into_internal_error, into_json, not_found, ApiResponse, Either, Json,
};
use spo2::routes::{delete_url, get_all_urls, read_url, update_url};
use spo2::urlcheck::{is_valid_url, normalize_url};
use spo2::{Status, UrlValue};

fn body_of(r: &ApiResponse) -> &str {
    match r {
        ApiResponse::Success(b) => b,
        other => panic!("expected success, got status {}", other.status_code()),
    }
}

#[test]
fn url_validation_accepts_only_hierarchical_http() {
    assert!(is_valid_url("https://a.example"));
    assert!(is_valid_url("http://a.example:8080/path?q=1"));
    assert!(!is_valid_url("ftp://a.example"));
    assert!(!is_valid_url("data:text/plain,hello"));
    assert!(!is_valid_url("not a url"));
    assert!(!is_valid_url(""));
}

#[test]
fn normalize_url_yields_canonical_text() {
    // parsing normalises: an empty path becomes a single slash
    assert_eq!(normalize_url("https://a.example").as_deref(), Some("https://a.example/"));
    assert_eq!(normalize_url("ftp://a.example"), None);
}

#[test]
fn response_status_codes() {
    assert_eq!(into_json("{}".to_string()).status_code(), 200);
    assert_eq!(into_bad_request("no".to_string()).status_code(), 400);
    assert_eq!(not_found().status_code(), 404);
    assert_eq!(into_internal_error("db".to_string()).status_code(), 500);
}

#[test]
fn json_and_either_carry_their_contents() {
    let j: Json = Json(vec![b'{', b'}']);
    assert_eq!(j.0, vec![b'{', b'}']);
    let l: Either<u32, &str> = Either::Left(7);
    let r: Either<u32, &str> = Either::Right("x");
    assert!(matches!(l, Either::Left(7)));
    assert!(matches!(r, Either::Right("x")));
}

#[test]
fn fresh_insert_installs_healthy_record_and_spawns() {
    let mut reg = Registry::new();
    let url = "https://a.example".to_string();
    let out = update_url(&mut reg, Some(&url), &"{\"k\":1}".to_string());
    assert_eq!(body_of(&out.response), "{\"status\":\"Healthy\",\"data\":{\"k\":1}}");
    assert_eq!(out.spawn.as_deref(), Some("https://a.example/"));
    assert_eq!(
        out.event.as_deref(),
        Some("{\"url\":\"https://a.example/\",\"status\":\"Healthy\",\"data\":{\"k\":1}}")
    );
    // a health-checker task now exists for the URL: a second insert sees it
    let out2 = update_url(&mut reg, Some(&url), &"{\"k\":1}".to_string());
    assert!(out2.spawn.is_none());
}

#[test]
fn data_update_preserves_probe_status_and_spawns_nothing() {
    let mut reg = Registry::new();
    let url = "https://a.example".to_string();
    update_url(&mut reg, Some(&url), &"{\"k\":1}".to_string());
    // the probe loop writes a status and a reason
    let patched = reg
        .probe_update(
            &"https://a.example/".to_string(),
            Status::Unhealthy,
            &"503 Service Unavailable".to_string(),
        )
        .expect("registered");
    assert_eq!(patched.status, Status::Unhealthy);
    assert_eq!(patched.data, "{\"k\":1}");
    // a user update replaces only the data
    let out = update_url(&mut reg, Some(&url), &"{\"k\":2}".to_string());
    assert!(out.spawn.is_none());
    assert!(out.event.is_none());
    assert_eq!(
        body_of(&out.response),
        "{\"status\":\"Unhealthy\",\"reason\":\"503 Service Unavailable\",\"data\":{\"k\":2}}"
    );
    // and the store agrees
    let read = read_url(&reg, Some(&url));
    assert_eq!(
        body_of(&read),
        "{\"status\":\"Unhealthy\",\"reason\":\"503 Service Unavailable\",\"data\":{\"k\":2}}"
    );
}

#[test]
fn insert_read_gives_inserted_data() {
    let mut reg = Registry::new();
    let url = "https://b.example".to_string();
    update_url(&mut reg, Some(&url), &"[1,2]".to_string());
    let read = read_url(&reg, Some(&url));
    assert_eq!(body_of(&read), "{\"status\":\"Healthy\",\"data\":[1,2]}");
}

#[test]
fn empty_body_stores_null_data() {
    let mut reg = Registry::new();
    let url = "https://a.example".to_string();
    let out = update_url(&mut reg, Some(&url), &String::new());
    assert_eq!(body_of(&out.response), "{\"status\":\"Healthy\",\"data\":null}");
}

#[test]
fn update_rejects_bad_input() {
    let mut reg = Registry::new();
    let out = update_url(&mut reg, None, &String::new());
    assert_eq!(out.response.status_code(), 400);

    let bad_scheme = "ftp://a.example".to_string();
    let out = update_url(&mut reg, Some(&bad_scheme), &String::new());
    assert_eq!(out.response.status_code(), 400);

    let url = "https://a.example".to_string();
    let out = update_url(&mut reg, Some(&url), &"{not json".to_string());
    assert_eq!(out.response.status_code(), 400);
    // nothing was installed
    assert_eq!(read_url(&reg, Some(&url)).status_code(), 404);
}

#[test]
fn insert_delete_read_not_found() {
    let mut reg = Registry::new();
    let url = "https://a.example".to_string();
    update_url(&mut reg, Some(&url), &"{\"k\":1}".to_string());
    let del = delete_url(&mut reg, Some(&url));
    assert_eq!(body_of(&del.response), "{\"status\":\"Healthy\",\"data\":{\"k\":1}}");
    assert_eq!(
        del.event.as_deref(),
        Some("{\"url\":\"https://a.example/\",\"status\":\"Removed\",\"data\":{\"k\":1}}")
    );
    assert_eq!(read_url(&reg, Some(&url)).status_code(), 404);
    // deleting again answers not-found, with no frame
    let del2 = delete_url(&mut reg, Some(&url));
    assert_eq!(del2.response.status_code(), 404);
    assert!(del2.event.is_none());
}

#[test]
fn probe_update_on_absent_key_reports_removal() {
    let mut reg = Registry::new();
    assert!(reg
        .probe_update(&"https://gone.example/".to_string(), Status::Healthy, &String::new())
        .is_none());
}

#[test]
fn list_attaches_urls() {
    let mut reg = Registry::new();
    update_url(&mut reg, Some(&"https://a.example".to_string()), &"1".to_string());
    update_url(&mut reg, Some(&"https://b.example".to_string()), &"2".to_string());
    let all = get_all_urls(&reg);
    assert_eq!(
        body_of(&all),
        "[{\"url\":\"https://a.example/\",\"status\":\"Healthy\",\"data\":1},{\"url\":\"https://b.example/\",\"status\":\"Healthy\",\"data\":2}]"
    );
}

#[test]
fn rehydrate_marks_tasks_without_events() {
    let pairs = vec![
        (
            "https://a.example/".to_string(),
            UrlValue {
                url: None,
                status: Status::Unhealthy,
                reason: "x".to_string(),
                data: "null".to_string(),
            },
        ),
        (
            "https://b.example/".to_string(),
            UrlValue {
                url: None,
                status: Status::Healthy,
                reason: String::new(),
                data: "7".to_string(),
            },
        ),
    ];
    let reg = Registry::rehydrate(pairs);
    let read = read_url(&reg, Some(&"https://a.example".to_string()));
    assert_eq!(body_of(&read), "{\"status\":\"Unhealthy\",\"reason\":\"x\",\"data\":null}");
    let all = get_all_urls(&reg);
    assert!(body_of(&all).contains("https://b.example/"));
}

#[test]
fn equivalent_url_texts_share_one_record() {
    // the registry keys by the normalised text, so the same URL written two
    // ways is one entry and spawns once
    let mut reg = Registry::new();
    let bare = "https://a.example".to_string();
    let slash = "https://a.example/".to_string();
    let first = update_url(&mut reg, Some(&bare), &"1".to_string());
    assert!(first.spawn.is_some());
    let second = update_url(&mut reg, Some(&slash), &"2".to_string());
    assert!(second.spawn.is_none());
    assert_eq!(body_of(&read_url(&reg, Some(&bare))), "{\"status\":\"Healthy\",\"data\":2}");
}
