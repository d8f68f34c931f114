//! Tests for request authorization, path sanitization, status parsing,
//! and response encoding.

use http_serv::handler::Plan;
use http_serv::response::{http_status_text, json_error_response, ContentType, HttpResponse};
use http_serv::router::{authorized, route_path, Route};
use http_serv::status::parse_status_to_json;

fn auth(q: &str) -> bool {
    authorized(&q.as_bytes().to_vec())
}

fn route(p: &str) -> Route {
    route_path(&p.as_bytes().to_vec())
}

#[test]
fn exact_key_parameter_authorizes() {
    assert!(auth("key=debugger"));
    assert!(auth("a=1&key=debugger"));
    assert!(auth("key=debugger&b=2"));
}

#[test]
fn near_miss_parameters_do_not_authorize() {
    assert!(!auth(""));
    assert!(!auth("key=debuggerextra"));
    assert!(!auth("xkey=debugger"));
    assert!(!auth("key=debugge"));
    assert!(!auth("a=key=debugger"));
    assert!(!auth("KEY=DEBUGGER"));
}

#[test]
fn traversal_segments_are_dropped() {
    match route("/proc/1/../../etc/passwd") {
        Route::PidFile { pid, segments, status } => {
            assert_eq!(pid, b"1".to_vec());
            assert_eq!(segments, vec![b"etc".to_vec(), b"passwd".to_vec()]);
            assert!(!status);
        }
        _ => panic!("expected a file route"),
    }
}

#[test]
fn dots_and_empty_segments_leave_only_the_directory() {
    match route("/proc/7/.././/") {
        Route::PidDir { pid } => assert_eq!(pid, b"7".to_vec()),
        _ => panic!("expected the pid's directory listing"),
    }
}

#[test]
fn nested_plain_segments_are_kept() {
    match route("/proc/2/net/dev") {
        Route::PidFile { pid, segments, status } => {
            assert_eq!(pid, b"2".to_vec());
            assert_eq!(segments, vec![b"net".to_vec(), b"dev".to_vec()]);
            assert!(!status);
        }
        _ => panic!("expected a file route"),
    }
}

#[test]
fn final_status_segment_marks_the_status_route() {
    match route("/proc/3/./status") {
        Route::PidFile { status, .. } => assert!(status),
        _ => panic!("expected a file route"),
    }
}

#[test]
fn empty_pid_is_invalid() {
    assert!(matches!(route("/proc/"), Route::InvalidPid));
    assert!(matches!(route("/proc//status"), Route::InvalidPid));
}

#[test]
fn status_block_parses_in_order() {
    let m = parse_status_to_json(&b"Key1: value1\nKey2:   value2  \n".to_vec());
    assert_eq!(
        m.entries,
        vec![
            (b"Key1".to_vec(), b"value1".to_vec()),
            (b"Key2".to_vec(), b"value2".to_vec()),
        ]
    );
}

#[test]
fn status_block_drops_lines_without_colon_and_keeps_last_value() {
    let m = parse_status_to_json(&b"A: 1\nno colon here\nA: 2\nB: x\n".to_vec());
    assert_eq!(
        m.entries,
        vec![(b"A".to_vec(), b"2".to_vec()), (b"B".to_vec(), b"x".to_vec())]
    );
}

#[test]
fn status_value_keeps_inner_colons() {
    let m = parse_status_to_json(&b"Uid:\t0\t0:0\n".to_vec());
    assert_eq!(m.entries, vec![(b"Uid".to_vec(), b"0\t0:0".to_vec())]);
}

#[test]
fn status_round_trips_through_json() {
    let text = b"Key1: value1\nKey2:   value2  \n".to_vec();
    let pretty = parse_status_to_json(&text).to_pretty_json();
    let reparsed: std::collections::HashMap<String, String> =
        serde_json::from_slice(&pretty).unwrap();
    let mut expected = std::collections::HashMap::new();
    expected.insert("Key1".to_string(), "value1".to_string());
    expected.insert("Key2".to_string(), "value2".to_string());
    assert_eq!(reparsed, expected);
}

#[test]
fn pretty_json_is_exact() {
    let m = parse_status_to_json(&b"Name:\tinit\nPid:\t1\n".to_vec());
    assert_eq!(
        String::from_utf8(m.to_pretty_json()).unwrap(),
        "{\n  \"Name\": \"init\",\n  \"Pid\": \"1\"\n}"
    );
}

#[test]
fn empty_status_block_is_an_empty_object() {
    let m = parse_status_to_json(&b"".to_vec());
    assert_eq!(String::from_utf8(m.to_pretty_json()).unwrap(), "{}");
}

#[test]
fn reason_phrases() {
    assert_eq!(http_status_text(200), "OK");
    assert_eq!(http_status_text(400), "Bad Request");
    assert_eq!(http_status_text(403), "Forbidden");
    assert_eq!(http_status_text(404), "Not Found");
    assert_eq!(http_status_text(405), "Method Not Allowed");
    assert_eq!(http_status_text(500), "Internal Server Error");
    assert_eq!(http_status_text(418), "Unknown");
}

#[test]
fn encoded_response_carries_exact_content_length() {
    let r = HttpResponse {
        code: 200,
        content_type: ContentType::Text,
        body: b"hello".to_vec(),
    };
    assert_eq!(
        String::from_utf8(r.encode()).unwrap(),
        "HTTP/1.1 200 OK\r\nContent-Type: text/plain\r\nContent-Length: 5\r\n\r\nhello"
    );
}

#[test]
fn error_messages_are_json_escaped() {
    let r = json_error_response(404, &b"a \"quoted\" name".to_vec());
    assert_eq!(
        String::from_utf8(r.body).unwrap(),
        "{\"error\":\"a \\\"quoted\\\" name\"}"
    );
}

#[test]
fn names_with_specials_are_escaped_in_listings() {
    let names = vec![b"we\"ird".to_vec()];
    let r = http_serv::handler::respond_pid_dir(Some(names));
    assert_eq!(
        String::from_utf8(r.body).unwrap(),
        "{\"files\":[\"we\\\"ird\"]}"
    );
}

#[test]
fn query_splitting_ignores_question_marks_in_query() {
    let p = http_serv::handler::plan_request(&b"GET /?key=debugger&x=a?b HTTP/1.1".to_vec());
    assert!(matches!(p, Plan::ListProcesses));
}
