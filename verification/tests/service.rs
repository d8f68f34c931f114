//! End-to-end scenarios: one request line in, a response out, with the
//! reads the routes ask for supplied as fixed values.

use http_serv::handler::{
    plan_request, respond_pid_dir, respond_pid_file, respond_proc_root, respond_process_list, Plan,
};
use http_serv::response::ContentType;

fn plan(line: &str) -> Plan {
    plan_request(&line.as_bytes().to_vec())
}

#[test]
fn root_with_key_lists_processes() {
    let p = plan("GET /?key=debugger HTTP/1.1");
    assert!(matches!(p, Plan::ListProcesses));
}

#[test]
fn process_list_single_row() {
    let table = b"  PID COMM %CPU  RSS\n    1 init  0.0 1200\n".to_vec();
    let r = respond_process_list(Some(table));
    assert_eq!(r.code, 200);
    assert_eq!(r.content_type, ContentType::Json);
    assert_eq!(
        String::from_utf8(r.body).unwrap(),
        "{\"processes\":[{\"pid\":1,\"name\":\"init\",\"cpu\":0.0,\"mem_kb\":1200}]}"
    );
}

#[test]
fn process_list_skips_malformed_rows() {
    let table = b"HDR\n1 init 0.0 1200\nbad row\nx init 1.0 2\n2 sh 1.5 300\n".to_vec();
    let r = respond_process_list(Some(table));
    let body = String::from_utf8(r.body).unwrap();
    assert_eq!(
        body,
        "{\"processes\":[{\"pid\":1,\"name\":\"init\",\"cpu\":0.0,\"mem_kb\":1200},\
         {\"pid\":2,\"name\":\"sh\",\"cpu\":1.5,\"mem_kb\":300}]}"
    );
}

#[test]
fn process_list_normalizes_numbers() {
    // leading zeros in pid and rss are re-serialized away, and the cpu
    // token is re-serialized by the JSON number writer
    let table = b"HDR\n007 init 0.50 0012\n".to_vec();
    let r = respond_process_list(Some(table));
    assert_eq!(
        String::from_utf8(r.body).unwrap(),
        "{\"processes\":[{\"pid\":7,\"name\":\"init\",\"cpu\":0.5,\"mem_kb\":12}]}"
    );
}

#[test]
fn process_list_pid_and_rss_boundaries() {
    // a pid fits in 32 bits, a rss in 64; one past either bound drops the row
    let table = b"HDR\n4294967295 a 0.0 18446744073709551615\n4294967296 b 0.0 1\n1 c 0.0 18446744073709551616\n".to_vec();
    let r = respond_process_list(Some(table));
    assert_eq!(
        String::from_utf8(r.body).unwrap(),
        "{\"processes\":[{\"pid\":4294967295,\"name\":\"a\",\"cpu\":0.0,\"mem_kb\":18446744073709551615}]}"
    );
}

#[test]
fn process_list_unavailable_is_500() {
    let r = respond_process_list(None);
    assert_eq!(r.code, 500);
    assert_eq!(
        String::from_utf8(r.body).unwrap(),
        "{\"error\":\"Failed to run 'ps'\"}"
    );
}

#[test]
fn proc_listing_keeps_digit_names_only() {
    let names = vec![
        b"1".to_vec(),
        b"self".to_vec(),
        b"42".to_vec(),
        b"cpuinfo".to_vec(),
    ];
    let r = respond_proc_root(Some(names));
    assert_eq!(r.code, 200);
    assert_eq!(
        String::from_utf8(r.body).unwrap(),
        "{\"pids\":[\"1\",\"42\"]}"
    );
}

#[test]
fn proc_listing_unreadable_is_500() {
    let r = respond_proc_root(None);
    assert_eq!(r.code, 500);
}

#[test]
fn pid_dir_lists_all_names() {
    let names = vec![b"status".to_vec(), b"cmdline".to_vec()];
    let r = respond_pid_dir(Some(names));
    assert_eq!(r.code, 200);
    assert_eq!(
        String::from_utf8(r.body).unwrap(),
        "{\"files\":[\"status\",\"cmdline\"]}"
    );
}

#[test]
fn missing_pid_dir_is_404_not_500() {
    // a pid of digits that names no live process must 404
    let p = plan("GET /proc/999999?key=debugger HTTP/1.1");
    match p {
        Plan::ListPidDir { pid } => assert_eq!(pid, b"999999".to_vec()),
        _ => panic!("expected a pid directory listing"),
    }
    let r = respond_pid_dir(None);
    assert_eq!(r.code, 404);
}

#[test]
fn non_digit_pid_is_400() {
    let p = plan("GET /proc/12ab?key=debugger HTTP/1.1");
    match p {
        Plan::Respond(resp) => {
            assert_eq!(resp.code, 400);
            assert_eq!(
                String::from_utf8(resp.body).unwrap(),
                "{\"error\":\"Invalid PID\"}"
            );
        }
        _ => panic!("expected an immediate response"),
    }
}

#[test]
fn status_file_parses_to_json() {
    let p = plan("GET /proc/1/status?key=debugger HTTP/1.1");
    match &p {
        Plan::ReadPidFile { pid, segments, status } => {
            assert_eq!(pid, &b"1".to_vec());
            assert_eq!(segments, &vec![b"status".to_vec()]);
            assert!(*status);
        }
        _ => panic!("expected a file read"),
    }
    let r = respond_pid_file(true, Some(b"Name:\tinit\nPid:\t1\n".to_vec()));
    assert_eq!(r.code, 200);
    assert_eq!(r.content_type, ContentType::Json);
    let parsed: std::collections::HashMap<String, String> =
        serde_json::from_slice(&r.body).unwrap();
    let mut expected = std::collections::HashMap::new();
    expected.insert("Name".to_string(), "init".to_string());
    expected.insert("Pid".to_string(), "1".to_string());
    assert_eq!(parsed, expected);
}

#[test]
fn other_files_are_served_verbatim() {
    let r = respond_pid_file(false, Some(b"one two three\n".to_vec()));
    assert_eq!(r.code, 200);
    assert_eq!(r.content_type, ContentType::Text);
    assert_eq!(r.body, b"one two three\n".to_vec());
}

#[test]
fn missing_file_is_404() {
    let r = respond_pid_file(true, None);
    assert_eq!(r.code, 404);
    assert_eq!(
        String::from_utf8(r.body).unwrap(),
        "{\"error\":\"File not found or unreadable\"}"
    );
}

#[test]
fn wrong_key_is_403_regardless_of_path() {
    let p = plan("GET /proc?key=wrong HTTP/1.1");
    match p {
        Plan::Respond(resp) => {
            assert_eq!(resp.code, 403);
            assert_eq!(
                String::from_utf8(resp.body).unwrap(),
                "{\"error\":\"Access denied.\"}"
            );
        }
        _ => panic!("expected an immediate response"),
    }
}

#[test]
fn post_is_405() {
    let p = plan("POST /?key=debugger HTTP/1.1");
    match p {
        Plan::Respond(resp) => assert_eq!(resp.code, 405),
        _ => panic!("expected an immediate response"),
    }
}

#[test]
fn unknown_path_is_404() {
    let p = plan("GET /unknown?key=debugger HTTP/1.1");
    match p {
        Plan::Respond(resp) => {
            assert_eq!(resp.code, 404);
            assert_eq!(
                String::from_utf8(resp.body).unwrap(),
                "{\"error\":\"Not Found\"}"
            );
        }
        _ => panic!("expected an immediate response"),
    }
}

#[test]
fn short_request_line_is_400() {
    let p = plan("GET");
    match p {
        Plan::Respond(resp) => {
            assert_eq!(resp.code, 400);
            assert_eq!(
                String::from_utf8(resp.body).unwrap(),
                "{\"error\":\"Invalid request line\"}"
            );
        }
        _ => panic!("expected an immediate response"),
    }
}

#[test]
fn proc_without_trailing_slash_lists_pids() {
    let p = plan("GET /proc?key=debugger HTTP/1.1");
    assert!(matches!(p, Plan::ListProcRoot));
}

#[test]
fn repeated_get_is_byte_identical() {
    let line = "GET /proc/1/status?key=debugger HTTP/1.1";
    let contents = b"Name:\tinit\nState:\tS (sleeping)\n".to_vec();
    let r1 = respond_pid_file(true, Some(contents.clone()));
    let r2 = respond_pid_file(true, Some(contents));
    assert_eq!(r1.encode(), r2.encode());
    let p1 = plan(line);
    let p2 = plan(line);
    match (p1, p2) {
        (
            Plan::ReadPidFile { pid: pid1, segments: seg1, status: st1 },
            Plan::ReadPidFile { pid: pid2, segments: seg2, status: st2 },
        ) => {
            assert_eq!(pid1, pid2);
            assert_eq!(seg1, seg2);
            assert_eq!(st1, st2);
        }
        _ => panic!("expected matching file reads"),
    }
}
