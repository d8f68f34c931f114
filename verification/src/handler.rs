//! The connection handler's decisions: one request line in, either a
//! finished response or a single read request out; and the translation
//! of each read's outcome into a response.

use vstd::prelude::*;
use crate::json::{encode_string_array, json_string_array};
use crate::ps::{build_process_list_body, process_list_body};
use crate::response::{ContentType, HttpResponse, json_error_body, json_error_response};
use crate::router::{
    Route, authorized, has_proc_prefix, pid_part, query_authorizes, route_path, sanitized,
    status_name,
};
use crate::status::{parse_status_spec, parse_status_to_json, pretty_object};
use crate::text::{
    ascii_bytes, append_bytes, bytes_eq, check_pid_bytes, find_byte, find_byte_in, is_pid_bytes,
    lit, subvec, tokenize_ws, ws_tokens,
};

verus! {

/// What one request line leads to: a response that needs no reading,
/// or the one read whose outcome decides the response.
pub enum Plan {
    /// The response is already determined.
    Respond(HttpResponse),
    /// Run the process-listing facility; feed its output to
    /// `respond_process_list`.
    ListProcesses,
    /// List the children of the introspection root; feed the names to
    /// `respond_proc_root`.
    ListProcRoot,
    /// List the children of the pid's directory; feed the names to
    /// `respond_pid_dir`.
    ListPidDir { pid: Vec<u8> },
    /// Read the file at the sanitized segments under the pid's
    /// directory; feed the contents to `respond_pid_file`.
    ReadPidFile { pid: Vec<u8>, segments: Vec<Vec<u8>>, status: bool },
}

/// The path of a request target: everything before the first `?`, or
/// all of it when there is none.
pub open spec fn target_path(t: Seq<u8>) -> Seq<u8> {
    if find_byte(t, 63) == -1 {
        t
    } else {
        t.take(find_byte(t, 63))
    }
}

/// The query of a request target: everything after the first `?`, or
/// empty when there is none.
pub open spec fn target_query(t: Seq<u8>) -> Seq<u8> {
    if find_byte(t, 63) == -1 {
        Seq::<u8>::empty()
    } else {
        t.skip(find_byte(t, 63) + 1)
    }
}

/// Decides one request line: fewer than two tokens is a 400; a method
/// other than `GET` is a 405; a query without the secret parameter is
/// a 403; then the sanitized route says what to read, a non-numeric
/// pid being a 400 and an unknown path a 404.
pub fn plan_request(line: &Vec<u8>) -> (r: Plan)
    ensures
        ws_tokens(line@).len() < 2 ==> (r matches Plan::Respond(resp) && resp.code == 400
            && resp.content_type is Json && resp.body@ == json_error_body(
            ascii_bytes("Invalid request line"@),
        )),
        ws_tokens(line@).len() >= 2 && ws_tokens(line@)[0] != ascii_bytes("GET"@) ==> (r matches
            Plan::Respond(resp) && resp.code == 405 && resp.content_type is Json && resp.body@
            == json_error_body(ascii_bytes("Only GET is supported."@))),
        ws_tokens(line@).len() >= 2 && ws_tokens(line@)[0] == ascii_bytes("GET"@)
            && !query_authorizes(target_query(ws_tokens(line@)[1])) ==> (r matches Plan::Respond(
            resp,
        ) && resp.code == 403 && resp.content_type is Json && resp.body@ == json_error_body(
            ascii_bytes("Access denied."@),
        )),
        ws_tokens(line@).len() >= 2 && ws_tokens(line@)[0] == ascii_bytes("GET"@)
            && query_authorizes(target_query(ws_tokens(line@)[1])) ==> {
            let p = target_path(ws_tokens(line@)[1]);
            &&& (p == ascii_bytes("/"@) ==> r is ListProcesses)
            &&& (p == ascii_bytes("/proc"@) ==> r is ListProcRoot)
            &&& (has_proc_prefix(p) && !is_pid_bytes(pid_part(p)) ==> (r matches Plan::Respond(
                resp,
            ) && resp.code == 400 && resp.content_type is Json && resp.body@ == json_error_body(
                ascii_bytes("Invalid PID"@),
            )))
            &&& (has_proc_prefix(p) && is_pid_bytes(pid_part(p)) && sanitized(p).len() == 0 ==> (
            r matches Plan::ListPidDir { pid } && pid@ == pid_part(p)))
            &&& (has_proc_prefix(p) && is_pid_bytes(pid_part(p)) && sanitized(p).len() > 0 ==> (
            r matches Plan::ReadPidFile { pid, segments, status } && pid@ == pid_part(p)
                && segments@.map_values(|v: Vec<u8>| v@) == sanitized(p) && status == (sanitized(
                p,
            ).last() == status_name())))
            &&& (p != ascii_bytes("/"@) && p != ascii_bytes("/proc"@) && !has_proc_prefix(p) ==> (
            r matches Plan::Respond(resp) && resp.code == 404 && resp.content_type is Json
                && resp.body@ == json_error_body(ascii_bytes("Not Found"@))))
        },
{
    proof {
        reveal_strlit("GET");
        reveal_strlit("Invalid request line");
        reveal_strlit("Only GET is supported.");
        reveal_strlit("Access denied.");
        reveal_strlit("Invalid PID");
        reveal_strlit("Not Found");
    }
    let tokens = tokenize_ws(line);
    if tokens.len() < 2 {
        let msg = lit("Invalid request line");
        return Plan::Respond(json_error_response(400, &msg));
    }
    let get = lit("GET");
    if !bytes_eq(&tokens[0], &get) {
        let msg = lit("Only GET is supported.");
        return Plan::Respond(json_error_response(405, &msg));
    }
    let target = &tokens[1];
    let n = target.len();
    let mut path: Vec<u8>;
    let mut query: Vec<u8>;
    match find_byte_in(target, 63) {
        Some(idx) => {
            proof {
                crate::text::lemma_find_byte(target@, 63);
            }
            path = subvec(target, 0, idx);
            query = subvec(target, idx + 1, n);
            proof {
                assert(path@ =~= target_path(tokens@[1]@));
                assert(query@ =~= target_query(tokens@[1]@));
            }
        },
        None => {
            path = subvec(target, 0, n);
            query = Vec::new();
            proof {
                assert(path@ =~= target_path(tokens@[1]@));
                assert(query@ =~= target_query(tokens@[1]@));
            }
        },
    }
    if !authorized(&query) {
        let msg = lit("Access denied.");
        return Plan::Respond(json_error_response(403, &msg));
    }
    match route_path(&path) {
        Route::ProcessList => Plan::ListProcesses,
        Route::ProcRoot => Plan::ListProcRoot,
        Route::PidDir { pid } => Plan::ListPidDir { pid },
        Route::PidFile { pid, segments, status } => Plan::ReadPidFile { pid, segments, status },
        Route::InvalidPid => {
            let msg = lit("Invalid PID");
            Plan::Respond(json_error_response(400, &msg))
        },
        Route::NotFound => {
            let msg = lit("Not Found");
            Plan::Respond(json_error_response(404, &msg))
        },
    }
}

/// The response for the global process list: the parsed table on
/// success, a 500 when the facility could not be invoked.
pub fn respond_process_list(output: Option<Vec<u8>>) -> (r: HttpResponse)
    ensures
        output matches Some(out) ==> r.code == 200 && r.content_type is Json && r.body@
            == process_list_body(out@),
        output is None ==> r.code == 500 && r.content_type is Json && r.body@ == json_error_body(
            ascii_bytes("Failed to run 'ps'"@),
        ),
{
    proof {
        reveal_strlit("Failed to run 'ps'");
    }
    match output {
        Some(out) => HttpResponse {
            code: 200,
            content_type: ContentType::Json,
            body: build_process_list_body(&out),
        },
        None => {
            let msg = lit("Failed to run 'ps'");
            json_error_response(500, &msg)
        },
    }
}

/// The digits-only names among `names`, in order.
pub open spec fn digit_names(names: Seq<Seq<u8>>) -> Seq<Seq<u8>>
    decreases names.len(),
{
    if names.len() == 0 {
        Seq::<Seq<u8>>::empty()
    } else {
        let rest = digit_names(names.drop_last());
        if is_pid_bytes(names.last()) {
            rest.push(names.last())
        } else {
            rest
        }
    }
}

/// The `/proc` body: the digits-only children of the introspection
/// root, as a JSON array of strings.
pub open spec fn pids_body(names: Seq<Seq<u8>>) -> Seq<u8> {
    ascii_bytes("{\"pids\":"@) + json_string_array(digit_names(names)) + seq![125u8]
}

/// The pid-directory body: every child name, as a JSON array of
/// strings, in enumeration order.
pub open spec fn files_body(names: Seq<Seq<u8>>) -> Seq<u8> {
    ascii_bytes("{\"files\":"@) + json_string_array(names) + seq![125u8]
}

/// The response for `/proc`: the digits-only children of the root on
/// success, a 500 when the root could not be listed.
pub fn respond_proc_root(names: Option<Vec<Vec<u8>>>) -> (r: HttpResponse)
    ensures
        names matches Some(ns) ==> r.code == 200 && r.content_type is Json && r.body@ == pids_body(
            ns@.map_values(|v: Vec<u8>| v@),
        ),
        names is None ==> r.code == 500 && r.content_type is Json && r.body@ == json_error_body(
            ascii_bytes("Failed to read /proc directory"@),
        ),
{
    proof {
        reveal_strlit("{\"pids\":");
        reveal_strlit("Failed to read /proc directory");
    }
    match names {
        Some(ns) => {
            let ghost views = ns@.map_values(|v: Vec<u8>| v@);
            let mut kept: Vec<Vec<u8>> = Vec::new();
            proof {
                assert(views.take(0) =~= Seq::<Seq<u8>>::empty());
                assert(kept@.map_values(|v: Vec<u8>| v@) =~= digit_names(views.take(0)));
            }
            let mut i: usize = 0;
            while i < ns.len()
                invariant
                    0 <= i <= ns@.len(),
                    views == ns@.map_values(|v: Vec<u8>| v@),
                    views.len() == ns@.len(),
                    kept@.map_values(|v: Vec<u8>| v@) == digit_names(views.take(i as int)),
                decreases ns@.len() - i,
            {
                proof {
                    assert(views.take(i + 1).drop_last() =~= views.take(i as int));
                }
                if check_pid_bytes(&ns[i]) {
                    let m = ns[i].len();
                    let name = subvec(&ns[i], 0, m);
                    proof {
                        assert(name@ =~= views[i as int]);
                    }
                    kept.push(name);
                }
                proof {
                    assert(kept@.map_values(|v: Vec<u8>| v@) =~= digit_names(views.take(i + 1)));
                }
                i = i + 1;
            }
            proof {
                assert(views.take(views.len() as int) =~= views);
            }
            let mut body = lit("{\"pids\":");
            let arr = encode_string_array(&kept);
            append_bytes(&mut body, &arr);
            body.push(125);
            proof {
                assert(body@ =~= pids_body(views));
            }
            HttpResponse { code: 200, content_type: ContentType::Json, body }
        },
        None => {
            let msg = lit("Failed to read /proc directory");
            json_error_response(500, &msg)
        },
    }
}

/// The response for a pid's directory listing: every child name on
/// success, a 404 when the directory is gone or unreadable.
pub fn respond_pid_dir(names: Option<Vec<Vec<u8>>>) -> (r: HttpResponse)
    ensures
        names matches Some(ns) ==> r.code == 200 && r.content_type is Json && r.body@ == files_body(
            ns@.map_values(|v: Vec<u8>| v@),
        ),
        names is None ==> r.code == 404 && r.content_type is Json && r.body@ == json_error_body(
            ascii_bytes("PID directory not found"@),
        ),
{
    proof {
        reveal_strlit("{\"files\":");
        reveal_strlit("PID directory not found");
    }
    match names {
        Some(ns) => {
            let mut body = lit("{\"files\":");
            let arr = encode_string_array(&ns);
            append_bytes(&mut body, &arr);
            body.push(125);
            proof {
                assert(body@ =~= files_body(ns@.map_values(|v: Vec<u8>| v@)));
            }
            HttpResponse { code: 200, content_type: ContentType::Json, body }
        },
        None => {
            let msg = lit("PID directory not found");
            json_error_response(404, &msg)
        },
    }
}

/// The response for a file under a pid's subtree: a missing or
/// unreadable file is a 404; the `status` file is parsed as a status
/// block and rendered as pretty JSON; any other file is served
/// verbatim as plain text.
pub fn respond_pid_file(status: bool, contents: Option<Vec<u8>>) -> (r: HttpResponse)
    ensures
        contents is None ==> r.code == 404 && r.content_type is Json && r.body@ == json_error_body(
            ascii_bytes("File not found or unreadable"@),
        ),
        contents matches Some(c) ==> ((status ==> r.code == 200 && r.content_type is Json
            && r.body@ == pretty_object(parse_status_spec(c@))) && (!status ==> r.code == 200
            && r.content_type is Text && r.body@ == c@)),
{
    proof {
        reveal_strlit("File not found or unreadable");
    }
    match contents {
        None => {
            let msg = lit("File not found or unreadable");
            json_error_response(404, &msg)
        },
        Some(c) => {
            if status {
                let m = parse_status_to_json(&c);
                HttpResponse { code: 200, content_type: ContentType::Json, body: m.to_pretty_json() }
            } else {
                HttpResponse { code: 200, content_type: ContentType::Text, body: c }
            }
        },
    }
}

/// Issuing the same GET twice against an unchanged filesystem yields
/// byte-identical bodies: every route's body is a function of the
/// bytes its read handed back, so equal read outcomes give equal
/// bodies.  The process list is timing-dependent only in that the
/// table text itself may change between runs; with the same table
/// text its body too is identical.
pub proof fn lemma_get_idempotent(
    table1: Seq<u8>,
    table2: Seq<u8>,
    names1: Seq<Seq<u8>>,
    names2: Seq<Seq<u8>>,
    file1: Seq<u8>,
    file2: Seq<u8>,
)
    requires
        table1 == table2,
        names1 == names2,
        file1 == file2,
    ensures
        process_list_body(table1) == process_list_body(table2),
        pids_body(names1) == pids_body(names2),
        files_body(names1) == files_body(names2),
        pretty_object(parse_status_spec(file1)) == pretty_object(parse_status_spec(file2)),
{
}

} // verus!
