//! The authorization gate and the path sanitizer/router.

use vstd::prelude::*;
use crate::text::{
    ascii_bytes, bytes_eq, check_pid_bytes, has_prefix, is_pid_bytes, lemma_split_on_no_delim, lit,
    split_bytes, split_on, starts_with, subvec,
};

verus! {

/// The one query parameter that authorizes a request: the literal
/// `key=` followed by the shared secret.
pub open spec fn secret_param() -> Seq<u8> {
    ascii_bytes("key=debugger"@)
}

/// Authorization succeeds exactly when some `&`-separated query
/// parameter is byte-for-byte the secret parameter — no prefix, no
/// substring, no other parameter name.
pub open spec fn query_authorizes(q: Seq<u8>) -> bool {
    exists|i: int| 0 <= i < split_on(q, 38).len() && split_on(q, 38)[i] == secret_param()
}

/// The authorization gate.
pub fn authorized(query: &Vec<u8>) -> (r: bool)
    ensures
        r == query_authorizes(query@),
{
    proof {
        reveal_strlit("key=debugger");
    }
    let secret = lit("key=debugger");
    let params = split_bytes(query, 38);
    let mut i: usize = 0;
    while i < params.len()
        invariant
            0 <= i <= params@.len(),
            params@.len() == split_on(query@, 38).len(),
            forall|t: int| 0 <= t < params@.len() ==> (#[trigger] params@[t])@ == split_on(
                query@,
                38,
            )[t],
            secret@ == secret_param(),
            forall|j: int| 0 <= j < i ==> split_on(query@, 38)[j] != secret_param(),
        decreases params@.len() - i,
    {
        if bytes_eq(&params[i], &secret) {
            return true;
        }
        i = i + 1;
    }
    false
}

/// The bytes before `/proc/<pid>` routes.
pub open spec fn proc_prefix() -> Seq<u8> {
    ascii_bytes("/proc/"@)
}

pub open spec fn has_proc_prefix(p: Seq<u8>) -> bool {
    has_prefix(p, proc_prefix())
}

/// The `/`-separated parts after `/proc/`: a pid candidate, then the
/// requested path's remaining segments.
pub open spec fn rest_parts(p: Seq<u8>) -> Seq<Seq<u8>> {
    split_on(p.skip(6), 47)
}

pub open spec fn pid_part(p: Seq<u8>) -> Seq<u8> {
    rest_parts(p)[0]
}

pub open spec fn tail_parts(p: Seq<u8>) -> Seq<Seq<u8>> {
    rest_parts(p).drop_first()
}

/// A path segment the sanitizer honors: non-empty and neither `.` nor
/// `..`.  Anything else is dropped before the path is resolved.
pub open spec fn is_plain_segment(s: Seq<u8>) -> bool {
    s.len() > 0 && s != seq![46u8] && s != seq![46u8, 46u8]
}

/// The plain segments of `segs`, in order.
pub open spec fn sanitize_segments(segs: Seq<Seq<u8>>) -> Seq<Seq<u8>>
    decreases segs.len(),
{
    if segs.len() == 0 {
        Seq::<Seq<u8>>::empty()
    } else {
        let rest = sanitize_segments(segs.drop_last());
        if is_plain_segment(segs.last()) {
            rest.push(segs.last())
        } else {
            rest
        }
    }
}

/// The sanitized segments under the pid's subtree that `p` resolves to.
pub open spec fn sanitized(p: Seq<u8>) -> Seq<Seq<u8>> {
    sanitize_segments(tail_parts(p))
}

/// The file name whose contents are parsed as a status block.
pub open spec fn status_name() -> Seq<u8> {
    ascii_bytes("status"@)
}

/// Where an authorized path leads.
pub enum Route {
    /// `/`: the global process list.
    ProcessList,
    /// `/proc`: the numeric children of the introspection root.
    ProcRoot,
    /// `/proc/<pid>` with nothing further: that pid's directory listing.
    PidDir { pid: Vec<u8> },
    /// `/proc/<pid>/<segments...>`: a file under the pid's subtree;
    /// `status` marks a final segment literally named `status`.
    PidFile { pid: Vec<u8>, segments: Vec<Vec<u8>>, status: bool },
    /// A `/proc/...` path whose pid candidate is not a run of digits.
    InvalidPid,
    /// Any other path.
    NotFound,
}

fn segment_is_plain(s: &Vec<u8>) -> (r: bool)
    ensures
        r == is_plain_segment(s@),
{
    if s.len() == 0 {
        return false;
    }
    if s.len() == 1 && s[0] == 46 {
        proof {
            assert(s@ =~= seq![46u8]);
        }
        return false;
    }
    if s.len() == 2 && s[0] == 46 && s[1] == 46 {
        proof {
            assert(s@ =~= seq![46u8, 46u8]);
        }
        return false;
    }
    proof {
        if s@ == seq![46u8] {
            assert(s@.len() == 1 && s@[0] == 46);
        }
        if s@ == seq![46u8, 46u8] {
            assert(s@.len() == 2 && s@[0] == 46 && s@[1] == 46);
        }
    }
    true
}

/// Classifies an authorized path.  The pid must be a non-empty run of
/// decimal digits; the remaining segments are sanitized before they
/// may reach the filesystem.
pub fn route_path(path: &Vec<u8>) -> (r: Route)
    ensures
        r is ProcessList <==> path@ == ascii_bytes("/"@),
        r is ProcRoot <==> path@ == ascii_bytes("/proc"@),
        r is InvalidPid <==> has_proc_prefix(path@) && !is_pid_bytes(pid_part(path@)),
        r is PidDir <==> has_proc_prefix(path@) && is_pid_bytes(pid_part(path@)) && sanitized(
            path@,
        ).len() == 0,
        r matches Route::PidDir { pid } ==> pid@ == pid_part(path@),
        r is PidFile <==> has_proc_prefix(path@) && is_pid_bytes(pid_part(path@)) && sanitized(
            path@,
        ).len() > 0,
        r matches Route::PidFile { pid, segments, status } ==> pid@ == pid_part(path@)
            && segments@.map_values(|v: Vec<u8>| v@) == sanitized(path@) && status == (sanitized(
            path@,
        ).last() == status_name()),
        r is NotFound <==> path@ != ascii_bytes("/"@) && path@ != ascii_bytes("/proc"@)
            && !has_proc_prefix(path@),
{
    proof {
        reveal_strlit("/");
        reveal_strlit("/proc");
        reveal_strlit("/proc/");
        reveal_strlit("status");
    }
    let root = lit("/");
    if bytes_eq(path, &root) {
        proof {
            assert(!has_proc_prefix(path@));
        }
        return Route::ProcessList;
    }
    let proc = lit("/proc");
    if bytes_eq(path, &proc) {
        proof {
            assert(!has_proc_prefix(path@));
        }
        return Route::ProcRoot;
    }
    let prefix = lit("/proc/");
    if !starts_with(path, &prefix) {
        return Route::NotFound;
    }
    let n = path.len();
    let rest = subvec(path, 6, n);
    proof {
        assert(rest@ =~= path@.skip(6));
    }
    let mut parts = split_bytes(&rest, 47);
    proof {
        crate::text::lemma_split_on_len(rest@, 47);
    }
    let ghost all_parts = parts@;
    let pid = parts.remove(0);
    proof {
        assert(parts@ =~= all_parts.drop_first());
        assert(pid@ == pid_part(path@));
        assert(parts@.len() == tail_parts(path@).len());
        assert(forall|t: int| 0 <= t < parts@.len() ==> (#[trigger] parts@[t])@ == tail_parts(
            path@,
        )[t]);
    }
    if !check_pid_bytes(&pid) {
        return Route::InvalidPid;
    }
    let ghost tails = tail_parts(path@);
    let mut segments: Vec<Vec<u8>> = Vec::new();
    proof {
        assert(tails.take(0) =~= Seq::<Seq<u8>>::empty());
    }
    let mut i: usize = 0;
    while i < parts.len()
        invariant
            0 <= i <= parts@.len(),
            parts@.len() == tails.len(),
            forall|t: int| 0 <= t < parts@.len() ==> (#[trigger] parts@[t])@ == tails[t],
            segments@.map_values(|v: Vec<u8>| v@) == sanitize_segments(tails.take(i as int)),
        decreases parts@.len() - i,
    {
        proof {
            assert(tails.take(i + 1).drop_last() =~= tails.take(i as int));
        }
        if segment_is_plain(&parts[i]) {
            let n_i = parts[i].len();
            let seg = subvec(&parts[i], 0, n_i);
            proof {
                assert(seg@ =~= tails[i as int]);
            }
            segments.push(seg);
        }
        proof {
            assert(segments@.map_values(|v: Vec<u8>| v@) =~= sanitize_segments(
                tails.take(i + 1),
            ));
        }
        i = i + 1;
    }
    proof {
        assert(tails.take(tails.len() as int) =~= tails);
    }
    if segments.len() == 0 {
        proof {
            assert(sanitized(path@).len() == 0);
        }
        Route::PidDir { pid }
    } else {
        let last_i = segments.len() - 1;
        let status_lit = lit("status");
        let status = bytes_eq(&segments[last_i], &status_lit);
        proof {
            assert(segments@.map_values(|v: Vec<u8>| v@).last() == segments@[last_i as int]@);
        }
        Route::PidFile { pid, segments, status }
    }
}

/// No honored segment can climb out of the pid's subtree: every
/// sanitized segment is a plain name — non-empty, not `.`, not `..` —
/// and contains no `/`, so joining them under the pid's directory
/// resolves inside the introspection root.
pub proof fn lemma_no_traversal_escape(p: Seq<u8>)
    ensures
        forall|i: int| 0 <= i < sanitized(p).len() ==> is_plain_segment(
            #[trigger] sanitized(p)[i],
        ),
        forall|i: int, j: int|
            0 <= i < sanitized(p).len() && 0 <= j < sanitized(p)[i].len() ==> (
            #[trigger] sanitized(p)[i][j]) != 47u8,
{
    lemma_sanitize_plain(tail_parts(p));
    lemma_split_on_no_delim(p.skip(6), 47);
    assert(forall|t: int| 0 <= t < tail_parts(p).len() ==> #[trigger] tail_parts(p)[t]
        == rest_parts(p)[t + 1]);
}

/// Sanitized segments are plain, and each one stands somewhere in the
/// list it was drawn from.
proof fn lemma_sanitize_plain(segs: Seq<Seq<u8>>)
    ensures
        forall|i: int| 0 <= i < sanitize_segments(segs).len() ==> is_plain_segment(
            #[trigger] sanitize_segments(segs)[i],
        ),
        forall|i: int| 0 <= i < sanitize_segments(segs).len() ==> exists|t: int|
            0 <= t < segs.len() && #[trigger] segs[t] == #[trigger] sanitize_segments(segs)[i],
    decreases segs.len(),
{
    if segs.len() > 0 {
        lemma_sanitize_plain(segs.drop_last());
        assert(forall|t: int| 0 <= t < segs.len() - 1 ==> #[trigger] segs.drop_last()[t]
            == segs[t]);
        let sub = sanitize_segments(segs.drop_last());
        let sani = sanitize_segments(segs);
        assert forall|i: int| 0 <= i < sani.len() implies is_plain_segment(#[trigger] sani[i])
            && exists|t: int| 0 <= t < segs.len() && #[trigger] segs[t] == sani[i] by {
            if i < sub.len() {
                assert(sani[i] == sub[i]);
                let t0 = choose|t: int|
                    0 <= t < segs.drop_last().len() && #[trigger] segs.drop_last()[t] == sub[i];
                assert(segs[t0] == sani[i]);
            } else {
                assert(is_plain_segment(segs.last()));
                assert(sani[i] == segs.last());
                assert(segs[segs.len() - 1] == sani[i]);
            }
        }
    }
}

} // verus!
