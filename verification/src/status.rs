//! The status-block parser: a colon-delimited `Key: value` text block
//! becomes an insertion-ordered string map, rendered as a pretty JSON
//! object.

use vstd::prelude::*;
use crate::json::{json_quoted, json_quote};
use crate::text::{find_byte, find_byte_in, split_on, split_bytes, subvec, trim, trim_bytes};

verus! {

/// An insertion-ordered mapping from trimmed keys to trimmed values.
/// A key keeps the position of its first insertion; a later insertion
/// of the same key only replaces the value.
pub struct StatusMap {
    pub entries: Vec<(Vec<u8>, Vec<u8>)>,
}

impl View for StatusMap {
    type V = Seq<(Seq<u8>, Seq<u8>)>;

    open spec fn view(&self) -> Seq<(Seq<u8>, Seq<u8>)> {
        self.entries@.map_values(|p: (Vec<u8>, Vec<u8>)| (p.0@, p.1@))
    }
}

/// No key occurs twice.
pub open spec fn unique_keys(m: Seq<(Seq<u8>, Seq<u8>)>) -> bool {
    forall|i: int, j: int| 0 <= i < j < m.len() ==> (#[trigger] m[i]).0 != (#[trigger] m[j]).0
}

impl StatusMap {
    pub open spec fn wf(&self) -> bool {
        unique_keys(self@)
    }
}

/// `m` with `k` set to `v`: the value is replaced in place if `k` is
/// present, and the pair appended if not.
pub open spec fn upsert(m: Seq<(Seq<u8>, Seq<u8>)>, k: Seq<u8>, v: Seq<u8>) -> Seq<
    (Seq<u8>, Seq<u8>),
>
    decreases m.len(),
{
    if m.len() == 0 {
        seq![(k, v)]
    } else if m[0].0 == k {
        seq![(k, v)] + m.drop_first()
    } else {
        seq![m[0]] + upsert(m.drop_first(), k, v)
    }
}

proof fn lemma_upsert_absent(m: Seq<(Seq<u8>, Seq<u8>)>, k: Seq<u8>, v: Seq<u8>)
    requires
        forall|i: int| 0 <= i < m.len() ==> (#[trigger] m[i]).0 != k,
    ensures
        upsert(m, k, v) =~= m.push((k, v)),
    decreases m.len(),
{
    if m.len() > 0 {
        lemma_upsert_absent(m.drop_first(), k, v);
        assert(forall|i: int| 1 <= i < m.len() ==> #[trigger] m[i] == m.drop_first()[i - 1]);
    }
}

proof fn lemma_upsert_found(m: Seq<(Seq<u8>, Seq<u8>)>, k: Seq<u8>, v: Seq<u8>, j: int)
    requires
        0 <= j < m.len(),
        m[j].0 == k,
        forall|i: int| 0 <= i < j ==> (#[trigger] m[i]).0 != k,
    ensures
        upsert(m, k, v) =~= m.update(j, (k, v)),
    decreases m.len(),
{
    if j == 0 {
        assert(upsert(m, k, v) =~= m.update(0, (k, v)));
    } else {
        lemma_upsert_found(m.drop_first(), k, v, j - 1);
        assert(forall|i: int| 1 <= i < m.len() ==> #[trigger] m[i] == m.drop_first()[i - 1]);
        assert(upsert(m, k, v) =~= m.update(j, (k, v)));
    }
}

/// The key and value a single line contributes: everything before the
/// first colon (trimmed) and everything after it (trimmed).  A line
/// without a colon contributes nothing.
pub open spec fn line_kv(line: Seq<u8>) -> Option<(Seq<u8>, Seq<u8>)> {
    let i = find_byte(line, 58);
    if i == -1 {
        None
    } else {
        Some((trim_bytes(line.take(i)), trim_bytes(line.skip(i + 1))))
    }
}

/// The map the given lines build up, first line first, later duplicate
/// keys overwriting the value.
pub open spec fn status_map_of(lines: Seq<Seq<u8>>) -> Seq<(Seq<u8>, Seq<u8>)>
    decreases lines.len(),
{
    if lines.len() == 0 {
        Seq::<(Seq<u8>, Seq<u8>)>::empty()
    } else {
        let m = status_map_of(lines.drop_last());
        match line_kv(lines.last()) {
            None => m,
            Some(kv) => upsert(m, kv.0, kv.1),
        }
    }
}

/// The map a whole status block denotes: its newline-separated lines,
/// folded in order.
pub open spec fn parse_status_spec(text: Seq<u8>) -> Seq<(Seq<u8>, Seq<u8>)> {
    status_map_of(split_on(text, 10))
}

proof fn lemma_upsert_unique(m: Seq<(Seq<u8>, Seq<u8>)>, k: Seq<u8>, v: Seq<u8>)
    requires
        unique_keys(m),
    ensures
        unique_keys(upsert(m, k, v)),
{
    if exists|i: int| 0 <= i < m.len() && (#[trigger] m[i]).0 == k {
        let j = choose|j: int|
            0 <= j < m.len() && (#[trigger] m[j]).0 == k && forall|i: int|
                0 <= i < j ==> (#[trigger] m[i]).0 != k;
        assert(exists|j: int|
            0 <= j < m.len() && (#[trigger] m[j]).0 == k && forall|i: int|
                0 <= i < j ==> (#[trigger] m[i]).0 != k) by {
            let i0 = choose|i: int| 0 <= i < m.len() && (#[trigger] m[i]).0 == k;
            lemma_first_key(m, k, i0);
        }
        lemma_upsert_found(m, k, v, j);
    } else {
        lemma_upsert_absent(m, k, v);
    }
}

/// If some index holds key `k`, a first such index exists.
proof fn lemma_first_key(m: Seq<(Seq<u8>, Seq<u8>)>, k: Seq<u8>, i0: int)
    requires
        0 <= i0 < m.len(),
        m[i0].0 == k,
    ensures
        exists|j: int|
            0 <= j < m.len() && (#[trigger] m[j]).0 == k && forall|i: int|
                0 <= i < j ==> (#[trigger] m[i]).0 != k,
    decreases i0,
{
    if forall|i: int| 0 <= i < i0 ==> (#[trigger] m[i]).0 != k {
        assert(0 <= i0 < m.len() && (#[trigger] m[i0]).0 == k && forall|i: int|
            0 <= i < i0 ==> (#[trigger] m[i]).0 != k);
    } else {
        let i1 = choose|i: int| 0 <= i < i0 && (#[trigger] m[i]).0 == k;
        lemma_first_key(m, k, i1);
    }
}

/// Sets `k` to `v` in `m`, keeping insertion order.
fn upsert_exec(m: &mut StatusMap, k: Vec<u8>, v: Vec<u8>)
    requires
        old(m).wf(),
    ensures
        final(m)@ == upsert(old(m)@, k@, v@),
        final(m).wf(),
{
    proof {
        lemma_upsert_unique(old(m)@, k@, v@);
    }
    let mut j: usize = 0;
    while j < m.entries.len()
        invariant
            0 <= j <= m.entries@.len(),
            *m == *old(m),
            old(m).wf(),
            forall|i: int| 0 <= i < j ==> (#[trigger] m@[i]).0 != k@,
        decreases m.entries@.len() - j,
    {
        if crate::text::bytes_eq(&m.entries[j].0, &k) {
            proof {
                lemma_upsert_found(m@, k@, v@, j as int);
            }
            let _ = m.entries.remove(j);
            m.entries.insert(j, (k, v));
            proof {
                assert(old(m).entries@.remove(j as int).insert(j as int, (k, v))
                    =~= old(m).entries@.update(j as int, (k, v)));
                assert(m@ =~= upsert(old(m)@, k@, v@));
                lemma_upsert_unique(old(m)@, k@, v@);
                assert(unique_keys(m@));
            }
            return ;
        }
        j = j + 1;
    }
    proof {
        lemma_upsert_absent(m@, k@, v@);
    }
    m.entries.push((k, v));
    proof {
        assert(m@ =~= upsert(old(m)@, k@, v@));
    }
}

/// Parses a status block: for each line with a colon, the part before
/// the first colon (trimmed) maps to the part after it (trimmed); lines
/// without a colon are dropped; a later duplicate key overwrites the
/// value.
pub fn parse_status_to_json(text: &Vec<u8>) -> (r: StatusMap)
    ensures
        r@ == parse_status_spec(text@),
        r.wf(),
{
    let lines = split_bytes(text, 10);
    let ghost line_views = split_on(text@, 10);
    let mut m = StatusMap { entries: Vec::new() };
    proof {
        assert(m@ =~= Seq::<(Seq<u8>, Seq<u8>)>::empty());
        assert(line_views.take(0) =~= Seq::<Seq<u8>>::empty());
    }
    let mut i: usize = 0;
    while i < lines.len()
        invariant
            0 <= i <= lines@.len(),
            lines@.len() == line_views.len(),
            forall|t: int| 0 <= t < lines@.len() ==> (#[trigger] lines@[t])@ == line_views[t],
            m@ == status_map_of(line_views.take(i as int)),
            m.wf(),
        decreases lines@.len() - i,
    {
        let line = &lines[i];
        proof {
            assert(line_views.take(i + 1).drop_last() =~= line_views.take(i as int));
        }
        match find_byte_in(line, 58) {
            None => {},
            Some(c) => {
                proof {
                    crate::text::lemma_find_byte(line@, 58);
                }
                let n = line.len();
                let k = trim(&subvec(line, 0, c));
                let v = trim(&subvec(line, c + 1, n));
                upsert_exec(&mut m, k, v);
            },
        }
        i = i + 1;
    }
    proof {
        assert(line_views.take(line_views.len() as int) =~= line_views);
    }
    m
}

/// One line of the pretty object: two spaces of indent, the quoted
/// key, a colon and a space, the quoted value.
pub open spec fn pretty_entry(kv: (Seq<u8>, Seq<u8>)) -> Seq<u8> {
    seq![32u8, 32u8] + json_quoted(kv.0) + seq![58u8, 32u8] + json_quoted(kv.1)
}

/// The comma-and-newline-separated pretty lines for `entries`.
pub open spec fn pretty_items(entries: Seq<(Seq<u8>, Seq<u8>)>) -> Seq<u8>
    decreases entries.len(),
{
    if entries.len() == 0 {
        Seq::<u8>::empty()
    } else if entries.len() == 1 {
        pretty_entry(entries[0])
    } else {
        pretty_items(entries.drop_last()) + seq![44u8, 10u8] + pretty_entry(entries.last())
    }
}

/// The pretty-printed JSON object for `entries`: `{}` when empty, else
/// one `"key": "value"` line per entry between braces.
pub open spec fn pretty_object(entries: Seq<(Seq<u8>, Seq<u8>)>) -> Seq<u8> {
    if entries.len() == 0 {
        seq![123u8, 125u8]
    } else {
        seq![123u8, 10u8] + pretty_items(entries) + seq![10u8, 125u8]
    }
}

impl StatusMap {
    /// Renders the map as a pretty-printed JSON object, one key per
    /// line, in insertion order.
    pub fn to_pretty_json(&self) -> (r: Vec<u8>)
        ensures
            r@ == pretty_object(self@),
    {
        if self.entries.len() == 0 {
            let mut r: Vec<u8> = Vec::new();
            r.push(123);
            r.push(125);
            proof {
                assert(r@ =~= pretty_object(self@));
            }
            return r;
        }
        let mut r: Vec<u8> = Vec::new();
        r.push(123);
        r.push(10);
        proof {
            assert(self@.take(0) =~= Seq::<(Seq<u8>, Seq<u8>)>::empty());
            assert(r@ =~= seq![123u8, 10u8] + pretty_items(self@.take(0)));
        }
        let mut i: usize = 0;
        while i < self.entries.len()
            invariant
                0 <= i <= self.entries@.len(),
                self@.len() == self.entries@.len(),
                r@ == seq![123u8, 10u8] + pretty_items(self@.take(i as int)),
            decreases self.entries@.len() - i,
        {
            if i > 0 {
                r.push(44);
                r.push(10);
            }
            r.push(32);
            r.push(32);
            let qk = json_quote(&self.entries[i].0);
            crate::text::append_bytes(&mut r, &qk);
            r.push(58);
            r.push(32);
            let qv = json_quote(&self.entries[i].1);
            crate::text::append_bytes(&mut r, &qv);
            proof {
                assert(self@.take(i + 1).drop_last() =~= self@.take(i as int));
                assert(self@.take(i + 1).last() == self@[i as int]);
                assert(self@[i as int] == (self.entries@[i as int].0@, self.entries@[i as int].1@));
                if i == 0 {
                    assert(r@ =~= seq![123u8, 10u8] + pretty_items(self@.take(1)));
                } else {
                    assert(r@ =~= seq![123u8, 10u8] + pretty_items(self@.take(i + 1)));
                }
            }
            i = i + 1;
        }
        proof {
            assert(self@.take(self@.len() as int) =~= self@);
        }
        r.push(10);
        r.push(125);
        proof {
            assert(r@ =~= pretty_object(self@));
        }
        r
    }
}

} // verus!
