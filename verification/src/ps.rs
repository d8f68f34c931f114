//! The global process list: the process-table text is one header line
//! (dropped) and then rows of `pid name %cpu rss`; each well-formed row
//! becomes one JSON object.

use vstd::prelude::*;
use crate::json::{json_quoted, json_quote, number_norm, normalize_number};
use crate::text::{
    ascii_bytes, append_bytes, dec_rep, dec_value, is_pid_bytes, lit, parse_dec_u64, split_bytes,
    split_on, tokenize_ws, u64_to_dec, ws_tokens,
};

verus! {

/// A row is kept when it has at least four whitespace-separated fields
/// and the first parses as an unsigned 32-bit number, the third as a
/// number, and the fourth as an unsigned 64-bit number.  Malformed
/// rows are skipped, never fatal.
pub open spec fn row_valid(line: Seq<u8>) -> bool {
    let t = ws_tokens(line);
    t.len() >= 4 && is_pid_bytes(t[0]) && dec_value(t[0]) <= u32::MAX && number_norm(t[2]) is Some
        && is_pid_bytes(t[3]) && dec_value(t[3]) <= u64::MAX
}

/// The JSON object a kept row becomes.
pub open spec fn row_entry(line: Seq<u8>) -> Seq<u8> {
    let t = ws_tokens(line);
    ascii_bytes("{\"pid\":"@) + dec_rep(dec_value(t[0])) + ascii_bytes(",\"name\":"@)
        + json_quoted(t[1]) + ascii_bytes(",\"cpu\":"@) + number_norm(t[2]).unwrap()
        + ascii_bytes(",\"mem_kb\":"@) + dec_rep(dec_value(t[3])) + seq![125u8]
}

/// The JSON objects of the kept rows, in row order.
pub open spec fn process_rows(lines: Seq<Seq<u8>>) -> Seq<Seq<u8>>
    decreases lines.len(),
{
    if lines.len() == 0 {
        Seq::<Seq<u8>>::empty()
    } else {
        let rest = process_rows(lines.drop_last());
        if row_valid(lines.last()) {
            rest.push(row_entry(lines.last()))
        } else {
            rest
        }
    }
}

/// `items` joined with commas.
pub open spec fn comma_joined(items: Seq<Seq<u8>>) -> Seq<u8>
    decreases items.len(),
{
    if items.len() == 0 {
        Seq::<u8>::empty()
    } else if items.len() == 1 {
        items[0]
    } else {
        comma_joined(items.drop_last()) + seq![44u8] + items.last()
    }
}

/// The whole process-list body: the table's first line is a header and
/// is dropped; every kept row contributes one object.
pub open spec fn process_list_body(out: Seq<u8>) -> Seq<u8> {
    ascii_bytes("{\"processes\":["@) + comma_joined(
        process_rows(split_on(out, 10).drop_first()),
    ) + ascii_bytes("]}"@)
}

/// Encodes one row, or rejects it.
fn encode_row(line: &Vec<u8>) -> (r: Option<Vec<u8>>)
    ensures
        (r is Some) == row_valid(line@),
        r matches Some(v) ==> v@ == row_entry(line@),
{
    proof {
        reveal_strlit("{\"pid\":");
        reveal_strlit(",\"name\":");
        reveal_strlit(",\"cpu\":");
        reveal_strlit(",\"mem_kb\":");
    }
    let tokens = tokenize_ws(line);
    if tokens.len() < 4 {
        return None;
    }
    let pid = match parse_dec_u64(&tokens[0]) {
        Some(v) => v,
        None => { return None },
    };
    if pid > 4294967295 {
        return None;
    }
    let cpu = match normalize_number(&tokens[2]) {
        Some(v) => v,
        None => { return None },
    };
    let rss = match parse_dec_u64(&tokens[3]) {
        Some(v) => v,
        None => { return None },
    };
    let mut r = lit("{\"pid\":");
    let pid_dec = u64_to_dec(pid);
    append_bytes(&mut r, &pid_dec);
    let name_part = lit(",\"name\":");
    append_bytes(&mut r, &name_part);
    let name_q = json_quote(&tokens[1]);
    append_bytes(&mut r, &name_q);
    let cpu_part = lit(",\"cpu\":");
    append_bytes(&mut r, &cpu_part);
    append_bytes(&mut r, &cpu);
    let rss_part = lit(",\"mem_kb\":");
    append_bytes(&mut r, &rss_part);
    let rss_dec = u64_to_dec(rss);
    append_bytes(&mut r, &rss_dec);
    r.push(125);
    proof {
        assert(r@ =~= row_entry(line@));
    }
    Some(r)
}

/// Builds the process-list body from the raw table text.
pub fn build_process_list_body(out: &Vec<u8>) -> (r: Vec<u8>)
    ensures
        r@ == process_list_body(out@),
{
    proof {
        reveal_strlit("{\"processes\":[");
        reveal_strlit("]}");
        crate::text::lemma_split_on_len(out@, 10);
    }
    let lines = split_bytes(out, 10);
    let ghost line_views = split_on(out@, 10);
    let ghost data = line_views.drop_first();
    let mut r = lit("{\"processes\":[");
    let ghost prefix = r@;
    let mut first: bool = true;
    proof {
        assert(data.take(0) =~= Seq::<Seq<u8>>::empty());
    }
    let mut i: usize = 1;
    while i < lines.len()
        invariant
            1 <= i <= lines@.len(),
            lines@.len() == line_views.len(),
            data == line_views.drop_first(),
            data.len() == line_views.len() - 1,
            forall|t: int| 0 <= t < lines@.len() ==> (#[trigger] lines@[t])@ == line_views[t],
            prefix == ascii_bytes("{\"processes\":["@),
            r@ == prefix + comma_joined(process_rows(data.take(i - 1))),
            first == (process_rows(data.take(i - 1)).len() == 0),
        decreases lines@.len() - i,
    {
        proof {
            assert(data[i - 1] == line_views[i as int]);
            assert(data.take(i as int).drop_last() =~= data.take(i - 1));
            assert(data.take(i as int).last() == data[i - 1]);
        }
        match encode_row(&lines[i]) {
            None => {},
            Some(entry) => {
                if !first {
                    r.push(44);
                }
                append_bytes(&mut r, &entry);
                proof {
                    let rows_new = process_rows(data.take(i as int));
                    assert(rows_new.drop_last() =~= process_rows(data.take(i - 1)));
                    assert(r@ =~= prefix + comma_joined(rows_new));
                }
                first = false;
            },
        }
        i = i + 1;
    }
    proof {
        assert(data.take(lines@.len() - 1) =~= data);
    }
    let tail = lit("]}");
    append_bytes(&mut r, &tail);
    proof {
        assert(r@ =~= process_list_body(out@));
    }
    r
}

} // verus!
