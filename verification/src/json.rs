//! JSON rendering.  String escaping and number normalization are done
//! by serde_json behind trusted wrappers; everything assembled out of
//! them — arrays, objects, whole response bodies — is verified here.

use vstd::prelude::*;
use crate::text::append_bytes;

verus! {

/// The JSON string literal (quotes and escapes included) that
/// serde_json's serializer emits for these bytes, after lossy UTF-8
/// decoding.  A function of the bytes alone.
pub uninterp spec fn json_quoted(s: Seq<u8>) -> Seq<u8>;

/// A byte the JSON string serializer passes through unchanged: printable
/// ASCII other than the quote and the backslash.
pub open spec fn plain_json_byte(b: u8) -> bool {
    32 <= b < 127 && b != 34 && b != 92
}

pub open spec fn all_plain_json(s: Seq<u8>) -> bool {
    forall|i: int| 0 <= i < s.len() ==> plain_json_byte(#[trigger] s[i])
}

/// Relies on serde_json's string serializer (`serde_json::to_string` on
/// `&str`): it wraps the text in double quotes and escapes only `"`,
/// `\` and control characters below 0x20, so printable ASCII without
/// those two passes through verbatim.  Bytes that are not valid UTF-8
/// are first replaced as `String::from_utf8_lossy` replaces them.
/// Serializing a string into an in-memory buffer cannot fail.
#[verifier::external_body]
pub(crate) fn json_quote(b: &Vec<u8>) -> (r: Vec<u8>)
    ensures
        r@ == json_quoted(b@),
        all_plain_json(b@) ==> r@ == seq![34u8] + b@ + seq![34u8],
{
    let s = String::from_utf8_lossy(b);
    let quoted = serde_json::to_string(s.as_ref()).unwrap();
    quoted.into_bytes()
}

/// What serde_json makes of this token read as a JSON number: `Some`
/// of the re-serialized number if the whole token parses as one, `None`
/// otherwise.  A function of the token bytes alone.
pub uninterp spec fn number_norm(s: Seq<u8>) -> Option<Seq<u8>>;

/// Relies on serde_json's parser and number serializer: the token is
/// accepted exactly when it is a complete JSON number, and the result
/// is that number re-serialized (so `007` or `1e3` come out in the
/// serializer's canonical form).
#[verifier::external_body]
pub(crate) fn normalize_number(tok: &Vec<u8>) -> (r: Option<Vec<u8>>)
    ensures
        (r is Some) == (number_norm(tok@) is Some),
        r matches Some(v) ==> number_norm(tok@) == Some(v@),
{
    let s = match core::str::from_utf8(tok) {
        Ok(s) => s,
        Err(_) => return None,
    };
    match serde_json::from_str::<serde_json::Value>(s) {
        Ok(serde_json::Value::Number(n)) => Some(n.to_string().into_bytes()),
        _ => None,
    }
}

/// The comma-separated JSON string literals for `items`.
pub open spec fn json_string_items(items: Seq<Seq<u8>>) -> Seq<u8>
    decreases items.len(),
{
    if items.len() == 0 {
        Seq::<u8>::empty()
    } else if items.len() == 1 {
        json_quoted(items[0])
    } else {
        json_string_items(items.drop_last()) + seq![44u8] + json_quoted(items.last())
    }
}

/// The JSON array of string literals for `items`.
pub open spec fn json_string_array(items: Seq<Seq<u8>>) -> Seq<u8> {
    seq![91u8] + json_string_items(items) + seq![93u8]
}

/// Renders `items` as a JSON array of strings.
pub fn encode_string_array(items: &Vec<Vec<u8>>) -> (r: Vec<u8>)
    ensures
        r@ == json_string_array(items@.map_values(|v: Vec<u8>| v@)),
{
    let ghost views = items@.map_values(|v: Vec<u8>| v@);
    let mut r: Vec<u8> = Vec::new();
    r.push(91);
    proof {
        assert(views.take(0) =~= Seq::<Seq<u8>>::empty());
        assert(r@ =~= seq![91u8] + json_string_items(views.take(0)));
    }
    let mut i: usize = 0;
    while i < items.len()
        invariant
            0 <= i <= items@.len(),
            views == items@.map_values(|v: Vec<u8>| v@),
            views.len() == items@.len(),
            r@ == seq![91u8] + json_string_items(views.take(i as int)),
        decreases items@.len() - i,
    {
        if i > 0 {
            r.push(44);
        }
        let q = json_quote(&items[i]);
        append_bytes(&mut r, &q);
        proof {
            assert(views.take(i + 1).drop_last() =~= views.take(i as int));
            assert(views.take(i + 1).last() == views[i as int]);
            assert(views[i as int] == items@[i as int]@);
            if i == 0 {
                assert(r@ =~= seq![91u8] + json_string_items(views.take(1)));
            } else {
                assert(r@ =~= seq![91u8] + json_string_items(views.take(i + 1)));
            }
        }
        i = i + 1;
    }
    proof {
        assert(views.take(views.len() as int) =~= views);
    }
    r.push(93);
    proof {
        assert(r@ =~= json_string_array(views));
    }
    r
}

} // verus!
