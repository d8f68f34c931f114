//! Byte-level text helpers: ASCII classification, splitting, trimming,
//! and decimal formatting/parsing used throughout the service.

use vstd::prelude::*;
use vstd::slice::slice_to_vec;
use vstd::string::is_ascii;

verus! {

broadcast use vstd::string::is_ascii_spec_bytes;

/// The bytes of an ASCII character sequence, one byte per character.
pub open spec fn ascii_bytes(cs: Seq<char>) -> Seq<u8> {
    Seq::new(cs.len(), |i: int| cs[i] as u8)
}

/// Turns an ASCII string (in practice: a literal) into its bytes.
pub fn lit(s: &str) -> (r: Vec<u8>)
    requires
        is_ascii(s),
    ensures
        r@ == ascii_bytes(s@),
{
    let b = s.as_bytes();
    let r = slice_to_vec(b);
    proof {
        assert(r@ =~= ascii_bytes(s@));
    }
    r
}

/// ASCII decimal digit.
pub open spec fn is_digit(b: u8) -> bool {
    48 <= b <= 57
}

/// Every byte of `s` is an ASCII decimal digit.
pub open spec fn all_digits(s: Seq<u8>) -> bool {
    forall|i: int| 0 <= i < s.len() ==> is_digit(#[trigger] s[i])
}

/// A non-empty, digits-only byte string: the shape a process identifier
/// must have before it may name a directory under the introspection root.
pub open spec fn is_pid_bytes(s: Seq<u8>) -> bool {
    s.len() > 0 && all_digits(s)
}

pub fn byte_is_digit(b: u8) -> (r: bool)
    ensures
        r == is_digit(b),
{
    48 <= b && b <= 57
}

/// Checks that `s` is a non-empty run of ASCII digits.
pub fn check_pid_bytes(s: &Vec<u8>) -> (r: bool)
    ensures
        r == is_pid_bytes(s@),
{
    if s.len() == 0 {
        return false;
    }
    let mut i: usize = 0;
    while i < s.len()
        invariant
            0 <= i <= s@.len(),
            forall|j: int| 0 <= j < i ==> is_digit(#[trigger] s@[j]),
        decreases s@.len() - i,
    {
        if !byte_is_digit(s[i]) {
            return false;
        }
        i = i + 1;
    }
    true
}

/// Byte-for-byte equality of two byte strings.
pub fn bytes_eq(a: &Vec<u8>, b: &Vec<u8>) -> (r: bool)
    ensures
        r == (a@ == b@),
{
    if a.len() != b.len() {
        assert(a@ != b@) by {
            assert(a@.len() != b@.len());
        }
        return false;
    }
    let mut i: usize = 0;
    while i < a.len()
        invariant
            0 <= i <= a@.len(),
            a@.len() == b@.len(),
            forall|j: int| 0 <= j < i ==> a@[j] == b@[j],
        decreases a@.len() - i,
    {
        if a[i] != b[i] {
            return false;
        }
        i = i + 1;
    }
    proof {
        assert(a@ =~= b@);
    }
    true
}

/// Copies `s[i..j]` into a fresh byte string.
pub fn subvec(s: &Vec<u8>, i: usize, j: usize) -> (r: Vec<u8>)
    requires
        0 <= i <= j <= s@.len(),
    ensures
        r@ == s@.subrange(i as int, j as int),
{
    let mut r: Vec<u8> = Vec::new();
    let mut k: usize = i;
    while k < j
        invariant
            i <= k <= j <= s@.len(),
            r@ == s@.subrange(i as int, k as int),
        decreases j - k,
    {
        r.push(s[k]);
        proof {
            assert(r@ =~= s@.subrange(i as int, k + 1));
        }
        k = k + 1;
    }
    r
}

/// Appends all of `s` to `out`.
pub fn append_bytes(out: &mut Vec<u8>, s: &Vec<u8>)
    ensures
        final(out)@ == old(out)@ + s@,
{
    let mut k: usize = 0;
    while k < s.len()
        invariant
            0 <= k <= s@.len(),
            out@ == old(out)@ + s@.subrange(0, k as int),
        decreases s@.len() - k,
    {
        out.push(s[k]);
        proof {
            assert(old(out)@ + s@.subrange(0, k + 1) =~= (old(out)@ + s@.subrange(
                0,
                k as int,
            )).push(s@[k as int]));
        }
        k = k + 1;
    }
    proof {
        assert(s@.subrange(0, s@.len() as int) =~= s@);
    }
}

/// ASCII whitespace, the separators of the request line and of the
/// process-table rows.
pub open spec fn is_ws(b: u8) -> bool {
    b == 32 || 9 <= b <= 13
}

pub fn byte_is_ws(b: u8) -> (r: bool)
    ensures
        r == is_ws(b),
{
    b == 32 || (9 <= b && b <= 13)
}

/// Index of the first occurrence of `d` in `s`, or `-1`.
pub open spec fn find_byte(s: Seq<u8>, d: u8) -> int
    decreases s.len(),
{
    if s.len() == 0 {
        -1
    } else if s[0] == d {
        0
    } else {
        let r = find_byte(s.drop_first(), d);
        if r == -1 {
            -1
        } else {
            r + 1
        }
    }
}

pub proof fn lemma_find_byte(s: Seq<u8>, d: u8)
    ensures
        find_byte(s, d) == -1 ==> forall|i: int| 0 <= i < s.len() ==> s[i] != d,
        find_byte(s, d) != -1 ==> 0 <= find_byte(s, d) < s.len() && s[find_byte(s, d)] == d
            && forall|i: int| 0 <= i < find_byte(s, d) ==> s[i] != d,
    decreases s.len(),
{
    if s.len() > 0 && s[0] != d {
        lemma_find_byte(s.drop_first(), d);
        assert(forall|i: int| 1 <= i < s.len() ==> #[trigger] s[i] == s.drop_first()[i - 1]);
    }
}

/// First occurrence of `d` in `s`.
pub fn find_byte_in(s: &Vec<u8>, d: u8) -> (r: Option<usize>)
    ensures
        r matches Some(i) ==> find_byte(s@, d) == i,
        r is None ==> find_byte(s@, d) == -1,
{
    proof {
        lemma_find_byte(s@, d);
    }
    let mut i: usize = 0;
    while i < s.len()
        invariant
            0 <= i <= s@.len(),
            forall|j: int| 0 <= j < i ==> s@[j] != d,
            find_byte(s@, d) == -1 ==> forall|j: int| 0 <= j < s@.len() ==> s@[j] != d,
            find_byte(s@, d) != -1 ==> 0 <= find_byte(s@, d) < s@.len() && s@[find_byte(s@, d)]
                == d && forall|j: int| 0 <= j < find_byte(s@, d) ==> s@[j] != d,
        decreases s@.len() - i,
    {
        if s[i] == d {
            return Some(i);
        }
        i = i + 1;
    }
    None
}

/// Index of the first whitespace byte in `s`, or `-1`.
pub open spec fn find_ws(s: Seq<u8>) -> int
    decreases s.len(),
{
    if s.len() == 0 {
        -1
    } else if is_ws(s[0]) {
        0
    } else {
        let r = find_ws(s.drop_first());
        if r == -1 {
            -1
        } else {
            r + 1
        }
    }
}

pub proof fn lemma_find_ws(s: Seq<u8>)
    ensures
        find_ws(s) == -1 ==> forall|i: int| 0 <= i < s.len() ==> !is_ws(s[i]),
        find_ws(s) != -1 ==> 0 <= find_ws(s) < s.len() && is_ws(s[find_ws(s)]) && forall|i: int|
            0 <= i < find_ws(s) ==> !is_ws(s[i]),
    decreases s.len(),
{
    if s.len() > 0 && !is_ws(s[0]) {
        lemma_find_ws(s.drop_first());
        assert(forall|i: int| 1 <= i < s.len() ==> #[trigger] s[i] == s.drop_first()[i - 1]);
    }
}

/// First whitespace byte of `s`.
pub fn find_ws_in(s: &Vec<u8>) -> (r: Option<usize>)
    ensures
        r matches Some(i) ==> find_ws(s@) == i,
        r is None ==> find_ws(s@) == -1,
{
    proof {
        lemma_find_ws(s@);
    }
    let mut i: usize = 0;
    while i < s.len()
        invariant
            0 <= i <= s@.len(),
            forall|j: int| 0 <= j < i ==> !is_ws(s@[j]),
            find_ws(s@) == -1 ==> forall|j: int| 0 <= j < s@.len() ==> !is_ws(s@[j]),
            find_ws(s@) != -1 ==> 0 <= find_ws(s@) < s@.len() && is_ws(s@[find_ws(s@)])
                && forall|j: int| 0 <= j < find_ws(s@) ==> !is_ws(s@[j]),
        decreases s@.len() - i,
    {
        if byte_is_ws(s[i]) {
            return Some(i);
        }
        i = i + 1;
    }
    None
}

/// The `d`-separated fields of `s`, in order.  The empty string has one
/// empty field; a separator always stands between two fields, so `n`
/// separators give `n + 1` fields, empty ones included.
pub open spec fn split_on(s: Seq<u8>, d: u8) -> Seq<Seq<u8>>
    decreases s.len(),
{
    if s.len() == 0 {
        seq![Seq::<u8>::empty()]
    } else if s[0] == d {
        seq![Seq::<u8>::empty()] + split_on(s.drop_first(), d)
    } else {
        let rest = split_on(s.drop_first(), d);
        seq![seq![s[0]] + rest[0]] + rest.drop_first()
    }
}

pub proof fn lemma_split_on_len(s: Seq<u8>, d: u8)
    ensures
        split_on(s, d).len() >= 1,
    decreases s.len(),
{
    if s.len() > 0 {
        lemma_split_on_len(s.drop_first(), d);
    }
}

/// Splitting takes the field before the first separator, then splits
/// the remainder.
pub proof fn lemma_split_on_head(s: Seq<u8>, d: u8)
    ensures
        find_byte(s, d) == -1 ==> split_on(s, d) =~= seq![s],
        find_byte(s, d) >= 0 ==> split_on(s, d) =~= seq![s.take(find_byte(s, d))] + split_on(
            s.skip(find_byte(s, d) + 1),
            d,
        ),
    decreases s.len(),
{
    lemma_find_byte(s, d);
    if s.len() == 0 {
        assert(s =~= Seq::<u8>::empty());
    } else if s[0] == d {
        assert(s.skip(1) =~= s.drop_first());
        assert(s.take(0) =~= Seq::<u8>::empty());
    } else {
        lemma_split_on_head(s.drop_first(), d);
        lemma_split_on_len(s.drop_first(), d);
        lemma_find_byte(s.drop_first(), d);
        let f = find_byte(s, d);
        if f == -1 {
            assert(find_byte(s.drop_first(), d) == -1);
            assert(split_on(s.drop_first(), d) =~= seq![s.drop_first()]);
            assert(seq![s[0]] + s.drop_first() =~= s);
            assert(split_on(s, d)[0] == seq![s[0]] + split_on(s.drop_first(), d)[0]);
            assert(split_on(s, d) =~= seq![s]);
        } else {
            let df = s.drop_first();
            assert(find_byte(df, d) == f - 1);
            assert(seq![s[0]] + df.take(f - 1) =~= s.take(f));
            assert(df.skip(f) =~= s.skip(f + 1));
            assert(split_on(s, d) =~= seq![s.take(f)] + split_on(s.skip(f + 1), d));
        }
    }
}

/// No field of a split contains the separator it was split on.
pub proof fn lemma_split_on_no_delim(s: Seq<u8>, d: u8)
    ensures
        forall|i: int, j: int|
            0 <= i < split_on(s, d).len() && 0 <= j < split_on(s, d)[i].len() ==> (
            #[trigger] split_on(s, d)[i][j]) != d,
    decreases s.len(),
{
    if s.len() == 0 {
    } else if s[0] == d {
        lemma_split_on_no_delim(s.drop_first(), d);
        let rest = split_on(s.drop_first(), d);
        assert forall|i: int, j: int|
            0 <= i < split_on(s, d).len() && 0 <= j < split_on(s, d)[i].len() implies (
        #[trigger] split_on(s, d)[i][j]) != d by {
            if i > 0 {
                assert(split_on(s, d)[i] == rest[i - 1]);
                assert(rest[i - 1][j] != d);
            }
        }
    } else {
        lemma_split_on_no_delim(s.drop_first(), d);
        lemma_split_on_len(s.drop_first(), d);
        let rest = split_on(s.drop_first(), d);
        assert forall|i: int, j: int|
            0 <= i < split_on(s, d).len() && 0 <= j < split_on(s, d)[i].len() implies (
        #[trigger] split_on(s, d)[i][j]) != d by {
            if i == 0 {
                assert(split_on(s, d)[0] == seq![s[0]] + rest[0]);
                if j > 0 {
                    assert((seq![s[0]] + rest[0])[j] == rest[0][j - 1]);
                    assert(rest[0][j - 1] != d);
                }
            } else {
                assert(split_on(s, d)[i] == rest.drop_first()[i - 1]);
                assert(rest.drop_first()[i - 1] == rest[i]);
                assert(rest[i][j] != d);
            }
        }
    }
}

/// Splits `s` on the byte `d`.
pub fn split_bytes(s: &Vec<u8>, d: u8) -> (r: Vec<Vec<u8>>)
    ensures
        r@.len() == split_on(s@, d).len(),
        forall|i: int| 0 <= i < r@.len() ==> r@[i]@ == split_on(s@, d)[i],
    decreases s@.len(),
{
    proof {
        lemma_split_on_head(s@, d);
    }
    match find_byte_in(s, d) {
        None => {
            let mut r: Vec<Vec<u8>> = Vec::new();
            r.push(subvec(s, 0, s.len()));
            proof {
                assert(s@.subrange(0, s@.len() as int) =~= s@);
            }
            r
        },
        Some(i) => {
            proof {
                lemma_find_byte(s@, d);
                assert(i < s@.len());
            }
            let n = s.len();
            let head = subvec(s, 0, i);
            let tail = subvec(s, i + 1, n);
            let mut rest = split_bytes(&tail, d);
            rest.insert(0, head);
            proof {
                assert(tail@ =~= s@.skip(i + 1));
                assert(head@ =~= s@.take(i as int));
            }
            rest
        },
    }
}

/// The whitespace-separated tokens of `s`, in order, empty runs of
/// whitespace contributing nothing.
pub open spec fn ws_tokens(s: Seq<u8>) -> Seq<Seq<u8>>
    decreases s.len(),
{
    if s.len() == 0 {
        Seq::<Seq<u8>>::empty()
    } else if is_ws(s[0]) {
        ws_tokens(s.drop_first())
    } else {
        let rest = ws_tokens(s.drop_first());
        if s.len() >= 2 && !is_ws(s[1]) {
            seq![seq![s[0]] + rest[0]] + rest.drop_first()
        } else {
            seq![seq![s[0]]] + rest
        }
    }
}

pub proof fn lemma_ws_tokens_len(s: Seq<u8>)
    ensures
        s.len() > 0 && !is_ws(s[0]) ==> ws_tokens(s).len() >= 1,
    decreases s.len(),
{
    if s.len() > 0 {
        lemma_ws_tokens_len(s.drop_first());
    }
}

/// Tokenizing takes the maximal non-whitespace run at the front, then
/// tokenizes the remainder.
pub proof fn lemma_ws_tokens_head(s: Seq<u8>)
    ensures
        s.len() > 0 && !is_ws(s[0]) && find_ws(s) == -1 ==> ws_tokens(s) =~= seq![s],
        s.len() > 0 && !is_ws(s[0]) && find_ws(s) >= 0 ==> ws_tokens(s) =~= seq![
            s.take(find_ws(s)),
        ] + ws_tokens(s.skip(find_ws(s))),
    decreases s.len(),
{
    lemma_find_ws(s);
    if s.len() == 0 || is_ws(s[0]) {
    } else {
        let df = s.drop_first();
        lemma_ws_tokens_head(df);
        lemma_ws_tokens_len(df);
        lemma_find_ws(df);
        let f = find_ws(s);
        if f == -1 {
            if s.len() >= 2 {
                assert(find_ws(df) == -1);
                assert(seq![s[0]] + df =~= s);
            } else {
                assert(s.drop_first().len() == 0);
                assert(ws_tokens(s.drop_first()) =~= Seq::<Seq<u8>>::empty());
                assert(ws_tokens(s) == seq![seq![s[0]]] + ws_tokens(s.drop_first()));
                assert(seq![s[0]] =~= s);
                assert(ws_tokens(s) =~= seq![s]);
            }
        } else if s.len() >= 2 && !is_ws(s[1]) {
            assert(find_ws(df) == f - 1);
            assert(seq![s[0]] + df.take(f - 1) =~= s.take(f));
            assert(df.skip(f - 1) =~= s.skip(f));
        } else {
            // the token is the single head byte: s[1] is whitespace
            assert(f == 1);
            assert(seq![s[0]] =~= s.take(1));
            assert(df =~= s.skip(1));
        }
    }
}

/// The whitespace-separated tokens of `s`.
pub fn tokenize_ws(s: &Vec<u8>) -> (r: Vec<Vec<u8>>)
    ensures
        r@.len() == ws_tokens(s@).len(),
        forall|i: int| 0 <= i < r@.len() ==> r@[i]@ == ws_tokens(s@)[i],
    decreases s@.len(),
{
    if s.len() == 0 {
        return Vec::new();
    }
    if byte_is_ws(s[0]) {
        let tail = subvec(s, 1, s.len());
        proof {
            assert(tail@ =~= s@.drop_first());
        }
        return tokenize_ws(&tail);
    }
    proof {
        lemma_ws_tokens_head(s@);
    }
    match find_ws_in(s) {
        None => {
            let mut r: Vec<Vec<u8>> = Vec::new();
            r.push(subvec(s, 0, s.len()));
            proof {
                assert(s@.subrange(0, s@.len() as int) =~= s@);
            }
            r
        },
        Some(i) => {
            proof {
                lemma_find_ws(s@);
            }
            let head = subvec(s, 0, i);
            let tail = subvec(s, i, s.len());
            let mut rest = tokenize_ws(&tail);
            rest.insert(0, head);
            proof {
                assert(tail@ =~= s@.skip(i as int));
                assert(head@ =~= s@.take(i as int));
            }
            rest
        },
    }
}

/// `s` begins with `p`.
pub open spec fn has_prefix(s: Seq<u8>, p: Seq<u8>) -> bool {
    s.len() >= p.len() && s.take(p.len() as int) == p
}

/// Whether `s` begins with `p`.
pub fn starts_with(s: &Vec<u8>, p: &Vec<u8>) -> (r: bool)
    ensures
        r == has_prefix(s@, p@),
{
    if s.len() < p.len() {
        assert(!has_prefix(s@, p@));
        return false;
    }
    let mut i: usize = 0;
    while i < p.len()
        invariant
            0 <= i <= p@.len() <= s@.len(),
            forall|j: int| 0 <= j < i ==> s@[j] == p@[j],
        decreases p@.len() - i,
    {
        if s[i] != p[i] {
            assert(s@.take(p@.len() as int)[i as int] != p@[i as int]);
            return false;
        }
        i = i + 1;
    }
    proof {
        assert(s@.take(p@.len() as int) =~= p@);
    }
    true
}

/// `s` without leading whitespace.
pub open spec fn trim_front(s: Seq<u8>) -> Seq<u8>
    decreases s.len(),
{
    if s.len() > 0 && is_ws(s[0]) {
        trim_front(s.drop_first())
    } else {
        s
    }
}

/// `s` without trailing whitespace.
pub open spec fn trim_back(s: Seq<u8>) -> Seq<u8>
    decreases s.len(),
{
    if s.len() > 0 && is_ws(s.last()) {
        trim_back(s.drop_last())
    } else {
        s
    }
}

/// `s` without surrounding whitespace.
pub open spec fn trim_bytes(s: Seq<u8>) -> Seq<u8> {
    trim_back(trim_front(s))
}

/// Strips surrounding whitespace.
pub fn trim(s: &Vec<u8>) -> (r: Vec<u8>)
    ensures
        r@ == trim_bytes(s@),
{
    proof {
        assert(s@.skip(0) =~= s@);
    }
    let mut start: usize = 0;
    while start < s.len() && byte_is_ws(s[start])
        invariant
            0 <= start <= s@.len(),
            trim_front(s@.skip(start as int)) == trim_front(s@),
        decreases s@.len() - start,
    {
        proof {
            assert(s@.skip(start as int).drop_first() =~= s@.skip(start + 1));
        }
        start = start + 1;
    }
    proof {
        assert(trim_front(s@) == s@.skip(start as int));
    }
    let mut end: usize = s.len();
    while end > start && byte_is_ws(s[end - 1])
        invariant
            start <= end <= s@.len(),
            trim_back(s@.subrange(start as int, end as int)) == trim_back(s@.skip(start as int)),
        decreases end,
    {
        proof {
            assert(s@.subrange(start as int, end as int).drop_last() =~= s@.subrange(
                start as int,
                end - 1,
            ));
        }
        end = end - 1;
    }
    proof {
        assert(s@.skip(start as int) =~= s@.subrange(start as int, s@.len() as int));
        assert(trim_back(s@.subrange(start as int, end as int)) == s@.subrange(
            start as int,
            end as int,
        ));
    }
    subvec(s, start, end)
}

/// The decimal digits of `n`, most significant first, no leading zeros
/// (a single `0` for zero).
pub open spec fn dec_rep(n: nat) -> Seq<u8>
    decreases n,
{
    if n < 10 {
        seq![(48 + n) as u8]
    } else {
        dec_rep(n / 10).push((48 + n % 10) as u8)
    }
}

/// Formats `n` in decimal.
pub fn u64_to_dec(n: u64) -> (r: Vec<u8>)
    ensures
        r@ == dec_rep(n as nat),
    decreases n,
{
    if n < 10 {
        let mut r: Vec<u8> = Vec::new();
        r.push(48 + n as u8);
        proof {
            assert(r@ =~= dec_rep(n as nat));
        }
        r
    } else {
        let mut r = u64_to_dec(n / 10);
        r.push(48 + (n % 10) as u8);
        r
    }
}

/// The number a run of decimal digits denotes, most significant first.
pub open spec fn dec_value(s: Seq<u8>) -> nat
    decreases s.len(),
{
    if s.len() == 0 {
        0
    } else {
        dec_value(s.drop_last()) * 10 + (s.last() - 48) as nat
    }
}

proof fn lemma_dec_value_take_le(s: Seq<u8>, i: int)
    requires
        all_digits(s),
        0 <= i <= s.len(),
    ensures
        dec_value(s.take(i)) <= dec_value(s),
    decreases s.len(),
{
    if i < s.len() {
        assert(s.drop_last() =~= s.take(s.len() - 1));
        assert(all_digits(s.drop_last()));
        assert(s.take(i) =~= s.drop_last().take(i));
        lemma_dec_value_take_le(s.drop_last(), i);
        assert(dec_value(s) == dec_value(s.drop_last()) * 10 + (s.last() - 48) as nat);
        assert(dec_value(s.drop_last()) * 10 >= dec_value(s.drop_last())) by (nonlinear_arith);
    } else {
        assert(s.take(i) =~= s);
    }
}

/// Reads a decimal number.  Succeeds exactly on non-empty digit runs
/// whose value fits in a `u64`.
pub fn parse_dec_u64(s: &Vec<u8>) -> (r: Option<u64>)
    ensures
        r is Some <==> is_pid_bytes(s@) && dec_value(s@) <= u64::MAX,
        r matches Some(v) ==> v == dec_value(s@),
{
    if s.len() == 0 {
        return None;
    }
    let mut acc: u64 = 0;
    let mut i: usize = 0;
    while i < s.len()
        invariant
            0 < s@.len(),
            0 <= i <= s@.len(),
            all_digits(s@.take(i as int)),
            acc == dec_value(s@.take(i as int)),
        decreases s@.len() - i,
    {
        let b = s[i];
        if !byte_is_digit(b) {
            return None;
        }
        let d: u64 = (b - 48) as u64;
        if acc > (u64::MAX - d) / 10 {
            proof {
                assert(acc * 10 + d > u64::MAX) by (nonlinear_arith)
                    requires
                        acc > (u64::MAX - d) / 10,
                        d <= 9,
                ;
                assert(s@.take(i + 1).drop_last() =~= s@.take(i as int));
                assert(dec_value(s@.take(i + 1)) > u64::MAX);
                if is_pid_bytes(s@) {
                    lemma_dec_value_take_le(s@, i + 1);
                }
            }
            return None;
        }
        proof {
            assert(acc * 10 + d <= u64::MAX) by (nonlinear_arith)
                requires
                    acc <= (u64::MAX - d) / 10,
                    d <= 9,
            ;
            assert(s@.take(i + 1).drop_last() =~= s@.take(i as int));
        }
        acc = acc * 10 + d;
        i = i + 1;
    }
    proof {
        assert(s@.take(s@.len() as int) =~= s@);
    }
    Some(acc)
}

} // verus!
