//! Decoding of `application/x-www-form-urlencoded` text: the query strings
//! and the authenticate request body.
//!
//! The decoding rules, stated once and shared by every spec below: the
//! input splits at `&` into segments, empty segments are dropped; each
//! segment splits at its first `=` into key and value (no `=`: the whole
//! segment is the key and the value is empty); in both halves `+` decodes
//! to a space and `%` followed by two hex digits decodes to that byte,
//! while a `%` not followed by two hex digits stays literal. Decoded halves
//! are kept as bytes; where text is needed they must be valid UTF-8 — a
//! pair that is not is dropped from a query map, and an email value that is
//! not is rejected.

use vstd::prelude::*;
use vstd::utf8::{decode_utf8, valid_utf8};
use vstd::utf8::encode_utf8;
use crate::utils::{bytes_to_string, str_eq};

verus! {

/// An ASCII hex digit.
pub open spec fn is_hex_digit(b: u8) -> bool {
    48 <= b <= 57 || 65 <= b <= 70 || 97 <= b <= 102
}

/// The value of an ASCII hex digit.
pub open spec fn hex_val(b: u8) -> u8 {
    if 48 <= b <= 57 {
        (b - 48) as u8
    } else if 65 <= b <= 70 {
        (b - 55) as u8
    } else {
        (b - 87) as u8
    }
}

/// Percent- and plus-decoding of one key or value.
pub open spec fn decode_component(s: Seq<u8>) -> Seq<u8>
    decreases s.len(),
{
    if s.len() == 0 {
        Seq::<u8>::empty()
    } else if s[0] == 37 && s.len() >= 3 && is_hex_digit(s[1]) && is_hex_digit(s[2]) {
        seq![(16 * hex_val(s[1]) + hex_val(s[2])) as u8] + decode_component(s.skip(3))
    } else if s[0] == 43 {
        seq![32u8] + decode_component(s.skip(1))
    } else {
        seq![s[0]] + decode_component(s.skip(1))
    }
}

/// `i` is the position of the first `b` in `s`.
pub open spec fn is_first_index(s: Seq<u8>, b: u8, i: int) -> bool {
    0 <= i < s.len() && s[i] == b && forall|j: int| 0 <= j < i ==> s[j] != b
}

/// The position of the first `b` in `s`, or `s.len()` when `s` has none.
pub open spec fn first_index(s: Seq<u8>, b: u8) -> int {
    if exists|i: int| is_first_index(s, b, i) {
        choose|i: int| is_first_index(s, b, i)
    } else {
        s.len() as int
    }
}

/// The key/value pair one segment decodes to.
pub open spec fn pair_of(seg: Seq<u8>) -> (Seq<u8>, Seq<u8>) {
    let e = first_index(seg, 61);
    if e < seg.len() {
        (decode_component(seg.take(e)), decode_component(seg.skip(e + 1)))
    } else {
        (decode_component(seg), Seq::<u8>::empty())
    }
}

/// All pairs of a form-encoded input, in order, as decoded bytes.
pub open spec fn raw_pairs(s: Seq<u8>) -> Seq<(Seq<u8>, Seq<u8>)>
    decreases s.len(),
{
    if s.len() == 0 {
        Seq::<(Seq<u8>, Seq<u8>)>::empty()
    } else {
        let i = first_index(s, 38);
        let head = if i > 0 {
            seq![pair_of(s.take(i))]
        } else {
            Seq::<(Seq<u8>, Seq<u8>)>::empty()
        };
        if i < s.len() {
            head + raw_pairs(s.skip(i + 1))
        } else {
            head
        }
    }
}

/// The pairs whose two halves are valid UTF-8, as text, in order.
pub open spec fn decoded_pairs_of(ps: Seq<(Seq<u8>, Seq<u8>)>) -> Seq<(Seq<char>, Seq<char>)>
    decreases ps.len(),
{
    if ps.len() == 0 {
        Seq::<(Seq<char>, Seq<char>)>::empty()
    } else {
        (if valid_utf8(ps[0].0) && valid_utf8(ps[0].1) {
            seq![(decode_utf8(ps[0].0), decode_utf8(ps[0].1))]
        } else {
            Seq::<(Seq<char>, Seq<char>)>::empty()
        }) + decoded_pairs_of(ps.skip(1))
    }
}

/// The query map a form-encoded input denotes.
pub open spec fn form_pairs(s: Seq<u8>) -> Seq<(Seq<char>, Seq<char>)> {
    decoded_pairs_of(raw_pairs(s))
}

/// The value the map binds `key` to: of several pairs with the same key,
/// the last one wins.
pub open spec fn lookup_pair(pairs: Seq<(Seq<char>, Seq<char>)>, key: Seq<char>) -> Option<
    Seq<char>,
>
    decreases pairs.len(),
{
    if pairs.len() == 0 {
        None
    } else if pairs.last().0 == key {
        Some(pairs.last().1)
    } else {
        lookup_pair(pairs.drop_last(), key)
    }
}

/// The views of a vector of string pairs.
pub open spec fn pairs_view(r: Seq<(String, String)>) -> Seq<(Seq<char>, Seq<char>)> {
    r.map_values(|p: (String, String)| (p.0@, p.1@))
}

/// The views of a vector of byte-vector pairs.
pub open spec fn byte_pairs_view(r: Seq<(Vec<u8>, Vec<u8>)>) -> Seq<(Seq<u8>, Seq<u8>)> {
    r.map_values(|p: (Vec<u8>, Vec<u8>)| (p.0@, p.1@))
}

/// A scan that found no earlier hit pins down `first_index`.
proof fn lemma_first_index_from_scan(s: Seq<u8>, b: u8, k: int)
    requires
        0 <= k <= s.len(),
        forall|j: int| 0 <= j < k ==> s[j] != b,
        k < s.len() ==> s[k] == b,
    ensures
        first_index(s, b) == if k < s.len() {
            k
        } else {
            s.len() as int
        },
{
    if k < s.len() {
        assert(is_first_index(s, b, k));
        let c = choose|i: int| is_first_index(s, b, i);
        assert(is_first_index(s, b, c));
        if c < k {
            assert(s[c] != b);
        }
        if k < c {
            assert(s[k] != b);
        }
    } else {
        if exists|i: int| is_first_index(s, b, i) {
            let c = choose|i: int| is_first_index(s, b, i);
            assert(s[c] != b);
        }
    }
}

/// The position of the first `b` in `s[from..to]`, or `to` if there is
/// none there.
fn find_byte(s: &[u8], from: usize, to: usize, b: u8) -> (r: usize)
    requires
        from <= to <= s@.len(),
    ensures
        from <= r <= to,
        forall|j: int| from <= j < r ==> s@[j] != b,
        r < to ==> s@[r as int] == b,
{
    let mut i: usize = from;
    while i < to
        invariant
            from <= i <= to <= s@.len(),
            forall|j: int| from <= j < i ==> s@[j] != b,
        decreases to - i,
    {
        if s[i] == b {
            return i;
        }
        i = i + 1;
    }
    to
}

/// The value of a hex digit byte.
fn hex_val_exec(b: u8) -> (r: u8)
    requires
        is_hex_digit(b),
    ensures
        r == hex_val(b),
{
    if 48 <= b && b <= 57 {
        b - 48
    } else if 65 <= b && b <= 70 {
        b - 55
    } else {
        b - 87
    }
}

/// Percent- and plus-decodes `s[from..to]`.
fn percent_decode(s: &[u8], from: usize, to: usize) -> (r: Vec<u8>)
    requires
        from <= to <= s@.len(),
    ensures
        r@ == decode_component(s@.subrange(from as int, to as int)),
{
    let ghost seg = s@.subrange(from as int, to as int);
    let mut out: Vec<u8> = Vec::new();
    let mut i: usize = from;
    proof {
        assert(seg.skip(0) =~= seg);
        assert(out@ + seg.skip(0) =~= seg);
    }
    while i < to
        invariant
            from <= i <= to <= s@.len(),
            seg == s@.subrange(from as int, to as int),
            decode_component(seg) == out@ + decode_component(seg.skip(i - from)),
        decreases to - i,
    {
        let ghost rest = seg.skip(i - from);
        proof {
            assert(rest[0] == s@[i as int]);
            if i + 2 < to {
                assert(rest[1] == s@[i + 1]);
                assert(rest[2] == s@[i + 2]);
            }
        }
        if s[i] == 37 && to - i >= 3 && is_hex_exec(s[i + 1]) && is_hex_exec(s[i + 2]) {
            let v = 16 * hex_val_exec(s[i + 1]) + hex_val_exec(s[i + 2]);
            out.push(v);
            proof {
                assert(rest.skip(3) =~= seg.skip(i + 3 - from));
                assert(decode_component(rest) == seq![v] + decode_component(rest.skip(3)));
                assert(out@ + decode_component(rest.skip(3)) =~= decode_component(seg));
            }
            i = i + 3;
        } else if s[i] == 43 {
            out.push(32);
            proof {
                assert(rest.skip(1) =~= seg.skip(i + 1 - from));
                assert(out@ + decode_component(rest.skip(1)) =~= decode_component(seg));
            }
            i = i + 1;
        } else {
            let v = s[i];
            out.push(v);
            proof {
                assert(rest.skip(1) =~= seg.skip(i + 1 - from));
                assert(out@ + decode_component(rest.skip(1)) =~= decode_component(seg));
            }
            i = i + 1;
        }
    }
    proof {
        assert(seg.skip(to - from) =~= Seq::<u8>::empty());
        assert(out@ =~= decode_component(seg));
    }
    out
}

/// Whether a byte is an ASCII hex digit.
fn is_hex_exec(b: u8) -> (r: bool)
    ensures
        r == is_hex_digit(b),
{
    (48 <= b && b <= 57) || (65 <= b && b <= 70) || (97 <= b && b <= 102)
}

/// Splits a form-encoded input into its decoded key/value byte pairs.
pub fn parse_form(body: &[u8]) -> (r: Vec<(Vec<u8>, Vec<u8>)>)
    ensures
        byte_pairs_view(r@) == raw_pairs(body@),
{
    let mut out: Vec<(Vec<u8>, Vec<u8>)> = Vec::new();
    let mut pos: usize = 0;
    proof {
        assert(body@.skip(0) =~= body@);
        assert(byte_pairs_view(out@) + raw_pairs(body@.skip(0)) =~= raw_pairs(body@));
    }
    while pos < body.len()
        invariant
            pos <= body@.len(),
            raw_pairs(body@) == byte_pairs_view(out@) + raw_pairs(body@.skip(pos as int)),
        decreases body@.len() - pos,
    {
        let ghost rest = body@.skip(pos as int);
        let amp = find_byte(body, pos, body.len(), 38);
        proof {
            assert(forall|j: int|
                0 <= j < amp - pos ==> rest[j] == body@[pos + j] && rest[j] != 38);
            if amp < body@.len() {
                assert(rest[amp - pos] == 38);
            }
            lemma_first_index_from_scan(rest, 38, amp - pos);
        }
        if amp > pos {
            let ghost seg = rest.take(amp - pos);
            proof {
                assert(seg =~= body@.subrange(pos as int, amp as int));
            }
            let eq = find_byte(body, pos, amp, 61);
            proof {
                assert(forall|j: int|
                    0 <= j < eq - pos ==> seg[j] == body@[pos + j] && seg[j] != 61);
                if eq < amp {
                    assert(seg[eq - pos] == 61);
                }
                lemma_first_index_from_scan(seg, 61, eq - pos);
            }
            let key: Vec<u8>;
            let val: Vec<u8>;
            if eq < amp {
                key = percent_decode(body, pos, eq);
                val = percent_decode(body, eq + 1, amp);
                proof {
                    assert(seg.take(eq - pos) =~= body@.subrange(pos as int, eq as int));
                    assert(seg.skip(eq - pos + 1) =~= body@.subrange(eq + 1, amp as int));
                }
            } else {
                key = percent_decode(body, pos, amp);
                val = Vec::new();
                proof {
                    assert(seg =~= body@.subrange(pos as int, amp as int));
                }
            }
            let ghost pv = (key@, val@);
            let ghost out0 = byte_pairs_view(out@);
            out.push((key, val));
            proof {
                assert(pv == pair_of(seg));
                assert(byte_pairs_view(out@) =~= out0.push(pv));
            }
        }
        let next = if amp < body.len() {
            amp + 1
        } else {
            amp
        };
        proof {
            if amp < body@.len() {
                assert(rest.skip(amp - pos + 1) =~= body@.skip(amp + 1));
            } else {
                assert(body@.skip(amp as int) =~= Seq::<u8>::empty());
                assert(raw_pairs(body@.skip(amp as int)) =~= Seq::<(Seq<u8>, Seq<u8>)>::empty());
            }
            assert(raw_pairs(body@) == byte_pairs_view(out@) + raw_pairs(body@.skip(next as int)));
        }
        pos = next;
    }
    proof {
        assert(body@.skip(pos as int) =~= Seq::<u8>::empty());
        assert(byte_pairs_view(out@) =~= raw_pairs(body@));
    }
    out
}

/// Decodes a query string into its map: the key/value pairs, as text, in
/// order, keeping only pairs both halves of which are valid UTF-8.
pub fn get_query_map(query: &str) -> (r: Vec<(String, String)>)
    ensures
        pairs_view(r@) == form_pairs(encode_utf8(query@)),
{
    let bytes = query.as_bytes();
    let raw = parse_form(bytes);
    let mut out: Vec<(String, String)> = Vec::new();
    let mut i: usize = 0;
    proof {
        assert(byte_pairs_view(raw@).skip(0) =~= byte_pairs_view(raw@));
        assert(pairs_view(out@) + decoded_pairs_of(byte_pairs_view(raw@).skip(0))
            =~= decoded_pairs_of(byte_pairs_view(raw@)));
    }
    while i < raw.len()
        invariant
            i <= raw@.len(),
            form_pairs(encode_utf8(query@)) == pairs_view(out@) + decoded_pairs_of(
                byte_pairs_view(raw@).skip(i as int),
            ),
        decreases raw@.len() - i,
    {
        let ghost rest = byte_pairs_view(raw@).skip(i as int);
        proof {
            assert(rest[0] == byte_pairs_view(raw@)[i as int]);
            assert(rest.skip(1) =~= byte_pairs_view(raw@).skip(i + 1));
        }
        let kv = bytes_to_string(vstd::slice::slice_to_vec(raw[i].0.as_slice()));
        let vv = bytes_to_string(vstd::slice::slice_to_vec(raw[i].1.as_slice()));
        match (kv, vv) {
            (Some(k), Some(v)) => {
                let ghost pv = (k@, v@);
                let ghost out0 = pairs_view(out@);
                out.push((k, v));
                proof {
                    assert(pairs_view(out@) =~= out0.push(pv));
                }
            },
            _ => {},
        }
        i = i + 1;
    }
    proof {
        assert(byte_pairs_view(raw@).skip(raw@.len() as int) =~= Seq::<(Seq<u8>, Seq<u8>)>::empty());
        assert(pairs_view(out@) =~= form_pairs(encode_utf8(query@)));
    }
    out
}

/// Why an authenticate body failed to decode.
#[derive(Debug, PartialEq, Eq)]
pub enum DecodeError {
    /// No `email` field in the body.
    MissingEmail,
    /// More than one `email` field in the body.
    DuplicateEmail,
    /// The `email` value does not decode to text.
    InvalidText,
}

/// The values bound to the key `email`, in order.
pub open spec fn email_values(ps: Seq<(Seq<u8>, Seq<u8>)>) -> Seq<Seq<u8>>
    decreases ps.len(),
{
    if ps.len() == 0 {
        Seq::<Seq<u8>>::empty()
    } else {
        (if ps[0].0 == encode_utf8("email"@) {
            seq![ps[0].1]
        } else {
            Seq::<Seq<u8>>::empty()
        }) + email_values(ps.skip(1))
    }
}

/// The views of a vector of byte vectors.
pub open spec fn byte_vecs_view(s: Seq<Vec<u8>>) -> Seq<Seq<u8>> {
    s.map_values(|v: Vec<u8>| v@)
}

/// Two byte slices hold the same bytes.
fn bytes_eq(a: &[u8], b: &[u8]) -> (r: bool)
    ensures
        r == (a@ == b@),
{
    if a.len() != b.len() {
        return false;
    }
    let mut i: usize = 0;
    while i < a.len()
        invariant
            i <= a@.len(),
            a@.len() == b@.len(),
            forall|j: int| 0 <= j < i ==> a@[j] == b@[j],
        decreases a@.len() - i,
    {
        if a[i] != b[i] {
            return false;
        }
        i = i + 1;
    }
    proof {
        assert(a@ =~= b@);
    }
    true
}

/// Decodes an authenticate request body to the email address it carries.
/// The body must bind `email` exactly once, to a value that decodes to
/// text: no binding, more than one, and a value that is not valid UTF-8
/// each yield the matching error, and nothing else does.
pub fn decode_login_email(body: &[u8]) -> (r: Result<String, DecodeError>)
    ensures
        ({
            let vs = email_values(raw_pairs(body@));
            match r {
                Ok(e) => vs.len() == 1 && valid_utf8(vs[0]) && e@ == decode_utf8(vs[0]),
                Err(DecodeError::MissingEmail) => vs.len() == 0,
                Err(DecodeError::DuplicateEmail) => vs.len() >= 2,
                Err(DecodeError::InvalidText) => vs.len() == 1 && !valid_utf8(vs[0]),
            }
        }),
{
    let raw = parse_form(body);
    let mut found: Vec<Vec<u8>> = Vec::new();
    let mut i: usize = 0;
    proof {
        assert(byte_pairs_view(raw@).skip(0) =~= byte_pairs_view(raw@));
        assert(byte_vecs_view(found@) + email_values(byte_pairs_view(raw@).skip(0))
            =~= email_values(byte_pairs_view(raw@)));
    }
    while i < raw.len()
        invariant
            i <= raw@.len(),
            email_values(raw_pairs(body@)) == byte_vecs_view(found@) + email_values(
                byte_pairs_view(raw@).skip(i as int),
            ),
        decreases raw@.len() - i,
    {
        let ghost rest = byte_pairs_view(raw@).skip(i as int);
        proof {
            assert(rest[0] == byte_pairs_view(raw@)[i as int]);
            assert(rest.skip(1) =~= byte_pairs_view(raw@).skip(i + 1));
        }
        if bytes_eq(raw[i].0.as_slice(), "email".as_bytes()) {
            let v = vstd::slice::slice_to_vec(raw[i].1.as_slice());
            let ghost found0 = byte_vecs_view(found@);
            found.push(v);
            proof {
                assert(byte_vecs_view(found@) =~= found0.push(rest[0].1));
            }
        }
        i = i + 1;
    }
    proof {
        assert(byte_pairs_view(raw@).skip(raw@.len() as int) =~= Seq::<(Seq<u8>, Seq<u8>)>::empty());
        assert(byte_vecs_view(found@) =~= email_values(raw_pairs(body@)));
    }
    if found.len() == 0 {
        Err(DecodeError::MissingEmail)
    } else if found.len() >= 2 {
        Err(DecodeError::DuplicateEmail)
    } else {
        let v = found.remove(0);
        match bytes_to_string(v) {
            Some(s) => Ok(s),
            None => Err(DecodeError::InvalidText),
        }
    }
}

/// Looks `key` up in a decoded query map; of several pairs with the same
/// key, the last one wins.
pub fn query_param(pairs: &Vec<(String, String)>, key: &str) -> (r: Option<String>)
    ensures
        match r {
            Some(v) => lookup_pair(pairs_view(pairs@), key@) == Some(v@),
            None => lookup_pair(pairs_view(pairs@), key@) is None,
        },
{
    let mut i: usize = pairs.len();
    proof {
        assert(pairs_view(pairs@).take(pairs@.len() as int) =~= pairs_view(pairs@));
    }
    while i > 0
        invariant
            i <= pairs@.len(),
            lookup_pair(pairs_view(pairs@), key@) == lookup_pair(
                pairs_view(pairs@).take(i as int),
                key@,
            ),
        decreases i,
    {
        let ghost pref = pairs_view(pairs@).take(i as int);
        proof {
            assert(pref.last() == pairs_view(pairs@)[i - 1]);
            assert(pref.drop_last() =~= pairs_view(pairs@).take(i - 1));
        }
        if str_eq(pairs[i - 1].0.as_str(), key) {
            return Some(pairs[i - 1].1.clone());
        }
        i = i - 1;
    }
    proof {
        assert(pairs_view(pairs@).take(0) =~= Seq::<(Seq<char>, Seq<char>)>::empty());
    }
    None
}

} // verus!
