//! Small shared helpers: random credential strings, character/byte string
//! conversions, and the `{{url}}` template renderer.

use vstd::prelude::*;
use vstd::utf8::{decode_utf8, encode_utf8, valid_utf8};
use rand::Rng;

verus! {

/// An ASCII letter or digit: the alphabet both the ephemeral tokens and the
/// multipart boundary ids are drawn from.
pub open spec fn is_alnum(c: char) -> bool {
    ('a' as u32) <= (c as u32) <= ('z' as u32) || ('A' as u32) <= (c as u32) <= ('Z' as u32) || (
    '0' as u32) <= (c as u32) <= ('9' as u32)
}

/// Every character of `s` is an ASCII letter or digit.
pub open spec fn all_alnum(s: Seq<char>) -> bool {
    forall|i: int| 0 <= i < s.len() ==> is_alnum(#[trigger] s[i])
}

/// Relies on `rand::thread_rng` sampling the `Alphanumeric` distribution,
/// which yields bytes from the 62-character ASCII letter/digit alphabet.
/// The result is random: nothing relates two calls on the same length.
#[verifier::external_body]
pub(crate) fn random_alphanumeric(len: usize) -> (r: String)
    ensures
        r@.len() == len,
        all_alnum(r@),
{
    rand::thread_rng().sample_iter(&rand::distributions::Alphanumeric).take(len).map(
        char::from,
    ).collect()
}

/// Number of characters in every credential string (ephemeral tokens and
/// session tokens). 32 characters over a 62-symbol alphabet carry more than
/// 190 bits of entropy, comfortably above the required 128; on that budget
/// no collision-retry loop is needed.
pub const CREDENTIAL_LEN: usize = 32;

/// A fresh random credential string: `CREDENTIAL_LEN` ASCII letters/digits.
pub fn rand_string() -> (r: String)
    ensures
        r@.len() == CREDENTIAL_LEN,
        all_alnum(r@),
{
    random_alphanumeric(CREDENTIAL_LEN)
}

/// Relies on `String`'s `FromIterator<char>`: collecting yields exactly the
/// characters of the iterator, in order.
#[verifier::external_body]
pub(crate) fn string_from_chars(chars: Vec<char>) -> (r: String)
    ensures
        r@ == chars@,
{
    chars.into_iter().collect()
}

/// Relies on `String::from_utf8`: it succeeds exactly on valid UTF-8 input
/// and returns the string those bytes encode.
#[verifier::external_body]
pub(crate) fn bytes_to_string(bytes: Vec<u8>) -> (r: Option<String>)
    ensures
        r is Some <==> valid_utf8(bytes@),
        r matches Some(s) ==> s@ == decode_utf8(bytes@) && encode_utf8(s@) == bytes@,
{
    match String::from_utf8(bytes) {
        Ok(s) => Some(s),
        Err(_) => None,
    }
}

/// The characters of `s`, as a vector.
pub fn chars_of(s: &str) -> (r: Vec<char>)
    ensures
        r@ == s@,
{
    let n = s.unicode_len();
    let mut v: Vec<char> = Vec::new();
    let mut i: usize = 0;
    while i < n
        invariant
            i <= n,
            n == s@.len(),
            v@ == s@.take(i as int),
        decreases n - i,
    {
        let c = s.get_char(i);
        v.push(c);
        proof {
            assert(s@.take(i + 1) =~= s@.take(i as int).push(s@[i as int]));
        }
        i = i + 1;
    }
    proof {
        assert(s@.take(n as int) =~= s@);
    }
    v
}

/// Two string slices hold the same characters.
pub fn str_eq(a: &str, b: &str) -> (r: bool)
    ensures
        r == (a@ == b@),
{
    let ab = a.as_bytes();
    let bb = b.as_bytes();
    if ab.len() != bb.len() {
        proof {
            if a@ == b@ {
                assert(encode_utf8(a@) == encode_utf8(b@));
            }
        }
        return false;
    }
    let mut i: usize = 0;
    while i < ab.len()
        invariant
            i <= ab@.len(),
            ab@.len() == bb@.len(),
            ab@ == encode_utf8(a@),
            bb@ == encode_utf8(b@),
            forall|j: int| 0 <= j < i ==> ab@[j] == bb@[j],
        decreases ab@.len() - i,
    {
        if ab[i] != bb[i] {
            proof {
                if a@ == b@ {
                    assert(encode_utf8(a@) == encode_utf8(b@));
                }
            }
            return false;
        }
        i = i + 1;
    }
    proof {
        assert(ab@ =~= bb@);
        vstd::utf8::encode_utf8_decode_utf8(a@);
        vstd::utf8::encode_utf8_decode_utf8(b@);
    }
    true
}

/// The placeholder that `render` substitutes the link for.
pub open spec fn url_placeholder() -> Seq<char> {
    seq!['{', '{', 'u', 'r', 'l', '}', '}']
}

/// Left-to-right, non-overlapping replacement of every `{{url}}` in `t` by
/// `url` — the meaning of `render`.
pub open spec fn render_spec(t: Seq<char>, url: Seq<char>) -> Seq<char>
    decreases t.len(),
{
    if t.len() < 7 {
        t
    } else if t.take(7) == url_placeholder() {
        url + render_spec(t.skip(7), url)
    } else {
        seq![t[0]] + render_spec(t.skip(1), url)
    }
}

/// Renders a mail template: substitutes the magic link for every `{{url}}`
/// placeholder in the template text.
pub fn render(template: &str, url: &str) -> (r: String)
    ensures
        r@ == render_spec(template@, url@),
{
    let t = chars_of(template);
    let u = chars_of(url);
    let mut out: Vec<char> = Vec::new();
    let mut i: usize = 0;
    proof {
        assert(t@.skip(0) =~= t@);
        assert(out@ + render_spec(t@, url@) =~= render_spec(t@, url@));
    }
    while i < t.len()
        invariant
            i <= t@.len(),
            t@ == template@,
            u@ == url@,
            render_spec(template@, url@) == out@ + render_spec(t@.skip(i as int), url@),
        decreases t@.len() - i,
    {
        let ghost rest = t@.skip(i as int);
        if t.len() - i >= 7 && t[i] == '{' && t[i + 1] == '{' && t[i + 2] == 'u' && t[i + 3] == 'r'
            && t[i + 4] == 'l' && t[i + 5] == '}' && t[i + 6] == '}' {
            proof {
                assert(rest.take(7) =~= url_placeholder());
                assert(rest.skip(7) =~= t@.skip(i + 7));
            }
            let ghost out0 = out@;
            let mut j: usize = 0;
            while j < u.len()
                invariant
                    j <= u@.len(),
                    out@ == out0 + u@.take(j as int),
                decreases u@.len() - j,
            {
                let c = u[j];
                out.push(c);
                proof {
                    assert(u@.take(j + 1) =~= u@.take(j as int).push(u@[j as int]));
                }
                j = j + 1;
            }
            proof {
                assert(u@.take(u@.len() as int) =~= u@);
            }
            i = i + 7;
        } else {
            proof {
                if rest.len() >= 7 && rest.take(7) == url_placeholder() {
                    assert(rest.take(7)[0] == t@[i as int]);
                    assert(rest.take(7)[1] == t@[i + 1]);
                    assert(rest.take(7)[2] == t@[i + 2]);
                    assert(rest.take(7)[3] == t@[i + 3]);
                    assert(rest.take(7)[4] == t@[i + 4]);
                    assert(rest.take(7)[5] == t@[i + 5]);
                    assert(rest.take(7)[6] == t@[i + 6]);
                    assert(false);
                }
                assert(rest.skip(1) =~= t@.skip(i + 1));
                assert(seq![rest[0]] =~= t@.subrange(i as int, i + 1));
            }
            let c = t[i];
            out.push(c);
            i = i + 1;
        }
    }
    proof {
        assert(t@.skip(t@.len() as int) =~= Seq::<char>::empty());
    }
    string_from_chars(out)
}

} // verus!
