//! Reading the session token out of a `Cookie` request header.
//!
//! The gateway sets exactly one cookie, `<name>=<token>`, so reading is
//! deliberately simple: the first `;`-separated piece of the header is the
//! cookie pair (later pieces — other cookies or attributes — are ignored),
//! it splits at its first `=` into name and value, both are trimmed of
//! ASCII spaces and tabs, and the value is returned exactly when the name
//! is the configured, non-empty cookie name. A header without `=` in its
//! first piece names no cookie.

use vstd::prelude::*;
use crate::utils::{chars_of, string_from_chars};

verus! {

/// A space or tab, the whitespace trimmed around cookie names and values.
pub open spec fn is_cookie_ws(c: char) -> bool {
    c == ' ' || c == '\t'
}

/// `i` is the position of the first `c` in `s`.
pub open spec fn is_first_char_index(s: Seq<char>, c: char, i: int) -> bool {
    0 <= i < s.len() && s[i] == c && forall|j: int| 0 <= j < i ==> s[j] != c
}

/// The position of the first `c` in `s`, or `s.len()` when `s` has none.
pub open spec fn first_char_index(s: Seq<char>, c: char) -> int {
    if exists|i: int| is_first_char_index(s, c, i) {
        choose|i: int| is_first_char_index(s, c, i)
    } else {
        s.len() as int
    }
}

/// `s` without its leading whitespace.
pub open spec fn trim_front(s: Seq<char>) -> Seq<char>
    decreases s.len(),
{
    if s.len() > 0 && is_cookie_ws(s[0]) {
        trim_front(s.skip(1))
    } else {
        s
    }
}

/// `s` without its trailing whitespace.
pub open spec fn trim_back(s: Seq<char>) -> Seq<char>
    decreases s.len(),
{
    if s.len() > 0 && is_cookie_ws(s.last()) {
        trim_back(s.drop_last())
    } else {
        s
    }
}

/// `s` without leading and trailing whitespace.
pub open spec fn trim(s: Seq<char>) -> Seq<char> {
    trim_back(trim_front(s))
}

/// The value the header binds the cookie `name` to, if any.
pub open spec fn cookie_value_spec(header: Seq<char>, name: Seq<char>) -> Option<Seq<char>> {
    let pair = header.take(first_char_index(header, ';'));
    let e = first_char_index(pair, '=');
    if e < pair.len() {
        let n = trim(pair.take(e));
        let v = trim(pair.skip(e + 1));
        if n.len() > 0 && n == name {
            Some(v)
        } else {
            None
        }
    } else {
        None
    }
}

proof fn lemma_first_char_index_from_scan(s: Seq<char>, c: char, k: int)
    requires
        0 <= k <= s.len(),
        forall|j: int| 0 <= j < k ==> s[j] != c,
        k < s.len() ==> s[k] == c,
    ensures
        first_char_index(s, c) == if k < s.len() {
            k
        } else {
            s.len() as int
        },
{
    if k < s.len() {
        assert(is_first_char_index(s, c, k));
        let m = choose|i: int| is_first_char_index(s, c, i);
        assert(is_first_char_index(s, c, m));
        if m < k {
            assert(s[m] != c);
        }
        if k < m {
            assert(s[k] != c);
        }
    } else {
        if exists|i: int| is_first_char_index(s, c, i) {
            let m = choose|i: int| is_first_char_index(s, c, i);
            assert(s[m] != c);
        }
    }
}

proof fn lemma_trim_front(s: Seq<char>, k: int)
    requires
        0 <= k <= s.len(),
        forall|j: int| 0 <= j < k ==> is_cookie_ws(s[j]),
        k < s.len() ==> !is_cookie_ws(s[k]),
    ensures
        trim_front(s) == s.skip(k),
    decreases k,
{
    if k > 0 {
        assert(is_cookie_ws(s[0]));
        lemma_trim_front(s.skip(1), k - 1);
        assert(s.skip(1).skip(k - 1) =~= s.skip(k));
    } else {
        assert(s.skip(0) =~= s);
    }
}

proof fn lemma_trim_back(s: Seq<char>, m: int)
    requires
        0 <= m <= s.len(),
        forall|j: int| m <= j < s.len() ==> is_cookie_ws(s[j]),
        m > 0 ==> !is_cookie_ws(s[m - 1]),
    ensures
        trim_back(s) == s.take(m),
    decreases s.len(),
{
    if m < s.len() {
        assert(is_cookie_ws(s.last()));
        lemma_trim_back(s.drop_last(), m);
        assert(s.drop_last().take(m) =~= s.take(m));
    } else {
        assert(s.take(s.len() as int) =~= s);
    }
}

/// The bounds of the whitespace-trimmed middle of `h[lo..hi)`.
fn scan_trim(h: &Vec<char>, lo: usize, hi: usize) -> (r: (usize, usize))
    requires
        lo <= hi <= h@.len(),
    ensures
        lo <= r.0 <= r.1 <= hi,
        forall|j: int| lo <= j < r.0 ==> is_cookie_ws(h@[j]),
        forall|j: int| r.1 <= j < hi ==> is_cookie_ws(h@[j]),
        r.0 < r.1 ==> !is_cookie_ws(h@[r.0 as int]) && !is_cookie_ws(h@[r.1 - 1]),
        r.0 == r.1 ==> r.0 == hi,
{
    let mut a: usize = lo;
    while a < hi
        invariant
            lo <= a <= hi <= h@.len(),
            forall|j: int| lo <= j < a ==> is_cookie_ws(h@[j]),
        ensures
            lo <= a <= hi <= h@.len(),
            forall|j: int| lo <= j < a ==> is_cookie_ws(h@[j]),
            a < hi ==> !is_cookie_ws(h@[a as int]),
        decreases hi - a,
    {
        let c = h[a];
        if !(c == ' ' || c == '\t') {
            break ;
        }
        a = a + 1;
    }
    if a == hi {
        return (hi, hi);
    }
    let mut b: usize = hi;
    while b > a
        invariant
            lo <= a <= b <= hi <= h@.len(),
            a < hi,
            !is_cookie_ws(h@[a as int]),
            forall|j: int| b <= j < hi ==> is_cookie_ws(h@[j]),
        ensures
            lo <= a <= b <= hi <= h@.len(),
            forall|j: int| b <= j < hi ==> is_cookie_ws(h@[j]),
            b > a ==> !is_cookie_ws(h@[b - 1]),
        decreases b,
    {
        let c = h[b - 1];
        if !(c == ' ' || c == '\t') {
            break ;
        }
        b = b - 1;
    }
    proof {
        if b == a {
            assert(is_cookie_ws(h@[a as int]));
        }
    }
    (a, b)
}

/// Finds the first `c` in `h[lo..hi)`, or `hi` when there is none.
fn find_char(h: &Vec<char>, lo: usize, hi: usize, c: char) -> (r: usize)
    requires
        lo <= hi <= h@.len(),
    ensures
        lo <= r <= hi,
        forall|j: int| lo <= j < r ==> h@[j] != c,
        r < hi ==> h@[r as int] == c,
{
    let mut i: usize = lo;
    while i < hi
        invariant
            lo <= i <= hi <= h@.len(),
            forall|j: int| lo <= j < i ==> h@[j] != c,
        decreases hi - i,
    {
        if h[i] == c {
            return i;
        }
        i = i + 1;
    }
    hi
}

/// Reads the value bound to the cookie `name` out of a `Cookie` header.
pub fn cookie_value(header: &str, name: &str) -> (r: Option<String>)
    ensures
        match r {
            Some(v) => cookie_value_spec(header@, name@) == Some(v@),
            None => cookie_value_spec(header@, name@) is None,
        },
{
    let h = chars_of(header);
    let n = chars_of(name);
    let semi = find_char(&h, 0, h.len(), ';');
    let ghost pair = header@.take(first_char_index(header@, ';'));
    proof {
        lemma_first_char_index_from_scan(header@, ';', semi as int);
        assert(pair =~= h@.subrange(0, semi as int));
    }
    let eq = find_char(&h, 0, semi, '=');
    proof {
        assert(forall|j: int| 0 <= j < eq ==> pair[j] == h@[j] && pair[j] != '=');
        if eq < semi {
            assert(pair[eq as int] == '=');
        }
        lemma_first_char_index_from_scan(pair, '=', eq as int);
    }
    if eq == semi {
        return None;
    }
    let (na, nb) = scan_trim(&h, 0, eq);
    proof {
        assert(pair.take(eq as int) =~= h@.subrange(0, eq as int));
        lemma_trim_front(pair.take(eq as int), na as int);
        assert(pair.take(eq as int).skip(na as int) =~= h@.subrange(na as int, eq as int));
        lemma_trim_back(h@.subrange(na as int, eq as int), nb - na);
        assert(h@.subrange(na as int, eq as int).take(nb - na) =~= h@.subrange(
            na as int,
            nb as int,
        ));
        assert(trim(pair.take(eq as int)) == h@.subrange(na as int, nb as int));
    }
    if nb == na {
        return None;
    }
    if nb - na != n.len() {
        proof {
            assert(trim(pair.take(eq as int)).len() != name@.len());
        }
        return None;
    }
    let mut i: usize = 0;
    while i < n.len()
        invariant
            i <= n@.len(),
            n@.len() == nb - na,
            na + n@.len() <= h@.len(),
            n@ == name@,
            h@ == header@,
            pair == header@.take(first_char_index(header@, ';')),
            pair == h@.subrange(0, semi as int),
            semi <= h@.len(),
            first_char_index(pair, '=') == eq as int,
            eq < semi,
            trim(pair.take(eq as int)) == h@.subrange(na as int, nb as int),
            forall|j: int| 0 <= j < i ==> h@[na + j] == n@[j],
        decreases n@.len() - i,
    {
        if h[na + i] != n[i] {
            proof {
                assert(trim(pair.take(eq as int))[i as int] == h@[na + i]);
                assert(trim(pair.take(eq as int)) != name@);
            }
            return None;
        }
        i = i + 1;
    }
    proof {
        assert(trim(pair.take(eq as int)) =~= name@);
    }
    let (va, vb) = scan_trim(&h, eq + 1, semi);
    proof {
        assert(pair.skip(eq + 1) =~= h@.subrange(eq + 1, semi as int));
        lemma_trim_front(pair.skip(eq + 1), va - (eq + 1));
        assert(pair.skip(eq + 1).skip(va - (eq + 1)) =~= h@.subrange(va as int, semi as int));
        lemma_trim_back(h@.subrange(va as int, semi as int), vb - va);
        assert(h@.subrange(va as int, semi as int).take(vb - va) =~= h@.subrange(
            va as int,
            vb as int,
        ));
        assert(trim(pair.skip(eq + 1)) == h@.subrange(va as int, vb as int));
    }
    let mut out: Vec<char> = Vec::new();
    let mut i: usize = va;
    while i < vb
        invariant
            va <= i <= vb <= h@.len(),
            h@ == header@,
            out@ == h@.subrange(va as int, i as int),
        decreases vb - i,
    {
        let c = h[i];
        out.push(c);
        proof {
            assert(h@.subrange(va as int, i + 1) =~= h@.subrange(va as int, i as int).push(
                h@[i as int],
            ));
        }
        i = i + 1;
    }
    Some(string_from_chars(out))
}

/// The session token a request presents: the configured cookie's value,
/// when a `Cookie` header is present and carries it.
pub fn session_token_from_header(header: Option<&str>, cookie_name: &str) -> (r: Option<String>)
    ensures
        match header {
            Some(h) => match r {
                Some(v) => cookie_value_spec(h@, cookie_name@) == Some(v@),
                None => cookie_value_spec(h@, cookie_name@) is None,
            },
            None => r is None,
        },
{
    match header {
        Some(h) => cookie_value(h, cookie_name),
        None => None,
    }
}

} // verus!
