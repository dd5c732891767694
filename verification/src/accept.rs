//! Accept-header matching: whether a MIME type satisfies an Accept header.
//!
//! The HTTP layer around the store refuses to serve an entry whose MIME
//! type the request's Accept header does not admit; the decision itself is
//! pure text matching and lives here.

use vstd::prelude::*;
use vstd::string::StrSliceExecFns;

verus! {

/// Whether `n` occurs in `h` starting at position `i`.
pub open spec fn is_match_at(h: Seq<char>, n: Seq<char>, i: int) -> bool {
    0 <= i && i + n.len() <= h.len() && h.subrange(i, i + n.len()) == n
}

/// Whether `n` occurs somewhere in `h`.
pub open spec fn contains_seq(h: Seq<char>, n: Seq<char>) -> bool {
    exists|i: int| #[trigger] is_match_at(h, n, i)
}

/// Whether `h` starts with `n`.
pub open spec fn starts_with_seq(h: Seq<char>, n: Seq<char>) -> bool {
    n.len() <= h.len() && h.subrange(0, n.len() as int) == n
}

/// Whether `h` ends with `n`.
pub open spec fn ends_with_seq(h: Seq<char>, n: Seq<char>) -> bool {
    n.len() <= h.len() && h.subrange(h.len() - n.len(), h.len() as int) == n
}

/// `s` with every trailing "/*" removed.
pub open spec fn trim_wild(s: Seq<char>) -> Seq<char>
    decreases s.len(),
{
    if ends_with_seq(s, seq!['/', '*']) {
        trim_wild(s.take(s.len() as int - 2))
    } else {
        s
    }
}

/// Whether an Accept header admits a MIME type: the header mentions the
/// type, or accepts anything; a type ending in "/*" matches a header
/// starting with its base; otherwise a header ending in "/*" matches a
/// type starting with its base.
pub open spec fn accept_matches(header: Seq<char>, mime: Seq<char>) -> bool {
    if contains_seq(header, mime) || contains_seq(header, seq!['*', '/', '*']) {
        true
    } else if ends_with_seq(mime, seq!['/', '*']) {
        starts_with_seq(header, trim_wild(mime))
    } else if ends_with_seq(header, seq!['/', '*']) {
        starts_with_seq(mime, trim_wild(header))
    } else {
        false
    }
}

/// Collects the characters of a string slice.
fn chars_of(s: &str) -> (r: Vec<char>)
    ensures
        r@ == s@,
{
    let n = s.unicode_len();
    let mut out: Vec<char> = Vec::new();
    let mut i: usize = 0;
    while i < n
        invariant
            n == s@.len(),
            i <= n,
            out@ == s@.take(i as int),
        decreases n - i,
    {
        let c = s.get_char(i);
        out.push(c);
        i = i + 1;
        proof {
            assert(out@ =~= s@.take(i as int));
        }
    }
    proof {
        assert(s@.take(n as int) =~= s@);
    }
    out
}

/// Checks whether `n` occurs in `h` at position `i`.
fn match_at(h: &Vec<char>, n: &Vec<char>, i: usize) -> (r: bool)
    requires
        i + n@.len() <= h@.len(),
    ensures
        r == is_match_at(h@, n@, i as int),
{
    let nl = n.len();
    let hl = h.len();
    let mut j: usize = 0;
    while j < nl
        invariant
            i + nl <= hl,
            hl == h@.len(),
            nl == n@.len(),
            j <= nl,
            forall|t: int| 0 <= t < j ==> h@[i + t] == n@[t],
        decreases nl - j,
    {
        if h[i + j] != n[j] {
            proof {
                if is_match_at(h@, n@, i as int) {
                    assert(h@.subrange(i as int, i as int + n@.len())[j as int] == n@[j as int]);
                }
            }
            return false;
        }
        j = j + 1;
    }
    proof {
        assert(h@.subrange(i as int, i as int + n@.len()) =~= n@);
    }
    true
}

/// Checks whether `n` occurs anywhere in `h`.
fn contains_chars(h: &Vec<char>, n: &Vec<char>) -> (r: bool)
    ensures
        r == contains_seq(h@, n@),
{
    let hl = h.len();
    let nl = n.len();
    if nl == 0 {
        proof {
            assert(h@.subrange(0, 0) =~= n@);
            assert(is_match_at(h@, n@, 0));
        }
        return true;
    }
    if nl > hl {
        proof {
            assert forall|i: int| !is_match_at(h@, n@, i) by {}
        }
        return false;
    }
    let mut i: usize = 0;
    while i <= hl - nl
        invariant
            nl <= hl,
            hl == h@.len(),
            nl == n@.len(),
            1 <= nl,
            i <= hl - nl + 1,
            forall|t: int| 0 <= t < i ==> !is_match_at(h@, n@, t),
        decreases hl - nl + 1 - i,
    {
        if match_at(h, n, i) {
            return true;
        }
        i = i + 1;
    }
    proof {
        assert forall|t: int| !is_match_at(h@, n@, t) by {}
    }
    false
}

/// Checks whether `h` starts with `n`.
fn starts_with_chars(h: &Vec<char>, n: &Vec<char>) -> (r: bool)
    ensures
        r == starts_with_seq(h@, n@),
{
    if n.len() > h.len() {
        return false;
    }
    match_at(h, n, 0)
}

/// Checks whether `h` ends with `n`.
fn ends_with_chars(h: &Vec<char>, n: &Vec<char>) -> (r: bool)
    ensures
        r == ends_with_seq(h@, n@),
{
    if n.len() > h.len() {
        return false;
    }
    match_at(h, n, h.len() - n.len())
}

/// Removes every trailing "/*" from `v`.
fn trim_wild_chars(v: Vec<char>) -> (r: Vec<char>)
    ensures
        r@ == trim_wild(v@),
{
    let mut v = v;
    let ghost orig = v@;
    while v.len() >= 2 && v[v.len() - 2] == '/' && v[v.len() - 1] == '*'
        invariant
            trim_wild(v@) == trim_wild(orig),
        decreases v@.len(),
    {
        proof {
            assert(v@.subrange(v@.len() - 2, v@.len() as int) =~= seq!['/', '*']);
        }
        let vl = v.len();
        v.truncate(vl - 2);
    }
    proof {
        if ends_with_seq(v@, seq!['/', '*']) {
            assert(v@.subrange(v@.len() - 2, v@.len() as int)[0] == '/');
            assert(v@.subrange(v@.len() - 2, v@.len() as int)[1] == '*');
        }
    }
    v
}

/// Decides whether an Accept header admits the given MIME type, as the
/// HTTP layer around the store does before serving an entry.
pub fn accept_header_matches(header: &str, mime_type: &str) -> (r: bool)
    ensures
        r == accept_matches(header@, mime_type@),
{
    let h = chars_of(header);
    let m = chars_of(mime_type);
    let star = chars_of("*/*");
    proof {
        reveal_strlit("*/*");
        assert(star@ =~= seq!['*', '/', '*']);
    }
    if contains_chars(&h, &m) || contains_chars(&h, &star) {
        return true;
    }
    let slashstar = chars_of("/*");
    proof {
        reveal_strlit("/*");
        assert(slashstar@ =~= seq!['/', '*']);
    }
    if ends_with_chars(&m, &slashstar) {
        let base = trim_wild_chars(m);
        return starts_with_chars(&h, &base);
    }
    if ends_with_chars(&h, &slashstar) {
        let base = trim_wild_chars(h);
        return starts_with_chars(&m, &base);
    }
    false
}

} // verus!
