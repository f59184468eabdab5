//! Resolution of the references found in a playlist against the playlist's
//! own address.
use crate::text::{
    append_chars, copy_chars, find_char, first_index_of, from_chars, last_index_of,
    lemma_first_index_of, lemma_last_index_of, rfind_char, starts_with, to_chars,
};
use vstd::prelude::*;

verus! {

/// Whether `r` is a complete address already: it begins with `http://` or
/// `https://`.
pub open spec fn is_absolute(r: Seq<char>) -> bool {
    "http://"@.is_prefix_of(r) || "https://"@.is_prefix_of(r)
}

/// The prefix of `s` that ends just before its `n`-th `c`, counting from
/// one; all of `s` where it holds fewer than `n`.
pub open spec fn before_nth(s: Seq<char>, c: char, n: nat) -> Seq<char>
    decreases n,
{
    let i = first_index_of(s, c);
    if n == 0 || i >= s.len() {
        s
    } else if n == 1 {
        s.subrange(0, i as int)
    } else {
        s.subrange(0, i as int + 1) + before_nth(
            s.subrange(i as int + 1, s.len() as int),
            c,
            (n - 1) as nat,
        )
    }
}

/// Scheme and authority of `base`: what stands before its third `/`.
pub open spec fn origin(base: Seq<char>) -> Seq<char> {
    before_nth(base, '/', 3)
}

/// `base` up to and including its last `/`; empty where it has none.
pub open spec fn directory(base: Seq<char>) -> Seq<char> {
    match last_index_of(base, '/') {
        Some(i) => base.subrange(0, i + 1),
        None => Seq::empty(),
    }
}

/// The address that the reference `r` names when read against `base`.
pub open spec fn resolved(base: Seq<char>, r: Seq<char>) -> Seq<char> {
    if is_absolute(r) {
        r
    } else if r.len() > 0 && r[0] == '/' {
        origin(base) + r
    } else {
        directory(base) + r
    }
}

fn origin_of(base: &[char]) -> (r: &[char])
    ensures
        r@ == origin(base@),
{
    let n: usize = base.len();
    let mut pos: usize = 0;
    let mut k: usize = 0;
    assert(base@.subrange(0, 0) + before_nth(base@.subrange(0, n as int), '/', 3) =~= before_nth(
        base@,
        '/',
        3,
    )) by {
        assert(base@.subrange(0, n as int) =~= base@);
    }
    while k < 3
        invariant
            n == base.len(),
            pos <= n,
            k <= 2,
            origin(base@) == base@.subrange(0, pos as int) + before_nth(
                base@.subrange(pos as int, n as int),
                '/',
                (3 - k) as nat,
            ),
        decreases 3 - k,
    {
        let rest: &[char] = &base[pos..n];
        let i: usize = find_char(rest, '/');
        proof {
            lemma_first_index_of(rest@, '/');
        }
        if i >= rest.len() {
            assert(base@.subrange(0, pos as int) + rest@ =~= base@.subrange(0, n as int));
            return &base[0..n];
        }
        if k == 2 {
            assert(base@.subrange(0, pos as int) + rest@.subrange(0, i as int)
                =~= base@.subrange(0, pos + i));
            return &base[0..pos + i];
        }
        assert(base@.subrange(0, pos as int) + rest@.subrange(0, i + 1) =~= base@.subrange(
            0,
            pos + i + 1,
        ));
        assert(rest@.subrange(i + 1, rest@.len() as int) =~= base@.subrange(
            pos + i + 1,
            n as int,
        ));
        assert(origin(base@) == base@.subrange(0, pos + i + 1) + before_nth(
            base@.subrange(pos + i + 1, n as int),
            '/',
            (3 - k - 1) as nat,
        )) by {
            let tail = before_nth(base@.subrange(pos + i + 1, n as int), '/', (3 - k - 1) as nat);
            assert(base@.subrange(0, pos as int) + (rest@.subrange(0, i + 1) + tail) =~= (
            base@.subrange(0, pos as int) + rest@.subrange(0, i + 1)) + tail);
        }
        pos = pos + i + 1;
        k += 1;
    }
    &base[0..n]
}

fn directory_of(base: &[char]) -> (r: &[char])
    ensures
        r@ == directory(base@),
{
    proof {
        lemma_last_index_of(base@, '/');
    }
    match rfind_char(base, '/') {
        Some(i) => &base[0..i + 1],
        None => &base[0..0],
    }
}

/// Resolves a run of characters against a base address.
pub fn resolve_chars(base: &[char], r: &[char]) -> (out: Vec<char>)
    ensures
        out@ == resolved(base@, r@),
{
    let http: Vec<char> = to_chars("http://");
    let https: Vec<char> = to_chars("https://");
    if starts_with(r, http.as_slice()) || starts_with(r, https.as_slice()) {
        copy_chars(r)
    } else if r.len() > 0 && r[0] == '/' {
        let mut out: Vec<char> = copy_chars(origin_of(base));
        append_chars(&mut out, r);
        out
    } else {
        let mut out: Vec<char> = copy_chars(directory_of(base));
        append_chars(&mut out, r);
        out
    }
}

/// Resolves a reference found in a playlist against the playlist's address.
///
/// A reference that begins with `http://` or `https://` is returned as it
/// is. One that begins with `/` is appended to the scheme and authority of
/// `base`. Any other is appended to `base` cut after its last `/`. Nothing is
/// decoded, encoded or changed in case.
pub fn resolve_url(base: &str, reference: &str) -> (out: String)
    ensures
        out@ == resolved(base@, reference@),
{
    let b: Vec<char> = to_chars(base);
    let r: Vec<char> = to_chars(reference);
    let out: Vec<char> = resolve_chars(b.as_slice(), r.as_slice());
    from_chars(out.as_slice())
}

} // verus!
