//! The order in which segment files are handed to the merge, and the list
//! that names them to it.
use crate::segments::{part_path, string_views};
use crate::text::{
    append_chars, decimal, ends_with, from_chars, is_digit, last_index_of,
    lemma_decimal_roundtrip, lemma_last_index_of, parse_decimal, parse_decimal_chars, rfind_char,
    to_chars,
};
use vstd::prelude::*;
use vstd::seq_lib::{
    to_multiset_build, to_multiset_contains, to_multiset_insert, to_multiset_len,
    to_multiset_remove,
};

verus! {

/// The index that a file name carries: the decimal number between its last
/// `_` and a closing `.ts`. A name that carries none counts as index 0.
pub open spec fn ts_index(name: Seq<char>) -> u64 {
    let tail = match last_index_of(name, '_') {
        Some(i) => name.subrange(i + 1, name.len() as int),
        None => name,
    };
    if ".ts"@.is_suffix_of(tail) {
        match parse_decimal(tail.subrange(0, tail.len() - 3)) {
            Some(v) => v,
            None => 0,
        }
    } else {
        0
    }
}

/// The test for the names that carry the index `k`.
pub open spec fn has_index(k: u64) -> spec_fn(Seq<char>) -> bool {
    |name: Seq<char>| ts_index(name) == k
}

/// Whether names stand in ascending order of their indices.
pub open spec fn sorted_by_index(s: Seq<Seq<char>>) -> bool {
    forall|i: int, j: int|
        0 <= i < j < s.len() ==> ts_index(#[trigger] s[i]) <= ts_index(#[trigger] s[j])
}

/// Reads the index that a file name carries.
pub fn index_of_name(name: &str) -> (k: u64)
    ensures
        k == ts_index(name@),
{
    let chars: Vec<char> = to_chars(name);
    let suffix: Vec<char> = to_chars(".ts");
    proof {
        reveal_strlit(".ts");
    }
    let start: usize = match rfind_char(chars.as_slice(), '_') {
        Some(i) => i + 1,
        None => 0,
    };
    let tail: &[char] = &chars.as_slice()[start..chars.len()];
    assert(last_index_of(name@, '_') is None ==> tail@ =~= name@);
    if ends_with(tail, suffix.as_slice()) {
        match parse_decimal_chars(&tail[0..tail.len() - 3]) {
            Some(v) => v,
            None => 0,
        }
    } else {
        0
    }
}

proof fn lemma_filter_none(s: Seq<Seq<char>>, pred: spec_fn(Seq<char>) -> bool)
    requires
        forall|i: int| 0 <= i < s.len() ==> !pred(#[trigger] s[i]),
    ensures
        s.filter(pred) == Seq::<Seq<char>>::empty(),
    decreases s.len(),
{
    reveal(Seq::filter);
    if s.len() > 0 {
        let t = s.drop_last();
        assert forall|i: int| 0 <= i < t.len() implies !pred(#[trigger] t[i]) by {
            assert(t[i] == s[i]);
        }
        lemma_filter_none(t, pred);
    }
}

/// A name that is put in before names of other indices only joins the names
/// of its own index, at their end.
proof fn lemma_insert_filter(o: Seq<Seq<char>>, p: int, x: Seq<char>, k: u64)
    requires
        0 <= p <= o.len(),
        forall|j: int| p <= j < o.len() ==> ts_index(#[trigger] o[j]) != ts_index(x),
    ensures
        o.insert(p, x).filter(has_index(k)) == if ts_index(x) == k {
            o.filter(has_index(k)).push(x)
        } else {
            o.filter(has_index(k))
        },
{
    let f = has_index(k);
    let a = o.subrange(0, p);
    let b = o.subrange(p, o.len() as int);
    assert(o =~= a + b);
    assert(o.insert(p, x) =~= a.push(x) + b);
    Seq::filter_distributes_over_add(a, b, f);
    Seq::filter_distributes_over_add(a.push(x), b, f);
    Seq::lemma_filter_push(a, x, f);
    if ts_index(x) == k {
        assert forall|i: int| 0 <= i < b.len() implies !f(#[trigger] b[i]) by {
            assert(b[i] == o[p + i]);
        }
        lemma_filter_none(b, f);
        assert(a.filter(f).push(x) + Seq::<Seq<char>>::empty() =~= a.filter(f).push(x));
        assert(a.filter(f) + Seq::<Seq<char>>::empty() =~= a.filter(f));
    }
}

/// Puts the names of segment files in ascending order of the indices they
/// carry. Names of one index keep the order they came in.
pub fn sort_ts_files(ts_files: &mut Vec<String>)
    ensures
        final(ts_files)@.len() == old(ts_files)@.len(),
        string_views(final(ts_files)@).to_multiset() == string_views(
            old(ts_files)@,
        ).to_multiset(),
        sorted_by_index(string_views(final(ts_files)@)),
        forall|k: u64|
            string_views(final(ts_files)@).filter(has_index(k)) == string_views(
                old(ts_files)@,
            ).filter(has_index(k)),
{
    let n: usize = ts_files.len();
    let ghost input = string_views(ts_files@);
    let mut out: Vec<String> = Vec::new();
    let mut keys: Vec<u64> = Vec::new();
    let mut i: usize = 0;
    proof {
        assert(string_views(out@) =~= Seq::<Seq<char>>::empty());
        assert(input.take(0) =~= Seq::<Seq<char>>::empty());
    }
    while i < n
        invariant
            i <= n,
            n == ts_files.len(),
            ts_files@ == old(ts_files)@,
            input == string_views(ts_files@),
            out.len() == i,
            keys.len() == i,
            forall|j: int| 0 <= j < i ==> keys@[j] == ts_index(#[trigger] string_views(out@)[j]),
            sorted_by_index(string_views(out@)),
            string_views(out@).to_multiset() == input.take(i as int).to_multiset(),
            forall|k: u64|
                string_views(out@).filter(has_index(k)) == input.take(i as int).filter(
                    has_index(k),
                ),
        decreases n - i,
    {
        let name: String = ts_files[i].clone();
        let key: u64 = index_of_name(name.as_str());
        assert(name@ == input[i as int]);
        let mut p: usize = i;
        while p > 0 && keys[p - 1] > key
            invariant
                p <= i,
                keys.len() == i,
                forall|j: int| p <= j < i ==> keys@[j] > key,
            decreases p,
        {
            p -= 1;
        }
        let ghost o = string_views(out@);
        let ghost old_keys = keys@;
        out.insert(p, name);
        keys.insert(p, key);
        proof {
            let o2 = string_views(out@);
            let x = input[i as int];
            assert(o2 =~= o.insert(p as int, x));
            assert(input.take(i + 1) =~= input.take(i as int).push(x));
            to_multiset_insert(o, p as int, x);
            to_multiset_build(input.take(i as int), x);
            assert forall|j: int| 0 <= j < i + 1 implies keys@[j] == ts_index(#[trigger] o2[j]) by {
                if j < p {
                    assert(o2[j] == o[j]);
                } else if j > p {
                    assert(o2[j] == o[j - 1]);
                    assert(keys@[j] == old_keys[j - 1]);
                }
            }
            assert forall|a: int, b: int| 0 <= a < b < o2.len() implies ts_index(
                #[trigger] o2[a],
            ) <= ts_index(#[trigger] o2[b]) by {
                assert(keys@[a] == ts_index(o2[a]));
                assert(keys@[b] == ts_index(o2[b]));
                if b < p {
                    assert(o2[a] == o[a] && o2[b] == o[b]);
                } else if b == p {
                    if p > 0 {
                        assert(o2[a] == o[a]);
                        assert(old_keys[p - 1] == ts_index(o[p - 1]));
                        if a < p - 1 {
                            assert(ts_index(o[a]) <= ts_index(o[p - 1]));
                        }
                    }
                } else if a < p {
                    assert(o2[a] == o[a] && o2[b] == o[b - 1]);
                } else if a == p {
                    assert(old_keys[b - 1] > key);
                } else {
                    assert(o2[a] == o[a - 1] && o2[b] == o[b - 1]);
                }
            }
            assert forall|k: u64|
                o2.filter(has_index(k)) == input.take(i + 1).filter(has_index(k)) by {
                assert forall|j: int| p <= j < o.len() implies ts_index(#[trigger] o[j])
                    != ts_index(x) by {
                    assert(old_keys[j] == ts_index(o[j]));
                }
                lemma_insert_filter(o, p as int, x, k);
                assert(input.take(i + 1) =~= input.take(i as int).push(x));
                Seq::lemma_filter_push(input.take(i as int), x, has_index(k));
            }
        }
        i += 1;
    }
    assert(input.take(n as int) =~= input);
    *ts_files = out;
}

/// The files `part_0.ts` to `part_{n-1}.ts` of a directory, in ascending
/// order.
pub open spec fn part_files(dir: Seq<char>, n: nat) -> Seq<Seq<char>> {
    Seq::new(n, |i: int| part_path(dir, i as u64))
}

/// The file of the segment with index `i` carries the index `i`.
pub proof fn lemma_part_index(dir: Seq<char>, i: u64)
    ensures
        ts_index(part_path(dir, i)) == i,
{
    reveal_strlit("/part_");
    reveal_strlit(".ts");
    let head = "/part_"@;
    let digits = decimal(i as nat);
    let tail = ".ts"@;
    let path = part_path(dir, i);
    lemma_decimal_roundtrip(i as nat);
    let at: int = dir.len() as int + 5;
    assert(path.len() == dir.len() + 6 + digits.len() + 3);
    assert(path[at] == head[5]);
    assert forall|j: int| at < j < path.len() implies path[j] != '_' by {
        if j < dir.len() + 6 + digits.len() {
            assert(path[j] == digits[j - dir.len() - 6]);
            assert(is_digit(digits[j - dir.len() - 6]));
        } else {
            assert(path[j] == tail[j - dir.len() - 6 - digits.len()]);
        }
    }
    lemma_last_index_of(path, '_');
    assert(last_index_of(path, '_') == Some(at));
    let rest = path.subrange(at + 1, path.len() as int);
    assert(rest =~= digits + tail);
    assert(rest.subrange(rest.len() - 3, rest.len() as int) =~= tail);
    assert(rest.subrange(0, rest.len() - 3) =~= digits);
}

/// Names in ascending order of index, and names of pairwise different
/// indices in ascending order, that are the same names, are the same list.
proof fn lemma_sorted_same_names(x: Seq<Seq<char>>, y: Seq<Seq<char>>)
    requires
        sorted_by_index(x),
        forall|i: int, j: int|
            0 <= i < j < y.len() ==> ts_index(#[trigger] y[i]) < ts_index(#[trigger] y[j]),
        x.to_multiset() == y.to_multiset(),
    ensures
        x == y,
    decreases x.len(),
{
    to_multiset_len(x);
    to_multiset_len(y);
    if x.len() == 0 {
        assert(x =~= y);
    } else {
        to_multiset_contains(x, y[0]);
        to_multiset_contains(y, y[0]);
        to_multiset_contains(x, x[0]);
        to_multiset_contains(y, x[0]);
        assert(y.contains(y[0]));
        assert(x.contains(x[0]));
        let i = choose|i: int| 0 <= i < x.len() && x[i] == y[0];
        let j = choose|j: int| 0 <= j < y.len() && y[j] == x[0];
        assert(ts_index(x[0]) <= ts_index(x[i]));
        assert(ts_index(y[0]) <= ts_index(y[j]));
        assert(j == 0);
        to_multiset_remove(x, 0);
        to_multiset_remove(y, 0);
        let xs = x.remove(0);
        let ys = y.remove(0);
        assert forall|a: int, b: int| 0 <= a < b < xs.len() implies ts_index(#[trigger] xs[a])
            <= ts_index(#[trigger] xs[b]) by {
            assert(xs[a] == x[a + 1] && xs[b] == x[b + 1]);
        }
        assert forall|a: int, b: int| 0 <= a < b < ys.len() implies ts_index(#[trigger] ys[a])
            < ts_index(#[trigger] ys[b]) by {
            assert(ys[a] == y[a + 1] && ys[b] == y[b + 1]);
        }
        lemma_sorted_same_names(xs, ys);
        assert(x =~= seq![x[0]] + xs);
        assert(y =~= seq![y[0]] + ys);
    }
}

/// The files of a finished run, in whatever order they were completed, are
/// handed to the merge as `part_0.ts` to `part_{n-1}.ts` in ascending
/// order: that is the one list in ascending order of index that holds the
/// same files.
pub proof fn lemma_merge_order(
    dir: Seq<char>,
    n: nat,
    completed: Seq<Seq<char>>,
    sorted: Seq<Seq<char>>,
)
    requires
        n <= u64::MAX,
        completed.to_multiset() == part_files(dir, n).to_multiset(),
        sorted.to_multiset() == completed.to_multiset(),
        sorted_by_index(sorted),
    ensures
        sorted == part_files(dir, n),
{
    let parts = part_files(dir, n);
    assert forall|i: int, j: int| 0 <= i < j < parts.len() implies ts_index(#[trigger] parts[i])
        < ts_index(#[trigger] parts[j]) by {
        lemma_part_index(dir, i as u64);
        lemma_part_index(dir, j as u64);
    }
    lemma_sorted_same_names(sorted, parts);
}

/// The line that names one file to the merge.
pub open spec fn concat_entry(file: Seq<char>) -> Seq<char> {
    "file '"@ + file + "'\n"@
}

/// The list that names files to the merge, one line each and in order.
pub open spec fn concat_list(files: Seq<Seq<char>>) -> Seq<char>
    decreases files.len(),
{
    if files.len() == 0 {
        Seq::empty()
    } else {
        concat_list(files.drop_last()) + concat_entry(files.last())
    }
}

/// Writes the list that names the segment files to the merge, in the order
/// they are given in.
pub fn build_concat_list(files: &Vec<String>) -> (out: String)
    ensures
        out@ == concat_list(string_views(files@)),
{
    let head: Vec<char> = to_chars("file '");
    let tail: Vec<char> = to_chars("'\n");
    let ghost fs = string_views(files@);
    let mut text: Vec<char> = Vec::new();
    let mut i: usize = 0;
    assert(fs.take(0) =~= Seq::<Seq<char>>::empty());
    while i < files.len()
        invariant
            i <= files.len(),
            fs == string_views(files@),
            head@ == "file '"@,
            tail@ == "'\n"@,
            text@ == concat_list(fs.take(i as int)),
        decreases files.len() - i,
    {
        let file: Vec<char> = to_chars(files[i].as_str());
        let ghost before = text@;
        append_chars(&mut text, head.as_slice());
        append_chars(&mut text, file.as_slice());
        append_chars(&mut text, tail.as_slice());
        proof {
            assert(fs.take(i + 1).drop_last() =~= fs.take(i as int));
            assert(fs.take(i + 1).last() == file@);
            assert(text@ =~= before + concat_entry(file@));
        }
        i += 1;
    }
    assert(fs.take(files.len() as int) =~= fs);
    from_chars(text.as_slice())
}

/// The file that the merge writes: `name` with the extension `.mp4`, in
/// `output_dir`.
pub open spec fn output_path(output_dir: Seq<char>, name: Seq<char>) -> Seq<char> {
    output_dir + "/"@ + name + ".mp4"@
}

/// Names the file that the merge writes.
pub fn output_file(output_dir: &str, name: &str) -> (out: String)
    ensures
        out@ == output_path(output_dir@, name@),
{
    let mut path: Vec<char> = to_chars(output_dir);
    let slash: Vec<char> = to_chars("/");
    let stem: Vec<char> = to_chars(name);
    let extension: Vec<char> = to_chars(".mp4");
    append_chars(&mut path, slash.as_slice());
    append_chars(&mut path, stem.as_slice());
    append_chars(&mut path, extension.as_slice());
    from_chars(path.as_slice())
}

} // verus!
