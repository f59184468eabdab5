//! The record of completed segments, and what it lets a later run skip.
use crate::download_monitor::{restored, DownloadMetrics, MetricsView};
use crate::segments::{segment_views, string_views, SegmentDescriptor, SegmentView};
use crate::text::{
    from_chars, is_blank, last_index_of, lemma_split_at_separator, lemma_split_without_separator,
    lemma_trimmed_ends, rfind_char, split_chars, split_on, to_chars, trim, views,
};
use vstd::prelude::*;

verus! {

/// A line as it was written, without the carriage return that may end it.
pub open spec fn without_cr(line: Seq<char>) -> Seq<char> {
    if line.len() > 0 && line.last() == '\r' {
        line.drop_last()
    } else {
        line
    }
}

/// What line `i` of `lines` names. A line that a line feed ended has lost
/// the carriage return before it; the last line, which no line feed ended,
/// is taken as it is.
pub open spec fn entry_at(lines: Seq<Seq<char>>, i: int) -> Seq<char> {
    if i + 1 < lines.len() {
        without_cr(lines[i])
    } else {
        lines[i]
    }
}

/// Whether `name` stands on one of the first `k` of `lines`: on a line
/// that is not blank.
pub open spec fn listed(lines: Seq<Seq<char>>, k: int, name: Seq<char>) -> bool {
    exists|i: int|
        0 <= i < k && i < lines.len() && !is_blank(#[trigger] lines[i]) && entry_at(lines, i)
            == name
}

/// The names that the text of a completion record lists, one to a line;
/// blank lines count for nothing, and a name that is listed twice is one
/// name.
pub open spec fn manifest_names(content: Seq<char>) -> Set<Seq<char>> {
    Set::new(
        |name: Seq<char>|
            listed(split_on(content, '\n'), split_on(content, '\n').len() as int, name),
    )
}

/// The line that records `name` as complete.
pub open spec fn manifest_entry(name: Seq<char>) -> Seq<char> {
    name.push('\n')
}

/// Whether a name can be recorded on a line of its own: it is not blank,
/// holds no line feed and does not end in a carriage return.
pub open spec fn recordable(name: Seq<char>) -> bool {
    !is_blank(name) && !name.contains('\n') && (name.len() == 0 || name.last() != '\r')
}

/// The line of a name, appended to a record that is empty or ends with a
/// line feed, adds that name to the names that the record lists and takes
/// none away.
pub proof fn lemma_appended_entry_is_listed(content: Seq<char>, name: Seq<char>)
    requires
        content.len() == 0 || content.last() == '\n',
        recordable(name),
    ensures
        manifest_names(content + manifest_entry(name)) == manifest_names(content).insert(name),
{
    let sep = '\n';
    let empty = Seq::<char>::empty();
    let after = content + manifest_entry(name);
    lemma_split_without_separator(name, sep);
    lemma_split_without_separator(empty, sep);
    lemma_split_at_separator(name, empty, sep);
    assert(name + seq![sep] + empty =~= manifest_entry(name));
    let tail = split_on(manifest_entry(name), sep);
    assert(tail =~= seq![name, empty]);
    let p: Seq<Seq<char>> = if content.len() == 0 {
        Seq::empty()
    } else {
        split_on(content.drop_last(), sep)
    };
    let old_lines = split_on(content, sep);
    let new_lines = split_on(after, sep);
    if content.len() == 0 {
        assert(content =~= empty);
        assert(after =~= manifest_entry(name));
        assert(old_lines =~= p + seq![empty]);
        assert(new_lines =~= p + seq![name, empty]);
    } else {
        let u = content.drop_last();
        lemma_split_at_separator(u, empty, sep);
        assert(u + seq![sep] + empty =~= content);
        lemma_split_at_separator(u, manifest_entry(name), sep);
        assert(u + seq![sep] + manifest_entry(name) =~= after);
        assert(old_lines =~= p + seq![empty]);
        assert(new_lines =~= p + seq![name, empty]);
    }
    let k = p.len() as int;
    assert(old_lines.len() == k + 1 && new_lines.len() == k + 2);
    assert(is_blank(empty));
    assert forall|x: Seq<char>|
        manifest_names(after).contains(x) <==> manifest_names(content).insert(name).contains(
            x,
        ) by {
        if listed(new_lines, new_lines.len() as int, x) {
            let i = choose|i: int|
                0 <= i < new_lines.len() && i < new_lines.len() && !is_blank(
                    #[trigger] new_lines[i],
                ) && entry_at(new_lines, i) == x;
            if i < k {
                assert(old_lines[i] == new_lines[i]);
                assert(entry_at(old_lines, i) == x);
                assert(listed(old_lines, old_lines.len() as int, x));
            } else if i == k {
                assert(new_lines[i] == name);
                assert(x == name);
            } else {
                assert(new_lines[i] == empty);
            }
        }
        if listed(old_lines, old_lines.len() as int, x) {
            let i = choose|i: int|
                0 <= i < old_lines.len() && i < old_lines.len() && !is_blank(
                    #[trigger] old_lines[i],
                ) && entry_at(old_lines, i) == x;
            if i < k {
                assert(new_lines[i] == old_lines[i]);
                assert(entry_at(new_lines, i) == x);
                assert(listed(new_lines, new_lines.len() as int, x));
            } else {
                assert(old_lines[i] == empty);
            }
        }
        if x == name {
            assert(new_lines[k] == name);
            assert(entry_at(new_lines, k) == name);
            assert(listed(new_lines, new_lines.len() as int, x));
        }
    }
    assert(manifest_names(after) =~= manifest_names(content).insert(name));
}

/// The last component of a path: what follows its last `/`, or all of it
/// where it has none; nothing where that is empty.
pub open spec fn file_name(path: Seq<char>) -> Option<Seq<char>> {
    let start = match last_index_of(path, '/') {
        Some(i) => i + 1,
        None => 0,
    };
    if start < path.len() {
        Some(path.subrange(start, path.len() as int))
    } else {
        None
    }
}

/// The view of an optional string.
pub open spec fn option_string_view(o: Option<String>) -> Option<Seq<char>> {
    match o {
        Some(s) => Some(s@),
        None => None,
    }
}

/// The last component of a path.
pub fn file_name_of(path: &str) -> (r: Option<String>)
    ensures
        option_string_view(r) == file_name(path@),
{
    let chars: Vec<char> = to_chars(path);
    let start: usize = match rfind_char(chars.as_slice(), '/') {
        Some(i) => i + 1,
        None => 0,
    };
    if start < chars.len() {
        Some(from_chars(&chars.as_slice()[start..chars.len()]))
    } else {
        None
    }
}

/// Writes the line that records `name` as complete.
pub fn manifest_line(name: &str) -> (out: String)
    ensures
        out@ == manifest_entry(name@),
{
    let mut chars: Vec<char> = to_chars(name);
    chars.push('\n');
    from_chars(chars.as_slice())
}

/// The names of the segments that are recorded as complete. No name is held
/// twice.
pub struct CompletionManifest {
    names: Vec<String>,
}

impl View for CompletionManifest {
    type V = Set<Seq<char>>;

    closed spec fn view(&self) -> Set<Seq<char>> {
        string_views(self.names@).to_set()
    }
}

proof fn lemma_views_contains(v: Seq<String>, name: Seq<char>)
    ensures
        string_views(v).to_set().contains(name) <==> exists|j: int|
            0 <= j < v.len() && (#[trigger] v[j])@ == name,
{
    let s = string_views(v);
    if s.to_set().contains(name) {
        let j = choose|j: int| 0 <= j < s.len() && s[j] == name;
        assert(v[j]@ == name);
    }
    if exists|j: int| 0 <= j < v.len() && (#[trigger] v[j])@ == name {
        let j = choose|j: int| 0 <= j < v.len() && (#[trigger] v[j])@ == name;
        assert(s[j] == name);
        assert(s.contains(name));
    }
}

fn position_of(names: &Vec<String>, name: &String) -> (r: Option<usize>)
    ensures
        match r {
            Some(j) => j < names.len() && names@[j as int]@ == name@,
            None => forall|j: int| 0 <= j < names.len() ==> (#[trigger] names@[j])@ != name@,
        },
{
    let mut j: usize = 0;
    while j < names.len()
        invariant
            j <= names.len(),
            forall|k: int| 0 <= k < j ==> (#[trigger] names@[k])@ != name@,
        decreases names.len() - j,
    {
        if names[j] == *name {
            return Some(j);
        }
        j += 1;
    }
    None
}

impl CompletionManifest {
    #[verifier::type_invariant]
    spec fn distinct(self) -> bool {
        string_views(self.names@).no_duplicates()
    }

    /// A record that lists nothing.
    pub fn new() -> (m: Self)
        ensures
            m@ == Set::<Seq<char>>::empty(),
    {
        let m = CompletionManifest { names: Vec::new() };
        assert(m@ =~= Set::<Seq<char>>::empty());
        m
    }

    /// Whether `name` is recorded as complete.
    pub fn contains(&self, name: &str) -> (r: bool)
        ensures
            r == self@.contains(name@),
    {
        proof {
            lemma_views_contains(self.names@, name@);
        }
        let chars: Vec<char> = to_chars(name);
        let owned: String = from_chars(chars.as_slice());
        position_of(&self.names, &owned).is_some()
    }

    /// The number of names that are recorded.
    pub fn len(&self) -> (n: usize)
        ensures
            n == self@.len(),
            self@.finite(),
    {
        proof {
            use_type_invariant(self);
            string_views(self.names@).unique_seq_to_set();
        }
        self.names.len()
    }

    /// Records `name` as complete.
    pub fn insert(&mut self, name: &str)
        ensures
            final(self)@ == old(self)@.insert(name@),
    {
        proof {
            use_type_invariant(&*self);
            lemma_views_contains(self.names@, name@);
        }
        let chars: Vec<char> = to_chars(name);
        let owned: String = from_chars(chars.as_slice());
        if position_of(&self.names, &owned).is_none() {
            let mut names: Vec<String> = Vec::new();
            core::mem::swap(&mut self.names, &mut names);
            let ghost before = names@;
            names.push(owned);
            proof {
                assert(string_views(names@) =~= string_views(before).push(name@));
                assert(string_views(names@).no_duplicates());
                assert(string_views(names@).to_set() =~= string_views(before).to_set().insert(
                    name@,
                )) by {
                    assert forall|x: Seq<char>|
                        string_views(names@).to_set().contains(x) <==> string_views(
                            before,
                        ).to_set().insert(name@).contains(x) by {
                        lemma_views_contains(names@, x);
                        lemma_views_contains(before, x);
                        if exists|j: int| 0 <= j < names@.len() && (#[trigger] names@[j])@ == x {
                            let j = choose|j: int|
                                0 <= j < names@.len() && (#[trigger] names@[j])@ == x;
                            if j < before.len() {
                                assert(before[j]@ == x);
                            }
                        }
                        if exists|j: int| 0 <= j < before.len() && (#[trigger] before[j])@ == x {
                            let j = choose|j: int|
                                0 <= j < before.len() && (#[trigger] before[j])@ == x;
                            assert(names@[j]@ == x);
                        }
                        if x == name@ {
                            assert(names@[before.len() as int]@ == x);
                        }
                    }
                }
            }
            core::mem::swap(&mut self.names, &mut names);
        } else {
            assert(self@ =~= self@.insert(name@));
        }
    }

    /// Reads the text of a completion record: each line that is not blank
    /// names a completed segment.
    pub fn load(content: &str) -> (m: Self)
        ensures
            m@ == manifest_names(content@),
    {
        let chars: Vec<char> = to_chars(content);
        let lines: Vec<Vec<char>> = split_chars(chars.as_slice(), '\n');
        let ghost ls = split_on(content@, '\n');
        let mut m = CompletionManifest::new();
        let mut i: usize = 0;
        while i < lines.len()
            invariant
                i <= lines.len(),
                views(lines@) == ls,
                ls.len() == lines.len(),
                forall|x: Seq<char>| m@.contains(x) <==> listed(ls, i as int, x),
            decreases lines.len() - i,
        {
            let line: &[char] = lines[i].as_slice();
            assert(line@ == ls[i as int]);
            let ghost before = m@;
            let ghost name = entry_at(ls, i as int);
            let blank: bool = trim(line).len() == 0;
            proof {
                lemma_trimmed_ends(line@);
            }
            if !blank {
                let n: usize = line.len();
                let entry: &[char] = if i + 1 < lines.len() && n > 0 && line[n - 1] == '\r' {
                    assert(line@.subrange(0, n - 1) =~= line@.drop_last());
                    &line[0..n - 1]
                } else {
                    assert(line@.subrange(0, n as int) =~= line@);
                    &line[0..n]
                };
                let text: String = from_chars(entry);
                m.insert(text.as_str());
            }
            proof {
                assert forall|x: Seq<char>| m@.contains(x) <==> listed(ls, i + 1, x) by {
                    if listed(ls, i + 1, x) {
                        let k = choose|k: int|
                            0 <= k < i + 1 && k < ls.len() && !is_blank(#[trigger] ls[k])
                                && entry_at(ls, k) == x;
                        if k < i {
                            assert(listed(ls, i as int, x));
                        }
                    }
                    if listed(ls, i as int, x) {
                        let k = choose|k: int|
                            0 <= k < i && k < ls.len() && !is_blank(#[trigger] ls[k]) && entry_at(
                                ls,
                                k,
                            ) == x;
                        assert(listed(ls, i + 1, x));
                    }
                    if !blank && x == name {
                        assert(!is_blank(ls[i as int]));
                        assert(listed(ls, i + 1, x));
                    }
                }
            }
            i += 1;
        }
        assert(m@ =~= manifest_names(content@));
        m
    }
}

/// Why nothing can be downloaded.
#[derive(Debug, Clone, Copy, PartialEq, Eq, Structural)]
pub enum AdmitError {
    /// The playlist names no segment.
    NoSegments,
}

/// The size that was found of the file of the segment at place `i`; zero
/// where no size was given.
pub open spec fn size_at(sizes: Seq<usize>, i: int) -> usize {
    if 0 <= i < sizes.len() {
        sizes[i]
    } else {
        0
    }
}

/// Whether a segment is complete already: its file's name is recorded, and
/// the file is there and not empty.
pub open spec fn is_complete(segment: SegmentView, names: Set<Seq<char>>, size: usize) -> bool {
    size > 0 && match file_name(segment.local_path) {
        Some(n) => names.contains(n),
        None => false,
    }
}

/// The segments that are still to be fetched, in playlist order.
pub open spec fn pending_of(s: Seq<SegmentView>, names: Set<Seq<char>>, sizes: Seq<usize>) -> Seq<
    SegmentView,
>
    decreases s.len(),
{
    if s.len() == 0 {
        Seq::empty()
    } else if is_complete(s.last(), names, size_at(sizes, s.len() - 1)) {
        pending_of(s.drop_last(), names, sizes)
    } else {
        pending_of(s.drop_last(), names, sizes).push(s.last())
    }
}

/// The files of the segments that are complete already, in playlist order.
pub open spec fn ready_of(s: Seq<SegmentView>, names: Set<Seq<char>>, sizes: Seq<usize>) -> Seq<
    Seq<char>,
>
    decreases s.len(),
{
    if s.len() == 0 {
        Seq::empty()
    } else if is_complete(s.last(), names, size_at(sizes, s.len() - 1)) {
        ready_of(s.drop_last(), names, sizes).push(s.last().local_path)
    } else {
        ready_of(s.drop_last(), names, sizes)
    }
}

/// The metrics after every segment that is complete already was counted.
pub open spec fn metrics_after(
    m: MetricsView,
    s: Seq<SegmentView>,
    names: Set<Seq<char>>,
    sizes: Seq<usize>,
) -> MetricsView
    decreases s.len(),
{
    if s.len() == 0 {
        m
    } else if is_complete(s.last(), names, size_at(sizes, s.len() - 1)) {
        restored(metrics_after(m, s.drop_last(), names, sizes), size_at(sizes, s.len() - 1))
    } else {
        metrics_after(m, s.drop_last(), names, sizes)
    }
}

/// What a run starts from: the segments to fetch, and the files that are
/// there already.
pub struct Admission {
    pub pending: Vec<SegmentDescriptor>,
    pub ready: Vec<String>,
}

/// Decides which segments a run has to fetch. `sizes` gives, for each
/// segment in order, the size of its file on disk, zero where there is
/// none. A segment whose file name is recorded in `manifest` and whose file
/// is not empty is complete: it is counted in `metrics` and its file is
/// listed as ready. Every other segment is pending. An empty segment list
/// is refused, and `metrics` is then left as it was.
pub fn plan_resume(
    segments: &Vec<SegmentDescriptor>,
    manifest: &CompletionManifest,
    sizes: &Vec<usize>,
    metrics: &mut DownloadMetrics,
) -> (r: Result<Admission, AdmitError>)
    ensures
        r is Err <==> segments@.len() == 0,
        r is Err ==> final(metrics)@ == old(metrics)@,
        r matches Ok(a) ==> {
            &&& segment_views(a.pending@) == pending_of(segment_views(segments@), manifest@, sizes@)
            &&& string_views(a.ready@) == ready_of(segment_views(segments@), manifest@, sizes@)
            &&& final(metrics)@ == metrics_after(
                old(metrics)@,
                segment_views(segments@),
                manifest@,
                sizes@,
            )
        },
        final(metrics)@.completed_chunks >= old(metrics)@.completed_chunks,
        final(metrics)@.total_chunks == old(metrics)@.total_chunks,
        old(metrics)@.completed_chunks == 0 ==> (r matches Ok(a) ==> {
            &&& final(metrics)@.completed_chunks == a.ready@.len()
            &&& final(metrics)@.completed_chunks + a.pending@.len() == segments@.len()
        }),
{
    if segments.len() == 0 {
        return Err(AdmitError::NoSegments);
    }
    proof {
        lemma_admission_counts(old(metrics)@, segment_views(segments@), manifest@, sizes@);
        lemma_admission_partitions(segment_views(segments@), manifest@, sizes@);
    }
    let ghost ss = segment_views(segments@);
    let mut pending: Vec<SegmentDescriptor> = Vec::new();
    let mut ready: Vec<String> = Vec::new();
    let mut i: usize = 0;
    assert(ss.take(0) =~= Seq::<SegmentView>::empty());
    assert(segment_views(pending@) =~= Seq::<SegmentView>::empty());
    assert(string_views(ready@) =~= Seq::<Seq<char>>::empty());
    while i < segments.len()
        invariant
            i <= segments.len(),
            ss == segment_views(segments@),
            segment_views(pending@) == pending_of(ss.take(i as int), manifest@, sizes@),
            string_views(ready@) == ready_of(ss.take(i as int), manifest@, sizes@),
            metrics@ == metrics_after(old(metrics)@, ss.take(i as int), manifest@, sizes@),
            metrics@.completed_chunks >= old(metrics)@.completed_chunks,
        decreases segments.len() - i,
    {
        let segment: &SegmentDescriptor = &segments[i];
        proof {
            assert(ss.take(i + 1).drop_last() =~= ss.take(i as int));
            assert(ss.take(i + 1).last() == segment@);
        }
        let size: usize = if i < sizes.len() {
            sizes[i]
        } else {
            0
        };
        let recorded: bool = match file_name_of(segment.local_path.as_str()) {
            Some(name) => manifest.contains(name.as_str()),
            None => false,
        };
        let ghost pending_before = segment_views(pending@);
        let ghost ready_before = string_views(ready@);
        if recorded && size > 0 {
            ready.push(segment.local_path.clone());
            metrics.restore_chunk(size);
            assert(string_views(ready@) =~= ready_before.push(segment@.local_path));
        } else {
            pending.push(segment.duplicate());
            assert(segment_views(pending@) =~= pending_before.push(segment@));
        }
        i += 1;
    }
    assert(ss.take(segments.len() as int) =~= ss);
    Ok(Admission { pending, ready })
}

/// Where every segment is complete already, nothing is pending: a run over
/// the files of a finished run fetches no segment.
pub proof fn lemma_complete_run_fetches_nothing(
    s: Seq<SegmentView>,
    names: Set<Seq<char>>,
    sizes: Seq<usize>,
)
    requires
        forall|i: int| 0 <= i < s.len() ==> is_complete(#[trigger] s[i], names, size_at(sizes, i)),
    ensures
        pending_of(s, names, sizes).len() == 0,
        ready_of(s, names, sizes) == s.map_values(|d: SegmentView| d.local_path),
    decreases s.len(),
{
    if s.len() > 0 {
        let t = s.drop_last();
        assert forall|i: int| 0 <= i < t.len() implies is_complete(
            #[trigger] t[i],
            names,
            size_at(sizes, i),
        ) by {
            assert(t[i] == s[i]);
        }
        lemma_complete_run_fetches_nothing(t, names, sizes);
        assert(ready_of(s, names, sizes) =~= s.map_values(|d: SegmentView| d.local_path));
    } else {
        assert(ready_of(s, names, sizes) =~= s.map_values(|d: SegmentView| d.local_path));
    }
}

/// Counting the segments that are complete already leaves the number of
/// segments as it was and adds one to the number complete for each of them,
/// up to the largest number that can be held.
pub proof fn lemma_admission_counts(
    m: MetricsView,
    s: Seq<SegmentView>,
    names: Set<Seq<char>>,
    sizes: Seq<usize>,
)
    ensures
        metrics_after(m, s, names, sizes).total_chunks == m.total_chunks,
        metrics_after(m, s, names, sizes).completed_chunks == if m.completed_chunks + ready_of(
            s,
            names,
            sizes,
        ).len() > usize::MAX {
            usize::MAX as int
        } else {
            m.completed_chunks + ready_of(s, names, sizes).len()
        },
    decreases s.len(),
{
    if s.len() > 0 {
        lemma_admission_counts(m, s.drop_last(), names, sizes);
    }
}

/// The metrics of a download of `total` segments that has not begun.
pub open spec fn fresh_metrics(total: usize) -> MetricsView {
    MetricsView {
        total_chunks: total,
        total_bytes: 0,
        downloaded_bytes: 0,
        completed_chunks: 0,
        samples: Seq::empty(),
    }
}

/// A run counts no more segments complete than the playlist has: those
/// that were complete already, and one for each of the pending segments
/// that it fetches.
pub proof fn lemma_completed_within_total(
    s: Seq<SegmentView>,
    names: Set<Seq<char>>,
    sizes: Seq<usize>,
    fetched: nat,
)
    requires
        s.len() <= usize::MAX,
        fetched <= pending_of(s, names, sizes).len(),
    ensures
        metrics_after(fresh_metrics(s.len() as usize), s, names, sizes).completed_chunks + fetched
            <= metrics_after(fresh_metrics(s.len() as usize), s, names, sizes).total_chunks,
{
    lemma_admission_counts(fresh_metrics(s.len() as usize), s, names, sizes);
    lemma_admission_partitions(s, names, sizes);
}

/// Every segment is either pending or ready, and none is both.
pub proof fn lemma_admission_partitions(
    s: Seq<SegmentView>,
    names: Set<Seq<char>>,
    sizes: Seq<usize>,
)
    ensures
        pending_of(s, names, sizes).len() + ready_of(s, names, sizes).len() == s.len(),
    decreases s.len(),
{
    if s.len() > 0 {
        lemma_admission_partitions(s.drop_last(), names, sizes);
    }
}

} // verus!
