//! Segment descriptors: how the scanned lines of a playlist and the fetched
//! keys give the ordered list of segments, and the record of that list that
//! is kept for a later run.
use crate::crypto::{iv_of_text, parse_iv, EncryptionInfo, EncryptionView};
use crate::playlist::{line_views, LineView, PlaylistLine};
use crate::text::{
    append_chars, chars_eq, copy_chars, decimal, from_chars, push_decimal, to_chars, to_upper,
    upper,
};
use crate::url::{resolve_chars, resolved};
use vstd::prelude::*;

verus! {

/// One segment of a playlist: its place in the playlist, counted from zero,
/// where it is fetched from, where it is written, and the key it is
/// encrypted with, if any.
#[derive(Debug, Clone)]
pub struct SegmentDescriptor {
    pub index: u64,
    pub url: String,
    pub local_path: String,
    pub encryption: Option<EncryptionInfo>,
}

/// What a [`SegmentDescriptor`] holds, as sequences.
pub ghost struct SegmentView {
    pub index: u64,
    pub url: Seq<char>,
    pub local_path: Seq<char>,
    pub encryption: Option<EncryptionView>,
}

/// The view of an optional key binding.
pub open spec fn option_encryption_view(o: Option<EncryptionInfo>) -> Option<EncryptionView> {
    match o {
        Some(e) => Some(e@),
        None => None,
    }
}

impl View for SegmentDescriptor {
    type V = SegmentView;

    open spec fn view(&self) -> SegmentView {
        SegmentView {
            index: self.index,
            url: self.url@,
            local_path: self.local_path@,
            encryption: option_encryption_view(self.encryption),
        }
    }
}

impl SegmentDescriptor {
    /// A copy of the descriptor.
    pub fn duplicate(&self) -> (r: Self)
        ensures
            r@ == self@,
    {
        SegmentDescriptor {
            index: self.index,
            url: self.url.clone(),
            local_path: self.local_path.clone(),
            encryption: self.encryption,
        }
    }
}

/// The views of the descriptors of a vector.
pub open spec fn segment_views(v: Seq<SegmentDescriptor>) -> Seq<SegmentView> {
    v.map_values(|s: SegmentDescriptor| s@)
}

/// Why the lines of a playlist and the fetched keys give no segment list.
#[derive(Debug, Clone, Copy, PartialEq, Eq, Structural)]
pub enum AssembleError {
    /// There are fewer fetched keys than key tags that ask for one.
    MissingKey,
    /// A fetched key has fewer than sixteen bytes.
    KeyTooShort,
}

/// Whether a key tag's method is AES-128, in any case of letters.
pub open spec fn is_aes128(method: Seq<char>) -> bool {
    upper(method) == "AES-128"@
}

/// The file that the segment with the given index is written to.
pub open spec fn part_path(dir: Seq<char>, index: u64) -> Seq<char> {
    dir + "/part_"@ + decimal(index as nat) + ".ts"@
}

/// The name of that file within its directory.
pub open spec fn part_name(index: u64) -> Seq<char> {
    "part_"@ + decimal(index as nat) + ".ts"@
}

/// The addresses of the keys that the lines ask for, in order: one for each
/// key tag whose method is AES-128, its `URI` resolved against `base`.
pub open spec fn key_addresses(lines: Seq<LineView>, base: Seq<char>) -> Seq<Seq<char>>
    decreases lines.len(),
{
    if lines.len() == 0 {
        Seq::empty()
    } else {
        let before = key_addresses(lines.drop_last(), base);
        match lines.last() {
            LineView::Key { method, uri, iv } => if is_aes128(method) {
                before.push(resolved(base, uri))
            } else {
                before
            },
            LineView::Segment { uri } => before,
        }
    }
}

/// The views of the strings of a vector.
pub open spec fn string_views(v: Seq<String>) -> Seq<Seq<char>> {
    v.map_values(|s: String| s@)
}

fn method_is_aes128(method: &str) -> (r: bool)
    ensures
        r == is_aes128(method@),
{
    let m: Vec<char> = to_chars(method);
    let u: Vec<char> = to_upper(m.as_slice());
    let name: Vec<char> = to_chars("AES-128");
    chars_eq(u.as_slice(), name.as_slice())
}

/// Lists the addresses of the keys that have to be fetched before the
/// segment list can be made: for each key tag whose method is AES-128, in
/// playlist order, its `URI` resolved against the playlist's address.
pub fn key_requests(lines: &Vec<PlaylistLine>, base: &str) -> (out: Vec<String>)
    ensures
        string_views(out@) == key_addresses(line_views(lines@), base@),
{
    let b: Vec<char> = to_chars(base);
    let ghost ls = line_views(lines@);
    let mut out: Vec<String> = Vec::new();
    let mut i: usize = 0;
    assert(ls.take(0) =~= Seq::<LineView>::empty());
    assert(string_views(out@) =~= Seq::<Seq<char>>::empty());
    while i < lines.len()
        invariant
            i <= lines.len(),
            ls == line_views(lines@),
            b@ == base@,
            string_views(out@) == key_addresses(ls.take(i as int), base@),
        decreases lines.len() - i,
    {
        proof {
            assert(ls.take(i + 1).drop_last() =~= ls.take(i as int));
            assert(ls.take(i + 1).last() == lines@[i as int]@);
        }
        let ghost before = string_views(out@);
        match &lines[i] {
            PlaylistLine::Key { method, uri, iv } => {
                if method_is_aes128(method.as_str()) {
                    let u: Vec<char> = to_chars(uri.as_str());
                    let address: Vec<char> = resolve_chars(b.as_slice(), u.as_slice());
                    let text: String = from_chars(address.as_slice());
                    out.push(text);
                    assert(string_views(out@) =~= before.push(resolved(base@, uri@)));
                }
            },
            PlaylistLine::Segment { uri } => {},
        }
        i += 1;
    }
    assert(ls.take(lines.len() as int) =~= ls);
    out
}

/// Where the walk through the lines of a playlist stands: the key that
/// binds the segments to come, how many fetched keys were used, and the
/// segments found so far.
pub ghost struct Assembly {
    pub binding: Option<EncryptionView>,
    pub keys_used: nat,
    pub segments: Seq<SegmentView>,
}

/// The binding that a key tag with method AES-128 makes, from the key that
/// was fetched for it and its `IV` attribute: the key is the first sixteen
/// bytes of what was fetched.
pub open spec fn binding_of(key_body: Seq<u8>, iv: Option<Seq<char>>) -> EncryptionView {
    EncryptionView {
        key: key_body.subrange(0, 16),
        iv: match iv {
            Some(t) => iv_of_text(t),
            None => None,
        },
    }
}

/// The walk, one line further. A key tag with method AES-128 takes the next
/// fetched key and binds it; a key tag with any other method clears the
/// binding; the reference of a segment adds a descriptor with the next
/// index, the resolved address, the file `part_{index}.ts` in `dir` and the
/// binding in force.
pub open spec fn assembly_step(
    a: Assembly,
    line: LineView,
    base: Seq<char>,
    dir: Seq<char>,
    keys: Seq<Seq<u8>>,
) -> Result<Assembly, AssembleError> {
    match line {
        LineView::Key { method, uri, iv } => if is_aes128(method) {
            if a.keys_used >= keys.len() {
                Err(AssembleError::MissingKey)
            } else if keys[a.keys_used as int].len() < 16 {
                Err(AssembleError::KeyTooShort)
            } else {
                Ok(
                    Assembly {
                        binding: Some(binding_of(keys[a.keys_used as int], iv)),
                        keys_used: a.keys_used + 1,
                        segments: a.segments,
                    },
                )
            }
        } else {
            Ok(Assembly { binding: None, keys_used: a.keys_used, segments: a.segments })
        },
        LineView::Segment { uri } => Ok(
            Assembly {
                binding: a.binding,
                keys_used: a.keys_used,
                segments: a.segments.push(
                    SegmentView {
                        index: a.segments.len() as u64,
                        url: resolved(base, uri),
                        local_path: part_path(dir, a.segments.len() as u64),
                        encryption: a.binding,
                    },
                ),
            },
        ),
    }
}

/// The walk through all of `lines`, or the fault that stopped it.
pub open spec fn assembled(
    lines: Seq<LineView>,
    base: Seq<char>,
    dir: Seq<char>,
    keys: Seq<Seq<u8>>,
) -> Result<Assembly, AssembleError>
    decreases lines.len(),
{
    if lines.len() == 0 {
        Ok(Assembly { binding: None, keys_used: 0, segments: Seq::empty() })
    } else {
        match assembled(lines.drop_last(), base, dir, keys) {
            Err(e) => Err(e),
            Ok(a) => assembly_step(a, lines.last(), base, dir, keys),
        }
    }
}

/// The views of the byte vectors of a vector.
pub open spec fn byte_views(v: Seq<Vec<u8>>) -> Seq<Seq<u8>> {
    v.map_values(|b: Vec<u8>| b@)
}

/// Every descriptor stands at the place that its index names.
pub open spec fn well_indexed(s: Seq<SegmentView>) -> bool {
    forall|i: int| 0 <= i < s.len() ==> (#[trigger] s[i]).index == i
}

/// A fault found in the first `k` lines is the fault of the whole.
proof fn lemma_assembly_fault_stays(
    lines: Seq<LineView>,
    base: Seq<char>,
    dir: Seq<char>,
    keys: Seq<Seq<u8>>,
    k: int,
)
    requires
        0 <= k <= lines.len(),
        assembled(lines.take(k), base, dir, keys) is Err,
    ensures
        assembled(lines, base, dir, keys) == assembled(lines.take(k), base, dir, keys),
    decreases lines.len() - k,
{
    if k < lines.len() {
        assert(lines.take(k + 1).drop_last() =~= lines.take(k));
        lemma_assembly_fault_stays(lines, base, dir, keys, k + 1);
    } else {
        assert(lines.take(k) =~= lines);
    }
}

/// The segments of a finished walk are well indexed, and there are no more
/// of them than lines.
pub proof fn lemma_assembled_indices(
    lines: Seq<LineView>,
    base: Seq<char>,
    dir: Seq<char>,
    keys: Seq<Seq<u8>>,
)
    requires
        lines.len() <= u64::MAX,
    ensures
        assembled(lines, base, dir, keys) matches Ok(a) ==> well_indexed(a.segments)
            && a.segments.len() <= lines.len() && forall|i: int|
            0 <= i < a.segments.len() ==> (#[trigger] a.segments[i]).local_path == part_path(
                dir,
                i as u64,
            ),
    decreases lines.len(),
{
    if lines.len() > 0 {
        lemma_assembled_indices(lines.drop_last(), base, dir, keys);
    }
}

fn part_path_of(dir: &[char], index: u64) -> (out: String)
    ensures
        out@ == part_path(dir@, index),
{
    let mut path: Vec<char> = copy_chars(dir);
    let head: Vec<char> = to_chars("/part_");
    let tail: Vec<char> = to_chars(".ts");
    append_chars(&mut path, head.as_slice());
    push_decimal(&mut path, index as u128);
    append_chars(&mut path, tail.as_slice());
    from_chars(path.as_slice())
}

/// Makes the segment list of a playlist from its scanned lines and the keys
/// that were fetched for it, one for each address that [`key_requests`]
/// lists and in that order.
///
/// Segments are numbered from zero in playlist order. Each gets its
/// reference resolved against `base`, the file `part_{index}.ts` in
/// `temp_dir`, and the key binding of the last key tag before it: for method
/// AES-128 the first sixteen bytes of the fetched key with the vector of the
/// `IV` attribute, where that attribute is sixteen bytes of hexadecimal
/// digits after an optional `0x`; for any other method no binding.
pub fn assemble_segments(
    lines: &Vec<PlaylistLine>,
    base: &str,
    temp_dir: &str,
    keys: &Vec<Vec<u8>>,
) -> (r: Result<Vec<SegmentDescriptor>, AssembleError>)
    ensures
        match r {
            Ok(v) => assembled(line_views(lines@), base@, temp_dir@, byte_views(keys@)) matches Ok(
                a,
            ) && a.segments == segment_views(v@) && well_indexed(segment_views(v@)),
            Err(e) => assembled(line_views(lines@), base@, temp_dir@, byte_views(keys@)) == Err::<
                Assembly,
                AssembleError,
            >(e),
        },
{
    let b: Vec<char> = to_chars(base);
    let d: Vec<char> = to_chars(temp_dir);
    let ghost ls = line_views(lines@);
    let ghost ks = byte_views(keys@);
    let mut out: Vec<SegmentDescriptor> = Vec::new();
    let mut binding: Option<EncryptionInfo> = None;
    let mut used: usize = 0;
    let mut i: usize = 0;
    assert(ls.take(0) =~= Seq::<LineView>::empty());
    assert(segment_views(out@) =~= Seq::<SegmentView>::empty());
    while i < lines.len()
        invariant
            i <= lines.len(),
            ls == line_views(lines@),
            ks == byte_views(keys@),
            b@ == base@,
            d@ == temp_dir@,
            used <= keys.len(),
            used <= i,
            out.len() <= i,
            assembled(ls.take(i as int), base@, temp_dir@, ks) matches Ok(a) && a.binding
                == option_encryption_view(binding) && a.keys_used == used && a.segments
                == segment_views(out@),
        decreases lines.len() - i,
    {
        proof {
            assert(ls.take(i + 1).drop_last() =~= ls.take(i as int));
            assert(ls.take(i + 1).last() == lines@[i as int]@);
        }
        let ghost before = segment_views(out@);
        match &lines[i] {
            PlaylistLine::Key { method, uri, iv } => {
                if method_is_aes128(method.as_str()) {
                    if used >= keys.len() {
                        proof {
                            lemma_assembly_fault_stays(ls, base@, temp_dir@, ks, i + 1);
                        }
                        return Err(AssembleError::MissingKey);
                    }
                    assert(ks[used as int] == keys@[used as int]@);
                    let vector: Option<[u8; 16]> = match iv {
                        Some(t) => {
                            let chars: Vec<char> = to_chars(t.as_str());
                            parse_iv(chars.as_slice())
                        },
                        None => None,
                    };
                    match EncryptionInfo::from_key_body(keys[used].as_slice(), vector) {
                        Some(e) => {
                            binding = Some(e);
                            used += 1;
                        },
                        None => {
                            proof {
                                lemma_assembly_fault_stays(ls, base@, temp_dir@, ks, i + 1);
                            }
                            return Err(AssembleError::KeyTooShort);
                        },
                    }
                } else {
                    binding = None;
                }
            },
            PlaylistLine::Segment { uri } => {
                let index: u64 = out.len() as u64;
                let u: Vec<char> = to_chars(uri.as_str());
                let address: Vec<char> = resolve_chars(b.as_slice(), u.as_slice());
                let segment = SegmentDescriptor {
                    index,
                    url: from_chars(address.as_slice()),
                    local_path: part_path_of(d.as_slice(), index),
                    encryption: binding,
                };
                out.push(segment);
                assert(segment_views(out@) =~= before.push(segment@));
            },
        }
        i += 1;
    }
    proof {
        assert(ls.take(lines.len() as int) =~= ls);
        lemma_assembled_indices(ls, base@, temp_dir@, ks);
    }
    Ok(out)
}

/// The record of a segment that is kept between runs: the descriptor
/// without its index, which is the record's place in the list.
#[derive(Debug, Clone)]
pub struct SegmentMetadata {
    pub url: String,
    pub local_path: String,
    pub encryption: Option<EncryptionInfo>,
}

/// What a [`SegmentMetadata`] holds, as sequences.
pub ghost struct MetadataView {
    pub url: Seq<char>,
    pub local_path: Seq<char>,
    pub encryption: Option<EncryptionView>,
}

impl View for SegmentMetadata {
    type V = MetadataView;

    open spec fn view(&self) -> MetadataView {
        MetadataView {
            url: self.url@,
            local_path: self.local_path@,
            encryption: option_encryption_view(self.encryption),
        }
    }
}

/// The views of the records of a vector.
pub open spec fn metadata_views(v: Seq<SegmentMetadata>) -> Seq<MetadataView> {
    v.map_values(|m: SegmentMetadata| m@)
}

/// The records of a segment list, in order.
pub open spec fn records_of(s: Seq<SegmentView>) -> Seq<MetadataView> {
    Seq::new(
        s.len(),
        |i: int|
            MetadataView {
                url: s[i].url,
                local_path: s[i].local_path,
                encryption: s[i].encryption,
            },
    )
}

/// The segment list that a list of records stands for: each record with its
/// place as index.
pub open spec fn descriptors_of(m: Seq<MetadataView>) -> Seq<SegmentView> {
    Seq::new(
        m.len(),
        |i: int|
            SegmentView {
                index: i as u64,
                url: m[i].url,
                local_path: m[i].local_path,
                encryption: m[i].encryption,
            },
    )
}

/// Makes the records that are kept of a segment list.
pub fn to_metadata(segments: &Vec<SegmentDescriptor>) -> (out: Vec<SegmentMetadata>)
    ensures
        metadata_views(out@) == records_of(segment_views(segments@)),
{
    let mut out: Vec<SegmentMetadata> = Vec::new();
    let mut i: usize = 0;
    while i < segments.len()
        invariant
            i <= segments.len(),
            out.len() == i,
            forall|j: int|
                0 <= j < i ==> (#[trigger] out@[j])@ == records_of(segment_views(segments@))[j],
        decreases segments.len() - i,
    {
        let s: &SegmentDescriptor = &segments[i];
        let record = SegmentMetadata {
            url: s.url.clone(),
            local_path: s.local_path.clone(),
            encryption: s.encryption,
        };
        out.push(record);
        i += 1;
    }
    assert(metadata_views(out@) =~= records_of(segment_views(segments@)));
    out
}

/// Makes the segment list that kept records stand for.
pub fn from_metadata(records: &Vec<SegmentMetadata>) -> (out: Vec<SegmentDescriptor>)
    ensures
        segment_views(out@) == descriptors_of(metadata_views(records@)),
        well_indexed(segment_views(out@)),
{
    let mut out: Vec<SegmentDescriptor> = Vec::new();
    let mut i: usize = 0;
    while i < records.len()
        invariant
            i <= records.len(),
            out.len() == i,
            forall|j: int|
                0 <= j < i ==> (#[trigger] out@[j])@ == descriptors_of(
                    metadata_views(records@),
                )[j],
        decreases records.len() - i,
    {
        let m: &SegmentMetadata = &records[i];
        let segment = SegmentDescriptor {
            index: i as u64,
            url: m.url.clone(),
            local_path: m.local_path.clone(),
            encryption: m.encryption,
        };
        out.push(segment);
        i += 1;
    }
    assert(segment_views(out@) =~= descriptors_of(metadata_views(records@)));
    out
}

/// A segment list whose descriptors stand at the places that their indices
/// name comes back unchanged from its records.
pub proof fn lemma_records_roundtrip(s: Seq<SegmentView>)
    requires
        well_indexed(s),
    ensures
        descriptors_of(records_of(s)) == s,
{
    assert(descriptors_of(records_of(s)) =~= s);
}

/// The records of the segment list that records stand for are those
/// records.
pub proof fn lemma_descriptors_roundtrip(m: Seq<MetadataView>)
    ensures
        records_of(descriptors_of(m)) == m,
        well_indexed(descriptors_of(m)) <== m.len() <= u64::MAX,
{
    assert(records_of(descriptors_of(m)) =~= m);
}

} // verus!
