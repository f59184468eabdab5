//! Reading a playlist: the check of the response that carried it, the scan
//! of its lines, and the list of segment descriptors that the lines and the
//! fetched keys give.
use crate::key_tag::{key_tag_parsed, parse_key_tag, KeyTagError};
use crate::text::{
    contains_chars, contains_run, ends_with, from_chars, is_space_char, skip_spaces, split_chars,
    split_on, starts_with, to_chars, to_upper, trim, trimmed, upper, views,
};
use vstd::prelude::*;

verus! {

/// Why the response to the request for the playlist is not a playlist.
#[derive(Debug, Clone, Copy, PartialEq, Eq, Structural)]
pub enum ResponseError {
    /// The server answered 403.
    Forbidden,
    /// The server answered 404.
    NotFound,
    /// The server answered with another status outside 200 to 299.
    Status(u16),
    /// The content type names no playlist and no plain text.
    ContentType,
    /// The body does not begin with `#EXTM3U`.
    MissingMarker,
}

/// Whether a status says that a request succeeded: it lies in 200 to 299.
pub open spec fn is_success(status: u16) -> bool {
    200 <= status <= 299
}

/// Whether a status says that a request succeeded. A request for a key or
/// for a segment that ends with any other status has failed.
pub fn status_is_success(status: u16) -> (r: bool)
    ensures
        r == is_success(status),
{
    200 <= status && status <= 299
}

/// Whether a content type may carry a playlist: in any case of letters, it
/// holds `mpegurl`, `m3u8`, `plain`, `text` or `application/octet-stream`.
pub open spec fn playlist_type(content_type: Seq<char>) -> bool {
    let u = upper(content_type);
    ||| contains_run(u, "MPEGURL"@)
    ||| contains_run(u, "M3U8"@)
    ||| contains_run(u, "PLAIN"@)
    ||| contains_run(u, "TEXT"@)
    ||| contains_run(u, "APPLICATION/OCTET-STREAM"@)
}

/// Whether a body begins, after white space, with the playlist marker.
pub open spec fn has_marker(body: Seq<char>) -> bool {
    "#EXTM3U"@.is_prefix_of(skip_spaces(body))
}

/// What the check of a response gives: the status is looked at first, then
/// the content type, where there is one, then the body.
pub open spec fn response_checked(
    status: u16,
    content_type: Option<Seq<char>>,
    body: Seq<char>,
) -> Result<(), ResponseError> {
    if status == 403 {
        Err(ResponseError::Forbidden)
    } else if status == 404 {
        Err(ResponseError::NotFound)
    } else if !is_success(status) {
        Err(ResponseError::Status(status))
    } else if content_type is Some && !playlist_type(content_type->0) {
        Err(ResponseError::ContentType)
    } else if !has_marker(body) {
        Err(ResponseError::MissingMarker)
    } else {
        Ok(())
    }
}

/// The view of an optional string.
pub open spec fn option_str_view(o: Option<&str>) -> Option<Seq<char>> {
    match o {
        Some(s) => Some(s@),
        None => None,
    }
}

fn is_playlist_type(content_type: &[char]) -> (r: bool)
    ensures
        r == playlist_type(content_type@),
{
    let u: Vec<char> = to_upper(content_type);
    let a: Vec<char> = to_chars("MPEGURL");
    let b: Vec<char> = to_chars("M3U8");
    let c: Vec<char> = to_chars("PLAIN");
    let d: Vec<char> = to_chars("TEXT");
    let e: Vec<char> = to_chars("APPLICATION/OCTET-STREAM");
    contains_chars(u.as_slice(), a.as_slice()) || contains_chars(u.as_slice(), b.as_slice())
        || contains_chars(u.as_slice(), c.as_slice()) || contains_chars(u.as_slice(), d.as_slice())
        || contains_chars(u.as_slice(), e.as_slice())
}

fn body_has_marker(body: &[char]) -> (r: bool)
    ensures
        r == has_marker(body@),
{
    let marker: Vec<char> = to_chars("#EXTM3U");
    let n: usize = body.len();
    let mut a: usize = 0;
    assert(body@.subrange(0, n as int) =~= body@);
    while a < n && is_space_char(body[a])
        invariant
            n == body.len(),
            a <= n,
            skip_spaces(body@) == skip_spaces(body@.subrange(a as int, n as int)),
        decreases n - a,
    {
        assert(body@.subrange(a as int, n as int).drop_first() =~= body@.subrange(
            a + 1,
            n as int,
        ));
        a += 1;
    }
    starts_with(&body[a..n], marker.as_slice())
}

/// Checks the response that should carry a playlist, before any of it is
/// read: its status, its content type where it has one, and the marker at
/// the head of its body.
pub fn validate_playlist_response(status: u16, content_type: Option<&str>, body: &str) -> (r:
    Result<(), ResponseError>)
    ensures
        r == response_checked(status, option_str_view(content_type), body@),
{
    if status == 403 {
        return Err(ResponseError::Forbidden);
    }
    if status == 404 {
        return Err(ResponseError::NotFound);
    }
    if !status_is_success(status) {
        return Err(ResponseError::Status(status));
    }
    match content_type {
        Some(ct) => {
            let chars: Vec<char> = to_chars(ct);
            if !is_playlist_type(chars.as_slice()) {
                return Err(ResponseError::ContentType);
            }
        },
        None => {},
    }
    let chars: Vec<char> = to_chars(body);
    if !body_has_marker(chars.as_slice()) {
        return Err(ResponseError::MissingMarker);
    }
    Ok(())
}

/// A line of a playlist that counts: a key tag or the reference of a
/// segment.
#[derive(Debug, Clone)]
pub enum PlaylistLine {
    /// An `#EXT-X-KEY` tag with its attributes.
    Key { method: String, uri: String, iv: Option<String> },
    /// A line that ends in `.ts`.
    Segment { uri: String },
}

/// What a [`PlaylistLine`] holds, as sequences of characters.
pub ghost enum LineView {
    Key { method: Seq<char>, uri: Seq<char>, iv: Option<Seq<char>> },
    Segment { uri: Seq<char> },
}

impl View for PlaylistLine {
    type V = LineView;

    open spec fn view(&self) -> LineView {
        match *self {
            PlaylistLine::Key { method, uri, iv } => LineView::Key {
                method: method@,
                uri: uri@,
                iv: match iv {
                    Some(t) => Some(t@),
                    None => None,
                },
            },
            PlaylistLine::Segment { uri } => LineView::Segment { uri: uri@ },
        }
    }
}

/// The views of the lines of a vector.
pub open spec fn line_views(v: Seq<PlaylistLine>) -> Seq<LineView> {
    v.map_values(|l: PlaylistLine| l@)
}

/// What one line of a playlist is, once trimmed: a key tag where it begins
/// with `#EXT-X-KEY:`, readable or not; else the reference of a segment
/// where it ends in `.ts`; else nothing.
pub open spec fn line_read(line: Seq<char>) -> Option<Result<LineView, KeyTagError>> {
    let t = trimmed(line);
    if "#EXT-X-KEY:"@.is_prefix_of(t) {
        Some(
            match key_tag_parsed(t) {
                Ok(a) => Ok(LineView::Key { method: a.method, uri: a.uri, iv: a.iv }),
                Err(e) => Err(e),
            },
        )
    } else if ".ts"@.is_suffix_of(t) {
        Some(Ok(LineView::Segment { uri: t }))
    } else {
        None
    }
}

/// The lines that count among `lines`, in order, or the fault of the first
/// key tag that cannot be read.
pub open spec fn lines_read(lines: Seq<Seq<char>>) -> Result<Seq<LineView>, KeyTagError>
    decreases lines.len(),
{
    if lines.len() == 0 {
        Ok(Seq::empty())
    } else {
        match lines_read(lines.drop_last()) {
            Err(e) => Err(e),
            Ok(before) => match line_read(lines.last()) {
                None => Ok(before),
                Some(Ok(l)) => Ok(before.push(l)),
                Some(Err(e)) => Err(e),
            },
        }
    }
}

/// What the scan of a playlist body gives.
pub open spec fn scanned(body: Seq<char>) -> Result<Seq<LineView>, KeyTagError> {
    lines_read(split_on(body, '\n'))
}

/// A fault found in the first `k` lines is the fault of the whole.
proof fn lemma_fault_stays(lines: Seq<Seq<char>>, k: int)
    requires
        0 <= k <= lines.len(),
        lines_read(lines.take(k)) is Err,
    ensures
        lines_read(lines) == lines_read(lines.take(k)),
    decreases lines.len() - k,
{
    if k < lines.len() {
        assert(lines.take(k + 1).drop_last() =~= lines.take(k));
        lemma_fault_stays(lines, k + 1);
    } else {
        assert(lines.take(k) =~= lines);
    }
}

/// Scans the body of a playlist line by line. Each line is trimmed; a line
/// that begins with `#EXT-X-KEY:` is read as a key tag, any other line that
/// ends in `.ts` is the reference of a segment, and the rest is passed over.
/// The scan fails where a key tag cannot be read.
pub fn scan_playlist(body: &str) -> (r: Result<Vec<PlaylistLine>, KeyTagError>)
    ensures
        match r {
            Ok(v) => scanned(body@) == Ok::<Seq<LineView>, KeyTagError>(line_views(v@)),
            Err(e) => scanned(body@) == Err::<Seq<LineView>, KeyTagError>(e),
        },
{
    let chars: Vec<char> = to_chars(body);
    let lines: Vec<Vec<char>> = split_chars(chars.as_slice(), '\n');
    let key_prefix: Vec<char> = to_chars("#EXT-X-KEY:");
    let ts: Vec<char> = to_chars(".ts");
    let ghost ls = split_on(body@, '\n');
    let mut out: Vec<PlaylistLine> = Vec::new();
    let mut i: usize = 0;
    assert(ls.take(0) =~= Seq::<Seq<char>>::empty());
    assert(line_views(out@) =~= Seq::<LineView>::empty());
    while i < lines.len()
        invariant
            i <= lines.len(),
            views(lines@) == ls,
            ls == split_on(body@, '\n'),
            key_prefix@ == "#EXT-X-KEY:"@,
            ts@ == ".ts"@,
            lines_read(ls.take(i as int)) == Ok::<Seq<LineView>, KeyTagError>(line_views(out@)),
        decreases lines.len() - i,
    {
        let t: &[char] = trim(lines[i].as_slice());
        assert(t@ == trimmed(ls[i as int]));
        proof {
            assert(ls.take(i + 1).drop_last() =~= ls.take(i as int));
            assert(ls.take(i + 1).last() == ls[i as int]);
        }
        let ghost before = line_views(out@);
        if starts_with(t, key_prefix.as_slice()) {
            match parse_key_tag(t) {
                Ok((method, uri, iv)) => {
                    let iv_text: Option<String> = match iv {
                        Some(v) => Some(from_chars(v.as_slice())),
                        None => None,
                    };
                    let line = PlaylistLine::Key {
                        method: from_chars(method.as_slice()),
                        uri: from_chars(uri.as_slice()),
                        iv: iv_text,
                    };
                    out.push(line);
                    assert(line_views(out@) =~= before.push(line@));
                },
                Err(e) => {
                    proof {
                        lemma_fault_stays(ls, i + 1);
                    }
                    return Err(e);
                },
            }
        } else if ends_with(t, ts.as_slice()) {
            let line = PlaylistLine::Segment { uri: from_chars(t) };
            out.push(line);
            assert(line_views(out@) =~= before.push(line@));
        }
        i += 1;
    }
    assert(ls.take(lines.len() as int) =~= ls);
    Ok(out)
}

} // verus!
