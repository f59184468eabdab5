//! One attempt at one segment: the request headers it is made with, what is
//! done with each chunk of the response, and what the whole response comes
//! to.
use crate::crypto::{
    decrypt_segment, segment_decrypted, DecryptError, EncryptionInfo, EncryptionView,
};
use crate::download_monitor::{samples_with, DownloadMetrics, MetricsView};
use crate::playlist::{is_success, status_is_success};
use crate::text::{contains_chars, contains_run, starts_with, to_chars};
use reqwest::header::{HeaderName, HeaderValue};
use vstd::prelude::*;
use vstd::utf8::encode_utf8;

verus! {

/// What a caller may set for a download: the headers that every request is
/// sent with, each a name and a value.
#[derive(Debug, Clone)]
pub struct DownloadOptions {
    pub headers: Vec<(String, String)>,
}

impl DownloadOptions {
    /// Options with no header.
    pub fn new() -> (r: Self)
        ensures
            r.headers@.len() == 0,
    {
        DownloadOptions { headers: Vec::new() }
    }
}

/// How one attempt at a segment ended, short of a fault.
#[derive(Debug, Clone)]
pub enum DownloadResult {
    /// The segment was written to the named file.
    Success(String),
    /// The response at the named address was empty or a page of markup;
    /// nothing was written.
    Skipped(String),
    /// The download was cancelled while the named address was read.
    Cancelled(String),
}

/// The bytes that may stand in the name of a header: the token characters,
/// which are the letters, the digits and ``!#$%&'*+-.^_`|~``.
pub open spec fn is_token_byte(b: u8) -> bool {
    ||| 0x30 <= b <= 0x39
    ||| 0x41 <= b <= 0x5A
    ||| 0x61 <= b <= 0x7A
    ||| b == 0x21
    ||| 0x23 <= b <= 0x27
    ||| b == 0x2A
    ||| b == 0x2B
    ||| b == 0x2D
    ||| b == 0x2E
    ||| b == 0x5E
    ||| b == 0x5F
    ||| b == 0x60
    ||| b == 0x7C
    ||| b == 0x7E
}

/// Whether bytes make the name of a header: between one and 65535 token
/// characters.
pub open spec fn is_header_name(bytes: Seq<u8>) -> bool {
    &&& 1 <= bytes.len() <= 65535
    &&& forall|i: int| 0 <= i < bytes.len() ==> is_token_byte(#[trigger] bytes[i])
}

/// The bytes that may stand in the value of a header: the tab, and
/// everything from the space upwards but the delete character.
pub open spec fn is_value_byte(b: u8) -> bool {
    (b >= 32 && b != 127) || b == 9
}

/// Whether bytes make the value of a header.
pub open spec fn is_header_value(bytes: Seq<u8>) -> bool {
    forall|i: int| 0 <= i < bytes.len() ==> is_value_byte(#[trigger] bytes[i])
}

/// Whether a header can be sent: its name and its value, as UTF-8, are
/// both well formed.
pub open spec fn header_ok(name: Seq<char>, value: Seq<char>) -> bool {
    is_header_name(encode_utf8(name)) && is_header_value(encode_utf8(value))
}

/// Calls `reqwest::header::HeaderName::from_bytes` on the bytes of `name`
/// and says whether it returned `Ok`. The contract states the test that the
/// function makes: the length is between 1 and 65535, and every byte maps
/// to a non-zero entry of its table of token characters.
#[verifier::external_body]
fn header_name_accepted(name: &str) -> (r: bool)
    ensures
        r == is_header_name(encode_utf8(name@)),
{
    HeaderName::from_bytes(name.as_bytes()).is_ok()
}

/// Calls `reqwest::header::HeaderValue::from_str` and says whether it
/// returned `Ok`. The contract states the test that the function makes:
/// every byte is at least 32 and not 127, or is the tab.
#[verifier::external_body]
fn header_value_accepted(value: &str) -> (r: bool)
    ensures
        r == is_header_value(encode_utf8(value@)),
{
    HeaderValue::from_str(value).is_ok()
}

/// A header as a pair of character sequences.
pub open spec fn pair_view(h: (String, String)) -> (Seq<char>, Seq<char>) {
    (h.0@, h.1@)
}

/// The views of the headers of a vector.
pub open spec fn header_views(v: Seq<(String, String)>) -> Seq<(Seq<char>, Seq<char>)> {
    v.map_values(|h: (String, String)| pair_view(h))
}

/// The headers among `hs` that can be sent, in order.
pub open spec fn sendable(hs: Seq<(Seq<char>, Seq<char>)>) -> Seq<(Seq<char>, Seq<char>)> {
    hs.filter(|h: (Seq<char>, Seq<char>)| header_ok(h.0, h.1))
}

/// Keeps the headers that can be sent: those whose name is a header name
/// and whose value is a header value. The others are dropped one by one;
/// none of them makes the download fail.
pub fn preprocess_headers(headers: &Vec<(String, String)>) -> (out: Vec<(String, String)>)
    ensures
        header_views(out@) == sendable(header_views(headers@)),
{
    let ghost hs = header_views(headers@);
    let ghost ok = |h: (Seq<char>, Seq<char>)| header_ok(h.0, h.1);
    let mut out: Vec<(String, String)> = Vec::new();
    let mut i: usize = 0;
    assert(hs.take(0) =~= Seq::<(Seq<char>, Seq<char>)>::empty());
    assert(header_views(out@) =~= Seq::<(Seq<char>, Seq<char>)>::empty());
    while i < headers.len()
        invariant
            i <= headers.len(),
            hs == header_views(headers@),
            ok == |h: (Seq<char>, Seq<char>)| header_ok(h.0, h.1),
            header_views(out@) == hs.take(i as int).filter(ok),
        decreases headers.len() - i,
    {
        let name: &String = &headers[i].0;
        let value: &String = &headers[i].1;
        let ghost before = header_views(out@);
        proof {
            assert(hs.take(i + 1) =~= hs.take(i as int).push(hs[i as int]));
            Seq::lemma_filter_push(hs.take(i as int), hs[i as int], ok);
            assert(hs[i as int] == (name@, value@));
        }
        if header_name_accepted(name.as_str()) && header_value_accepted(value.as_str()) {
            out.push((name.clone(), value.clone()));
            assert(header_views(out@) =~= before.push((name@, value@)));
        }
        i += 1;
    }
    assert(hs.take(headers.len() as int) =~= hs);
    out
}

/// Takes one chunk of a response. Where the download was cancelled the
/// chunk is dropped and the attempt ends; else the chunk is added to the
/// body read so far and counted in the metrics with the time it came at.
/// Returns whether the attempt goes on.
pub fn accept_chunk(
    body: &mut Vec<u8>,
    chunk: &[u8],
    cancelled: bool,
    metrics: &mut DownloadMetrics,
    now_ms: u64,
) -> (go_on: bool)
    ensures
        go_on == !cancelled,
        cancelled ==> final(body)@ == old(body)@ && final(metrics)@ == old(metrics)@,
        !cancelled ==> final(body)@ == old(body)@ + chunk@ && final(metrics)@ == (MetricsView {
            downloaded_bytes: old(metrics)@.downloaded_bytes.saturating_add(chunk@.len() as usize),
            samples: samples_with(old(metrics)@.samples, now_ms, chunk@.len() as usize),
            ..old(metrics)@
        }),
        final(metrics)@.completed_chunks == old(metrics)@.completed_chunks,
{
    if cancelled {
        return false;
    }
    let mut i: usize = 0;
    while i < chunk.len()
        invariant
            i <= chunk.len(),
            body@ == old(body)@ + chunk@.take(i as int),
        decreases chunk.len() - i,
    {
        body.push(chunk[i]);
        i += 1;
    }
    assert(chunk@.take(chunk.len() as int) =~= chunk@);
    metrics.record_chunk(now_ms, chunk.len());
    true
}

/// Whether a content type names a page of markup and no media: it begins
/// with `text/html` or holds `xml`.
pub open spec fn is_markup(content_type: Seq<char>) -> bool {
    "text/html"@.is_prefix_of(content_type) || contains_run(content_type, "xml"@)
}

/// What is done with a response that was read to its end.
#[derive(Debug, Clone, PartialEq, Eq)]
pub enum FetchVerdict {
    /// These bytes are the segment and are written to its file.
    Write(Vec<u8>),
    /// The response is no segment; nothing is written.
    Skip,
}

/// What is written of the bytes of a segment: nothing where there are
/// none, so that no empty file is ever written.
pub open spec fn written(data: Seq<u8>) -> Option<Seq<u8>> {
    if data.len() == 0 {
        None
    } else {
        Some(data)
    }
}

/// What a response comes to. An empty body, or one whose content type
/// names markup, is skipped. Else the body is the segment: as it is where
/// no key is bound, decrypted where one is; a body that cannot be decrypted
/// is a fault, and one that decrypts to nothing is skipped.
pub open spec fn fetch_concluded(
    body: Seq<u8>,
    content_type: Seq<char>,
    encryption: Option<EncryptionView>,
    index: u64,
) -> Result<Option<Seq<u8>>, DecryptError> {
    if body.len() == 0 || is_markup(content_type) {
        Ok(None)
    } else {
        match settled(
            body,
            match encryption {
                None => None,
                Some(e) => Some(segment_decrypted(e, index, body)),
            },
        ) {
            Ok(Some(data)) => Ok(written(data)),
            Ok(None) => Ok(None),
            Err(e) => Err(e),
        }
    }
}

/// The view of an optional reference to a key binding.
pub open spec fn option_binding_view(o: Option<&EncryptionInfo>) -> Option<EncryptionView> {
    match o {
        Some(e) => Some(e@),
        None => None,
    }
}

/// The bytes that a verdict has written, if any.
pub open spec fn verdict_view(v: FetchVerdict) -> Option<Seq<u8>> {
    match v {
        FetchVerdict::Write(data) => Some(data@),
        FetchVerdict::Skip => None,
    }
}

/// What becomes of a body that is a segment, once it was decrypted where a
/// key is bound: `decrypted` is `None` where no key is bound, else what the
/// decryption gave.
pub open spec fn settled(body: Seq<u8>, decrypted: Option<Option<Seq<u8>>>) -> Result<
    Option<Seq<u8>>,
    DecryptError,
> {
    match decrypted {
        None => Ok(Some(body)),
        Some(Some(plain)) => Ok(Some(plain)),
        Some(None) => Err(DecryptError),
    }
}

/// The view of what a decryption gave, where one was made.
pub open spec fn decrypted_view(d: Option<Result<Vec<u8>, DecryptError>>) -> Option<
    Option<Seq<u8>>,
> {
    match d {
        None => None,
        Some(Ok(plain)) => Some(Some(plain@)),
        Some(Err(_)) => Some(None),
    }
}

/// Whether a response is no segment: its body is empty, or its content
/// type names markup.
pub fn should_skip(body: &[u8], content_type: &str) -> (r: bool)
    ensures
        r == (body@.len() == 0 || is_markup(content_type@)),
{
    body.len() == 0 || content_is_markup(content_type)
}

/// Decides what is written for a body that is a segment. Where no key is
/// bound, `decrypted` is `None` and the body is written as it came. Where
/// one is bound, `decrypted` is what the decryption gave: the plain bytes,
/// which are written, or the fault, which is handed on.
pub fn settle_fetch(body: Vec<u8>, decrypted: Option<Result<Vec<u8>, DecryptError>>) -> (r: Result<
    FetchVerdict,
    DecryptError,
>)
    ensures
        match r {
            Ok(v) => settled(body@, decrypted_view(decrypted)) == Ok::<
                Option<Seq<u8>>,
                DecryptError,
            >(verdict_view(v)),
            Err(e) => settled(body@, decrypted_view(decrypted)) == Err::<
                Option<Seq<u8>>,
                DecryptError,
            >(e),
        },
        r matches Ok(v) ==> v is Write,
{
    match decrypted {
        None => Ok(FetchVerdict::Write(body)),
        Some(Ok(plain)) => Ok(FetchVerdict::Write(plain)),
        Some(Err(e)) => Err(e),
    }
}

/// Whether a content type names a page of markup.
pub fn content_is_markup(content_type: &str) -> (r: bool)
    ensures
        r == is_markup(content_type@),
{
    let ct: Vec<char> = to_chars(content_type);
    let html: Vec<char> = to_chars("text/html");
    let xml: Vec<char> = to_chars("xml");
    starts_with(ct.as_slice(), html.as_slice()) || contains_chars(ct.as_slice(), xml.as_slice())
}

/// Decides what a response that was read to its end comes to.
/// `content_type` is the value of the response's `Content-Type` header,
/// empty where it has none; `index` is the segment's index, from which the
/// initialisation vector is derived where the key tag named none.
pub fn conclude_fetch(
    body: Vec<u8>,
    content_type: &str,
    encryption: Option<&EncryptionInfo>,
    index: u64,
) -> (r: Result<FetchVerdict, DecryptError>)
    ensures
        match r {
            Ok(v) => fetch_concluded(body@, content_type@, option_binding_view(encryption), index)
                == Ok::<Option<Seq<u8>>, DecryptError>(verdict_view(v)),
            Err(e) => fetch_concluded(body@, content_type@, option_binding_view(encryption), index)
                == Err::<Option<Seq<u8>>, DecryptError>(e),
        },
        encryption is None ==> r is Ok,
        encryption is None ==> (r matches Ok(FetchVerdict::Write(data)) ==> data@ == body@),
        r matches Ok(FetchVerdict::Write(data)) ==> data@.len() > 0,
        encryption is Some && body@.len() > 0 && !is_markup(content_type@) && body@.len() % 16
            != 0 ==> r is Err,
{
    if should_skip(body.as_slice(), content_type) {
        return Ok(FetchVerdict::Skip);
    }
    let decrypted: Option<Result<Vec<u8>, DecryptError>> = match encryption {
        None => None,
        Some(e) => Some(decrypt_segment(e, index, body.as_slice())),
    };
    match settle_fetch(body, decrypted) {
        Ok(FetchVerdict::Write(data)) => {
            if data.len() == 0 {
                Ok(FetchVerdict::Skip)
            } else {
                Ok(FetchVerdict::Write(data))
            }
        },
        Ok(FetchVerdict::Skip) => Ok(FetchVerdict::Skip),
        Err(e) => Err(e),
    }
}

/// Why an attempt at a segment failed once its response was there.
#[derive(Debug, Clone, Copy, PartialEq, Eq, Structural)]
pub enum FetchFault {
    /// The server answered with this status, which lies outside 200 to
    /// 299.
    Status(u16),
    /// The body could not be decrypted.
    Decrypt,
}

/// What a response with its status comes to: a status outside 200 to 299
/// is a fault, whatever the body holds; else the response comes to what
/// its body comes to.
pub open spec fn response_concluded(
    status: u16,
    body: Seq<u8>,
    content_type: Seq<char>,
    encryption: Option<EncryptionView>,
    index: u64,
) -> Result<Option<Seq<u8>>, FetchFault> {
    if !is_success(status) {
        Err(FetchFault::Status(status))
    } else {
        match fetch_concluded(body, content_type, encryption, index) {
            Ok(v) => Ok(v),
            Err(_) => Err(FetchFault::Decrypt),
        }
    }
}

/// Decides what the response to the request for a segment comes to, from
/// its status and what [`conclude_fetch`] takes. A status outside 200 to
/// 299 is a fault before anything is written; the attempt is then made
/// again like after any other fault.
pub fn conclude_response(
    status: u16,
    body: Vec<u8>,
    content_type: &str,
    encryption: Option<&EncryptionInfo>,
    index: u64,
) -> (r: Result<FetchVerdict, FetchFault>)
    ensures
        match r {
            Ok(v) => response_concluded(
                status,
                body@,
                content_type@,
                option_binding_view(encryption),
                index,
            ) == Ok::<Option<Seq<u8>>, FetchFault>(verdict_view(v)),
            Err(e) => response_concluded(
                status,
                body@,
                content_type@,
                option_binding_view(encryption),
                index,
            ) == Err::<Option<Seq<u8>>, FetchFault>(e),
        },
        r == Err::<FetchVerdict, FetchFault>(FetchFault::Status(status)) <==> !is_success(status),
        r matches Ok(FetchVerdict::Write(data)) ==> data@.len() > 0,
{
    if !status_is_success(status) {
        return Err(FetchFault::Status(status));
    }
    match conclude_fetch(body, content_type, encryption, index) {
        Ok(v) => Ok(v),
        Err(_) => Err(FetchFault::Decrypt),
    }
}

} // verus!
