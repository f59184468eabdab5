//! The attribute list of an `#EXT-X-KEY` tag.
use crate::text::{
    chars_eq, copy_chars, find_char, first_index_of, from_chars, lemma_first_index_of,
    starts_with, to_chars, trim, trimmed, views,
};
use vstd::prelude::*;

verus! {

/// Why a line is not a key tag that can be read.
#[derive(Debug, Clone, Copy, PartialEq, Eq, Structural)]
pub enum KeyTagError {
    /// One of the comma-separated attributes has no `=`.
    MissingValue,
}

/// What a key tag says: the attributes `METHOD`, `URI` and `IV`.
pub ghost struct KeyAttributes {
    pub method: Seq<char>,
    pub uri: Seq<char>,
    pub iv: Option<Seq<char>>,
}

/// `s` without `p` at its front, where it begins with `p`; else `s`.
pub open spec fn without_leading(s: Seq<char>, p: Seq<char>) -> Seq<char> {
    if p.is_prefix_of(s) {
        s.subrange(p.len() as int, s.len() as int)
    } else {
        s
    }
}

/// The position of the first comma of `s` that stands outside double
/// quotes, or the length of `s` where there is none. `quoted` says whether
/// `s` begins inside double quotes; each double quote opens or closes them.
pub open spec fn first_top_comma(s: Seq<char>, quoted: bool) -> nat
    decreases s.len(),
{
    if s.len() == 0 {
        0
    } else if s[0] == '"' {
        1 + first_top_comma(s.drop_first(), !quoted)
    } else if s[0] == ',' && !quoted {
        0
    } else {
        1 + first_top_comma(s.drop_first(), quoted)
    }
}

/// The number of double quotes in `s`.
pub open spec fn quote_count(s: Seq<char>) -> nat
    decreases s.len(),
{
    if s.len() == 0 {
        0
    } else if s.last() == '"' {
        quote_count(s.drop_last()) + 1
    } else {
        quote_count(s.drop_last())
    }
}

/// Whether the character at `i` is a comma at the top level: a comma with
/// an even number of double quotes before it.
pub open spec fn is_top_comma(s: Seq<char>, i: int) -> bool {
    0 <= i < s.len() && s[i] == ',' && quote_count(s.subrange(0, i)) % 2 == 0
}

/// The pieces of `s` between its commas at the top level: a comma between
/// double quotes belongs to the piece it stands in.
pub open spec fn split_top_level(s: Seq<char>) -> Seq<Seq<char>>
    decreases s.len(),
{
    let i = first_top_comma(s, false);
    if i >= s.len() {
        seq![s]
    } else {
        seq![s.subrange(0, i as int)] + split_top_level(s.subrange(i as int + 1, s.len() as int))
    }
}

proof fn lemma_quote_count_front(s: Seq<char>, k: int)
    requires
        0 < k <= s.len(),
    ensures
        quote_count(s.subrange(0, k)) == quote_count(s.drop_first().subrange(0, k - 1)) + if s[0]
            == '"' {
            1nat
        } else {
            0nat
        },
    decreases k,
{
    let a = s.subrange(0, k);
    let b = s.drop_first().subrange(0, k - 1);
    if k == 1 {
        assert(a.drop_last().len() == 0);
        assert(quote_count(a.drop_last()) == 0);
        assert(b.len() == 0);
        assert(quote_count(b) == 0);
        assert(a.last() == s[0]);
    } else {
        lemma_quote_count_front(s, k - 1);
        assert(a.drop_last() =~= s.subrange(0, k - 1));
        assert(b.drop_last() =~= s.drop_first().subrange(0, k - 2));
        assert(a.last() == s[k - 1]);
        assert(b.last() == s.drop_first()[k - 2]);
        assert(quote_count(a) == quote_count(a.drop_last()) + if a.last() == '"' {
            1nat
        } else {
            0nat
        });
        assert(quote_count(b) == quote_count(b.drop_last()) + if b.last() == '"' {
            1nat
        } else {
            0nat
        });
    }
}

/// The first comma outside double quotes is the first comma at the top
/// level: none stands before it, and where it lies within `s` it is one.
/// Here `q` is the number of double quotes that came before `s`.
pub proof fn lemma_first_top_comma(s: Seq<char>, q: nat)
    ensures
        first_top_comma(s, q % 2 == 1) <= s.len(),
        forall|j: int|
            0 <= j < first_top_comma(s, q % 2 == 1) ==> !(#[trigger] s[j] == ',' && (q
                + quote_count(s.subrange(0, j))) % 2 == 0),
        first_top_comma(s, q % 2 == 1) < s.len() ==> s[first_top_comma(s, q % 2 == 1) as int]
            == ',' && (q + quote_count(s.subrange(0, first_top_comma(s, q % 2 == 1) as int))) % 2
            == 0,
    decreases s.len(),
{
    let quoted = q % 2 == 1;
    let r = first_top_comma(s, quoted);
    if s.len() == 0 {
    } else if s[0] == ',' && !quoted {
        assert(s.subrange(0, 0).len() == 0);
    } else {
        let t = s.drop_first();
        let q2: nat = if s[0] == '"' {
            q + 1
        } else {
            q
        };
        lemma_first_top_comma(t, q2);
        assert forall|j: int| 0 <= j < r implies !(#[trigger] s[j] == ',' && (q + quote_count(
            s.subrange(0, j),
        )) % 2 == 0) by {
            if j == 0 {
                assert(s.subrange(0, 0).len() == 0);
            } else {
                lemma_quote_count_front(s, j);
                assert(s[j] == t[j - 1]);
            }
        }
        if r < s.len() {
            lemma_quote_count_front(s, r as int);
            assert(s[r as int] == t[r - 1]);
        }
    }
}

/// The first comma outside double quotes is a comma at the top level, and
/// no comma at the top level stands before it.
pub proof fn lemma_first_top_comma_is_top(s: Seq<char>)
    ensures
        first_top_comma(s, false) <= s.len(),
        forall|j: int| 0 <= j < first_top_comma(s, false) ==> !is_top_comma(s, j),
        first_top_comma(s, false) < s.len() ==> is_top_comma(s, first_top_comma(s, false) as int),
{
    lemma_first_top_comma(s, 0);
    assert forall|j: int| 0 <= j < first_top_comma(s, false) implies !is_top_comma(s, j) by {
        assert(!(s[j] == ',' && (0 + quote_count(s.subrange(0, j))) % 2 == 0));
    }
}

/// `s` without the `c` characters at its front.
pub open spec fn skip_char(s: Seq<char>, c: char) -> Seq<char>
    decreases s.len(),
{
    if s.len() > 0 && s[0] == c {
        skip_char(s.drop_first(), c)
    } else {
        s
    }
}

/// `s` without the `c` characters at its back.
pub open spec fn drop_trailing_char(s: Seq<char>, c: char) -> Seq<char>
    decreases s.len(),
{
    if s.len() > 0 && s.last() == c {
        drop_trailing_char(s.drop_last(), c)
    } else {
        s
    }
}

/// `s` without the double quotes at either end.
pub open spec fn unquoted(s: Seq<char>) -> Seq<char> {
    drop_trailing_char(skip_char(s, '"'), '"')
}

/// Whether an attribute has a name and a value: it holds a `=`.
pub open spec fn attribute_ok(f: Seq<char>) -> bool {
    first_index_of(f, '=') < f.len()
}

/// The name of an attribute: what stands before its first `=`, trimmed.
pub open spec fn attribute_name(f: Seq<char>) -> Seq<char> {
    trimmed(f.subrange(0, first_index_of(f, '=') as int))
}

/// The value of an attribute: what stands after its first `=`, trimmed and
/// without surrounding double quotes.
pub open spec fn attribute_value(f: Seq<char>) -> Seq<char> {
    unquoted(trimmed(f.subrange(first_index_of(f, '=') as int + 1, f.len() as int)))
}

/// The attributes known so far, with one more attribute read.
pub open spec fn with_attribute(a: KeyAttributes, f: Seq<char>) -> KeyAttributes {
    let name = attribute_name(f);
    let value = attribute_value(f);
    if name == "METHOD"@ {
        KeyAttributes { method: value, uri: a.uri, iv: a.iv }
    } else if name == "URI"@ {
        KeyAttributes { method: a.method, uri: value, iv: a.iv }
    } else if name == "IV"@ {
        KeyAttributes { method: a.method, uri: a.uri, iv: Some(value) }
    } else {
        a
    }
}

/// What a list of attributes says: of each recognised name the last value
/// counts; a method or an address that is never given is empty.
pub open spec fn attributes_of(fs: Seq<Seq<char>>) -> KeyAttributes
    decreases fs.len(),
{
    if fs.len() == 0 {
        KeyAttributes { method: Seq::empty(), uri: Seq::empty(), iv: None }
    } else {
        with_attribute(attributes_of(fs.drop_last()), fs.last())
    }
}

/// The attributes of a key tag line: what follows the tag's name, trimmed
/// and split at the commas that stand outside double quotes.
pub open spec fn key_attributes_list(line: Seq<char>) -> Seq<Seq<char>> {
    split_top_level(trimmed(without_leading(line, "#EXT-X-KEY:"@)))
}

/// Whether every attribute of a list has a name and a value.
pub open spec fn all_attributes_ok(fs: Seq<Seq<char>>) -> bool {
    forall|i: int| 0 <= i < fs.len() ==> attribute_ok(#[trigger] fs[i])
}

/// What reading a key tag line gives.
pub open spec fn key_tag_parsed(line: Seq<char>) -> Result<KeyAttributes, KeyTagError> {
    let fs = key_attributes_list(line);
    if all_attributes_ok(fs) {
        Ok(attributes_of(fs))
    } else {
        Err(KeyTagError::MissingValue)
    }
}

/// The view of an optional run of characters.
pub open spec fn option_view(o: Option<Vec<char>>) -> Option<Seq<char>> {
    match o {
        Some(v) => Some(v@),
        None => None,
    }
}

fn strip_leading<'a>(s: &'a [char], p: &[char]) -> (r: &'a [char])
    ensures
        r@ == without_leading(s@, p@),
{
    if starts_with(s, p) {
        &s[p.len()..s.len()]
    } else {
        s
    }
}

fn find_top_comma(s: &[char]) -> (i: usize)
    ensures
        i == first_top_comma(s@, false),
{
    let n: usize = s.len();
    let mut k: usize = 0;
    let mut quoted: bool = false;
    assert(s@.subrange(0, n as int) =~= s@);
    while k < n && (quoted || s[k] != ',')
        invariant
            n == s.len(),
            k <= n,
            first_top_comma(s@, false) == k + first_top_comma(
                s@.subrange(k as int, n as int),
                quoted,
            ),
        decreases n - k,
    {
        assert(s@.subrange(k as int, n as int).drop_first() =~= s@.subrange(k + 1, n as int));
        if s[k] == '"' {
            quoted = !quoted;
        }
        k += 1;
    }
    k
}

fn split_at_top_commas(s: &[char]) -> (out: Vec<Vec<char>>)
    ensures
        views(out@) == split_top_level(s@),
{
    let n: usize = s.len();
    let mut out: Vec<Vec<char>> = Vec::new();
    let mut start: usize = 0;
    assert(s@.subrange(0, n as int) =~= s@);
    assert(views(out@) + split_top_level(s@) =~= split_top_level(s@));
    loop
        invariant_except_break
            n == s.len(),
            start <= n,
            split_top_level(s@) == views(out@) + split_top_level(
                s@.subrange(start as int, n as int),
            ),
        ensures
            views(out@) == split_top_level(s@),
        decreases n - start,
    {
        let rest: &[char] = &s[start..n];
        let i: usize = find_top_comma(rest);
        proof {
            lemma_first_top_comma_is_top(rest@);
        }
        let piece: Vec<char> = copy_chars(&rest[0..i]);
        let ghost before = views(out@);
        out.push(piece);
        assert(views(out@) =~= before.push(rest@.subrange(0, i as int)));
        if i >= rest.len() {
            assert(rest@.subrange(0, i as int) =~= rest@);
            break ;
        }
        assert(rest@.subrange(i + 1, rest@.len() as int) =~= s@.subrange(
            start + i + 1,
            n as int,
        ));
        start = start + i + 1;
    }
    out
}

fn strip_char(s: &[char], c: char) -> (r: &[char])
    ensures
        r@ == drop_trailing_char(skip_char(s@, c), c),
{
    let n: usize = s.len();
    let mut a: usize = 0;
    assert(s@.subrange(0, n as int) =~= s@);
    while a < n && s[a] == c
        invariant
            n == s.len(),
            a <= n,
            skip_char(s@, c) == skip_char(s@.subrange(a as int, n as int), c),
        decreases n - a,
    {
        assert(s@.subrange(a as int, n as int).drop_first() =~= s@.subrange(a + 1, n as int));
        a += 1;
    }
    assert(skip_char(s@, c) == s@.subrange(a as int, n as int));
    let mut b: usize = n;
    while b > a && s[b - 1] == c
        invariant
            n == s.len(),
            a <= b <= n,
            drop_trailing_char(skip_char(s@, c), c) == drop_trailing_char(
                s@.subrange(a as int, b as int),
                c,
            ),
        decreases b,
    {
        assert(s@.subrange(a as int, b as int).drop_last() =~= s@.subrange(a as int, b - 1));
        b -= 1;
    }
    &s[a..b]
}

/// Reads the attributes of a key tag from a run of characters.
pub fn parse_key_tag(line: &[char]) -> (r: Result<
    (Vec<char>, Vec<char>, Option<Vec<char>>),
    KeyTagError,
>)
    ensures
        match r {
            Ok((method, uri, iv)) => key_tag_parsed(line@) matches Ok(a) && a.method == method@
                && a.uri == uri@ && a.iv == option_view(iv),
            Err(e) => key_tag_parsed(line@) == Err::<KeyAttributes, KeyTagError>(e),
        },
{
    let prefix: Vec<char> = to_chars("#EXT-X-KEY:");
    let name_method: Vec<char> = to_chars("METHOD");
    let name_uri: Vec<char> = to_chars("URI");
    let name_iv: Vec<char> = to_chars("IV");
    let content: &[char] = trim(strip_leading(line, prefix.as_slice()));
    let parts: Vec<Vec<char>> = split_at_top_commas(content);
    let ghost fs = key_attributes_list(line@);
    assert(views(parts@) == fs);
    let mut method: Vec<char> = Vec::new();
    let mut uri: Vec<char> = Vec::new();
    let mut iv: Option<Vec<char>> = None;
    let mut i: usize = 0;
    assert(fs.take(0) =~= Seq::<Seq<char>>::empty());
    while i < parts.len()
        invariant
            i <= parts.len(),
            views(parts@) == fs,
            fs == key_attributes_list(line@),
            name_method@ == "METHOD"@,
            name_uri@ == "URI"@,
            name_iv@ == "IV"@,
            all_attributes_ok(fs.take(i as int)),
            attributes_of(fs.take(i as int)).method == method@,
            attributes_of(fs.take(i as int)).uri == uri@,
            attributes_of(fs.take(i as int)).iv == option_view(iv),
        decreases parts.len() - i,
    {
        let part: &[char] = parts[i].as_slice();
        assert(part@ == fs[i as int]);
        let eq: usize = find_char(part, '=');
        proof {
            lemma_first_index_of(part@, '=');
        }
        if eq >= part.len() {
            assert(!attribute_ok(fs[i as int]));
            return Err(KeyTagError::MissingValue);
        }
        let name: &[char] = trim(&part[0..eq]);
        let value: &[char] = strip_char(trim(&part[eq + 1..part.len()]), '"');
        assert(name@ == attribute_name(fs[i as int]));
        assert(value@ == attribute_value(fs[i as int]));
        proof {
            assert(fs.take(i + 1).drop_last() =~= fs.take(i as int));
            assert(fs.take(i + 1).last() == fs[i as int]);
            assert forall|j: int| 0 <= j < i + 1 implies attribute_ok(
                #[trigger] fs.take(i + 1)[j],
            ) by {
                if j < i {
                    assert(fs.take(i + 1)[j] == fs.take(i as int)[j]);
                }
            }
        }
        if chars_eq(name, name_method.as_slice()) {
            method = copy_chars(value);
        } else if chars_eq(name, name_uri.as_slice()) {
            uri = copy_chars(value);
        } else if chars_eq(name, name_iv.as_slice()) {
            iv = Some(copy_chars(value));
        }
        i += 1;
    }
    assert(fs.take(parts.len() as int) =~= fs);
    Ok((method, uri, iv))
}

/// Reads an `#EXT-X-KEY` tag: the tag's name is taken off the front, the rest
/// is split at the commas outside double quotes, and each piece at its first
/// `=` into a name and a value, both trimmed, the value also freed of
/// surrounding double quotes.
/// Returns the values of `METHOD`, `URI` and `IV`; a method or an address
/// that the tag does not give is empty. A piece without `=` makes the whole
/// tag unreadable.
pub fn parse_ext_x_key(line: &str) -> (r: Result<(String, String, Option<String>), KeyTagError>)
    ensures
        match r {
            Ok((method, uri, iv)) => key_tag_parsed(line@) matches Ok(a) && a.method == method@
                && a.uri == uri@ && match iv {
                Some(v) => a.iv == Some(v@),
                None => a.iv.is_none(),
            },
            Err(e) => key_tag_parsed(line@) == Err::<KeyAttributes, KeyTagError>(e),
        },
{
    let chars: Vec<char> = to_chars(line);
    match parse_key_tag(chars.as_slice()) {
        Ok((method, uri, iv)) => {
            let iv_text: Option<String> = match iv {
                Some(v) => Some(from_chars(v.as_slice())),
                None => None,
            };
            Ok((from_chars(method.as_slice()), from_chars(uri.as_slice()), iv_text))
        },
        Err(e) => Err(e),
    }
}

} // verus!
