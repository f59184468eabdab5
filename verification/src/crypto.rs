//! Key material of encrypted segments: what a key tag binds, which
//! initialisation vector a segment is decrypted with, and the decryption
//! itself.
use crate::hex::{decode_hex, hex_decoded};
use crate::text::{starts_with, to_chars};
use aes::Aes128;
use cbc::Decryptor;
use cipher::{block_padding::Pkcs7, BlockDecryptMut, KeyIvInit};
use vstd::arithmetic::div_mod::lemma_div_denominator;
use vstd::prelude::*;

verus! {

/// The key of a run of segments, and the initialisation vector where the key
/// tag gave one. Once made it does not change.
#[derive(Debug, Clone, Copy)]
pub struct EncryptionInfo {
    key: [u8; 16],
    iv: Option<[u8; 16]>,
}

/// What an [`EncryptionInfo`] holds, as sequences of bytes.
pub ghost struct EncryptionView {
    pub key: Seq<u8>,
    pub iv: Option<Seq<u8>>,
}

impl View for EncryptionInfo {
    type V = EncryptionView;

    closed spec fn view(&self) -> EncryptionView {
        EncryptionView { key: self.key@, iv: option_array_view(self.iv) }
    }
}

/// A segment body that is not a whole number of cipher blocks, or whose
/// padding is malformed once decrypted.
#[derive(Debug, Clone, Copy, PartialEq, Eq, Structural)]
pub struct DecryptError;

/// The weight of byte `i` of a 16-byte big-endian number, for the eight low
/// bytes `8..16`.
pub open spec fn byte_weight(i: int) -> int {
    if i == 15 {
        0x1
    } else if i == 14 {
        0x100
    } else if i == 13 {
        0x1_0000
    } else if i == 12 {
        0x100_0000
    } else if i == 11 {
        0x1_0000_0000
    } else if i == 10 {
        0x100_0000_0000
    } else if i == 9 {
        0x1_0000_0000_0000
    } else {
        0x100_0000_0000_0000
    }
}

/// The initialisation vector of the segment with the given index, where the
/// key tag names none: eight zero bytes, then the index as a 64-bit
/// big-endian number.
pub open spec fn index_iv(index: u64) -> Seq<u8> {
    Seq::new(
        16,
        |i: int|
            if i < 8 {
                0u8
            } else {
                ((index as int / byte_weight(i)) % 256) as u8
            },
    )
}

/// The number that the low eight bytes of a 16-byte sequence stand for, read
/// big-endian.
pub open spec fn low_half_value(iv: Seq<u8>) -> int {
    iv[8] * byte_weight(8) + iv[9] * byte_weight(9) + iv[10] * byte_weight(10) + iv[11]
        * byte_weight(11) + iv[12] * byte_weight(12) + iv[13] * byte_weight(13) + iv[14]
        * byte_weight(14) + iv[15] * byte_weight(15)
}

/// The derived vector has sixteen bytes, its high half is zero, and its low
/// half reads back as the index.
pub proof fn lemma_index_iv(index: u64)
    ensures
        index_iv(index).len() == 16,
        forall|i: int| 0 <= i < 8 ==> index_iv(index)[i] == 0,
        low_half_value(index_iv(index)) == index,
{
    let x = index as int;
    let iv = index_iv(index);
    let q1 = x / 256;
    let q2 = q1 / 256;
    let q3 = q2 / 256;
    let q4 = q3 / 256;
    let q5 = q4 / 256;
    let q6 = q5 / 256;
    let q7 = q6 / 256;
    assert(q2 == x / 0x1_0000) by {
        lemma_div_denominator(x, 0x100, 256);
    }
    assert(q3 == x / 0x100_0000) by {
        lemma_div_denominator(x, 0x1_0000, 256);
    }
    assert(q4 == x / 0x1_0000_0000) by {
        lemma_div_denominator(x, 0x100_0000, 256);
    }
    assert(q5 == x / 0x100_0000_0000) by {
        lemma_div_denominator(x, 0x1_0000_0000, 256);
    }
    assert(q6 == x / 0x1_0000_0000_0000) by {
        lemma_div_denominator(x, 0x100_0000_0000, 256);
    }
    assert(q7 == x / 0x100_0000_0000_0000) by {
        lemma_div_denominator(x, 0x1_0000_0000_0000, 256);
    }
    assert(q7 < 256);
    assert(iv[15] == x % 256);
    assert(iv[14] == q1 % 256);
    assert(iv[13] == q2 % 256);
    assert(iv[12] == q3 % 256);
    assert(iv[11] == q4 % 256);
    assert(iv[10] == q5 % 256);
    assert(iv[9] == q6 % 256);
    assert(iv[8] == q7);
    assert(x == q1 * 256 + x % 256);
    assert(q1 == q2 * 256 + q1 % 256);
    assert(q2 == q3 * 256 + q2 % 256);
    assert(q3 == q4 * 256 + q3 % 256);
    assert(q4 == q5 * 256 + q4 % 256);
    assert(q5 == q6 * 256 + q5 % 256);
    assert(q6 == q7 * 256 + q6 % 256);
}

/// Derives the initialisation vector of a segment from its index.
pub fn derive_iv(index: u64) -> (iv: [u8; 16])
    ensures
        iv@ == index_iv(index),
{
    let mut iv: [u8; 16] = [0u8;16];
    iv[8] = ((index / 0x100_0000_0000_0000) % 256) as u8;
    iv[9] = ((index / 0x1_0000_0000_0000) % 256) as u8;
    iv[10] = ((index / 0x100_0000_0000) % 256) as u8;
    iv[11] = ((index / 0x1_0000_0000) % 256) as u8;
    iv[12] = ((index / 0x100_0000) % 256) as u8;
    iv[13] = ((index / 0x1_0000) % 256) as u8;
    iv[14] = ((index / 0x100) % 256) as u8;
    iv[15] = (index % 256) as u8;
    assert(iv@ =~= index_iv(index));
    iv
}

/// `t` without a leading `0x` or `0X`.
pub open spec fn without_radix_mark(t: Seq<char>) -> Seq<char> {
    if "0x"@.is_prefix_of(t) || "0X"@.is_prefix_of(t) {
        t.subrange(2, t.len() as int)
    } else {
        t
    }
}

/// The vector that the `IV` attribute of a key tag names: its hexadecimal
/// digits, after an optional `0x`, where they make exactly sixteen bytes.
pub open spec fn iv_of_text(t: Seq<char>) -> Option<Seq<u8>> {
    match hex_decoded(without_radix_mark(t)) {
        Ok(bytes) => if bytes.len() == 16 {
            Some(bytes)
        } else {
            None
        },
        Err(_) => None,
    }
}

impl EncryptionView {
    /// The vector that the segment with the given index is decrypted with:
    /// the one that the key tag named, else the one derived from the index.
    pub open spec fn iv_for(self, index: u64) -> Seq<u8> {
        match self.iv {
            Some(iv) => iv,
            None => index_iv(index),
        }
    }
}

/// The sixteen bytes of an optional array.
pub open spec fn option_array_view(o: Option<[u8; 16]>) -> Option<Seq<u8>> {
    match o {
        Some(a) => Some(a@),
        None => None,
    }
}

/// The first sixteen bytes of `bytes` as an array.
fn first_block(bytes: &[u8]) -> (out: [u8; 16])
    requires
        bytes@.len() >= 16,
    ensures
        out@ == bytes@.subrange(0, 16),
{
    let mut out: [u8; 16] = [0u8;16];
    let mut i: usize = 0;
    while i < 16
        invariant
            i <= 16,
            bytes@.len() >= 16,
            forall|j: int| 0 <= j < i ==> out@[j] == bytes@[j],
        decreases 16 - i,
    {
        out[i] = bytes[i];
        i += 1;
    }
    assert(out@ =~= bytes@.subrange(0, 16));
    out
}

/// Reads the value of the `IV` attribute of a key tag.
pub fn parse_iv(text: &[char]) -> (r: Option<[u8; 16]>)
    ensures
        option_array_view(r) == iv_of_text(text@),
{
    let lower: Vec<char> = to_chars("0x");
    let upper: Vec<char> = to_chars("0X");
    proof {
        reveal_strlit("0x");
        reveal_strlit("0X");
    }
    let digits: &[char] = if starts_with(text, lower.as_slice()) || starts_with(
        text,
        upper.as_slice(),
    ) {
        &text[2..text.len()]
    } else {
        text
    };
    match decode_hex(digits) {
        Ok(bytes) => {
            if bytes.len() == 16 {
                let block: [u8; 16] = first_block(bytes.as_slice());
                assert(bytes@.subrange(0, 16) =~= bytes@);
                Some(block)
            } else {
                None
            }
        },
        Err(_) => None,
    }
}

impl EncryptionInfo {
    /// A binding of the given key and vector.
    pub fn new(key: [u8; 16], iv: Option<[u8; 16]>) -> (e: Self)
        ensures
            e@ == (EncryptionView { key: key@, iv: option_array_view(iv) }),
    {
        EncryptionInfo { key, iv }
    }

    /// The key.
    pub fn key(&self) -> (k: [u8; 16])
        ensures
            k@ == self@.key,
    {
        self.key
    }

    /// The vector that the key tag named, if it named one.
    pub fn iv(&self) -> (v: Option<[u8; 16]>)
        ensures
            option_array_view(v) == self@.iv,
    {
        self.iv
    }

    /// Binds the key that a key address returned. The key is the first
    /// sixteen bytes of what was returned; fewer are no key.
    pub fn from_key_body(body: &[u8], iv: Option<[u8; 16]>) -> (r: Option<EncryptionInfo>)
        ensures
            r is Some <==> body@.len() >= 16,
            r matches Some(e) ==> e@ == (EncryptionView {
                key: body@.subrange(0, 16),
                iv: option_array_view(iv),
            }),
    {
        if body.len() >= 16 {
            Some(EncryptionInfo { key: first_block(body), iv })
        } else {
            None
        }
    }


    /// The vector that the segment with the given index is decrypted with:
    /// the one that the key tag named, else the one derived from the index.
    pub fn segment_iv(&self, index: u64) -> (iv: [u8; 16])
        ensures
            iv@ == self@.iv_for(index),
    {
        match self.iv {
            Some(iv) => iv,
            None => derive_iv(index),
        }
    }
}

/// What AES-128 in CBC mode with PKCS#7 padding makes of `data` under `key`
/// and `iv`: the plain bytes, or `None` where `data` is not a whole number of
/// blocks or the padding found after decryption is malformed.
pub uninterp spec fn aes128_cbc_decrypted(key: Seq<u8>, iv: Seq<u8>, data: Seq<u8>) -> Option<
    Seq<u8>,
>;

/// The bytes of an optional vector.
pub open spec fn option_bytes(o: Option<Vec<u8>>) -> Option<Seq<u8>> {
    match o {
        Some(v) => Some(v@),
        None => None,
    }
}

/// Calls `cbc::Decryptor::<Aes128>::new` and then
/// `decrypt_padded_vec_mut::<Pkcs7>` on the result. The contract names what
/// comes back, and adds what the method's documentation says of the input's
/// length: an input that is not a whole number of 16-byte blocks is refused.
/// An empty input has no last block to take the padding from and is refused
/// as well.
#[verifier::external_body]
fn cbc_decrypt(key: &[u8; 16], iv: &[u8; 16], data: &[u8]) -> (r: Option<Vec<u8>>)
    ensures
        option_bytes(r) == aes128_cbc_decrypted(key@, iv@, data@),
        data@.len() == 0 || data@.len() % 16 != 0 ==> r.is_none(),
{
    let decryptor = Decryptor::<Aes128>::new(key.into(), iv.into());
    decryptor.decrypt_padded_vec_mut::<Pkcs7>(data).ok()
}

/// What decrypting the body of the segment with the given index gives.
pub open spec fn segment_decrypted(enc: EncryptionView, index: u64, body: Seq<u8>) -> Option<
    Seq<u8>,
> {
    aes128_cbc_decrypted(enc.key, enc.iv_for(index), body)
}

/// Decrypts the whole body of a segment with AES-128 in CBC mode and takes
/// the PKCS#7 padding off. The vector is the one of the key tag, or the one
/// derived from the segment's index.
pub fn decrypt_segment(enc: &EncryptionInfo, index: u64, body: &[u8]) -> (r: Result<
    Vec<u8>,
    DecryptError,
>)
    ensures
        match r {
            Ok(plain) => segment_decrypted(enc@, index, body@) == Some(plain@),
            Err(_) => segment_decrypted(enc@, index, body@).is_none(),
        },
        body@.len() == 0 || body@.len() % 16 != 0 ==> r is Err,
{
    let iv: [u8; 16] = enc.segment_iv(index);
    match cbc_decrypt(&enc.key, &iv, body) {
        Some(plain) => Ok(plain),
        None => Err(DecryptError),
    }
}

} // verus!
