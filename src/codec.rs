//! The save container: a version tag, a 16-byte initialization vector and the
//! base64 text of the AES-256-CBC ciphertext of the zero-padded save.

use aes::cipher::block_padding::{UnpadError, ZeroPadding};
use aes::cipher::{BlockDecryptMut, BlockEncryptMut, KeyIvInit};
use data_encoding::DecodeError;
use vstd::prelude::*;
use vstd::slice::slice_subrange;

use crate::key_derivation::Key;

verus! {

/// An AES-CBC initialization vector.
pub type Iv = [u8; 16];

/// Length in bytes of the version tag at the start of a container.
pub const VERSION_LEN: usize = 6;

/// Offset of the base64 text: the version tag and the initialization vector come first.
pub const HEADER_LEN: usize = 22;

/// Length in bytes of an AES block.
pub const BLOCK_LEN: usize = 16;

/// The initialization vector of a fresh encryption: ASCII "0123456789ABCDEF".
pub const DEFAULT_IV: Iv = [
    0x30, 0x31, 0x32, 0x33, 0x34, 0x35, 0x36, 0x37,
    0x38, 0x39, 0x41, 0x42, 0x43, 0x44, 0x45, 0x46,
];

#[verifier::external_type_specification]
#[verifier::external_body]
pub struct ExDecodeError(DecodeError);

#[verifier::external_type_specification]
#[verifier::external_body]
pub struct ExUnpadError(UnpadError);

/// Why a container could not be decoded.
#[derive(Clone, Copy, Debug, PartialEq, Eq, Structural)]
pub enum CodecError {
    /// Too short to hold the version tag and the initialization vector.
    MalformedContainer,
    /// The text region is not valid base64.
    InvalidEncoding,
    /// The ciphertext is not a whole number of blocks.
    DecryptionFailure,
}

/// The version tag, ASCII "Ver:1\n".
pub open spec fn version_tag() -> Seq<u8> {
    seq![0x56u8, 0x65u8, 0x72u8, 0x3au8, 0x31u8, 0x0au8]
}

/// Space, tab, carriage return and newline: skipped inside the base64 text.
pub open spec fn is_ws(b: u8) -> bool {
    b == 0x20 || b == 0x09 || b == 0x0d || b == 0x0a
}

/// The bytes of `t` that are not whitespace, in order.
pub open spec fn strip_ws(t: Seq<u8>) -> Seq<u8> {
    t.filter(|b: u8| !is_ws(b))
}

/// `p` followed by the fewest zero bytes that make its length a multiple of the block length.
pub open spec fn zero_pad(p: Seq<u8>) -> Seq<u8> {
    if p.len() % 16 == 0 {
        p
    } else {
        p + Seq::new((16 - p.len() % 16) as nat, |i: int| 0u8)
    }
}

/// `s` without its trailing zero bytes.
pub open spec fn trim_zeros(s: Seq<u8>) -> Seq<u8>
    decreases s.len(),
{
    if s.len() == 0 || s.last() != 0 {
        s
    } else {
        trim_zeros(s.drop_last())
    }
}

/// Removal of zero padding: the trailing zero bytes of the last block are dropped.
pub open spec fn zero_unpad(b: Seq<u8>) -> Seq<u8> {
    let start = if b.len() >= 16 { b.len() - 16 } else { 0 };
    b.take(start) + trim_zeros(b.skip(start))
}

/// The standard base64 encoding (with padding, no line breaks) of `data`.
pub uninterp spec fn base64_encode_of(data: Seq<u8>) -> Seq<u8>;

/// The standard base64 decoding of `text`, `None` where `text` is not valid base64.
pub uninterp spec fn base64_decode_of(text: Seq<u8>) -> Option<Seq<u8>>;

/// AES-256 in CBC mode under `key` and `iv`, applied to whole blocks.
pub uninterp spec fn aes256_cbc_encrypt_of(key: Seq<u8>, iv: Seq<u8>, blocks: Seq<u8>) -> Seq<u8>;

/// AES-256 CBC decryption under `key` and `iv`, applied to whole blocks.
pub uninterp spec fn aes256_cbc_decrypt_of(key: Seq<u8>, iv: Seq<u8>, blocks: Seq<u8>) -> Seq<u8>;

/// Relies on `data_encoding::BASE64.encode`: standard base64 text, which holds
/// no whitespace and which decodes back to the input.
#[verifier::external_body]
fn base64_encode(data: &[u8]) -> (r: Vec<u8>)
    ensures
        r@ == base64_encode_of(data@),
        base64_decode_of(r@) == Some(data@),
        strip_ws(r@) == r@,
{
    data_encoding::BASE64.encode(data).into_bytes()
}

/// Relies on `data_encoding::Encoding::decode` for standard base64 whose
/// specification ignores space, tab, carriage return and newline: those bytes
/// are skipped and the rest is decoded.
#[verifier::external_body]
fn base64_decode_lenient(text: &[u8]) -> (r: Result<Vec<u8>, DecodeError>)
    ensures
        r is Ok <==> base64_decode_of(strip_ws(text@)) is Some,
        r is Ok ==> base64_decode_of(strip_ws(text@)) == Some(r->Ok_0@),
{
    let mut spec = data_encoding::BASE64.specification();
    spec.ignore.push_str(" \t\r\n");
    let encoding = spec.encoding().expect("valid base64 specification");
    encoding.decode(text)
}

/// Relies on `cbc::Encryptor<aes::Aes256>::encrypt_padded_vec_mut::<ZeroPadding>`:
/// the input is padded with zero bytes to a block boundary (nothing is added
/// to an aligned input) and encrypted in CBC mode; CBC decryption under the
/// same key and IV gives the padded input back.
#[verifier::external_body]
fn aes_cbc_encrypt(key: &Key, iv: &Iv, plaintext: &[u8]) -> (r: Vec<u8>)
    ensures
        r@ == aes256_cbc_encrypt_of(key@, iv@, zero_pad(plaintext@)),
        r@.len() == zero_pad(plaintext@).len(),
        aes256_cbc_decrypt_of(key@, iv@, r@) == zero_pad(plaintext@),
{
    cbc::Encryptor::<aes::Aes256>::new(key.into(), iv.into())
        .encrypt_padded_vec_mut::<ZeroPadding>(plaintext)
}

/// Relies on `cbc::Decryptor<aes::Aes256>::decrypt_padded_mut::<ZeroPadding>`:
/// it fails when the input is not a whole number of blocks, and otherwise
/// decrypts in CBC mode and drops the trailing zero bytes of the last block.
#[verifier::external_body]
fn aes_cbc_decrypt(key: &Key, iv: &Iv, ciphertext: Vec<u8>) -> (r: Result<Vec<u8>, UnpadError>)
    ensures
        r is Ok <==> ciphertext@.len() % 16 == 0,
        r is Ok ==> r->Ok_0@ == zero_unpad(aes256_cbc_decrypt_of(key@, iv@, ciphertext@)),
{
    let mut buf = ciphertext;
    let decryptor = cbc::Decryptor::<aes::Aes256>::new(key.into(), iv.into());
    let len = decryptor.decrypt_padded_mut::<ZeroPadding>(&mut buf)?.len();
    buf.truncate(len);
    Ok(buf)
}

/// The container that encrypting plaintext `p` under `key` and `iv` gives.
pub open spec fn encrypt_spec(p: Seq<u8>, key: Seq<u8>, iv: Seq<u8>) -> Seq<u8> {
    version_tag() + iv + base64_encode_of(aes256_cbc_encrypt_of(key, iv, zero_pad(p)))
}

/// The initialization vector stored in a container.
pub open spec fn iv_of(data: Seq<u8>) -> Seq<u8> {
    data.subrange(6, 22)
}

/// The text region of a container.
pub open spec fn text_of(data: Seq<u8>) -> Seq<u8> {
    data.skip(22)
}

/// The plaintext that decoding container `data` under `key` gives, or why it fails.
pub open spec fn decrypt_spec(data: Seq<u8>, key: Seq<u8>) -> Result<Seq<u8>, CodecError> {
    if data.len() < HEADER_LEN {
        Err(CodecError::MalformedContainer)
    } else {
        match base64_decode_of(strip_ws(text_of(data))) {
            None => Err(CodecError::InvalidEncoding),
            Some(ct) => if ct.len() % 16 != 0 {
                Err(CodecError::DecryptionFailure)
            } else {
                Ok(zero_unpad(aes256_cbc_decrypt_of(key, iv_of(data), ct)))
            },
        }
    }
}

/// An encrypted save container as raw bytes.
pub struct EncryptedSave {
    pub data: Vec<u8>,
}

/// The plaintext of a save.
pub struct DecryptedSave {
    pub text: Vec<u8>,
}

impl View for EncryptedSave {
    type V = Seq<u8>;

    open spec fn view(&self) -> Seq<u8> {
        self.data@
    }
}

impl View for DecryptedSave {
    type V = Seq<u8>;

    open spec fn view(&self) -> Seq<u8> {
        self.text@
    }
}

impl EncryptedSave {
    /// Wraps the bytes of a container.
    pub fn new(data: Vec<u8>) -> (r: EncryptedSave)
        ensures
            r@ == data@,
    {
        EncryptedSave { data }
    }

    /// The version tag region.
    pub fn _version(&self) -> (r: &[u8])
        requires
            self@.len() >= VERSION_LEN,
        ensures
            r@ == self@.take(6),
    {
        slice_subrange(self.data.as_slice(), 0, VERSION_LEN)
    }

    /// The initialization vector stored in the container.
    pub fn iv(&self) -> (r: Iv)
        requires
            self@.len() >= HEADER_LEN,
        ensures
            r@ == iv_of(self@),
    {
        let mut iv: Iv = [0u8; 16];
        let mut i: usize = 0;
        while i < BLOCK_LEN
            invariant
                i <= BLOCK_LEN,
                self@.len() >= HEADER_LEN,
                iv@.len() == BLOCK_LEN,
                forall|j: int| 0 <= j < i ==> iv@[j] == self@[j + 6],
            decreases BLOCK_LEN - i,
        {
            iv[i] = self.data[i + VERSION_LEN];
            i = i + 1;
        }
        proof {
            assert(iv@ =~= iv_of(self@));
        }
        iv
    }

    /// The base64 text region.
    pub fn text(&self) -> (r: &[u8])
        requires
            self@.len() >= HEADER_LEN,
        ensures
            r@ == text_of(self@),
    {
        let r = slice_subrange(self.data.as_slice(), HEADER_LEN, self.data.len());
        proof {
            assert(r@ =~= text_of(self@));
        }
        r
    }

    /// Decodes the container under `key`.
    pub fn decrypt(&self, key: &Key) -> (r: Result<DecryptedSave, CodecError>)
        ensures
            match r {
                Ok(save) => decrypt_spec(self@, key@) == Ok::<Seq<u8>, CodecError>(save@),
                Err(e) => decrypt_spec(self@, key@) == Err::<Seq<u8>, CodecError>(e),
            },
    {
        if self.data.len() < HEADER_LEN {
            return Err(CodecError::MalformedContainer);
        }
        let ciphertext = match base64_decode_lenient(self.text()) {
            Ok(ct) => ct,
            Err(_) => return Err(CodecError::InvalidEncoding),
        };
        let iv = self.iv();
        match aes_cbc_decrypt(key, &iv, ciphertext) {
            Ok(text) => Ok(DecryptedSave { text }),
            Err(_) => Err(CodecError::DecryptionFailure),
        }
    }
}

impl DecryptedSave {
    /// Wraps plaintext bytes.
    pub fn new(text: Vec<u8>) -> (r: DecryptedSave)
        ensures
            r@ == text@,
    {
        DecryptedSave { text }
    }

    /// Encrypts the save under `key` and `iv`, or under the default IV where none is given.
    pub fn encrypt(self, key: &Key, iv: Option<&Iv>) -> (r: EncryptedSave)
        ensures
            ({
                let used = match iv {
                    Some(v) => v@,
                    None => DEFAULT_IV@,
                };
                &&& r@ == encrypt_spec(self@, key@, used)
                &&& r@.take(6) == version_tag()
                &&& iv_of(r@) == used
                &&& (self@.len() == 0 || self@.last() != 0) ==> decrypt_spec(r@, key@)
                    == Ok::<Seq<u8>, CodecError>(self@)
            }),
    {
        let used: Iv = match iv {
            Some(v) => *v,
            None => DEFAULT_IV,
        };
        let ciphertext = aes_cbc_encrypt(key, &used, self.text.as_slice());
        let encoded = base64_encode(ciphertext.as_slice());
        let mut data: Vec<u8> = Vec::new();
        data.push(0x56);
        data.push(0x65);
        data.push(0x72);
        data.push(0x3a);
        data.push(0x31);
        data.push(0x0a);
        let mut i: usize = 0;
        while i < BLOCK_LEN
            invariant
                i <= BLOCK_LEN,
                data@ == version_tag() + used@.take(i as int),
            decreases BLOCK_LEN - i,
        {
            data.push(used[i]);
            i = i + 1;
            proof {
                assert(used@.take(i as int) =~= used@.take(i - 1).push(used@[i - 1]));
            }
        }
        let mut j: usize = 0;
        while j < encoded.len()
            invariant
                j <= encoded@.len(),
                data@ == version_tag() + used@ + encoded@.take(j as int),
            decreases encoded@.len() - j,
        {
            data.push(encoded[j]);
            j = j + 1;
            proof {
                assert(encoded@.take(j as int) =~= encoded@.take(j - 1).push(encoded@[j - 1]));
            }
        }
        proof {
            assert(used@.take(16) =~= used@);
            assert(encoded@.take(encoded@.len() as int) =~= encoded@);
            assert(data@.take(6) =~= version_tag());
            assert(iv_of(data@) =~= used@);
            assert(text_of(data@) =~= encoded@);
            if self@.len() == 0 || self@.last() != 0 {
                lemma_unpad_of_pad(self@);
            }
        }
        EncryptedSave { data }
    }
}

/// Zero padding is undone when the plaintext does not end in a zero byte.
pub proof fn lemma_unpad_of_pad(p: Seq<u8>)
    requires
        p.len() == 0 || p.last() != 0,
    ensures
        zero_unpad(zero_pad(p)) == p,
{
    let n = p.len();
    if n % 16 == 0 {
        if n > 0 {
            let start = n - 16;
            assert(p.skip(start).last() == p.last());
            assert(p.take(start) + p.skip(start) =~= p);
        } else {
            assert(p.take(0) + p.skip(0) =~= p);
        }
    } else {
        let k = (16 - n % 16) as nat;
        let zeros = Seq::new(k, |i: int| 0u8);
        let padded = p + zeros;
        let start = padded.len() - 16;
        assert(start <= n) by {
            assert(padded.len() == n + k);
        }
        let q = p.skip(start);
        assert(q.len() > 0);
        assert(q.last() == p.last());
        assert(padded.skip(start) =~= q + zeros);
        lemma_trim_zeros_tail(q, k);
        assert(padded.take(start) =~= p.take(start));
        assert(p.take(start) + q =~= p);
    }
}

/// Whitespace bytes inserted anywhere in the text region of a container
/// leave the result of decoding it unchanged.
pub proof fn lemma_whitespace_tolerance(data: Seq<u8>, at: int, ws: Seq<u8>, key: Seq<u8>)
    requires
        HEADER_LEN <= at <= data.len(),
        forall|i: int| 0 <= i < ws.len() ==> is_ws(#[trigger] ws[i]),
    ensures
        decrypt_spec(data.take(at) + ws + data.skip(at), key) == decrypt_spec(data, key),
{
    let wide = data.take(at) + ws + data.skip(at);
    let mid = data.subrange(22, at);
    let rest = data.skip(at);
    let pred = |b: u8| !is_ws(b);
    assert(iv_of(wide) =~= iv_of(data));
    assert(text_of(wide) =~= mid + ws + rest);
    assert(text_of(data) =~= mid + rest);
    Seq::filter_distributes_over_add(mid + ws, rest, pred);
    Seq::filter_distributes_over_add(mid, ws, pred);
    Seq::filter_distributes_over_add(mid, rest, pred);
    lemma_strip_ws_of_whitespace(ws);
    assert(strip_ws(text_of(wide)) =~= strip_ws(text_of(data)));
}

proof fn lemma_strip_ws_of_whitespace(ws: Seq<u8>)
    requires
        forall|i: int| 0 <= i < ws.len() ==> is_ws(#[trigger] ws[i]),
    ensures
        strip_ws(ws) =~= Seq::<u8>::empty(),
    decreases ws.len(),
{
    reveal(Seq::filter);
    if ws.len() > 0 {
        assert(is_ws(ws[ws.len() - 1]));
        lemma_strip_ws_of_whitespace(ws.drop_last());
    }
}

proof fn lemma_trim_zeros_tail(q: Seq<u8>, k: nat)
    requires
        q.len() > 0,
        q.last() != 0,
    ensures
        trim_zeros(q + Seq::new(k, |i: int| 0u8)) == q,
    decreases k,
{
    let s = q + Seq::new(k, |i: int| 0u8);
    if k == 0 {
        assert(s =~= q);
    } else {
        assert(s.last() == 0);
        assert(s.drop_last() =~= q + Seq::new((k - 1) as nat, |i: int| 0u8));
        lemma_trim_zeros_tail(q, (k - 1) as nat);
    }
}

} // verus!
