//! Legacy iterated-SHA1 derivation of a 32-byte key from an account identifier.

use sha1::{Digest, Sha1};
use vstd::prelude::*;
use vstd::utf8::encode_utf8;

verus! {

/// Fixed text placed before every account identifier to form the password.
pub const PASSWORD_PREFIX: &'static str = "hewasindeedandtaforthisimpl";

/// Fixed salt appended to the password before hashing.
pub const SALT: &'static str = "the salty tears provide thy nourishment";

/// Length in bytes of a derived key.
pub const KEY_LEN: usize = 32;

/// Length in bytes of a SHA1 digest.
pub const DIGEST_LEN: usize = 20;

/// A derived symmetric key.
pub type Key = [u8; 32];

/// The SHA1 digest of a byte sequence.
pub uninterp spec fn sha1_of(data: Seq<u8>) -> Seq<u8>;

/// Relies on `sha1::Sha1::digest`: the 20-byte SHA1 digest of the input,
/// which depends on the input bytes alone.
#[verifier::external_body]
fn sha1_digest(data: &[u8]) -> (r: Vec<u8>)
    ensures
        r@ == sha1_of(data@),
        r@.len() == DIGEST_LEN,
{
    Sha1::digest(data).to_vec()
}

/// The ASCII decimal digits of `n`, most significant first, without leading zeros.
pub open spec fn decimal_digits(n: nat) -> Seq<u8>
    decreases n,
{
    if n < 10 {
        seq![(48 + n) as u8]
    } else {
        decimal_digits(n / 10).push((48 + n % 10) as u8)
    }
}

/// The password for an account identifier: the fixed prefix followed by the identifier.
pub open spec fn password_of(id: Seq<char>) -> Seq<char> {
    PASSWORD_PREFIX@ + id
}

/// The bytes hashed first: the UTF-8 password followed by the UTF-8 salt.
pub open spec fn seed_of(password: Seq<char>) -> Seq<u8> {
    encode_utf8(password) + encode_utf8(SALT@)
}

/// Appends `SHA1(decimal(counter) || h1)` for counter = `counter`, `counter + 1`, ...
/// while fewer than `KEY_LEN` bytes have been accumulated.
pub open spec fn extend_key(h1: Seq<u8>, acc: Seq<u8>, counter: nat) -> Seq<u8>
    decreases KEY_LEN + 1 - counter,
{
    if acc.len() >= KEY_LEN || counter > KEY_LEN {
        acc
    } else {
        extend_key(h1, acc + sha1_of(decimal_digits(counter) + h1), counter + 1)
    }
}

/// The key that the legacy derivation gives for a password.
pub open spec fn pbkdf1_spec(password: Seq<char>) -> Seq<u8> {
    let h1 = sha1_of(seed_of(password));
    extend_key(h1, sha1_of(h1), 1).take(KEY_LEN as int)
}

/// The key derived for an account identifier.
pub open spec fn derive_key_spec(id: Seq<char>) -> Seq<u8> {
    pbkdf1_spec(password_of(id))
}

/// The ASCII decimal representation of `n`.
pub fn decimal_ascii(n: usize) -> (r: Vec<u8>)
    ensures
        r@ == decimal_digits(n as nat),
    decreases n,
{
    if n < 10 {
        let d: u8 = 48u8 + n as u8;
        let mut v: Vec<u8> = Vec::new();
        v.push(d);
        proof {
            assert(v@ =~= decimal_digits(n as nat));
        }
        v
    } else {
        let mut v = decimal_ascii(n / 10);
        let d: u8 = 48u8 + (n % 10) as u8;
        v.push(d);
        v
    }
}

/// Appends the bytes of `src` to `dst`.
fn append_bytes(dst: &mut Vec<u8>, src: &[u8])
    ensures
        final(dst)@ == old(dst)@ + src@,
{
    let mut i: usize = 0;
    while i < src.len()
        invariant
            i <= src@.len(),
            dst@ == old(dst)@ + src@.take(i as int),
        decreases src@.len() - i,
    {
        dst.push(src[i]);
        i = i + 1;
        proof {
            assert(src@.take(i as int) =~= src@.take(i - 1).push(src@[i - 1]));
        }
    }
    proof {
        assert(src@.take(i as int) =~= src@);
    }
}

/// The password for an account identifier: the fixed prefix followed by `id`.
pub fn generate_password(id: &str) -> (r: String)
    ensures
        r@ == password_of(id@),
{
    let prefix = PASSWORD_PREFIX.to_owned();
    prefix.concat(id)
}

/// Derives a key from a password with the legacy two-round SHA1 construction.
pub fn pbkdf1(password: &str) -> (key: Key)
    ensures
        key@ == pbkdf1_spec(password@),
{
    let mut seed: Vec<u8> = Vec::new();
    append_bytes(&mut seed, password.as_bytes());
    append_bytes(&mut seed, SALT.as_bytes());
    let h1 = sha1_digest(seed.as_slice());
    let mut bytes = sha1_digest(h1.as_slice());
    let mut counter: usize = 1;
    while bytes.len() < KEY_LEN
        invariant
            1 <= counter <= 2,
            bytes@.len() == DIGEST_LEN * counter,
            h1@ == sha1_of(seed_of(password@)),
            extend_key(h1@, bytes@, counter as nat) == extend_key(h1@, sha1_of(h1@), 1),
        decreases 2 - counter,
    {
        let mut block = decimal_ascii(counter);
        append_bytes(&mut block, h1.as_slice());
        let digest = sha1_digest(block.as_slice());
        append_bytes(&mut bytes, digest.as_slice());
        counter = counter + 1;
    }
    let mut key: Key = [0u8; 32];
    let mut i: usize = 0;
    while i < KEY_LEN
        invariant
            i <= KEY_LEN,
            bytes@.len() >= KEY_LEN,
            key@.len() == KEY_LEN,
            forall|j: int| 0 <= j < i ==> key@[j] == bytes@[j],
        decreases KEY_LEN - i,
    {
        key[i] = bytes[i];
        i = i + 1;
    }
    proof {
        assert(key@ =~= bytes@.take(KEY_LEN as int));
    }
    key
}

/// Derives the key that belongs to an account identifier.
pub fn derive_key(id: &str) -> (key: Key)
    ensures
        key@ == derive_key_spec(id@),
{
    let password = generate_password(id);
    pbkdf1(password.as_str())
}

/// Deriving a key depends on the identifier alone: equal identifiers give equal keys.
pub proof fn lemma_derive_key_deterministic(a: Seq<char>, b: Seq<char>)
    requires
        a == b,
    ensures
        derive_key_spec(a) == derive_key_spec(b),
{
}

} // verus!
