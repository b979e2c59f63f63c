use automachef_saves::codec::{CodecError, DecryptedSave, EncryptedSave, DEFAULT_IV};
use automachef_saves::key_derivation::{
    decimal_ascii, derive_key, generate_password, pbkdf1, Key,
};

const STEAM_ID: &str = "76561198000000000";
const PLAIN: &[u8] = b"{\"level\":3,\"stars\":2}";
const CIPHER_B64: &str = "JvuP3rJKX8f8d/2oCyDtdQ52v6Im0SD8uTTdZi4ODYo=";

fn steam_key() -> Key {
    derive_key(STEAM_ID)
}

fn container(iv: &[u8], text: &str) -> Vec<u8> {
    let mut data = b"Ver:1\n".to_vec();
    data.extend_from_slice(iv);
    data.extend_from_slice(text.as_bytes());
    data
}

#[test]
fn derive_key_golden_vector() {
    let expected: Key = [
        82, 162, 111, 59, 233, 240, 244, 103, 115, 53, 7, 222, 139, 46, 22, 38, 163, 41, 80, 110,
        134, 234, 82, 109, 235, 40, 108, 203, 30, 21, 25, 175,
    ];
    assert_eq!(derive_key(STEAM_ID), expected);
}

#[test]
fn derive_key_twitch_vector() {
    let expected: Key = [
        117, 239, 212, 159, 156, 37, 104, 41, 191, 178, 241, 160, 191, 172, 46, 144, 13, 0, 46,
        195, 198, 91, 253, 75, 33, 137, 13, 133, 175, 46, 90, 122,
    ];
    assert_eq!(derive_key("YWprc2g1NGZkaGo0MzJoMjM0amg="), expected);
}

#[test]
fn derive_key_empty_identifier() {
    let expected: Key = [
        117, 240, 80, 7, 160, 95, 63, 218, 58, 36, 91, 68, 204, 63, 57, 159, 36, 113, 228, 4, 90,
        73, 51, 141, 173, 95, 182, 149, 239, 212, 228, 94,
    ];
    assert_eq!(derive_key(""), expected);
}

#[test]
fn derive_key_is_deterministic() {
    assert_eq!(derive_key("some-epic-id"), derive_key("some-epic-id"));
    assert_ne!(derive_key("some-epic-id"), derive_key("other-epic-id"));
}

#[test]
fn generate_password_prepends_prefix() {
    assert_eq!(generate_password("abc"), "hewasindeedandtaforthisimplabc");
    assert_eq!(generate_password(""), "hewasindeedandtaforthisimpl");
}

#[test]
fn pbkdf1_of_password_matches_derive_key() {
    assert_eq!(pbkdf1(&generate_password(STEAM_ID)), steam_key());
}

#[test]
fn decimal_ascii_digits() {
    assert_eq!(decimal_ascii(0), b"0".to_vec());
    assert_eq!(decimal_ascii(7), b"7".to_vec());
    assert_eq!(decimal_ascii(10), b"10".to_vec());
    assert_eq!(decimal_ascii(1234), b"1234".to_vec());
}

#[test]
fn encrypt_gives_exact_container() {
    let save = DecryptedSave::new(PLAIN.to_vec());
    let out = save.encrypt(&steam_key(), None);
    assert_eq!(out.data, container(b"0123456789ABCDEF", CIPHER_B64));
}

#[test]
fn decrypt_exact_container() {
    let save = EncryptedSave::new(container(b"0123456789ABCDEF", CIPHER_B64));
    let plain = save.decrypt(&steam_key()).unwrap();
    assert_eq!(plain.text, PLAIN.to_vec());
}

#[test]
fn round_trip_various_lengths() {
    let key = derive_key("round-trip");
    let iv: [u8; 16] = *b"fedcba9876543210";
    for len in [0usize, 1, 15, 16, 17, 31, 32, 33, 100] {
        let p: Vec<u8> = (0..len).map(|i| (i % 250) as u8 + 1).collect();
        let enc = DecryptedSave::new(p.clone()).encrypt(&key, Some(&iv));
        let dec = enc.decrypt(&key).unwrap();
        assert_eq!(dec.text, p, "length {}", len);
        let enc = DecryptedSave::new(p.clone()).encrypt(&key, None);
        assert_eq!(enc.decrypt(&key).unwrap().text, p);
    }
}

#[test]
fn trailing_zero_bytes_are_lost() {
    let key = steam_key();
    let enc = DecryptedSave::new(vec![1, 2, 3, 0, 0]).encrypt(&key, None);
    assert_eq!(enc.decrypt(&key).unwrap().text, vec![1, 2, 3]);
}

#[test]
fn container_structure_holds_tag_and_iv() {
    let iv: [u8; 16] = *b"ABCDEFGHIJKLMNOP";
    let enc = DecryptedSave::new(b"data".to_vec()).encrypt(&steam_key(), Some(&iv));
    assert_eq!(&enc.data[0..6], b"Ver:1\n");
    assert_eq!(&enc.data[6..22], &iv[..]);
    assert_eq!(enc.iv(), iv);
    assert_eq!(enc._version(), b"Ver:1\n");
    let enc = DecryptedSave::new(b"data".to_vec()).encrypt(&steam_key(), None);
    assert_eq!(enc.iv(), DEFAULT_IV);
    assert_eq!(&DEFAULT_IV, b"0123456789ABCDEF");
}

#[test]
fn text_region_is_base64() {
    let save = EncryptedSave::new(container(b"0123456789ABCDEF", CIPHER_B64));
    assert_eq!(save.text(), CIPHER_B64.as_bytes());
}

#[test]
fn whitespace_in_text_is_ignored() {
    let wrapped = "JvuP3rJKX8f8d/2o\r\nCyDt dQ52v6Im\t0SD8uTTd\nZi4ODYo=\n";
    let save = EncryptedSave::new(container(b"0123456789ABCDEF", wrapped));
    assert_eq!(save.decrypt(&steam_key()).unwrap().text, PLAIN.to_vec());
}

#[test]
fn short_container_is_malformed() {
    let save = EncryptedSave::new(b"Ver:1\n0123456789ABCDE".to_vec());
    assert_eq!(save.decrypt(&steam_key()).err(), Some(CodecError::MalformedContainer));
    let save = EncryptedSave::new(Vec::new());
    assert_eq!(save.decrypt(&steam_key()).err(), Some(CodecError::MalformedContainer));
}

#[test]
fn invalid_base64_is_rejected() {
    let save = EncryptedSave::new(container(b"0123456789ABCDEF", "not*base64!"));
    assert_eq!(save.decrypt(&steam_key()).err(), Some(CodecError::InvalidEncoding));
}

#[test]
fn unaligned_ciphertext_is_rejected() {
    let save = EncryptedSave::new(container(b"0123456789ABCDEF", "AAECAwQ="));
    assert_eq!(save.decrypt(&steam_key()).err(), Some(CodecError::DecryptionFailure));
}

#[test]
fn empty_text_decodes_to_empty_plaintext() {
    let save = EncryptedSave::new(container(b"0123456789ABCDEF", ""));
    assert_eq!(save.decrypt(&steam_key()).unwrap().text, Vec::<u8>::new());
}
