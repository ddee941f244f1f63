use heimdall::crypto::{decode_hex, encode_hex, equal, hash, random_hex, Key};

fn key() -> Key {
    Key::from_hex(&"ab".repeat(32)).unwrap()
}

#[test]
fn seal_and_open_round_trip() {
    let blob = key().seal(b"secreto").unwrap();
    assert_eq!(key().open(&blob).unwrap(), b"secreto");
    assert!(!blob.windows(7).any(|w| w == b"secreto"));
}

#[test]
fn each_seal_uses_a_fresh_nonce() {
    assert_ne!(key().seal(b"x").unwrap(), key().seal(b"x").unwrap());
}

#[test]
fn another_key_does_not_open() {
    let blob = key().seal(b"secreto").unwrap();
    let other = Key::from_hex(&"cd".repeat(32)).unwrap();
    assert!(other.open(&blob).is_err());
}

#[test]
fn a_context_does_not_open_another() {
    let key = key();
    let blob = key.derive("proyecto/a").seal(b"x").unwrap();
    assert_eq!(key.derive("proyecto/a").open(&blob).unwrap(), b"x");
    assert!(key.derive("proyecto/b").open(&blob).is_err());
}

#[test]
fn truncated_blobs_do_not_open() {
    assert!(key().open(b"corto").is_err());
}

#[test]
fn master_key_is_32_bytes_of_hex() {
    assert!(Key::from_hex("ab").is_err());
    assert!(Key::from_hex(&"zz".repeat(32)).is_err());
    assert!(Key::from_hex(&"ab".repeat(32)).is_ok());
}

#[test]
fn hex_round_trips() {
    assert_eq!(
        decode_hex(&encode_hex(&[0, 15, 255])).unwrap(),
        vec![0, 15, 255]
    );
}

#[test]
fn equal_is_length_aware() {
    assert!(equal("abc", "abc"));
    assert!(!equal("abc", "abd"));
    assert!(!equal("abc", "ab"));
}

#[test]
fn hex_errors_name_the_problem() {
    assert_eq!(decode_hex("abc").unwrap_err(), "el hexadecimal tiene largo impar");
    assert_eq!(decode_hex("zz").unwrap_err(), "no es hexadecimal");
    assert_eq!(decode_hex("  0aFf \n").unwrap(), vec![10, 255]);
    assert_eq!(decode_hex("+f").unwrap(), vec![15]);
    assert_eq!(encode_hex(&[1, 171]), "01ab");
    assert_eq!(Key::from_hex("abc").err().unwrap(), "el hexadecimal tiene largo impar");
    assert_eq!(
        Key::from_hex("abab").err().unwrap(),
        "la master key tiene 2 bytes, espera 32"
    );
}

#[test]
fn opening_failures_say_why() {
    assert_eq!(key().open(&[0u8; 24]).unwrap_err(), "el archivo cifrado está cortado");
    let mut blob = key().seal(b"valor").unwrap();
    let last = blob.len() - 1;
    blob[last] ^= 1;
    assert_eq!(key().open(&blob).unwrap_err(), "no pude descifrar: ¿cambió la master key?");
}

#[test]
fn a_sealed_blob_carries_nonce_and_tag() {
    let blob = key().seal(b"12345").unwrap();
    assert_eq!(blob.len(), 24 + 5 + 16);
    let fixed = key().seal_with_nonce(&[7u8; 24], b"12345").unwrap();
    assert_eq!(&fixed[..24], &[7u8; 24]);
    assert_eq!(fixed, key().seal_with_nonce(&[7u8; 24], b"12345").unwrap());
    assert_eq!(key().open(&fixed).unwrap(), b"12345");
}

#[test]
fn hashes_are_blake3_in_hex() {
    assert_eq!(
        hash(""),
        "af1349b9f5f9a1a6a0404dea36dcc9499bcb25c9adc112b7cc9a93cae41f3262"
    );
    assert_eq!(hash("abc").len(), 64);
    assert_ne!(hash("abc"), hash("abd"));
}

#[test]
fn random_hex_is_fresh_and_sized() {
    let a = random_hex(24).unwrap();
    let b = random_hex(24).unwrap();
    assert_eq!(a.len(), 48);
    assert_ne!(a, b);
    assert!(a.chars().all(|c| c.is_ascii_hexdigit() && !c.is_ascii_uppercase()));
}

#[test]
fn a_derived_key_differs_from_its_master() {
    let master = key();
    let blob = master.seal(b"x").unwrap();
    assert!(master.derive("secrets/a/b").open(&blob).is_err());
}
