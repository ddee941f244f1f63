//! The master key, per-environment subkeys, sealed values, token hashes and
//! hexadecimal.
use vstd::prelude::*;
use vstd::string::StringSliceAdditionalSpecFns;
use chacha20poly1305::aead::{Aead, KeyInit};
use chacha20poly1305::{XChaCha20Poly1305, XNonce};
use chacha20poly1305::aead::Error as AeadError;
use getrandom::Error as RandomError;

use crate::text::{chars_of, push_decimal, push_str, trim, trimmed};

verus! {

broadcast use vstd::utf8::encode_utf8_decode_utf8;

/// Length in bytes of a key.
pub const KEY_LEN: usize = 32;

/// Length in bytes of the nonce that starts every sealed blob.
pub const NONCE_LEN: usize = 24;

/// Length in bytes of the authentication tag that ends every sealed blob.
pub const TAG_LEN: usize = 16;

// ---------------------------------------------------------------------------
// Outside code: blake3, XChaCha20-Poly1305, getrandom
// ---------------------------------------------------------------------------

#[verifier::external_type_specification]
#[verifier::external_body]
pub struct ExAeadError(AeadError);

#[verifier::external_type_specification]
#[verifier::external_body]
pub struct ExRandomError(RandomError);

/// What `blake3::derive_key(context, material)` returns.
pub uninterp spec fn blake3_derive_key(context: Seq<char>, material: Seq<u8>) -> Seq<u8>;

/// What `blake3::hash(input)` returns, as its 32 bytes.
pub uninterp spec fn blake3_hash(input: Seq<u8>) -> Seq<u8>;

/// What XChaCha20-Poly1305 encryption of `plain` under `key` and `nonce`
/// (no associated data) returns: the ciphertext followed by the tag.
pub uninterp spec fn xchacha_seal(key: Seq<u8>, nonce: Seq<u8>, plain: Seq<u8>) -> Seq<u8>;

/// What XChaCha20-Poly1305 decryption of `sealed` under `key` and `nonce`
/// returns: the plaintext, or `None` when the tag does not authenticate.
pub uninterp spec fn xchacha_open(key: Seq<u8>, nonce: Seq<u8>, sealed: Seq<u8>) -> Option<Seq<u8>>;

/// Calls `blake3::derive_key`. Claims: the result is the named function of
/// the context and the key material, and has 32 bytes (`[u8; OUT_LEN]`).
#[verifier::external_body]
fn derive_key_bytes(context: &str, material: &[u8]) -> (r: Vec<u8>)
    ensures
        r@ == blake3_derive_key(context@, material@),
        r@.len() == KEY_LEN,
{
    blake3::derive_key(context, material).to_vec()
}

/// Calls `blake3::hash` and `Hash::as_bytes`. Claims: the result is the named
/// function of the input, and has 32 bytes.
#[verifier::external_body]
fn blake3_digest(input: &[u8]) -> (r: Vec<u8>)
    ensures
        r@ == blake3_hash(input@),
        r@.len() == 32,
{
    blake3::hash(input).as_bytes().to_vec()
}

/// Calls `XChaCha20Poly1305::new` and `Aead::encrypt`. Claims: encryption
/// fails exactly when the message has `u32::MAX` or more 64-byte blocks (the
/// check in `Cipher::encrypt_in_place_detached`); otherwise the result is the
/// named ciphertext, 16 bytes longer than the message (the appended tag), and
/// decrypting it with the same key and nonce gives the message back.
#[verifier::external_body]
fn xchacha_encrypt(key: &[u8], nonce: &[u8], plain: &[u8]) -> (r: Result<
    Vec<u8>,
    AeadError,
>)
    requires
        key@.len() == KEY_LEN,
        nonce@.len() == NONCE_LEN,
    ensures
        r is Ok <==> plain@.len() / 64 < 0xffff_ffff,
        r matches Ok(c) ==> c@ == xchacha_seal(key@, nonce@, plain@),
        r matches Ok(c) ==> c@.len() == plain@.len() + TAG_LEN,
        r matches Ok(c) ==> xchacha_open(key@, nonce@, c@) == Some(plain@),
{
    let cipher = XChaCha20Poly1305::new(chacha20poly1305::Key::from_slice(key));
    cipher.encrypt(XNonce::from_slice(nonce), plain)
}

/// Calls `XChaCha20Poly1305::new` and `Aead::decrypt`. Claims: the result is
/// the named plaintext, and an error exactly when the name gives `None`.
#[verifier::external_body]
fn xchacha_decrypt(key: &[u8], nonce: &[u8], sealed: &[u8]) -> (r: Result<
    Vec<u8>,
    AeadError,
>)
    requires
        key@.len() == KEY_LEN,
        nonce@.len() == NONCE_LEN,
    ensures
        r is Ok <==> xchacha_open(key@, nonce@, sealed@) is Some,
        r matches Ok(p) ==> xchacha_open(key@, nonce@, sealed@) == Some(p@),
{
    let cipher = XChaCha20Poly1305::new(chacha20poly1305::Key::from_slice(key));
    cipher.decrypt(XNonce::from_slice(nonce), sealed)
}

/// Calls `getrandom::getrandom` on the whole buffer. Claims only that the
/// buffer keeps its length; which bytes it then holds is chance.
#[verifier::external_body]
fn fill_random(buf: &mut Vec<u8>) -> (r: Result<(), RandomError>)
    ensures
        final(buf)@.len() == old(buf)@.len(),
{
    getrandom::getrandom(buf.as_mut_slice())
}

/// Calls `ToString::to_string` on a `getrandom::Error`. Claims nothing of the
/// text.
#[verifier::external_body]
fn random_error_text(e: &RandomError) -> String {
    e.to_string()
}

// ---------------------------------------------------------------------------
// Hexadecimal
// ---------------------------------------------------------------------------

/// The lower-case hexadecimal digit for `d < 16`.
pub open spec fn hex_digit(d: int) -> char {
    if d < 10 {
        (48 + d) as char
    } else {
        (87 + d) as char
    }
}

/// Two lower-case hexadecimal digits per byte, most significant first.
pub open spec fn encode_hex_spec(bytes: Seq<u8>) -> Seq<char>
    decreases bytes.len(),
{
    if bytes.len() == 0 {
        Seq::empty()
    } else {
        encode_hex_spec(bytes.drop_last()) + seq![
            hex_digit((bytes.last() / 16) as int),
            hex_digit((bytes.last() % 16) as int),
        ]
    }
}

/// The value of a hexadecimal digit, either case.
pub open spec fn hex_value(c: char) -> Option<int> {
    if '0' <= c <= '9' {
        Some(c as int - 48)
    } else if 'a' <= c <= 'f' {
        Some(c as int - 87)
    } else if 'A' <= c <= 'F' {
        Some(c as int - 55)
    } else {
        None
    }
}

/// What `u8::from_str_radix` gives for the two characters `a b` in base 16:
/// two digits, or a `+` sign and one digit.
pub open spec fn hex_pair(a: char, b: char) -> Option<u8> {
    match (hex_value(a), hex_value(b)) {
        (Some(x), Some(y)) => Some((x * 16 + y) as u8),
        (None, Some(y)) => if a == '+' {
            Some(y as u8)
        } else {
            None
        },
        _ => None,
    }
}

/// Whether every pair of characters of `t` is a byte in base 16.
pub open spec fn hex_pairs_valid(t: Seq<char>) -> bool {
    &&& t.len() % 2 == 0
    &&& forall|i: int| 0 <= i < t.len() / 2 ==> (#[trigger] hex_pair(t[2 * i], t[2 * i + 1])) is Some
}

/// The bytes that the pairs of characters of `t` stand for.
pub open spec fn hex_pairs_value(t: Seq<char>) -> Seq<u8> {
    Seq::new((t.len() / 2) as nat, |i: int| hex_pair(t[2 * i], t[2 * i + 1])->Some_0)
}

/// The bytes written in hexadecimal in `text`, once surrounding whitespace is
/// trimmed; `None` when it is not hexadecimal.
pub open spec fn decode_hex_spec(text: Seq<char>) -> Option<Seq<u8>> {
    let t = trim(text);
    if hex_pairs_valid(t) {
        Some(hex_pairs_value(t))
    } else {
        None
    }
}

/// The error for text whose trimmed form has an odd number of bytes.
pub open spec fn odd_hex_error() -> Seq<char> {
    "el hexadecimal tiene largo impar"@
}

/// The error for text with something other than pairs of hexadecimal digits.
pub open spec fn not_hex_error() -> Seq<char> {
    "no es hexadecimal"@
}

fn hex_digit_char(d: u8) -> (c: char)
    requires
        d < 16,
    ensures
        c == hex_digit(d as int),
{
    if d < 10 {
        crate::text::char_from_ascii(48 + d)
    } else {
        crate::text::char_from_ascii(87 + d)
    }
}

/// Lower-case hexadecimal of `bytes`, two digits per byte.
pub fn encode_hex(bytes: &[u8]) -> (r: String)
    ensures
        r@ == encode_hex_spec(bytes@),
        r@.len() == 2 * bytes@.len(),
{
    let mut out = String::new();
    let n = bytes.len();
    for i in 0..n
        invariant
            n == bytes@.len(),
            out@ == encode_hex_spec(bytes@.take(i as int)),
            out@.len() == 2 * i,
    {
        let b = bytes[i];
        let hi = hex_digit_char(b / 16);
        let lo = hex_digit_char(b % 16);
        out.push(hi);
        out.push(lo);
        assert(bytes@.take(i + 1).drop_last() == bytes@.take(i as int));
        assert(encode_hex_spec(bytes@.take(i as int)).push(hi).push(lo) == encode_hex_spec(
            bytes@.take(i as int),
        ) + seq![hi, lo]);
    }
    assert(bytes@.take(n as int) == bytes@);
    out
}

fn hex_value_of(c: char) -> (r: Option<u8>)
    ensures
        r matches Some(x) ==> hex_value(c) == Some(x as int),
        r is None ==> hex_value(c) is None,
{
    if '0' <= c && c <= '9' {
        Some((c as u32 - 48) as u8)
    } else if 'a' <= c && c <= 'f' {
        Some((c as u32 - 87) as u8)
    } else if 'A' <= c && c <= 'F' {
        Some((c as u32 - 55) as u8)
    } else {
        None
    }
}

/// `u8::from_str_radix` in base 16 on the two characters `a b`.
pub fn hex_pair_value(a: char, b: char) -> (r: Option<u8>)
    ensures
        r == hex_pair(a, b),
{
    match (hex_value_of(a), hex_value_of(b)) {
        (Some(x), Some(y)) => Some(x * 16 + y),
        (None, Some(y)) => if a == '+' {
            Some(y)
        } else {
            None
        },
        _ => None,
    }
}

/// The bytes written in hexadecimal in `text`, after trimming whitespace.
pub fn decode_hex(text: &str) -> (r: Result<Vec<u8>, String>)
    ensures
        r is Ok <==> decode_hex_spec(text@) is Some,
        r matches Ok(b) ==> decode_hex_spec(text@) == Some(b@),
        r matches Err(m) ==> m@ == (if crate::text::byte_len(trim(text@)) % 2 == 1 {
            odd_hex_error()
        } else {
            not_hex_error()
        }),
{
    let t = trimmed(text);
    let tb = t.as_str().as_bytes();
    if tb.len() % 2 != 0 {
        proof {
            lemma_odd_bytes_not_hex(t@);
        }
        return Err(odd_message());
    }
    let cs = chars_of(t.as_str());
    let n = cs.len();
    if n % 2 != 0 {
        return Err(not_hex_message());
    }
    let half = n / 2;
    let mut out: Vec<u8> = Vec::new();
    for i in 0..half
        invariant
            half == n / 2,
            n == cs@.len(),
            n % 2 == 0,
            cs@ == trim(text@),
            crate::text::byte_len(trim(text@)) % 2 == 0,
            out@.len() == i,
            forall|j: int| 0 <= j < i ==> (#[trigger] hex_pair(cs@[2 * j], cs@[2 * j + 1])) is Some
                && out@[j] == hex_pair(cs@[2 * j], cs@[2 * j + 1])->Some_0,
    {
        match hex_pair_value(cs[2 * i], cs[2 * i + 1]) {
            Some(byte) => out.push(byte),
            None => {
                return Err(not_hex_message());
            },
        }
    }
    assert(out@ =~= hex_pairs_value(cs@));
    Ok(out)
}

proof fn lemma_encode_hex_at(bytes: Seq<u8>)
    ensures
        encode_hex_spec(bytes).len() == 2 * bytes.len(),
        forall|i: int|
            0 <= i < bytes.len() ==> encode_hex_spec(bytes)[2 * i] == hex_digit(
                (#[trigger] bytes[i] / 16) as int,
            ) && encode_hex_spec(bytes)[2 * i + 1] == hex_digit((bytes[i] % 16) as int),
    decreases bytes.len(),
{
    if bytes.len() > 0 {
        let init = bytes.drop_last();
        lemma_encode_hex_at(init);
        assert forall|i: int| 0 <= i < bytes.len() implies encode_hex_spec(bytes)[2 * i]
            == hex_digit((#[trigger] bytes[i] / 16) as int) && encode_hex_spec(bytes)[2 * i + 1]
            == hex_digit((bytes[i] % 16) as int) by {
            if i < init.len() {
                assert(init[i] == bytes[i]);
            }
        }
    }
}

proof fn lemma_hex_digit_value(d: int)
    requires
        0 <= d < 16,
    ensures
        hex_value(hex_digit(d)) == Some(d),
        !crate::text::is_white(hex_digit(d)),
{
}

/// Writing bytes in hexadecimal and reading them back gives the same bytes.
pub proof fn lemma_hex_round_trip(bytes: Seq<u8>)
    ensures
        decode_hex_spec(encode_hex_spec(bytes)) == Some(bytes),
{
    let e = encode_hex_spec(bytes);
    lemma_encode_hex_at(bytes);
    if e.len() > 0 {
        lemma_hex_digit_value((bytes[0] / 16) as int);
        lemma_hex_digit_value((bytes.last() % 16) as int);
        assert(e.last() == e[2 * (bytes.len() - 1) + 1]);
    }
    crate::text::lemma_trim_unchanged(e);
    assert forall|i: int| 0 <= i < e.len() / 2 implies (#[trigger] hex_pair(e[2 * i], e[2 * i + 1]))
        == Some(bytes[i]) by {
        lemma_hex_digit_value((bytes[i] / 16) as int);
        lemma_hex_digit_value((bytes[i] % 16) as int);
    }
    assert(hex_pairs_value(e) =~= bytes);
}

proof fn lemma_odd_bytes_not_hex(t: Seq<char>)
    requires
        vstd::utf8::encode_utf8(t).len() % 2 == 1,
    ensures
        !hex_pairs_valid(t),
{
    if hex_pairs_valid(t) {
        lemma_hex_pairs_ascii(t);
        lemma_ascii_bytes_len(t);
    }
}

proof fn lemma_hex_pairs_ascii(t: Seq<char>)
    requires
        hex_pairs_valid(t),
    ensures
        vstd::utf8::is_ascii_chars(t),
{
    assert forall|k: int| 0 <= k < t.len() implies '\0' <= #[trigger] t[k] <= '\u{7f}' by {
        let i = k / 2;
        assert(hex_pair(t[2 * i], t[2 * i + 1]) is Some);
        assert(k == 2 * i || k == 2 * i + 1);
    }
}

proof fn lemma_ascii_bytes_len(t: Seq<char>)
    requires
        vstd::utf8::is_ascii_chars(t),
    ensures
        vstd::utf8::encode_utf8(t).len() == t.len(),
{
    vstd::utf8::is_ascii_chars_encode_utf8(t);
}

fn odd_message() -> (m: String)
    ensures
        m@ == odd_hex_error(),
{
    let m = String::from_str("el hexadecimal tiene largo impar");
    proof {
        reveal_strlit("el hexadecimal tiene largo impar");
    }
    m
}

fn not_hex_message() -> (m: String)
    ensures
        m@ == not_hex_error(),
{
    String::from_str("no es hexadecimal")
}

/// Whether `a` and `b` hold the same text. Every byte is compared, whatever
/// the first difference, so the time taken does not tell where it is.
pub fn equal(a: &str, b: &str) -> (r: bool)
    ensures
        r == (a@ == b@),
{
    let x = a.as_bytes();
    let y = b.as_bytes();
    if x.len() != y.len() {
        proof {
            if a@ == b@ {
                assert(a.spec_bytes() == b.spec_bytes());
            }
        }
        return false;
    }
    let n = x.len();
    let mut diff: u8 = 0;
    for i in 0..n
        invariant
            n == x@.len() == y@.len(),
            diff == 0 <==> forall|j: int| 0 <= j < i ==> x@[j] == y@[j],
    {
        let xi = x[i];
        let yi = y[i];
        let next = diff | (xi ^ yi);
        assert((diff | (xi ^ yi)) == 0 <==> (diff == 0 && xi == yi)) by (bit_vector);
        diff = next;
    }
    proof {
        if diff == 0 {
            assert(x@ =~= y@);
            assert(vstd::utf8::decode_utf8(a.spec_bytes()) == a@);
            assert(vstd::utf8::decode_utf8(b.spec_bytes()) == b@);
        } else if a@ == b@ {
            assert(x@ == y@);
        }
    }
    diff == 0
}

/// Lower-case hexadecimal of the blake3 hash of `text`'s bytes.
pub fn hash(text: &str) -> (r: String)
    ensures
        r@ == encode_hex_spec(blake3_hash(text.spec_bytes())),
        r@.len() == 64,
{
    let digest = blake3_digest(text.as_bytes());
    encode_hex(digest.as_slice())
}

// ---------------------------------------------------------------------------
// Randomness
// ---------------------------------------------------------------------------

/// The prefix of the error when the system has no randomness to give.
pub open spec fn no_randomness_prefix() -> Seq<char> {
    "no hay azar: "@
}

/// `n` bytes from the system's random source.
pub fn random_bytes(n: usize) -> (r: Result<Vec<u8>, String>)
    ensures
        r matches Ok(b) ==> b@.len() == n,
        r matches Err(m) ==> no_randomness_prefix().is_prefix_of(m@),
{
    let mut buf: Vec<u8> = Vec::new();
    for i in 0..n
        invariant
            buf@.len() == i,
    {
        buf.push(0u8);
    }
    match fill_random(&mut buf) {
        Ok(()) => Ok(buf),
        Err(e) => {
            let mut m = String::from_str("no hay azar: ");
            let detail = random_error_text(&e);
            push_str(&mut m, detail.as_str());
            proof {
                reveal_strlit("no hay azar: ");
                assert(no_randomness_prefix() == m@.subrange(0, 13));
            }
            Err(m)
        },
    }
}

/// Lower-case hexadecimal of `bytes` random bytes.
pub fn random_hex(bytes: usize) -> (r: Result<String, String>)
    ensures
        r matches Ok(s) ==> exists|b: Seq<u8>| b.len() == bytes && s@ == encode_hex_spec(b),
        r matches Ok(s) ==> s@.len() == 2 * bytes,
        r matches Err(m) ==> no_randomness_prefix().is_prefix_of(m@),
{
    let buf = random_bytes(bytes)?;
    Ok(encode_hex(buf.as_slice()))
}

// ---------------------------------------------------------------------------
// Keys
// ---------------------------------------------------------------------------

/// A 32-byte secret key: the master key, or one derived from it.
pub struct Key {
    bytes: Vec<u8>,
}

impl View for Key {
    type V = Seq<u8>;

    closed spec fn view(&self) -> Seq<u8> {
        self.bytes@
    }
}

/// The blob `seal` writes: the nonce, then the ciphertext and its tag.
pub open spec fn sealed_blob(key: Seq<u8>, nonce: Seq<u8>, plain: Seq<u8>) -> Seq<u8> {
    nonce + xchacha_seal(key, nonce, plain)
}

/// What `open` gives for `blob`: `None` when it is too short to hold a nonce
/// and anything else, or when it does not authenticate under `key`.
pub open spec fn opened(key: Seq<u8>, blob: Seq<u8>) -> Option<Seq<u8>> {
    if blob.len() <= NONCE_LEN {
        None
    } else {
        xchacha_open(key, blob.take(NONCE_LEN as int), blob.skip(NONCE_LEN as int))
    }
}

/// Whether a message is short enough for XChaCha20 to encrypt.
pub open spec fn sealable(plain: Seq<u8>) -> bool {
    plain.len() / 64 < 0xffff_ffff
}

/// The error when a blob is too short to hold anything.
pub open spec fn truncated_error() -> Seq<char> {
    "el archivo cifrado está cortado"@
}

/// The error when a blob does not authenticate.
pub open spec fn undecryptable_error() -> Seq<char> {
    "no pude descifrar: ¿cambió la master key?"@
}

/// The error when encryption refuses the message.
pub open spec fn unencryptable_error() -> Seq<char> {
    "no pude cifrar"@
}

impl Clone for Key {
    fn clone(&self) -> (r: Key)
        ensures
            r@ == self@,
    {
        proof {
            use_type_invariant(self);
        }
        Key { bytes: self.bytes.clone() }
    }
}

impl Key {
    #[verifier::type_invariant]
    spec fn well_formed(self) -> bool {
        self.bytes@.len() == KEY_LEN
    }

    /// Every key has 32 bytes.
    pub fn len_is_32(&self)
        ensures
            self@.len() == KEY_LEN,
    {
        proof {
            use_type_invariant(self);
        }
    }

    /// The key written in `text` as 64 hexadecimal digits (after trimming).
    pub fn from_hex(text: &str) -> (r: Result<Key, String>)
        ensures
            r is Ok <==> (decode_hex_spec(text@) matches Some(b) && b.len() == KEY_LEN),
            r matches Ok(k) ==> decode_hex_spec(text@) == Some(k@),
            r matches Err(m) ==> m@ == (match decode_hex_spec(text@) {
                Some(b) => "la master key tiene "@ + crate::text::decimal(b.len())
                    + " bytes, espera 32"@,
                None => if crate::text::byte_len(trim(text@)) % 2 == 1 {
                    odd_hex_error()
                } else {
                    not_hex_error()
                },
            }),
    {
        let bytes = decode_hex(text)?;
        if bytes.len() != KEY_LEN {
            let mut m = String::from_str("la master key tiene ");
            push_decimal(&mut m, bytes.len() as u64);
            push_str(&mut m, " bytes, espera 32");
            return Err(m);
        }
        Ok(Key { bytes })
    }

    /// The subkey for `context`: blake3's key derivation from this key.
    pub fn derive(&self, context: &str) -> (r: Key)
        ensures
            r@ == blake3_derive_key(context@, self@),
    {
        let bytes = derive_key_bytes(context, self.bytes.as_slice());
        Key { bytes }
    }

    /// Encrypts `plain` with a fresh random nonce. What comes back opens to
    /// `plain` under this key.
    pub fn seal(&self, plain: &[u8]) -> (r: Result<Vec<u8>, String>)
        ensures
            r matches Ok(blob) ==> blob@.len() == NONCE_LEN + plain@.len() + TAG_LEN,
            r matches Ok(blob) ==> blob@ == sealed_blob(
                self@,
                blob@.take(NONCE_LEN as int),
                plain@,
            ),
            r matches Ok(blob) ==> opened(self@, blob@) == Some(plain@),
            !sealable(plain@) ==> r is Err,
            // It fails only when the system gives no randomness, or when the
            // message is too long to encrypt.
            r matches Err(m) ==> no_randomness_prefix().is_prefix_of(m@) || (!sealable(plain@)
                && m@ == unencryptable_error()),
    {
        let nonce = random_bytes(NONCE_LEN)?;
        let blob = self.seal_with_nonce(nonce.as_slice(), plain);
        proof {
            if blob is Ok {
                let b = blob->Ok_0;
                assert(b@.take(NONCE_LEN as int) =~= nonce@);
            }
        }
        blob
    }

    /// Encrypts `plain` with the given nonce: the nonce, then the ciphertext
    /// and its tag.
    pub fn seal_with_nonce(&self, nonce: &[u8], plain: &[u8]) -> (r: Result<Vec<u8>, String>)
        requires
            nonce@.len() == NONCE_LEN,
        ensures
            r is Ok <==> sealable(plain@),
            r matches Ok(blob) ==> blob@ == sealed_blob(self@, nonce@, plain@),
            r matches Ok(blob) ==> blob@.len() == NONCE_LEN + plain@.len() + TAG_LEN,
            r matches Ok(blob) ==> opened(self@, blob@) == Some(plain@),
            r matches Err(m) ==> m@ == unencryptable_error(),
    {
        proof {
            use_type_invariant(self);
        }
        match xchacha_encrypt(self.bytes.as_slice(), nonce, plain) {
            Ok(sealed) => {
                let mut blob: Vec<u8> = Vec::new();
                let n = nonce.len();
                for i in 0..n
                    invariant
                        n == nonce@.len(),
                        blob@ == nonce@.take(i as int),
                {
                    blob.push(nonce[i]);
                    assert(nonce@.take(i + 1) == nonce@.take(i as int).push(nonce@[i as int]));
                }
                let m = sealed.len();
                for j in 0..m
                    invariant
                        m == sealed@.len(),
                        n == nonce@.len(),
                        blob@ == nonce@ + sealed@.take(j as int),
                {
                    blob.push(sealed[j]);
                    assert(sealed@.take(j + 1) == sealed@.take(j as int).push(sealed@[j as int]));
                    assert(nonce@ + sealed@.take(j + 1) == (nonce@ + sealed@.take(j as int)).push(
                        sealed@[j as int],
                    ));
                }
                assert(nonce@.take(n as int) == nonce@);
                assert(sealed@.take(m as int) == sealed@);
                assert(blob@.take(NONCE_LEN as int) =~= nonce@);
                assert(blob@.skip(NONCE_LEN as int) =~= sealed@);
                Ok(blob)
            },
            Err(_) => {
                let m = String::from_str("no pude cifrar");
                Err(m)
            },
        }
    }

    /// Decrypts a blob that `seal` wrote under this key.
    pub fn open(&self, blob: &[u8]) -> (r: Result<Vec<u8>, String>)
        ensures
            r is Ok <==> opened(self@, blob@) is Some,
            r matches Ok(p) ==> opened(self@, blob@) == Some(p@),
            r matches Err(m) ==> m@ == (if blob@.len() <= NONCE_LEN {
                truncated_error()
            } else {
                undecryptable_error()
            }),
    {
        proof {
            use_type_invariant(self);
        }
        if blob.len() <= NONCE_LEN {
            return Err(String::from_str("el archivo cifrado está cortado"));
        }
        let nonce = &blob[0..NONCE_LEN];
        let sealed = &blob[NONCE_LEN..blob.len()];
        assert(nonce@ == blob@.take(NONCE_LEN as int));
        assert(sealed@ == blob@.skip(NONCE_LEN as int));
        match xchacha_decrypt(self.bytes.as_slice(), nonce, sealed) {
            Ok(p) => Ok(p),
            Err(_) => Err(String::from_str("no pude descifrar: ¿cambió la master key?")),
        }
    }
}

} // verus!
