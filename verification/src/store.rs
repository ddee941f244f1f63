//! The rules of the store: which names are accepted, how a value is sealed
//! and read back, how tokens are issued, found and revoked, and what the
//! audit log holds. The database itself is kept by the program around the
//! library; it hands rows in and takes what to write out.
use vstd::prelude::*;
use vstd::string::StringSliceAdditionalSpecFns;

use crate::crypto::{
    blake3_derive_key, blake3_hash, encode_hex_spec, hash, opened, random_hex, Key,
};
use crate::json::{is_optional_int, is_optional_texts, json_bool, json_get, json_i64, json_text, Json};
use crate::secrets::{insert_sorted, value_of, Secrets};
use crate::text::{byte_len, concat, push_str, trim, trimmed};

verus! {

broadcast use {vstd::utf8::encode_utf8_decode_utf8, vstd::utf8::encode_utf8_valid_utf8};

/// The longest value, in bytes, that the store keeps.
pub const MAX_VALUE: usize = 65536;

/// The longest project or environment name, in bytes.
pub const MAX_SLUG: usize = 64;

#[verifier::external_type_specification]
#[verifier::external_body]
pub struct ExFromUtf8Error(std::string::FromUtf8Error);

/// `String::from_utf8` accepts exactly the valid UTF-8 byte strings, and
/// gives the text they encode.
pub assume_specification[ std::string::String::from_utf8 ](vec: Vec<u8>) -> (r: Result<
    String,
    std::string::FromUtf8Error,
>)
    ensures
        r is Ok <==> vstd::utf8::valid_utf8(vec@),
        r matches Ok(s) ==> s@ == vstd::utf8::decode_utf8(vec@),
;

#[verifier::external_type_specification]
#[verifier::external_body]
pub struct ExSystemTime(std::time::SystemTime);

#[verifier::external_type_specification]
#[verifier::external_body]
pub struct ExSystemTimeError(std::time::SystemTimeError);

/// Calls `SystemTime::now`. Claims nothing: the time is the machine's.
#[verifier::external_body]
fn clock_now() -> std::time::SystemTime {
    std::time::SystemTime::now()
}

/// Calls `SystemTime::duration_since(UNIX_EPOCH)`. Claims nothing.
#[verifier::external_body]
fn since_unix_epoch(t: &std::time::SystemTime) -> Result<
    std::time::Duration,
    std::time::SystemTimeError,
> {
    t.duration_since(std::time::UNIX_EPOCH)
}

/// Calls `Duration::as_secs`. Claims nothing.
#[verifier::external_body]
fn whole_seconds(d: &std::time::Duration) -> u64 {
    d.as_secs()
}

/// A clock reading in seconds since the Unix epoch as the store keeps it:
/// the count as an `i64`, or 0 when the clock is set before the epoch.
pub fn epoch_seconds(reading: Option<u64>) -> (r: i64)
    ensures
        r == (match reading {
            Some(s) => s as i64,
            None => 0i64,
        }),
{
    match reading {
        Some(s) => s as i64,
        None => 0,
    }
}

/// Seconds since the Unix epoch; 0 when the clock is set before it.
pub fn now() -> i64 {
    let reading = match since_unix_epoch(&clock_now()) {
        Ok(d) => Some(whole_seconds(&d)),
        Err(_) => None,
    };
    epoch_seconds(reading)
}

/// Why the store refused or failed.
#[derive(Debug, PartialEq)]
pub enum Error {
    /// The request itself is wrong: a bad name, a missing token.
    Bad(String),
    /// Something the caller cannot fix: the disk, the key, the clock.
    Internal(String),
}

// ---------------------------------------------------------------------------
// Names
// ---------------------------------------------------------------------------

/// The characters a project or environment name may hold.
pub open spec fn slug_char(c: char) -> bool {
    ('a' <= c <= 'z') || ('0' <= c <= '9') || c == '-' || c == '_'
}

/// A project or environment name: 1 to 64 of `a-z`, `0-9`, `-`, `_`.
pub open spec fn is_slug(s: Seq<char>) -> bool {
    &&& 1 <= s.len() <= MAX_SLUG
    &&& forall|i: int| 0 <= i < s.len() ==> slug_char(#[trigger] s[i])
}

/// Which project and environment names are accepted: exactly those of 1 to
/// 64 characters, each a lower-case ASCII letter, a digit, a hyphen or an
/// underscore.
pub proof fn lemma_slug_names(s: Seq<char>)
    ensures
        is_slug(s) <==> (1 <= s.len() <= 64 && forall|i: int|
            0 <= i < s.len() ==> ('a' <= #[trigger] s[i] <= 'z') || ('0' <= s[i] <= '9') || s[i]
                == '-' || s[i] == '_'),
        is_slug(s) <==> slug_error(s) is None,
{
}

/// The error for a name of the wrong length.
pub open spec fn slug_length_error(s: Seq<char>) -> Seq<char> {
    "«"@ + s + "» tiene que medir entre 1 y 64"@
}

/// The error for a name with a character it may not hold.
pub open spec fn slug_chars_error(s: Seq<char>) -> Seq<char> {
    "«"@ + s + "» sólo acepta minúsculas, números, guiones y guiones bajos"@
}

proof fn lemma_slug_chars_ascii(s: Seq<char>)
    requires
        forall|i: int| 0 <= i < s.len() ==> slug_char(#[trigger] s[i]),
    ensures
        byte_len(s) == s.len(),
{
    assert forall|i: int| 0 <= i < s.len() implies '\0' <= #[trigger] s[i] <= '\u{7f}' by {
        assert(slug_char(s[i]));
    }
    vstd::utf8::is_ascii_chars_encode_utf8(s);
}

fn quoted(name: &str, tail: &str) -> (m: String)
    ensures
        m@ == "«"@ + name@ + tail@,
{
    let mut m = String::from_str("«");
    push_str(&mut m, name);
    push_str(&mut m, tail);
    m
}

/// Accepts a project or environment name.
pub fn slug(name: &str) -> (r: Result<(), Error>)
    ensures
        r is Ok <==> is_slug(name@),
        r matches Err(e) ==> e matches Error::Bad(m) && m@ == (if byte_len(name@) == 0
            || byte_len(name@) > MAX_SLUG {
            slug_length_error(name@)
        } else {
            slug_chars_error(name@)
        }),
{
    let bytes = name.as_bytes().len();
    if bytes == 0 || bytes > MAX_SLUG {
        proof {
            if forall|i: int| 0 <= i < name@.len() ==> slug_char(#[trigger] name@[i]) {
                lemma_slug_chars_ascii(name@);
            }
        }
        return Err(Error::Bad(quoted(name, "» tiene que medir entre 1 y 64")));
    }
    let cs = crate::text::chars_of(name);
    let n = cs.len();
    for i in 0..n
        invariant
            n == cs@.len(),
            cs@ == name@,
            forall|j: int| 0 <= j < i ==> slug_char(#[trigger] cs@[j]),
            1 <= byte_len(name@) <= MAX_SLUG,
    {
        let c = cs[i];
        if !(('a' <= c && c <= 'z') || ('0' <= c && c <= '9') || c == '-' || c == '_') {
            return Err(
                Error::Bad(
                    quoted(name, "» sólo acepta minúsculas, números, guiones y guiones bajos"),
                ),
            );
        }
    }
    proof {
        lemma_slug_chars_ascii(name@);
    }
    Ok(())
}

/// `char::is_ascii_alphabetic`.
pub open spec fn ascii_letter(c: char) -> bool {
    ('a' <= c <= 'z') || ('A' <= c <= 'Z')
}

/// An environment variable name: a letter or `_`, then letters, digits or `_`.
pub open spec fn is_key_name(s: Seq<char>) -> bool {
    &&& s.len() >= 1
    &&& (ascii_letter(s[0]) || s[0] == '_')
    &&& forall|i: int|
        1 <= i < s.len() ==> ascii_letter(#[trigger] s[i]) || ('0' <= s[i] <= '9') || s[i] == '_'
}

/// The error for an empty key name.
pub open spec fn empty_key_error() -> Seq<char> {
    "la clave no puede estar vacía"@
}

/// The error for a key name that is not a variable name.
pub open spec fn key_name_error(s: Seq<char>) -> Seq<char> {
    "«"@ + s + "» no es un nombre de variable válido"@
}

/// Accepts the name of a secret.
pub fn key_name(name: &str) -> (r: Result<(), Error>)
    ensures
        r is Ok <==> is_key_name(name@),
        r matches Err(e) ==> e matches Error::Bad(m) && m@ == (if name@.len() == 0 {
            empty_key_error()
        } else {
            key_name_error(name@)
        }),
{
    let cs = crate::text::chars_of(name);
    let n = cs.len();
    if n == 0 {
        return Err(Error::Bad(String::from_str("la clave no puede estar vacía")));
    }
    let first = cs[0];
    if !(('a' <= first && first <= 'z') || ('A' <= first && first <= 'Z') || first == '_') {
        return Err(Error::Bad(quoted(name, "» no es un nombre de variable válido")));
    }
    for i in 1..n
        invariant
            n == cs@.len(),
            cs@ == name@,
            forall|j: int|
                1 <= j < i ==> ascii_letter(#[trigger] cs@[j]) || ('0' <= cs@[j] <= '9') || cs@[j]
                    == '_',
    {
        let c = cs[i];
        if !(('a' <= c && c <= 'z') || ('A' <= c && c <= 'Z') || ('0' <= c && c <= '9') || c
            == '_') {
            return Err(Error::Bad(quoted(name, "» no es un nombre de variable válido")));
        }
    }
    Ok(())
}

/// What `slug` refuses `s` with, if it refuses it.
pub open spec fn slug_error(s: Seq<char>) -> Option<Seq<char>> {
    if is_slug(s) {
        None
    } else if byte_len(s) == 0 || byte_len(s) > MAX_SLUG {
        Some(slug_length_error(s))
    } else {
        Some(slug_chars_error(s))
    }
}

/// What `key_name` refuses `s` with, if it refuses it.
pub open spec fn key_error(s: Seq<char>) -> Option<Seq<char>> {
    if is_key_name(s) {
        None
    } else if s.len() == 0 {
        Some(empty_key_error())
    } else {
        Some(key_name_error(s))
    }
}

// ---------------------------------------------------------------------------
// Sealed values
// ---------------------------------------------------------------------------

/// The key-derivation context of an environment.
pub open spec fn context_spec(project: Seq<char>, env: Seq<char>) -> Seq<char> {
    "secrets/"@ + project + "/"@ + env
}

/// Distinct environments derive their subkeys from distinct contexts: for
/// valid names the context determines the project and the environment.
pub proof fn lemma_contexts_apart(p1: Seq<char>, e1: Seq<char>, p2: Seq<char>, e2: Seq<char>)
    requires
        is_slug(p1),
        is_slug(e1),
        is_slug(p2),
        is_slug(e2),
        context_spec(p1, e1) == context_spec(p2, e2),
    ensures
        p1 == p2,
        e1 == e2,
{
    reveal_strlit("secrets/");
    reveal_strlit("/");
    let a = context_spec(p1, e1);
    let b = context_spec(p2, e2);
    let x = p1 + "/"@ + e1;
    let y = p2 + "/"@ + e2;
    assert(a.skip(8) =~= x);
    assert(b.skip(8) =~= y);
    assert(x == y);
    if p1.len() < p2.len() {
        assert(x[p1.len() as int] == '/');
        assert(y[p1.len() as int] == p2[p1.len() as int]);
        assert(slug_char(p2[p1.len() as int]));
    } else if p2.len() < p1.len() {
        assert(y[p2.len() as int] == '/');
        assert(x[p2.len() as int] == p1[p2.len() as int]);
        assert(slug_char(p1[p2.len() as int]));
    }
    assert(x.take(p1.len() as int) =~= p1);
    assert(y.take(p2.len() as int) =~= p2);
    assert(x.skip(p1.len() as int + 1) =~= e1);
    assert(y.skip(p2.len() as int + 1) =~= e2);
}

/// The context that separates one environment's subkey from every other's.
pub fn context(project: &str, env: &str) -> (r: String)
    ensures
        r@ == context_spec(project@, env@),
{
    let mut r = String::from_str("secrets/");
    push_str(&mut r, project);
    push_str(&mut r, "/");
    push_str(&mut r, env);
    r
}

/// The subkey an environment's values are sealed with.
pub open spec fn subkey(master: Seq<u8>, project: Seq<char>, env: Seq<char>) -> Seq<u8> {
    blake3_derive_key(context_spec(project, env), master)
}

/// The text a stored blob holds for an environment: it must open under the
/// environment's subkey and be UTF-8.
pub open spec fn secret_text(
    master: Seq<u8>,
    project: Seq<char>,
    env: Seq<char>,
    blob: Seq<u8>,
) -> Option<Seq<char>> {
    match opened(subkey(master, project, env), blob) {
        Some(b) => if vstd::utf8::valid_utf8(b) {
            Some(vstd::utf8::decode_utf8(b))
        } else {
            None
        },
        None => None,
    }
}

/// Whether `set` accepts the names and the value.
pub open spec fn set_accepts(
    project: Seq<char>,
    env: Seq<char>,
    name: Seq<char>,
    value: Seq<char>,
) -> bool {
    is_slug(project) && is_slug(env) && is_key_name(name) && byte_len(value) <= MAX_VALUE
}

/// The error for a value over `MAX_VALUE` bytes.
pub open spec fn value_too_long_error() -> Seq<char> {
    "el valor pasa los "@ + crate::text::decimal(MAX_VALUE as nat) + " bytes"@
}

/// What `set` refuses the names and the value with, checked in order:
/// project, environment, key name, then the value's size.
pub open spec fn set_error(
    project: Seq<char>,
    env: Seq<char>,
    name: Seq<char>,
    value: Seq<char>,
) -> Option<Seq<char>> {
    if slug_error(project) is Some {
        slug_error(project)
    } else if slug_error(env) is Some {
        slug_error(env)
    } else if key_error(name) is Some {
        key_error(name)
    } else if byte_len(value) > MAX_VALUE {
        Some(value_too_long_error())
    } else {
        None
    }
}

/// The blob to store for `name = value` in `project/env`: the names are
/// checked, then the value is sealed under the environment's subkey. What
/// comes back reads back as the value.
pub fn seal_secret(master: &Key, project: &str, env: &str, name: &str, value: &str) -> (r: Result<
    Vec<u8>,
    Error,
>)
    ensures
        (r matches Err(Error::Bad(_))) <==> !set_accepts(project@, env@, name@, value@),
        set_error(project@, env@, name@, value@) matches Some(m) ==> (r matches Err(
            Error::Bad(x),
        ) && x@ == m),
        r matches Ok(blob) ==> secret_text(master@, project@, env@, blob@) == Some(value@),
{
    slug(project)?;
    slug(env)?;
    key_name(name)?;
    if value.as_bytes().len() > MAX_VALUE {
        let mut m = String::from_str("el valor pasa los ");
        crate::text::push_decimal(&mut m, MAX_VALUE as u64);
        push_str(&mut m, " bytes");
        return Err(Error::Bad(m));
    }
    let ctx = context(project, env);
    let sub = master.derive(ctx.as_str());
    match sub.seal(value.as_bytes()) {
        Ok(blob) => {
            proof {
                assert(value.spec_bytes() == vstd::utf8::encode_utf8(value@));
            }
            Ok(blob)
        },
        Err(m) => Err(Error::Internal(m)),
    }
}

/// The secrets that `rows` of `(name, blob)` hold, each inserted in turn.
pub open spec fn secrets_of(
    master: Seq<u8>,
    project: Seq<char>,
    env: Seq<char>,
    rows: Seq<(String, Vec<u8>)>,
) -> Seq<(Seq<char>, Seq<char>)>
    decreases rows.len(),
{
    if rows.len() == 0 {
        Seq::empty()
    } else {
        insert_sorted(
            secrets_of(master, project, env, rows.drop_last()),
            rows.last().0@,
            secret_text(master, project, env, rows.last().1@)->Some_0,
        )
    }
}

proof fn lemma_secrets_ascending(
    master: Seq<u8>,
    project: Seq<char>,
    env: Seq<char>,
    rows: Seq<(String, Vec<u8>)>,
)
    ensures
        crate::secrets::ascending(secrets_of(master, project, env, rows)),
    decreases rows.len(),
{
    if rows.len() > 0 {
        lemma_secrets_ascending(master, project, env, rows.drop_last());
        crate::secrets::lemma_insert_sorted(
            secrets_of(master, project, env, rows.drop_last()),
            rows.last().0@,
            secret_text(master, project, env, rows.last().1@)->Some_0,
        );
    }
}

/// What is written reads back: when the stored rows of an environment hold
/// `name` once, with a blob that opens to `value` (as the blob `seal_secret`
/// makes does), the environment's secrets give `value` for `name`.
pub proof fn lemma_written_value_reads_back(
    master: Seq<u8>,
    project: Seq<char>,
    env: Seq<char>,
    rows: Seq<(String, Vec<u8>)>,
    i: int,
    value: Seq<char>,
)
    requires
        0 <= i < rows.len(),
        secret_text(master, project, env, rows[i].1@) == Some(value),
        forall|k: int| 0 <= k < rows.len() && k != i ==> (#[trigger] rows[k]).0@ != rows[i].0@,
    ensures
        value_of(secrets_of(master, project, env, rows), rows[i].0@) == Some(value),
    decreases rows.len(),
{
    let name = rows[i].0@;
    let init = rows.drop_last();
    lemma_secrets_ascending(master, project, env, init);
    let before = secrets_of(master, project, env, init);
    let v = secret_text(master, project, env, rows.last().1@)->Some_0;
    if i == rows.len() - 1 {
        crate::secrets::lemma_insert_sorted(before, name, v);
    } else {
        assert forall|k: int| 0 <= k < init.len() && k != i implies (#[trigger] init[k]).0@
            != init[i].0@ by {
            assert(init[k] == rows[k]);
        }
        lemma_written_value_reads_back(master, project, env, init, i, value);
        assert(rows.last() == rows[rows.len() - 1]);
        crate::secrets::lemma_insert_other(before, rows.last().0@, v, name);
    }
}

/// What is not stored does not read: when no stored row of an environment is
/// named `name`, its secrets have no value for `name`.
pub proof fn lemma_absent_name_reads_nothing(
    master: Seq<u8>,
    project: Seq<char>,
    env: Seq<char>,
    rows: Seq<(String, Vec<u8>)>,
    name: Seq<char>,
)
    requires
        forall|k: int| 0 <= k < rows.len() ==> (#[trigger] rows[k]).0@ != name,
    ensures
        value_of(secrets_of(master, project, env, rows), name) is None,
    decreases rows.len(),
{
    if rows.len() > 0 {
        let init = rows.drop_last();
        assert forall|k: int| 0 <= k < init.len() implies (#[trigger] init[k]).0@ != name by {
            assert(init[k] == rows[k]);
        }
        lemma_absent_name_reads_nothing(master, project, env, init, name);
        lemma_secrets_ascending(master, project, env, init);
        assert(rows.last() == rows[rows.len() - 1]);
        crate::secrets::lemma_insert_other(
            secrets_of(master, project, env, init),
            rows.last().0@,
            secret_text(master, project, env, rows.last().1@)->Some_0,
            name,
        );
    }
}

/// Whether every blob in `rows` reads back as text.
pub open spec fn all_readable(
    master: Seq<u8>,
    project: Seq<char>,
    env: Seq<char>,
    rows: Seq<(String, Vec<u8>)>,
) -> bool {
    forall|i: int|
        0 <= i < rows.len() ==> (#[trigger] secret_text(master, project, env, rows[i].1@)) is Some
}

/// What reading an unreadable row fails with: why its blob does not open, or
/// that what it holds is not text.
pub open spec fn unreadable_error(
    master: Seq<u8>,
    project: Seq<char>,
    env: Seq<char>,
    row: (String, Vec<u8>),
) -> Seq<char> {
    if opened(subkey(master, project, env), row.1@) is None {
        if row.1@.len() <= crate::crypto::NONCE_LEN {
            crate::crypto::truncated_error()
        } else {
            crate::crypto::undecryptable_error()
        }
    } else {
        row.0@ + " no es texto"@
    }
}

/// The secrets of `project/env` from the stored `(name, blob)` rows, by name.
pub fn open_secrets(master: &Key, project: &str, env: &str, rows: &Vec<(String, Vec<u8>)>) -> (r:
    Result<Secrets, Error>)
    ensures
        r is Ok <==> all_readable(master@, project@, env@, rows@),
        r matches Ok(s) ==> s@ == secrets_of(master@, project@, env@, rows@),
        // The error is that of the first row that does not read.
        r matches Err(e) ==> e matches Error::Internal(m) && exists|i: int|
            #![trigger rows@[i]]
            0 <= i < rows@.len() && all_readable(master@, project@, env@, rows@.take(i))
                && secret_text(master@, project@, env@, rows@[i].1@) is None && m@
                == unreadable_error(master@, project@, env@, rows@[i]),
{
    let ctx = context(project, env);
    let sub = master.derive(ctx.as_str());
    let mut out = Secrets::new();
    let n = rows.len();
    for i in 0..n
        invariant
            n == rows@.len(),
            sub@ == subkey(master@, project@, env@),
            all_readable(master@, project@, env@, rows@.take(i as int)),
            out@ == secrets_of(master@, project@, env@, rows@.take(i as int)),
    {
        let (name, blob) = (&rows[i].0, &rows[i].1);
        assert(rows@.take(i + 1).drop_last() == rows@.take(i as int));
        assert(rows@.take(i + 1).last() == rows@[i as int]);
        let plain = match sub.open(blob.as_slice()) {
            Ok(p) => p,
            Err(m) => {
                assert(secret_text(master@, project@, env@, rows@[i as int].1@) is None);
                assert(m@ == unreadable_error(master@, project@, env@, rows@[i as int]));
                return Err(Error::Internal(m));
            },
        };
        let text = match String::from_utf8(plain) {
            Ok(t) => t,
            Err(_) => {
                let m = concat(name.as_str(), " no es texto");
                assert(secret_text(master@, project@, env@, rows@[i as int].1@) is None);
                assert(m@ == unreadable_error(master@, project@, env@, rows@[i as int]));
                return Err(Error::Internal(m));
            },
        };
        out.insert(name.clone(), text);
        assert forall|k: int| 0 <= k < i + 1 implies (#[trigger] secret_text(
            master@,
            project@,
            env@,
            rows@.take(i + 1)[k].1@,
        )) is Some by {
            if k < i {
                assert(rows@.take(i + 1)[k] == rows@.take(i as int)[k]);
            } else {
                assert(rows@.take(i + 1)[k] == rows@[i as int]);
            }
        }
        assert(all_readable(master@, project@, env@, rows@.take(i + 1)));
    }
    assert(rows@.take(n as int) == rows@);
    Ok(out)
}

/// The error for removing a secret that is not there.
pub fn missing_secret(project: &str, env: &str, name: &str) -> (e: Error)
    ensures
        e matches Error::Bad(m) && m@ == name@ + " no está en "@ + project@ + "/"@ + env@,
{
    let mut m = concat(name, " no está en ");
    push_str(&mut m, project);
    push_str(&mut m, "/");
    push_str(&mut m, env);
    Error::Bad(m)
}

// ---------------------------------------------------------------------------
// Tokens
// ---------------------------------------------------------------------------

/// A token as stored: everything but its secret, which is kept hashed.
#[derive(Clone, Debug, PartialEq)]
pub struct Token {
    pub id: String,
    pub name: String,
    pub project: String,
    pub env: String,
    /// The key names it sees; `None` sees the whole environment.
    pub keys: Option<Vec<String>>,
    pub admin: bool,
    pub created_at: i64,
    pub expires_at: Option<i64>,
    pub last_used: Option<i64>,
}

/// What a new token is asked for with.
#[derive(Clone, Debug, PartialEq)]
pub struct NewToken {
    pub name: String,
    pub project: String,
    pub env: String,
    pub keys: Option<Vec<String>>,
    pub admin: bool,
    /// Seconds until it expires; `None` never expires.
    pub ttl: Option<i64>,
}

/// Whether a token may be issued as asked: an administration token lists no
/// keys, any other names a valid project and environment, and every token
/// has a name that is not blank.
pub open spec fn token_request_valid(new: NewToken) -> bool {
    &&& if new.admin {
        new.keys is None
    } else {
        is_slug(new.project@) && is_slug(new.env@)
    }
    &&& trim(new.name@).len() > 0
}

/// When a token issued at `now` expires, if it does.
pub open spec fn expiry(ttl: Option<i64>, now: i64) -> Option<int> {
    match ttl {
        Some(t) => Some(now + t),
        None => None,
    }
}

/// Whether the expiry fits in an `i64`.
pub open spec fn expiry_fits(ttl: Option<i64>, now: i64) -> bool {
    match ttl {
        Some(t) => i64::MIN <= now + t <= i64::MAX,
        None => true,
    }
}

/// What a request for a new token is refused with, checked in order.
pub open spec fn new_token_error(new: NewToken) -> Option<Seq<char>> {
    if new.admin && new.keys is Some {
        Some("un token de administración ve todo"@)
    } else if !new.admin && slug_error(new.project@) is Some {
        slug_error(new.project@)
    } else if !new.admin && slug_error(new.env@) is Some {
        slug_error(new.env@)
    } else if trim(new.name@).len() == 0 {
        Some("el token necesita un nombre"@)
    } else {
        None
    }
}

/// The error for an expiry that does not fit in an `i64`.
pub open spec fn expiry_error() -> Seq<char> {
    "el vencimiento se va de rango"@
}

/// Checks a request for a new token.
pub fn check_new_token(new: &NewToken) -> (r: Result<(), Error>)
    ensures
        r is Ok <==> token_request_valid(*new),
        r is Ok <==> new_token_error(*new) is None,
        r matches Err(e) ==> e matches Error::Bad(m) && new_token_error(*new) == Some(m@),
{
    if new.admin {
        if new.keys.is_some() {
            return Err(Error::Bad(String::from_str("un token de administración ve todo")));
        }
    } else {
        slug(new.project.as_str())?;
        slug(new.env.as_str())?;
    }
    let name = trimmed(new.name.as_str());
    if name.as_str().is_empty() {
        return Err(Error::Bad(String::from_str("el token necesita un nombre")));
    }
    Ok(())
}

/// The token record for `new`, with the given id, issued at `now`.
pub fn issue_token(new: NewToken, id: String, now: i64) -> (r: Result<Token, Error>)
    ensures
        r is Ok <==> token_request_valid(new) && expiry_fits(new.ttl, now),
        r matches Err(e) ==> e matches Error::Bad(m) && m@ == (match new_token_error(new) {
            Some(x) => x,
            None => expiry_error(),
        }),
        r matches Ok(t) ==> t.id == id && t.name == new.name && t.project == new.project && t.env
            == new.env && t.keys == new.keys && t.admin == new.admin && t.created_at == now
            && t.last_used is None && (match t.expires_at {
            Some(x) => expiry(new.ttl, now) == Some(x as int),
            None => new.ttl is None,
        }),
{
    check_new_token(&new)?;
    let expires_at = match new.ttl {
        Some(ttl) => match now.checked_add(ttl) {
            Some(x) => Some(x),
            None => {
                return Err(Error::Bad(String::from_str("el vencimiento se va de rango")));
            },
        },
        None => None,
    };
    Ok(
        Token {
            id,
            name: new.name,
            project: new.project,
            env: new.env,
            keys: new.keys,
            admin: new.admin,
            created_at: now,
            expires_at,
            last_used: None,
        },
    )
}

/// The form of a token's secret: `hd_` and 48 lower-case hexadecimal digits.
pub open spec fn token_secret_form(plain: Seq<char>) -> bool {
    exists|b: Seq<u8>| b.len() == 24 && plain == "hd_"@ + encode_hex_spec(b)
}

/// The form of a token's id: 12 lower-case hexadecimal digits.
pub open spec fn token_id_form(id: Seq<char>) -> bool {
    exists|b: Seq<u8>| b.len() == 6 && id == encode_hex_spec(b)
}

/// Issues a token for `new` now, with a random id and secret. Returns the
/// record and the secret, which is shown once and stored only hashed.
pub fn create_token(new: NewToken) -> (r: Result<(Token, String), Error>)
    ensures
        !token_request_valid(new) ==> (r matches Err(Error::Bad(_))),
        r matches Ok(p) ==> token_secret_form(p.1@) && token_id_form(p.0.id@) && p.0.name
            == new.name && p.0.project == new.project && p.0.env == new.env && p.0.keys
            == new.keys && p.0.admin == new.admin && p.0.last_used is None,
        r matches Ok(p) ==> (match p.0.expires_at {
            Some(x) => expiry(new.ttl, p.0.created_at) == Some(x as int),
            None => new.ttl is None,
        }),
        // Past the checks, only an expiry out of range is refused; what else
        // fails is the machine's randomness.
        r matches Err(Error::Bad(_)) ==> !token_request_valid(new) || new.ttl is Some,
        !token_request_valid(new) ==> (r matches Err(Error::Bad(m)) && new_token_error(new)
            == Some(m@)),
        r matches Err(Error::Internal(_)) ==> token_request_valid(new),
{
    check_new_token(&new)?;
    let secret = match random_hex(24) {
        Ok(h) => h,
        Err(m) => {
            return Err(Error::Internal(m));
        },
    };
    let plain = concat("hd_", secret.as_str());
    let id = match random_hex(6) {
        Ok(h) => h,
        Err(m) => {
            return Err(Error::Internal(m));
        },
    };
    let at = now();
    let token = issue_token(new, id, at)?;
    Ok((token, plain))
}

/// The hash under which a token's secret is stored.
pub open spec fn secret_hash(plain: Seq<char>) -> Seq<char> {
    encode_hex_spec(blake3_hash(vstd::utf8::encode_utf8(plain)))
}

/// What `serde_json::to_string` writes for a list of strings.
pub uninterp spec fn json_of_names(names: Seq<Seq<char>>) -> Seq<char>;

/// What `serde_json::from_str::<Vec<String>>` reads from `text`: the list, or
/// `None` when the text is not a JSON array of strings.
pub uninterp spec fn names_of_json(text: Seq<char>) -> Option<Seq<Seq<char>>>;

/// Calls `serde_json::to_string` on a list of strings. Claims: the result is
/// the named text of the list, and it does not fail (the documentation: it
/// fails only where a `Serialize` impl decides to, or on a map with keys that
/// are not strings; neither is in a list of strings).
#[verifier::external_body]
fn names_to_json(names: &Vec<String>) -> (r: Result<String, String>)
    ensures
        r is Ok,
        r matches Ok(t) ==> t@ == json_of_names(crate::text::texts_view(names@)),
{
    serde_json::to_string(names).map_err(|e| e.to_string())
}

/// Calls `serde_json::from_str::<Vec<String>>`. Claims: the result is the
/// named reading of the text.
#[verifier::external_body]
fn names_from_json(text: &str) -> (r: Option<Vec<String>>)
    ensures
        r is None <==> names_of_json(text@) is None,
        r matches Some(v) ==> names_of_json(text@) == Some(crate::text::texts_view(v@)),
{
    serde_json::from_str::<Vec<String>>(text).ok()
}

/// The text the store keeps for a token's key names: the names as a JSON
/// list, or nothing for a token that sees the whole environment.
pub fn stored_scope(keys: &Option<Vec<String>>) -> (r: Option<String>)
    ensures
        match keys {
            Some(k) => r matches Some(t) && t@ == json_of_names(crate::text::texts_view(k@)),
            None => r is None,
        },
{
    match keys {
        Some(k) => match names_to_json(k) {
            Ok(t) => Some(t),
            Err(_) => Some(String::new()),
        },
        None => None,
    }
}

/// The key names a stored token sees, read back from the text the store
/// keeps: nothing stored, or a text that is not a JSON list of strings, is a
/// token that sees the whole environment.
pub fn scope_of_stored(text: Option<String>) -> (r: Option<Vec<String>>)
    ensures
        text is None ==> r is None,
        text matches Some(t) ==> (r matches Some(v) ==> names_of_json(t@) == Some(
            crate::text::texts_view(v@),
        )) && (r is None <==> names_of_json(t@) is None),
{
    match text {
        Some(t) => names_from_json(t.as_str()),
        None => None,
    }
}

/// A token as the store keeps it: the record, and the hash of its secret in
/// place of the secret.
pub struct TokenRow {
    pub token: Token,
    pub hash: String,
}

/// The row to store for a token issued with the secret `plain`: the record
/// as it is, and the secret only hashed.
pub fn token_row(token: Token, plain: &str) -> (r: TokenRow)
    ensures
        r.token == token,
        r.hash@ == secret_hash(plain@),
{
    let hash = hash(plain);
    TokenRow { token, hash }
}

/// The first of `hashes` equal to `h`.
pub open spec fn first_match(rows: Seq<(Token, String)>, h: Seq<char>) -> Option<int>
    decreases rows.len(),
{
    if rows.len() == 0 {
        None
    } else {
        match first_match(rows.drop_last(), h) {
            Some(i) => Some(i),
            None => if rows.last().1@ == h {
                Some(rows.len() - 1)
            } else {
                None
            },
        }
    }
}

/// Whether a token has expired at `now`.
pub open spec fn expired(t: Token, now: i64) -> bool {
    t.expires_at matches Some(x) && x <= now
}

/// A token is found by its secret: when exactly one stored row carries the
/// hash of `plain`, that row is the one `find_token` judges.
pub proof fn lemma_token_found_by_secret(rows: Seq<(Token, String)>, plain: Seq<char>, i: int)
    requires
        0 <= i < rows.len(),
        rows[i].1@ == secret_hash(plain),
        forall|k: int| 0 <= k < rows.len() && k != i ==> (#[trigger] rows[k]).1@ != secret_hash(plain),
    ensures
        first_match(rows, secret_hash(plain)) == Some(i),
{
    lemma_first_match(rows, secret_hash(plain));
}

/// A revoked token is not found again: once the one row that carries the
/// hash of `plain` is gone, no row matches it.
pub proof fn lemma_revoked_token_not_found(rows: Seq<(Token, String)>, plain: Seq<char>, i: int)
    requires
        0 <= i < rows.len(),
        rows[i].1@ == secret_hash(plain),
        forall|k: int| 0 <= k < rows.len() && k != i ==> (#[trigger] rows[k]).1@ != secret_hash(plain),
    ensures
        first_match(rows.remove(i), secret_hash(plain)) is None,
{
    let rest = rows.remove(i);
    lemma_first_match(rest, secret_hash(plain));
    if first_match(rest, secret_hash(plain)) is Some {
        let j = first_match(rest, secret_hash(plain))->Some_0;
        if j < i {
            assert(rest[j] == rows[j]);
        } else {
            assert(rest[j] == rows[j + 1]);
        }
    }
}

/// The error for an expired token.
pub open spec fn expired_error() -> Seq<char> {
    "ese token venció"@
}

proof fn lemma_first_match(rows: Seq<(Token, String)>, h: Seq<char>)
    ensures
        match first_match(rows, h) {
            Some(i) => 0 <= i < rows.len() && rows[i].1@ == h && forall|k: int|
                0 <= k < i ==> rows[k].1@ != h,
            None => forall|k: int| 0 <= k < rows.len() ==> rows[k].1@ != h,
        },
    decreases rows.len(),
{
    if rows.len() > 0 {
        lemma_first_match(rows.drop_last(), h);
        assert(forall|k: int| 0 <= k < rows.len() - 1 ==> rows.drop_last()[k] == rows[k]);
    }
}

/// The token whose stored hash matches the secret `plain`, among `rows` of
/// `(token, hash)`: the first that matches. A match that has expired is an
/// error; no match is `None`.
pub fn find_token(rows: Vec<(Token, String)>, plain: &str, now: i64) -> (r: Result<
    Option<Token>,
    Error,
>)
    ensures
        match first_match(rows@, secret_hash(plain@)) {
            None => r == Ok::<Option<Token>, Error>(None),
            Some(i) => if expired(rows@[i].0, now) {
                r matches Err(Error::Bad(m)) && m@ == expired_error()
            } else {
                r == Ok::<Option<Token>, Error>(Some(rows@[i].0))
            },
        },
{
    let presented = hash(plain);
    let ghost h = secret_hash(plain@);
    assert(presented@ == h);
    let n = rows.len();
    let mut i: usize = 0;
    while i < n
        invariant
            i <= n == rows@.len(),
            presented@ == h,
            h == secret_hash(plain@),
            first_match(rows@.take(i as int), h) is None,
        decreases n - i,
    {
        assert(rows@.take(i + 1).drop_last() == rows@.take(i as int));
        assert(rows@.take(i + 1).last() == rows@[i as int]);
        if crate::crypto::equal(rows[i].1.as_str(), presented.as_str()) {
            proof {
                assert(first_match(rows@.take(i + 1), h) == Some(i as int));
                lemma_first_match_extend(rows@, h, i + 1);
            }
            let expires = rows[i].0.expires_at;
            match expires {
                Some(x) => {
                    if x <= now {
                        return Err(Error::Bad(String::from_str("ese token venció")));
                    }
                },
                None => {},
            }
            let mut rows = rows;
            let (token, _) = rows.remove(i);
            return Ok(Some(token));
        }
        i = i + 1;
    }
    assert(rows@.take(n as int) == rows@);
    Ok(None)
}

proof fn lemma_first_match_extend(rows: Seq<(Token, String)>, h: Seq<char>, k: int)
    requires
        0 <= k <= rows.len(),
        first_match(rows.take(k), h) is Some,
    ensures
        first_match(rows, h) == first_match(rows.take(k), h),
    decreases rows.len() - k,
{
    if k < rows.len() {
        assert(rows.take(k + 1).drop_last() == rows.take(k));
        lemma_first_match_extend(rows, h, k + 1);
    } else {
        assert(rows.take(k) == rows);
    }
}

/// The first token with the id `id`.
pub open spec fn first_with_id(tokens: Seq<Token>, id: Seq<char>) -> Option<int>
    decreases tokens.len(),
{
    if tokens.len() == 0 {
        None
    } else {
        match first_with_id(tokens.drop_last(), id) {
            Some(i) => Some(i),
            None => if tokens.last().id@ == id {
                Some(tokens.len() - 1)
            } else {
                None
            },
        }
    }
}

proof fn lemma_first_with_id_extend(tokens: Seq<Token>, id: Seq<char>, k: int)
    requires
        0 <= k <= tokens.len(),
        first_with_id(tokens.take(k), id) is Some,
    ensures
        first_with_id(tokens, id) == first_with_id(tokens.take(k), id),
    decreases tokens.len() - k,
{
    if k < tokens.len() {
        assert(tokens.take(k + 1).drop_last() == tokens.take(k));
        lemma_first_with_id_extend(tokens, id, k + 1);
    } else {
        assert(tokens.take(k) == tokens);
    }
}

/// The token to revoke: the one with the id `id`.
pub fn token_by_id(tokens: Vec<Token>, id: &str) -> (r: Result<Token, Error>)
    ensures
        match first_with_id(tokens@, id@) {
            Some(i) => r == Ok::<Token, Error>(tokens@[i]),
            None => r matches Err(Error::Bad(m)) && m@ == "no hay token "@ + id@,
        },
{
    let n = tokens.len();
    let mut i: usize = 0;
    while i < n
        invariant
            i <= n == tokens@.len(),
            first_with_id(tokens@.take(i as int), id@) is None,
        decreases n - i,
    {
        assert(tokens@.take(i + 1).drop_last() == tokens@.take(i as int));
        assert(tokens@.take(i + 1).last() == tokens@[i as int]);
        if crate::text::same(tokens[i].id.as_str(), id) {
            proof {
                assert(first_with_id(tokens@.take(i + 1), id@) == Some(i as int));
                lemma_first_with_id_extend(tokens@, id@, i + 1);
            }
            let mut tokens = tokens;
            return Ok(tokens.remove(i));
        }
        i = i + 1;
    }
    assert(tokens@.take(n as int) == tokens@);
    Err(Error::Bad(concat("no hay token ", id)))
}

/// An optional integer as JSON: `null` when absent.
fn optional_int(v: Option<i64>) -> (r: Json)
    ensures
        match v {
            Some(n) => crate::json::json_i64(Some(r)) == Some(n),
            None => r is Null,
        },
{
    match v {
        Some(n) => Json::integer(n),
        None => Json::Null,
    }
}

/// The key names of an optional list, by their texts.
pub open spec fn keys_view(keys: Option<Vec<String>>) -> Option<Seq<Seq<char>>> {
    match keys {
        Some(k) => Some(crate::text::texts_view(k@)),
        None => None,
    }
}

/// Whether `j` is how the API lists token `t`: every field but the secret.
pub open spec fn lists_token(j: Json, t: Token) -> bool {
    &&& j matches Json::Object(m) && m@.len() == 9
    &&& json_text(json_get(j, "id"@)) == Some(t.id@)
    &&& json_text(json_get(j, "name"@)) == Some(t.name@)
    &&& json_text(json_get(j, "project"@)) == Some(t.project@)
    &&& json_text(json_get(j, "env"@)) == Some(t.env@)
    &&& is_optional_texts(json_get(j, "keys"@), keys_view(t.keys))
    &&& json_bool(json_get(j, "admin"@)) == Some(t.admin)
    &&& json_i64(json_get(j, "created_at"@)) == Some(t.created_at)
    &&& is_optional_int(json_get(j, "expires_at"@), t.expires_at)
    &&& is_optional_int(json_get(j, "last_used"@), t.last_used)
}

impl Token {
    /// The token as the API lists it: every field but the secret, which the
    /// record does not hold.
    pub fn to_json(&self) -> (r: Json)
        ensures
            lists_token(r, *self),
    {
        let mut m: Vec<(String, Json)> = Vec::new();
        m.push((String::from_str("id"), Json::Text(self.id.clone())));
        m.push((String::from_str("name"), Json::Text(self.name.clone())));
        m.push((String::from_str("project"), Json::Text(self.project.clone())));
        m.push((String::from_str("env"), Json::Text(self.env.clone())));
        let keys = match &self.keys {
            Some(k) => crate::json::text_array(k),
            None => Json::Null,
        };
        m.push((String::from_str("keys"), keys));
        m.push((String::from_str("admin"), Json::Bool(self.admin)));
        m.push((String::from_str("created_at"), Json::integer(self.created_at)));
        m.push((String::from_str("expires_at"), optional_int(self.expires_at)));
        m.push((String::from_str("last_used"), optional_int(self.last_used)));
        proof {
            reveal_strlit("id");
            reveal_strlit("name");
            reveal_strlit("project");
            reveal_strlit("env");
            reveal_strlit("keys");
            reveal_strlit("admin");
            reveal_strlit("created_at");
            reveal_strlit("expires_at");
            reveal_strlit("last_used");
            let s = m@;
            assert(s[0].0@ == "id"@);
            assert(s[1].0@ == "name"@);
            assert(s[2].0@ == "project"@);
            assert(s[3].0@ == "env"@);
            assert(s[4].0@ == "keys"@);
            assert(s[5].0@ == "admin"@);
            assert(s[6].0@ == "created_at"@);
            assert(s[7].0@ == "expires_at"@);
            assert(s[8].0@ == "last_used"@);
            assert(s[1].0@[0] != s[4].0@[0]);
            assert(s[6].0@[0] != s[7].0@[0]);
            crate::json::lemma_member_at(s, "id"@, 0);
            crate::json::lemma_member_at(s, "name"@, 1);
            crate::json::lemma_member_at(s, "project"@, 2);
            crate::json::lemma_member_at(s, "env"@, 3);
            crate::json::lemma_member_at(s, "keys"@, 4);
            crate::json::lemma_member_at(s, "admin"@, 5);
            crate::json::lemma_member_at(s, "created_at"@, 6);
            crate::json::lemma_member_at(s, "expires_at"@, 7);
            crate::json::lemma_member_at(s, "last_used"@, 8);
        }
        Json::Object(m)
    }
}

// ---------------------------------------------------------------------------
// Audit
// ---------------------------------------------------------------------------

/// One row of the audit log: who did what where. Never a value.
#[derive(Clone, Debug, PartialEq)]
pub struct AuditEntry {
    pub at: i64,
    pub actor: String,
    pub action: String,
    pub project: String,
    pub env: String,
    /// The key or token name it touched, if any.
    pub name: Option<String>,
}

/// Whether `j` is how the API lists audit row `e`; its name goes under `key`.
pub open spec fn lists_audit(j: Json, e: AuditEntry) -> bool {
    &&& j matches Json::Object(m) && m@.len() == 6
    &&& json_i64(json_get(j, "at"@)) == Some(e.at)
    &&& json_text(json_get(j, "actor"@)) == Some(e.actor@)
    &&& json_text(json_get(j, "action"@)) == Some(e.action@)
    &&& json_text(json_get(j, "project"@)) == Some(e.project@)
    &&& json_text(json_get(j, "env"@)) == Some(e.env@)
    &&& match e.name {
        Some(n) => json_text(json_get(j, "key"@)) == Some(n@),
        None => json_get(j, "key"@) == Some(Json::Null),
    }
}

impl AuditEntry {
    /// The entry as the API lists it.
    pub fn to_json(&self) -> (r: Json)
        ensures
            lists_audit(r, *self),
    {
        let mut m: Vec<(String, Json)> = Vec::new();
        m.push((String::from_str("at"), Json::integer(self.at)));
        m.push((String::from_str("actor"), Json::Text(self.actor.clone())));
        m.push((String::from_str("action"), Json::Text(self.action.clone())));
        m.push((String::from_str("project"), Json::Text(self.project.clone())));
        m.push((String::from_str("env"), Json::Text(self.env.clone())));
        let key = match &self.name {
            Some(n) => Json::Text(n.clone()),
            None => Json::Null,
        };
        m.push((String::from_str("key"), key));
        proof {
            reveal_strlit("at");
            reveal_strlit("actor");
            reveal_strlit("action");
            reveal_strlit("project");
            reveal_strlit("env");
            reveal_strlit("key");
            let s = m@;
            assert(s[0].0@ == "at"@);
            assert(s[1].0@ == "actor"@);
            assert(s[2].0@ == "action"@);
            assert(s[3].0@ == "project"@);
            assert(s[4].0@ == "env"@);
            assert(s[5].0@ == "key"@);
            assert(s[4].0@[0] != s[5].0@[0]);
            crate::json::lemma_member_at(s, "at"@, 0);
            crate::json::lemma_member_at(s, "actor"@, 1);
            crate::json::lemma_member_at(s, "action"@, 2);
            crate::json::lemma_member_at(s, "project"@, 3);
            crate::json::lemma_member_at(s, "env"@, 4);
            crate::json::lemma_member_at(s, "key"@, 5);
        }
        Json::Object(m)
    }
}

} // verus!
