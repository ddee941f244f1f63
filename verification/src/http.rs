//! HTTP/1.1 as the service speaks it: the request head, query strings with
//! percent escapes, headers, cookies, the bearer token, the JSON body's
//! fields, and the head of a response.
use vstd::prelude::*;

use crate::crypto::hex_pair;
use crate::json::{json_bool, json_get, json_i64, json_text, json_texts, Json};
use crate::text::{
    chars_of, lower_ascii, lowercase_ascii, push_decimal, push_str, split, split_once,
    split_once_str, split_str, strip_prefix, strip_prefix_str, trim, trim_end, trimmed,
};

verus! {

/// The largest body the service reads, in bytes.
pub const MAX_BODY: usize = 1048576;

// ---------------------------------------------------------------------------
// Pairs: a map of text to text
// ---------------------------------------------------------------------------

/// The value of the first entry named `key`.
pub open spec fn lookup(s: Seq<(Seq<char>, Seq<char>)>, key: Seq<char>) -> Option<Seq<char>>
    decreases s.len(),
{
    if s.len() == 0 {
        None
    } else if s[0].0 == key {
        Some(s[0].1)
    } else {
        lookup(s.drop_first(), key)
    }
}

/// The entries with `key` set to `value`: replaced where it is, added at the
/// end otherwise.
pub open spec fn put(s: Seq<(Seq<char>, Seq<char>)>, key: Seq<char>, value: Seq<char>) -> Seq<
    (Seq<char>, Seq<char>),
>
    decreases s.len(),
{
    if s.len() == 0 {
        seq![(key, value)]
    } else if s[0].0 == key {
        s.update(0, (key, value))
    } else {
        seq![s[0]] + put(s.drop_first(), key, value)
    }
}

/// Whether no key occurs twice.
pub open spec fn distinct_keys(s: Seq<(Seq<char>, Seq<char>)>) -> bool {
    forall|i: int, j: int| 0 <= i < j < s.len() ==> #[trigger] s[i].0 != #[trigger] s[j].0
}

/// Names and values, no name twice, in the order they were first set.
pub struct Pairs {
    entries: Vec<(String, String)>,
}

/// The entries of `v` as text.
pub open spec fn pairs_view(v: Seq<(String, String)>) -> Seq<(Seq<char>, Seq<char>)> {
    v.map_values(|e: (String, String)| (e.0@, e.1@))
}

impl View for Pairs {
    type V = Seq<(Seq<char>, Seq<char>)>;

    closed spec fn view(&self) -> Seq<(Seq<char>, Seq<char>)> {
        pairs_view(self.entries@)
    }
}

proof fn lemma_put(s: Seq<(Seq<char>, Seq<char>)>, key: Seq<char>, value: Seq<char>)
    requires
        distinct_keys(s),
    ensures
        distinct_keys(put(s, key, value)),
        lookup(put(s, key, value), key) == Some(value),
        forall|k: Seq<char>| k != key ==> lookup(put(s, key, value), k) == lookup(s, k),
        forall|i: int|
            0 <= i < put(s, key, value).len() ==> (exists|j: int| 0 <= j < s.len() && s[j].0 == (
            #[trigger] put(s, key, value)[i]).0) || put(s, key, value)[i].0 == key,
    decreases s.len(),
{
    let r = put(s, key, value);
    if s.len() == 0 {
        assert(r.drop_first() =~= s);
        assert forall|k: Seq<char>| k != key implies lookup(r, k) == lookup(s, k) by {
            assert(r[0].0 == key);
        }
    } else if s[0].0 == key {
        assert forall|i: int, j: int| 0 <= i < j < r.len() implies #[trigger] r[i].0
            != #[trigger] r[j].0 by {
            assert(s[i].0 != s[j].0);
        }
        assert(r.drop_first() == s.drop_first());
        assert forall|k: Seq<char>| k != key implies lookup(r, k) == lookup(s, k) by {
            assert(r[0].0 == key);
        }
        assert forall|i: int| 0 <= i < r.len() implies (exists|j: int|
            0 <= j < s.len() && s[j].0 == (#[trigger] r[i]).0) || r[i].0 == key by {
            assert(s[i].0 == r[i].0 || i == 0);
        }
    } else {
        let t = s.drop_first();
        assert forall|i: int, j: int| 0 <= i < j < t.len() implies #[trigger] t[i].0
            != #[trigger] t[j].0 by {
            assert(t[i] == s[i + 1] && t[j] == s[j + 1]);
        }
        lemma_put(t, key, value);
        let pt = put(t, key, value);
        assert(r.drop_first() == pt);
        assert forall|i: int| 0 <= i < r.len() implies (exists|j: int|
            0 <= j < s.len() && s[j].0 == (#[trigger] r[i]).0) || r[i].0 == key by {
            if i == 0 {
                assert(s[0].0 == r[0].0);
            } else {
                assert(r[i] == pt[i - 1]);
                if pt[i - 1].0 != key {
                    let j = choose|j: int| 0 <= j < t.len() && t[j].0 == pt[i - 1].0;
                    assert(s[j + 1].0 == r[i].0);
                }
            }
        }
        assert forall|i: int, j: int| 0 <= i < j < r.len() implies #[trigger] r[i].0
            != #[trigger] r[j].0 by {
            if i == 0 {
                assert(r[j] == pt[j - 1]);
                if pt[j - 1].0 != key {
                    let k = choose|k: int| 0 <= k < t.len() && t[k].0 == pt[j - 1].0;
                    assert(s[k + 1].0 != s[0].0);
                }
            } else {
                assert(r[i] == pt[i - 1] && r[j] == pt[j - 1]);
            }
        }
        assert forall|k: Seq<char>| k != key implies lookup(r, k) == lookup(s, k) by {
            assert(r[0] == s[0]);
            assert(r.drop_first() == pt);
            assert(lookup(pt, k) == lookup(t, k));
        }
    }
}

impl Pairs {
    #[verifier::type_invariant]
    spec fn well_formed(self) -> bool {
        distinct_keys(pairs_view(self.entries@))
    }

    /// No entries.
    pub fn new() -> (r: Pairs)
        ensures
            r@ == Seq::<(Seq<char>, Seq<char>)>::empty(),
    {
        let r = Pairs { entries: Vec::new() };
        assert(pairs_view(r.entries@) =~= Seq::<(Seq<char>, Seq<char>)>::empty());
        r
    }

    /// The entries of `list`, each set in turn (a later name replaces an
    /// earlier one's value).
    pub fn from_list(list: Vec<(String, String)>) -> (r: Pairs)
        ensures
            r@ == puts(Seq::empty(), pairs_view(list@)),
    {
        let mut r = Pairs::new();
        let n = list.len();
        for i in 0..n
            invariant
                n == list@.len(),
                r@ == puts(Seq::empty(), pairs_view(list@.take(i as int))),
        {
            let (k, v) = (list[i].0.clone(), list[i].1.clone());
            r.insert(k, v);
            assert(pairs_view(list@.take(i + 1)).drop_last() =~= pairs_view(list@.take(i as int)));
        }
        assert(list@.take(n as int) == list@);
        r
    }

    /// How many entries.
    pub fn len(&self) -> (r: usize)
        ensures
            r == self@.len(),
    {
        self.entries.len()
    }

    /// Sets `key` to `value`.
    pub fn insert(&mut self, key: String, value: String)
        ensures
            final(self)@ == put(old(self)@, key@, value@),
    {
        proof {
            use_type_invariant(&*self);
            lemma_put(self@, key@, value@);
        }
        let ghost s = self@;
        let n = self.entries.len();
        let mut i: usize = 0;
        assert(s.skip(0) =~= s);
        while i < n
            invariant
                i <= n == self.entries@.len(),
                s == pairs_view(self.entries@),
                s == old(self)@,
                forall|j: int| 0 <= j < i ==> s[j].0 != key@,
                distinct_keys(put(s, key@, value@)),
                put(s, key@, value@) == s.take(i as int) + put(s.skip(i as int), key@, value@),
            decreases n - i,
        {
            if crate::text::same(self.entries[i].0.as_str(), key.as_str()) {
                let mut entries = Vec::new();
                std::mem::swap(&mut entries, &mut self.entries);
                entries.set(i, (key, value));
                proof {
                    assert(s.skip(i as int)[0] == s[i as int]);
                    assert(put(s.skip(i as int), key@, value@) == s.skip(i as int).update(
                        0,
                        (key@, value@),
                    ));
                    assert(pairs_view(entries@) =~= s.take(i as int) + s.skip(i as int).update(
                        0,
                        (key@, value@),
                    ));
                }
                self.entries = entries;
                return ;
            }
            proof {
                let t = s.skip(i as int);
                assert(t[0] == s[i as int]);
                assert(t.drop_first() =~= s.skip(i + 1));
                assert(s.take(i + 1) =~= s.take(i as int) + seq![t[0]]);
                assert(s.take(i as int) + (seq![t[0]] + put(t.drop_first(), key@, value@)) =~= s.take(
                    i + 1,
                ) + put(s.skip(i + 1), key@, value@));
            }
            i = i + 1;
        }
        proof {
            assert(s.skip(n as int) =~= Seq::<(Seq<char>, Seq<char>)>::empty());
            assert(s.take(n as int) =~= s);
        }
        let mut entries = Vec::new();
        std::mem::swap(&mut entries, &mut self.entries);
        entries.push((key, value));
        assert(pairs_view(entries@) =~= s + seq![(key@, value@)]);
        self.entries = entries;
    }

    /// The value of `key`, if it is set.
    pub fn get(&self, key: &str) -> (r: Option<&str>)
        ensures
            r matches Some(v) ==> lookup(self@, key@) == Some(v@),
            r is None ==> lookup(self@, key@) is None,
    {
        let n = self.entries.len();
        let mut i: usize = 0;
        let ghost s = self@;
        assert(s.skip(0) =~= s);
        while i < n
            invariant
                i <= n == self.entries@.len(),
                s == self@,
                s == pairs_view(self.entries@),
                lookup(s, key@) == lookup(s.skip(i as int), key@),
            decreases n - i,
        {
            assert(s.skip(i as int)[0] == s[i as int]);
            assert(s.skip(i as int).drop_first() =~= s.skip(i + 1));
            if crate::text::same(self.entries[i].0.as_str(), key) {
                return Some(self.entries[i].1.as_str());
            }
            i = i + 1;
        }
        None
    }
}

/// Setting each of `list` in turn, starting from `s`.
pub open spec fn puts(s: Seq<(Seq<char>, Seq<char>)>, list: Seq<(Seq<char>, Seq<char>)>) -> Seq<
    (Seq<char>, Seq<char>),
>
    decreases list.len(),
{
    if list.len() == 0 {
        s
    } else {
        put(puts(s, list.drop_last()), list.last().0, list.last().1)
    }
}

// ---------------------------------------------------------------------------
// Percent escapes and query strings
// ---------------------------------------------------------------------------

/// What `String::from_utf8_lossy` gives for `bytes`.
pub uninterp spec fn utf8_lossy(bytes: Seq<u8>) -> Seq<char>;

/// Calls `String::from_utf8_lossy`. Claims: the result is the named function
/// of the bytes, and is their plain decoding when they are valid UTF-8 (its
/// documentation: valid input comes back borrowed, unchanged).
#[verifier::external_body]
fn lossy_text(bytes: &[u8]) -> (r: String)
    ensures
        r@ == utf8_lossy(bytes@),
        vstd::utf8::valid_utf8(bytes@) ==> r@ == vstd::utf8::decode_utf8(bytes@),
{
    String::from_utf8_lossy(bytes).to_string()
}

/// The bytes of `b` from `i` on with escapes resolved: a `%` at `i` stands,
/// with the two bytes after it, for the byte they read as in base 16, when
/// both are there (`i + 2 < b.len()`) and do read so; a `+` stands for a
/// space; any other byte stands for itself.
pub open spec fn unescape_from(b: Seq<u8>, i: int) -> Seq<u8>
    decreases b.len() - i,
{
    if i < 0 || i >= b.len() {
        Seq::empty()
    } else if b[i] == 37 && i + 2 < b.len() && hex_pair(b[i + 1] as char, b[i + 2] as char) is Some {
        seq![hex_pair(b[i + 1] as char, b[i + 2] as char)->Some_0] + unescape_from(b, i + 3)
    } else if b[i] == 43 {
        seq![32u8] + unescape_from(b, i + 1)
    } else {
        seq![b[i]] + unescape_from(b, i + 1)
    }
}

/// `percent_decode` of text whose UTF-8 bytes are `b`.
pub open spec fn percent_decode_spec(b: Seq<u8>) -> Seq<char> {
    let u = unescape_from(b, 0);
    if vstd::utf8::valid_utf8(u) {
        vstd::utf8::decode_utf8(u)
    } else {
        utf8_lossy(u)
    }
}

fn ascii_char(b: u8) -> (c: char)
    ensures
        c == b as char,
{
    b as char
}

/// Resolves `%XX` escapes and `+` for space, then reads the bytes as UTF-8,
/// replacing what is not.
pub fn percent_decode(input: &str) -> (r: String)
    ensures
        r@ == percent_decode_spec(vstd::utf8::encode_utf8(input@)),
        vstd::utf8::valid_utf8(unescape_from(vstd::utf8::encode_utf8(input@), 0)) ==> r@
            == vstd::utf8::decode_utf8(unescape_from(vstd::utf8::encode_utf8(input@), 0)),
{
    let bytes = input.as_bytes();
    let n = bytes.len();
    let mut out: Vec<u8> = Vec::new();
    let mut i: usize = 0;
    while i < n
        invariant
            i <= n == bytes@.len(),
            bytes@ == vstd::utf8::encode_utf8(input@),
            unescape_from(bytes@, 0) == out@ + unescape_from(bytes@, i as int),
        decreases n - i,
    {
        if bytes[i] == 37 && n - i > 2 {
            match crate::crypto::hex_pair_value(ascii_char(bytes[i + 1]), ascii_char(bytes[i + 2])) {
                Some(byte) => {
                    let ghost before = out@;
                    out.push(byte);
                    assert(before + unescape_from(bytes@, i as int) =~= out@ + unescape_from(
                        bytes@,
                        i + 3,
                    ));
                    i = i + 3;
                    continue ;
                },
                None => {},
            }
        }
        let ghost before = out@;
        if bytes[i] == 43 {
            out.push(32u8);
        } else {
            out.push(bytes[i]);
        }
        assert(before + unescape_from(bytes@, i as int) =~= out@ + unescape_from(bytes@, i + 1));
        i = i + 1;
    }
    assert(out@ =~= out@ + unescape_from(bytes@, n as int));
    lossy_text(out.as_slice())
}

/// The pair a piece of a query string stands for: before and after the
/// first `=`, or the whole piece and nothing.
pub open spec fn query_piece(piece: Seq<char>) -> (Seq<char>, Seq<char>) {
    match split_once(piece, '=') {
        Some(p) => p,
        None => (piece, Seq::empty()),
    }
}

/// The entries of a query string: the non-empty pieces between `&`, each
/// split at `=` and unescaped, set in order, so that a later name replaces
/// an earlier one.
pub open spec fn parse_pairs_spec(pieces: Seq<Seq<char>>) -> Seq<(Seq<char>, Seq<char>)>
    decreases pieces.len(),
{
    if pieces.len() == 0 {
        Seq::empty()
    } else {
        let before = parse_pairs_spec(pieces.drop_last());
        let piece = pieces.last();
        if piece.len() == 0 {
            before
        } else {
            put(
                before,
                percent_decode_spec(vstd::utf8::encode_utf8(query_piece(piece).0)),
                percent_decode_spec(vstd::utf8::encode_utf8(query_piece(piece).1)),
            )
        }
    }
}

/// The entries of a query string such as `project=bifrost&env=dev`.
pub fn parse_pairs(input: &str) -> (r: Pairs)
    ensures
        r@ == parse_pairs_spec(split(input@, '&')),
{
    let pieces = split_str(input, '&');
    let ghost ps = split(input@, '&');
    let mut out = Pairs::new();
    let n = pieces.len();
    for i in 0..n
        invariant
            n == pieces@.len() == ps.len(),
            ps == split(input@, '&'),
            forall|k: int| 0 <= k < n ==> #[trigger] pieces@[k]@ == ps[k],
            out@ == parse_pairs_spec(ps.take(i as int)),
    {
        assert(ps.take(i + 1).drop_last() == ps.take(i as int));
        assert(ps.take(i + 1).last() == ps[i as int]);
        let piece = &pieces[i];
        if !piece.as_str().is_empty() {
            let (key, value) = match split_once_str(piece.as_str(), '=') {
                Some(p) => p,
                None => (piece.clone(), String::new()),
            };
            out.insert(percent_decode(key.as_str()), percent_decode(value.as_str()));
        }
    }
    assert(ps.take(n as int) == ps);
    out
}

// ---------------------------------------------------------------------------
// Requests
// ---------------------------------------------------------------------------

/// A request as the service reads it.
pub struct Request {
    pub method: String,
    pub path: String,
    pub query: Pairs,
    /// Header names are kept in lower case.
    pub headers: Pairs,
    pub body: Vec<u8>,
    /// What the body holds as JSON; `None` when it is not JSON.
    pub json: Option<Json>,
    /// The announced body was over the limit, and was not read.
    pub too_large: bool,
}

/// The cookie `name` in a `Cookie` header: the first `;`-separated part that,
/// trimmed, has a `=` and the name before it.
pub open spec fn cookie_in(parts: Seq<Seq<char>>, name: Seq<char>) -> Option<Seq<char>>
    decreases parts.len(),
{
    if parts.len() == 0 {
        None
    } else {
        match split_once(trim(parts[0]), '=') {
            Some(kv) => if kv.0 == name {
                Some(kv.1)
            } else {
                cookie_in(parts.drop_first(), name)
            },
            None => cookie_in(parts.drop_first(), name),
        }
    }
}

impl Request {
    /// The header `name`, in any case.
    pub fn header(&self, name: &str) -> (r: Option<&str>)
        ensures
            r matches Some(v) ==> lookup(self.headers@, lower_ascii(name@)) == Some(v@),
            r is None ==> lookup(self.headers@, lower_ascii(name@)) is None,
    {
        let lower = lowercase_ascii(name);
        self.headers.get(lower.as_str())
    }

    /// The query parameter `name`.
    pub fn param(&self, name: &str) -> (r: Option<&str>)
        ensures
            r matches Some(v) ==> lookup(self.query@, name@) == Some(v@),
            r is None ==> lookup(self.query@, name@) is None,
    {
        self.query.get(name)
    }

    /// The token in `Authorization: Bearer <token>`.
    pub fn bearer(&self) -> (r: Option<String>)
        ensures
            r matches Some(t) ==> (lookup(self.headers@, "authorization"@) matches Some(h)
                && strip_prefix(h, "Bearer "@) == Some(t@)),
            r is None ==> (lookup(self.headers@, "authorization"@) matches Some(h) ==> strip_prefix(
                h,
                "Bearer "@,
            ) is None),
    {
        proof {
            reveal_strlit("authorization");
            assert(lower_ascii("authorization"@) =~= "authorization"@);
        }
        let h = self.header("authorization")?;
        strip_prefix_str(h, "Bearer ")
    }

    /// The cookie `name`.
    pub fn cookie(&self, name: &str) -> (r: Option<String>)
        ensures
            r matches Some(v) ==> (lookup(self.headers@, "cookie"@) matches Some(h) && cookie_in(
                split(h, ';'),
                name@,
            ) == Some(v@)),
            r is None ==> (lookup(self.headers@, "cookie"@) matches Some(h) ==> cookie_in(
                split(h, ';'),
                name@,
            ) is None),
    {
        proof {
            reveal_strlit("cookie");
            assert(lower_ascii("cookie"@) =~= "cookie"@);
        }
        let h = self.header("cookie")?;
        let parts = split_str(h, ';');
        let ghost ps = split(h@, ';');
        let n = parts.len();
        let mut i: usize = 0;
        assert(ps.skip(0) =~= ps);
        while i < n
            invariant
                i <= n == parts@.len() == ps.len(),
                ps == split(h@, ';'),
                lookup(self.headers@, "cookie"@) == Some(h@),
                forall|k: int| 0 <= k < n ==> #[trigger] parts@[k]@ == ps[k],
                cookie_in(ps, name@) == cookie_in(ps.skip(i as int), name@),
            decreases n - i,
        {
            assert(ps.skip(i as int)[0] == ps[i as int]);
            assert(ps.skip(i as int).drop_first() =~= ps.skip(i + 1));
            assert(parts@[i as int]@ == ps[i as int]);
            let part = trimmed(parts[i].as_str());
            match split_once_str(part.as_str(), '=') {
                Some((key, value)) => {
                    if crate::text::same(key.as_str(), name) {
                        return Some(value);
                    }
                },
                None => {},
            }
            i = i + 1;
        }
        None
    }

    /// The body as JSON, if it is JSON.
    pub fn json(&self) -> (r: Option<&Json>)
        ensures
            r matches Some(j) ==> self.json == Some(*j),
            r is None ==> self.json is None,
    {
        match &self.json {
            Some(j) => Some(j),
            None => None,
        }
    }

    /// The text field `name` of the JSON body.
    pub fn field(&self, name: &str) -> (r: Option<String>)
        ensures
            r matches Some(s) ==> (self.json matches Some(j) && json_text(json_get(j, name@))
                == Some(s@)),
            r is None ==> (self.json matches Some(j) ==> json_text(json_get(j, name@)) is None),
    {
        match &self.json {
            Some(j) => j.text_at(name),
            None => None,
        }
    }

    /// The integer field `name` of the JSON body.
    pub fn number(&self, name: &str) -> (r: Option<i64>)
        ensures
            r == (match self.json {
                Some(j) => json_i64(json_get(j, name@)),
                None => None,
            }),
    {
        match &self.json {
            Some(j) => j.i64_at(name),
            None => None,
        }
    }

    /// The boolean field `name` of the JSON body; `false` when it is absent
    /// or not a boolean.
    pub fn flag(&self, name: &str) -> (r: bool)
        ensures
            r == (match self.json {
                Some(j) => json_bool(json_get(j, name@)) == Some(true),
                None => false,
            }),
    {
        match &self.json {
            Some(j) => match j.bool_at(name) {
                Some(b) => b,
                None => false,
            },
            None => false,
        }
    }

    /// The texts in the array field `name` of the JSON body (anything else
    /// in it is skipped); `None` when it is not an array.
    pub fn list(&self, name: &str) -> (r: Option<Vec<String>>)
        ensures
            r matches Some(v) ==> (self.json matches Some(j) && json_texts(json_get(j, name@))
                == Some(crate::text::texts_view(v@))),
            r is None ==> (self.json matches Some(j) ==> json_texts(json_get(j, name@)) is None),
    {
        match &self.json {
            Some(j) => j.texts_at(name),
            None => None,
        }
    }
}

// ---------------------------------------------------------------------------
// The request head
// ---------------------------------------------------------------------------

/// A request line and headers, read; the body is still to come.
pub struct Head {
    pub method: String,
    pub path: String,
    pub query: Pairs,
    pub headers: Pairs,
    /// How many body bytes to read.
    pub length: usize,
    /// The announced body is over `MAX_BODY`, and is not to be read.
    pub too_large: bool,
}

/// Whether a header line ends the head: nothing but trailing whitespace.
pub fn ends_head(line: &str) -> (r: bool)
    ensures
        r == (trim_end(line@).len() == 0),
{
    let v = chars_of(line);
    let b = crate::text::trim_end_len(&v);
    proof {
        crate::text::lemma_back_white_bounds(v@, v@.len() as int);
    }
    b == 0
}

/// The method of a request line: what comes before the first space of the
/// line without its trailing whitespace.
pub open spec fn line_method(line: Seq<char>) -> Seq<char> {
    split(trim_end(line), ' ')[0]
}

/// The target of a request line: the second piece, or `/` when there is none.
pub open spec fn line_target(line: Seq<char>) -> Seq<char> {
    let parts = split(trim_end(line), ' ');
    if parts.len() > 1 {
        parts[1]
    } else {
        "/"@
    }
}

/// The name and value of a header line: split at the first `:`, the name
/// trimmed and lower-cased, the value trimmed.
pub open spec fn header_entry(line: Seq<char>) -> Option<(Seq<char>, Seq<char>)> {
    match split_once(trim_end(line), ':') {
        Some(kv) => Some((lower_ascii(trim(kv.0)), trim(kv.1))),
        None => None,
    }
}

/// The headers of `lines`, each set in turn; lines without `:` are skipped.
pub open spec fn headers_of(lines: Seq<Seq<char>>) -> Seq<(Seq<char>, Seq<char>)>
    decreases lines.len(),
{
    if lines.len() == 0 {
        Seq::empty()
    } else {
        let before = headers_of(lines.drop_last());
        match header_entry(lines.last()) {
            Some(kv) => put(before, kv.0, kv.1),
            None => before,
        }
    }
}

/// The announced body length: `Content-Length` read as a `usize`, 0 when it
/// is absent or not a number.
pub open spec fn announced_length(headers: Seq<(Seq<char>, Seq<char>)>) -> int {
    match lookup(headers, "content-length"@) {
        Some(v) => match crate::text::parse_bounded(v, false, 0, usize::MAX as int) {
            Some(n) => n,
            None => 0,
        },
        None => 0,
    }
}

/// Reads a request line and the header lines after it.
pub fn parse_head(line: &str, header_lines: &Vec<String>) -> (r: Head)
    ensures
        r.method@ == line_method(line@),
        r.path@ == (match split_once(line_target(line@), '?') {
            Some(pq) => pq.0,
            None => line_target(line@),
        }),
        r.query@ == (match split_once(line_target(line@), '?') {
            Some(pq) => parse_pairs_spec(split(pq.1, '&')),
            None => Seq::empty(),
        }),
        r.headers@ == headers_of(header_lines@.map_values(|l: String| l@)),
        r.too_large == (announced_length(r.headers@) > MAX_BODY),
        r.length == (if r.too_large {
            0
        } else {
            announced_length(r.headers@)
        }),
{
    let cut = crate::text::trimmed_end(line);
    let parts = split_str(cut.as_str(), ' ');
    proof {
        crate::text::lemma_split_nonempty(cut@, ' ');
    }
    let method = parts[0].clone();
    let target = if parts.len() > 1 {
        parts[1].clone()
    } else {
        String::from_str("/")
    };
    let (path, query) = match split_once_str(target.as_str(), '?') {
        Some((p, q)) => (p, parse_pairs(q.as_str())),
        None => (target, Pairs::new()),
    };
    let mut headers = Pairs::new();
    let n = header_lines.len();
    let ghost ls = header_lines@.map_values(|l: String| l@);
    for i in 0..n
        invariant
            n == header_lines@.len() == ls.len(),
            ls == header_lines@.map_values(|l: String| l@),
            headers@ == headers_of(ls.take(i as int)),
    {
        assert(ls.take(i + 1).drop_last() == ls.take(i as int));
        assert(ls.take(i + 1).last() == header_lines@[i as int]@);
        let text = header_lines[i].as_str();
        let hcut = crate::text::trimmed_end(text);
        match split_once_str(hcut.as_str(), ':') {
            Some((name, value)) => {
                let name = trimmed(name.as_str());
                let name = lowercase_ascii(name.as_str());
                let value = trimmed(value.as_str());
                headers.insert(name, value);
            },
            None => {},
        }
    }
    assert(ls.take(n as int) == ls);
    let length: usize = match headers.get("content-length") {
        Some(text) => match crate::text::parse_int(text, false, 0, usize::MAX as u64) {
            Some(x) => x as usize,
            None => 0,
        },
        None => 0,
    };
    let too_large = length > MAX_BODY;
    Head {
        method,
        path,
        query,
        headers,
        length: if too_large {
            0
        } else {
            length
        },
        too_large,
    }
}

impl Request {
    /// The request for a head and the body read after it, with the body's
    /// JSON as given.
    pub fn from_head(head: Head, body: Vec<u8>, json: Option<Json>) -> (r: Request)
        ensures
            r.method == head.method,
            r.path == head.path,
            r.query == head.query,
            r.headers == head.headers,
            r.body == body,
            r.json == json,
            r.too_large == head.too_large,
    {
        Request {
            method: head.method,
            path: head.path,
            query: head.query,
            headers: head.headers,
            body,
            json,
            too_large: head.too_large,
        }
    }
}

// ---------------------------------------------------------------------------
// Responses
// ---------------------------------------------------------------------------

/// The reason phrase of a status code; `OK` for one the service does not use.
pub open spec fn reason_spec(status: u16) -> Seq<char> {
    if status == 200 {
        "OK"@
    } else if status == 201 {
        "Created"@
    } else if status == 400 {
        "Bad Request"@
    } else if status == 401 {
        "Unauthorized"@
    } else if status == 403 {
        "Forbidden"@
    } else if status == 404 {
        "Not Found"@
    } else if status == 405 {
        "Method Not Allowed"@
    } else if status == 413 {
        "Payload Too Large"@
    } else if status == 500 {
        "Internal Server Error"@
    } else if status == 503 {
        "Service Unavailable"@
    } else {
        "OK"@
    }
}

/// The reason phrase of `status`.
pub fn reason(status: u16) -> (r: &'static str)
    ensures
        r@ == reason_spec(status),
{
    match status {
        200 => "OK",
        201 => "Created",
        400 => "Bad Request",
        401 => "Unauthorized",
        403 => "Forbidden",
        404 => "Not Found",
        405 => "Method Not Allowed",
        413 => "Payload Too Large",
        500 => "Internal Server Error",
        503 => "Service Unavailable",
        _ => "OK",
    }
}

/// Whether one of the extra headers is `Cache-Control`, in any case.
pub open spec fn has_cache_control(extra: Seq<(String, String)>) -> bool {
    exists|i: int| 0 <= i < extra.len() && lower_ascii(#[trigger] extra[i].0@) == "cache-control"@
}

/// The extra header lines, `name: value` each.
pub open spec fn extra_lines(extra: Seq<(String, String)>) -> Seq<char>
    decreases extra.len(),
{
    if extra.len() == 0 {
        Seq::empty()
    } else {
        extra_lines(extra.drop_last()) + extra.last().0@ + ": "@ + extra.last().1@ + "\r\n"@
    }
}

/// The head of a response: status line, content type and length,
/// `Cache-Control: no-store` unless the extra headers set their own,
/// `Connection: close`, the extra headers, and the blank line.
pub open spec fn response_head_spec(
    status: u16,
    content_type: Seq<char>,
    extra: Seq<(String, String)>,
    length: nat,
) -> Seq<char> {
    "HTTP/1.1 "@ + crate::text::decimal(status as nat) + " "@ + reason_spec(status) + "\r\n"@
        + "Content-Type: "@ + content_type + "\r\n"@ + "Content-Length: "@
        + crate::text::decimal(length) + "\r\n"@ + (if has_cache_control(extra) {
        Seq::empty()
    } else {
        "Cache-Control: no-store\r\n"@
    }) + "Connection: close\r\n"@ + extra_lines(extra) + "\r\n"@
}

/// The head of a response with `length` body bytes.
pub fn response_head(status: u16, content_type: &str, extra: &Vec<(String, String)>, length: usize) -> (r:
    String)
    ensures
        r@ == response_head_spec(status, content_type@, extra@, length as nat),
{
    let mut out = String::from_str("HTTP/1.1 ");
    push_decimal(&mut out, status as u64);
    push_str(&mut out, " ");
    push_str(&mut out, reason(status));
    push_str(&mut out, "\r\n");
    push_str(&mut out, "Content-Type: ");
    push_str(&mut out, content_type);
    push_str(&mut out, "\r\n");
    push_str(&mut out, "Content-Length: ");
    push_decimal(&mut out, length as u64);
    push_str(&mut out, "\r\n");
    let ghost start = out@;
    let n = extra.len();
    let mut found = false;
    for i in 0..n
        invariant
            n == extra@.len(),
            found == exists|k: int|
                0 <= k < i && lower_ascii(#[trigger] extra@[k].0@) == "cache-control"@,
    {
        let lower = lowercase_ascii(extra[i].0.as_str());
        if crate::text::same(lower.as_str(), "cache-control") {
            found = true;
        }
    }
    if !found {
        push_str(&mut out, "Cache-Control: no-store\r\n");
    }
    push_str(&mut out, "Connection: close\r\n");
    let ghost mid = out@;
    for i in 0..n
        invariant
            n == extra@.len(),
            out@ == mid + extra_lines(extra@.take(i as int)),
    {
        assert(extra@.take(i + 1).drop_last() == extra@.take(i as int));
        assert(extra@.take(i + 1).last() == extra@[i as int]);
        push_str(&mut out, extra[i].0.as_str());
        push_str(&mut out, ": ");
        push_str(&mut out, extra[i].1.as_str());
        push_str(&mut out, "\r\n");
        assert(mid + extra_lines(extra@.take(i + 1)) =~= mid + extra_lines(extra@.take(i as int))
            + extra@[i as int].0@ + ": "@ + extra@[i as int].1@ + "\r\n"@);
    }
    assert(extra@.take(n as int) == extra@);
    push_str(&mut out, "\r\n");
    proof {
        assert(out@ =~= response_head_spec(status, content_type@, extra@, length as nat));
    }
    out
}

} // verus!
