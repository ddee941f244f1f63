//! The web pages: which page a request asks for, the sign-in by e-mail link,
//! the session cookie, and the asset links that carry the deployed version.
use crate::json::{json_bool, json_get, json_text, Json};
use crate::text::{push_str, same, split, split_str, texts_view, trim, trimmed};
use vstd::prelude::*;

verus! {

/// How long a sign-in link lasts, in seconds.
pub const LOGIN_TTL: i64 = 900;

/// How long a session lasts, in seconds.
pub const SESSION_TTL: i64 = 2592000;

/// `Content-Type` of the pages.
pub const HTML: &'static str = "text/html; charset=utf-8";

/// `Content-Type` of the style sheet.
pub const CSS: &'static str = "text/css; charset=utf-8";

/// `Content-Type` of the scripts.
pub const JS: &'static str = "text/javascript; charset=utf-8";

/// `Content-Type` of the icon.
pub const SVG: &'static str = "image/svg+xml";

/// `Cache-Control` of the assets, whose links change with each version.
pub const IMMUTABLE: &'static str = "public, max-age=31536000, immutable";

// ---------------------------------------------------------------------------
// Replacing text
// ---------------------------------------------------------------------------

/// `str::replace`: each occurrence of `p` in `s`, from the left and without
/// overlaps, replaced with `w`. An empty `p` occurs before every character
/// and at the end.
pub open spec fn replace_all(s: Seq<char>, p: Seq<char>, w: Seq<char>) -> Seq<char>
    decreases s.len(),
{
    if p.len() == 0 {
        if s.len() == 0 {
            w
        } else {
            w + seq![s[0]] + replace_all(s.drop_first(), p, w)
        }
    } else if s.len() < p.len() {
        s
    } else if s.take(p.len() as int) == p {
        w + replace_all(s.skip(p.len() as int), p, w)
    } else {
        seq![s[0]] + replace_all(s.drop_first(), p, w)
    }
}

/// Whether `p` occurs in `v` at `i`.
fn occurs_at(v: &Vec<char>, i: usize, p: &Vec<char>) -> (r: bool)
    requires
        i <= v@.len(),
    ensures
        r == (i + p@.len() <= v@.len() && v@.subrange(i as int, i + p@.len()) == p@),
{
    if p.len() > v.len() - i {
        return false;
    }
    let n = v.len();
    let mut k: usize = 0;
    while k < p.len()
        invariant
            n == v@.len(),
            i + p@.len() <= v@.len(),
            k <= p@.len(),
            forall|j: int| 0 <= j < k ==> v@[i + j] == p@[j],
        decreases p@.len() - k,
    {
        if v[i + k] != p[k] {
            assert(v@.subrange(i as int, i + p@.len())[k as int] != p@[k as int]);
            return false;
        }
        k = k + 1;
    }
    assert(v@.subrange(i as int, i + p@.len()) =~= p@);
    true
}

/// `text.replace("", with)`: `with` before every character and at the end.
fn interleave(text: &str, with: &str) -> (r: String)
    ensures
        r@ == replace_all(text@, Seq::empty(), with@),
{
    let v = crate::text::chars_of(text);
    let ghost s = text@;
    let n = v.len();
    let mut out = String::new();
    let mut i: usize = 0;
    assert(s.skip(0) =~= s);
    while i < n
        invariant
            i <= n == v@.len() == s.len(),
            v@ == s,
            s == text@,
            out@ + replace_all(s.skip(i as int), Seq::empty(), with@) == replace_all(
                s,
                Seq::empty(),
                with@,
            ),
        decreases n - i,
    {
        let ghost rest = s.skip(i as int);
        assert(rest.drop_first() =~= s.skip(i + 1));
        assert(rest[0] == v@[i as int]);
        let ghost before = out@;
        push_str(&mut out, with);
        out.push(v[i]);
        assert(out@ + replace_all(s.skip(i + 1), Seq::empty(), with@) =~= before + replace_all(
            rest,
            Seq::empty(),
            with@,
        ));
        i = i + 1;
    }
    assert(s.skip(n as int) =~= Seq::<char>::empty());
    let ghost before = out@;
    push_str(&mut out, with);
    assert(out@ =~= before + replace_all(s.skip(n as int), Seq::empty(), with@));
    out
}

/// `text.replace(pattern, with)`.
pub fn replace(text: &str, pattern: &str, with: &str) -> (r: String)
    ensures
        r@ == replace_all(text@, pattern@, with@),
{
    if pattern.is_empty() {
        assert(pattern@ =~= Seq::<char>::empty());
        return interleave(text, with);
    }
    let v = crate::text::chars_of(text);
    let p = crate::text::chars_of(pattern);
    let ghost s = text@;
    let n = v.len();
    let mut out = String::new();
    let mut i: usize = 0;
    assert(s.skip(0) =~= s);
    while i < n
        invariant
            i <= n == v@.len() == s.len(),
            s == text@,
            p@ == pattern@,
            p@.len() > 0,
            v@ == s,
            out@ + replace_all(s.skip(i as int), p@, with@) == replace_all(s, p@, with@),
        decreases n - i,
    {
        let ghost rest = s.skip(i as int);
        if occurs_at(&v, i, &p) {
            assert(rest.take(p@.len() as int) =~= v@.subrange(i as int, i + p@.len()));
            assert(rest.skip(p@.len() as int) =~= s.skip(i + p@.len()));
            let ghost before = out@;
            push_str(&mut out, with);
            assert(out@ + replace_all(s.skip(i + p@.len()), p@, with@) =~= before + replace_all(
                rest,
                p@,
                with@,
            ));
            i = i + p.len();
        } else if p.len() > n - i {
            let tail = crate::text::string_between(&v, i, n);
            assert(tail@ =~= rest);
            push_str(&mut out, tail.as_str());
            assert(s.skip(n as int) =~= Seq::<char>::empty());
            i = n;
        } else {
            assert(rest.take(p@.len() as int) =~= v@.subrange(i as int, i + p@.len()));
            assert(rest.drop_first() =~= s.skip(i + 1));
            assert(rest[0] == v@[i as int]);
            let ghost before = out@;
            out.push(v[i]);
            assert(out@ + replace_all(s.skip(i + 1), p@, with@) =~= before + replace_all(
                rest,
                p@,
                with@,
            ));
            i = i + 1;
        }
    }
    assert(s.skip(n as int) =~= Seq::<char>::empty());
    out
}

/// The asset link `asset` with the version appended as `?v=`.
pub open spec fn with_version(asset: Seq<char>, version: Seq<char>) -> Seq<char> {
    asset + "?v="@ + version
}

/// The links of the pages to their scripts, style sheet and icon, in the
/// order in which `versioned` rewrites them.
pub open spec fn asset_links() -> Seq<Seq<char>> {
    seq!["/app.js"@, "/util.js"@, "/style.css"@, "/icon.svg"@]
}

/// `page` with every occurrence of the link `asset` pointing at `version`.
pub open spec fn version_link(page: Seq<char>, asset: Seq<char>, version: Seq<char>) -> Seq<char> {
    replace_all(page, asset, with_version(asset, version))
}

/// A page whose links to the scripts, the style sheet and the icon carry
/// `version`, so that a new deployment is not served from a stale cache.
pub open spec fn versioned_spec(page: Seq<char>, version: Seq<char>) -> Seq<char> {
    let links = asset_links();
    let a = version_link(page, links[0], version);
    let b = version_link(a, links[1], version);
    let c = version_link(b, links[2], version);
    version_link(c, links[3], version)
}

fn replace_asset(page: &str, asset: &str, version: &str) -> (r: String)
    ensures
        r@ == replace_all(page@, asset@, with_version(asset@, version@)),
{
    let mut with = String::from_str(asset);
    push_str(&mut with, "?v=");
    push_str(&mut with, version);
    replace(page, asset, with.as_str())
}

/// `page` with its asset links pointing at `version`.
pub fn versioned(page: &str, version: &str) -> (r: String)
    ensures
        r@ == versioned_spec(page@, version@),
{
    proof {
        reveal_strlit("/app.js");
        reveal_strlit("/util.js");
        reveal_strlit("/style.css");
        reveal_strlit("/icon.svg");
    }
    let a = replace_asset(page, "/app.js", version);
    let b = replace_asset(a.as_str(), "/util.js", version);
    let c = replace_asset(b.as_str(), "/style.css", version);
    let r = replace_asset(c.as_str(), "/icon.svg", version);
    assert(asset_links()[0] == "/app.js"@ && asset_links()[1] == "/util.js"@);
    assert(asset_links()[2] == "/style.css"@ && asset_links()[3] == "/icon.svg"@);
    r
}

// ---------------------------------------------------------------------------
// Pages
// ---------------------------------------------------------------------------

/// What a request to the web side asks for.
#[derive(Clone, Copy, Debug, PartialEq, Eq, Structural)]
pub enum Page {
    /// `GET /`: the application, for a signed-in user.
    App,
    /// `GET /login`: the sign-in form.
    Login,
    /// `GET /app.js`.
    Script,
    /// `GET /util.js`.
    Helpers,
    /// `GET /style.css`.
    Style,
    /// `GET /icon.svg`.
    Icon,
    /// `POST /api/login`: mail a sign-in link.
    AskLink,
    /// `GET /auth`: follow a sign-in link.
    Enter,
    /// `POST /api/logout`: end the session.
    Leave,
    /// `GET /api/me`: who is signed in.
    Me,
    /// Anything else: 404.
    Missing,
}

/// The page `method` and `path` ask for.
pub open spec fn page_spec(method: Seq<char>, path: Seq<char>) -> Page {
    if method == "GET"@ && path == "/"@ {
        Page::App
    } else if method == "GET"@ && path == "/login"@ {
        Page::Login
    } else if method == "GET"@ && path == "/app.js"@ {
        Page::Script
    } else if method == "GET"@ && path == "/util.js"@ {
        Page::Helpers
    } else if method == "GET"@ && path == "/style.css"@ {
        Page::Style
    } else if method == "GET"@ && path == "/icon.svg"@ {
        Page::Icon
    } else if method == "POST"@ && path == "/api/login"@ {
        Page::AskLink
    } else if method == "GET"@ && path == "/auth"@ {
        Page::Enter
    } else if method == "POST"@ && path == "/api/logout"@ {
        Page::Leave
    } else if method == "GET"@ && path == "/api/me"@ {
        Page::Me
    } else {
        Page::Missing
    }
}

/// The page `method` and `path` ask for.
pub fn page(method: &str, path: &str) -> (r: Page)
    ensures
        r == page_spec(method@, path@),
{
    let get = same(method, "GET");
    let post = same(method, "POST");
    if get && same(path, "/") {
        Page::App
    } else if get && same(path, "/login") {
        Page::Login
    } else if get && same(path, "/app.js") {
        Page::Script
    } else if get && same(path, "/util.js") {
        Page::Helpers
    } else if get && same(path, "/style.css") {
        Page::Style
    } else if get && same(path, "/icon.svg") {
        Page::Icon
    } else if post && same(path, "/api/login") {
        Page::AskLink
    } else if get && same(path, "/auth") {
        Page::Enter
    } else if post && same(path, "/api/logout") {
        Page::Leave
    } else if get && same(path, "/api/me") {
        Page::Me
    } else {
        Page::Missing
    }
}

/// Every link that `versioned` points at the deployed version is served: a
/// `GET` of it is routed to a script, the style sheet or the icon, never to
/// the 404 page, and the answer carries that asset's content type.
pub proof fn lemma_versioned_links_are_served(i: int)
    requires
        0 <= i < asset_links().len(),
    ensures
        page_spec("GET"@, asset_links()[i]) !is Missing,
        asset_type_spec(page_spec("GET"@, asset_links()[i])) is Some,
{
    reveal_strlit("GET");
    reveal_strlit("POST");
    reveal_strlit("/");
    reveal_strlit("/login");
    reveal_strlit("/app.js");
    reveal_strlit("/util.js");
    reveal_strlit("/style.css");
    reveal_strlit("/icon.svg");
    let link = asset_links()[i];
    assert(link.len() >= 7);
    assert("/"@.len() == 1 && "/login"@.len() == 6);
    assert(link != "/"@);
    if i == 0 {
        assert(link == "/app.js"@);
        assert(link != "/login"@ && link.len() == 7);
    } else if i == 1 {
        assert(link == "/util.js"@);
        assert(link != "/login"@);
        assert(link != "/app.js"@) by {
            assert(link.len() == 8);
        }
    } else if i == 2 {
        assert(link == "/style.css"@);
        assert(link.len() == 10);
        assert(link != "/login"@ && link != "/app.js"@ && link != "/util.js"@);
    } else {
        assert(link == "/icon.svg"@);
        assert(link.len() == 9);
        assert(link != "/login"@ && link != "/app.js"@ && link != "/util.js"@);
        assert(link != "/style.css"@);
    }
}

/// The `Content-Type` of an asset page.
pub open spec fn asset_type_spec(page: Page) -> Option<Seq<char>> {
    match page {
        Page::Script | Page::Helpers => Some(JS@),
        Page::Style => Some(CSS@),
        Page::Icon => Some(SVG@),
        _ => None,
    }
}

/// The `Content-Type` of `page` when it is an asset; `None` for the others.
pub fn asset_type(page: &Page) -> (r: Option<&'static str>)
    ensures
        r matches Some(t) ==> asset_type_spec(*page) == Some(t@),
        r is None ==> asset_type_spec(*page) is None,
{
    match page {
        Page::Script | Page::Helpers => Some(JS),
        Page::Style => Some(CSS),
        Page::Icon => Some(SVG),
        _ => None,
    }
}

// ---------------------------------------------------------------------------
// Signing in
// ---------------------------------------------------------------------------

/// What `str::to_lowercase` gives for `s`: each character by its Unicode
/// lowercase mapping.
pub uninterp spec fn unicode_lowercase(s: Seq<char>) -> Seq<char>;

/// `s.to_lowercase()`. The result depends on `s` alone; which characters
/// change, and how, is Unicode's lowercase mapping, which is not spelled out
/// here.
#[verifier::external_body]
fn lowercase(s: &str) -> (r: String)
    ensures
        r@ == unicode_lowercase(s@),
{
    s.to_lowercase()
}

/// How an address is compared: trimmed and lower-cased.
pub open spec fn address_spec(text: Seq<char>) -> Seq<char> {
    unicode_lowercase(trim(text))
}

/// The address a sign-in form gave, trimmed and lower-cased; empty when the
/// form gave none.
pub fn address(field: Option<String>) -> (r: String)
    ensures
        r@ == address_spec(
            match field {
                Some(f) => f@,
                None => Seq::empty(),
            },
        ),
{
    let text = match field {
        Some(f) => f,
        None => String::new(),
    };
    let t = trimmed(text.as_str());
    lowercase(t.as_str())
}

/// The addresses in a comma-separated list, each as `address_spec` gives it,
/// empty ones dropped.
pub open spec fn address_list(text: Seq<char>) -> Seq<Seq<char>> {
    split(text, ',').map_values(|p: Seq<char>| address_spec(p)).filter(
        |a: Seq<char>| a.len() > 0,
    )
}

/// The addresses allowed to sign in, from a comma-separated list.
pub fn addresses(text: &str) -> (r: Vec<String>)
    ensures
        texts_view(r@) == address_list(text@),
{
    let pieces = split_str(text, ',');
    let ghost ps = split(text@, ',').map_values(|p: Seq<char>| address_spec(p));
    let mut out: Vec<String> = Vec::new();
    let n = pieces.len();
    for i in 0..n
        invariant
            n == pieces@.len() == ps.len(),
            ps == split(text@, ',').map_values(|p: Seq<char>| address_spec(p)),
            forall|k: int| 0 <= k < n ==> address_spec(#[trigger] pieces@[k]@) == ps[k],
            texts_view(out@) == ps.take(i as int).filter(|a: Seq<char>| a.len() > 0),
    {
        let t = trimmed(pieces[i].as_str());
        let a = lowercase(t.as_str());
        assert(ps.take(i + 1).drop_last() == ps.take(i as int));
        assert(ps.take(i + 1).last() == ps[i as int]);
        proof {
            reveal_with_fuel(Seq::filter, 1);
        }
        if !a.as_str().is_empty() {
            let ghost before = out@;
            out.push(a);
            assert(texts_view(out@) =~= texts_view(before).push(ps[i as int]));
        }
    }
    assert(ps.take(n as int) == ps);
    out
}

/// `text.trim_end_matches(c)`.
pub open spec fn trim_end_char(text: Seq<char>, c: char) -> Seq<char>
    decreases text.len(),
{
    if text.len() > 0 && text.last() == c {
        trim_end_char(text.drop_last(), c)
    } else {
        text
    }
}

/// The base of the sign-in links: the service's address without trailing
/// slashes.
pub fn link_base(url: &str) -> (r: String)
    ensures
        r@ == trim_end_char(url@, '/'),
{
    let v = crate::text::chars_of(url);
    let mut j = v.len();
    assert(v@.take(v@.len() as int) =~= v@);
    while j > 0 && v[j - 1] == '/'
        invariant
            j <= v@.len(),
            trim_end_char(v@.take(j as int), '/') == trim_end_char(v@, '/'),
        decreases j,
    {
        assert(v@.take(j - 1) =~= v@.take(j as int).drop_last());
        j = j - 1;
    }
    let r = crate::text::string_between(&v, 0, j);
    assert(r@ =~= v@.take(j as int));
    r
}

/// The sign-in link for a login `token`.
pub open spec fn link_spec(base: Seq<char>, token: Seq<char>) -> Seq<char> {
    base + "/auth?token="@ + token
}

/// The sign-in link for a login `token`.
pub fn link(base: &str, token: &str) -> (r: String)
    ensures
        r@ == link_spec(base@, token@),
{
    let mut out = String::from_str(base);
    push_str(&mut out, "/auth?token=");
    push_str(&mut out, token);
    out
}

/// When a sign-in link or a session given at `now` for `ttl` seconds ends:
/// their sum, held at the ends of the `i64` range.
pub open spec fn expiry_spec(now: i64, ttl: i64) -> int {
    if now + ttl > i64::MAX {
        i64::MAX as int
    } else if now + ttl < i64::MIN {
        i64::MIN as int
    } else {
        now + ttl
    }
}

/// When a sign-in link or a session given at `now` for `ttl` seconds ends.
pub fn expiry(now: i64, ttl: i64) -> (r: i64)
    ensures
        r == expiry_spec(now, ttl),
{
    match now.checked_add(ttl) {
        Some(x) => x,
        None => if ttl > 0 {
            i64::MAX
        } else {
            i64::MIN
        },
    }
}

/// The first of the stored `(address, expires_at)` rows that is still live
/// at `now`, from index `i` on.
pub open spec fn first_live(rows: Seq<(String, i64)>, now: i64, i: int) -> Option<int>
    decreases rows.len() - i,
{
    if i < 0 || i >= rows.len() {
        None
    } else if rows[i].1 > now {
        Some(i)
    } else {
        first_live(rows, now, i + 1)
    }
}

/// Whose sign-in link or session the stored rows for one secret are, at
/// `now`: the address of the first row that has not expired, if any.
pub fn live_holder(rows: &Vec<(String, i64)>, now: i64) -> (r: Option<String>)
    ensures
        match first_live(rows@, now, 0) {
            Some(i) => r matches Some(e) && e@ == rows@[i].0@,
            None => r is None,
        },
{
    let n = rows.len();
    let mut i: usize = 0;
    while i < n
        invariant
            i <= n == rows@.len(),
            first_live(rows@, now, 0) == first_live(rows@, now, i as int),
        decreases n - i,
    {
        if rows[i].1 > now {
            return Some(rows[i].0.clone());
        }
        i = i + 1;
    }
    None
}

/// The answer to a request for a sign-in link: `{"sent": true}`, whether or
/// not the address may sign in, and the link itself when `dev` is set.
pub fn sent_reply(dev: bool, url: &str) -> (r: Json)
    ensures
        r matches Json::Object(m) && m@.len() == (if dev {
            2int
        } else {
            1int
        }),
        json_bool(json_get(r, "sent"@)) == Some(true),
        dev ==> json_text(json_get(r, "link"@)) == Some(url@),
{
    let mut m: Vec<(String, Json)> = Vec::new();
    m.push((String::from_str("sent"), Json::Bool(true)));
    if dev {
        m.push((String::from_str("link"), Json::text(url)));
    }
    proof {
        reveal_strlit("sent");
        reveal_strlit("link");
        let s = m@;
        assert(s[0].0@ == "sent"@);
        crate::json::lemma_member_at(s, "sent"@, 0);
        if dev {
            assert(s[1].0@ == "link"@);
            assert(s[0].0@.len() != "link"@.len() || s[0].0@[0] != "link"@[0]);
            crate::json::lemma_member_at(s, "link"@, 1);
        }
    }
    Json::Object(m)
}

/// The answer to `GET /api/me` for a signed-in `email`.
pub fn me_reply(email: &str) -> (r: Json)
    ensures
        r matches Json::Object(m) && m@.len() == 1,
        json_text(json_get(r, "email"@)) == Some(email@),
{
    let mut m: Vec<(String, Json)> = Vec::new();
    m.push((String::from_str("email"), Json::text(email)));
    proof {
        reveal_strlit("email");
        crate::json::lemma_member_at(m@, "email"@, 0);
    }
    Json::Object(m)
}

/// Where a sign-in link that does not work sends the browser.
pub const FAILED_SIGN_IN: &'static str = "/login?error=1";

/// The cookie that holds a session.
pub open spec fn session_cookie_spec(session: Seq<char>) -> Seq<char> {
    crate::server::COOKIE@ + "="@ + session + "; Path=/; HttpOnly; SameSite=Strict; Secure; Max-Age="@
        + crate::text::decimal(SESSION_TTL as nat)
}

/// The `Set-Cookie` value that starts `session`.
pub fn session_cookie(session: &str) -> (r: String)
    ensures
        r@ == session_cookie_spec(session@),
{
    let mut out = String::from_str(crate::server::COOKIE);
    push_str(&mut out, "=");
    push_str(&mut out, session);
    push_str(&mut out, "; Path=/; HttpOnly; SameSite=Strict; Secure; Max-Age=");
    crate::text::push_decimal(&mut out, 2592000);
    out
}

/// The `Set-Cookie` value that ends a session.
pub open spec fn expired_cookie_spec() -> Seq<char> {
    crate::server::COOKIE@ + "=; Path=/; HttpOnly; SameSite=Strict; Secure; Max-Age=0"@
}

/// The `Set-Cookie` value that ends a session.
pub fn expired_cookie() -> (r: String)
    ensures
        r@ == expired_cookie_spec(),
{
    let mut out = String::from_str(crate::server::COOKIE);
    push_str(&mut out, "=; Path=/; HttpOnly; SameSite=Strict; Secure; Max-Age=0");
    out
}

} // verus!
