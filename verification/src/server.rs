//! Who may do what through the API. A request is first authenticated, then
//! planned into one store operation (or refused), and the store's answer is
//! turned into the reply. The program around the library runs the store.
use vstd::prelude::*;

use crate::http::{lookup, Request};
use crate::json::{is_text, json_bool, json_get, json_i64, json_text, json_texts, texts, Json};
use crate::secrets::{json_of, keep_named, names_view, Secrets};
use crate::store::{keys_view, lists_audit, lists_token, AuditEntry, Error, NewToken, Token};
use crate::text::{concat, texts_view};

verus! {

/// The name of the session cookie of the web interface.
pub const COOKIE: &'static str = "heimdall_session";

/// How many audit rows the log returns when the request does not say.
pub const AUDIT_LIMIT: usize = 100;

/// The port the service listens on when none is configured.
pub const DEFAULT_PORT: u16 = 8080;

/// The port to listen on: `text` when it is a port number, else the default.
pub fn port(text: Option<&str>) -> (r: u16)
    ensures
        r == (match text {
            Some(t) => match crate::text::parse_bounded(t@, false, 0, 65535) {
                Some(v) => v as u16,
                None => DEFAULT_PORT,
            },
            None => DEFAULT_PORT,
        }),
{
    match text {
        Some(t) => match crate::text::parse_int(t, false, 0, 65535) {
            Some(v) => v as u16,
            None => DEFAULT_PORT,
        },
        None => DEFAULT_PORT,
    }
}

/// Who is asking.
#[derive(Debug)]
pub enum Actor {
    /// The service's own administration token.
    Admin,
    /// A token from the store.
    Token(Box<Token>),
    /// A person signed in to the web interface, by e-mail.
    Session(String),
}

/// The name an actor goes by in the audit log.
pub open spec fn label_spec(a: Actor) -> Seq<char> {
    match a {
        Actor::Admin => "admin"@,
        Actor::Token(t) => t.name@,
        Actor::Session(email) => email@,
    }
}

/// Whether an actor administers: the admin token, a session, or a token
/// issued as an administration token.
pub open spec fn administers(a: Actor) -> bool {
    match a {
        Actor::Admin => true,
        Actor::Session(_) => true,
        Actor::Token(t) => t.admin,
    }
}

/// Whether an actor reaches the environment `project/env`: an administrator
/// reaches every one, a token only its own.
pub open spec fn reaches(a: Actor, project: Seq<char>, env: Seq<char>) -> bool {
    administers(a) || (a matches Actor::Token(t) && t.project@ == project && t.env@ == env)
}

/// The key names an actor is limited to, if it is limited.
pub open spec fn limited_to(a: Actor) -> Option<Seq<Seq<char>>> {
    match a {
        Actor::Token(t) => match t.keys {
            Some(ks) => Some(texts_view(ks@)),
            None => None,
        },
        _ => None,
    }
}

/// The secrets an actor sees of `s`.
pub open spec fn visible_spec(a: Actor, s: Seq<(Seq<char>, Seq<char>)>) -> Seq<
    (Seq<char>, Seq<char>),
> {
    match limited_to(a) {
        Some(names) => keep_named(s, names),
        None => s,
    }
}

/// A token limited to some key names sees only entries with those names,
/// each as stored, and sees every stored entry with one of those names; any
/// other actor sees every entry.
pub proof fn lemma_visible(actor: Actor, s: Seq<(Seq<char>, Seq<char>)>)
    requires
        crate::secrets::ascending(s),
    ensures
        match limited_to(actor) {
            Some(names) => {
                &&& forall|i: int|
                    0 <= i < visible_spec(actor, s).len() ==> names.contains(
                        (#[trigger] visible_spec(actor, s)[i]).0,
                    ) && s.contains(visible_spec(actor, s)[i])
                &&& forall|i: int|
                    0 <= i < s.len() && names.contains(s[i].0) ==> visible_spec(
                        actor,
                        s,
                    ).contains(#[trigger] s[i])
            },
            None => visible_spec(actor, s) == s,
        },
{
    if let Some(names) = limited_to(actor) {
        crate::secrets::lemma_keep_named(s, names);
    }
}

impl Actor {
    /// The actor's name in the audit log.
    pub fn label(&self) -> (r: &str)
        ensures
            r@ == label_spec(*self),
    {
        match self {
            Actor::Admin => "admin",
            Actor::Token(token) => token.name.as_str(),
            Actor::Session(email) => email.as_str(),
        }
    }
}

/// The error for a request that only an administrator may make.
pub open spec fn not_admin_error() -> Seq<char> {
    "este token no administra"@
}

/// The error for an environment the actor does not reach.
pub open spec fn out_of_scope_error() -> Seq<char> {
    "este token no llega a ese entorno"@
}

/// Refuses anyone but an administrator, with 403.
pub fn admin(actor: &Actor) -> (r: Result<(), (u16, String)>)
    ensures
        r is Ok <==> administers(*actor),
        r matches Err(e) ==> e.0 == 403 && e.1@ == not_admin_error(),
{
    match actor {
        Actor::Admin => Ok(()),
        Actor::Session(_) => Ok(()),
        Actor::Token(token) => if token.admin {
            Ok(())
        } else {
            Err((403, String::from_str("este token no administra")))
        },
    }
}

/// Refuses, with 403, an actor that does not reach `project/env`.
pub fn scoped(actor: &Actor, project: &str, env: &str) -> (r: Result<(), (u16, String)>)
    ensures
        r is Ok <==> reaches(*actor, project@, env@),
        r matches Err(e) ==> e.0 == 403 && e.1@ == out_of_scope_error(),
{
    match actor {
        Actor::Admin => Ok(()),
        Actor::Session(_) => Ok(()),
        Actor::Token(token) => {
            if token.admin || (crate::text::same(token.project.as_str(), project)
                && crate::text::same(token.env.as_str(), env)) {
                Ok(())
            } else {
                Err((403, String::from_str("este token no llega a ese entorno")))
            }
        },
    }
}

/// The secrets of `map` that the actor sees: all of them, or, for a token
/// limited to some keys, those.
pub fn visible(actor: &Actor, map: Secrets) -> (r: Secrets)
    ensures
        r@ == visible_spec(*actor, map@),
{
    match actor {
        Actor::Token(token) => match &token.keys {
            Some(keys) => map.only(keys),
            None => map,
        },
        _ => map,
    }
}

/// The query parameter `name`, or nothing.
pub open spec fn param_or_empty(request: Request, name: Seq<char>) -> Seq<char> {
    match lookup(request.query@, name) {
        Some(v) => v,
        None => Seq::empty(),
    }
}

/// The error for a read that does not name its environment.
pub open spec fn missing_scope_error() -> Seq<char> {
    "faltan project y env"@
}

fn param_text(request: &Request, name: &str) -> (r: String)
    ensures
        r@ == param_or_empty(*request, name@),
{
    match request.param(name) {
        Some(v) => String::from_str(v),
        None => String::new(),
    }
}

/// The environment a read names in its query, when the actor reaches it.
pub fn scoped_request(request: &Request, actor: &Actor) -> (r: Result<(String, String), (u16, String)>)
    ensures
        ({
            let p = param_or_empty(*request, "project"@);
            let e = param_or_empty(*request, "env"@);
            &&& r is Ok <==> p.len() > 0 && e.len() > 0 && reaches(*actor, p, e)
            &&& r matches Ok(pe) ==> pe.0@ == p && pe.1@ == e
            &&& r matches Err(x) ==> if p.len() == 0 || e.len() == 0 {
                x.0 == 400 && x.1@ == missing_scope_error()
            } else {
                x.0 == 403 && x.1@ == out_of_scope_error()
            }
        }),
{
    let project = param_text(request, "project");
    let env = param_text(request, "env");
    if project.as_str().is_empty() || env.as_str().is_empty() {
        return Err((400, String::from_str("faltan project y env")));
    }
    scoped(actor, project.as_str(), env.as_str())?;
    Ok((project, env))
}

/// A failure of the store as a reply: 400 with its message, whatever the
/// failure.
pub fn store_failure(e: Error) -> (r: (u16, String))
    ensures
        match e {
            Error::Bad(m) => r.0 == 400 && r.1 == m,
            Error::Internal(m) => r.0 == 400 && r.1 == m,
        },
{
    match e {
        Error::Bad(m) => bad_request(m),
        Error::Internal(m) => bad_request(m),
    }
}

/// A message as a 400 reply.
pub fn bad_request(message: String) -> (r: (u16, String))
    ensures
        r.0 == 400 && r.1 == message,
{
    (400, message)
}

// ---------------------------------------------------------------------------
// Authentication
// ---------------------------------------------------------------------------

/// The first step with a request.
#[derive(Debug)]
pub enum Auth {
    /// The health check, which needs no token.
    Health,
    /// The request carries the admin token.
    Admin,
    /// The request carries this token, to look up in the store.
    Lookup(String),
    /// The request carries this session cookie, to look up in the store.
    Session(String),
    /// The request carries neither.
    Missing,
}

/// The error for a request with no way to authenticate.
pub open spec fn missing_token_error() -> Seq<char> {
    "falta el token"@
}

/// The error for a token the store does not know.
pub open spec fn unknown_token_error() -> Seq<char> {
    "ese token no sirve"@
}

/// The bearer token of a request.
pub open spec fn bearer_spec(request: Request) -> Option<Seq<char>> {
    match lookup(request.headers@, "authorization"@) {
        Some(h) => crate::text::strip_prefix(h, "Bearer "@),
        None => None,
    }
}

/// The cookie `name` of a request.
pub open spec fn cookie_spec(request: Request, name: Seq<char>) -> Option<Seq<char>> {
    match lookup(request.headers@, "cookie"@) {
        Some(h) => crate::http::cookie_in(crate::text::split(h, ';'), name),
        None => None,
    }
}

/// How a request authenticates: the health check needs nothing; a bearer
/// token is the admin token or one to look up; without one, a session cookie.
pub fn authenticate(request: &Request, admin_token: &str) -> (r: Auth)
    ensures
        request.path@ == "/v1/health"@ ==> r is Health,
        request.path@ != "/v1/health"@ ==> match r {
            Auth::Health => false,
            Auth::Admin => bearer_spec(*request) == Some(admin_token@),
            Auth::Lookup(t) => bearer_spec(*request) == Some(t@) && t@ != admin_token@,
            Auth::Session(c) => bearer_spec(*request) is None && cookie_spec(*request, COOKIE@)
                == Some(c@),
            Auth::Missing => bearer_spec(*request) is None && cookie_spec(*request, COOKIE@) is None,
        },
{
    if crate::text::same(request.path.as_str(), "/v1/health") {
        return Auth::Health;
    }
    match request.bearer() {
        Some(presented) => {
            if crate::crypto::equal(presented.as_str(), admin_token) {
                Auth::Admin
            } else {
                Auth::Lookup(presented)
            }
        },
        None => match request.cookie(COOKIE) {
            Some(session) => Auth::Session(session),
            None => Auth::Missing,
        },
    }
}

/// The actor a looked-up token is: unknown tokens and expired ones are 401,
/// a failing store is 500.
pub fn identify(found: Result<Option<Token>, Error>) -> (r: Result<Actor, (u16, String)>)
    ensures
        match found {
            Ok(Some(t)) => r matches Ok(Actor::Token(b)) && *b == t,
            Ok(None) => r matches Err(e) && e.0 == 401 && e.1@ == unknown_token_error(),
            Err(Error::Bad(m)) => r matches Err(e) && e.0 == 401 && e.1 == m,
            Err(Error::Internal(m)) => r matches Err(e) && e.0 == 400 && e.1 == m,
        },
{
    match found {
        Ok(Some(token)) => Ok(Actor::Token(Box::new(token))),
        Ok(None) => Err((401, String::from_str("ese token no sirve"))),
        Err(Error::Bad(m)) => Err((401, m)),
        Err(Error::Internal(m)) => Err(bad_request(m)),
    }
}

/// The actor a looked-up session is: the person, or 401 when the session is
/// unknown or over.
pub fn session_actor(email: Option<String>) -> (r: Result<Actor, (u16, String)>)
    ensures
        match email {
            Some(e) => r matches Ok(Actor::Session(x)) && x == e,
            None => r matches Err(e) && e.0 == 401 && e.1@ == missing_token_error(),
        },
{
    match email {
        Some(e) => Ok(Actor::Session(e)),
        None => Err((401, String::from_str("falta el token"))),
    }
}

// ---------------------------------------------------------------------------
// Routing and planning
// ---------------------------------------------------------------------------

/// The API's routes.
#[derive(Debug)]
pub enum Route {
    ReadSecrets,
    ReadKeys,
    WriteSecret,
    DeleteSecret,
    Environments,
    Tokens,
    CreateToken,
    RevokeToken,
    Audit,
    NotFound,
}

/// Whether a request for `path` goes to the API rather than to the web pages.
pub open spec fn is_api_spec(path: Seq<char>) -> bool {
    path.len() >= 4 && path.take(4) == "/v1/"@
}

/// Whether a request for `path` goes to the API rather than to the web pages.
pub fn is_api(path: &str) -> (r: bool)
    ensures
        r == is_api_spec(path@),
{
    let v = crate::text::chars_of(path);
    let p = crate::text::chars_of("/v1/");
    proof {
        reveal_strlit("/v1/");
    }
    let r = crate::text::starts_with(&v, &p);
    assert(v@.subrange(0, 4) =~= v@.take(4));
    r
}

/// The route of a method and a path.
pub open spec fn route_of(method: Seq<char>, path: Seq<char>) -> Route {
    if method == "GET"@ && path == "/v1/secrets"@ {
        Route::ReadSecrets
    } else if method == "GET"@ && path == "/v1/keys"@ {
        Route::ReadKeys
    } else if method == "PUT"@ && path == "/v1/secrets"@ {
        Route::WriteSecret
    } else if method == "DELETE"@ && path == "/v1/secrets"@ {
        Route::DeleteSecret
    } else if method == "GET"@ && path == "/v1/environments"@ {
        Route::Environments
    } else if method == "GET"@ && path == "/v1/tokens"@ {
        Route::Tokens
    } else if method == "POST"@ && path == "/v1/tokens"@ {
        Route::CreateToken
    } else if method == "DELETE"@ && path == "/v1/tokens"@ {
        Route::RevokeToken
    } else if method == "GET"@ && path == "/v1/audit"@ {
        Route::Audit
    } else {
        Route::NotFound
    }
}

/// The route of `method` and `path`.
pub fn route(method: &str, path: &str) -> (r: Route)
    ensures
        r == route_of(method@, path@),
{
    let get = crate::text::same(method, "GET");
    let put = crate::text::same(method, "PUT");
    let post = crate::text::same(method, "POST");
    let delete = crate::text::same(method, "DELETE");
    let secrets = crate::text::same(path, "/v1/secrets");
    let keys = crate::text::same(path, "/v1/keys");
    let environments = crate::text::same(path, "/v1/environments");
    let tokens = crate::text::same(path, "/v1/tokens");
    let audit = crate::text::same(path, "/v1/audit");
    if get && secrets {
        Route::ReadSecrets
    } else if get && keys {
        Route::ReadKeys
    } else if put && secrets {
        Route::WriteSecret
    } else if delete && secrets {
        Route::DeleteSecret
    } else if get && environments {
        Route::Environments
    } else if get && tokens {
        Route::Tokens
    } else if post && tokens {
        Route::CreateToken
    } else if delete && tokens {
        Route::RevokeToken
    } else if get && audit {
        Route::Audit
    } else {
        Route::NotFound
    }
}

/// What the store is to do for a request.
#[derive(Debug)]
pub enum Op {
    ReadSecrets { project: String, env: String },
    ReadKeys { project: String, env: String },
    WriteSecret { project: String, env: String, name: String, value: String },
    DeleteSecret { project: String, env: String, name: String },
    Environments,
    Tokens,
    CreateToken(NewToken),
    RevokeToken { id: String },
    Audit { limit: usize },
}

/// The text field `name` of the body, or nothing.
pub open spec fn field_or_empty(request: Request, name: Seq<char>) -> Seq<char> {
    match request.json {
        Some(j) => match json_text(json_get(j, name)) {
            Some(s) => s,
            None => Seq::empty(),
        },
        None => Seq::empty(),
    }
}

/// The id of the token to revoke: the body's `id`, else the query's.
pub open spec fn revoke_id(request: Request) -> Seq<char> {
    match request.json {
        Some(j) => match json_text(json_get(j, "id"@)) {
            Some(s) => s,
            None => param_or_empty(request, "id"@),
        },
        None => param_or_empty(request, "id"@),
    }
}

/// How many audit rows to return: the query's `limit`, else 100.
pub open spec fn audit_limit(request: Request) -> int {
    match lookup(request.query@, "limit"@) {
        Some(v) => match crate::text::parse_bounded(v, false, 0, usize::MAX as int) {
            Some(n) => n,
            None => AUDIT_LIMIT as int,
        },
        None => AUDIT_LIMIT as int,
    }
}

/// Whether `op` is what a request asks of the store, for the actor's route.
pub open spec fn planned(op: Op, request: Request) -> bool {
    match route_of(request.method@, request.path@) {
        Route::ReadSecrets => op matches Op::ReadSecrets { project, env } && project@
            == param_or_empty(request, "project"@) && env@ == param_or_empty(request, "env"@),
        Route::ReadKeys => op matches Op::ReadKeys { project, env } && project@ == param_or_empty(
            request,
            "project"@,
        ) && env@ == param_or_empty(request, "env"@),
        Route::WriteSecret => op matches Op::WriteSecret { project, env, name, value } && project@
            == field_or_empty(request, "project"@) && env@ == field_or_empty(request, "env"@)
            && name@ == field_or_empty(request, "key"@) && value@ == field_or_empty(
            request,
            "value"@,
        ),
        Route::DeleteSecret => op matches Op::DeleteSecret { project, env, name } && project@
            == field_or_empty(request, "project"@) && env@ == field_or_empty(request, "env"@)
            && name@ == field_or_empty(request, "key"@),
        Route::Environments => op is Environments,
        Route::Tokens => op is Tokens,
        Route::CreateToken => op matches Op::CreateToken(new) && new.name@ == field_or_empty(
            request,
            "name"@,
        ) && new.project@ == field_or_empty(request, "project"@) && new.env@ == field_or_empty(
            request,
            "env"@,
        ) && new.admin == (match request.json {
            Some(j) => json_bool(json_get(j, "admin"@)) == Some(true),
            None => false,
        }) && new.ttl == (match request.json {
            Some(j) => json_i64(json_get(j, "ttl"@)),
            None => None,
        }) && (match new.keys {
            Some(ks) => request.json matches Some(j) && json_texts(json_get(j, "keys"@)) == Some(
                texts_view(ks@),
            ),
            None => !(request.json matches Some(j) && json_texts(json_get(j, "keys"@)) is Some),
        }),
        Route::RevokeToken => op matches Op::RevokeToken { id } && id@ == revoke_id(request),
        Route::Audit => op matches Op::Audit { limit } && limit == audit_limit(request),
        Route::NotFound => false,
    }
}

/// The environment a store operation touches, for the two reads.
pub open spec fn read_scope(op: Op) -> Option<(Seq<char>, Seq<char>)> {
    match op {
        Op::ReadSecrets { project, env } => Some((project@, env@)),
        Op::ReadKeys { project, env } => Some((project@, env@)),
        _ => None,
    }
}

/// Whether `op` is within what the actor may do without administering: a
/// token that does not administer only reads its own environment.
pub open spec fn confined(a: Actor, op: Op) -> bool {
    match a {
        Actor::Token(t) => t.admin || read_scope(op) == Some((t.project@, t.env@)),
        _ => true,
    }
}

/// The error for a route that does not exist.
pub open spec fn not_found_error() -> Seq<char> {
    "no está"@
}

fn field_text(request: &Request, name: &str) -> (r: String)
    ensures
        r@ == field_or_empty(*request, name@),
{
    match request.field(name) {
        Some(v) => v,
        None => String::new(),
    }
}

/// What planning a request for `actor` gives: 404 for an unknown route; for
/// a read, 400 without a project and an environment and 403 outside the
/// actor's reach; for the rest, 403 unless the actor administers; and
/// otherwise the operation the request asks for.
pub open spec fn plan_result(actor: Actor, request: Request, r: Result<Op, (u16, String)>) -> bool {
    let route = route_of(request.method@, request.path@);
    &&& route is NotFound ==> (r matches Err(e) && e.0 == 404 && e.1@ == not_found_error())
    &&& (route is ReadSecrets || route is ReadKeys) ==> ({
        let p = param_or_empty(request, "project"@);
        let e = param_or_empty(request, "env"@);
        &&& r is Ok <==> p.len() > 0 && e.len() > 0 && reaches(actor, p, e)
        &&& r matches Err(x) ==> if p.len() == 0 || e.len() == 0 {
            x.0 == 400 && x.1@ == missing_scope_error()
        } else {
            x.0 == 403 && x.1@ == out_of_scope_error()
        }
    })
    &&& !(route is NotFound || route is ReadSecrets || route is ReadKeys) ==> (r is Ok
        <==> administers(actor)) && (r matches Err(e) ==> e.0 == 403 && e.1@
        == not_admin_error())
    &&& r matches Ok(op) ==> planned(op, request)
    // A token that does not administer only ever reads its own environment.
    &&& r matches Ok(op) ==> confined(actor, op)
}

/// What the store is to do for an authenticated request, or why not: reads
/// need an environment the actor reaches; everything else is for
/// administrators only. A token that does not administer gets, at most, a
/// read of its own environment.
pub fn plan(actor: &Actor, request: &Request) -> (r: Result<Op, (u16, String)>)
    ensures
        plan_result(*actor, *request, r),
{
    match route(request.method.as_str(), request.path.as_str()) {
        Route::ReadSecrets => {
            let (project, env) = scoped_request(request, actor)?;
            Ok(Op::ReadSecrets { project, env })
        },
        Route::ReadKeys => {
            let (project, env) = scoped_request(request, actor)?;
            Ok(Op::ReadKeys { project, env })
        },
        Route::WriteSecret => {
            admin(actor)?;
            Ok(
                Op::WriteSecret {
                    project: field_text(request, "project"),
                    env: field_text(request, "env"),
                    name: field_text(request, "key"),
                    value: field_text(request, "value"),
                },
            )
        },
        Route::DeleteSecret => {
            admin(actor)?;
            Ok(
                Op::DeleteSecret {
                    project: field_text(request, "project"),
                    env: field_text(request, "env"),
                    name: field_text(request, "key"),
                },
            )
        },
        Route::Environments => {
            admin(actor)?;
            Ok(Op::Environments)
        },
        Route::Tokens => {
            admin(actor)?;
            Ok(Op::Tokens)
        },
        Route::CreateToken => {
            admin(actor)?;
            let new = NewToken {
                name: field_text(request, "name"),
                project: field_text(request, "project"),
                env: field_text(request, "env"),
                keys: request.list("keys"),
                admin: request.flag("admin"),
                ttl: request.number("ttl"),
            };
            Ok(Op::CreateToken(new))
        },
        Route::RevokeToken => {
            admin(actor)?;
            let id = match request.field("id") {
                Some(v) => v,
                None => param_text(request, "id"),
            };
            Ok(Op::RevokeToken { id })
        },
        Route::Audit => {
            admin(actor)?;
            let limit = match request.param("limit") {
                Some(v) => match crate::text::parse_int(v, false, 0, usize::MAX as u64) {
                    Some(n) => n as usize,
                    None => AUDIT_LIMIT,
                },
                None => AUDIT_LIMIT,
            };
            Ok(Op::Audit { limit })
        },
        Route::NotFound => Err((404, String::from_str("no está"))),
    }
}

/// The audit action a read leaves behind, if the operation is a read.
pub fn read_action(op: &Op) -> (r: Option<&'static str>)
    ensures
        match op {
            Op::ReadSecrets { .. } => r matches Some(a) && a@ == "get-secrets"@,
            Op::ReadKeys { .. } => r matches Some(a) && a@ == "get-keys"@,
            _ => r is None,
        },
{
    match op {
        Op::ReadSecrets { .. } => Some("get-secrets"),
        Op::ReadKeys { .. } => Some("get-keys"),
        _ => None,
    }
}

// ---------------------------------------------------------------------------
// Replies
// ---------------------------------------------------------------------------

/// The reply to a read of secrets: what the actor sees of them. A token
/// limited to some keys that asks for `key` outside them gets 403.
pub fn secrets_reply(actor: &Actor, request: &Request, map: Secrets) -> (r: Result<
    Json,
    (u16, String),
>)
    ensures
        match (limited_to(*actor), lookup(request.query@, "key"@)) {
            (Some(names), Some(wanted)) => if !names.contains(wanted) {
                r matches Err(e) && e.0 == 403 && e.1@ == "este token no ve "@ + wanted
            } else {
                r matches Ok(j) && json_of(j, visible_spec(*actor, map@))
            },
            _ => r matches Ok(j) && json_of(j, visible_spec(*actor, map@)),
        },
{
    let filtered = visible(actor, map);
    match actor {
        Actor::Token(token) => match &token.keys {
            Some(keys) => match request.param("key") {
                Some(wanted) => {
                    if !crate::text::contains_text(keys, wanted) {
                        return Err((403, concat("este token no ve ", wanted)));
                    }
                },
                None => {},
            },
            None => {},
        },
        _ => {},
    }
    Ok(filtered.to_json())
}

/// The reply to a read of key names: the names the actor sees, in order.
pub fn keys_reply(actor: &Actor, map: Secrets) -> (r: Json)
    ensures
        r matches Json::Array(items) && texts(items@) == names_view(visible_spec(*actor, map@))
            && items@.len() == visible_spec(*actor, map@).len(),
{
    let filtered = visible(actor, map);
    let names = filtered.names();
    assert(texts_view(names@).len() == names@.len());
    assert(names_view(filtered@).len() == filtered@.len());
    crate::json::text_array(&names)
}

/// `{"ok": true}`.
pub fn ok_reply() -> (r: Json)
    ensures
        r matches Json::Object(m) && m@.len() == 1,
        json_bool(json_get(r, "ok"@)) == Some(true),
{
    let mut m: Vec<(String, Json)> = Vec::new();
    m.push((String::from_str("ok"), Json::Bool(true)));
    Json::Object(m)
}

/// `{"error": message}`.
pub fn error_reply(message: &str) -> (r: Json)
    ensures
        r matches Json::Object(m) && m@.len() == 1,
        json_text(json_get(r, "error"@)) == Some(message@),
{
    let mut m: Vec<(String, Json)> = Vec::new();
    m.push((String::from_str("error"), Json::text(message)));
    Json::Object(m)
}

/// The reply to a new token: its record and, this once, its secret.
pub fn created_reply(token: &Token, plain: &str) -> (r: Json)
    ensures
        r matches Json::Object(m) && m@.len() == 6,
        json_text(json_get(r, "id"@)) == Some(token.id@),
        json_text(json_get(r, "token"@)) == Some(plain@),
        json_text(json_get(r, "name"@)) == Some(token.name@),
        json_text(json_get(r, "project"@)) == Some(token.project@),
        json_text(json_get(r, "env"@)) == Some(token.env@),
        crate::json::is_optional_texts(json_get(r, "keys"@), keys_view(token.keys)),
{
    let mut m: Vec<(String, Json)> = Vec::new();
    m.push((String::from_str("id"), Json::Text(token.id.clone())));
    m.push((String::from_str("token"), Json::text(plain)));
    m.push((String::from_str("name"), Json::Text(token.name.clone())));
    m.push((String::from_str("project"), Json::Text(token.project.clone())));
    m.push((String::from_str("env"), Json::Text(token.env.clone())));
    let keys = match &token.keys {
        Some(k) => crate::json::text_array(k),
        None => Json::Null,
    };
    m.push((String::from_str("keys"), keys));
    proof {
        reveal_strlit("id");
        reveal_strlit("token");
        reveal_strlit("name");
        reveal_strlit("project");
        reveal_strlit("env");
        reveal_strlit("keys");
        let s = m@;
        assert(s[0].0@ == "id"@);
        assert(s[1].0@ == "token"@);
        assert(s[2].0@ == "name"@);
        assert(s[3].0@ == "project"@);
        assert(s[4].0@ == "env"@);
        assert(s[5].0@ == "keys"@);
        assert(s[2].0@[0] != s[5].0@[0]);
        crate::json::lemma_member_at(s, "id"@, 0);
        crate::json::lemma_member_at(s, "token"@, 1);
        crate::json::lemma_member_at(s, "name"@, 2);
        crate::json::lemma_member_at(s, "project"@, 3);
        crate::json::lemma_member_at(s, "env"@, 4);
        crate::json::lemma_member_at(s, "keys"@, 5);
    }
    Json::Object(m)
}

/// The reply to a revoked token: its id and name.
pub fn revoked_reply(token: &Token) -> (r: Json)
    ensures
        r matches Json::Object(m) && m@.len() == 2,
        json_text(json_get(r, "id"@)) == Some(token.id@),
        json_text(json_get(r, "name"@)) == Some(token.name@),
{
    let mut m: Vec<(String, Json)> = Vec::new();
    m.push((String::from_str("id"), Json::Text(token.id.clone())));
    m.push((String::from_str("name"), Json::Text(token.name.clone())));
    proof {
        reveal_strlit("id");
        reveal_strlit("name");
        let s = m@;
        assert(s[0].0@ == "id"@);
        assert(s.drop_first()[0] == s[1]);
        assert(crate::json::member(s, "name"@) == crate::json::member(s.drop_first(), "name"@));
    }
    Json::Object(m)
}

/// The tokens as the API lists them.
pub fn tokens_reply(tokens: &Vec<Token>) -> (r: Json)
    ensures
        r matches Json::Array(items) && items@.len() == tokens@.len() && forall|i: int|
            0 <= i < items@.len() ==> lists_token(#[trigger] items@[i], tokens@[i]),
{
    let mut out: Vec<Json> = Vec::new();
    let n = tokens.len();
    for i in 0..n
        invariant
            n == tokens@.len(),
            out@.len() == i,
            forall|k: int| 0 <= k < i ==> lists_token(#[trigger] out@[k], tokens@[k]),
    {
        out.push(tokens[i].to_json());
    }
    Json::Array(out)
}

/// The audit rows as the API lists them.
pub fn audit_reply(entries: &Vec<AuditEntry>) -> (r: Json)
    ensures
        r matches Json::Array(items) && items@.len() == entries@.len() && forall|i: int|
            0 <= i < items@.len() ==> lists_audit(#[trigger] items@[i], entries@[i]),
{
    let mut out: Vec<Json> = Vec::new();
    let n = entries.len();
    for i in 0..n
        invariant
            n == entries@.len(),
            out@.len() == i,
            forall|k: int| 0 <= k < i ==> lists_audit(#[trigger] out@[k], entries@[k]),
    {
        out.push(entries[i].to_json());
    }
    Json::Array(out)
}

/// A token is revoked by the id its query names when the body names none:
/// `DELETE /v1/tokens?id=X` from an administrator, without an id in the body,
/// plans the revocation of `X`, and of no other token.
pub proof fn lemma_revoke_by_query_id(
    actor: Actor,
    request: Request,
    r: Result<Op, (u16, String)>,
    id: Seq<char>,
)
    requires
        plan_result(actor, request, r),
        request.method@ == "DELETE"@,
        request.path@ == "/v1/tokens"@,
        administers(actor),
        lookup(request.query@, "id"@) == Some(id),
        match request.json {
            Some(j) => json_text(json_get(j, "id"@)) is None,
            None => true,
        },
    ensures
        r matches Ok(Op::RevokeToken { id: x }) && x@ == id,
{
    reveal_strlit("DELETE");
    reveal_strlit("GET");
    reveal_strlit("PUT");
    reveal_strlit("POST");
    reveal_strlit("/v1/tokens");
    reveal_strlit("/v1/secrets");
    reveal_strlit("/v1/keys");
    reveal_strlit("/v1/environments");
    reveal_strlit("/v1/audit");
    assert(request.method@.len() == 6 && request.path@.len() == 10);
    assert(request.method@ != "GET"@ && request.method@ != "PUT"@ && request.method@ != "POST"@);
    assert(request.path@ != "/v1/secrets"@);
    assert(route_of(request.method@, request.path@) is RevokeToken);
}

/// A token asked for with a duration lives that long: when an administrator's
/// `POST /v1/tokens` body holds an integer `ttl`, the planned token carries
/// that `ttl`, so it is never a token without expiry.
pub proof fn lemma_create_keeps_ttl(
    actor: Actor,
    request: Request,
    r: Result<Op, (u16, String)>,
    body: Json,
    ttl: i64,
)
    requires
        plan_result(actor, request, r),
        request.method@ == "POST"@,
        request.path@ == "/v1/tokens"@,
        administers(actor),
        request.json == Some(body),
        json_i64(json_get(body, "ttl"@)) == Some(ttl),
    ensures
        r matches Ok(Op::CreateToken(new)) && new.ttl == Some(ttl),
{
    reveal_strlit("DELETE");
    reveal_strlit("GET");
    reveal_strlit("PUT");
    reveal_strlit("POST");
    reveal_strlit("/v1/tokens");
    reveal_strlit("/v1/secrets");
    reveal_strlit("/v1/keys");
    reveal_strlit("/v1/environments");
    reveal_strlit("/v1/audit");
    assert(request.method@.len() == 4 && request.path@.len() == 10);
    assert(request.method@ != "GET"@ && request.method@ != "PUT"@ && request.method@
        != "DELETE"@);
    assert(request.path@ != "/v1/secrets"@);
    assert(route_of(request.method@, request.path@) is CreateToken);
}

// ---------------------------------------------------------------------------
// From request to operation
// ---------------------------------------------------------------------------

/// Who is asking, given what the store gave for the bearer token (`found`)
/// and for the session cookie (`session`), or the refusal: 401 for no token,
/// an unknown one or one the store refuses (an expired one), 400 when the
/// store fails.
pub open spec fn who_asks(
    request: Request,
    admin_token: Seq<char>,
    found: Result<Option<Token>, Error>,
    session: Option<String>,
) -> Result<Actor, (u16, Seq<char>)> {
    if bearer_spec(request) == Some(admin_token) {
        Ok(Actor::Admin)
    } else if bearer_spec(request) is Some {
        match found {
            Ok(Some(t)) => Ok(Actor::Token(Box::new(t))),
            Ok(None) => Err((401u16, unknown_token_error())),
            Err(Error::Bad(m)) => Err((401u16, m@)),
            Err(Error::Internal(m)) => Err((400u16, m@)),
        }
    } else if cookie_spec(request, COOKIE@) is Some {
        match session {
            Some(e) => Ok(Actor::Session(e)),
            None => Err((401u16, missing_token_error())),
        }
    } else {
        Err((401u16, missing_token_error()))
    }
}

/// What the API makes of a request: nothing to do for the health check;
/// otherwise who asks and the store operation the request plans, or the
/// refusal with its status and message. `found` is what the store gave for
/// the bearer token that `authenticate` asks to look up, and `session` the
/// address of the session cookie it asks for; they are not read otherwise.
pub fn api_outcome(
    request: &Request,
    admin_token: &str,
    found: Result<Option<Token>, Error>,
    session: Option<String>,
) -> (r: Result<Option<(Actor, Op)>, (u16, String)>)
    ensures
        request.path@ == "/v1/health"@ ==> r is Ok && r->Ok_0 is None,
        request.path@ != "/v1/health"@ ==> match who_asks(*request, admin_token@, found, session) {
            Err(e) => r matches Err(x) && x.0 == e.0 && x.1@ == e.1,
            Ok(a) => {
                &&& r matches Ok(Some(p)) ==> p.0 == a && plan_result(a, *request, Ok(p.1))
                &&& r matches Err(x) ==> plan_result(a, *request, Err(x))
                &&& r !is Ok || r->Ok_0 is Some
            },
        },
{
    let actor = match authenticate(request, admin_token) {
        Auth::Health => {
            return Ok(None);
        },
        Auth::Admin => Actor::Admin,
        Auth::Lookup(_) => identify(found)?,
        Auth::Session(_) => session_actor(session)?,
        Auth::Missing => session_actor(None)?,
    };
    let op = plan(&actor, request)?;
    Ok(Some((actor, op)))
}

} // verus!
