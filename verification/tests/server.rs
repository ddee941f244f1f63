use heimdall::crypto::Key;
use heimdall::http::{parse_pairs, Pairs, Request};
use heimdall::json::Json;
use heimdall::server::{
    api_outcome, authenticate, identify, is_api, keys_reply, ok_reply, plan, port, route as route_of_request,
    secrets_reply, session_actor, store_failure, tokens_reply, Actor, Auth, Op, Route,
};
use heimdall::store::{Error, create_token, find_token, now, open_secrets, seal_secret, NewToken, Token};

/// The store's rows, kept in memory: what the service keeps on disk.
struct Rows {
    key: Key,
    secrets: Vec<(String, String, String, Vec<u8>)>,
    tokens: Vec<(Token, String)>,
}

impl Rows {
    fn new() -> Rows {
        Rows {
            key: Key::from_hex(&"ab".repeat(32)).unwrap(),
            secrets: Vec::new(),
            tokens: Vec::new(),
        }
    }

    fn set(&mut self, project: &str, env: &str, name: &str, value: &str) {
        let blob = seal_secret(&self.key, project, env, name, value).unwrap();
        self.secrets.retain(|r| !(r.0 == project && r.1 == env && r.2 == name));
        self.secrets
            .push((project.to_string(), env.to_string(), name.to_string(), blob));
    }

    fn environment(&self, project: &str, env: &str) -> Vec<(String, Vec<u8>)> {
        self.secrets
            .iter()
            .filter(|r| r.0 == project && r.1 == env)
            .map(|r| (r.2.clone(), r.3.clone()))
            .collect()
    }

    fn token(&mut self, name: &str, project: &str, env: &str, keys: Option<Vec<String>>) -> (Token, String) {
        let new = NewToken {
            name: name.to_string(),
            project: project.to_string(),
            env: env.to_string(),
            keys,
            admin: false,
            ttl: None,
        };
        let (token, plain) = create_token(new).unwrap();
        self.tokens.push((token.clone(), heimdall::crypto::hash(&plain)));
        (token, plain)
    }

    fn route(&mut self, request: &Request) -> Result<Json, (u16, String)> {
        let found = match authenticate(request, "hd_admin") {
            Auth::Lookup(t) => find_token(self.tokens.clone(), &t, now()),
            _ => Ok(None),
        };
        let Some((actor, op)) = api_outcome(request, "hd_admin", found, None)? else {
            return Ok(ok_reply());
        };
        match op {
            Op::ReadSecrets { project, env } => {
                let map = open_secrets(&self.key, &project, &env, &self.environment(&project, &env))
                    .map_err(store_failure)?;
                secrets_reply(&actor, request, map)
            }
            Op::ReadKeys { project, env } => {
                let map = open_secrets(&self.key, &project, &env, &self.environment(&project, &env))
                    .map_err(store_failure)?;
                Ok(keys_reply(&actor, map))
            }
            Op::WriteSecret { project, env, name, value } => {
                self.set(&project, &env, &name, &value);
                Ok(ok_reply())
            }
            Op::Tokens => {
                let tokens: Vec<Token> = self.tokens.iter().map(|t| t.0.clone()).collect();
                Ok(tokens_reply(&tokens))
            }
            other => panic!("{other:?}"),
        }
    }
}

fn get(path: &str, token: &str) -> Request {
    let (path, query) = path.split_once('?').unwrap_or((path, ""));
    Request {
        method: "GET".into(),
        path: path.to_string(),
        query: parse_pairs(query),
        headers: Pairs::from_list(vec![("authorization".to_string(), format!("Bearer {token}"))]),
        body: Vec::new(),
        json: None,
        too_large: false,
    }
}

fn put(body: Vec<(&str, &str)>, token: &str) -> Request {
    Request {
        method: "PUT".into(),
        path: "/v1/secrets".into(),
        query: Pairs::new(),
        headers: Pairs::from_list(vec![("authorization".to_string(), format!("Bearer {token}"))]),
        body: Vec::new(),
        json: Some(Json::Object(
            body.into_iter()
                .map(|(k, v)| (k.to_string(), Json::Text(v.to_string())))
                .collect(),
        )),
        too_large: false,
    }
}

#[test]
fn a_request_without_a_token_is_rejected() {
    let mut rows = Rows::new();
    let request = Request {
        method: "GET".into(),
        path: "/v1/secrets".into(),
        query: Pairs::new(),
        headers: Pairs::new(),
        body: Vec::new(),
        json: None,
        too_large: false,
    };
    assert_eq!(rows.route(&request).unwrap_err().0, 401);
}

#[test]
fn the_admin_writes_and_a_token_reads() {
    let mut rows = Rows::new();
    let write = rows
        .route(&put(
            vec![("project", "bifrost"), ("env", "dev"), ("key", "A"), ("value", "1")],
            "hd_admin",
        ))
        .unwrap();
    assert_eq!(write.bool_at("ok"), Some(true));
    let (token, plain) = rows.token("agente", "bifrost", "dev", None);
    assert_eq!(token.project, "bifrost");
    let read = rows
        .route(&get("/v1/secrets?project=bifrost&env=dev", &plain))
        .unwrap();
    assert_eq!(read.text_at("A").unwrap(), "1");
}

#[test]
fn a_token_does_not_reach_another_environment() {
    let mut rows = Rows::new();
    rows.set("bifrost", "prod", "A", "1");
    let (_, plain) = rows.token("agente", "bifrost", "dev", None);
    let error = rows
        .route(&get("/v1/secrets?project=bifrost&env=prod", &plain))
        .unwrap_err();
    assert_eq!(error.0, 403);
}

#[test]
fn a_token_with_keys_only_sees_those() {
    let mut rows = Rows::new();
    rows.set("bifrost", "dev", "A", "1");
    rows.set("bifrost", "dev", "B", "2");
    let (_, plain) = rows.token("agente", "bifrost", "dev", Some(vec!["A".to_string()]));
    let read = rows
        .route(&get("/v1/secrets?project=bifrost&env=dev", &plain))
        .unwrap();
    assert_eq!(read.text_at("A").unwrap(), "1");
    assert!(read.get("B").is_none());
    let keys = rows
        .route(&get("/v1/keys?project=bifrost&env=dev", &plain))
        .unwrap();
    assert!(matches!(keys, Json::Array(ref items) if items.len() == 1));
    let refused = rows
        .route(&get("/v1/secrets?project=bifrost&env=dev&key=B", &plain))
        .unwrap_err();
    assert_eq!(refused, (403, "este token no ve B".to_string()));
}

#[test]
fn a_token_cannot_write_or_administrate() {
    let mut rows = Rows::new();
    let (_, plain) = rows.token("agente", "bifrost", "dev", None);
    let write = rows
        .route(&put(
            vec![("project", "bifrost"), ("env", "dev"), ("key", "A"), ("value", "1")],
            &plain,
        ))
        .unwrap_err();
    assert_eq!(write.0, 403);
    let tokens = rows.route(&get("/v1/tokens", &plain)).unwrap_err();
    assert_eq!(tokens.0, 403);
}

#[test]
fn an_unknown_token_and_a_missing_scope_are_refused() {
    let mut rows = Rows::new();
    assert_eq!(
        rows.route(&get("/v1/secrets?project=a&env=b", "hd_nada")).unwrap_err(),
        (401, "ese token no sirve".to_string())
    );
    assert_eq!(
        rows.route(&get("/v1/secrets?project=a", "hd_admin")).unwrap_err(),
        (400, "faltan project y env".to_string())
    );
    assert_eq!(rows.route(&get("/v1/nada", "hd_admin")).unwrap_err(), (404, "no está".to_string()));
    assert_eq!(rows.route(&get("/v1/health", "")).unwrap().bool_at("ok"), Some(true));
}

#[test]
fn the_admin_lists_tokens_without_their_secrets() {
    let mut rows = Rows::new();
    let (token, plain) = rows.token("agente", "bifrost", "dev", None);
    let list = rows.route(&get("/v1/tokens", "hd_admin")).unwrap();
    match list {
        Json::Array(items) => {
            assert_eq!(items.len(), 1);
            assert_eq!(items[0].text_at("id").unwrap(), token.id);
            assert!(items[0].get("token").is_none());
            assert!(!format!("{:?}", items[0]).contains(&plain));
        }
        other => panic!("{other:?}"),
    }
}

#[test]
fn audit_plans_take_the_limit_from_the_query() {
    assert!(matches!(plan(&Actor::Admin, &get("/v1/audit?limit=5", "x")), Ok(Op::Audit { limit: 5 })));
    assert!(matches!(plan(&Actor::Admin, &get("/v1/audit", "x")), Ok(Op::Audit { limit: 100 })));
    assert!(matches!(plan(&Actor::Admin, &get("/v1/audit?limit=no", "x")), Ok(Op::Audit { limit: 100 })));
}

#[test]
fn a_session_acts_as_its_address() {
    let actor = session_actor(Some("ana@x.com".to_string())).unwrap();
    assert_eq!(actor.label(), "ana@x.com");
    assert!(plan(&actor, &get("/v1/environments", "")).is_ok());
    let mut request = get("/v1/environments", "");
    request.headers = Pairs::from_list(vec![("cookie".to_string(), "heimdall_session=s9".to_string())]);
    assert!(matches!(authenticate(&request, "hd_admin"), Auth::Session(ref c) if c == "s9"));
}

#[test]
fn the_api_lives_under_v1() {
    assert!(is_api("/v1/secrets"));
    assert!(!is_api("/v1"));
    assert!(!is_api("/login"));
    assert!(matches!(route_of_request("DELETE", "/v1/tokens"), Route::RevokeToken));
    assert_eq!(port(Some("9090")), 9090);
    assert_eq!(port(Some("99999")), 8080);
    assert_eq!(port(None), 8080);
}

#[test]
fn every_store_failure_is_a_bad_request() {
    assert_eq!(store_failure(Error::Internal("disco".to_string())), (400, "disco".to_string()));
    assert_eq!(store_failure(Error::Bad("nombre".to_string())), (400, "nombre".to_string()));
    assert_eq!(
        identify(Err(Error::Internal("disco".to_string()))).unwrap_err(),
        (400, "disco".to_string())
    );
}

#[test]
fn an_expired_token_is_refused_with_401() {
    let new = NewToken {
        name: "agente".to_string(),
        project: "bifrost".to_string(),
        env: "dev".to_string(),
        keys: None,
        admin: false,
        ttl: Some(-1),
    };
    let (token, plain) = create_token(new).unwrap();
    let rows = vec![(token, heimdall::crypto::hash(&plain))];
    let request = get("/v1/secrets?project=bifrost&env=dev", &plain);
    let found = find_token(rows, &plain, now());
    let refused = api_outcome(&request, "hd_admin", found, None).unwrap_err();
    assert_eq!(refused.0, 401);
    assert!(refused.1.contains("venció"));
    let mut none = get("/v1/secrets?project=bifrost&env=dev", "");
    none.headers = Pairs::new();
    assert_eq!(
        api_outcome(&none, "hd_admin", Ok(None), None).unwrap_err(),
        (401, "falta el token".to_string())
    );
    assert!(matches!(api_outcome(&get("/v1/health", ""), "hd_admin", Ok(None), None), Ok(None)));
}
