use heimdall::crypto::{hash, Key};
use heimdall::store::{
    context, create_token, find_token, issue_token, key_name, missing_secret, now, open_secrets,
    seal_secret, slug, token_by_id, AuditEntry, Error, NewToken, Token,
};

fn key() -> Key {
    Key::from_hex(&"ab".repeat(32)).unwrap()
}

fn new_token(name: &str, project: &str, env: &str) -> NewToken {
    NewToken {
        name: name.to_string(),
        project: project.to_string(),
        env: env.to_string(),
        keys: None,
        admin: false,
        ttl: None,
    }
}

fn row(token: &Token, plain: &str) -> (Token, String) {
    (token.clone(), hash(plain))
}

#[test]
fn bad_names_are_rejected() {
    let key = key();
    assert!(seal_secret(&key, "../etc", "dev", "A", "1").is_err());
    assert!(seal_secret(&key, "bifrost", "..", "A", "1").is_err());
    assert!(seal_secret(&key, "bifrost", "dev", "A B", "1").is_err());
    assert!(seal_secret(&key, "bifrost", "dev", "1ABC", "1").is_err());
}

#[test]
fn missing_secrets_are_an_empty_map() {
    assert!(open_secrets(&key(), "bifrost", "prod", &Vec::new()).unwrap().is_empty());
}

#[test]
fn environments_and_projects_do_not_mix() {
    let key = key();
    let dev = seal_secret(&key, "bifrost", "dev", "A", "1").unwrap();
    let prod = seal_secret(&key, "bifrost", "prod", "A", "2").unwrap();
    let axe = seal_secret(&key, "axe", "dev", "A", "3").unwrap();
    let rows = |blob: &Vec<u8>| vec![("A".to_string(), blob.clone())];
    assert_eq!(open_secrets(&key, "bifrost", "dev", &rows(&dev)).unwrap().get("A"), Some("1"));
    assert_eq!(open_secrets(&key, "bifrost", "prod", &rows(&prod)).unwrap().get("A"), Some("2"));
    assert_eq!(open_secrets(&key, "axe", "dev", &rows(&axe)).unwrap().get("A"), Some("3"));
    assert!(open_secrets(&key, "bifrost", "prod", &rows(&dev)).is_err());
    assert!(open_secrets(&key, "axe", "dev", &rows(&dev)).is_err());
}

#[test]
fn only_the_matching_token_is_found() {
    let (token, plain) = create_token(new_token("agente", "bifrost", "dev")).unwrap();
    let rows = vec![row(&token, &plain)];
    assert!(find_token(rows.clone(), "hd_nada", now()).unwrap().is_none());
    assert_eq!(find_token(rows, &plain, now()).unwrap().unwrap().id, token.id);
}

#[test]
fn an_expired_token_is_rejected() {
    let mut new = new_token("agente", "bifrost", "dev");
    new.ttl = Some(-1);
    let (token, plain) = create_token(new).unwrap();
    assert!(find_token(vec![row(&token, &plain)], &plain, now()).is_err());
}

#[test]
fn a_token_without_ttl_does_not_expire() {
    let (token, plain) = create_token(new_token("agente", "bifrost", "dev")).unwrap();
    let found = find_token(vec![row(&token, &plain)], &plain, now()).unwrap().unwrap();
    assert!(found.expires_at.is_none());
}

#[test]
fn an_admin_token_is_marked_as_one() {
    let mut new = new_token("jimmy", "", "");
    new.admin = true;
    let (token, plain) = create_token(new).unwrap();
    assert!(token.admin);
    assert!(find_token(vec![row(&token, &plain)], &plain, now()).unwrap().unwrap().admin);
}

#[test]
fn a_value_reads_back_under_its_name() {
    let key = key();
    let a = seal_secret(&key, "bifrost", "dev", "STRIPE_KEY", "sk_test_123").unwrap();
    let b = seal_secret(&key, "bifrost", "dev", "ALPHA", "x").unwrap();
    assert!(!a.windows(11).any(|w| w == b"sk_test_123"));
    let map = open_secrets(
        &key,
        "bifrost",
        "dev",
        &vec![("STRIPE_KEY".to_string(), a), ("ALPHA".to_string(), b)],
    )
    .unwrap();
    assert_eq!(map.get("STRIPE_KEY"), Some("sk_test_123"));
    assert_eq!(map.names(), vec!["ALPHA".to_string(), "STRIPE_KEY".to_string()]);
}

#[test]
fn names_are_checked_with_their_messages() {
    assert_eq!(slug(""), Err(Error::Bad("«» tiene que medir entre 1 y 64".to_string())));
    assert_eq!(
        slug("Bifrost"),
        Err(Error::Bad("«Bifrost» sólo acepta minúsculas, números, guiones y guiones bajos".to_string()))
    );
    assert_eq!(slug(&"a".repeat(64)), Ok(()));
    assert!(slug(&"a".repeat(65)).is_err());
    assert_eq!(key_name(""), Err(Error::Bad("la clave no puede estar vacía".to_string())));
    assert_eq!(
        key_name("1A"),
        Err(Error::Bad("«1A» no es un nombre de variable válido".to_string()))
    );
    assert_eq!(key_name("_a1"), Ok(()));
    assert_eq!(context("bifrost", "dev"), "secrets/bifrost/dev");
    assert_eq!(
        missing_secret("bifrost", "dev", "A"),
        Error::Bad("A no está en bifrost/dev".to_string())
    );
}

#[test]
fn a_value_over_the_limit_is_refused() {
    let big = "x".repeat(65537);
    assert_eq!(
        seal_secret(&key(), "a", "b", "K", &big),
        Err(Error::Bad("el valor pasa los 65536 bytes".to_string()))
    );
    assert!(seal_secret(&key(), "a", "b", "K", &"x".repeat(65536)).is_ok());
}

#[test]
fn tokens_are_checked_before_they_are_issued() {
    let mut admin = new_token("root", "", "");
    admin.admin = true;
    admin.keys = Some(vec!["A".to_string()]);
    assert_eq!(
        issue_token(admin, "id".to_string(), 10),
        Err(Error::Bad("un token de administración ve todo".to_string()))
    );
    assert_eq!(
        issue_token(new_token("  ", "a", "b"), "id".to_string(), 10),
        Err(Error::Bad("el token necesita un nombre".to_string()))
    );
    let mut late = new_token("x", "a", "b");
    late.ttl = Some(5);
    let token = issue_token(late, "id1".to_string(), 10).unwrap();
    assert_eq!(token.expires_at, Some(15));
    assert_eq!(token.created_at, 10);
    assert_eq!(token.last_used, None);
    let mut far = new_token("x", "a", "b");
    far.ttl = Some(i64::MAX);
    assert!(issue_token(far, "id2".to_string(), 10).is_err());
}

#[test]
fn a_fresh_token_has_its_forms() {
    let (token, plain) = create_token(new_token("agente", "bifrost", "dev")).unwrap();
    assert!(plain.starts_with("hd_"));
    assert_eq!(plain.len(), 3 + 48);
    assert_eq!(token.id.len(), 12);
    assert!(token.created_at > 1_600_000_000);
}

#[test]
fn tokens_are_found_by_id() {
    let (a, _) = create_token(new_token("a", "p", "e")).unwrap();
    let (b, _) = create_token(new_token("b", "p", "e")).unwrap();
    assert_eq!(token_by_id(vec![a.clone(), b.clone()], &b.id).unwrap().name, "b");
    assert_eq!(
        token_by_id(vec![a], "nadie"),
        Err(Error::Bad("no hay token nadie".to_string()))
    );
}

#[test]
fn rows_list_as_json() {
    let token = Token {
        id: "1".to_string(),
        name: "n".to_string(),
        project: "p".to_string(),
        env: "e".to_string(),
        keys: Some(vec!["K".to_string()]),
        admin: false,
        created_at: 5,
        expires_at: None,
        last_used: Some(-2),
    };
    let j = token.to_json();
    assert_eq!(j.text_at("name").unwrap(), "n");
    assert_eq!(j.texts_at("keys").unwrap(), vec!["K".to_string()]);
    assert_eq!(j.i64_at("created_at"), Some(5));
    assert!(matches!(j.get("expires_at"), Some(heimdall::json::Json::Null)));
    assert_eq!(j.i64_at("last_used"), Some(-2));
    let entry = AuditEntry {
        at: 7,
        actor: "admin".to_string(),
        action: "set".to_string(),
        project: "p".to_string(),
        env: "e".to_string(),
        name: None,
    };
    let e = entry.to_json();
    assert_eq!(e.u64_at("at"), Some(7));
    assert!(matches!(e.get("key"), Some(heimdall::json::Json::Null)));
}

#[test]
fn a_token_row_keeps_only_the_hash() {
    let (token, plain) = create_token(new_token("agente", "bifrost", "dev")).unwrap();
    let row = heimdall::store::token_row(token.clone(), &plain);
    assert_eq!(row.token, token);
    assert_eq!(row.hash, hash(&plain));
    assert!(!row.hash.contains(&plain));
}

#[test]
fn a_revoked_row_is_not_found() {
    let (a, plain_a) = create_token(new_token("a", "p", "e")).unwrap();
    let (b, plain_b) = create_token(new_token("b", "p", "e")).unwrap();
    let mut rows = vec![row(&a, &plain_a), row(&b, &plain_b)];
    rows.remove(0);
    assert!(find_token(rows.clone(), &plain_a, now()).unwrap().is_none());
    assert_eq!(find_token(rows, &plain_b, now()).unwrap().unwrap().id, b.id);
}

#[test]
fn an_invalid_token_request_says_why() {
    assert_eq!(
        create_token(new_token("x", "Mal", "dev")).err().unwrap(),
        Error::Bad("«Mal» sólo acepta minúsculas, números, guiones y guiones bajos".to_string())
    );
}

#[test]
fn key_names_are_stored_as_json_and_read_back() {
    let keys = Some(vec!["A".to_string(), "B_2".to_string()]);
    let text = heimdall::store::stored_scope(&keys).unwrap();
    assert_eq!(text, r#"["A","B_2"]"#);
    assert_eq!(heimdall::store::scope_of_stored(Some(text)), keys);
    assert_eq!(heimdall::store::stored_scope(&None), None);
    assert_eq!(heimdall::store::scope_of_stored(None), None);
    assert_eq!(heimdall::store::scope_of_stored(Some("no es json".to_string())), None);
    assert_eq!(heimdall::store::epoch_seconds(Some(12)), 12);
    assert_eq!(heimdall::store::epoch_seconds(None), 0);
}
