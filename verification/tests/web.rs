use heimdall::web::{
    address, addresses, asset_type, expired_cookie, link, link_base, me_reply, page, replace,
    sent_reply, session_cookie, versioned, Page,
};

#[test]
fn versioned_assets_point_at_the_commit() {
    let page = versioned(
        r#"<script src="/app.js"></script><script src="/util.js"></script><link href="/style.css">"#,
        "abc123",
    );
    assert!(page.contains("/app.js?v=abc123"));
    assert!(page.contains("/util.js?v=abc123"));
    assert!(page.contains("/style.css?v=abc123"));
}

#[test]
fn replace_works_left_to_right_without_overlaps() {
    assert_eq!(replace("aaa", "aa", "b"), "ba");
    assert_eq!(replace("x/app.js y/app.js", "/app.js", "!"), "x! y!");
    assert_eq!(replace("", "a", "b"), "");
    assert_eq!(replace("ab", "", "x"), "xaxbx");
    assert_eq!(replace("", "", "x"), "x");
    assert_eq!(replace("ñ", "", "-"), "-ñ-");
    assert_eq!(versioned("<img src=\"/icon.svg\">", ""), "<img src=\"/icon.svg?v=\">");
}

#[test]
fn the_pages_by_method_and_path() {
    assert_eq!(page("GET", "/"), Page::App);
    assert_eq!(page("GET", "/login"), Page::Login);
    assert_eq!(page("POST", "/api/login"), Page::AskLink);
    assert_eq!(page("GET", "/auth"), Page::Enter);
    assert_eq!(page("POST", "/api/logout"), Page::Leave);
    assert_eq!(page("GET", "/api/me"), Page::Me);
    assert_eq!(page("POST", "/"), Page::Missing);
    assert_eq!(asset_type(&page("GET", "/app.js")), Some("text/javascript; charset=utf-8"));
    assert_eq!(asset_type(&page("GET", "/style.css")), Some("text/css; charset=utf-8"));
    assert_eq!(asset_type(&page("GET", "/icon.svg")), Some("image/svg+xml"));
    assert_eq!(asset_type(&Page::App), None);
}

#[test]
fn addresses_are_trimmed_and_lower_cased() {
    assert_eq!(address(Some("  Ana@X.COM \n".to_string())), "ana@x.com");
    assert_eq!(address(Some("ÉLODIE@x.com".to_string())), "élodie@x.com");
    assert_eq!(address(None), "");
    assert_eq!(
        addresses(" Ana@x.com, ,BO@y.com,"),
        vec!["ana@x.com".to_string(), "bo@y.com".to_string()]
    );
}

#[test]
fn the_link_hangs_from_the_base_without_its_slashes() {
    assert_eq!(link_base("https://h.example.com//"), "https://h.example.com");
    assert_eq!(link_base("///"), "");
    assert_eq!(link("https://h", "t0k"), "https://h/auth?token=t0k");
}

#[test]
fn asking_for_a_link_always_says_sent() {
    let quiet = sent_reply(false, "https://h/auth?token=t");
    assert_eq!(quiet.bool_at("sent"), Some(true));
    assert!(quiet.get("link").is_none());
    let dev = sent_reply(true, "https://h/auth?token=t");
    assert_eq!(dev.text_at("link").unwrap(), "https://h/auth?token=t");
    assert_eq!(me_reply("ana@x.com").text_at("email").unwrap(), "ana@x.com");
}

#[test]
fn the_session_cookie_lasts_thirty_days() {
    assert_eq!(
        session_cookie("s1"),
        "heimdall_session=s1; Path=/; HttpOnly; SameSite=Strict; Secure; Max-Age=2592000"
    );
    assert_eq!(
        expired_cookie(),
        "heimdall_session=; Path=/; HttpOnly; SameSite=Strict; Secure; Max-Age=0"
    );
}

#[test]
fn only_a_live_row_signs_in() {
    let rows = vec![("viejo@x.com".to_string(), 5), ("ana@x.com".to_string(), 20)];
    assert_eq!(heimdall::web::live_holder(&rows, 10), Some("ana@x.com".to_string()));
    assert_eq!(heimdall::web::live_holder(&rows, 20), None);
    assert_eq!(heimdall::web::expiry(10, 900), 910);
    assert_eq!(heimdall::web::expiry(i64::MAX, 1), i64::MAX);
}
