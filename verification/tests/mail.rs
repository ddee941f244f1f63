use heimdall::mail::{body, Mail};

#[test]
fn the_body_carries_the_link() {
    assert!(body("https://x/auth?token=abc").contains(r#"href="https://x/auth?token=abc""#));
}

#[test]
fn the_body_is_the_whole_page() {
    assert_eq!(
        body("L"),
        "<p>Entrá a Heimdall con este link:</p><p><a href=\"L\">L</a></p><p>Vence en quince minutos y sirve una sola vez.</p>"
    );
}

#[test]
fn the_message_goes_from_the_sender_to_one_address() {
    let mail = Mail::new("re_123".to_string(), None);
    assert_eq!(mail.authorization(), "Bearer re_123");
    let message = mail.message("ana@x.com", "https://h/auth?token=t");
    assert_eq!(message.text_at("from").unwrap(), "Heimdall <heimdall@3lines.studio>");
    assert_eq!(message.texts_at("to").unwrap(), vec!["ana@x.com".to_string()]);
    assert_eq!(message.text_at("subject").unwrap(), "Tu link para entrar a Heimdall");
    assert_eq!(message.text_at("html").unwrap(), body("https://h/auth?token=t"));
    let own = Mail::new("k".to_string(), Some("Yo <yo@x.com>".to_string()));
    assert_eq!(own.message("b@x.com", "l").text_at("from").unwrap(), "Yo <yo@x.com>");
}

#[test]
fn a_failed_send_says_what_happened() {
    assert_eq!(Mail::failure(Some(422), "bad"), "resend contestó 422: bad");
    assert_eq!(Mail::failure(None, "timeout"), "no pude mandar el mail: timeout");
}
