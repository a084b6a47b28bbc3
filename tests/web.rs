use argon2::{Argon2, PasswordHasher};
use zero2prod::exit::{report_exit, TaskExit};
use zero2prod::http::see_other;
use zero2prod::login::{login_form, QueryParam};
use zero2prod::newsletter::{
    basic_authentication, credentials_from_decoded, verify_password_hash, CredentialsError,
    PublishError,
};
use zero2prod::subscriptions::{confirmation_email, generate_subcription_token};

#[test]
fn auth_error_response_carries_the_challenge() {
    let r = PublishError::AuthError("bad".to_string()).error_response();
    assert_eq!(r.status, 401);
    assert_eq!(r.headers.len(), 1);
    assert_eq!(r.headers[0].name, "WWW-Authenticate");
    assert_eq!(r.headers[0].value, r#"Basic realm="publish""#);
}

#[test]
fn unexpected_error_response_is_a_bare_500() {
    let r = PublishError::UnexpectedError("db".to_string()).error_response();
    assert_eq!(r.status, 500);
    assert!(r.headers.is_empty());
    assert!(r.body.is_empty());
}

#[test]
fn see_other_sets_location() {
    let r = see_other("/login");
    assert_eq!(r.status, 303);
    assert_eq!(r.headers[0].name, "location");
    assert_eq!(r.headers[0].value, "/login");
}

#[test]
fn basic_credentials_are_decoded() {
    // "ursula:le:guin" in base64
    let c = basic_authentication(Some("Basic dXJzdWxhOmxlOmd1aW4=")).unwrap();
    assert_eq!(c.username, "ursula");
    assert_eq!(c.password, "le:guin");
}

#[test]
fn missing_authorization_is_rejected() {
    assert_eq!(basic_authentication(None).unwrap_err(), CredentialsError::MissingHeader);
}

#[test]
fn other_schemes_are_rejected() {
    assert_eq!(
        basic_authentication(Some("Bearer abc")).unwrap_err(),
        CredentialsError::NotBasicScheme
    );
    assert_eq!(basic_authentication(Some("Bas")).unwrap_err(), CredentialsError::NotBasicScheme);
}

#[test]
fn invalid_base64_is_rejected() {
    assert_eq!(
        basic_authentication(Some("Basic !!!")).unwrap_err(),
        CredentialsError::NotBase64
    );
}

#[test]
fn non_utf8_credentials_are_rejected() {
    // 0xff 0xfe encoded
    assert_eq!(basic_authentication(Some("Basic //4=")).unwrap_err(), CredentialsError::NotUtf8);
}

#[test]
fn credentials_without_password_are_rejected() {
    // "ursula" in base64
    assert_eq!(
        basic_authentication(Some("Basic dXJzdWxh")).unwrap_err(),
        CredentialsError::MissingPassword
    );
    assert_eq!(
        credentials_from_decoded(b"nocolon".to_vec()).unwrap_err(),
        CredentialsError::MissingPassword
    );
}

#[test]
fn empty_password_is_allowed() {
    let c = credentials_from_decoded(b"user:".to_vec()).unwrap();
    assert_eq!(c.username, "user");
    assert_eq!(c.password, "");
}

#[test]
fn password_hash_is_checked() {
    let hash = Argon2::default()
        .hash_password(b"secret", "c2FsdHNhbHRzYWx0c2FsdA")
        .unwrap()
        .to_string();
    assert!(verify_password_hash(&hash, "secret").is_ok());
    assert!(matches!(
        verify_password_hash(&hash, "wrong"),
        Err(PublishError::AuthError(_))
    ));
    assert!(matches!(
        verify_password_hash("not a phc string", "secret"),
        Err(PublishError::UnexpectedError(_))
    ));
}

#[test]
fn login_form_without_error_has_no_paragraph() {
    let page = login_form(None);
    assert!(page.starts_with("<!DOCTYPE html>"));
    assert!(page.contains(r#"<form action="/login" method="post">"#));
    assert!(!page.contains("<p><i>"));
}

#[test]
fn login_form_escapes_the_error() {
    let q = QueryParam { error: "<b>\"x\" & 'y'</b>".to_string(), tag: String::new() };
    let page = login_form(Some(&q));
    assert!(page.contains("<p><i>&lt;b&gt;&quot;x&quot; &amp; &#x27;y&#x27;&lt;/b&gt;</i></p>"));
}

#[test]
fn token_has_25_alphanumeric_characters() {
    let t = generate_subcription_token();
    assert_eq!(t.chars().count(), 25);
    assert!(t.chars().all(|c| c.is_ascii_alphanumeric()));
    assert_ne!(t, generate_subcription_token());
}

#[test]
fn confirmation_email_links_to_the_token() {
    let e = confirmation_email("http://127.0.0.1", "mytoken");
    let link = "http://127.0.0.1/subscriptions/confirm?subscription_token=mytoken";
    assert_eq!(e.subject, "Welcome!");
    assert_eq!(
        e.html_content,
        format!("Welcome to our newsletter!<br /> Click <a href=\"{}\">here</a> to confirm you subscription.", link)
    );
    assert_eq!(
        e.text_content,
        format!("Welcome to our newsletter!\n Visit {} to confirm you subscription", link)
    );
}

#[test]
fn exit_messages_name_the_task() {
    assert_eq!(report_exit("API", &TaskExit::Finished), "API has exited");
    assert_eq!(report_exit("API", &TaskExit::Failed("e".to_string())), "API failed");
    assert_eq!(
        report_exit("Background worker", &TaskExit::Aborted("p".to_string())),
        "Background worker' task failed to complete"
    );
}

#[test]
fn requests_missing_authorization_are_rejected() {
    let err = basic_authentication(None).unwrap_err();
    let response = PublishError::AuthError(format!("{:?}", err)).error_response();
    assert_eq!(response.status, 401);
    assert_eq!(r#"Basic realm="publish""#, response.headers[0].value);
    assert_eq!(response.headers[0].name, "WWW-Authenticate");
}

#[test]
fn invalid_password_is_rejected() {
    let hash = Argon2::default()
        .hash_password(b"everythinghastostartsomewhere", "c2FsdHNhbHRzYWx0c2FsdA")
        .unwrap()
        .to_string();
    // "ursula:0d6a1c8e-not-the-password" in base64
    let credentials =
        basic_authentication(Some("Basic dXJzdWxhOjBkNmExYzhlLW5vdC10aGUtcGFzc3dvcmQ=")).unwrap();
    assert_eq!(credentials.username, "ursula");
    assert_ne!(credentials.password, "everythinghastostartsomewhere");
    let err = verify_password_hash(&hash, &credentials.password).unwrap_err();
    let response = err.error_response();
    assert_eq!(401, response.status);
    assert_eq!(r#"Basic realm="publish""#, response.headers[0].value);
}

#[test]
fn anonymous_users_are_sent_to_login() {
    let redirect = zero2prod::authentication::reject_anonymous_users(None).unwrap_err();
    assert_eq!(redirect.status, 303);
    assert_eq!(redirect.headers[0].value, "/login");
    let user = zero2prod::authentication::reject_anonymous_users(Some(42)).unwrap();
    assert_eq!(user, zero2prod::authentication::UserID(42));
}
