use zero2prod::domain::{SubscriberEmail, SubscriberName};

#[test]
fn a_256_grapheme_log_name_valid() {
    let name = "a̐".repeat(256);
    assert!(SubscriberName::parse(name).is_ok());
}

#[test]
fn a_name_longer_than_256_grapheme_is_rejected() {
    let name = "a".repeat(257);
    assert!(SubscriberName::parse(name).is_err());
}

#[test]
fn whitespace_only_names_are_rejected() {
    assert!(SubscriberName::parse(" \t ".to_string()).is_err());
}

#[test]
fn empty_string_is_rejected() {
    assert!(SubscriberName::parse(String::new()).is_err());
}

#[test]
fn names_containing_an_invalid_character_are_rejected() {
    for c in ['/', '(', ')', '"', '<', '>', '\\', '{', '}'] {
        let name = format!("ursula{}", c);
        assert!(SubscriberName::parse(name).is_err());
    }
}

#[test]
fn a_valid_name_is_parsed_successfully() {
    let name = SubscriberName::parse("Ursula Le Guin".to_string()).unwrap();
    assert_eq!(name.inner_ref(), "Ursula Le Guin");
    assert_eq!(name.inner(), "Ursula Le Guin".to_string());
}

#[test]
fn rejection_message_names_the_input() {
    let err = SubscriberName::parse("<script>".to_string()).unwrap_err();
    assert_eq!(err, "<script> is not a valid subscriber name.");
}

#[test]
fn inner_mut_edits_the_name_in_place() {
    let mut name = SubscriberName::parse("ursula".to_string()).unwrap();
    name.inner_mut().make_ascii_uppercase();
    assert_eq!(name.inner_ref(), "URSULA");
}

#[test]
fn a_valid_email_is_accepted() {
    let e = SubscriberEmail::parse("ursula_le_guin@gmail.com".to_string()).unwrap();
    assert_eq!(e.inner_ref(), "ursula_le_guin@gmail.com");
}

#[test]
fn malformed_emails_are_rejected() {
    for bad in ["", "definitely-not-an-email", "@domain.com", "ursula@", "a@b@c", "ur sula@x.com", "ursula@x.com\u{3000}"] {
        assert!(SubscriberEmail::parse(bad.to_string()).is_err(), "{:?}", bad);
    }
    assert_eq!(
        SubscriberEmail::parse("nope".to_string()).unwrap_err(),
        "nope is not a valid subscriber email."
    );
}

#[test]
fn unicode_white_space_counts_as_blank() {
    assert!(SubscriberName::parse("\u{2003}\u{00a0}\u{3000}".to_string()).is_err());
    assert!(SubscriberName::parse("le guin".to_string()).is_ok());
}
