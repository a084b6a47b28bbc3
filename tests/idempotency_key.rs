use zero2prod::idempotency::{IdempotencyKey, KeyError};

#[test]
fn empty_key_is_rejected() {
    assert_eq!(IdempotencyKey::parse(String::new()).unwrap_err(), KeyError::Empty);
}

#[test]
fn key_of_256_characters_is_accepted() {
    let key = IdempotencyKey::parse("k".repeat(256)).unwrap();
    assert_eq!(key.as_str().len(), 256);
}

#[test]
fn key_of_257_characters_is_rejected() {
    assert_eq!(IdempotencyKey::parse("k".repeat(257)).unwrap_err(), KeyError::TooLong);
}

#[test]
fn key_with_control_character_is_rejected() {
    assert_eq!(
        IdempotencyKey::parse("abc\ndef".to_string()).unwrap_err(),
        KeyError::ControlCharacter
    );
    assert_eq!(
        IdempotencyKey::parse("abc\u{7f}".to_string()).unwrap_err(),
        KeyError::ControlCharacter
    );
}

#[test]
fn key_with_unicode_is_accepted() {
    assert!(IdempotencyKey::parse("clé-✓-42".to_string()).is_ok());
}
