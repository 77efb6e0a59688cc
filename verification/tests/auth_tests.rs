use rust_chess_engine::auth::{
    check_password, check_username, parse_user_record, record_username, to_hex, AuthSystem,
    RegistrationError, User,
};
use rust_chess_engine::settings::{
    is_yes, select_option, strength_for_choice, time_control_for_choice, EngineStrength,
    GameSettings, TimeControl,
};

#[test]
fn password_is_stored_as_the_hex_digest() {
    // SHA-256 of "abc"
    assert_eq!(
        User::hash_password("abc"),
        "ba7816bf8f01cfea414140de5dae2223b00361a396177a9cb410ff61f20015ad"
    );
    // SHA-256 of the empty text
    assert_eq!(
        User::hash_password(""),
        "e3b0c44298fc1c149afbf4c8996fb92427ae41e4649b934ca495991b7852b855"
    );
    let u = User::new("ann".to_string(), "secret1".to_string());
    assert_eq!(u.username, "ann");
    assert_eq!(u.name(), "ann");
    assert_eq!(u.stored_hash().len(), 64);
    assert_ne!(u.stored_hash(), "secret1");
    assert!(u.verify_password("secret1"));
    assert!(!u.verify_password("secret2"));
    assert!(!u.verify_password(""));
}

#[test]
fn hex_form_of_bytes() {
    assert_eq!(to_hex(&vec![]), "");
    assert_eq!(to_hex(&vec![0x00, 0x0f, 0xa0, 0xff, 0x9b]), "000fa0ff9b");
}

#[test]
fn login_needs_the_password() {
    let mut auth = AuthSystem::new();
    assert!(!auth.is_logged_in());
    assert!(auth.get_current_user().is_none());
    let user = User::new("ann".to_string(), "secret1".to_string());
    assert!(!auth.login(user, "wrong"));
    assert!(!auth.is_logged_in());
    let user = User::new("ann".to_string(), "secret1".to_string());
    assert!(auth.login(user, "secret1"));
    assert!(auth.is_logged_in());
    assert_eq!(auth.get_current_user().unwrap().username, "ann");
    auth.logout();
    assert!(!auth.is_logged_in());
}

#[test]
fn registration_checks() {
    assert_eq!(check_username(""), Err(RegistrationError::EmptyUsername));
    assert_eq!(check_username("a:b"), Err(RegistrationError::ColonInUsername));
    assert_eq!(check_username("ann"), Ok(()));
    let s = |t: &str| t.to_string();
    assert_eq!(check_password(&s(""), &s("")), Err(RegistrationError::EmptyPassword));
    assert_eq!(check_password(&s("12345"), &s("12345")), Err(RegistrationError::ShortPassword));
    assert_eq!(check_password(&s("123456"), &s("123457")), Err(RegistrationError::Mismatch));
    assert_eq!(check_password(&s("123456"), &s("123456")), Ok(()));
    // the length is counted in bytes: three two-byte letters are enough
    assert_eq!(check_password(&s("äöü"), &s("äöü")), Ok(()));
}

#[test]
fn stored_records() {
    assert_eq!(record_username("ann:abcdef"), "ann");
    assert_eq!(record_username("ann"), "ann");
    assert_eq!(record_username(":x"), "");
    assert_eq!(record_username("a:b:c"), "a");
    let u = parse_user_record("ann:abcdef").unwrap();
    assert_eq!(u.username, "ann");
    assert_eq!(u.stored_hash(), "abcdef");
    assert!(parse_user_record("ann").is_none());
    assert!(parse_user_record("a:b:c").is_none());
    let empty = parse_user_record(":").unwrap();
    assert_eq!(empty.username, "");
    assert_eq!(empty.stored_hash(), "");
    // a record made from a user is read back
    let made = User::new("bob".to_string(), "hunter22".to_string());
    let line = format!("{}:{}", made.name(), made.stored_hash());
    let back = parse_user_record(&line).unwrap();
    assert!(back.verify_password("hunter22"));
}

#[test]
fn search_depth_by_strength() {
    let mut s = GameSettings::default();
    assert!(matches!(s.time_control, TimeControl::Unlimited));
    assert_eq!(s.engine_strength, EngineStrength::Intermediate);
    assert!(s.show_hints);
    assert!(!s.auto_save);
    assert!(!s.sound_enabled);
    assert_eq!(s.get_search_depth(), 5);
    for (strength, depth) in [
        (EngineStrength::Beginner, 3),
        (EngineStrength::Intermediate, 5),
        (EngineStrength::Advanced, 7),
        (EngineStrength::Expert, 9),
        (EngineStrength::Master, 12),
    ] {
        s.engine_strength = strength;
        assert_eq!(s.get_search_depth(), depth);
    }
}

#[test]
fn typed_choices() {
    assert!(matches!(time_control_for_choice("1\n"), TimeControl::Unlimited));
    assert!(matches!(time_control_for_choice(" 2 \n"), TimeControl::FixedTime(5000)));
    assert!(matches!(
        time_control_for_choice("3"),
        TimeControl::TimeAndIncrement { time: 300000, increment: 3000 }
    ));
    assert!(matches!(
        time_control_for_choice("4"),
        TimeControl::MovesInTime { moves: 40, time: 5400000 }
    ));
    assert!(matches!(time_control_for_choice("22"), TimeControl::Unlimited));
    assert_eq!(strength_for_choice("1"), EngineStrength::Beginner);
    assert_eq!(strength_for_choice("2"), EngineStrength::Intermediate);
    assert_eq!(strength_for_choice("3\n"), EngineStrength::Advanced);
    assert_eq!(strength_for_choice("4"), EngineStrength::Expert);
    assert_eq!(strength_for_choice("5"), EngineStrength::Master);
    assert_eq!(strength_for_choice("x"), EngineStrength::Intermediate);
    assert_eq!(select_option("1\n", 3), Some(0));
    assert_eq!(select_option(" 3 ", 3), Some(2));
    assert_eq!(select_option("4", 3), None);
    assert_eq!(select_option("0", 3), None);
    assert_eq!(select_option("", 3), None);
    assert_eq!(select_option("two", 3), None);
    assert!(is_yes("y\n"));
    assert!(is_yes(" YES "));
    assert!(is_yes("Yes"));
    assert!(!is_yes("yeah"));
    assert!(!is_yes("n"));
    assert!(!is_yes(""));
}
