use kmh::cipher::Encryption;
use kmh::record::{JsonDatabseKMH, VaultError};
use kmh::text::parse_index;
use kmh::session::{
    encryption_from_lowercase, encryption_str_to_enum, format_from_lowercase, format_str_to_enum,
    generate_random_utf8, init_db, Command, FormatExport, Outcome, Session,
};

fn s(x: &str) -> String {
    x.to_string()
}

fn add(t: &str) -> Command {
    Command::Add { title: s(t), username: s("u"), password: s("p"), notes: s("") }
}

#[test]
fn index_is_parsed_from_decimal_digits() {
    assert_eq!(parse_index("0"), Some(0));
    assert_eq!(parse_index("42"), Some(42));
    assert_eq!(parse_index("007"), Some(7));
    assert_eq!(parse_index("18446744073709551615"), Some(usize::MAX));
    assert_eq!(parse_index("18446744073709551616"), None);
    assert_eq!(parse_index("99999999999999999999999"), None);
    assert_eq!(parse_index(""), None);
    assert_eq!(parse_index("-1"), None);
    assert_eq!(parse_index(" 1"), None);
    assert_eq!(parse_index("1a"), None);
    assert_eq!(parse_index("١"), None);
}

#[test]
fn suite_names_in_any_case() {
    assert_eq!(encryption_str_to_enum("aes256"), Some(Encryption::AES256GCM));
    assert_eq!(encryption_str_to_enum("AES256"), Some(Encryption::AES256GCM));
    assert_eq!(encryption_str_to_enum("Salsa20"), Some(Encryption::SALSA20));
    assert_eq!(encryption_str_to_enum("ChaCha20"), Some(Encryption::CHACHA20));
    assert_eq!(encryption_str_to_enum("aes256 gcm"), None);
    assert_eq!(encryption_str_to_enum("blowfish"), None);
    assert_eq!(encryption_str_to_enum(""), None);
}

#[test]
fn lowercase_suite_names_only() {
    assert_eq!(encryption_from_lowercase("chacha20"), Some(Encryption::CHACHA20));
    assert_eq!(encryption_from_lowercase("salsa20"), Some(Encryption::SALSA20));
    assert_eq!(encryption_from_lowercase("CHACHA20"), None);
    assert_eq!(encryption_from_lowercase("chacha2"), None);
}

#[test]
fn export_format_names() {
    assert_eq!(format_str_to_enum("CSV"), Some(FormatExport::CSV));
    assert_eq!(format_str_to_enum("csv"), Some(FormatExport::CSV));
    assert_eq!(format_str_to_enum("json"), None);
    assert_eq!(format_from_lowercase("csv"), Some(FormatExport::CSV));
    assert_eq!(format_from_lowercase("Csv"), None);
}

#[test]
fn random_keyfile_has_the_requested_characters() {
    for size in [0usize, 1, 1024].iter() {
        let bytes = generate_random_utf8(*size);
        let text = String::from_utf8(bytes.clone()).unwrap();
        assert_eq!(text.chars().count(), *size);
        assert!(bytes.len() >= *size);
    }
    assert_ne!(generate_random_utf8(64), generate_random_utf8(64));
}

#[test]
fn session_runs_the_operations() {
    let blob = init_db(Encryption::CHACHA20, b"pw");
    let mut session = Session::start(Encryption::CHACHA20, b"pw".to_vec(), blob).unwrap();
    assert!(matches!(session.step(add("one")), Ok(Outcome::Done)));
    assert!(matches!(session.step(add("two")), Ok(Outcome::Done)));
    assert_eq!(session.vault().len(), 2);
    match session.step(Command::ShowPassword(1)) {
        Ok(Outcome::Show(p)) => assert_eq!(p, s("p")),
        _ => panic!("expected a password to show"),
    }
    match session.step(Command::CopyPassword(0)) {
        Ok(Outcome::Copy(p)) => assert_eq!(p, s("p")),
        _ => panic!("expected a password to copy"),
    }
    let modify = Command::Modify {
        index: 0,
        title: s("uno"),
        username: s(""),
        password: s("secret"),
        notes: s(" "),
    };
    assert!(matches!(session.step(modify), Ok(Outcome::Done)));
    assert_eq!(
        session.vault().records()[0],
        JsonDatabseKMH::new(s("uno"), s("u"), s("secret"), s(""))
    );
    assert!(matches!(session.step(Command::Remove(1)), Ok(Outcome::Done)));
    assert!(matches!(
        session.step(Command::Remove(1)),
        Err(VaultError::IndexOutOfRange)
    ));
    assert!(matches!(
        session.step(Command::ShowPassword(1)),
        Err(VaultError::IndexOutOfRange)
    ));
    match session.step(Command::ExportCsv) {
        Ok(Outcome::Export(rows)) => {
            assert_eq!(rows, vec![vec![s("0"), s("uno"), s("u"), s("secret"), s("")]])
        }
        _ => panic!("expected rows to export"),
    }
    let saved = match session.step(Command::Save) {
        Ok(Outcome::Write(bytes)) => bytes,
        _ => panic!("expected bytes to write"),
    };
    assert!(matches!(session.step(Command::Exit), Ok(Outcome::Exit)));
    let reopened = Session::start(Encryption::CHACHA20, b"pw".to_vec(), saved).unwrap();
    assert_eq!(reopened.vault().records(), session.vault().records());
}

#[test]
fn session_does_not_start_with_a_wrong_secret() {
    let blob = init_db(Encryption::AES256GCM, b"pw");
    assert!(matches!(
        Session::start(Encryption::AES256GCM, b"px".to_vec(), blob),
        Err(VaultError::AuthFailure)
    ));
}
