use sonar::auth::pw::SaltyPassword;
use sonar::models::NewUser;
use sonar::views::user_account::{RegistrationError, UserData, MIN_PASSWORD_BYTES};

fn data(username: &str, password: &str) -> UserData {
    UserData {
        username: String::from(username),
        password: String::from(password),
        real_name: None,
        blurb: None,
    }
}

#[test]
fn shortest_password_is_sixteen_bytes() {
    assert_eq!(MIN_PASSWORD_BYTES, 16);
}

#[test]
fn validate_accepts_a_free_name_and_long_password() {
    assert_eq!(data("alice", "a twenty char passwd").validate(false), Ok(()));
    assert_eq!(data("alice", "exactly16bytes!!").validate(false), Ok(()));
}

#[test]
fn validate_refuses_a_short_password() {
    assert_eq!(
        data("alice", "only15bytes!!!!").validate(false),
        Err(RegistrationError::PasswordTooShort)
    );
    assert_eq!(data("alice", "").validate(false), Err(RegistrationError::PasswordTooShort));
}

#[test]
fn validate_counts_bytes_not_characters() {
    // Eight characters of two bytes each.
    assert_eq!(data("alice", "éééééééé").validate(false), Ok(()));
    assert_eq!(
        data("alice", "ééééééé").validate(false),
        Err(RegistrationError::PasswordTooShort)
    );
}

#[test]
fn validate_refuses_a_taken_name() {
    assert_eq!(
        data("alice", "a twenty char passwd").validate(true),
        Err(RegistrationError::UsernameTaken)
    );
}

#[test]
fn validate_reports_a_taken_name_first() {
    assert_eq!(data("alice", "short").validate(true), Err(RegistrationError::UsernameTaken));
}

#[test]
fn into_user_salts_the_password() {
    let user = data("alice", "a twenty char passwd").into_user(false).expect("registered");
    assert_eq!(user.username(), "alice");
    assert_eq!(user.real_name(), "");
    assert_eq!(user.blurb(), "");
    assert_ne!(user.password(), "a twenty char passwd");
    let stored = SaltyPassword::parse(user.password()).expect("recognized");
    assert!(stored.validate("a twenty char passwd"));
    assert!(!stored.validate("a twenty char passwe"));
    assert_eq!(stored.salt().len(), 128);
}

#[test]
fn into_user_keeps_name_and_blurb() {
    let form = UserData {
        username: String::from("bob"),
        password: String::from("correct horse battery"),
        real_name: Some(String::from("Robert")),
        blurb: Some(String::from("Builds things.")),
    };
    let user = form.into_user(false).expect("registered");
    assert_eq!(user.username(), "bob");
    assert_eq!(user.real_name(), "Robert");
    assert_eq!(user.blurb(), "Builds things.");
}

#[test]
fn into_user_refuses_invalid_data() {
    assert_eq!(
        data("alice", "short").into_user(false).err(),
        Some(RegistrationError::PasswordTooShort)
    );
    assert_eq!(
        data("alice", "a twenty char passwd").into_user(true).err(),
        Some(RegistrationError::UsernameTaken)
    );
}

#[test]
fn new_user_holds_the_serialized_password() {
    let user = NewUser::new(
        String::from("carol"),
        String::from("pass phrase of carol"),
        String::from("Carol"),
        String::from("Sings."),
    )
    .expect("OS RNG");
    assert_eq!(user.username(), "carol");
    assert_eq!(user.real_name(), "Carol");
    assert_eq!(user.blurb(), "Sings.");
    assert!(user.password().starts_with("$argon2$"));
    assert!(user.password().ends_with('$'));
    assert_eq!(user.password().len(), 8 + 128 + 1 + 64 + 1);
    assert!(SaltyPassword::parse(user.password()).expect("recognized").validate("pass phrase of carol"));
}

#[test]
fn new_user_with_password_serializes_it() {
    let salted = SaltyPassword::from_parts(String::from("saltsalt"), [0x1f; 32]);
    let user = NewUser::with_password(
        String::from("dave"),
        &salted,
        String::from("David"),
        String::new(),
    );
    assert_eq!(user.password(), format!("$argon2$saltsalt${}$", "1f".repeat(32)));
    assert_eq!(user.username(), "dave");
    assert_eq!(user.real_name(), "David");
    assert_eq!(user.blurb(), "");
}

#[test]
fn registration_errors_have_status_and_message() {
    assert_eq!(RegistrationError::UsernameTaken.status(), 400);
    assert_eq!(RegistrationError::PasswordTooShort.status(), 400);
    assert_eq!(RegistrationError::EntropyUnavailable.status(), 500);
    assert_eq!(
        RegistrationError::UsernameTaken.message(),
        "Username already in use; pick another"
    );
    assert_eq!(RegistrationError::PasswordTooShort.message(), "Password too short");
    assert_eq!(RegistrationError::EntropyUnavailable.message(), "Failed to access OS RNG");
}

#[test]
fn no_salted_password_gives_no_record() {
    let made = NewUser::with_salted(
        String::from("erin"),
        None,
        String::from("Erin"),
        String::from("Reads."),
    );
    assert!(made.is_none());
}

#[test]
fn a_salted_password_gives_the_record_with_it() {
    let salted = SaltyPassword::from_parts(String::from("saltsalt"), [0x2e; 32]);
    let user = NewUser::with_salted(
        String::from("erin"),
        Some(salted),
        String::from("Erin"),
        String::from("Reads."),
    )
    .expect("record");
    assert_eq!(user.username(), "erin");
    assert_eq!(user.password(), format!("$argon2$saltsalt${}$", "2e".repeat(32)));
    assert_eq!(user.real_name(), "Erin");
    assert_eq!(user.blurb(), "Reads.");
}
