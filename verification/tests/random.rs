use rand::OsRng;
use sonar::auth::random::{alphanumeric_from, os_random_alphanumeric};

#[test]
fn random_text_has_the_length_asked_for() {
    for count in [0usize, 1, 2, 64, 128, 1000] {
        let text = os_random_alphanumeric(count).expect("OS RNG");
        assert_eq!(text.len(), count);
        assert_eq!(text.chars().count(), count);
    }
}

#[test]
fn random_text_is_alphanumeric() {
    let text = os_random_alphanumeric(4096).expect("OS RNG");
    assert!(text.chars().all(|c| c.is_ascii_alphanumeric()));
    // With 4096 draws from 62 symbols, each kind of symbol turns up.
    assert!(text.chars().any(|c| c.is_ascii_digit()));
    assert!(text.chars().any(|c| c.is_ascii_lowercase()));
    assert!(text.chars().any(|c| c.is_ascii_uppercase()));
}

#[test]
fn random_text_differs_between_draws() {
    let first = os_random_alphanumeric(64).expect("OS RNG");
    let second = os_random_alphanumeric(64).expect("OS RNG");
    assert_ne!(first, second);
}

#[test]
fn no_source_gives_no_text() {
    assert_eq!(alphanumeric_from(None, 0), None);
    assert_eq!(alphanumeric_from(None, 64), None);
}

#[test]
fn an_open_source_gives_text() {
    for count in [0usize, 1, 64, 128] {
        let text = alphanumeric_from(Some(OsRng::new().expect("OS RNG")), count).expect("text");
        assert_eq!(text.chars().count(), count);
        assert!(text.chars().all(|c| c.is_ascii_alphanumeric()));
    }
}
