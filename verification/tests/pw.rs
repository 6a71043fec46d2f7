use sonar::auth::pw::{
    password_fits, salt_fits, SaltyPassword, HASH_LENGTH, MAX_INPUT_BYTES, MIN_SALT_BYTES,
    SALT_LENGTH,
};

const SALT: &str = "0123456789abcdefghijklmnopqrstuvwxyzABCDEFGHIJKLMNOPQRSTUVWXYZ";

fn counting_hash() -> [u8; HASH_LENGTH] {
    let mut hash = [0u8; HASH_LENGTH];
    for (i, byte) in hash.iter_mut().enumerate() {
        *byte = i as u8;
    }
    hash
}

const COUNTING_HEX: &str = "000102030405060708090a0b0c0d0e0f101112131415161718191a1b1c1d1e1f";

#[test]
fn password_constants_have_their_values() {
    assert_eq!(HASH_LENGTH, 32);
    assert_eq!(HASH_LENGTH, argon2rs::defaults::LENGTH);
    assert_eq!(SALT_LENGTH, 128);
    assert_eq!(MIN_SALT_BYTES, 8);
    assert_eq!(MAX_INPUT_BYTES, 4_294_967_295);
}

#[test]
fn new_password_validates_its_plaintext() {
    let salted = SaltyPassword::new("correct horse battery staple").expect("OS RNG");
    assert!(salted.validate("correct horse battery staple"));
}

#[test]
fn new_password_rejects_another_plaintext() {
    let salted = SaltyPassword::new("correct horse battery staple").expect("OS RNG");
    assert!(!salted.validate("correct horse battery stapler"));
    assert!(!salted.validate(""));
}

#[test]
fn new_salt_is_long_and_alphanumeric() {
    let salted = SaltyPassword::new("a password to be salted").expect("OS RNG");
    assert_eq!(salted.salt().chars().count(), 128);
    assert_eq!(salted.salt().len(), 128);
    assert!(salted.salt().chars().all(|c| c.is_ascii_alphanumeric()));
    assert_eq!(salted.hash().len(), 32);
}

#[test]
fn new_salts_differ_between_calls() {
    let first = SaltyPassword::new("the very same password").expect("OS RNG");
    let second = SaltyPassword::new("the very same password").expect("OS RNG");
    assert_ne!(first.salt(), second.salt());
    assert_ne!(first.hash(), second.hash());
    assert!(first.validate("the very same password"));
    assert!(second.validate("the very same password"));
}

#[test]
fn with_salt_hashes_with_argon2i() {
    let salted = SaltyPassword::with_salt("hunter2hunter2hunter2", String::from(SALT));
    assert_eq!(salted.salt(), SALT);
    assert_eq!(*salted.hash(), argon2rs::argon2i_simple("hunter2hunter2hunter2", SALT));
    assert_ne!(*salted.hash(), argon2rs::argon2i_simple("hunter2hunter2hunter3", SALT));
    assert_ne!(*salted.hash(), argon2rs::argon2i_simple("hunter2hunter2hunter2", "another salt"));
}

#[test]
fn with_salt_is_deterministic() {
    let first = SaltyPassword::with_salt("pass phrase", String::from("saltsalt"));
    let second = SaltyPassword::with_salt("pass phrase", String::from("saltsalt"));
    assert_eq!(first.hash(), second.hash());
    assert_eq!(first.to_string(), second.to_string());
}

#[test]
fn with_salt_validates_and_rejects() {
    let salted = SaltyPassword::with_salt("pass phrase", String::from("saltsalt"));
    assert!(salted.validate("pass phrase"));
    assert!(!salted.validate("pass phrasf"));
    assert!(!salted.validate("Pass phrase"));
}

#[test]
fn validate_takes_non_ascii_text() {
    let salted = SaltyPassword::with_salt("pässwörd ünïcode", String::from("sälty sält"));
    assert!(salted.validate("pässwörd ünïcode"));
    assert!(!salted.validate("password unicode"));
    let read = SaltyPassword::parse(&salted.to_string()).expect("recognized");
    assert_eq!(read.salt(), "sälty sält");
    assert!(read.validate("pässwörd ünïcode"));
}

#[test]
fn serialization_round_trip() {
    let salted = SaltyPassword::new("a twenty char passwd").expect("OS RNG");
    let text = salted.to_string();
    let read = SaltyPassword::parse(&text).expect("recognized");
    assert_eq!(read.salt(), salted.salt());
    assert_eq!(read.hash(), salted.hash());
    assert!(read.validate("a twenty char passwd"));
    assert!(!read.validate("a twenty char passwe"));
    assert_eq!(read.to_string(), text);
}

#[test]
fn serialized_form_is_exact() {
    let salted = SaltyPassword::from_parts(String::from("saltsalt"), counting_hash());
    assert_eq!(salted.to_string(), format!("$argon2$saltsalt${}$", COUNTING_HEX));
}

#[test]
fn serialized_hash_pads_small_bytes() {
    let salted = SaltyPassword::from_parts(String::from("s"), [0x0a; HASH_LENGTH]);
    let text = salted.to_string();
    assert_eq!(text, format!("$argon2$s${}$", "0a".repeat(32)));
    assert_eq!(text.len(), 8 + 1 + 1 + 64 + 1);
    let zero = SaltyPassword::from_parts(String::from("s"), [0; HASH_LENGTH]);
    assert_eq!(zero.to_string(), format!("$argon2$s${}$", "0".repeat(64)));
    let full = SaltyPassword::from_parts(String::from("s"), [0xff; HASH_LENGTH]);
    assert_eq!(full.to_string(), format!("$argon2$s${}$", "f".repeat(64)));
}

#[test]
fn serialized_length_is_fixed_for_new_passwords() {
    let salted = SaltyPassword::new("some password or other").expect("OS RNG");
    assert_eq!(salted.to_string().len(), 8 + 128 + 1 + 64 + 1);
}

#[test]
fn parse_reads_salt_and_hash() {
    let read = SaltyPassword::parse(&format!("$argon2$saltsalt${}$", COUNTING_HEX))
        .expect("recognized");
    assert_eq!(read.salt(), "saltsalt");
    assert_eq!(*read.hash(), counting_hash());
}

#[test]
fn parse_takes_upper_case_digits() {
    let read = SaltyPassword::parse(&format!("$argon2$saltsalt${}$", COUNTING_HEX.to_uppercase()))
        .expect("recognized");
    assert_eq!(*read.hash(), counting_hash());
    let mixed = SaltyPassword::parse(&format!("$argon2$s${}$", "aB".repeat(32))).expect("recognized");
    assert_eq!(*mixed.hash(), [0xab; HASH_LENGTH]);
}

#[test]
fn parse_takes_an_empty_salt() {
    let read = SaltyPassword::parse(&format!("$argon2$${}$", COUNTING_HEX)).expect("recognized");
    assert_eq!(read.salt(), "");
    assert_eq!(*read.hash(), counting_hash());
}

#[test]
fn parse_rejects_missing_prefix() {
    assert!(SaltyPassword::parse(&format!("saltsalt${}$", COUNTING_HEX)).is_none());
    assert!(SaltyPassword::parse(&format!("argon2$saltsalt${}$", COUNTING_HEX)).is_none());
    assert!(SaltyPassword::parse(&format!("$argon2saltsalt${}$", COUNTING_HEX)).is_none());
    assert!(SaltyPassword::parse(&format!("$argon2d$saltsalt${}$", COUNTING_HEX)).is_none());
    assert!(SaltyPassword::parse(&format!("$Argon2$saltsalt${}$", COUNTING_HEX)).is_none());
    assert!(SaltyPassword::parse(&format!(" $argon2$saltsalt${}$", COUNTING_HEX)).is_none());
}

#[test]
fn parse_rejects_missing_trailing_dollar() {
    assert!(SaltyPassword::parse(&format!("$argon2$saltsalt${}", COUNTING_HEX)).is_none());
    assert!(SaltyPassword::parse(&format!("$argon2$saltsalt${}$ ", COUNTING_HEX)).is_none());
    assert!(SaltyPassword::parse(&format!("$argon2$saltsalt${}$\n", COUNTING_HEX)).is_none());
}

#[test]
fn parse_rejects_missing_separator() {
    assert!(SaltyPassword::parse(&format!("$argon2$saltsalt{}$", COUNTING_HEX)).is_none());
    assert!(SaltyPassword::parse(&format!("$argon2${}$", &COUNTING_HEX[1..])).is_none());
}

#[test]
fn parse_rejects_wrong_hash_length() {
    assert!(SaltyPassword::parse(&format!("$argon2$saltsalt${}$", &COUNTING_HEX[..62])).is_none());
    assert!(SaltyPassword::parse(&format!("$argon2$saltsalt${}$", &COUNTING_HEX[..63])).is_none());
    assert!(SaltyPassword::parse(&format!("$argon2$saltsalt${}0$", COUNTING_HEX)).is_none());
    assert!(SaltyPassword::parse(&format!("$argon2$saltsalt${}00$", COUNTING_HEX)).is_none());
    assert!(SaltyPassword::parse("$argon2$saltsalt$$").is_none());
}

#[test]
fn parse_rejects_non_hex_hash() {
    let with_g = format!("$argon2$saltsalt$g{}$", &COUNTING_HEX[1..]);
    assert!(SaltyPassword::parse(&with_g).is_none());
    let with_space = format!("$argon2$saltsalt${} $", &COUNTING_HEX[..63]);
    assert!(SaltyPassword::parse(&with_space).is_none());
    let with_wide = format!("$argon2$saltsalt${}é$", &COUNTING_HEX[..62]);
    assert!(SaltyPassword::parse(&with_wide).is_none());
    let with_wide_char = format!("$argon2$saltsalt${}é$", &COUNTING_HEX[..63]);
    assert!(SaltyPassword::parse(&with_wide_char).is_none());
}

#[test]
fn parse_rejects_a_sign_in_the_hash() {
    let signed = format!("$argon2$saltsalt$+f{}$", &COUNTING_HEX[2..]);
    assert!(SaltyPassword::parse(&signed).is_none());
    let negative = format!("$argon2$saltsalt$-1{}$", &COUNTING_HEX[2..]);
    assert!(SaltyPassword::parse(&negative).is_none());
}

#[test]
fn parse_rejects_a_dollar_in_the_salt() {
    assert!(SaltyPassword::parse(&format!("$argon2$salt$salt${}$", COUNTING_HEX)).is_none());
    assert!(SaltyPassword::parse(&format!("$argon2$$saltsalt${}$", COUNTING_HEX)).is_none());
}

#[test]
fn parse_rejects_short_text() {
    assert!(SaltyPassword::parse("").is_none());
    assert!(SaltyPassword::parse("$").is_none());
    assert!(SaltyPassword::parse("$argon2$").is_none());
    assert!(SaltyPassword::parse("$argon2$$").is_none());
    assert!(SaltyPassword::parse("$argon2$$$").is_none());
    assert!(SaltyPassword::parse("$argon2$saltsalt$").is_none());
}

#[test]
fn parsed_password_validates() {
    let text = SaltyPassword::with_salt("open sesame, please", String::from(SALT)).to_string();
    let read = SaltyPassword::parse(&text).expect("recognized");
    assert!(salt_fits(read.salt()));
    assert!(read.validate("open sesame, please"));
    assert!(!read.validate("open sesame"));
}

#[test]
fn matches_hash_compares_every_byte() {
    let salted = SaltyPassword::from_parts(String::from("saltsalt"), counting_hash());
    assert!(salted.matches_hash(&counting_hash()));
    for i in 0..HASH_LENGTH {
        let mut other = counting_hash();
        other[i] ^= 0x80;
        assert!(!salted.matches_hash(&other));
        other = counting_hash();
        other[i] ^= 0x01;
        assert!(!salted.matches_hash(&other));
    }
    assert!(!salted.matches_hash(&[0; HASH_LENGTH]));
}

#[test]
fn from_parts_keeps_its_parts() {
    let salted = SaltyPassword::from_parts(String::from("pepper"), [7; HASH_LENGTH]);
    assert_eq!(salted.salt(), "pepper");
    assert_eq!(*salted.hash(), [7; HASH_LENGTH]);
}

#[test]
fn salt_fits_from_eight_bytes() {
    assert!(!salt_fits(""));
    assert!(!salt_fits("1234567"));
    assert!(salt_fits("12345678"));
    assert!(salt_fits(SALT));
    // Four characters of two bytes each.
    assert!(salt_fits("éééé"));
    assert!(!salt_fits("ééé"));
}

#[test]
fn password_fits_ordinary_text() {
    assert!(password_fits(""));
    assert!(password_fits("a"));
    assert!(password_fits("a twenty char passwd"));
}

#[test]
fn no_drawn_salt_gives_no_password() {
    assert!(SaltyPassword::with_drawn_salt("a twenty char passwd", None).is_none());
    assert!(SaltyPassword::with_drawn_salt("", None).is_none());
}

#[test]
fn a_drawn_salt_gives_the_password_with_that_salt() {
    let made = SaltyPassword::with_drawn_salt("a twenty char passwd", Some(String::from(SALT)))
        .expect("salted");
    let direct = SaltyPassword::with_salt("a twenty char passwd", String::from(SALT));
    assert_eq!(made.salt(), SALT);
    assert_eq!(made.hash(), direct.hash());
    assert_eq!(*made.hash(), argon2rs::argon2i_simple("a twenty char passwd", SALT));
    assert!(made.validate("a twenty char passwd"));
    assert!(!made.validate("a twenty char passwe"));
    assert_eq!(SaltyPassword::parse(&made.to_string()).expect("recognized").hash(), made.hash());
}
