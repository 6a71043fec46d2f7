//! Secure password handling.
//!
//! A password is stored as a salt and the Argon2i hash of the plaintext under
//! that salt, written as `$argon2$<salt>$<hash in hexadecimal>$`. The salt is
//! drawn anew for each password.
use vstd::prelude::*;
use vstd::utf8::{encode_utf8, is_ascii_chars, is_ascii_chars_encode_utf8};
use crate::auth::hex::{
    from_hex, from_hex_of_to_hex, hex_value, is_hex, is_hex_digit, lower_digit, lower_digit_text,
    to_hex,
};
use crate::auth::random::{is_alphanumeric_text, os_random_alphanumeric};

verus! {

/// How long is the password hash, in bytes: the hasher's native output length.
pub const HASH_LENGTH: usize = 32;

/// How long is a salt that is drawn here, in characters.
///
/// Good practice is to use as many random bytes as the hasher outputs. Salts
/// are restricted to the characters `[a-zA-Z0-9]`, which reduces the entropy
/// per byte from 256 values to 62; roughly a quarter. The salt is four times
/// as long to make up for it.
pub const SALT_LENGTH: usize = HASH_LENGTH * 4;

/// The shortest salt that the hasher takes, in bytes.
pub const MIN_SALT_BYTES: usize = 8;

/// The longest password, and the longest salt, that the hasher takes, in bytes.
pub const MAX_INPUT_BYTES: u64 = 0xffff_ffff;

/// The length of `text` in bytes, which is what the hasher counts.
pub open spec fn byte_len(text: Seq<char>) -> nat {
    encode_utf8(text).len()
}

/// The hasher takes `password` as a plaintext.
pub open spec fn is_hashable_password(password: Seq<char>) -> bool {
    byte_len(password) <= MAX_INPUT_BYTES
}

/// The hasher takes `salt` as a salt.
pub open spec fn is_hashable_salt(salt: Seq<char>) -> bool {
    MIN_SALT_BYTES <= byte_len(salt) <= MAX_INPUT_BYTES
}

/// The Argon2i hash of `password` under `salt`, with the hasher's default
/// parameters.
pub uninterp spec fn argon2i_simple_hash(password: Seq<char>, salt: Seq<char>) -> Seq<u8>;

/// Hashes `password` under `salt`.
///
/// Calls `argon2rs::argon2i_simple`. Trusted: the hash is a function of the
/// two texts alone. The hasher stops the program on a salt shorter than 8
/// bytes and on a salt or password longer than 2^32 - 1 bytes, so those are
/// left out.
#[verifier::external_body]
fn argon2i_simple(password: &str, salt: &str) -> (hash: [u8; HASH_LENGTH])
    requires
        is_hashable_password(password@),
        is_hashable_salt(salt@),
    ensures
        hash@ == argon2i_simple_hash(password@, salt@),
{
    argon2rs::argon2i_simple(password, salt)
}

/// Mathematical value of a [`SaltyPassword`].
pub struct SaltyPasswordView {
    pub salt: Seq<char>,
    pub hash: Seq<u8>,
}

/// The leading marker of a serialized password, which names the hash method.
pub open spec fn method_prefix() -> Seq<char> {
    seq!['$', 'a', 'r', 'g', 'o', 'n', '2', '$']
}

/// Number of hexadecimal digits in a serialized hash.
pub open spec fn hash_digits() -> int {
    2 * HASH_LENGTH
}

/// Number of characters in a serialized password besides the salt: the
/// prefix, the hash, and the `$` after each of salt and hash.
pub open spec fn framing_len() -> int {
    method_prefix().len() + 1 + hash_digits() + 1
}

/// The salted password made from `plaintext` with `salt`.
pub open spec fn encoded_as(plaintext: Seq<char>, salt: Seq<char>) -> SaltyPasswordView {
    SaltyPasswordView { salt, hash: argon2i_simple_hash(plaintext, salt) }
}

impl SaltyPasswordView {
    /// `plaintext` passes for the password that this value was made from:
    /// hashing it under the stored salt gives the stored hash.
    pub open spec fn accepts(self, plaintext: Seq<char>) -> bool {
        self.hash == argon2i_simple_hash(plaintext, self.salt)
    }

    /// The hash has the hasher's output length and the salt is free of the
    /// separator `$`, so that the serialized form can be read back.
    pub open spec fn well_formed(self) -> bool {
        self.hash.len() == HASH_LENGTH && !self.salt.contains('$')
    }

    /// The canonical text: `$argon2$`, the salt, `$`, the hash in lower-case
    /// hexadecimal, `$`.
    pub open spec fn serialized(self) -> Seq<char> {
        method_prefix() + self.salt + seq!['$'] + to_hex(self.hash) + seq!['$']
    }
}

/// The salt part of `text`, if `text` is a serialized password: what stands
/// between the prefix and the `$` before the hash.
pub open spec fn salt_part(text: Seq<char>) -> Seq<char> {
    text.subrange(method_prefix().len() as int, text.len() - hash_digits() - 2)
}

/// The hash part of `text`, if `text` is a serialized password: the
/// characters before the final `$`, as many as a hash has digits.
pub open spec fn hash_part(text: Seq<char>) -> Seq<char> {
    text.subrange(text.len() - hash_digits() - 1, text.len() - 1)
}

/// What `text` is recognized as.
///
/// A serialized password begins with `$argon2$` and ends with `$`; between
/// them stand the salt, one further `$`, and the hash as exactly
/// `2 * HASH_LENGTH` hexadecimal digits of either case. The salt is any text
/// without `$`, the empty one included. Everything else is unrecognized.
pub open spec fn parsed(text: Seq<char>) -> Option<SaltyPasswordView> {
    if text.len() >= framing_len() && method_prefix().is_prefix_of(text) && text[text.len()
        - hash_digits() - 2] == '$' && text[text.len() - 1] == '$' && !salt_part(text).contains(
        '$',
    ) && is_hex(hash_part(text)) {
        Some(SaltyPasswordView { salt: salt_part(text), hash: from_hex(hash_part(text)) })
    } else {
        None
    }
}

/// Salted password representation.
///
/// Use this to salt and validate user passwords. It stores nothing: it
/// creates, parses, validates and serializes passwords in the format of
/// [`SaltyPasswordView::serialized`]. Salt and hash cannot be changed once the
/// value exists.
#[derive(Clone, Debug)]
pub struct SaltyPassword {
    salt: String,
    hash: [u8; HASH_LENGTH],
}

impl View for SaltyPassword {
    type V = SaltyPasswordView;

    closed spec fn view(&self) -> SaltyPasswordView {
        SaltyPasswordView { salt: self.salt@, hash: self.hash@ }
    }
}

/// The characters of `text`, in order.
fn chars_of(text: &str) -> (chars: Vec<char>)
    ensures
        chars@ == text@,
{
    let mut chars: Vec<char> = Vec::new();
    for c in position: text.chars()
        invariant
            position.seq() == text@,
            chars@ == text@.take(position.index() as int),
    {
        chars.push(c);
    }
    chars
}

/// Whether the hasher takes `password` as a plaintext: it must not be longer
/// than [`MAX_INPUT_BYTES`].
pub fn password_fits(password: &str) -> (fits: bool)
    ensures
        fits == is_hashable_password(password@),
{
    password.as_bytes().len() as u64 <= MAX_INPUT_BYTES
}

/// Whether the hasher takes `salt` as a salt: it must have at least
/// [`MIN_SALT_BYTES`] bytes and at most [`MAX_INPUT_BYTES`].
pub fn salt_fits(salt: &str) -> (fits: bool)
    ensures
        fits == is_hashable_salt(salt@),
{
    let bytes = salt.as_bytes().len();
    MIN_SALT_BYTES <= bytes && bytes as u64 <= MAX_INPUT_BYTES
}

impl SaltyPassword {
    /// The salted password with this salt and this hash.
    pub fn from_parts(salt: String, hash: [u8; HASH_LENGTH]) -> (made: SaltyPassword)
        ensures
            made@ == (SaltyPasswordView { salt: salt@, hash: hash@ }),
    {
        SaltyPassword { salt, hash }
    }

    /// Hash the supplied password with the supplied salt.
    pub fn with_salt(password: &str, salt: String) -> (made: SaltyPassword)
        requires
            is_hashable_password(password@),
            is_hashable_salt(salt@),
        ensures
            made@ == encoded_as(password@, salt@),
            made@.accepts(password@),
            !salt@.contains('$') ==> made@.well_formed() && parsed(made@.serialized()) == Some(
                made@,
            ),
    {
        let hash = argon2i_simple(password, salt.as_str());
        let made = Self::from_parts(salt, hash);
        proof {
            if made@.well_formed() {
                serialized_parses_back(made@);
            }
        }
        made
    }

    /// Generate a salt and hash the supplied password with it.
    ///
    /// The salt is [`SALT_LENGTH`] letters and digits from the operating
    /// system's random source. `None` only if that source cannot be opened.
    /// Whatever salt is drawn, the result accepts `password`.
    pub fn new(password: &str) -> (made: Option<SaltyPassword>)
        requires
            is_hashable_password(password@),
        ensures
            made matches Some(salted) ==> {
                &&& is_alphanumeric_text(salted@.salt, SALT_LENGTH as nat)
                &&& salted@ == encoded_as(password@, salted@.salt)
                &&& salted@.accepts(password@)
                &&& salted@.well_formed()
                &&& parsed(salted@.serialized()) == Some(salted@)
            },
    {
        let drawn = os_random_alphanumeric(SALT_LENGTH);
        proof {
            if drawn is Some {
                alphanumeric_salt_is_usable(drawn->0@);
            }
        }
        Self::with_drawn_salt(password, drawn)
    }

    /// Hash the supplied password with the salt that was drawn, if one was:
    /// a salted password comes out exactly if a salt went in. This is what
    /// [`Self::new`] makes of either outcome of drawing a salt, which no
    /// input decides.
    pub fn with_drawn_salt(password: &str, drawn: Option<String>) -> (made: Option<SaltyPassword>)
        requires
            is_hashable_password(password@),
            drawn matches Some(salt) ==> is_hashable_salt(salt@),
        ensures
            match (drawn, made) {
                (Some(salt), Some(salted)) => {
                    &&& salted@ == encoded_as(password@, salt@)
                    &&& salted@.accepts(password@)
                    &&& !salt@.contains('$') ==> salted@.well_formed() && parsed(
                        salted@.serialized(),
                    ) == Some(salted@)
                },
                (None, None) => true,
                _ => false,
            },
    {
        match drawn {
            Some(salt) => Some(Self::with_salt(password, salt)),
            None => None,
        }
    }

    /// The hash of every salted password has [`HASH_LENGTH`] bytes.
    pub proof fn hash_has_native_length(&self)
        ensures
            self@.hash.len() == HASH_LENGTH,
    {
    }

    /// The salt.
    pub fn salt(&self) -> (salt: &str)
        ensures
            salt@ == self@.salt,
    {
        self.salt.as_str()
    }

    /// The hash.
    pub fn hash(&self) -> (hash: &[u8; HASH_LENGTH])
        ensures
            hash@ == self@.hash,
    {
        &self.hash
    }

    /// Whether `candidate` is the stored hash.
    ///
    /// Every byte is looked at, whether or not an earlier one differed, so
    /// that the time taken does not tell how long a prefix matched.
    pub fn matches_hash(&self, candidate: &[u8; HASH_LENGTH]) -> (same: bool)
        ensures
            same == (self@.hash == candidate@),
    {
        let mut difference: u8 = 0;
        for i in 0..HASH_LENGTH
            invariant
                difference == 0 <==> self.hash@.take(i as int) =~= candidate@.take(i as int),
        {
            let ours: u8 = self.hash[i];
            let theirs: u8 = candidate[i];
            assert((difference | (ours ^ theirs)) == 0 <==> difference == 0 && ours == theirs)
                by (bit_vector);
            proof {
                let before = self.hash@.take(i as int);
                let other = candidate@.take(i as int);
                assert(self.hash@.take(i + 1) =~= before.push(ours));
                assert(candidate@.take(i + 1) =~= other.push(theirs));
                if before.push(ours) == other.push(theirs) {
                    assert(before =~= before.push(ours).drop_last());
                    assert(other =~= other.push(theirs).drop_last());
                    assert(before.push(ours).last() == ours);
                }
            }
            difference = difference | (ours ^ theirs);
        }
        assert(self.hash@.take(HASH_LENGTH as int) =~= self.hash@);
        assert(candidate@.take(HASH_LENGTH as int) =~= candidate@);
        difference == 0
    }

    /// Check whether a given password matches this one: whether hashing it
    /// under the stored salt gives the stored hash.
    pub fn validate(&self, password: &str) -> (valid: bool)
        requires
            is_hashable_password(password@),
            is_hashable_salt(self@.salt),
        ensures
            valid == self@.accepts(password@),
    {
        let computed = argon2i_simple(password, self.salt.as_str());
        self.matches_hash(&computed)
    }
}

/// A salt of letters and digits has one byte per character, so one of at
/// least [`MIN_SALT_BYTES`] characters is a salt that the hasher takes. It
/// holds no `$` either.
pub proof fn alphanumeric_salt_is_usable(salt: Seq<char>)
    requires
        is_alphanumeric_text(salt, salt.len()),
        MIN_SALT_BYTES <= salt.len() <= MAX_INPUT_BYTES,
    ensures
        is_hashable_salt(salt),
        !salt.contains('$'),
{
    assert(is_ascii_chars(salt)) by {
        assert forall|i: int| 0 <= i < salt.len() implies '\0' <= #[trigger] salt[i]
            <= '\u{7f}' by {}
    }
    is_ascii_chars_encode_utf8(salt);
}

/// Number of characters in the method prefix.
const PREFIX_LENGTH: usize = 8;

/// Number of characters in a serialized password with an empty salt.
const FRAMING_LENGTH: usize = PREFIX_LENGTH + 1 + 2 * HASH_LENGTH + 1;

/// Writing one more byte appends its two digits.
proof fn lemma_to_hex_push(bytes: Seq<u8>, byte: u8)
    ensures
        to_hex(bytes.push(byte)) == to_hex(bytes) + seq![
            lower_digit(byte as int / 16),
            lower_digit(byte as int % 16),
        ],
{
    let longer = to_hex(bytes.push(byte));
    let appended = to_hex(bytes) + seq![
        lower_digit(byte as int / 16),
        lower_digit(byte as int % 16),
    ];
    assert forall|i: int| 0 <= i < longer.len() implies longer[i] == appended[i] by {
        if i < 2 * bytes.len() {
            assert(bytes.push(byte)[i / 2] == bytes[i / 2]);
        } else {
            assert(bytes.push(byte)[i / 2] == byte);
        }
    }
    assert(longer =~= appended);
}

impl SaltyPassword {
    /// Reads a serialized password. `None` means that `field` is not one, see
    /// [`parsed`]: a corrupt or foreign record is unrecognized, never a fault.
    pub fn parse(field: &str) -> (recognized: Option<SaltyPassword>)
        ensures
            match recognized {
                Some(salted) => parsed(field@) == Some(salted@) && salted@.well_formed(),
                None => parsed(field@) is None,
            },
    {
        let chars = chars_of(field);
        let len = chars.len();
        if len < FRAMING_LENGTH {
            return None;
        }
        if chars[0] != '$' || chars[1] != 'a' || chars[2] != 'r' || chars[3] != 'g' || chars[4]
            != 'o' || chars[5] != 'n' || chars[6] != '2' || chars[7] != '$' {
            return None;
        }
        assert(method_prefix() =~= field@.subrange(0, 8));
        let salt_end = len - 2 * HASH_LENGTH - 2;
        if chars[salt_end] != '$' || chars[len - 1] != '$' {
            return None;
        }
        let mut at = PREFIX_LENGTH;
        while at < salt_end
            invariant
                PREFIX_LENGTH <= at <= salt_end,
                salt_end == len - 2 * HASH_LENGTH - 2,
                len == chars@.len(),
                chars@ == field@,
                forall|j: int| PREFIX_LENGTH <= j < at ==> chars@[j] != '$',
            decreases salt_end - at,
        {
            if chars[at] == '$' {
                assert(salt_part(field@)[at - PREFIX_LENGTH] == '$');
                return None;
            }
            at += 1;
        }
        assert(!salt_part(field@).contains('$')) by {
            if salt_part(field@).contains('$') {
                let j = choose|j: int|
                    0 <= j < salt_part(field@).len() && salt_part(field@)[j] == '$';
                assert(chars@[j + PREFIX_LENGTH] == '$');
            }
        }
        let start = salt_end + 1;
        let ghost digits = hash_part(field@);
        let mut hash = [0u8; HASH_LENGTH];
        for i in 0..HASH_LENGTH
            invariant
                start == len - 2 * HASH_LENGTH - 1,
                len == chars@.len(),
                len >= FRAMING_LENGTH,
                chars@ == field@,
                digits == hash_part(field@),
                forall|j: int| 0 <= j < 2 * i ==> is_hex_digit(#[trigger] digits[j]),
                forall|j: int| 0 <= j < i ==> hash@[j] == from_hex(digits)[j],
        {
            let high = hex_value(chars[start + 2 * i]);
            let low = hex_value(chars[start + 2 * i + 1]);
            assert(digits[2 * i] == chars@[start + 2 * i]);
            assert(digits[2 * i + 1] == chars@[start + 2 * i + 1]);
            match (high, low) {
                (Some(high), Some(low)) => {
                    hash[i] = high * 16 + low;
                },
                _ => {
                    assert(!is_hex(digits));
                    return None;
                },
            }
        }
        assert(is_hex(digits));
        assert(hash@ =~= from_hex(digits));
        let salt = field.substring_char(PREFIX_LENGTH, salt_end).to_owned();
        proof {
            recognized_text_has_format(field@);
        }
        Some(SaltyPassword { salt, hash })
    }

    /// The serialized form: `$argon2$`, the salt, `$`, the hash in lower-case
    /// hexadecimal with two digits for each byte, `$`. [`Self::parse`] reads
    /// it back.
    pub fn to_string(&self) -> (text: String)
        ensures
            text@ == self@.serialized(),
            self@.well_formed() ==> parsed(text@) == Some(self@),
    {
        proof {
            reveal_strlit("$argon2$");
            reveal_strlit("$");
        }
        let mut text = String::from_str("$argon2$");
        text.append(self.salt.as_str());
        text.append("$");
        let ghost head = method_prefix() + self.salt@ + seq!['$'];
        assert(text@ =~= head + to_hex(self.hash@.take(0)));
        for i in 0..HASH_LENGTH
            invariant
                head == method_prefix() + self.salt@ + seq!['$'],
                text@ == head + to_hex(self.hash@.take(i as int)),
        {
            let byte: u8 = self.hash[i];
            text.append(lower_digit_text(byte / 16));
            text.append(lower_digit_text(byte % 16));
            proof {
                lemma_to_hex_push(self.hash@.take(i as int), byte);
                assert(self.hash@.take(i + 1) =~= self.hash@.take(i as int).push(byte));
                assert(text@ =~= head + to_hex(self.hash@.take(i + 1)));
            }
        }
        assert(self.hash@.take(HASH_LENGTH as int) =~= self.hash@);
        text.append("$");
        assert(text@ =~= self@.serialized());
        proof {
            if self@.well_formed() {
                serialized_parses_back(self@);
            }
        }
        text
    }
}

/// Round trip of encoding: the salted password made from a plaintext, with
/// whatever salt, accepts that plaintext.
pub proof fn encoded_password_accepts(plaintext: Seq<char>, salt: Seq<char>)
    ensures
        encoded_as(plaintext, salt).accepts(plaintext),
{
}

/// Round trip of serialization: the serialized form of a salted password is
/// read back as that very salt and hash, so what is read back accepts exactly
/// the plaintexts that the value accepts.
pub proof fn serialized_parses_back(value: SaltyPasswordView)
    requires
        value.well_formed(),
    ensures
        parsed(value.serialized()) == Some(value),
        forall|plaintext: Seq<char>|
            parsed(value.serialized())->0.accepts(plaintext) == value.accepts(plaintext),
{
    let text = value.serialized();
    let digits = to_hex(value.hash);
    from_hex_of_to_hex(value.hash);
    assert(text.len() == framing_len() + value.salt.len());
    assert(text.subrange(0, 8) =~= method_prefix());
    assert(salt_part(text) =~= value.salt);
    assert(hash_part(text) =~= digits);
}

/// Text that is recognized has the serialized format: prefix, a salt without
/// `$`, `$`, a hash of [`HASH_LENGTH`] bytes as hexadecimal digits, `$`.
pub proof fn recognized_text_has_format(text: Seq<char>)
    requires
        parsed(text) is Some,
    ensures
        parsed(text)->0.well_formed(),
        is_hex(hash_part(text)),
        hash_part(text).len() == hash_digits(),
        text == method_prefix() + parsed(text)->0.salt + seq!['$'] + hash_part(text) + seq!['$'],
{
    let value = parsed(text)->0;
    let rebuilt = method_prefix() + value.salt + seq!['$'] + hash_part(text) + seq!['$'];
    assert(method_prefix() =~= text.subrange(0, 8));
    assert forall|i: int| 0 <= i < text.len() implies text[i] == rebuilt[i] by {
        if i < 8 {
            assert(text.subrange(0, 8)[i] == text[i]);
        }
    }
    assert(text =~= rebuilt);
}

/// Text without the prefix `$argon2$` is unrecognized.
pub proof fn rejects_missing_prefix(text: Seq<char>)
    requires
        !method_prefix().is_prefix_of(text),
    ensures
        parsed(text) is None,
{
}

/// Text that does not end with `$` is unrecognized.
pub proof fn rejects_missing_terminator(text: Seq<char>)
    requires
        text.len() == 0 || text.last() != '$',
    ensures
        parsed(text) is None,
{
}

/// Text in the serialized layout whose hash segment has another length than
/// `2 * HASH_LENGTH` is unrecognized.
pub proof fn rejects_wrong_hash_length(salt: Seq<char>, digits: Seq<char>)
    requires
        !salt.contains('$'),
        !digits.contains('$'),
        digits.len() != hash_digits(),
    ensures
        parsed(method_prefix() + salt + seq!['$'] + digits + seq!['$']) is None,
{
    let text = method_prefix() + salt + seq!['$'] + digits + seq!['$'];
    if parsed(text) is Some {
        let mark = text.len() - hash_digits() - 2;
        assert(text[mark] == '$');
        if digits.len() < hash_digits() {
            // The `$` that should end the salt stands inside the salt.
            assert(8 <= mark < 8 + salt.len());
            assert(text[mark] == salt[mark - 8]);
            assert(salt.contains(salt[mark - 8]));
        } else {
            // It stands inside the hash segment.
            let inside = mark - 8 - salt.len() - 1;
            assert(0 <= inside < digits.len());
            assert(text[mark] == digits[inside]);
            assert(digits.contains(digits[inside]));
        }
    }
}

/// Text whose hash segment holds a character that is no hexadecimal digit
/// is unrecognized.
pub proof fn rejects_non_hex_hash(text: Seq<char>, at: int)
    requires
        0 <= at < hash_digits(),
        text.len() >= framing_len(),
        !is_hex_digit(hash_part(text)[at]),
    ensures
        parsed(text) is None,
{
}

} // verus!
