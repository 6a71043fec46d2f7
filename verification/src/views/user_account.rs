//! Views which control user accounts.
use vstd::prelude::*;
use crate::auth::pw::{byte_len, encoded_as, is_hashable_password, SALT_LENGTH};
use crate::auth::random::is_alphanumeric_text;
use crate::models::NewUser;

verus! {

/// The shortest password that is accepted at registration, in bytes.
pub const MIN_PASSWORD_BYTES: usize = 16;

/// What a client sends to register a user.
#[derive(Debug)]
pub struct UserData {
    pub username: String,
    pub password: String,
    pub real_name: Option<String>,
    pub blurb: Option<String>,
}

/// Why a registration did not go through.
#[derive(Clone, Copy, Debug, PartialEq, Eq, Structural)]
pub enum RegistrationError {
    /// Another user has the name already. A client error.
    UsernameTaken,
    /// The password has fewer than [`MIN_PASSWORD_BYTES`] bytes. A client error.
    PasswordTooShort,
    /// The operating system's random source could not be opened. A server error.
    EntropyUnavailable,
}

impl RegistrationError {
    /// The HTTP status that reports this error.
    pub open spec fn status_of(self) -> u16 {
        match self {
            RegistrationError::EntropyUnavailable => 500,
            _ => 400,
        }
    }

    /// The text that reports this error.
    pub open spec fn message_of(self) -> Seq<char> {
        match self {
            RegistrationError::UsernameTaken => "Username already in use; pick another"@,
            RegistrationError::PasswordTooShort => "Password too short"@,
            RegistrationError::EntropyUnavailable => "Failed to access OS RNG"@,
        }
    }

    /// The HTTP status that reports this error: 400 for what the client can
    /// mend, 500 otherwise.
    pub fn status(&self) -> (code: u16)
        ensures
            code == self.status_of(),
    {
        match self {
            RegistrationError::EntropyUnavailable => 500,
            _ => 400,
        }
    }

    /// The text that reports this error.
    pub fn message(&self) -> (text: &'static str)
        ensures
            text@ == self.message_of(),
    {
        match self {
            RegistrationError::UsernameTaken => "Username already in use; pick another",
            RegistrationError::PasswordTooShort => "Password too short",
            RegistrationError::EntropyUnavailable => "Failed to access OS RNG",
        }
    }
}

/// Whether a registration with this password is valid, when
/// `username_taken` says whether the store has the user name already. A
/// name that is taken is reported before a password that is too short.
pub open spec fn checked(password: Seq<char>, username_taken: bool) -> Result<
    (),
    RegistrationError,
> {
    if username_taken {
        Err(RegistrationError::UsernameTaken)
    } else if byte_len(password) < MIN_PASSWORD_BYTES {
        Err(RegistrationError::PasswordTooShort)
    } else {
        Ok(())
    }
}

impl UserData {
    /// Check whether the given user data is valid, given whether the store
    /// has a user of that name already.
    pub fn validate(&self, username_already_exists: bool) -> (verdict: Result<
        (),
        RegistrationError,
    >)
        ensures
            verdict == checked(self.password@, username_already_exists),
    {
        if username_already_exists {
            return Err(RegistrationError::UsernameTaken);
        }
        if self.password.as_str().as_bytes().len() < MIN_PASSWORD_BYTES {
            return Err(RegistrationError::PasswordTooShort);
        }
        Ok(())
    }

    /// Turns valid user data into the record to insert: the password is
    /// salted and hashed, a missing real name or blurb becomes empty text.
    ///
    /// Invalid data is refused as [`Self::validate`] says. Valid data fails
    /// only if the operating system's random source cannot be opened.
    pub fn into_user(self, username_already_exists: bool) -> (made: Result<
        NewUser,
        RegistrationError,
    >)
        requires
            is_hashable_password(self.password@),
        ensures
            match made {
                Ok(user) => {
                    &&& checked(self.password@, username_already_exists) is Ok
                    &&& user@.username == self.username@
                    &&& user@.real_name == match self.real_name {
                        Some(name) => name@,
                        None => Seq::empty(),
                    }
                    &&& user@.blurb == match self.blurb {
                        Some(blurb) => blurb@,
                        None => Seq::empty(),
                    }
                    &&& exists|salt: Seq<char>|
                        is_alphanumeric_text(salt, SALT_LENGTH as nat) && user@.password == (
                        #[trigger] encoded_as(self.password@, salt)).serialized()
                },
                Err(RegistrationError::EntropyUnavailable) => checked(
                    self.password@,
                    username_already_exists,
                ) is Ok,
                Err(refusal) => checked(self.password@, username_already_exists) == Err::<
                    (),
                    RegistrationError,
                >(refusal),
            },
    {
        match self.validate(username_already_exists) {
            Err(refusal) => Err(refusal),
            Ok(()) => {
                let real_name = match self.real_name {
                    Some(name) => name,
                    None => String::new(),
                };
                let blurb = match self.blurb {
                    Some(blurb) => blurb,
                    None => String::new(),
                };
                match NewUser::new(self.username, self.password, real_name, blurb) {
                    Some(user) => Ok(user),
                    None => Err(RegistrationError::EntropyUnavailable),
                }
            },
        }
    }
}

} // verus!
