//! Records that the authentication core reads from, or hands to, the store.
use vstd::prelude::*;
use crate::auth::pw::{encoded_as, is_hashable_password, SaltyPassword, SALT_LENGTH};
use crate::auth::random::is_alphanumeric_text;

verus! {

/// A registered user, as the store holds it.
#[derive(Clone, Debug, PartialEq, Eq)]
pub struct User {
    pub id: i32,
    pub username: String,
    /// The serialized salted password, never the plaintext.
    pub password: String,
    pub real_name: String,
    pub blurb: String,
}

/// Mathematical value of a [`User`].
pub struct UserView {
    pub id: i32,
    pub username: Seq<char>,
    pub password: Seq<char>,
    pub real_name: Seq<char>,
    pub blurb: Seq<char>,
}

impl View for User {
    type V = UserView;

    open spec fn view(&self) -> UserView {
        UserView {
            id: self.id,
            username: self.username@,
            password: self.password@,
            real_name: self.real_name@,
            blurb: self.blurb@,
        }
    }
}

/// A session token row, as the store holds it.
#[derive(Clone, Debug, PartialEq, Eq)]
pub struct Token {
    /// Assigned by the store.
    pub id: i32,
    /// The user that owns the token.
    pub user_id: i32,
    /// When the token was issued, in seconds since the Unix epoch.
    pub timestamp: i64,
    pub key: String,
}

/// Mathematical value of a [`Token`].
pub struct TokenView {
    pub id: i32,
    pub user_id: i32,
    pub timestamp: i64,
    pub key: Seq<char>,
}

impl View for Token {
    type V = TokenView;

    open spec fn view(&self) -> TokenView {
        TokenView { id: self.id, user_id: self.user_id, timestamp: self.timestamp, key: self.key@ }
    }
}

/// A user that is about to be registered: what the store needs to insert it.
#[derive(Debug)]
pub struct NewUser {
    username: String,
    password: String,
    real_name: String,
    blurb: String,
}

/// Mathematical value of a [`NewUser`].
pub struct NewUserView {
    pub username: Seq<char>,
    /// The serialized salted password.
    pub password: Seq<char>,
    pub real_name: Seq<char>,
    pub blurb: Seq<char>,
}

impl View for NewUser {
    type V = NewUserView;

    closed spec fn view(&self) -> NewUserView {
        NewUserView {
            username: self.username@,
            password: self.password@,
            real_name: self.real_name@,
            blurb: self.blurb@,
        }
    }
}

impl NewUser {
    /// The registration of `username` with a password that is already salted
    /// and hashed. The record holds the password's serialized form.
    pub fn with_password(
        username: String,
        password: &SaltyPassword,
        real_name: String,
        blurb: String,
    ) -> (made: NewUser)
        ensures
            made@ == (NewUserView {
                username: username@,
                password: password@.serialized(),
                real_name: real_name@,
                blurb: blurb@,
            }),
    {
        NewUser { username, password: password.to_string(), real_name, blurb }
    }

    /// The registration of `username` with the plaintext `password`, which is
    /// salted with a fresh salt and hashed; the plaintext is not kept.
    ///
    /// `None` only if the operating system's random source cannot be opened.
    /// Whatever salt is drawn, the record's password is the serialized form of
    /// `password` encoded with that salt.
    pub fn new(username: String, password: String, real_name: String, blurb: String) -> (made:
        Option<NewUser>)
        requires
            is_hashable_password(password@),
        ensures
            made matches Some(user) ==> {
                &&& user@.username == username@
                &&& user@.real_name == real_name@
                &&& user@.blurb == blurb@
                &&& exists|salt: Seq<char>|
                    is_alphanumeric_text(salt, SALT_LENGTH as nat) && user@.password == (
                    #[trigger] encoded_as(password@, salt)).serialized()
            },
    {
        let salted = SaltyPassword::new(password.as_str());
        let made = Self::with_salted(username, salted, real_name, blurb);
        proof {
            if made is Some {
                assert(made->0@.password == encoded_as(password@, salted->0@.salt).serialized());
            }
        }
        made
    }

    /// The registration of `username` with the salted password that was made,
    /// if one was: a record comes out exactly if a password went in. This is
    /// what [`Self::new`] makes of either outcome of salting, which no input
    /// decides.
    pub fn with_salted(
        username: String,
        salted: Option<SaltyPassword>,
        real_name: String,
        blurb: String,
    ) -> (made: Option<NewUser>)
        ensures
            match (salted, made) {
                (Some(password), Some(user)) => user@ == (NewUserView {
                    username: username@,
                    password: password@.serialized(),
                    real_name: real_name@,
                    blurb: blurb@,
                }),
                (None, None) => true,
                _ => false,
            },
    {
        match salted {
            Some(password) => Some(Self::with_password(username, &password, real_name, blurb)),
            None => None,
        }
    }

    /// The name to register.
    pub fn username(&self) -> (text: &str)
        ensures
            text@ == self@.username,
    {
        self.username.as_str()
    }

    /// The serialized salted password.
    pub fn password(&self) -> (text: &str)
        ensures
            text@ == self@.password,
    {
        self.password.as_str()
    }

    /// The user's real name.
    pub fn real_name(&self) -> (text: &str)
        ensures
            text@ == self@.real_name,
    {
        self.real_name.as_str()
    }

    /// The user's description of themself.
    pub fn blurb(&self) -> (text: &str)
        ensures
            text@ == self@.blurb,
    {
        self.blurb.as_str()
    }
}

} // verus!
