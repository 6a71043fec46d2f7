//! The narrow persistence surface that token handling depends on.
//!
//! The authentication core never talks to a database. It names the one store
//! operation it needs next as a [`StoreRequest`]; whoever owns the connection
//! performs it and hands back a [`StoreReply`].
use vstd::prelude::*;
use crate::models::{Token, TokenView, User, UserView};

verus! {

/// One operation of the credential store.
#[derive(Clone, Debug, PartialEq, Eq)]
pub enum StoreRequest {
    /// Is there a token with exactly this key, whoever owns it?
    KeyExists { key: String },
    /// Delete every token of this user. Deleting none is a success.
    DeleteTokens { user_id: i32 },
    /// Insert a token row for this user.
    InsertToken { user_id: i32, key: String, issued_at: i64 },
    /// Fetch the token with exactly this key.
    FindToken { key: String },
    /// Fetch the user with this id.
    FindUser { id: i32 },
}

/// Mathematical value of a [`StoreRequest`].
pub enum StoreRequestView {
    KeyExists { key: Seq<char> },
    DeleteTokens { user_id: i32 },
    InsertToken { user_id: i32, key: Seq<char>, issued_at: i64 },
    FindToken { key: Seq<char> },
    FindUser { id: i32 },
}

impl View for StoreRequest {
    type V = StoreRequestView;

    open spec fn view(&self) -> StoreRequestView {
        match self {
            StoreRequest::KeyExists { key } => StoreRequestView::KeyExists { key: key@ },
            StoreRequest::DeleteTokens { user_id } => StoreRequestView::DeleteTokens {
                user_id: *user_id,
            },
            StoreRequest::InsertToken { user_id, key, issued_at } => StoreRequestView::InsertToken {
                user_id: *user_id,
                key: key@,
                issued_at: *issued_at,
            },
            StoreRequest::FindToken { key } => StoreRequestView::FindToken { key: key@ },
            StoreRequest::FindUser { id } => StoreRequestView::FindUser { id: *id },
        }
    }
}

/// What the store answered.
#[derive(Clone, Debug, PartialEq, Eq)]
pub enum StoreReply {
    /// Answer to [`StoreRequest::KeyExists`].
    KeyExists(bool),
    /// [`StoreRequest::DeleteTokens`] went through.
    TokensDeleted,
    /// [`StoreRequest::InsertToken`] went through.
    TokenInserted,
    /// Answer to [`StoreRequest::FindToken`]: the row, or `None` if no token has the key.
    Token(Option<Token>),
    /// Answer to [`StoreRequest::FindUser`]: the row, or `None` if no user has the id.
    User(Option<User>),
    /// The store was reached, and the operation failed.
    Failed,
    /// No connection to the store could be had.
    Unreachable,
}

/// Mathematical value of a [`StoreReply`].
pub enum StoreReplyView {
    KeyExists(bool),
    TokensDeleted,
    TokenInserted,
    Token(Option<TokenView>),
    User(Option<UserView>),
    Failed,
    Unreachable,
}

impl View for StoreReply {
    type V = StoreReplyView;

    open spec fn view(&self) -> StoreReplyView {
        match self {
            StoreReply::KeyExists(exists) => StoreReplyView::KeyExists(*exists),
            StoreReply::TokensDeleted => StoreReplyView::TokensDeleted,
            StoreReply::TokenInserted => StoreReplyView::TokenInserted,
            StoreReply::Token(Some(token)) => StoreReplyView::Token(Some(token@)),
            StoreReply::Token(None) => StoreReplyView::Token(None),
            StoreReply::User(Some(user)) => StoreReplyView::User(Some(user@)),
            StoreReply::User(None) => StoreReplyView::User(None),
            StoreReply::Failed => StoreReplyView::Failed,
            StoreReply::Unreachable => StoreReplyView::Unreachable,
        }
    }
}

} // verus!
