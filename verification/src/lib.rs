//! Credential and session authentication core of the sonar backend.
//!
//! Passwords are stored salted and hashed ([`auth::pw`]); sessions are bearer
//! tokens issued and resolved against a credential store ([`auth::token`]).
//! The store itself lives outside this crate: the token logic is a state
//! machine that names the store operation it needs next and decides on the
//! reply it is handed.
pub mod models;
pub mod auth;
pub mod views;
