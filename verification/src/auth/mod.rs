//! Authentication features.

/// Hexadecimal text
pub mod hex;

/// A model of the store, and what token flows achieve against it
pub mod model;

/// Secure password handling
pub mod pw;

/// Random text from the operating system
pub mod random;

/// Requests to, and replies from, the credential store
pub mod store;

/// Session tokens: issuing, replacing and resolving them
pub mod token;
