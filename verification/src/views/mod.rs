//! Views for the sonar project
//!
//! Views declare the business logic of the application. What stands here is
//! the part of it that decides; routing and the store stay with the caller.

/// Views which control user accounts
pub mod user_account;
