//! Authentication and authorization core for a small CRUD service:
//! password hashing, token issuance and validation, the bearer-token
//! middleware decision, and the duplicate-safe book insert protocol.
//!
//! Two verification strategies are supported: local, where a token's
//! signature and expiry are checked against the server secret
//! (`auth::authorize_local`), and delegated, where the token is opaque and
//! the data store's own authenticate operation decides, its error text
//! classified by `auth::classify_store_error`. The surrounding service
//! performs the I/O and hands plain values in; every decision is made and
//! proved here.

pub mod auth;
pub mod books;
pub mod bytes;
pub mod digest;
pub mod hex;
pub mod password;
pub mod token;
