//! Daily sign-in helper for iamtxt.com accounts: account settings, the
//! per-account sign-in record, and the decisions taken around each request.

pub mod config;
pub mod day;
pub mod maps;
pub mod status;
pub mod text;
pub mod bot;
pub mod botdir;
