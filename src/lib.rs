//! Core of a self-hosted upload service: text helpers, session tokens,
//! a token-bucket rate limiter, the account and object collections,
//! upload accounting, byte-range decisions and the `.env` format.

pub mod text;
pub mod session;
pub mod rate;
pub mod error;
pub mod store;
pub mod accounts;
pub mod objects;
pub mod range;
pub mod web;
pub mod upload;
pub mod config;
