//! Macaroon-authenticated vending of scoped, temporary credentials.

pub mod admin;
pub mod attest;
pub mod auth;
pub mod bytes;
pub mod caveat;
pub mod cli;
pub mod client;
pub mod config;
pub mod crypto;
pub mod http;
pub mod iam;
pub mod inventory;
pub mod issuance;
pub mod json;
pub mod keyring;
pub mod laws;
pub mod macaroon;
pub mod map;
pub mod mint_rw;
pub mod operator;
pub mod pop;
pub mod render;
pub mod reply;
pub mod role;
pub mod seal;
pub mod sealed_cache;
pub mod serve;
pub mod session;
pub mod template;
pub mod text;
pub mod time;
pub mod tpc;
pub mod transport;
