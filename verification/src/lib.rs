//! Etopa: time-based one-time passwords, encrypted secret storage and the
//! account bookkeeping of the Etopa API server, with machine-checked contracts.

pub mod android;
pub mod api;
pub mod config;
pub mod crypto;
pub mod data;
pub mod error;
pub mod hex;
pub mod json_api;
pub mod logins;
pub mod map;
pub mod security;
pub mod text;
pub mod totp;
pub mod url;
pub mod utils;
pub mod web;
