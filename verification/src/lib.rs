use vstd::prelude::*;

pub mod cli;
pub mod crypto;
pub mod http;
pub mod json;
pub mod mail;
pub mod secrets;
pub mod server;
pub mod store;
pub mod text;
pub mod web;

verus! {
} // verus!
