//! A verified core for driving the Aside command-line client.

pub mod accounts;
pub mod args;
pub mod catalog;
pub mod completion;
pub mod discovery;
pub mod harness;
pub mod json;
pub mod laws;
pub mod models;
pub mod paths;
pub mod protocol;
pub mod session;
pub mod text;
pub mod turns;
