//! What the operations of the library are for, as relations between what goes in and what
//! comes out.

pub mod catalog;
pub mod client;
pub mod flags;
pub mod listing;
pub mod reply;
pub mod rows;
pub mod search;
pub mod text;
pub mod turn;
pub mod views;
