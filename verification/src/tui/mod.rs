//! The terminal interface's logic: state, keys and what the views show.

pub mod protocol;
pub mod state;
pub mod keys;
pub mod view;
pub mod launch;
pub mod worker;
