//! The state and the helpers behind the interactive task list.

pub mod simple_interface;
pub mod state;
