//! The state behind the selection view.

pub mod hierarchy;
pub mod order;
pub mod search;
pub mod state;
pub mod tree;

pub use crate::gui::state::AppState;
pub use crate::gui::tree::InternalNode;
