//! Archive access and hierarchical selection for Bethesda game archives.

pub mod archive;
pub mod gui;
pub mod text;
