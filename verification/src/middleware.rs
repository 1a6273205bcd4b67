//! Services that stand in front of the filesystem.

pub mod root;
