//! Eyers: the reading, navigation and annotation logic of a keyboard-driven PDF reader.

pub mod modes;
pub mod services;
pub mod text;
pub mod text_map;
pub mod widgets;
