//! The start screen: credits and the parameter editor.

pub mod credits;
pub mod param_edit;
