//! Verified core of a cmux sidebar that lists AI agents and notifications.

pub mod decode;
pub mod json;
pub mod model;
pub mod protocol;
pub mod seqs;
pub mod sidebar;
pub mod sort;
pub mod text;
pub mod ui;
