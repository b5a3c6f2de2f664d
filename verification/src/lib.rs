//! Rendering of the message that is shown when a shell command is blocked.
pub mod text;
pub mod wrap;
pub mod theme;
pub mod highlight;
pub mod pattern;
pub mod denial;
