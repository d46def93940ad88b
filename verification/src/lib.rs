//! On-device Italian dictation: the rules, plans and state machines behind it.
//!
//! - [`corrector`]: corrections that are right in every context.
//! - [`reformulation`]: rewriting a dictation with a model, without losing it.
//! - [`dictation`]: what every dictation goes through, and the hotkey.
//! - [`speech`] and [`audio`]: around capturing and transcribing.
//! - [`paste`]: the clipboard and the paste keystroke.
//! - [`store`]: what is kept of a dictation.
//! - [`models`]: which models there are, and how they are fetched.

pub mod audio;
pub mod clock;
pub mod corrector;
pub mod dictation;
pub mod ids;
pub mod models;
pub mod paste;
pub mod permissions;
pub mod reformulation;
pub mod speech;
pub mod store;
pub mod text;
