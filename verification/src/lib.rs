//! Core of a hotkey daemon: a parser for the `whkdrc` configuration grammar,
//! a normalizer that turns parsed bindings into canonical hotkey descriptors,
//! and a mode state machine that decides which descriptors are registered
//! with the operating system at any time.

pub mod mode;
pub mod normalize;
pub mod parser;
pub mod scan;
pub mod whkdrc;
