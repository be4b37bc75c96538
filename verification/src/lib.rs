//! Core logic of a keyboard-driven Wayland application launcher: query
//! routing and ranking, frecency bookkeeping, and the text handling of the
//! built-in plugins (web search, calculator, system commands, applications,
//! clipboard history, window switching, translation) and of the theme.
pub mod text;
pub mod plugin;
pub mod web;
pub mod frecency;
pub mod router;
pub mod calculator;
pub mod system;
pub mod fuzzy;
pub mod applications;
pub mod clipboard;
pub mod window_switcher;
pub mod translator;
pub mod config;
pub mod color_picker;
pub mod ui;

use vstd::prelude::*;

verus! {
} // verus!
