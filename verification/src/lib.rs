//! Compact Launcher: the logic of a COSMIC panel applet that shows the
//! installed applications as a grid of icons.
//!
//! `desktop` reads .desktop files, `glob` decides which applications the user
//! has hidden, `catalog` builds the sorted application list, `dirs` says
//! where the files are and fingerprints those directories, `model` is the
//! applet's state and its reaction to each message, and `laws` and
//! `filter_laws` state what holds across these functions.

use vstd::prelude::*;

pub mod catalog;
pub mod config;
pub mod desktop;
pub mod dirs;
pub mod entry_laws;
pub mod filter_laws;
pub mod glob;
pub mod laws;
pub mod model;
pub mod text;

pub use config::Config;
pub use desktop::AppEntry;
pub use model::{AppModel, Message, PopupView};

verus! {

} // verus!
