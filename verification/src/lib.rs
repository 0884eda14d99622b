//! Verified core of `ml4w-zh`, a tool that localizes the ML4W dotfiles into
//! Chinese: it replaces English texts of configuration files by their Chinese
//! counterparts, only in files that still equal the official sources, and
//! backs files up before changing them.
use vstd::prelude::*;

pub mod commands;
pub mod laws;
pub mod patch;
pub mod text;
pub mod util;
