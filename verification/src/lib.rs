//! Static analysis of Windows game installations: PE metadata, import
//! tables, Valve `KeyValues` documents and the judgements drawn from them.

use vstd::prelude::*;

pub mod analysis;
pub mod evidence;
pub mod file_path;
pub mod game;
pub mod heroic;
pub mod inspect;
pub mod install;
pub mod launcher;
pub mod nvapi;
pub mod order;
pub mod paths;
pub mod pe;
pub mod proton;
pub mod steam;
pub mod text;
pub mod vdf;
