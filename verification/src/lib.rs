//! Harbor Light: the state model behind a traffic-light status window for
//! AI coding agents.
use vstd::prelude::*;

pub mod activity;
pub mod cli;
pub mod display;
pub mod hook;
pub mod install;
pub mod install_laws;
pub mod json;
pub mod paths;
pub mod providers;
pub mod sessions;
pub mod status;
pub mod text;
pub mod time;

verus! {

} // verus!
