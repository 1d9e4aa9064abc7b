//! The commands of the `harbor-light` program and how a failure ends it.
use vstd::prelude::*;

use crate::providers::Provider;
use crate::status::LightState;

verus! {

/// A command of the `harbor-light` program.
#[derive(Debug)]
pub enum Command {
    /// Read one hook event from standard input and update its activity.
    Hook { provider: Provider },
    /// Print the legacy status record.
    Status,
    /// Write the legacy status record by hand.
    SetState { state: LightState },
    /// Install the app, merge the provider hooks and set up autostart.
    Install { dest: Option<String>, skip_launch: bool, skip_bundle: bool },
    /// Build the distributable app, optionally zipped.
    Package { out: String, zip: bool },
    /// Stop the app, remove autostart and remove Harbor Light's hooks.
    Uninstall { dest: Option<String> },
}

/// The parsed command line; no command runs the status window.
#[derive(Debug)]
pub struct Cli {
    pub command: Option<Command>,
}

/// The exit code after a failed command, given the first command-line
/// argument: a hook run ends quietly with 0 so that a monitoring failure
/// never blocks the coding agent; anything else ends with 1.
pub fn failure_exit_code(first_arg: Option<&str>) -> (r: i32)
    ensures
        r == (if first_arg matches Some(a) && a@ == "hook"@ {
            0i32
        } else {
            1i32
        }),
{
    match first_arg {
        Some(a) => if crate::text::str_equal(a, "hook") {
            0
        } else {
            1
        },
        None => 1,
    }
}

} // verus!
