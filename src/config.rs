//! The decision of the `config` command.
use vstd::prelude::*;

verus! {

/// The options of the `config` command.
pub struct ConfigArgs {
    /// Run the interactive setup.
    pub setup: bool,
    /// Show the global configuration.
    pub global: bool,
    /// Show the default configuration.
    pub default: bool,
}

/// What the `config` command does.
#[derive(Clone, Copy, PartialEq, Eq, Structural, Debug)]
pub enum ConfigAction {
    Setup,
    DisplayGlobal,
    DisplayRegular,
}

/// Setup wins over everything; else the global configuration is shown when
/// asked for, and the regular one otherwise.
pub fn run(args: &ConfigArgs) -> (r: ConfigAction)
    ensures
        r == (if args.setup {
            ConfigAction::Setup
        } else if args.global {
            ConfigAction::DisplayGlobal
        } else {
            ConfigAction::DisplayRegular
        }),
{
    if args.setup {
        ConfigAction::Setup
    } else if args.global {
        ConfigAction::DisplayGlobal
    } else {
        ConfigAction::DisplayRegular
    }
}

} // verus!
