//! The options of the commands, as plain values.

use vstd::prelude::*;

use crate::installable::Installable;

verus! {

/// Options shared by the cleaning modes.
pub struct CleanArgs {
    /// At least keep this number of generations.
    pub keep: u32,
    /// At least keep GC roots and generations this recent, in nanoseconds.
    pub keep_since: u128,
    /// Only print actions, without performing them.
    pub dry: bool,
    /// Ask for confirmation.
    pub ask: bool,
    /// Do not run the store's garbage collector.
    pub nogc: bool,
    /// Do not clean GC roots.
    pub nogcroots: bool,
}

/// Options for cleaning one profile.
pub struct CleanProfileArgs {
    pub common: CleanArgs,
    /// Which profile to clean.
    pub profile: String,
}

/// What to clean.
pub enum CleanMode {
    /// Every profile of the system.
    All(CleanArgs),
    /// The current user's profiles.
    User(CleanArgs),
    /// One given profile.
    Profile(CleanProfileArgs),
}

/// Holder of the cleaning mode.
pub struct CleanProxy {
    pub command: CleanMode,
}

impl CleanMode {
    pub open spec fn args_spec(&self) -> CleanArgs {
        match self {
            CleanMode::All(a) => *a,
            CleanMode::User(a) => *a,
            CleanMode::Profile(p) => p.common,
        }
    }

    /// The options shared by every mode.
    pub fn args(&self) -> (r: &CleanArgs)
        ensures
            *r == self.args_spec(),
    {
        match self {
            CleanMode::All(a) => a,
            CleanMode::User(a) => a,
            CleanMode::Profile(p) => &p.common,
        }
    }
}

/// NixOS functionality.
pub struct OsArgs {
    pub subcommand: OsSubcommand,
}

pub enum OsSubcommand {
    /// Build and activate the new configuration, and make it the boot default.
    Switch(OsRebuildArgs),
    /// Build the new configuration and make it the boot default.
    Boot(OsRebuildArgs),
    /// Build and activate the new configuration.
    Test(OsRebuildArgs),
    /// Build the new configuration.
    Build(OsRebuildArgs),
    /// Load the system in a REPL.
    Repl(OsReplArgs),
}

pub struct OsRebuildArgs {
    pub common: CommonRebuildArgs,
    /// With a flake installable, select this hostname from nixosConfigurations.
    pub hostname: Option<String>,
    /// Select this specialisation.
    pub specialisation: Option<String>,
    /// Ignore specialisations.
    pub no_specialisation: bool,
    /// Extra arguments passed to nix build.
    pub extra_args: Vec<String>,
    /// Do not refuse to run as root.
    pub bypass_root_check: bool,
}

pub struct CommonRebuildArgs {
    /// Only print actions, without performing them.
    pub dry: bool,
    /// Ask for confirmation.
    pub ask: bool,
    pub installable: Installable,
    /// Do not use nix-output-monitor for the build.
    pub no_nom: bool,
    /// Path to save the result link at, a temporary directory otherwise.
    pub out_link: Option<String>,
}

pub struct OsReplArgs {
    pub installable: Installable,
    /// With a flake installable, select this hostname from nixosConfigurations.
    pub hostname: Option<String>,
}

/// Searching packages.
pub struct SearchArgs {
    /// Number of results to show.
    pub limit: u64,
    /// Channel to query.
    pub channel: String,
    /// Name of the package to search.
    pub query: String,
}

pub enum SearchNixpkgsFrom {
    Flake,
    Path,
}

/// Home-manager functionality.
pub struct HomeArgs {
    pub subcommand: HomeSubcommand,
}

pub enum HomeSubcommand {
    /// Build and activate a home-manager configuration.
    Switch(HomeRebuildArgs),
    /// Build a home-manager configuration.
    Build(HomeRebuildArgs),
}

pub struct HomeRebuildArgs {
    pub common: CommonRebuildArgs,
    /// Name of the homeConfigurations attribute, like `username@hostname`.
    pub configuration: Option<String>,
    /// Extra arguments passed to nix build.
    pub extra_args: Vec<String>,
    /// Move existing files aside with this extension.
    pub backup_extension: Option<String>,
}

/// Nix-darwin functionality.
pub struct DarwinArgs {
    pub subcommand: DarwinSubcommand,
}

pub enum DarwinSubcommand {
    /// Build and activate a nix-darwin configuration.
    Switch(DarwinRebuildArgs),
    /// Build a nix-darwin configuration.
    Build(DarwinRebuildArgs),
    /// Load a nix-darwin configuration in a REPL.
    Repl(DarwinReplArgs),
}

pub struct DarwinRebuildArgs {
    pub common: CommonRebuildArgs,
    /// With a flake installable, select this hostname from darwinConfigurations.
    pub hostname: Option<String>,
    /// Extra arguments passed to nix build.
    pub extra_args: Vec<String>,
}

pub struct DarwinReplArgs {
    pub installable: Installable,
    /// With a flake installable, select this hostname from darwinConfigurations.
    pub hostname: Option<String>,
}

} // verus!
