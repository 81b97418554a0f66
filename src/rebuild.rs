//! Decisions of the rebuild commands.

use vstd::prelude::*;

use crate::installable::{string_views, Installable};
use crate::interface::{DarwinArgs, DarwinSubcommand};

verus! {

/// The REPL to open.
pub enum ReplVariant {
    OsRepl,
    HomeRepl,
}

/// The attribute of a NixOS configuration to build: a VM (with or without
/// a boot loader) or the system itself.
pub fn get_final_attr(build_vm: bool, with_bootloader: bool) -> (r: String)
    ensures
        r@ == (if build_vm && with_bootloader {
            "vmWithBootLoader"@
        } else if build_vm {
            "vm"@
        } else {
            "toplevel"@
        }),
{
    if build_vm && with_bootloader {
        String::from_str("vmWithBootLoader")
    } else if build_vm {
        String::from_str("vm")
    } else {
        String::from_str("toplevel")
    }
}

/// The attribute path below a configuration that builds `final_attr`.
pub open spec fn toplevel_path(final_attr: Seq<char>) -> Seq<Seq<char>> {
    seq!["config"@, "system"@, "build"@, final_attr]
}

/// The attribute path that `toplevel_for` gives an installable whose path
/// was `attribute`: a flake with no path of its own gets the host's
/// configuration first.
pub open spec fn toplevel_attribute(
    flake: bool,
    hostname: Seq<char>,
    attribute: Seq<Seq<char>>,
    final_attr: Seq<char>,
) -> Seq<Seq<char>> {
    if flake && attribute.len() == 0 {
        seq!["nixosConfigurations"@, hostname] + toplevel_path(final_attr)
    } else {
        attribute + toplevel_path(final_attr)
    }
}

fn push_toplevel(attribute: &mut Vec<String>, final_attr: &String)
    ensures
        string_views(final(attribute)@) == string_views(old(attribute)@) + toplevel_path(final_attr@),
{
    let ghost start = string_views(attribute@);
    attribute.push(String::from_str("config"));
    attribute.push(String::from_str("system"));
    attribute.push(String::from_str("build"));
    attribute.push(final_attr.clone());
    assert(string_views(attribute@) =~= start + toplevel_path(final_attr@));
}

/// The installable that builds attribute `final_attr` of the NixOS
/// configuration of `hostname` named by `installable`. A store path is
/// returned as it is.
pub fn toplevel_for(hostname: &str, installable: Installable, final_attr: String) -> (r: Installable)
    ensures
        match (installable, r) {
            (
                Installable::Flake { reference: a, attribute: x },
                Installable::Flake { reference: b, attribute: y },
            ) => a == b && string_views(y@) == toplevel_attribute(
                true,
                hostname@,
                string_views(x@),
                final_attr@,
            ),
            (
                Installable::File { path: a, attribute: x },
                Installable::File { path: b, attribute: y },
            ) => a == b && string_views(y@) == toplevel_attribute(
                false,
                hostname@,
                string_views(x@),
                final_attr@,
            ),
            (
                Installable::Expression { expression: a, attribute: x },
                Installable::Expression { expression: b, attribute: y },
            ) => a == b && string_views(y@) == toplevel_attribute(
                false,
                hostname@,
                string_views(x@),
                final_attr@,
            ),
            (Installable::Store { path: a }, Installable::Store { path: b }) => a == b,
            _ => false,
        },
{
    match installable {
        Installable::Flake { reference, attribute } => {
            let mut attribute = attribute;
            let ghost start = string_views(attribute@);
            if attribute.len() == 0 {
                attribute.push(String::from_str("nixosConfigurations"));
                attribute.push(hostname.to_owned());
                assert(string_views(attribute@) =~= seq!["nixosConfigurations"@, hostname@]);
            }
            push_toplevel(&mut attribute, &final_attr);
            Installable::Flake { reference, attribute }
        },
        Installable::File { path, attribute } => {
            let mut attribute = attribute;
            push_toplevel(&mut attribute, &final_attr);
            Installable::File { path, attribute }
        },
        Installable::Expression { expression, attribute } => {
            let mut attribute = attribute;
            push_toplevel(&mut attribute, &final_attr);
            Installable::Expression { expression, attribute }
        },
        Installable::Store { path } => Installable::Store { path },
    }
}

/// How a nix-darwin configuration is rebuilt.
#[derive(PartialEq, Eq, Structural, Clone, Copy)]
pub enum DarwinRebuildVariant {
    Switch,
    Build,
}

/// What a nix-darwin command does.
#[derive(PartialEq, Eq, Structural, Clone, Copy)]
pub enum DarwinStep {
    /// Rebuild; `flags_ignored` where `--ask` or `--dry` were given to a
    /// plain build, on which they have no effect.
    Rebuild { variant: DarwinRebuildVariant, flags_ignored: bool },
    /// Open a REPL.
    Repl,
}

impl DarwinArgs {
    /// Decides what the nix-darwin command does.
    pub fn run(&self) -> (r: DarwinStep)
        ensures
            r == (match self.subcommand {
                DarwinSubcommand::Switch(_) => DarwinStep::Rebuild {
                    variant: DarwinRebuildVariant::Switch,
                    flags_ignored: false,
                },
                DarwinSubcommand::Build(a) => DarwinStep::Rebuild {
                    variant: DarwinRebuildVariant::Build,
                    flags_ignored: a.common.ask || a.common.dry,
                },
                DarwinSubcommand::Repl(_) => DarwinStep::Repl,
            }),
    {
        match &self.subcommand {
            DarwinSubcommand::Switch(_) => DarwinStep::Rebuild {
                variant: DarwinRebuildVariant::Switch,
                flags_ignored: false,
            },
            DarwinSubcommand::Build(a) => DarwinStep::Rebuild {
                variant: DarwinRebuildVariant::Build,
                flags_ignored: a.common.ask || a.common.dry,
            },
            DarwinSubcommand::Repl(_) => DarwinStep::Repl,
        }
    }
}

/// What updating an installable's inputs does.
pub enum UpdateStep {
    /// Run `command`, announcing it with `message`.
    Run { command: Vec<String>, message: String },
    /// Only flakes can be updated.
    Unsupported,
}

/// Decides how to update the inputs of `installable`: for a flake, every
/// input, or only `input` where given; nothing for another kind.
pub fn update(installable: &Installable, input: Option<String>) -> (r: UpdateStep)
    ensures
        match installable {
            Installable::Flake { reference, .. } => match input {
                Some(i) => r matches UpdateStep::Run { command, message } && string_views(command@)
                    == seq!["nix"@, "flake"@, "update"@, i@, "--flake"@, reference@] && message@
                    == "Updating flake input "@ + i@,
                None => r matches UpdateStep::Run { command, message } && string_views(command@)
                    == seq!["nix"@, "flake"@, "update"@, "--flake"@, reference@] && message@
                    == "Updating all flake inputs"@,
            },
            _ => r is Unsupported,
        },
{
    match installable {
        Installable::Flake { reference, .. } => {
            let mut command: Vec<String> = Vec::new();
            command.push(String::from_str("nix"));
            command.push(String::from_str("flake"));
            command.push(String::from_str("update"));
            let message;
            match input {
                Some(i) => {
                    let mut m = String::from_str("Updating flake input ");
                    m.append(i.as_str());
                    message = m;
                    command.push(i);
                },
                None => {
                    message = String::from_str("Updating all flake inputs");
                },
            }
            command.push(String::from_str("--flake"));
            command.push(reference.clone());
            assert(string_views(command@) =~= (match input {
                Some(i) => seq!["nix"@, "flake"@, "update"@, i@, "--flake"@, reference@],
                None => seq!["nix"@, "flake"@, "update"@, "--flake"@, reference@],
            }));
            UpdateStep::Run { command, message }
        },
        _ => UpdateStep::Unsupported,
    }
}

} // verus!
