use nh::commands::{Build, Command};
use nh::installable::{Installable, InstallableError};
use nh::interface::{CommonRebuildArgs, DarwinArgs, DarwinRebuildArgs, DarwinReplArgs, DarwinSubcommand};
use nh::pattern::supported_branch;
use nh::rebuild::{toplevel_for, DarwinRebuildVariant, DarwinStep};

fn s(x: &str) -> String {
    x.to_string()
}

fn attrs(v: &[&str]) -> Vec<String> {
    v.iter().map(|x| x.to_string()).collect()
}

#[test]
fn command_argv() {
    let c = Command::new("nix").args(vec!["store", "gc"]).arg("--dry-run").message("collecting");
    assert_eq!(c.argv(), vec!["nix", "store", "gc", "--dry-run"]);
    assert_eq!(c.message.as_deref(), Some("collecting"));
    assert!(!c.dry);
    let c = c.elevate(true).dry(true);
    assert_eq!(c.argv(), vec!["sudo", "nix", "store", "gc", "--dry-run"]);
    assert!(c.dry);
}

#[test]
fn build_argv() {
    let inst = Installable::Flake { reference: s("."), attribute: attrs(&["a", "b.c"]) };
    let b = Build::new(inst).extra_arg("--impure").extra_args(vec![s("-L")]).message("Building");
    assert_eq!(b.argv(), vec!["nix", "build", r#".#a."b.c""#, "--impure", "-L"]);
    let b = b.nom(true);
    assert_eq!(
        b.argv(),
        vec!["nix", "build", r#".#a."b.c""#, "--log-format", "internal-json", "--verbose", "--impure", "-L"]
    );
}

#[test]
fn toplevel_of_each_installable() {
    let flake = Installable::Flake { reference: s("/etc/nixos"), attribute: vec![] };
    match toplevel_for("host", flake, s("toplevel")) {
        Installable::Flake { reference, attribute } => {
            assert_eq!(reference, "/etc/nixos");
            assert_eq!(
                attribute,
                vec!["nixosConfigurations", "host", "config", "system", "build", "toplevel"]
            );
        }
        _ => panic!("kind changed"),
    }
    let chosen = Installable::Flake { reference: s("."), attribute: attrs(&["mine"]) };
    match toplevel_for("host", chosen, s("vm")) {
        Installable::Flake { attribute, .. } => {
            assert_eq!(attribute, vec!["mine", "config", "system", "build", "vm"])
        }
        _ => panic!("kind changed"),
    }
    let file = Installable::File { path: s("./default.nix"), attribute: vec![] };
    match toplevel_for("host", file, s("toplevel")) {
        Installable::File { path, attribute } => {
            assert_eq!(path, "./default.nix");
            assert_eq!(attribute, vec!["config", "system", "build", "toplevel"]);
        }
        _ => panic!("kind changed"),
    }
    let store = Installable::Store { path: s("/nix/store/abc") };
    assert!(matches!(toplevel_for("host", store, s("toplevel")), Installable::Store { path } if path == "/nix/store/abc"));
}

#[test]
fn resolve_prefers_store_paths() {
    let r = Installable::resolve(
        Some(s("./result")),
        Some(s("/nix/store/abc-system")),
        Some(s("f.nix")),
        None,
        None,
        None,
        None,
    );
    assert!(matches!(r, Ok(Installable::Store { path }) if path == "/nix/store/abc-system"));
    let r = Installable::resolve(Some(s("x")), Some(s("/nix/storex")), None, None, None, None, None);
    assert!(matches!(r, Ok(Installable::Flake { reference, .. }) if reference == "x"));
}

#[test]
fn resolve_file_expression_and_flake() {
    match Installable::resolve(Some(s("a.b")), None, Some(s("f.nix")), None, None, None, None) {
        Ok(Installable::File { path, attribute }) => {
            assert_eq!(path, "f.nix");
            assert_eq!(attribute, vec!["a", "b"]);
        }
        _ => panic!("expected a file"),
    }
    match Installable::resolve(None, None, None, Some(s("import <nixpkgs> {}")), None, None, None) {
        Ok(Installable::Expression { expression, attribute }) => {
            assert_eq!(expression, "import <nixpkgs> {}");
            assert!(attribute.is_empty());
        }
        _ => panic!("expected an expression"),
    }
    match Installable::resolve(Some(s("github:o/r#pkgs.\"a.b\"#c")), None, None, None, None, None, None) {
        Ok(Installable::Flake { reference, attribute }) => {
            assert_eq!(reference, "github:o/r");
            assert_eq!(attribute, vec!["pkgs", "a.b#c"]);
        }
        _ => panic!("expected a flake"),
    }
    match Installable::resolve(Some(s(".")), None, None, None, None, None, None) {
        Ok(Installable::Flake { reference, attribute }) => {
            assert_eq!(reference, ".");
            assert!(attribute.is_empty());
        }
        _ => panic!("expected a flake"),
    }
}

#[test]
fn resolve_falls_back_on_environment() {
    match Installable::resolve(None, None, None, None, Some(s("/etc/nixos#x")), Some(s("f.nix")), None) {
        Ok(Installable::Flake { reference, attribute }) => {
            assert_eq!(reference, "/etc/nixos");
            assert_eq!(attribute, vec!["x"]);
        }
        _ => panic!("expected a flake"),
    }
    match Installable::resolve(None, None, None, None, None, Some(s("f.nix")), Some(s("p.q"))) {
        Ok(Installable::File { path, attribute }) => {
            assert_eq!(path, "f.nix");
            assert_eq!(attribute, vec!["p", "q"]);
        }
        _ => panic!("expected a file"),
    }
    assert!(matches!(
        Installable::resolve(None, None, None, None, None, None, None),
        Err(InstallableError::Missing)
    ));
    match Installable::resolve(Some(s("a.\"b")), None, Some(s("f.nix")), None, None, None, None) {
        Err(InstallableError::UnbalancedQuotes { attribute }) => assert_eq!(attribute, "a.\"b"),
        _ => panic!("expected an open quote"),
    }
}

fn common(dry: bool, ask: bool) -> CommonRebuildArgs {
    CommonRebuildArgs {
        dry,
        ask,
        installable: Installable::Flake { reference: s("."), attribute: vec![] },
        no_nom: false,
        out_link: None,
    }
}

#[test]
fn darwin_dispatch() {
    let build = DarwinArgs {
        subcommand: DarwinSubcommand::Build(DarwinRebuildArgs {
            common: common(true, false),
            hostname: None,
            extra_args: vec![],
        }),
    };
    assert!(
        build.run()
            == DarwinStep::Rebuild { variant: DarwinRebuildVariant::Build, flags_ignored: true }
    );
    let switch = DarwinArgs {
        subcommand: DarwinSubcommand::Switch(DarwinRebuildArgs {
            common: common(true, true),
            hostname: Some(s("mac")),
            extra_args: vec![],
        }),
    };
    assert!(
        switch.run()
            == DarwinStep::Rebuild { variant: DarwinRebuildVariant::Switch, flags_ignored: false }
    );
    let repl = DarwinArgs {
        subcommand: DarwinSubcommand::Repl(DarwinReplArgs {
            installable: Installable::Flake { reference: s("."), attribute: vec![] },
            hostname: None,
        }),
    };
    assert!(repl.run() == DarwinStep::Repl);
}

#[test]
fn test_supported_branch() {
    assert!(supported_branch("nixos-unstable"));
    assert!(!supported_branch("nixos-unstable-small"));
    assert!(supported_branch("nixos-24.05"));
    assert!(!supported_branch("24.05"));
    assert!(!supported_branch("nixpkgs-darwin"));
    assert!(!supported_branch("nixpks-21.11-darwin"));
}
