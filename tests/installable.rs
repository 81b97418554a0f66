use nh::installable::{join_attribute, parse_attribute, attribute_quotes_balanced, Installable};
use nh::rebuild::{get_final_attr, update, UpdateStep};

#[test]
fn test_parse_attribute() {
    assert_eq!(parse_attribute(r#"foo.bar"#), vec!["foo", "bar"]);
    assert_eq!(parse_attribute(r#"foo."bar.baz""#), vec!["foo", "bar.baz"]);
    let v: Vec<String> = vec![];
    assert_eq!(parse_attribute(""), v)
}

#[test]
fn test_installable_to_args() {
    assert_eq!(
        (Installable::Flake {
            reference: String::from("w"),
            attribute: ["x", "y.z"].into_iter().map(str::to_string).collect()
        })
        .to_args(),
        vec![r#"w#x."y.z""#]
    );

    assert_eq!(
        (Installable::File {
            path: String::from("w"),
            attribute: ["x", "y.z"].into_iter().map(str::to_string).collect()
        })
        .to_args(),
        vec!["--file", "w", r#"x."y.z""#]
    );
}

#[test]
fn test_join_attribute() {
    assert_eq!(join_attribute(vec!["foo", "bar"]), "foo.bar");
    assert_eq!(join_attribute(vec!["foo", "bar.baz"]), r#"foo."bar.baz""#);
}

#[test]
fn parse_then_join_keeps_the_path() {
    let parts = parse_attribute(r#"a."b.c".d"#);
    assert_eq!(parts, vec!["a", "b.c", "d"]);
    let refs: Vec<&str> = parts.iter().map(|s| s.as_str()).collect();
    assert_eq!(join_attribute(refs), r#"a."b.c".d"#);
}

#[test]
fn unbalanced_quotes_detected() {
    assert!(attribute_quotes_balanced(r#"foo."bar""#));
    assert!(!attribute_quotes_balanced(r#"foo."bar"#));
    assert!(attribute_quotes_balanced(""));
}

#[test]
fn other_installables_to_args() {
    let e = Installable::Expression {
        expression: String::from("import ./x.nix"),
        attribute: vec![String::from("a")],
    };
    assert_eq!(e.to_args(), vec!["--expr", "import ./x.nix", "a"]);
    let s = Installable::Store { path: String::from("/nix/store/abc-hello") };
    assert_eq!(s.to_args(), vec!["/nix/store/abc-hello"]);
    let f = Installable::Flake { reference: String::from("."), attribute: vec![] };
    assert_eq!(f.to_args(), vec![".#"]);
}

#[test]
fn installable_kinds() {
    let f = Installable::Flake { reference: String::from("."), attribute: vec![] };
    assert_eq!(f.str_kind(), "flake");
    let s = Installable::Store { path: String::from("/nix/store/x") };
    assert_eq!(s.str_kind(), "store path");
    let e = Installable::Expression { expression: String::new(), attribute: vec![] };
    assert_eq!(e.str_kind(), "expression");
    let p = Installable::File { path: String::new(), attribute: vec![] };
    assert_eq!(p.str_kind(), "file");
}

#[test]
fn final_attribute() {
    assert_eq!(get_final_attr(true, true), "vmWithBootLoader");
    assert_eq!(get_final_attr(true, false), "vm");
    assert_eq!(get_final_attr(false, true), "toplevel");
    assert_eq!(get_final_attr(false, false), "toplevel");
}

#[test]
fn update_flake_inputs() {
    let f = Installable::Flake { reference: String::from("/etc/nixos"), attribute: vec![] };
    match update(&f, Some(String::from("nixpkgs"))) {
        UpdateStep::Run { command, message } => {
            assert_eq!(command, vec!["nix", "flake", "update", "nixpkgs", "--flake", "/etc/nixos"]);
            assert_eq!(message, "Updating flake input nixpkgs");
        }
        UpdateStep::Unsupported => panic!("a flake can be updated"),
    }
    match update(&f, None) {
        UpdateStep::Run { command, message } => {
            assert_eq!(command, vec!["nix", "flake", "update", "--flake", "/etc/nixos"]);
            assert_eq!(message, "Updating all flake inputs");
        }
        UpdateStep::Unsupported => panic!("a flake can be updated"),
    }
    let s = Installable::Store { path: String::from("/nix/store/x") };
    assert!(matches!(update(&s, None), UpdateStep::Unsupported));
}
