use nh::error::CleanError;
use nh::gcroot::{tag_gcroot, Access, GcRootPatterns};
use nh::generations::from_dir;
use nh::interface::{CleanArgs, CleanMode, CleanProfileArgs};
use nh::naming::{classify, file_name};
use nh::plan::{execute_plan, needs_confirmation, plan_profiles, record_gcroot, GcRootTag, ProfileInput};
use nh::retention::{
    check_profile, cleanable_generations, collect_generations, generation_of, tag_generations,
    Generation, LinkEntry,
};
use nh::scope::{
    is_scanned_uid, join_path, needs_elevation, profiles_in_dir, resolve_scope, ProfileEntry,
    UserAccount,
};

const SEC: u128 = 1_000_000_000;
const NOW: u128 = 1_700_000_000 * SEC;
const DAY: u128 = 86_400 * SEC;

fn entry(dir: &str, name: &str, t: Option<u128>) -> LinkEntry {
    LinkEntry {
        path: format!("{dir}/{name}"),
        file_name: name.to_string(),
        last_modified: t,
    }
}

/// `myprofile` and its generations 1..=5, each a day older than the next.
fn fixture() -> Vec<LinkEntry> {
    let mut v = vec![entry("/p", "myprofile", Some(NOW - DAY))];
    for n in [3u128, 1, 5, 2, 4] {
        v.push(entry("/p", &format!("myprofile-{n}-link"), Some(NOW - (10 - n) * DAY)));
    }
    v.push(entry("/p", "other-1-link", Some(NOW - 20 * DAY)));
    v
}

fn args(keep: u32, keep_since: u128, dry: bool, ask: bool) -> CleanArgs {
    CleanArgs { keep, keep_since, dry, ask, nogc: false, nogcroots: false }
}

fn gen(n: u64, t: u128) -> Generation {
    Generation { number: n, last_modified: t, path: format!("/p/g-{n}-link") }
}

fn count(tags: &[bool]) -> usize {
    tags.iter().filter(|t| **t).count()
}

#[test]
fn classify_splits_base_and_number() {
    assert_eq!(classify("foo-bar-baz-0-link"), Some((String::from("foo-bar-baz"), 0)));
    assert_eq!(classify("system-42-link"), Some((String::from("system"), 42)));
    assert_eq!(classify("a-1-2-link"), Some((String::from("a-1"), 2)));
    assert_eq!(classify("x-007-link"), Some((String::from("x"), 7)));
}

#[test]
fn classify_round_trips() {
    for base in ["home-manager", "system", "", "a-b-c", "ünï-cödé"] {
        for n in [0u64, 1, 9, 10, 12345, u64::MAX] {
            assert_eq!(classify(&format!("{base}-{n}-link")), Some((base.to_string(), n)));
        }
    }
}

#[test]
fn classify_rejects_other_names() {
    assert_eq!(classify("home-manager"), None);
    assert_eq!(classify("foo-bar-baz-X-link"), None);
    assert_eq!(classify("foo-link"), None);
    assert_eq!(classify("foo-1-lin"), None);
    assert_eq!(classify("foo1-link"), None);
    assert_eq!(classify("foo-18446744073709551616-link"), None);
    assert_eq!(classify(""), None);
}

#[test]
fn generation_of_needs_the_profile_name() {
    assert_eq!(generation_of("myprofile", "myprofile-3-link"), Some(3));
    assert_eq!(generation_of("my", "myprofile-3-link"), None);
    assert_eq!(generation_of("myprofile", "myprofile"), None);
    // the name only has to begin with `<profile>-<digits>-link`
    assert_eq!(generation_of("myprofile", "myprofile-5-link.old"), Some(5));
    assert_eq!(generation_of("myprofile", "myprofile-5-linked"), Some(5));
    assert_eq!(generation_of("myprofile", "myprofile-5x-link"), None);
    assert_eq!(generation_of("myprofile", "myprofile--link"), None);
    assert_eq!(generation_of("a.b", "a.b-2-link"), Some(2));
    assert_eq!(generation_of("a.b", "axb-2-link"), None);
    assert_eq!(generation_of("myprofile", "myprofile-18446744073709551616-link"), None);
}

#[test]
fn collect_sorts_by_number() {
    let gens = collect_generations("myprofile", &fixture()).unwrap();
    let numbers: Vec<u64> = gens.iter().map(|g| g.number).collect();
    assert_eq!(numbers, vec![1, 2, 3, 4, 5]);
    assert_eq!(gens[4].path, "/p/myprofile-5-link");
    assert_eq!(gens[0].last_modified, NOW - 9 * DAY);
}

#[test]
fn equal_numbers_keep_listing_order() {
    let v = vec![
        entry("/p", "myprofile-2-link", Some(NOW)),
        entry("/p", "myprofile-05-link", Some(NOW)),
        entry("/p", "myprofile-1-link", Some(NOW)),
        entry("/p", "myprofile-5-link", Some(NOW)),
    ];
    let gens = collect_generations("myprofile", &v).unwrap();
    let paths: Vec<&str> = gens.iter().map(|g| g.path.as_str()).collect();
    assert_eq!(
        paths,
        vec!["/p/myprofile-1-link", "/p/myprofile-2-link", "/p/myprofile-05-link", "/p/myprofile-5-link"]
    );
}

#[test]
fn collect_fails_on_missing_time() {
    let mut v = fixture();
    v.push(entry("/p", "myprofile-6-link", None));
    match collect_generations("myprofile", &v) {
        Err(CleanError::MissingMetadata { path }) => assert_eq!(path, "/p/myprofile-6-link"),
        other => panic!("unexpected {other:?}"),
    }
    // an unreadable entry that is no generation of the profile does not matter
    let mut w = fixture();
    w.push(entry("/p", "unrelated", None));
    assert!(collect_generations("myprofile", &w).is_ok());
}

#[test]
fn count_pass_keeps_newest() {
    let gens: Vec<Generation> = (1..=5).map(|n| gen(n, NOW - 30 * DAY)).collect();
    assert_eq!(tag_generations(&gens, NOW, 2, 0), vec![true, true, true, false, false]);
    assert_eq!(tag_generations(&gens, NOW, 0, 0), vec![true; 5]);
    assert_eq!(tag_generations(&gens, NOW, 9, 0), vec![false; 5]);
}

#[test]
fn keep_one_no_window_keeps_only_newest() {
    let gens: Vec<Generation> = (1..=4).map(|n| gen(n, NOW - (10 - n as u128) * SEC)).collect();
    assert_eq!(tag_generations(&gens, NOW, 1, 0), vec![true, true, true, false]);
    let two = vec![gen(7, NOW - SEC), gen(9, NOW - 2 * SEC)];
    assert_eq!(tag_generations(&two, NOW, 1, 0), vec![true, false]);
}

#[test]
fn age_pass_keeps_recent_and_boundary() {
    let gens = vec![gen(1, NOW - 3 * DAY), gen(2, NOW - 2 * DAY), gen(3, NOW - DAY), gen(4, NOW)];
    // exactly as old as the window is kept
    assert_eq!(tag_generations(&gens, NOW, 0, 2 * DAY), vec![true, false, false, false]);
    assert_eq!(tag_generations(&gens, NOW, 0, 0), vec![true, true, true, false]);
}

#[test]
fn future_time_is_not_exempted() {
    let gens = vec![gen(1, NOW + DAY), gen(2, NOW - DAY)];
    assert_eq!(tag_generations(&gens, NOW, 0, 10 * DAY), vec![true, false]);
    assert_eq!(tag_generations(&gens, NOW, 1, 10 * DAY), vec![true, false]);
}

#[test]
fn retention_is_monotone() {
    let gens: Vec<Generation> = (1..=6).map(|n| gen(n, NOW - (7 - n as u128) * DAY)).collect();
    let mut last = usize::MAX;
    for keep in 0..8 {
        let c = count(&tag_generations(&gens, NOW, keep, DAY));
        assert!(c <= last);
        last = c;
    }
    let mut last = usize::MAX;
    for days in 0..8 {
        let c = count(&tag_generations(&gens, NOW, 1, days * DAY));
        assert!(c <= last);
        last = c;
    }
}

#[test]
fn tagging_twice_agrees() {
    let gens: Vec<Generation> = (1..=5).map(|n| gen(n, NOW - (6 - n as u128) * DAY)).collect();
    let a = tag_generations(&gens, NOW, 2, 2 * DAY);
    let b = tag_generations(&gens, NOW, 2, 2 * DAY);
    assert_eq!(a, b);
}

#[test]
fn stale_profile_link_is_refused() {
    let entries = fixture();
    let target = String::from("/p/myprofile-3-link");
    match cleanable_generations("myprofile", &target, &entries, NOW, 1, 0) {
        Err(CleanError::InconsistentProfile { target }) => assert_eq!(target, "/p/myprofile-3-link"),
        other => panic!("unexpected {other:?}"),
    }
    let gens = collect_generations("myprofile", &entries).unwrap();
    assert!(check_profile(&String::from("/p/myprofile-5-link"), &gens).is_ok());
    assert!(check_profile(&String::from("/elsewhere"), &gens).is_err());
    assert!(check_profile(&String::from("/anything"), &Vec::new()).is_ok());
}

#[test]
fn end_to_end_keep_two() {
    let inputs = vec![ProfileInput {
        path: String::from("/p/myprofile"),
        target: Some(String::from("/p/myprofile-5-link")),
        entries: Some(fixture()),
    }];
    let a = args(2, 0, false, false);
    let planned = plan_profiles(&inputs, NOW, a.keep, a.keep_since);
    let plan = planned.into_iter().next().unwrap().unwrap();
    assert_eq!(plan.profile, "/p/myprofile");
    assert_eq!(plan.remove, vec![true, true, true, false, false]);
    assert!(!needs_confirmation(&a));
    let e = execute_plan(&a, true, &Vec::new(), &vec![plan]);
    assert_eq!(
        e.removals,
        vec!["/p/myprofile-3-link", "/p/myprofile-2-link", "/p/myprofile-1-link"]
    );
    assert!(!e.removals.contains(&String::from("/p/myprofile")));
    assert!(e.collect_garbage);
}

#[test]
fn roots_go_before_generations() {
    let a = args(1, 0, false, false);
    let plan = plan_profiles(
        &vec![ProfileInput {
            path: String::from("/p/myprofile"),
            target: Some(String::from("/p/myprofile-5-link")),
            entries: Some(fixture()),
        }],
        NOW,
        1,
        0,
    )
    .into_iter()
    .map(|r| r.unwrap())
    .collect::<Vec<_>>();
    let roots = vec![
        GcRootTag { path: String::from("/src/a/result"), remove: true },
        GcRootTag { path: String::from("/src/b/result"), remove: false },
    ];
    let mut nogc = a;
    nogc.nogc = true;
    let e = execute_plan(&nogc, false, &roots, &plan);
    assert_eq!(e.removals[0], "/src/a/result");
    assert_eq!(e.removals.len(), 5);
    assert_eq!(e.removals[1], "/p/myprofile-4-link");
    assert!(!e.collect_garbage);
}

#[test]
fn declined_confirmation_does_nothing() {
    let a = args(2, 0, false, true);
    assert!(needs_confirmation(&a));
    let plan = plan_profiles(
        &vec![ProfileInput {
            path: String::from("/p/myprofile"),
            target: Some(String::from("/p/myprofile-5-link")),
            entries: Some(fixture()),
        }],
        NOW,
        2,
        0,
    )
    .into_iter()
    .map(|r| r.unwrap())
    .collect::<Vec<_>>();
    let roots = vec![GcRootTag { path: String::from("/src/a/result"), remove: true }];
    let e = execute_plan(&a, false, &roots, &plan);
    assert!(e.removals.is_empty());
    assert!(!e.collect_garbage);
    let e = execute_plan(&a, true, &roots, &plan);
    assert_eq!(e.removals.len(), 4);
    assert!(e.collect_garbage);
}

#[test]
fn dry_run_does_nothing() {
    let a = args(0, 0, true, true);
    assert!(!needs_confirmation(&a));
    let plan = plan_profiles(
        &vec![ProfileInput {
            path: String::from("/p/myprofile"),
            target: Some(String::from("/p/myprofile-5-link")),
            entries: Some(fixture()),
        }],
        NOW,
        0,
        0,
    )
    .into_iter()
    .map(|r| r.unwrap())
    .collect::<Vec<_>>();
    let roots = vec![GcRootTag { path: String::from("/src/a/result"), remove: true }];
    let e = execute_plan(&a, true, &roots, &plan);
    assert!(e.removals.is_empty());
    assert!(!e.collect_garbage);
}

#[test]
fn failing_profile_does_not_stop_others() {
    let inputs = vec![
        ProfileInput { path: String::from("/p/myprofile"), target: None, entries: Some(fixture()) },
        ProfileInput {
            path: String::from("/p/myprofile"),
            target: Some(String::from("/p/myprofile-5-link")),
            entries: Some(fixture()),
        },
        ProfileInput { path: String::from("/q/"), target: Some(String::new()), entries: Some(vec![]) },
    ];
    let r = plan_profiles(&inputs, NOW, 1, 0);
    assert_eq!(r.len(), 3);
    match &r[0] {
        Err(CleanError::Unreadable { path }) => assert_eq!(path, "/p/myprofile"),
        other => panic!("unexpected {other:?}"),
    }
    assert!(r[1].is_ok());
    assert!(matches!(&r[2], Err(CleanError::Unreadable { .. })));
}

#[test]
fn standard_patterns_pick_ephemeral_roots() {
    let p = GcRootPatterns::standard().unwrap();
    assert_eq!(p.patterns(), &vec![String::from(".*/.direnv/.*"), String::from(".*result.*")]);
    assert!(p.matches_any("/home/u/proj/result"));
    assert!(p.matches_any("/home/u/proj/result-man"));
    assert!(p.matches_any("/home/u/proj/.direnv/flake-profile"));
    assert!(!p.matches_any("/home/u/important"));
    let old = Some(NOW - 30 * DAY);
    let t = |s: &str| String::from(s);
    assert_eq!(p.tag(&t("/home/u/important"), Access::Granted, old, NOW, 0).unwrap(), None);
    assert_eq!(p.tag(&t("/home/u/proj/result"), Access::Granted, old, NOW, 0).unwrap(), Some(true));
    assert_eq!(p.tag(&t("/home/u/proj/result"), Access::Granted, old, NOW, 60 * DAY).unwrap(), Some(false));
    assert_eq!(p.tag(&t("/home/u/proj/result"), Access::Denied, old, NOW, 0).unwrap(), None);
    assert_eq!(p.tag(&t("/home/u/proj/result"), Access::Granted, Some(NOW + DAY), NOW, 0).unwrap(), None);
}

#[test]
fn unmatched_root_never_removed() {
    for age in [0u128, DAY, 1000 * DAY] {
        for access in [Access::Granted, Access::Denied, Access::Failed] {
            let r = tag_gcroot(false, &String::from("/x"), access, Some(NOW - age), NOW, 0);
            assert_eq!(r.unwrap(), None);
        }
    }
}

#[test]
fn gcroot_errors() {
    match tag_gcroot(true, &String::from("/x/result"), Access::Failed, None, NOW, 0) {
        Err(CleanError::AccessCheck { path }) => assert_eq!(path, "/x/result"),
        other => panic!("unexpected {other:?}"),
    }
    match tag_gcroot(true, &String::from("/x/result"), Access::Granted, None, NOW, 0) {
        Err(CleanError::MissingMetadata { path }) => assert_eq!(path, "/x/result"),
        other => panic!("unexpected {other:?}"),
    }
    match GcRootPatterns::new(vec![String::from("ok"), String::from("(")]) {
        Err(CleanError::InvalidPattern { pattern }) => assert_eq!(pattern, "("),
        other => panic!("unexpected {:?}", other.is_ok()),
    }
}

#[test]
fn scope_of_each_mode() {
    let me = UserAccount { uid: 1000, name: String::from("alice"), home: String::from("/home/alice") };
    let users = vec![
        UserAccount { uid: 0, name: String::from("root"), home: String::from("/root/") },
        UserAccount { uid: 999, name: String::from("svc"), home: String::from("/var/svc") },
        UserAccount { uid: 1000, name: String::from("alice"), home: String::from("/home/alice") },
        UserAccount { uid: 1100, name: String::from("x"), home: String::from("/home/x") },
    ];
    let per_user = vec![String::from("/nix/var/nix/profiles/per-user/alice")];
    let all = CleanMode::All(args(1, 0, false, false));
    let s = resolve_scope(&all, &me, &per_user, &users);
    assert_eq!(
        s.profile_dirs,
        vec![
            "/nix/var/nix/profiles",
            "/nix/var/nix/profiles/per-user/alice",
            "/root/.local/state/nix/profiles",
            "/home/alice/.local/state/nix/profiles",
        ]
    );
    assert!(s.profiles.is_empty());
    assert_eq!(s.gcroot_dirs, vec!["/nix/var/nix/gcroots/auto", "/nix/var/nix/gcroots/per-user"]);

    let mut a = args(1, 0, false, false);
    a.nogcroots = true;
    let user = CleanMode::User(a);
    let s = resolve_scope(&user, &me, &per_user, &users);
    assert_eq!(
        s.profile_dirs,
        vec!["/home/alice/.local/state/nix/profiles", "/nix/var/nix/profiles/per-user/alice"]
    );
    assert!(s.gcroot_dirs.is_empty());
    let user = CleanMode::User(args(1, 0, false, false));
    let s = resolve_scope(&user, &me, &per_user, &users);
    assert_eq!(s.gcroot_dirs, vec!["/nix/var/nix/gcroots/per-user/alice"]);

    let one = CleanMode::Profile(CleanProfileArgs {
        common: args(1, 0, false, false),
        profile: String::from("/p/myprofile"),
    });
    let s = resolve_scope(&one, &me, &per_user, &users);
    assert!(s.profile_dirs.is_empty());
    assert_eq!(s.profiles, vec!["/p/myprofile"]);
    assert!(s.gcroot_dirs.is_empty());
}

#[test]
fn elevation_rules() {
    let all = CleanMode::All(args(1, 0, false, false));
    assert_eq!(needs_elevation(&all, false).unwrap(), true);
    assert_eq!(needs_elevation(&all, true).unwrap(), false);
    let user = CleanMode::User(args(1, 0, false, false));
    assert!(matches!(needs_elevation(&user, true), Err(CleanError::UserModeAsRoot)));
    assert_eq!(needs_elevation(&user, false).unwrap(), false);
    assert!(is_scanned_uid(0));
    assert!(is_scanned_uid(1099));
    assert!(!is_scanned_uid(1100));
    assert!(!is_scanned_uid(999));
}

#[test]
fn profiles_found_by_their_link() {
    let link = |n: &str| ProfileEntry { link_target_name: Some(String::from(n)) };
    let entries = vec![
        link("system-12-link"),
        link("abc-nixos-system"),
        ProfileEntry { link_target_name: None },
        link("home-manager-3-link"),
        link("system-5-link"),
    ];
    assert_eq!(
        profiles_in_dir(&String::from("/d"), &entries),
        vec!["/d/system", "/d/home-manager", "/d/system"]
    );
}

#[test]
fn paths_and_names() {
    assert_eq!(join_path(&String::from("/home/a"), "x"), "/home/a/x");
    assert_eq!(join_path(&String::from("/home/a/"), "x"), "/home/a/x");
    assert_eq!(file_name(&String::from("/p/myprofile")), Some(String::from("myprofile")));
    assert_eq!(file_name(&String::from("myprofile")), Some(String::from("myprofile")));
    assert_eq!(file_name(&String::from("/p/")), None);
}

#[test]
fn generation_number_of_directory() {
    assert_eq!(from_dir(&String::from("/nix/var/nix/profiles/system-42-link")), Some(42));
    assert_eq!(from_dir(&String::from("system-42")), Some(42));
    assert_eq!(from_dir(&String::from("system-42-link-link")), Some(42));
    assert_eq!(from_dir(&String::from("x-+7-link")), Some(7));
    assert_eq!(from_dir(&String::from("home-manager")), None);
    assert_eq!(from_dir(&String::from("nodash")), None);
    assert_eq!(from_dir(&String::from("/p/")), None);
}

#[test]
fn gcroots_keyed_by_target() {
    let mut roots = Vec::new();
    record_gcroot(&mut roots, String::from("/a/result"), true);
    record_gcroot(&mut roots, String::from("/b/result"), false);
    record_gcroot(&mut roots, String::from("/a/result"), false);
    assert_eq!(roots.len(), 2);
    assert_eq!(roots[0].path, "/a/result");
    assert!(!roots[0].remove);
    assert_eq!(roots[1].path, "/b/result");
}

#[test]
fn survivors_are_kept_on_a_second_run() {
    let ages = [40u128, 2, 30, 1, 20, 10];
    let gens: Vec<Generation> = (1..=6).map(|n| gen(n, NOW - ages[n as usize - 1] * DAY)).collect();
    let tags = tag_generations(&gens, NOW, 2, 3 * DAY);
    assert_eq!(tags, vec![true, false, true, false, false, false]);
    let kept: Vec<Generation> = gens
        .into_iter()
        .zip(tags)
        .filter(|(_, remove)| !remove)
        .map(|(g, _)| g)
        .collect();
    assert_eq!(tag_generations(&kept, NOW, 2, 3 * DAY), vec![false; 4]);
}

#[test]
fn keep_two_tags_oldest_three() {
    let target = String::from("/p/myprofile-5-link");
    let (gens, tags) = cleanable_generations("myprofile", &target, &fixture(), NOW, 2, 0).unwrap();
    let numbers: Vec<u64> = gens.iter().map(|g| g.number).collect();
    assert_eq!(numbers, vec![1, 2, 3, 4, 5]);
    assert!(gens.iter().all(|g| g.path != "/p/myprofile"));
    assert_eq!(tags, vec![true, true, true, false, false]);
}

#[test]
fn generation_directory_round_trip() {
    for dir in ["", "/", "/nix/var/nix/profiles", "rel/dir/"] {
        for base in ["system", "home-manager", "a-1"] {
            for n in [0u64, 7, 42, u64::MAX] {
                let sep = if dir.ends_with('/') { "" } else { "/" };
                let path = format!("{dir}{sep}{base}-{n}-link");
                assert_eq!(from_dir(&path), Some(n));
            }
        }
    }
}
