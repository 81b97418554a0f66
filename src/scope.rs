//! Which profiles and GC-root directories a cleaning mode covers.

use vstd::prelude::*;

use crate::error::CleanError;
use crate::installable::string_views;
use crate::interface::CleanMode;
use crate::naming::{classify, classify_spec};

verus! {

/// The directory of the system's profiles.
pub open spec fn system_profiles_dir() -> Seq<char> {
    "/nix/var/nix/profiles"@
}

/// The directory holding one profile directory per user.
pub open spec fn per_user_profiles_dir() -> Seq<char> {
    "/nix/var/nix/profiles/per-user"@
}

/// The directory of automatic GC roots.
pub open spec fn auto_gcroots_dir() -> Seq<char> {
    "/nix/var/nix/gcroots/auto"@
}

/// The directory holding one GC-root directory per user.
pub open spec fn per_user_gcroots_dir() -> Seq<char> {
    "/nix/var/nix/gcroots/per-user"@
}

/// Where a user's own profiles lie, below the home directory.
pub open spec fn xdg_profiles_suffix() -> Seq<char> {
    ".local/state/nix/profiles"@
}

/// `rel` below `dir`, with one separator between them.
pub open spec fn join_spec(dir: Seq<char>, rel: Seq<char>) -> Seq<char> {
    if dir.len() > 0 && dir.last() == '/' {
        dir + rel
    } else {
        dir + "/"@ + rel
    }
}

/// `rel` below `dir`, with one separator between them.
pub fn join_path(dir: &String, rel: &str) -> (r: String)
    ensures
        r@ == join_spec(dir@, rel@),
{
    let mut r = dir.clone();
    let s = dir.as_str();
    let n = s.unicode_len();
    if n > 0 && s.get_char(n - 1) == '/' {
        r.append(rel);
    } else {
        r.append("/");
        r.append(rel);
    }
    r
}

/// A user account of the machine.
pub struct UserAccount {
    pub uid: u32,
    pub name: String,
    pub home: String,
}

/// Whose personal profiles a system-wide clean covers: root, and human
/// users (uids from 1000 below 1100).
pub open spec fn scanned_uid(uid: u32) -> bool {
    uid == 0 || (1000 <= uid && uid < 1100)
}

/// Whose personal profiles a system-wide clean covers: root, and human
/// users (uids from 1000 below 1100).
pub fn is_scanned_uid(uid: u32) -> (r: bool)
    ensures
        r == scanned_uid(uid),
{
    uid == 0 || (1000 <= uid && uid < 1100)
}

/// Whether the mode must first run as root: a system-wide clean started
/// by another user is run again elevated; a clean of the current user's
/// profiles refuses to run as root.
pub fn needs_elevation(mode: &CleanMode, is_root: bool) -> (r: Result<bool, CleanError>)
    ensures
        r == (match mode {
            CleanMode::All(_) => Ok::<bool, CleanError>(!is_root),
            CleanMode::User(_) => if is_root {
                Err(CleanError::UserModeAsRoot)
            } else {
                Ok(false)
            },
            CleanMode::Profile(_) => Ok(false),
        }),
{
    match mode {
        CleanMode::All(_) => Ok(!is_root),
        CleanMode::User(_) => if is_root {
            Err(CleanError::UserModeAsRoot)
        } else {
            Ok(false)
        },
        CleanMode::Profile(_) => Ok(false),
    }
}

/// What a mode covers: directories to search for profiles, profiles
/// named outright, and directories of GC roots.
pub struct Scope {
    pub profile_dirs: Vec<String>,
    pub profiles: Vec<String>,
    pub gcroot_dirs: Vec<String>,
}

/// The personal profile directories of the scanned users among `users`.
pub open spec fn xdg_dirs(users: Seq<UserAccount>) -> Seq<Seq<char>>
    decreases users.len(),
{
    if users.len() == 0 {
        Seq::empty()
    } else {
        let rest = xdg_dirs(users.drop_last());
        let u = users.last();
        if scanned_uid(u.uid) {
            rest.push(join_spec(u.home@, xdg_profiles_suffix()))
        } else {
            rest
        }
    }
}

/// The GC-root directories of a system-wide clean, unless turned off: the
/// automatic roots and every user's roots.
pub open spec fn system_gcroot_dirs(nogcroots: bool) -> Seq<Seq<char>> {
    if nogcroots {
        Seq::empty()
    } else {
        seq![auto_gcroots_dir(), per_user_gcroots_dir()]
    }
}

/// The GC-root directories of a clean of the user `name`, unless turned
/// off: that user's own roots only.
pub open spec fn user_gcroot_dirs(nogcroots: bool, name: Seq<char>) -> Seq<Seq<char>> {
    if nogcroots {
        Seq::empty()
    } else {
        seq![join_spec(per_user_gcroots_dir(), name)]
    }
}

/// What `resolve_scope` covers for each mode.
pub open spec fn scope_matches(
    mode: CleanMode,
    current: UserAccount,
    per_user: Seq<String>,
    users: Seq<UserAccount>,
    s: Scope,
) -> bool {
    match mode {
        CleanMode::All(a) => {
            &&& string_views(s.profile_dirs@) == seq![system_profiles_dir()] + string_views(per_user) + xdg_dirs(users)
            &&& s.profiles@.len() == 0
            &&& string_views(s.gcroot_dirs@) == system_gcroot_dirs(a.nogcroots)
        },
        CleanMode::User(a) => {
            &&& string_views(s.profile_dirs@) == seq![
                join_spec(current.home@, xdg_profiles_suffix()),
                join_spec(per_user_profiles_dir(), current.name@),
            ]
            &&& s.profiles@.len() == 0
            &&& string_views(s.gcroot_dirs@) == user_gcroot_dirs(a.nogcroots, current.name@)
        },
        CleanMode::Profile(p) => {
            &&& s.profile_dirs@.len() == 0
            &&& string_views(s.profiles@) == seq![p.profile@]
            &&& s.gcroot_dirs@.len() == 0
        },
    }
}

/// The directories and profiles that `mode` covers. `current` is the user
/// running the clean, `per_user` the directories found under the per-user
/// profiles directory, `users` the accounts of the machine.
pub fn resolve_scope(
    mode: &CleanMode,
    current: &UserAccount,
    per_user: &Vec<String>,
    users: &Vec<UserAccount>,
) -> (r: Scope)
    ensures
        scope_matches(*mode, *current, per_user@, users@, r),
{
    let mut profile_dirs: Vec<String> = Vec::new();
    let mut profiles: Vec<String> = Vec::new();
    let mut gcroot_dirs: Vec<String> = Vec::new();
    match mode {
        CleanMode::Profile(p) => {
            profiles.push(p.profile.clone());
            assert(string_views(profiles@) == seq![p.profile@]);
        },
        CleanMode::User(a) => {
            profile_dirs.push(join_path(&current.home, ".local/state/nix/profiles"));
            let base = String::from_str("/nix/var/nix/profiles/per-user");
            profile_dirs.push(join_path(&base, current.name.as_str()));
            assert(string_views(profile_dirs@) =~= seq![
                join_spec(current.home@, xdg_profiles_suffix()),
                join_spec(per_user_profiles_dir(), current.name@),
            ]);
            if !a.nogcroots {
                let roots = String::from_str("/nix/var/nix/gcroots/per-user");
                gcroot_dirs.push(join_path(&roots, current.name.as_str()));
            }
            assert(string_views(gcroot_dirs@) =~= user_gcroot_dirs(a.nogcroots, current.name@));
        },
        CleanMode::All(a) => {
            profile_dirs.push(String::from_str("/nix/var/nix/profiles"));
            let mut i: usize = 0;
            while i < per_user.len()
                invariant
                    i <= per_user@.len(),
                    string_views(profile_dirs@) == seq![system_profiles_dir()] + string_views(
                        per_user@.subrange(0, i as int),
                    ),
                decreases per_user@.len() - i,
            {
                let ghost before = profile_dirs@;
                profile_dirs.push(per_user[i].clone());
                assert(string_views(per_user@.subrange(0, i + 1)) =~= string_views(
                    per_user@.subrange(0, i as int),
                ).push(per_user@[i as int]@));
                assert(string_views(profile_dirs@) =~= string_views(before).push(per_user@[i as int]@));
                assert(string_views(profile_dirs@) =~= seq![system_profiles_dir()] + string_views(
                    per_user@.subrange(0, i + 1),
                ));
                i = i + 1;
            }
            assert(per_user@.subrange(0, i as int) == per_user@);
            let mut k: usize = 0;
            while k < users.len()
                invariant
                    k <= users@.len(),
                    string_views(profile_dirs@) == seq![system_profiles_dir()] + string_views(per_user@)
                        + xdg_dirs(users@.subrange(0, k as int)),
                decreases users@.len() - k,
            {
                let ghost pre = users@.subrange(0, k as int);
                assert(users@.subrange(0, k + 1).drop_last() == pre);
                let u = &users[k];
                assert(users@.subrange(0, k + 1).last() == users@[k as int]);
                let ghost before = profile_dirs@;
                if is_scanned_uid(u.uid) {
                    let d = join_path(&u.home, ".local/state/nix/profiles");
                    profile_dirs.push(d);
                    assert(string_views(profile_dirs@) =~= string_views(before).push(d@));
                    assert(string_views(profile_dirs@) =~= seq![system_profiles_dir()] + string_views(per_user@)
                        + xdg_dirs(users@.subrange(0, k + 1)));
                }
                k = k + 1;
            }
            assert(users@.subrange(0, k as int) == users@);
            if !a.nogcroots {
                gcroot_dirs.push(String::from_str("/nix/var/nix/gcroots/auto"));
                gcroot_dirs.push(String::from_str("/nix/var/nix/gcroots/per-user"));
            }
            assert(string_views(gcroot_dirs@) =~= system_gcroot_dirs(a.nogcroots));
        },
    }
    Scope { profile_dirs, profiles, gcroot_dirs }
}

/// An entry of a directory searched for profiles: the file name of its
/// link target where it is a link.
pub struct ProfileEntry {
    pub link_target_name: Option<String>,
}

/// The profile that an entry of `dir` reveals: where it links to a
/// generation link `<base>-<n>-link`, the profile `<dir>/<base>`.
pub open spec fn profile_of_entry(dir: Seq<char>, e: ProfileEntry) -> Option<Seq<char>> {
    match e.link_target_name {
        Some(n) => match classify_spec(n@) {
            Some((base, _)) => Some(join_spec(dir, base)),
            None => None,
        },
        None => None,
    }
}

/// The profiles that the entries of `dir` reveal, in order.
pub open spec fn profiles_in_dir_spec(dir: Seq<char>, entries: Seq<ProfileEntry>) -> Seq<Seq<char>>
    decreases entries.len(),
{
    if entries.len() == 0 {
        Seq::empty()
    } else {
        let rest = profiles_in_dir_spec(dir, entries.drop_last());
        match profile_of_entry(dir, entries.last()) {
            Some(p) => rest.push(p),
            None => rest,
        }
    }
}

/// The profiles of the directory `dir`, from its entries: each entry that
/// links to a generation link `<base>-<n>-link` gives the profile
/// `<dir>/<base>`; other entries give none.
pub fn profiles_in_dir(dir: &String, entries: &Vec<ProfileEntry>) -> (r: Vec<String>)
    ensures
        string_views(r@) == profiles_in_dir_spec(dir@, entries@),
{
    let mut r: Vec<String> = Vec::new();
    let mut i: usize = 0;
    while i < entries.len()
        invariant
            i <= entries@.len(),
            string_views(r@) == profiles_in_dir_spec(dir@, entries@.subrange(0, i as int)),
        decreases entries@.len() - i,
    {
        assert(entries@.subrange(0, i + 1).drop_last() == entries@.subrange(0, i as int));
        assert(entries@.subrange(0, i + 1).last() == entries@[i as int]);
        let e = &entries[i];
        match &e.link_target_name {
            Some(n) => {
                match classify(n.as_str()) {
                    Some((base, _)) => {
                        let ghost before = string_views(r@);
                        let p = join_path(dir, base.as_str());
                        r.push(p);
                        assert(string_views(r@) =~= before.push(p@));
                    },
                    None => {},
                }
            },
            None => {},
        }
        i = i + 1;
    }
    assert(entries@.subrange(0, i as int) == entries@);
    r
}

} // verus!
