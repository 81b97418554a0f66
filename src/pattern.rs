//! Regular expressions, matched by the `regex` crate.

use vstd::prelude::*;

verus! {

/// Whether the regular expression `pattern` compiles.
pub uninterp spec fn regex_compiles(pattern: Seq<char>) -> bool;

/// Whether the regular expression `pattern` matches anywhere in `haystack`.
pub uninterp spec fn regex_is_match(pattern: Seq<char>, haystack: Seq<char>) -> bool;

/// Relies on `regex::Regex::new`: whether it succeeds depends on the
/// pattern alone (its syntax and the default size limit).
#[verifier::external_body]
pub(crate) fn compiles(pattern: &str) -> (r: bool)
    ensures
        r == regex_compiles(pattern@),
{
    regex::Regex::new(pattern).is_ok()
}

/// Relies on `regex::Regex::is_match` on the compiled `pattern`: whether
/// it matches anywhere in `haystack` depends on the two strings alone.
#[verifier::external_body]
pub(crate) fn is_match(pattern: &str, haystack: &str) -> (r: bool)
    requires
        regex_compiles(pattern@),
    ensures
        r == regex_is_match(pattern@, haystack@),
{
    regex::Regex::new(pattern).map(|re| re.is_match(haystack)).unwrap_or(false)
}

/// Whether `branch` names a channel that can be searched: the unstable
/// channel, or one holding a release `nixos-<major>.<minor>`.
pub fn supported_branch(branch: &str) -> (r: bool)
    ensures
        r == (branch@ == "nixos-unstable"@ || (regex_compiles("nixos-[0-9]+\\.[0-9]+"@)
            && regex_is_match("nixos-[0-9]+\\.[0-9]+"@, branch@))),
{
    let unstable = String::from_str("nixos-unstable");
    let b = branch.to_owned();
    if b == unstable {
        return true;
    }
    let release = "nixos-[0-9]+\\.[0-9]+";
    if !compiles(release) {
        return false;
    }
    is_match(release, branch)
}

} // verus!
