//! GC roots: which targets are recognised as ephemeral build results, and
//! which of those are old enough to remove.

use vstd::prelude::*;

use crate::error::CleanError;
use crate::pattern::{compiles, is_match, regex_compiles, regex_is_match};

verus! {

/// Some pattern of `patterns` matches `target`.
pub open spec fn matches_any_spec(patterns: Seq<String>, target: Seq<char>) -> bool {
    exists|i: int| 0 <= i < patterns.len() && regex_is_match(#[trigger] patterns[i]@, target)
}

/// The patterns that recognise a GC root's target as an ephemeral build
/// result. Roots whose target matches none are never removed.
pub struct GcRootPatterns {
    patterns: Vec<String>,
}

impl GcRootPatterns {
    pub closed spec fn view(&self) -> Seq<String> {
        self.patterns@
    }

    /// Every pattern compiles.
    pub open spec fn wf(&self) -> bool {
        forall|i: int| 0 <= i < self@.len() ==> regex_compiles(#[trigger] self@[i]@)
    }

    /// Takes `patterns` as they are, or fails on the first that does not compile.
    pub fn new(patterns: Vec<String>) -> (r: Result<GcRootPatterns, CleanError>)
        ensures
            r matches Ok(p) ==> p.wf() && p@ == patterns@,
            r is Ok <==> forall|i: int| 0 <= i < patterns@.len() ==> regex_compiles(#[trigger] patterns@[i]@),
            r matches Err(e) ==> exists|i: int|
                0 <= i < patterns@.len() && !regex_compiles(#[trigger] patterns@[i]@)
                    && e == (CleanError::InvalidPattern { pattern: patterns@[i] })
                    && forall|j: int| 0 <= j < i ==> regex_compiles(#[trigger] patterns@[j]@),
    {
        let mut i: usize = 0;
        while i < patterns.len()
            invariant
                i <= patterns@.len(),
                forall|j: int| 0 <= j < i ==> regex_compiles(#[trigger] patterns@[j]@),
            decreases patterns@.len() - i,
        {
            if !compiles(patterns[i].as_str()) {
                return Err(CleanError::InvalidPattern { pattern: patterns[i].clone() });
            }
            i = i + 1;
        }
        Ok(GcRootPatterns { patterns })
    }

    /// The patterns in use: a development-shell cache (`/.direnv/`) and a
    /// build result link (`result`).
    pub fn standard() -> (r: Result<GcRootPatterns, CleanError>)
        ensures
            r is Ok <==> (regex_compiles(".*/.direnv/.*"@) && regex_compiles(".*result.*"@)),
            r matches Err(e) ==> e matches CleanError::InvalidPattern { pattern } && pattern@ == (if regex_compiles(
                ".*/.direnv/.*"@,
            ) {
                ".*result.*"@
            } else {
                ".*/.direnv/.*"@
            }),
            r matches Ok(p) ==> p.wf() && p@.len() == 2 && p@[0]@ == ".*/.direnv/.*"@ && p@[1]@
                == ".*result.*"@,
    {
        let v = vec![String::from_str(".*/.direnv/.*"), String::from_str(".*result.*")];
        assert(v@[0]@ == ".*/.direnv/.*"@ && v@[1]@ == ".*result.*"@);
        GcRootPatterns::new(v)
    }

    /// The patterns, as given.
    pub fn patterns(&self) -> (r: &Vec<String>)
        ensures
            r@ == self@,
    {
        &self.patterns
    }

    /// Whether some pattern matches `target`.
    pub fn matches_any(&self, target: &str) -> (r: bool)
        requires
            self.wf(),
        ensures
            r == matches_any_spec(self@, target@),
    {
        let mut i: usize = 0;
        while i < self.patterns.len()
            invariant
                self.wf(),
                i <= self@.len(),
                forall|j: int| 0 <= j < i ==> !regex_is_match(#[trigger] self@[j]@, target@),
            decreases self@.len() - i,
        {
            if is_match(self.patterns[i].as_str(), target) {
                return true;
            }
            i = i + 1;
        }
        false
    }

    /// Tags the GC root whose target is `target` as `tag_gcroot` does, with
    /// these patterns deciding whether the target is recognised.
    pub fn tag(
        &self,
        target: &String,
        access: Access,
        last_modified: Option<u128>,
        now: u128,
        keep_since: u128,
    ) -> (r: Result<Option<bool>, CleanError>)
        requires
            self.wf(),
        ensures
            r == gcroot_tag_spec(
                matches_any_spec(self@, target@),
                *target,
                access,
                last_modified,
                now,
                keep_since,
            ),
            !matches_any_spec(self@, target@) ==> r == Ok::<Option<bool>, CleanError>(None),
    {
        let matched = self.matches_any(target.as_str());
        tag_gcroot(matched, target, access, last_modified, now, keep_since)
    }
}

/// The outcome of asking whether this process may read and write a GC
/// root's target, without following it.
#[derive(PartialEq, Eq, Structural, Clone, Copy)]
pub enum Access {
    Granted,
    /// Missing, or permission denied.
    Denied,
    /// The check itself failed for another reason.
    Failed,
}

/// What becomes of a GC root: an error, not a candidate (`None`), or a
/// candidate tagged for removal (`Some(true)`) or kept (`Some(false)`).
pub open spec fn gcroot_tag_spec(
    matched: bool,
    target: String,
    access: Access,
    last_modified: Option<u128>,
    now: u128,
    keep_since: u128,
) -> Result<Option<bool>, CleanError> {
    if !matched {
        Ok(None)
    } else {
        match access {
            Access::Denied => Ok(None),
            Access::Failed => Err(CleanError::AccessCheck { path: target }),
            Access::Granted => match last_modified {
                None => Err(CleanError::MissingMetadata { path: target }),
                Some(t) => if t > now {
                    Ok(None)
                } else {
                    Ok(Some(now - t > keep_since))
                },
            },
        }
    }
}

/// Tags one GC root whose target is `target`. `matched` says whether a
/// pattern recognised the target; a root not recognised, or whose target
/// is missing or not writable, or modified after `now`, is no candidate.
/// A candidate is removed when it is older than `keep_since`.
pub fn tag_gcroot(
    matched: bool,
    target: &String,
    access: Access,
    last_modified: Option<u128>,
    now: u128,
    keep_since: u128,
) -> (r: Result<Option<bool>, CleanError>)
    ensures
        r == gcroot_tag_spec(matched, *target, access, last_modified, now, keep_since),
        !matched ==> r == Ok::<Option<bool>, CleanError>(None),
{
    if !matched {
        return Ok(None);
    }
    match access {
        Access::Denied => Ok(None),
        Access::Failed => Err(CleanError::AccessCheck { path: target.clone() }),
        Access::Granted => match last_modified {
            None => Err(CleanError::MissingMetadata { path: target.clone() }),
            Some(t) => {
                if t > now {
                    Ok(None)
                } else {
                    Ok(Some(now - t > keep_since))
                }
            },
        },
    }
}

/// A GC root whose target no pattern matches is never tagged for removal,
/// whatever its age, access and the policy.
pub proof fn lemma_unmatched_root_kept(
    patterns: Seq<String>,
    target: String,
    access: Access,
    last_modified: Option<u128>,
    now: u128,
    keep_since: u128,
)
    requires
        !matches_any_spec(patterns, target@),
    ensures
        gcroot_tag_spec(
            matches_any_spec(patterns, target@),
            target,
            access,
            last_modified,
            now,
            keep_since,
        ) == Ok::<Option<bool>, CleanError>(None),
{
}

} // verus!
