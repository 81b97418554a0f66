//! The cleaning plan: tagging every profile of a scope, and what is done
//! once the plan has been shown.

use vstd::prelude::*;

use crate::error::CleanError;
use crate::interface::CleanArgs;
use crate::naming::{file_name, file_name_spec};
use crate::installable::string_views;
use crate::retention::{
    cleanable_generations, listed_generations, missing_metadata, profile_consistent, profile_generations,
    removal_tags, sorted_by_number, Generation, LinkEntry,
};

verus! {

/// What is known of one profile before it is planned: its path, where its
/// link points (if it could be read), and the listing of its directory (if
/// that could be read).
pub struct ProfileInput {
    pub path: String,
    pub target: Option<String>,
    pub entries: Option<Vec<LinkEntry>>,
}

/// The tagged generations of one profile, ascending; `remove[i]` tags
/// `generations[i]`.
#[derive(Debug)]
pub struct ProfilePlan {
    pub profile: String,
    pub generations: Vec<Generation>,
    pub remove: Vec<bool>,
}

impl ProfilePlan {
    pub open spec fn wf(&self) -> bool {
        self.generations@.len() == self.remove@.len()
    }
}

/// `r` is a correct outcome of planning `input`.
pub open spec fn planned(input: ProfileInput, now: u128, keep: u32, keep_since: u128, r: Result<ProfilePlan, CleanError>) -> bool {
    match (file_name_spec(input.path@), input.target, input.entries) {
        (Some(name), Some(target), Some(entries)) => {
            &&& (missing_metadata(name, entries@) ==> r is Err)
            &&& (!missing_metadata(name, entries@) ==> (r is Ok <==> profile_consistent(
                target@,
                profile_generations(name, entries@),
            )))
            &&& (!missing_metadata(name, entries@) && !profile_consistent(
                target@,
                profile_generations(name, entries@),
            ) ==> r == Err::<ProfilePlan, CleanError>(CleanError::InconsistentProfile { target }))
            &&& (r matches Ok(p) ==> {
                &&& p.profile == input.path
                &&& p.generations@ == listed_generations(name, entries@)
                &&& p.wf()
                &&& sorted_by_number(p.generations@)
                &&& p.generations@.to_multiset() == profile_generations(name, entries@).to_multiset()
                &&& p.remove@ == removal_tags(p.generations@, now, keep as nat, keep_since)
            })
        },
        _ => r == Err::<ProfilePlan, CleanError>(CleanError::Unreadable { path: input.path }),
    }
}

/// Plans one profile.
pub fn plan_profile(input: &ProfileInput, now: u128, keep: u32, keep_since: u128) -> (r: Result<ProfilePlan, CleanError>)
    ensures
        planned(*input, now, keep, keep_since, r),
{
    let name = match file_name(&input.path) {
        Some(n) => n,
        None => return Err(CleanError::Unreadable { path: input.path.clone() }),
    };
    let target = match &input.target {
        Some(t) => t,
        None => return Err(CleanError::Unreadable { path: input.path.clone() }),
    };
    let entries = match &input.entries {
        Some(e) => e,
        None => return Err(CleanError::Unreadable { path: input.path.clone() }),
    };
    let (generations, remove) = cleanable_generations(name.as_str(), target, entries, now, keep, keep_since)?;
    Ok(ProfilePlan { profile: input.path.clone(), generations, remove })
}

/// Plans each profile on its own: a profile that fails does not stop the
/// others. `r[i]` is the outcome for `inputs[i]`.
pub fn plan_profiles(inputs: &Vec<ProfileInput>, now: u128, keep: u32, keep_since: u128) -> (r: Vec<Result<ProfilePlan, CleanError>>)
    ensures
        r@.len() == inputs@.len(),
        forall|i: int| 0 <= i < inputs@.len() ==> planned(#[trigger] inputs@[i], now, keep, keep_since, r@[i]),
{
    let mut r: Vec<Result<ProfilePlan, CleanError>> = Vec::new();
    let mut i: usize = 0;
    while i < inputs.len()
        invariant
            i <= inputs@.len(),
            r@.len() == i,
            forall|j: int| 0 <= j < i ==> planned(#[trigger] inputs@[j], now, keep, keep_since, r@[j]),
        decreases inputs@.len() - i,
    {
        r.push(plan_profile(&inputs[i], now, keep, keep_since));
        i = i + 1;
    }
    r
}

/// A GC root's target and its tag.
pub struct GcRootTag {
    pub path: String,
    pub remove: bool,
}

/// No two GC roots share a target: the tags form a map from target to tag.
pub open spec fn targets_unique(roots: Seq<GcRootTag>) -> bool {
    forall|i: int, j: int| 0 <= i < j < roots.len() ==> (#[trigger] roots[i]).path@ != (#[trigger] roots[j]).path@
}

/// Records the tag of the GC root whose target is `path`: a target seen
/// before takes the new tag in its place, a new one is added at the end.
pub fn record_gcroot(roots: &mut Vec<GcRootTag>, path: String, remove: bool)
    requires
        targets_unique(old(roots)@),
    ensures
        targets_unique(final(roots)@),
        (exists|i: int| 0 <= i < old(roots)@.len() && (#[trigger] old(roots)@[i]).path@ == path@)
            ==> exists|i: int|
            0 <= i < old(roots)@.len() && (#[trigger] old(roots)@[i]).path@ == path@
                && final(roots)@ == old(roots)@.update(i, GcRootTag { path, remove }),
        (forall|i: int| 0 <= i < old(roots)@.len() ==> (#[trigger] old(roots)@[i]).path@ != path@)
            ==> final(roots)@ == old(roots)@.push(GcRootTag { path, remove }),
{
    let mut i: usize = 0;
    while i < roots.len()
        invariant
            i <= roots@.len(),
            roots@ == old(roots)@,
            targets_unique(old(roots)@),
            forall|j: int| 0 <= j < i ==> (#[trigger] roots@[j]).path@ != path@,
        decreases roots@.len() - i,
    {
        if roots[i].path == path {
            let ghost before = roots@;
            assert(before[i as int].path@ == path@);
            assert(targets_unique(before));
            roots.set(i, GcRootTag { path, remove });
            assert forall|a: int, b: int| 0 <= a < b < roots@.len() implies (#[trigger] roots@[a]).path@
                != (#[trigger] roots@[b]).path@ by {
                assert(before[a].path@ != before[b].path@);
                if a != i && b != i {
                    assert(roots@[a] == before[a] && roots@[b] == before[b]);
                } else if a == i {
                    assert(roots@[b] == before[b]);
                    assert(roots@[a].path@ == before[a].path@);
                } else {
                    assert(roots@[a] == before[a]);
                    assert(roots@[b].path@ == before[b].path@);
                }
            }
            return;
        }
        i = i + 1;
    }
    roots.push(GcRootTag { path, remove });
}

/// What is done after the plan was shown: the paths to remove, in order,
/// and whether the store's garbage collector runs.
pub struct Execution {
    pub removals: Vec<String>,
    pub collect_garbage: bool,
}

/// Whether to ask before acting: only when asked for, and never in a dry run.
pub open spec fn confirmation_needed(args: CleanArgs) -> bool {
    args.ask && !args.dry
}

/// Whether to ask before acting: only when asked for, and never in a dry run.
pub fn needs_confirmation(args: &CleanArgs) -> (r: bool)
    ensures
        r == confirmation_needed(*args),
{
    args.ask && !args.dry
}

/// Whether anything is done: not in a dry run, and not when the user,
/// asked, declined.
pub open spec fn proceeds(args: CleanArgs, confirmed: bool) -> bool {
    !args.dry && (!args.ask || confirmed)
}

/// Targets of the GC roots tagged for removal, in order.
pub open spec fn root_removals(roots: Seq<GcRootTag>) -> Seq<Seq<char>>
    decreases roots.len(),
{
    if roots.len() == 0 {
        Seq::empty()
    } else {
        let rest = root_removals(roots.drop_last());
        if roots.last().remove {
            rest.push(roots.last().path@)
        } else {
            rest
        }
    }
}

/// Paths of the first `n` generations tagged for removal, newest first.
pub open spec fn generation_removals(gens: Seq<Generation>, remove: Seq<bool>, n: nat) -> Seq<Seq<char>>
    decreases n,
{
    if n == 0 {
        Seq::empty()
    } else {
        let rest = generation_removals(gens, remove, (n - 1) as nat);
        if remove[n - 1] {
            seq![gens[n - 1].path@] + rest
        } else {
            rest
        }
    }
}

/// Paths of the generations tagged for removal, profile by profile, each
/// profile's newest first.
pub open spec fn profile_removals(plans: Seq<ProfilePlan>) -> Seq<Seq<char>>
    decreases plans.len(),
{
    if plans.len() == 0 {
        Seq::empty()
    } else {
        let p = plans.last();
        profile_removals(plans.drop_last()) + generation_removals(
            p.generations@,
            p.remove@,
            p.generations@.len(),
        )
    }
}

/// GC roots first, then generations.
pub open spec fn all_removals(roots: Seq<GcRootTag>, plans: Seq<ProfilePlan>) -> Seq<Seq<char>> {
    root_removals(roots) + profile_removals(plans)
}

/// What `execute_plan` decides.
pub open spec fn execution_matches(
    args: CleanArgs,
    confirmed: bool,
    roots: Seq<GcRootTag>,
    plans: Seq<ProfilePlan>,
    e: Execution,
) -> bool {
    &&& string_views(e.removals@) == if proceeds(args, confirmed) {
        all_removals(roots, plans)
    } else {
        Seq::empty()
    }
    &&& e.collect_garbage == (proceeds(args, confirmed) && !args.nogc)
}

/// Decides what is done once the plan was shown. `confirmed` is the user's
/// answer where `needs_confirmation` asked for one. In a dry run, or when
/// the user declined, nothing is removed and the collector does not run;
/// otherwise the tagged GC roots and then the tagged generations (newest
/// first) are removed, and the collector runs unless turned off.
pub fn execute_plan(args: &CleanArgs, confirmed: bool, roots: &Vec<GcRootTag>, plans: &Vec<ProfilePlan>) -> (r: Execution)
    requires
        forall|i: int| 0 <= i < plans@.len() ==> (#[trigger] plans@[i]).wf(),
    ensures
        execution_matches(*args, confirmed, roots@, plans@, r),
{
    let mut removals: Vec<String> = Vec::new();
    if args.dry || (args.ask && !confirmed) {
        assert(string_views(removals@) =~= Seq::<Seq<char>>::empty());
        return Execution { removals, collect_garbage: false };
    }
    let mut i: usize = 0;
    while i < roots.len()
        invariant
            i <= roots@.len(),
            string_views(removals@) == root_removals(roots@.subrange(0, i as int)),
        decreases roots@.len() - i,
    {
        assert(roots@.subrange(0, i + 1).drop_last() == roots@.subrange(0, i as int));
        let ghost before = removals@;
        if roots[i].remove {
            removals.push(roots[i].path.clone());
            assert(string_views(removals@) =~= string_views(before).push(roots@[i as int].path@));
        }
        i = i + 1;
    }
    assert(roots@.subrange(0, i as int) == roots@);
    let mut k: usize = 0;
    while k < plans.len()
        invariant
            k <= plans@.len(),
            forall|i: int| 0 <= i < plans@.len() ==> (#[trigger] plans@[i]).wf(),
            string_views(removals@) == root_removals(roots@) + profile_removals(plans@.subrange(0, k as int)),
        decreases plans@.len() - k,
    {
        assert(plans@.subrange(0, k + 1).drop_last() == plans@.subrange(0, k as int));
        let p = &plans[k];
        assert(p.wf());
        let ghost base = removals@;
        let mut j: usize = p.generations.len();
        while j > 0
            invariant
                j <= p.generations@.len() == p.remove@.len(),
                string_views(removals@) == string_views(base) + (generation_removals(
                    p.generations@,
                    p.remove@,
                    p.generations@.len(),
                ).subrange(
                    0,
                    generation_removals(p.generations@, p.remove@, p.generations@.len()).len()
                        - generation_removals(p.generations@, p.remove@, j as nat).len(),
                )),
            decreases j,
        {
            proof {
                lemma_generation_removals_len(p.generations@, p.remove@, (j - 1) as nat, p.generations@.len());
            }
            let ghost before = removals@;
            if p.remove[j - 1] {
                removals.push(p.generations[j - 1].path.clone());
            }
            proof {
                let all = generation_removals(p.generations@, p.remove@, p.generations@.len());
                lemma_generation_removals_suffix(p.generations@, p.remove@, j as nat, p.generations@.len());
                lemma_generation_removals_suffix(p.generations@, p.remove@, (j - 1) as nat, p.generations@.len());
                let cut = all.len() - generation_removals(p.generations@, p.remove@, j as nat).len();
                let cut2 = all.len() - generation_removals(p.generations@, p.remove@, (j - 1) as nat).len();
                if p.remove@[j - 1] {
                    let gj = generation_removals(p.generations@, p.remove@, j as nat);
                    assert(gj[0] == p.generations@[j - 1].path@);
                    assert(all.subrange(cut, all.len() as int)[0] == all[cut]);
                    assert(all[cut] == p.generations@[j - 1].path@);
                    assert(all.subrange(0, cut2) =~= all.subrange(0, cut).push(p.generations@[j - 1].path@));
                    assert(string_views(removals@) =~= string_views(before).push(p.generations@[j - 1].path@));
                } else {
                    assert(cut == cut2);
                }
            }
            j = j - 1;
        }
        proof {
            let all = generation_removals(p.generations@, p.remove@, p.generations@.len());
            assert(all.subrange(0, all.len() as int) == all);
        }
        k = k + 1;
    }
    assert(plans@.subrange(0, k as int) == plans@);
    Execution { removals, collect_garbage: !args.nogc }
}

/// A dry run removes nothing and does not run the collector, whatever was
/// tagged and whatever was answered.
pub proof fn lemma_dry_run_changes_nothing(
    args: CleanArgs,
    confirmed: bool,
    roots: Seq<GcRootTag>,
    plans: Seq<ProfilePlan>,
    e: Execution,
)
    requires
        args.dry,
        execution_matches(args, confirmed, roots, plans, e),
    ensures
        e.removals@.len() == 0,
        !e.collect_garbage,
        !confirmation_needed(args),
{
    assert(string_views(e.removals@).len() == e.removals@.len());
}

/// When asked for confirmation and declined, nothing is removed and the
/// collector does not run.
pub proof fn lemma_declined_changes_nothing(
    args: CleanArgs,
    roots: Seq<GcRootTag>,
    plans: Seq<ProfilePlan>,
    e: Execution,
)
    requires
        args.ask,
        execution_matches(args, false, roots, plans, e),
    ensures
        e.removals@.len() == 0,
        !e.collect_garbage,
{
    assert(string_views(e.removals@).len() == e.removals@.len());
}

proof fn lemma_generation_removals_len(gens: Seq<Generation>, remove: Seq<bool>, m: nat, n: nat)
    requires
        m <= n,
    ensures
        generation_removals(gens, remove, m).len() <= generation_removals(gens, remove, n).len(),
    decreases n,
{
    if m < n {
        lemma_generation_removals_len(gens, remove, m, (n - 1) as nat);
    }
}

/// The removals of the first `m` generations end the removals of the first `n`.
proof fn lemma_generation_removals_suffix(gens: Seq<Generation>, remove: Seq<bool>, m: nat, n: nat)
    requires
        m <= n,
    ensures
        generation_removals(gens, remove, m).len() <= generation_removals(gens, remove, n).len(),
        generation_removals(gens, remove, n).subrange(
            generation_removals(gens, remove, n).len() - generation_removals(gens, remove, m).len(),
            generation_removals(gens, remove, n).len() as int,
        ) == generation_removals(gens, remove, m),
    decreases n,
{
    let all = generation_removals(gens, remove, n);
    if m < n {
        lemma_generation_removals_suffix(gens, remove, m, (n - 1) as nat);
        let rest = generation_removals(gens, remove, (n - 1) as nat);
        let part = generation_removals(gens, remove, m);
        if remove[n - 1] {
            assert(all.subrange(all.len() - part.len(), all.len() as int) =~= rest.subrange(
                rest.len() - part.len(),
                rest.len() as int,
            ));
        }
    } else {
        assert(all.subrange(0, all.len() as int) == all);
    }
}

} // verus!
