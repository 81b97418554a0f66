//! Generations of a profile and the retention policy that tags each one as
//! kept or to be removed.

use vstd::prelude::*;

use crate::error::CleanError;
use crate::naming::{
    all_digits, chars_of, decimal, digits_value, generation_link_name, is_digit, lemma_decimal,
    link_suffix, parse_digits,
};

verus! {

broadcast use {vstd::seq_lib::to_multiset_insert, vstd::seq_lib::to_multiset_build};

/// One generation link of a profile. Times are nanoseconds since the Unix
/// epoch; `last_modified` is the link's own modification time.
#[derive(Debug)]
pub struct Generation {
    pub number: u64,
    pub last_modified: u128,
    pub path: String,
}

/// An entry of a profile's directory, as listed from disk: its full path,
/// its file name, and its own modification time where that could be read.
pub struct LinkEntry {
    pub path: String,
    pub file_name: String,
    pub last_modified: Option<u128>,
}

/// Number of leading decimal digits of `s`.
pub open spec fn leading_digits(s: Seq<char>) -> nat
    decreases s.len(),
{
    if s.len() > 0 && is_digit(s[0]) {
        1 + leading_digits(s.drop_first())
    } else {
        0
    }
}

proof fn lemma_leading_digits(s: Seq<char>)
    ensures
        leading_digits(s) <= s.len(),
        all_digits(s.subrange(0, leading_digits(s) as int)),
        leading_digits(s) < s.len() ==> !is_digit(s[leading_digits(s) as int]),
    decreases s.len(),
{
    if s.len() > 0 && is_digit(s[0]) {
        lemma_leading_digits(s.drop_first());
        let k = leading_digits(s) as int;
        assert forall|i: int| 0 <= i < k implies is_digit(#[trigger] s.subrange(0, k)[i]) by {
            if i > 0 {
                assert(s.subrange(0, k)[i] == s.drop_first().subrange(0, k - 1)[i - 1]);
            }
        }
        if k < s.len() {
            assert(s[k] == s.drop_first()[k - 1]);
        }
    }
}

/// Number of the generation of profile `profile` that a file named `name`
/// is, if it is one: `name` begins with `<profile>-<digits>-link` (the
/// profile's name taken literally, the digits ASCII and their value within
/// 64 bits), whatever follows.
pub open spec fn generation_of_spec(profile: Seq<char>, name: Seq<char>) -> Option<nat> {
    let p = profile.len();
    let rest = name.subrange(p as int + 1, name.len() as int);
    let k = leading_digits(rest);
    if name.len() > p && name.subrange(0, p as int) == profile && name[p as int] == '-' && k > 0
        && rest.len() >= k + 5 && rest.subrange(k as int, k as int + 5) == link_suffix()
        && digits_value(rest.subrange(0, k as int)) <= u64::MAX {
        Some(digits_value(rest.subrange(0, k as int)))
    } else {
        None
    }
}

/// Number of the generation of profile `profile` that a file named `name`
/// is, if it is one.
pub fn generation_of(profile: &str, name: &str) -> (r: Option<u64>)
    ensures
        r is Some <==> generation_of_spec(profile@, name@) is Some,
        r matches Some(n) ==> generation_of_spec(profile@, name@) == Some(n as nat),
{
    let pc = chars_of(profile);
    let d = chars_of(name);
    let p = pc.len();
    let n = d.len();
    if n <= p {
        return None;
    }
    let mut i: usize = 0;
    while i < p
        invariant
            p == profile@.len() == pc@.len(),
            n == name@.len() == d@.len(),
            pc@ == profile@,
            d@ == name@,
            p < n,
            i <= p,
            forall|j: int| 0 <= j < i ==> d@[j] == pc@[j],
        decreases p - i,
    {
        if d[i] != pc[i] {
            assert(name@.subrange(0, p as int)[i as int] != profile@[i as int]);
            return None;
        }
        i = i + 1;
    }
    assert(name@.subrange(0, p as int) =~= profile@);
    if d[p] != '-' {
        return None;
    }
    let start = p + 1;
    let ghost rest = name@.subrange(start as int, n as int);
    let mut j: usize = start;
    assert(rest == d@.subrange(start as int, n as int));
    while j < n && '0' <= d[j] && d[j] <= '9'
        invariant
            start <= j <= n == d@.len(),
            rest == d@.subrange(start as int, n as int),
            leading_digits(rest) == (j - start) + leading_digits(d@.subrange(j as int, n as int)),
        decreases n - j,
    {
        assert(d@.subrange(j as int, n as int).drop_first() == d@.subrange(j + 1, n as int));
        j = j + 1;
    }
    if j < n {
        assert(d@.subrange(j as int, n as int)[0] == d@[j as int]);
    }
    assert(leading_digits(rest) == j - start);
    proof {
        lemma_leading_digits(rest);
    }
    let k = j - start;
    if k == 0 || n - j < 5 || d[j] != '-' || d[j + 1] != 'l' || d[j + 2] != 'i' || d[j + 3] != 'n'
        || d[j + 4] != 'k' {
        proof {
            if k > 0 && n - j >= 5 {
                let w = rest.subrange(k as int, k as int + 5);
                assert(w[0] == d@[j as int] && w[1] == d@[j + 1] && w[2] == d@[j + 2]);
                assert(w[3] == d@[j + 3] && w[4] == d@[j + 4]);
            }
        }
        return None;
    }
    assert(rest.subrange(k as int, k as int + 5) =~= link_suffix());
    assert(rest.subrange(0, k as int) == d@.subrange(start as int, j as int));
    parse_digits(&d, start, j)
}

/// The name of generation `n` of `profile` is recognised as that generation.
pub proof fn lemma_generation_of_link_name(profile: Seq<char>, n: nat)
    requires
        n <= u64::MAX,
    ensures
        generation_of_spec(profile, generation_link_name(profile, n)) == Some(n),
{
    let name = generation_link_name(profile, n);
    let p = profile.len();
    lemma_decimal(n);
    let rest = name.subrange(p as int + 1, name.len() as int);
    assert(rest =~= decimal(n) + link_suffix());
    assert(name.subrange(0, p as int) =~= profile);
    assert(name[p as int] == '-');
    lemma_leading_digits_of(decimal(n), link_suffix());
    assert(rest.subrange(0, decimal(n).len() as int) =~= decimal(n));
    assert(rest.subrange(decimal(n).len() as int, decimal(n).len() as int + 5) =~= link_suffix());
}

proof fn lemma_leading_digits_of(a: Seq<char>, b: Seq<char>)
    requires
        all_digits(a),
        b.len() > 0,
        !is_digit(b[0]),
    ensures
        leading_digits(a + b) == a.len(),
    decreases a.len(),
{
    if a.len() > 0 {
        assert((a + b).drop_first() =~= a.drop_first() + b);
        assert((a + b)[0] == a[0]);
        lemma_leading_digits_of(a.drop_first(), b);
    } else {
        assert(a + b =~= b);
    }
}

/// A profile's own link, named as the profile, is never taken for one of
/// its generations.
pub proof fn lemma_profile_link_not_a_generation(profile: Seq<char>)
    ensures
        generation_of_spec(profile, profile) is None,
{
}

/// The entry is a generation link of `profile`.
pub open spec fn is_profile_link(profile: Seq<char>, e: LinkEntry) -> bool {
    generation_of_spec(profile, e.file_name@) is Some
}

/// The generations of `profile` among `entries`, in listing order.
pub open spec fn profile_generations(profile: Seq<char>, entries: Seq<LinkEntry>) -> Seq<Generation>
    decreases entries.len(),
{
    if entries.len() == 0 {
        Seq::empty()
    } else {
        let rest = profile_generations(profile, entries.drop_last());
        let e = entries.last();
        match (generation_of_spec(profile, e.file_name@), e.last_modified) {
            (Some(n), Some(t)) => rest.push(
                Generation { number: n as u64, last_modified: t, path: e.path },
            ),
            _ => rest,
        }
    }
}

/// Numbers never decrease along `gens`.
pub open spec fn sorted_by_number(gens: Seq<Generation>) -> bool {
    forall|i: int, j: int| 0 <= i <= j < gens.len() ==> gens[i].number <= gens[j].number
}

/// Where a generation numbered `n` goes in the ascending `s`: after every
/// generation numbered `n` or less.
pub open spec fn insert_pos(s: Seq<Generation>, n: u64) -> nat
    decreases s.len(),
{
    if s.len() > 0 && s.last().number > n {
        insert_pos(s.drop_last(), n)
    } else {
        s.len()
    }
}

/// `s` in ascending order of numbers; generations with equal numbers keep
/// their order in `s`.
pub open spec fn sorted_generations(s: Seq<Generation>) -> Seq<Generation>
    decreases s.len(),
{
    if s.len() == 0 {
        Seq::empty()
    } else {
        let r = sorted_generations(s.drop_last());
        r.insert(insert_pos(r, s.last().number) as int, s.last())
    }
}

/// The generations of `profile` among `entries`, ascending by number, in
/// listing order where numbers are equal.
pub open spec fn listed_generations(profile: Seq<char>, entries: Seq<LinkEntry>) -> Seq<Generation> {
    sorted_generations(profile_generations(profile, entries))
}

proof fn lemma_insert_pos_bound(s: Seq<Generation>, n: u64)
    ensures
        insert_pos(s, n) <= s.len(),
    decreases s.len(),
{
    if s.len() > 0 && s.last().number > n {
        lemma_insert_pos_bound(s.drop_last(), n);
    }
}

proof fn lemma_sorted_generations_contents(s: Seq<Generation>)
    ensures
        sorted_generations(s).to_multiset() == s.to_multiset(),
    decreases s.len(),
{
    if s.len() > 0 {
        lemma_sorted_generations_contents(s.drop_last());
        let r = sorted_generations(s.drop_last());
        lemma_insert_pos_bound(r, s.last().number);
        assert(s.drop_last().push(s.last()) == s);
        assert(r.insert(insert_pos(r, s.last().number) as int, s.last()).to_multiset()
            == r.to_multiset().insert(s.last()));
        assert(s.drop_last().push(s.last()).to_multiset() == s.drop_last().to_multiset().insert(s.last()));
    } else {
        assert(sorted_generations(s) =~= s);
    }
}

proof fn lemma_profile_generations_has(profile: Seq<char>, entries: Seq<LinkEntry>, i: int)
    requires
        0 <= i < entries.len(),
        generation_of_spec(profile, entries[i].file_name@) is Some,
        entries[i].last_modified is Some,
    ensures
        profile_generations(profile, entries).contains(
            Generation {
                number: generation_of_spec(profile, entries[i].file_name@)->Some_0 as u64,
                last_modified: entries[i].last_modified->Some_0,
                path: entries[i].path,
            },
        ),
    decreases entries.len(),
{
    let g = Generation {
        number: generation_of_spec(profile, entries[i].file_name@)->Some_0 as u64,
        last_modified: entries[i].last_modified->Some_0,
        path: entries[i].path,
    };
    let rest = profile_generations(profile, entries.drop_last());
    if i < entries.len() - 1 {
        assert(entries.drop_last()[i] == entries[i]);
        lemma_profile_generations_has(profile, entries.drop_last(), i);
        let k = choose|k: int| 0 <= k < rest.len() && rest[k] == g;
        let all = profile_generations(profile, entries);
        assert(all[k] == g);
    } else {
        let all = profile_generations(profile, entries);
        assert(all[all.len() - 1] == g);
    }
}

/// A link named `<profile>-<n>-link` with a readable time is among the
/// generations that an evaluation lists, with its number, time and path.
pub proof fn lemma_generation_link_listed(profile: Seq<char>, entries: Seq<LinkEntry>, i: int, n: nat)
    requires
        0 <= i < entries.len(),
        n <= u64::MAX,
        entries[i].file_name@ == generation_link_name(profile, n),
        entries[i].last_modified is Some,
    ensures
        listed_generations(profile, entries).contains(
            Generation {
                number: n as u64,
                last_modified: entries[i].last_modified->Some_0,
                path: entries[i].path,
            },
        ),
{
    lemma_generation_of_link_name(profile, n);
    lemma_profile_generations_has(profile, entries, i);
    let pg = profile_generations(profile, entries);
    let g = Generation {
        number: n as u64,
        last_modified: entries[i].last_modified->Some_0,
        path: entries[i].path,
    };
    lemma_sorted_generations_contents(pg);
    pg.to_multiset_ensures();
    listed_generations(profile, entries).to_multiset_ensures();
    assert(pg.to_multiset().count(g) > 0);
}

/// Some generation link of `profile` among `entries` has no readable time.
pub open spec fn missing_metadata(profile: Seq<char>, entries: Seq<LinkEntry>) -> bool {
    exists|i: int|
        0 <= i < entries.len() && is_profile_link(profile, #[trigger] entries[i])
            && entries[i].last_modified is None
}

/// Gathers the generations of `profile` out of a directory listing, in
/// ascending order of their numbers; fails on a generation link whose
/// modification time could not be read.
pub fn collect_generations(profile: &str, entries: &Vec<LinkEntry>) -> (r: Result<Vec<Generation>, CleanError>)
    ensures
        r is Err <==> missing_metadata(profile@, entries@),
        r matches Err(CleanError::MissingMetadata { path }) ==> exists|i: int|
            0 <= i < entries@.len() && is_profile_link(profile@, #[trigger] entries@[i])
                && entries@[i].last_modified is None && entries@[i].path == path,
        r matches Ok(v) ==> v@ == listed_generations(profile@, entries@),
        r matches Ok(v) ==> sorted_by_number(v@) && v@.to_multiset() == profile_generations(
            profile@,
            entries@,
        ).to_multiset(),
{
    let mut res: Vec<Generation> = Vec::new();
    let mut k: usize = 0;
    while k < entries.len()
        invariant
            k <= entries@.len(),
            sorted_by_number(res@),
            res@ == sorted_generations(profile_generations(profile@, entries@.subrange(0, k as int))),
            res@.to_multiset() == profile_generations(profile@, entries@.subrange(0, k as int)).to_multiset(),
            !missing_metadata(profile@, entries@.subrange(0, k as int)),
        decreases entries@.len() - k,
    {
        let ghost pre = entries@.subrange(0, k as int);
        let ghost next = entries@.subrange(0, k + 1);
        assert(next.drop_last() == pre);
        let e = &entries[k];
        assert(next.last() == entries@[k as int]);
        match generation_of(profile, e.file_name.as_str()) {
            None => {
                assert(profile_generations(profile@, next) == profile_generations(profile@, pre));
                assert forall|i: int| 0 <= i < next.len() && is_profile_link(profile@, #[trigger] next[i])
                    implies next[i].last_modified is Some by {
                    if i < k {
                        assert(next[i] == pre[i]);
                    }
                }
            },
            Some(n) => match e.last_modified {
                None => {
                    assert(entries@[k as int] == e);
                    return Err(CleanError::MissingMetadata { path: e.path.clone() });
                },
                Some(t) => {
                    let g = Generation { number: n, last_modified: t, path: e.path.clone() };
                    let mut pos: usize = res.len();
                    assert(res@.subrange(0, pos as int) == res@);
                    while pos > 0 && res[pos - 1].number > n
                        invariant
                            pos <= res@.len(),
                            insert_pos(res@, n) == insert_pos(res@.subrange(0, pos as int), n),
                            forall|j: int| pos <= j < res@.len() ==> res@[j].number > n,
                        decreases pos,
                    {
                        assert(res@.subrange(0, pos - 1) =~= res@.subrange(0, pos as int).drop_last());
                        assert(res@.subrange(0, pos as int).last() == res@[pos - 1]);
                        pos = pos - 1;
                    }
                    let ghost old_res = res@;
                    assert(insert_pos(old_res, n) == pos) by {
                        if pos > 0 {
                            assert(res@.subrange(0, pos as int).last() == res@[pos - 1]);
                        }
                    }
                    res.insert(pos, g);
                    assert(res@.to_multiset() == old_res.to_multiset().insert(g));
                    assert(profile_generations(profile@, next) == profile_generations(profile@, pre).push(g));
                    assert(profile_generations(profile@, pre).push(g).drop_last() == profile_generations(profile@, pre));
                    assert(res@ == sorted_generations(profile_generations(profile@, next)));
                    assert forall|i: int, j: int| 0 <= i <= j < res@.len() implies res@[i].number
                        <= res@[j].number by {
                        if i < pos as int && j > pos as int {
                            if pos > 0 {
                                assert(old_res[pos - 1].number <= n);
                            }
                        }
                    }
                    assert forall|i: int| 0 <= i < next.len() && is_profile_link(profile@, #[trigger] next[i])
                        implies next[i].last_modified is Some by {
                        if i < k {
                            assert(next[i] == pre[i]);
                        }
                    }
                },
            },
        }
        k = k + 1;
    }
    assert(entries@.subrange(0, k as int) == entries@);
    Ok(res)
}

/// The age pass keeps `g`: it is no older than `keep_since` at `now`.
/// A modification time after `now` gives no age, and so no exemption.
pub open spec fn kept_by_age(g: Generation, now: u128, keep_since: u128) -> bool {
    g.last_modified <= now && now - g.last_modified <= keep_since
}

/// The count pass keeps position `i` of `len` ascending generations: it is
/// among the `keep` newest.
pub open spec fn kept_by_count(len: nat, i: int, keep: nat) -> bool {
    i + keep >= len
}

/// The retention tag of each generation: `true` where it is to be removed.
pub open spec fn removal_tags(gens: Seq<Generation>, now: u128, keep: nat, keep_since: u128) -> Seq<bool> {
    Seq::new(
        gens.len(),
        |i: int| !kept_by_age(gens[i], now, keep_since) && !kept_by_count(gens.len(), i, keep),
    )
}

/// Number of `true` tags.
pub open spec fn count_removed(tags: Seq<bool>) -> nat
    decreases tags.len(),
{
    if tags.len() == 0 {
        0
    } else {
        count_removed(tags.drop_last()) + if tags.last() {
            1nat
        } else {
            0nat
        }
    }
}

/// Tags each of the ascending generations `gens` for removal (`true`) or
/// keeping: a generation is kept when it is no older than `keep_since` at
/// `now`, or when it is among the `keep` last of `gens`.
pub fn tag_generations(gens: &Vec<Generation>, now: u128, keep: u32, keep_since: u128) -> (r: Vec<bool>)
    ensures
        r@ == removal_tags(gens@, now, keep as nat, keep_since),
{
    let n = gens.len();
    let mut tags: Vec<bool> = Vec::new();
    let mut i: usize = 0;
    while i < n
        invariant
            n == gens@.len(),
            i <= n,
            tags@.len() == i,
            forall|j: int| 0 <= j < i ==> tags@[j] == removal_tags(gens@, now, keep as nat, keep_since)[j],
        decreases n - i,
    {
        let g = &gens[i];
        let mut remove = true;
        if g.last_modified <= now {
            if now - g.last_modified <= keep_since {
                remove = false;
            }
        }
        if (keep as usize) >= n - i {
            remove = false;
        }
        tags.push(remove);
        i = i + 1;
    }
    assert(tags@ == removal_tags(gens@, now, keep as nat, keep_since));
    tags
}

/// Position `i` holds a generation with the highest number of `gens`.
pub open spec fn is_newest(gens: Seq<Generation>, i: int) -> bool {
    0 <= i < gens.len() && forall|j: int| 0 <= j < gens.len() ==> gens[j].number <= gens[i].number
}

/// The profile link, pointing at `target`, is safe to clean against: there
/// is no generation, or `target` is the path of one bearing the highest number.
pub open spec fn profile_consistent(target: Seq<char>, gens: Seq<Generation>) -> bool {
    gens.len() == 0 || exists|i: int| is_newest(gens, i) && (#[trigger] gens[i]).path@ == target
}

/// Checks that the profile link's target is the newest generation.
pub fn check_profile(target: &String, gens: &Vec<Generation>) -> (r: Result<(), CleanError>)
    ensures
        r is Ok <==> profile_consistent(target@, gens@),
        r matches Err(e) ==> e == (CleanError::InconsistentProfile { target: *target }),
{
    let n = gens.len();
    if n == 0 {
        return Ok(());
    }
    let mut top: u64 = gens[0].number;
    let mut i: usize = 1;
    while i < n
        invariant
            n == gens@.len(),
            1 <= i <= n,
            exists|j: int| 0 <= j < i && gens@[j].number == top,
            forall|j: int| 0 <= j < i ==> gens@[j].number <= top,
        decreases n - i,
    {
        if gens[i].number > top {
            top = gens[i].number;
        }
        i = i + 1;
    }
    let mut k: usize = 0;
    while k < n
        invariant
            n == gens@.len(),
            k <= n,
            forall|j: int| 0 <= j < n ==> gens@[j].number <= top,
            exists|j: int| 0 <= j < n && gens@[j].number == top,
            forall|j: int| 0 <= j < k ==> !(gens@[j].number == top && gens@[j].path@ == target@),
        decreases n - k,
    {
        if gens[k].number == top && gens[k].path == *target {
            assert(is_newest(gens@, k as int));
            return Ok(());
        }
        k = k + 1;
    }
    assert forall|i: int| is_newest(gens@, i) implies !((#[trigger] gens@[i]).path@ == target@) by {
        let j = choose|j: int| 0 <= j < n && gens@[j].number == top;
        assert(gens@[j].number <= gens@[i].number);
    }
    Err(CleanError::InconsistentProfile { target: target.clone() })
}

/// Tags the generations of one profile. `target` is where the profile link
/// points, `entries` the listing of the profile's directory. Fails when a
/// generation's time cannot be read, or when the profile link does not
/// point at the newest generation.
pub fn cleanable_generations(
    profile: &str,
    target: &String,
    entries: &Vec<LinkEntry>,
    now: u128,
    keep: u32,
    keep_since: u128,
) -> (r: Result<(Vec<Generation>, Vec<bool>), CleanError>)
    ensures
        missing_metadata(profile@, entries@) ==> r is Err,
        r matches Ok((gens, tags)) ==> {
            &&& gens@ == listed_generations(profile@, entries@)
            &&& sorted_by_number(gens@)
            &&& gens@.to_multiset() == profile_generations(profile@, entries@).to_multiset()
            &&& profile_consistent(target@, gens@)
            &&& tags@ == removal_tags(gens@, now, keep as nat, keep_since)
        },
        !missing_metadata(profile@, entries@) ==> (r is Ok <==> profile_consistent(
            target@,
            profile_generations(profile@, entries@),
        )),
        !missing_metadata(profile@, entries@) && !profile_consistent(
            target@,
            profile_generations(profile@, entries@),
        ) ==> r == Err::<(Vec<Generation>, Vec<bool>), CleanError>(
            CleanError::InconsistentProfile { target: *target },
        ),
{
    let gens = collect_generations(profile, entries)?;
    proof {
        lemma_consistency_by_contents(target@, gens@, profile_generations(profile@, entries@));
    }
    check_profile(target, &gens)?;
    let tags = tag_generations(&gens, now, keep, keep_since);
    Ok((gens, tags))
}

proof fn lemma_newest_by_contents(target: Seq<char>, a: Seq<Generation>, b: Seq<Generation>)
    requires
        a.to_multiset() == b.to_multiset(),
        a.len() > 0,
        profile_consistent(target, a),
    ensures
        profile_consistent(target, b),
{
    a.to_multiset_ensures();
    b.to_multiset_ensures();
    let i = choose|i: int| is_newest(a, i) && (#[trigger] a[i]).path@ == target;
    assert(a.to_multiset().count(a[i]) > 0);
    assert(b.contains(a[i]));
    let k = choose|k: int| 0 <= k < b.len() && b[k] == a[i];
    assert forall|j: int| 0 <= j < b.len() implies b[j].number <= b[k].number by {
        assert(b.to_multiset().count(b[j]) > 0);
        assert(a.contains(b[j]));
        let m = choose|m: int| 0 <= m < a.len() && a[m] == b[j];
    }
    assert(is_newest(b, k));
}

proof fn lemma_consistency_by_contents(target: Seq<char>, a: Seq<Generation>, b: Seq<Generation>)
    requires
        a.to_multiset() == b.to_multiset(),
    ensures
        profile_consistent(target, a) == profile_consistent(target, b),
{
    a.to_multiset_ensures();
    b.to_multiset_ensures();
    assert(a.len() == b.len());
    if a.len() > 0 {
        if profile_consistent(target, a) {
            lemma_newest_by_contents(target, a, b);
        }
        if profile_consistent(target, b) {
            lemma_newest_by_contents(target, b, a);
        }
    }
}

proof fn lemma_count_removed_pointwise(a: Seq<bool>, b: Seq<bool>)
    requires
        a.len() == b.len(),
        forall|i: int| 0 <= i < a.len() && #[trigger] a[i] ==> b[i],
    ensures
        count_removed(a) <= count_removed(b),
    decreases a.len(),
{
    if a.len() > 0 {
        assert forall|i: int| 0 <= i < a.drop_last().len() && #[trigger] a.drop_last()[i]
            implies b.drop_last()[i] by {
            assert(a.drop_last()[i] == a[i]);
        }
        lemma_count_removed_pointwise(a.drop_last(), b.drop_last());
    }
}

/// Keeping more generations by count never removes more of them: what is
/// removed then was removed before, and there are no more of them.
pub proof fn lemma_more_keep_removes_no_more(
    gens: Seq<Generation>,
    now: u128,
    keep: nat,
    more: nat,
    keep_since: u128,
)
    requires
        keep <= more,
    ensures
        forall|i: int|
            0 <= i < gens.len() && #[trigger] removal_tags(gens, now, more, keep_since)[i]
                ==> removal_tags(gens, now, keep, keep_since)[i],
        count_removed(removal_tags(gens, now, more, keep_since)) <= count_removed(
            removal_tags(gens, now, keep, keep_since),
        ),
{
    lemma_count_removed_pointwise(
        removal_tags(gens, now, more, keep_since),
        removal_tags(gens, now, keep, keep_since),
    );
}

/// A longer age window never removes more generations: what is removed
/// then was removed before, and there are no more of them.
pub proof fn lemma_longer_window_removes_no_more(
    gens: Seq<Generation>,
    now: u128,
    keep: nat,
    keep_since: u128,
    longer: u128,
)
    requires
        keep_since <= longer,
    ensures
        forall|i: int|
            0 <= i < gens.len() && #[trigger] removal_tags(gens, now, keep, longer)[i]
                ==> removal_tags(gens, now, keep, keep_since)[i],
        count_removed(removal_tags(gens, now, keep, longer)) <= count_removed(
            removal_tags(gens, now, keep, keep_since),
        ),
{
    lemma_count_removed_pointwise(
        removal_tags(gens, now, keep, longer),
        removal_tags(gens, now, keep, keep_since),
    );
}

/// With a count of one and no age window, of two or more ascending
/// generations with distinct numbers, all modified before `now`, exactly
/// the one with the highest number is kept.
pub proof fn lemma_keep_one_keeps_newest(gens: Seq<Generation>, now: u128)
    requires
        gens.len() >= 2,
        forall|i: int, j: int| 0 <= i < j < gens.len() ==> gens[i].number < gens[j].number,
        forall|i: int| 0 <= i < gens.len() ==> (#[trigger] gens[i]).last_modified < now,
    ensures
        is_newest(gens, gens.len() - 1),
        forall|i: int|
            0 <= i < gens.len() ==> (#[trigger] removal_tags(gens, now, 1, 0)[i] <==> i
                != gens.len() - 1),
{
}

/// Evaluating one directory listing twice, with the same profile, policy
/// and time, gives the same generations in the same order and the same
/// tags: what `cleanable_generations` returns is a function of these.
pub proof fn lemma_evaluation_deterministic(
    profile: Seq<char>,
    entries: Seq<LinkEntry>,
    now: u128,
    keep: nat,
    keep_since: u128,
    first: (Seq<Generation>, Seq<bool>),
    second: (Seq<Generation>, Seq<bool>),
)
    requires
        first.0 == listed_generations(profile, entries),
        first.1 == removal_tags(first.0, now, keep, keep_since),
        second.0 == listed_generations(profile, entries),
        second.1 == removal_tags(second.0, now, keep, keep_since),
    ensures
        first == second,
{
}

/// The generations that `tags` keeps, in order.
pub open spec fn survivors(gens: Seq<Generation>, tags: Seq<bool>) -> Seq<Generation>
    decreases gens.len(),
{
    if gens.len() == 0 || tags.len() == 0 {
        Seq::empty()
    } else {
        let rest = survivors(gens.drop_last(), tags.drop_last());
        if tags.last() {
            rest
        } else {
            rest.push(gens.last())
        }
    }
}

proof fn lemma_survivors_kept_by_age(gens: Seq<Generation>, tags: Seq<bool>, now: u128, keep_since: u128)
    requires
        gens.len() == tags.len(),
        forall|i: int| 0 <= i < gens.len() && !#[trigger] tags[i] ==> kept_by_age(gens[i], now, keep_since),
    ensures
        forall|j: int|
            0 <= j < survivors(gens, tags).len() ==> kept_by_age(
                #[trigger] survivors(gens, tags)[j],
                now,
                keep_since,
            ),
    decreases gens.len(),
{
    if gens.len() > 0 {
        assert forall|i: int| 0 <= i < gens.drop_last().len() && !#[trigger] tags.drop_last()[i]
            implies kept_by_age(gens.drop_last()[i], now, keep_since) by {
            assert(tags.drop_last()[i] == tags[i]);
        }
        lemma_survivors_kept_by_age(gens.drop_last(), tags.drop_last(), now, keep_since);
        let rest = survivors(gens.drop_last(), tags.drop_last());
        let all = survivors(gens, tags);
        assert forall|j: int| 0 <= j < all.len() implies kept_by_age(#[trigger] all[j], now, keep_since) by {
            if j < rest.len() {
                assert(all[j] == rest[j]);
            } else {
                assert(!tags[gens.len() - 1]);
                assert(all[j] == gens[gens.len() - 1]);
            }
        }
    }
}

proof fn lemma_survivors_suffix(gens: Seq<Generation>, tags: Seq<bool>, k: nat)
    requires
        gens.len() == tags.len(),
        k <= gens.len(),
        forall|i: int| gens.len() - k <= i < gens.len() ==> !#[trigger] tags[i],
    ensures
        survivors(gens, tags) == survivors(
            gens.subrange(0, gens.len() - k),
            tags.subrange(0, gens.len() - k),
        ) + gens.subrange(gens.len() - k, gens.len() as int),
    decreases k,
{
    let n = gens.len();
    if k == 0 {
        assert(gens.subrange(0, n as int) == gens);
        assert(tags.subrange(0, n as int) == tags);
        assert(gens.subrange(n as int, n as int) =~= Seq::<Generation>::empty());
        assert(survivors(gens, tags) + Seq::<Generation>::empty() =~= survivors(gens, tags));
    } else {
        assert(!tags[n - 1]);
        assert forall|i: int| gens.drop_last().len() - (k - 1) <= i < gens.drop_last().len()
            implies !#[trigger] tags.drop_last()[i] by {
            assert(tags.drop_last()[i] == tags[i]);
        }
        lemma_survivors_suffix(gens.drop_last(), tags.drop_last(), (k - 1) as nat);
        assert(gens.drop_last().subrange(0, n - k) == gens.subrange(0, n - k));
        assert(tags.drop_last().subrange(0, n - k) == tags.subrange(0, n - k));
        assert(gens.drop_last().subrange(n - k, n - 1).push(gens.last()) =~= gens.subrange(
            n - k,
            n as int,
        ));
        let pre = survivors(gens.subrange(0, n - k), tags.subrange(0, n - k));
        assert((pre + gens.drop_last().subrange(n - k, n - 1)).push(gens.last()) =~= pre
            + gens.subrange(n - k, n as int));
    }
}

/// Evaluating again the generations that an evaluation kept, with the
/// same policy at the same time, removes none of them.
pub proof fn lemma_survivors_all_kept(gens: Seq<Generation>, now: u128, keep: nat, keep_since: u128)
    ensures
        forall|j: int|
            0 <= j < survivors(gens, removal_tags(gens, now, keep, keep_since)).len() ==> !(
            #[trigger] removal_tags(
                survivors(gens, removal_tags(gens, now, keep, keep_since)),
                now,
                keep,
                keep_since,
            )[j]),
{
    let n = gens.len();
    let tags = removal_tags(gens, now, keep, keep_since);
    let k: nat = if keep < n {
        keep
    } else {
        n
    };
    lemma_survivors_suffix(gens, tags, k);
    let pg = gens.subrange(0, n - k);
    let pt = tags.subrange(0, n - k);
    assert forall|i: int| 0 <= i < pg.len() && !#[trigger] pt[i] implies kept_by_age(
        pg[i],
        now,
        keep_since,
    ) by {
        assert(pt[i] == tags[i]);
        assert(pg[i] == gens[i]);
    }
    lemma_survivors_kept_by_age(pg, pt, now, keep_since);
    let s = survivors(gens, tags);
    let front = survivors(pg, pt);
    assert forall|j: int| 0 <= j < s.len() implies !#[trigger] removal_tags(s, now, keep, keep_since)[j] by {
        if j < front.len() {
            assert(s[j] == front[j]);
        }
    }
}

/// A profile link whose target is only ever a generation numbered below
/// some other generation is refused.
pub proof fn lemma_stale_profile_refused(target: Seq<char>, gens: Seq<Generation>, newer: int)
    requires
        0 <= newer < gens.len(),
        forall|k: int|
            0 <= k < gens.len() && (#[trigger] gens[k]).path@ == target ==> gens[k].number
                < gens[newer].number,
    ensures
        !profile_consistent(target, gens),
{
    assert forall|i: int| is_newest(gens, i) implies (#[trigger] gens[i]).path@ != target by {
        assert(gens[newer].number <= gens[i].number);
    }
}

} // verus!
