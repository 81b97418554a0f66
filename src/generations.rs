//! Generation directories as listed to the user.

use vstd::prelude::*;

use crate::naming::{
    all_digits, chars_of, decimal, digits_value, file_name, file_name_spec, generation_link_name,
    is_digit, lemma_decimal, link_suffix, name_start, parse_digits,
};
use crate::scope::join_spec;

verus! {

/// What is shown of one generation.
pub struct GenerationInfo {
    /// Number of a generation.
    pub number: String,
    /// Date on which a generation was built.
    pub date: String,
    /// NixOS version of the generation.
    pub nixos_version: String,
    /// Version of the bootable kernel of a generation.
    pub kernel_version: String,
    /// Revision of the configuration (`config.system.configurationRevision`).
    pub configuration_revision: String,
    /// Specialisations, if any.
    pub specialisations: Vec<String>,
    /// Whether the generation is the current one.
    pub current: bool,
}

/// `s` without every trailing `-link`.
pub open spec fn trim_links(s: Seq<char>) -> Seq<char>
    decreases s.len(),
{
    if s.len() >= 5 && s.subrange(s.len() - 5, s.len() as int) == link_suffix() {
        trim_links(s.subrange(0, s.len() - 5))
    } else {
        s
    }
}

/// Index just past the last `-` of `s`, or 0 where there is none.
pub open spec fn after_last_dash(s: Seq<char>) -> nat
    decreases s.len(),
{
    if s.len() == 0 {
        0
    } else if s.last() == '-' {
        s.len()
    } else {
        after_last_dash(s.drop_last())
    }
}

/// `s` less a leading `+`.
pub open spec fn unsigned_digits(s: Seq<char>) -> Seq<char> {
    if s.len() > 0 && s[0] == '+' {
        s.subrange(1, s.len() as int)
    } else {
        s
    }
}

/// The value of an unsigned decimal number as `u64` parsing reads it: an
/// optional `+`, then one digit or more.
pub open spec fn unsigned_value(s: Seq<char>) -> Option<nat> {
    let d = unsigned_digits(s);
    if d.len() > 0 && all_digits(d) && digits_value(d) <= u64::MAX {
        Some(digits_value(d))
    } else {
        None
    }
}

/// The generation number of a generation directory `p`: its last path
/// component, less any trailing `-link`s, holds a `-` followed by the number.
pub open spec fn from_dir_spec(p: Seq<char>) -> Option<nat> {
    match file_name_spec(p) {
        Some(name) => {
            let t = trim_links(name);
            if after_last_dash(t) > 0 {
                unsigned_value(t.subrange(after_last_dash(t) as int, t.len() as int))
            } else {
                None
            }
        },
        None => None,
    }
}

proof fn lemma_after_last_dash(s: Seq<char>)
    ensures
        after_last_dash(s) <= s.len(),
        after_last_dash(s) > 0 ==> s[after_last_dash(s) - 1] == '-',
    decreases s.len(),
{
    if s.len() > 0 && s.last() != '-' {
        lemma_after_last_dash(s.drop_last());
    }
}

/// Length of `d` less every trailing `-link`.
fn trimmed_len(d: &Vec<char>) -> (end: usize)
    ensures
        end <= d@.len(),
        d@.subrange(0, end as int) == trim_links(d@),
{
    let mut end: usize = d.len();
    assert(d@.subrange(0, end as int) == d@);
    while end >= 5 && d[end - 5] == '-' && d[end - 4] == 'l' && d[end - 3] == 'i' && d[end - 2] == 'n'
        && d[end - 1] == 'k'
        invariant
            end <= d@.len(),
            trim_links(d@) == trim_links(d@.subrange(0, end as int)),
        decreases end,
    {
        let ghost s = d@.subrange(0, end as int);
        assert(s.subrange(end - 5, end as int) =~= link_suffix());
        assert(s.subrange(0, end - 5) == d@.subrange(0, end - 5));
        end = end - 5;
    }
    let ghost t = d@.subrange(0, end as int);
    if end >= 5 {
        let ghost w = t.subrange(end - 5, end as int);
        assert(w != link_suffix()) by {
            if w == link_suffix() {
                assert(w[0] == d@[end - 5]);
                assert(w[1] == d@[end - 4]);
                assert(w[2] == d@[end - 3]);
                assert(w[3] == d@[end - 2]);
                assert(w[4] == d@[end - 1]);
            }
        }
    }
    end
}

/// Index just past the last `-` of `d[..end]`, or 0.
fn dash_end(d: &Vec<char>, end: usize) -> (k: usize)
    requires
        end <= d@.len(),
    ensures
        k == after_last_dash(d@.subrange(0, end as int)),
        k <= end,
        k > 0 ==> d@[k - 1] == '-',
{
    let ghost t = d@.subrange(0, end as int);
    let mut k: usize = end;
    assert(t.subrange(0, end as int) == t);
    while k > 0 && d[k - 1] != '-'
        invariant
            k <= end <= d@.len(),
            t == d@.subrange(0, end as int),
            after_last_dash(t) == after_last_dash(t.subrange(0, k as int)),
        decreases k,
    {
        assert(t.subrange(0, k - 1) == t.subrange(0, k as int).drop_last());
        k = k - 1;
    }
    proof {
        lemma_after_last_dash(t);
    }
    k
}

/// Parses `d[from..end]` as `u64` parsing does.
fn parse_unsigned(d: &Vec<char>, k: usize, end: usize) -> (r: Option<u64>)
    requires
        k <= end <= d@.len(),
    ensures
        r is Some <==> unsigned_value(d@.subrange(k as int, end as int)) is Some,
        r matches Some(n) ==> unsigned_value(d@.subrange(k as int, end as int)) == Some(n as nat),
{
    let ghost g = d@.subrange(k as int, end as int);
    let mut from: usize = k;
    assert(k < end ==> g[0] == d@[k as int]);
    if k < end && d[k] == '+' {
        from = k + 1;
        assert(g.subrange(1, g.len() as int) == d@.subrange(from as int, end as int));
    } else {
        assert(g == d@.subrange(from as int, end as int));
    }
    if from == end {
        return None;
    }
    let mut i: usize = from;
    while i < end
        invariant
            from <= i <= end <= d@.len(),
            unsigned_digits(g) == d@.subrange(from as int, end as int),
            g == d@.subrange(k as int, end as int),
            forall|j: int| from <= j < i ==> crate::naming::is_digit(#[trigger] d@[j]),
        decreases end - i,
    {
        if !('0' <= d[i] && d[i] <= '9') {
            assert(!crate::naming::is_digit(d@.subrange(from as int, end as int)[i - from]));
            return None;
        }
        i = i + 1;
    }
    assert(all_digits(d@.subrange(from as int, end as int)));
    parse_digits(d, from, end)
}

/// The generation number of the generation directory `generation_dir`.
pub fn from_dir(generation_dir: &String) -> (r: Option<u64>)
    ensures
        r is Some <==> from_dir_spec(generation_dir@) is Some,
        r matches Some(n) ==> from_dir_spec(generation_dir@) == Some(n as nat),
{
    let name = match file_name(generation_dir) {
        Some(n) => n,
        None => return None,
    };
    let d = chars_of(name.as_str());
    let end = trimmed_len(&d);
    let k = dash_end(&d, end);
    if k == 0 {
        return None;
    }
    assert(d@.subrange(0, end as int).subrange(k as int, end as int) == d@.subrange(k as int, end as int));
    parse_unsigned(&d, k, end)
}

proof fn lemma_name_start_after(p: Seq<char>, q: Seq<char>)
    requires
        p.len() > 0,
        p.last() == '/',
        !q.contains('/'),
    ensures
        name_start(p + q) == p.len(),
    decreases q.len(),
{
    if q.len() == 0 {
        assert(p + q == p);
    } else {
        assert((p + q).drop_last() == p + q.drop_last());
        assert((p + q).last() == q.last());
        assert(!q.drop_last().contains('/')) by {
            if q.drop_last().contains('/') {
                let i = choose|i: int| 0 <= i < q.drop_last().len() && q.drop_last()[i] == '/';
                assert(q[i] == '/');
            }
        }
        lemma_name_start_after(p, q.drop_last());
    }
}

proof fn lemma_after_last_dash_after(p: Seq<char>, q: Seq<char>)
    requires
        p.len() > 0,
        p.last() == '-',
        all_digits(q),
    ensures
        after_last_dash(p + q) == p.len(),
    decreases q.len(),
{
    if q.len() == 0 {
        assert(p + q == p);
    } else {
        assert((p + q).drop_last() == p + q.drop_last());
        assert((p + q).last() == q.last());
        assert(is_digit(q[q.len() - 1]));
        lemma_after_last_dash_after(p, q.drop_last());
    }
}

/// The generation directory `<dir>/<base>-<n>-link` has number `n`, for
/// every directory, every base without `/` and every 64-bit number.
pub proof fn lemma_from_dir_round_trip(dir: Seq<char>, base: Seq<char>, n: nat)
    requires
        n <= u64::MAX,
        !base.contains('/'),
    ensures
        from_dir_spec(join_spec(dir, generation_link_name(base, n))) == Some(n),
{
    let name = generation_link_name(base, n);
    lemma_decimal(n);
    let dec = decimal(n);
    let stem = base + seq!['-'] + dec;
    assert(name == stem + link_suffix());
    assert(!name.contains('/')) by {
        if name.contains('/') {
            let i = choose|i: int| 0 <= i < name.len() && name[i] == '/';
            if i < base.len() {
                assert(base[i] == '/');
            } else if i > base.len() && i < stem.len() {
                assert(dec[i - base.len() - 1] == '/');
                assert(is_digit(dec[i - base.len() - 1]));
            }
        }
    }
    let path = join_spec(dir, name);
    let head = if dir.len() > 0 && dir.last() == '/' {
        dir
    } else {
        dir + "/"@
    };
    reveal_strlit("/");
    assert(path == head + name);
    assert(head.last() == '/');
    lemma_name_start_after(head, name);
    assert(path.subrange(head.len() as int, path.len() as int) == name);
    assert(file_name_spec(path) == Some(name));
    assert(name.subrange(name.len() - 5, name.len() as int) == link_suffix());
    assert(name.subrange(0, name.len() - 5) == stem);
    assert(stem.last() == dec.last());
    assert(is_digit(dec[dec.len() - 1]));
    if stem.len() >= 5 {
        assert(stem.subrange(stem.len() - 5, stem.len() as int)[4] == stem.last());
    }
    assert(trim_links(stem) == stem);
    assert(trim_links(name) == stem);
    lemma_after_last_dash_after(base + seq!['-'], dec);
    assert(stem.subrange(base.len() as int + 1, stem.len() as int) == dec);
    assert(is_digit(dec[0]));
    assert(unsigned_digits(dec) == dec);
}

} // verus!
