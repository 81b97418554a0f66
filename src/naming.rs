//! Names of generation links: `<base>-<digits>-link`.

use vstd::prelude::*;

verus! {

/// A decimal digit `0`..`9`.
pub open spec fn is_digit(c: char) -> bool {
    '0' <= c && c <= '9'
}

pub open spec fn all_digits(s: Seq<char>) -> bool {
    forall|i: int| 0 <= i < s.len() ==> is_digit(#[trigger] s[i])
}

/// Numeric value of a run of decimal digits, most significant first.
pub open spec fn digits_value(s: Seq<char>) -> nat
    decreases s.len(),
{
    if s.len() == 0 {
        0
    } else {
        digits_value(s.drop_last()) * 10 + ((s.last() as u32 - '0' as u32) as nat)
    }
}

pub open spec fn digit_char(d: nat) -> char {
    seq!['0', '1', '2', '3', '4', '5', '6', '7', '8', '9'][d as int]
}

/// The canonical decimal spelling of `n`, without leading zeros.
pub open spec fn decimal(n: nat) -> Seq<char>
    decreases n,
{
    if n < 10 {
        seq![digit_char(n)]
    } else {
        decimal(n / 10).push(digit_char(n % 10))
    }
}

pub open spec fn link_suffix() -> Seq<char> {
    seq!['-', 'l', 'i', 'n', 'k']
}

/// Index where the trailing run of digits of `s` begins.
pub open spec fn digits_start(s: Seq<char>) -> nat
    decreases s.len(),
{
    if s.len() > 0 && is_digit(s.last()) {
        digits_start(s.drop_last())
    } else {
        s.len()
    }
}

/// `s` without its trailing `-link`.
pub open spec fn link_stem(s: Seq<char>) -> Seq<char> {
    s.subrange(0, s.len() - 5)
}

/// `s` has the shape `<base>-<digits>-link`, `<base>` possibly holding hyphens.
pub open spec fn is_generation_name(s: Seq<char>) -> bool {
    &&& s.len() >= 5
    &&& s.subrange(s.len() - 5, s.len() as int) == link_suffix()
    &&& digits_start(link_stem(s)) < link_stem(s).len()
    &&& digits_start(link_stem(s)) >= 1
    &&& link_stem(s)[digits_start(link_stem(s)) - 1] == '-'
}

/// The `<base>` part of a generation name.
pub open spec fn generation_base(s: Seq<char>) -> Seq<char> {
    link_stem(s).subrange(0, digits_start(link_stem(s)) - 1)
}

/// The number written in a generation name.
pub open spec fn generation_number(s: Seq<char>) -> nat {
    digits_value(link_stem(s).subrange(digits_start(link_stem(s)) as int, link_stem(s).len() as int))
}

/// What `classify` returns for the name `s`: the base and number of a
/// generation link whose number fits in 64 bits, nothing otherwise.
pub open spec fn classify_spec(s: Seq<char>) -> Option<(Seq<char>, nat)> {
    if is_generation_name(s) && generation_number(s) <= u64::MAX {
        Some((generation_base(s), generation_number(s)))
    } else {
        None
    }
}

proof fn lemma_digits_start_bounds(s: Seq<char>)
    ensures
        digits_start(s) <= s.len(),
        all_digits(s.subrange(digits_start(s) as int, s.len() as int)),
        digits_start(s) > 0 ==> !is_digit(s[digits_start(s) - 1]),
    decreases s.len(),
{
    if s.len() > 0 && is_digit(s.last()) {
        lemma_digits_start_bounds(s.drop_last());
        let j = digits_start(s) as int;
        assert forall|i: int| 0 <= i < s.len() - j implies is_digit(
            #[trigger] s.subrange(j, s.len() as int)[i],
        ) by {
            if i < s.len() - 1 - j {
                assert(s.subrange(j, s.len() as int)[i] == s.drop_last().subrange(
                    j,
                    s.len() - 1,
                )[i]);
            }
        }
    }
}

/// A prefix of a digit run is worth no more than the run.
proof fn lemma_digits_value_prefix(s: Seq<char>, m: int)
    requires
        0 <= m <= s.len(),
        all_digits(s),
    ensures
        digits_value(s.subrange(0, m)) <= digits_value(s),
    decreases s.len(),
{
    if m < s.len() {
        assert(s.drop_last().subrange(0, m) == s.subrange(0, m));
        lemma_digits_value_prefix(s.drop_last(), m);
    } else {
        assert(s.subrange(0, m) == s);
    }
}

/// Parses the decimal digits `d[from..to]`, or nothing where the value
/// does not fit in a `u64`.
pub(crate) fn parse_digits(d: &Vec<char>, from: usize, to: usize) -> (r: Option<u64>)
    requires
        from <= to <= d@.len(),
        all_digits(d@.subrange(from as int, to as int)),
    ensures
        digits_value(d@.subrange(from as int, to as int)) <= u64::MAX ==> r == Some(
            digits_value(d@.subrange(from as int, to as int)) as u64,
        ),
        digits_value(d@.subrange(from as int, to as int)) > u64::MAX ==> r is None,
{
    let ghost run = d@.subrange(from as int, to as int);
    let mut v: u64 = 0;
    let mut i: usize = from;
    while i < to
        invariant
            from <= i <= to <= d@.len(),
            run == d@.subrange(from as int, to as int),
            all_digits(run),
            v == digits_value(d@.subrange(from as int, i as int)),
        decreases to - i,
    {
        let ghost pre = d@.subrange(from as int, i as int);
        let ghost next = d@.subrange(from as int, i + 1);
        assert(next.drop_last() == pre);
        assert(next.last() == run[i - from]);
        let c = d[i];
        let digit: u64 = (c as u32 - '0' as u32) as u64;
        assert(run.subrange(0, i + 1 - from) == next);
        if v > (u64::MAX - digit) / 10 {
            proof {
                lemma_digits_value_prefix(run, i + 1 - from);
                assert(digits_value(next) == v * 10 + digit) by (nonlinear_arith)
                    requires
                        digits_value(next) == digits_value(pre) * 10 + digit,
                        v == digits_value(pre),
                ;
                assert(v * 10 + digit > u64::MAX) by (nonlinear_arith)
                    requires
                        v > (u64::MAX - digit) / 10,
                        digit <= 9,
                ;
            }
            return None;
        }
        v = v * 10 + digit;
        i = i + 1;
    }
    assert(d@.subrange(from as int, to as int) == d@.subrange(from as int, i as int));
    Some(v)
}

/// The characters of `s`, in order.
pub fn chars_of(s: &str) -> (r: Vec<char>)
    ensures
        r@ == s@,
{
    let n = s.unicode_len();
    let mut r: Vec<char> = Vec::new();
    let mut i: usize = 0;
    while i < n
        invariant
            n == s@.len(),
            i <= n,
            r@ == s@.subrange(0, i as int),
        decreases n - i,
    {
        r.push(s.get_char(i));
        i = i + 1;
    }
    assert(r@ == s@.subrange(0, n as int));
    r
}

/// Splits a generation link name `<base>-<number>-link` into its base and
/// number (ASCII digits); any other name, or a number beyond 64 bits,
/// gives `None`.
pub fn classify(name: &str) -> (r: Option<(String, u64)>)
    ensures
        r is Some <==> classify_spec(name@) is Some,
        r matches Some((base, n)) ==> classify_spec(name@) == Some((base@, n as nat)),
{
    let d = chars_of(name);
    let len = d.len();
    if len < 5 || d[len - 5] != '-' || d[len - 4] != 'l' || d[len - 3] != 'i' || d[len - 2] != 'n'
        || d[len - 1] != 'k' {
        proof {
            if len >= 5 {
                assert(name@.subrange(len - 5, len as int)[0] == d@[len - 5]);
                assert(name@.subrange(len - 5, len as int)[1] == d@[len - 4]);
                assert(name@.subrange(len - 5, len as int)[2] == d@[len - 3]);
                assert(name@.subrange(len - 5, len as int)[3] == d@[len - 2]);
                assert(name@.subrange(len - 5, len as int)[4] == d@[len - 1]);
            }
        }
        return None;
    }
    assert(name@.subrange(len - 5, len as int) == link_suffix());
    let stem_len = len - 5;
    let ghost stem = link_stem(name@);
    assert(stem == d@.subrange(0, stem_len as int));
    let mut j: usize = stem_len;
    assert(stem.subrange(0, stem_len as int) == stem);
    while j > 0 && '0' <= d[j - 1] && d[j - 1] <= '9'
        invariant
            j <= stem_len,
            stem_len + 5 == len == d@.len(),
            stem == d@.subrange(0, stem_len as int),
            digits_start(stem) == digits_start(stem.subrange(0, j as int)),
        decreases j,
    {
        assert(stem.subrange(0, j - 1) == stem.subrange(0, j as int).drop_last());
        j = j - 1;
    }
    assert(digits_start(stem) == j) by {
        assert(stem.subrange(0, stem_len as int) == stem);
    }
    proof {
        lemma_digits_start_bounds(stem);
    }
    if j == stem_len || j == 0 || d[j - 1] != '-' {
        return None;
    }
    assert(stem.subrange(j as int, stem_len as int) == d@.subrange(j as int, stem_len as int));
    let number = parse_digits(&d, j, stem_len);
    match number {
        None => None,
        Some(n) => {
            let base = name.substring_char(0, j - 1).to_owned();
            assert(base@ == stem.subrange(0, j - 1));
            Some((base, n))
        },
    }
}

/// The name of generation `n` of profile `base`: `<base>-<n>-link`.
pub open spec fn generation_link_name(base: Seq<char>, n: nat) -> Seq<char> {
    base + seq!['-'] + decimal(n) + link_suffix()
}

pub(crate) proof fn lemma_decimal(n: nat)
    ensures
        decimal(n).len() > 0,
        all_digits(decimal(n)),
        digits_value(decimal(n)) == n,
    decreases n,
{
    if n < 10 {
        assert(decimal(n).drop_last() =~= Seq::<char>::empty());
        assert(digits_value(Seq::<char>::empty()) == 0);
    } else {
        lemma_decimal(n / 10);
        let d = decimal(n);
        assert(d.drop_last() == decimal(n / 10));
        assert forall|i: int| 0 <= i < d.len() implies is_digit(#[trigger] d[i]) by {
            if i < d.len() - 1 {
                assert(d[i] == decimal(n / 10)[i]);
            }
        }
    }
}

proof fn lemma_digits_start_after(p: Seq<char>, q: Seq<char>)
    requires
        p.len() > 0,
        !is_digit(p.last()),
        all_digits(q),
    ensures
        digits_start(p + q) == p.len(),
    decreases q.len(),
{
    if q.len() == 0 {
        assert(p + q == p);
    } else {
        assert((p + q).drop_last() == p + q.drop_last());
        assert((p + q).last() == q.last());
        lemma_digits_start_after(p, q.drop_last());
    }
}

/// Classifying the name of generation `n` of profile `base` gives back
/// `base` and `n`, for every base and every 64-bit generation number.
pub proof fn lemma_classify_round_trip(base: Seq<char>, n: nat)
    requires
        n <= u64::MAX,
    ensures
        classify_spec(generation_link_name(base, n)) == Some((base, n)),
{
    let s = generation_link_name(base, n);
    let p = base + seq!['-'];
    let stem = p + decimal(n);
    lemma_decimal(n);
    assert(s == stem + link_suffix());
    assert(s.subrange(s.len() - 5, s.len() as int) == link_suffix());
    assert(link_stem(s) == stem);
    lemma_digits_start_after(p, decimal(n));
    assert(stem[p.len() - 1] == '-');
    assert(stem.subrange(0, p.len() - 1) == base);
    assert(stem.subrange(p.len() as int, stem.len() as int) == decimal(n));
}

/// Index just past the last `/` of `p`, or 0 where there is none.
pub open spec fn name_start(p: Seq<char>) -> nat
    decreases p.len(),
{
    if p.len() == 0 {
        0
    } else if p.last() == '/' {
        p.len()
    } else {
        name_start(p.drop_last())
    }
}

/// The last component of the path `p`: what follows its last `/`, if anything.
pub open spec fn file_name_spec(p: Seq<char>) -> Option<Seq<char>> {
    if name_start(p) < p.len() {
        Some(p.subrange(name_start(p) as int, p.len() as int))
    } else {
        None
    }
}

proof fn lemma_name_start(p: Seq<char>)
    ensures
        name_start(p) <= p.len(),
    decreases p.len(),
{
    if p.len() > 0 && p.last() != '/' {
        lemma_name_start(p.drop_last());
    }
}

/// The last component of the path `p`: what follows its last `/`, if anything.
pub fn file_name(p: &String) -> (r: Option<String>)
    ensures
        r is Some <==> file_name_spec(p@) is Some,
        r matches Some(n) ==> file_name_spec(p@) == Some(n@),
{
    let s = p.as_str();
    let n = s.unicode_len();
    let mut j: usize = n;
    assert(p@.subrange(0, n as int) == p@);
    while j > 0 && s.get_char(j - 1) != '/'
        invariant
            j <= n == p@.len(),
            s@ == p@,
            name_start(p@) == name_start(p@.subrange(0, j as int)),
        decreases j,
    {
        assert(p@.subrange(0, j - 1) == p@.subrange(0, j as int).drop_last());
        j = j - 1;
    }
    proof {
        lemma_name_start(p@);
    }
    if j == n {
        return None;
    }
    Some(s.substring_char(j, n).to_owned())
}

} // verus!
