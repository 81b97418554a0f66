//! Installables: what a build refers to, and how it is spelled on a
//! command line.

use vstd::prelude::*;

verus! {

/// Something that can be built.
pub enum Installable {
    Flake { reference: String, attribute: Vec<String> },
    File { path: String, attribute: Vec<String> },
    Store { path: String },
    Expression { expression: String, attribute: Vec<String> },
}

/// Relies on `String::push`: appends `c`.
#[verifier::external_body]
fn push_char(s: &mut String, c: char)
    ensures
        final(s)@ == old(s)@.push(c),
{
    s.push(c)
}

/// State after reading `s`: the finished elements, the element being read,
/// and whether a quote is open.
pub open spec fn parse_state(s: Seq<char>) -> (Seq<Seq<char>>, Seq<char>, bool)
    decreases s.len(),
{
    if s.len() == 0 {
        (Seq::empty(), Seq::empty(), false)
    } else {
        let (res, elem, quoted) = parse_state(s.drop_last());
        let c = s.last();
        if c == '.' && !quoted {
            (res.push(elem), Seq::empty(), quoted)
        } else if c == '"' {
            (res, elem, !quoted)
        } else {
            (res, elem.push(c), quoted)
        }
    }
}

/// Every quote of `s` is closed.
pub open spec fn quotes_balanced(s: Seq<char>) -> bool {
    !parse_state(s).2
}

/// The elements of the attribute path `s`: split at dots outside quotes,
/// quotes dropped; none for an empty path.
pub open spec fn parse_attribute_spec(s: Seq<char>) -> Seq<Seq<char>> {
    if s.len() == 0 {
        Seq::empty()
    } else {
        parse_state(s).0.push(parse_state(s).1)
    }
}

pub open spec fn string_views(v: Seq<String>) -> Seq<Seq<char>> {
    v.map_values(|x: String| x@)
}

pub open spec fn str_views(v: Seq<&str>) -> Seq<Seq<char>> {
    v.map_values(|x: &str| x@)
}

/// Whether every quote of the attribute path `s` is closed.
pub fn attribute_quotes_balanced(s: &str) -> (r: bool)
    ensures
        r == quotes_balanced(s@),
{
    let n = s.unicode_len();
    let mut quoted = false;
    let mut i: usize = 0;
    while i < n
        invariant
            n == s@.len(),
            i <= n,
            quoted == parse_state(s@.subrange(0, i as int)).2,
        decreases n - i,
    {
        assert(s@.subrange(0, i + 1).drop_last() == s@.subrange(0, i as int));
        if s.get_char(i) == '"' {
            quoted = !quoted;
        }
        i = i + 1;
    }
    assert(s@.subrange(0, n as int) == s@);
    !quoted
}

/// Splits an attribute path such as `foo."bar.baz"` into its elements
/// (`foo`, `bar.baz`).
pub fn parse_attribute(s: &str) -> (r: Vec<String>)
    requires
        quotes_balanced(s@),
    ensures
        string_views(r@) == parse_attribute_spec(s@),
{
    let mut res: Vec<String> = Vec::new();
    let n = s.unicode_len();
    if n == 0 {
        assert(string_views(res@) =~= Seq::<Seq<char>>::empty());
        return res;
    }
    let mut quoted = false;
    let mut elem = String::new();
    let mut i: usize = 0;
    while i < n
        invariant
            n == s@.len(),
            i <= n,
            parse_state(s@.subrange(0, i as int)) == (string_views(res@), elem@, quoted),
        decreases n - i,
    {
        assert(s@.subrange(0, i + 1).drop_last() == s@.subrange(0, i as int));
        let c = s.get_char(i);
        if c == '.' && !quoted {
            let ghost before = res@;
            res.push(elem.clone());
            assert(string_views(res@) =~= string_views(before).push(elem@));
            elem = String::new();
        } else if c == '"' {
            quoted = !quoted;
        } else {
            push_char(&mut elem, c);
        }
        i = i + 1;
    }
    assert(s@.subrange(0, n as int) == s@);
    let ghost before = res@;
    res.push(elem);
    assert(string_views(res@) =~= string_views(before).push(elem@));
    res
}

/// An element as written in an attribute path: quoted where it holds a dot.
pub open spec fn quote_element(e: Seq<char>) -> Seq<char> {
    if e.contains('.') {
        seq!['"'] + e + seq!['"']
    } else {
        e
    }
}

/// The attribute path of `attribute`, elements joined by dots.
pub open spec fn join_attribute_spec(attribute: Seq<Seq<char>>) -> Seq<char>
    decreases attribute.len(),
{
    if attribute.len() == 0 {
        Seq::empty()
    } else if attribute.len() == 1 {
        quote_element(attribute[0])
    } else {
        join_attribute_spec(attribute.drop_last()) + seq!['.'] + quote_element(attribute.last())
    }
}

fn contains_dot(s: &str) -> (r: bool)
    ensures
        r == s@.contains('.'),
{
    let n = s.unicode_len();
    let mut i: usize = 0;
    while i < n
        invariant
            n == s@.len(),
            i <= n,
            forall|j: int| 0 <= j < i ==> s@[j] != '.',
        decreases n - i,
    {
        if s.get_char(i) == '.' {
            return true;
        }
        i = i + 1;
    }
    false
}

/// Writes an attribute path: its elements joined by dots, each element
/// that holds a dot in quotes.
pub fn join_attribute(attribute: Vec<&str>) -> (r: String)
    ensures
        r@ == join_attribute_spec(str_views(attribute@)),
{
    let mut res = String::new();
    let mut i: usize = 0;
    while i < attribute.len()
        invariant
            i <= attribute@.len(),
            res@ == join_attribute_spec(str_views(attribute@.subrange(0, i as int))),
        decreases attribute@.len() - i,
    {
        let ghost pre = str_views(attribute@.subrange(0, i as int));
        let ghost next = str_views(attribute@.subrange(0, i + 1));
        assert(next.drop_last() =~= pre);
        assert(next.last() == attribute@[i as int]@);
        let s = attribute[i];
        if i > 0 {
            res.append(".");
        }
        if contains_dot(s) {
            res.append("\"");
            res.append(s);
            res.append("\"");
        } else {
            res.append(s);
        }
        proof {
            reveal_strlit(".");
            reveal_strlit("\"");
            if i == 0 {
                assert(next.len() == 1);
                assert(next[0] == s@);
            }
            assert(res@ =~= join_attribute_spec(next));
        }
        i = i + 1;
    }
    assert(attribute@.subrange(0, i as int) == attribute@);
    res
}

fn as_strs(v: &Vec<String>) -> (r: Vec<&str>)
    ensures
        str_views(r@) == string_views(v@),
{
    let mut r: Vec<&str> = Vec::new();
    let mut i: usize = 0;
    while i < v.len()
        invariant
            i <= v@.len(),
            str_views(r@) == string_views(v@.subrange(0, i as int)),
        decreases v@.len() - i,
    {
        let ghost before = r@;
        r.push(v[i].as_str());
        assert(str_views(r@) =~= str_views(before).push(v@[i as int]@));
        assert(string_views(v@.subrange(0, i + 1)) =~= string_views(v@.subrange(0, i as int)).push(
            v@[i as int]@,
        ));
        i = i + 1;
    }
    assert(v@.subrange(0, i as int) == v@);
    r
}

impl Installable {
    /// The command-line arguments that name this installable.
    pub open spec fn args_spec(&self) -> Seq<Seq<char>> {
        match self {
            Installable::Flake { reference, attribute } => seq![
                reference@ + seq!['#'] + join_attribute_spec(string_views(attribute@)),
            ],
            Installable::File { path, attribute } => seq![
                "--file"@,
                path@,
                join_attribute_spec(string_views(attribute@)),
            ],
            Installable::Expression { expression, attribute } => seq![
                "--expr"@,
                expression@,
                join_attribute_spec(string_views(attribute@)),
            ],
            Installable::Store { path } => seq![path@],
        }
    }

    /// The command-line arguments that name this installable.
    pub fn to_args(&self) -> (r: Vec<String>)
        ensures
            string_views(r@) == self.args_spec(),
    {
        let mut res: Vec<String> = Vec::new();
        match self {
            Installable::Flake { reference, attribute } => {
                let mut s = reference.clone();
                s.append("#");
                let joined = join_attribute(as_strs(attribute));
                s.append(joined.as_str());
                proof {
                    reveal_strlit("#");
                    assert(s@ =~= reference@ + seq!['#'] + joined@);
                }
                res.push(s);
                assert(string_views(res@) =~= self.args_spec());
            },
            Installable::File { path, attribute } => {
                res.push(String::from_str("--file"));
                res.push(path.clone());
                res.push(join_attribute(as_strs(attribute)));
                assert(string_views(res@) =~= self.args_spec());
            },
            Installable::Expression { expression, attribute } => {
                res.push(String::from_str("--expr"));
                res.push(expression.clone());
                res.push(join_attribute(as_strs(attribute)));
            },
            Installable::Store { path } => {
                res.push(path.clone());
            },
        }
        assert(string_views(res@) =~= self.args_spec());
        res
    }

    /// The name of this kind of installable.
    pub fn str_kind(&self) -> (r: &str)
        ensures
            r@ == (match self {
                Installable::Flake { .. } => "flake"@,
                Installable::File { .. } => "file"@,
                Installable::Store { .. } => "store path"@,
                Installable::Expression { .. } => "expression"@,
            }),
    {
        match self {
            Installable::Flake { .. } => "flake",
            Installable::File { .. } => "file",
            Installable::Store { .. } => "store path",
            Installable::Expression { .. } => "expression",
        }
    }
}

/// An installable as plain values.
pub enum InstallableView {
    Flake { reference: Seq<char>, attribute: Seq<Seq<char>> },
    File { path: Seq<char>, attribute: Seq<Seq<char>> },
    Store { path: Seq<char> },
    Expression { expression: Seq<char>, attribute: Seq<Seq<char>> },
}

impl View for Installable {
    type V = InstallableView;

    open spec fn view(&self) -> InstallableView {
        match self {
            Installable::Flake { reference, attribute } => InstallableView::Flake {
                reference: reference@,
                attribute: string_views(attribute@),
            },
            Installable::File { path, attribute } => InstallableView::File {
                path: path@,
                attribute: string_views(attribute@),
            },
            Installable::Store { path } => InstallableView::Store { path: path@ },
            Installable::Expression { expression, attribute } => InstallableView::Expression {
                expression: expression@,
                attribute: string_views(attribute@),
            },
        }
    }
}

/// Why no installable could be chosen.
#[derive(Debug)]
pub enum InstallableError {
    /// Nothing names one.
    Missing,
    /// The attribute path `attribute` leaves a quote open.
    UnbalancedQuotes { attribute: String },
}

/// The canonical path `p` lies in the Nix store.
pub open spec fn in_store(p: Seq<char>) -> bool {
    p == "/nix/store"@ || (p.len() > 11 && p.subrange(0, 11) == "/nix/store/"@)
}

/// Index of the first `#` of `s`, or its length.
pub open spec fn first_hash(s: Seq<char>) -> nat
    decreases s.len(),
{
    if s.len() == 0 {
        0
    } else if first_hash(s.drop_last()) < s.len() - 1 {
        first_hash(s.drop_last())
    } else if s.last() == '#' {
        (s.len() - 1) as nat
    } else {
        s.len()
    }
}

/// The attribute path written after the first `#` of `s`, if any.
pub open spec fn after_hash(s: Seq<char>) -> Seq<char> {
    if first_hash(s) < s.len() {
        s.subrange(first_hash(s) as int + 1, s.len() as int)
    } else {
        Seq::empty()
    }
}

/// The attribute path `text`, or the text itself where a quote is left open.
pub open spec fn attribute_of(text: Seq<char>) -> Result<Seq<Seq<char>>, Seq<char>> {
    if quotes_balanced(text) {
        Ok(parse_attribute_spec(text))
    } else {
        Err(text)
    }
}

pub open spec fn or_empty(o: Option<String>) -> Seq<char> {
    match o {
        Some(s) => s@,
        None => Seq::empty(),
    }
}

/// The flake reference `s`, `<reference>#<attribute path>`.
pub open spec fn flake_of(s: Seq<char>) -> Result<InstallableView, Option<Seq<char>>> {
    match attribute_of(after_hash(s)) {
        Ok(a) => Ok(InstallableView::Flake { reference: s.subrange(0, first_hash(s) as int), attribute: a }),
        Err(t) => Err(Some(t)),
    }
}

/// Which installable the arguments and the environment name. `Err(None)`:
/// none; `Err(Some(t))`: the attribute path `t` leaves a quote open.
pub open spec fn resolve_spec(
    installable: Option<String>,
    canonical: Option<String>,
    file: Option<String>,
    expr: Option<String>,
    env_flake: Option<String>,
    env_file: Option<String>,
    env_attr: Option<String>,
) -> Result<InstallableView, Option<Seq<char>>> {
    if installable is Some && canonical is Some && in_store(canonical->Some_0@) {
        Ok(InstallableView::Store { path: canonical->Some_0@ })
    } else if file is Some {
        match attribute_of(or_empty(installable)) {
            Ok(a) => Ok(InstallableView::File { path: file->Some_0@, attribute: a }),
            Err(t) => Err(Some(t)),
        }
    } else if expr is Some {
        match attribute_of(or_empty(installable)) {
            Ok(a) => Ok(InstallableView::Expression { expression: expr->Some_0@, attribute: a }),
            Err(t) => Err(Some(t)),
        }
    } else if installable is Some {
        flake_of(installable->Some_0@)
    } else if env_flake is Some {
        flake_of(env_flake->Some_0@)
    } else if env_file is Some {
        match attribute_of(or_empty(env_attr)) {
            Ok(a) => Ok(InstallableView::File { path: env_file->Some_0@, attribute: a }),
            Err(t) => Err(Some(t)),
        }
    } else {
        Err(None)
    }
}

fn is_in_store(p: &String) -> (r: bool)
    ensures
        r == in_store(p@),
{
    let d = crate::naming::chars_of(p.as_str());
    let n = d.len();
    proof {
        reveal_strlit("/nix/store");
        reveal_strlit("/nix/store/");
    }
    let head = n >= 10 && d[0] == '/' && d[1] == 'n' && d[2] == 'i' && d[3] == 'x' && d[4] == '/'
        && d[5] == 's' && d[6] == 't' && d[7] == 'o' && d[8] == 'r' && d[9] == 'e';
    proof {
        if n >= 10 && (p@ == "/nix/store"@ || (n > 11 && p@.subrange(0, 11) == "/nix/store/"@)) {
            let w = p@.subrange(0, 10);
            assert(w =~= "/nix/store"@) by {
                if n > 11 && p@.subrange(0, 11) == "/nix/store/"@ {
                    assert(w =~= "/nix/store/"@.subrange(0, 10));
                } else {
                    assert(w =~= p@);
                }
            }
            assert(w[0] == '/' && w[1] == 'n' && w[2] == 'i' && w[3] == 'x' && w[4] == '/');
            assert(w[5] == 's' && w[6] == 't' && w[7] == 'o' && w[8] == 'r' && w[9] == 'e');
            assert(head);
        }
    }
    if !head {
        return false;
    }
    assert(p@.subrange(0, 10) =~= "/nix/store"@);
    if n == 10 {
        assert(p@ =~= "/nix/store"@);
        return true;
    }
    if n > 11 && d[10] == '/' {
        assert(p@.subrange(0, 11) =~= "/nix/store/"@);
        return true;
    }
    assert(n > 11 ==> p@.subrange(0, 11)[10] != "/nix/store/"@[10]);
    false
}

/// Splits `s` at its first `#`: the text before it, and the text after it
/// (empty where there is no `#`).
fn split_flake(s: &str) -> (r: (String, String))
    ensures
        r.0@ == s@.subrange(0, first_hash(s@) as int),
        r.1@ == after_hash(s@),
{
    let n = s.unicode_len();
    let mut i: usize = 0;
    while i < n && s.get_char(i) != '#'
        invariant
            n == s@.len(),
            i <= n,
            first_hash(s@.subrange(0, i as int)) == i,
        decreases n - i,
    {
        assert(s@.subrange(0, i + 1).drop_last() == s@.subrange(0, i as int));
        i = i + 1;
    }
    proof {
        lemma_first_hash_extends(s@, i as nat);
    }
    if i < n {
        (s.substring_char(0, i).to_owned(), s.substring_char(i + 1, n).to_owned())
    } else {
        assert(s@.subrange(0, n as int) == s@);
        (s.to_owned(), String::new())
    }
}

proof fn lemma_first_hash_extends(s: Seq<char>, i: nat)
    requires
        i <= s.len(),
        first_hash(s.subrange(0, i as int)) == i,
        i < s.len() ==> s[i as int] == '#',
    ensures
        first_hash(s) == i,
    decreases s.len() - i,
{
    if i < s.len() {
        lemma_first_hash_prefix(s, i, s.len());
        assert(s.subrange(0, s.len() as int) == s);
    } else {
        assert(s.subrange(0, i as int) == s);
    }
}

/// Once the first `#` is found at `i`, longer prefixes keep it.
proof fn lemma_first_hash_prefix(s: Seq<char>, i: nat, m: nat)
    requires
        i < m <= s.len(),
        first_hash(s.subrange(0, i as int)) == i,
        s[i as int] == '#',
    ensures
        first_hash(s.subrange(0, m as int)) == i,
    decreases m,
{
    let t = s.subrange(0, m as int);
    assert(t.drop_last() == s.subrange(0, m - 1));
    if m - 1 > i {
        lemma_first_hash_prefix(s, i, (m - 1) as nat);
    } else {
        assert(t.last() == s[i as int]);
    }
}

fn attribute_or_error(text: &str) -> (r: Result<Vec<String>, InstallableError>)
    ensures
        match attribute_of(text@) {
            Ok(a) => r matches Ok(v) && string_views(v@) == a,
            Err(t) => r matches Err(InstallableError::UnbalancedQuotes { attribute }) && attribute@ == t,
        },
{
    if attribute_quotes_balanced(text) {
        Ok(parse_attribute(text))
    } else {
        Err(InstallableError::UnbalancedQuotes { attribute: text.to_owned() })
    }
}

fn flake_from(s: &str) -> (r: Result<Installable, InstallableError>)
    ensures
        match flake_of(s@) {
            Ok(v) => r matches Ok(i) && i@ == v,
            Err(t) => r matches Err(InstallableError::UnbalancedQuotes { attribute }) && Some(attribute@) == t,
        },
{
    let (reference, rest) = split_flake(s);
    let attribute = attribute_or_error(rest.as_str())?;
    Ok(Installable::Flake { reference, attribute })
}

fn text_or_empty(o: &Option<String>) -> (r: &str)
    ensures
        r@ == or_empty(*o),
{
    match o {
        Some(s) => s.as_str(),
        None => {
            proof {
                reveal_strlit("");
            }
            ""
        },
    }
}

impl Installable {
    /// Chooses the installable that the arguments name, falling back on the
    /// environment. `canonical` is the canonical path of `installable` where
    /// it names an existing file: a path in the Nix store wins; then a file
    /// or an expression, with `installable` as the attribute path; then
    /// `installable` as a flake reference `<flake>#<attribute path>`; then
    /// the flake of `env_flake`, then the file of `env_file` with the
    /// attribute path `env_attr`.
    pub fn resolve(
        installable: Option<String>,
        canonical: Option<String>,
        file: Option<String>,
        expr: Option<String>,
        env_flake: Option<String>,
        env_file: Option<String>,
        env_attr: Option<String>,
    ) -> (r: Result<Installable, InstallableError>)
        ensures
            match resolve_spec(installable, canonical, file, expr, env_flake, env_file, env_attr) {
                Ok(v) => r matches Ok(i) && i@ == v,
                Err(None) => r matches Err(InstallableError::Missing),
                Err(Some(t)) => r matches Err(InstallableError::UnbalancedQuotes { attribute }) && attribute@ == t,
            },
    {
        if installable.is_some() {
            if let Some(c) = &canonical {
                if is_in_store(c) {
                    return Ok(Installable::Store { path: c.clone() });
                }
            }
        }
        if let Some(f) = file {
            let attribute = attribute_or_error(text_or_empty(&installable))?;
            return Ok(Installable::File { path: f, attribute });
        }
        if let Some(e) = expr {
            let attribute = attribute_or_error(text_or_empty(&installable))?;
            return Ok(Installable::Expression { expression: e, attribute });
        }
        if let Some(i) = &installable {
            return flake_from(i.as_str());
        }
        if let Some(f) = &env_flake {
            return flake_from(f.as_str());
        }
        if let Some(f) = env_file {
            let attribute = attribute_or_error(text_or_empty(&env_attr))?;
            return Ok(Installable::File { path: f, attribute });
        }
        Err(InstallableError::Missing)
    }
}

} // verus!
