//! Shell-style expansion of a path (`~`, `$VAR`, `${VAR}`) against an
//! explicit environment: a home directory and a table of variables.

use vstd::prelude::*;

verus! {

/// One variable binding of an [`Environment`].
pub struct VarBinding {
    pub name: String,
    pub value: String,
}

/// The context that expansion reads: the home directory that `~` stands for,
/// and the variables that `$NAME` refers to.
pub struct Environment {
    home: Option<String>,
    vars: Vec<VarBinding>,
}

/// The value bound to `name` by the latest binding of it in `vars`.
pub open spec fn binding_of(vars: Seq<VarBinding>, name: Seq<char>) -> Option<Seq<char>>
    decreases vars.len(),
{
    if vars.len() == 0 {
        None
    } else if vars.last().name@ == name {
        Some(vars.last().value@)
    } else {
        binding_of(vars.drop_last(), name)
    }
}

pub open spec fn bindings_map(vars: Seq<VarBinding>) -> Map<Seq<char>, Seq<char>> {
    Map::new(|k: Seq<char>| binding_of(vars, k) is Some, |k: Seq<char>| binding_of(vars, k)->Some_0)
}

pub open spec fn opt_view(o: Option<String>) -> Option<Seq<char>> {
    match o {
        Some(s) => Some(s@),
        None => None,
    }
}

pub struct EnvironmentView {
    pub home: Option<Seq<char>>,
    pub vars: Map<Seq<char>, Seq<char>>,
}

impl View for Environment {
    type V = EnvironmentView;

    closed spec fn view(&self) -> EnvironmentView {
        EnvironmentView { home: opt_view(self.home), vars: bindings_map(self.vars@) }
    }
}

impl Environment {
    /// An environment with the given home directory and no variables.
    pub fn new(home: Option<String>) -> (r: Environment)
        ensures
            r@.home == opt_view(home),
            r@.vars == Map::<Seq<char>, Seq<char>>::empty(),
    {
        let r = Environment { home, vars: Vec::new() };
        assert(r@.vars =~= Map::<Seq<char>, Seq<char>>::empty());
        r
    }

    /// Binds `name` to `value`, replacing any earlier binding of `name`.
    pub fn set_var(&mut self, name: String, value: String)
        ensures
            final(self)@.home == old(self)@.home,
            final(self)@.vars == old(self)@.vars.insert(name@, value@),
    {
        let ghost n = name@;
        let ghost v = value@;
        self.vars.push(VarBinding { name, value });
        proof {
            let s = self.vars@;
            assert forall|k: Seq<char>| #[trigger] binding_of(s, k) == (if k == n {
                Some(v)
            } else {
                binding_of(old(self).vars@, k)
            }) by {
                assert(s.drop_last() =~= old(self).vars@);
            }
            assert(final(self)@.vars =~= old(self)@.vars.insert(n, v));
        }
    }

    /// The home directory that `~` stands for, if any.
    pub fn home_dir(&self) -> (r: Option<&str>)
        ensures
            r is Some <==> self@.home is Some,
            r is Some ==> r->Some_0@ == self@.home->Some_0,
    {
        match &self.home {
            Some(h) => Some(h.as_str()),
            None => None,
        }
    }

    /// The value of variable `name`, if it is bound.
    pub fn var(&self, name: &str) -> (r: Option<&str>)
        ensures
            r is Some <==> self@.vars.contains_key(name@),
            r is Some ==> r->Some_0@ == self@.vars[name@],
    {
        let mut i: usize = self.vars.len();
        proof {
            assert(self.vars@.subrange(0, i as int) =~= self.vars@);
        }
        while i > 0
            invariant
                i <= self.vars@.len(),
                binding_of(self.vars@, name@) == binding_of(self.vars@.subrange(0, i as int), name@),
            decreases i,
        {
            let b = &self.vars[i - 1];
            proof {
                assert(self.vars@.subrange(0, i as int).drop_last() =~= self.vars@.subrange(0, i - 1));
            }
            if str_eq(b.name.as_str(), name) {
                return Some(b.value.as_str());
            }
            i = i - 1;
        }
        proof {
            assert(self.vars@.subrange(0, 0) =~= Seq::<VarBinding>::empty());
        }
        None
    }

    /// [`Environment::var`] in the shape that the expansion routine asks of
    /// its lookup: an unbound name is an error, as with the process
    /// environment.
    fn lookup(&self, name: &str) -> (r: Result<Option<&str>, ()>)
        ensures
            r is Ok <==> self@.vars.contains_key(name@),
            r is Ok ==> r->Ok_0 is Some && r->Ok_0->Some_0@ == self@.vars[name@],
    {
        match self.var(name) {
            Some(v) => Ok(Some(v)),
            None => Err(()),
        }
    }
}

/// Character-wise equality of two strings.
pub fn str_eq(a: &str, b: &str) -> (r: bool)
    ensures
        r == (a@ == b@),
{
    let n: usize = a.unicode_len();
    if n != b.unicode_len() {
        return false;
    }
    let mut i: usize = 0;
    while i < n
        invariant
            n == a@.len() == b@.len(),
            i <= n,
            forall|j: int| 0 <= j < i ==> a@[j] == b@[j],
        decreases n - i,
    {
        if a.get_char(i) != b.get_char(i) {
            return false;
        }
        i = i + 1;
    }
    assert(a@ =~= b@);
    true
}

pub open spec fn contains_char(s: Seq<char>, c: char) -> bool {
    exists|i: int| 0 <= i < s.len() && s[i] == c
}

/// What shell expansion gives for `input` with home directory `home` and
/// variables `vars`: the expanded text, or the name of the first variable
/// that is not bound.
pub uninterp spec fn shell_expansion(
    input: Seq<char>,
    home: Option<Seq<char>>,
    vars: Map<Seq<char>, Seq<char>>,
) -> Result<Seq<char>, Seq<char>>;

/// What expansion does to a path without `$`: only a leading `~` that stands
/// alone or before `/` is replaced, by the home directory when there is one.
pub open spec fn tilde_expansion(input: Seq<char>, home: Option<Seq<char>>) -> Seq<char> {
    if input.len() > 0 && input[0] == '~' && (input.len() == 1 || input[1] == '/') && home is Some {
        home->Some_0 + input.subrange(1, input.len() as int)
    } else {
        input
    }
}

/// A path that expansion only touches at a leading `~`: it holds no `$`, and
/// does not start with `~\` (which some targets treat as `~/`).
pub open spec fn tilde_only(s: Seq<char>) -> bool {
    !contains_char(s, '$') && !(s.len() > 1 && s[0] == '~' && s[1] == '\\')
}

/// A character that may continue a `$NAME` reference, among ASCII ones.
pub open spec fn is_ascii_name_char(c: char) -> bool {
    ('a' <= c && c <= 'z') || ('A' <= c && c <= 'Z') || ('0' <= c && c <= '9') || c == '_'
}

/// `s` starts with `$NAME` where `NAME` is `s[1..k]`, a non-empty run of
/// ASCII letters, digits and `_`, ended by the end of `s` or by another ASCII
/// character.
pub open spec fn leading_var_end(s: Seq<char>, k: int) -> bool {
    &&& 2 <= k <= s.len()
    &&& s[0] == '$'
    &&& forall|j: int| 1 <= j < k ==> is_ascii_name_char(#[trigger] s[j])
    &&& (k == s.len() || ((s[k] as u32) < 128 && !is_ascii_name_char(s[k])))
}

/// Relies on `shellexpand::full_with_context`: its result depends on the
/// input, the home directory and the variable lookup alone; a lookup error
/// comes back with the variable's name, so a leading `$NAME` whose lookup
/// fails is that error; an input that is [`tilde_only`] goes through tilde
/// expansion alone.
#[verifier::external_body]
fn shellexpand_full(input: &str, env: &Environment) -> (r: Result<String, String>)
    ensures
        r is Ok ==> shell_expansion(input@, env@.home, env@.vars) == Ok::<Seq<char>, Seq<char>>(r->Ok_0@),
        r is Err ==> shell_expansion(input@, env@.home, env@.vars) == Err::<Seq<char>, Seq<char>>(r->Err_0@),
        tilde_only(input@) ==> r is Ok && r->Ok_0@ == tilde_expansion(input@, env@.home),
        forall|k: int| #[trigger] leading_var_end(input@, k) && !env@.vars.contains_key(input@.subrange(1, k))
            ==> r is Err && r->Err_0@ == input@.subrange(1, k),
{
    match shellexpand::full_with_context(input, || env.home_dir(), |name: &str| env.lookup(name)) {
        Ok(text) => Ok(text.into_owned()),
        Err(e) => Err(e.var_name),
    }
}

/// Why a path could not be expanded: it refers to a variable that is not set.
pub struct ExpansionError {
    pub var_name: String,
}

/// Expands `~`, `$NAME` and `${NAME}` in `raw` against `env`. A path that
/// starts with a reference to an unset variable fails with that variable's
/// name.
pub fn expand_path(raw: &str, env: &Environment) -> (r: Result<String, ExpansionError>)
    ensures
        r is Ok ==> shell_expansion(raw@, env@.home, env@.vars) == Ok::<Seq<char>, Seq<char>>(r->Ok_0@),
        r is Err ==> shell_expansion(raw@, env@.home, env@.vars) == Err::<Seq<char>, Seq<char>>(r->Err_0.var_name@),
        tilde_only(raw@) ==> r is Ok && r->Ok_0@ == tilde_expansion(raw@, env@.home),
        forall|k: int| #[trigger] leading_var_end(raw@, k) && !env@.vars.contains_key(raw@.subrange(1, k))
            ==> r is Err && r->Err_0.var_name@ == raw@.subrange(1, k),
{
    match shellexpand_full(raw, env) {
        Ok(t) => Ok(t),
        Err(var_name) => Err(ExpansionError { var_name }),
    }
}

/// A path with no `$` that does not start with `~` comes out of expansion
/// unchanged, whatever the home directory.
pub proof fn lemma_plain_path_unchanged(s: Seq<char>, home: Option<Seq<char>>)
    requires
        !contains_char(s, '$'),
        !(s.len() > 0 && s[0] == '~'),
    ensures
        tilde_only(s),
        tilde_expansion(s, home) == s,
{
}

} // verus!
