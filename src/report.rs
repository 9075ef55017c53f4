//! The two reports: the expansion of one named path, and the listing of
//! every path with its failures and its radioactive entries.

use crate::classify::{is_radioactive, radioactive};
use crate::config::{entries_view, lookup, PathConfig, PathEntry};
use crate::error::{InspectError, InspectErrorView};
use crate::expand::{expand_path, shell_expansion, leading_var_end, tilde_expansion, tilde_only, Environment, EnvironmentView};
use vstd::prelude::*;

verus! {

/// Expands the path named `name` in `config`.
pub fn resolve_path(config: &PathConfig, name: &str, env: &Environment) -> (r: Result<String, InspectError>)
    ensures
        lookup(config@, name@) is None ==> r is Err && r->Err_0@ == InspectErrorView::UndefinedName(name@),
        lookup(config@, name@) is Some ==> match shell_expansion(lookup(config@, name@)->Some_0, env@.home, env@.vars) {
            Ok(t) => r is Ok && r->Ok_0@ == t,
            Err(v) => r is Err && r->Err_0@ == (InspectErrorView::Expansion {
                raw: lookup(config@, name@)->Some_0,
                var_name: v,
            }),
        },
        lookup(config@, name@) is Some && tilde_only(lookup(config@, name@)->Some_0)
            ==> r is Ok && r->Ok_0@ == tilde_expansion(lookup(config@, name@)->Some_0, env@.home),
        forall|k: int| lookup(config@, name@) is Some && #[trigger] leading_var_end(lookup(config@, name@)->Some_0, k)
            && !env@.vars.contains_key(lookup(config@, name@)->Some_0.subrange(1, k))
            ==> r is Err && r->Err_0@ == (InspectErrorView::Expansion {
                raw: lookup(config@, name@)->Some_0,
                var_name: lookup(config@, name@)->Some_0.subrange(1, k),
            }),
{
    match config.get(name) {
        None => Err(InspectError::UndefinedName(String::from_str(name))),
        Some(raw) => match expand_path(raw.as_str(), env) {
            Ok(t) => Ok(t),
            Err(e) => Err(InspectError::Expansion { raw: raw.clone(), var_name: e.var_name }),
        },
    }
}

pub open spec fn name_separator() -> Seq<char> {
    seq![':', ' ']
}

pub open spec fn rewrite_arrow() -> Seq<char> {
    seq![' ', '\u{279F}', ' ']
}

/// `name: raw` when expansion left the path as it was, else
/// `name: raw ➟ expanded`.
pub open spec fn entry_line(name: Seq<char>, raw: Seq<char>, expanded: Seq<char>) -> Seq<char> {
    if raw == expanded {
        name + name_separator() + raw
    } else {
        name + name_separator() + raw + rewrite_arrow() + expanded
    }
}

/// A path that expanded: its name, its raw form and its expansion.
pub struct ListedEntry {
    pub name: String,
    pub raw: String,
    pub expanded: String,
}

/// A path whose expansion failed on the variable `var_name`.
pub struct EntryFailure {
    pub name: String,
    pub raw: String,
    pub var_name: String,
}

pub open spec fn listed_view(e: ListedEntry) -> (Seq<char>, Seq<char>, Seq<char>) {
    (e.name@, e.raw@, e.expanded@)
}

pub open spec fn failure_view(e: EntryFailure) -> (Seq<char>, Seq<char>, Seq<char>) {
    (e.name@, e.raw@, e.var_name@)
}

impl ListedEntry {
    /// Whether expansion changed the text of the path.
    pub fn is_rewritten(&self) -> (r: bool)
        ensures
            r == (self.raw@ != self.expanded@),
    {
        !crate::expand::str_eq(self.raw.as_str(), self.expanded.as_str())
    }

    /// The line that shows this entry.
    pub fn display_line(&self) -> (r: String)
        ensures
            r@ == entry_line(self.name@, self.raw@, self.expanded@),
    {
        let sep = ": ";
        let arrow = " \u{279F} ";
        proof {
            reveal_strlit(": ");
            reveal_strlit(" \u{279F} ");
            assert(sep@ =~= name_separator());
            assert(arrow@ =~= rewrite_arrow());
        }
        let mut line = self.name.clone();
        line.append(sep);
        line.append(self.raw.as_str());
        if self.is_rewritten() {
            line.append(arrow);
            line.append(self.expanded.as_str());
        }
        line
    }
}

/// The outcome of expanding every path of a table.
pub struct Listing {
    /// The paths that expanded, in the table's order.
    pub entries: Vec<ListedEntry>,
    /// The paths that did not expand, in the table's order.
    pub failures: Vec<EntryFailure>,
    /// The expanded paths that are radioactive, in the table's order.
    pub radioactive: Vec<ListedEntry>,
}

/// The entries of `es` that expand, with their expansions.
pub open spec fn expanded_entries(es: Seq<(Seq<char>, Seq<char>)>, env: EnvironmentView) -> Seq<(Seq<char>, Seq<char>, Seq<char>)>
    decreases es.len(),
{
    if es.len() == 0 {
        Seq::empty()
    } else {
        let before = expanded_entries(es.drop_last(), env);
        match shell_expansion(es.last().1, env.home, env.vars) {
            Ok(t) => before.push((es.last().0, es.last().1, t)),
            Err(_) => before,
        }
    }
}

/// The entries of `es` that do not expand, with the variable at fault.
pub open spec fn failed_entries(es: Seq<(Seq<char>, Seq<char>)>, env: EnvironmentView) -> Seq<(Seq<char>, Seq<char>, Seq<char>)>
    decreases es.len(),
{
    if es.len() == 0 {
        Seq::empty()
    } else {
        let before = failed_entries(es.drop_last(), env);
        match shell_expansion(es.last().1, env.home, env.vars) {
            Ok(_) => before,
            Err(v) => before.push((es.last().0, es.last().1, v)),
        }
    }
}

/// The entries of `es` that expand to a radioactive path.
pub open spec fn radioactive_entries(es: Seq<(Seq<char>, Seq<char>)>, env: EnvironmentView) -> Seq<(Seq<char>, Seq<char>, Seq<char>)>
    decreases es.len(),
{
    if es.len() == 0 {
        Seq::empty()
    } else {
        let before = radioactive_entries(es.drop_last(), env);
        match shell_expansion(es.last().1, env.home, env.vars) {
            Ok(t) => if radioactive(t) {
                before.push((es.last().0, es.last().1, t))
            } else {
                before
            },
            Err(_) => before,
        }
    }
}

/// Expands every path of `config`. A path that fails to expand is recorded
/// as a failure and the others are still listed.
pub fn list_paths(config: &PathConfig, env: &Environment) -> (r: Listing)
    ensures
        r.entries@.map_values(|e: ListedEntry| listed_view(e)) == expanded_entries(config@, env@),
        r.failures@.map_values(|e: EntryFailure| failure_view(e)) == failed_entries(config@, env@),
        r.radioactive@.map_values(|e: ListedEntry| listed_view(e)) == radioactive_entries(config@, env@),
{
    let entries: &Vec<PathEntry> = config.entries();
    let n: usize = entries.len();
    let mut listed: Vec<ListedEntry> = Vec::new();
    let mut failures: Vec<EntryFailure> = Vec::new();
    let mut flagged: Vec<ListedEntry> = Vec::new();
    let mut i: usize = 0;
    proof {
        assert(config@.subrange(0, 0) =~= Seq::<(Seq<char>, Seq<char>)>::empty());
        assert(listed@.map_values(|e: ListedEntry| listed_view(e)) =~= Seq::<(Seq<char>, Seq<char>, Seq<char>)>::empty());
        assert(failures@.map_values(|e: EntryFailure| failure_view(e)) =~= Seq::<(Seq<char>, Seq<char>, Seq<char>)>::empty());
        assert(flagged@.map_values(|e: ListedEntry| listed_view(e)) =~= Seq::<(Seq<char>, Seq<char>, Seq<char>)>::empty());
    }
    while i < n
        invariant
            entries_view(entries@) == config@,
            n == entries@.len(),
            i <= n,
            listed@.map_values(|e: ListedEntry| listed_view(e)) == expanded_entries(config@.subrange(0, i as int), env@),
            failures@.map_values(|e: EntryFailure| failure_view(e)) == failed_entries(config@.subrange(0, i as int), env@),
            flagged@.map_values(|e: ListedEntry| listed_view(e)) == radioactive_entries(config@.subrange(0, i as int), env@),
        decreases n - i,
    {
        let ghost pre = config@.subrange(0, i as int);
        let ghost next = config@.subrange(0, i + 1);
        let ghost old_listed = listed@;
        let ghost old_failures = failures@;
        let ghost old_flagged = flagged@;
        let e = &entries[i];
        proof {
            assert(next.drop_last() =~= pre);
            assert(next.last() == config@[i as int]);
            assert(config@[i as int] == (e.name@, e.raw@));
        }
        match expand_path(e.raw.as_str(), env) {
            Ok(t) => {
                let hot = is_radioactive(t.as_str());
                if hot {
                    flagged.push(ListedEntry { name: e.name.clone(), raw: e.raw.clone(), expanded: t.clone() });
                    proof {
                        assert(flagged@.map_values(|e: ListedEntry| listed_view(e)) =~= old_flagged.map_values(|e: ListedEntry| listed_view(e)).push(listed_view(flagged@.last())));
                    }
                }
                listed.push(ListedEntry { name: e.name.clone(), raw: e.raw.clone(), expanded: t });
                proof {
                    assert(listed@.map_values(|e: ListedEntry| listed_view(e)) =~= old_listed.map_values(|e: ListedEntry| listed_view(e)).push(listed_view(listed@.last())));
                }
            },
            Err(err) => {
                failures.push(EntryFailure { name: e.name.clone(), raw: e.raw.clone(), var_name: err.var_name });
                proof {
                    assert(failures@.map_values(|e: EntryFailure| failure_view(e)) =~= old_failures.map_values(|e: EntryFailure| failure_view(e)).push(failure_view(failures@.last())));
                }
            },
        }
        i = i + 1;
    }
    proof {
        assert(config@.subrange(0, n as int) =~= config@);
    }
    Listing { entries: listed, failures, radioactive: flagged }
}

/// Listing every path never stops at a failing one: each entry of the table
/// is listed with its expansion when it expands, and recorded as a failure
/// with the variable at fault when it does not; an entry that failed is never
/// among the radioactive ones.
pub proof fn lemma_every_entry_reported(es: Seq<(Seq<char>, Seq<char>)>, env: EnvironmentView, i: int)
    requires
        0 <= i < es.len(),
    ensures
        shell_expansion(es[i].1, env.home, env.vars) matches Ok(t)
            ==> expanded_entries(es, env).contains((es[i].0, es[i].1, t)),
        shell_expansion(es[i].1, env.home, env.vars) matches Err(v)
            ==> failed_entries(es, env).contains((es[i].0, es[i].1, v)),
        forall|k: int| 0 <= k < radioactive_entries(es, env).len()
            ==> shell_expansion(#[trigger] radioactive_entries(es, env)[k].1, env.home, env.vars) is Ok,
    decreases es.len(),
{
    let prefix = es.drop_last();
    lemma_radioactive_entries_expand(es, env);
    if i < es.len() - 1 {
        assert(prefix[i] == es[i]);
        lemma_every_entry_reported(prefix, env, i);
        let before_ok = expanded_entries(prefix, env);
        let before_err = failed_entries(prefix, env);
        match shell_expansion(es[i].1, env.home, env.vars) {
            Ok(t) => {
                let j = choose|j: int| 0 <= j < before_ok.len() && before_ok[j] == (es[i].0, es[i].1, t);
                match shell_expansion(es.last().1, env.home, env.vars) {
                    Ok(u) => assert(expanded_entries(es, env)[j] == before_ok[j]),
                    Err(_) => {},
                }
            },
            Err(v) => {
                let j = choose|j: int| 0 <= j < before_err.len() && before_err[j] == (es[i].0, es[i].1, v);
                match shell_expansion(es.last().1, env.home, env.vars) {
                    Ok(_) => {},
                    Err(w) => assert(failed_entries(es, env)[j] == before_err[j]),
                }
            },
        }
    } else {
        match shell_expansion(es[i].1, env.home, env.vars) {
            Ok(t) => {
                let all = expanded_entries(es, env);
                assert(all[all.len() - 1] == (es[i].0, es[i].1, t));
            },
            Err(v) => {
                let all = failed_entries(es, env);
                assert(all[all.len() - 1] == (es[i].0, es[i].1, v));
            },
        }
    }
}

proof fn lemma_radioactive_entries_expand(es: Seq<(Seq<char>, Seq<char>)>, env: EnvironmentView)
    ensures
        forall|k: int| 0 <= k < radioactive_entries(es, env).len()
            ==> shell_expansion(#[trigger] radioactive_entries(es, env)[k].1, env.home, env.vars) is Ok,
    decreases es.len(),
{
    if es.len() > 0 {
        let prefix = es.drop_last();
        lemma_radioactive_entries_expand(prefix, env);
        let before = radioactive_entries(prefix, env);
        assert forall|k: int| 0 <= k < radioactive_entries(es, env).len()
            implies shell_expansion(#[trigger] radioactive_entries(es, env)[k].1, env.home, env.vars) is Ok by {
            if k < before.len() {
                assert(radioactive_entries(es, env)[k] == before[k]);
            }
        }
    }
}

} // verus!
