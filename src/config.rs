//! The path table: names mapped to raw, unexpanded paths.

use crate::error::InspectError;
use vstd::prelude::*;

verus! {

/// One named path, as written in the table.
pub struct PathEntry {
    pub name: String,
    pub raw: String,
}

pub open spec fn entry_view(e: PathEntry) -> (Seq<char>, Seq<char>) {
    (e.name@, e.raw@)
}

pub open spec fn entries_view(es: Seq<PathEntry>) -> Seq<(Seq<char>, Seq<char>)> {
    es.map_values(|e: PathEntry| entry_view(e))
}

/// No name occurs twice.
pub open spec fn names_distinct(es: Seq<(Seq<char>, Seq<char>)>) -> bool {
    forall|i: int, j: int| 0 <= i < es.len() && 0 <= j < es.len() && i != j ==> es[i].0 != es[j].0
}

/// The raw path of the first entry named `name`.
pub open spec fn lookup(es: Seq<(Seq<char>, Seq<char>)>, name: Seq<char>) -> Option<Seq<char>>
    decreases es.len(),
{
    if es.len() == 0 {
        None
    } else if es[0].0 == name {
        Some(es[0].1)
    } else {
        lookup(es.drop_first(), name)
    }
}

/// The entries of a JSON text that is an object whose values are all
/// strings, one per distinct key; `None` for any other text.
pub uninterp spec fn json_string_map(text: Seq<char>) -> Option<Seq<(Seq<char>, Seq<char>)>>;

/// Relies on `serde_json::from_str` into a `BTreeMap<String, String>`: it
/// accepts exactly the JSON objects with string values, and a map holds each
/// key once.
#[verifier::external_body]
fn parse_string_map(text: &str) -> (r: Result<Vec<PathEntry>, serde_json::Error>)
    ensures
        r is Ok <==> json_string_map(text@) is Some,
        r is Ok ==> entries_view(r->Ok_0@) == json_string_map(text@)->Some_0,
        r is Ok ==> names_distinct(entries_view(r->Ok_0@)),
{
    let map = serde_json::from_str::<std::collections::BTreeMap<String, String>>(text)?;
    Ok(map.into_iter().map(|(name, raw)| PathEntry { name, raw }).collect())
}

/// A table of named paths, each name defined once.
pub struct PathConfig {
    entries: Vec<PathEntry>,
}

impl View for PathConfig {
    type V = Seq<(Seq<char>, Seq<char>)>;

    closed spec fn view(&self) -> Seq<(Seq<char>, Seq<char>)> {
        entries_view(self.entries@)
    }
}

impl PathConfig {
    pub open spec fn wf(&self) -> bool {
        names_distinct(self@)
    }

    /// Loads a table from JSON text: an object whose keys are path names and
    /// whose values are raw paths.
    pub fn from_json(text: &str) -> (r: Result<PathConfig, InspectError>)
        ensures
            r is Ok <==> json_string_map(text@) is Some,
            r is Ok ==> r->Ok_0@ == json_string_map(text@)->Some_0 && r->Ok_0.wf(),
            r is Err ==> r->Err_0 is Parse,
    {
        match parse_string_map(text) {
            Ok(entries) => Ok(PathConfig { entries }),
            Err(e) => Err(InspectError::Parse(e)),
        }
    }

    /// The number of entries.
    pub fn len(&self) -> (r: usize)
        ensures
            r == self@.len(),
    {
        self.entries.len()
    }

    /// The entries, in the table's order.
    pub fn entries(&self) -> (r: &Vec<PathEntry>)
        ensures
            entries_view(r@) == self@,
    {
        &self.entries
    }

    /// The raw path named `name`, before any expansion.
    pub fn get(&self, name: &str) -> (r: Option<&String>)
        ensures
            r is Some <==> lookup(self@, name@) is Some,
            r is Some ==> r->Some_0@ == lookup(self@, name@)->Some_0,
    {
        let n: usize = self.entries.len();
        let mut i: usize = 0;
        proof {
            assert(self@.subrange(0, n as int) =~= self@);
        }
        while i < n
            invariant
                n == self.entries@.len() == self@.len(),
                i <= n,
                lookup(self@, name@) == lookup(self@.subrange(i as int, n as int), name@),
            decreases n - i,
        {
            let e = &self.entries[i];
            proof {
                assert(self@[i as int] == entry_view(self.entries@[i as int]));
                assert(self@.subrange(i as int, n as int).drop_first() =~= self@.subrange(i + 1, n as int));
            }
            if crate::expand::str_eq(e.name.as_str(), name) {
                return Some(&e.raw);
            }
            i = i + 1;
        }
        None
    }
}

/// In a table where each name is defined once, looking up a defined name
/// gives exactly the raw path written for it.
pub proof fn lemma_lookup_defined_name(es: Seq<(Seq<char>, Seq<char>)>, i: int)
    requires
        names_distinct(es),
        0 <= i < es.len(),
    ensures
        lookup(es, es[i].0) == Some(es[i].1),
    decreases i,
{
    if i > 0 {
        let rest = es.drop_first();
        assert(es[0].0 != es[i].0);
        assert(rest[i - 1] == es[i]);
        assert(names_distinct(rest)) by {
            assert forall|a: int, b: int| 0 <= a < rest.len() && 0 <= b < rest.len() && a != b implies rest[a].0 != rest[b].0 by {
                assert(rest[a] == es[a + 1] && rest[b] == es[b + 1]);
            }
        }
        lemma_lookup_defined_name(rest, i - 1);
    }
}

} // verus!
