use vstd::prelude::*;
use linked_hash_map::LinkedHashMap;

verus! {

#[verifier::external_type_specification]
#[verifier::external_body]
#[verifier::reject_recursive_types(K)]
#[verifier::reject_recursive_types(V)]
#[verifier::reject_recursive_types(S)]
pub struct ExLinkedHashMap<K, V, S>(LinkedHashMap<K, V, S>);

/// What kind of entry a location enumerates.
#[derive(Debug, Clone, Copy, PartialEq, Eq, Structural)]
pub enum LocationMode {
    Files,
    Folders,
}

impl Default for LocationMode {
    fn default() -> (r: Self)
        ensures
            r == LocationMode::Files,
    {
        LocationMode::Files
    }
}

/// A named root directory with its enumeration mode and optional cache file
/// (relative to `path`).
#[derive(Debug, Clone)]
pub struct Location {
    pub path: String,
    pub mode: LocationMode,
    pub cache_file: Option<String>,
}

impl Default for Location {
    fn default() -> (r: Self)
        ensures
            r.path@ == Seq::<char>::empty(),
            r.mode == LocationMode::Files,
            r.cache_file.is_none(),
    {
        Location { path: String::new(), mode: LocationMode::Files, cache_file: None }
    }
}

/// The ordered table of locations together with extra arguments for the
/// enumerator and the filter.
pub struct Config {
    pub locations: LinkedHashMap<String, Location>,
    pub fd_flags: Option<Vec<String>>,
    pub fzf_flags: Option<Vec<String>>,
}

/// The entries of a location table, in insertion order: name and location.
pub uninterp spec fn entries_of(m: LinkedHashMap<String, Location>) -> Seq<(Seq<char>, Location)>;

/// Relies on `LinkedHashMap::new`: the new map holds no entry.
#[verifier::external_body]
fn empty_table() -> (r: LinkedHashMap<String, Location>)
    ensures
        entries_of(r).len() == 0,
{
    LinkedHashMap::new()
}

impl Default for Config {
    fn default() -> (r: Self)
        ensures
            entries_of(r.locations).len() == 0,
            r.fd_flags.is_none(),
            r.fzf_flags.is_none(),
    {
        Config { locations: empty_table(), fd_flags: None, fzf_flags: None }
    }
}

/// The names of a location table, in insertion order.
pub open spec fn names_of(m: LinkedHashMap<String, Location>) -> Seq<Seq<char>> {
    entries_of(m).map_values(|e: (Seq<char>, Location)| e.0)
}

/// Relies on `LinkedHashMap::keys`: the keys in insertion order, each once.
#[verifier::external_body]
pub(crate) fn table_names(m: &LinkedHashMap<String, Location>) -> (r: Vec<String>)
    ensures
        r@.len() == entries_of(*m).len(),
        forall|i: int| 0 <= i < r@.len() ==> #[trigger] r@[i]@ == entries_of(*m)[i].0,
        forall|i: int, j: int|
            0 <= i < j < r@.len() ==> #[trigger] r@[i]@ != #[trigger] r@[j]@,
{
    m.keys().cloned().collect()
}

impl Config {
    /// Relies on `LinkedHashMap::get`: the location stored under `name`, if any.
    #[verifier::external_body]
    pub(crate) fn table_get(&self, name: &str) -> (r: Option<&Location>)
        ensures
            r is Some <==> names_of(self.locations).contains(name@),
            r is Some ==> entries_of(self.locations).contains((name@, *r->Some_0)),
    {
        self.locations.get(name)
    }
}

} // verus!
