//! Trusted boundary around `dashmap::DashMap`, the concurrent map the build
//! phase inserts into. The library uses one instantiation, from path strings
//! to indices into verified arenas, so that everything beyond the key-to-index
//! association is verified code.
use vstd::prelude::*;

verus! {

#[verifier::external_type_specification]
#[verifier::external_body]
#[verifier::reject_recursive_types(K)]
#[verifier::reject_recursive_types(V)]
#[verifier::reject_recursive_types(S)]
pub struct ExDashMap<K, V, S>(dashmap::DashMap<K, V, S>);

/// A concurrent map from path strings to indices into a verified arena.
pub type PathIndexMap = dashmap::DashMap<String, usize>;

/// What a path-to-index map holds: its abstract contents as a map from the
/// key string's characters to the stored index.
pub uninterp spec fn index_map_contents(m: PathIndexMap) -> Map<Seq<char>, usize>;

/// Holds of a map with no entry.
pub open spec fn no_entries(m: Map<Seq<char>, usize>) -> bool {
    m =~= Map::empty()
}

/// Relies on dashmap::DashMap::new: the new map holds no entry.
#[verifier::external_body]
pub(crate) fn index_map_new() -> (r: PathIndexMap)
    ensures
        no_entries(index_map_contents(r)),
{
    dashmap::DashMap::new()
}

/// Relies on dashmap::DashMap::insert: afterwards the key maps to the value;
/// every other entry is unchanged.
#[verifier::external_body]
pub(crate) fn index_map_insert(m: &mut PathIndexMap, key: String, value: usize)
    ensures
        index_map_contents(*final(m)) == index_map_contents(*old(m)).insert(key@, value),
{
    m.insert(key, value);
}

/// Relies on dashmap::DashMap::get: returns the value the key maps to, or
/// none when the map holds no entry for it.
#[verifier::external_body]
pub(crate) fn index_map_get(m: &PathIndexMap, key: &str) -> (r: Option<usize>)
    ensures
        match r {
            Some(v) => index_map_contents(*m).contains_key(key@) && index_map_contents(*m)[key@]
                == v,
            None => !index_map_contents(*m).contains_key(key@),
        },
{
    match m.get(key) {
        Some(entry) => Some(*entry),
        None => None,
    }
}

} // verus!
