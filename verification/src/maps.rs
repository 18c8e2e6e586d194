//! The concurrent maps the library keeps its lookup tables in (`dashmap::DashMap`),
//! with what each table holds and the operations the library uses.
use vstd::prelude::*;
use std::collections::hash_map::RandomState;
use crate::procfs::ModuleSpan;

verus! {

#[verifier::external_type_specification]
#[verifier::external_body]
#[verifier::reject_recursive_types(K)]
#[verifier::reject_recursive_types(V)]
#[verifier::reject_recursive_types(S)]
pub struct ExDashMap<K, V, S>(dashmap::DashMap<K, V, S>);

/// Process addresses by pid.
pub type PidMap = dashmap::DashMap<u32, u64, RandomState>;

/// Process addresses by name.
pub type NameMap = dashmap::DashMap<String, u64, RandomState>;

/// Modules by name.
pub type ModuleMap = dashmap::DashMap<String, ModuleSpan, RandomState>;

/// Positions by name.
pub type IndexMap = dashmap::DashMap<String, usize, RandomState>;

/// Positions by type id.
pub type IdMap = dashmap::DashMap<u64, usize, RandomState>;

/// What a map from pids to process addresses holds.
pub uninterp spec fn pid_addrs(m: PidMap) -> Map<u32, u64>;

/// What a map from names to process addresses holds.
pub uninterp spec fn name_addrs(m: NameMap) -> Map<Seq<char>, u64>;

/// What a map from module names to modules holds.
pub uninterp spec fn module_spans(m: ModuleMap) -> Map<
    Seq<char>,
    ModuleSpan,
>;

/// What a map from names to positions holds.
pub uninterp spec fn name_indices(m: IndexMap) -> Map<Seq<char>, usize>;

/// What a map from type ids to positions holds.
pub uninterp spec fn id_indices(m: IdMap) -> Map<u64, usize>;

/// An empty table of this kind.
pub open spec fn no_pids() -> Map<u32, u64> {
    Map::empty()
}

/// An empty table of this kind.
pub open spec fn no_names() -> Map<Seq<char>, u64> {
    Map::empty()
}

/// An empty table of this kind.
pub open spec fn no_modules() -> Map<Seq<char>, ModuleSpan> {
    Map::empty()
}

/// An empty table of this kind.
pub open spec fn no_indices() -> Map<Seq<char>, usize> {
    Map::empty()
}

/// An empty table of this kind.
pub open spec fn no_ids() -> Map<u64, usize> {
    Map::empty()
}

/// An empty map (`DashMap::new`).
#[verifier::external_body]
pub(crate) fn pid_map_new() -> (r: PidMap)
    ensures
        pid_addrs(r) == no_pids(),
{
    dashmap::DashMap::new()
}

/// The value under a key (`DashMap::get`, the value copied out).
#[verifier::external_body]
pub(crate) fn pid_map_get(m: &PidMap, k: u32) -> (r: Option<u64>)
    ensures
        r == (if pid_addrs(*m).contains_key(k) {
            Some(pid_addrs(*m)[k])
        } else {
            None::<u64>
        }),
{
    m.get(&k).map(|v| *v)
}

/// Puts a value under a key and gives back the one it replaced (`DashMap::insert`).
#[verifier::external_body]
pub(crate) fn pid_map_insert(m: &mut PidMap, k: u32, v: u64) -> (r: Option<u64>)
    ensures
        pid_addrs(*final(m)) == pid_addrs(*old(m)).insert(k, v),
        r == (if pid_addrs(*old(m)).contains_key(k) {
            Some(pid_addrs(*old(m))[k])
        } else {
            None::<u64>
        }),
{
    m.insert(k, v)
}

/// Removes every entry (`DashMap::clear`).
#[verifier::external_body]
pub(crate) fn pid_map_clear(m: &mut PidMap)
    ensures
        pid_addrs(*final(m)) == no_pids(),
{
    m.clear()
}

/// An empty map (`DashMap::new`).
#[verifier::external_body]
pub(crate) fn name_map_new() -> (r: NameMap)
    ensures
        name_addrs(r) == no_names(),
{
    dashmap::DashMap::new()
}

/// The value under a key (`DashMap::get`, the value copied out).
#[verifier::external_body]
pub(crate) fn name_map_get(m: &NameMap, k: &str) -> (r: Option<u64>)
    ensures
        r == (if name_addrs(*m).contains_key(k@) {
            Some(name_addrs(*m)[k@])
        } else {
            None::<u64>
        }),
{
    m.get(k).map(|v| *v)
}

/// Puts a value under a key and gives back the one it replaced (`DashMap::insert`).
#[verifier::external_body]
pub(crate) fn name_map_insert(m: &mut NameMap, k: String, v: u64) -> (r:
    Option<u64>)
    ensures
        name_addrs(*final(m)) == name_addrs(*old(m)).insert(k@, v),
        r == (if name_addrs(*old(m)).contains_key(k@) {
            Some(name_addrs(*old(m))[k@])
        } else {
            None::<u64>
        }),
{
    m.insert(k, v)
}

/// Removes every entry (`DashMap::clear`).
#[verifier::external_body]
pub(crate) fn name_map_clear(m: &mut NameMap)
    ensures
        name_addrs(*final(m)) == no_names(),
{
    m.clear()
}

/// An empty map (`DashMap::new`).
#[verifier::external_body]
pub(crate) fn module_map_new() -> (r: ModuleMap)
    ensures
        module_spans(r) == no_modules(),
{
    dashmap::DashMap::new()
}

/// The value under a key (`DashMap::get`, the value copied out).
#[verifier::external_body]
pub(crate) fn module_map_get(m: &ModuleMap, k: &str) -> (r: Option<
    ModuleSpan,
>)
    ensures
        r == (if module_spans(*m).contains_key(k@) {
            Some(module_spans(*m)[k@])
        } else {
            None::<ModuleSpan>
        }),
{
    m.get(k).map(|v| *v)
}

/// Puts a value under a key and gives back the one it replaced (`DashMap::insert`).
#[verifier::external_body]
pub(crate) fn module_map_insert(m: &mut ModuleMap, k: String, v: ModuleSpan) -> (r:
    Option<ModuleSpan>)
    ensures
        module_spans(*final(m)) == module_spans(*old(m)).insert(k@, v),
        r == (if module_spans(*old(m)).contains_key(k@) {
            Some(module_spans(*old(m))[k@])
        } else {
            None::<ModuleSpan>
        }),
{
    m.insert(k, v)
}

/// Removes every entry (`DashMap::clear`).
#[verifier::external_body]
pub(crate) fn module_map_clear(m: &mut ModuleMap)
    ensures
        module_spans(*final(m)) == no_modules(),
{
    m.clear()
}

/// An empty map (`DashMap::new`).
#[verifier::external_body]
pub(crate) fn index_map_new() -> (r: IndexMap)
    ensures
        name_indices(r) == no_indices(),
{
    dashmap::DashMap::new()
}

/// The value under a key (`DashMap::get`, the value copied out).
#[verifier::external_body]
pub(crate) fn index_map_get(m: &IndexMap, k: &str) -> (r: Option<usize>)
    ensures
        r == (if name_indices(*m).contains_key(k@) {
            Some(name_indices(*m)[k@])
        } else {
            None::<usize>
        }),
{
    m.get(k).map(|v| *v)
}

/// Puts a value under a key and gives back the one it replaced (`DashMap::insert`).
#[verifier::external_body]
pub(crate) fn index_map_insert(m: &mut IndexMap, k: String, v: usize) -> (r:
    Option<usize>)
    ensures
        name_indices(*final(m)) == name_indices(*old(m)).insert(k@, v),
        r == (if name_indices(*old(m)).contains_key(k@) {
            Some(name_indices(*old(m))[k@])
        } else {
            None::<usize>
        }),
{
    m.insert(k, v)
}

/// The keys of the map, each once, in the order the map is walked (`DashMap::iter`,
/// each key cloned); the order is not claimed.
#[verifier::external_body]
pub(crate) fn index_map_keys(m: &IndexMap) -> (r: Vec<String>)
    ensures
        forall|i: int| 0 <= i < r@.len() ==> name_indices(*m).contains_key(#[trigger] r@[i]@),
        forall|k: Seq<char>| name_indices(*m).contains_key(k) ==> exists|i: int| 0 <= i < r@.len() && #[trigger] r@[i]@ == k,
        forall|i: int, j: int| 0 <= i < j < r@.len() ==> r@[i]@ != r@[j]@,
{
    m.iter().map(|e| e.key().clone()).collect()
}

/// An empty map (`DashMap::new`).
#[verifier::external_body]
pub(crate) fn id_map_new() -> (r: IdMap)
    ensures
        id_indices(r) == no_ids(),
{
    dashmap::DashMap::new()
}

/// The value under a key (`DashMap::get`, the value copied out).
#[verifier::external_body]
pub(crate) fn id_map_get(m: &IdMap, k: u64) -> (r: Option<usize>)
    ensures
        r == (if id_indices(*m).contains_key(k) {
            Some(id_indices(*m)[k])
        } else {
            None::<usize>
        }),
{
    m.get(&k).map(|v| *v)
}

/// Puts a value under a key and gives back the one it replaced (`DashMap::insert`).
#[verifier::external_body]
pub(crate) fn id_map_insert(m: &mut IdMap, k: u64, v: usize) -> (r: Option<usize>)
    ensures
        id_indices(*final(m)) == id_indices(*old(m)).insert(k, v),
        r == (if id_indices(*old(m)).contains_key(k) {
            Some(id_indices(*old(m))[k])
        } else {
            None::<usize>
        }),
{
    m.insert(k, v)
}

/// Handles forwarded to a backend: the backend's position and its own handle, under
/// keys the slab (`sharded_slab::Slab`) hands out.
#[verifier::external_body]
pub struct ForwardSlab {
    slab: sharded_slab::Slab<(usize, usize)>,
}

/// What a slab of forwarded handles holds.
pub uninterp spec fn forwards(s: ForwardSlab) -> Map<usize, (usize, usize)>;

/// An empty table of forwarded handles.
pub open spec fn no_forwards() -> Map<usize, (usize, usize)> {
    Map::empty()
}

/// An empty slab (`Slab::new`).
#[verifier::external_body]
pub(crate) fn slab_new() -> (r: ForwardSlab)
    ensures
        forwards(r) == no_forwards(),
{
    ForwardSlab { slab: sharded_slab::Slab::new() }
}

/// Stores a value under a key not in use and returns the key, or `None` when the slab
/// has no room (`Slab::insert`); nothing is stored then.
#[verifier::external_body]
pub(crate) fn slab_insert(s: &mut ForwardSlab, v: (usize, usize)) -> (r: Option<usize>)
    ensures
        r matches Some(k) ==> !forwards(*old(s)).contains_key(k) && forwards(*final(s)) == forwards(
            *old(s),
        ).insert(k, v),
        r is None ==> forwards(*final(s)) == forwards(*old(s)),
{
    s.slab.insert(v)
}

/// The value under a key (`Slab::get`, the value copied out and the slab's guard let go
/// at once): the value of a key in use, `None` for a key not in use. (The slab refuses
/// a key in use only while about 2^48 references to it are held at once; the guard
/// taken here is the only one ever taken, and it is dropped before this returns.)
#[verifier::external_body]
pub(crate) fn slab_get(s: &ForwardSlab, k: usize) -> (r: Option<(usize, usize)>)
    ensures
        r matches Some(v) ==> forwards(*s).contains_key(k) && v == forwards(*s)[k],
        !forwards(*s).contains_key(k) ==> r is None,
        forwards(*s).contains_key(k) ==> r == Some(forwards(*s)[k]),
{
    s.slab.get(k).map(|e| *e)
}

} // verus!
