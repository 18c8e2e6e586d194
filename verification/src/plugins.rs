//! The plugin store: for each kind of directory, named mappings that plugins register
//! and that turn such a directory into its named sub-entries. Kinds whose layouts are
//! compatible share one list of mappings.
use vstd::prelude::*;
use crate::error::{Error, ErrorKind, ErrorOrigin};
use crate::fs::{Branch, DirEntry};
use crate::path::{split_path, split_path_spec};
use crate::text::str_eq;
use crate::maps::{IdMap, id_indices, id_map_new, id_map_get, id_map_insert};

verus! {

/// The names of a list of named mappings, in order.
pub open spec fn mapping_names<M>(list: Seq<(Seq<char>, M)>) -> Seq<Seq<char>> {
    list.map_values(|e: (Seq<char>, M)| e.0)
}

/// The mapping registered under a name in a list, if there is one.
pub open spec fn mapping_of<M>(list: Seq<(Seq<char>, M)>, n: Seq<char>) -> Option<M> {
    match mapping_names(list).index_of_first(n) {
        Some(i) => Some(list[i].1),
        None => None,
    }
}

/// The list a kind of directory uses, if it has one yet.
pub open spec fn list_of(types: Map<u64, usize>, id: u64) -> Option<usize> {
    if types.contains_key(id) {
        Some(types[id])
    } else {
        None
    }
}

/// How a call that finds a kind's list (as `entries_index` does) leaves the kinds: a
/// kind seen before keeps its list `idx`, and a new kind is added with `idx`.
pub open spec fn kind_assigned(before: Map<u64, usize>, after: Map<u64, usize>, id: u64, idx: usize) -> bool {
    match list_of(before, id) {
        Some(i) => idx == i && after == before,
        None => after == before.insert(id, idx),
    }
}

/// A mapping registered under a name that was free is the one looked up under it.
pub proof fn lemma_register_then_lookup<M>(list: Seq<(Seq<char>, M)>, n: Seq<char>, m: M)
    requires
        mapping_of(list, n) is None,
    ensures
        mapping_of(list.push((n, m)), n) == Some(m),
{
    let names = mapping_names(list);
    let names2 = mapping_names(list.push((n, m)));
    assert(names2 =~= names.push(n));
    names.index_of_first_ensures(n);
    names2.index_of_first_ensures(n);
    assert(names2[list.len() as int] == n);
    assert(names2.index_of_first(n) == Some(list.len() as int));
}

/// Where the mappings of a kind's list are handed, one by one; each call answers
/// whether to go on.
pub trait EntrySink<M>: Sized {
    /// Being handed `(name, mapping)` may answer `go` and leave the sink (`self` before)
    /// as `fin`. An implementation says which answers and changes it makes; by default
    /// nothing is said.
    open spec fn takes_entry(&self, fin: &Self, name: Seq<char>, mapping: M, go: bool) -> bool {
        true
    }

    /// Receives one named mapping.
    fn entry(&mut self, name: &str, mapping: &M) -> (go: bool)
        ensures
            old(self).takes_entry(&*final(self), name@, *mapping, go),
    ;
}

/// The first `gos.len()` mappings of `list` were handed out in order, the sink going
/// through the states `st` and answering `gos`: every answer but the last asked to go
/// on, and the handing stopped early only at an answer not to go on.
pub open spec fn entries_handed<M, S: EntrySink<M>>(list: Seq<(Seq<char>, M)>, st: Seq<S>, gos: Seq<bool>) -> bool {
    &&& st.len() == gos.len() + 1
    &&& gos.len() <= list.len()
    &&& forall|i: int|
        0 <= i < gos.len() ==> #[trigger] st[i].takes_entry(&st[i + 1], list[i].0, list[i].1, gos[i])
    &&& forall|i: int| 0 <= i < gos.len() - 1 ==> #[trigger] gos[i]
    &&& gos.len() < list.len() ==> gos.len() > 0 && !gos.last()
}

/// Named mappings for kinds of directories (identified by a type id), each kind tied to
/// a list; `L` is a kind's layout, kept for each list that a kind created.
pub struct PluginStore<M, L> {
    entry_list: Vec<Vec<(String, M)>>,
    layouts: Vec<(usize, L)>,
    type_map: IdMap,
}

impl<M, L> PluginStore<M, L> {
    /// The lists of named mappings.
    pub closed spec fn lists(&self) -> Seq<Seq<(Seq<char>, M)>> {
        self.entry_list@.map_values(|l: Vec<(String, M)>| l@.map_values(|e: (String, M)| (e.0@, e.1)))
    }

    /// The list of each list that a kind created, with that kind's layout.
    pub closed spec fn layouts(&self) -> Seq<(usize, L)> {
        self.layouts@
    }

    /// Each kind with its list.
    pub closed spec fn types(&self) -> Map<u64, usize> {
        id_indices(self.type_map)
    }

    /// Every kind and layout points at a list, and names within a list are distinct.
    pub open spec fn wf(&self) -> bool {
        &&& forall|id: u64| #[trigger] self.types().contains_key(id) ==> self.types()[id] < self.lists().len()
        &&& forall|i: int| 0 <= i < self.layouts().len() ==> (#[trigger] self.layouts()[i]).0 < self.lists().len()
        &&& forall|l: int, i: int, j: int|
            0 <= l < self.lists().len() && 0 <= i < j < self.lists()[l].len() ==> self.lists()[l][i].0
                != self.lists()[l][j].0
    }

    /// `fin` keeps everything of `self`: each kind keeps its list, no list is lost, each
    /// list keeps its mappings in their places (new ones only come after them), and the
    /// kept layouts stay.
    pub open spec fn kept_in(&self, fin: &Self) -> bool {
        &&& forall|id: u64|
            #[trigger] self.types().contains_key(id) ==> fin.types().contains_key(id)
                && fin.types()[id] == self.types()[id]
        &&& self.lists().len() <= fin.lists().len()
        &&& forall|l: int|
            0 <= l < self.lists().len() ==> (#[trigger] self.lists()[l]).len() <= fin.lists()[l].len()
        &&& forall|l: int, i: int|
            0 <= l < self.lists().len() && 0 <= i < self.lists()[l].len() ==> #[trigger] fin.lists()[l][i]
                == self.lists()[l][i]
        &&& self.layouts().len() <= fin.layouts().len()
        &&& forall|i: int| 0 <= i < self.layouts().len() ==> #[trigger] fin.layouts()[i] == self.layouts()[i]
    }

    /// An empty store.
    pub fn new() -> (s: PluginStore<M, L>)
        ensures
            s.wf(),
            s.lists().len() == 0,
            s.layouts().len() == 0,
            s.types() == Map::<u64, usize>::empty(),
    {
        let s = PluginStore { entry_list: Vec::new(), layouts: Vec::new(), type_map: id_map_new() };
        proof {
            assert(s.lists() =~= Seq::<Seq<(Seq<char>, M)>>::empty());
        }
        s
    }

    /// The layouts kept so far, each with its list, for finding a compatible one.
    pub fn layout_list(&self) -> (r: &Vec<(usize, L)>)
        ensures
            r@ == self.layouts(),
    {
        &self.layouts
    }

    fn type_index(&self, id: u64) -> (r: Option<usize>)
        requires
            self.wf(),
        ensures
            r == list_of(self.types(), id),
            r matches Some(i) ==> i < self.lists().len(),
    {
        id_map_get(&self.type_map, id)
    }

    /// The list a kind of directory uses. A kind seen before keeps its list. A new kind
    /// takes the list of the kept layout at position `compatible` (one that its layout
    /// is compatible with, found by the caller); without one, a new empty list is made
    /// and the kind's layout is kept for it.
    pub fn entries_index(&mut self, id: u64, layout: L, compatible: Option<usize>) -> (idx: usize)
        requires
            old(self).wf(),
            old(self).lists().len() < usize::MAX,
        ensures
            final(self).wf(),
            idx < final(self).lists().len(),
            list_of(final(self).types(), id) == Some(idx),
            kind_assigned(old(self).types(), final(self).types(), id, idx),
            old(self).kept_in(&*final(self)),
            match list_of(old(self).types(), id) {
                Some(i) => idx == i && final(self).types() == old(self).types() && final(self).lists()
                    == old(self).lists() && final(self).layouts() == old(self).layouts(),
                None => final(self).types() == old(self).types().insert(id, idx) && match compatible {
                    Some(c) if c < old(self).layouts().len() => idx == old(self).layouts()[c as int].0
                        && final(self).lists() == old(self).lists() && final(self).layouts() == old(
                        self,
                    ).layouts(),
                    _ => idx == old(self).lists().len() && final(self).lists() == old(self).lists().push(
                        Seq::empty(),
                    ) && final(self).layouts() == old(self).layouts().push((idx, layout)),
                },
            },
    {
        match self.type_index(id) {
            Some(i) => i,
            None => {
                let ghost old_types = self.types();
                let ghost old_lists = self.lists();
                let idx = match compatible {
                    Some(c) if c < self.layouts.len() => self.layouts[c].0,
                    _ => {
                        let n = self.entry_list.len();
                        self.entry_list.push(Vec::new());
                        self.layouts.push((n, layout));
                        proof {
                            assert(self.lists()[n as int] =~= Seq::<(Seq<char>, M)>::empty());
                            assert(self.lists() =~= old_lists.push(Seq::empty()));
                        }
                        n
                    },
                };
                let _ = id_map_insert(&mut self.type_map, id, idx);
                proof {
                    assert forall|k: u64| #[trigger] self.types().contains_key(k) implies self.types()[k]
                        < self.lists().len() by {
                        if k != id {
                            assert(old_types.contains_key(k));
                        }
                    }
                }
                idx
            },
        }
    }

    fn find_name(&self, idx: usize, name: &str) -> (r: Option<usize>)
        requires
            self.wf(),
            idx < self.lists().len(),
        ensures
            match r {
                Some(k) => k < self.lists()[idx as int].len() && mapping_names(self.lists()[idx as int]).index_of_first(name@)
                    == Some(k as int),
                None => mapping_names(self.lists()[idx as int]).index_of_first(name@) is None,
            },
    {
        let ghost names = mapping_names(self.lists()[idx as int]);
        let list = &self.entry_list[idx];
        proof {
            names.index_of_first_ensures(name@);
            assert(self.lists()[idx as int] == list@.map_values(|e: (String, M)| (e.0@, e.1)));
        }
        let mut i: usize = 0;
        while i < list.len()
            invariant
                i <= list.len(),
                idx < self.lists().len(),
                names == mapping_names(self.lists()[idx as int]),
                names == mapping_names(list@.map_values(|e: (String, M)| (e.0@, e.1))),
                names.len() == list@.len(),
                forall|j: int| 0 <= j < i ==> names[j] != name@,
            decreases list.len() - i,
        {
            assert(names[i as int] == list@[i as int].0@);
            if str_eq(list[i].0.as_str(), name) {
                proof {
                    names.index_of_first_ensures(name@);
                    let k = names.index_of_first(name@).unwrap();
                    assert(k == i);
                }
                return Some(i);
            }
            i = i + 1;
        }
        proof {
            assert forall|j: int| 0 <= j < names.len() implies names[j] != name@ by {}
            names.index_of_first_ensures(name@);
        }
        None
    }

    /// Registers a mapping under a name for a kind of directory (its list found as
    /// `entries_index` does). Returns whether it was registered: a name already in the
    /// list keeps its mapping.
    pub fn register_mapping(
        &mut self,
        id: u64,
        layout: L,
        compatible: Option<usize>,
        name: &str,
        mapping: M,
    ) -> (b: bool)
        requires
            old(self).wf(),
            old(self).lists().len() < usize::MAX,
        ensures
            final(self).wf(),
            ({
                let idx = list_of(final(self).types(), id)->Some_0;
                let before = if idx < old(self).lists().len() {
                    old(self).lists()[idx as int]
                } else {
                    Seq::empty()
                };
                &&& idx < final(self).lists().len()
                &&& b == (mapping_of(before, name@) is None)
                &&& b ==> final(self).lists()[idx as int] == before.push((name@, mapping))
                &&& !b ==> final(self).lists()[idx as int] == before
                &&& forall|l: int| 0 <= l < final(self).lists().len() && l != idx ==> final(self).lists()[l]
                    == if l < old(self).lists().len() { old(self).lists()[l] } else { Seq::empty() }
                &&& kind_assigned(old(self).types(), final(self).types(), id, idx)
                &&& b ==> mapping_of(final(self).lists()[idx as int], name@) == Some(mapping)
                &&& b ==> registered(*final(self), id, name@, mapping)
                &&& !b ==> mapping_of(final(self).lists()[idx as int], name@) == mapping_of(before, name@)
            }),
            old(self).kept_in(&*final(self)),
    {
        let ghost old_lists = self.lists();
        let idx = self.entries_index(id, layout, compatible);
        let ghost mid_lists = self.lists();
        assert forall|l: int| 0 <= l < mid_lists.len() implies mid_lists[l] == (if l < old_lists.len() {
            old_lists[l]
        } else {
            Seq::<(Seq<char>, M)>::empty()
        }) by {}
        match self.find_name(idx, name) {
            Some(_) => {
                proof {
                    mapping_names(mid_lists[idx as int]).index_of_first_ensures(name@);
                }
                false
            },
            None => {
                proof {
                    mapping_names(mid_lists[idx as int]).index_of_first_ensures(name@);
                }
                let ghost old_raw = self.entry_list@;
                let mut list = Vec::new();
                std::mem::swap(&mut list, &mut self.entry_list[idx]);
                list.push((String::from_str(name), mapping));
                self.entry_list.set(idx, list);
                proof {
                    assert forall|l: int| 0 <= l < self.lists().len() && l != idx implies self.lists()[l]
                        == mid_lists[l] by {
                        assert(self.entry_list@[l] == old_raw[l]);
                    }
                    assert(self.lists()[idx as int] =~= mid_lists[idx as int].push((name@, mapping)));
                    assert forall|l: int, i: int, j: int|
                        0 <= l < self.lists().len() && l != idx && 0 <= i < j < self.lists()[l].len()
                        implies self.lists()[l][i].0 != self.lists()[l][j].0 by {
                        assert(self.lists()[l] == mid_lists[l]);
                    }
                    assert forall|l: int| 0 <= l < self.lists().len() && l != idx implies self.lists()[l]
                        == (if l < old_lists.len() {
                        old_lists[l]
                    } else {
                        Seq::<(Seq<char>, M)>::empty()
                    }) by {
                        assert(self.lists()[l] == mid_lists[l]);
                    }
                    assert forall|i: int, j: int|
                        0 <= i < j < self.lists()[idx as int].len() implies self.lists()[idx as int][i].0
                        != self.lists()[idx as int][j].0 by {
                        if j == mid_lists[idx as int].len() {
                            assert(mapping_names(mid_lists[idx as int])[i] == mid_lists[idx as int][i].0);
                        }
                    }
                    lemma_register_then_lookup(mid_lists[idx as int], name@, mapping);
                    assert forall|l: int, i: int|
                        0 <= l < old_lists.len() && 0 <= i < old_lists[l].len() implies #[trigger] self.lists()[l][i]
                        == old_lists[l][i] by {
                        assert(mid_lists[l] == old_lists[l]);
                    }
                }
                true
            },
        }
    }

    /// The mapping registered under a name for a kind of directory (its list found as
    /// `entries_index` does), if there is one.
    pub fn lookup_entry(&mut self, id: u64, layout: L, compatible: Option<usize>, name: &str) -> (r:
        Option<&M>)
        requires
            old(self).wf(),
            old(self).lists().len() < usize::MAX,
        ensures
            final(self).wf(),
            ({
                let idx = list_of(final(self).types(), id)->Some_0;
                &&& idx < final(self).lists().len()
                &&& match (r, mapping_of(final(self).lists()[idx as int], name@)) {
                    (Some(m), Some(n)) => *m == n,
                    (None, None) => true,
                    _ => false,
                }
                &&& (idx < old(self).lists().len() ==> final(self).lists()[idx as int] == old(self).lists()[idx as int])
                &&& (idx >= old(self).lists().len() ==> final(self).lists()[idx as int] == Seq::<(Seq<char>, M)>::empty())
                &&& kind_assigned(old(self).types(), final(self).types(), id, idx)
            }),
            old(self).kept_in(&*final(self)),
            forall|l: int| 0 <= l < old(self).lists().len() ==> #[trigger] final(self).lists()[l] == old(self).lists()[l],
            forall|m: M| #[trigger] registered(*old(self), id, name@, m) ==> (r matches Some(x) && *x == m),
    {
        let idx = self.entries_index(id, layout, compatible);
        proof {
            assert forall|m: M| #[trigger] registered(*old(self), id, name@, m) implies registered(*self, id, name@, m) by {
                lemma_registered_stays(*old(self), *self, id, name@, m);
            }
        }
        match self.find_name(idx, name) {
            Some(k) => {
                proof {
                    assert(self.lists()[idx as int][k as int].1 == self.entry_list@[idx as int]@[k as int].1);
                }
                Some(&self.entry_list[idx][k].1)
            },
            None => None,
        }
    }

    /// The names of the mappings for a kind of directory (its list found as
    /// `entries_index` does), in the order they were registered.
    pub fn entry_names(&mut self, id: u64, layout: L, compatible: Option<usize>) -> (r: Vec<String>)
        requires
            old(self).wf(),
            old(self).lists().len() < usize::MAX,
        ensures
            final(self).wf(),
            ({
                let idx = list_of(final(self).types(), id)->Some_0;
                &&& idx < final(self).lists().len()
                &&& r@.len() == final(self).lists()[idx as int].len()
                &&& forall|i: int| 0 <= i < r@.len() ==> r@[i]@ == final(self).lists()[idx as int][i].0
                &&& kind_assigned(old(self).types(), final(self).types(), id, idx)
            }),
            old(self).kept_in(&*final(self)),
            forall|l: int| 0 <= l < old(self).lists().len() ==> #[trigger] final(self).lists()[l] == old(self).lists()[l],
    {
        let idx = self.entries_index(id, layout, compatible);
        let list = &self.entry_list[idx];
        let mut out: Vec<String> = Vec::new();
        let mut i: usize = 0;
        while i < list.len()
            invariant
                i <= list.len(),
                out@.len() == i,
                forall|j: int| 0 <= j < i ==> out@[j]@ == list@[j].0@,
            decreases list.len() - i,
        {
            out.push(list[i].0.clone());
            i = i + 1;
        }
        proof {
            assert(self.lists()[idx as int] == list@.map_values(|e: (String, M)| (e.0@, e.1)));
        }
        out
    }

    /// Hands the mappings of a kind of directory (its list found as `entries_index`
    /// does) to `sink` in the order they were registered, name and mapping, until the
    /// sink answers that it has had enough.
    pub fn entry_list<S: EntrySink<M>>(
        &mut self,
        id: u64,
        layout: L,
        compatible: Option<usize>,
        sink: &mut S,
    )
        requires
            old(self).wf(),
            old(self).lists().len() < usize::MAX,
        ensures
            final(self).wf(),
            ({
                let idx = list_of(final(self).types(), id)->Some_0;
                &&& idx < final(self).lists().len()
                &&& kind_assigned(old(self).types(), final(self).types(), id, idx)
                &&& exists|st: Seq<S>, gos: Seq<bool>|
                    #[trigger] entries_handed(final(self).lists()[idx as int], st, gos) && st[0] == *old(sink)
                        && st.last() == *final(sink)
            }),
            old(self).kept_in(&*final(self)),
            forall|l: int| 0 <= l < old(self).lists().len() ==> #[trigger] final(self).lists()[l] == old(self).lists()[l],
    {
        let idx = self.entries_index(id, layout, compatible);
        let list = &self.entry_list[idx];
        let ghost lv = self.lists()[idx as int];
        proof {
            assert(lv == list@.map_values(|e: (String, M)| (e.0@, e.1)));
        }
        let ghost mut st: Seq<S> = seq![*sink];
        let ghost mut gos: Seq<bool> = Seq::empty();
        let mut i: usize = 0;
        while i < list.len()
            invariant
                i <= list.len(),
                lv == list@.map_values(|e: (String, M)| (e.0@, e.1)),
                self.wf(),
                idx < self.lists().len(),
                lv == self.lists()[idx as int],
                list_of(self.types(), id) == Some(idx),
                kind_assigned(old(self).types(), self.types(), id, idx),
                old(self).kept_in(&*self),
                forall|l: int| 0 <= l < old(self).lists().len() ==> #[trigger] self.lists()[l] == old(self).lists()[l],
                st.len() == i + 1,
                gos.len() == i,
                st[0] == *old(sink),
                st.last() == *sink,
                forall|j: int| 0 <= j < i ==> #[trigger] st[j].takes_entry(&st[j + 1], lv[j].0, lv[j].1, gos[j]),
                forall|j: int| 0 <= j < i ==> #[trigger] gos[j],
            decreases list.len() - i,
        {
            let ghost before = *sink;
            let go = sink.entry(list[i].0.as_str(), &list[i].1);
            proof {
                let st0 = st;
                let gos0 = gos;
                st = st.push(*sink);
                gos = gos.push(go);
                assert(lv[i as int] == (list@[i as int].0@, list@[i as int].1));
                assert forall|j: int| 0 <= j < i + 1 implies #[trigger] st[j].takes_entry(&st[j + 1], lv[j].0, lv[j].1, gos[j]) by {
                    if j < i {
                        assert(st0[j].takes_entry(&st0[j + 1], lv[j].0, lv[j].1, gos0[j]));
                    }
                }
            }
            if !go {
                proof {
                    assert forall|j: int| 0 <= j < gos.len() - 1 implies #[trigger] gos[j] by {
                        assert(gos[j] == gos.drop_last()[j]);
                    }
                    assert(entries_handed(lv, st, gos));
                }
                return;
            }
            i = i + 1;
        }
        proof {
            assert(entries_handed(lv, st, gos));
        }
    }
}

/// Store `s` has mapping `m` registered under `name` for the kind `id`: the kind has a
/// list, and the name is found there with `m`.
pub open spec fn registered<M, L>(s: PluginStore<M, L>, id: u64, name: Seq<char>, m: M) -> bool {
    &&& list_of(s.types(), id) is Some
    &&& mapping_of(s.lists()[list_of(s.types(), id)->Some_0 as int], name) == Some(m)
}

/// Law: what a store keeps, every later state keeps (each call ensures `kept_in` from
/// its old to its new store, so a run of calls does too).
pub proof fn lemma_kept_in_trans<M, L>(a: PluginStore<M, L>, b: PluginStore<M, L>, c: PluginStore<M, L>)
    requires
        a.kept_in(&b),
        b.kept_in(&c),
    ensures
        a.kept_in(&c),
{
    assert forall|l: int, i: int|
        0 <= l < a.lists().len() && 0 <= i < a.lists()[l].len() implies #[trigger] c.lists()[l][i]
        == a.lists()[l][i] by {
        assert(b.lists()[l][i] == a.lists()[l][i]);
        assert(b.lists()[l].len() >= a.lists()[l].len());
    }
    assert forall|l: int| 0 <= l < a.lists().len() implies (#[trigger] a.lists()[l]).len() <= c.lists()[l].len() by {
        assert(a.lists()[l].len() <= b.lists()[l].len());
    }
    assert forall|i: int| 0 <= i < a.layouts().len() implies #[trigger] c.layouts()[i] == a.layouts()[i] by {
        assert(b.layouts()[i] == a.layouts()[i]);
    }
}

/// Law: a mapping registered for a kind of directory stays registered: in every later
/// store that keeps the earlier one (as every call of the store ensures, and so every run
/// of calls), the name is found for that kind with the same mapping; `lookup_entry` then
/// gives it.
pub proof fn lemma_registered_stays<M, L>(
    s1: PluginStore<M, L>,
    s2: PluginStore<M, L>,
    id: u64,
    name: Seq<char>,
    m: M,
)
    requires
        s1.wf(),
        s1.kept_in(&s2),
        registered(s1, id, name, m),
    ensures
        list_of(s2.types(), id) == list_of(s1.types(), id),
        registered(s2, id, name, m),
{
    let i = list_of(s1.types(), id)->Some_0 as int;
    assert(s1.types().contains_key(id));
    let l1 = s1.lists()[i];
    let l2 = s2.lists()[i];
    let n1 = mapping_names(l1);
    let n2 = mapping_names(l2);
    n1.index_of_first_ensures(name);
    n2.index_of_first_ensures(name);
    let k = n1.index_of_first(name)->Some_0;
    assert(l2[k] == l1[k]);
    assert(n2[k] == name);
    let k2 = n2.index_of_first(name)->Some_0;
    if k2 < k {
        assert(l2[k2] == l1[k2]);
        assert(n1[k2] == name);
    }
    assert(k2 == k);
}

/// What a registered mapping gives for a directory: a sub-directory or a file, or
/// nothing when the mapping does not apply.
pub enum Mapped<B, L> {
    Branch(Option<B>),
    Leaf(Option<L>),
}

/// Where following a mapping leads: an entry, or a sub-directory in which the rest of
/// the path is to be followed.
pub enum Step<'a, B, L> {
    Done(DirEntry<B, L>),
    Follow(B, &'a str),
}

/// Follows a mapping's result. With the rest of a path, a sub-directory is followed
/// into; without one, the sub-directory or file is the entry. A mapping that gives
/// nothing, or a file with a path left, is not found.
pub fn map_entry<'a, B, L>(remote: Option<&'a str>, mapped: Mapped<B, L>) -> (r: Result<
    Step<'a, B, L>,
    Error,
>)
    ensures
        match (remote, mapped) {
            (Some(p), Mapped::Branch(Some(b))) => r == Ok::<Step<'a, B, L>, Error>(Step::Follow(b, p)),
            (None, Mapped::Branch(Some(b))) => r == Ok::<Step<'a, B, L>, Error>(
                Step::Done(DirEntry::Branch(b)),
            ),
            (None, Mapped::Leaf(Some(l))) => r == Ok::<Step<'a, B, L>, Error>(
                Step::Done(DirEntry::Leaf(l)),
            ),
            _ => r == Err::<Step<'a, B, L>, Error>(Error(ErrorOrigin::Other, ErrorKind::NotFound)),
        },
{
    match (remote, mapped) {
        (Some(p), Mapped::Branch(Some(b))) => Ok(Step::Follow(b, p)),
        (None, Mapped::Branch(Some(b))) => Ok(Step::Done(DirEntry::Branch(b))),
        (None, Mapped::Leaf(Some(l))) => Ok(Step::Done(DirEntry::Leaf(l))),
        _ => Err(Error::from(ErrorKind::NotFound)),
    }
}

/// The first step of following a path inside a directory: the name of the mapping to
/// look up and the rest of the path (none without a `/`).
pub fn entry_lookup<'a>(path: &'a str) -> (r: (&'a str, Option<&'a str>))
    ensures
        r.0@ == split_path_spec(path@).0,
        match (r.1, split_path_spec(path@).1) {
            (Some(a), Some(b)) => a@ == b,
            (None, None) => true,
            _ => false,
        },
{
    split_path(path)
}

/// The outcome of looking up a mapping by name: a missing one is not found.
pub fn found_mapping<M>(m: Option<M>) -> (r: Result<M, Error>)
    ensures
        match m {
            Some(x) => r == Ok::<M, Error>(x),
            None => r == Err::<M, Error>(Error(ErrorOrigin::Other, ErrorKind::NotFound)),
        },
{
    match m {
        Some(x) => Ok(x),
        None => Err(Error::from(ErrorKind::NotFound)),
    }
}

/// The entry a mapping result gives when no path is left, if any.
pub open spec fn kept<B, L>(m: Mapped<B, L>) -> Option<DirEntry<B, L>> {
    match m {
        Mapped::Branch(Some(b)) => Some(DirEntry::Branch(b)),
        Mapped::Leaf(Some(l)) => Some(DirEntry::Leaf(l)),
        _ => None,
    }
}

/// The listing of named mapping results: those that give an entry, in order.
pub open spec fn listed_spec<B, L>(rs: Seq<(Seq<char>, Mapped<B, L>)>) -> Seq<(Seq<char>, DirEntry<B, L>)>
    decreases rs.len(),
{
    if rs.len() == 0 {
        Seq::empty()
    } else {
        let prev = listed_spec(rs.drop_last());
        match kept(rs.last().1) {
            Some(e) => prev.push((rs.last().0, e)),
            None => prev,
        }
    }
}

/// A directory listing built from the mapping results: the names whose mapping gave a
/// sub-directory or file, in order, each with its entry.
pub fn listed<B, L>(results: Vec<(String, Mapped<B, L>)>) -> (out: Vec<(String, DirEntry<B, L>)>)
    ensures
        out@.map_values(|e: (String, DirEntry<B, L>)| (e.0@, e.1)) == listed_spec(
            results@.map_values(|e: (String, Mapped<B, L>)| (e.0@, e.1)),
        ),
{
    let ghost orig = results@.map_values(|e: (String, Mapped<B, L>)| (e.0@, e.1));
    let mut out: Vec<(String, DirEntry<B, L>)> = Vec::new();
    let mut rs = results;
    let ghost mut k: int = 0;
    while rs.len() > 0
        invariant
            0 <= k <= orig.len(),
            rs@.map_values(|e: (String, Mapped<B, L>)| (e.0@, e.1)) == orig.skip(k),
            out@.map_values(|e: (String, DirEntry<B, L>)| (e.0@, e.1)) == listed_spec(orig.take(k)),
        decreases rs.len(),
    {
        let ghost before = out@.map_values(|e: (String, DirEntry<B, L>)| (e.0@, e.1));
        let ghost rest = rs@;
        proof {
            assert(rs@.map_values(|e: (String, Mapped<B, L>)| (e.0@, e.1)).len() == rs@.len());
            assert(k < orig.len());
        }
        let (name, m) = rs.remove(0);
        proof {
            assert(rs@ =~= rest.subrange(1, rest.len() as int));
            assert(orig.skip(k)[0] == (name@, m));
            assert(orig.take(k + 1).drop_last() =~= orig.take(k));
            assert(orig.take(k + 1).last() == (name@, m));
        }
        match map_entry(None, m) {
            Ok(Step::Done(e)) => {
                out.push((name, e));
                proof {
                    assert(out@.map_values(|e: (String, DirEntry<B, L>)| (e.0@, e.1)) =~= before.push(
                        (name@, e),
                    ));
                }
            },
            _ => {},
        }
        proof {
            let rv = rest.map_values(|e: (String, Mapped<B, L>)| (e.0@, e.1));
            assert(rv == orig.skip(k));
            let nv = rs@.map_values(|e: (String, Mapped<B, L>)| (e.0@, e.1));
            assert forall|i: int| 0 <= i < rs@.len() implies #[trigger] nv[i] == orig.skip(k + 1)[i] by {
                assert(rs@[i] == rest[i + 1]);
                assert(rv[i + 1] == orig.skip(k)[i + 1]);
            }
            assert(rs@.map_values(|e: (String, Mapped<B, L>)| (e.0@, e.1)) =~= orig.skip(k + 1));
            k = k + 1;
        }
    }
    proof {
        assert(orig.take(k) =~= orig);
    }
    out
}

} // verus!
