//! A node: a set of named backends, each mounted under its name. A path
//! `"<backend>/<rest>"` is handed to the backend as `rest`; handles opened through a
//! backend are forwarded to it under handles of the node's own.
use vstd::prelude::*;
use crate::backend::LocalBackend;
use crate::error::{Error, ErrorKind, ErrorOrigin};
use crate::fs::{Branch, ListEntry, NodeMetadata};
use crate::session::FrameSink;
use crate::maps::{
    IndexMap, ForwardSlab, name_indices, forwards, index_map_new, index_map_get, index_map_insert,
    index_map_keys, slab_new, slab_insert, slab_get,
};
use crate::text::{split_first, strip_all_start, split_once_char, strip_all_start_char, str_eq, char_len};

verus! {

/// A filesystem backend: it opens files by path, gives metadata and listings of paths.
pub trait Backend {
    /// What the backend keeps true between calls.
    spec fn inv(&self) -> bool;

    /// Opening `path` may return `r` and leave the backend (`self` before) as `fin`.
    spec fn opens(&self, fin: &Self, path: Seq<char>, r: Result<usize, Error>) -> bool;

    /// The metadata of `path` may be `r`.
    spec fn metadata_is(&self, path: Seq<char>, r: Result<NodeMetadata, Error>) -> bool;

    /// The listing of `path` may be `r`.
    spec fn lists(&self, path: Seq<char>, r: Result<Vec<ListEntry>, Error>) -> bool;

    /// Reading `reqs` through `handle` may give `r`, the answers going from `s0` to `s1`.
    spec fn reads(&self, handle: usize, reqs: Seq<(u64, usize)>, s0: FrameSink, s1: FrameSink, r: Result<(), Error>) -> bool;

    /// Serves read requests `(offset, length)` through a handle, adding the answers to
    /// `sink`.
    fn read(&self, handle: usize, reqs: &Vec<(u64, usize)>, sink: &mut FrameSink) -> (r: Result<(), Error>)
        requires
            self.inv(),
            forall|k: int| 0 <= k < reqs@.len() ==> reqs@[k].0 + reqs@[k].1 <= u64::MAX,
        ensures
            self.reads(handle, reqs@, *old(sink), *final(sink), r),
    ;

    /// Opens the file at a path; the result is a handle.
    fn open(&mut self, path: &str) -> (r: Result<usize, Error>)
        requires
            old(self).inv(),
        ensures
            final(self).inv(),
            old(self).opens(&*final(self), path@, r),
    ;

    /// Metadata of a path.
    fn metadata(&self, path: &str) -> (r: Result<NodeMetadata, Error>)
        requires
            self.inv(),
        ensures
            self.metadata_is(path@, r),
    ;

    /// The entries of the directory at a path.
    fn list(&self, path: &str) -> (r: Result<Vec<ListEntry>, Error>)
        requires
            self.inv(),
        ensures
            self.lists(path@, r),
    ;
}

impl<T: Branch, C> Backend for LocalBackend<T, C> {
    open spec fn inv(&self) -> bool {
        self.wf() && self.handle_capacity() < usize::MAX - 3
    }

    /// As `LocalBackend::open`, while a handle number is left for another file;
    /// otherwise an unknown backend error, with nothing changed.
    open spec fn opens(&self, fin: &Self, path: Seq<char>, r: Result<usize, Error>) -> bool {
        if self.handle_capacity() < usize::MAX - 4 {
            self.open_outcome(fin, path, r)
        } else {
            r == Err::<usize, Error>(Error(ErrorOrigin::Backend, ErrorKind::Unknown)) && *fin == *self
        }
    }

    open spec fn metadata_is(&self, path: Seq<char>, r: Result<NodeMetadata, Error>) -> bool {
        self.metadata_outcome(path, r)
    }

    open spec fn lists(&self, path: Seq<char>, r: Result<Vec<ListEntry>, Error>) -> bool {
        self.list_outcome(path, r)
    }

    open spec fn reads(&self, handle: usize, reqs: Seq<(u64, usize)>, s0: FrameSink, s1: FrameSink, r: Result<(), Error>) -> bool {
        self.read_outcome(handle, reqs, s0, s1, r)
    }

    fn read(&self, handle: usize, reqs: &Vec<(u64, usize)>, sink: &mut FrameSink) -> (r: Result<(), Error>) {
        LocalBackend::read(self, handle, reqs, sink)
    }

    /// Opens a path as `LocalBackend::open` does; with no handle number left it fails
    /// with an unknown backend error.
    fn open(&mut self, path: &str) -> (r: Result<usize, Error>) {
        if self.capacity_left() {
            let r = LocalBackend::open(self, path);
            r
        } else {
            Err(Error(ErrorOrigin::Backend, ErrorKind::Unknown))
        }
    }

    fn metadata(&self, path: &str) -> (r: Result<NodeMetadata, Error>) {
        LocalBackend::metadata(self, path)
    }

    fn list(&self, path: &str) -> (r: Result<Vec<ListEntry>, Error>) {
        LocalBackend::list(self, path)
    }
}

/// The position of the backend mounted under a name, if there is one.
pub open spec fn backend_of(m: Map<Seq<char>, usize>, n: Seq<char>) -> Option<usize> {
    if m.contains_key(n) {
        Some(m[n])
    } else {
        None
    }
}

/// A listing shows the backend names: each entry is a directory named after a backend,
/// every backend name is shown, and none twice.
pub open spec fn lists_mounts(v: Seq<ListEntry>, m: Map<Seq<char>, usize>) -> bool {
    &&& forall|i: int| 0 <= i < v.len() ==> m.contains_key(#[trigger] v[i].name@) && v[i].is_branch
    &&& forall|n: Seq<char>| m.contains_key(n) ==> exists|i: int| 0 <= i < v.len() && #[trigger] v[i].name@ == n
    &&& forall|i: int, j: int| 0 <= i < j < v.len() ==> v[i].name@ != v[j].name@
}

/// Where a path of a node leads: its first component names a backend and the rest is
/// the path inside it (`None` without a `/`).
pub open spec fn node_parts(path: Seq<char>) -> Option<(Seq<char>, Seq<char>)> {
    split_first(path, '/')
}

/// The backend name and inner path of a path to be listed: leading `/` are dropped,
/// then it is split at the first `/` (no inner path without one).
pub open spec fn list_parts(path: Seq<char>) -> (Seq<char>, Seq<char>) {
    let p = strip_all_start(path, '/');
    match split_first(p, '/') {
        Some((a, b)) => (a, b),
        None => (p, Seq::<char>::empty()),
    }
}

/// Backends mounted under names, and the handles opened through them.
pub struct NodeBackend<B: Backend> {
    backends: Vec<B>,
    backend_map: IndexMap,
    handles: ForwardSlab,
}

impl<B: Backend> NodeBackend<B> {
    /// The backends, in the order they were added.
    pub closed spec fn backends(&self) -> Seq<B> {
        self.backends@
    }

    /// Each backend name with the position of its backend.
    pub closed spec fn mounts(&self) -> Map<Seq<char>, usize> {
        name_indices(self.backend_map)
    }

    /// Each open handle with the backend it was opened through and that backend's handle.
    pub closed spec fn handles(&self) -> Map<usize, (usize, usize)> {
        forwards(self.handles)
    }

    /// Each name names a backend, each handle forwards to a backend, and every backend
    /// keeps its own invariant.
    pub open spec fn wf(&self) -> bool {
        &&& forall|n: Seq<char>| #[trigger] self.mounts().contains_key(n) ==> self.mounts()[n] < self.backends().len()
        &&& forall|h: usize|
            #[trigger] self.handles().contains_key(h) ==> self.handles()[h].0 < self.backends().len()
        &&& forall|i: int| 0 <= i < self.backends().len() ==> (#[trigger] self.backends()[i]).inv()
    }

    /// What opening `path` returns and how it leaves the node (`self` before, `fin`
    /// after): `"<backend>/<rest>"` has the named backend open `rest`, and a new handle
    /// of the node forwards to the backend's handle; the backend's error stays its error,
    /// and with no handle of the node left the result is an unknown node error. A path
    /// without a `/`, or naming no backend, is not found. Names stay, and every other
    /// backend stays as it was.
    pub open spec fn open_outcome(&self, fin: &Self, path: Seq<char>, r: Result<usize, Error>) -> bool {
        &&& fin.mounts() == self.mounts()
        &&& fin.backends().len() == self.backends().len()
        &&& match node_parts(path) {
            Some((n, rest)) => match backend_of(self.mounts(), n) {
                Some(i) => {
                    let b = self.backends()[i as int];
                    let fb = fin.backends()[i as int];
                    &&& forall|j: int|
                        0 <= j < self.backends().len() && j != i ==> fin.backends()[j]
                            == self.backends()[j]
                    &&& match r {
                        Ok(h) => !self.handles().contains_key(h) && fin.handles()[h].0 == i
                            && fin.handles() == self.handles().insert(h, fin.handles()[h])
                            && b.opens(&fb, rest, Ok::<usize, Error>(fin.handles()[h].1)),
                        Err(e) => fin.handles() == self.handles() && (b.opens(
                            &fb,
                            rest,
                            Err::<usize, Error>(e),
                        ) || (e == Error(ErrorOrigin::Node, ErrorKind::Unknown) && exists|bh: usize|
                            #[trigger] b.opens(&fb, rest, Ok::<usize, Error>(bh)))),
                    }
                },
                None => r == Err::<usize, Error>(Error(ErrorOrigin::Node, ErrorKind::NotFound))
                    && fin.handles() == self.handles() && fin.backends() == self.backends(),
            },
            None => r == Err::<usize, Error>(Error(ErrorOrigin::Node, ErrorKind::NotFound))
                && fin.handles() == self.handles() && fin.backends() == self.backends(),
        }
    }

    /// What the metadata of `path` is: `"<backend>/<rest>"` is what the named backend
    /// gives for `rest`; the node itself (the empty path) and a backend's name are
    /// directories; a path whose first component names no backend is not found.
    pub open spec fn metadata_outcome(&self, path: Seq<char>, r: Result<NodeMetadata, Error>) -> bool {
        match node_parts(path) {
            Some((n, rest)) => match backend_of(self.mounts(), n) {
                Some(i) => self.backends()[i as int].metadata_is(rest, r),
                None => r == Err::<NodeMetadata, Error>(Error(ErrorOrigin::Node, ErrorKind::NotFound)),
            },
            None => if path.len() == 0 || backend_of(self.mounts(), path) is Some {
                r == Ok::<NodeMetadata, Error>(
                    NodeMetadata { is_branch: true, has_read: false, has_write: false, has_rpc: false, size: 0 },
                )
            } else {
                r == Err::<NodeMetadata, Error>(Error(ErrorOrigin::Node, ErrorKind::NotFound))
            },
        }
    }

    /// What listing `path` gives (leading `/` ignored): the backend names for an empty
    /// path, what the named backend lists for the rest, and not found for a name of no
    /// backend.
    pub open spec fn list_outcome(&self, path: Seq<char>, r: Result<Vec<ListEntry>, Error>) -> bool {
        let (n, rest) = list_parts(path);
        if n.len() == 0 {
            r matches Ok(v) && lists_mounts(v@, self.mounts())
        } else {
            match backend_of(self.mounts(), n) {
                Some(i) => self.backends()[i as int].lists(rest, r),
                None => r == Err::<Vec<ListEntry>, Error>(Error(ErrorOrigin::Node, ErrorKind::NotFound)),
            }
        }
    }

    /// A node with no backend and no open handle.
    pub fn new() -> (n: NodeBackend<B>)
        ensures
            n.wf(),
            n.backends().len() == 0,
            n.mounts() == Map::<Seq<char>, usize>::empty(),
            n.handles() == Map::<usize, (usize, usize)>::empty(),
    {
        NodeBackend { backends: Vec::new(), backend_map: index_map_new(), handles: slab_new() }
    }

    fn find(&self, name: &str) -> (r: Option<usize>)
        requires
            self.wf(),
        ensures
            r == backend_of(self.mounts(), name@),
            r matches Some(i) ==> i < self.backends().len(),
    {
        index_map_get(&self.backend_map, name)
    }

    /// Mounts a backend under a name. When the name is taken the backend is dropped and
    /// nothing changes.
    pub fn add_backend(&mut self, name: &str, backend: B)
        requires
            old(self).wf(),
            backend.inv(),
        ensures
            final(self).wf(),
            final(self).handles() == old(self).handles(),
            backend_of(old(self).mounts(), name@) is Some ==> final(self).mounts() == old(
                self,
            ).mounts() && final(self).backends() == old(self).backends(),
            backend_of(old(self).mounts(), name@) is None ==> final(self).mounts() == old(
                self,
            ).mounts().insert(name@, old(self).backends().len() as usize) && final(self).backends()
                == old(self).backends().push(backend),
    {
        if self.find(name).is_some() {
            return ;
        }
        let idx = self.backends.len();
        self.backends.push(backend);
        let _ = index_map_insert(&mut self.backend_map, String::from_str(name), idx);
        proof {
            assert forall|n: Seq<char>| #[trigger] self.mounts().contains_key(n) implies self.mounts()[n]
                < self.backends().len() by {
                if n != name@ {
                    assert(old(self).mounts().contains_key(n));
                }
            }
            assert forall|i: int| 0 <= i < self.backends().len() implies (
            #[trigger] self.backends()[i]).inv() by {
                if i < old(self).backends().len() {
                    assert(self.backends()[i] == old(self).backends()[i]);
                }
            }
            assert forall|k: usize| #[trigger] self.handles().contains_key(k) implies self.handles()[k].0
                < self.backends().len() by {
                assert(old(self).handles().contains_key(k));
            }
        }
    }

    /// The backend and backend handle that a handle of the node forwards to: an unknown
    /// handle is not found.
    pub fn resolve(&self, handle: usize) -> (r: Result<(usize, usize), Error>)
        requires
            self.wf(),
        ensures
            r matches Ok(f) ==> self.handles().contains_key(handle) && f == self.handles()[handle]
                && f.0 < self.backends().len(),
            r is Err ==> r == Err::<(usize, usize), Error>(Error(ErrorOrigin::Node, ErrorKind::NotFound)),
            !self.handles().contains_key(handle) ==> r is Err,
            self.handles().contains_key(handle) ==> r == Ok::<(usize, usize), Error>(self.handles()[handle]),
    {
        match slab_get(&self.handles, handle) {
            Some(f) => Ok(f),
            None => Err(Error(ErrorOrigin::Node, ErrorKind::NotFound)),
        }
    }

    /// What reading `reqs` through a handle of the node gives, the sink going from `s0`
    /// to `s1`: the backend the handle forwards to reads the same requests through its
    /// own handle; an unknown handle, and only that, is not found by the node, with the
    /// sink untouched.
    pub open spec fn read_outcome(
        &self,
        handle: usize,
        reqs: Seq<(u64, usize)>,
        s0: FrameSink,
        s1: FrameSink,
        r: Result<(), Error>,
    ) -> bool {
        let not_found = r == Err::<(), Error>(Error(ErrorOrigin::Node, ErrorKind::NotFound)) && s1 == s0;
        if !self.handles().contains_key(handle) {
            not_found
        } else {
            let f = self.handles()[handle];
            self.backends()[f.0 as int].reads(f.1, reqs, s0, s1, r)
        }
    }

    /// Reads through a handle of the node: see [`Self::read_outcome`].
    pub fn read(&self, handle: usize, reqs: &Vec<(u64, usize)>, sink: &mut FrameSink) -> (r: Result<(), Error>)
        requires
            self.wf(),
            forall|k: int| 0 <= k < reqs@.len() ==> reqs@[k].0 + reqs@[k].1 <= u64::MAX,
        ensures
            self.read_outcome(handle, reqs@, *old(sink), *final(sink), r),
    {
        match self.resolve(handle) {
            Ok((i, bh)) => {
                assert(self.backends()[i as int].inv());
                self.backends[i].read(bh, reqs, sink)
            },
            Err(e) => Err(e),
        }
    }

    /// The backend at a position.
    pub fn backend(&self, idx: usize) -> (r: Result<&B, Error>)
        ensures
            idx < self.backends().len() ==> (r matches Ok(b) && *b == self.backends()[idx as int]),
            idx >= self.backends().len() ==> r == Err::<&B, Error>(
                Error(ErrorOrigin::Node, ErrorKind::InvalidPath),
            ),
    {
        if idx < self.backends.len() {
            Ok(&self.backends[idx])
        } else {
            Err(Error(ErrorOrigin::Node, ErrorKind::InvalidPath))
        }
    }

    /// Opens `"<backend>/<rest>"`: `rest` is opened by the backend and the node keeps a
    /// new handle forwarding to the backend's. A path without a `/`, or whose first
    /// component names no backend, is not found; the backend's error stays its error.
    pub fn open(&mut self, path: &str) -> (r: Result<usize, Error>)
        requires
            old(self).wf(),
        ensures
            final(self).wf(),
            old(self).open_outcome(&*final(self), path@, r),
    {
        if let Some((name, rest)) = split_once_char(path, '/') {
            if let Some(idx) = self.find(name) {
                let ghost old_backends = self.backends@;
                let res = self.backends[idx].open(rest);
                proof {
                    assert forall|i: int| 0 <= i < self.backends().len() implies (
                    #[trigger] self.backends()[i]).inv() by {
                        if i != idx {
                            assert(self.backends()[i] == old_backends[i]);
                        }
                    }
                }
                match res {
                    Ok(bh) => match slab_insert(&mut self.handles, (idx, bh)) {
                        Some(h) => {
                            proof {
                                assert forall|k: usize| #[trigger] self.handles().contains_key(k)
                                    implies self.handles()[k].0 < self.backends().len() by {
                                    if k != h {
                                        assert(old(self).handles().contains_key(k));
                                    }
                                }
                            }
                            return Ok(h);
                        },
                        None => {
                            proof {
                                assert forall|k: usize| #[trigger] self.handles().contains_key(k)
                                    implies self.handles()[k].0 < self.backends().len() by {
                                    assert(old(self).handles().contains_key(k));
                                }
                            }
                            return Err(Error(ErrorOrigin::Node, ErrorKind::Unknown));
                        },
                    },
                    Err(e) => {
                        proof {
                            assert forall|k: usize| #[trigger] self.handles().contains_key(k)
                                implies self.handles()[k].0 < self.backends().len() by {
                                assert(old(self).handles().contains_key(k));
                            }
                        }
                        return Err(e);
                    },
                }
            }
        }
        Err(Error(ErrorOrigin::Node, ErrorKind::NotFound))
    }

    /// Metadata of a path: `"<backend>/<rest>"` is asked of the backend; the node itself
    /// (the empty path) and a backend's name are directories; anything else is not found.
    pub fn metadata(&self, path: &str) -> (r: Result<NodeMetadata, Error>)
        requires
            self.wf(),
        ensures
            self.metadata_outcome(path@, r),
    {
        match split_once_char(path, '/') {
            Some((name, rest)) => match self.find(name) {
                Some(idx) => self.backends[idx].metadata(rest),
                None => Err(Error(ErrorOrigin::Node, ErrorKind::NotFound)),
            },
            None => {
                if char_len(path) == 0 || self.find(path).is_some() {
                    Ok(NodeMetadata::branch())
                } else {
                    Err(Error(ErrorOrigin::Node, ErrorKind::NotFound))
                }
            },
        }
    }

    /// The backend names, each a directory, each once (in the order the name table is
    /// walked).
    pub fn list_root(&self) -> (out: Vec<ListEntry>)
        ensures
            lists_mounts(out@, self.mounts()),
    {
        let keys = index_map_keys(&self.backend_map);
        let mut out: Vec<ListEntry> = Vec::new();
        let mut i: usize = 0;
        while i < keys.len()
            invariant
                i <= keys.len(),
                out@.len() == i,
                forall|j: int| 0 <= j < i ==> out@[j].name@ == keys@[j]@ && out@[j].is_branch,
            decreases keys.len() - i,
        {
            out.push(ListEntry::new(keys[i].clone(), true));
            i = i + 1;
        }
        proof {
            assert forall|n: Seq<char>| self.mounts().contains_key(n) implies exists|i: int|
                0 <= i < out@.len() && #[trigger] out@[i].name@ == n by {
                let i = choose|i: int| 0 <= i < keys@.len() && #[trigger] keys@[i]@ == n;
                assert(out@[i].name@ == n);
            }
        }
        out
    }

    /// Lists a path (leading `/` ignored): the backend names for an empty path, otherwise
    /// what the named backend lists for the rest; a name of no backend is not found.
    pub fn list(&self, path: &str) -> (r: Result<Vec<ListEntry>, Error>)
        requires
            self.wf(),
        ensures
            self.list_outcome(path@, r),
    {
        let p = strip_all_start_char(path, '/');
        proof {
            reveal_strlit("");
        }
        let (name, rest): (&str, &str) = match split_once_char(p, '/') {
            Some((a, b)) => (a, b),
            None => (p, ""),
        };
        proof {
            assert(""@ =~= Seq::<char>::empty());
            assert(name@ == list_parts(path@).0 && rest@ == list_parts(path@).1);
        }
        if char_len(name) != 0 {
            match self.find(name) {
                Some(idx) => self.backends[idx].list(rest),
                None => Err(Error(ErrorOrigin::Node, ErrorKind::NotFound)),
            }
        } else {
            Ok(self.list_root())
        }
    }
}

/// Law: a handle the node opened reaches the backend it was opened on. When opening
/// `"<name>/<rest>"` turned the node `n0` into `n1` and gave the handle `h`, the named
/// backend opened `rest` under some handle `bh` of its own, and every read through `h`
/// is exactly that backend's read through `bh`.
pub proof fn lemma_open_then_read<B: Backend>(
    n0: NodeBackend<B>,
    n1: NodeBackend<B>,
    path: Seq<char>,
    name: Seq<char>,
    rest: Seq<char>,
    h: usize,
)
    requires
        n0.open_outcome(&n1, path, Ok::<usize, Error>(h)),
        node_parts(path) == Some((name, rest)),
    ensures
        backend_of(n0.mounts(), name) is Some,
        ({
            let i = backend_of(n0.mounts(), name)->Some_0 as int;
            exists|bh: usize|
                #[trigger] n0.backends()[i].opens(&n1.backends()[i], rest, Ok::<usize, Error>(bh))
                    && forall|reqs: Seq<(u64, usize)>, s0: FrameSink, s1: FrameSink, r: Result<(), Error>|
                    #[trigger] n1.read_outcome(h, reqs, s0, s1, r) == n1.backends()[i].reads(
                        bh,
                        reqs,
                        s0,
                        s1,
                        r,
                    )
        }),
{
    let i = backend_of(n0.mounts(), name)->Some_0 as int;
    let bh = n1.handles()[h].1;
    assert(n1.handles().contains_key(h));
    assert(n0.backends()[i].opens(&n1.backends()[i], rest, Ok::<usize, Error>(bh)));
}

impl<B: Backend> Backend for NodeBackend<B> {
    open spec fn inv(&self) -> bool {
        self.wf()
    }

    open spec fn opens(&self, fin: &Self, path: Seq<char>, r: Result<usize, Error>) -> bool {
        self.open_outcome(fin, path, r)
    }

    open spec fn metadata_is(&self, path: Seq<char>, r: Result<NodeMetadata, Error>) -> bool {
        self.metadata_outcome(path, r)
    }

    open spec fn lists(&self, path: Seq<char>, r: Result<Vec<ListEntry>, Error>) -> bool {
        self.list_outcome(path, r)
    }

    open spec fn reads(&self, handle: usize, reqs: Seq<(u64, usize)>, s0: FrameSink, s1: FrameSink, r: Result<(), Error>) -> bool {
        self.read_outcome(handle, reqs, s0, s1, r)
    }

    fn read(&self, handle: usize, reqs: &Vec<(u64, usize)>, sink: &mut FrameSink) -> (r: Result<(), Error>) {
        NodeBackend::read(self, handle, reqs, sink)
    }

    fn open(&mut self, path: &str) -> (r: Result<usize, Error>) {
        NodeBackend::open(self, path)
    }

    fn metadata(&self, path: &str) -> (r: Result<NodeMetadata, Error>) {
        NodeBackend::metadata(self, path)
    }

    fn list(&self, path: &str) -> (r: Result<Vec<ListEntry>, Error>) {
        NodeBackend::list(self, path)
    }
}

} // verus!
