//! A local backend: a set of named top-level entries (each a directory tree
//! provided by a plugin), with two control files. Writing `"<name> <args>"` to
//! `new` builds an entry from the arguments and adds it under the name; writing a
//! name to `rm` removes that entry. Opened files are kept under handles.
use vstd::prelude::*;
use crate::error::{Error, ErrorKind, ErrorOrigin};
use crate::fs::{Branch, DirEntry, Leaf, ListEntry, NodeMetadata, lists_at, utf8_str};
use crate::handles::HandleTable;
use crate::io::{FileObj, ReadSink};
use crate::text::{split_first, trim, split_once_char, trim_str, str_eq, contains_char, char_len};

verus! {

/// Builds a value from a text argument and a context (plugins implement this).
pub trait StrBuild<C>: Sized {
    /// Building from `input` with `ctx` may give `r`. An implementation says which
    /// results it gives; by default nothing is said.
    open spec fn builds_from(input: Seq<char>, ctx: C, r: Result<Self, Error>) -> bool {
        true
    }

    fn build(input: &str, ctx: &C) -> (r: Result<Self, Error>)
        ensures
            Self::builds_from(input@, *ctx, r),
    ;
}

/// What writing one line to the `new` control file gives (`r`) and leaves as entries
/// (`fin`), from the entries `es` and the context `ctx`: bytes that are not UTF-8 are an
/// invalid argument; the line is split at its first space into a name and the argument
/// text; a taken name (a control file name or an entry's) already exists; otherwise the
/// argument text is handed to `build` with the context, and its error comes back, or
/// the built entry is added under the name (a name holding `/` cannot be added and
/// already exists).
pub open spec fn new_line_outcome<T: StrBuild<C>, C>(
    es: Seq<(Seq<char>, T)>,
    ctx: C,
    line: Seq<u8>,
    r: Result<(), Error>,
    fin: Seq<(Seq<char>, T)>,
) -> bool {
    if !vstd::utf8::valid_utf8(line) {
        r == Err::<(), Error>(Error(ErrorOrigin::Backend, ErrorKind::InvalidArgument)) && fin == es
    } else {
        let (name, args) = new_line_parts(vstd::utf8::decode_utf8(line));
        if name_taken(es, name) {
            r == Err::<(), Error>(Error(ErrorOrigin::Backend, ErrorKind::AlreadyExists)) && fin == es
        } else {
            exists|b: Result<T, Error>|
                #[trigger] T::builds_from(args, ctx, b) && match b {
                    Err(e) => r == Err::<(), Error>(e) && fin == es,
                    Ok(t) => if may_insert(es, name) {
                        r is Ok && fin == es.push((name, t))
                    } else {
                        r == Err::<(), Error>(Error(ErrorOrigin::Backend, ErrorKind::AlreadyExists))
                            && fin == es
                    },
                }
        }
    }
}

/// The lines written to `new` were taken one by one: the entries went through `st`
/// (`st[0]` before the first line), line `i` giving `rs[i]`.
pub open spec fn new_lines_taken<T: StrBuild<C>, C>(
    ctx: C,
    lines: Seq<Vec<u8>>,
    st: Seq<Seq<(Seq<char>, T)>>,
    rs: Seq<Result<(), Error>>,
) -> bool {
    &&& st.len() == lines.len() + 1
    &&& rs.len() == lines.len()
    &&& forall|i: int|
        0 <= i < lines.len() ==> #[trigger] new_line_outcome(st[i], ctx, lines[i]@, rs[i], st[i + 1])
}

/// The positions and errors of the lines that failed, in order.
pub open spec fn failures(rs: Seq<Result<(), Error>>) -> Seq<(usize, Error)>
    decreases rs.len(),
{
    if rs.len() == 0 {
        Seq::empty()
    } else {
        let before = failures(rs.drop_last());
        match rs.last() {
            Err(e) => before.push(((rs.len() - 1) as usize, e)),
            Ok(_) => before,
        }
    }
}

/// What a handle of a local backend stands for.
pub enum Handler<O> {
    /// The `new` control file.
    New,
    /// The `rm` control file.
    Rm,
    /// An opened file.
    Object(O),
}

/// The names of the control files, which no entry can have.
pub open spec fn reserved(n: Seq<char>) -> bool {
    n == "new"@ || n == "rm"@
}

/// The names of a list of entries, in order.
pub open spec fn names_of<T>(es: Seq<(Seq<char>, T)>) -> Seq<Seq<char>> {
    es.map_values(|e: (Seq<char>, T)| e.0)
}

/// Whether some entry has the name.
pub open spec fn has_name<T>(es: Seq<(Seq<char>, T)>, n: Seq<char>) -> bool {
    names_of(es).contains(n)
}

/// The entry with a name, if there is one.
pub open spec fn lookup<T>(es: Seq<(Seq<char>, T)>, n: Seq<char>) -> Option<T> {
    match names_of(es).index_of_first(n) {
        Some(i) => Some(es[i].1),
        None => None,
    }
}

/// The entries without the one named `n` (if there is one).
pub open spec fn without<T>(es: Seq<(Seq<char>, T)>, n: Seq<char>) -> Seq<(Seq<char>, T)> {
    match names_of(es).index_of_first(n) {
        Some(i) => es.remove(i),
        None => es,
    }
}

/// Whether a name is taken: it is a control file or an entry has it.
pub open spec fn name_taken<T>(es: Seq<(Seq<char>, T)>, n: Seq<char>) -> bool {
    reserved(n) || has_name(es, n)
}

/// Whether an entry may be added under a name: it holds no `/` and is not taken.
pub open spec fn may_insert<T>(es: Seq<(Seq<char>, T)>, n: Seq<char>) -> bool {
    !n.contains('/') && !name_taken(es, n)
}

/// The entries after the first `k` lines were written to the `rm` control file: each
/// line that is UTF-8 removes the entry named by its trimmed text.
pub open spec fn after_rm_lines<T>(es: Seq<(Seq<char>, T)>, lines: Seq<Vec<u8>>, k: nat) -> Seq<
    (Seq<char>, T),
>
    decreases k,
{
    if k == 0 {
        es
    } else {
        let prev = after_rm_lines(es, lines, (k - 1) as nat);
        let line = lines[k - 1]@;
        if vstd::utf8::valid_utf8(line) {
            without(prev, trim(vstd::utf8::decode_utf8(line)))
        } else {
            prev
        }
    }
}

/// The positions of the failures are strictly increasing.
pub open spec fn positions_increase(fails: Seq<(usize, Error)>) -> bool {
    forall|a: int, b: int| 0 <= a < b < fails.len() ==> fails[a].0 < fails[b].0
}

/// Some failure is at position `j`.
pub open spec fn failed_at(fails: Seq<(usize, Error)>, j: int) -> bool {
    exists|i: int| 0 <= i < fails.len() && fails[i].0 == j
}

/// An entry added under a name is the one found under that name, and removing that
/// name again gives back the entries from before.
pub proof fn lemma_insert_then_lookup<T>(es: Seq<(Seq<char>, T)>, n: Seq<char>, t: T)
    requires
        may_insert(es, n),
    ensures
        lookup(es.push((n, t)), n) == Some(t),
        without(es.push((n, t)), n) == es,
        has_name(es.push((n, t)), n),
{
    let es2 = es.push((n, t));
    let names = names_of(es);
    let names2 = names_of(es2);
    assert(names2 =~= names.push(n));
    names.index_of_first_ensures(n);
    names2.index_of_first_ensures(n);
    assert(names2[es.len() as int] == n);
    assert(names2.index_of_first(n) == Some(es.len() as int));
    assert(es2.remove(es.len() as int) =~= es);
}

/// An entry built through `new` is removed again by writing its name to `rm`: the
/// entries are those from before.
pub proof fn lemma_new_then_rm<T>(es: Seq<(Seq<char>, T)>, n: Seq<char>, t: T)
    requires
        may_insert(es, n),
        trim(n) == n,
    ensures
        without(es.push((n, t)), trim(n)) == es,
{
    lemma_insert_then_lookup(es, n, t);
}

/// A line written to `new` is split at its first space: a name without spaces, a
/// space, and the rest give back that name and that rest.
pub proof fn lemma_new_line_parts(name: Seq<char>, rest: Seq<char>)
    requires
        !name.contains(' '),
    ensures
        new_line_parts(name + seq![' '] + rest) == (name, rest),
{
    let line = name + seq![' '] + rest;
    let n = name.len() as int;
    assert(line[n] == ' ');
    assert forall|j: int| 0 <= j < n implies line[j] != ' ' by {
        assert(line[j] == name[j]);
    }
    line.index_of_first_ensures(' ');
    assert(line.index_of_first(' ') == Some(n));
    assert(line.take(n) =~= name);
    assert(line.skip(n + 1) =~= rest);
}

/// Where a path of a local backend leads.
pub enum Route<'a> {
    /// The `new` control file.
    New,
    /// The `rm` control file.
    Rm,
    /// The path `rest` inside the entry `name`.
    Entry(&'a str, &'a str),
}

/// The entry name and inner path of a path: split at the first `/` (no inner path
/// without one).
pub open spec fn route_parts(path: Seq<char>) -> (Seq<char>, Seq<char>) {
    match split_first(path, '/') {
        Some((a, b)) => (a, b),
        None => (path, Seq::<char>::empty()),
    }
}

/// The name and argument text of a line written to `new`: split at the first space.
pub open spec fn new_line_parts(line: Seq<char>) -> (Seq<char>, Seq<char>) {
    match split_first(line, ' ') {
        Some((a, b)) => (a, b),
        None => (line, Seq::<char>::empty()),
    }
}

/// Where a path leads: with no inner path, `new` and `rm` are the control files; any
/// other path names an entry and a path inside it.
pub fn route(path: &str) -> (r: Route<'_>)
    ensures
        ({
            let (b, rest) = route_parts(path@);
            match r {
                Route::New => rest.len() == 0 && b == "new"@,
                Route::Rm => rest.len() == 0 && b == "rm"@,
                Route::Entry(n, p) => n@ == b && p@ == rest && !(rest.len() == 0 && reserved(b)),
            }
        }),
{
    proof {
        reveal_strlit("");
    }
    let (b, rest): (&str, &str) = match split_once_char(path, '/') {
        Some((a, r)) => (a, r),
        None => (path, ""),
    };
    if char_len(rest) == 0 && str_eq(b, "new") {
        Route::New
    } else if char_len(rest) == 0 && str_eq(b, "rm") {
        Route::Rm
    } else {
        Route::Entry(b, rest)
    }
}

/// The metadata of what a path inside an entry leads to may be `r`: a directory has
/// directory metadata, a file gives its own, and an error stays an error.
pub open spec fn found_metadata<B, L: Leaf>(found: Result<DirEntry<B, L>, Error>, r: Result<NodeMetadata, Error>) -> bool {
    match found {
        Ok(DirEntry::Branch(_)) => r == Ok::<NodeMetadata, Error>(
            NodeMetadata { is_branch: true, has_read: false, has_write: false, has_rpc: false, size: 0 },
        ),
        Ok(DirEntry::Leaf(l)) => l.gives_metadata(r),
        Err(e) => r == Err::<NodeMetadata, Error>(e),
    }
}

/// The metadata of what a path inside an entry leads to: a directory has directory
/// metadata, a file gives its own, and an error stays an error.
pub fn metadata_of_found<B, L: Leaf>(found: Result<DirEntry<B, L>, Error>) -> (r: Result<
    NodeMetadata,
    Error,
>)
    ensures
        found_metadata(found, r),
{
    match found {
        Ok(DirEntry::Leaf(leaf)) => leaf.metadata(),
        Ok(DirEntry::Branch(_)) => Ok(NodeMetadata::branch()),
        Err(e) => Err(e),
    }
}

/// Named entries of type `T` built with a context of type `C`, two control files, and
/// the files opened through them.
pub struct LocalBackend<T: Branch, C> {
    entries: Vec<(String, T)>,
    context: C,
    handles: HandleTable<Handler<<T::Leaf as Leaf>::Obj>>,
    build_enabled: bool,
    new_handle: Result<usize, Error>,
    rm_handle: Result<usize, Error>,
}

impl<T: Branch, C> LocalBackend<T, C> {
    /// The entries, by name, in the order they were added.
    pub closed spec fn entries(&self) -> Seq<(Seq<char>, T)> {
        self.entries@.map_values(|e: (String, T)| (e.0@, e.1))
    }

    /// The open handles and what each stands for.
    pub closed spec fn handles(&self) -> Map<usize, Handler<<T::Leaf as Leaf>::Obj>> {
        self.handles@
    }

    /// The handle of the `new` control file, or why there is none.
    pub closed spec fn new_handle(&self) -> Result<usize, Error> {
        self.new_handle
    }

    /// The handle of the `rm` control file, or why there is none.
    pub closed spec fn rm_handle(&self) -> Result<usize, Error> {
        self.rm_handle
    }

    /// Whether writing to `new` builds entries.
    pub closed spec fn builds(&self) -> bool {
        self.build_enabled
    }

    /// The context entries are built with.
    pub closed spec fn context(&self) -> C {
        self.context
    }

    /// How many handle numbers are in use at most.
    pub closed spec fn handle_capacity(&self) -> nat {
        self.handles.capacity()
    }

    /// Entry names are distinct, hold no `/` and are not control file names, and the
    /// control file handles stand for the control files.
    pub open spec fn wf(&self) -> bool {
        &&& forall|i: int, j: int|
            0 <= i < self.entries().len() && 0 <= j < self.entries().len() && i != j
                ==> self.entries()[i].0 != self.entries()[j].0
        &&& forall|i: int|
            0 <= i < self.entries().len() ==> !(#[trigger] self.entries()[i]).0.contains('/')
                && !reserved(self.entries()[i].0)
        &&& (self.new_handle() matches Ok(h) ==> self.handles().contains_key(h)
            && self.handles()[h] is New)
        &&& (self.rm_handle() matches Ok(h) ==> self.handles().contains_key(h)
            && self.handles()[h] is Rm)
        &&& self.handle_capacity() < usize::MAX - 2
    }

    /// What opening `path` returns and how it leaves the backend (`self` before, `fin`
    /// after): `new` and `rm` give the control file handles; a path naming no entry is
    /// not found; otherwise a new handle holds the opened file, or the entry's error
    /// comes back. Entries and control files stay as they are.
    pub open spec fn open_outcome(&self, fin: &Self, path: Seq<char>, r: Result<usize, Error>) -> bool {
        &&& fin.entries() == self.entries()
        &&& fin.new_handle() == self.new_handle()
        &&& fin.rm_handle() == self.rm_handle()
        &&& fin.handle_capacity() <= self.handle_capacity() + 1
        &&& {
            let (b, rest) = route_parts(path);
            if rest.len() == 0 && b == "new"@ {
                r == self.new_handle() && fin.handles() == self.handles()
            } else if rest.len() == 0 && b == "rm"@ {
                r == self.rm_handle() && fin.handles() == self.handles()
            } else if !has_name(self.entries(), b) {
                r == Err::<usize, Error>(Error(ErrorOrigin::Backend, ErrorKind::NotFound))
                    && fin.handles() == self.handles()
            } else {
                match lookup(self.entries(), b) {
                    Some(t) => exists|e: Result<DirEntry<T, T::Leaf>, Error>|
                        #[trigger] t.gives_entry(rest, e) && Self::found_opens(
                            e,
                            self.handles(),
                            fin.handles(),
                            r,
                        ),
                    None => false,
                }
            }
        }
    }

    /// What the metadata of `path` is: the control files have default metadata (when
    /// they exist), an entry is a directory, a path naming no entry is not found. (Of a
    /// path inside an entry, the entry's own answer.)
    pub open spec fn metadata_outcome(&self, path: Seq<char>, r: Result<NodeMetadata, Error>) -> bool {
        let (b, rest) = route_parts(path);
        if rest.len() == 0 && b == "new"@ {
            match self.new_handle() {
                Ok(_) => r == Ok::<NodeMetadata, Error>(
                    NodeMetadata { is_branch: false, has_read: false, has_write: false, has_rpc: false, size: 0 },
                ),
                Err(e) => r == Err::<NodeMetadata, Error>(e),
            }
        } else if rest.len() == 0 && b == "rm"@ {
            match self.rm_handle() {
                Ok(_) => r == Ok::<NodeMetadata, Error>(
                    NodeMetadata { is_branch: false, has_read: false, has_write: false, has_rpc: false, size: 0 },
                ),
                Err(e) => r == Err::<NodeMetadata, Error>(e),
            }
        } else if !has_name(self.entries(), b) {
            r == Err::<NodeMetadata, Error>(Error(ErrorOrigin::Backend, ErrorKind::NotFound))
        } else if rest.len() == 0 {
            r == Ok::<NodeMetadata, Error>(
                NodeMetadata { is_branch: true, has_read: false, has_write: false, has_rpc: false, size: 0 },
            )
        } else {
            match lookup(self.entries(), b) {
                Some(t) => exists|e: Result<DirEntry<T, T::Leaf>, Error>|
                    #[trigger] t.gives_entry(rest, e) && found_metadata(e, r),
                None => false,
            }
        }
    }

    /// What listing `path` gives: for the empty path every entry (a directory), then
    /// `rm`, then `new` when it is available; a path naming no entry is not found. (Of a
    /// path inside an entry, the entry's own listing.)
    pub open spec fn list_outcome(&self, path: Seq<char>, r: Result<Vec<ListEntry>, Error>) -> bool {
        &&& path.len() == 0 ==> (r matches Ok(out) && {
            &&& out@.len() == self.entries().len() + 1 + (if self.new_handle() is Ok {
                1int
            } else {
                0
            })
            &&& forall|i: int|
                0 <= i < self.entries().len() ==> out@[i].name@ == self.entries()[i].0
                    && out@[i].is_branch
            &&& out@[self.entries().len() as int].name@ == "rm"@
            &&& !out@[self.entries().len() as int].is_branch
            &&& self.new_handle() is Ok ==> out@[self.entries().len() + 1int].name@ == "new"@
                && !out@[self.entries().len() + 1int].is_branch
        })
        &&& path.len() != 0 ==> match lookup(self.entries(), route_parts(path).0) {
            Some(t) => lists_at(t, route_parts(path).1, r),
            None => r == Err::<Vec<ListEntry>, Error>(Error(ErrorOrigin::Backend, ErrorKind::NotFound)),
        }
    }

    /// A backend with no entries whose `rm` control file is ready and whose `new`
    /// control file is not supported.
    pub fn new(context: C) -> (b: LocalBackend<T, C>)
        ensures
            b.wf(),
            b.entries() == Seq::<(Seq<char>, T)>::empty(),
            b.context() == context,
            !b.builds(),
            b.new_handle() == Err::<usize, Error>(Error(ErrorOrigin::Backend, ErrorKind::NotSupported)),
            b.rm_handle() is Ok,
            b.handles().dom() == set![b.rm_handle()->Ok_0],
    {
        let mut handles = HandleTable::new();
        let rm = handles.insert(Handler::Rm);
        let b = LocalBackend {
            entries: Vec::new(),
            context,
            handles,
            build_enabled: false,
            new_handle: Err(Error(ErrorOrigin::Backend, ErrorKind::NotSupported)),
            rm_handle: Ok(rm),
        };
        proof {
            assert(b.entries() =~= Seq::<(Seq<char>, T)>::empty());
            assert(b.handles().dom() =~= set![rm]);
        }
        b
    }

    /// Whether an entry may not be added under `name`: it is a control file name or an
    /// entry has it.
    pub fn name_exists(&self, name: &str) -> (b: bool)
        ensures
            b == name_taken(self.entries(), name@),
    {
        if str_eq(name, "new") || str_eq(name, "rm") {
            return true;
        }
        let r = self.index_of(name);
        proof {
            names_of(self.entries()).index_of_first_ensures(name@);
        }
        r.is_some()
    }

    fn index_of(&self, name: &str) -> (r: Option<usize>)
        ensures
            match r {
                Some(i) => i < self.entries().len() && names_of(self.entries()).index_of_first(name@)
                    == Some(i as int),
                None => !has_name(self.entries(), name@) && names_of(
                    self.entries(),
                ).index_of_first(name@) is None,
            },
    {
        let ghost names = names_of(self.entries());
        proof {
            names.index_of_first_ensures(name@);
        }
        let mut i: usize = 0;
        while i < self.entries.len()
            invariant
                i <= self.entries.len(),
                names == names_of(self.entries()),
                names.len() == self.entries@.len(),
                forall|j: int| 0 <= j < i ==> names[j] != name@,
            decreases self.entries.len() - i,
        {
            assert(names[i as int] == self.entries@[i as int].0@);
            if str_eq(self.entries[i].0.as_str(), name) {
                proof {
                    names.index_of_first_ensures(name@);
                    let k = names.index_of_first(name@).unwrap();
                    assert(k == i);
                }
                return Some(i);
            }
            i = i + 1;
        }
        proof {
            assert forall|j: int| 0 <= j < names.len() implies names[j] != name@ by {}
            names.index_of_first_ensures(name@);
        }
        None
    }

    /// The entry with a name, if there is one.
    pub fn get(&self, name: &str) -> (r: Option<&T>)
        ensures
            match (r, lookup(self.entries(), name@)) {
                (Some(t), Some(u)) => *t == u,
                (None, None) => true,
                _ => false,
            },
    {
        match self.index_of(name) {
            Some(i) => {
                assert(self.entries()[i as int].1 == self.entries@[i as int].1);
                Some(&self.entries[i].1)
            },
            None => None,
        }
    }

    /// Adds an entry under a name that holds no `/` and is not taken. Returns whether
    /// it was added; if not, nothing changes.
    pub fn insert(&mut self, name: &str, entry: T) -> (b: bool)
        requires
            old(self).wf(),
        ensures
            final(self).wf(),
            b == may_insert(old(self).entries(), name@),
            b ==> final(self).entries() == old(self).entries().push((name@, entry)),
            !b ==> final(self).entries() == old(self).entries(),
            final(self).handles() == old(self).handles(),
            final(self).new_handle() == old(self).new_handle(),
            final(self).rm_handle() == old(self).rm_handle(),
            final(self).builds() == old(self).builds(),
            final(self).context() == old(self).context(),
    {
        if contains_char(name, '/') || self.name_exists(name) {
            false
        } else {
            let ghost old_entries = self.entries();
            self.entries.push((String::from_str(name), entry));
            proof {
                assert(self.entries() =~= old_entries.push((name@, entry)));
                assert forall|i: int| 0 <= i < old_entries.len() implies old_entries[i].0 != name@ by {
                    assert(names_of(old_entries)[i] == old_entries[i].0);
                }
            }
            true
        }
    }

    /// Adds an entry under a name, or fails with `AlreadyExists` when the name holds a
    /// `/` or is taken (nothing changes then).
    pub fn checked_insert(&mut self, name: &str, entry: T) -> (r: Result<(), Error>)
        requires
            old(self).wf(),
        ensures
            final(self).wf(),
            may_insert(old(self).entries(), name@) ==> r is Ok && final(self).entries()
                == old(self).entries().push((name@, entry)),
            !may_insert(old(self).entries(), name@) ==> r == Err::<(), Error>(
                Error(ErrorOrigin::Backend, ErrorKind::AlreadyExists),
            ) && final(self).entries() == old(self).entries(),
            final(self).handles() == old(self).handles(),
            final(self).new_handle() == old(self).new_handle(),
            final(self).rm_handle() == old(self).rm_handle(),
            final(self).builds() == old(self).builds(),
            final(self).context() == old(self).context(),
    {
        if !self.insert(name, entry) {
            Err(Error(ErrorOrigin::Backend, ErrorKind::AlreadyExists))
        } else {
            Ok(())
        }
    }

    /// Removes the entry with a name, if there is one.
    pub fn remove(&mut self, name: &str)
        requires
            old(self).wf(),
        ensures
            final(self).wf(),
            final(self).entries() == without(old(self).entries(), name@),
            final(self).handles() == old(self).handles(),
            final(self).new_handle() == old(self).new_handle(),
            final(self).rm_handle() == old(self).rm_handle(),
            final(self).builds() == old(self).builds(),
            final(self).context() == old(self).context(),
    {
        match self.index_of(name) {
            Some(i) => {
                let ghost old_entries = self.entries();
                let ghost old_raw = self.entries@;
                let _removed = self.entries.remove(i);
                proof {
                    assert(self.entries() =~= old_entries.remove(i as int));
                    assert forall|x: int| 0 <= x < self.entries().len() implies self.entries()[x]
                        == old_entries[if x < i {
                        x
                    } else {
                        x + 1
                    }] by {}
                }
            },
            None => {},
        }
    }

    /// A line written to the `rm` control file: the named entry (surrounding
    /// whitespace ignored) is removed. Bytes that are not UTF-8 are an invalid argument.
    pub fn rm_line(&mut self, line: &[u8]) -> (r: Result<(), Error>)
        requires
            old(self).wf(),
        ensures
            final(self).wf(),
            !vstd::utf8::valid_utf8(line@) ==> r == Err::<(), Error>(
                Error(ErrorOrigin::Backend, ErrorKind::InvalidArgument),
            ) && final(self).entries() == old(self).entries(),
            vstd::utf8::valid_utf8(line@) ==> r is Ok && final(self).entries() == without(
                old(self).entries(),
                trim(vstd::utf8::decode_utf8(line@)),
            ),
            final(self).handles() == old(self).handles(),
            final(self).new_handle() == old(self).new_handle(),
            final(self).rm_handle() == old(self).rm_handle(),
            final(self).builds() == old(self).builds(),
            final(self).context() == old(self).context(),
    {
        match utf8_str(line) {
            None => Err(Error(ErrorOrigin::Backend, ErrorKind::InvalidArgument)),
            Some(s) => {
                self.remove(trim_str(s));
                Ok(())
            },
        }
    }

    /// Lines written to the `rm` control file, in order. Returns the position and error
    /// of each line that failed, in order.
    pub fn rm_write(&mut self, lines: &Vec<Vec<u8>>) -> (fails: Vec<(usize, Error)>)
        requires
            old(self).wf(),
        ensures
            final(self).wf(),
            final(self).entries() == after_rm_lines(old(self).entries(), lines@, lines@.len()),
            positions_increase(fails@),
            forall|k: int|
                0 <= k < fails@.len() ==> fails@[k].0 < lines@.len() && fails@[k].1 == Error(
                    ErrorOrigin::Backend,
                    ErrorKind::InvalidArgument,
                ),
            forall|j: int|
                0 <= j < lines@.len() ==> (!vstd::utf8::valid_utf8(#[trigger] lines@[j]@)
                    <==> failed_at(fails@, j)),
            final(self).handles() == old(self).handles(),
            final(self).new_handle() == old(self).new_handle(),
            final(self).rm_handle() == old(self).rm_handle(),
            final(self).builds() == old(self).builds(),
            final(self).context() == old(self).context(),
    {
        let mut fails: Vec<(usize, Error)> = Vec::new();
        let mut k: usize = 0;
        while k < lines.len()
            invariant
                k <= lines.len(),
                self.wf(),
                self.entries() == after_rm_lines(old(self).entries(), lines@, k as nat),
                positions_increase(fails@),
                forall|i: int| 0 <= i < fails@.len() ==> fails@[i].0 < k,
                forall|i: int|
                    0 <= i < fails@.len() ==> fails@[i].1 == Error(
                        ErrorOrigin::Backend,
                        ErrorKind::InvalidArgument,
                    ),
                forall|j: int|
                    0 <= j < k ==> (!vstd::utf8::valid_utf8(#[trigger] lines@[j]@) <==> failed_at(
                        fails@,
                        j,
                    )),
                self.handles() == old(self).handles(),
                self.new_handle() == old(self).new_handle(),
                self.rm_handle() == old(self).rm_handle(),
                self.builds() == old(self).builds(),
                self.context() == old(self).context(),
            decreases lines.len() - k,
        {
            let ghost before = fails@;
            match self.rm_line(lines[k].as_slice()) {
                Ok(()) => {},
                Err(e) => {
                    fails.push((k, e));
                },
            }
            proof {
                assert forall|j: int| 0 <= j < k + 1 implies (!vstd::utf8::valid_utf8(
                    #[trigger] lines@[j]@,
                ) <==> failed_at(fails@, j)) by {
                    if j < k {
                        if failed_at(before, j) {
                            let i = choose|i: int| 0 <= i < before.len() && before[i].0 == j;
                            assert(fails@[i] == before[i]);
                        }
                        if failed_at(fails@, j) {
                            let i = choose|i: int| 0 <= i < fails@.len() && fails@[i].0 == j;
                            assert(i < before.len());
                            assert(before[i] == fails@[i]);
                        }
                    } else {
                        if failed_at(fails@, j) {
                            let i = choose|i: int| 0 <= i < fails@.len() && fails@[i].0 == j;
                            assert(i == before.len());
                        }
                        if fails@.len() > before.len() {
                            assert(fails@[before.len() as int].0 == j);
                        }
                    }
                }
            }
            k = k + 1;
        }
        fails
    }

    /// Frees the `rm` control file's handle, if it has one, and gives the control file a
    /// fresh handle.
    pub fn rebuild_rm(&mut self)
        requires
            old(self).wf(),
            old(self).handle_capacity() < usize::MAX - 3,
        ensures
            final(self).wf(),
            final(self).entries() == old(self).entries(),
            final(self).new_handle() == old(self).new_handle(),
            final(self).builds() == old(self).builds(),
            final(self).context() == old(self).context(),
            final(self).rm_handle() matches Ok(h) && ({
                let freed = match old(self).rm_handle() {
                    Ok(k) => old(self).handles().remove(k),
                    Err(_) => old(self).handles(),
                };
                !freed.contains_key(h) && final(self).handles() == freed.insert(h, Handler::Rm)
            }),
            old(self).rm_handle() is Ok ==> final(self).handle_capacity() == old(self).handle_capacity(),
    {
        proof {
            self.handles.lemma_below_capacity();
        }
        if let Ok(k) = self.rm_handle {
            let _ = self.handles.remove(k);
            assert(!self.handles@.contains_key(k));
        }
        let h = self.handles.insert(Handler::Rm);
        self.rm_handle = Ok(h);
        proof {
            assert(self.entries() =~= old(self).entries());
            if let Ok(k) = self.new_handle {
                assert(k != h);
                assert(self.handles()[k] == old(self).handles()[k]);
            }
        }
    }

    /// Frees the `new` control file's handle, if it has one; when entries are built,
    /// gives the control file a fresh handle, and otherwise the control file is no
    /// longer supported.
    pub fn rebuild_new(&mut self)
        requires
            old(self).wf(),
            old(self).handle_capacity() < usize::MAX - 3,
        ensures
            final(self).wf(),
            final(self).entries() == old(self).entries(),
            final(self).rm_handle() == old(self).rm_handle(),
            final(self).builds() == old(self).builds(),
            final(self).context() == old(self).context(),
            ({
                let freed = match old(self).new_handle() {
                    Ok(k) => old(self).handles().remove(k),
                    Err(_) => old(self).handles(),
                };
                if old(self).builds() {
                    final(self).new_handle() matches Ok(h) && !freed.contains_key(h)
                        && final(self).handles() == freed.insert(h, Handler::New)
                } else {
                    final(self).new_handle() == (match old(self).new_handle() {
                        Ok(_) => Err::<usize, Error>(Error(ErrorOrigin::Backend, ErrorKind::NotSupported)),
                        Err(e) => Err(e),
                    }) && final(self).handles() == freed
                }
            }),
            old(self).new_handle() is Ok ==> final(self).handle_capacity() <= old(self).handle_capacity(),
    {
        proof {
            self.handles.lemma_below_capacity();
        }
        if let Ok(k) = self.new_handle {
            let _ = self.handles.remove(k);
            proof {
                assert(!self.handles@.contains_key(k));
                if let Ok(r) = self.rm_handle {
                    assert(r != k);
                    assert(self.handles()[r] == old(self).handles()[r]);
                }
            }
        }
        if !self.build_enabled && self.new_handle.is_ok() {
            self.new_handle = Err(Error(ErrorOrigin::Backend, ErrorKind::NotSupported));
        }
        if self.build_enabled {
            let h = self.handles.insert(Handler::New);
            self.new_handle = Ok(h);
            proof {
                if let Ok(k) = self.rm_handle {
                    assert(k != h);
                    assert(self.handles()[k] == old(self).handles()[k]);
                }
            }
        }
        proof {
            assert(self.entries() =~= old(self).entries());
        }
    }

    /// Replaces the context entries are built with; both control files get fresh handles.
    pub fn set_context(&mut self, context: C)
        requires
            old(self).wf(),
            old(self).handle_capacity() < usize::MAX - 3,
            old(self).rm_handle() is Ok,
        ensures
            final(self).wf(),
            final(self).entries() == old(self).entries(),
            final(self).context() == context,
            final(self).builds() == old(self).builds(),
            final(self).rm_handle() is Ok,
            final(self).builds() ==> final(self).new_handle() is Ok,
            !final(self).builds() ==> final(self).new_handle() is Err,
    {
        self.context = context;
        proof {
            assert(self.entries() =~= old(self).entries());
        }
        self.rebuild_rm();
        self.rebuild_new();
    }

    /// The same entries and handles under another context; entries are no longer built
    /// through `new`.
    pub fn with_context<NC>(self, context: NC) -> (b: LocalBackend<T, NC>)
        requires
            self.wf(),
        ensures
            b.wf(),
            b.entries() == self.entries(),
            b.handles() == self.handles(),
            b.new_handle() == self.new_handle(),
            b.rm_handle() == self.rm_handle(),
            b.context() == context,
            !b.builds(),
            b.handle_capacity() == self.handle_capacity(),
    {
        let LocalBackend { entries, handles, new_handle, rm_handle, .. } = self;
        let b = LocalBackend {
            entries,
            context,
            handles,
            build_enabled: false,
            new_handle,
            rm_handle,
        };
        proof {
            assert(b.entries() =~= self.entries());
        }
        b
    }

    /// Closes a handle. The control files stay open; closing a handle that is not
    /// open is an error.
    pub fn close(&mut self, handle: usize) -> (r: Result<(), Error>)
        requires
            old(self).wf(),
        ensures
            final(self).wf(),
            final(self).entries() == old(self).entries(),
            (old(self).new_handle() == Ok::<usize, Error>(handle) || old(self).rm_handle() == Ok::<
                usize,
                Error,
            >(handle)) ==> r is Ok && final(self).handles() == old(self).handles(),
            !(old(self).new_handle() == Ok::<usize, Error>(handle) || old(self).rm_handle() == Ok::<
                usize,
                Error,
            >(handle)) ==> {
                &&& final(self).handles() == old(self).handles().remove(handle)
                &&& old(self).handles().contains_key(handle) ==> r is Ok
                &&& !old(self).handles().contains_key(handle) ==> r == Err::<(), Error>(
                    Error(ErrorOrigin::Backend, ErrorKind::NotFound),
                )
            },
            final(self).new_handle() == old(self).new_handle(),
            final(self).rm_handle() == old(self).rm_handle(),
    {
        let is_new = match self.new_handle {
            Ok(h) => h == handle,
            Err(_) => false,
        };
        let is_rm = match self.rm_handle {
            Ok(h) => h == handle,
            Err(_) => false,
        };
        if !is_new && !is_rm {
            let r = self.handles.remove(handle);
            proof {
                assert(self.entries() =~= old(self).entries());
                if let Ok(h) = self.new_handle {
                    assert(h != handle);
                    assert(self.handles()[h] == old(self).handles()[h]);
                }
                if let Ok(h) = self.rm_handle {
                    assert(h != handle);
                    assert(self.handles()[h] == old(self).handles()[h]);
                }
            }
            match r {
                Some(_) => Ok(()),
                None => Err(Error(ErrorOrigin::Backend, ErrorKind::NotFound)),
            }
        } else {
            Ok(())
        }
    }

    /// What a handle stands for; an unknown handle is not found.
    pub fn handler(&self, handle: usize) -> (r: Result<&Handler<<T::Leaf as Leaf>::Obj>, Error>)
        ensures
            match r {
                Ok(h) => self.handles().contains_key(handle) && *h == self.handles()[handle],
                Err(e) => !self.handles().contains_key(handle) && e == Error(
                    ErrorOrigin::Backend,
                    ErrorKind::NotFound,
                ),
            },
    {
        match self.handles.get(handle) {
            Some(h) => Ok(h),
            None => Err(Error(ErrorOrigin::Backend, ErrorKind::NotFound)),
        }
    }

    /// What reading `reqs` through `handle` gives, the sink going from `s0` to `s1`: an
    /// opened file serves the read itself; the control files cannot be read; an unknown
    /// handle is not found. Only a file's own read touches the sink.
    pub open spec fn read_outcome<S: ReadSink>(
        &self,
        handle: usize,
        reqs: Seq<(u64, usize)>,
        s0: S,
        s1: S,
        r: Result<(), Error>,
    ) -> bool {
        if !self.handles().contains_key(handle) {
            r == Err::<(), Error>(Error(ErrorOrigin::Backend, ErrorKind::NotFound)) && s1 == s0
        } else {
            match self.handles()[handle] {
                Handler::Object(o) => o.gives_read(reqs, s0, s1, r),
                _ => r == Err::<(), Error>(Error(ErrorOrigin::Read, ErrorKind::NotImplemented))
                    && s1 == s0,
            }
        }
    }

    /// Reads through a handle: see [`Self::read_outcome`].
    pub fn read<S: ReadSink>(&self, handle: usize, reqs: &Vec<(u64, usize)>, sink: &mut S) -> (r: Result<(), Error>)
        requires
            forall|k: int| 0 <= k < reqs@.len() ==> reqs@[k].0 + reqs@[k].1 <= u64::MAX,
        ensures
            self.read_outcome(handle, reqs@, *old(sink), *final(sink), r),
    {
        match self.handler(handle) {
            Ok(Handler::Object(o)) => o.read(reqs, sink),
            Ok(_) => Err(Error(ErrorOrigin::Read, ErrorKind::NotImplemented)),
            Err(e) => Err(e),
        }
    }

    /// Whether another file can be opened while keeping a handle number in reserve for
    /// each control file.
    pub fn capacity_left(&self) -> (b: bool)
        ensures
            b == (self.handle_capacity() < usize::MAX - 4),
    {
        self.handles.slot_count() < usize::MAX - 4
    }

    /// Keeps an opened file under a new handle.
    pub fn push_obj(&mut self, obj: <T::Leaf as Leaf>::Obj) -> (h: usize)
        requires
            old(self).wf(),
            old(self).handle_capacity() < usize::MAX - 3,
        ensures
            final(self).wf(),
            !old(self).handles().contains_key(h),
            final(self).handles() == old(self).handles().insert(h, Handler::Object(obj)),
            final(self).handle_capacity() <= old(self).handle_capacity() + 1,
            final(self).entries() == old(self).entries(),
            final(self).new_handle() == old(self).new_handle(),
            final(self).rm_handle() == old(self).rm_handle(),
    {
        let h = self.handles.insert(Handler::Object(obj));
        proof {
            assert(self.entries() =~= old(self).entries());
            if let Ok(k) = self.new_handle {
                assert(k != h);
                assert(self.handles()[k] == old(self).handles()[k]);
            }
            if let Ok(k) = self.rm_handle {
                assert(k != h);
                assert(self.handles()[k] == old(self).handles()[k]);
            }
        }
        h
    }

    /// The outcome of opening a path inside an entry: a file is opened and kept under a
    /// new handle (what it answers is kept), a directory cannot be opened, and errors
    /// stay errors; `hs` are the handles before and `fin` after.
    pub open spec fn found_opens(
        found: Result<DirEntry<T, T::Leaf>, Error>,
        hs: Map<usize, Handler<<T::Leaf as Leaf>::Obj>>,
        fin: Map<usize, Handler<<T::Leaf as Leaf>::Obj>>,
        r: Result<usize, Error>,
    ) -> bool {
        match found {
            Ok(DirEntry::Leaf(l)) => match r {
                Ok(h) => !hs.contains_key(h) && fin.contains_key(h) && fin.remove(h) == hs
                    && (fin[h] matches Handler::Object(o) && l.gives_open(Ok::<<T::Leaf as Leaf>::Obj, Error>(o))),
                Err(e) => l.gives_open(Err::<<T::Leaf as Leaf>::Obj, Error>(e)) && fin == hs,
            },
            Ok(DirEntry::Branch(_)) => r == Err::<usize, Error>(
                Error(ErrorOrigin::Backend, ErrorKind::InvalidArgument),
            ) && fin == hs,
            Err(e) => r == Err::<usize, Error>(e) && fin == hs,
        }
    }

    /// The outcome of opening a path inside an entry: a file is opened and kept under a
    /// new handle, a directory cannot be opened, and errors stay errors.
    pub fn finish_open(
        &mut self,
        found: Result<DirEntry<T, T::Leaf>, Error>,
    ) -> (r: Result<usize, Error>)
        requires
            old(self).wf(),
            old(self).handle_capacity() < usize::MAX - 3,
        ensures
            final(self).wf(),
            final(self).entries() == old(self).entries(),
            final(self).new_handle() == old(self).new_handle(),
            final(self).rm_handle() == old(self).rm_handle(),
            final(self).handle_capacity() <= old(self).handle_capacity() + 1,
            Self::found_opens(found, old(self).handles(), final(self).handles(), r),
    {
        match found {
            Ok(DirEntry::Leaf(leaf)) => match leaf.open() {
                Ok(o) => {
                    let h = self.push_obj(o);
                    proof {
                        assert(self.handles().remove(h) =~= old(self).handles());
                    }
                    Ok(h)
                },
                Err(e) => Err(e),
            },
            Ok(DirEntry::Branch(_)) => Err(Error(ErrorOrigin::Backend, ErrorKind::InvalidArgument)),
            Err(e) => Err(e),
        }
    }

    /// Opens a file. `new` and `rm` give the control file handles; a path inside an
    /// entry is followed by the entry; a path naming no entry is not found.
    pub fn open(&mut self, path: &str) -> (r: Result<usize, Error>)
        requires
            old(self).wf(),
            old(self).handle_capacity() < usize::MAX - 3,
        ensures
            final(self).wf(),
            old(self).open_outcome(&*final(self), path@, r),
    {
        proof {
            reveal_strlit("new");
            reveal_strlit("rm");
            assert("rm"@ != "new"@) by {
                assert("rm"@.len() != "new"@.len());
            }
        }
        match route(path) {
            Route::New => self.new_handle,
            Route::Rm => self.rm_handle,
            Route::Entry(name, rest) => {
                let found = match self.get(name) {
                    Some(b) => b.get_entry(rest),
                    None => {
                        proof {
                            names_of(self.entries()).index_of_first_ensures(name@);
                        }
                        return Err(Error(ErrorOrigin::Backend, ErrorKind::NotFound));
                    },
                };
                proof {
                    names_of(self.entries()).index_of_first_ensures(name@);
                }
                self.finish_open(found)
            },
        }
    }

    /// Metadata of a path. The control files have default metadata (when they exist);
    /// an entry is a directory; a path inside an entry is followed by the entry; a path
    /// naming no entry is not found.
    pub fn metadata(&self, path: &str) -> (r: Result<NodeMetadata, Error>)
        ensures
            self.metadata_outcome(path@, r),
    {
        proof {
            reveal_strlit("new");
            reveal_strlit("rm");
            assert("rm"@ != "new"@) by {
                assert("rm"@.len() != "new"@.len());
            }
        }
        match route(path) {
            Route::New => match self.new_handle {
                Ok(_) => Ok(NodeMetadata::default()),
                Err(e) => Err(e),
            },
            Route::Rm => match self.rm_handle {
                Ok(_) => Ok(NodeMetadata::default()),
                Err(e) => Err(e),
            },
            Route::Entry(name, rest) => {
                proof {
                    names_of(self.entries()).index_of_first_ensures(name@);
                }
                match self.get(name) {
                    Some(b) => {
                        if char_len(rest) == 0 {
                            Ok(NodeMetadata::branch())
                        } else {
                            metadata_of_found(b.get_entry(rest))
                        }
                    },
                    None => Err(Error(ErrorOrigin::Backend, ErrorKind::NotFound)),
                }
            },
        }
    }

    /// The listing of the backend itself: every entry (a directory), then `rm`, then
    /// `new` when it is available.
    pub fn list_root(&self) -> (out: Vec<ListEntry>)
        ensures
            out@.len() == self.entries().len() + 1 + (if self.new_handle() is Ok {
                1int
            } else {
                0
            }),
            forall|i: int|
                0 <= i < self.entries().len() ==> out@[i].name@ == self.entries()[i].0
                    && out@[i].is_branch,
            out@[self.entries().len() as int].name@ == "rm"@,
            !out@[self.entries().len() as int].is_branch,
            self.new_handle() is Ok ==> out@[self.entries().len() + 1int].name@ == "new"@
                && !out@[self.entries().len() + 1int].is_branch,
    {
        let mut out: Vec<ListEntry> = Vec::new();
        let mut i: usize = 0;
        while i < self.entries.len()
            invariant
                i <= self.entries.len(),
                self.entries().len() == self.entries@.len(),
                out@.len() == i,
                forall|j: int|
                    0 <= j < i ==> out@[j].name@ == self.entries()[j].0 && out@[j].is_branch,
            decreases self.entries.len() - i,
        {
            out.push(ListEntry::new(self.entries[i].0.clone(), true));
            i = i + 1;
        }
        out.push(ListEntry::new(String::from_str("rm"), false));
        if self.new_handle.is_ok() {
            out.push(ListEntry::new(String::from_str("new"), false));
        }
        out
    }

    /// Lists a path: the backend itself for an empty path, otherwise the directory the
    /// path leads to inside an entry; a path naming no entry is not found.
    pub fn list(&self, path: &str) -> (r: Result<Vec<ListEntry>, Error>)
        ensures
            self.list_outcome(path@, r),
    {
        if char_len(path) == 0 {
            Ok(self.list_root())
        } else {
            proof {
                reveal_strlit("");
            }
            let (name, rest): (&str, &str) = match split_once_char(path, '/') {
                Some((a, b)) => (a, b),
                None => (path, ""),
            };
            proof {
                names_of(self.entries()).index_of_first_ensures(name@);
            }
            match self.get(name) {
                Some(b) => crate::fs::list_recurse(b, rest),
                None => Err(Error(ErrorOrigin::Backend, ErrorKind::NotFound)),
            }
        }
    }
}


impl<T: Branch + StrBuild<C>, C> LocalBackend<T, C> {
    /// Turns on building entries through the `new` control file, which gets a fresh
    /// handle.
    pub fn with_new(self) -> (b: LocalBackend<T, C>)
        requires
            self.wf(),
            self.handle_capacity() < usize::MAX - 3,
        ensures
            b.wf(),
            b.builds(),
            b.new_handle() is Ok,
            b.entries() == self.entries(),
            b.rm_handle() == self.rm_handle(),
            b.context() == self.context(),
    {
        let mut b = self;
        b.build_enabled = true;
        proof {
            assert(b.entries() =~= self.entries());
        }
        b.rebuild_new();
        b
    }

    /// The outcome of building an entry for a line written to `new`: a built entry is
    /// added under the name (as `checked_insert` does), and a failed build is that
    /// failure, with nothing added.
    pub fn finish_new(&mut self, name: &str, built: Result<T, Error>) -> (r: Result<(), Error>)
        requires
            old(self).wf(),
        ensures
            final(self).wf(),
            match built {
                Err(e) => r == Err::<(), Error>(e) && final(self).entries() == old(self).entries(),
                Ok(t) => if may_insert(old(self).entries(), name@) {
                    r is Ok && final(self).entries() == old(self).entries().push((name@, t))
                } else {
                    r == Err::<(), Error>(Error(ErrorOrigin::Backend, ErrorKind::AlreadyExists))
                        && final(self).entries() == old(self).entries()
                },
            },
            final(self).handles() == old(self).handles(),
            final(self).new_handle() == old(self).new_handle(),
            final(self).rm_handle() == old(self).rm_handle(),
            final(self).builds() == old(self).builds(),
            final(self).context() == old(self).context(),
    {
        match built {
            Err(e) => Err(e),
            Ok(t) => self.checked_insert(name, t),
        }
    }

    /// A line written to the `new` control file: `"<name> <args>"` (no space: no
    /// arguments). Bytes that are not UTF-8 are an invalid argument, and a taken name
    /// already exists; otherwise an entry is built from the arguments with the context
    /// and added under the name.
    pub fn new_line(&mut self, line: &[u8]) -> (r: Result<(), Error>)
        requires
            old(self).wf(),
        ensures
            final(self).wf(),
            !vstd::utf8::valid_utf8(line@) ==> r == Err::<(), Error>(
                Error(ErrorOrigin::Backend, ErrorKind::InvalidArgument),
            ) && final(self).entries() == old(self).entries(),
            vstd::utf8::valid_utf8(line@) ==> ({
                let name = new_line_parts(vstd::utf8::decode_utf8(line@)).0;
                &&& name_taken(old(self).entries(), name) ==> r == Err::<(), Error>(
                    Error(ErrorOrigin::Backend, ErrorKind::AlreadyExists),
                ) && final(self).entries() == old(self).entries()
                &&& !may_insert(old(self).entries(), name) ==> r is Err && final(self).entries()
                    == old(self).entries()
                &&& r is Err ==> final(self).entries() == old(self).entries()
                &&& r is Ok ==> exists|t: T|
                    final(self).entries() == old(self).entries().push((name, t))
            }),
            new_line_outcome(old(self).entries(), old(self).context(), line@, r, final(self).entries()),
            final(self).handles() == old(self).handles(),
            final(self).new_handle() == old(self).new_handle(),
            final(self).rm_handle() == old(self).rm_handle(),
            final(self).builds() == old(self).builds(),
            final(self).context() == old(self).context(),
    {
        match utf8_str(line) {
            None => Err(Error(ErrorOrigin::Backend, ErrorKind::InvalidArgument)),
            Some(s) => {
                let (name, args): (&str, &str) = match split_once_char(s, ' ') {
                    Some((a, b)) => (a, b),
                    None => (s, ""),
                };
                proof {
                    reveal_strlit("");
                    assert(""@ =~= Seq::<char>::empty());
                    assert(name@ == new_line_parts(s@).0 && args@ == new_line_parts(s@).1);
                }
                if self.name_exists(name) {
                    return Err(Error(ErrorOrigin::Backend, ErrorKind::AlreadyExists));
                }
                let built = T::build(args, &self.context);
                let r = self.finish_new(name, built);
                proof {
                    assert(T::builds_from(new_line_parts(s@).1, old(self).context(), built));
                    assert(match built {
                        Err(e) => r == Err::<(), Error>(e) && self.entries() == old(self).entries(),
                        Ok(t) => if may_insert(old(self).entries(), name@) {
                            r is Ok && self.entries() == old(self).entries().push((name@, t))
                        } else {
                            r == Err::<(), Error>(Error(ErrorOrigin::Backend, ErrorKind::AlreadyExists))
                                && self.entries() == old(self).entries()
                        },
                    });
                    if r is Ok {
                        let t = built->Ok_0;
                        assert(self.entries() == old(self).entries().push((name@, t)));
                    }
                }
                r
            },
        }
    }

    /// Lines written to the `new` control file, in order. Returns the position and error
    /// of each line that failed, in order; a line that is not UTF-8 always fails.
    pub fn new_write(&mut self, lines: &Vec<Vec<u8>>) -> (fails: Vec<(usize, Error)>)
        requires
            old(self).wf(),
        ensures
            final(self).wf(),
            positions_increase(fails@),
            forall|k: int| 0 <= k < fails@.len() ==> fails@[k].0 < lines@.len(),
            forall|j: int|
                0 <= j < lines@.len() && !vstd::utf8::valid_utf8(#[trigger] lines@[j]@)
                    ==> failed_at(fails@, j),
            exists|st: Seq<Seq<(Seq<char>, T)>>, rs: Seq<Result<(), Error>>|
                #[trigger] new_lines_taken(old(self).context(), lines@, st, rs) && st[0] == old(
                    self,
                ).entries() && st.last() == final(self).entries() && fails@ == failures(rs),
            final(self).handles() == old(self).handles(),
            final(self).new_handle() == old(self).new_handle(),
            final(self).rm_handle() == old(self).rm_handle(),
            final(self).builds() == old(self).builds(),
            final(self).context() == old(self).context(),
    {
        let mut fails: Vec<(usize, Error)> = Vec::new();
        let ghost mut st: Seq<Seq<(Seq<char>, T)>> = seq![self.entries()];
        let ghost mut rs: Seq<Result<(), Error>> = Seq::empty();
        let mut k: usize = 0;
        proof {
            assert(fails@ =~= failures(rs));
        }
        while k < lines.len()
            invariant
                k <= lines.len(),
                self.wf(),
                positions_increase(fails@),
                forall|i: int| 0 <= i < fails@.len() ==> fails@[i].0 < k,
                forall|j: int|
                    0 <= j < k && !vstd::utf8::valid_utf8(#[trigger] lines@[j]@) ==> failed_at(
                        fails@,
                        j,
                    ),
                self.handles() == old(self).handles(),
                self.new_handle() == old(self).new_handle(),
                self.rm_handle() == old(self).rm_handle(),
                self.builds() == old(self).builds(),
                self.context() == old(self).context(),
                new_lines_taken(old(self).context(), lines@.take(k as int), st, rs),
                st[0] == old(self).entries(),
                st.last() == self.entries(),
                fails@ == failures(rs),
            decreases lines.len() - k,
        {
            let ghost before = fails@;
            let ghost es0 = self.entries();
            let res = self.new_line(lines[k].as_slice());
            match res {
                Ok(()) => {},
                Err(e) => {
                    fails.push((k, e));
                },
            }
            proof {
                let st0 = st;
                let rs0 = rs;
                st = st.push(self.entries());
                rs = rs.push(res);
                assert(rs.drop_last() =~= rs0);
                assert(fails@ =~= failures(rs));
                let ls = lines@.take(k + 1);
                assert forall|i: int| 0 <= i < ls.len() implies #[trigger] new_line_outcome(
                    st[i],
                    old(self).context(),
                    ls[i]@,
                    rs[i],
                    st[i + 1],
                ) by {
                    if i < k {
                        assert(lines@.take(k as int)[i] == ls[i]);
                        assert(new_line_outcome(st0[i], old(self).context(), lines@.take(k as int)[i]@, rs0[i], st0[i + 1]));
                    }
                }
                assert(new_lines_taken(old(self).context(), ls, st, rs));
                assert forall|j: int|
                    0 <= j < k + 1 && !vstd::utf8::valid_utf8(
                        #[trigger] lines@[j]@,
                    ) implies failed_at(fails@, j) by {
                    if j < k {
                        let i = choose|i: int| 0 <= i < before.len() && before[i].0 == j;
                        assert(fails@[i] == before[i]);
                    } else {
                        assert(fails@[before.len() as int].0 == j);
                    }
                }
            }
            k = k + 1;
        }
        proof {
            assert(lines@.take(lines.len() as int) =~= lines@);
        }
        fails
    }
}

} // verus!
