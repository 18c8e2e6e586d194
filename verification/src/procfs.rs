//! The directories an operating system view offers: the process list (by address,
//! and by pid, name and "name (pid)" through lookup caches), and the module
//! lists of a process by architecture.
use vstd::prelude::*;
use crate::error::{Error, ErrorKind, ErrorOrigin};
use crate::maps::{
    PidMap, NameMap, ModuleMap, pid_addrs, name_addrs, module_spans, pid_map_new, pid_map_get,
    pid_map_insert, pid_map_clear, name_map_new, name_map_get, name_map_insert, name_map_clear,
    module_map_new, module_map_get, module_map_insert, module_map_clear,
};
use crate::text::{
    dec_text, hex_text, parse_unsigned, split_last, dec_string, hex_string, parse_u32_dec,
    parse_u64_hex, push_char, push_dec, rsplit_once_char, starts_with_str, str_eq, char_len,
    char_at,
};

verus! {

/// Which directory of the process list an entry name leads to.
#[derive(Copy, Clone, Debug, PartialEq, Eq, Structural)]
pub enum ProcRoute {
    /// `by-pid`: processes by pid.
    ByPid,
    /// `by-name`: processes by name.
    ByName,
    /// `by-pid-name`: processes by `"name (pid)"`.
    ByPidName,
    /// A process by the address of its process structure, written in hexadecimal.
    Address(u64),
}

/// Where an entry name of the process list leads: the three fixed directories by name,
/// otherwise a hexadecimal process address; anything else is an invalid path.
pub open spec fn process_route(entry: Seq<char>) -> Result<ProcRoute, Error> {
    if entry == "by-pid"@ {
        Ok(ProcRoute::ByPid)
    } else if entry == "by-name"@ {
        Ok(ProcRoute::ByName)
    } else if entry == "by-pid-name"@ {
        Ok(ProcRoute::ByPidName)
    } else {
        match parse_unsigned(entry, 16, u64::MAX as nat) {
            Some(a) => Ok(ProcRoute::Address(a as u64)),
            None => Err(Error(ErrorOrigin::Other, ErrorKind::InvalidPath)),
        }
    }
}

/// Where an entry name of the process list leads (see `process_route`).
pub fn process_list_route(entry: &str) -> (r: Result<ProcRoute, Error>)
    ensures
        r == process_route(entry@),
{
    if str_eq(entry, "by-pid") {
        Ok(ProcRoute::ByPid)
    } else if str_eq(entry, "by-name") {
        Ok(ProcRoute::ByName)
    } else if str_eq(entry, "by-pid-name") {
        Ok(ProcRoute::ByPidName)
    } else {
        match parse_u64_hex(entry) {
            Some(a) => Ok(ProcRoute::Address(a)),
            None => Err(Error::from(ErrorKind::InvalidPath)),
        }
    }
}

/// The names of the fixed directories of the process list, in listing order.
pub fn process_list_dirs() -> (v: Vec<String>)
    ensures
        v@.len() == 3,
        v@[0]@ == "by-pid"@,
        v@[1]@ == "by-name"@,
        v@[2]@ == "by-pid-name"@,
{
    let mut v: Vec<String> = Vec::new();
    v.push(String::from_str("by-pid"));
    v.push(String::from_str("by-name"));
    v.push(String::from_str("by-pid-name"));
    v
}

/// The entry name of a process in the process list: its address in hexadecimal.
pub fn process_addr_name(addr: u64) -> (s: String)
    ensures
        s@ == hex_text(addr as nat, false),
{
    hex_string(addr, false)
}

/// The entry name of a process in the by-pid list: its pid in decimal.
pub fn pid_entry_name(pid: u32) -> (s: String)
    ensures
        s@ == dec_text(pid as nat),
{
    dec_string(pid as u64)
}

/// The entry name of a process in the by-pid-name list: `"name (pid)"`.
pub open spec fn pid_name_text(name: Seq<char>, pid: nat) -> Seq<char> {
    name + " ("@ + dec_text(pid) + ")"@
}

/// The entry name of a process in the by-pid-name list.
pub fn pid_name_entry(name: &str, pid: u32) -> (s: String)
    ensures
        s@ == pid_name_text(name@, pid as nat),
{
    let mut s = String::from_str(name);
    push_char(&mut s, ' ');
    push_char(&mut s, '(');
    push_dec(&mut s, pid as u64);
    push_char(&mut s, ')');
    proof {
        reveal_strlit(" (");
        reveal_strlit(")");
        assert(s@ =~= pid_name_text(name@, pid as nat));
    }
    s
}

/// How a by-pid-name entry is read: the text after its last space is the pid in
/// parentheses, the text before it the name.
pub open spec fn pid_name_parts(s: Seq<char>) -> Option<(Seq<char>, u32)> {
    match split_last(s, ' ') {
        Some((n, p)) => if p.len() >= 2 && p[0] == '(' && p[p.len() - 1] == ')' {
            match parse_unsigned(p.subrange(1, p.len() - 1), 10, u32::MAX as nat) {
                Some(v) => Some((n, v as u32)),
                None => None,
            }
        } else {
            None
        },
        None => None,
    }
}

/// Reads a by-pid-name entry into its name and pid; an entry not of that shape is an
/// invalid argument.
pub fn parse_pid_name(s: &str) -> (r: Result<(&str, u32), Error>)
    ensures
        match pid_name_parts(s@) {
            Some((n, p)) => r matches Ok((a, b)) && a@ == n && b == p,
            None => r == Err::<(&str, u32), Error>(Error(ErrorOrigin::Other, ErrorKind::InvalidArgument)),
        },
{
    match rsplit_once_char(s, ' ') {
        None => Err(Error::from(ErrorKind::InvalidArgument)),
        Some((name, p)) => {
            let n = char_len(p);
            if n >= 2 && char_at(p, 0) == '(' && char_at(p, n - 1) == ')' {
                let digits = p.substring_char(1, n - 1);
                match parse_u32_dec(digits) {
                    Some(v) => Ok((name, v)),
                    None => Err(Error::from(ErrorKind::InvalidArgument)),
                }
            } else {
                Err(Error::from(ErrorKind::InvalidArgument))
            }
        },
    }
}

/// Whether a process found by pid fits the name of a by-pid-name entry: one name
/// starts with the other (names may be cut short).
pub open spec fn names_fit(name: Seq<char>, found: Seq<char>) -> bool {
    found.is_prefix_of(name) || name.is_prefix_of(found)
}

/// Whether a process found by pid fits the name of a by-pid-name entry.
pub fn pid_name_fits(name: &str, found: &str) -> (b: bool)
    ensures
        b == names_fit(name@, found@),
{
    (char_len(found) <= char_len(name) && starts_with_str(name, found)) || starts_with_str(found, name)
}

/// What a lookup asks of the operating system next.
#[derive(Copy, Clone, Debug, PartialEq, Eq, Structural)]
pub enum InfoQuery {
    /// The process at a cached address.
    Address(u64),
    /// The process with a pid.
    Pid(u32),
    /// The process with the name being looked up.
    Name,
}

/// A step of a process lookup: ask the operating system, or the outcome.
pub enum InfoStep<I> {
    Ask(InfoQuery),
    Done(Result<I, Error>),
}

/// The first `occurrences` of keys, in order: each key as it first appears.
pub open spec fn first_occurrences<K>(keys: Seq<K>) -> Seq<K>
    decreases keys.len(),
{
    if keys.len() == 0 {
        Seq::empty()
    } else {
        let prev = first_occurrences(keys.drop_last());
        if keys.drop_last().contains(keys.last()) {
            prev
        } else {
            prev.push(keys.last())
        }
    }
}

/// The map a list of insertions leaves behind: the last value for each key.
pub open spec fn last_values<K, V>(kvs: Seq<(K, V)>) -> Map<K, V>
    decreases kvs.len(),
{
    if kvs.len() == 0 {
        Map::empty()
    } else {
        last_values(kvs.drop_last()).insert(kvs.last().0, kvs.last().1)
    }
}

/// The addresses of the processes last seen under each pid.
pub struct PidCache {
    entries: PidMap,
}

impl PidCache {
    /// Each cached pid with its process address.
    pub closed spec fn view(&self) -> Map<u32, u64> {
        pid_addrs(self.entries)
    }

    /// An empty cache.
    pub fn new() -> (c: PidCache)
        ensures
            c@ == Map::<u32, u64>::empty(),
    {
        PidCache { entries: pid_map_new() }
    }

    /// The cached address of a pid.
    pub fn get(&self, pid: u32) -> (r: Option<u64>)
        ensures
            r == (if self@.contains_key(pid) {
                Some(self@[pid])
            } else {
                None::<u64>
            }),
    {
        pid_map_get(&self.entries, pid)
    }

    /// Caches an address for a pid; returns whether the pid was not cached before.
    pub fn insert(&mut self, pid: u32, addr: u64) -> (fresh: bool)
        ensures
            fresh == !old(self)@.contains_key(pid),
            final(self)@ == old(self)@.insert(pid, addr),
    {
        pid_map_insert(&mut self.entries, pid, addr).is_none()
    }

    /// Empties the cache.
    pub fn clear(&mut self)
        ensures
            final(self)@ == Map::<u32, u64>::empty(),
    {
        pid_map_clear(&mut self.entries);
    }

    /// The first step of finding the process with a pid: a cached address is checked
    /// first, otherwise the pid is asked for.
    pub fn info_start<I>(&self, pid: u32) -> (s: InfoStep<I>)
        ensures
            s == (if self@.contains_key(pid) {
                InfoStep::<I>::Ask(InfoQuery::Address(self@[pid]))
            } else {
                InfoStep::<I>::Ask(InfoQuery::Pid(pid))
            }),
    {
        match self.get(pid) {
            Some(a) => InfoStep::Ask(InfoQuery::Address(a)),
            None => InfoStep::Ask(InfoQuery::Pid(pid)),
        }
    }

    /// After asking for the process at the cached address (its pid comes with it): a
    /// failed lookup is not found, the same pid is the answer, and another pid means the
    /// pid is asked for.
    pub fn info_at_address<I>(pid: u32, reply: Result<(I, u32), ()>) -> (s: InfoStep<I>)
        ensures
            s == match reply {
                Err(_) => InfoStep::<I>::Done(Err(Error(ErrorOrigin::Other, ErrorKind::NotFound))),
                Ok((i, p)) => if p == pid {
                    InfoStep::<I>::Done(Ok(i))
                } else {
                    InfoStep::<I>::Ask(InfoQuery::Pid(pid))
                },
            },
    {
        match reply {
            Err(_) => InfoStep::Done(Err(Error::from(ErrorKind::NotFound))),
            Ok((i, p)) => if p == pid {
                InfoStep::Done(Ok(i))
            } else {
                InfoStep::Ask(InfoQuery::Pid(pid))
            },
        }
    }

    /// After asking for the process with the pid (its address comes with it): a failed
    /// lookup is not found; a found process is cached under the pid and is the answer.
    pub fn info_by_pid<I>(&mut self, pid: u32, reply: Result<(I, u64), ()>) -> (r: Result<I, Error>)
        ensures
            match reply {
                Err(_) => r == Err::<I, Error>(Error(ErrorOrigin::Other, ErrorKind::NotFound))
                    && final(self)@ == old(self)@,
                Ok((i, a)) => r == Ok::<I, Error>(i) && final(self)@ == old(self)@.insert(pid, a),
            },
    {
        match reply {
            Err(_) => Err(Error::from(ErrorKind::NotFound)),
            Ok((i, a)) => {
                self.insert(pid, a);
                Ok(i)
            },
        }
    }

    /// The by-pid listing of the processes the operating system lists (pid and address
    /// of each, in order): the cache is rebuilt from them, and each pid is listed where
    /// it first appears.
    pub fn list(&mut self, procs: &Vec<(u32, u64)>) -> (names: Vec<String>)
        ensures
            final(self)@ == last_values(procs@),
            names@.len() == first_occurrences(procs@.map_values(|p: (u32, u64)| p.0)).len(),
            forall|i: int|
                0 <= i < names@.len() ==> names@[i]@ == dec_text(
                    first_occurrences(procs@.map_values(|p: (u32, u64)| p.0))[i] as nat,
                ),
    {
        self.clear();
        let mut names: Vec<String> = Vec::new();
        let mut k: usize = 0;
        while k < procs.len()
            invariant
                k <= procs.len(),
                self@ == last_values(procs@.take(k as int)),
                names@.len() == first_occurrences(procs@.take(k as int).map_values(|p: (u32, u64)| p.0)).len(),
                forall|i: int|
                    0 <= i < names@.len() ==> names@[i]@ == dec_text(
                        first_occurrences(procs@.take(k as int).map_values(|p: (u32, u64)| p.0))[i] as nat,
                    ),
            decreases procs.len() - k,
        {
            let (pid, addr) = procs[k];
            let ghost pre = procs@.take(k as int);
            let ghost post = procs@.take(k + 1);
            proof {
                assert(post.drop_last() =~= pre);
                assert(post.last() == (pid, addr));
                let pk = pre.map_values(|p: (u32, u64)| p.0);
                let qk = post.map_values(|p: (u32, u64)| p.0);
                assert(qk.drop_last() =~= pk);
                assert(qk.last() == pid);
                lemma_last_values_keys(pre);
            }
            let fresh = self.insert(pid, addr);
            if fresh {
                names.push(pid_entry_name(pid));
            }
            k = k + 1;
        }
        proof {
            assert(procs@.take(procs@.len() as int) =~= procs@);
        }
        names
    }
}

/// The addresses of the processes last seen under each name.
pub struct NameCache {
    entries: NameMap,
}

impl NameCache {
    /// Each cached name with its value.
    pub closed spec fn view(&self) -> Map<Seq<char>, u64> {
        name_addrs(self.entries)
    }

    /// An empty cache.
    pub fn new() -> (c: NameCache)
        ensures
            c@ == Map::<Seq<char>, u64>::empty(),
    {
        NameCache { entries: name_map_new() }
    }

    /// The cached value of a name.
    pub fn get(&self, name: &str) -> (r: Option<u64>)
        ensures
            r == (if self@.contains_key(name@) {
                Some(self@[name@])
            } else {
                None::<u64>
            }),
    {
        name_map_get(&self.entries, name)
    }

    /// Caches a value for a name; returns whether the name was not cached before.
    pub fn insert(&mut self, name: &str, v: u64) -> (fresh: bool)
        ensures
            fresh == !old(self)@.contains_key(name@),
            final(self)@ == old(self)@.insert(name@, v),
    {
        name_map_insert(&mut self.entries, String::from_str(name), v).is_none()
    }

    /// Empties the cache.
    pub fn clear(&mut self)
        ensures
            final(self)@ == Map::<Seq<char>, u64>::empty(),
    {
        name_map_clear(&mut self.entries);
    }

    /// A listing of named items (in the order the operating system gives them): the
    /// cache is rebuilt from them, and each name is listed where it first appears.
    pub fn list(&mut self, items: &Vec<(String, u64)>) -> (names: Vec<String>)
        ensures
            final(self)@ == last_values(items@.map_values(|p: (String, u64)| (p.0@, p.1))),
            names@.map_values(|s: String| s@) == first_occurrences(
                items@.map_values(|p: (String, u64)| p.0@),
            ),
    {
        self.clear();
        let ghost all = items@.map_values(|p: (String, u64)| (p.0@, p.1));
        let ghost keys = items@.map_values(|p: (String, u64)| p.0@);
        let mut names: Vec<String> = Vec::new();
        let mut k: usize = 0;
        while k < items.len()
            invariant
                k <= items.len(),
                all == items@.map_values(|p: (String, u64)| (p.0@, p.1)),
                keys == items@.map_values(|p: (String, u64)| p.0@),
                self@ == last_values(all.take(k as int)),
                names@.map_values(|s: String| s@) == first_occurrences(keys.take(k as int)),
            decreases items.len() - k,
        {
            let ghost pre = all.take(k as int);
            let ghost post = all.take(k + 1);
            proof {
                assert(post.drop_last() =~= pre);
                assert(keys.take(k + 1).drop_last() =~= keys.take(k as int));
                assert(pre.map_values(|p: (Seq<char>, u64)| p.0) =~= keys.take(k as int));
                lemma_last_values_keys(pre);
            }
            let fresh = self.insert(items[k].0.as_str(), items[k].1);
            if fresh {
                let ghost before = names@;
                names.push(items[k].0.clone());
                proof {
                    assert(names@.map_values(|s: String| s@) =~= before.map_values(|s: String| s@).push(items@[k as int].0@));
                }
            }
            proof {
                assert(post.last() == (items@[k as int].0@, items@[k as int].1));
            }
            k = k + 1;
        }
        proof {
            assert(all.take(items@.len() as int) =~= all);
            assert(keys.take(items@.len() as int) =~= keys);
        }
        names
    }
}

/// The modules last seen under each name.
pub struct ModuleCache {
    entries: ModuleMap,
}

impl ModuleCache {
    /// Each cached name with its value.
    pub closed spec fn view(&self) -> Map<Seq<char>, ModuleSpan> {
        module_spans(self.entries)
    }

    /// An empty cache.
    pub fn new() -> (c: ModuleCache)
        ensures
            c@ == Map::<Seq<char>, ModuleSpan>::empty(),
    {
        ModuleCache { entries: module_map_new() }
    }

    /// The cached value of a name.
    pub fn get(&self, name: &str) -> (r: Option<ModuleSpan>)
        ensures
            r == (if self@.contains_key(name@) {
                Some(self@[name@])
            } else {
                None::<ModuleSpan>
            }),
    {
        module_map_get(&self.entries, name)
    }

    /// Caches a value for a name; returns whether the name was not cached before.
    pub fn insert(&mut self, name: &str, v: ModuleSpan) -> (fresh: bool)
        ensures
            fresh == !old(self)@.contains_key(name@),
            final(self)@ == old(self)@.insert(name@, v),
    {
        module_map_insert(&mut self.entries, String::from_str(name), v).is_none()
    }

    /// Empties the cache.
    pub fn clear(&mut self)
        ensures
            final(self)@ == Map::<Seq<char>, ModuleSpan>::empty(),
    {
        module_map_clear(&mut self.entries);
    }

    /// A listing of named items (in the order the operating system gives them): the
    /// cache is rebuilt from them, and each name is listed where it first appears.
    pub fn list(&mut self, items: &Vec<(String, ModuleSpan)>) -> (names: Vec<String>)
        ensures
            final(self)@ == last_values(items@.map_values(|p: (String, ModuleSpan)| (p.0@, p.1))),
            names@.map_values(|s: String| s@) == first_occurrences(
                items@.map_values(|p: (String, ModuleSpan)| p.0@),
            ),
    {
        self.clear();
        let ghost all = items@.map_values(|p: (String, ModuleSpan)| (p.0@, p.1));
        let ghost keys = items@.map_values(|p: (String, ModuleSpan)| p.0@);
        let mut names: Vec<String> = Vec::new();
        let mut k: usize = 0;
        while k < items.len()
            invariant
                k <= items.len(),
                all == items@.map_values(|p: (String, ModuleSpan)| (p.0@, p.1)),
                keys == items@.map_values(|p: (String, ModuleSpan)| p.0@),
                self@ == last_values(all.take(k as int)),
                names@.map_values(|s: String| s@) == first_occurrences(keys.take(k as int)),
            decreases items.len() - k,
        {
            let ghost pre = all.take(k as int);
            let ghost post = all.take(k + 1);
            proof {
                assert(post.drop_last() =~= pre);
                assert(keys.take(k + 1).drop_last() =~= keys.take(k as int));
                assert(pre.map_values(|p: (Seq<char>, ModuleSpan)| p.0) =~= keys.take(k as int));
                lemma_last_values_keys(pre);
            }
            let fresh = self.insert(items[k].0.as_str(), items[k].1);
            if fresh {
                let ghost before = names@;
                names.push(items[k].0.clone());
                proof {
                    assert(names@.map_values(|s: String| s@) =~= before.map_values(|s: String| s@).push(items@[k as int].0@));
                }
            }
            proof {
                assert(post.last() == (items@[k as int].0@, items@[k as int].1));
            }
            k = k + 1;
        }
        proof {
            assert(all.take(items@.len() as int) =~= all);
            assert(keys.take(items@.len() as int) =~= keys);
        }
        names
    }
}

impl NameCache {
    /// The first step of finding the process with a name: a cached address is checked
    /// first, otherwise the name is asked for.
    pub fn name_info_start<I>(&self, name: &str) -> (s: InfoStep<I>)
        ensures
            s == (if self@.contains_key(name@) {
                InfoStep::<I>::Ask(InfoQuery::Address(self@[name@]))
            } else {
                InfoStep::<I>::Ask(InfoQuery::Name)
            }),
    {
        match self.get(name) {
            Some(a) => InfoStep::Ask(InfoQuery::Address(a)),
            None => InfoStep::Ask(InfoQuery::Name),
        }
    }

    /// After asking for the process at the cached address (its name comes with it): a
    /// failed lookup is not found, the same name is the answer, and another name means
    /// the name is asked for.
    pub fn name_info_at_address<I>(name: &str, reply: Result<(I, String), ()>) -> (s: InfoStep<I>)
        ensures
            match reply {
                Err(_) => s == InfoStep::<I>::Done(Err(Error(ErrorOrigin::Other, ErrorKind::NotFound))),
                Ok((i, n)) => s == if n@ == name@ {
                    InfoStep::<I>::Done(Ok(i))
                } else {
                    InfoStep::<I>::Ask(InfoQuery::Name)
                },
            },
    {
        match reply {
            Err(_) => InfoStep::Done(Err(Error::from(ErrorKind::NotFound))),
            Ok((i, n)) => if str_eq(n.as_str(), name) {
                InfoStep::Done(Ok(i))
            } else {
                InfoStep::Ask(InfoQuery::Name)
            },
        }
    }

    /// After asking for the process with the name (its address comes with it): a failed
    /// lookup is not found; a found process is cached under the name and is the answer.
    pub fn name_info_by_name<I>(&mut self, name: &str, reply: Result<(I, u64), ()>) -> (r: Result<I, Error>)
        ensures
            match reply {
                Err(_) => r == Err::<I, Error>(Error(ErrorOrigin::Other, ErrorKind::NotFound))
                    && final(self)@ == old(self)@,
                Ok((i, a)) => r == Ok::<I, Error>(i) && final(self)@ == old(self)@.insert(name@, a),
            },
    {
        match reply {
            Err(_) => Err(Error::from(ErrorKind::NotFound)),
            Ok((i, a)) => {
                self.insert(name, a);
                Ok(i)
            },
        }
    }

    /// The first step of finding the process of a by-pid-name entry: an entry not of the
    /// form `"name (pid)"` is an invalid argument; a cached address for the name is
    /// checked first, otherwise the pid is asked for.
    pub fn pid_name_info_start<I>(&self, entry: &str) -> (s: InfoStep<I>)
        ensures
            match pid_name_parts(entry@) {
                None => s == InfoStep::<I>::Done(Err(Error(ErrorOrigin::Other, ErrorKind::InvalidArgument))),
                Some((n, p)) => s == if self@.contains_key(n) {
                    InfoStep::<I>::Ask(InfoQuery::Address(self@[n]))
                } else {
                    InfoStep::<I>::Ask(InfoQuery::Pid(p))
                },
            },
    {
        match parse_pid_name(entry) {
            Err(e) => InfoStep::Done(Err(e)),
            Ok((name, pid)) => match self.get(name) {
                Some(a) => InfoStep::Ask(InfoQuery::Address(a)),
                None => InfoStep::Ask(InfoQuery::Pid(pid)),
            },
        }
    }

    /// After asking for the process at the cached address (its name and pid come with
    /// it): a failed lookup is not found, the same name and pid is the answer, otherwise
    /// the pid is asked for.
    pub fn pid_name_info_at_address<I>(name: &str, pid: u32, reply: Result<(I, String, u32), ()>) -> (s:
        InfoStep<I>)
        ensures
            match reply {
                Err(_) => s == InfoStep::<I>::Done(Err(Error(ErrorOrigin::Other, ErrorKind::NotFound))),
                Ok((i, n, p)) => s == if n@ == name@ && p == pid {
                    InfoStep::<I>::Done(Ok(i))
                } else {
                    InfoStep::<I>::Ask(InfoQuery::Pid(pid))
                },
            },
    {
        match reply {
            Err(_) => InfoStep::Done(Err(Error::from(ErrorKind::NotFound))),
            Ok((i, n, p)) => if str_eq(n.as_str(), name) && p == pid {
                InfoStep::Done(Ok(i))
            } else {
                InfoStep::Ask(InfoQuery::Pid(pid))
            },
        }
    }

    /// After asking for the process with the pid (its name and address come with it): a
    /// failed lookup, or a process whose name does not fit, is not found; a fitting
    /// process is cached under the name and is the answer.
    pub fn pid_name_info_by_pid<I>(&mut self, name: &str, reply: Result<(I, String, u64), ()>) -> (r:
        Result<I, Error>)
        ensures
            match reply {
                Ok((i, n, a)) if names_fit(name@, n@) => r == Ok::<I, Error>(i) && final(self)@
                    == old(self)@.insert(name@, a),
                _ => r == Err::<I, Error>(Error(ErrorOrigin::Other, ErrorKind::NotFound))
                    && final(self)@ == old(self)@,
            },
    {
        match reply {
            Ok((i, n, a)) => if pid_name_fits(name, n.as_str()) {
                self.insert(name, a);
                Ok(i)
            } else {
                Err(Error::from(ErrorKind::NotFound))
            },
            Err(_) => Err(Error::from(ErrorKind::NotFound)),
        }
    }
}

/// A module of a process: where it is loaded and how large it is.
#[derive(Copy, Clone, Debug, PartialEq, Eq, Structural)]
pub struct ModuleSpan {
    pub base: u64,
    pub size: u64,
}

impl ModuleCache {
    /// Finding a module by name: a cached module is the answer; otherwise, without a
    /// process there is none, and a module the process finds by the name is cached and
    /// is the answer (`lookup` is what the process found, `None` without a process).
    pub fn find_module(&mut self, name: &str, lookup: Option<Result<ModuleSpan, ()>>) -> (r: Option<ModuleSpan>)
        ensures
            old(self)@.contains_key(name@) ==> r == Some(old(self)@[name@]) && final(self)@ == old(self)@,
            !old(self)@.contains_key(name@) ==> match lookup {
                Some(Ok(m)) => r == Some(m) && final(self)@ == old(self)@.insert(name@, m),
                _ => r is None && final(self)@ == old(self)@,
            },
    {
        match self.get(name) {
            Some(m) => Some(m),
            None => match lookup {
                Some(Ok(m)) => {
                    self.insert(name, m);
                    Some(m)
                },
                _ => None,
            },
        }
    }
}

/// Which module list of a process a name leads to.
#[derive(Copy, Clone, Debug, PartialEq, Eq, Structural)]
pub enum ArchPick {
    /// The modules of the system's architecture.
    System,
    /// The modules of the process's own architecture.
    Process,
}

/// Where an entry of a process's module directory leads: the system architecture's
/// name, then the process architecture's name (when it is listed); anything else is not
/// found.
pub fn module_list_route(entry: &str, sys_arch: &str, proc_arch: Option<&str>) -> (r: Result<ArchPick, Error>)
    ensures
        r == if entry@ == sys_arch@ {
            Ok::<ArchPick, Error>(ArchPick::System)
        } else if proc_arch matches Some(p) && entry@ == p@ {
            Ok(ArchPick::Process)
        } else {
            Err(Error(ErrorOrigin::Branch, ErrorKind::NotFound))
        },
{
    if str_eq(entry, sys_arch) {
        Ok(ArchPick::System)
    } else {
        match proc_arch {
            Some(p) => if str_eq(entry, p) {
                Ok(ArchPick::Process)
            } else {
                Err(Error(ErrorOrigin::Branch, ErrorKind::NotFound))
            },
            None => Err(Error(ErrorOrigin::Branch, ErrorKind::NotFound)),
        }
    }
}

/// Whether a process's module directory shows a list for the process's own
/// architecture: only when the process can be reached and its architecture differs
/// from the system's.
pub fn shows_proc_arch(proc_available: bool, same_arch: bool) -> (b: bool)
    ensures
        b == (proc_available && !same_arch),
{
    proc_available && !same_arch
}

/// The entries of a process's module directory: the system architecture, then the
/// process architecture when it is shown.
pub fn module_list_dirs(sys_arch: &str, proc_arch: Option<&str>) -> (v: Vec<String>)
    ensures
        v@.len() == (if proc_arch is Some { 2int } else { 1 }),
        v@[0]@ == sys_arch@,
        proc_arch matches Some(p) ==> v@[1]@ == p@,
{
    let mut v: Vec<String> = Vec::new();
    v.push(String::from_str(sys_arch));
    if let Some(p) = proc_arch {
        v.push(String::from_str(p));
    }
    v
}

/// An opened process or system is needed; without one it is uninitialized.
pub fn need_process<P>(p: Option<P>) -> (r: Result<P, Error>)
    ensures
        match p {
            Some(x) => r == Ok::<P, Error>(x),
            None => r == Err::<P, Error>(Error(ErrorOrigin::Other, ErrorKind::Uninitialized)),
        },
{
    match p {
        Some(x) => Ok(x),
        None => Err(Error::from(ErrorKind::Uninitialized)),
    }
}

/// The size of an address space of `bits` bits, as the metadata of a process or
/// system memory file shows it.
pub fn address_space_size(bits: u8) -> (n: u64)
    requires
        bits < 64,
    ensures
        n == vstd::arithmetic::power2::pow2(bits as nat),
{
    proof {
        vstd::arithmetic::power2::lemma2_to64();
        vstd::arithmetic::power2::lemma_pow2_strictly_increases(bits as nat, 64);
        vstd::bits::lemma_u64_shl_is_mul(1, bits as u64);
    }
    1u64 << (bits as u64)
}

/// The entry name of a listed process leads back to that process.
pub proof fn lemma_address_name_routes(addr: u64)
    ensures
        process_route(hex_text(addr as nat, false)) == Ok::<ProcRoute, Error>(ProcRoute::Address(addr)),
{
    let t = hex_text(addr as nat, false);
    crate::text::lemma_hex_text_reads_back(addr as nat);
    reveal_strlit("by-pid");
    reveal_strlit("by-name");
    reveal_strlit("by-pid-name");
    assert(t != "by-pid"@) by {
        if t == "by-pid"@ {
            assert(t[1] == 'y');
        }
    }
    assert(t != "by-name"@) by {
        if t == "by-name"@ {
            assert(t[1] == 'y');
        }
    }
    assert(t != "by-pid-name"@) by {
        if t == "by-pid-name"@ {
            assert(t[1] == 'y');
        }
    }
    assert(t[0] != '+');
}

/// The entry name of a listed process in the by-pid-name list reads back as its name
/// and pid.
pub proof fn lemma_pid_name_round_trip(name: Seq<char>, pid: u32)
    ensures
        pid_name_parts(pid_name_text(name, pid as nat)) == Some((name, pid)),
{
    let d = dec_text(pid as nat);
    crate::text::lemma_dec_text_reads_back(pid as nat);
    reveal_strlit(" (");
    reveal_strlit(")");
    let t = pid_name_text(name, pid as nat);
    let n = name.len() as int;
    assert(t =~= name + seq![' ', '('] + d + seq![')']);
    assert(t[n] == ' ');
    assert forall|j: int| n < j < t.len() implies t[j] != ' ' by {
        if j == n + 1 {
            assert(t[j] == '(');
        } else if j < t.len() - 1 {
            assert(t[j] == d[j - n - 2]);
        } else {
            assert(t[j] == ')');
        }
    }
    t.index_of_last_ensures(' ');
    assert(t.index_of_last(' ') == Some(n));
    let p = t.skip(n + 1);
    assert(t.take(n) =~= name);
    assert(p =~= seq!['('] + d + seq![')']);
    assert(p.subrange(1, p.len() - 1) =~= d);
    assert(d[0] != '+');
}

/// What building an operating system view from `"[-c <chain>] <name>[:<args>]"` found
/// at each step, in order: whether there is a context of connectors, whether the
/// connector to chain with was found (`None` when none is named), whether the
/// arguments were understood, and whether the view was created. The first step that
/// failed decides the error: a missing context or chain is not found, bad arguments
/// are an invalid argument, and a view that was not created is uninitialized.
pub fn os_build_outcome(has_ctx: bool, chain_found: Option<bool>, args_ok: bool, created: bool) -> (r: Result<(), Error>)
    ensures
        r == if !has_ctx {
            Err::<(), Error>(Error(ErrorOrigin::Other, ErrorKind::NotFound))
        } else if chain_found == Some(false) {
            Err(Error(ErrorOrigin::Other, ErrorKind::NotFound))
        } else if !args_ok {
            Err(Error(ErrorOrigin::Other, ErrorKind::InvalidArgument))
        } else if !created {
            Err(Error(ErrorOrigin::Other, ErrorKind::Uninitialized))
        } else {
            Ok(())
        },
{
    if !has_ctx {
        return Err(Error::from(ErrorKind::NotFound));
    }
    match chain_found {
        Some(false) => {
            return Err(Error::from(ErrorKind::NotFound));
        },
        _ => {},
    }
    if !args_ok {
        return Err(Error::from(ErrorKind::InvalidArgument));
    }
    if !created {
        return Err(Error::from(ErrorKind::Uninitialized));
    }
    Ok(())
}

/// The keys of the map a list of insertions leaves behind are the keys inserted.
pub proof fn lemma_last_values_keys<K, V>(kvs: Seq<(K, V)>)
    ensures
        forall|k: K| #[trigger] last_values(kvs).contains_key(k) <==> kvs.map_values(
            |p: (K, V)| p.0,
        ).contains(k),
    decreases kvs.len(),
{
    if kvs.len() > 0 {
        lemma_last_values_keys(kvs.drop_last());
        let ks = kvs.map_values(|p: (K, V)| p.0);
        let pks = kvs.drop_last().map_values(|p: (K, V)| p.0);
        assert(ks.drop_last() =~= pks);
        assert(last_values(kvs) == last_values(kvs.drop_last()).insert(kvs.last().0, kvs.last().1));
        assert forall|k: K| #[trigger] last_values(kvs).contains_key(k) <==> ks.contains(k) by {
            assert(last_values(kvs.drop_last()).contains_key(k) <==> pks.contains(k));
            assert(ks[ks.len() - 1] == kvs.last().0);
            if k == kvs.last().0 {
                assert(ks[ks.len() - 1] == k);
            }
            if ks.contains(k) {
                let i = choose|i: int| 0 <= i < ks.len() && ks[i] == k;
                if i < ks.len() - 1 {
                    assert(pks[i] == k);
                }
            }
            if pks.contains(k) {
                let i = choose|i: int| 0 <= i < pks.len() && pks[i] == k;
                assert(ks[i] == k);
            }
        }
    } else {
        assert forall|k: K| #[trigger] last_values(kvs).contains_key(k) <==> kvs.map_values(
            |p: (K, V)| p.0,
        ).contains(k) by {}
    }
}

} // verus!
