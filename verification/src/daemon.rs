//! The daemon's registry of open connections and the answers its commands give.
use vstd::prelude::*;
use crate::cli::{LogLevel, Response, level_to_code, level_code};
use crate::text::{dec_text, hex_char, hex_text, push_char, push_dec, push_hex, str_eq};

verus! {

/// An open connection: its id, the connector's name and arguments, and the connector
/// instance.
pub struct ConnectorState<K> {
    pub id: String,
    pub name: String,
    pub args: Option<String>,
    pub instance: K,
}

impl<K> ConnectorState<K> {
    /// A connection record.
    pub fn new(id: &str, name: &str, args: Option<String>, instance: K) -> (c: ConnectorState<K>)
        ensures
            c.id@ == id@,
            c.name@ == name@,
            c.args == args,
            c.instance == instance,
    {
        ConnectorState { id: String::from_str(id), name: String::from_str(name), args, instance }
    }
}

/// The view of an optional argument text.
pub open spec fn opt_view(a: Option<String>) -> Option<Seq<char>> {
    match a {
        Some(s) => Some(s@),
        None => None,
    }
}

/// What is kept of a connection record: its id, name and arguments.
pub open spec fn record_of<K>(c: ConnectorState<K>) -> (Seq<char>, Seq<char>, Option<Seq<char>>) {
    (c.id@, c.name@, opt_view(c.args))
}

/// The whole state of the daemon: its open connections by id.
pub struct State<K> {
    connectors: Vec<ConnectorState<K>>,
}

impl<K> State<K> {
    /// Each open connection's id with its name and arguments, in the order they were
    /// opened.
    pub closed spec fn connections(&self) -> Seq<(Seq<char>, Seq<char>, Option<Seq<char>>)> {
        self.connectors@.map_values(|c: ConnectorState<K>| (c.id@, c.name@, opt_view(c.args)))
    }

    /// The connector instances of the open connections, in the same order.
    pub closed spec fn instances(&self) -> Seq<K> {
        self.connectors@.map_values(|c: ConnectorState<K>| c.instance)
    }

    /// The ids of the open connections.
    pub open spec fn ids(&self) -> Seq<Seq<char>> {
        self.connections().map_values(|c: (Seq<char>, Seq<char>, Option<Seq<char>>)| c.0)
    }

    /// No id is open twice.
    pub open spec fn wf(&self) -> bool {
        forall|i: int, j: int| 0 <= i < j < self.ids().len() ==> self.ids()[i] != self.ids()[j]
    }

    /// A state without connections.
    pub fn new() -> (s: State<K>)
        ensures
            s.wf(),
            s.connections().len() == 0,
            s.instances().len() == 0,
    {
        let s = State { connectors: Vec::new() };
        assert(s.connections() =~= Seq::<(Seq<char>, Seq<char>, Option<Seq<char>>)>::empty());
        s
    }

    fn position(&self, id: &str) -> (r: Option<usize>)
        requires
            self.wf(),
        ensures
            match r {
                Some(i) => i < self.ids().len() && self.ids()[i as int] == id@,
                None => !self.ids().contains(id@),
            },
    {
        let mut i: usize = 0;
        while i < self.connectors.len()
            invariant
                i <= self.connectors.len(),
                self.ids().len() == self.connectors@.len(),
                forall|j: int| 0 <= j < i ==> self.ids()[j] != id@,
            decreases self.connectors.len() - i,
        {
            assert(self.ids()[i as int] == self.connectors@[i as int].id@);
            if str_eq(self.connectors[i].id.as_str(), id) {
                return Some(i);
            }
            i = i + 1;
        }
        None
    }

    /// Whether a connection with an id is open.
    pub fn contains(&self, id: &str) -> (b: bool)
        requires
            self.wf(),
        ensures
            b == self.ids().contains(id@),
    {
        self.position(id).is_some()
    }

    /// Opens a connection under its id; one with the same id is replaced.
    pub fn insert(&mut self, c: ConnectorState<K>)
        requires
            old(self).wf(),
        ensures
            final(self).wf(),
            final(self).ids().contains(c.id@),
            forall|x: Seq<char>| x != c.id@ ==> (final(self).ids().contains(x) <==> old(self).ids().contains(x)),
            final(self).ids().len() == if old(self).ids().contains(c.id@) {
                old(self).ids().len()
            } else {
                old(self).ids().len() + 1
            },
            old(self).ids().contains(c.id@) ==> exists|i: int|
                0 <= i < old(self).ids().len() && #[trigger] old(self).ids()[i] == c.id@
                    && final(self).connections() == old(self).connections().update(i, record_of(c))
                    && final(self).instances() == old(self).instances().update(i, c.instance),
            !old(self).ids().contains(c.id@) ==> final(self).connections() == old(self).connections().push(
                record_of(c),
            ) && final(self).instances() == old(self).instances().push(c.instance),
    {
        let ghost old_ids = self.ids();
        let ghost old_conns = self.connections();
        let ghost old_inst = self.instances();
        let ghost rec = record_of(c);
        let ghost inst = c.instance;
        let ghost cid = c.id@;
        match self.position(c.id.as_str()) {
            Some(i) => {
                self.connectors.set(i, c);
                proof {
                    assert(self.connections() =~= old_conns.update(i as int, rec));
                    assert(self.instances() =~= old_inst.update(i as int, inst));
                    assert(old_ids[i as int] == cid);
                    assert(self.ids() =~= old_ids.update(i as int, cid));
                    assert(self.ids()[i as int] == cid);
                    assert forall|x: Seq<char>| x != cid implies (self.ids().contains(x) <==> old_ids.contains(x)) by {
                        if old_ids.contains(x) {
                            let j = choose|j: int| 0 <= j < old_ids.len() && old_ids[j] == x;
                            assert(self.ids()[j] == x);
                        }
                        if self.ids().contains(x) {
                            let j = choose|j: int| 0 <= j < self.ids().len() && self.ids()[j] == x;
                            assert(old_ids[j] == x);
                        }
                    }
                }
            },
            None => {
                self.connectors.push(c);
                proof {
                    assert(self.connections() =~= old_conns.push(rec));
                    assert(self.instances() =~= old_inst.push(inst));
                    assert(self.ids() =~= old_ids.push(cid));
                    assert(self.ids()[old_ids.len() as int] == cid);
                    assert forall|x: Seq<char>| x != cid implies (self.ids().contains(x) <==> old_ids.contains(x)) by {
                        if old_ids.contains(x) {
                            let j = choose|j: int| 0 <= j < old_ids.len() && old_ids[j] == x;
                            assert(self.ids()[j] == x);
                        }
                        if self.ids().contains(x) {
                            let j = choose|j: int| 0 <= j < self.ids().len() && self.ids()[j] == x;
                            assert(old_ids[j] == x);
                        }
                    }
                }
            },
        }
    }

    /// Closes the connection with an id and says so: `"connection <id> removed"` as
    /// information, or, when there is none, `"no connection with id <id> found"` as an
    /// error.
    pub fn close_connection(&mut self, id: &str) -> (r: (LogLevel, String))
        requires
            old(self).wf(),
        ensures
            final(self).wf(),
            !final(self).ids().contains(id@),
            forall|x: Seq<char>| x != id@ ==> (final(self).ids().contains(x) <==> old(self).ids().contains(x)),
            old(self).ids().contains(id@) ==> r.0 == LogLevel::Info && r.1@ == "connection "@ + id@
                + " removed"@ && final(self).ids().len() == old(self).ids().len() - 1,
            old(self).ids().contains(id@) ==> exists|i: int|
                0 <= i < old(self).ids().len() && #[trigger] old(self).ids()[i] == id@
                    && final(self).connections() == old(self).connections().remove(i)
                    && final(self).instances() == old(self).instances().remove(i),
            !old(self).ids().contains(id@) ==> r.0 == LogLevel::Error && r.1@ == "no connection with id "@
                + id@ + " found"@ && final(self).connections() == old(self).connections()
                && final(self).instances() == old(self).instances(),
    {
        let ghost old_ids = self.ids();
        let ghost old_conns = self.connections();
        let ghost old_inst = self.instances();
        match self.position(id) {
            Some(i) => {
                let _ = self.connectors.remove(i);
                proof {
                    assert(self.connections() =~= old_conns.remove(i as int));
                    assert(self.instances() =~= old_inst.remove(i as int));
                    assert(old_ids[i as int] == id@);
                    assert(self.ids() =~= old_ids.remove(i as int));
                    assert forall|x: Seq<char>| x != id@ implies (self.ids().contains(x) <==> old_ids.contains(x)) by {
                        if old_ids.contains(x) {
                            let j = choose|j: int| 0 <= j < old_ids.len() && old_ids[j] == x;
                            assert(j != i);
                            if j < i {
                                assert(self.ids()[j] == x);
                            } else {
                                assert(self.ids()[j - 1] == x);
                            }
                        }
                        if self.ids().contains(x) {
                            let j = choose|j: int| 0 <= j < self.ids().len() && self.ids()[j] == x;
                            if j < i {
                                assert(old_ids[j] == x);
                            } else {
                                assert(old_ids[j + 1] == x);
                            }
                        }
                    }
                    if self.ids().contains(id@) {
                        let j = choose|j: int| 0 <= j < self.ids().len() && self.ids()[j] == id@;
                        if j < i {
                            assert(old_ids[j] == id@);
                        } else {
                            assert(old_ids[j + 1] == id@);
                        }
                    }
                }
                let mut s = String::from_str("connection ");
                s.append(id);
                s.append(" removed");
                (LogLevel::Info, s)
            },
            None => {
                let mut s = String::from_str("no connection with id ");
                s.append(id);
                s.append(" found");
                (LogLevel::Error, s)
            },
        }
    }

    /// The table the connection listing answers with: columns id, name and args, and
    /// a row for each open connection (no arguments show as an empty text).
    pub fn connection_table(&self) -> (t: (Vec<String>, Vec<Vec<String>>))
        ensures
            t.0@.len() == 3,
            t.0@[0]@ == "id"@,
            t.0@[1]@ == "name"@,
            t.0@[2]@ == "args"@,
            t.1@.len() == self.connections().len(),
            forall|i: int|
                0 <= i < t.1@.len() ==> t.1@[i]@.len() == 3 && t.1@[i]@[0]@ == self.connections()[i].0
                    && t.1@[i]@[1]@ == self.connections()[i].1 && t.1@[i]@[2]@ == match self.connections()[i].2 {
                    Some(a) => a,
                    None => Seq::<char>::empty(),
                },
    {
        let mut headers: Vec<String> = Vec::new();
        headers.push(String::from_str("id"));
        headers.push(String::from_str("name"));
        headers.push(String::from_str("args"));
        let mut rows: Vec<Vec<String>> = Vec::new();
        let mut i: usize = 0;
        while i < self.connectors.len()
            invariant
                i <= self.connectors.len(),
                self.connections().len() == self.connectors@.len(),
                rows@.len() == i,
                forall|k: int|
                    0 <= k < i ==> rows@[k]@.len() == 3 && rows@[k]@[0]@ == self.connections()[k].0
                        && rows@[k]@[1]@ == self.connections()[k].1 && rows@[k]@[2]@ == match self.connections()[k].2 {
                        Some(a) => a,
                        None => Seq::<char>::empty(),
                    },
            decreases self.connectors.len() - i,
        {
            let c = &self.connectors[i];
            let mut row: Vec<String> = Vec::new();
            row.push(c.id.clone());
            row.push(c.name.clone());
            let a = match &c.args {
                Some(a) => a.clone(),
                None => String::new(),
            };
            row.push(a);
            proof {
                assert(self.connections()[i as int] == (c.id@, c.name@, opt_view(c.args)));
            }
            rows.push(row);
            i = i + 1;
        }
        (headers, rows)
    }
}

/// A log answer of the daemon at a level.
pub fn log_message(level: LogLevel, msg: &str) -> (r: Response)
    ensures
        r matches Response::Log { level: l, msg: m } && l == level_code(level) && m@ == msg@,
{
    Response::Log { level: level_to_code(level), msg: String::from_str(msg) }
}

/// `"0x"` and a number in upper case hexadecimal.
pub open spec fn hex0x_text(v: u64) -> Seq<char> {
    seq!['0', 'x'] + hex_text(v as nat, true)
}

/// A process row of the daemon's process listing: pid, name, architecture bits, and
/// the addresses of its page table base, thread block and process block.
pub fn process_row(pid: u32, name: &str, bits: u8, dtb: u64, teb: u64, peb: u64) -> (row: Vec<String>)
    ensures
        row@.len() == 6,
        row@[0]@ == dec_text(pid as nat),
        row@[1]@ == name@,
        row@[2]@ == dec_text(bits as nat),
        row@[3]@ == hex0x_text(dtb),
        row@[4]@ == hex0x_text(teb),
        row@[5]@ == hex0x_text(peb),
{
    let mut row: Vec<String> = Vec::new();
    row.push(crate::text::dec_string(pid as u64));
    row.push(String::from_str(name));
    row.push(crate::text::dec_string(bits as u64));
    row.push(hex0x(dtb));
    row.push(hex0x(teb));
    row.push(hex0x(peb));
    row
}

fn hex0x(v: u64) -> (s: String)
    ensures
        s@ == hex0x_text(v),
{
    let mut s = String::new();
    push_char(&mut s, '0');
    push_char(&mut s, 'x');
    push_hex(&mut s, v, true);
    proof {
        assert(s@ =~= hex0x_text(v));
    }
    s
}

/// The column titles of the daemon's process listing.
pub fn process_headers() -> (h: Vec<String>)
    ensures
        h@.len() == 6,
        h@[0]@ == "pid"@,
        h@[1]@ == "name"@,
        h@[2]@ == "bits"@,
        h@[3]@ == "dtb"@,
        h@[4]@ == "teb"@,
        h@[5]@ == "peb"@,
{
    let mut h: Vec<String> = Vec::new();
    h.push(String::from_str("pid"));
    h.push(String::from_str("name"));
    h.push(String::from_str("bits"));
    h.push(String::from_str("dtb"));
    h.push(String::from_str("teb"));
    h.push(String::from_str("peb"));
    h
}

/// The information line of a process listing:
/// `"listing processes for connection <id>: <n> processes\n"`.
pub fn listing_message(id: &str, n: u64) -> (s: String)
    ensures
        s@ == "listing processes for connection "@ + id@ + ": "@ + dec_text(n as nat) + " processes\n"@,
{
    let mut s = String::from_str("listing processes for connection ");
    s.append(id);
    s.append(": ");
    push_dec(&mut s, n);
    s.append(" processes\n");
    s
}

/// The error line when a connection cannot list its processes.
pub fn listing_failed_message(id: &str) -> (s: String)
    ensures
        s@ == "could not get processes on connection "@ + id@,
{
    let mut s = String::from_str("could not get processes on connection ");
    s.append(id);
    s
}

/// The error line for an unknown connection id.
pub fn unknown_connection_message(id: &str) -> (s: String)
    ensures
        s@ == "no connection with id "@ + id@ + " found"@,
{
    let mut s = String::from_str("no connection with id ");
    s.append(id);
    s.append(" found");
    s
}

/// A process as the daemon lists it.
pub struct ProcRow {
    pub pid: u32,
    pub name: String,
    pub bits: u8,
    pub dtb: u64,
    pub teb: u64,
    pub peb: u64,
}

/// The texts of a process's row in the listing.
pub open spec fn proc_row_text(p: ProcRow) -> Seq<Seq<char>> {
    seq![
        dec_text(p.pid as nat),
        p.name@,
        dec_text(p.bits as nat),
        hex0x_text(p.dtb),
        hex0x_text(p.teb),
        hex0x_text(p.peb),
    ]
}

/// The texts of a row of strings.
pub open spec fn row_texts(row: Vec<String>) -> Seq<Seq<char>> {
    row@.map_values(|s: String| s@)
}

/// The answers to a process listing of connection `id`: first a log line (the number
/// of processes as information; an unknown connection, or processes that could not be
/// got, as an error), then the table with the six column titles and a row for each
/// process in order (none when there are no processes to show), then the end of the
/// answers (a successful result with no message).
pub fn listing_answers(id: &str, found: bool, procs: Result<Vec<ProcRow>, ()>) -> (r: Vec<Response>)
    ensures
        r@.len() == 3,
        r@[0] matches Response::Log { level: l, msg: m } && (if !found {
            l == level_code(LogLevel::Error) && m@ == "no connection with id "@ + id@ + " found"@
        } else {
            match procs {
                Ok(ps) => l == level_code(LogLevel::Info) && m@ == "listing processes for connection "@
                    + id@ + ": "@ + dec_text(ps@.len()) + " processes\n"@,
                Err(_) => l == level_code(LogLevel::Error) && m@ == "could not get processes on connection "@
                    + id@,
            }
        }),
        r@[1] matches Response::Table { headers: h, entries: e } && {
            &&& row_texts(h) == seq!["pid"@, "name"@, "bits"@, "dtb"@, "teb"@, "peb"@]
            &&& if found && procs is Ok {
                let ps = procs->Ok_0;
                &&& e@.len() == ps@.len()
                &&& forall|i: int| 0 <= i < ps@.len() ==> row_texts(#[trigger] e@[i]) == proc_row_text(ps@[i])
            } else {
                e@.len() == 0
            }
        },
        r@[2] matches Response::Result { success: ok, msg: m } && ok && m@.len() == 0,
{
    let headers = process_headers();
    proof {
        reveal_strlit("pid");
        reveal_strlit("name");
        reveal_strlit("bits");
        reveal_strlit("dtb");
        reveal_strlit("teb");
        reveal_strlit("peb");
        assert(row_texts(headers) =~= seq!["pid"@, "name"@, "bits"@, "dtb"@, "teb"@, "peb"@]);
    }
    let mut out: Vec<Response> = Vec::new();
    let mut rows: Vec<Vec<String>> = Vec::new();
    if !found {
        let m = unknown_connection_message(id);
        out.push(log_message(LogLevel::Error, m.as_str()));
    } else {
        match &procs {
            Ok(ps) => {
                let m = listing_message(id, ps.len() as u64);
                out.push(log_message(LogLevel::Info, m.as_str()));
                let mut i: usize = 0;
                while i < ps.len()
                    invariant
                        i <= ps.len(),
                        rows@.len() == i,
                        forall|k: int| 0 <= k < i ==> row_texts(#[trigger] rows@[k]) == proc_row_text(ps@[k]),
                    decreases ps.len() - i,
                {
                    let p = &ps[i];
                    let row = process_row(p.pid, p.name.as_str(), p.bits, p.dtb, p.teb, p.peb);
                    proof {
                        assert(row_texts(row) =~= proc_row_text(ps@[i as int]));
                    }
                    rows.push(row);
                    i = i + 1;
                }
            },
            Err(_) => {
                let m = listing_failed_message(id);
                out.push(log_message(LogLevel::Error, m.as_str()));
            },
        }
    }
    out.push(Response::Table { headers, entries: rows });
    out.push(Response::Result { success: true, msg: String::new() });
    out
}

/// How `{:?}` shows optional argument text (`format!` with `Debug` for
/// `Option<String>`).
pub uninterp spec fn option_debug_text(a: Option<Seq<char>>) -> Seq<char>;

/// Optional argument text as `{:?}` shows it, as named by `option_debug_text`.
#[verifier::external_body]
fn debug_of_args(a: &Option<String>) -> (r: String)
    ensures
        r@ == option_debug_text(opt_view(*a)),
{
    format!("{:?}", a)
}

/// The information line when a connection was opened:
/// `"connection created: <id> | <name> | <args>"`, the arguments as `{:?}` shows them.
pub fn created_message(id: &str, name: &str, args: &Option<String>) -> (s: String)
    ensures
        s@ == "connection created: "@ + id@ + " | "@ + name@ + " | "@ + option_debug_text(opt_view(*args)),
{
    let mut s = String::from_str("connection created: ");
    s.append(id);
    s.append(" | ");
    s.append(name);
    s.append(" | ");
    let d = debug_of_args(args);
    s.append(d.as_str());
    s
}

/// The error line when a connector could not be made:
/// `"could not create connector: <name> | <args> (<reason>)"`.
pub fn create_failed_message(name: &str, args: &Option<String>, reason: &str) -> (s: String)
    ensures
        s@ == "could not create connector: "@ + name@ + " | "@ + option_debug_text(opt_view(*args))
            + " ("@ + reason@ + ")"@,
{
    let mut s = String::from_str("could not create connector: ");
    s.append(name);
    s.append(" | ");
    let d = debug_of_args(args);
    s.append(d.as_str());
    s.append(" (");
    s.append(reason);
    s.append(")");
    s
}

/// A connection line of the plain-text connection listing:
/// `"<id>\t<name>\t<args>\n"`, the arguments as `{:?}` shows them.
pub fn connection_line(id: &str, name: &str, args: &Option<String>) -> (s: String)
    ensures
        s@ == id@ + "\t"@ + name@ + "\t"@ + option_debug_text(opt_view(*args)) + "\n"@,
{
    let mut s = String::from_str(id);
    s.append("\t");
    s.append(name);
    s.append("\t");
    let d = debug_of_args(args);
    s.append(d.as_str());
    s.append("\n");
    s
}

impl<K> State<K> {
    /// The plain-text connection listing: a title line, then a line per open
    /// connection.
    pub fn connection_text(&self) -> (s: String)
        ensures
            s@ == connection_lines(self.connections(), self.connections().len()),
    {
        let mut s = String::from_str("id\t\tname\t\targs\n");
        let mut i: usize = 0;
        while i < self.connectors.len()
            invariant
                i <= self.connectors.len(),
                self.connections().len() == self.connectors@.len(),
                s@ == connection_lines(self.connections(), i as nat),
            decreases self.connectors.len() - i,
        {
            let c = &self.connectors[i];
            let line = connection_line(c.id.as_str(), c.name.as_str(), &c.args);
            s.append(line.as_str());
            proof {
                assert(self.connections()[i as int] == (c.id@, c.name@, opt_view(c.args)));
            }
            i = i + 1;
        }
        s
    }
}

/// The title line and the first `k` connection lines of the plain-text listing.
pub open spec fn connection_lines(cs: Seq<(Seq<char>, Seq<char>, Option<Seq<char>>)>, k: nat) -> Seq<char>
    decreases k,
{
    if k == 0 {
        "id\t\tname\t\targs\n"@
    } else {
        let c = cs[k - 1];
        connection_lines(cs, (k - 1) as nat) + c.0 + "\t"@ + c.1 + "\t"@ + option_debug_text(c.2) + "\n"@
    }
}

/// A process row of the daemon's older process listing: pid, name, `"64"` or `"32"`
/// (whether the process runs under the 32-bit layer), and its process block address.
pub fn process_row_arch(pid: u32, name: &str, wow64: bool, peb: u64) -> (row: Vec<String>)
    ensures
        row@.len() == 4,
        row@[0]@ == dec_text(pid as nat),
        row@[1]@ == name@,
        row@[2]@ == (if wow64 { "32"@ } else { "64"@ }),
        row@[3]@ == hex0x_text(peb),
{
    let mut row: Vec<String> = Vec::new();
    row.push(crate::text::dec_string(pid as u64));
    row.push(String::from_str(name));
    row.push(if wow64 { String::from_str("32") } else { String::from_str("64") });
    row.push(hex0x(peb));
    row
}

/// The 32 hexadecimal digits (lower case, most significant first) of a 128-bit value.
pub open spec fn hex32(bits: u128) -> Seq<char> {
    Seq::new(32, |i: int| hex_char(((bits >> ((31 - i) * 4) as u128) & 0xf) as nat, false))
}

/// A random version 4 UUID as a 128-bit number (`uuid::Uuid::new_v4`, then
/// `uuid::Uuid::as_u128`). The claim is only what every such UUID has: version 4 and
/// the RFC 4122 variant. It panics when the system cannot give random bytes.
#[verifier::external_body]
fn random_uuid_bits() -> (r: u128)
    ensures
        (r >> 76u128) & 0xf == 4,
        (r >> 62u128) & 0x3 == 2,
{
    uuid::Uuid::new_v4().as_u128()
}

/// The first ten characters of the simple lower case form of a UUID.
pub fn uuid_prefix(bits: u128) -> (s: String)
    ensures
        s@ == hex32(bits).take(10),
{
    let mut s = String::new();
    let mut i: u32 = 0;
    while i < 10
        invariant
            i <= 10,
            s@ == hex32(bits).take(i as int),
        decreases 10 - i,
    {
        let shift: u128 = ((31 - i) * 4) as u128;
        let m: u128 = (bits >> shift) & 0xf;
        assert(m < 16) by (bit_vector)
            requires
                m == (bits >> shift) & 0xf,
        ;
        let d = m as u64;
        let c = crate::text::digit_char(d, false);
        push_char(&mut s, c);
        proof {
            assert(hex32(bits)[i as int] == c);
            assert(hex32(bits).take(i + 1) =~= hex32(bits).take(i as int).push(c));
        }
        i = i + 1;
    }
    s
}

/// Whether a character is a lower case hexadecimal digit.
pub open spec fn is_lower_hex(c: char) -> bool {
    ('0' <= c && c <= '9') || ('a' <= c && c <= 'f')
}

/// A new connection id: the first ten characters of a random UUID's simple form, all
/// lower case hexadecimal digits.
pub fn new_uuid() -> (s: String)
    ensures
        s@.len() == 10,
        forall|i: int| 0 <= i < 10 ==> is_lower_hex(#[trigger] s@[i]),
{
    let bits = random_uuid_bits();
    let s = uuid_prefix(bits);
    proof {
        assert forall|i: int| 0 <= i < 10 implies is_lower_hex(#[trigger] s@[i]) by {
            let sh: u128 = ((31 - i) * 4) as u128;
            let m: u128 = (bits >> sh) & 0xf;
            assert(m < 16) by (bit_vector)
                requires
                    m == (bits >> sh) & 0xf,
            ;
            assert(s@[i] == hex_char(m as nat, false));
        }
    }
    s
}

} // verus!
