//! The decisions of the command line clients: where a daemon address leads, and what
//! each answer of the daemon is turned into.
use vstd::prelude::*;
use crate::text::{dec_text, push_char, push_dec};

verus! {

/// Where the command line client connects to.
pub struct Config {
    pub host: String,
}

#[verifier::external_type_specification]
#[verifier::external_body]
pub struct ExUrl(url::Url);

/// Whether `url::Url::parse` accepts a text.
pub uninterp spec fn url_parses(s: Seq<char>) -> bool;

/// The scheme `url::Url::scheme` gives for a text that parses.
pub uninterp spec fn url_scheme(s: Seq<char>) -> Seq<char>;

/// The host `url::Url::host_str` gives for a text that parses.
pub uninterp spec fn url_host(s: Seq<char>) -> Option<Seq<char>>;

/// The port `url::Url::port` gives for a text that parses.
pub uninterp spec fn url_port(s: Seq<char>) -> Option<u16>;

/// The path `url::Url::path` gives for a text that parses.
pub uninterp spec fn url_path(s: Seq<char>) -> Seq<char>;

/// A parsed URL with the text it was parsed from.
pub struct ParsedUrl {
    url: url::Url,
    text: Ghost<Seq<char>>,
}

impl ParsedUrl {
    /// The text the URL was parsed from.
    pub closed spec fn text(&self) -> Seq<char> {
        self.text@
    }
}

/// Parses an absolute URL (`url::Url::parse`); the claim is only that the outcome is
/// the one `url_parses` names for the text.
#[verifier::external_body]
fn parse_url(s: &str) -> (r: Option<ParsedUrl>)
    ensures
        r is Some <==> url_parses(s@),
        r matches Some(u) ==> u.text() == s@,
{
    url::Url::parse(s).ok().map(|url| ParsedUrl { url, text: Ghost(s@) })
}

/// The scheme of a parsed URL (`url::Url::scheme`), as named by `url_scheme`.
#[verifier::external_body]
fn scheme_of(u: &ParsedUrl) -> (r: String)
    ensures
        r@ == url_scheme(u.text()),
{
    u.url.scheme().to_string()
}

/// The host of a parsed URL (`url::Url::host_str`), as named by `url_host`.
#[verifier::external_body]
fn host_of(u: &ParsedUrl) -> (r: Option<String>)
    ensures
        match (r, url_host(u.text())) {
            (Some(a), Some(b)) => a@ == b,
            (None, None) => true,
            _ => false,
        },
{
    u.url.host_str().map(|h| h.to_string())
}

/// The port of a parsed URL (`url::Url::port`), as named by `url_port`.
#[verifier::external_body]
fn port_of(u: &ParsedUrl) -> (r: Option<u16>)
    ensures
        r == url_port(u.text()),
{
    u.url.port()
}

/// The path of a parsed URL (`url::Url::path`), as named by `url_path`.
#[verifier::external_body]
fn path_of(u: &ParsedUrl) -> (r: String)
    ensures
        r@ == url_path(u.text()),
{
    u.url.path().to_string()
}

/// Where the client sends its request.
pub enum Target {
    /// A TCP address `"host:port"`.
    Tcp(String),
    /// A Unix socket path.
    Unix(String),
}

/// Why a daemon address cannot be used.
#[derive(Copy, Clone, Debug, PartialEq, Eq, Structural)]
pub enum TargetError {
    /// The address does not parse as a URL.
    InvalidSocketAddress,
    /// A `tcp` URL without a host.
    InvalidTcpHost,
    /// A scheme other than `tcp` and `unix`.
    UnsupportedScheme,
}

impl TargetError {
    /// The message the client reports.
    pub fn message(&self) -> (s: &'static str)
        ensures
            s@ == target_error_text(*self),
    {
        match self {
            TargetError::InvalidSocketAddress => "invalid socket address",
            TargetError::InvalidTcpHost => "invalid tcp host address",
            TargetError::UnsupportedScheme => "only tcp and unix urls are supported",
        }
    }
}

/// The message of each target error.
pub open spec fn target_error_text(e: TargetError) -> Seq<char> {
    match e {
        TargetError::InvalidSocketAddress => "invalid socket address"@,
        TargetError::InvalidTcpHost => "invalid tcp host address"@,
        TargetError::UnsupportedScheme => "only tcp and unix urls are supported"@,
    }
}

/// The port a `tcp` address uses when it names none.
pub const DEFAULT_PORT: u16 = 8000;

/// The TCP address of a host and port: `"host:port"`.
pub open spec fn tcp_addr_text(host: Seq<char>, port: u16) -> Seq<char> {
    host + seq![':'] + dec_text(port as nat)
}

/// The view of a target.
pub open spec fn target_view(t: Target) -> (bool, Seq<char>) {
    match t {
        Target::Tcp(a) => (true, a@),
        Target::Unix(p) => (false, p@),
    }
}

/// Where a parsed address leads: `tcp` URLs to their host and port (8000 when none is
/// given), `unix` URLs to their path; a `tcp` URL without a host and any other scheme
/// are errors.
pub open spec fn target_spec(
    scheme: Seq<char>,
    host: Option<Seq<char>>,
    port: Option<u16>,
    path: Seq<char>,
) -> Result<(bool, Seq<char>), TargetError> {
    if scheme == "tcp"@ {
        match host {
            Some(h) => Ok(
                (
                    true,
                    tcp_addr_text(
                        h,
                        match port {
                            Some(p) => p,
                            None => DEFAULT_PORT,
                        },
                    ),
                ),
            ),
            None => Err(TargetError::InvalidTcpHost),
        }
    } else if scheme == "unix"@ {
        Ok((false, path))
    } else {
        Err(TargetError::UnsupportedScheme)
    }
}

/// Where the parts of a parsed address lead (see `target_spec`).
pub fn target_of(scheme: &str, host: Option<&str>, port: Option<u16>, path: &str) -> (r: Result<
    Target,
    TargetError,
>)
    ensures
        match (
            r,
            target_spec(
                scheme@,
                match host {
                    Some(h) => Some(h@),
                    None => None,
                },
                port,
                path@,
            ),
        ) {
            (Ok(t), Ok(v)) => target_view(t) == v,
            (Err(a), Err(b)) => a == b,
            _ => false,
        },
{
    if crate::text::str_eq(scheme, "tcp") {
        match host {
            Some(h) => {
                let p = match port {
                    Some(p) => p,
                    None => DEFAULT_PORT,
                };
                let mut s = String::from_str(h);
                push_char(&mut s, ':');
                push_dec(&mut s, p as u64);
                proof {
                    assert(s@ =~= tcp_addr_text(h@, p));
                }
                Ok(Target::Tcp(s))
            },
            None => Err(TargetError::InvalidTcpHost),
        }
    } else if crate::text::str_eq(scheme, "unix") {
        Ok(Target::Unix(String::from_str(path)))
    } else {
        Err(TargetError::UnsupportedScheme)
    }
}

/// Where a daemon address leads: one that does not parse as a URL is an invalid socket
/// address; otherwise as `target_spec` says of its scheme, host, port and path.
pub fn dispatch_target(host: &str) -> (r: Result<Target, TargetError>)
    ensures
        !url_parses(host@) ==> r == Err::<Target, TargetError>(TargetError::InvalidSocketAddress),
        url_parses(host@) ==> match (
            r,
            target_spec(url_scheme(host@), url_host(host@), url_port(host@), url_path(host@)),
        ) {
            (Ok(t), Ok(v)) => target_view(t) == v,
            (Err(a), Err(b)) => a == b,
            _ => false,
        },
{
    match parse_url(host) {
        None => Err(TargetError::InvalidSocketAddress),
        Some(u) => {
            let scheme = scheme_of(&u);
            let h = host_of(&u);
            let port = port_of(&u);
            let path = path_of(&u);
            let hs: Option<&str> = match &h {
                Some(x) => Some(x.as_str()),
                None => None,
            };
            target_of(scheme.as_str(), hs, port, path.as_str())
        },
    }
}

/// How loudly a message of the daemon is logged.
#[derive(Copy, Clone, Debug, PartialEq, Eq, Structural)]
pub enum LogLevel {
    Error,
    Warn,
    Info,
    Debug,
    Trace,
}

/// The number a log level travels as between daemon and client.
pub open spec fn level_code(l: LogLevel) -> i32 {
    match l {
        LogLevel::Error => 1,
        LogLevel::Warn => 2,
        LogLevel::Info => 3,
        LogLevel::Debug => 4,
        LogLevel::Trace => 5,
    }
}

/// The number a log level travels as.
pub fn level_to_code(l: LogLevel) -> (c: i32)
    ensures
        c == level_code(l),
{
    match l {
        LogLevel::Error => 1,
        LogLevel::Warn => 2,
        LogLevel::Info => 3,
        LogLevel::Debug => 4,
        LogLevel::Trace => 5,
    }
}

/// An answer of the daemon.
pub enum Response {
    /// A message to log at a level.
    Log { level: i32, msg: String },
    /// A table to print: its column titles and rows.
    Table { headers: Vec<String>, entries: Vec<Vec<String>> },
    /// The outcome of the request; it ends the answers.
    Result { success: bool, msg: String },
}

/// What the client does with an answer.
pub enum Output {
    /// Logs a message at a level.
    Log(LogLevel, String),
    /// Prints a table.
    Table(Vec<String>, Vec<Vec<String>>),
    /// Nothing.
    Nothing,
}

/// What the command line client does with an answer, and whether it waits for more: a
/// log message is logged at its level (levels 1 to 4: error, warning, info, debug;
/// others are dropped), a table is printed, and a result ends the answers, logging its
/// message as an error when it failed.
pub fn handle_message(msg: Response) -> (r: (Output, bool))
    ensures
        match msg {
            Response::Log { level, msg: m } => r.1 && match r.0 {
                Output::Log(l, s) => 1 <= level <= 4 && level_code(l) == level && s@ == m@,
                Output::Nothing => !(1 <= level <= 4),
                _ => false,
            },
            Response::Table { headers, entries } => r.1 && r.0 == Output::Table(headers, entries),
            Response::Result { success, msg: m } => !r.1 && match r.0 {
                Output::Log(l, s) => !success && l == LogLevel::Error && s@ == m@,
                Output::Nothing => success,
                _ => false,
            },
        },
{
    match msg {
        Response::Log { level, msg } => {
            let out = if level == 1 {
                Output::Log(LogLevel::Error, msg)
            } else if level == 2 {
                Output::Log(LogLevel::Warn, msg)
            } else if level == 3 {
                Output::Log(LogLevel::Info, msg)
            } else if level == 4 {
                Output::Log(LogLevel::Debug, msg)
            } else {
                Output::Nothing
            };
            (out, true)
        },
        Response::Table { headers, entries } => (Output::Table(headers, entries), true),
        Response::Result { success, msg } => {
            if !success {
                (Output::Log(LogLevel::Error, msg), false)
            } else {
                (Output::Nothing, false)
            }
        },
    }
}

/// The log level a node runs at for a number of `-v` flags: error, warning, info,
/// debug, and trace from four on.
pub open spec fn verbosity_level(count: u8) -> LogLevel {
    if count == 0 {
        LogLevel::Error
    } else if count == 1 {
        LogLevel::Warn
    } else if count == 2 {
        LogLevel::Info
    } else if count == 3 {
        LogLevel::Debug
    } else {
        LogLevel::Trace
    }
}

/// Law: each `-v` flag raises the log level by one step, from error (code 1) with no
/// flag through warning, info and debug to trace (code 5), reached with four flags and
/// kept for more: the level's code is one more than the count, up to five. So more flags
/// never give a quieter level, and debug is exactly three flags.
pub proof fn lemma_verbosity_steps(count: u8, more: u8)
    ensures
        level_code(verbosity_level(count)) == if count < 4 {
            count + 1
        } else {
            5
        },
        count <= more ==> level_code(verbosity_level(count)) <= level_code(verbosity_level(more)),
        (verbosity_level(count) == LogLevel::Debug) <==> count == 3,
        (verbosity_level(count) == LogLevel::Trace) <==> count >= 4,
{
}

/// Where the filesystem is mounted when none is named.
pub open spec fn default_mount() -> Seq<char> {
    "/cloudflow"@
}

/// The settings a node starts with.
pub struct NodeArgs {
    /// Where to mount the filesystem, if it is mounted.
    pub mount_path: Option<String>,
    pub fuse_uid: Option<u32>,
    pub fuse_gid: Option<u32>,
    /// Whether to ask for elevated privileges.
    pub elevate: bool,
    pub level: LogLevel,
}

/// Why the arguments of a node are refused.
#[derive(Copy, Clone, Debug, PartialEq, Eq, Structural)]
pub enum ArgError {
    /// The user id is not a number.
    BadUid,
    /// The group id is not a number.
    BadGid,
}

/// Whether an optional id is absent or a number.
pub open spec fn id_readable(s: Option<&str>) -> bool {
    match s {
        None => true,
        Some(t) => crate::text::parse_unsigned(t@, 10, u32::MAX as nat) is Some,
    }
}

fn parse_id(s: Option<&str>) -> (r: Option<Option<u32>>)
    ensures
        match s {
            None => r == Some(None::<u32>),
            Some(t) => match crate::text::parse_unsigned(t@, 10, u32::MAX as nat) {
                Some(v) => r == Some(Some(v as u32)),
                None => r is None,
            },
        },
{
    match s {
        None => Some(None),
        Some(t) => match crate::text::parse_u32_dec(t) {
            Some(v) => Some(Some(v)),
            None => None,
        },
    }
}

/// The settings of a node from its command line: the log level from the number of
/// `-v` flags, the mount path (the one given, or `/cloudflow`) only with `--fuse`, the
/// user and group ids (refused when not numbers), and whether to elevate.
pub fn extract_args(
    verbose: u8,
    fuse: bool,
    fuse_mount: Option<&str>,
    fuse_uid: Option<&str>,
    fuse_gid: Option<&str>,
    elevate: bool,
) -> (r: Result<NodeArgs, ArgError>)
    ensures
        match r {
            Ok(a) => {
                &&& a.level == verbosity_level(verbose)
                &&& level_code(a.level) == if verbose < 4 {
                    verbose + 1
                } else {
                    5
                }
                &&& a.elevate == elevate
                &&& (!fuse ==> a.mount_path is None)
                &&& (fuse ==> (a.mount_path matches Some(m) && m@ == match fuse_mount {
                    Some(p) => p@,
                    None => default_mount(),
                }))
                &&& match fuse_uid {
                    None => a.fuse_uid is None,
                    Some(t) => crate::text::parse_unsigned(t@, 10, u32::MAX as nat) matches Some(v)
                        && a.fuse_uid == Some(v as u32),
                }
                &&& match fuse_gid {
                    None => a.fuse_gid is None,
                    Some(t) => crate::text::parse_unsigned(t@, 10, u32::MAX as nat) matches Some(v)
                        && a.fuse_gid == Some(v as u32),
                }
            },
            Err(ArgError::BadUid) => !id_readable(fuse_uid),
            Err(ArgError::BadGid) => id_readable(fuse_uid) && !id_readable(fuse_gid),
        },
{
    let level = if verbose == 0 {
        LogLevel::Error
    } else if verbose == 1 {
        LogLevel::Warn
    } else if verbose == 2 {
        LogLevel::Info
    } else if verbose == 3 {
        LogLevel::Debug
    } else {
        LogLevel::Trace
    };
    let mount_path = if fuse {
        match fuse_mount {
            Some(p) => Some(String::from_str(p)),
            None => Some(String::from_str("/cloudflow")),
        }
    } else {
        None
    };
    let uid = match parse_id(fuse_uid) {
        Some(u) => u,
        None => {
            return Err(ArgError::BadUid);
        },
    };
    let gid = match parse_id(fuse_gid) {
        Some(g) => g,
        None => {
            return Err(ArgError::BadGid);
        },
    };
    Ok(NodeArgs { mount_path, fuse_uid: uid, fuse_gid: gid, elevate, level })
}

/// How a flag value is read: exactly `true` or `false`.
pub open spec fn bool_text(s: Seq<char>) -> Option<bool> {
    if s == "true"@ {
        Some(true)
    } else if s == "false"@ {
        Some(false)
    } else {
        None
    }
}

/// Reads a flag value (what `str::parse::<bool>` accepts).
pub fn parse_bool(s: &str) -> (r: Option<bool>)
    ensures
        r == bool_text(s@),
{
    if crate::text::str_eq(s, "true") {
        Some(true)
    } else if crate::text::str_eq(s, "false") {
        Some(false)
    } else {
        None
    }
}

/// Why the arguments of the benchmark command are refused.
#[derive(Copy, Clone, Debug, PartialEq, Eq, Structural)]
pub enum BenchArgError {
    /// The read size is not a `u64`.
    ReadSize,
    /// The asynchronous flag is not `true` or `false`.
    AsyncMode,
    /// The physical flag is not `true` or `false`.
    PhysicalMode,
}

/// The read size and the asynchronous and physical flags of the benchmark command, each
/// with its default (`64`, `true`, `true`) when not given.
pub fn benchmark_args(read_size: Option<&str>, async_mode: Option<&str>, physical_mode: Option<&str>) -> (r:
    Result<(u64, bool, bool), BenchArgError>)
    ensures
        ({
            let rs = match read_size {
                Some(s) => crate::text::parse_unsigned(s@, 10, u64::MAX as nat),
                None => Some(64nat),
            };
            let am = match async_mode {
                Some(s) => bool_text(s@),
                None => Some(true),
            };
            let pm = match physical_mode {
                Some(s) => bool_text(s@),
                None => Some(true),
            };
            match (rs, am, pm) {
                (None, _, _) => r == Err::<(u64, bool, bool), BenchArgError>(BenchArgError::ReadSize),
                (Some(_), None, _) => r == Err::<(u64, bool, bool), BenchArgError>(BenchArgError::AsyncMode),
                (Some(_), Some(_), None) => r == Err::<(u64, bool, bool), BenchArgError>(
                    BenchArgError::PhysicalMode,
                ),
                (Some(n), Some(a), Some(p)) => r == Ok::<(u64, bool, bool), BenchArgError>((n as u64, a, p)),
            }
        }),
{
    let rs = match read_size {
        Some(s) => match crate::text::parse_u64_dec(s) {
            Some(n) => n,
            None => {
                return Err(BenchArgError::ReadSize);
            },
        },
        None => 64,
    };
    let am = match async_mode {
        Some(s) => match parse_bool(s) {
            Some(b) => b,
            None => {
                return Err(BenchArgError::AsyncMode);
            },
        },
        None => true,
    };
    let pm = match physical_mode {
        Some(s) => match parse_bool(s) {
            Some(b) => b,
            None => {
                return Err(BenchArgError::PhysicalMode);
            },
        },
        None => true,
    };
    Ok((rs, am, pm))
}

/// The requests the connection command sends: the connector's name, its arguments and
/// alias (empty when not given).
pub fn new_connection_request(name: &str, args: Option<&str>, alias: Option<&str>) -> (r: (String, String, String))
    ensures
        r.0@ == name@,
        r.1@ == match args {
            Some(a) => a@,
            None => Seq::<char>::empty(),
        },
        r.2@ == match alias {
            Some(a) => a@,
            None => Seq::<char>::empty(),
        },
{
    let a = match args {
        Some(a) => String::from_str(a),
        None => String::new(),
    };
    let l = match alias {
        Some(l) => String::from_str(l),
        None => String::new(),
    };
    (String::from_str(name), a, l)
}

/// The line shown for a new connection: `"New connection id: <id>"`.
pub fn new_connection_text(id: &str) -> (s: String)
    ensures
        s@ == "New connection id: "@ + id@,
{
    let mut s = String::from_str("New connection id: ");
    s.append(id);
    s
}

/// The line shown for a listed process: `"Name: <name>, Pid: <pid>"`.
pub fn process_summary(name: &str, pid: u32) -> (s: String)
    ensures
        s@ == "Name: "@ + name@ + ", Pid: "@ + dec_text(pid as nat),
{
    let mut s = String::from_str("Name: ");
    s.append(name);
    s.append(", Pid: ");
    push_dec(&mut s, pid as u64);
    s
}

/// The line shown when a debugger stub was started:
/// `"gdb stub with id <id> spawned at address <addr>"`.
pub fn gdb_spawned_text(id: &str, addr: &str) -> (s: String)
    ensures
        s@ == "gdb stub with id "@ + id@ + " spawned at address "@ + addr@,
{
    let mut s = String::from_str("gdb stub with id ");
    s.append(id);
    s.append(" spawned at address ");
    s.append(addr);
    s
}

} // verus!
