use cloudflow::cli::{
    benchmark_args, dispatch_target, extract_args, handle_message, level_to_code, parse_bool, ArgError,
    BenchArgError, LogLevel, Output, Response, Target, TargetError,
};
use cloudflow::cli::{gdb_spawned_text, new_connection_request, new_connection_text, process_summary};
use cloudflow::client::{benchmark, Config, ReadRequest};

#[test]
fn benchmark_plan() {
    let conf = Config { host: "http://localhost:8000".to_string() };
    let mut b = benchmark(&conf, false, "abc", 64, true);
    assert_eq!(b.host, conf.host);
    assert_eq!(b.runs, 0);
    assert_eq!(b.process_query(), ("abc".to_string(), 0));
    match b.request(0x7ff0) {
        ReadRequest::Virtual { conn_id, pid, base_offsets, reads } => {
            assert_eq!(conn_id, "abc");
            assert_eq!(pid, 0);
            assert!(!base_offsets);
            assert_eq!(reads, vec![(0x7ff0, 64)]);
        }
        _ => panic!("expected a virtual read"),
    }
    assert!(b.sent(0));
    assert!(b.sent(10));
    assert!(!b.sent(11));
    assert_eq!(b.runs, 3);
    b.runs = 19998;
    assert!(b.sent(1));
    assert!(!b.sent(1));
    let mut s = benchmark(&conf, true, "abc", 8, false);
    match s.request(0x10) {
        ReadRequest::Physical { conn_id, reads } => {
            assert_eq!(conn_id, "abc");
            assert_eq!(reads, vec![(0x10, 8)]);
        }
        _ => panic!("expected a physical read"),
    }
    s.runs = 30000;
    assert!(s.sent(5));
}

fn target(t: Result<Target, TargetError>) -> Result<(bool, String), TargetError> {
    t.map(|t| match t {
        Target::Tcp(a) => (true, a),
        Target::Unix(p) => (false, p),
    })
}

#[test]
fn daemon_targets() {
    assert_eq!(target(dispatch_target("tcp://127.0.0.1:9000")), Ok((true, "127.0.0.1:9000".to_string())));
    assert_eq!(target(dispatch_target("tcp://example.com")), Ok((true, "example.com:8000".to_string())));
    assert_eq!(target(dispatch_target("unix:/var/run/memflow.sock")), Ok((false, "/var/run/memflow.sock".to_string())));
    assert_eq!(target(dispatch_target("http://example.com")), Err(TargetError::UnsupportedScheme));
    assert_eq!(target(dispatch_target("not a url")), Err(TargetError::InvalidSocketAddress));
    assert_eq!(target(dispatch_target("tcp:/no-host")), Err(TargetError::InvalidTcpHost));
    assert_eq!(TargetError::InvalidSocketAddress.message(), "invalid socket address");
    assert_eq!(TargetError::InvalidTcpHost.message(), "invalid tcp host address");
    assert_eq!(TargetError::UnsupportedScheme.message(), "only tcp and unix urls are supported");
}

#[test]
fn answers() {
    let (o, more) = handle_message(Response::Log { level: 2, msg: "careful".to_string() });
    assert!(more);
    assert!(matches!(o, Output::Log(LogLevel::Warn, ref m) if m == "careful"));
    let (o, more) = handle_message(Response::Log { level: 9, msg: "x".to_string() });
    assert!(more);
    assert!(matches!(o, Output::Nothing));
    let (o, more) = handle_message(Response::Table { headers: vec!["a".to_string()], entries: vec![] });
    assert!(more);
    assert!(matches!(o, Output::Table(ref h, _) if h.len() == 1));
    let (o, more) = handle_message(Response::Result { success: false, msg: "bad".to_string() });
    assert!(!more);
    assert!(matches!(o, Output::Log(LogLevel::Error, ref m) if m == "bad"));
    let (o, more) = handle_message(Response::Result { success: true, msg: "ok".to_string() });
    assert!(!more);
    assert!(matches!(o, Output::Nothing));
    assert_eq!(level_to_code(LogLevel::Error), 1);
    assert_eq!(level_to_code(LogLevel::Debug), 4);
    assert_eq!(level_to_code(LogLevel::Trace), 5);
}

#[test]
fn node_arguments() {
    let a = extract_args(0, false, Some("/mnt"), None, None, false).unwrap();
    assert_eq!(a.level, LogLevel::Error);
    assert!(a.mount_path.is_none());
    let a = extract_args(2, true, None, Some("1000"), Some("100"), true).unwrap();
    assert_eq!(a.level, LogLevel::Info);
    assert_eq!(a.mount_path.as_deref(), Some("/cloudflow"));
    assert_eq!(a.fuse_uid, Some(1000));
    assert_eq!(a.fuse_gid, Some(100));
    assert!(a.elevate);
    let a = extract_args(9, true, Some("/x"), None, None, false).unwrap();
    assert_eq!(a.level, LogLevel::Trace);
    assert_eq!(a.mount_path.as_deref(), Some("/x"));
    assert_eq!(extract_args(1, false, None, Some("u"), None, false).err(), Some(ArgError::BadUid));
    assert_eq!(extract_args(1, false, None, Some("1"), Some("-1"), false).err(), Some(ArgError::BadGid));
}

#[test]
fn benchmark_arguments() {
    assert_eq!(benchmark_args(None, None, None), Ok((64, true, true)));
    assert_eq!(benchmark_args(Some("4096"), Some("false"), Some("true")), Ok((4096, false, true)));
    assert_eq!(benchmark_args(Some("x"), None, None), Err(BenchArgError::ReadSize));
    assert_eq!(benchmark_args(None, Some("yes"), None), Err(BenchArgError::AsyncMode));
    assert_eq!(benchmark_args(None, None, Some("TRUE")), Err(BenchArgError::PhysicalMode));
    assert_eq!(parse_bool("true"), Some(true));
    assert_eq!(parse_bool("false"), Some(false));
    assert_eq!(parse_bool("1"), None);
}

#[test]
fn command_texts() {
    assert_eq!(
        new_connection_request("qemu", Some("vm"), None),
        ("qemu".to_string(), "vm".to_string(), "".to_string())
    );
    assert_eq!(new_connection_text("ab12"), "New connection id: ab12");
    assert_eq!(process_summary("System", 4), "Name: System, Pid: 4");
    assert_eq!(gdb_spawned_text("3", "0.0.0.0:9999"), "gdb stub with id 3 spawned at address 0.0.0.0:9999");
}
