use cloudflow::cli::{LogLevel, Response};
use cloudflow::daemon::{
    listing_answers, listing_failed_message, listing_message, log_message, ProcRow, new_uuid, process_headers, process_row,
    unknown_connection_message, uuid_prefix, ConnectorState, State,
};

#[test]
fn connections_registry() {
    let mut s: State<u8> = State::new();
    s.insert(ConnectorState::new("abc", "qemu", Some("vm=1".to_string()), 1));
    s.insert(ConnectorState::new("def", "kvm", None, 2));
    assert!(s.contains("abc"));
    let (h, rows) = s.connection_table();
    assert_eq!(h, vec!["id".to_string(), "name".to_string(), "args".to_string()]);
    assert_eq!(rows, vec![
        vec!["abc".to_string(), "qemu".to_string(), "vm=1".to_string()],
        vec!["def".to_string(), "kvm".to_string(), "".to_string()],
    ]);
    // the same id replaces the connection
    s.insert(ConnectorState::new("abc", "other", None, 3));
    assert_eq!(s.connection_table().1, vec![
        vec!["abc".to_string(), "other".to_string(), "".to_string()],
        vec!["def".to_string(), "kvm".to_string(), "".to_string()],
    ]);
    assert_eq!(s.close_connection("abc"), (LogLevel::Info, "connection abc removed".to_string()));
    assert!(!s.contains("abc"));
    assert_eq!(s.close_connection("abc"), (LogLevel::Error, "no connection with id abc found".to_string()));
    assert_eq!(s.connection_table().1, vec![vec!["def".to_string(), "kvm".to_string(), "".to_string()]]);
}

#[test]
fn daemon_texts() {
    match log_message(LogLevel::Info, "connector created") {
        Response::Log { level, msg } => {
            assert_eq!(level, 3);
            assert_eq!(msg, "connector created");
        }
        _ => panic!("expected a log message"),
    }
    assert_eq!(listing_message("abc", 12), "listing processes for connection abc: 12 processes\n");
    assert_eq!(listing_failed_message("abc"), "could not get processes on connection abc");
    assert_eq!(unknown_connection_message("x"), "no connection with id x found");
    assert_eq!(process_headers(), vec!["pid", "name", "bits", "dtb", "teb", "peb"]);
    assert_eq!(
        process_row(4, "System", 64, 0x1aa000, 0, 0x7ffdf000),
        vec!["4", "System", "64", "0x1AA000", "0x0", "0x7FFDF000"]
    );
}

#[test]
fn uuids() {
    assert_eq!(uuid_prefix(0x0123456789abcdef0123456789abcdef), "0123456789");
    assert_eq!(uuid_prefix(0xfedcba98765432100000000000000000), "fedcba9876");
    assert_eq!(uuid_prefix(0x1), "0000000000");
    let id = new_uuid();
    assert_eq!(id.len(), 10);
    assert!(id.chars().all(|c| c.is_ascii_digit() || ('a'..='f').contains(&c)));
    assert_ne!(new_uuid(), new_uuid());
}

#[test]
fn process_listing_answers() {
    let procs = vec![ProcRow { pid: 4, name: "System".to_string(), bits: 64, dtb: 0x1aa000, teb: 0, peb: 0x7ff0 }];
    let r = listing_answers("abc", true, Ok(procs));
    assert_eq!(r.len(), 3);
    match &r[0] {
        Response::Log { level, msg } => {
            assert_eq!(*level, 3);
            assert_eq!(msg, "listing processes for connection abc: 1 processes\n");
        }
        _ => panic!("expected a log message"),
    }
    match &r[1] {
        Response::Table { headers, entries } => {
            assert_eq!(headers, &vec!["pid", "name", "bits", "dtb", "teb", "peb"]);
            assert_eq!(entries, &vec![vec!["4", "System", "64", "0x1AA000", "0x0", "0x7FF0"]]);
        }
        _ => panic!("expected a table"),
    }
    assert!(matches!(&r[2], Response::Result { success: true, msg } if msg.is_empty()));
    let r = listing_answers("x", false, Err(()));
    match &r[0] {
        Response::Log { level, msg } => {
            assert_eq!(*level, 1);
            assert_eq!(msg, "no connection with id x found");
        }
        _ => panic!("expected a log message"),
    }
    match &r[1] {
        Response::Table { entries, .. } => assert!(entries.is_empty()),
        _ => panic!("expected a table"),
    }
    let r = listing_answers("abc", true, Err(()));
    match &r[0] {
        Response::Log { level, msg } => {
            assert_eq!(*level, 1);
            assert_eq!(msg, "could not get processes on connection abc");
        }
        _ => panic!("expected a log message"),
    }
}
