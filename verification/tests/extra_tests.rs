use cloudflow::daemon::{connection_line, create_failed_message, created_message, process_row_arch, ConnectorState, State};
use cloudflow::error::{Error, ErrorKind, ErrorOrigin};
use cloudflow::fs::{dir_listing, mount_check, mount_options, FileKind, ListEntry};
use cloudflow::pool::Lazy;
use cloudflow::procfs::os_build_outcome;

#[test]
fn mount_helpers() {
    assert_eq!(mount_check(""), Err(Error(ErrorOrigin::Other, ErrorKind::InvalidPath)));
    assert_eq!(mount_check("/cloudflow"), Ok(()));
    assert_eq!(mount_options(1000, 0), "auto_unmount,allow_other,uid=1000,gid=0");
    let l = dir_listing(&vec![ListEntry::new("a".to_string(), true), ListEntry::new("b".to_string(), false)]);
    assert_eq!(l, vec![("a".to_string(), FileKind::Directory), ("b".to_string(), FileKind::RegularFile)]);
}

#[test]
fn lazy_value() {
    let mut l: Lazy<u32> = Lazy::new();
    assert!(l.needs_attempt());
    assert_eq!(l.get_or_attempt(None), None);
    assert!(l.needs_attempt());
    assert_eq!(l.get_or_attempt(Some(5)), Some(&5));
    assert!(!l.needs_attempt());
    assert_eq!(l.get_or_attempt(Some(9)), Some(&5));
}

#[test]
fn os_build_errors() {
    assert_eq!(os_build_outcome(false, None, true, true), Err(Error(ErrorOrigin::Other, ErrorKind::NotFound)));
    assert_eq!(os_build_outcome(true, Some(false), true, true), Err(Error(ErrorOrigin::Other, ErrorKind::NotFound)));
    assert_eq!(os_build_outcome(true, Some(true), false, true), Err(Error(ErrorOrigin::Other, ErrorKind::InvalidArgument)));
    assert_eq!(os_build_outcome(true, None, true, false), Err(Error(ErrorOrigin::Other, ErrorKind::Uninitialized)));
    assert_eq!(os_build_outcome(true, None, true, true), Ok(()));
}

#[test]
fn daemon_lines() {
    assert_eq!(created_message("abc", "qemu", &Some("vm".to_string())), "connection created: abc | qemu | Some(\"vm\")");
    assert_eq!(created_message("abc", "qemu", &None), "connection created: abc | qemu | None");
    assert_eq!(
        create_failed_message("qemu", &None, "connector error"),
        "could not create connector: qemu | None (connector error)"
    );
    assert_eq!(connection_line("a", "b", &Some("c".to_string())), "a\tb\tSome(\"c\")\n");
    let mut s: State<()> = State::new();
    assert_eq!(s.connection_text(), "id\t\tname\t\targs\n");
    s.insert(ConnectorState::new("x1", "kvm", None, ()));
    assert_eq!(s.connection_text(), "id\t\tname\t\targs\nx1\tkvm\tNone\n");
    assert_eq!(process_row_arch(8, "smss.exe", true, 0x7ffd000), vec!["8", "smss.exe", "32", "0x7FFD000"]);
    assert_eq!(process_row_arch(8, "smss.exe", false, 0), vec!["8", "smss.exe", "64", "0x0"]);
}
