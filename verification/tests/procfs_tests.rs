use cloudflow::error::{Error, ErrorKind, ErrorOrigin};
use cloudflow::procfs::{
    address_space_size, module_list_dirs, ModuleCache, module_list_route, need_process, parse_pid_name,
    pid_entry_name, pid_name_entry, pid_name_fits, process_addr_name, process_list_dirs,
    process_list_route, shows_proc_arch, ArchPick, InfoQuery, InfoStep, ModuleSpan, NameCache,
    PidCache, ProcRoute,
};

#[test]
fn process_list_routes() {
    assert_eq!(process_list_route("by-pid"), Ok(ProcRoute::ByPid));
    assert_eq!(process_list_route("by-name"), Ok(ProcRoute::ByName));
    assert_eq!(process_list_route("by-pid-name"), Ok(ProcRoute::ByPidName));
    assert_eq!(process_list_route("ffff8000"), Ok(ProcRoute::Address(0xffff8000)));
    assert_eq!(process_list_route("DEAD"), Ok(ProcRoute::Address(0xdead)));
    assert_eq!(process_list_route("xyz"), Err(Error(ErrorOrigin::Other, ErrorKind::InvalidPath)));
    assert_eq!(process_list_route(""), Err(Error(ErrorOrigin::Other, ErrorKind::InvalidPath)));
    assert_eq!(process_list_route("10000000000000000"), Err(Error(ErrorOrigin::Other, ErrorKind::InvalidPath)));
    assert_eq!(process_list_dirs(), vec!["by-pid".to_string(), "by-name".to_string(), "by-pid-name".to_string()]);
}

#[test]
fn listed_names_route_back() {
    let name = process_addr_name(0xfffffa8001234560);
    assert_eq!(name, "fffffa8001234560");
    assert_eq!(process_list_route(&name), Ok(ProcRoute::Address(0xfffffa8001234560)));
    let e = pid_name_entry("explorer.exe", 1234);
    assert_eq!(e, "explorer.exe (1234)");
    assert_eq!(parse_pid_name(&e), Ok(("explorer.exe", 1234)));
    assert_eq!(pid_entry_name(42), "42");
}

#[test]
fn pid_name_parsing() {
    assert_eq!(parse_pid_name("svc host (8)"), Ok(("svc host", 8)));
    assert_eq!(parse_pid_name("nospace"), Err(Error(ErrorOrigin::Other, ErrorKind::InvalidArgument)));
    assert_eq!(parse_pid_name("a 12"), Err(Error(ErrorOrigin::Other, ErrorKind::InvalidArgument)));
    assert_eq!(parse_pid_name("a (x)"), Err(Error(ErrorOrigin::Other, ErrorKind::InvalidArgument)));
    assert_eq!(parse_pid_name("a ()"), Err(Error(ErrorOrigin::Other, ErrorKind::InvalidArgument)));
    assert_eq!(parse_pid_name("a ("), Err(Error(ErrorOrigin::Other, ErrorKind::InvalidArgument)));
    assert_eq!(parse_pid_name("a (4294967296)"), Err(Error(ErrorOrigin::Other, ErrorKind::InvalidArgument)));
    assert!(pid_name_fits("explorer.exe", "explorer.e"));
    assert!(pid_name_fits("explorer", "explorer.exe"));
    assert!(!pid_name_fits("explorer", "notepad.exe"));
}

#[test]
fn pid_cache_lookup_steps() {
    let mut c = PidCache::new();
    let s: InfoStep<&str> = c.info_start(4);
    assert!(matches!(s, InfoStep::Ask(InfoQuery::Pid(4))));
    assert_eq!(c.info_by_pid(4, Ok(("system", 0x1000))), Ok("system"));
    assert_eq!(c.get(4), Some(0x1000));
    let s: InfoStep<&str> = c.info_start(4);
    assert!(matches!(s, InfoStep::Ask(InfoQuery::Address(0x1000))));
    assert!(matches!(PidCache::info_at_address(4, Ok(("system", 4u32))), InfoStep::Done(Ok("system"))));
    assert!(matches!(PidCache::info_at_address(4, Ok(("other", 9u32))), InfoStep::Ask(InfoQuery::Pid(4))));
    assert!(matches!(
        PidCache::info_at_address::<&str>(4, Err(())),
        InfoStep::Done(Err(Error(ErrorOrigin::Other, ErrorKind::NotFound)))
    ));
    assert_eq!(c.info_by_pid::<&str>(5, Err(())), Err(Error(ErrorOrigin::Other, ErrorKind::NotFound)));
    assert_eq!(c.get(5), None);
}

#[test]
fn pid_cache_listing() {
    let mut c = PidCache::new();
    c.insert(99, 1);
    let names = c.list(&vec![(4, 0x10), (8, 0x20), (4, 0x30)]);
    assert_eq!(names, vec!["4".to_string(), "8".to_string()]);
    assert_eq!(c.get(4), Some(0x30));
    assert_eq!(c.get(8), Some(0x20));
    assert_eq!(c.get(99), None);
    assert!(c.insert(7, 1));
    assert!(!c.insert(7, 2));
    assert_eq!(c.get(7), Some(2));
    c.clear();
    assert_eq!(c.get(7), None);
}

#[test]
fn name_cache_lookup_steps() {
    let mut c = NameCache::new();
    assert!(matches!(c.name_info_start::<u8>("calc"), InfoStep::Ask(InfoQuery::Name)));
    assert_eq!(c.name_info_by_name("calc", Ok((7u8, 0x500))), Ok(7));
    assert!(matches!(c.name_info_start::<u8>("calc"), InfoStep::Ask(InfoQuery::Address(0x500))));
    assert!(matches!(NameCache::name_info_at_address("calc", Ok((7u8, "calc".to_string()))), InfoStep::Done(Ok(7))));
    assert!(matches!(NameCache::name_info_at_address("calc", Ok((7u8, "other".to_string()))), InfoStep::Ask(InfoQuery::Name)));
    // pid and name
    assert!(matches!(
        c.pid_name_info_start::<u8>("bad"),
        InfoStep::Done(Err(Error(ErrorOrigin::Other, ErrorKind::InvalidArgument)))
    ));
    assert!(matches!(c.pid_name_info_start::<u8>("notepad (12)"), InfoStep::Ask(InfoQuery::Pid(12))));
    assert_eq!(c.pid_name_info_by_pid("notepad", Ok((1u8, "notepad.exe".to_string(), 0x900))), Ok(1));
    assert!(matches!(c.pid_name_info_start::<u8>("notepad (12)"), InfoStep::Ask(InfoQuery::Address(0x900))));
    assert_eq!(
        c.pid_name_info_by_pid("notepad", Ok((1u8, "calc.exe".to_string(), 0x900))),
        Err(Error(ErrorOrigin::Other, ErrorKind::NotFound))
    );
    assert!(matches!(
        NameCache::pid_name_info_at_address("notepad", 12, Ok((1u8, "notepad".to_string(), 12u32))),
        InfoStep::Done(Ok(1))
    ));
    assert!(matches!(
        NameCache::pid_name_info_at_address("notepad", 12, Ok((1u8, "notepad".to_string(), 13u32))),
        InfoStep::Ask(InfoQuery::Pid(12))
    ));
}

#[test]
fn name_cache_listing() {
    let mut c = NameCache::new();
    let names = c.list(&vec![("a".to_string(), 1), ("b".to_string(), 2), ("a".to_string(), 3)]);
    assert_eq!(names, vec!["a".to_string(), "b".to_string()]);
    assert_eq!(c.get("a"), Some(3));
    assert_eq!(c.get("b"), Some(2));
}

#[test]
fn module_lookup_and_routes() {
    let mut c = ModuleCache::new();
    let m = ModuleSpan { base: 0x400000, size: 0x1000 };
    assert_eq!(c.find_module("a.dll", None), None);
    assert_eq!(c.find_module("a.dll", Some(Err(()))), None);
    assert_eq!(c.find_module("a.dll", Some(Ok(m))), Some(m));
    // cached now: the lookup result is not used
    assert_eq!(c.find_module("a.dll", None), Some(m));
    assert_eq!(module_list_route("x64", "x64", None), Ok(ArchPick::System));
    assert_eq!(module_list_route("x86", "x64", Some("x86")), Ok(ArchPick::Process));
    assert_eq!(module_list_route("arm", "x64", Some("x86")), Err(Error(ErrorOrigin::Branch, ErrorKind::NotFound)));
    assert_eq!(module_list_dirs("x64", Some("x86")), vec!["x64".to_string(), "x86".to_string()]);
    assert_eq!(module_list_dirs("x64", None), vec!["x64".to_string()]);
    assert!(shows_proc_arch(true, false));
    assert!(!shows_proc_arch(true, true));
    assert!(!shows_proc_arch(false, false));
}

#[test]
fn small_helpers() {
    assert_eq!(address_space_size(48), 1u64 << 48);
    assert_eq!(address_space_size(0), 1);
    assert_eq!(need_process(Some(3)), Ok(3));
    assert_eq!(need_process::<u8>(None), Err(Error(ErrorOrigin::Other, ErrorKind::Uninitialized)));
}
