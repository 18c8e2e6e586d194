use cloudflow::backend::{LocalBackend, StrBuild};
use cloudflow::cli::extract_args;
use cloudflow::error::{Error, ErrorKind, ErrorOrigin};
use cloudflow::fs::{Branch, DirEntry, Leaf, ListEntry, NodeMetadata};
use cloudflow::io::{FileObj, ReadSink};
use cloudflow::path::split_args;
use cloudflow::procfs::{process_list_route, InfoQuery, InfoStep, NameCache, ProcRoute};

#[derive(Debug, PartialEq)]
struct Nothing;

/// An opened file with nothing to read.
struct Empty;

impl FileObj for Empty {
    fn read<S: ReadSink>(&self, _reqs: &Vec<(u64, usize)>, _sink: &mut S) -> Result<(), Error> {
        Err(Error(ErrorOrigin::Read, ErrorKind::NotImplemented))
    }
}

impl Leaf for Nothing {
    type Obj = Empty;
    fn open(&self) -> Result<Empty, Error> {
        Ok(Empty)
    }
    fn metadata(&self) -> Result<NodeMetadata, Error> {
        Ok(NodeMetadata::default())
    }
}

/// An instance made from `<os/connector>[:args]`, possibly chained on another one.
#[derive(Debug, PartialEq)]
struct Instance {
    chain: Option<String>,
    plugin: String,
    args: String,
}

impl Branch for Instance {
    type Leaf = Nothing;
    fn get_entry(&self, _path: &str) -> Result<DirEntry<Self, Nothing>, Error> {
        Err(Error(ErrorOrigin::Branch, ErrorKind::NotFound))
    }
    fn list(&self) -> Result<Vec<ListEntry>, Error> {
        Ok(vec![])
    }
}

impl StrBuild<()> for Instance {
    fn build(input: &str, _ctx: &()) -> Result<Self, Error> {
        let (chain, plugin, args) = split_args(input);
        Ok(Instance { chain: chain.map(String::from), plugin: plugin.to_string(), args: args.to_string() })
    }
}

#[test]
fn readme_start_with_fuse() {
    // `cloudflow -ef`
    let a = extract_args(0, true, None, None, None, true).unwrap();
    assert_eq!(a.mount_path.as_deref(), Some("/cloudflow"));
    assert!(a.elevate);
}

#[test]
fn readme_new_instances() {
    let b: LocalBackend<Instance, ()> = LocalBackend::new(());
    let mut connectors = b.with_new();
    // echo "qemu_vm qemu" >> /cloudflow/connector/new
    assert_eq!(connectors.new_line(b"qemu_vm qemu"), Ok(()));
    assert_eq!(
        connectors.get("qemu_vm"),
        Some(&Instance { chain: None, plugin: "qemu".to_string(), args: "".to_string() })
    );
    let b: LocalBackend<Instance, ()> = LocalBackend::new(());
    let mut oses = b.with_new();
    // echo "win -c qemu_vm win32" >> /cloudflow/os/new
    assert_eq!(oses.new_line(b"win -c qemu_vm win32"), Ok(()));
    assert_eq!(
        oses.get("win"),
        Some(&Instance { chain: Some("qemu_vm".to_string()), plugin: "win32".to_string(), args: "".to_string() })
    );
    assert_eq!(oses.new_line(b"kvm_os kvm:vm=3"), Ok(()));
    assert_eq!(oses.get("kvm_os").unwrap().args, "vm=3");
}

#[test]
fn readme_process_by_name() {
    // /cloudflow/os/win/processes/by-name/System/mini.dmp
    assert_eq!(process_list_route("by-name"), Ok(ProcRoute::ByName));
    let mut cache = NameCache::new();
    assert!(matches!(cache.name_info_start::<u32>("System"), InfoStep::Ask(InfoQuery::Name)));
    assert_eq!(cache.name_info_by_name("System", Ok((4u32, 0xfffffa80))), Ok(4));
    assert!(matches!(cache.name_info_start::<u32>("System"), InfoStep::Ask(InfoQuery::Address(0xfffffa80))));
}
