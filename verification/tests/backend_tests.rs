use cloudflow::backend::{metadata_of_found, route, Handler, LocalBackend, Route, StrBuild};
use cloudflow::error::{Error, ErrorKind, ErrorOrigin};
use cloudflow::fs::{Branch, DirEntry, Leaf, ListEntry, NodeMetadata};
use cloudflow::io::{read_file_requests, FileObj, ReadSink};
use cloudflow::node::{Backend, NodeBackend};
use cloudflow::session::{serve_read, FrameSink};

#[derive(Debug, Clone, PartialEq)]
struct File(u64);

/// An opened file of `n` bytes: `b'a'`, `b'b'`, ...
#[derive(Debug, Clone, PartialEq)]
struct Opened(u64);

impl FileObj for Opened {
    fn read<S: ReadSink>(&self, reqs: &Vec<(u64, usize)>, sink: &mut S) -> Result<(), Error> {
        let data: Vec<u8> = (0..self.0).map(|i| b'a' + i as u8).collect();
        read_file_requests(&data, reqs, sink)
    }
}

impl Leaf for File {
    type Obj = Opened;
    fn open(&self) -> Result<Opened, Error> {
        Ok(Opened(self.0))
    }
    fn metadata(&self) -> Result<NodeMetadata, Error> {
        Ok(NodeMetadata { is_branch: false, has_read: true, has_write: false, has_rpc: false, size: self.0 })
    }
}

/// A directory named by a tag holding files "a" (size 1) and "b" (size 2) and a
/// sub-directory "sub".
#[derive(Debug, Clone, PartialEq)]
struct Dir(String);

impl Branch for Dir {
    type Leaf = File;
    fn get_entry(&self, path: &str) -> Result<DirEntry<Self, File>, Error> {
        match path {
            "a" => Ok(DirEntry::Leaf(File(1))),
            "b" => Ok(DirEntry::Leaf(File(2))),
            "sub" => Ok(DirEntry::Branch(Dir(format!("{}/sub", self.0)))),
            _ => Err(Error(ErrorOrigin::Branch, ErrorKind::NotFound)),
        }
    }
    fn list(&self) -> Result<Vec<ListEntry>, Error> {
        Ok(vec![
            ListEntry::new("a".to_string(), false),
            ListEntry::new("b".to_string(), false),
            ListEntry::new("sub".to_string(), true),
        ])
    }
}

impl StrBuild<String> for Dir {
    fn build(input: &str, ctx: &String) -> Result<Self, Error> {
        if input == "bad" {
            Err(Error(ErrorOrigin::Other, ErrorKind::InvalidArgument))
        } else {
            Ok(Dir(format!("{}:{}", ctx, input)))
        }
    }
}

fn names(v: &[ListEntry]) -> Vec<(String, bool)> {
    v.iter().map(|e| (e.name.clone(), e.is_branch)).collect()
}

#[test]
fn routes() {
    assert!(matches!(route("new"), Route::New));
    assert!(matches!(route("rm"), Route::Rm));
    assert!(matches!(route("new/x"), Route::Entry("new", "x")));
    assert!(matches!(route("dev/a"), Route::Entry("dev", "a")));
    assert!(matches!(route("dev"), Route::Entry("dev", "")));
}

#[test]
fn insert_get_remove() {
    let mut b: LocalBackend<Dir, String> = LocalBackend::new(String::from("ctx"));
    assert!(b.insert("one", Dir("1".to_string())));
    assert!(!b.insert("one", Dir("x".to_string())));
    assert!(!b.insert("new", Dir("x".to_string())));
    assert!(!b.insert("rm", Dir("x".to_string())));
    assert!(!b.insert("a/b", Dir("x".to_string())));
    assert_eq!(b.get("one"), Some(&Dir("1".to_string())));
    assert!(b.name_exists("one"));
    assert!(b.name_exists("new"));
    assert!(!b.name_exists("two"));
    assert_eq!(b.checked_insert("one", Dir("y".to_string())), Err(Error(ErrorOrigin::Backend, ErrorKind::AlreadyExists)));
    assert_eq!(b.checked_insert("two", Dir("2".to_string())), Ok(()));
    b.remove("one");
    assert_eq!(b.get("one"), None);
    assert_eq!(b.get("two"), Some(&Dir("2".to_string())));
}

#[test]
fn open_and_metadata() {
    let mut b: LocalBackend<Dir, String> = LocalBackend::new(String::from("ctx"));
    b.insert("dev", Dir("d".to_string()));
    // no `new` control file without building
    assert_eq!(b.open("new"), Err(Error(ErrorOrigin::Backend, ErrorKind::NotSupported)));
    let rm = b.open("rm").unwrap();
    assert!(matches!(b.handler(rm), Ok(Handler::Rm)));
    let h = b.open("dev/b").unwrap();
    assert!(matches!(b.handler(h), Ok(Handler::Object(Opened(2)))));
    assert_eq!(b.open("dev/sub"), Err(Error(ErrorOrigin::Backend, ErrorKind::InvalidArgument)));
    assert_eq!(b.open("dev/zzz"), Err(Error(ErrorOrigin::Branch, ErrorKind::NotFound)));
    assert_eq!(b.open("nope/a"), Err(Error(ErrorOrigin::Backend, ErrorKind::NotFound)));
    assert_eq!(b.metadata("dev"), Ok(NodeMetadata::branch()));
    assert_eq!(b.metadata("dev/sub"), Ok(NodeMetadata::branch()));
    assert_eq!(b.metadata("dev/a").unwrap().size, 1);
    assert_eq!(b.metadata("rm"), Ok(NodeMetadata::default()));
    assert_eq!(b.metadata("new"), Err(Error(ErrorOrigin::Backend, ErrorKind::NotSupported)));
    assert_eq!(b.metadata("zz"), Err(Error(ErrorOrigin::Backend, ErrorKind::NotFound)));
    // closing: control files stay, objects go, unknown handles are not found
    assert_eq!(b.close(rm), Ok(()));
    assert!(b.handler(rm).is_ok());
    assert_eq!(b.close(h), Ok(()));
    assert_eq!(b.handler(h).err(), Some(Error(ErrorOrigin::Backend, ErrorKind::NotFound)));
    assert_eq!(b.close(h), Err(Error(ErrorOrigin::Backend, ErrorKind::NotFound)));
}

#[test]
fn listings() {
    let mut b: LocalBackend<Dir, String> = LocalBackend::new(String::from("ctx"));
    b.insert("dev", Dir("d".to_string()));
    b.insert("mem", Dir("m".to_string()));
    let root = b.list("").unwrap();
    assert_eq!(names(&root), vec![("dev".to_string(), true), ("mem".to_string(), true), ("rm".to_string(), false)]);
    let inner = b.list("dev").unwrap();
    assert_eq!(names(&inner).len(), 3);
    assert_eq!(b.list("dev/a").err(), Some(Error(ErrorOrigin::Branch, ErrorKind::InvalidPath)));
    assert_eq!(b.list("zz").err(), Some(Error(ErrorOrigin::Backend, ErrorKind::NotFound)));
}

#[test]
fn control_files() {
    let b: LocalBackend<Dir, String> = LocalBackend::new(String::from("ctx"));
    let mut b = b.with_new();
    let newh = b.open("new").unwrap();
    assert!(matches!(b.handler(newh), Ok(Handler::New)));
    let root = b.list("").unwrap();
    assert_eq!(names(&root), vec![("rm".to_string(), false), ("new".to_string(), false)]);
    let fails = b.new_write(&vec![
        b"one arg1".to_vec(),
        b"two".to_vec(),
        vec![0xff, 0xfe],
        b"one again".to_vec(),
        b"three bad".to_vec(),
        b"rm x".to_vec(),
    ]);
    assert_eq!(
        fails,
        vec![
            (2, Error(ErrorOrigin::Backend, ErrorKind::InvalidArgument)),
            (3, Error(ErrorOrigin::Backend, ErrorKind::AlreadyExists)),
            (4, Error(ErrorOrigin::Other, ErrorKind::InvalidArgument)),
            (5, Error(ErrorOrigin::Backend, ErrorKind::AlreadyExists)),
        ]
    );
    assert_eq!(b.get("one"), Some(&Dir("ctx:arg1".to_string())));
    assert_eq!(b.get("two"), Some(&Dir("ctx:".to_string())));
    let fails = b.rm_write(&vec![b"  one \n".to_vec(), vec![0xc3], b"missing".to_vec()]);
    assert_eq!(fails, vec![(1, Error(ErrorOrigin::Backend, ErrorKind::InvalidArgument))]);
    assert_eq!(b.get("one"), None);
    assert!(b.get("two").is_some());
    assert_eq!(b.new_line(b"a/b x"), Err(Error(ErrorOrigin::Backend, ErrorKind::AlreadyExists)));
}

#[test]
fn context_changes() {
    let b: LocalBackend<Dir, String> = LocalBackend::new(String::from("first"));
    let mut b = b.with_new();
    b.set_context(String::from("second"));
    assert_eq!(b.new_line(b"x y"), Ok(()));
    assert_eq!(b.get("x"), Some(&Dir("second:y".to_string())));
    let rm_before = b.open("rm").unwrap();
    let b2: LocalBackend<Dir, u32> = b.with_context(7u32);
    assert!(b2.get("x").is_some());
    let mut b2 = b2;
    assert_eq!(b2.open("rm"), Ok(rm_before));
    b2.rebuild_new();
    assert_eq!(b2.open("new"), Err(Error(ErrorOrigin::Backend, ErrorKind::NotSupported)));
}

#[test]
fn metadata_of_found_cases() {
    let r: Result<DirEntry<Dir, File>, Error> = Ok(DirEntry::Branch(Dir("x".to_string())));
    assert_eq!(metadata_of_found(r), Ok(NodeMetadata::branch()));
    let r: Result<DirEntry<Dir, File>, Error> = Ok(DirEntry::Leaf(File(9)));
    assert_eq!(metadata_of_found(r).unwrap().size, 9);
    let e = Error(ErrorOrigin::Leaf, ErrorKind::Offset);
    let r: Result<DirEntry<Dir, File>, Error> = Err(e);
    assert_eq!(metadata_of_found(r), Err(e));
}

#[test]
fn node_routing() {
    let mut local: LocalBackend<Dir, String> = LocalBackend::new(String::from("c"));
    local.insert("dev", Dir("d".to_string()));
    let mut other: LocalBackend<Dir, String> = LocalBackend::new(String::from("c"));
    other.insert("x", Dir("x".to_string()));
    let mut node: NodeBackend<LocalBackend<Dir, String>> = NodeBackend::new();
    node.add_backend("local", local);
    node.add_backend("remote", other);
    // a second backend under a taken name is dropped
    node.add_backend("local", LocalBackend::new(String::from("z")));
    let mut root = names(&node.list("").unwrap());
    root.sort();
    assert_eq!(root, vec![("local".to_string(), true), ("remote".to_string(), true)]);
    assert_eq!(names(&node.list("//local").unwrap()).len(), 2);
    assert_eq!(node.list("nothing").err(), Some(Error(ErrorOrigin::Node, ErrorKind::NotFound)));
    assert_eq!(node.metadata(""), Ok(NodeMetadata::branch()));
    assert_eq!(node.metadata("local"), Ok(NodeMetadata::branch()));
    assert_eq!(node.metadata("none"), Err(Error(ErrorOrigin::Node, ErrorKind::NotFound)));
    assert_eq!(node.metadata("local/dev/a").unwrap().size, 1);
    assert_eq!(node.metadata("none/dev"), Err(Error(ErrorOrigin::Node, ErrorKind::NotFound)));
    let h = node.open("local/dev/b").unwrap();
    let (bid, bh) = node.resolve(h).unwrap();
    assert_eq!(bid, 0);
    let backend = node.backend(bid).unwrap();
    assert!(matches!(backend.handler(bh), Ok(Handler::Object(Opened(2)))));
    assert_eq!(node.open("local"), Err(Error(ErrorOrigin::Node, ErrorKind::NotFound)));
    assert_eq!(node.open("zz/dev/a"), Err(Error(ErrorOrigin::Node, ErrorKind::NotFound)));
    assert_eq!(node.resolve(99), Err(Error(ErrorOrigin::Node, ErrorKind::NotFound)));
    assert!(node.backend(7).is_err());
    // through the trait
    let h2 = Backend::open(&mut node, "remote/x/a").unwrap();
    assert_eq!(node.resolve(h2).unwrap().0, 1);
}

fn data_frame(addr: u64, data: &[u8]) -> Vec<u8> {
    let mut v = vec![1u8];
    v.extend_from_slice(&addr.to_le_bytes());
    v.extend_from_slice(&(data.len() as u64).to_le_bytes());
    v.extend_from_slice(data);
    v
}

fn fail_frame(addr: u64, len: u64, e: Error) -> Vec<u8> {
    let mut v = vec![2u8];
    v.extend_from_slice(&addr.to_le_bytes());
    v.extend_from_slice(&len.to_le_bytes());
    v.extend_from_slice(&e.into_int_err().to_le_bytes());
    v
}

fn done_frame_of(code: i32) -> Vec<u8> {
    let mut v = vec![0u8];
    v.extend_from_slice(&code.to_le_bytes());
    v
}

#[test]
fn server_reads_through_node() {
    let mut b: LocalBackend<Dir, String> = LocalBackend::new(String::from("ctx"));
    assert_eq!(b.insert("dev", Dir("dev".to_string())), true);
    let mut node: NodeBackend<LocalBackend<Dir, String>> = NodeBackend::new();
    node.add_backend("local", b);
    let h = node.open("local/dev/b").unwrap();
    let mut sink = FrameSink::new();
    serve_read(&node, h, &vec![(0, 2), (1, 3)], &mut sink);
    let mut expected = data_frame(0, b"ab");
    expected.extend(data_frame(1, b"b"));
    expected.extend(fail_frame(2, 2, Error(ErrorOrigin::Read, ErrorKind::OutOfBounds)));
    expected.extend(done_frame_of(0));
    assert_eq!(sink.bytes, expected);

    let mut sink = FrameSink::new();
    serve_read(&node, 99, &vec![(0, 1)], &mut sink);
    assert_eq!(sink.bytes, done_frame_of(Error(ErrorOrigin::Node, ErrorKind::NotFound).into_int_err()));

    // the control files cannot be read
    let rm = node.open("local/rm").unwrap();
    let mut sink = FrameSink::new();
    serve_read(&node, rm, &vec![(0, 1)], &mut sink);
    assert_eq!(sink.bytes, done_frame_of(Error(ErrorOrigin::Read, ErrorKind::NotImplemented).into_int_err()));
}
