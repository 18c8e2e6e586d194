use cloudflow::error::{Error, ErrorKind, ErrorOrigin};
use cloudflow::fs::{mount_attr, mount_open_flags, FileKind, FileOps, NodeMetadata};
use cloudflow::io::{
    read_file_requests, read_from_file, single_io_progress, ObjCursor, ReadSink, SeekFrom,
};

#[test]
fn read_from_file_cases() {
    let file = b"hello";
    let mut to = [0u8; 3];
    assert_eq!(read_from_file(file, 1, &mut to), 3);
    assert_eq!(&to, b"ell");
    let mut to = [7u8; 4];
    assert_eq!(read_from_file(file, 3, &mut to), 2);
    assert_eq!(&to, &[b'l', b'o', 7, 7]);
    let mut to = [7u8; 2];
    assert_eq!(read_from_file(file, 9, &mut to), 0);
    assert_eq!(&to, &[7, 7]);
}

struct Collect {
    outs: Vec<(u64, Vec<u8>)>,
    fails: Vec<(u64, usize, Error)>,
    answer: bool,
}

impl ReadSink for Collect {
    fn out(&mut self, off: u64, data: &[u8]) -> bool {
        self.outs.push((off, data.to_vec()));
        self.answer
    }
    fn out_fail(&mut self, off: u64, len: usize, err: Error) -> bool {
        self.fails.push((off, len, err));
        self.answer
    }
}

#[test]
fn read_file_requests_cases() {
    let file = b"0123456789";
    let mut sink = Collect { outs: vec![], fails: vec![], answer: true };
    let r = read_file_requests(file, &vec![(2, 3), (8, 4)], &mut sink);
    assert_eq!(r, Ok(()));
    assert_eq!(sink.outs, vec![(2, b"234".to_vec()), (8, b"89".to_vec())]);
    assert_eq!(sink.fails, vec![(10, 2, Error(ErrorOrigin::Read, ErrorKind::OutOfBounds))]);

    let mut sink = Collect { outs: vec![], fails: vec![], answer: false };
    let r = read_file_requests(file, &vec![(0, 1), (1, 1)], &mut sink);
    assert_eq!(r, Err(Error(ErrorOrigin::Read, ErrorKind::Unknown)));
    assert_eq!(sink.outs.len(), 1);
}

#[test]
fn single_io_progress_cases() {
    // nothing reported: all of it
    assert_eq!(single_io_progress(100, 10, &vec![], &vec![]), 10);
    // done up to 106
    assert_eq!(single_io_progress(100, 10, &vec![(100, 6)], &vec![]), 6);
    // failed from 103
    assert_eq!(single_io_progress(100, 10, &vec![(100, 10)], &vec![103]), 3);
    assert_eq!(single_io_progress(100, 10, &vec![], &vec![104, 102]), 2);
}

#[test]
fn cursor_seek() {
    let mut c = ObjCursor::new(5);
    assert_eq!(c.pos, 0);
    assert_eq!(c.seek(SeekFrom::Start(10)), Ok(10));
    assert_eq!(c.seek(SeekFrom::Current(-4)), Ok(6));
    assert_eq!(c.seek(SeekFrom::Current(4)), Ok(10));
    assert_eq!(c.seek(SeekFrom::End(0)), Err(Error(ErrorOrigin::Io, ErrorKind::Unknown)));
    c.advance(3);
    assert_eq!(c.pos, 13);
    assert_eq!(c.handle, 5);
    let c = ObjCursor::at(2, 40);
    assert_eq!((c.handle, c.pos), (2, 40));
}

#[test]
fn file_ops_checks() {
    let ops = FileOps { has_read: true, has_write: false, has_rpc: false };
    assert_eq!(ops.check_read(), Ok(()));
    assert_eq!(ops.check_write(), Err(Error(ErrorOrigin::Write, ErrorKind::NotImplemented)));
    assert_eq!(ops.check_rpc(), Err(Error(ErrorOrigin::Rpc, ErrorKind::NotImplemented)));
}

#[test]
fn mount_attributes() {
    let dir = NodeMetadata::branch();
    assert_eq!(mount_attr(&dir, false), (FileKind::Directory, 0o755, 0));
    assert_eq!(mount_attr(&dir, true), (FileKind::Directory, 0o555, 0));
    let f = NodeMetadata { is_branch: false, has_read: true, has_write: true, has_rpc: false, size: 42 };
    assert_eq!(mount_attr(&f, false), (FileKind::RegularFile, 0o644, 42));
    assert_eq!(mount_attr(&f, true), (FileKind::RegularFile, 0o444, 42));
    let w = NodeMetadata { is_branch: false, has_read: false, has_write: true, has_rpc: false, size: 0 };
    assert_eq!(mount_attr(&w, false).1, 0o200);
    assert_eq!(mount_open_flags(0o2), 0o3);
    assert_eq!(NodeMetadata::default(), NodeMetadata { is_branch: false, has_read: false, has_write: false, has_rpc: false, size: 0 });
}
