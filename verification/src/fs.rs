//! The shape of the filesystem: branches (directories) whose entries are
//! branches or leaves (files), metadata, listing entries, and the capabilities
//! of an opened file.
use vstd::prelude::*;
use crate::error::{Error, ErrorKind, ErrorOrigin};
use crate::io::FileObj;

verus! {

/// What is known of a node of the filesystem.
#[derive(Copy, Clone, Debug, PartialEq, Eq, Structural)]
pub struct NodeMetadata {
    pub is_branch: bool,
    pub has_read: bool,
    pub has_write: bool,
    pub has_rpc: bool,
    pub size: u64,
}

impl NodeMetadata {
    /// The metadata of a directory.
    pub fn branch() -> (m: NodeMetadata)
        ensures
            m == (NodeMetadata {
                is_branch: true,
                has_read: false,
                has_write: false,
                has_rpc: false,
                size: 0,
            }),
    {
        NodeMetadata { is_branch: true, has_read: false, has_write: false, has_rpc: false, size: 0 }
    }
}

impl Default for NodeMetadata {
    fn default() -> (m: NodeMetadata)
        ensures
            m == (NodeMetadata {
                is_branch: false,
                has_read: false,
                has_write: false,
                has_rpc: false,
                size: 0,
            }),
    {
        NodeMetadata { is_branch: false, has_read: false, has_write: false, has_rpc: false, size: 0 }
    }
}

/// One entry of a directory listing.
#[derive(Debug, PartialEq, Eq)]
pub struct ListEntry {
    pub name: String,
    pub is_branch: bool,
}

impl ListEntry {
    pub fn new(name: String, is_branch: bool) -> (e: ListEntry)
        ensures
            e.name@ == name@,
            e.is_branch == is_branch,
    {
        ListEntry { name, is_branch }
    }
}

/// What a path inside a branch leads to.
pub enum DirEntry<B, L> {
    Branch(B),
    Leaf(L),
}

/// A file of the filesystem, implemented by plugins.
pub trait Leaf {
    /// What an opened file is.
    type Obj: FileObj;

    /// Opens the file.
    fn open(&self) -> (r: Result<Self::Obj, Error>)
        ensures
            self.gives_open(r),
    ;

    /// `open` may answer `r`. An implementation says which answers it gives; by default
    /// nothing is said.
    open spec fn gives_open(&self, r: Result<Self::Obj, Error>) -> bool {
        true
    }

    /// `metadata` may answer `r`. An implementation says which answers it gives; by
    /// default nothing is said.
    open spec fn gives_metadata(&self, r: Result<NodeMetadata, Error>) -> bool {
        true
    }

    /// The file's metadata.
    fn metadata(&self) -> (r: Result<NodeMetadata, Error>)
        ensures
            self.gives_metadata(r),
    ;
}

/// A directory of the filesystem, implemented by plugins.
pub trait Branch: Sized {
    type Leaf: Leaf;

    /// `get_entry` may answer `r` for `path`. An implementation says which answers it
    /// gives; by default nothing is said.
    open spec fn gives_entry(&self, path: Seq<char>, r: Result<DirEntry<Self, Self::Leaf>, Error>) -> bool {
        true
    }

    /// `list` may answer `r`. An implementation says which answers it gives; by default
    /// nothing is said.
    open spec fn gives_list(&self, r: Result<Vec<ListEntry>, Error>) -> bool {
        true
    }

    /// Follows a path inside this directory.
    fn get_entry(&self, path: &str) -> (r: Result<DirEntry<Self, Self::Leaf>, Error>)
        ensures
            self.gives_entry(path@, r),
    ;

    /// The entries of this directory.
    fn list(&self) -> (r: Result<Vec<ListEntry>, Error>)
        ensures
            self.gives_list(r),
    ;
}

/// Listing `path` inside `branch` may give `r`: for the empty path what the branch
/// lists; otherwise the path is followed, and a directory it leads to is listed, a file
/// cannot be listed (an invalid path), and an error stays an error.
pub open spec fn lists_at<B: Branch>(branch: B, path: Seq<char>, r: Result<Vec<ListEntry>, Error>) -> bool {
    if path.len() == 0 {
        branch.gives_list(r)
    } else {
        exists|e: Result<DirEntry<B, B::Leaf>, Error>|
            #[trigger] branch.gives_entry(path, e) && match e {
                Ok(DirEntry::Branch(b)) => b.gives_list(r),
                Ok(DirEntry::Leaf(_)) => r == Err::<Vec<ListEntry>, Error>(
                    Error(ErrorOrigin::Branch, ErrorKind::InvalidPath),
                ),
                Err(err) => r == Err::<Vec<ListEntry>, Error>(err),
            }
    }
}

/// Lists the directory at `path` inside a branch: the branch itself for an empty path.
/// A path that leads to a file cannot be listed.
pub fn list_recurse<B: Branch>(branch: &B, path: &str) -> (r: Result<Vec<ListEntry>, Error>)
    ensures
        lists_at(*branch, path@, r),
{
    if char_count(path) == 0 {
        branch.list()
    } else {
        let found = branch.get_entry(path);
        match found {
            Ok(DirEntry::Branch(b)) => b.list(),
            Ok(DirEntry::Leaf(_)) => Err(Error(ErrorOrigin::Branch, ErrorKind::InvalidPath)),
            Err(e) => Err(e),
        }
    }
}

/// The outcome of following a path in a listing: a directory is listed, a file is an
/// error, and an error stays an error.
pub fn listable<B, L>(r: Result<DirEntry<B, L>, Error>) -> (res: Result<B, Error>)
    ensures
        match r {
            Ok(DirEntry::Branch(b)) => res == Ok::<B, Error>(b),
            Ok(DirEntry::Leaf(_)) => res == Err::<B, Error>(
                Error(ErrorOrigin::Branch, ErrorKind::InvalidPath),
            ),
            Err(e) => res == Err::<B, Error>(e),
        },
{
    match r {
        Ok(DirEntry::Branch(b)) => Ok(b),
        Ok(DirEntry::Leaf(_)) => Err(Error(ErrorOrigin::Branch, ErrorKind::InvalidPath)),
        Err(e) => Err(e),
    }
}

fn char_count(s: &str) -> (n: usize)
    ensures
        n == s@.len(),
{
    crate::text::char_len(s)
}

/// Which operations an opened file supports.
#[derive(Copy, Clone, Debug, PartialEq, Eq, Structural)]
pub struct FileOps {
    pub has_read: bool,
    pub has_write: bool,
    pub has_rpc: bool,
}

impl FileOps {
    /// Whether a read may be performed; reading a file without read support is not implemented.
    pub fn check_read(&self) -> (r: Result<(), Error>)
        ensures
            r == if self.has_read {
                Ok::<(), Error>(())
            } else {
                Err(Error(ErrorOrigin::Read, ErrorKind::NotImplemented))
            },
    {
        if self.has_read {
            Ok(())
        } else {
            Err(Error(ErrorOrigin::Read, ErrorKind::NotImplemented))
        }
    }

    /// Whether a write may be performed.
    pub fn check_write(&self) -> (r: Result<(), Error>)
        ensures
            r == if self.has_write {
                Ok::<(), Error>(())
            } else {
                Err(Error(ErrorOrigin::Write, ErrorKind::NotImplemented))
            },
    {
        if self.has_write {
            Ok(())
        } else {
            Err(Error(ErrorOrigin::Write, ErrorKind::NotImplemented))
        }
    }

    /// Whether a remote procedure call may be performed.
    pub fn check_rpc(&self) -> (r: Result<(), Error>)
        ensures
            r == if self.has_rpc {
                Ok::<(), Error>(())
            } else {
                Err(Error(ErrorOrigin::Rpc, ErrorKind::NotImplemented))
            },
    {
        if self.has_rpc {
            Ok(())
        } else {
            Err(Error(ErrorOrigin::Rpc, ErrorKind::NotImplemented))
        }
    }
}

/// The kind of node a mounted filesystem shows.
#[derive(Copy, Clone, Debug, PartialEq, Eq, Structural)]
pub enum FileKind {
    Directory,
    RegularFile,
}

/// The permission bits a mounted filesystem shows for a node.
pub open spec fn perm_of(meta: NodeMetadata, readonly: bool) -> u16 {
    if meta.is_branch {
        if readonly {
            0o555
        } else {
            0o755
        }
    } else {
        ((if meta.has_write && !readonly {
            0o200int
        } else {
            0
        }) + (if meta.has_read {
            0o444int
        } else {
            0
        })) as u16
    }
}

/// The attributes a mounted filesystem shows for a node: its kind, its permission
/// bits (directories `r-x` for all, plus `w` for the owner unless read only; files `r`
/// for all if readable and `w` for the owner if writable and not read only), and its size.
pub fn mount_attr(meta: &NodeMetadata, readonly: bool) -> (res: (FileKind, u16, u64))
    ensures
        res.0 == (if meta.is_branch {
            FileKind::Directory
        } else {
            FileKind::RegularFile
        }),
        res.1 == perm_of(*meta, readonly),
        res.2 == meta.size,
{
    let perm: u16 = if meta.is_branch {
        if readonly {
            0o555
        } else {
            0o755
        }
    } else {
        let w: u16 = if meta.has_write && !readonly {
            0o200
        } else {
            0
        };
        let r: u16 = if meta.has_read {
            0o444
        } else {
            0
        };
        w + r
    };
    let kind = if meta.is_branch {
        FileKind::Directory
    } else {
        FileKind::RegularFile
    };
    (kind, perm, meta.size)
}

/// The flags a mounted file is opened with: the requested ones plus direct I/O.
pub fn mount_open_flags(flags: u32) -> (f: u32)
    ensures
        f == flags | 1u32,
{
    flags | 1u32
}

/// Where a filesystem can be mounted: an empty mount point is an invalid path.
pub fn mount_check(mount_point: &str) -> (r: Result<(), Error>)
    ensures
        mount_point@.len() == 0 ==> r == Err::<(), Error>(Error(ErrorOrigin::Other, ErrorKind::InvalidPath)),
        mount_point@.len() != 0 ==> r is Ok,
{
    if crate::text::char_len(mount_point) == 0 {
        Err(Error::from(ErrorKind::InvalidPath))
    } else {
        Ok(())
    }
}

/// The mount options of a mounted filesystem:
/// `"auto_unmount,allow_other,uid=<uid>,gid=<gid>"`.
pub fn mount_options(uid: u32, gid: u32) -> (s: String)
    ensures
        s@ == "auto_unmount,allow_other,uid="@ + crate::text::dec_text(uid as nat) + ",gid="@
            + crate::text::dec_text(gid as nat),
{
    let mut s = String::from_str("auto_unmount,allow_other,uid=");
    crate::text::push_dec(&mut s, uid as u64);
    s.append(",gid=");
    crate::text::push_dec(&mut s, gid as u64);
    s
}

/// A directory listing as a mounted filesystem shows it: each entry's name with its
/// kind, in order.
pub fn dir_listing(entries: &Vec<ListEntry>) -> (out: Vec<(String, FileKind)>)
    ensures
        out@.len() == entries@.len(),
        forall|i: int|
            0 <= i < out@.len() ==> out@[i].0@ == entries@[i].name@ && out@[i].1 == (if entries@[i].is_branch {
                FileKind::Directory
            } else {
                FileKind::RegularFile
            }),
{
    let mut out: Vec<(String, FileKind)> = Vec::new();
    let mut i: usize = 0;
    while i < entries.len()
        invariant
            i <= entries.len(),
            out@.len() == i,
            forall|k: int|
                0 <= k < i ==> out@[k].0@ == entries@[k].name@ && out@[k].1 == (if entries@[k].is_branch {
                    FileKind::Directory
                } else {
                    FileKind::RegularFile
                }),
        decreases entries.len() - i,
    {
        let kind = if entries[i].is_branch {
            FileKind::Directory
        } else {
            FileKind::RegularFile
        };
        out.push((entries[i].name.clone(), kind));
        i = i + 1;
    }
    out
}

/// Decodes UTF-8 text (`std::str::from_utf8`).
#[verifier::external_body]
pub(crate) fn utf8_str(b: &[u8]) -> (res: Option<&str>)
    ensures
        res is Some <==> vstd::utf8::valid_utf8(b@),
        res matches Some(s) ==> s@ == vstd::utf8::decode_utf8(b@),
{
    std::str::from_utf8(b).ok()
}

} // verus!
