//! Error values of the virtual filesystem and their compact integer encoding.
//!
//! An error is a pair of an origin (which layer failed) and a kind (what went
//! wrong). Errors cross plugin boundaries as negative 32-bit integers; the
//! encoding and decoding here are inverse to each other.
use vstd::prelude::*;

verus! {

/// The layer of the filesystem that produced an error.
#[derive(Copy, Clone, Debug, PartialEq, Eq, Structural, Hash)]
pub enum ErrorOrigin {
    Backend,
    Node,
    Leaf,
    Branch,
    Read,
    Write,
    Rpc,
    Io,
    Other,
}

/// What went wrong.
#[derive(Copy, Clone, Debug, PartialEq, Eq, Structural, Hash)]
pub enum ErrorKind {
    Uninitialized,
    NotSupported,
    NotImplemented,
    Configuration,
    Offset,
    InvalidArgument,
    NotFound,
    OutOfBounds,
    InvalidPath,
    ReadOnly,
    UnableToReadDir,
    UnableToReadDirEntry,
    UnableToReadFile,
    UnableToCreateDirectory,
    UnableToWriteFile,
    UnableToSeekFile,
    VersionMismatch,
    AlreadyExists,
    PluginNotFound,
    InvalidAbi,
    Unknown,
}

/// An error: where it happened and what happened.
#[derive(Copy, Clone, Debug, PartialEq, Eq, Structural, Hash)]
pub struct Error(pub ErrorOrigin, pub ErrorKind);

/// Position of an origin in declaration order.
pub open spec fn origin_code(o: ErrorOrigin) -> int {
    match o {
        ErrorOrigin::Backend => 0,
        ErrorOrigin::Node => 1,
        ErrorOrigin::Leaf => 2,
        ErrorOrigin::Branch => 3,
        ErrorOrigin::Read => 4,
        ErrorOrigin::Write => 5,
        ErrorOrigin::Rpc => 6,
        ErrorOrigin::Io => 7,
        ErrorOrigin::Other => 8,
    }
}

/// The origin at a position in declaration order (`Other` past the end).
pub open spec fn origin_of_code(c: int) -> ErrorOrigin {
    if c == 0 {
        ErrorOrigin::Backend
    } else if c == 1 {
        ErrorOrigin::Node
    } else if c == 2 {
        ErrorOrigin::Leaf
    } else if c == 3 {
        ErrorOrigin::Branch
    } else if c == 4 {
        ErrorOrigin::Read
    } else if c == 5 {
        ErrorOrigin::Write
    } else if c == 6 {
        ErrorOrigin::Rpc
    } else if c == 7 {
        ErrorOrigin::Io
    } else {
        ErrorOrigin::Other
    }
}

/// Position of a kind in declaration order.
pub open spec fn kind_code(k: ErrorKind) -> int {
    match k {
        ErrorKind::Uninitialized => 0,
        ErrorKind::NotSupported => 1,
        ErrorKind::NotImplemented => 2,
        ErrorKind::Configuration => 3,
        ErrorKind::Offset => 4,
        ErrorKind::InvalidArgument => 5,
        ErrorKind::NotFound => 6,
        ErrorKind::OutOfBounds => 7,
        ErrorKind::InvalidPath => 8,
        ErrorKind::ReadOnly => 9,
        ErrorKind::UnableToReadDir => 10,
        ErrorKind::UnableToReadDirEntry => 11,
        ErrorKind::UnableToReadFile => 12,
        ErrorKind::UnableToCreateDirectory => 13,
        ErrorKind::UnableToWriteFile => 14,
        ErrorKind::UnableToSeekFile => 15,
        ErrorKind::VersionMismatch => 16,
        ErrorKind::AlreadyExists => 17,
        ErrorKind::PluginNotFound => 18,
        ErrorKind::InvalidAbi => 19,
        ErrorKind::Unknown => 20,
    }
}

/// The kind at a position in declaration order (`Unknown` past the end).
pub open spec fn kind_of_code(c: int) -> ErrorKind {
    if c == 0 {
        ErrorKind::Uninitialized
    } else if c == 1 {
        ErrorKind::NotSupported
    } else if c == 2 {
        ErrorKind::NotImplemented
    } else if c == 3 {
        ErrorKind::Configuration
    } else if c == 4 {
        ErrorKind::Offset
    } else if c == 5 {
        ErrorKind::InvalidArgument
    } else if c == 6 {
        ErrorKind::NotFound
    } else if c == 7 {
        ErrorKind::OutOfBounds
    } else if c == 8 {
        ErrorKind::InvalidPath
    } else if c == 9 {
        ErrorKind::ReadOnly
    } else if c == 10 {
        ErrorKind::UnableToReadDir
    } else if c == 11 {
        ErrorKind::UnableToReadDirEntry
    } else if c == 12 {
        ErrorKind::UnableToReadFile
    } else if c == 13 {
        ErrorKind::UnableToCreateDirectory
    } else if c == 14 {
        ErrorKind::UnableToWriteFile
    } else if c == 15 {
        ErrorKind::UnableToSeekFile
    } else if c == 16 {
        ErrorKind::VersionMismatch
    } else if c == 17 {
        ErrorKind::AlreadyExists
    } else if c == 18 {
        ErrorKind::PluginNotFound
    } else if c == 19 {
        ErrorKind::InvalidAbi
    } else {
        ErrorKind::Unknown
    }
}

/// The text of an origin.
pub open spec fn origin_text(o: ErrorOrigin) -> Seq<char> {
    match o {
        ErrorOrigin::Backend => "backend"@,
        ErrorOrigin::Node => "node"@,
        ErrorOrigin::Leaf => "leaf"@,
        ErrorOrigin::Branch => "branch"@,
        ErrorOrigin::Read => "read"@,
        ErrorOrigin::Write => "write"@,
        ErrorOrigin::Rpc => "rpc"@,
        ErrorOrigin::Io => "io"@,
        ErrorOrigin::Other => "other"@,
    }
}

/// The text of a kind.
pub open spec fn kind_text(k: ErrorKind) -> Seq<char> {
    match k {
        ErrorKind::Uninitialized => "unitialized"@,
        ErrorKind::NotSupported => "not supported"@,
        ErrorKind::NotImplemented => "not implemented"@,
        ErrorKind::Configuration => "configuration error"@,
        ErrorKind::Offset => "offset error"@,
        ErrorKind::InvalidArgument => "invalid argument passed"@,
        ErrorKind::NotFound => "not found"@,
        ErrorKind::OutOfBounds => "out of bounds"@,
        ErrorKind::InvalidPath => "invalid path"@,
        ErrorKind::ReadOnly => "trying to write to a read only resource"@,
        ErrorKind::UnableToReadDir => "unable to read directory"@,
        ErrorKind::UnableToReadDirEntry => "unable to read directory entry"@,
        ErrorKind::UnableToReadFile => "unable to read file"@,
        ErrorKind::UnableToCreateDirectory => "unable to create directory"@,
        ErrorKind::UnableToWriteFile => "unable to write file"@,
        ErrorKind::UnableToSeekFile => "unable to seek file"@,
        ErrorKind::VersionMismatch => "version mismatch"@,
        ErrorKind::AlreadyExists => "already exists"@,
        ErrorKind::PluginNotFound => "plugin not found"@,
        ErrorKind::InvalidAbi => "invalid plugin ABI"@,
        ErrorKind::Unknown => "unknown error"@,
    }
}

/// The integer an error is encoded as: `-(1 + (origin + 1) * 16 + (kind + 1) * 65536)`.
pub open spec fn int_err_of(e: Error) -> int {
    -(1 + (origin_code(e.0) + 1) * 16 + (kind_code(e.1) + 1) * 65536)
}

/// The origin field read back out of an encoded error.
pub open spec fn origin_field(err: i32) -> i32 {
    (((-err - 1) as i32) >> 4i32) & 0xFFFi32
}

/// The kind field read back out of an encoded error.
pub open spec fn kind_field(err: i32) -> i32 {
    (((-err - 1) as i32) >> 16i32) & 0xFFFi32
}

/// The error an integer decodes to; fields out of range decode to `Other` / `Unknown`.
pub open spec fn error_of_int(err: i32) -> Error {
    let o = origin_field(err);
    let k = kind_field(err);
    Error(
        if 0 < o && o <= 9 { origin_of_code(o - 1) } else { ErrorOrigin::Other },
        if 0 < k && k <= 21 { kind_of_code(k - 1) } else { ErrorKind::Unknown },
    )
}

impl ErrorOrigin {
    /// Returns a static string representing the origin.
    pub fn to_str(self) -> (s: &'static str)
        ensures
            s@ == origin_text(self),
    {
        match self {
            ErrorOrigin::Backend => "backend",
            ErrorOrigin::Node => "node",
            ErrorOrigin::Leaf => "leaf",
            ErrorOrigin::Branch => "branch",
            ErrorOrigin::Read => "read",
            ErrorOrigin::Write => "write",
            ErrorOrigin::Rpc => "rpc",
            ErrorOrigin::Io => "io",
            ErrorOrigin::Other => "other",
        }
    }

    /// Position in declaration order.
    pub fn code(self) -> (c: i32)
        ensures
            c == origin_code(self),
    {
        match self {
            ErrorOrigin::Backend => 0,
            ErrorOrigin::Node => 1,
            ErrorOrigin::Leaf => 2,
            ErrorOrigin::Branch => 3,
            ErrorOrigin::Read => 4,
            ErrorOrigin::Write => 5,
            ErrorOrigin::Rpc => 6,
            ErrorOrigin::Io => 7,
            ErrorOrigin::Other => 8,
        }
    }

    /// The origin at a position in declaration order; `Other` for any other position.
    pub fn from_code(c: i32) -> (o: ErrorOrigin)
        ensures
            o == origin_of_code(c as int),
    {
        if c == 0 {
            ErrorOrigin::Backend
        } else if c == 1 {
            ErrorOrigin::Node
        } else if c == 2 {
            ErrorOrigin::Leaf
        } else if c == 3 {
            ErrorOrigin::Branch
        } else if c == 4 {
            ErrorOrigin::Read
        } else if c == 5 {
            ErrorOrigin::Write
        } else if c == 6 {
            ErrorOrigin::Rpc
        } else if c == 7 {
            ErrorOrigin::Io
        } else {
            ErrorOrigin::Other
        }
    }
}

impl ErrorKind {
    /// Returns a static string representing the type of error.
    pub fn to_str(self) -> (s: &'static str)
        ensures
            s@ == kind_text(self),
    {
        match self {
            ErrorKind::Uninitialized => "unitialized",
            ErrorKind::NotSupported => "not supported",
            ErrorKind::NotImplemented => "not implemented",
            ErrorKind::Configuration => "configuration error",
            ErrorKind::Offset => "offset error",
            ErrorKind::InvalidArgument => "invalid argument passed",
            ErrorKind::NotFound => "not found",
            ErrorKind::OutOfBounds => "out of bounds",
            ErrorKind::InvalidPath => "invalid path",
            ErrorKind::ReadOnly => "trying to write to a read only resource",
            ErrorKind::UnableToReadDir => "unable to read directory",
            ErrorKind::UnableToReadDirEntry => "unable to read directory entry",
            ErrorKind::UnableToReadFile => "unable to read file",
            ErrorKind::UnableToCreateDirectory => "unable to create directory",
            ErrorKind::UnableToWriteFile => "unable to write file",
            ErrorKind::UnableToSeekFile => "unable to seek file",
            ErrorKind::VersionMismatch => "version mismatch",
            ErrorKind::AlreadyExists => "already exists",
            ErrorKind::PluginNotFound => "plugin not found",
            ErrorKind::InvalidAbi => "invalid plugin ABI",
            ErrorKind::Unknown => "unknown error",
        }
    }

    /// Position in declaration order.
    pub fn code(self) -> (c: i32)
        ensures
            c == kind_code(self),
    {
        match self {
            ErrorKind::Uninitialized => 0,
            ErrorKind::NotSupported => 1,
            ErrorKind::NotImplemented => 2,
            ErrorKind::Configuration => 3,
            ErrorKind::Offset => 4,
            ErrorKind::InvalidArgument => 5,
            ErrorKind::NotFound => 6,
            ErrorKind::OutOfBounds => 7,
            ErrorKind::InvalidPath => 8,
            ErrorKind::ReadOnly => 9,
            ErrorKind::UnableToReadDir => 10,
            ErrorKind::UnableToReadDirEntry => 11,
            ErrorKind::UnableToReadFile => 12,
            ErrorKind::UnableToCreateDirectory => 13,
            ErrorKind::UnableToWriteFile => 14,
            ErrorKind::UnableToSeekFile => 15,
            ErrorKind::VersionMismatch => 16,
            ErrorKind::AlreadyExists => 17,
            ErrorKind::PluginNotFound => 18,
            ErrorKind::InvalidAbi => 19,
            ErrorKind::Unknown => 20,
        }
    }

    /// The kind at a position in declaration order; `Unknown` for any other position.
    pub fn from_code(c: i32) -> (k: ErrorKind)
        ensures
            k == kind_of_code(c as int),
    {
        if c == 0 {
            ErrorKind::Uninitialized
        } else if c == 1 {
            ErrorKind::NotSupported
        } else if c == 2 {
            ErrorKind::NotImplemented
        } else if c == 3 {
            ErrorKind::Configuration
        } else if c == 4 {
            ErrorKind::Offset
        } else if c == 5 {
            ErrorKind::InvalidArgument
        } else if c == 6 {
            ErrorKind::NotFound
        } else if c == 7 {
            ErrorKind::OutOfBounds
        } else if c == 8 {
            ErrorKind::InvalidPath
        } else if c == 9 {
            ErrorKind::ReadOnly
        } else if c == 10 {
            ErrorKind::UnableToReadDir
        } else if c == 11 {
            ErrorKind::UnableToReadDirEntry
        } else if c == 12 {
            ErrorKind::UnableToReadFile
        } else if c == 13 {
            ErrorKind::UnableToCreateDirectory
        } else if c == 14 {
            ErrorKind::UnableToWriteFile
        } else if c == 15 {
            ErrorKind::UnableToSeekFile
        } else if c == 16 {
            ErrorKind::VersionMismatch
        } else if c == 17 {
            ErrorKind::AlreadyExists
        } else if c == 18 {
            ErrorKind::PluginNotFound
        } else if c == 19 {
            ErrorKind::InvalidAbi
        } else {
            ErrorKind::Unknown
        }
    }
}

impl Error {
    /// Returns a static string representing the type of error.
    pub fn as_str(&self) -> (s: &'static str)
        ensures
            s@ == kind_text(self.1),
    {
        self.1.to_str()
    }

    /// Returns a static string representing the type of error.
    pub fn into_str(self) -> (s: &'static str)
        ensures
            s@ == kind_text(self.1),
    {
        self.as_str()
    }

    /// The text shown for an error: `"<origin>: <kind>"`.
    pub fn to_display_string(&self) -> (s: String)
        ensures
            s@ == origin_text(self.0) + ": "@ + kind_text(self.1),
    {
        let mut s = String::from_str(self.0.to_str());
        s.append(": ");
        s.append(self.1.to_str());
        s
    }

    /// The error built from an origin alone: its kind is `Unknown`.
    pub fn from_origin(origin: ErrorOrigin) -> (e: Error)
        ensures
            e == Error(origin, ErrorKind::Unknown),
    {
        Error(origin, ErrorKind::Unknown)
    }

    /// The error built from a kind alone: its origin is `Other`.
    pub fn from_kind(kind: ErrorKind) -> (e: Error)
        ensures
            e == Error(ErrorOrigin::Other, kind),
    {
        Error(ErrorOrigin::Other, kind)
    }

    /// The error an I/O failure becomes.
    pub fn io() -> (e: Error)
        ensures
            e == Error(ErrorOrigin::Io, ErrorKind::Unknown),
    {
        Error(ErrorOrigin::Io, ErrorKind::Unknown)
    }

    /// Encodes the error as a negative integer, for transport across plugin boundaries.
    pub fn into_int_err(self) -> (code: i32)
        ensures
            code as int == int_err_of(self),
            code < 0,
    {
        let o1 = self.0.code() + 1;
        let k1 = self.1.code() + 1;
        let origin = (o1 & 0xFFFi32) << 4i32;
        let kind = (k1 & 0xFFFi32) << 16i32;
        assert(origin == o1 * 16) by (bit_vector)
            requires
                1 <= o1 <= 9,
                origin == (o1 & 0xFFFi32) << 4i32,
        ;
        assert(kind == k1 * 65536) by (bit_vector)
            requires
                1 <= k1 <= 21,
                kind == (k1 & 0xFFFi32) << 16i32,
        ;
        -(1 + origin + kind)
    }

    /// Decodes an integer error code. Fields that do not name an origin or a kind
    /// decode to `Other` or `Unknown`.
    pub fn from_int_err(err: i32) -> (e: Error)
        requires
            err != 0,
            err != i32::MIN,
        ensures
            e == error_of_int(err),
    {
        let v: i32 = -err - 1;
        let origin: i32 = (v >> 4i32) & 0xFFFi32;
        let kind: i32 = (v >> 16i32) & 0xFFFi32;
        let error_origin = if origin > 0 && origin <= 9 {
            ErrorOrigin::from_code(origin - 1)
        } else {
            ErrorOrigin::Other
        };
        let error_kind = if kind > 0 && kind <= 21 {
            ErrorKind::from_code(kind - 1)
        } else {
            ErrorKind::Unknown
        };
        Error(error_origin, error_kind)
    }
}

impl From<ErrorOrigin> for Error {
    fn from(origin: ErrorOrigin) -> (e: Error) {
        Error(origin, ErrorKind::Unknown)
    }
}

impl vstd::std_specs::convert::FromSpecImpl<ErrorOrigin> for Error {
    open spec fn obeys_from_spec() -> bool {
        true
    }

    open spec fn from_spec(origin: ErrorOrigin) -> Error {
        Error(origin, ErrorKind::Unknown)
    }
}

impl From<ErrorKind> for Error {
    fn from(kind: ErrorKind) -> (e: Error) {
        Error(ErrorOrigin::Other, kind)
    }
}

impl vstd::std_specs::convert::FromSpecImpl<ErrorKind> for Error {
    open spec fn obeys_from_spec() -> bool {
        true
    }

    open spec fn from_spec(kind: ErrorKind) -> Error {
        Error(ErrorOrigin::Other, kind)
    }
}

/// Law: decoding the encoding of any error gives the error back.
pub proof fn lemma_int_err_round_trip(e: Error)
    ensures
        i32::MIN < int_err_of(e) < 0,
        error_of_int(int_err_of(e) as i32) == e,
{
    let o1 = (origin_code(e.0) + 1) as i32;
    let k1 = (kind_code(e.1) + 1) as i32;
    let v: i32 = (o1 * 16 + k1 * 65536) as i32;
    let err: i32 = int_err_of(e) as i32;
    assert(((-err - 1) as i32) == v);
    assert((v >> 4i32) & 0xFFFi32 == o1) by (bit_vector)
        requires
            1 <= o1 <= 9,
            1 <= k1 <= 21,
            v == o1 * 16 + k1 * 65536,
    ;
    assert((v >> 16i32) & 0xFFFi32 == k1) by (bit_vector)
        requires
            1 <= o1 <= 9,
            1 <= k1 <= 21,
            v == o1 * 16 + k1 * 65536,
    ;
}

/// Law: every error is encoded as a negative integer, so never as the success code 0.
pub proof fn lemma_int_err_negative(e: Error)
    ensures
        int_err_of(e) < 0,
{
}

} // verus!
