//! Reading and writing through open handles: serving reads from an in-memory
//! file, counting how far a single transfer got, and moving a cursor.
use vstd::prelude::*;
use crate::error::{Error, ErrorKind, ErrorOrigin};

verus! {

/// What a read of `len` bytes at `off` gets from a file of `file_len` bytes: how many
/// bytes are copied (from `off`, up to the end of the file), and where the part that
/// lies past the end starts.
pub open spec fn read_split(file_len: nat, off: nat, len: nat) -> (nat, nat) {
    let from = if off < file_len {
        off
    } else {
        file_len
    };
    let avail = (file_len - from) as nat;
    let copied = if avail < len {
        avail
    } else {
        len
    };
    (copied, off + copied)
}

/// How far reading continues after one request: when nothing was copied and nothing
/// was refused it stops; otherwise it continues if a callback that was told something
/// asked to continue (`out_ok` for the copied bytes, `fail_ok` for the refused ones).
pub open spec fn read_continues(copied: nat, refused: nat, out_ok: bool, fail_ok: bool) -> bool {
    (copied > 0 && out_ok) || (refused > 0 && fail_ok)
}

/// Serves one read request from an in-memory file: copies the bytes of `file` from
/// `off` on into the front of `to`, as many as both have. Returns how many bytes were
/// copied; the rest of `to` lies past the end of the file.
pub fn read_from_file(file: &[u8], off: u64, to: &mut [u8]) -> (copied: usize)
    ensures
        final(to)@.len() == old(to)@.len(),
        copied as nat == read_split(file@.len(), off as nat, old(to)@.len()).0,
        final(to)@.take(copied as int) == file@.subrange(
            if off < file@.len() {
                off as int
            } else {
                file@.len() as int
            },
            (if off < file@.len() {
                off as int
            } else {
                file@.len() as int
            }) + copied,
        ),
        final(to)@.skip(copied as int) == old(to)@.skip(copied as int),
{
    let n = file.len();
    let from: usize = if off < n as u64 {
        off as usize
    } else {
        n
    };
    let avail = n - from;
    let tl = to.len();
    let copied = if avail < tl {
        avail
    } else {
        tl
    };
    let mut i: usize = 0;
    while i < copied
        invariant
            i <= copied,
            copied <= tl,
            tl == old(to)@.len(),
            from + copied <= n,
            n == file@.len(),
            to@.len() == tl,
            to@.take(i as int) == file@.subrange(from as int, from + i),
            to@.skip(i as int) == old(to)@.skip(i as int),
        decreases copied - i,
    {
        let b = file[from + i];
        let ghost prev = to@;
        to[i] = b;
        proof {
            assert(to@.take(i + 1) =~= file@.subrange(from as int, from + i + 1));
            assert forall|k: int| 0 <= k < to@.len() - (i + 1) implies #[trigger] to@.skip(i + 1)[k] == old(
                to,
            )@.skip(i + 1)[k] by {
                assert(prev.skip(i as int)[k + 1] == old(to)@.skip(i as int)[k + 1]);
            }
            assert(to@.skip(i + 1) =~= old(to)@.skip(i + 1));
        }
        i = i + 1;
    }
    copied
}

/// Whether reading goes on after a request; see [`read_continues`].
pub fn continue_after_request(copied: usize, refused: usize, out_ok: bool, fail_ok: bool) -> (b:
    bool)
    ensures
        b == read_continues(copied as nat, refused as nat, out_ok, fail_ok),
{
    let mut cont = false;
    if copied > 0 {
        cont = out_ok;
    }
    if refused > 0 {
        cont = fail_ok || cont;
    }
    cont
}

/// The error a read reports when a callback asks to stop.
pub fn read_stopped() -> (e: Error)
    ensures
        e == Error(ErrorOrigin::Read, ErrorKind::Unknown),
{
    Error(ErrorOrigin::Read, ErrorKind::Unknown)
}

/// The error a refused part of a read is reported with: it lies past the end of the file.
pub fn read_out_of_bounds() -> (e: Error)
    ensures
        e == Error(ErrorOrigin::Read, ErrorKind::OutOfBounds),
{
    Error(ErrorOrigin::Read, ErrorKind::OutOfBounds)
}

/// Where the results of a read go, request by request. Each call returns whether the
/// read should go on.
pub trait ReadSink: Sized {
    /// `out(off, data)` may answer `go` and leave the sink (`self` before) as `fin`. An
    /// implementation says which answers and changes it makes; by default nothing is said.
    open spec fn takes_out(&self, fin: &Self, off: u64, data: Seq<u8>, go: bool) -> bool {
        true
    }

    /// `out_fail(off, len, err)` may answer `go` and leave the sink (`self` before) as
    /// `fin`. By default nothing is said.
    open spec fn takes_fail(&self, fin: &Self, off: u64, len: usize, err: Error, go: bool) -> bool {
        true
    }

    /// Receives the bytes read at an address.
    fn out(&mut self, off: u64, data: &[u8]) -> (go: bool)
        ensures
            old(self).takes_out(&*final(self), off, data@, go),
    ;

    /// Receives a part of a request that could not be read, with the reason.
    fn out_fail(&mut self, off: u64, len: usize, err: Error) -> (go: bool)
        ensures
            old(self).takes_fail(&*final(self), off, len, err, go),
    ;
}

/// An opened file, implemented by plugins: it serves read requests `(offset, length)`,
/// handing what it reads to a sink.
pub trait FileObj: Sized {
    /// Reading `reqs` into a sink that goes from `s0` to `s1` may give `r`. An
    /// implementation says which results it gives; by default nothing is said.
    open spec fn gives_read<S: ReadSink>(&self, reqs: Seq<(u64, usize)>, s0: S, s1: S, r: Result<(), Error>) -> bool {
        true
    }

    /// Serves read requests, handing the results to `sink`.
    fn read<S: ReadSink>(&self, reqs: &Vec<(u64, usize)>, sink: &mut S) -> (r: Result<(), Error>)
        requires
            forall|k: int| 0 <= k < reqs@.len() ==> reqs@[k].0 + reqs@[k].1 <= u64::MAX,
        ensures
            self.gives_read(reqs@, *old(sink), *final(sink), r),
    ;
}

/// Where the bytes a request `(off, len)` gets start in a file of `file_len` bytes.
pub open spec fn read_from(file_len: nat, off: u64) -> int {
    if off < file_len {
        off as int
    } else {
        file_len as int
    }
}

/// Serving one request `(off, len)` from `file` takes the sink from `s` through `mid` to
/// `t`: the bytes the file has there (if any) go to `out`, answered `a_out`, then the part
/// past the end of the file (if any) goes to `out_fail` as out of bounds, answered
/// `a_fail`.
pub open spec fn serves_request<S: ReadSink>(
    file: Seq<u8>,
    req: (u64, usize),
    s: S,
    mid: S,
    t: S,
    a_out: bool,
    a_fail: bool,
) -> bool {
    let (off, len) = req;
    let copied = read_split(file.len(), off as nat, len as nat).0;
    let refused = len - copied;
    let from = read_from(file.len(), off);
    &&& if copied > 0 {
        s.takes_out(&mid, off, file.subrange(from, from + copied), a_out)
    } else {
        mid == s
    }
    &&& if refused > 0 {
        mid.takes_fail(
            &t,
            (off + copied) as u64,
            refused as usize,
            Error(ErrorOrigin::Read, ErrorKind::OutOfBounds),
            a_fail,
        )
    } else {
        t == mid
    }
}

/// Whether reading goes on after request `req`, given the answers of the sink.
pub open spec fn request_continues(file: Seq<u8>, req: (u64, usize), a_out: bool, a_fail: bool) -> bool {
    let copied = read_split(file.len(), req.0 as nat, req.1 as nat).0;
    let refused = req.1 - copied;
    read_continues(copied, refused as nat, copied > 0 && a_out, refused > 0 && a_fail)
}

/// The first `mid.len()` requests were served in order, the sink going through the
/// states `st` (`st[i]` before request `i`, `mid[i]` between its two calls) with answers
/// `ao` and `af`, and reading went on after every request but the last one served.
pub open spec fn serves<S: ReadSink>(
    file: Seq<u8>,
    reqs: Seq<(u64, usize)>,
    st: Seq<S>,
    mid: Seq<S>,
    ao: Seq<bool>,
    af: Seq<bool>,
) -> bool {
    &&& st.len() == mid.len() + 1
    &&& ao.len() == mid.len()
    &&& af.len() == mid.len()
    &&& mid.len() <= reqs.len()
    &&& forall|i: int|
        0 <= i < mid.len() ==> #[trigger] serves_request(
            file,
            reqs[i],
            st[i],
            mid[i],
            st[i + 1],
            ao[i],
            af[i],
        )
    &&& forall|i: int|
        0 <= i < mid.len() - 1 ==> #[trigger] request_continues(file, reqs[i], ao[i], af[i])
}

/// Reading stopped after the last request served.
pub open spec fn serve_stopped(
    file: Seq<u8>,
    reqs: Seq<(u64, usize)>,
    mid_len: nat,
    ao: Seq<bool>,
    af: Seq<bool>,
) -> bool {
    mid_len > 0 && !request_continues(
        file,
        reqs[mid_len - 1],
        ao[mid_len - 1],
        af[mid_len - 1],
    )
}

/// Serves a list of read requests `(offset, length)` from an in-memory file. For each
/// request the bytes the file has there are handed to `sink.out` and the part past the
/// end of the file to `sink.out_fail` (as out of bounds); reading stops with an error
/// when no call made for a request asked to go on (so always at an empty request), and
/// succeeds when every request was served.
pub fn read_file_requests<S: ReadSink>(file: &[u8], requests: &Vec<(u64, usize)>, sink: &mut S) -> (res: Result<(), Error>)
    requires
        forall|k: int| 0 <= k < requests@.len() ==> requests@[k].0 + requests@[k].1 <= u64::MAX,
    ensures
        exists|st: Seq<S>, mid: Seq<S>, ao: Seq<bool>, af: Seq<bool>|
            #[trigger] serves(file@, requests@, st, mid, ao, af) && {
                &&& st[0] == *old(sink)
                &&& st.last() == *final(sink)
                &&& if serve_stopped(file@, requests@, mid.len(), ao, af) {
                    res == Err::<(), Error>(Error(ErrorOrigin::Read, ErrorKind::Unknown))
                } else {
                    res is Ok && mid.len() == requests@.len()
                }
            },
{
    let ghost mut st: Seq<S> = seq![*sink];
    let ghost mut mid: Seq<S> = Seq::empty();
    let ghost mut ao: Seq<bool> = Seq::empty();
    let ghost mut af: Seq<bool> = Seq::empty();
    let mut k: usize = 0;
    while k < requests.len()
        invariant
            k <= requests.len(),
            forall|j: int| 0 <= j < requests@.len() ==> requests@[j].0 + requests@[j].1 <= u64::MAX,
            serves(file@, requests@, st, mid, ao, af),
            mid.len() == k,
            st[0] == *old(sink),
            st.last() == *sink,
            !serve_stopped(file@, requests@, mid.len(), ao, af),
        decreases requests.len() - k,
    {
        let (off, len) = requests[k];
        let mut buf: Vec<u8> = Vec::new();
        let mut z: usize = 0;
        while z < len
            invariant
                z <= len,
                buf@.len() == z,
            decreases len - z,
        {
            buf.push(0u8);
            z = z + 1;
        }
        let copied = read_from_file(file, off, buf.as_mut_slice());
        let refused = len - copied;
        let mut out_ok = false;
        let mut fail_ok = false;
        let ghost mut a_out = false;
        let ghost mut a_fail = false;
        if copied > 0 {
            let data = slice_prefix(buf.as_slice(), copied);
            out_ok = sink.out(off, data);
            proof {
                a_out = out_ok;
            }
        }
        let ghost s1 = *sink;
        if refused > 0 {
            fail_ok = sink.out_fail(off + copied as u64, refused, read_out_of_bounds());
            proof {
                a_fail = fail_ok;
            }
        }
        proof {
            let ghost st0 = st;
            let ghost mid0 = mid;
            let ghost ao0 = ao;
            let ghost af0 = af;
            st = st.push(*sink);
            mid = mid.push(s1);
            ao = ao.push(a_out);
            af = af.push(a_fail);
            assert(serves_request(file@, requests@[k as int], st[k as int], mid[k as int], st[k + 1], ao[k as int], af[k as int]));
            assert forall|i: int| 0 <= i < mid.len() implies #[trigger] serves_request(
                file@,
                requests@[i],
                st[i],
                mid[i],
                st[i + 1],
                ao[i],
                af[i],
            ) by {
                if i < k {
                    assert(serves_request(file@, requests@[i], st0[i], mid0[i], st0[i + 1], ao0[i], af0[i]));
                }
            }
            assert forall|i: int| 0 <= i < mid.len() - 1 implies #[trigger] request_continues(
                file@,
                requests@[i],
                ao[i],
                af[i],
            ) by {
                if i < k - 1 {
                    assert(request_continues(file@, requests@[i], ao0[i], af0[i]));
                } else {
                    assert(!serve_stopped(file@, requests@, mid0.len(), ao0, af0));
                }
            }
            assert(serves(file@, requests@, st, mid, ao, af));
        }
        if !continue_after_request(copied, refused, out_ok, fail_ok) {
            proof {
                assert(serve_stopped(file@, requests@, mid.len(), ao, af));
            }
            return Err(read_stopped());
        }
        k = k + 1;
    }
    proof {
        assert(serves(file@, requests@, st, mid, ao, af));
    }
    Ok(())
}

/// The first `n` elements of a slice.
fn slice_prefix(s: &[u8], n: usize) -> (r: &[u8])
    requires
        n <= s@.len(),
    ensures
        r@ == s@.take(n as int),
{
    vstd::slice::slice_subrange(s, 0, n)
}

/// The largest end address (`offset + length`) of the successful parts of a transfer.
pub open spec fn max_end(done: Seq<(u64, u64)>) -> Option<int>
    decreases done.len(),
{
    if done.len() == 0 {
        None
    } else {
        let e = done.last().0 + done.last().1;
        match max_end(done.drop_last()) {
            Some(m) => Some(if m < e {
                e
            } else {
                m
            }),
            None => Some(e),
        }
    }
}

/// The smallest start address of the failed parts of a transfer.
pub open spec fn min_start(failed: Seq<u64>) -> Option<int>
    decreases failed.len(),
{
    if failed.len() == 0 {
        None
    } else {
        let s = failed.last() as int;
        match min_start(failed.drop_last()) {
            Some(m) => Some(if s < m {
                s
            } else {
                m
            }),
            None => Some(s),
        }
    }
}

/// How many bytes of a transfer of `len` bytes at `off` count as done: up to the end of
/// the furthest successful part (all of it if no part was reported), but not past the
/// start of the first failed part.
pub open spec fn transfer_progress(off: u64, len: u64, done: Seq<(u64, u64)>, failed: Seq<u64>) -> int {
    let maxio = match max_end(done) {
        Some(m) => m,
        None => off + len,
    };
    let lr = match min_start(failed) {
        Some(m) => if m < maxio {
            m
        } else {
            maxio
        },
        None => maxio,
    };
    lr - off
}

/// How far a single transfer of `len` bytes at `off` got, from the parts the other side
/// reported as done (`(offset, length)`) and as failed (offsets).
pub fn single_io_progress(off: u64, len: u64, done: &Vec<(u64, u64)>, failed: &Vec<u64>) -> (n:
    u64)
    requires
        off + len <= u64::MAX,
        forall|i: int| 0 <= i < done@.len() ==> done@[i].0 + done@[i].1 <= u64::MAX,
        0 <= transfer_progress(off, len, done@, failed@),
    ensures
        n as int == transfer_progress(off, len, done@, failed@),
{
    let mut last_max: Option<u64> = None;
    let mut i: usize = 0;
    while i < done.len()
        invariant
            i <= done.len(),
            forall|k: int| 0 <= k < done@.len() ==> done@[k].0 + done@[k].1 <= u64::MAX,
            match (last_max, max_end(done@.take(i as int))) {
                (Some(a), Some(b)) => a == b,
                (None, None) => true,
                _ => false,
            },
        decreases done.len() - i,
    {
        let e = done[i].0 + done[i].1;
        last_max = match last_max {
            Some(m) => Some(if m < e {
                e
            } else {
                m
            }),
            None => Some(e),
        };
        proof {
            let t = done@.take(i + 1);
            assert(t.drop_last() =~= done@.take(i as int));
            assert(t.last() == done@[i as int]);
        }
        i = i + 1;
    }
    let mut last_min: Option<u64> = None;
    let mut j: usize = 0;
    while j < failed.len()
        invariant
            j <= failed.len(),
            match (last_min, min_start(failed@.take(j as int))) {
                (Some(a), Some(b)) => a == b,
                (None, None) => true,
                _ => false,
            },
        decreases failed.len() - j,
    {
        let s = failed[j];
        last_min = match last_min {
            Some(m) => Some(if s < m {
                s
            } else {
                m
            }),
            None => Some(s),
        };
        proof {
            let t = failed@.take(j + 1);
            assert(t.drop_last() =~= failed@.take(j as int));
            assert(t.last() == failed@[j as int]);
        }
        j = j + 1;
    }
    assert(done@.take(done.len() as int) =~= done@);
    assert(failed@.take(failed.len() as int) =~= failed@);
    let maxio = match last_max {
        Some(m) => m,
        None => off + len,
    };
    let lr = match last_min {
        Some(m) => if m < maxio {
            m
        } else {
            maxio
        },
        None => maxio,
    };
    lr - off
}

/// Where a seek moves a cursor.
#[derive(Copy, Clone, Debug, PartialEq, Eq, Structural)]
pub enum SeekFrom {
    /// To an absolute position.
    Start(u64),
    /// Relative to the end (not supported).
    End(i64),
    /// Relative to the current position.
    Current(i64),
}

/// A position in the object behind an open handle.
pub struct ObjCursor {
    pub handle: usize,
    pub pos: u64,
}

/// Whether a seek can be carried out from `pos` without leaving the `u64` range.
pub open spec fn seek_in_range(pos: u64, s: SeekFrom) -> bool {
    match s {
        SeekFrom::Current(v) => if v >= 0 {
            pos + v <= u64::MAX
        } else {
            v != i64::MIN && pos + v >= 0
        },
        _ => true,
    }
}

impl ObjCursor {
    /// A cursor at the start of an open handle.
    pub fn new(handle: usize) -> (c: ObjCursor)
        ensures
            c.handle == handle,
            c.pos == 0,
    {
        ObjCursor { handle, pos: 0 }
    }

    /// A cursor at a given position of an open handle.
    pub fn at(handle: usize, pos: u64) -> (c: ObjCursor)
        ensures
            c.handle == handle,
            c.pos == pos,
    {
        ObjCursor { handle, pos }
    }

    /// Moves the cursor. Seeking relative to the end is not supported: it is an
    /// input/output error (of unknown kind) and leaves the cursor where it was.
    pub fn seek(&mut self, s: SeekFrom) -> (res: Result<u64, Error>)
        requires
            seek_in_range(old(self).pos, s),
        ensures
            final(self).handle == old(self).handle,
            match s {
                SeekFrom::Start(v) => final(self).pos == v && res == Ok::<u64, Error>(v),
                SeekFrom::Current(v) => final(self).pos == old(self).pos + v && res == Ok::<
                    u64,
                    Error,
                >(final(self).pos),
                SeekFrom::End(_) => final(self).pos == old(self).pos && res == Err::<u64, Error>(
                    Error(ErrorOrigin::Io, ErrorKind::Unknown),
                ),
            },
    {
        match s {
            SeekFrom::Start(v) => {
                self.pos = v;
                Ok(v)
            },
            SeekFrom::Current(v) => {
                if v >= 0 {
                    self.pos = self.pos + v as u64;
                } else {
                    self.pos = self.pos - (-v) as u64;
                }
                Ok(self.pos)
            },
            SeekFrom::End(_) => Err(Error(ErrorOrigin::Io, ErrorKind::Unknown)),
        }
    }

    /// Moves the cursor past `n` bytes that were transferred.
    pub fn advance(&mut self, n: u64)
        requires
            old(self).pos + n <= u64::MAX,
        ensures
            final(self).handle == old(self).handle,
            final(self).pos == old(self).pos + n,
    {
        self.pos = self.pos + n;
    }
}

/// Law: seeking forward and back by the same amount returns the cursor to where it was.
pub proof fn lemma_seek_there_and_back(pos: u64, v: i64)
    requires
        v > i64::MIN,
        seek_in_range(pos, SeekFrom::Current(v)),
    ensures
        seek_in_range((pos + v) as u64, SeekFrom::Current(-v as i64)),
        (pos + v) + (-v) == pos,
{
}

} // verus!
