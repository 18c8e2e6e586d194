//! The byte protocol spoken between a remote filesystem client and server.
//!
//! A read request is the command byte, the file handle, and a list of
//! `(address, size)` pairs ended by a pair of size zero. The server answers with
//! frames: data frames carrying the bytes read at an address, failure frames
//! naming an address range and an error code, and a final frame with the overall
//! result. All integers are little endian.
use vstd::prelude::*;

verus! {

/// The operations a client can ask a server for, by command byte.
#[derive(Copy, Clone, Debug, PartialEq, Eq, Structural)]
pub enum FrontendFuncs {
    Read,
    Write,
    Rpc,
    Close,
    Open,
    Metadata,
    List,
    Highest,
}

/// The command byte of an operation.
pub open spec fn func_code(f: FrontendFuncs) -> u8 {
    match f {
        FrontendFuncs::Read => 0,
        FrontendFuncs::Write => 1,
        FrontendFuncs::Rpc => 2,
        FrontendFuncs::Close => 3,
        FrontendFuncs::Open => 4,
        FrontendFuncs::Metadata => 5,
        FrontendFuncs::List => 6,
        FrontendFuncs::Highest => 7,
    }
}

impl FrontendFuncs {
    /// The command byte of this operation.
    pub fn code(self) -> (c: u8)
        ensures
            c == func_code(self),
    {
        match self {
            FrontendFuncs::Read => 0,
            FrontendFuncs::Write => 1,
            FrontendFuncs::Rpc => 2,
            FrontendFuncs::Close => 3,
            FrontendFuncs::Open => 4,
            FrontendFuncs::Metadata => 5,
            FrontendFuncs::List => 6,
            FrontendFuncs::Highest => 7,
        }
    }

    /// The operation a command byte asks for; bytes at or past `Highest` ask for none.
    pub fn from_code(c: u8) -> (f: Option<FrontendFuncs>)
        ensures
            c < 7 ==> f is Some && func_code(f.unwrap()) == c,
            c >= 7 ==> f is None,
    {
        if c == 0 {
            Some(FrontendFuncs::Read)
        } else if c == 1 {
            Some(FrontendFuncs::Write)
        } else if c == 2 {
            Some(FrontendFuncs::Rpc)
        } else if c == 3 {
            Some(FrontendFuncs::Close)
        } else if c == 4 {
            Some(FrontendFuncs::Open)
        } else if c == 5 {
            Some(FrontendFuncs::Metadata)
        } else if c == 6 {
            Some(FrontendFuncs::List)
        } else {
            None
        }
    }
}

/// The eight little-endian bytes of a `u64`.
pub open spec fn le8(v: u64) -> Seq<u8> {
    seq![
        v as u8,
        (v >> 8u64) as u8,
        (v >> 16u64) as u8,
        (v >> 24u64) as u8,
        (v >> 32u64) as u8,
        (v >> 40u64) as u8,
        (v >> 48u64) as u8,
        (v >> 56u64) as u8,
    ]
}

/// The `u64` whose little-endian bytes start `b`.
pub open spec fn from_le8(b: Seq<u8>) -> u64 {
    (b[0] as u64) | ((b[1] as u64) << 8u64) | ((b[2] as u64) << 16u64) | ((b[3] as u64) << 24u64)
        | ((b[4] as u64) << 32u64) | ((b[5] as u64) << 40u64) | ((b[6] as u64) << 48u64) | ((
    b[7] as u64) << 56u64)
}

/// The four little-endian bytes of an `i32`.
pub open spec fn le4(v: i32) -> Seq<u8> {
    let u = v as u32;
    seq![u as u8, (u >> 8u32) as u8, (u >> 16u32) as u8, (u >> 24u32) as u8]
}

/// The `i32` whose little-endian bytes start `b`.
pub open spec fn from_le4(b: Seq<u8>) -> i32 {
    ((b[0] as u32) | ((b[1] as u32) << 8u32) | ((b[2] as u32) << 16u32) | ((b[3] as u32)
        << 24u32)) as i32
}

/// Law: the bytes of a `u64` read back as the same `u64`.
pub proof fn lemma_le8_round_trip(v: u64)
    ensures
        le8(v).len() == 8,
        from_le8(le8(v)) == v,
{
    let b0 = v as u8;
    let b1 = (v >> 8u64) as u8;
    let b2 = (v >> 16u64) as u8;
    let b3 = (v >> 24u64) as u8;
    let b4 = (v >> 32u64) as u8;
    let b5 = (v >> 40u64) as u8;
    let b6 = (v >> 48u64) as u8;
    let b7 = (v >> 56u64) as u8;
    assert((b0 as u64) | ((b1 as u64) << 8u64) | ((b2 as u64) << 16u64) | ((b3 as u64) << 24u64)
        | ((b4 as u64) << 32u64) | ((b5 as u64) << 40u64) | ((b6 as u64) << 48u64) | ((b7 as u64)
        << 56u64) == v) by (bit_vector)
        requires
            b0 == v as u8,
            b1 == (v >> 8u64) as u8,
            b2 == (v >> 16u64) as u8,
            b3 == (v >> 24u64) as u8,
            b4 == (v >> 32u64) as u8,
            b5 == (v >> 40u64) as u8,
            b6 == (v >> 48u64) as u8,
            b7 == (v >> 56u64) as u8,
    ;
}

/// Law: the bytes of an `i32` read back as the same `i32`.
pub proof fn lemma_le4_round_trip(v: i32)
    ensures
        le4(v).len() == 4,
        from_le4(le4(v)) == v,
{
    let u = v as u32;
    let b0 = u as u8;
    let b1 = (u >> 8u32) as u8;
    let b2 = (u >> 16u32) as u8;
    let b3 = (u >> 24u32) as u8;
    assert((b0 as u32) | ((b1 as u32) << 8u32) | ((b2 as u32) << 16u32) | ((b3 as u32) << 24u32)
        == u) by (bit_vector)
        requires
            b0 == u as u8,
            b1 == (u >> 8u32) as u8,
            b2 == (u >> 16u32) as u8,
            b3 == (u >> 24u32) as u8,
    ;
    assert((u as i32) == v) by (bit_vector)
        requires
            u == v as u32,
    ;
}

/// Appends the little-endian bytes of a `u64`.
pub fn put_u64(out: &mut Vec<u8>, v: u64)
    ensures
        final(out)@ == old(out)@ + le8(v),
{
    out.push(v as u8);
    out.push((v >> 8u64) as u8);
    out.push((v >> 16u64) as u8);
    out.push((v >> 24u64) as u8);
    out.push((v >> 32u64) as u8);
    out.push((v >> 40u64) as u8);
    out.push((v >> 48u64) as u8);
    out.push((v >> 56u64) as u8);
    assert(out@ =~= old(out)@ + le8(v));
}

/// Appends the little-endian bytes of an `i32`.
pub fn put_i32(out: &mut Vec<u8>, v: i32)
    ensures
        final(out)@ == old(out)@ + le4(v),
{
    let u = v as u32;
    out.push(u as u8);
    out.push((u >> 8u32) as u8);
    out.push((u >> 16u32) as u8);
    out.push((u >> 24u32) as u8);
    assert(out@ =~= old(out)@ + le4(v));
}

/// Reads a little-endian `u64` at a position.
pub fn get_u64(buf: &[u8], pos: usize) -> (v: u64)
    requires
        pos + 8 <= buf@.len(),
    ensures
        v == from_le8(buf@.subrange(pos as int, pos + 8)),
{
    let ghost b = buf@.subrange(pos as int, pos + 8);
    assert(b[0] == buf@[pos as int] && b[1] == buf@[pos + 1] && b[2] == buf@[pos + 2] && b[3]
        == buf@[pos + 3] && b[4] == buf@[pos + 4] && b[5] == buf@[pos + 5] && b[6] == buf@[pos
        + 6] && b[7] == buf@[pos + 7]);
    (buf[pos] as u64) | ((buf[pos + 1] as u64) << 8u64) | ((buf[pos + 2] as u64) << 16u64) | ((
    buf[pos + 3] as u64) << 24u64) | ((buf[pos + 4] as u64) << 32u64) | ((buf[pos + 5] as u64)
        << 40u64) | ((buf[pos + 6] as u64) << 48u64) | ((buf[pos + 7] as u64) << 56u64)
}

/// Reads a little-endian `i32` at a position.
pub fn get_i32(buf: &[u8], pos: usize) -> (v: i32)
    requires
        pos + 4 <= buf@.len(),
    ensures
        v == from_le4(buf@.subrange(pos as int, pos + 4)),
{
    let ghost b = buf@.subrange(pos as int, pos + 4);
    assert(b[0] == buf@[pos as int] && b[1] == buf@[pos + 1] && b[2] == buf@[pos + 2] && b[3]
        == buf@[pos + 3]);
    ((buf[pos] as u32) | ((buf[pos + 1] as u32) << 8u32) | ((buf[pos + 2] as u32) << 16u32) | ((
    buf[pos + 3] as u32) << 24u32)) as i32
}

/// A frame of a server's answer to a read request.
#[derive(Debug, PartialEq, Eq)]
pub enum Frame {
    /// The request is complete; `0` for success, otherwise an encoded error.
    Done(i32),
    /// Bytes read at an address.
    Data(u64, Vec<u8>),
    /// A range (address, length) that failed, with an encoded error.
    Fail(u64, u64, i32),
    /// A tag byte this protocol does not know; it is skipped.
    Unknown(u8),
}

/// A frame as mathematical values.
pub enum FrameView {
    Done(i32),
    Data(u64, Seq<u8>),
    Fail(u64, u64, i32),
    Unknown(u8),
}

impl View for Frame {
    type V = FrameView;

    open spec fn view(&self) -> FrameView {
        match self {
            Frame::Done(e) => FrameView::Done(*e),
            Frame::Data(a, d) => FrameView::Data(*a, d@),
            Frame::Fail(a, l, e) => FrameView::Fail(*a, *l, *e),
            Frame::Unknown(t) => FrameView::Unknown(*t),
        }
    }
}

/// Whether a frame can be sent: data fits a `u64` length, and unknown tags are never sent.
pub open spec fn frame_sendable(f: FrameView) -> bool {
    match f {
        FrameView::Data(_, d) => d.len() <= u64::MAX,
        FrameView::Unknown(_) => false,
        _ => true,
    }
}

/// The bytes of a frame on the wire.
pub open spec fn frame_bytes(f: FrameView) -> Seq<u8> {
    match f {
        FrameView::Done(e) => seq![0u8] + le4(e),
        FrameView::Data(a, d) => seq![1u8] + le8(a) + le8(d.len() as u64) + d,
        FrameView::Fail(a, l, e) => seq![2u8] + le8(a) + le8(l) + le4(e),
        FrameView::Unknown(t) => seq![t],
    }
}

/// The frame at the start of `b` and its length in bytes, or `None` if `b` is empty
/// or holds only part of a frame.
pub open spec fn parse_frame(b: Seq<u8>) -> Option<(FrameView, nat)> {
    if b.len() == 0 {
        None
    } else if b[0] == 0 {
        if b.len() < 5 {
            None
        } else {
            Some((FrameView::Done(from_le4(b.subrange(1, 5))), 5))
        }
    } else if b[0] == 1 {
        if b.len() < 17 {
            None
        } else {
            let a = from_le8(b.subrange(1, 9));
            let l = from_le8(b.subrange(9, 17));
            if b.len() < 17 + l {
                None
            } else {
                Some((FrameView::Data(a, b.subrange(17, 17 + l)), (17 + l) as nat))
            }
        }
    } else if b[0] == 2 {
        if b.len() < 21 {
            None
        } else {
            Some(
                (
                    FrameView::Fail(
                        from_le8(b.subrange(1, 9)),
                        from_le8(b.subrange(9, 17)),
                        from_le4(b.subrange(17, 21)),
                    ),
                    21,
                ),
            )
        }
    } else {
        Some((FrameView::Unknown(b[0]), 1))
    }
}

/// Appends the wire bytes of a frame.
pub fn encode_frame(out: &mut Vec<u8>, f: &Frame)
    requires
        frame_sendable(f@),
    ensures
        final(out)@ == old(out)@ + frame_bytes(f@),
{
    match f {
        Frame::Done(e) => {
            out.push(0u8);
            put_i32(out, *e);
            assert(out@ =~= old(out)@ + frame_bytes(f@));
        },
        Frame::Data(a, d) => {
            out.push(1u8);
            put_u64(out, *a);
            put_u64(out, d.len() as u64);
            let mut i: usize = 0;
            let ghost mid = out@;
            while i < d.len()
                invariant
                    0 <= i <= d.len(),
                    out@ == mid + d@.take(i as int),
                decreases d.len() - i,
            {
                out.push(d[i]);
                assert(d@.take(i + 1) =~= d@.take(i as int).push(d@[i as int]));
                i = i + 1;
            }
            assert(d@.take(d.len() as int) =~= d@);
            assert(out@ =~= old(out)@ + frame_bytes(f@));
        },
        Frame::Fail(a, l, e) => {
            out.push(2u8);
            put_u64(out, *a);
            put_u64(out, *l);
            put_i32(out, *e);
            assert(out@ =~= old(out)@ + frame_bytes(f@));
        },
        Frame::Unknown(t) => {
            out.push(*t);
        },
    }
}

/// Reads the frame that starts at `pos`, with the position just after it; `None` if the
/// bytes from `pos` on hold no complete frame.
pub fn decode_frame(buf: &[u8], pos: usize) -> (res: Option<(Frame, usize)>)
    requires
        pos <= buf@.len(),
    ensures
        match (res, parse_frame(buf@.skip(pos as int))) {
            (Some((f, end)), Some((g, n))) => f@ == g && end == pos + n,
            (None, None) => true,
            _ => false,
        },
{
    let ghost b = buf@.skip(pos as int);
    let n = buf.len();
    if pos >= n {
        return None;
    }
    let tag = buf[pos];
    assert(b[0] == tag);
    if tag == 0 {
        if n - pos < 5 {
            return None;
        }
        let e = get_i32(buf, pos + 1);
        assert(buf@.subrange(pos + 1, pos + 5) =~= b.subrange(1, 5));
        Some((Frame::Done(e), pos + 5))
    } else if tag == 1 {
        if n - pos < 17 {
            return None;
        }
        let a = get_u64(buf, pos + 1);
        let l = get_u64(buf, pos + 9);
        assert(buf@.subrange(pos + 1, pos + 9) =~= b.subrange(1, 9));
        assert(buf@.subrange(pos + 9, pos + 17) =~= b.subrange(9, 17));
        if ((n - pos - 17) as u64) < l {
            return None;
        }
        let start = pos + 17;
        let end = start + l as usize;
        let mut d: Vec<u8> = Vec::new();
        let mut i: usize = start;
        while i < end
            invariant
                start <= i <= end <= n,
                n == buf@.len(),
                d@ == buf@.subrange(start as int, i as int),
            decreases end - i,
        {
            d.push(buf[i]);
            assert(buf@.subrange(start as int, i + 1) =~= buf@.subrange(start as int, i as int).push(
                buf@[i as int],
            ));
            i = i + 1;
        }
        assert(buf@.subrange(start as int, end as int) =~= b.subrange(17, 17 + l));
        Some((Frame::Data(a, d), end))
    } else if tag == 2 {
        if n - pos < 21 {
            return None;
        }
        let a = get_u64(buf, pos + 1);
        let l = get_u64(buf, pos + 9);
        let e = get_i32(buf, pos + 17);
        assert(buf@.subrange(pos + 1, pos + 9) =~= b.subrange(1, 9));
        assert(buf@.subrange(pos + 9, pos + 17) =~= b.subrange(9, 17));
        assert(buf@.subrange(pos + 17, pos + 21) =~= b.subrange(17, 21));
        Some((Frame::Fail(a, l, e), pos + 21))
    } else {
        Some((Frame::Unknown(tag), pos + 1))
    }
}

/// Law: a sent frame, followed by any bytes, is read back as the same frame, and
/// the reader stops exactly at its end.
pub proof fn lemma_frame_round_trip(f: FrameView, rest: Seq<u8>)
    requires
        frame_sendable(f),
    ensures
        parse_frame(frame_bytes(f) + rest) == Some((f, frame_bytes(f).len())),
{
    let b = frame_bytes(f) + rest;
    match f {
        FrameView::Done(e) => {
            lemma_le4_round_trip(e);
            assert(b.subrange(1, 5) =~= le4(e));
        },
        FrameView::Data(a, d) => {
            lemma_le8_round_trip(a);
            lemma_le8_round_trip(d.len() as u64);
            assert(b.subrange(1, 9) =~= le8(a));
            assert(b.subrange(9, 17) =~= le8(d.len() as u64));
            assert(b.subrange(17, 17 + d.len() as int) =~= d);
        },
        FrameView::Fail(a, l, e) => {
            lemma_le8_round_trip(a);
            lemma_le8_round_trip(l);
            lemma_le4_round_trip(e);
            assert(b.subrange(1, 9) =~= le8(a));
            assert(b.subrange(9, 17) =~= le8(l));
            assert(b.subrange(17, 21) =~= le4(e));
        },
        FrameView::Unknown(t) => {},
    }
}

/// The result a final frame reports.
pub open spec fn done_result(err: i32) -> Result<(), crate::error::Error> {
    if err == 0 {
        Ok(())
    } else {
        Err(crate::error::error_of_int(err))
    }
}

/// The result a final frame reports: success for `0`, otherwise the decoded error.
pub fn result_of_done(err: i32) -> (res: Result<(), crate::error::Error>)
    requires
        err != i32::MIN,
    ensures
        res == done_result(err),
{
    if err == 0 {
        Ok(())
    } else {
        Err(crate::error::Error::from_int_err(err))
    }
}

/// The code a final frame carries for a result: `0` for success, otherwise the encoded error.
pub fn done_code(res: Result<(), crate::error::Error>) -> (err: i32)
    ensures
        match res {
            Ok(()) => err == 0,
            Err(e) => err as int == crate::error::int_err_of(e),
        },
{
    match res {
        Ok(()) => 0,
        Err(e) => e.into_int_err(),
    }
}

/// The bytes of a read request: the command byte, the file handle, each
/// `(address, size)` pair, and a closing pair of size zero.
pub open spec fn read_request_bytes(fh: u64, entries: Seq<(u64, u64)>) -> Seq<u8>
    decreases entries.len(),
{
    if entries.len() == 0 {
        seq![0u8] + le8(fh) + le8(0) + le8(0)
    } else {
        let prev = read_request_bytes(fh, entries.drop_last());
        prev.take(prev.len() - 16) + le8(entries.last().0) + le8(entries.last().1) + le8(0) + le8(
            0,
        )
    }
}

proof fn lemma_read_request_len(fh: u64, entries: Seq<(u64, u64)>)
    ensures
        read_request_bytes(fh, entries).len() == 25 + 16 * entries.len(),
    decreases entries.len(),
{
    if entries.len() > 0 {
        lemma_read_request_len(fh, entries.drop_last());
    }
}

/// Appends a read request: command byte, file handle, each pair, and the closing pair.
pub fn encode_read_request(out: &mut Vec<u8>, fh: u64, entries: &Vec<(u64, u64)>)
    ensures
        final(out)@ == old(out)@ + read_request_bytes(fh, entries@),
{
    out.push(0u8);
    put_u64(out, fh);
    let mut i: usize = 0;
    while i < entries.len()
        invariant
            0 <= i <= entries.len(),
            out@ + le8(0) + le8(0) == old(out)@ + read_request_bytes(fh, entries@.take(i as int)),
        decreases entries.len() - i,
    {
        proof {
            lemma_read_request_len(fh, entries@.take(i as int));
            let e = entries@.take(i + 1);
            assert(e.drop_last() =~= entries@.take(i as int));
            let prev = read_request_bytes(fh, entries@.take(i as int));
            assert((old(out)@ + prev).take((old(out)@ + prev).len() - 16) =~= out@);
            assert(old(out)@ + prev.take(prev.len() - 16) =~= out@);
        }
        put_u64(out, entries[i].0);
        put_u64(out, entries[i].1);
        proof {
            let e = entries@.take(i + 1);
            assert(e.last() == entries@[i as int]);
            let prev = read_request_bytes(fh, entries@.take(i as int));
            assert(old(out)@ + read_request_bytes(fh, e) =~= old(out)@ + prev.take(prev.len() - 16)
                + le8(entries@[i as int].0) + le8(entries@[i as int].1) + le8(0) + le8(0));
        }
        i = i + 1;
    }
    put_u64(out, 0);
    put_u64(out, 0);
    assert(entries@.take(entries.len() as int) =~= entries@);
    assert(out@ =~= old(out)@ + read_request_bytes(fh, entries@));
}

/// One `(address, size)` pair of a read request; `None` for the closing pair (size zero).
pub fn decode_request_entry(buf: &[u8], pos: usize) -> (res: Option<(u64, u64)>)
    requires
        pos + 16 <= buf@.len(),
    ensures
        ({
            let a = from_le8(buf@.subrange(pos as int, pos + 8));
            let l = from_le8(buf@.subrange(pos + 8, pos + 16));
            if l == 0 {
                res is None
            } else {
                res == Some((a, l))
            }
        }),
{
    let n = buf.len();
    assert(pos + 16 <= n);
    let a = get_u64(buf, pos);
    let l = get_u64(buf, pos + 8);
    if l == 0 {
        None
    } else {
        Some((a, l))
    }
}

} // verus!
