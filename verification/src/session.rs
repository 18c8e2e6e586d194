//! The decisions of the network frontend: what the server does with each command and
//! read request, and where the client puts the data that comes back.
use vstd::prelude::*;
use crate::buffers::{
    FragmentBuffer, Region, Segment, SegmentTree, chosen, first_choice, piece_of, seg_fits,
    segs_after_take,
};
use crate::error::{Error, int_err_of};
use crate::io::ReadSink;
use crate::node::{Backend, NodeBackend};
use crate::protocol::{Frame, FrameView, FrontendFuncs, frame_bytes, encode_frame, done_code, func_code};

verus! {

/// What the server does with a command byte.
#[derive(Copy, Clone, Debug, PartialEq, Eq, Structural)]
pub enum ServerAction {
    /// Serves a read request.
    Read,
    /// Does nothing: a known command that is not served, or an unknown byte.
    Ignore,
}

/// What the server does with a command byte: only reads are served.
pub fn server_action(cmd: u8) -> (a: ServerAction)
    ensures
        a == (if cmd == func_code(FrontendFuncs::Read) {
            ServerAction::Read
        } else {
            ServerAction::Ignore
        }),
{
    match FrontendFuncs::from_code(cmd) {
        Some(FrontendFuncs::Read) => ServerAction::Read,
        _ => ServerAction::Ignore,
    }
}

/// The server's side of one read request: the buffers that hold the data on its way.
pub struct ServerRead {
    pub bufs: FragmentBuffer,
}

impl ServerRead {
    /// A read request with no buffers yet.
    pub fn new() -> (s: ServerRead)
        ensures
            s.bufs.wf(),
            s.bufs.free().len() == 0,
            s.bufs.handed_out().len() == 0,
    {
        ServerRead { bufs: FragmentBuffer::new() }
    }

    /// The buffer for one `(address, size)` pair of the request; a size of zero ends
    /// the request's pairs.
    pub fn request_buffer(&mut self, size: u64) -> (r: Option<Region>)
        requires
            old(self).bufs.wf(),
            size <= usize::MAX,
        ensures
            final(self).bufs.wf(),
            size == 0 ==> r is None && final(self).bufs == old(self).bufs,
            size != 0 ==> (r matches Some(g) && g.len == size && final(self).bufs.handed_out()
                == old(self).bufs.handed_out().push(g)),
    {
        if size == 0 {
            None
        } else {
            Some(self.bufs.get(size as usize))
        }
    }

    /// The answer for data read into a buffer: a data frame with the address and bytes;
    /// the buffer is given back.
    pub fn data_frame(&mut self, addr: u64, buf: Region, data: Vec<u8>) -> (out: Vec<u8>)
        requires
            old(self).bufs.wf(),
            old(self).bufs.handed_out().contains(buf),
        ensures
            final(self).bufs.wf(),
            final(self).bufs.free() == old(self).bufs.free().push(buf),
            out@ == frame_bytes(FrameView::Data(addr, data@)),
    {
        self.bufs.put_back(buf);
        let mut out: Vec<u8> = Vec::new();
        let n: usize = data.len();
        assert(n as int <= u64::MAX as int);
        let f = Frame::Data(addr, data);
        encode_frame(&mut out, &f);
        out
    }

    /// The answer for a range that failed: a failure frame with its address, length and
    /// encoded error; the buffer is given back.
    pub fn fail_frame(&mut self, addr: u64, buf: Region, err: Error) -> (out: Vec<u8>)
        requires
            old(self).bufs.wf(),
            old(self).bufs.handed_out().contains(buf),
        ensures
            final(self).bufs.wf(),
            final(self).bufs.free() == old(self).bufs.free().push(buf),
            out@ == frame_bytes(
                FrameView::Fail(addr, buf.len as u64, crate::error::int_err_of(err) as i32),
            ),
    {
        self.bufs.put_back(buf);
        let code = err.into_int_err();
        let mut out: Vec<u8> = Vec::new();
        let f = Frame::Fail(addr, buf.len as u64, code);
        encode_frame(&mut out, &f);
        out
    }
}

/// The server's answers to a read, as they are sent: each part that was read becomes a
/// data frame with its address and bytes, and each part that failed a failure frame with
/// its address, length and encoded error. Reading always goes on.
pub struct FrameSink {
    pub bytes: Vec<u8>,
}

impl FrameSink {
    /// No answers yet.
    pub fn new() -> (s: FrameSink)
        ensures
            s.bytes@ == Seq::<u8>::empty(),
    {
        FrameSink { bytes: Vec::new() }
    }
}

impl ReadSink for FrameSink {
    open spec fn takes_out(&self, fin: &Self, off: u64, data: Seq<u8>, go: bool) -> bool {
        go && fin.bytes@ == self.bytes@ + frame_bytes(FrameView::Data(off, data))
    }

    open spec fn takes_fail(&self, fin: &Self, off: u64, len: usize, err: Error, go: bool) -> bool {
        go && fin.bytes@ == self.bytes@ + frame_bytes(FrameView::Fail(off, len as u64, int_err_of(err) as i32))
    }

    fn out(&mut self, off: u64, data: &[u8]) -> (go: bool) {
        let d = vstd::slice::slice_to_vec(data);
        let n: usize = d.len();
        assert(n as int <= u64::MAX as int);
        let f = Frame::Data(off, d);
        encode_frame(&mut self.bytes, &f);
        true
    }

    fn out_fail(&mut self, off: u64, len: usize, err: Error) -> (go: bool) {
        let code = err.into_int_err();
        let f = Frame::Fail(off, len as u64, code);
        encode_frame(&mut self.bytes, &f);
        true
    }
}

/// The closing answer of a read request: a final frame with `0` for success or the
/// encoded error.
pub fn done_frame(res: Result<(), Error>) -> (out: Vec<u8>)
    ensures
        out@ == frame_bytes(
            FrameView::Done(
                match res {
                    Ok(()) => 0,
                    Err(e) => crate::error::int_err_of(e) as i32,
                },
            ),
        ),
{
    let code = done_code(res);
    let mut out: Vec<u8> = Vec::new();
    let f = Frame::Done(code);
    encode_frame(&mut out, &f);
    out
}

/// The bytes of the closing frame of a read with result `res`.
pub open spec fn done_bytes(res: Result<(), Error>) -> Seq<u8> {
    frame_bytes(
        FrameView::Done(
            match res {
                Ok(()) => 0,
                Err(e) => int_err_of(e) as i32,
            },
        ),
    )
}

/// Serves a read request of a client: the pairs `(address, size)` are read through the
/// node's handle `fh`, each part read or failed is answered with its frame as the read
/// goes, and the closing frame carries the read's result.
pub fn serve_read<B: Backend>(node: &NodeBackend<B>, fh: usize, reqs: &Vec<(u64, usize)>, sink: &mut FrameSink)
    requires
        node.wf(),
        forall|k: int| 0 <= k < reqs@.len() ==> reqs@[k].0 + reqs@[k].1 <= u64::MAX,
    ensures
        exists|s1: FrameSink, r: Result<(), Error>|
            #[trigger] node.read_outcome(fh, reqs@, *old(sink), s1, r) && final(sink).bytes@ == s1.bytes@
                + done_bytes(r),
{
    let r = node.read(fh, reqs, sink);
    let ghost s1 = *sink;
    let mut d = done_frame(r);
    sink.bytes.append(&mut d);
    assert(node.read_outcome(fh, reqs@, *old(sink), s1, r));
}

/// Pieces tile `start .. start + len` in order: each starts where the one before ended,
/// none is empty, and their lengths add up to `len`.
pub open spec fn tiles(pieces: Seq<Segment>, start: u64, len: nat) -> bool
    decreases pieces.len(),
{
    if pieces.len() == 0 {
        len == 0
    } else {
        &&& pieces[0].start == start
        &&& 0 < pieces[0].len <= len
        &&& tiles(pieces.skip(1), (start + pieces[0].len) as u64, (len - pieces[0].len) as nat)
    }
}

/// Placing `start .. start + len` in the registrations `segs`, piece by piece as
/// `SegmentTree::get` hands them out: the pieces (`None` when some address of the range
/// has no registered destination left) and the registrations afterwards.
pub open spec fn placement(segs: Seq<Segment>, start: u64, len: usize) -> (Option<Seq<Segment>>, Seq<Segment>)
    decreases len,
{
    if len == 0 {
        (Some(Seq::empty()), segs)
    } else if exists|c: int| first_choice(segs, start, c) {
        let c = chosen(segs, start);
        let p = piece_of(segs[c], start, len);
        proof {
            assert(first_choice(segs, start, c));
        }
        let q = placement(
            segs_after_take(segs, c, start, len),
            (start + p.len) as u64,
            (len - p.len) as usize,
        );
        (
            match q.0 {
                Some(rest) => Some(seq![p] + rest),
                None => None,
            },
            q.1,
        )
    } else {
        (None, segs)
    }
}

/// Where data that came back for `start .. start + len` goes, piece by piece, each
/// piece taken from the registered destinations as `SegmentTree::get` does. `None`
/// when part of the range was never requested.
pub fn place_data(tree: &mut SegmentTree, start: u64, len: usize) -> (r: Option<Vec<Segment>>)
    requires
        old(tree).wf(),
        start + len <= u64::MAX,
    ensures
        final(tree).wf(),
        r matches Some(p) ==> tiles(p@, start, len as nat),
        match placement(old(tree).segs(), start, len).0 {
            Some(pieces) => r matches Some(p) && p@ == pieces,
            None => r is None,
        },
        final(tree).segs() == placement(old(tree).segs(), start, len).1,
    decreases len,
{
    if len == 0 {
        return Some(Vec::new());
    }
    match tree.get(start, len) {
        None => None,
        Some(p) => {
            proof {
                let c = chosen(old(tree).segs(), start);
                assert(seg_fits(old(tree).segs()[c]));
                assert(p.start == start);
                assert(0 < p.len <= len);
            }
            let next = start + p.len as u64;
            let rest_len = len - p.len;
            match place_data(tree, next, rest_len) {
                None => None,
                Some(rest) => {
                    let ghost rv = rest@;
                    let mut out: Vec<Segment> = Vec::new();
                    out.push(p);
                    let mut rest = rest;
                    out.append(&mut rest);
                    proof {
                        assert(out@.skip(1) =~= rv);
                        assert(out@[0] == p);
                    }
                    Some(out)
                },
            }
        },
    }
}

/// The head of a frame of a server's answer, as the client reads it before any data.
#[derive(Copy, Clone, Debug, PartialEq, Eq, Structural)]
pub enum FrameHead {
    /// The final frame with its code.
    Done(i32),
    /// Data for an address range (address, length); the bytes follow.
    Data(u64, u64),
    /// A range (address, length) that failed, with an encoded error.
    Fail(u64, u64, i32),
    /// A tag the client does not know.
    Unknown(u8),
}

/// What the client does with a frame of the answer to its read.
pub enum ClientEvent {
    /// The read is over, with its result.
    Finished(Result<(), Error>),
    /// The range goes to these destinations, piece by piece (for data, the bytes that
    /// follow are read into them in order); each is reported as read.
    Deliver(Vec<Segment>),
    /// Nothing to do.
    Ignored,
    /// Part of the range was never requested.
    Unrequested,
}

/// The range `a .. a + l` of a data or failure frame went where `placement` puts it:
/// delivered as its pieces (which tile the range) when every part of it was requested,
/// otherwise reported as unrequested; the registrations `fin` are what is left after.
pub open spec fn frame_placed(segs: Seq<Segment>, fin: Seq<Segment>, a: u64, l: u64, e: ClientEvent) -> bool {
    let q = placement(segs, a, l as usize);
    &&& fin == q.1
    &&& match q.0 {
        Some(pieces) => e matches ClientEvent::Deliver(p) && p@ == pieces && tiles(pieces, a, l as nat),
        None => e is Unrequested,
    }
}

/// What the client does with a frame head: a final frame ends the read with success
/// for `0` and the decoded error otherwise; a data or failure frame is delivered to
/// the destinations registered for its range (as `place_data` finds them), both as
/// read; an unknown tag is ignored.
pub fn client_on_frame(tree: &mut SegmentTree, head: FrameHead) -> (e: ClientEvent)
    requires
        old(tree).wf(),
        head matches FrameHead::Done(c) ==> c != i32::MIN,
        head matches FrameHead::Data(a, l) ==> a + l <= u64::MAX && l <= usize::MAX,
        head matches FrameHead::Fail(a, l, _) ==> a + l <= u64::MAX && l <= usize::MAX,
    ensures
        final(tree).wf(),
        match head {
            FrameHead::Done(c) => e matches ClientEvent::Finished(r) && r == crate::protocol::done_result(c)
                && final(tree).segs() == old(tree).segs(),
            FrameHead::Data(a, l) => frame_placed(old(tree).segs(), final(tree).segs(), a, l, e),
            FrameHead::Fail(a, l, _) => frame_placed(old(tree).segs(), final(tree).segs(), a, l, e),
            FrameHead::Unknown(_) => e is Ignored && final(tree).segs() == old(tree).segs(),
        },
{
    match head {
        FrameHead::Done(c) => ClientEvent::Finished(crate::protocol::result_of_done(c)),
        FrameHead::Data(a, l) => match place_data(tree, a, l as usize) {
            Some(p) => ClientEvent::Deliver(p),
            None => ClientEvent::Unrequested,
        },
        FrameHead::Fail(a, l, _) => match place_data(tree, a, l as usize) {
            Some(p) => ClientEvent::Deliver(p),
            None => ClientEvent::Unrequested,
        },
        FrameHead::Unknown(_) => ClientEvent::Ignored,
    }
}

/// Registers the destinations of a read request: each `(address, length)` goes to the
/// buffer at its position, from offset 0.
pub fn register_reads(tree: &mut SegmentTree, reads: &Vec<(u64, usize)>)
    requires
        old(tree).wf(),
        forall|i: int| 0 <= i < reads@.len() ==> reads@[i].0 + reads@[i].1 <= u64::MAX,
    ensures
        final(tree).wf(),
        final(tree).segs() == old(tree).segs() + Seq::new(
            reads@.len(),
            |i: int| Segment { start: reads@[i].0, len: reads@[i].1, dest: i as usize, off: 0 },
        ),
{
    let mut i: usize = 0;
    while i < reads.len()
        invariant
            i <= reads.len(),
            tree.wf(),
            forall|k: int| 0 <= k < reads@.len() ==> reads@[k].0 + reads@[k].1 <= u64::MAX,
            tree.segs() == old(tree).segs() + Seq::new(
                i as nat,
                |k: int| Segment { start: reads@[k].0, len: reads@[k].1, dest: k as usize, off: 0 },
            ),
        decreases reads.len() - i,
    {
        let (a, l) = reads[i];
        tree.add_seg(a, i, 0, l);
        proof {
            assert(tree.segs() =~= old(tree).segs() + Seq::new(
                (i + 1) as nat,
                |k: int| Segment { start: reads@[k].0, len: reads@[k].1, dest: k as usize, off: 0 },
            ));
        }
        i = i + 1;
    }
}

} // verus!
