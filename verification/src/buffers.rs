//! Buffer bookkeeping for the remote filesystem protocol.
//!
//! The server side hands out scratch regions of byte buffers for incoming read
//! requests and takes them back once the answer is sent ([`FragmentBuffer`]).
//! The client side remembers where each requested address range must be
//! copied to and finds the destination of incoming data ([`SegmentTree`]).
//! Regions are described by a buffer number, an offset and a length; the
//! bytes themselves live with the caller.
use vstd::prelude::*;

verus! {

/// A byte range inside one of a set of buffers.
#[derive(Copy, Clone, Debug, PartialEq, Eq, Structural)]
pub struct Region {
    pub buf: usize,
    pub off: usize,
    pub len: usize,
}

/// Two regions share no byte.
pub open spec fn disjoint(a: Region, b: Region) -> bool {
    ||| a.len == 0
    ||| b.len == 0
    ||| a.buf != b.buf
    ||| a.off + a.len <= b.off
    ||| b.off + b.len <= a.off
}

/// A region lies inside its buffer.
pub open spec fn in_bounds(r: Region, bufs: Seq<usize>) -> bool {
    r.buf < bufs.len() && r.off + r.len <= bufs[r.buf as int]
}

/// The regions of a sequence are pairwise disjoint.
pub open spec fn pairwise_disjoint(s: Seq<Region>) -> bool {
    forall|i: int, j: int| 0 <= i < s.len() && 0 <= j < s.len() && i != j ==> disjoint(s[i], s[j])
}

/// `i` is the fragment `get(size)` takes: of the fragments at least `size` long, one
/// of the shortest, and of those the one put back last.
pub open spec fn is_best_fit(frags: Seq<Region>, size: nat, i: int) -> bool {
    &&& 0 <= i < frags.len()
    &&& frags[i].len >= size
    &&& forall|j: int|
        0 <= j < frags.len() && #[trigger] frags[j].len >= size ==> frags[i].len < frags[j].len || (
        frags[i].len == frags[j].len && j <= i)
}

/// Some fragment is at least `size` long.
pub open spec fn has_fit(frags: Seq<Region>, size: nat) -> bool {
    exists|j: int| 0 <= j < frags.len() && #[trigger] frags[j].len >= size
}

/// The fragment `get(size)` takes, when there is one.
pub open spec fn best_fit(frags: Seq<Region>, size: nat) -> int {
    choose|i: int| is_best_fit(frags, size, i)
}

/// The free fragments after `get(size)` took fragment `i`: it is removed and what is
/// left of it past `size` bytes is put back.
pub open spec fn frags_after_take(frags: Seq<Region>, i: int, size: nat) -> Seq<Region> {
    let f = frags[i];
    let rest = frags.remove(i);
    if f.len > size {
        rest.push(Region { buf: f.buf, off: (f.off + size) as usize, len: (f.len - size) as usize })
    } else {
        rest
    }
}

proof fn lemma_best_fit_unique(frags: Seq<Region>, size: nat, i: int, k: int)
    requires
        is_best_fit(frags, size, i),
        is_best_fit(frags, size, k),
    ensures
        i == k,
{
    assert(frags[k].len >= size);
    assert(frags[i].len >= size);
}

/// Scratch regions for incoming requests, recycled by size.
pub struct FragmentBuffer {
    /// Sizes of the buffers allocated so far; buffer `i` has `bufs[i]` bytes.
    bufs: Vec<usize>,
    /// Free fragments, in the order they were put back.
    fragments: Vec<Region>,
    /// Fragments handed out and not yet put back.
    outstanding: Ghost<Seq<Region>>,
}

impl FragmentBuffer {
    /// Sizes of the allocated buffers.
    pub closed spec fn buffers(&self) -> Seq<usize> {
        self.bufs@
    }

    /// The free fragments, in the order they were put back.
    pub closed spec fn free(&self) -> Seq<Region> {
        self.fragments@
    }

    /// The fragments handed out and not yet put back.
    pub closed spec fn handed_out(&self) -> Seq<Region> {
        self.outstanding@
    }

    /// Every fragment lies in its buffer, and no two fragments (free or handed out) overlap.
    pub open spec fn wf(&self) -> bool {
        &&& forall|i: int| 0 <= i < self.free().len() ==> in_bounds(self.free()[i], self.buffers())
        &&& forall|i: int|
            0 <= i < self.handed_out().len() ==> in_bounds(self.handed_out()[i], self.buffers())
        &&& pairwise_disjoint(self.free())
        &&& pairwise_disjoint(self.handed_out())
        &&& forall|i: int, j: int|
            0 <= i < self.free().len() && 0 <= j < self.handed_out().len() ==> disjoint(
                self.free()[i],
                self.handed_out()[j],
            )
    }

    /// An empty pool: no buffers, no fragments.
    pub fn new() -> (fb: FragmentBuffer)
        ensures
            fb.wf(),
            fb.buffers() == Seq::<usize>::empty(),
            fb.free() == Seq::<Region>::empty(),
            fb.handed_out() == Seq::<Region>::empty(),
    {
        FragmentBuffer { bufs: Vec::new(), fragments: Vec::new(), outstanding: Ghost(Seq::empty()) }
    }

    /// Number of bytes of buffer `i`.
    pub fn buffer_len(&self, i: usize) -> (n: usize)
        requires
            i < self.buffers().len(),
        ensures
            n == self.buffers()[i as int],
    {
        self.bufs[i]
    }

    /// Number of buffers allocated so far.
    pub fn buffer_count(&self) -> (n: usize)
        ensures
            n == self.buffers().len(),
    {
        self.bufs.len()
    }

    /// Gives a fragment back, to be handed out again.
    pub fn put_back(&mut self, fragment: Region)
        requires
            old(self).wf(),
            old(self).handed_out().contains(fragment),
        ensures
            final(self).wf(),
            final(self).buffers() == old(self).buffers(),
            final(self).free() == old(self).free().push(fragment),
            final(self).handed_out() == old(self).handed_out().remove(
                old(self).handed_out().index_of(fragment),
            ),
    {
        let ghost k = self.outstanding@.index_of(fragment);
        let ghost old_out = self.outstanding@;
        let ghost old_free = self.fragments@;
        self.fragments.push(fragment);
        self.outstanding = Ghost(self.outstanding@.remove(k));
        proof {
            let nf = self.fragments@;
            let no = self.outstanding@;
            assert forall|i: int| 0 <= i < no.len() implies in_bounds(no[i], self.bufs@) by {
                if i < k {
                    assert(no[i] == old_out[i]);
                } else {
                    assert(no[i] == old_out[i + 1]);
                }
            }
            assert forall|i: int| 0 <= i < nf.len() implies in_bounds(nf[i], self.bufs@) by {
                if i < old_free.len() {
                    assert(nf[i] == old_free[i]);
                }
            }
            assert forall|i: int, j: int|
                0 <= i < nf.len() && 0 <= j < nf.len() && i != j implies disjoint(nf[i], nf[j]) by {
                if i == old_free.len() {
                    assert(nf[j] == old_free[j]);
                    assert(nf[i] == old_out[k]);
                    assert(disjoint(old_free[j], old_out[k]));
                } else if j == old_free.len() {
                    assert(nf[i] == old_free[i]);
                    assert(nf[j] == old_out[k]);
                    assert(disjoint(old_free[i], old_out[k]));
                } else {
                    assert(nf[i] == old_free[i]);
                    assert(nf[j] == old_free[j]);
                }
            }
            assert forall|i: int, j: int|
                0 <= i < no.len() && 0 <= j < no.len() && i != j implies disjoint(no[i], no[j]) by {
                let ii = if i < k {
                    i
                } else {
                    i + 1
                };
                let jj = if j < k {
                    j
                } else {
                    j + 1
                };
                assert(no[i] == old_out[ii]);
                assert(no[j] == old_out[jj]);
            }
            assert forall|i: int, j: int|
                0 <= i < nf.len() && 0 <= j < no.len() implies disjoint(nf[i], no[j]) by {
                let jj = if j < k {
                    j
                } else {
                    j + 1
                };
                assert(no[j] == old_out[jj]);
                if i < old_free.len() {
                    assert(nf[i] == old_free[i]);
                } else {
                    assert(nf[i] == old_out[k]);
                    assert(jj != k);
                }
            }
        }
    }

    /// Hands out a fragment of exactly `size` bytes. It is cut from the shortest free
    /// fragment that is long enough (the one put back last among equals), whose rest is
    /// put back; if no free fragment is long enough, a new buffer of `size` bytes is made.
    pub fn get(&mut self, size: usize) -> (r: Region)
        requires
            old(self).wf(),
        ensures
            final(self).wf(),
            r.len == size,
            final(self).handed_out() == old(self).handed_out().push(r),
            has_fit(old(self).free(), size as nat) ==> {
                let i = best_fit(old(self).free(), size as nat);
                &&& is_best_fit(old(self).free(), size as nat, i)
                &&& r.buf == old(self).free()[i].buf
                &&& r.off == old(self).free()[i].off
                &&& final(self).free() == frags_after_take(old(self).free(), i, size as nat)
                &&& final(self).buffers() == old(self).buffers()
            },
            !has_fit(old(self).free(), size as nat) ==> {
                &&& r.buf == old(self).buffers().len()
                &&& r.off == 0
                &&& final(self).free() == old(self).free()
                &&& final(self).buffers() == old(self).buffers().push(size)
            },
    {
        let ghost old_free = self.fragments@;
        let ghost old_out = self.outstanding@;
        let n = self.fragments.len();
        let mut best: Option<usize> = None;
        let mut i: usize = 0;
        while i < n
            invariant
                n == self.fragments.len(),
                self.fragments@ == old_free,
                i <= n,
                match best {
                    Some(b) => b < i && old_free[b as int].len >= size && forall|j: int|
                        0 <= j < i && #[trigger] old_free[j].len >= size ==> old_free[b as int].len
                            < old_free[j].len || (old_free[b as int].len == old_free[j].len && j
                            <= b),
                    None => forall|j: int| 0 <= j < i ==> #[trigger] old_free[j].len < size,
                },
            decreases n - i,
        {
            let f = self.fragments[i];
            if f.len >= size {
                match best {
                    Some(b) => {
                        if f.len <= self.fragments[b].len {
                            best = Some(i);
                        }
                    },
                    None => {
                        best = Some(i);
                    },
                }
            }
            i = i + 1;
        }
        match best {
            Some(b) => {
                proof {
                    assert(is_best_fit(old_free, size as nat, b as int));
                    assert(has_fit(old_free, size as nat));
                    let c = best_fit(old_free, size as nat);
                    lemma_best_fit_unique(old_free, size as nat, b as int, c);
                }
                let f = self.fragments.remove(b);
                let r = Region { buf: f.buf, off: f.off, len: size };
                if f.len > size {
                    self.fragments.push(Region { buf: f.buf, off: f.off + size, len: f.len - size });
                }
                self.outstanding = Ghost(self.outstanding@.push(r));
                proof {
                    let nf = self.fragments@;
                    let no = self.outstanding@;
                    let rest = old_free.remove(b as int);
                    assert(nf == frags_after_take(old_free, b as int, size as nat));
                    assert forall|x: int| 0 <= x < rest.len() implies rest[x] == old_free[if x < b {
                        x
                    } else {
                        x + 1
                    }] by {}
                    assert forall|x: int| 0 <= x < nf.len() implies in_bounds(nf[x], self.bufs@) by {
                        if x < rest.len() {
                            assert(nf[x] == rest[x]);
                        }
                    }
                    assert forall|x: int| 0 <= x < no.len() implies in_bounds(no[x], self.bufs@) by {
                        if x < old_out.len() {
                            assert(no[x] == old_out[x]);
                        }
                    }
                    assert forall|x: int, y: int|
                        0 <= x < nf.len() && 0 <= y < nf.len() && x != y implies disjoint(
                            nf[x],
                            nf[y],
                        ) by {
                        let xx = if x < b {
                            x
                        } else {
                            x + 1
                        };
                        let yy = if y < b {
                            y
                        } else {
                            y + 1
                        };
                        if x < rest.len() && y < rest.len() {
                            assert(nf[x] == old_free[xx]);
                            assert(nf[y] == old_free[yy]);
                        } else if x < rest.len() {
                            assert(nf[x] == old_free[xx]);
                            assert(xx != b);
                            assert(disjoint(old_free[xx], old_free[b as int]));
                        } else if y < rest.len() {
                            assert(nf[y] == old_free[yy]);
                            assert(yy != b);
                            assert(disjoint(old_free[yy], old_free[b as int]));
                        }
                    }
                    assert forall|x: int, y: int|
                        0 <= x < no.len() && 0 <= y < no.len() && x != y implies disjoint(
                            no[x],
                            no[y],
                        ) by {
                        if x < old_out.len() && y < old_out.len() {
                            assert(no[x] == old_out[x]);
                            assert(no[y] == old_out[y]);
                        } else if x < old_out.len() {
                            assert(no[x] == old_out[x]);
                            assert(disjoint(old_free[b as int], old_out[x]));
                        } else if y < old_out.len() {
                            assert(no[y] == old_out[y]);
                            assert(disjoint(old_free[b as int], old_out[y]));
                        }
                    }
                    assert forall|x: int, y: int|
                        0 <= x < nf.len() && 0 <= y < no.len() implies disjoint(nf[x], no[y]) by {
                        let xx = if x < b {
                            x
                        } else {
                            x + 1
                        };
                        if x < rest.len() && y < old_out.len() {
                            assert(nf[x] == old_free[xx]);
                            assert(no[y] == old_out[y]);
                        } else if x < rest.len() {
                            assert(nf[x] == old_free[xx]);
                            assert(xx != b);
                            assert(disjoint(old_free[xx], old_free[b as int]));
                        } else if y < old_out.len() {
                            assert(no[y] == old_out[y]);
                            assert(disjoint(old_free[b as int], old_out[y]));
                        }
                    }
                }
                r
            },
            None => {
                let r = Region { buf: self.bufs.len(), off: 0, len: size };
                self.bufs.push(size);
                self.outstanding = Ghost(self.outstanding@.push(r));
                proof {
                    let no = self.outstanding@;
                    assert(!has_fit(old_free, size as nat));
                    assert forall|x: int| 0 <= x < old_free.len() implies in_bounds(
                        old_free[x],
                        self.bufs@,
                    ) by {
                        assert(self.bufs@[old_free[x].buf as int] == old(self).bufs@[old_free[x].buf as int]);
                    }
                    assert forall|x: int| 0 <= x < no.len() implies in_bounds(no[x], self.bufs@) by {
                        if x < old_out.len() {
                            assert(no[x] == old_out[x]);
                            assert(self.bufs@[old_out[x].buf as int] == old(self).bufs@[old_out[x].buf as int]);
                        }
                    }
                    assert forall|x: int, y: int|
                        0 <= x < no.len() && 0 <= y < no.len() && x != y implies disjoint(
                            no[x],
                            no[y],
                        ) by {
                        if x < old_out.len() && y < old_out.len() {
                            assert(no[x] == old_out[x]);
                            assert(no[y] == old_out[y]);
                        } else if x < old_out.len() {
                            assert(no[x] == old_out[x]);
                        } else if y < old_out.len() {
                            assert(no[y] == old_out[y]);
                        }
                    }
                    assert forall|x: int, y: int|
                        0 <= x < old_free.len() && 0 <= y < no.len() implies disjoint(
                            old_free[x],
                            no[y],
                        ) by {
                        if y < old_out.len() {
                            assert(no[y] == old_out[y]);
                        }
                    }
                }
                r
            },
        }
    }
}

/// Law: a fragment that is put back is the one handed out next for its length: after
/// `put_back(r)`, `get(r.len)` takes the last free fragment, which is `r`.
pub proof fn lemma_put_back_then_get(free: Seq<Region>, r: Region)
    ensures
        has_fit(free.push(r), r.len as nat),
        best_fit(free.push(r), r.len as nat) == free.len(),
        free.push(r)[free.len() as int] == r,
{
    let s = free.push(r);
    let n = free.len() as int;
    let size = r.len as nat;
    assert(s[n] == r);
    assert(has_fit(s, size));
    let b = lemma_exists_best_fit(s, size, n);
    let c = best_fit(s, size);
    lemma_best_fit_unique(s, size, b, c);
    assert(s[n].len >= size);
}

/// When some fragment fits, a best fit exists.
proof fn lemma_exists_best_fit(s: Seq<Region>, size: nat, w: int) -> (b: int)
    requires
        0 <= w < s.len(),
        s[w].len >= size,
    ensures
        is_best_fit(s, size, b),
        s[b].len <= s[w].len,
    decreases s.len(),
{
    if s.len() == 1 {
        0
    } else {
        let t = s.drop_last();
        let l = s.len() - 1;
        if w == l {
            if has_fit(t, size) {
                let w2 = choose|j: int| 0 <= j < t.len() && #[trigger] t[j].len >= size;
                let b2 = lemma_exists_best_fit(t, size, w2);
                if t[b2].len < s[l].len {
                    assert forall|j: int| 0 <= j < s.len() && #[trigger] s[j].len >= size implies s[b2].len
                        < s[j].len || (s[b2].len == s[j].len && j <= b2) by {
                        if j < l {
                            assert(s[j] == t[j]);
                        }
                    }
                    b2
                } else {
                    assert forall|j: int| 0 <= j < s.len() && #[trigger] s[j].len >= size implies s[l].len
                        < s[j].len || (s[l].len == s[j].len && j <= l) by {
                        if j < l {
                            assert(s[j] == t[j]);
                        }
                    }
                    l
                }
            } else {
                assert forall|j: int| 0 <= j < s.len() && #[trigger] s[j].len >= size implies s[l].len
                    < s[j].len || (s[l].len == s[j].len && j <= l) by {
                    if j < l {
                        assert(s[j] == t[j]);
                        assert(!(t[j].len >= size));
                    }
                }
                l
            }
        } else {
            assert(t[w] == s[w]);
            let b2 = lemma_exists_best_fit(t, size, w);
            if s[l].len >= size && s[l].len <= t[b2].len {
                assert forall|j: int| 0 <= j < s.len() && #[trigger] s[j].len >= size implies s[l].len
                    < s[j].len || (s[l].len == s[j].len && j <= l) by {
                    if j < l {
                        assert(s[j] == t[j]);
                    }
                }
                l
            } else {
                assert forall|j: int| 0 <= j < s.len() && #[trigger] s[j].len >= size implies s[b2].len
                    < s[j].len || (s[b2].len == s[j].len && j <= b2) by {
                    if j < l {
                        assert(s[j] == t[j]);
                    }
                }
                b2
            }
        }
    }
}

/// A registered destination: bytes read at addresses `start .. start + len` go to
/// buffer `dest` from offset `off` on.
#[derive(Copy, Clone, Debug, PartialEq, Eq, Structural)]
pub struct Segment {
    pub start: u64,
    pub len: usize,
    pub dest: usize,
    pub off: usize,
}

/// Segment `s` holds the destination of address `addr`.
pub open spec fn covers(s: Segment, addr: u64) -> bool {
    s.start <= addr < s.start + s.len
}

/// A segment's end address and destination offsets stay in range.
pub open spec fn seg_fits(s: Segment) -> bool {
    s.start + s.len <= u64::MAX && s.off + s.len <= usize::MAX
}

/// `c` is a segment `get(addr, ..)` may use: it covers `addr`, and no covering
/// segment starts later.
pub open spec fn is_choice(segs: Seq<Segment>, addr: u64, c: int) -> bool {
    &&& 0 <= c < segs.len()
    &&& covers(segs[c], addr)
    &&& forall|j: int|
        0 <= j < segs.len() && covers(#[trigger] segs[j], addr) ==> segs[j].start <= segs[c].start
}

/// `c` is the segment `get(addr, ..)` uses: a possible choice, and the first among
/// those that start as late.
pub open spec fn first_choice(segs: Seq<Segment>, addr: u64, c: int) -> bool {
    &&& is_choice(segs, addr, c)
    &&& forall|j: int|
        0 <= j < c && covers(#[trigger] segs[j], addr) ==> segs[j].start < segs[c].start
}

/// The index of the segment `get(addr, ..)` uses, where there is one.
pub open spec fn chosen(segs: Seq<Segment>, addr: u64) -> int {
    choose|c: int| first_choice(segs, addr, c)
}

/// At most one segment is the first choice.
proof fn lemma_first_choice_unique(segs: Seq<Segment>, addr: u64, c1: int, c2: int)
    requires
        first_choice(segs, addr, c1),
        first_choice(segs, addr, c2),
    ensures
        c1 == c2,
{
    if c1 < c2 {
        assert(covers(segs[c1], addr));
    } else if c2 < c1 {
        assert(covers(segs[c2], addr));
    }
}

/// The part of segment `s` that receives `start .. start + len`, cut at the segment's end.
pub open spec fn piece_of(s: Segment, start: u64, len: usize) -> Segment {
    let seg_end = s.start + s.len;
    let end = start + len;
    Segment {
        start,
        len: ((if seg_end < end {
            seg_end
        } else {
            end
        }) - start) as usize,
        dest: s.dest,
        off: (s.off + (start - s.start)) as usize,
    }
}

/// The part of segment `s` before `start`.
pub open spec fn left_of(s: Segment, start: u64) -> Segment {
    Segment { start: s.start, len: (start - s.start) as usize, dest: s.dest, off: s.off }
}

/// The part of segment `s` after `start + len`.
pub open spec fn right_of(s: Segment, start: u64, len: usize) -> Segment {
    let end = start + len;
    Segment {
        start: end as u64,
        len: (s.start + s.len - end) as usize,
        dest: s.dest,
        off: (s.off + (end - s.start)) as usize,
    }
}

/// The position of the last registration that starts at `st` (among those, the one a
/// removal moves into the removed one's place).
pub open spec fn last_with_start(segs: Seq<Segment>, st: u64) -> int {
    choose|j: int|
        0 <= j < segs.len() && segs[j].start == st && forall|k: int|
            j < k < segs.len() ==> #[trigger] segs[k].start != st
}

/// Removes registration `c`: the last registration with the same start takes its place
/// (the registrations of one start are kept as a list whose removals swap in its last
/// one).
pub open spec fn remove_at(segs: Seq<Segment>, c: int) -> Seq<Segment> {
    let j = last_with_start(segs, segs[c].start);
    segs.update(c, segs[j]).remove(j)
}

/// The registrations after segment `c` served `start .. start + len`: it is removed (see
/// `remove_at`), and what lies before `start` and after `start + len` is registered again.
pub open spec fn segs_after_take(segs: Seq<Segment>, c: int, start: u64, len: usize) -> Seq<
    Segment,
> {
    let s = segs[c];
    let rest = remove_at(segs, c);
    let with_left = if s.start < start {
        rest.push(left_of(s, start))
    } else {
        rest
    };
    if s.start + s.len > start + len {
        with_left.push(right_of(s, start, len))
    } else {
        with_left
    }
}

/// Destinations of requested address ranges, looked up as data arrives.
pub struct SegmentTree {
    segments: Vec<Segment>,
}

impl SegmentTree {
    /// The registered segments.
    pub closed spec fn segs(&self) -> Seq<Segment> {
        self.segments@
    }

    /// Every registered segment stays in range.
    pub open spec fn wf(&self) -> bool {
        forall|i: int| 0 <= i < self.segs().len() ==> seg_fits(#[trigger] self.segs()[i])
    }

    /// No destinations registered.
    pub fn new() -> (t: SegmentTree)
        ensures
            t.wf(),
            t.segs() == Seq::<Segment>::empty(),
    {
        SegmentTree { segments: Vec::new() }
    }

    /// Registers that addresses `start .. start + len` go to buffer `dest` from offset `off` on.
    pub fn add_seg(&mut self, start: u64, dest: usize, off: usize, len: usize)
        requires
            old(self).wf(),
            start + len <= u64::MAX,
            off + len <= usize::MAX,
        ensures
            final(self).wf(),
            final(self).segs() == old(self).segs().push(Segment { start, len, dest, off }),
    {
        self.segments.push(Segment { start, len, dest, off });
        proof {
            assert forall|i: int| 0 <= i < self.segs().len() implies seg_fits(
                #[trigger] self.segs()[i],
            ) by {
                if i < old(self).segs().len() {
                    assert(self.segs()[i] == old(self).segs()[i]);
                }
            }
        }
    }

    /// Finds where the data for `start .. start + len` goes: the part, starting at `start`,
    /// of a registered segment that covers `start` (one that starts latest), cut at that
    /// segment's end. The segment is replaced by what is left of it on either side.
    /// `None` if no registered segment covers `start`.
    pub fn get(&mut self, start: u64, len: usize) -> (res: Option<Segment>)
        requires
            old(self).wf(),
            start + len <= u64::MAX,
        ensures
            final(self).wf(),
            res is None <==> !exists|c: int| is_choice(old(self).segs(), start, c),
            res is None <==> !exists|c: int| first_choice(old(self).segs(), start, c),
            res is None ==> final(self).segs() == old(self).segs(),
            res matches Some(p) ==> {
                let c = chosen(old(self).segs(), start);
                &&& first_choice(old(self).segs(), start, c)
                &&& p == piece_of(old(self).segs()[c], start, len)
                &&& final(self).segs() == segs_after_take(old(self).segs(), c, start, len)
            },
            res matches Some(p) ==> exists|c: int|
                #![trigger old(self).segs()[c]]
                is_choice(old(self).segs(), start, c) && p == piece_of(old(self).segs()[c], start, len)
                    && final(self).segs() == segs_after_take(old(self).segs(), c, start, len),
    {
        let ghost old_segs = self.segments@;
        let n = self.segments.len();
        let mut best: Option<usize> = None;
        let mut i: usize = 0;
        while i < n
            invariant
                n == self.segments.len(),
                self.segments@ == old_segs,
                old_segs == old(self).segs(),
                old(self).wf(),
                i <= n,
                match best {
                    Some(b) => b < i && covers(old_segs[b as int], start) && (forall|j: int|
                        0 <= j < i && covers(#[trigger] old_segs[j], start) ==> old_segs[j].start
                            <= old_segs[b as int].start) && (forall|j: int|
                        0 <= j < b && covers(#[trigger] old_segs[j], start) ==> old_segs[j].start
                            < old_segs[b as int].start),
                    None => forall|j: int| 0 <= j < i ==> !covers(#[trigger] old_segs[j], start),
                },
            decreases n - i,
        {
            let s = self.segments[i];
            assert(seg_fits(old(self).segs()[i as int]));
            if s.start <= start && start < s.start + s.len as u64 {
                match best {
                    Some(b) => {
                        if s.start > self.segments[b].start {
                            best = Some(i);
                        }
                    },
                    None => {
                        best = Some(i);
                    },
                }
            }
            i = i + 1;
        }
        match best {
            None => {
                proof {
                    assert forall|c: int| !is_choice(old_segs, start, c) by {
                        if 0 <= c < old_segs.len() {
                            assert(!covers(old_segs[c], start));
                        }
                    }
                }
                None
            },
            Some(b) => {
                assert(is_choice(old_segs, start, b as int));
                assert(first_choice(old_segs, start, b as int));
                proof {
                    lemma_first_choice_unique(old_segs, start, b as int, chosen(old_segs, start));
                }
                assert(seg_fits(old(self).segs()[b as int]));
                let s = self.segments[b];
                // the last registration with the same start
                let mut j: usize = b;
                let mut k: usize = b + 1;
                while k < n
                    invariant
                        n == self.segments.len(),
                        self.segments@ == old_segs,
                        b <= j < k <= n,
                        old_segs[j as int].start == s.start,
                        forall|x: int| j < x < k ==> #[trigger] old_segs[x].start != s.start,
                    decreases n - k,
                {
                    if self.segments[k].start == s.start {
                        j = k;
                    }
                    k = k + 1;
                }
                proof {
                    let lj = last_with_start(old_segs, s.start);
                    assert(0 <= j < old_segs.len() && old_segs[j as int].start == s.start && forall|x: int|
                        j < x < old_segs.len() ==> #[trigger] old_segs[x].start != s.start);
                    if lj != j {
                        if lj < j {
                            assert(old_segs[j as int].start != s.start);
                        } else {
                            assert(old_segs[lj].start != s.start);
                        }
                    }
                    assert(lj == j);
                }
                if j != b {
                    let last = self.segments[j];
                    self.segments.set(b, last);
                }
                let _ = self.segments.remove(j);
                proof {
                    assert(self.segments@ =~= remove_at(old_segs, b as int));
                }
                let seg_end = s.start + s.len as u64;
                let end = start + len as u64;
                let skip = (start - s.start) as usize;
                if s.start < start {
                    self.segments.push(
                        Segment { start: s.start, len: skip, dest: s.dest, off: s.off },
                    );
                }
                if seg_end > end {
                    self.segments.push(
                        Segment {
                            start: end,
                            len: (seg_end - end) as usize,
                            dest: s.dest,
                            off: s.off + skip + len,
                        },
                    );
                }
                let piece_end = if seg_end < end {
                    seg_end
                } else {
                    end
                };
                let p = Segment {
                    start,
                    len: (piece_end - start) as usize,
                    dest: s.dest,
                    off: s.off + skip,
                };
                proof {
                    let rest = remove_at(old_segs, b as int);
                    assert(self.segments@ == segs_after_take(old_segs, b as int, start, len));
                    assert forall|x: int| 0 <= x < rest.len() implies rest[x] == old_segs[if x == b && b < j {
                        j as int
                    } else if x < j {
                        x
                    } else {
                        x + 1
                    }] by {}
                    assert forall|x: int| 0 <= x < self.segs().len() implies seg_fits(
                        #[trigger] self.segs()[x],
                    ) by {
                        if x < rest.len() {
                            assert(self.segs()[x] == rest[x]);
                            let xx = if x == b && b < j {
                                j as int
                            } else if x < j {
                                x
                            } else {
                                x + 1
                            };
                            assert(seg_fits(old(self).segs()[xx]));
                        }
                    }
                }
                Some(p)
            },
        }
    }
}

/// Law: serving a request from a segment loses no part of it: the part before the
/// request, the part served and the part after it follow each other, in addresses and
/// in destination offsets, and together make up the segment.
pub proof fn lemma_take_tiles_segment(s: Segment, start: u64, len: usize)
    requires
        covers(s, start),
        seg_fits(s),
        start + len <= u64::MAX,
    ensures
        ({
            let p = piece_of(s, start, len);
            let l = left_of(s, start);
            let r = right_of(s, start, len);
            let l_len: int = if s.start < start {
                l.len as int
            } else {
                0
            };
            let r_len: int = if s.start + s.len > start + len {
                r.len as int
            } else {
                0
            };
            &&& l_len + p.len + r_len == s.len
            &&& p.start == s.start + l_len
            &&& p.off == s.off + l_len
            &&& p.dest == s.dest
            &&& r_len > 0 ==> r.start == p.start + p.len && r.off == p.off + p.len && r.dest == s.dest
        }),
{
}

} // verus!
