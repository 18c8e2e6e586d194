//! Text views of a process's memory maps, and the window a module gives onto its
//! process's memory.
use vstd::prelude::*;
use crate::procfs::ModuleSpan;
use crate::text::{hex_text, push_char, push_hex};

verus! {

/// The permissions of a mapped page range as shown in a maps line: always readable,
/// `w` if writeable, `x` unless marked no-execute.
pub open spec fn perms_text(writeable: bool, noexec: bool) -> Seq<char> {
    seq!['r', if writeable { 'w' } else { '-' }, if !noexec { 'x' } else { '-' }]
}

/// The permissions text of a mapped page range.
pub fn format_perms(writeable: bool, noexec: bool) -> (s: String)
    ensures
        s@ == perms_text(writeable, noexec),
{
    let mut s = String::new();
    push_char(&mut s, 'r');
    push_char(&mut s, if writeable { 'w' } else { '-' });
    push_char(&mut s, if !noexec { 'x' } else { '-' });
    proof {
        assert(s@ =~= perms_text(writeable, noexec));
    }
    s
}

/// Whether a module contains an address.
pub open spec fn module_contains(m: (u64, u64, Seq<char>), a: u64) -> bool {
    m.0 <= a && a < m.0 + m.1
}

/// Whether module `i` is the one a maps line names for an address: it contains the
/// address, and no module that contains it has a lower base, or the same base and an
/// earlier position.
pub open spec fn is_line_module(mods: Seq<(u64, u64, Seq<char>)>, a: u64, i: int) -> bool {
    &&& 0 <= i < mods.len()
    &&& module_contains(mods[i], a)
    &&& forall|j: int|
        0 <= j < mods.len() && #[trigger] module_contains(mods[j], a) ==> mods[i].0 < mods[j].0 || (
        mods[i].0 == mods[j].0 && i <= j)
}

/// The name a maps line shows for an address: that of the module it names, or nothing.
pub open spec fn line_module_name(mods: Seq<(u64, u64, Seq<char>)>, a: u64) -> Seq<char> {
    if exists|i: int| is_line_module(mods, a, i) {
        mods[choose|i: int| is_line_module(mods, a, i)].2
    } else {
        Seq::empty()
    }
}

/// The modules as plain values.
pub open spec fn mods_view(mods: Seq<(u64, u64, String)>) -> Seq<(u64, u64, Seq<char>)> {
    mods.map_values(|m: (u64, u64, String)| (m.0, m.1, m.2@))
}

/// The module a maps line names for an address, if any: among those that contain it,
/// the lowest base, and the earliest of equal bases.
pub fn line_module(mods: &Vec<(u64, u64, String)>, a: u64) -> (r: Option<usize>)
    ensures
        match r {
            Some(i) => is_line_module(mods_view(mods@), a, i as int),
            None => forall|j: int| 0 <= j < mods@.len() ==> !module_contains(mods_view(mods@)[j], a),
        },
        match r {
            Some(i) => i < mods@.len() && mods@[i as int].0 <= a && a < mods@[i as int].0 + mods@[i as int].1
                && forall|j: int|
                0 <= j < mods@.len() && mods@[j].0 <= a && a < mods@[j].0 + mods@[j].1 ==> mods@[i as int].0
                    <= mods@[j].0,
            None => forall|j: int| 0 <= j < mods@.len() ==> !(mods@[j].0 <= a && a < mods@[j].0 + mods@[j].1),
        },
{
    let ghost mv = mods_view(mods@);
    let mut best: Option<usize> = None;
    let mut i: usize = 0;
    while i < mods.len()
        invariant
            i <= mods.len(),
            mv == mods_view(mods@),
            mv.len() == mods@.len(),
            match best {
                Some(b) => b < i && module_contains(mv[b as int], a) && forall|j: int|
                    0 <= j < i && #[trigger] module_contains(mv[j], a) ==> mv[b as int].0 < mv[j].0 || (
                    mv[b as int].0 == mv[j].0 && b <= j),
                None => forall|j: int| 0 <= j < i ==> !module_contains(mv[j], a),
            },
        decreases mods.len() - i,
    {
        let base = mods[i].0;
        let size = mods[i].1;
        let inside = base <= a && a - base < size;
        assert(mv[i as int] == (base, size, mods@[i as int].2@));
        if inside {
            match best {
                None => {
                    best = Some(i);
                },
                Some(b) => {
                    if base < mods[b].0 {
                        best = Some(i);
                    }
                },
            }
        }
        i = i + 1;
    }
    proof {
        match best {
            Some(b) => {
                assert(mv[b as int] == (mods@[b as int].0, mods@[b as int].1, mods@[b as int].2@));
                assert forall|j: int|
                    0 <= j < mods@.len() && mods@[j].0 <= a && a < mods@[j].0 + mods@[j].1 implies mods@[b as int].0
                    <= mods@[j].0 by {
                    assert(mv[j] == (mods@[j].0, mods@[j].1, mods@[j].2@));
                    assert(module_contains(mv[j], a));
                }
            },
            None => {
                assert forall|j: int| 0 <= j < mods@.len() implies !(mods@[j].0 <= a && a < mods@[j].0
                    + mods@[j].1) by {
                    assert(mv[j] == (mods@[j].0, mods@[j].1, mods@[j].2@));
                }
            },
        }
    }
    best
}

/// A module named for an address, among the first `n`: one containing it with the
/// lowest base, the earliest of equal bases.
proof fn lemma_first_lowest(mods: Seq<(u64, u64, Seq<char>)>, a: u64, n: int) -> (i: int)
    requires
        0 <= n <= mods.len(),
        exists|k: int| 0 <= k < n && mods[k].0 <= a && a < mods[k].0 + mods[k].1,
    ensures
        0 <= i < n,
        mods[i].0 <= a && a < mods[i].0 + mods[i].1,
        forall|j: int|
            0 <= j < n && mods[j].0 <= a && a < mods[j].0 + mods[j].1 ==> mods[i].0 < mods[j].0 || (
            mods[i].0 == mods[j].0 && i <= j),
    decreases n,
{
    let last = n - 1;
    if exists|k: int| 0 <= k < last && mods[k].0 <= a && a < mods[k].0 + mods[k].1 {
        let b = lemma_first_lowest(mods, a, last);
        if mods[last].0 <= a && a < mods[last].0 + mods[last].1 && mods[last].0 < mods[b].0 {
            last
        } else {
            b
        }
    } else {
        last
    }
}

/// Law: the module a maps line names for an address contains it, counting from its
/// base up to but not including its end (`base <= a < base + size`), and has the lowest
/// base among the modules that contain it; with no module containing it, no name is
/// shown. In particular a module that ends exactly at the address is never named for
/// it.
pub proof fn lemma_line_module_name(mods: Seq<(u64, u64, Seq<char>)>, a: u64)
    ensures
        (exists|k: int| 0 <= k < mods.len() && mods[k].0 <= a && a < mods[k].0 + mods[k].1) ==> exists|i: int|
            #![trigger mods[i]]
            0 <= i < mods.len() && mods[i].0 <= a && a < mods[i].0 + mods[i].1 && line_module_name(mods, a)
                == mods[i].2 && forall|j: int|
                0 <= j < mods.len() && mods[j].0 <= a && a < mods[j].0 + mods[j].1 ==> mods[i].0 <= mods[j].0,
        !(exists|k: int| 0 <= k < mods.len() && mods[k].0 <= a && a < mods[k].0 + mods[k].1) ==> line_module_name(
            mods,
            a,
        ) == Seq::<char>::empty(),
        forall|i: int| 0 <= i < mods.len() && a == mods[i].0 + mods[i].1 ==> !is_line_module(mods, a, i),
{
    if exists|k: int| 0 <= k < mods.len() && mods[k].0 <= a && a < mods[k].0 + mods[k].1 {
        let b = lemma_first_lowest(mods, a, mods.len() as int);
        assert(is_line_module(mods, a, b));
        let c = choose|i: int| is_line_module(mods, a, i);
        assert(module_contains(mods[c], a));
        assert(module_contains(mods[b], a));
        assert(c == b);
    } else {
        assert forall|i: int| !is_line_module(mods, a, i) by {
            if 0 <= i < mods.len() && module_contains(mods[i], a) {
                assert(mods[i].0 <= a && a < mods[i].0 + mods[i].1);
            }
        }
    }
}

/// One line of a process's maps file: `"<start>-<end> <perms> <module>\n"` with the
/// addresses in hexadecimal.
pub open spec fn map_line_text(start: u64, size: u64, writeable: bool, noexec: bool, module: Seq<char>) -> Seq<char> {
    hex_text(start as nat, false) + seq!['-'] + hex_text((start + size) as nat, false) + seq![' ']
        + perms_text(writeable, noexec) + seq![' '] + module + seq!['\n']
}

/// The lines of a maps file, each for a mapped range, naming the module it starts in.
pub open spec fn maps_text(
    maps: Seq<(u64, u64, bool, bool)>,
    mods: Seq<(u64, u64, Seq<char>)>,
) -> Seq<char>
    decreases maps.len(),
{
    if maps.len() == 0 {
        Seq::empty()
    } else {
        let m = maps.last();
        maps_text(maps.drop_last(), mods) + map_line_text(m.0, m.1, m.2, m.3, line_module_name(mods, m.0))
    }
}

fn push_str(s: &mut String, t: &str)
    ensures
        final(s)@ == old(s)@ + t@,
{
    let n = t.unicode_len();
    let mut i: usize = 0;
    while i < n
        invariant
            n == t@.len(),
            i <= n,
            s@ == old(s)@ + t@.take(i as int),
        decreases n - i,
    {
        let c = t.get_char(i);
        push_char(s, c);
        proof {
            assert(t@.take(i + 1) =~= t@.take(i as int).push(c));
            assert(old(s)@ + t@.take(i + 1) =~= (old(s)@ + t@.take(i as int)).push(c));
        }
        i = i + 1;
    }
    proof {
        assert(t@.take(n as int) =~= t@);
    }
}

fn push_module_name(s: &mut String, mods: &Vec<(u64, u64, String)>, a: u64)
    ensures
        final(s)@ == old(s)@ + line_module_name(mods_view(mods@), a),
{
    let ghost mv = mods_view(mods@);
    match line_module(mods, a) {
        Some(i) => {
            proof {
                let k = choose|k: int| is_line_module(mv, a, k);
                assert(is_line_module(mv, a, i as int));
                assert(mv[k].0 < mv[i as int].0 || (mv[k].0 == mv[i as int].0 && k <= i));
                assert(mv[i as int].0 < mv[k].0 || (mv[i as int].0 == mv[k].0 && i <= k));
                assert(k == i);
                assert(mv[i as int].2 == mods@[i as int].2@);
            }
            push_str(s, mods[i].2.as_str());
        },
        None => {
            proof {
                assert(!exists|k: int| is_line_module(mv, a, k));
                assert(old(s)@ + Seq::<char>::empty() =~= old(s)@);
            }
        },
    }
}

/// The maps file of a process: one line per mapped range (start, size, writeable,
/// no-execute), naming the module that contains its start.
pub fn format_maps(maps: &Vec<(u64, u64, bool, bool)>, mods: &Vec<(u64, u64, String)>) -> (s: String)
    requires
        forall|i: int| 0 <= i < maps@.len() ==> maps@[i].0 + maps@[i].1 <= u64::MAX,
    ensures
        s@ == maps_text(maps@, mods_view(mods@)),
{
    let mut s = String::new();
    let mut k: usize = 0;
    while k < maps.len()
        invariant
            k <= maps.len(),
            forall|i: int| 0 <= i < maps@.len() ==> maps@[i].0 + maps@[i].1 <= u64::MAX,
            s@ == maps_text(maps@.take(k as int), mods_view(mods@)),
        decreases maps.len() - k,
    {
        let (start, size, w, nx) = maps[k];
        let ghost before = s@;
        push_hex(&mut s, start, false);
        push_char(&mut s, '-');
        push_hex(&mut s, start + size, false);
        push_char(&mut s, ' ');
        let p = format_perms(w, nx);
        push_str(&mut s, p.as_str());
        push_char(&mut s, ' ');
        push_module_name(&mut s, mods, start);
        push_char(&mut s, '\n');
        proof {
            let t = maps@.take(k + 1);
            assert(t.drop_last() =~= maps@.take(k as int));
            assert(t.last() == maps@[k as int]);
            assert(s@ =~= before + map_line_text(start, size, w, nx, line_module_name(mods_view(mods@), start)));
        }
        k = k + 1;
    }
    proof {
        assert(maps@.take(maps@.len() as int) =~= maps@);
    }
    s
}

/// `s` right-aligned in a field of `w` characters (padded with spaces on the left).
pub open spec fn pad_left(s: Seq<char>, w: nat) -> Seq<char> {
    if s.len() < w {
        Seq::new((w - s.len()) as nat, |i: int| ' ') + s
    } else {
        s
    }
}

/// One line of a process's physical maps file: `"<start>-<end> <perms> <phys> <module>\n"`,
/// all addresses in hexadecimal and the physical one right-aligned in nine characters.
pub open spec fn phys_line_text(
    start: u64,
    size: u64,
    phys: u64,
    writeable: bool,
    noexec: bool,
    module: Seq<char>,
) -> Seq<char> {
    hex_text(start as nat, false) + seq!['-'] + hex_text((start + size) as nat, false) + seq![' ']
        + perms_text(writeable, noexec) + seq![' '] + pad_left(hex_text(phys as nat, false), 9) + seq![' ']
        + module + seq!['\n']
}

/// The lines of a physical maps file, each for a translated range.
pub open spec fn phys_maps_text(
    maps: Seq<(u64, u64, u64, bool, bool)>,
    mods: Seq<(u64, u64, Seq<char>)>,
) -> Seq<char>
    decreases maps.len(),
{
    if maps.len() == 0 {
        Seq::empty()
    } else {
        let m = maps.last();
        phys_maps_text(maps.drop_last(), mods) + phys_line_text(
            m.0,
            m.1,
            m.2,
            m.3,
            m.4,
            line_module_name(mods, m.0),
        )
    }
}

fn push_padded_hex(s: &mut String, v: u64, w: usize)
    ensures
        final(s)@ == old(s)@ + pad_left(hex_text(v as nat, false), w as nat),
{
    let mut digits = String::new();
    push_hex(&mut digits, v, false);
    assert(digits@ =~= hex_text(v as nat, false));
    let n = digits.as_str().unicode_len();
    let mut i: usize = n;
    let ghost start = s@;
    while i < w
        invariant
            n <= i,
            n >= w ==> i == n,
            n < w ==> i <= w,
            s@ == start + Seq::new((i - n) as nat, |j: int| ' '),
        decreases w - i,
    {
        push_char(s, ' ');
        proof {
            assert(s@ =~= start + Seq::new((i + 1 - n) as nat, |j: int| ' '));
        }
        i = i + 1;
    }
    let ghost mid = s@;
    push_str(s, digits.as_str());
    proof {
        if n < w {
            assert(i == w);
            assert(s@ =~= old(s)@ + pad_left(hex_text(v as nat, false), w as nat));
        } else {
            assert(i == n);
            assert(s@ =~= old(s)@ + pad_left(hex_text(v as nat, false), w as nat));
        }
    }
}

fn push_phys_line(
    s: &mut String,
    start: u64,
    size: u64,
    phys: u64,
    w: bool,
    nx: bool,
    mods: &Vec<(u64, u64, String)>,
)
    requires
        start + size <= u64::MAX,
    ensures
        final(s)@ == old(s)@ + phys_line_text(start, size, phys, w, nx, line_module_name(mods_view(mods@), start)),
{
    push_hex(s, start, false);
    push_char(s, '-');
    push_hex(s, start + size, false);
    push_char(s, ' ');
    let p = format_perms(w, nx);
    push_str(s, p.as_str());
    push_char(s, ' ');
    push_padded_hex(s, phys, 9);
    push_char(s, ' ');
    push_module_name(s, mods, start);
    push_char(s, '\n');
    proof {
        assert(s@ =~= old(s)@ + phys_line_text(start, size, phys, w, nx, line_module_name(mods_view(mods@), start)));
    }
}

/// The physical maps file of a process: one line per translated range (virtual start,
/// size, physical address, writeable, no-execute), naming the module that contains its
/// start.
pub fn format_phys_maps(maps: &Vec<(u64, u64, u64, bool, bool)>, mods: &Vec<(u64, u64, String)>) -> (s: String)
    requires
        forall|i: int| 0 <= i < maps@.len() ==> maps@[i].0 + maps@[i].1 <= u64::MAX,
    ensures
        s@ == phys_maps_text(maps@, mods_view(mods@)),
{
    let mut s = String::new();
    let mut k: usize = 0;
    while k < maps.len()
        invariant
            k <= maps.len(),
            forall|i: int| 0 <= i < maps@.len() ==> maps@[i].0 + maps@[i].1 <= u64::MAX,
            s@ == phys_maps_text(maps@.take(k as int), mods_view(mods@)),
        decreases maps.len() - k,
    {
        let (start, size, phys, w, nx) = maps[k];
        push_phys_line(&mut s, start, size, phys, w, nx, mods);
        proof {
            let t = maps@.take(k + 1);
            assert(t.drop_last() =~= maps@.take(k as int));
            assert(t.last() == maps@[k as int]);
        }
        k = k + 1;
    }
    proof {
        assert(maps@.take(maps@.len() as int) =~= maps@);
    }
    s
}

/// A piece of a request to a module's memory, moved into the process's memory: the
/// process address, the meta address, where the piece starts in the request's buffer,
/// and its length.
pub type Piece = (u64, u64, u64, u64);

/// How a request at `addr` (relative to the module) for `len` bytes is passed on: the
/// part up to the module's end, then the rest, each at the module's base plus its
/// offset; empty parts are left out.
pub open spec fn module_pieces(m: ModuleSpan, addr: u64, meta: u64, len: u64) -> Seq<Piece> {
    let split = m.size - addr;
    let left = if split < len { split } else { len as int };
    let first: Seq<Piece> = if left > 0 {
        seq![((m.base + addr) as u64, (m.base + meta) as u64, 0u64, left as u64)]
    } else {
        Seq::empty()
    };
    if len > split {
        first.push(((m.base + addr + split) as u64, (m.base + meta + split) as u64, split as u64, (len - split) as u64))
    } else {
        first
    }
}

/// Moves a request to a module's memory into the process's memory. The request must
/// start inside the module, the module must end inside the address space, and the
/// meta address of a part past the module's end must be representable.
pub fn module_request(m: ModuleSpan, addr: u64, meta: u64, len: u64) -> (v: Vec<Piece>)
    requires
        addr <= m.size,
        m.base + m.size <= u64::MAX,
        m.base + meta + (if len > m.size - addr {
            m.size - addr
        } else {
            0
        }) <= u64::MAX,
    ensures
        v@ == module_pieces(m, addr, meta, len),
{
    let split = m.size - addr;
    let left = if split < len { split } else { len };
    let mut v: Vec<Piece> = Vec::new();
    if left > 0 {
        v.push((m.base + addr, m.base + meta, 0, left));
    }
    if len > split {
        v.push((m.base + addr + split, m.base + meta + split, split, len - split));
    }
    proof {
        assert(v@ =~= module_pieces(m, addr, meta, len));
    }
    v
}

/// Where the outcome of a moved piece is reported: a process address inside the module
/// is reported as done, one past it as failed, both relative to the module's base.
pub fn module_outcome(m: ModuleSpan, addr: u64) -> (r: (bool, u64))
    requires
        m.base <= addr,
        m.base + m.size <= u64::MAX,
    ensures
        r.0 == (addr < m.base + m.size),
        r.1 == addr - m.base,
{
    (addr < m.base + m.size, addr - m.base)
}

/// The pieces of a request to a module's memory cover the request: their lengths add
/// up to its length, each starts in the buffer where the one before ended, and each
/// goes to the module's base plus the request's address plus its place in the buffer.
pub proof fn lemma_module_pieces_cover(m: ModuleSpan, addr: u64, meta: u64, len: u64)
    requires
        addr <= m.size,
        m.base + m.size <= u64::MAX,
        m.base + meta + (if len > m.size - addr {
            m.size - addr
        } else {
            0
        }) <= u64::MAX,
    ensures
        ({
            let ps = module_pieces(m, addr, meta, len);
            &&& ps.len() <= 2
            &&& (ps.len() == 0 <==> len == 0)
            &&& (ps.len() > 0 ==> ps[0].2 == 0)
            &&& (ps.len() == 2 ==> ps[1].2 == ps[0].3)
            &&& (ps.len() == 1 ==> ps[0].3 == len)
            &&& (ps.len() == 2 ==> ps[0].3 + ps[1].3 == len)
            &&& forall|i: int| 0 <= i < ps.len() ==> ps[i].0 == m.base + addr + ps[i].2 && ps[i].1 == m.base + meta + ps[i].2
        }),
{
}

} // verus!
