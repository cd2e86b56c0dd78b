//! Register descriptors, chunked register values and the generic register
//! access engine.
//!
//! The engine does not touch the hypervisor itself: it produces the ordered
//! list of attribute accesses that a save or a restore consists of, and turns
//! the values that those accesses returned into register state. A [`Session`]
//! walks such a list one access at a time and records the replies.
use vstd::prelude::*;

verus! {

/// Description of one hardware register: its offset within the device's
/// control block and its width in bytes.
#[derive(Debug, Clone, Copy, PartialEq, Eq, Structural)]
pub struct SimpleReg {
    pub offset: u64,
    pub size: u16,
}

impl SimpleReg {
    /// A register at `offset` of `size` bytes.
    pub fn new(offset: u64, size: u16) -> (r: SimpleReg)
        ensures
            r.offset == offset,
            r.size == size,
    {
        SimpleReg { offset, size }
    }
}

/// The content of one register, as one or more words of the chunk type.
#[derive(Debug, Clone, Default)]
pub struct GicRegState<T> {
    pub chunks: Vec<T>,
}

/// Errors of interrupt-controller save and restore.
#[derive(Debug, Clone, Copy, PartialEq, Eq, Structural)]
pub enum Error {
    /// A device attribute access failed: the OS error code, whether the access
    /// was a write (a control counts as one), and the index of the register in
    /// its group.
    DeviceAttribute(i32, bool, u32),
    /// The number of vCPU states differs from the number of affinity ids.
    InconsistentVcpuCount,
    /// A CPU-interface register that every core has is missing from the state.
    InvalidVgicSysRegState,
}

/// The part of `v` that a word of `w` bytes holds.
pub open spec fn fit_width(v: u64, w: u64) -> u64 {
    if w == 4 {
        v as u32 as u64
    } else {
        v
    }
}

/// A word type in which register values cross the attribute interface.
pub trait RegChunk: Copy + Sized {
    /// Width of the word in bytes.
    spec fn spec_width() -> u64;

    /// The word, widened to 64 bits.
    spec fn spec_word(self) -> u64;

    /// The word that an access of this width leaves of a 64-bit value.
    spec fn spec_from_word(w: u64) -> Self;

    /// Narrowing to the word and widening again keeps the low bytes that fit.
    proof fn lemma_round(v: u64)
        ensures
            Self::spec_from_word(v).spec_word() == fit_width(v, Self::spec_width()),
    ;

    fn width() -> (r: u64)
        ensures
            r == Self::spec_width(),
            r == 4 || r == 8,
    ;

    fn from_word(w: u64) -> (r: Self)
        ensures
            r == Self::spec_from_word(w),
    ;

    fn to_word(self) -> (r: u64)
        ensures
            r == self.spec_word(),
    ;
}

impl RegChunk for u32 {
    open spec fn spec_width() -> u64 {
        4
    }

    open spec fn spec_word(self) -> u64 {
        self as u64
    }

    open spec fn spec_from_word(w: u64) -> u32 {
        w as u32
    }

    proof fn lemma_round(v: u64) {
    }

    fn width() -> (r: u64) {
        4
    }

    fn from_word(w: u64) -> (r: u32) {
        w as u32
    }

    fn to_word(self) -> (r: u64) {
        self as u64
    }
}

impl RegChunk for u64 {
    open spec fn spec_width() -> u64 {
        8
    }

    open spec fn spec_word(self) -> u64 {
        self
    }

    open spec fn spec_from_word(w: u64) -> u64 {
        w
    }

    proof fn lemma_round(v: u64) {
    }

    fn width() -> (r: u64) {
        8
    }

    fn from_word(w: u64) -> (r: u64) {
        w
    }

    fn to_word(self) -> (r: u64) {
        self
    }
}

/// What an attribute access does.
#[derive(Debug, Clone, Copy, PartialEq, Eq, Structural)]
pub enum AccessKind {
    /// Read the attribute into a word of the access width.
    Read,
    /// Write the word to the attribute.
    Write(u64),
    /// Trigger a control attribute, which carries no data.
    Control,
}

/// One primitive device attribute access.
#[derive(Debug, Clone, Copy, PartialEq, Eq, Structural)]
pub struct Access {
    pub group: u32,
    pub attr: u64,
    /// Width in bytes of the word moved, 4 or 8.
    pub width: u64,
    /// Index of the register in its group's descriptor list.
    pub reg_index: u32,
    pub kind: AccessKind,
}

/// A register group of the attribute namespace: its group id and where the
/// vCPU selector goes in an attribute id.
#[derive(Debug, Clone, Copy, PartialEq, Eq, Structural)]
pub struct RegGroup {
    pub group: u32,
    /// Mask applied to the selector after it is shifted to the high word.
    pub selector_mask: u64,
}

/// Attribute id of the register at `offset` for the vCPU `selector`: the
/// selector in the high word under `mask`, the offset in the low word.
pub open spec fn attr_of(selector: u64, offset: u64, mask: u64) -> u64 {
    ((selector << 32u64) & mask) | (offset & 0xffff_ffffu64)
}

/// Composes the attribute id of the register at `offset` for `selector`.
pub fn attr_id(selector: u64, offset: u64, mask: u64) -> (r: u64)
    ensures
        r == attr_of(selector, offset, mask),
{
    ((selector << 32u64) & mask) | (offset & 0xffff_ffffu64)
}

/// Number of words of width `w` that carry a register of `size` bytes.
pub open spec fn chunk_count(size: u16, w: u64) -> nat {
    if w == 0 {
        0
    } else {
        ((size + w - 1) / (w as int)) as nat
    }
}

/// Whether every register of `regs` ends within the 64-bit offset space.
pub open spec fn regs_fit(regs: Seq<SimpleReg>) -> bool {
    forall|i: int| 0 <= i < regs.len() ==> #[trigger] regs[i].offset + regs[i].size <= u64::MAX
}

/// The reads of one register, chunk by chunk.
pub open spec fn reg_gets(g: RegGroup, sel: u64, reg: SimpleReg, w: u64, idx: u32) -> Seq<Access> {
    Seq::new(
        chunk_count(reg.size, w),
        |k: int|
            Access {
                group: g.group,
                attr: attr_of(sel, (reg.offset + k * w) as u64, g.selector_mask),
                width: w,
                reg_index: idx,
                kind: AccessKind::Read,
            },
    )
}

/// The reads of a list of registers, in order.
pub open spec fn gets(g: RegGroup, sel: u64, regs: Seq<SimpleReg>, w: u64) -> Seq<Access>
    decreases regs.len(),
{
    if regs.len() == 0 {
        Seq::empty()
    } else {
        gets(g, sel, regs.drop_last(), w) + reg_gets(
            g,
            sel,
            regs.last(),
            w,
            (regs.len() - 1) as u32,
        )
    }
}

/// Number of words that a list of registers takes.
pub open spec fn words(regs: Seq<SimpleReg>, w: u64) -> nat
    decreases regs.len(),
{
    if regs.len() == 0 {
        0
    } else {
        words(regs.drop_last(), w) + chunk_count(regs.last().size, w)
    }
}

/// Register values gathered from the replies `vals` to [`gets`].
pub open spec fn gather<T: RegChunk>(regs: Seq<SimpleReg>, vals: Seq<u64>) -> Seq<Seq<T>>
    decreases regs.len(),
{
    if regs.len() == 0 {
        Seq::empty()
    } else {
        let pre = words(regs.drop_last(), T::spec_width()) as int;
        let n = chunk_count(regs.last().size, T::spec_width()) as int;
        gather::<T>(regs.drop_last(), vals).push(
            vals.subrange(pre, pre + n).map_values(|v: u64| T::spec_from_word(v)),
        )
    }
}

/// The writes of one register's chunks; chunks beyond the register's width, or
/// missing ones, are not written.
pub open spec fn reg_sets<T: RegChunk>(
    g: RegGroup,
    sel: u64,
    reg: SimpleReg,
    chunks: Seq<T>,
    idx: u32,
) -> Seq<Access> {
    let w = T::spec_width();
    Seq::new(
        vstd::math::min(chunk_count(reg.size, w) as int, chunks.len() as int) as nat,
        |k: int|
            Access {
                group: g.group,
                attr: attr_of(sel, (reg.offset + k * w) as u64, g.selector_mask),
                width: w,
                reg_index: idx,
                kind: AccessKind::Write(chunks[k].spec_word()),
            },
    )
}

/// The writes of the first `n` registers of `regs` with the values `vals`.
pub open spec fn sets<T: RegChunk>(
    g: RegGroup,
    sel: u64,
    regs: Seq<SimpleReg>,
    vals: Seq<Seq<T>>,
    n: nat,
) -> Seq<Access>
    decreases n,
{
    if n == 0 {
        Seq::empty()
    } else {
        sets(g, sel, regs, vals, (n - 1) as nat) + reg_sets(
            g,
            sel,
            regs[n - 1],
            vals[n - 1],
            (n - 1) as u32,
        )
    }
}

/// The writes of a list of registers: one value list per register, paired by
/// position; registers without a value are not written.
pub open spec fn all_sets<T: RegChunk>(
    g: RegGroup,
    sel: u64,
    regs: Seq<SimpleReg>,
    vals: Seq<Seq<T>>,
) -> Seq<Access> {
    sets(g, sel, regs, vals, vstd::math::min(regs.len() as int, vals.len() as int) as nat)
}

/// The view of a list of register states: the words of each.
pub open spec fn state_view<T>(v: Seq<GicRegState<T>>) -> Seq<Seq<T>> {
    v.map_values(|s: GicRegState<T>| s.chunks@)
}

/// The writes that give back, in the order they were read, the values that
/// the reads `plan` returned.
pub open spec fn write_back(plan: Seq<Access>, vals: Seq<u64>) -> Seq<Access> {
    Seq::new(
        plan.len(),
        |p: int| Access { kind: AccessKind::Write(fit_width(vals[p], plan[p].width)), ..plan[p] },
    )
}

/// Appends to `out` the reads of the register `reg`, at index `idx`.
fn push_reg_gets<T: RegChunk>(
    g: RegGroup,
    sel: u64,
    reg: SimpleReg,
    idx: u32,
    out: &mut Vec<Access>,
)
    requires
        reg.offset + reg.size <= u64::MAX,
    ensures
        final(out)@ == old(out)@ + reg_gets(g, sel, reg, T::spec_width(), idx),
{
    let w = T::width();
    let n: u64 = (reg.size as u64 + w - 1) / w;
    let ghost spec_gets = reg_gets(g, sel, reg, T::spec_width(), idx);
    let mut k: u64 = 0;
    while k < n
        invariant
            w == T::spec_width(),
            w == 4 || w == 8,
            n == chunk_count(reg.size, w),
            k <= n,
            reg.offset + reg.size <= u64::MAX,
            spec_gets == reg_gets(g, sel, reg, T::spec_width(), idx),
            out@ == old(out)@ + spec_gets.take(k as int),
        decreases n - k,
    {
        assert(k * w < reg.size) by (nonlinear_arith)
            requires
                k < n,
                n == (reg.size + w - 1) / (w as int),
                w > 0,
        ;
        let off = reg.offset + k * w;
        out.push(
            Access {
                group: g.group,
                attr: attr_id(sel, off, g.selector_mask),
                width: w,
                reg_index: idx,
                kind: AccessKind::Read,
            },
        );
        proof {
            assert(spec_gets.take(k + 1) =~= spec_gets.take(k as int).push(spec_gets[k as int]));
        }
        k = k + 1;
    }
    assert(spec_gets.take(n as int) =~= spec_gets);
}

/// Appends to `out` the reads of the registers `regs`, for the vCPU `sel`.
pub fn push_gets<T: RegChunk>(g: RegGroup, sel: u64, regs: &Vec<SimpleReg>, out: &mut Vec<Access>)
    requires
        regs_fit(regs@),
        regs@.len() <= u32::MAX,
    ensures
        final(out)@ == old(out)@ + gets(g, sel, regs@, T::spec_width()),
{
    let mut i: usize = 0;
    while i < regs.len()
        invariant
            i <= regs@.len(),
            regs_fit(regs@),
            regs@.len() <= u32::MAX,
            out@ == old(out)@ + gets(g, sel, regs@.take(i as int), T::spec_width()),
        decreases regs@.len() - i,
    {
        let reg = regs[i];
        assert(reg.offset + reg.size <= u64::MAX);
        push_reg_gets::<T>(g, sel, reg, i as u32, out);
        proof {
            let t = regs@.take(i + 1);
            assert(t.drop_last() =~= regs@.take(i as int));
            assert(t.last() == reg);
            assert(out@ =~= old(out)@ + gets(g, sel, t, T::spec_width()));
        }
        i = i + 1;
    }
    assert(regs@.take(regs@.len() as int) =~= regs@);
}

/// The view of a list of optional register states: the words of each, none
/// for an absent register.
pub open spec fn opt_state_view<T>(v: Seq<Option<GicRegState<T>>>) -> Seq<Seq<T>> {
    v.map_values(
        |o: Option<GicRegState<T>>|
            match o {
                Some(s) => s.chunks@,
                None => Seq::empty(),
            },
    )
}

pub proof fn lemma_gets_len(g: RegGroup, sel: u64, regs: Seq<SimpleReg>, w: u64)
    ensures
        gets(g, sel, regs, w).len() == words(regs, w),
    decreases regs.len(),
{
    if regs.len() > 0 {
        lemma_gets_len(g, sel, regs.drop_last(), w);
    }
}

proof fn lemma_words_prefix(regs: Seq<SimpleReg>, w: u64, i: int)
    requires
        0 <= i <= regs.len(),
    ensures
        words(regs.take(i), w) <= words(regs, w),
    decreases regs.len(),
{
    if i < regs.len() {
        lemma_words_prefix(regs.drop_last(), w, i);
        assert(regs.drop_last().take(i) =~= regs.take(i));
    } else {
        assert(regs.take(i) =~= regs);
    }
}

/// Number of words of width `w` that carry a register of `size` bytes.
fn chunk_words(size: u16, w: u64) -> (n: usize)
    requires
        w == 4 || w == 8,
    ensures
        n == chunk_count(size, w),
{
    (size as usize + w as usize - 1) / (w as usize)
}

/// Register states from the replies to the reads of `regs` that start at
/// `start` in `vals`.
pub fn gather_regs<T: RegChunk>(regs: &Vec<SimpleReg>, vals: &Vec<u64>, start: usize) -> (r: Vec<
    GicRegState<T>,
>)
    requires
        start + words(regs@, T::spec_width()) <= vals@.len(),
    ensures
        state_view(r@) == gather::<T>(
            regs@,
            vals@.subrange(start as int, start + words(regs@, T::spec_width())),
        ),
{
    let w = T::width();
    let ghost total = words(regs@, w);
    let ghost sub = vals@.subrange(start as int, start + total);
    let mut out: Vec<GicRegState<T>> = Vec::new();
    let vl = vals.len();
    let mut pos: usize = start;
    let mut i: usize = 0;
    while i < regs.len()
        invariant
            w == T::spec_width(),
            w == 4 || w == 8,
            total == words(regs@, w),
            sub == vals@.subrange(start as int, start + total),
            start + total <= vals@.len(),
            vl == vals@.len(),
            i <= regs@.len(),
            pos == start + words(regs@.take(i as int), w),
            state_view(out@) == gather::<T>(regs@.take(i as int), sub),
        decreases regs@.len() - i,
    {
        let reg = regs[i];
        let n = chunk_words(reg.size, w);
        let ghost t = regs@.take(i + 1);
        proof {
            assert(t.drop_last() =~= regs@.take(i as int));
            assert(t.last() == reg);
            lemma_words_prefix(regs@, w, i + 1);
            assert(words(t, w) == words(regs@.take(i as int), w) + chunk_count(reg.size, w));
        }
        let mut chunks: Vec<T> = Vec::new();
        let mut k: usize = 0;
        while k < n
            invariant
                start <= pos,
                pos + n <= start + total,
                start + total <= vals@.len(),
                vl == vals@.len(),
                sub == vals@.subrange(start as int, start + total),
                k <= n,
                chunks@ == sub.subrange(pos - start, pos - start + k).map_values(
                    |v: u64| T::spec_from_word(v),
                ),
            decreases n - k,
        {
            chunks.push(T::from_word(vals[pos + k]));
            proof {
                assert(chunks@ =~= sub.subrange(pos - start, pos - start + k + 1).map_values(
                    |v: u64| T::spec_from_word(v),
                ));
            }
            k = k + 1;
        }
        out.push(GicRegState { chunks });
        proof {
            assert(state_view(out@) =~= gather::<T>(t, sub));
        }
        pos = pos + n;
        i = i + 1;
    }
    assert(regs@.take(regs@.len() as int) =~= regs@);
    out
}

/// Appends to `out` the writes of the words `chunks` of the register `reg`.
fn push_reg_sets<T: RegChunk>(
    g: RegGroup,
    sel: u64,
    reg: SimpleReg,
    chunks: &Vec<T>,
    idx: u32,
    out: &mut Vec<Access>,
)
    requires
        reg.offset + reg.size <= u64::MAX,
    ensures
        final(out)@ == old(out)@ + reg_sets(g, sel, reg, chunks@, idx),
{
    let w = T::width();
    let c = chunk_words(reg.size, w);
    let n = if c < chunks.len() {
        c
    } else {
        chunks.len()
    };
    let ghost spec_sets = reg_sets(g, sel, reg, chunks@, idx);
    let mut k: usize = 0;
    while k < n
        invariant
            w == T::spec_width(),
            w == 4 || w == 8,
            c == chunk_count(reg.size, w),
            n == vstd::math::min(c as int, chunks@.len() as int),
            k <= n,
            reg.offset + reg.size <= u64::MAX,
            spec_sets == reg_sets(g, sel, reg, chunks@, idx),
            out@ == old(out)@ + spec_sets.take(k as int),
        decreases n - k,
    {
        let kk = k as u64;
        assert(kk * w < reg.size) by (nonlinear_arith)
            requires
                kk < c,
                c == (reg.size + w - 1) / (w as int),
                w > 0,
        ;
        let off = reg.offset + kk * w;
        out.push(
            Access {
                group: g.group,
                attr: attr_id(sel, off, g.selector_mask),
                width: w,
                reg_index: idx,
                kind: AccessKind::Write(chunks[k].to_word()),
            },
        );
        proof {
            assert(spec_sets.take(k + 1) =~= spec_sets.take(k as int).push(spec_sets[k as int]));
        }
        k = k + 1;
    }
    assert(spec_sets.take(n as int) =~= spec_sets);
}

/// Appends to `out` the writes of the register states `vals` to the registers
/// `regs`, paired by position, for the vCPU `sel`.
pub fn push_sets<T: RegChunk>(
    g: RegGroup,
    sel: u64,
    regs: &Vec<SimpleReg>,
    vals: &Vec<GicRegState<T>>,
    out: &mut Vec<Access>,
)
    requires
        regs_fit(regs@),
        regs@.len() <= u32::MAX,
    ensures
        final(out)@ == old(out)@ + all_sets(g, sel, regs@, state_view(vals@)),
{
    let ghost view = state_view(vals@);
    let n = if regs.len() < vals.len() {
        regs.len()
    } else {
        vals.len()
    };
    let mut i: usize = 0;
    while i < n
        invariant
            n == vstd::math::min(regs@.len() as int, vals@.len() as int),
            i <= n,
            regs_fit(regs@),
            regs@.len() <= u32::MAX,
            view == state_view(vals@),
            out@ == old(out)@ + sets(g, sel, regs@, view, i as nat),
        decreases n - i,
    {
        let reg = regs[i];
        assert(reg.offset + reg.size <= u64::MAX);
        push_reg_sets(g, sel, reg, &vals[i].chunks, i as u32, out);
        proof {
            assert(view[i as int] == vals@[i as int].chunks@);
            assert(out@ =~= old(out)@ + sets(g, sel, regs@, view, (i + 1) as nat));
        }
        i = i + 1;
    }
}

/// Appends to `out` the writes of the optional register states `vals` to the
/// registers `regs`, paired by position; an absent state writes nothing.
pub fn push_opt_sets<T: RegChunk>(
    g: RegGroup,
    sel: u64,
    regs: &Vec<SimpleReg>,
    vals: &Vec<Option<GicRegState<T>>>,
    out: &mut Vec<Access>,
)
    requires
        regs_fit(regs@),
        regs@.len() <= u32::MAX,
    ensures
        final(out)@ == old(out)@ + all_sets(g, sel, regs@, opt_state_view(vals@)),
{
    let ghost view = opt_state_view(vals@);
    let n = if regs.len() < vals.len() {
        regs.len()
    } else {
        vals.len()
    };
    let mut i: usize = 0;
    while i < n
        invariant
            n == vstd::math::min(regs@.len() as int, vals@.len() as int),
            i <= n,
            regs_fit(regs@),
            regs@.len() <= u32::MAX,
            view == opt_state_view(vals@),
            out@ == old(out)@ + sets(g, sel, regs@, view, i as nat),
        decreases n - i,
    {
        let reg = regs[i];
        assert(reg.offset + reg.size <= u64::MAX);
        match &vals[i] {
            Some(state) => {
                push_reg_sets(g, sel, reg, &state.chunks, i as u32, out);
            },
            None => {
                assert(reg_sets(g, sel, reg, view[i as int], i as u32) =~= Seq::empty());
            },
        }
        proof {
            assert(out@ =~= old(out)@ + sets(g, sel, regs@, view, (i + 1) as nat));
        }
        i = i + 1;
    }
}

pub proof fn lemma_gather_len<T: RegChunk>(regs: Seq<SimpleReg>, vals: Seq<u64>)
    ensures
        gather::<T>(regs, vals).len() == regs.len(),
    decreases regs.len(),
{
    if regs.len() > 0 {
        lemma_gather_len::<T>(regs.drop_last(), vals);
    }
}

proof fn lemma_sets_prefix<T: RegChunk>(
    g: RegGroup,
    sel: u64,
    r1: Seq<SimpleReg>,
    v1: Seq<Seq<T>>,
    r2: Seq<SimpleReg>,
    v2: Seq<Seq<T>>,
    n: nat,
)
    requires
        forall|j: int| 0 <= j < n ==> #[trigger] r1[j] == r2[j],
        forall|j: int| 0 <= j < n ==> #[trigger] v1[j] == v2[j],
    ensures
        sets(g, sel, r1, v1, n) == sets(g, sel, r2, v2, n),
    decreases n,
{
    if n > 0 {
        lemma_sets_prefix(g, sel, r1, v1, r2, v2, (n - 1) as nat);
        assert(r1[n - 1] == r2[n - 1]);
        assert(v1[n - 1] == v2[n - 1]);
    }
}

/// Writing back the register states gathered from the replies to the reads
/// of a register group writes each value read to the attribute it was read
/// from, in the order of the reads.
pub proof fn lemma_write_back<T: RegChunk>(
    g: RegGroup,
    sel: u64,
    regs: Seq<SimpleReg>,
    vals: Seq<u64>,
)
    requires
        vals.len() >= words(regs, T::spec_width()),
    ensures
        all_sets(g, sel, regs, gather::<T>(regs, vals)) == write_back(
            gets(g, sel, regs, T::spec_width()),
            vals,
        ),
    decreases regs.len(),
{
    let w = T::spec_width();
    lemma_gather_len::<T>(regs, vals);
    assert forall|v: u64| #[trigger] T::spec_from_word(v).spec_word() == fit_width(v, w) by {
        T::lemma_round(v);
    }
    if regs.len() == 0 {
        assert(write_back(gets(g, sel, regs, w), vals) =~= Seq::empty());
    } else {
        let n = regs.len();
        let d = regs.drop_last();
        let gd = gather::<T>(d, vals);
        let full = gather::<T>(regs, vals);
        lemma_gather_len::<T>(d, vals);
        lemma_gets_len(g, sel, d, w);
        assert(words(regs, w) >= words(d, w));
        lemma_write_back::<T>(g, sel, d, vals);
        lemma_sets_prefix(g, sel, regs, full, d, gd, (n - 1) as nat);
        let pre = words(d, w) as int;
        let last = reg_sets(g, sel, regs.last(), full[n - 1], (n - 1) as u32);
        assert(full[n - 1].len() == chunk_count(regs.last().size, w));
        assert(write_back(gets(g, sel, regs, w), vals) =~= write_back(
            gets(g, sel, d, w),
            vals,
        ) + last);
    }
}

/// The error that a failed access reports.
pub open spec fn access_error(a: Access, code: i32) -> Error {
    Error::DeviceAttribute(code, !(a.kind is Read), a.reg_index)
}

/// Progress of a save or a restore through its list of accesses.
///
/// The accesses are performed in order, one at a time, by whoever holds the
/// device; each reply is recorded before the next access is asked for. The
/// first failure ends the session: nothing is retried.
pub struct Session {
    plan: Vec<Access>,
    replies: Vec<u64>,
    failure: Option<Error>,
    tail: Option<Error>,
}

impl Session {
    /// The accesses to perform, in order.
    pub closed spec fn plan(&self) -> Seq<Access> {
        self.plan@
    }

    /// The replies of the accesses performed so far.
    pub closed spec fn replies(&self) -> Seq<u64> {
        self.replies@
    }

    /// The error of the access that failed, if one did.
    pub closed spec fn failure(&self) -> Option<Error> {
        self.failure
    }

    /// The error that the session ends with once every access succeeded.
    pub closed spec fn tail(&self) -> Option<Error> {
        self.tail
    }

    pub open spec fn wf(&self) -> bool {
        &&& self.replies().len() <= self.plan().len()
        &&& self.failure() is Some ==> self.replies().len() < self.plan().len()
    }

    /// Whether no access is left to perform.
    pub open spec fn done(&self) -> bool {
        self.failure() is Some || self.replies().len() == self.plan().len()
    }

    /// The result of a finished session.
    pub open spec fn spec_outcome(&self) -> Result<(), Error> {
        match self.failure() {
            Some(e) => Err(e),
            None => match self.tail() {
                Some(e) => Err(e),
                None => Ok(()),
            },
        }
    }

    /// A session that performs `plan` and then ends with `tail`, if given.
    pub fn new(plan: Vec<Access>, tail: Option<Error>) -> (r: Session)
        ensures
            r.wf(),
            r.plan() == plan@,
            r.replies() == Seq::<u64>::empty(),
            r.failure() is None,
            r.tail() == tail,
    {
        Session { plan, replies: Vec::new(), failure: None, tail }
    }

    /// Number of accesses in the plan.
    pub fn len(&self) -> (r: usize)
        ensures
            r == self.plan().len(),
    {
        self.plan.len()
    }

    /// Whether no access is left to perform.
    pub fn is_done(&self) -> (r: bool)
        ensures
            r == self.done(),
    {
        self.failure.is_some() || self.replies.len() == self.plan.len()
    }

    /// The next access to perform, or none once the session is done.
    pub fn next_access(&self) -> (r: Option<Access>)
        requires
            self.wf(),
        ensures
            r is None <==> self.done(),
            r matches Some(a) ==> a == self.plan()[self.replies().len() as int],
    {
        if self.failure.is_some() || self.replies.len() == self.plan.len() {
            None
        } else {
            Some(self.plan[self.replies.len()])
        }
    }

    /// Records the reply of the next access: its value (ignored for a write),
    /// or the OS error code it failed with.
    pub fn record(&mut self, reply: Result<u64, i32>)
        requires
            old(self).wf(),
            !old(self).done(),
        ensures
            final(self).wf(),
            final(self).plan() == old(self).plan(),
            final(self).tail() == old(self).tail(),
            reply is Ok ==> final(self).failure() is None,
            reply matches Ok(v) ==> final(self).replies() == old(self).replies().push(v),
            reply is Err ==> final(self).replies() == old(self).replies(),
            reply matches Err(code) ==> final(self).failure() == Some(
                access_error(old(self).plan()[old(self).replies().len() as int], code),
            ),
    {
        match reply {
            Ok(v) => {
                self.replies.push(v);
            },
            Err(code) => {
                let a = self.plan[self.replies.len()];
                let is_write = match a.kind {
                    AccessKind::Read => false,
                    _ => true,
                };
                self.failure = Some(Error::DeviceAttribute(code, is_write, a.reg_index));
            },
        }
    }

    /// The error of the access that failed, if one did.
    pub fn failed(&self) -> (r: Option<Error>)
        ensures
            r == self.failure(),
    {
        self.failure
    }

    /// The replies of the accesses performed so far.
    pub fn replies_view(&self) -> (r: &Vec<u64>)
        ensures
            r@ == self.replies(),
    {
        &self.replies
    }

    /// The result of a finished session: the failure, else the final error,
    /// else success.
    pub fn outcome(&self) -> (r: Result<(), Error>)
        ensures
            r == self.spec_outcome(),
    {
        match self.failure {
            Some(e) => Err(e),
            None => match self.tail {
                Some(e) => Err(e),
                None => Ok(()),
            },
        }
    }
}

/// Number of words of the chunk type that the registers `regs` take.
pub fn count_words<T: RegChunk>(regs: &Vec<SimpleReg>) -> (r: usize)
    requires
        words(regs@, T::spec_width()) <= usize::MAX,
    ensures
        r == words(regs@, T::spec_width()),
{
    let w = T::width();
    let mut total: usize = 0;
    let mut i: usize = 0;
    while i < regs.len()
        invariant
            w == T::spec_width(),
            w == 4 || w == 8,
            i <= regs@.len(),
            words(regs@, w) <= usize::MAX,
            total == words(regs@.take(i as int), w),
        decreases regs@.len() - i,
    {
        let ghost t = regs@.take(i + 1);
        proof {
            assert(t.drop_last() =~= regs@.take(i as int));
            lemma_words_prefix(regs@, w, i + 1);
        }
        total = total + chunk_words(regs[i].size, w);
        i = i + 1;
    }
    assert(regs@.take(regs@.len() as int) =~= regs@);
    total
}

} // verus!
