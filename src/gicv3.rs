//! Interrupt-controller state of the revision with redistributors and
//! system-register CPU interfaces.
use vstd::prelude::*;

use crate::gicv2::VgicSysRegsState;
use crate::regs::{
    all_sets, count_words, gather, gather_regs, gets, opt_state_view, push_gets, push_opt_sets,
    push_sets, regs_fit, state_view, words, write_back, Access, AccessKind, Error, GicRegState,
    RegGroup, Session, SimpleReg,
};
use crate::regs::{lemma_gets_len, lemma_write_back};

verus! {

/// Attribute group of the distributor registers.
pub const GRP_DIST_REGS: u32 = 1;

/// Attribute group of the device controls.
pub const GRP_CTRL: u32 = 4;

/// Attribute group of the redistributor registers.
pub const GRP_REDIST_REGS: u32 = 5;

/// Attribute group of the CPU-interface system registers.
pub const GRP_CPU_SYSREGS: u32 = 6;

/// Control that flushes the redistributors' pending tables to guest memory.
pub const SAVE_PENDING_TABLES: u64 = 3;

/// Register index that a failed pending-table flush reports: the flush is a
/// control, not a register, and no register group is this long.
pub const FLUSH_INDEX: u32 = 0xffff_ffff;

/// Where the affinity id goes in a per-vCPU attribute id.
pub const MPIDR_MASK: u64 = 0xffff_ffff_0000_0000;

/// State of the interrupt-controller registers of one vCPU.
#[derive(Debug, Default, Clone)]
pub struct GicVcpuState {
    pub rdist: Vec<GicRegState<u32>>,
    pub icc: VgicSysRegsState,
}

/// State of the interrupt controller.
#[derive(Debug, Default, Clone)]
pub struct GicState {
    /// Distributor registers, in the order of their descriptors.
    pub dist: Vec<GicRegState<u32>>,
    /// Per-vCPU state, in the order of the affinity ids it was saved for.
    pub gic_vcpu_states: Vec<GicVcpuState>,
}

pub open spec fn dist_group() -> RegGroup {
    RegGroup { group: GRP_DIST_REGS, selector_mask: 0 }
}

pub open spec fn redist_group() -> RegGroup {
    RegGroup { group: GRP_REDIST_REGS, selector_mask: MPIDR_MASK }
}

pub open spec fn sysreg_group() -> RegGroup {
    RegGroup { group: GRP_CPU_SYSREGS, selector_mask: MPIDR_MASK }
}

/// The access that flushes the pending tables.
pub open spec fn flush_access() -> Access {
    Access {
        group: GRP_CTRL,
        attr: SAVE_PENDING_TABLES,
        width: 0,
        reg_index: FLUSH_INDEX,
        kind: AccessKind::Control,
    }
}

/// Distributor register descriptors.
pub open spec fn dist_table() -> Seq<SimpleReg> {
    seq![
        SimpleReg { offset: 0x0000, size: 4 },
        SimpleReg { offset: 0x0010, size: 4 },
        SimpleReg { offset: 0x0080, size: 8 },
        SimpleReg { offset: 0x0100, size: 8 },
        SimpleReg { offset: 0x0200, size: 8 },
        SimpleReg { offset: 0x0300, size: 8 },
        SimpleReg { offset: 0x0400, size: 8 },
        SimpleReg { offset: 0x0c00, size: 8 },
        SimpleReg { offset: 0x0d00, size: 8 },
        SimpleReg { offset: 0x0e00, size: 8 },
        SimpleReg { offset: 0x6000, size: 8 },
        SimpleReg { offset: 0x6100, size: 8 },
    ]
}

/// Redistributor register descriptors.
pub open spec fn redist_table() -> Seq<SimpleReg> {
    seq![
        SimpleReg { offset: 0x0000, size: 4 },
        SimpleReg { offset: 0x0010, size: 4 },
        SimpleReg { offset: 0x0014, size: 4 },
        SimpleReg { offset: 0x0070, size: 8 },
        SimpleReg { offset: 0x0078, size: 8 },
        SimpleReg { offset: 0x10080, size: 4 },
        SimpleReg { offset: 0x10100, size: 4 },
        SimpleReg { offset: 0x10200, size: 4 },
        SimpleReg { offset: 0x10300, size: 4 },
        SimpleReg { offset: 0x10c00, size: 4 },
        SimpleReg { offset: 0x10c04, size: 4 },
    ]
}

/// CPU-interface system registers that every core has.
pub open spec fn main_icc_table() -> Seq<SimpleReg> {
    seq![
        SimpleReg { offset: 0xc665, size: 8 },
        SimpleReg { offset: 0xc664, size: 8 },
        SimpleReg { offset: 0xc666, size: 8 },
        SimpleReg { offset: 0xc667, size: 8 },
        SimpleReg { offset: 0xc230, size: 8 },
        SimpleReg { offset: 0xc643, size: 8 },
        SimpleReg { offset: 0xc663, size: 8 },
    ]
}

/// Active-priority registers: the first of each group of four is present on
/// every core, the others only where the core has more priority bits.
pub open spec fn ap_icc_table() -> Seq<SimpleReg> {
    seq![
        SimpleReg { offset: 0xc644, size: 8 },
        SimpleReg { offset: 0xc645, size: 8 },
        SimpleReg { offset: 0xc646, size: 8 },
        SimpleReg { offset: 0xc647, size: 8 },
        SimpleReg { offset: 0xc648, size: 8 },
        SimpleReg { offset: 0xc649, size: 8 },
        SimpleReg { offset: 0xc64a, size: 8 },
        SimpleReg { offset: 0xc64b, size: 8 },
    ]
}

fn dist_regs() -> (r: Vec<SimpleReg>)
    ensures
        r@ == dist_table(),
        regs_fit(r@),
        r@.len() == 12,
{
    let r = vec![
        SimpleReg::new(0x0000, 4),
        SimpleReg::new(0x0010, 4),
        SimpleReg::new(0x0080, 8),
        SimpleReg::new(0x0100, 8),
        SimpleReg::new(0x0200, 8),
        SimpleReg::new(0x0300, 8),
        SimpleReg::new(0x0400, 8),
        SimpleReg::new(0x0c00, 8),
        SimpleReg::new(0x0d00, 8),
        SimpleReg::new(0x0e00, 8),
        SimpleReg::new(0x6000, 8),
        SimpleReg::new(0x6100, 8),
    ];
    assert(r@ =~= dist_table());
    r
}

fn redist_regs() -> (r: Vec<SimpleReg>)
    ensures
        r@ == redist_table(),
        regs_fit(r@),
        r@.len() == 11,
{
    let r = vec![
        SimpleReg::new(0x0000, 4),
        SimpleReg::new(0x0010, 4),
        SimpleReg::new(0x0014, 4),
        SimpleReg::new(0x0070, 8),
        SimpleReg::new(0x0078, 8),
        SimpleReg::new(0x10080, 4),
        SimpleReg::new(0x10100, 4),
        SimpleReg::new(0x10200, 4),
        SimpleReg::new(0x10300, 4),
        SimpleReg::new(0x10c00, 4),
        SimpleReg::new(0x10c04, 4),
    ];
    assert(r@ =~= redist_table());
    r
}

fn main_icc_regs() -> (r: Vec<SimpleReg>)
    ensures
        r@ == main_icc_table(),
        regs_fit(r@),
        r@.len() == 7,
{
    let r = vec![
        SimpleReg::new(0xc665, 8),
        SimpleReg::new(0xc664, 8),
        SimpleReg::new(0xc666, 8),
        SimpleReg::new(0xc667, 8),
        SimpleReg::new(0xc230, 8),
        SimpleReg::new(0xc643, 8),
        SimpleReg::new(0xc663, 8),
    ];
    assert(r@ =~= main_icc_table());
    r
}

fn ap_icc_regs() -> (r: Vec<SimpleReg>)
    ensures
        r@ == ap_icc_table(),
        regs_fit(r@),
        r@.len() == 8,
{
    let r = vec![
        SimpleReg::new(0xc644, 8),
        SimpleReg::new(0xc645, 8),
        SimpleReg::new(0xc646, 8),
        SimpleReg::new(0xc647, 8),
        SimpleReg::new(0xc648, 8),
        SimpleReg::new(0xc649, 8),
        SimpleReg::new(0xc64a, 8),
        SimpleReg::new(0xc64b, 8),
    ];
    assert(r@ =~= ap_icc_table());
    r
}

/// Words of the distributor registers.
pub open spec fn dist_words() -> nat {
    words(dist_table(), 4)
}

/// Words of the redistributor registers of one vCPU.
pub open spec fn redist_words() -> nat {
    words(redist_table(), 4)
}

/// Words of the main CPU-interface registers of one vCPU.
pub open spec fn main_words() -> nat {
    words(main_icc_table(), 8)
}

/// Words of all the registers of one vCPU.
pub open spec fn vcpu_words() -> nat {
    redist_words() + main_words() + words(ap_icc_table(), 8)
}

proof fn lemma_table_words()
    ensures
        dist_words() == 22,
        redist_words() == 13,
        main_words() == 7,
        words(ap_icc_table(), 8) == 8,
        vcpu_words() == 28,
{
    reveal_with_fuel(words, 13);
}

/// The reads of the registers of one vCPU: redistributor, then CPU interface.
pub open spec fn one_vcpu_gets(mpidr: u64) -> Seq<Access> {
    gets(redist_group(), mpidr, redist_table(), 4) + gets(sysreg_group(), mpidr, main_icc_table(), 8)
        + gets(sysreg_group(), mpidr, ap_icc_table(), 8)
}

/// The reads of the registers of each vCPU, in order.
pub open spec fn vcpu_gets(mpidrs: Seq<u64>) -> Seq<Access>
    decreases mpidrs.len(),
{
    if mpidrs.len() == 0 {
        Seq::empty()
    } else {
        vcpu_gets(mpidrs.drop_last()) + one_vcpu_gets(mpidrs.last())
    }
}

/// The accesses of a save: the pending-table flush, the distributor
/// registers, then the registers of each vCPU in the order of `mpidrs`.
pub open spec fn save_plan(mpidrs: Seq<u64>) -> Seq<Access> {
    seq![flush_access()] + gets(dist_group(), 0, dist_table(), 4) + vcpu_gets(mpidrs)
}

/// Distributor state gathered from the replies of a save.
pub open spec fn saved_dist(vals: Seq<u64>) -> Seq<Seq<u32>> {
    gather::<u32>(dist_table(), vals.subrange(1, (1 + dist_words()) as int))
}

/// The register words of one vCPU: redistributor, main and active-priority
/// CPU-interface registers.
pub type VcpuWords = (Seq<Seq<u32>>, Seq<Seq<u64>>, Seq<Seq<u64>>);

/// The state of the `i`-th vCPU gathered from the replies of a save.
pub open spec fn saved_vcpu(vals: Seq<u64>, i: int) -> VcpuWords {
    let s = 1 + dist_words() + i * vcpu_words();
    let m = s + redist_words();
    let a = m + main_words();
    let e = s + vcpu_words();
    (
        gather::<u32>(redist_table(), vals.subrange(s, m)),
        gather::<u64>(main_icc_table(), vals.subrange(m, a)),
        gather::<u64>(ap_icc_table(), vals.subrange(a, e)),
    )
}

/// The register words of each vCPU of a state; an absent active-priority
/// register has no words.
pub open spec fn vcpu_view(s: GicState) -> Seq<VcpuWords> {
    s.gic_vcpu_states@.map_values(
        |v: GicVcpuState|
            (
                state_view(v.rdist@),
                state_view(v.icc.main_icc_regs@),
                opt_state_view(v.icc.ap_icc_regs@),
            ),
    )
}

/// The writes of the registers of one vCPU.
pub open spec fn one_vcpu_sets(mpidr: u64, v: VcpuWords) -> Seq<Access> {
    all_sets(redist_group(), mpidr, redist_table(), v.0) + all_sets(
        sysreg_group(),
        mpidr,
        main_icc_table(),
        v.1,
    ) + all_sets(sysreg_group(), mpidr, ap_icc_table(), v.2)
}

/// The writes of the registers of each vCPU, paired by position.
pub open spec fn vcpu_sets(mpidrs: Seq<u64>, vcpus: Seq<VcpuWords>) -> Seq<Access>
    decreases mpidrs.len(),
{
    if mpidrs.len() == 0 || vcpus.len() == 0 {
        Seq::empty()
    } else {
        vcpu_sets(mpidrs.drop_last(), vcpus.drop_last()) + one_vcpu_sets(
            mpidrs.last(),
            vcpus.last(),
        )
    }
}

/// Whether a vCPU state holds the active-priority registers that every core
/// has.
pub open spec fn ap_complete(v: GicVcpuState) -> bool {
    &&& v.icc.ap_icc_regs@.len() > 4
    &&& v.icc.ap_icc_regs@[0] is Some
    &&& v.icc.ap_icc_regs@[4] is Some
}

/// The writes of a restore: the distributor registers, then, when there is
/// one vCPU state for each affinity id, the registers of each vCPU in order.
pub open spec fn restore_plan(mpidrs: Seq<u64>, dist: Seq<Seq<u32>>, vcpus: Seq<VcpuWords>) -> Seq<
    Access,
> {
    all_sets(dist_group(), 0, dist_table(), dist) + if mpidrs.len() == vcpus.len() {
        vcpu_sets(mpidrs, vcpus)
    } else {
        Seq::empty()
    }
}

proof fn lemma_one_vcpu_gets_len(mpidr: u64)
    ensures
        one_vcpu_gets(mpidr).len() == vcpu_words(),
{
    lemma_gets_len(redist_group(), mpidr, redist_table(), 4);
    lemma_gets_len(sysreg_group(), mpidr, main_icc_table(), 8);
    lemma_gets_len(sysreg_group(), mpidr, ap_icc_table(), 8);
}

proof fn lemma_vcpu_gets_len(mpidrs: Seq<u64>)
    ensures
        vcpu_gets(mpidrs).len() == mpidrs.len() * vcpu_words(),
    decreases mpidrs.len(),
{
    if mpidrs.len() > 0 {
        lemma_vcpu_gets_len(mpidrs.drop_last());
        lemma_one_vcpu_gets_len(mpidrs.last());
        assert(mpidrs.len() * vcpu_words() == (mpidrs.len() - 1) * vcpu_words() + vcpu_words())
            by (nonlinear_arith);
    }
}

/// The session that saves the state of the vCPUs `mpidrs`.
pub fn save_session(mpidrs: &[u64]) -> (r: Session)
    ensures
        r.wf(),
        r.plan() == save_plan(mpidrs@),
        r.replies().len() == 0,
        r.failure() is None,
        r.tail() is None,
{
    let mut plan: Vec<Access> = Vec::new();
    plan.push(
        Access {
            group: GRP_CTRL,
            attr: SAVE_PENDING_TABLES,
            width: 0,
            reg_index: FLUSH_INDEX,
            kind: AccessKind::Control,
        },
    );
    let dist = dist_regs();
    let redist = redist_regs();
    let main = main_icc_regs();
    let ap = ap_icc_regs();
    push_gets::<u32>(RegGroup { group: GRP_DIST_REGS, selector_mask: 0 }, 0, &dist, &mut plan);
    let ghost pre = plan@;
    assert(pre =~= seq![flush_access()] + gets(dist_group(), 0, dist_table(), 4));
    let mut i: usize = 0;
    while i < mpidrs.len()
        invariant
            i <= mpidrs@.len(),
            redist@ == redist_table(),
            main@ == main_icc_table(),
            ap@ == ap_icc_table(),
            regs_fit(redist@),
            regs_fit(main@),
            regs_fit(ap@),
            redist@.len() == 11,
            main@.len() == 7,
            ap@.len() == 8,
            pre == seq![flush_access()] + gets(dist_group(), 0, dist_table(), 4),
            plan@ == pre + vcpu_gets(mpidrs@.take(i as int)),
        decreases mpidrs@.len() - i,
    {
        let mpidr = mpidrs[i];
        push_gets::<u32>(
            RegGroup { group: GRP_REDIST_REGS, selector_mask: MPIDR_MASK },
            mpidr,
            &redist,
            &mut plan,
        );
        push_gets::<u64>(
            RegGroup { group: GRP_CPU_SYSREGS, selector_mask: MPIDR_MASK },
            mpidr,
            &main,
            &mut plan,
        );
        push_gets::<u64>(
            RegGroup { group: GRP_CPU_SYSREGS, selector_mask: MPIDR_MASK },
            mpidr,
            &ap,
            &mut plan,
        );
        proof {
            let t = mpidrs@.take(i + 1);
            assert(t.drop_last() =~= mpidrs@.take(i as int));
            assert(plan@ =~= pre + vcpu_gets(t));
        }
        i = i + 1;
    }
    assert(mpidrs@.take(mpidrs@.len() as int) =~= mpidrs@);
    Session::new(plan, None)
}

/// Wraps each register state as present.
fn all_present(v: Vec<GicRegState<u64>>) -> (r: Vec<Option<GicRegState<u64>>>)
    ensures
        opt_state_view(r@) == state_view(v@),
        r@.len() == v@.len(),
        forall|j: int| 0 <= j < r@.len() ==> #[trigger] r@[j] == Some(v@[j]),
{
    let mut r: Vec<Option<GicRegState<u64>>> = Vec::new();
    let mut v = v;
    let ghost orig = v@;
    let ghost n = v@.len();
    while v.len() > 0
        invariant
            v@.len() + r@.len() == n,
            orig.len() == n,
            v@ == orig.take(v@.len() as int),
            forall|j: int|
                0 <= j < r@.len() ==> #[trigger] r@[j] == Some(orig[n - 1 - j]),
        decreases v@.len(),
    {
        let s = v.pop().unwrap();
        r.push(Some(s));
        assert(v@ =~= orig.take(v@.len() as int));
    }
    let mut out: Vec<Option<GicRegState<u64>>> = Vec::new();
    while r.len() > 0
        invariant
            r@.len() + out@.len() == n,
            orig.len() == n,
            forall|j: int| 0 <= j < r@.len() ==> #[trigger] r@[j] == Some(orig[n - 1 - j]),
            forall|j: int| 0 <= j < out@.len() ==> #[trigger] out@[j] == Some(orig[j]),
        decreases r@.len(),
    {
        let s = r.pop().unwrap();
        out.push(s);
    }
    assert(opt_state_view(out@) =~= state_view(orig));
    out
}

/// Save the state of the interrupt controller from a finished save session
/// of the vCPUs `mpidrs`.
///
/// A failed access, the pending-table flush among them, fails the save with
/// its error; otherwise the distributor state comes from the replies after
/// the flush and each vCPU's state from the block of replies that follows,
/// in the order of `mpidrs`, every active-priority register present.
pub fn save_state(mpidrs: &[u64], session: &Session) -> (r: Result<GicState, Error>)
    requires
        session.wf(),
        session.done(),
        session.plan() == save_plan(mpidrs@),
    ensures
        session.failure() matches Some(e) ==> r == Err::<GicState, Error>(e),
        session.failure() is None ==> r is Ok,
        r matches Ok(st) ==> {
            &&& state_view(st.dist@) == saved_dist(session.replies())
            &&& vcpu_view(st) == Seq::new(
                mpidrs@.len(),
                |i: int| saved_vcpu(session.replies(), i),
            )
            &&& forall|i: int|
                0 <= i < st.gic_vcpu_states@.len() ==> ap_complete(
                    #[trigger] st.gic_vcpu_states@[i],
                )
        },
{
    if let Some(e) = session.failed() {
        return Err(e);
    }
    let replies = session.replies_view();
    let dist_regs = dist_regs();
    let redist = redist_regs();
    let main = main_icc_regs();
    let ap = ap_icc_regs();
    proof {
        lemma_table_words();
        lemma_vcpu_gets_len(mpidrs@);
        lemma_gets_len(dist_group(), 0, dist_table(), 4);
    }
    let d = count_words::<u32>(&dist_regs);
    let rw = count_words::<u32>(&redist);
    let mw = count_words::<u64>(&main);
    let aw = count_words::<u64>(&ap);
    let c = rw + mw + aw;
    let dist = gather_regs::<u32>(&dist_regs, replies, 1);
    let mut vcpus: Vec<GicVcpuState> = Vec::new();
    let mut i: usize = 0;
    let n = mpidrs.len();
    let rl = replies.len();
    while i < n
        invariant
            rl == replies@.len(),
            n == mpidrs@.len(),
            i <= n,
            d == 22,
            rw == 13,
            mw == 7,
            aw == 8,
            c == 28,
            d == dist_words(),
            rw == redist_words(),
            mw == main_words(),
            c == vcpu_words(),
            redist@ == redist_table(),
            main@ == main_icc_table(),
            ap@ == ap_icc_table(),
            replies@ == session.replies(),
            replies@.len() == 1 + d + n * c,
            vcpus@.len() == i,
            forall|j: int|
                0 <= j < i ==> vcpu_view_one(#[trigger] vcpus@[j]) == saved_vcpu(replies@, j),
            forall|j: int| 0 <= j < i ==> ap_complete(#[trigger] vcpus@[j]),
        decreases n - i,
    {
        assert(1 + d + i * c + c <= 1 + d + n * c) by (nonlinear_arith)
            requires
                i < n,
                c == 28,
        ;
        let start = 1 + d + i * c;
        let rdist = gather_regs::<u32>(&redist, replies, start);
        let main_regs = gather_regs::<u64>(&main, replies, start + rw);
        let ap_regs = gather_regs::<u64>(&ap, replies, start + rw + mw);
        proof {
            crate::regs::lemma_gather_len::<u64>(
                ap@,
                replies@.subrange((start + rw + mw) as int, (start + rw + mw) + words(ap@, 8)),
            );
        }
        let ap_opt = all_present(ap_regs);
        vcpus.push(
            GicVcpuState {
                rdist,
                icc: VgicSysRegsState { main_icc_regs: main_regs, ap_icc_regs: ap_opt },
            },
        );
        i = i + 1;
    }
    let st = GicState { dist, gic_vcpu_states: vcpus };
    assert(vcpu_view(st) =~= Seq::new(mpidrs@.len(), |i: int| saved_vcpu(session.replies(), i)));
    Ok(st)
}

/// The register words of one vCPU state.
pub open spec fn vcpu_view_one(v: GicVcpuState) -> VcpuWords {
    (state_view(v.rdist@), state_view(v.icc.main_icc_regs@), opt_state_view(v.icc.ap_icc_regs@))
}

/// Whether every vCPU state of `state` holds the active-priority registers
/// that every core has.
pub open spec fn all_ap_complete(state: GicState) -> bool {
    forall|i: int|
        0 <= i < state.gic_vcpu_states@.len() ==> ap_complete(#[trigger] state.gic_vcpu_states@[i])
}

/// Restore the state of the interrupt controller: the session that writes the
/// distributor registers and then, when `state` holds one vCPU state for each
/// of `mpidrs`, the registers of each vCPU in the order of `mpidrs`; absent
/// active-priority registers are skipped.
///
/// When the counts differ, the session ends with
/// [`Error::InconsistentVcpuCount`] once the distributor is written, whatever
/// the vCPU states hold. When they agree but some vCPU state lacks an
/// active-priority register that every core has, the session ends with
/// [`Error::InvalidVgicSysRegState`] once the distributor is written, before
/// any vCPU register is written.
pub fn restore_state(mpidrs: &[u64], state: &GicState) -> (r: Session)
    ensures
        r.wf(),
        r.replies().len() == 0,
        r.failure() is None,
        mpidrs@.len() != state.gic_vcpu_states@.len() ==> {
            &&& r.plan() == all_sets(dist_group(), 0, dist_table(), state_view(state.dist@))
            &&& r.tail() == Some(Error::InconsistentVcpuCount)
        },
        mpidrs@.len() == state.gic_vcpu_states@.len() && !all_ap_complete(*state) ==> {
            &&& r.plan() == all_sets(dist_group(), 0, dist_table(), state_view(state.dist@))
            &&& r.tail() == Some(Error::InvalidVgicSysRegState)
        },
        mpidrs@.len() == state.gic_vcpu_states@.len() && all_ap_complete(*state) ==> {
            &&& r.plan() == restore_plan(mpidrs@, state_view(state.dist@), vcpu_view(*state))
            &&& r.tail() is None
        },
{
    let mut plan: Vec<Access> = Vec::new();
    let dist = dist_regs();
    let redist = redist_regs();
    let main = main_icc_regs();
    let ap = ap_icc_regs();
    push_sets::<u32>(
        RegGroup { group: GRP_DIST_REGS, selector_mask: 0 },
        0,
        &dist,
        &state.dist,
        &mut plan,
    );
    assert(plan@ =~= all_sets(dist_group(), 0, dist_table(), state_view(state.dist@)));
    if mpidrs.len() != state.gic_vcpu_states.len() {
        return Session::new(plan, Some(Error::InconsistentVcpuCount));
    }
    let mut k: usize = 0;
    while k < state.gic_vcpu_states.len()
        invariant
            k <= state.gic_vcpu_states@.len(),
            mpidrs@.len() == state.gic_vcpu_states@.len(),
            plan@ == all_sets(dist_group(), 0, dist_table(), state_view(state.dist@)),
            dist@ == dist_table(),
            redist@ == redist_table(),
            main@ == main_icc_table(),
            ap@ == ap_icc_table(),
            regs_fit(redist@),
            regs_fit(main@),
            regs_fit(ap@),
            redist@.len() == 11,
            main@.len() == 7,
            ap@.len() == 8,
            forall|j: int| 0 <= j < k ==> ap_complete(#[trigger] state.gic_vcpu_states@[j]),
        decreases state.gic_vcpu_states@.len() - k,
    {
        let aps = &state.gic_vcpu_states[k].icc.ap_icc_regs;
        if aps.len() <= 4 || aps[0].is_none() || aps[4].is_none() {
            assert(!ap_complete(state.gic_vcpu_states@[k as int]));
            return Session::new(plan, Some(Error::InvalidVgicSysRegState));
        }
        k = k + 1;
    }
    let ghost view = vcpu_view(*state);
    let ghost pre = plan@;
    let mut i: usize = 0;
    while i < mpidrs.len()
        invariant
            i <= mpidrs@.len(),
            mpidrs@.len() == state.gic_vcpu_states@.len(),
            redist@ == redist_table(),
            main@ == main_icc_table(),
            ap@ == ap_icc_table(),
            regs_fit(redist@),
            regs_fit(main@),
            regs_fit(ap@),
            redist@.len() == 11,
            main@.len() == 7,
            ap@.len() == 8,
            view == vcpu_view(*state),
            plan@ == pre + vcpu_sets(mpidrs@.take(i as int), view.take(i as int)),
        decreases mpidrs@.len() - i,
    {
        let mpidr = mpidrs[i];
        let v = &state.gic_vcpu_states[i];
        push_sets::<u32>(
            RegGroup { group: GRP_REDIST_REGS, selector_mask: MPIDR_MASK },
            mpidr,
            &redist,
            &v.rdist,
            &mut plan,
        );
        push_sets::<u64>(
            RegGroup { group: GRP_CPU_SYSREGS, selector_mask: MPIDR_MASK },
            mpidr,
            &main,
            &v.icc.main_icc_regs,
            &mut plan,
        );
        push_opt_sets::<u64>(
            RegGroup { group: GRP_CPU_SYSREGS, selector_mask: MPIDR_MASK },
            mpidr,
            &ap,
            &v.icc.ap_icc_regs,
            &mut plan,
        );
        proof {
            let t = mpidrs@.take(i + 1);
            let tv = view.take(i + 1);
            assert(t.drop_last() =~= mpidrs@.take(i as int));
            assert(tv.drop_last() =~= view.take(i as int));
            assert(tv.last() == vcpu_view_one(state.gic_vcpu_states@[i as int]));
            assert(plan@ =~= pre + vcpu_sets(t, tv));
        }
        i = i + 1;
    }
    assert(mpidrs@.take(mpidrs@.len() as int) =~= mpidrs@);
    assert(view.take(view.len() as int) =~= view);
    Session::new(plan, None)
}

proof fn lemma_one_vcpu_round_trip(mpidr: u64, vals: Seq<u64>, i: int)
    requires
        0 <= i,
        vals.len() >= 1 + dist_words() + (i + 1) * vcpu_words(),
    ensures
        one_vcpu_sets(mpidr, saved_vcpu(vals, i)) == write_back(
            one_vcpu_gets(mpidr),
            vals.subrange(
                1 + dist_words() + i * vcpu_words(),
                1 + dist_words() + (i + 1) * vcpu_words(),
            ),
        ),
{
    lemma_table_words();
    assert((i + 1) * 28 == i * 28 + 28) by (nonlinear_arith);
    let s = 1 + 22 + i * 28;
    lemma_write_back::<u32>(redist_group(), mpidr, redist_table(), vals.subrange(s, s + 13));
    lemma_write_back::<u64>(sysreg_group(), mpidr, main_icc_table(), vals.subrange(s + 13, s + 20));
    lemma_write_back::<u64>(sysreg_group(), mpidr, ap_icc_table(), vals.subrange(s + 20, s + 28));
    lemma_gets_len(redist_group(), mpidr, redist_table(), 4);
    lemma_gets_len(sysreg_group(), mpidr, main_icc_table(), 8);
    lemma_gets_len(sysreg_group(), mpidr, ap_icc_table(), 8);
    assert(write_back(one_vcpu_gets(mpidr), vals.subrange(s, s + 28)) =~= write_back(
        gets(redist_group(), mpidr, redist_table(), 4),
        vals.subrange(s, s + 13),
    ) + write_back(gets(sysreg_group(), mpidr, main_icc_table(), 8), vals.subrange(s + 13, s + 20))
        + write_back(gets(sysreg_group(), mpidr, ap_icc_table(), 8), vals.subrange(s + 20, s + 28)));
}

proof fn lemma_vcpu_round_trip(m: Seq<u64>, vals: Seq<u64>)
    requires
        vals.len() >= 1 + dist_words() + m.len() * vcpu_words(),
    ensures
        vcpu_sets(m, Seq::new(m.len(), |i: int| saved_vcpu(vals, i))) == write_back(
            vcpu_gets(m),
            vals.subrange(
                (1 + dist_words()) as int,
                (1 + dist_words() + m.len() * vcpu_words()) as int,
            ),
        ),
    decreases m.len(),
{
    lemma_table_words();
    let v = Seq::new(m.len(), |i: int| saved_vcpu(vals, i));
    if m.len() == 0 {
        assert(write_back(vcpu_gets(m), vals.subrange(23, 23)) =~= Seq::empty());
    } else {
        let n = m.len() as int;
        let d = m.drop_last();
        assert((n - 1) * 28 + 28 == n * 28) by (nonlinear_arith);
        lemma_vcpu_round_trip(d, vals);
        assert(v.drop_last() =~= Seq::new(d.len(), |i: int| saved_vcpu(vals, i)));
        lemma_one_vcpu_round_trip(m.last(), vals, n - 1);
        lemma_one_vcpu_gets_len(m.last());
        lemma_vcpu_gets_len(d);
        lemma_vcpu_gets_len(m);
        let start = 23 + (n - 1) * 28;
        assert(write_back(vcpu_gets(m), vals.subrange(23, 23 + n * 28)) =~= write_back(
            vcpu_gets(d),
            vals.subrange(23, 23 + (n - 1) * 28),
        ) + write_back(one_vcpu_gets(m.last()), vals.subrange(start, start + 28)));
    }
}

/// Restoring the state that a save gathered from its replies writes back each
/// value read, to the attribute it was read from, in the order of the save;
/// the pending-table flush that opens the save is not repeated.
pub proof fn lemma_save_restore_round_trip(mpidrs: Seq<u64>, vals: Seq<u64>)
    requires
        vals.len() == save_plan(mpidrs).len(),
    ensures
        restore_plan(
            mpidrs,
            saved_dist(vals),
            Seq::new(mpidrs.len(), |i: int| saved_vcpu(vals, i)),
        ) == write_back(save_plan(mpidrs).skip(1), vals.skip(1)),
{
    lemma_table_words();
    lemma_vcpu_gets_len(mpidrs);
    lemma_gets_len(dist_group(), 0, dist_table(), 4);
    let n = mpidrs.len() as int;
    lemma_vcpu_round_trip(mpidrs, vals);
    lemma_write_back::<u32>(dist_group(), 0, dist_table(), vals.subrange(1, 23));
    assert(write_back(save_plan(mpidrs).skip(1), vals.skip(1)) =~= write_back(
        gets(dist_group(), 0, dist_table(), 4),
        vals.subrange(1, 23),
    ) + write_back(vcpu_gets(mpidrs), vals.subrange(23, 23 + n * 28)));
}

/// A restore for a number of affinity ids that differs from the number of
/// vCPU states writes the distributor registers and no vCPU register.
pub proof fn lemma_count_mismatch_writes_no_vcpu(
    mpidrs: Seq<u64>,
    dist: Seq<Seq<u32>>,
    vcpus: Seq<VcpuWords>,
)
    requires
        mpidrs.len() != vcpus.len(),
    ensures
        restore_plan(mpidrs, dist, vcpus) == all_sets(dist_group(), 0, dist_table(), dist),
{
    assert(restore_plan(mpidrs, dist, vcpus) =~= all_sets(dist_group(), 0, dist_table(), dist));
}

} // verus!
