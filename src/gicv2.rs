//! Interrupt-controller state of the distributor + CPU-interface revision.
use vstd::prelude::*;

use crate::regs::{
    all_sets, count_words, gather, gather_regs, gets, push_gets, push_sets, regs_fit, state_view,
    words, write_back, Access, Error, GicRegState, RegGroup, Session, SimpleReg,
};
use crate::regs::lemma_write_back;

verus! {

/// Attribute group of the distributor registers.
pub const GRP_DIST_REGS: u32 = 1;

/// Attribute group of the CPU-interface registers.
pub const GRP_CPU_REGS: u32 = 2;

/// Where the CPU id goes in a CPU-interface attribute id.
pub const CPUID_MASK: u64 = 0xff_0000_0000;

/// State of the CPU-interface registers of one vCPU.
#[derive(Debug, Default, Clone)]
pub struct VgicSysRegsState {
    pub main_icc_regs: Vec<GicRegState<u64>>,
    pub ap_icc_regs: Vec<Option<GicRegState<u64>>>,
}

/// State of the interrupt-controller registers of one vCPU.
#[derive(Debug, Default, Clone)]
pub struct GicVcpuState {
    pub icc: VgicSysRegsState,
}

/// State of the interrupt controller.
#[derive(Debug, Default, Clone)]
pub struct Gicv2State {
    /// Distributor registers, in the order of their descriptors.
    pub dist: Vec<GicRegState<u32>>,
    /// Per-vCPU state, in the order of the affinity ids it was saved for.
    pub gic_vcpu_states: Vec<GicVcpuState>,
}

pub open spec fn dist_group() -> RegGroup {
    RegGroup { group: GRP_DIST_REGS, selector_mask: 0 }
}

pub open spec fn cpu_group() -> RegGroup {
    RegGroup { group: GRP_CPU_REGS, selector_mask: CPUID_MASK }
}

/// Distributor register descriptors.
pub open spec fn dist_table() -> Seq<SimpleReg> {
    seq![
        SimpleReg { offset: 0x000, size: 4 },
        SimpleReg { offset: 0x010, size: 4 },
        SimpleReg { offset: 0x100, size: 8 },
        SimpleReg { offset: 0x200, size: 8 },
        SimpleReg { offset: 0x300, size: 8 },
        SimpleReg { offset: 0x400, size: 8 },
        SimpleReg { offset: 0xc00, size: 8 },
    ]
}

/// CPU-interface register descriptors.
pub open spec fn icc_table() -> Seq<SimpleReg> {
    seq![
        SimpleReg { offset: 0x00, size: 4 },
        SimpleReg { offset: 0x04, size: 4 },
        SimpleReg { offset: 0x08, size: 4 },
        SimpleReg { offset: 0x1c, size: 4 },
    ]
}

/// Words of the distributor registers.
pub open spec fn dist_words() -> nat {
    words(dist_table(), 4)
}

/// Words of the CPU-interface registers of one vCPU.
pub open spec fn vcpu_words() -> nat {
    words(icc_table(), 8)
}

fn dist_regs() -> (r: Vec<SimpleReg>)
    ensures
        r@ == dist_table(),
        regs_fit(r@),
        words(r@, 4) == 12,
{
    let r = vec![
        SimpleReg::new(0x000, 4),
        SimpleReg::new(0x010, 4),
        SimpleReg::new(0x100, 8),
        SimpleReg::new(0x200, 8),
        SimpleReg::new(0x300, 8),
        SimpleReg::new(0x400, 8),
        SimpleReg::new(0xc00, 8),
    ];
    assert(r@ =~= dist_table());
    proof {
        reveal_with_fuel(words, 8);
    }
    r
}

fn icc_regs() -> (r: Vec<SimpleReg>)
    ensures
        r@ == icc_table(),
        regs_fit(r@),
        words(r@, 8) == 4,
{
    let r = vec![
        SimpleReg::new(0x00, 4),
        SimpleReg::new(0x04, 4),
        SimpleReg::new(0x08, 4),
        SimpleReg::new(0x1c, 4),
    ];
    assert(r@ =~= icc_table());
    proof {
        reveal_with_fuel(words, 5);
    }
    r
}

/// The reads of the CPU-interface registers of each vCPU, in order.
pub open spec fn vcpu_gets(mpidrs: Seq<u64>) -> Seq<Access>
    decreases mpidrs.len(),
{
    if mpidrs.len() == 0 {
        Seq::empty()
    } else {
        vcpu_gets(mpidrs.drop_last()) + gets(cpu_group(), mpidrs.last(), icc_table(), 8)
    }
}

/// The accesses of a save: the distributor registers, then the registers of
/// each vCPU in the order of `mpidrs`.
pub open spec fn save_plan(mpidrs: Seq<u64>) -> Seq<Access> {
    gets(dist_group(), 0, dist_table(), 4) + vcpu_gets(mpidrs)
}

/// Distributor state gathered from the replies of a save.
pub open spec fn saved_dist(vals: Seq<u64>) -> Seq<Seq<u32>> {
    gather::<u32>(dist_table(), vals.subrange(0, dist_words() as int))
}

/// CPU-interface state of the `i`-th vCPU gathered from the replies of a save.
pub open spec fn saved_vcpu(vals: Seq<u64>, i: int) -> Seq<Seq<u64>> {
    let start = dist_words() + i * vcpu_words();
    gather::<u64>(icc_table(), vals.subrange(start, start + vcpu_words()))
}

/// The CPU-interface register words of each vCPU of a state.
pub open spec fn vcpu_view(s: Gicv2State) -> Seq<Seq<Seq<u64>>> {
    s.gic_vcpu_states@.map_values(|v: GicVcpuState| state_view(v.icc.main_icc_regs@))
}

/// The writes of the CPU-interface registers of each vCPU, paired by position.
pub open spec fn vcpu_sets(mpidrs: Seq<u64>, vcpus: Seq<Seq<Seq<u64>>>) -> Seq<Access>
    decreases mpidrs.len(),
{
    if mpidrs.len() == 0 || vcpus.len() == 0 {
        Seq::empty()
    } else {
        vcpu_sets(mpidrs.drop_last(), vcpus.drop_last()) + all_sets(
            cpu_group(),
            mpidrs.last(),
            icc_table(),
            vcpus.last(),
        )
    }
}

/// The writes of a restore: the distributor registers, then, when there is
/// one vCPU state for each affinity id, the registers of each vCPU in order.
pub open spec fn restore_plan(
    mpidrs: Seq<u64>,
    dist: Seq<Seq<u32>>,
    vcpus: Seq<Seq<Seq<u64>>>,
) -> Seq<Access> {
    all_sets(dist_group(), 0, dist_table(), dist) + if mpidrs.len() == vcpus.len() {
        vcpu_sets(mpidrs, vcpus)
    } else {
        Seq::empty()
    }
}

proof fn lemma_vcpu_gets_len(mpidrs: Seq<u64>)
    ensures
        vcpu_gets(mpidrs).len() == mpidrs.len() * vcpu_words(),
    decreases mpidrs.len(),
{
    if mpidrs.len() > 0 {
        lemma_vcpu_gets_len(mpidrs.drop_last());
        crate::regs::lemma_gets_len(cpu_group(), mpidrs.last(), icc_table(), 8);
        assert(mpidrs.len() * vcpu_words() == (mpidrs.len() - 1) * vcpu_words() + vcpu_words())
            by (nonlinear_arith);
    }
}

/// The session that saves the state of the vCPUs `mpidrs`.
pub fn save_session(mpidrs: &[u64]) -> (r: Session)
    ensures
        r.wf(),
        r.plan() == save_plan(mpidrs@),
        r.replies().len() == 0,
        r.failure() is None,
        r.tail() is None,
{
    let mut plan: Vec<Access> = Vec::new();
    let dist = dist_regs();
    let icc = icc_regs();
    push_gets::<u32>(RegGroup { group: GRP_DIST_REGS, selector_mask: 0 }, 0, &dist, &mut plan);
    let mut i: usize = 0;
    while i < mpidrs.len()
        invariant
            i <= mpidrs@.len(),
            icc@ == icc_table(),
            regs_fit(icc@),
            plan@ == gets(dist_group(), 0, dist_table(), 4) + vcpu_gets(mpidrs@.take(i as int)),
        decreases mpidrs@.len() - i,
    {
        push_gets::<u64>(
            RegGroup { group: GRP_CPU_REGS, selector_mask: CPUID_MASK },
            mpidrs[i],
            &icc,
            &mut plan,
        );
        proof {
            let t = mpidrs@.take(i + 1);
            assert(t.drop_last() =~= mpidrs@.take(i as int));
            assert(plan@ =~= gets(dist_group(), 0, dist_table(), 4) + vcpu_gets(t));
        }
        i = i + 1;
    }
    assert(mpidrs@.take(mpidrs@.len() as int) =~= mpidrs@);
    Session::new(plan, None)
}

/// Save the state of the interrupt controller from a finished save session
/// of the vCPUs `mpidrs`.
///
/// A failed access fails the save with its error; otherwise the distributor
/// state comes from the first replies and each vCPU's state from the block of
/// replies that follows, in the order of `mpidrs`.
pub fn save_state(mpidrs: &[u64], session: &Session) -> (r: Result<Gicv2State, Error>)
    requires
        session.wf(),
        session.done(),
        session.plan() == save_plan(mpidrs@),
    ensures
        session.failure() matches Some(e) ==> r == Err::<Gicv2State, Error>(e),
        session.failure() is None ==> r is Ok,
        r matches Ok(st) ==> {
            &&& state_view(st.dist@) == saved_dist(session.replies())
            &&& vcpu_view(st) == Seq::new(
                mpidrs@.len(),
                |i: int| saved_vcpu(session.replies(), i),
            )
            &&& forall|i: int|
                0 <= i < mpidrs@.len() ==> (#[trigger] st.gic_vcpu_states@[i]).icc.ap_icc_regs@.len()
                    == 0
        },
{
    if let Some(e) = session.failed() {
        return Err(e);
    }
    let replies = session.replies_view();
    let dist_regs = dist_regs();
    let icc = icc_regs();
    let d = count_words::<u32>(&dist_regs);
    let c = count_words::<u64>(&icc);
    proof {
        lemma_vcpu_gets_len(mpidrs@);
        crate::regs::lemma_gets_len(dist_group(), 0, dist_table(), 4);
    }
    let dist = gather_regs::<u32>(&dist_regs, replies, 0);
    let mut vcpus: Vec<GicVcpuState> = Vec::new();
    let mut i: usize = 0;
    let n = mpidrs.len();
    let rl = replies.len();
    while i < n
        invariant
            rl == replies@.len(),
            n == mpidrs@.len(),
            i <= n,
            d == 12,
            c == 4,
            d == dist_words(),
            c == vcpu_words(),
            icc@ == icc_table(),
            replies@ == session.replies(),
            replies@.len() == d + n * c,
            vcpus@.len() == i,
            forall|j: int| 0 <= j < i ==> state_view((#[trigger] vcpus@[j]).icc.main_icc_regs@)
                == saved_vcpu(replies@, j),
            forall|j: int| 0 <= j < i ==> (#[trigger] vcpus@[j]).icc.ap_icc_regs@.len() == 0,
        decreases n - i,
    {
        assert(d + i * c + c <= d + n * c) by (nonlinear_arith)
            requires
                i < n,
                c == 4,
        ;
        let start = d + i * c;
        let main = gather_regs::<u64>(&icc, replies, start);
        vcpus.push(GicVcpuState { icc: VgicSysRegsState { main_icc_regs: main, ap_icc_regs: Vec::new() } });
        i = i + 1;
    }
    let st = Gicv2State { dist, gic_vcpu_states: vcpus };
    assert(vcpu_view(st) =~= Seq::new(mpidrs@.len(), |i: int| saved_vcpu(session.replies(), i)));
    Ok(st)
}

/// Restore the state of the interrupt controller: the session that writes the
/// distributor registers and then, when `state` holds one vCPU state for each
/// of `mpidrs`, the registers of each vCPU in the order of `mpidrs`.
///
/// When the counts differ, the session ends with
/// [`Error::InconsistentVcpuCount`] once the distributor is written, and no
/// vCPU register is written.
pub fn restore_state(mpidrs: &[u64], state: &Gicv2State) -> (r: Session)
    ensures
        r.wf(),
        r.replies().len() == 0,
        r.failure() is None,
        r.plan() == restore_plan(mpidrs@, state_view(state.dist@), vcpu_view(*state)),
        r.tail() == if mpidrs@.len() == state.gic_vcpu_states@.len() {
            None::<Error>
        } else {
            Some(Error::InconsistentVcpuCount)
        },
{
    let mut plan: Vec<Access> = Vec::new();
    let dist = dist_regs();
    let icc = icc_regs();
    push_sets::<u32>(
        RegGroup { group: GRP_DIST_REGS, selector_mask: 0 },
        0,
        &dist,
        &state.dist,
        &mut plan,
    );
    if mpidrs.len() != state.gic_vcpu_states.len() {
        assert(plan@ =~= restore_plan(mpidrs@, state_view(state.dist@), vcpu_view(*state)));
        return Session::new(plan, Some(Error::InconsistentVcpuCount));
    }
    let ghost view = vcpu_view(*state);
    let ghost pre = plan@;
    let mut i: usize = 0;
    while i < mpidrs.len()
        invariant
            i <= mpidrs@.len(),
            mpidrs@.len() == state.gic_vcpu_states@.len(),
            icc@ == icc_table(),
            regs_fit(icc@),
            view == vcpu_view(*state),
            plan@ == pre + vcpu_sets(mpidrs@.take(i as int), view.take(i as int)),
        decreases mpidrs@.len() - i,
    {
        push_sets::<u64>(
            RegGroup { group: GRP_CPU_REGS, selector_mask: CPUID_MASK },
            mpidrs[i],
            &icc,
            &state.gic_vcpu_states[i].icc.main_icc_regs,
            &mut plan,
        );
        proof {
            let t = mpidrs@.take(i + 1);
            let tv = view.take(i + 1);
            assert(t.drop_last() =~= mpidrs@.take(i as int));
            assert(tv.drop_last() =~= view.take(i as int));
            assert(tv.last() == state_view(state.gic_vcpu_states@[i as int].icc.main_icc_regs@));
            assert(plan@ =~= pre + vcpu_sets(t, tv));
        }
        i = i + 1;
    }
    assert(mpidrs@.take(mpidrs@.len() as int) =~= mpidrs@);
    assert(view.take(view.len() as int) =~= view);
    Session::new(plan, None)
}

proof fn lemma_table_words()
    ensures
        dist_words() == 12,
        vcpu_words() == 4,
{
    reveal_with_fuel(words, 8);
}

proof fn lemma_vcpu_round_trip(m: Seq<u64>, vals: Seq<u64>)
    requires
        vals.len() >= dist_words() + m.len() * vcpu_words(),
    ensures
        vcpu_sets(m, Seq::new(m.len(), |i: int| saved_vcpu(vals, i))) == write_back(
            vcpu_gets(m),
            vals.subrange(dist_words() as int, (dist_words() + m.len() * vcpu_words()) as int),
        ),
    decreases m.len(),
{
    lemma_table_words();
    let v = Seq::new(m.len(), |i: int| saved_vcpu(vals, i));
    if m.len() == 0 {
        assert(write_back(
            vcpu_gets(m),
            vals.subrange(dist_words() as int, (dist_words() + m.len() * vcpu_words()) as int),
        ) =~= Seq::empty());
    } else {
        let n = m.len() as int;
        let d = m.drop_last();
        assert((n - 1) * 4 + 4 == n * 4) by (nonlinear_arith);
        lemma_vcpu_round_trip(d, vals);
        assert(v.drop_last() =~= Seq::new(d.len(), |i: int| saved_vcpu(vals, i)));
        let start = 12 + (n - 1) * 4;
        lemma_write_back::<u64>(cpu_group(), m.last(), icc_table(), vals.subrange(start, start + 4));
        crate::regs::lemma_gets_len(cpu_group(), m.last(), icc_table(), 8);
        lemma_vcpu_gets_len(d);
        lemma_vcpu_gets_len(m);
        assert(write_back(vcpu_gets(m), vals.subrange(12, (12 + n * 4) as int)) =~= write_back(
            vcpu_gets(d),
            vals.subrange(12, 12 + (n - 1) * 4),
        ) + write_back(gets(cpu_group(), m.last(), icc_table(), 8), vals.subrange(start, start + 4)));
    }
}

/// Restoring the state that a save gathered from its replies writes back each
/// value read, to the attribute it was read from, in the order of the save.
pub proof fn lemma_save_restore_round_trip(mpidrs: Seq<u64>, vals: Seq<u64>)
    requires
        vals.len() == save_plan(mpidrs).len(),
    ensures
        restore_plan(
            mpidrs,
            saved_dist(vals),
            Seq::new(mpidrs.len(), |i: int| saved_vcpu(vals, i)),
        ) == write_back(save_plan(mpidrs), vals),
{
    lemma_table_words();
    lemma_vcpu_gets_len(mpidrs);
    crate::regs::lemma_gets_len(dist_group(), 0, dist_table(), 4);
    let n = mpidrs.len() as int;
    lemma_vcpu_round_trip(mpidrs, vals);
    lemma_write_back::<u32>(dist_group(), 0, dist_table(), vals.subrange(0, 12));
    assert(write_back(save_plan(mpidrs), vals) =~= write_back(
        gets(dist_group(), 0, dist_table(), 4),
        vals.subrange(0, 12),
    ) + write_back(vcpu_gets(mpidrs), vals.subrange(12, (12 + n * 4) as int)));
}

/// A restore for a number of affinity ids that differs from the number of
/// vCPU states writes the distributor registers and no vCPU register.
pub proof fn lemma_count_mismatch_writes_no_vcpu(
    mpidrs: Seq<u64>,
    dist: Seq<Seq<u32>>,
    vcpus: Seq<Seq<Seq<u64>>>,
)
    requires
        mpidrs.len() != vcpus.len(),
    ensures
        restore_plan(mpidrs, dist, vcpus) == all_sets(dist_group(), 0, dist_table(), dist),
{
    assert(restore_plan(mpidrs, dist, vcpus) =~= all_sets(dist_group(), 0, dist_table(), dist));
}

} // verus!
