use std::collections::HashMap;

use vmm_devices::gicv2;
use vmm_devices::gicv3;
use vmm_devices::regs::{
    attr_id, Access, AccessKind, Error, GicRegState, RegGroup, Session, SimpleReg,
};

/// A stand-in for the hypervisor's device attribute interface.
struct FakeGic {
    regs: HashMap<(u32, u64), u64>,
    /// Groups whose accesses fail with EINVAL, as before any vCPU exists.
    refused_groups: Vec<u32>,
    /// Fail every access with this code, as on a closed descriptor.
    closed: Option<i32>,
    log: Vec<Access>,
}

impl FakeGic {
    fn new() -> FakeGic {
        FakeGic { regs: HashMap::new(), refused_groups: Vec::new(), closed: None, log: Vec::new() }
    }

    fn access(&mut self, a: Access) -> Result<u64, i32> {
        if let Some(code) = self.closed {
            return Err(code);
        }
        if self.refused_groups.contains(&a.group) {
            return Err(22);
        }
        self.log.push(a);
        match a.kind {
            AccessKind::Read => {
                let mask = if a.width == 4 { 0xffff_ffff } else { u64::MAX };
                let v = *self
                    .regs
                    .entry((a.group, a.attr))
                    .or_insert(a.attr.wrapping_mul(0x9e37_79b9_7f4a_7c15) & mask);
                Ok(v)
            }
            AccessKind::Write(v) => {
                self.regs.insert((a.group, a.attr), v);
                Ok(0)
            }
            AccessKind::Control => Ok(0),
        }
    }

    fn run(&mut self, session: &mut Session) {
        while let Some(a) = session.next_access() {
            let reply = self.access(a);
            session.record(reply);
        }
    }
}

#[test]
fn attr_id_packs_selector_and_offset() {
    assert_eq!(attr_id(0, 0x10, 0), 0x10);
    assert_eq!(attr_id(0x123, 0x1c, 0xff_0000_0000), 0x23_0000_001c);
    assert_eq!(attr_id(0x1_0000_0001, 0xc664, 0xffff_ffff_0000_0000), 0x1_0000_c664);
    assert_eq!(attr_id(1, 0x1_0000_0004, 0xffff_ffff_0000_0000), 0x1_0000_0004);
}

#[test]
fn session_stops_at_first_failure() {
    let g = RegGroup { group: 1, selector_mask: 0 };
    let regs = vec![SimpleReg::new(0, 4), SimpleReg::new(8, 8)];
    let mut plan = Vec::new();
    vmm_devices::regs::push_gets::<u32>(g, 0, &regs, &mut plan);
    assert_eq!(plan.len(), 3);
    let mut s = Session::new(plan, None);
    assert!(!s.is_done());
    s.record(Ok(7));
    s.record(Err(9));
    assert!(s.is_done());
    assert!(s.next_access().is_none());
    assert_eq!(s.outcome(), Err(Error::DeviceAttribute(9, false, 1)));
    assert_eq!(s.replies_view(), &vec![7]);
}

#[test]
fn register_wider_than_chunk_takes_several_words() {
    let g = RegGroup { group: 5, selector_mask: 0xffff_ffff_0000_0000 };
    let regs = vec![SimpleReg::new(0x70, 8)];
    let mut plan = Vec::new();
    vmm_devices::regs::push_gets::<u32>(g, 2, &regs, &mut plan);
    let attrs: Vec<u64> = plan.iter().map(|a| a.attr).collect();
    assert_eq!(attrs, vec![0x2_0000_0070, 0x2_0000_0074]);
    let vals = vec![0xaaaa_bbbb_cccc_ddddu64, 0x1111];
    let state = vmm_devices::regs::gather_regs::<u32>(&regs, &vals, 0);
    assert_eq!(state[0].chunks, vec![0xcccc_ddddu32, 0x1111]);
}

#[test]
fn test_vm_save_restore_state() {
    let mpidr = vec![0u64];
    // Before any vCPU exists the CPU-interface registers cannot be reached.
    let mut gic = FakeGic::new();
    gic.refused_groups.push(gicv2::GRP_CPU_REGS);
    let mut s = gicv2::save_session(&mpidr);
    gic.run(&mut s);
    let res = gicv2::save_state(&mpidr, &s);
    assert!(res.is_err());
    assert_eq!(format!("{:?}", res.unwrap_err()), "DeviceAttribute(22, false, 0)");

    let mut gic = FakeGic::new();
    let mut s = gicv2::save_session(&mpidr);
    gic.run(&mut s);
    let vm_state = gicv2::save_state(&mpidr, &s).unwrap();
    let statusr = *gic.regs.get(&(gicv2::GRP_DIST_REGS, 0x10)).unwrap();
    assert_eq!(vm_state.dist[1].chunks[0] as u64, statusr & 0xffff_ffff);
    assert_eq!(vm_state.dist.len(), 7);
    let mut r = gicv2::restore_state(&mpidr, &vm_state);
    gic.run(&mut r);
    assert!(r.outcome().is_ok());
}

#[test]
fn mod_test_vm_save_restore_state() {
    let mpidr = vec![1u64];
    let mut gic = FakeGic::new();
    gic.refused_groups.push(gicv3::GRP_REDIST_REGS);
    let mut s = gicv3::save_session(&mpidr);
    gic.run(&mut s);
    let res = gicv3::save_state(&mpidr, &s);
    assert!(res.is_err());
    assert_eq!(format!("{:?}", res.unwrap_err()), "DeviceAttribute(22, false, 0)");

    let mut gic = FakeGic::new();
    let mut s = gicv3::save_session(&mpidr);
    gic.run(&mut s);
    let vm_state = gicv3::save_state(&mpidr, &s).unwrap();
    let statusr = *gic.regs.get(&(gicv3::GRP_DIST_REGS, 0x10)).unwrap();
    assert_eq!(vm_state.dist[1].chunks[0] as u64, statusr & 0xffff_ffff);
    assert_eq!(vm_state.dist.len(), 12);
    let mut r = gicv3::restore_state(&mpidr, &vm_state);
    gic.run(&mut r);
    assert!(r.outcome().is_ok());
}

fn clobber(gic: &mut FakeGic) {
    for v in gic.regs.values_mut() {
        *v = !*v & 0xffff;
    }
}

#[test]
fn gicv2_round_trip_restores_every_register() {
    let mpidrs = vec![0u64, 1, 2];
    let mut gic = FakeGic::new();
    let mut s = gicv2::save_session(&mpidrs);
    gic.run(&mut s);
    let state = gicv2::save_state(&mpidrs, &s).unwrap();
    assert_eq!(state.gic_vcpu_states.len(), 3);
    assert_eq!(state.gic_vcpu_states[0].icc.main_icc_regs.len(), 4);
    let snapshot = gic.regs.clone();
    clobber(&mut gic);
    let mut r = gicv2::restore_state(&mpidrs, &state);
    gic.run(&mut r);
    assert_eq!(r.outcome(), Ok(()));
    assert_eq!(gic.regs, snapshot);
}

#[test]
fn gicv3_round_trip_restores_every_register() {
    let mpidrs = vec![0x100u64, 0x101];
    let mut gic = FakeGic::new();
    let mut s = gicv3::save_session(&mpidrs);
    gic.run(&mut s);
    assert_eq!(gic.log[0].kind, AccessKind::Control);
    assert_eq!(gic.log[0].group, gicv3::GRP_CTRL);
    let state = gicv3::save_state(&mpidrs, &s).unwrap();
    assert_eq!(state.gic_vcpu_states[1].icc.main_icc_regs.len(), 7);
    assert_eq!(state.gic_vcpu_states[1].icc.ap_icc_regs.len(), 8);
    let snapshot = gic.regs.clone();
    clobber(&mut gic);
    gic.log.clear();
    let mut r = gicv3::restore_state(&mpidrs, &state);
    gic.run(&mut r);
    assert_eq!(r.outcome(), Ok(()));
    assert_eq!(gic.regs, snapshot);
    // Distributor first, then each vCPU in order: redistributor before CPU interface.
    assert_eq!(gic.log[0].group, gicv3::GRP_DIST_REGS);
    let groups: Vec<u32> = gic.log.iter().map(|a| a.group).collect();
    let first_sys = groups.iter().position(|g| *g == gicv3::GRP_CPU_SYSREGS).unwrap();
    let first_redist = groups.iter().position(|g| *g == gicv3::GRP_REDIST_REGS).unwrap();
    assert!(first_redist < first_sys);
}

#[test]
fn restore_with_wrong_vcpu_count_writes_no_vcpu_register() {
    let mut gic = FakeGic::new();
    let mut s = gicv2::save_session(&[0]);
    gic.run(&mut s);
    let state = gicv2::save_state(&[0], &s).unwrap();
    gic.log.clear();
    let mut r = gicv2::restore_state(&[0, 1], &state);
    gic.run(&mut r);
    assert_eq!(r.outcome(), Err(Error::InconsistentVcpuCount));
    assert!(gic.log.iter().all(|a| a.group == gicv2::GRP_DIST_REGS));

    let mut s = gicv3::save_session(&[0, 1]);
    gic.run(&mut s);
    let state = gicv3::save_state(&[0, 1], &s).unwrap();
    gic.log.clear();
    let mut r = gicv3::restore_state(&[0], &state);
    gic.run(&mut r);
    assert_eq!(r.outcome(), Err(Error::InconsistentVcpuCount));
    assert!(gic.log.iter().all(|a| a.group == gicv3::GRP_DIST_REGS));
}

#[test]
fn restore_refuses_missing_required_ap_register() {
    let mut gic = FakeGic::new();
    let mut s = gicv3::save_session(&[0]);
    gic.run(&mut s);
    let mut state = gicv3::save_state(&[0], &s).unwrap();
    // Optional active-priority registers may be absent: they are skipped.
    state.gic_vcpu_states[0].icc.ap_icc_regs[1] = None;
    state.gic_vcpu_states[0].icc.ap_icc_regs[7] = None;
    gic.log.clear();
    let mut r = gicv3::restore_state(&[0], &state);
    gic.run(&mut r);
    assert_eq!(r.outcome(), Ok(()));
    assert_eq!(gic.log.len(), 22 + 13 + 7 + 6);
    // One that every core has may not.
    state.gic_vcpu_states[0].icc.ap_icc_regs[4] = None;
    gic.log.clear();
    let mut r = gicv3::restore_state(&[0], &state);
    gic.run(&mut r);
    assert_eq!(r.outcome(), Err(Error::InvalidVgicSysRegState));
    // The distributor is written first; no vCPU register is.
    assert_eq!(gic.log.len(), 22);
    assert!(gic.log.iter().all(|a| a.group == gicv3::GRP_DIST_REGS));
}

#[test]
fn count_mismatch_wins_over_missing_ap_register() {
    let mut gic = FakeGic::new();
    let mut s = gicv3::save_session(&[0]);
    gic.run(&mut s);
    let mut state = gicv3::save_state(&[0], &s).unwrap();
    state.gic_vcpu_states[0].icc.ap_icc_regs.clear();
    gic.log.clear();
    let mut r = gicv3::restore_state(&[0, 1], &state);
    gic.run(&mut r);
    assert_eq!(r.outcome(), Err(Error::InconsistentVcpuCount));
    assert_eq!(gic.log.len(), 22);
    assert!(gic.log.iter().all(|a| a.group == gicv3::GRP_DIST_REGS));
}

#[test]
fn failed_flush_is_told_apart_from_register_writes() {
    let mut gic = FakeGic::new();
    gic.refused_groups.push(gicv3::GRP_CTRL);
    let mut s = gicv3::save_session(&[0]);
    gic.run(&mut s);
    assert_eq!(
        gicv3::save_state(&[0], &s).unwrap_err(),
        Error::DeviceAttribute(22, true, gicv3::FLUSH_INDEX)
    );
    assert!(gic.log.is_empty());
}

#[test]
fn write_failure_reports_register_index() {
    let mut gic = FakeGic::new();
    let mut s = gicv2::save_session(&[0]);
    gic.run(&mut s);
    let state = gicv2::save_state(&[0], &s).unwrap();
    gic.closed = Some(9);
    let mut r = gicv2::restore_state(&[0], &state);
    gic.run(&mut r);
    assert_eq!(format!("{:?}", r.outcome().unwrap_err()), "DeviceAttribute(9, true, 0)");
    let mut s = gicv2::save_session(&[0]);
    gic.run(&mut s);
    assert_eq!(gicv2::save_state(&[0], &s).unwrap_err(), Error::DeviceAttribute(9, false, 0));
}

#[test]
fn reg_state_holds_chunks() {
    let s = GicRegState { chunks: vec![1u32, 2] };
    assert_eq!(s.chunks.len(), 2);
}

#[test]
fn test_access_icc_regs() {
    let mut gic = FakeGic::new();
    let gicr_typer = vec![123u64];
    let mut s = gicv3::save_session(&gicr_typer);
    gic.run(&mut s);
    let res = gicv3::save_state(&gicr_typer, &s);
    assert!(res.is_ok());
    let mut state = res.unwrap();
    assert_eq!(state.gic_vcpu_states[0].icc.main_icc_regs.len(), 7);
    assert_eq!(state.gic_vcpu_states[0].icc.ap_icc_regs.len(), 8);

    let mut r = gicv3::restore_state(&gicr_typer, &state);
    gic.run(&mut r);
    assert!(r.outcome().is_ok());

    for reg in state.gic_vcpu_states[0].icc.ap_icc_regs.iter_mut() {
        *reg = None;
    }
    let mut r = gicv3::restore_state(&gicr_typer, &state);
    gic.run(&mut r);
    let res = r.outcome();
    assert!(res.is_err());
    assert_eq!(format!("{:?}", res.unwrap_err()), "InvalidVgicSysRegState");

    gic.closed = Some(9);
    let mut r = gicv3::restore_state(&gicr_typer, &state);
    gic.run(&mut r);
    let res = r.outcome();
    assert!(res.is_err());
    assert_eq!(format!("{:?}", res.unwrap_err()), "DeviceAttribute(9, true, 0)");

    let mut s = gicv3::save_session(&gicr_typer);
    gic.run(&mut s);
    let res = gicv3::save_state(&gicr_typer, &s);
    assert!(res.is_err());
    assert_eq!(
        format!("{:?}", res.unwrap_err()),
        format!("DeviceAttribute(9, true, {})", gicv3::FLUSH_INDEX)
    );
}
