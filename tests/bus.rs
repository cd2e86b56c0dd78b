use std::cell::RefCell;

use vmm_devices::bus::{Bus, BusRange, DeviceHandle, Error};
use vmm_devices::device::DeviceType;

struct Recorder {
    id: u8,
    log: RefCell<Vec<(char, u64, Vec<u8>)>>,
}

impl Recorder {
    fn new(id: u8) -> Recorder {
        Recorder { id, log: RefCell::new(Vec::new()) }
    }
}

impl DeviceHandle for Recorder {
    fn read(&self, offset: u64, data: &mut [u8]) {
        for b in data.iter_mut() {
            *b = self.id;
        }
        self.log.borrow_mut().push(('r', offset, data.to_vec()));
    }

    fn write(&self, offset: u64, data: &[u8]) {
        self.log.borrow_mut().push(('w', offset, data.to_vec()));
    }
}

#[test]
fn bus_insert() {
    let mut bus: Bus<Recorder> = Bus::new();
    assert!(bus.insert(Recorder::new(1), 0x10, 0).is_err());
    assert!(bus.insert(Recorder::new(1), 0x10, 0x10).is_ok());
    assert!(bus.insert(Recorder::new(1), 0x0f, 0x10).is_err());
    assert!(bus.insert(Recorder::new(1), 0x10, 0x10).is_err());
    assert!(bus.insert(Recorder::new(1), 0x10, 0x15).is_err());
    assert!(bus.insert(Recorder::new(1), 0x12, 0x15).is_err());
    assert!(bus.insert(Recorder::new(1), 0x12, 0x01).is_err());
    assert!(bus.insert(Recorder::new(1), 0x0, 0x20).is_err());
    assert!(bus.insert(Recorder::new(1), 0x20, 0x05).is_ok());
    assert!(bus.insert(Recorder::new(1), 0x25, 0x05).is_ok());
    assert!(bus.insert(Recorder::new(1), 0x0, 0x10).is_ok());
    assert_eq!(bus.len(), 4);
}

#[test]
fn zero_length_rejected_at_any_base() {
    let mut bus: Bus<Recorder> = Bus::new();
    for base in [0u64, 1, 0x1000, u64::MAX] {
        assert_eq!(bus.insert(Recorder::new(1), base, 0), Err(Error::Overlap));
    }
    assert_eq!(bus.len(), 0);
}

#[test]
fn duplicate_base_rejected_whatever_the_length() {
    let mut bus: Bus<Recorder> = Bus::new();
    assert!(bus.insert(Recorder::new(1), 0x100, 0x10).is_ok());
    assert_eq!(bus.insert(Recorder::new(2), 0x100, 0x10), Err(Error::Overlap));
    assert_eq!(bus.insert(Recorder::new(2), 0x100, 0x1), Err(Error::Overlap));
    assert_eq!(bus.insert(Recorder::new(2), 0x100, 0x1000), Err(Error::Overlap));
    assert_eq!(bus.len(), 1);
}

#[test]
fn failed_insert_leaves_bus_unchanged() {
    let mut bus: Bus<Recorder> = Bus::new();
    assert!(bus.insert(Recorder::new(1), 0x100, 0x10).is_ok());
    assert!(bus.insert(Recorder::new(2), 0x200, 0x10).is_ok());
    // Swallows the range at 0x200, which starts later.
    assert_eq!(bus.insert(Recorder::new(3), 0x180, 0x100), Err(Error::Overlap));
    assert_eq!(bus.len(), 2);
    assert_eq!(bus.get_device(0x180).map(|(o, d)| (o, d.id)), None);
    assert_eq!(bus.get_device(0x205).map(|(o, d)| (o, d.id)), Some((5, 2)));
}

#[test]
fn range_reaching_the_top_of_the_address_space() {
    let mut bus: Bus<Recorder> = Bus::new();
    assert!(bus.insert(Recorder::new(1), u64::MAX - 0xf, 0x10).is_ok());
    assert!(bus.insert(Recorder::new(2), u64::MAX - 0x1f, 0x100).is_err());
    assert!(bus.insert(Recorder::new(2), u64::MAX - 0x1f, 0x10).is_ok());
    assert_eq!(bus.get_device(u64::MAX).map(|(o, d)| (o, d.id)), Some((0xf, 1)));
}

#[test]
fn lookup_at_range_edges() {
    let mut bus: Bus<Recorder> = Bus::new();
    assert!(bus.insert(Recorder::new(7), 0x10, 0x10).is_ok());
    assert_eq!(bus.get_device(0x10).map(|(o, d)| (o, d.id)), Some((0, 7)));
    assert_eq!(bus.get_device(0x1f).map(|(o, d)| (o, d.id)), Some((0xf, 7)));
    assert!(bus.get_device(0x20).is_none());
    assert!(bus.get_device(0x0f).is_none());
    assert!(bus.get_device(0).is_none());
}

#[test]
fn lookup_finds_the_unique_owner() {
    let mut bus: Bus<Recorder> = Bus::new();
    assert!(bus.insert(Recorder::new(2), 0x20, 0x10).is_ok());
    assert!(bus.insert(Recorder::new(1), 0x10, 0x10).is_ok());
    assert!(bus.insert(Recorder::new(3), 0x40, 0x8).is_ok());
    assert_eq!(bus.get_device(0x1f).map(|(o, d)| (o, d.id)), Some((0xf, 1)));
    assert_eq!(bus.get_device(0x20).map(|(o, d)| (o, d.id)), Some((0, 2)));
    assert_eq!(bus.get_device(0x2f).map(|(o, d)| (o, d.id)), Some((0xf, 2)));
    assert!(bus.get_device(0x30).is_none());
    assert_eq!(bus.get_device(0x47).map(|(o, d)| (o, d.id)), Some((7, 3)));
    assert!(bus.get_device(0x48).is_none());
}

#[test]
fn bus_read_write() {
    let mut bus: Bus<Recorder> = Bus::new();
    assert!(bus.insert(Recorder::new(9), 0x10, 0x10).is_ok());
    let mut data = [1u8, 2, 3, 4];
    assert!(bus.read(0x12, &mut data));
    assert_eq!(data, [9, 9, 9, 9]);
    assert!(bus.write(0x1c, &[5, 6]));
    let mut other = [1u8, 2];
    assert!(!bus.read(0x20, &mut other));
    assert_eq!(other, [1, 2]);
    assert!(!bus.write(0x9, &[0]));
    let (_, dev) = bus.get_device(0x10).unwrap();
    assert_eq!(
        *dev.log.borrow(),
        vec![('r', 2, vec![9, 9, 9, 9]), ('w', 0xc, vec![5, 6])]
    );
}

#[test]
fn bus_range_equality_is_by_base() {
    assert_eq!(BusRange(0x10, 1), BusRange(0x10, 0x100));
    assert_ne!(BusRange(0x10, 1), BusRange(0x11, 1));
}

#[test]
fn overlap_message() {
    assert_eq!(Error::Overlap.message(), "New device overlaps with an old device.");
}

#[test]
fn device_type_debug() {
    assert_eq!(format!("{:?}", DeviceType::Virtio(3)), "Virtio(3)");
    assert_eq!(format!("{:?}", DeviceType::Serial), "Serial");
    assert_ne!(DeviceType::I8042, DeviceType::RTC);
}

#[test]
fn device_type_text() {
    assert_eq!(DeviceType::Virtio(3).text(), "Virtio(3)");
    assert_eq!(DeviceType::Virtio(0).text(), "Virtio(0)");
    assert_eq!(DeviceType::Virtio(4294967295).text(), "Virtio(4294967295)");
    assert_eq!(DeviceType::Virtio(1024).text(), "Virtio(1024)");
    assert_eq!(DeviceType::Serial.text(), "Serial");
    assert_eq!(DeviceType::I8042.text(), "I8042");
    assert_eq!(DeviceType::RTC.text(), "RTC");
}

#[test]
fn write_reaches_only_the_owning_device() {
    let mut bus: Bus<Recorder> = Bus::new();
    assert!(bus.insert(Recorder::new(1), 0x10, 0x10).is_ok());
    assert!(bus.insert(Recorder::new(2), 0x20, 0x10).is_ok());
    assert!(bus.write(0x24, &[7]));
    assert!(!bus.write(0x30, &[8]));
    let (_, first) = bus.get_device(0x10).unwrap();
    let (_, second) = bus.get_device(0x20).unwrap();
    assert!(first.log.borrow().is_empty());
    assert_eq!(*second.log.borrow(), vec![('w', 4, vec![7])]);
}
