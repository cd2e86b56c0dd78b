//! Address-space router: maps disjoint `[base, base + len)` ranges to devices.
use vstd::prelude::*;

verus! {

/// Errors for [`Bus`].
#[derive(Debug, Clone, Copy, PartialEq, Eq, Structural)]
pub enum Error {
    /// The insertion failed because the new device overlapped with an old device.
    Overlap,
}

impl Error {
    /// Human-readable description of the error.
    pub fn message(&self) -> (r: &'static str)
        ensures
            r@ == "New device overlaps with an old device."@,
    {
        match self {
            Error::Overlap => "New device overlaps with an old device.",
        }
    }
}

/// A range of the bus address space: `(base, length)`.
///
/// Two ranges are equal when their bases are equal, whatever their lengths: a
/// second range at the same base is a re-registration.
#[derive(Debug, Clone, Copy)]
pub struct BusRange(pub u64, pub u64);

impl PartialEq for BusRange {
    fn eq(&self, other: &BusRange) -> (r: bool) {
        self.0 == other.0
    }
}

impl vstd::std_specs::cmp::PartialEqSpecImpl for BusRange {
    open spec fn obeys_eq_spec() -> bool {
        true
    }

    open spec fn eq_spec(&self, other: &BusRange) -> bool {
        self.0 == other.0
    }
}

/// A shared handle to a device that the bus forwards accesses to.
///
/// An implementation acquires whatever exclusive access the device needs for
/// the duration of the call. Each implementation says, through `read_effect`
/// and `write_effect`, what one access does; the bus states which device it
/// hands each access to.
pub trait DeviceHandle {
    /// What a read at `offset` does to a buffer holding `before`; a handle
    /// that states nothing keeps this default.
    closed spec fn read_effect(&self, offset: u64, before: Seq<u8>, after: Seq<u8>) -> bool {
        true
    }

    /// That a write of `data` at `offset` took place; a handle that states
    /// nothing keeps this default.
    closed spec fn write_effect(&self, offset: u64, data: Seq<u8>) -> bool {
        true
    }

    /// Reads at `offset` from the device into `data`.
    fn read(&self, offset: u64, data: &mut [u8])
        ensures
            self.read_effect(offset, old(data)@, final(data)@),
    ;

    /// Writes `data` at `offset` into the device.
    fn write(&self, offset: u64, data: &[u8])
        ensures
            self.write_effect(offset, data@),
    ;
}

/// Whether the range `r` holds the address `a`.
pub open spec fn holds(r: (u64, u64), a: int) -> bool {
    r.0 <= a < r.0 + r.1
}

/// Whether the range `r` meets `[base, base + len)`.
pub open spec fn meets(r: (u64, u64), base: int, len: int) -> bool {
    r.0 < base + len && base < r.0 + r.1
}

/// Ranges with a positive length, sorted by base, each ending at or before the
/// next one starts.
pub open spec fn ranges_wf(s: Seq<(u64, u64)>) -> bool {
    &&& forall|i: int| 0 <= i < s.len() ==> #[trigger] s[i].1 > 0
    &&& forall|i: int, j: int|
        #![trigger s[i], s[j]]
        0 <= i < j < s.len() ==> s[i].0 + s[i].1 <= s[j].0
}

/// Whether `[base, base + len)` may be added to the ranges `s`.
pub open spec fn can_insert(s: Seq<(u64, u64)>, base: u64, len: u64) -> bool {
    &&& len > 0
    &&& forall|i: int| 0 <= i < s.len() ==> !meets(#[trigger] s[i], base as int, len as int)
}

/// Whether some range of `s` holds the address `a`.
pub open spec fn owned(s: Seq<(u64, u64)>, a: int) -> bool {
    exists|i: int| 0 <= i < s.len() && holds(#[trigger] s[i], a)
}

/// A device container for routing reads and writes over some address space.
///
/// No two devices overlap in this address space.
pub struct Bus<D> {
    ranges: Vec<BusRange>,
    devices: Vec<D>,
}

impl<D> View for Bus<D> {
    type V = Seq<(u64, u64)>;

    /// The ranges, in ascending order of base.
    closed spec fn view(&self) -> Seq<(u64, u64)> {
        self.ranges@.map_values(|r: BusRange| (r.0, r.1))
    }
}

impl<D> Bus<D> {
    /// The devices, position by position with the ranges of the view.
    pub closed spec fn devices(&self) -> Seq<D> {
        self.devices@
    }

    /// Well-formedness: disjoint sorted ranges, one device for each.
    pub open spec fn wf(&self) -> bool {
        &&& ranges_wf(self@)
        &&& self.devices().len() == self@.len()
    }

    /// Constructs a bus with an empty address space.
    pub fn new() -> (r: Bus<D>)
        ensures
            r.wf(),
            r@ == Seq::<(u64, u64)>::empty(),
    {
        let r = Bus { ranges: Vec::new(), devices: Vec::new() };
        assert(r@ =~= Seq::<(u64, u64)>::empty());
        r
    }

    /// Number of devices on the bus.
    pub fn len(&self) -> (r: usize)
        requires
            self.wf(),
        ensures
            r == self@.len(),
    {
        self.ranges.len()
    }

    /// Index of the range with the greatest base that is not above `addr`.
    fn first_before(&self, addr: u64) -> (r: Option<usize>)
        requires
            self.wf(),
        ensures
            r is None ==> forall|i: int| 0 <= i < self@.len() ==> #[trigger] self@[i].0 > addr,
            r matches Some(k) ==> {
                &&& k < self@.len()
                &&& self@[k as int].0 <= addr
                &&& forall|i: int| k < i < self@.len() ==> #[trigger] self@[i].0 > addr
            },
    {
        let mut lo: usize = 0;
        let mut hi: usize = self.ranges.len();
        while lo < hi
            invariant
                self.wf(),
                lo <= hi <= self@.len(),
                forall|i: int| 0 <= i < lo ==> #[trigger] self@[i].0 <= addr,
                forall|i: int| hi <= i < self@.len() ==> #[trigger] self@[i].0 > addr,
            decreases hi - lo,
        {
            let mid = lo + (hi - lo) / 2;
            assert(self@[mid as int] == (self.ranges[mid as int].0, self.ranges[mid as int].1));
            if self.ranges[mid].0 <= addr {
                assert forall|i: int| 0 <= i <= mid implies #[trigger] self@[i].0 <= addr by {
                    if i < mid {
                        assert(self@[i].0 + self@[i].1 <= self@[mid as int].0);
                    }
                }
                lo = mid + 1;
            } else {
                assert forall|i: int| mid <= i < self@.len() implies #[trigger] self@[i].0 > addr by {
                    if i > mid {
                        assert(self@[mid as int].0 + self@[mid as int].1 <= self@[i].0);
                    }
                }
                hi = mid;
            }
        }
        if lo == 0 {
            None
        } else {
            Some(lo - 1)
        }
    }

    /// Finds the device whose range holds `addr`, with the offset of `addr`
    /// within that range.
    pub fn get_device(&self, addr: u64) -> (r: Option<(u64, &D)>)
        requires
            self.wf(),
        ensures
            r is Some <==> owned(self@, addr as int),
            r matches Some((off, d)) ==> exists|i: int|
                0 <= i < self@.len() && holds(#[trigger] self@[i], addr as int) && off == addr
                    - self@[i].0 && *d == self.devices()[i],
    {
        match self.first_before(addr) {
            Some(k) => {
                let start = self.ranges[k].0;
                let len = self.ranges[k].1;
                assert(self@[k as int] == (start, len));
                let offset = addr - start;
                if offset < len {
                    assert(holds(self@[k as int], addr as int));
                    Some((offset, &self.devices[k]))
                } else {
                    assert forall|i: int| 0 <= i < self@.len() implies !holds(
                        #[trigger] self@[i],
                        addr as int,
                    ) by {
                        if i < k {
                            assert(self@[i].0 + self@[i].1 <= self@[k as int].0);
                        }
                    }
                    None
                }
            },
            None => None,
        }
    }

    /// Puts the given device at the given address space.
    ///
    /// Fails with [`Error::Overlap`], leaving the bus unchanged, when `len` is
    /// zero or when the new range meets a range already on the bus (a range at
    /// the same base among them).
    pub fn insert(&mut self, device: D, base: u64, len: u64) -> (r: Result<(), Error>)
        requires
            old(self).wf(),
        ensures
            final(self).wf(),
            r is Ok <==> can_insert(old(self)@, base, len),
            r is Err ==> *final(self) == *old(self),
            r is Ok ==> exists|k: int|
                0 <= k <= old(self)@.len() && final(self)@ == old(self)@.insert(k, (base, len))
                    && final(self).devices() == old(self).devices().insert(k, device),
    {
        if len == 0 {
            return Err(Error::Overlap);
        }
        // Reject all cases where the new device's base is within an old device's range.

        if self.get_device(base).is_some() {
            let ghost w = choose|i: int| 0 <= i < self@.len() && holds(#[trigger] self@[i], base as int);
            assert(meets(self@[w], base as int, len as int));
            return Err(Error::Overlap);
        }
        // A range that starts at or after `base` meets the new one only if it
        // starts before the new range's last address.

        let last: u64 = if base <= u64::MAX - (len - 1) {
            base + (len - 1)
        } else {
            u64::MAX
        };
        let before_last = self.first_before(last);
        if let Some(k) = before_last {
            if self.ranges[k].0 >= base {
                assert(self@[k as int] == (self.ranges[k as int].0, self.ranges[k as int].1));
                assert(meets(self@[k as int], base as int, len as int));
                return Err(Error::Overlap);
            }
        }
        let pos: usize = match self.first_before(base) {
            Some(k) => {
                let n = self.ranges.len();
                assert(k < n);
                k + 1
            },
            None => 0,
        };
        proof {
            assert forall|i: int| 0 <= i < self@.len() implies !meets(
                #[trigger] self@[i],
                base as int,
                len as int,
            ) by {
                assert(!holds(self@[i], base as int));
                if self@[i].0 >= base {
                    match before_last {
                        Some(k) => {
                            if i > k {
                                assert(self@[i].0 > last);
                            } else {
                                assert(self@[k as int].0 + self@[k as int].1 <= self@[i].0
                                    || i == k);
                            }
                        },
                        None => {},
                    }
                }
            }
        }
        let ghost old_ranges = self@;
        let ghost old_devices = self.devices();
        self.ranges.insert(pos, BusRange(base, len));
        self.devices.insert(pos, device);
        proof {
            assert(self@ =~= old_ranges.insert(pos as int, (base, len)));
            assert forall|i: int, j: int|
                #![trigger self@[i], self@[j]]
                0 <= i < j < self@.len() implies self@[i].0 + self@[i].1 <= self@[j].0 by {
                if i < pos && j > pos {
                    assert(old_ranges[i].0 + old_ranges[i].1 <= old_ranges[j - 1].0
                        || i == j - 1);
                }
            }
        }
        Ok(())
    }

    /// Reads data from the device that owns the range containing `addr` and
    /// puts it into `data`: one read of that device, at the offset of `addr`
    /// within its range, into the caller's buffer.
    ///
    /// Returns true on success, otherwise `data` is untouched.
    pub fn read(&self, addr: u64, data: &mut [u8]) -> (r: bool)
        where
            D: DeviceHandle,
        requires
            self.wf(),
        ensures
            r == owned(self@, addr as int),
            !r ==> final(data)@ == old(data)@,
            r ==> exists|i: int|
                0 <= i < self@.len() && holds(#[trigger] self@[i], addr as int)
                    && self.devices()[i].read_effect(
                    (addr - self@[i].0) as u64,
                    old(data)@,
                    final(data)@,
                ),
    {
        match self.get_device(addr) {
            Some((offset, dev)) => {
                dev.read(offset, data);
                true
            },
            None => false,
        }
    }

    /// Writes `data` to the device that owns the range containing `addr`: one
    /// write of that device, at the offset of `addr` within its range, of the
    /// caller's bytes.
    ///
    /// Returns true on success, otherwise no device is written.
    pub fn write(&self, addr: u64, data: &[u8]) -> (r: bool)
        where
            D: DeviceHandle,
        requires
            self.wf(),
        ensures
            r == owned(self@, addr as int),
            r ==> exists|i: int|
                0 <= i < self@.len() && holds(#[trigger] self@[i], addr as int)
                    && self.devices()[i].write_effect((addr - self@[i].0) as u64, data@),
    {
        match self.get_device(addr) {
            Some((offset, dev)) => {
                dev.write(offset, data);
                true
            },
            None => false,
        }
    }
}

/// No two ranges of a well-formed bus share an address: the ranges left by
/// any sequence of successful inserts are pairwise disjoint.
pub proof fn lemma_ranges_disjoint(s: Seq<(u64, u64)>, i: int, j: int)
    requires
        ranges_wf(s),
        0 <= i < s.len(),
        0 <= j < s.len(),
        i != j,
    ensures
        !meets(s[i], s[j].0 as int, s[j].1 as int),
{
}

/// An insert whose range meets a range already on the bus is refused.
pub proof fn lemma_meeting_insert_rejected(s: Seq<(u64, u64)>, base: u64, len: u64, i: int)
    requires
        0 <= i < s.len(),
        meets(s[i], base as int, len as int),
    ensures
        !can_insert(s, base, len),
{
}

/// An address is owned by at most one range of a well-formed bus, so the
/// device that a lookup finds is the unique owner of the address.
pub proof fn lemma_owner_unique(s: Seq<(u64, u64)>, a: int, i: int, j: int)
    requires
        ranges_wf(s),
        0 <= i < s.len(),
        0 <= j < s.len(),
        holds(s[i], a),
        holds(s[j], a),
    ensures
        i == j,
{
    if i < j {
        assert(s[i].0 + s[i].1 <= s[j].0);
    } else if j < i {
        assert(s[j].0 + s[j].1 <= s[i].0);
    }
}

/// A range owns its base and its last address, and not the address just past
/// its end.
pub proof fn lemma_range_bounds(r: (u64, u64))
    requires
        r.1 > 0,
    ensures
        holds(r, r.0 as int),
        holds(r, r.0 + r.1 - 1),
        !holds(r, r.0 + r.1),
{
}

/// A second range at the base of a range already on the bus is refused,
/// whatever its length.
pub proof fn lemma_duplicate_base_rejected(s: Seq<(u64, u64)>, i: int, len: u64)
    requires
        ranges_wf(s),
        0 <= i < s.len(),
    ensures
        !can_insert(s, s[i].0, len),
{
    if len > 0 {
        assert(meets(s[i], s[i].0 as int, len as int));
    }
}

/// A range of length zero is refused, whatever its base.
pub proof fn lemma_zero_length_rejected(s: Seq<(u64, u64)>, base: u64)
    ensures
        !can_insert(s, base, 0),
{
}

} // verus!
