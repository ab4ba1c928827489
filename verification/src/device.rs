//! Sector-granular block devices.
//!
//! [`DeviceDriver`] is the boundary of the storage engine: a flat array of
//! fixed-size sectors addressed by index. The trait carries a mathematical
//! view of the device contents, so that everything layered above it can be
//! specified and verified against that view. [`MemDrive`] is a verified
//! in-memory implementation; file- or device-backed drivers can implement
//! the same trait outside the core.

use vstd::prelude::*;

use crate::bytes::copy_bytes;
use crate::bytes::zero_vec;

verus! {

/// A driver for a fixed-capacity device made of equally sized sectors.
///
/// `sectors()` is the abstract content: one byte sequence per sector, each
/// exactly `sector_size_spec()` bytes long whenever the driver is
/// well-formed.
pub trait DeviceDriver: Sized {
    /// Abstract contents of the device, one sequence per sector.
    spec fn sectors(&self) -> Seq<Seq<u8>>;

    /// Size of each sector in bytes.
    spec fn sector_size_spec(&self) -> nat;

    /// The driver's internal consistency.
    spec fn wf(&self) -> bool;

    /// A well-formed device has a positive sector size, sectors of exactly
    /// that size, and a total byte capacity that fits in a `u64`.
    proof fn wf_properties(&self)
        requires
            self.wf(),
        ensures
            self.sector_size_spec() > 0,
            self.sectors().len() * self.sector_size_spec() <= u64::MAX as nat,
            forall|i: int|
                0 <= i < self.sectors().len() ==> (#[trigger] self.sectors()[i]).len()
                    == self.sector_size_spec(),
    ;

    /// Number of sectors on the device.
    fn get_sector_count(&self) -> (r: u64)
        requires
            self.wf(),
        ensures
            r as nat == self.sectors().len(),
    ;

    /// Size of each sector in bytes.
    fn get_sector_size(&self) -> (r: usize)
        requires
            self.wf(),
        ensures
            r as nat == self.sector_size_spec(),
            r > 0,
    ;

    /// Reads one sector.
    fn read_sector(&self, index: u64) -> (r: Vec<u8>)
        requires
            self.wf(),
            (index as int) < self.sectors().len(),
        ensures
            r@ == self.sectors()[index as int],
            r@.len() == self.sector_size_spec(),
    ;

    /// Overwrites one sector.
    fn write_sector(&mut self, index: u64, data: &Vec<u8>)
        requires
            old(self).wf(),
            (index as int) < old(self).sectors().len(),
            data@.len() == old(self).sector_size_spec(),
        ensures
            final(self).wf(),
            final(self).sector_size_spec() == old(self).sector_size_spec(),
            final(self).sectors() == old(self).sectors().update(index as int, data@),
    ;
}

/// An in-memory device: the whole image lives in a vector of sectors.
pub struct MemDrive {
    sector_size: usize,
    data: Vec<Vec<u8>>,
}

impl MemDrive {
    /// Creates a zero-filled device of `bytes / sector_size` sectors.
    pub fn new(bytes: u64, sector_size: usize) -> (r: MemDrive)
        requires
            sector_size > 0,
        ensures
            r.wf(),
            r.sector_size_spec() == sector_size as nat,
            r.sectors().len() == bytes / (sector_size as u64),
            forall|i: int, j: int|
                0 <= i < r.sectors().len() && 0 <= j < r.sectors()[i].len()
                    ==> #[trigger] r.sectors()[i][j] == 0u8,
    {
        let count = bytes / (sector_size as u64);
        let mut data: Vec<Vec<u8>> = Vec::new();
        let mut i: u64 = 0;
        proof {
            assert(count * sector_size as u64 <= bytes) by (nonlinear_arith)
                requires
                    count == bytes / (sector_size as u64),
                    sector_size > 0,
            ;
        }
        while i < count
            invariant
                i <= count,
                count * (sector_size as u64) <= u64::MAX,
                data@.len() == i,
                forall|k: int|
                    0 <= k < i ==> (#[trigger] data@[k])@.len() == sector_size as nat,
                forall|k: int, j: int|
                    0 <= k < i && 0 <= j < data@[k]@.len() ==> #[trigger] data@[k]@[j] == 0u8,
            decreases count - i,
        {
            data.push(zero_vec(sector_size));
            i = i + 1;
        }
        proof {
            assert(count * sector_size as u64 <= u64::MAX);
        }
        MemDrive { sector_size, data }
    }
}

impl DeviceDriver for MemDrive {
    closed spec fn sectors(&self) -> Seq<Seq<u8>> {
        self.data.deep_view()
    }

    closed spec fn sector_size_spec(&self) -> nat {
        self.sector_size as nat
    }

    closed spec fn wf(&self) -> bool {
        &&& self.sector_size > 0
        &&& self.data@.len() * self.sector_size as nat <= u64::MAX as nat
        &&& forall|i: int|
            0 <= i < self.data@.len() ==> (#[trigger] self.data@[i])@.len()
                == self.sector_size as nat
    }

    proof fn wf_properties(&self) {
        assert(self.sectors().len() == self.data@.len());
        assert forall|i: int| 0 <= i < self.sectors().len() implies (#[trigger] self.sectors()[
            i
        ]).len() == self.sector_size_spec() by {
            assert(self.sectors()[i] == self.data@[i]@);
        }
    }

    fn get_sector_count(&self) -> (r: u64) {
        self.data.len() as u64
    }

    fn get_sector_size(&self) -> (r: usize) {
        self.sector_size
    }

    fn read_sector(&self, index: u64) -> (r: Vec<u8>) {
        let n = self.data.len();
        assert(index < n as u64);
        let r = copy_bytes(&self.data[index as usize]);
        proof {
            assert(self.sectors()[index as int] =~= self.data@[index as int]@);
        }
        r
    }

    fn write_sector(&mut self, index: u64, data: &Vec<u8>) {
        let n = self.data.len();
        assert(index < n as u64);
        let d = copy_bytes(data);
        self.data.set(index as usize, d);
        proof {
            assert forall|i: int| 0 <= i < self.data@.len() implies self.sectors()[i]
                == old(self).sectors().update(index as int, data@)[i] by {
                assert(self.sectors()[i] =~= self.data@[i]@);
                assert(old(self).sectors()[i] =~= old(self).data@[i]@);
            }
            assert(self.sectors() =~= old(self).sectors().update(index as int, data@));
        }
    }
}

} // verus!
