//! Block-granular IO built on a sector-granular device.
//!
//! [`IO`] translates block reads and writes into sector operations on the
//! underlying [`DeviceDriver`]. A block is `ratio = block_size /
//! sector_size` consecutive sectors; the view of block `i` is the
//! concatenation of sectors `i * ratio .. (i + 1) * ratio`.

use vstd::prelude::*;

use vstd::arithmetic::div_mod::lemma_div_denominator;
use vstd::arithmetic::div_mod::lemma_div_multiples_vanish;
use vstd::arithmetic::div_mod::lemma_fundamental_div_mod;
use vstd::arithmetic::mul::lemma_mul_inequality;

use crate::bytes::sub_bytes;
use crate::device::DeviceDriver;
use crate::BlockPointer;

verus! {

/// The concatenation of the sector contents `s[start] + ... + s[end - 1]`.
pub open spec fn concat_range(s: Seq<Seq<u8>>, start: int, end: int) -> Seq<u8>
    decreases end - start,
{
    if start >= end {
        Seq::empty()
    } else {
        s[start] + concat_range(s, start + 1, end)
    }
}

proof fn lemma_concat_range_snoc(s: Seq<Seq<u8>>, start: int, end: int)
    requires
        start <= end,
    ensures
        concat_range(s, start, end + 1) == concat_range(s, start, end) + s[end],
    decreases end - start,
{
    if start == end {
        assert(concat_range(s, start + 1, end + 1) == Seq::<u8>::empty());
        assert(concat_range(s, start, end + 1) == s[start] + Seq::<u8>::empty());
        assert(concat_range(s, start, end) + s[end] =~= s[start] + Seq::<u8>::empty());
    } else {
        lemma_concat_range_snoc(s, start + 1, end);
        assert(concat_range(s, start, end + 1) == s[start] + (concat_range(s, start + 1, end)
            + s[end]));
        assert(s[start] + (concat_range(s, start + 1, end) + s[end]) =~= (s[start] + concat_range(
            s,
            start + 1,
            end,
        )) + s[end]);
    }
}

proof fn lemma_concat_range_len(s: Seq<Seq<u8>>, start: int, end: int, m: nat)
    requires
        start <= end,
        forall|i: int| start <= i < end ==> (#[trigger] s[i]).len() == m,
    ensures
        concat_range(s, start, end).len() == (end - start) * m,
    decreases end - start,
{
    if start == end {
        assert((end - start) * m == 0) by (nonlinear_arith)
            requires
                end == start,
        ;
    } else {
        lemma_concat_range_len(s, start + 1, end, m);
        assert(m + (end - start - 1) * m == (end - start) * m) by (nonlinear_arith);
    }
}

proof fn lemma_concat_range_agree(s1: Seq<Seq<u8>>, s2: Seq<Seq<u8>>, start: int, end: int)
    requires
        forall|i: int| start <= i < end ==> s1[i] == s2[i],
    ensures
        concat_range(s1, start, end) == concat_range(s2, start, end),
    decreases end - start,
{
    if start < end {
        lemma_concat_range_agree(s1, s2, start + 1, end);
    }
}

/// If the sectors in `[start, end)` hold the consecutive `m`-byte chunks of
/// `b`, their concatenation is exactly `b`.
proof fn lemma_concat_range_chunks(s: Seq<Seq<u8>>, start: int, end: int, b: Seq<u8>, m: nat)
    requires
        start <= end,
        b.len() == (end - start) * m,
        forall|k: int|
            0 <= k < end - start ==> #[trigger] s[start + k] == b.subrange(
                k * m,
                k * m + m,
            ),
    ensures
        concat_range(s, start, end) == b,
    decreases end - start,
{
    if start == end {
        assert(b.len() == 0) by (nonlinear_arith)
            requires
                b.len() == (end - start) * m,
                end == start,
        ;
        assert(concat_range(s, start, end) =~= b);
    } else {
        let rest = b.subrange(m as int, b.len() as int);
        assert(b.len() >= m) by (nonlinear_arith)
            requires
                b.len() == (end - start) * m,
                end - start >= 1,
        ;
        assert(rest.len() == (end - (start + 1)) * m) by (nonlinear_arith)
            requires
                rest.len() == b.len() - m,
                b.len() == (end - start) * m,
        ;
        assert forall|k: int| 0 <= k < end - (start + 1) implies #[trigger] s[start + 1 + k]
            == rest.subrange(k * m, k * m + m) by {
            assert(s[start + (k + 1)] == b.subrange((k + 1) * m, (k + 1) * m + m));
            assert((k + 1) * m == k * m + m) by (nonlinear_arith);
            assert(k * m >= 0) by (nonlinear_arith)
                requires
                    k >= 0,
                    m >= 0,
            ;
            assert(k * m + m + m <= b.len()) by (nonlinear_arith)
                requires
                    b.len() == (end - start) * m,
                    0 <= k < end - start - 1,
            ;
            assert(rest.subrange(k * m, k * m + m) =~= b.subrange(k * m + m, k * m + m + m));
        }
        lemma_concat_range_chunks(s, start + 1, end, rest, m);
        assert(s[start + 0] == b.subrange(0 * m as int, 0 * m as int + m as int));
        assert(0 * m as int == 0) by (nonlinear_arith);
        assert(s[start] == b.subrange(0, m as int));
        assert(concat_range(s, start, end) == s[start] + rest);
        assert(s[start] + rest =~= b);
    }
}

/// The IO value that [`IO::new`] builds over `drive` at `block_size`.
pub open spec fn spec_new_io<D: DeviceDriver>(drive: D, block_size: usize) -> IO<D> {
    IO {
        drive,
        block_size,
        block_count: (((drive.sectors().len() * drive.sector_size_spec()) as int)
            / block_size as int) as u64,
    }
}

/// Block-level access to a device: reads and writes whole blocks of
/// `block_size` bytes, each made of `block_size / sector_size` sectors.
pub struct IO<D: DeviceDriver> {
    /// The underlying sector device.
    pub drive: D,
    /// Size of a block in bytes; a positive multiple of the sector size.
    pub block_size: usize,
    /// Number of whole blocks that fit on the device.
    pub block_count: u64,
}

impl<D: DeviceDriver> IO<D> {
    /// Size of a device sector in bytes.
    pub open spec fn sector_size(&self) -> nat {
        self.drive.sector_size_spec()
    }

    /// Number of sectors per block.
    pub open spec fn spec_ratio(&self) -> int {
        self.block_size as int / self.sector_size() as int
    }

    /// Geometry consistency: the block size is a positive multiple of the
    /// sector size and the block count is derived from the device capacity.
    pub open spec fn wf(&self) -> bool {
        &&& self.drive.wf()
        &&& self.sector_size() <= self.block_size as nat
        &&& self.block_size as int % self.sector_size() as int == 0
        &&& self.block_count as int == (self.drive.sectors().len() * self.sector_size()) as int
            / self.block_size as int
    }

    /// The bytes of block `i`: the concatenation of its sectors.
    pub open spec fn block_view(&self, i: int) -> Seq<u8> {
        concat_range(self.drive.sectors(), i * self.spec_ratio(), (i + 1) * self.spec_ratio())
    }

    /// Basic consequences of `wf` used by every block operation.
    pub proof fn lemma_geometry(&self)
        requires
            self.wf(),
        ensures
            self.sector_size() > 0,
            1 <= self.spec_ratio(),
            1 <= self.block_size,
            self.block_size as int == self.spec_ratio() * self.sector_size() as int,
            self.block_count as int * self.spec_ratio() <= self.drive.sectors().len() as int,
            forall|i: int|
                0 <= i < self.drive.sectors().len() ==> (#[trigger] self.drive.sectors()[i]).len()
                    == self.sector_size(),
            forall|i: int|
                0 <= i < self.block_count ==> (#[trigger] self.block_view(i)).len()
                    == self.block_size,
    {
        self.drive.wf_properties();
        let s = self.sector_size() as int;
        let b = self.block_size as int;
        let n = self.drive.sectors().len() as int;
        let r = self.spec_ratio();
        lemma_fundamental_div_mod(b, s);
        assert(b == s * r);
        assert(r >= 1) by (nonlinear_arith)
            requires
                b == s * r,
                s > 0,
                b >= s,
        ;
        // block_count == n / r
        assert(n * s >= 0) by (nonlinear_arith)
            requires
                n >= 0,
                s >= 0,
        ;
        lemma_div_denominator(n * s, s, r);
        assert((n * s) / s / r == (n * s) / (s * r));
        lemma_div_multiples_vanish(n, s);
        assert((s * n) / s == n);
        assert(s * n == n * s) by (nonlinear_arith);
        assert(self.block_count as int == n / r);
        lemma_fundamental_div_mod(n, r);
        assert(n == r * (n / r) + n % r);
        assert(n % r >= 0);
        assert((n / r) * r <= n) by (nonlinear_arith)
            requires
                n == r * (n / r) + n % r,
                n % r >= 0,
        ;
        assert forall|i: int| 0 <= i < self.block_count implies (#[trigger] self.block_view(
            i,
        )).len() == self.block_size by {
            self.lemma_block_in_range(i);
            lemma_concat_range_len(self.drive.sectors(), i * r, (i + 1) * r, self.sector_size());
            assert(((i + 1) * r - i * r) * s == r * s) by (nonlinear_arith);
            assert(r * s == s * r) by (nonlinear_arith);
        }
    }

    /// The sectors of block `i` lie on the device when `i < block_count`.
    pub proof fn lemma_block_in_range(&self, i: int)
        requires
            self.wf(),
            0 <= i < self.block_count,
        ensures
            0 <= i * self.spec_ratio(),
            (i + 1) * self.spec_ratio() <= self.drive.sectors().len(),
            i * self.spec_ratio() + self.spec_ratio() == (i + 1) * self.spec_ratio(),
    {
        self.drive.wf_properties();
        let s = self.sector_size() as int;
        let b = self.block_size as int;
        let n = self.drive.sectors().len() as int;
        let r = self.spec_ratio();
        lemma_fundamental_div_mod(b, s);
        assert(b == s * r);
        assert(r >= 1) by (nonlinear_arith)
            requires
                b == s * r,
                s > 0,
                b >= s,
        ;
        assert(n * s >= 0) by (nonlinear_arith)
            requires
                n >= 0,
                s >= 0,
        ;
        lemma_div_denominator(n * s, s, r);
        lemma_div_multiples_vanish(n, s);
        assert(s * n == n * s) by (nonlinear_arith);
        assert(self.block_count as int == n / r);
        lemma_fundamental_div_mod(n, r);
        assert((n / r) * r <= n) by (nonlinear_arith)
            requires
                n == r * (n / r) + n % r,
                n % r >= 0,
        ;
        assert(i * r >= 0) by (nonlinear_arith)
            requires
                i >= 0,
                r >= 0,
        ;
        lemma_mul_inequality(i + 1, self.block_count as int, r);
        assert((i + 1) * r <= self.block_count as int * r);
        lemma_mul_inequality(self.block_count as int, n / r, r);
        assert((i + 1) * r == i * r + r) by (nonlinear_arith);
    }

    /// Creates a block-level wrapper over `drive` with the given block size.
    ///
    /// The block size must be a positive multiple of the sector size;
    /// violating that is a programming error, so it is a precondition here.
    pub fn new(drive: D, block_size: usize) -> (r: IO<D>)
        requires
            drive.wf(),
            drive.sector_size_spec() <= block_size as nat,
            block_size as int % drive.sector_size_spec() as int == 0,
        ensures
            r.wf(),
            r.drive == drive,
            r.block_size == block_size,
            r.block_count as int == (drive.sectors().len() * drive.sector_size_spec()) as int
                / block_size as int,
            r == spec_new_io(drive, block_size),
    {
        proof {
            drive.wf_properties();
        }
        let sector_size = drive.get_sector_size();
        let sector_count = drive.get_sector_count();
        let bytes: u64 = sector_count * (sector_size as u64);
        let block_count = bytes / (block_size as u64);
        IO { drive, block_size, block_count }
    }

    /// Size of a block in bytes.
    pub fn get_block_size(&self) -> (r: usize)
        ensures
            r == self.block_size,
    {
        self.block_size
    }

    /// Number of whole blocks on the device.
    pub fn get_block_count(&self) -> (r: u64)
        ensures
            r == self.block_count,
    {
        self.block_count
    }

    /// Size of a device sector in bytes.
    pub fn get_sector_size(&self) -> (r: usize)
        requires
            self.wf(),
        ensures
            r as nat == self.sector_size(),
            r > 0,
    {
        self.drive.get_sector_size()
    }

    /// Number of sectors on the device.
    pub fn get_sector_count(&self) -> (r: u64)
        requires
            self.wf(),
        ensures
            r as nat == self.drive.sectors().len(),
    {
        self.drive.get_sector_count()
    }

    /// Reinterprets the device with a new block size, without touching its
    /// contents; used during mount once the superblock reveals the real size.
    pub fn set_block_size(&mut self, block_size: usize)
        requires
            old(self).wf(),
            old(self).sector_size() <= block_size as nat,
            block_size as int % old(self).sector_size() as int == 0,
        ensures
            final(self).wf(),
            final(self).drive == old(self).drive,
            final(self).block_size == block_size,
            final(self).block_count as int == (old(self).drive.sectors().len() * old(
                self,
            ).sector_size()) as int / block_size as int,
    {
        proof {
            self.drive.wf_properties();
        }
        let sector_size = self.drive.get_sector_size();
        let sector_count = self.drive.get_sector_count();
        let bytes: u64 = sector_count * (sector_size as u64);
        self.block_size = block_size;
        self.block_count = bytes / (block_size as u64);
    }


    /// Reads the consecutive blocks `[first, first + buf_len / block_size)`
    /// into one buffer.
    pub fn read_region(&self, first: BlockPointer, buf_len: usize) -> (r: Vec<u8>)
        requires
            self.wf(),
            buf_len >= 1,
            buf_len as int % self.block_size as int == 0,
            first as int + buf_len as int / self.block_size as int <= self.block_count as int,
        ensures
            r@.len() == buf_len,
            forall|k: int|
                0 <= k < buf_len as int / self.block_size as int ==> #[trigger] self.block_view(
                    first as int + k,
                ) == r@.subrange(k * self.block_size as int, (k + 1) * self.block_size as int),
    {
        proof {
            self.lemma_geometry();
        }
        let bs = self.block_size;
        let mut data = crate::bytes::zero_vec(buf_len);
        let blocks: u64 = (buf_len as u64) / (bs as u64);
        let ghost dlen = buf_len as int;
        proof {
            lemma_fundamental_div_mod(dlen, bs as int);
            assert((dlen / bs as int) * bs as int == dlen) by (nonlinear_arith)
                requires
                    dlen == bs as int * (dlen / bs as int),
            ;
        }
        let mut k: u64 = 0;
        while k < blocks
            invariant
                k <= blocks,
                bs >= 1,
                bs == self.block_size,
                self.wf(),
                buf_len as int == dlen,
                data@.len() == dlen,
                blocks as int == dlen / bs as int,
                (dlen / bs as int) * bs as int == dlen,
                first as int + blocks as int <= self.block_count as int,
                forall|j: int|
                    0 <= j < k ==> #[trigger] self.block_view(first as int + j) == data@.subrange(
                        j * bs as int,
                        (j + 1) * bs as int,
                    ),
            decreases blocks - k,
        {
            proof {
                assert((k as int + 1) * bs as int <= blocks as int * bs as int)
                    by (nonlinear_arith)
                    requires
                        k as int + 1 <= blocks as int,
                        bs as int >= 0,
                ;
                assert(blocks as int * bs as int == dlen) by (nonlinear_arith)
                    requires
                        blocks as int == dlen / bs as int,
                        (dlen / bs as int) * bs as int == dlen,
                ;
                assert(k as int * bs as int >= 0) by (nonlinear_arith)
                    requires
                        k as int >= 0,
                        bs as int >= 0,
                ;
                assert((k as int + 1) * bs as int == k as int * bs as int + bs as int)
                    by (nonlinear_arith);
                assert(k as int <= k as int * bs as int) by (nonlinear_arith)
                    requires
                        k as int >= 0,
                        bs as int >= 1,
                ;
            }
            let block = self.read_block(first + k);
            let off = (k as usize) * bs;
            let ghost before = data@;
            crate::bytes::splice_bytes(&mut data, off, &block);
            proof {
                assert forall|j: int| 0 <= j < k + 1 implies #[trigger] self.block_view(
                    first as int + j,
                ) == data@.subrange(j * bs as int, (j + 1) * bs as int) by {
                    assert(j * bs as int >= 0) by (nonlinear_arith)
                        requires
                            j >= 0,
                            bs as int >= 0,
                    ;
                    assert((j + 1) * bs as int == j * bs as int + bs as int) by (nonlinear_arith);
                    if j < k {
                        assert((j + 1) * bs as int <= k as int * bs as int) by (nonlinear_arith)
                            requires
                                j + 1 <= k as int,
                                bs as int >= 0,
                        ;
                        assert(data@.subrange(j * bs as int, (j + 1) * bs as int)
                            =~= before.subrange(j * bs as int, (j + 1) * bs as int));
                    } else {
                        assert(data@.subrange(k as int * bs as int, k as int * bs as int
                            + bs as int) =~= block@);
                    }
                }
            }
            k = k + 1;
        }
        data
    }

    /// Writes one buffer as the consecutive blocks `[first, first +
    /// buf.len() / block_size)`.
    pub fn write_region(&mut self, first: BlockPointer, buf: &Vec<u8>)
        requires
            old(self).wf(),
            buf@.len() >= 1,
            buf@.len() as int % old(self).block_size as int == 0,
            first as int + buf@.len() as int / old(self).block_size as int <= old(
                self,
            ).block_count as int,
        ensures
            final(self).wf(),
            final(self).block_size == old(self).block_size,
            final(self).block_count == old(self).block_count,
            final(self).sector_size() == old(self).sector_size(),
            final(self).drive.sectors().len() == old(self).drive.sectors().len(),
            forall|k: int|
                0 <= k < buf@.len() as int / old(self).block_size as int
                    ==> #[trigger] final(self).block_view(first as int + k) == buf@.subrange(
                    k * old(self).block_size as int,
                    (k + 1) * old(self).block_size as int,
                ),
            forall|j: int|
                0 <= j < old(self).block_count && !(first as int <= j < first as int + buf@.len()
                    as int / old(self).block_size as int)
                    ==> final(self).block_view(j) == old(self).block_view(j),
    {
        proof {
            self.lemma_geometry();
        }
        let bs = self.block_size;
        let dl = buf.len();
        let blocks: u64 = (dl as u64) / (bs as u64);
        let ghost old_io = *old(self);
        let ghost dlen = dl as int;
        proof {
            lemma_fundamental_div_mod(dlen, bs as int);
            assert((dlen / bs as int) * bs as int == dlen) by (nonlinear_arith)
                requires
                    dlen == bs as int * (dlen / bs as int),
            ;
        }
        let mut k: u64 = 0;
        while k < blocks
            invariant
                k <= blocks,
                bs >= 1,
                dl as int == dlen,
                buf@.len() == dlen,
                blocks as int == dlen / bs as int,
                (dlen / bs as int) * bs as int == dlen,
                bs == old_io.block_size,
                old_io.wf(),
                first as int + blocks as int <= old_io.block_count as int,
                self.wf(),
                self.block_size == old_io.block_size,
                self.block_count == old_io.block_count,
                self.sector_size() == old_io.sector_size(),
                self.drive.sectors().len() == old_io.drive.sectors().len(),
                forall|j: int|
                    0 <= j < k ==> #[trigger] self.block_view(first as int + j) == buf@.subrange(
                        j * bs as int,
                        (j + 1) * bs as int,
                    ),
                forall|j: int|
                    0 <= j < old_io.block_count && !(first as int <= j < first as int + k)
                        ==> #[trigger] self.block_view(j) == old_io.block_view(j),
            decreases blocks - k,
        {
            proof {
                assert((k as int + 1) * bs as int <= blocks as int * bs as int)
                    by (nonlinear_arith)
                    requires
                        k as int + 1 <= blocks as int,
                        bs as int >= 0,
                ;
                assert(blocks as int * bs as int == dlen) by (nonlinear_arith)
                    requires
                        blocks as int == dlen / bs as int,
                        (dlen / bs as int) * bs as int == dlen,
                ;
                assert(k as int * bs as int >= 0) by (nonlinear_arith)
                    requires
                        k as int >= 0,
                        bs as int >= 0,
                ;
                assert((k as int + 1) * bs as int == k as int * bs as int + bs as int)
                    by (nonlinear_arith);
                assert(k as int <= k as int * bs as int) by (nonlinear_arith)
                    requires
                        k as int >= 0,
                        bs as int >= 1,
                ;
            }
            let start = (k as usize) * bs;
            let data_block = sub_bytes(buf, start, start + bs);
            self.write_block(first + k, &data_block);
            k = k + 1;
        }
    }

    /// Reads block `index`. Reading past the last block is a programming
    /// error or corruption, so it is excluded by precondition.
    pub fn read_block(&self, index: BlockPointer) -> (r: Vec<u8>)
        requires
            self.wf(),
            index < self.block_count,
        ensures
            r@ == self.block_view(index as int),
            r@.len() == self.block_size,
    {
        proof {
            self.lemma_geometry();
            self.lemma_block_in_range(index as int);
        }
        let s = self.drive.get_sector_size();
        let ratio = (self.block_size / s) as u64;
        proof {
            assert(ratio as int == self.spec_ratio());
            self.drive.wf_properties();
            assert(self.drive.sectors().len() <= u64::MAX as nat) by (nonlinear_arith)
                requires
                    self.drive.sectors().len() * self.sector_size() <= u64::MAX as nat,
                    self.sector_size() >= 1,
            ;
            assert(index as int * ratio as int >= 0) by (nonlinear_arith)
                requires
                    index as int >= 0,
                    ratio as int >= 0,
            ;
            assert(index as int * ratio as int + ratio as int == (index as int + 1)
                * ratio as int) by (nonlinear_arith);
        }
        let start = index * ratio;
        let mut buffer: Vec<u8> = Vec::new();
        let mut k: u64 = 0;
        proof {
            assert(start as int == index as int * self.spec_ratio());
            assert(concat_range(self.drive.sectors(), start as int, start as int)
                =~= Seq::<u8>::empty());
        }
        while k < ratio
            invariant
                self.wf(),
                k <= ratio,
                ratio as int == self.spec_ratio(),
                start as int == index as int * self.spec_ratio(),
                start + ratio <= self.drive.sectors().len(),
                start as int + ratio as int <= u64::MAX as int,
                buffer@ == concat_range(self.drive.sectors(), start as int, start as int + k),
            decreases ratio - k,
        {
            let mut sector = self.drive.read_sector(start + k);
            proof {
                lemma_concat_range_snoc(self.drive.sectors(), start as int, start as int + k);
            }
            buffer.append(&mut sector);
            k = k + 1;
        }
        proof {
            self.lemma_block_in_range(index as int);
            assert(start as int + ratio as int == (index as int + 1) * self.spec_ratio());
            self.lemma_geometry();
        }
        buffer
    }

    /// Writes `block` as block `index`. The buffer must be exactly one
    /// block long and the index on the device; anything else is a
    /// programming error, so both are preconditions.
    pub fn write_block(&mut self, index: BlockPointer, block: &Vec<u8>)
        requires
            old(self).wf(),
            index < old(self).block_count,
            block@.len() == old(self).block_size,
        ensures
            final(self).wf(),
            final(self).block_size == old(self).block_size,
            final(self).block_count == old(self).block_count,
            final(self).sector_size() == old(self).sector_size(),
            final(self).drive.sectors().len() == old(self).drive.sectors().len(),
            final(self).block_view(index as int) == block@,
            forall|j: int|
                0 <= j < old(self).block_count && j != index as int ==> final(self).block_view(j)
                    == old(self).block_view(j),
            forall|s: int|
                0 <= s < old(self).drive.sectors().len() && !(index as int * old(self).spec_ratio()
                    <= s < (index as int + 1) * old(self).spec_ratio()) ==> final(self).drive.sectors()[s] == old(self).drive.sectors()[s],
    {
        proof {
            self.lemma_geometry();
            self.lemma_block_in_range(index as int);
        }
        let s = self.drive.get_sector_size();
        let ratio = (self.block_size / s) as u64;
        proof {
            assert(ratio as int == self.spec_ratio());
            self.drive.wf_properties();
            assert(self.drive.sectors().len() <= u64::MAX as nat) by (nonlinear_arith)
                requires
                    self.drive.sectors().len() * self.sector_size() <= u64::MAX as nat,
                    self.sector_size() >= 1,
            ;
            assert(index as int * ratio as int >= 0) by (nonlinear_arith)
                requires
                    index as int >= 0,
                    ratio as int >= 0,
            ;
            assert(index as int * ratio as int + ratio as int == (index as int + 1)
                * ratio as int) by (nonlinear_arith);
        }
        let start = index * ratio;
        let ghost old_io = *old(self);
        let mut k: u64 = 0;
        while k < ratio
            invariant
                k <= ratio,
                start as int + ratio as int <= u64::MAX as int,
                self.drive.wf(),
                self.block_size == old_io.block_size,
                self.block_count == old_io.block_count,
                self.sector_size() == old_io.sector_size(),
                self.drive.sectors().len() == old_io.drive.sectors().len(),
                old_io.wf(),
                block@.len() == old_io.block_size,
                s as nat == old_io.sector_size(),
                ratio as int == old_io.spec_ratio(),
                old_io.block_size as int == ratio as int * s as int,
                start as int == index as int * old_io.spec_ratio(),
                start + ratio <= self.drive.sectors().len(),
                forall|m: int|
                    0 <= m < k ==> #[trigger] self.drive.sectors()[start as int + m]
                        == block@.subrange(m * s as int, m * s as int + s as int),
                forall|i: int|
                    0 <= i < self.drive.sectors().len() && !(start as int <= i < start as int + k)
                        ==> #[trigger] self.drive.sectors()[i] == old_io.drive.sectors()[i],
            decreases ratio - k,
        {
            proof {
                assert((k as int + 1) * s as int <= ratio as int * s as int) by (nonlinear_arith)
                    requires
                        k as int + 1 <= ratio as int,
                        s as int >= 0,
                ;
                assert(k as int * s as int >= 0) by (nonlinear_arith)
                    requires
                        k as int >= 0,
                        s as int >= 0,
                ;
                assert((k as int + 1) * s as int == k as int * s as int + s as int)
                    by (nonlinear_arith);
            }
            let off = (k as usize) * s;
            let chunk = sub_bytes(block, off, off + s);
            self.drive.write_sector(start + k, &chunk);
            k = k + 1;
        }
        proof {
            let sec = self.drive.sectors();
            let r = ratio as int;
            let si = s as int;
            assert(block@.len() == r * (s as nat)) by (nonlinear_arith)
                requires
                    block@.len() == old_io.block_size,
                    old_io.block_size as int == r * si,
                    si == s as nat,
            ;
            assert forall|m: int| 0 <= m < r implies #[trigger] sec[start as int + m]
                == block@.subrange(m * si, m * si + si) by {}
            lemma_concat_range_chunks(
                sec,
                start as int,
                start as int + r,
                block@,
                s as nat,
            );
            assert(start as int + r == (index as int + 1) * r) by (nonlinear_arith)
                requires
                    start as int == index as int * r,
            ;
            assert(self.block_view(index as int) == block@);
            // geometry is untouched, so well-formedness carries over
            assert(self.wf());
            // every other block reads the same sectors as before
            assert forall|j: int|
                0 <= j < old_io.block_count && j != index as int implies self.block_view(j)
                == old_io.block_view(j) by {
                old_io.lemma_block_in_range(j);
                assert(j * r >= 0);
                if j < index as int {
                    lemma_mul_inequality(j + 1, index as int, r);
                    assert((j + 1) * r <= index as int * r);
                } else {
                    lemma_mul_inequality(index as int + 1, j, r);
                    assert((index as int + 1) * r <= j * r);
                }
                assert((j + 1) * r == j * r + r) by (nonlinear_arith);
                assert(forall|i: int|
                    j * r <= i < (j + 1) * r ==> self.drive.sectors()[i]
                        == old_io.drive.sectors()[i]);
                lemma_concat_range_agree(
                    self.drive.sectors(),
                    old_io.drive.sectors(),
                    j * r,
                    (j + 1) * r,
                );
            }
        }
    }
}

} // verus!
