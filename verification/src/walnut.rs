//! A block file system image: a superblock, then groups of data blocks,
//! each group led by a bitmap of its taken blocks. This module holds the
//! block arithmetic, the block allocation of a group, inodes and
//! directories; reading and writing the image file stand outside it.

use vstd::prelude::*;

verus! {

/// Block size in bytes.
pub const BLOCK_SIZE: u32 = 4096;

/// Blocks in a group (one bit per block in a block-sized bitmap).
pub const BLOCKS_PER_GROUP: u32 = 32768;

/// Bytes of data an inode holds inside itself.
pub const INODE_CAPACITY: usize = 4047;

/// Most regions one inode points to.
pub const INODE_MAX_REGION: usize = 500;

/// Version of the image format.
pub const FS_VERSION: u32 = 1;

/// Block index of the root inode.
pub const ROOT_INODE: u32 = 1;

/// The taken blocks of a group, one bit per block (least significant bit
/// first within each byte).
#[verifier::external_body]
#[derive(Debug)]
pub struct BlockBitmap {
    bits: bitvec::vec::BitVec<u8, bitvec::order::Lsb0>,
}

/// The bits of a bitmap, `true` for a taken block.
pub uninterp spec fn bitmap_bits(b: BlockBitmap) -> Seq<bool>;

/// A bitmap of `len` free blocks (`BitVec::repeat(false, len)`).
#[verifier::external_body]
fn bitmap_repeat_free(len: usize) -> (r: BlockBitmap)
    requires
        len <= 0x1000_0000,
    ensures
        bitmap_bits(r) == Seq::new(len as nat, |i: int| false),
{
    BlockBitmap { bits: bitvec::vec::BitVec::repeat(false, len) }
}

/// The bitmap whose bytes are `bytes` (`BitVec::from_slice`): bit `i` is
/// bit `i % 8` of byte `i / 8`, counted from the least significant.
#[verifier::external_body]
fn bitmap_from_bytes(bytes: &[u8]) -> (r: BlockBitmap)
    requires
        bytes@.len() <= 0x0100_0000,
    ensures
        bitmap_bits(r).len() == 8 * bytes@.len(),
        forall|i: int|
            0 <= i < bitmap_bits(r).len() ==> #[trigger] bitmap_bits(r)[i] == ((bytes@[i / 8]
                >> ((i % 8) as u8)) & 1u8 == 1u8),
{
    BlockBitmap { bits: bitvec::vec::BitVec::from_slice(bytes) }
}

/// The bytes under the bitmap (`BitVec::as_raw_slice`, copied): bit `i` is
/// bit `i % 8` of byte `i / 8`. The unused bits of the last byte are not
/// stated.
#[verifier::external_body]
fn bitmap_to_bytes(b: &BlockBitmap) -> (r: Vec<u8>)
    ensures
        r@.len() == (bitmap_bits(*b).len() + 7) / 8,
        forall|i: int|
            0 <= i < bitmap_bits(*b).len() ==> #[trigger] bitmap_bits(*b)[i] == ((r@[i / 8]
                >> ((i % 8) as u8)) & 1u8 == 1u8),
{
    b.bits.as_raw_slice().to_vec()
}

/// Number of bits (`BitVec::len`).
#[verifier::external_body]
fn bitmap_len(b: &BlockBitmap) -> (r: usize)
    ensures
        r == bitmap_bits(*b).len(),
{
    b.bits.len()
}

/// The bit at `index` (`BitSlice` indexing).
#[verifier::external_body]
fn bitmap_get(b: &BlockBitmap, index: usize) -> (r: bool)
    requires
        index < bitmap_bits(*b).len(),
    ensures
        r == bitmap_bits(*b)[index as int],
{
    b.bits[index]
}

/// Sets the bit at `index` (`BitSlice::set`).
#[verifier::external_body]
fn bitmap_set(b: &mut BlockBitmap, index: usize, value: bool)
    requires
        index < bitmap_bits(*old(b)).len(),
    ensures
        bitmap_bits(*final(b)) == bitmap_bits(*old(b)).update(index as int, value),
{
    b.bits.set(index, value)
}

/// Number of `false` bits in `s`.
pub open spec fn count_free(s: Seq<bool>) -> nat
    decreases s.len(),
{
    if s.len() == 0 {
        0
    } else {
        count_free(s.drop_last()) + if s.last() {
            0nat
        } else {
            1nat
        }
    }
}

/// Number of `false` bits (`BitSlice::count_zeros`).
#[verifier::external_body]
fn bitmap_count_zeros(b: &BlockBitmap) -> (r: usize)
    ensures
        r == count_free(bitmap_bits(*b)),
{
    b.bits.count_zeros()
}

/// Index of the first `false` bit (`BitSlice::iter_zeros().next()`).
#[verifier::external_body]
fn bitmap_first_zero(b: &BlockBitmap) -> (r: Option<usize>)
    ensures
        match r {
            Some(i) => i < bitmap_bits(*b).len() && !bitmap_bits(*b)[i as int] && forall|j: int|
                0 <= j < i ==> #[trigger] bitmap_bits(*b)[j],
            None => forall|j: int| 0 <= j < bitmap_bits(*b).len() ==> #[trigger] bitmap_bits(*b)[j],
        },
{
    b.bits.iter_zeros().next()
}

/// A copy of the bitmap (`BitVec::clone`).
#[verifier::external_body]
fn bitmap_clone(b: &BlockBitmap) -> (r: BlockBitmap)
    ensures
        bitmap_bits(r) == bitmap_bits(*b),
{
    BlockBitmap { bits: b.bits.clone() }
}

impl BlockBitmap {
    /// The bitmap's bits, `true` for a taken block.
    pub open spec fn bits(&self) -> Seq<bool> {
        bitmap_bits(*self)
    }

    /// Sets the bit of a block.
    pub fn set(&mut self, index: usize, value: bool)
        requires
            index < old(self).bits().len(),
        ensures
            final(self).bits() == old(self).bits().update(index as int, value),
    {
        bitmap_set(self, index, value);
    }

    /// The bit of a block.
    pub fn get(&self, index: usize) -> (r: bool)
        requires
            index < self.bits().len(),
        ensures
            r == self.bits()[index as int],
    {
        bitmap_get(self, index)
    }

    /// Number of bits.
    pub fn len(&self) -> (r: usize)
        ensures
            r == self.bits().len(),
    {
        bitmap_len(self)
    }
}

/// Byte offset of a group in the image: after the superblock, each group
/// takes its bitmap block and its data blocks.
pub open spec fn group_offset(group_index: int) -> int {
    BLOCK_SIZE + group_index * (BLOCK_SIZE + BLOCKS_PER_GROUP * BLOCK_SIZE)
}

/// Block address of the block `bitmap_index` of group `group_index`.
pub open spec fn public_address(group_index: int, bitmap_index: int) -> int {
    group_offset(group_index) / (BLOCK_SIZE as int) + bitmap_index
}

/// Byte size of an image with `group_count` groups: the superblock, then
/// each group's bitmap block and data blocks.
pub fn image_size(group_count: u32) -> (r: u64)
    ensures
        r == group_offset(group_count as int),
{
    let per: u64 = 4096 + 32768 * 4096;
    let g: u64 = group_count as u64;
    assert(g * per <= 0xFFFF_FFFFu64 * 134221824u64) by (nonlinear_arith)
        requires
            g <= 0xFFFF_FFFFu64,
            per == 134221824u64,
    ;
    4096 + g * per
}

/// Byte offset of the block at `block_index`.
pub fn block_seek_position(block_index: u32) -> (r: u64)
    ensures
        r == block_index * BLOCK_SIZE,
{
    block_index as u64 * 4096
}

/// The block group and the bitmap index a block address stands for.
pub open spec fn translated(block_index: int) -> (int, int) {
    ((block_index - 1) / (BLOCKS_PER_GROUP as int), (block_index - 1) % (BLOCKS_PER_GROUP as int))
}

/// A group of data blocks.
#[derive(Debug)]
pub struct Group {
    pub block_bitmap: BlockBitmap,
}

impl Group {
    /// The group's bits, `true` for a taken block.
    pub open spec fn bits(&self) -> Seq<bool> {
        bitmap_bits(self.block_bitmap)
    }

    /// A group over the given bitmap.
    pub fn new(block_bitmap: BlockBitmap) -> (r: Self)
        ensures
            r.bits() == bitmap_bits(block_bitmap),
    {
        Group { block_bitmap }
    }

    /// A group with all of its blocks free.
    pub fn init() -> (r: Self)
        ensures
            r.bits() == Seq::new(BLOCKS_PER_GROUP as nat, |i: int| false),
    {
        Group { block_bitmap: bitmap_repeat_free(32768) }
    }

    /// A copy of the group.
    pub fn duplicate(&self) -> (r: Self)
        ensures
            r.bits() == self.bits(),
    {
        Group { block_bitmap: bitmap_clone(&self.block_bitmap) }
    }

    /// Byte offset of the group in the image.
    pub fn seek_position(group_index: u32) -> (r: u32)
        requires
            group_offset(group_index as int) <= u32::MAX,
        ensures
            r == group_offset(group_index as int),
    {
        4096 + group_index * (4096 + 32768 * 4096)
    }

    /// Whether the byte offset of group `group_index` fits the `u32` that
    /// `seek_position` gives.
    pub fn seek_position_fits(group_index: u32) -> (r: bool)
        ensures
            r == (group_offset(group_index as int) <= u32::MAX),
    {
        proof {
            let g = group_index as int;
            if g <= 31 {
                assert(g * 134221824 <= 31 * 134221824) by (nonlinear_arith)
                    requires
                        g <= 31,
                ;
            } else {
                assert(g * 134221824 >= 32 * 134221824) by (nonlinear_arith)
                    requires
                        g >= 32,
                ;
            }
        }
        group_index <= 31
    }

    /// Block address of a block of a group.
    pub fn create_public_address(group_index: u32, bitmap_index: u32) -> (r: u32)
        requires
            group_offset(group_index as int) <= u32::MAX,
            public_address(group_index as int, bitmap_index as int) <= u32::MAX,
        ensures
            r == public_address(group_index as int, bitmap_index as int),
    {
        Self::seek_position(group_index) / 4096 + bitmap_index
    }

    /// The group and the bitmap index of a block address.
    pub fn translate_public_address(block_index: u32) -> (r: (u32, u32))
        requires
            block_index >= 1,
        ensures
            r.0 == translated(block_index as int).0,
            r.1 == translated(block_index as int).1,
    {
        let inodes_per_group: u32 = 32768;
        let inode_bg = (block_index - 1) / inodes_per_group;
        let bitmap_index = (block_index - 1) & (inodes_per_group - 1);
        proof {
            let x: u32 = (block_index - 1) as u32;
            assert(x & 32767u32 == x % 32768u32) by (bit_vector);
        }
        (inode_bg, bitmap_index)
    }

    /// The bitmap's bytes, as the image holds them.
    pub fn serialize(&self) -> (r: Vec<u8>)
        ensures
            r@.len() == (self.bits().len() + 7) / 8,
            forall|i: int|
                0 <= i < self.bits().len() ==> #[trigger] self.bits()[i] == ((r@[i / 8] >> ((i
                    % 8) as u8)) & 1u8 == 1u8),
    {
        bitmap_to_bytes(&self.block_bitmap)
    }

    /// The group whose bitmap bytes are `bytes`.
    pub fn deserialize(bytes: &Vec<u8>) -> (r: Self)
        requires
            bytes@.len() <= 0x0100_0000,
        ensures
            r.bits().len() == 8 * bytes@.len(),
            forall|i: int|
                0 <= i < r.bits().len() ==> #[trigger] r.bits()[i] == ((bytes@[i / 8] >> ((i
                    % 8) as u8)) & 1u8 == 1u8),
    {
        Group { block_bitmap: bitmap_from_bytes(bytes.as_slice()) }
    }

    /// Number of free blocks.
    pub fn free_data_blocks(&self) -> (r: usize)
        ensures
            r == count_free(self.bits()),
    {
        bitmap_count_zeros(&self.block_bitmap)
    }

    /// Number of blocks.
    pub fn total_data_blocks(&self) -> (r: usize)
        ensures
            r == self.bits().len(),
    {
        bitmap_len(&self.block_bitmap)
    }

    /// Frees one block.
    pub fn release_one(&mut self, bitmap_index: u32)
        requires
            bitmap_index < old(self).bits().len(),
        ensures
            final(self).bits() == old(self).bits().update(bitmap_index as int, false),
    {
        bitmap_set(&mut self.block_bitmap, bitmap_index as usize, false);
    }

    /// Frees the blocks `bitmap_index .. bitmap_index + length`.
    pub fn release_data_region(&mut self, bitmap_index: u32, length: u32)
        requires
            bitmap_index + length <= old(self).bits().len(),
            bitmap_index + length <= u32::MAX,
        ensures
            final(self).bits().len() == old(self).bits().len(),
            forall|i: int|
                0 <= i < old(self).bits().len() ==> #[trigger] final(self).bits()[i] == if bitmap_index
                    <= i < bitmap_index + length {
                    false
                } else {
                    old(self).bits()[i]
                },
    {
        let end = bitmap_index + length;
        let mut i = bitmap_index;
        while i < end
            invariant
                bitmap_index <= i <= end,
                end == bitmap_index + length,
                end <= old(self).bits().len(),
                self.bits().len() == old(self).bits().len(),
                forall|j: int|
                    0 <= j < old(self).bits().len() ==> #[trigger] self.bits()[j] == if bitmap_index
                        <= j < i {
                        false
                    } else {
                        old(self).bits()[j]
                    },
            decreases end - i,
        {
            bitmap_set(&mut self.block_bitmap, i as usize, false);
            i = i + 1;
        }
    }

    /// Takes the first free block and gives its address; `None` when the
    /// group is full.
    pub fn allocate_one(&mut self, group_index: u32) -> (r: Option<u32>)
        requires
            group_offset(group_index as int) + BLOCKS_PER_GROUP * BLOCK_SIZE <= u32::MAX,
            old(self).bits().len() <= BLOCKS_PER_GROUP,
        ensures
            match r {
                Some(a) => exists|i: int|
                    0 <= i < old(self).bits().len() && !old(self).bits()[i] && (forall|j: int|
                        0 <= j < i ==> #[trigger] old(self).bits()[j]) && a == public_address(
                        group_index as int,
                        i,
                    ) && final(self).bits() == old(self).bits().update(i, true),
                None => (forall|j: int|
                    0 <= j < old(self).bits().len() ==> #[trigger] old(self).bits()[j])
                    && final(self).bits() == old(self).bits(),
            },
    {
        match bitmap_first_zero(&self.block_bitmap) {
            Some(i) => {
                bitmap_set(&mut self.block_bitmap, i, true);
                proof {
                    assert(group_offset(group_index as int) / 4096 <= group_offset(group_index as int));
                }
                Some(Self::create_public_address(group_index, i as u32))
            },
            None => None,
        }
    }
}

} // verus!

verus! {

/// Closes the open region, if any.
pub open spec fn alloc_close(st: (Seq<bool>, Seq<(u32, u32)>, Option<(u32, u32)>, int, bool)) -> (
    Seq<bool>,
    Seq<(u32, u32)>,
    Option<(u32, u32)>,
    int,
    bool,
) {
    match st.2 {
        Some(r) => (st.0, st.1.push(r), None, st.3, st.4),
        None => st,
    }
}

/// One step of a region allocation over block `i` of group `g`. The state
/// is: the bits, the closed regions (address, length), the open region,
/// the blocks still wanted, and whether the allocation stopped.
pub open spec fn alloc_step(
    st: (Seq<bool>, Seq<(u32, u32)>, Option<(u32, u32)>, int, bool),
    g: u32,
    max_regions: int,
    i: int,
    last: bool,
) -> (Seq<bool>, Seq<(u32, u32)>, Option<(u32, u32)>, int, bool) {
    if st.4 {
        st
    } else if st.3 == 0 {
        let c = alloc_close(st);
        (c.0, c.1, c.2, c.3, true)
    } else if !st.0[i] {
        let open = match st.2 {
            Some(r) => Some((r.0, (r.1 + 1) as u32)),
            None => Some((public_address(g as int, i) as u32, 1u32)),
        };
        let st2 = (st.0.update(i, true), st.1, open, st.3 - 1, false);
        if last {
            alloc_close(st2)
        } else {
            st2
        }
    } else {
        match st.2 {
            Some(r) => (st.0, st.1.push(r), None, st.3, st.1.len() + 1 == max_regions),
            None => st,
        }
    }
}

/// The allocation state after the first `k` blocks of a group with bits
/// `bits`.
pub open spec fn alloc_run(bits: Seq<bool>, g: u32, need: int, max_regions: int, k: nat) -> (
    Seq<bool>,
    Seq<(u32, u32)>,
    Option<(u32, u32)>,
    int,
    bool,
)
    decreases k,
{
    if k == 0 {
        (bits, Seq::empty(), None, need, false)
    } else {
        alloc_step(
            alloc_run(bits, g, need, max_regions, (k - 1) as nat),
            g,
            max_regions,
            k - 1,
            k == bits.len(),
        )
    }
}

/// Once stopped, an allocation stays as it is.
proof fn lemma_alloc_stopped(bits: Seq<bool>, g: u32, need: int, max_regions: int, k: nat, m: nat)
    requires
        k <= m,
        alloc_run(bits, g, need, max_regions, k).4,
    ensures
        alloc_run(bits, g, need, max_regions, m) == alloc_run(bits, g, need, max_regions, k),
    decreases m,
{
    if m > k {
        lemma_alloc_stopped(bits, g, need, max_regions, k, (m - 1) as nat);
    }
}

/// Setting a free bit removes one free block.
proof fn lemma_count_free_update(s: Seq<bool>, i: int)
    requires
        0 <= i < s.len(),
        !s[i],
    ensures
        count_free(s.update(i, true)) + 1 == count_free(s),
    decreases s.len(),
{
    if i < s.len() - 1 {
        lemma_count_free_update(s.drop_last(), i);
        assert(s.update(i, true).drop_last() =~= s.drop_last().update(i, true));
    } else {
        assert(s.update(i, true).drop_last() =~= s.drop_last());
    }
}

/// An allocation only takes free blocks, and takes as many as it was asked
/// for less what is left; the bitmap keeps its length and no taken block is
/// freed.
pub proof fn law_allocation_takes_what_it_counts(
    bits: Seq<bool>,
    g: u32,
    need: int,
    max_regions: int,
    k: nat,
)
    requires
        k <= bits.len(),
        need >= 0,
    ensures
        alloc_run(bits, g, need, max_regions, k).0.len() == bits.len(),
        forall|j: int|
            0 <= j < bits.len() && bits[j] ==> #[trigger] alloc_run(bits, g, need, max_regions, k).0[j],
        forall|j: int|
            k <= j < bits.len() ==> #[trigger] alloc_run(bits, g, need, max_regions, k).0[j] == bits[j],
        0 <= alloc_run(bits, g, need, max_regions, k).3 <= need,
        count_free(bits) - count_free(alloc_run(bits, g, need, max_regions, k).0) == need
            - alloc_run(bits, g, need, max_regions, k).3,
    decreases k,
{
    if k > 0 {
        let prev = alloc_run(bits, g, need, max_regions, (k - 1) as nat);
        law_allocation_takes_what_it_counts(bits, g, need, max_regions, (k - 1) as nat);
        if !prev.4 && prev.3 != 0 && !prev.0[k - 1] {
            lemma_count_free_update(prev.0, k - 1);
        }
    }
}

impl Group {
    /// Takes up to `blocks_to_allocate` free blocks, scanning the bitmap from
    /// its start, and gives the taken runs as regions (address of the first
    /// block, length) together with the number of blocks still wanted. A
    /// run ends at a taken block; after `max_regions` runs ended that way
    /// the scan stops. The result is `alloc_run` over the whole bitmap.
    pub fn allocate_region(&mut self, group_index: u32, blocks_to_allocate: usize, max_regions: usize) -> (r: (
        Vec<(u32, u32)>,
        usize,
    ))
        requires
            group_offset(group_index as int) + BLOCKS_PER_GROUP * BLOCK_SIZE <= u32::MAX,
            old(self).bits().len() <= BLOCKS_PER_GROUP,
        ensures
            ({
                let run = alloc_run(
                    old(self).bits(),
                    group_index,
                    blocks_to_allocate as int,
                    max_regions as int,
                    old(self).bits().len(),
                );
                &&& final(self).bits() == run.0
                &&& r.0@ == run.1
                &&& r.1 == run.3
            }),
    {
        let ghost bits0 = self.bits();
        let n = bitmap_len(&self.block_bitmap);
        let mut regions: Vec<(u32, u32)> = Vec::new();
        let mut region: Option<(u32, u32)> = None;
        let mut need = blocks_to_allocate;
        let mut done = false;
        let mut i: usize = 0;
        while i < n && !done
            invariant
                n == bits0.len(),
                n <= BLOCKS_PER_GROUP,
                i <= n,
                group_offset(group_index as int) + BLOCKS_PER_GROUP * BLOCK_SIZE <= u32::MAX,
                (self.bits(), regions@, region, need as int, done) == alloc_run(
                    bits0,
                    group_index,
                    blocks_to_allocate as int,
                    max_regions as int,
                    i as nat,
                ),
                region matches Some(r) ==> r.1 <= i,
                self.bits().len() == n,
            decreases n - i,
        {
            if need == 0 {
                if let Some(r) = region {
                    regions.push(r);
                    region = None;
                }
                done = true;
            } else {
                let taken = bitmap_get(&self.block_bitmap, i);
                if !taken {
                    match region {
                        Some(r) => {
                            region = Some((r.0, r.1 + 1));
                        },
                        None => {
                            proof {
                                assert(group_offset(group_index as int) / 4096 <= group_offset(
                                    group_index as int,
                                ));
                            }
                            region = Some((Self::create_public_address(group_index, i as u32), 1));
                        },
                    }
                    need = need - 1;
                    bitmap_set(&mut self.block_bitmap, i, true);
                } else {
                    if let Some(r) = region {
                        regions.push(r);
                        region = None;
                        if regions.len() == max_regions {
                            done = true;
                        }
                    }
                }
                if i + 1 == n {
                    if let Some(r) = region {
                        regions.push(r);
                        region = None;
                    }
                }
            }
            i = i + 1;
        }
        proof {
            if done {
                lemma_alloc_stopped(
                    bits0,
                    group_index,
                    blocks_to_allocate as int,
                    max_regions as int,
                    i as nat,
                    n as nat,
                );
            }
        }
        (regions, need)
    }
}

} // verus!

verus! {

/// Blocks needed for `data_size` bytes.
pub open spec fn blocks_for(data_size: int) -> int {
    data_size / (BLOCK_SIZE as int) + if data_size % (BLOCK_SIZE as int) != 0 {
        1int
    } else {
        0int
    }
}

/// Number of blocks needed for `data_size` bytes.
pub fn blocks_to_allocate(data_size: u64) -> (r: u64)
    ensures
        r == blocks_for(data_size as int),
{
    data_size / 4096 + if data_size % 4096 != 0 {
        1
    } else {
        0
    }
}

/// The bits of each group.
pub open spec fn groups_bits(gs: Seq<Group>) -> Seq<Seq<bool>> {
    gs.map_values(|g: Group| g.bits())
}

/// Allocation of `need` blocks over the first `k` groups, group by group:
/// the groups' bits after it, the regions taken, and the blocks still
/// wanted.
pub open spec fn plan_run(bits: Seq<Seq<bool>>, need: int, k: nat) -> (Seq<Seq<bool>>, Seq<(u32, u32)>, int)
    decreases k,
{
    if k == 0 {
        (bits, Seq::empty(), need)
    } else {
        let prev = plan_run(bits, need, (k - 1) as nat);
        if prev.2 > 0 {
            let run = alloc_run(
                prev.0[k - 1],
                (k - 1) as u32,
                prev.2,
                INODE_MAX_REGION as int,
                prev.0[k - 1].len(),
            );
            (prev.0.update(k - 1, run.0), prev.1 + run.1, run.3)
        } else {
            prev
        }
    }
}

proof fn lemma_plan_run_len(bits: Seq<Seq<bool>>, need: int, k: nat)
    requires
        k <= bits.len(),
        need >= 0,
        forall|i: int| 0 <= i < bits.len() ==> (#[trigger] bits[i]).len() <= BLOCKS_PER_GROUP,
    ensures
        plan_run(bits, need, k).0.len() == bits.len(),
        forall|i: int|
            0 <= i < bits.len() ==> (#[trigger] plan_run(bits, need, k).0[i]).len() == bits[i].len(),
        forall|i: int| k <= i < bits.len() ==> #[trigger] plan_run(bits, need, k).0[i] == bits[i],
        0 <= plan_run(bits, need, k).2 <= need,
    decreases k,
{
    if k > 0 {
        lemma_plan_run_len(bits, need, (k - 1) as nat);
        let prev = plan_run(bits, need, (k - 1) as nat);
        if prev.2 > 0 {
            law_allocation_takes_what_it_counts(
                prev.0[k - 1],
                (k - 1) as u32,
                prev.2,
                INODE_MAX_REGION as int,
                prev.0[k - 1].len(),
            );
        }
    }
}

/// Takes the blocks for `data_len` bytes from the groups, one group after
/// the other (as many regions per group as an inode may point to), and
/// gives the regions taken with the number of blocks that could not be had.
pub fn plan_data_regions(groups: &mut Vec<Group>, data_len: u64) -> (r: (Vec<(u32, u32)>, u64))
    requires
        old(groups)@.len() <= 31,
        forall|i: int| 0 <= i < old(groups)@.len() ==> (#[trigger] old(groups)@[i]).bits().len() <= BLOCKS_PER_GROUP,
        blocks_for(data_len as int) <= usize::MAX,
    ensures
        ({
            let run = plan_run(groups_bits(old(groups)@), blocks_for(data_len as int), old(groups)@.len());
            &&& groups_bits(final(groups)@) == run.0
            &&& r.0@ == run.1
            &&& r.1 == run.2
        }),
{
    let ghost bits0 = groups_bits(groups@);
    let ghost need0 = blocks_for(data_len as int);
    let mut need = blocks_to_allocate(data_len);
    let mut ranges: Vec<(u32, u32)> = Vec::new();
    let n = groups.len();
    let mut k: usize = 0;
    proof {
        lemma_plan_run_len(bits0, need0, 0);
    }
    while k < n
        invariant
            n == bits0.len(),
            n <= 31,
            k <= n,
            bits0 == groups_bits(old(groups)@),
            need0 == blocks_for(data_len as int),
            need0 <= usize::MAX,
            forall|i: int| 0 <= i < n ==> (#[trigger] bits0[i]).len() <= BLOCKS_PER_GROUP,
            groups@.len() == n,
            groups_bits(groups@) == plan_run(bits0, need0, k as nat).0,
            ranges@ == plan_run(bits0, need0, k as nat).1,
            need as int == plan_run(bits0, need0, k as nat).2,
            0 <= need <= need0,
        decreases n - k,
    {
        proof {
            lemma_plan_run_len(bits0, need0, k as nat);
            lemma_plan_run_len(bits0, need0, (k + 1) as nat);
            assert(groups@[k as int].bits() == groups_bits(groups@)[k as int]);
        }
        if need > 0 {
            let mut g = groups.remove(k);
            proof {
                assert(group_offset(k as int) + BLOCKS_PER_GROUP * BLOCK_SIZE <= u32::MAX) by (nonlinear_arith)
                    requires k < 31;
            }
            let (mut range, left) = g.allocate_region(k as u32, need as usize, 500);
            let ghost gb = g.bits();
            groups.insert(k, g);
            ranges.append(&mut range);
            need = left as u64;
            proof {
                assert(groups_bits(groups@) =~= plan_run(bits0, need0, k as nat).0.update(k as int, gb));
            }
        }
        k = k + 1;
    }
    (ranges, need)
}

/// Why the data could not be laid out over its regions.
#[derive(Debug, Clone, Copy, PartialEq, Eq, Structural)]
pub enum ChunkError {
    /// A region asks for more bytes than are left.
    ShortRead,
    /// The regions do not cover the data.
    NotAllWritten,
}

/// Sizes of the chunks written into (or read from) the regions: a whole
/// region while more than one block is left, else what is left.
pub open spec fn chunk_run(ranges: Seq<(u32, u32)>, data_len: int) -> Result<(Seq<int>, int), ChunkError>
    decreases ranges.len(),
{
    if ranges.len() == 0 {
        Ok((Seq::empty(), data_len))
    } else {
        match chunk_run(ranges.drop_last(), data_len) {
            Err(e) => Err(e),
            Ok((sizes, left)) => {
                let size = if left > BLOCK_SIZE {
                    ranges.last().1 * BLOCK_SIZE
                } else {
                    left
                };
                if size > left {
                    Err(ChunkError::ShortRead)
                } else {
                    Ok((sizes.push(size), left - size))
                }
            },
        }
    }
}

/// The chunk sizes for the regions; an error when a region asks for more
/// than is left, or when bytes are left over at the end.
pub fn chunk_sizes(ranges: &Vec<(u32, u32)>, data_len: u64) -> (r: Result<Vec<u64>, ChunkError>)
    ensures
        match chunk_run(ranges@, data_len as int) {
            Err(e) => r == Err::<Vec<u64>, ChunkError>(e),
            Ok((sizes, left)) => if left == 0 {
                r matches Ok(v) && v@.len() == sizes.len() && forall|j: int|
                    0 <= j < sizes.len() ==> v@[j] == #[trigger] sizes[j]
            } else {
                r == Err::<Vec<u64>, ChunkError>(ChunkError::NotAllWritten)
            },
        },
{
    let mut sizes: Vec<u64> = Vec::new();
    let mut left = data_len;
    let mut k: usize = 0;
    while k < ranges.len()
        invariant
            k <= ranges@.len(),
            chunk_run(ranges@.take(k as int), data_len as int) matches Ok((s, l)) && l == left
                && s.len() == sizes@.len() && forall|j: int| 0 <= j < s.len() ==> sizes@[j] == #[trigger] s[j],
        decreases ranges.len() - k,
    {
        proof {
            assert(ranges@.take(k + 1).drop_last() =~= ranges@.take(k as int));
        }
        let size: u64 = if left > 4096 {
            ranges[k].1 as u64 * 4096
        } else {
            left
        };
        if size > left {
            proof {
                lemma_chunk_err_extends(ranges@, data_len as int, k + 1);
            }
            return Err(ChunkError::ShortRead);
        }
        sizes.push(size);
        left = left - size;
        k = k + 1;
    }
    proof {
        assert(ranges@.take(ranges@.len() as int) =~= ranges@);
    }
    if left != 0 {
        return Err(ChunkError::NotAllWritten);
    }
    Ok(sizes)
}

proof fn lemma_chunk_err_extends(ranges: Seq<(u32, u32)>, data_len: int, k: int)
    requires
        0 <= k <= ranges.len(),
        chunk_run(ranges.take(k), data_len) is Err,
    ensures
        chunk_run(ranges, data_len) == chunk_run(ranges.take(k), data_len),
    decreases ranges.len(),
{
    if k < ranges.len() {
        assert(ranges.drop_last().take(k) =~= ranges.take(k));
        lemma_chunk_err_extends(ranges.drop_last(), data_len, k);
    } else {
        assert(ranges.take(k) =~= ranges);
    }
}

} // verus!

verus! {

/// The image's header.
#[derive(Debug)]
pub struct Superblock {
    pub magic: [u8; 7],
    pub fs_version: u32,
    pub block_size: u32,
    pub group_count: u32,
    pub block_count: u32,
    pub free_blocks: u32,
    pub file_count: u32,
    pub created: u64,
    pub modified: u64,
    pub checksum: u32,
}

/// The image's magic number, `*bitfs*`.
pub open spec fn magic_bytes() -> Seq<u8> {
    seq![42u8, 98u8, 105u8, 116u8, 102u8, 115u8, 42u8]
}

impl Superblock {
    /// The header of a new image: `created` and `modified` are two clock
    /// readings taken one after the other.
    pub fn new(created: u64, modified: u64) -> (r: Self)
        ensures
            r.magic@ == magic_bytes(),
            r.fs_version == FS_VERSION,
            r.block_size == BLOCK_SIZE,
            r.group_count == 0,
            r.block_count == 1,
            r.free_blocks == 0,
            r.file_count == 0,
            r.created == created,
            r.modified == modified,
            r.checksum == 0,
    {
        let magic: [u8; 7] = [42u8, 98u8, 105u8, 116u8, 102u8, 115u8, 42u8];
        proof {
            assert(magic@ =~= magic_bytes());
        }
        Superblock {
            magic,
            fs_version: FS_VERSION,
            block_size: BLOCK_SIZE,
            group_count: 0,
            block_count: 1,
            free_blocks: 0,
            file_count: 0,
            created,
            modified,
            checksum: 0,
        }
    }

    /// Sets the modification time to `now`.
    pub fn update_modified(&mut self, now: u64)
        ensures
            *final(self) == (Superblock { modified: now, ..*old(self) }),
    {
        self.modified = now;
    }

    /// Stores the checksum; `computed` is the checksum of the header with a
    /// zero checksum field.
    pub fn checksum(&mut self, computed: u32)
        ensures
            *final(self) == (Superblock { checksum: computed, ..*old(self) }),
    {
        self.checksum = computed;
    }

    /// Whether the stored checksum is `computed`, the checksum of the header
    /// with a zero checksum field.
    pub fn verify_checksum(&self, computed: u32) -> (r: bool)
        ensures
            r == (self.checksum == computed),
    {
        self.checksum == computed
    }
}

/// Where an inode's data is: inside the inode, or in regions of blocks
/// (address, length).
#[derive(Debug)]
pub enum Data {
    Raw(Vec<u8>),
    DirectPointers(Vec<(u32, u32)>),
}

impl Default for Data {
    fn default() -> (r: Self)
        ensures
            r matches Data::Raw(v) && v@.len() == 0,
    {
        Data::Raw(Vec::new())
    }
}

/// A file's header block.
#[derive(Debug)]
pub struct Inode {
    pub block_index: u32,
    pub created: u64,
    pub last_modified: u64,
    pub size: u64,
    pub data_checksum: u32,
    pub data: Data,
}

impl Inode {
    /// An empty inode at the given block: `created` and `last_modified` are
    /// two clock readings taken one after the other; `empty_checksum` is the
    /// checksum of no data.
    pub fn new(block_index: u32, created: u64, last_modified: u64, empty_checksum: u32) -> (r: Self)
        ensures
            r.block_index == block_index,
            r.created == created,
            r.last_modified == last_modified,
            r.size == 0,
            r.data_checksum == empty_checksum,
            r.data matches Data::Raw(v) && v@.len() == 0,
    {
        Inode {
            block_index,
            created,
            last_modified,
            size: 0,
            data_checksum: empty_checksum,
            data: Data::Raw(Vec::new()),
        }
    }

    /// Sets the modification time to `now`.
    pub fn set_last_modified(&mut self, now: u64)
        ensures
            final(self).last_modified == now,
            final(self).block_index == old(self).block_index,
            final(self).created == old(self).created,
            final(self).size == old(self).size,
            final(self).data_checksum == old(self).data_checksum,
            final(self).data == old(self).data,
    {
        self.last_modified = now;
    }

    /// Keeps `read` (the bytes read for the data) inside the inode. They
    /// must be `data_size` bytes and fit in the inode.
    pub fn set_raw_data(&mut self, read: Vec<u8>, data_size: u64) -> (res: Result<(), String>)
        ensures
            read@.len() != data_size ==> (res matches Err(e) && e@
                == "Data read and given data size are not the same"@) && *final(self) == *old(self),
            read@.len() == data_size && read@.len() > INODE_CAPACITY ==> (res matches Err(e) && e@
                == "Data is too big to be raw data. Does not fit inside inode"@) && *final(self)
                == *old(self),
            read@.len() == data_size && read@.len() <= INODE_CAPACITY ==> res is Ok && final(self).size
                == data_size && final(self).data == Data::Raw(read) && final(self).block_index
                == old(self).block_index && final(self).created == old(self).created
                && final(self).last_modified == old(self).last_modified && final(self).data_checksum
                == old(self).data_checksum,
    {
        let data_len = read.len();
        if data_len as u64 != data_size {
            return Err("Data read and given data size are not the same".to_string());
        }
        if data_len > 4047 {
            return Err("Data is too big to be raw data. Does not fit inside inode".to_string());
        }
        self.size = data_size;
        self.data = Data::Raw(read);
        Ok(())
    }

    /// The inode's data.
    pub fn data(&self) -> (r: &Data)
        ensures
            *r == self.data,
    {
        &self.data
    }
}

/// Position of the entry with the given name (or `-1`).
pub open spec fn entry_pos(s: Seq<(String, u32)>, name: Seq<char>) -> int
    decreases s.len(),
{
    if s.len() == 0 {
        -1
    } else {
        let f = entry_pos(s.drop_last(), name);
        if f >= 0 {
            f
        } else if s.last().0@ == name {
            s.len() - 1
        } else {
            -1
        }
    }
}

proof fn lemma_entry_pos(s: Seq<(String, u32)>, name: Seq<char>)
    ensures
        -1 <= entry_pos(s, name) < s.len(),
        entry_pos(s, name) >= 0 ==> s[entry_pos(s, name)].0@ == name,
        forall|k: int|
            0 <= k < s.len() && (entry_pos(s, name) < 0 || k < entry_pos(s, name)) ==> #[trigger] s[k].0@
                != name,
    decreases s.len(),
{
    if s.len() > 0 {
        lemma_entry_pos(s.drop_last(), name);
        assert forall|k: int|
            0 <= k < s.len() && (entry_pos(s, name) < 0 || k < entry_pos(s, name)) implies #[trigger] s[k].0@
            != name by {
            if k < s.len() - 1 {
                assert(s.drop_last()[k] == s[k]);
            }
        }
    }
}

/// The entry with the given name.
fn lookup(entries: &Vec<(String, u32)>, name: &str) -> (r: Option<u32>)
    ensures
        entry_pos(entries@, name@) >= 0 ==> r == Some(entries@[entry_pos(entries@, name@)].1),
        entry_pos(entries@, name@) < 0 ==> r is None,
{
    proof {
        lemma_entry_pos(entries@, name@);
    }
    let mut k: usize = 0;
    while k < entries.len()
        invariant
            k <= entries.len(),
            forall|j: int| 0 <= j < k ==> #[trigger] entries@[j].0@ != name@,
            -1 <= entry_pos(entries@, name@) < entries@.len(),
            entry_pos(entries@, name@) >= 0 ==> entries@[entry_pos(entries@, name@)].0@ == name@,
            forall|j: int|
                0 <= j < entries@.len() && (entry_pos(entries@, name@) < 0 || j < entry_pos(
                    entries@,
                    name@,
                )) ==> #[trigger] entries@[j].0@ != name@,
        decreases entries.len() - k,
    {
        if crate::text::str_eq(entries[k].0.as_str(), name) {
            return Some(entries[k].1);
        }
        k = k + 1;
    }
    None
}

/// The entries as a map from name to inode block.
pub open spec fn entries_map(s: Seq<(String, u32)>) -> Map<Seq<char>, u32>
    decreases s.len(),
{
    if s.len() == 0 {
        Map::empty()
    } else {
        entries_map(s.drop_last()).insert(s.last().0@, s.last().1)
    }
}

/// Index of the directories.
#[derive(Debug)]
pub struct DirectoryIndex {
    pub directories: Vec<(String, u32)>,
    pub checksum: u32,
}

impl DirectoryIndex {
    /// An empty index; `computed` is the checksum of an empty index.
    pub fn init(computed: u32) -> (r: Self)
        ensures
            r.directories@.len() == 0,
            r.checksum == computed,
    {
        DirectoryIndex { directories: Vec::new(), checksum: computed }
    }

    /// The inode block of the directory at `path`.
    pub fn entry(&self, path: &str) -> (r: Option<u32>)
        ensures
            entry_pos(self.directories@, path@) >= 0 ==> r == Some(
                self.directories@[entry_pos(self.directories@, path@)].1,
            ),
            entry_pos(self.directories@, path@) < 0 ==> r is None,
    {
        lookup(&self.directories, path)
    }
}

/// A directory: its sub-directories and its files, by name.
#[derive(Debug)]
pub struct Directory {
    pub directories: Vec<(String, u32)>,
    pub files: Vec<(String, u32)>,
    pub checksum: u32,
}

impl Directory {
    /// An empty directory; `computed` is the checksum of an empty directory.
    pub fn init(computed: u32) -> (r: Self)
        ensures
            r.directories@.len() == 0,
            r.files@.len() == 0,
            r.checksum == computed,
    {
        Directory { directories: Vec::new(), files: Vec::new(), checksum: computed }
    }

    /// The inode block of the file with the given name.
    pub fn get_file(&self, file_name: &str) -> (r: Option<u32>)
        ensures
            entry_pos(self.files@, file_name@) >= 0 ==> r == Some(
                self.files@[entry_pos(self.files@, file_name@)].1,
            ),
            entry_pos(self.files@, file_name@) < 0 ==> r is None,
    {
        lookup(&self.files, file_name)
    }

    /// Adds a file; a name already there is refused.
    pub fn add_file(&mut self, file_name: &str, inode_block_index: u32) -> (res: Result<(), String>)
        ensures
            entry_pos(old(self).files@, file_name@) >= 0 ==> (res matches Err(e) && e@
                == "File already exist"@) && final(self).files@ == old(self).files@,
            entry_pos(old(self).files@, file_name@) < 0 ==> res is Ok && final(self).files@.len()
                == old(self).files@.len() + 1 && final(self).files@.drop_last() == old(self).files@
                && final(self).files@.last().0@ == file_name@ && final(self).files@.last().1
                == inode_block_index,
            final(self).directories == old(self).directories,
            final(self).checksum == old(self).checksum,
    {
        match self.get_file(file_name) {
            Some(_) => Err("File already exist".to_string()),
            None => {
                self.files.push((file_name.to_string(), inode_block_index));
                proof {
                    assert(self.files@.drop_last() =~= old(self).files@);
                }
                Ok(())
            },
        }
    }

    /// The inode block of the sub-directory at `path`.
    pub fn get_folder(&self, path: &str) -> (r: Option<u32>)
        ensures
            entry_pos(self.directories@, path@) >= 0 ==> r == Some(
                self.directories@[entry_pos(self.directories@, path@)].1,
            ),
            entry_pos(self.directories@, path@) < 0 ==> r is None,
    {
        lookup(&self.directories, path)
    }

    /// Adds a sub-directory; a name already there is refused.
    pub fn add_folder(&mut self, folder_name: &str, inode_block_index: u32) -> (res: Result<(), String>)
        ensures
            entry_pos(old(self).directories@, folder_name@) >= 0 ==> (res matches Err(e) && e@
                == "Folder already exist"@) && final(self).directories@ == old(self).directories@,
            entry_pos(old(self).directories@, folder_name@) < 0 ==> res is Ok
                && final(self).directories@.len() == old(self).directories@.len() + 1
                && final(self).directories@.drop_last() == old(self).directories@
                && final(self).directories@.last().0@ == folder_name@
                && final(self).directories@.last().1 == inode_block_index,
            final(self).files == old(self).files,
            final(self).checksum == old(self).checksum,
    {
        match self.get_folder(folder_name) {
            Some(_) => Err("Folder already exist".to_string()),
            None => {
                self.directories.push((folder_name.to_string(), inode_block_index));
                proof {
                    assert(self.directories@.drop_last() =~= old(self).directories@);
                }
                Ok(())
            },
        }
    }
}

/// Each byte xor-ed with the secret's byte at the same position, the secret
/// repeated.
pub open spec fn xor_with(bytes: Seq<u8>, secret: Seq<u8>) -> Seq<u8> {
    Seq::new(bytes.len(), |i: int| bytes[i] ^ secret[i % (secret.len() as int)])
}

/// Encrypts the bytes with the secret (repeating-key xor).
pub fn encrypt(bytes: &[u8], secret: &[u8]) -> (r: Vec<u8>)
    requires
        secret@.len() > 0 || bytes@.len() == 0,
    ensures
        r@ == xor_with(bytes@, secret@),
{
    let len = secret.len();
    let mut r: Vec<u8> = Vec::new();
    let mut i: usize = 0;
    while i < bytes.len()
        invariant
            i <= bytes@.len(),
            len == secret@.len(),
            secret@.len() > 0 || bytes@.len() == 0,
            r@ =~= xor_with(bytes@, secret@).take(i as int),
        decreases bytes.len() - i,
    {
        r.push(bytes[i] ^ secret[i % len]);
        i = i + 1;
    }
    proof {
        assert(xor_with(bytes@, secret@).take(bytes@.len() as int) =~= xor_with(bytes@, secret@));
    }
    r
}

/// Decrypts the bytes with the secret (repeating-key xor).
pub fn decrypt(bytes: &[u8], secret: &[u8]) -> (r: Vec<u8>)
    requires
        secret@.len() > 0 || bytes@.len() == 0,
    ensures
        r@ == xor_with(bytes@, secret@),
{
    let len = secret.len();
    let mut r: Vec<u8> = Vec::new();
    let mut i: usize = 0;
    while i < bytes.len()
        invariant
            i <= bytes@.len(),
            len == secret@.len(),
            secret@.len() > 0 || bytes@.len() == 0,
            r@ =~= xor_with(bytes@, secret@).take(i as int),
        decreases bytes.len() - i,
    {
        r.push(bytes[i] ^ secret[i % len]);
        i = i + 1;
    }
    proof {
        assert(xor_with(bytes@, secret@).take(bytes@.len() as int) =~= xor_with(bytes@, secret@));
    }
    r
}

/// Decrypting what was encrypted with the same secret gives the bytes back.
pub proof fn law_decrypt_undoes_encrypt(bytes: Seq<u8>, secret: Seq<u8>)
    requires
        secret.len() > 0,
    ensures
        xor_with(xor_with(bytes, secret), secret) == bytes,
{
    assert forall|i: int| 0 <= i < bytes.len() implies #[trigger] xor_with(
        xor_with(bytes, secret),
        secret,
    )[i] == bytes[i] by {
        let a = bytes[i];
        let b = secret[i % (secret.len() as int)];
        assert((a ^ b) ^ b == a) by (bit_vector);
    }
    assert(xor_with(xor_with(bytes, secret), secret) =~= bytes);
}

/// `a & (b - 1)`: the position of `a` within blocks of `b` when `b` is a
/// power of two.
pub fn cal(a: usize, b: usize) -> (r: usize)
    requires
        b >= 1,
    ensures
        r == a & ((b - 1) as usize),
{
    a & (b - 1)
}

/// For a power of two `b`, `cal(a, b)` is `a % b`.
pub proof fn law_cal_is_remainder(a: usize, n: nat)
    requires
        n < usize::BITS,
    ensures
        a & (vstd::bits::low_bits_mask(n) as usize) == a % (vstd::arithmetic::power2::pow2(n) as usize),
{
    vstd::bits::lemma_usize_low_bits_mask_is_mod(a, n);
}

} // verus!

verus! {

/// Bitmap index `j` lies in the region (address, length) of a group whose
/// first block has address `base`.
pub open spec fn in_region(r: (u32, u32), base: int, j: int) -> bool {
    r.0 - base <= j < r.0 - base + r.1
}

/// Bitmap index `j` lies in one of the regions.
pub open spec fn covered_by(rs: Seq<(u32, u32)>, base: int, j: int) -> bool
    decreases rs.len(),
{
    rs.len() > 0 && (covered_by(rs.drop_last(), base, j) || in_region(rs.last(), base, j))
}

/// Bitmap index `j` lies in a closed or in the open region of the state.
pub open spec fn alloc_covers(
    st: (Seq<bool>, Seq<(u32, u32)>, Option<(u32, u32)>, int, bool),
    base: int,
    j: int,
) -> bool {
    covered_by(st.1, base, j) || (st.2 matches Some(r) && in_region(r, base, j))
}

/// What holds of an allocation after `k` blocks: the taken blocks are the
/// ones taken before and the ones in its regions; a block in a region was
/// free and comes before `k`; the open region ends at `k`.
pub open spec fn alloc_inv(
    bits: Seq<bool>,
    base: int,
    k: int,
    st: (Seq<bool>, Seq<(u32, u32)>, Option<(u32, u32)>, int, bool),
) -> bool {
    &&& st.0.len() == bits.len()
    &&& forall|j: int| 0 <= j < bits.len() ==> #[trigger] st.0[j] == (bits[j] || alloc_covers(st, base, j))
    &&& forall|j: int| #[trigger] alloc_covers(st, base, j) ==> 0 <= j < k && j < bits.len() && !bits[j]
    &&& st.2 matches Some(r) ==> r.0 == base + k - r.1 && 1 <= r.1 <= k && !st.4
    &&& st.4 ==> st.2 is None
}

proof fn lemma_covered_push(rs: Seq<(u32, u32)>, r: (u32, u32), base: int, j: int)
    ensures
        covered_by(rs.push(r), base, j) == (covered_by(rs, base, j) || in_region(r, base, j)),
{
    assert(rs.push(r).drop_last() =~= rs);
}

proof fn lemma_alloc_inv(bits: Seq<bool>, g: u32, need: int, max_regions: int, k: nat)
    requires
        k <= bits.len(),
        bits.len() <= BLOCKS_PER_GROUP,
        group_offset(g as int) + BLOCKS_PER_GROUP * BLOCK_SIZE <= u32::MAX,
        need >= 0,
    ensures
        alloc_inv(bits, public_address(g as int, 0), k as int, alloc_run(bits, g, need, max_regions, k)),
        k == bits.len() ==> alloc_run(bits, g, need, max_regions, k).2 is None,
    decreases k,
{
    let base = public_address(g as int, 0);
    assert(group_offset(g as int) / 4096 <= group_offset(g as int));
    if k == 0 {
        let st = alloc_run(bits, g, need, max_regions, 0);
        assert forall|j: int| #[trigger] alloc_covers(st, base, j) implies 0 <= j < 0 && j < bits.len() && !bits[j] by {
            assert(!covered_by(st.1, base, j));
        }
    } else {
        lemma_alloc_inv(bits, g, need, max_regions, (k - 1) as nat);
        law_allocation_takes_what_it_counts(bits, g, need, max_regions, (k - 1) as nat);
        let i = k - 1;
        let st = alloc_run(bits, g, need, max_regions, (k - 1) as nat);
        let st2 = alloc_run(bits, g, need, max_regions, k);
        let last = k == bits.len();
        if st.4 {
            assert(st2 == st);
        } else if st.3 == 0 {
            match st.2 {
                Some(r) => {
                    assert forall|j: int| alloc_covers(st2, base, j) == alloc_covers(st, base, j) by {
                        lemma_covered_push(st.1, r, base, j);
                    }
                },
                None => {
                    assert forall|j: int| alloc_covers(st2, base, j) == alloc_covers(st, base, j) by {}
                },
            }
        } else if !st.0[i] {
            assert(!bits[i] && !alloc_covers(st, base, i));
            let open = match st.2 {
                Some(r) => (r.0, (r.1 + 1) as u32),
                None => (public_address(g as int, i) as u32, 1u32),
            };
            assert(open.0 == base + k - open.1);
            let mid = (st.0.update(i, true), st.1, Some(open), st.3 - 1, false);
            assert forall|j: int| alloc_covers(mid, base, j) == (alloc_covers(st, base, j) || j == i) by {}
            if last {
                assert(st2 == alloc_close(mid));
                assert forall|j: int| alloc_covers(st2, base, j) == alloc_covers(mid, base, j) by {
                    lemma_covered_push(st.1, open, base, j);
                }
            } else {
                assert(st2 == mid);
            }
        } else {
            match st.2 {
                Some(r) => {
                    assert forall|j: int| alloc_covers(st2, base, j) == alloc_covers(st, base, j) by {
                        lemma_covered_push(st.1, r, base, j);
                    }
                },
                None => {
                    assert(st2 == st);
                },
            }
        }
    }
}

/// The bits with every block of the regions freed, one region after the
/// other (the group's first block has address `base`).
pub open spec fn release_all(bits: Seq<bool>, rs: Seq<(u32, u32)>, base: int) -> Seq<bool>
    decreases rs.len(),
{
    if rs.len() == 0 {
        bits
    } else {
        let b = release_all(bits, rs.drop_last(), base);
        Seq::new(b.len(), |j: int| if in_region(rs.last(), base, j) { false } else { b[j] })
    }
}

proof fn lemma_release_all(bits: Seq<bool>, rs: Seq<(u32, u32)>, base: int)
    ensures
        release_all(bits, rs, base).len() == bits.len(),
        forall|j: int|
            0 <= j < bits.len() ==> #[trigger] release_all(bits, rs, base)[j] == if covered_by(rs, base, j) {
                false
            } else {
                bits[j]
            },
    decreases rs.len(),
{
    if rs.len() > 0 {
        lemma_release_all(bits, rs.drop_last(), base);
    }
}

/// Freeing every region that an allocation over a whole group gave back
/// leaves the bitmap as it was before the allocation.
pub proof fn law_release_undoes_allocation(bits: Seq<bool>, g: u32, need: int, max_regions: int)
    requires
        bits.len() <= BLOCKS_PER_GROUP,
        group_offset(g as int) + BLOCKS_PER_GROUP * BLOCK_SIZE <= u32::MAX,
        need >= 0,
    ensures
        ({
            let run = alloc_run(bits, g, need, max_regions, bits.len());
            release_all(run.0, run.1, public_address(g as int, 0)) == bits
        }),
{
    let base = public_address(g as int, 0);
    let run = alloc_run(bits, g, need, max_regions, bits.len());
    lemma_alloc_inv(bits, g, need, max_regions, bits.len());
    lemma_release_all(run.0, run.1, base);
    assert forall|j: int| 0 <= j < bits.len() implies #[trigger] release_all(run.0, run.1, base)[j] == bits[j] by {
        assert(run.0[j] == (bits[j] || alloc_covers(run, base, j)));
        if covered_by(run.1, base, j) {
            assert(alloc_covers(run, base, j));
        }
    }
    assert(release_all(run.0, run.1, base) =~= bits);
}

/// For the first group, the address of a block translates back to the
/// group and the block's bitmap index.
pub proof fn law_address_round_trip(bitmap_index: u32)
    requires
        bitmap_index < BLOCKS_PER_GROUP,
    ensures
        translated(public_address(0, bitmap_index as int)) == (0int, bitmap_index as int),
{
}

} // verus!
