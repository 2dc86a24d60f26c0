//! The storage layer under the directory layer: disk inodes with their data
//! and index blocks, directory entry records, and the inode and data-block
//! bitmaps of the file system.
//!
//! An inode's bytes (a file's content, a directory's 32-byte entry records)
//! are kept in the disk inode itself; what the block layout decides is kept
//! too: how many data and index blocks a size needs, which block ids an inode
//! holds, and which bits of the two bitmaps are set. A new or freed block
//! reads as zeros.
use vstd::prelude::*;
use vstd::arithmetic::div_mod::lemma_div_is_ordered;
use vstd::string::StringSliceAdditionalSpecFns;

verus! {

/// Bytes in a block.
pub const BLOCK_SZ: usize = 512;
/// Bytes a directory entry takes in its directory.
pub const DIRENT_SZ: usize = 32;
/// The longest name a directory entry can hold, in bytes.
pub const NAME_LENGTH_LIMIT: usize = 27;
/// Data blocks addressed directly from the inode.
pub const INODE_DIRECT_COUNT: usize = 28;
/// Block ids that fit in one index block.
pub const INODE_INDIRECT1_COUNT: usize = 128;
/// Data blocks addressed before the doubly indirect index begins.
pub const INDIRECT1_BOUND: usize = 156;
/// Bytes one disk inode takes in the inode area.
pub const DISK_INODE_SIZE: usize = 128;
/// Disk inodes per block of the inode area.
pub const INODES_PER_BLOCK: u32 = 4;
/// Bits in one bitmap block.
pub const BLOCK_BITS: usize = 4096;

/// Data blocks a file of `size` bytes spans.
pub open spec fn data_blocks_of(size: int) -> int {
    (size + 511) / 512
}

/// Blocks a file of `size` bytes holds: its data blocks, plus the singly
/// indirect index block past the direct ones, plus the doubly indirect block
/// and its index blocks past those.
pub open spec fn total_blocks_of(size: int) -> int {
    let d = data_blocks_of(size);
    d + (if d > INODE_DIRECT_COUNT {
        1int
    } else {
        0int
    }) + (if d > INDIRECT1_BOUND {
        1 + (d - INDIRECT1_BOUND + 127) / 128
    } else {
        0int
    })
}

proof fn lemma_total_blocks_mono(a: int, b: int)
    requires
        0 <= a <= b,
    ensures
        0 <= total_blocks_of(a) <= total_blocks_of(b),
        data_blocks_of(a) <= data_blocks_of(b),
{
    lemma_div_is_ordered(a + 511, b + 511, 512);
    let da = data_blocks_of(a);
    let db = data_blocks_of(b);
    if da > INDIRECT1_BOUND {
        lemma_div_is_ordered(da - INDIRECT1_BOUND + 127, db - INDIRECT1_BOUND + 127, 128);
    }
}

proof fn lemma_total_blocks_bound(size: u32)
    ensures
        0 <= data_blocks_of(size as int) <= 8388608,
        0 <= total_blocks_of(size as int) <= 8454145,
{
    lemma_total_blocks_mono(size as int, 0xffff_ffff);
    assert(data_blocks_of(0xffff_ffff) == 8388608);
    assert(total_blocks_of(0xffff_ffff) == 8454145);
}

/// Bytes a read or write at `offset` of `len` bytes reaches in a file of
/// `file_len` bytes.
pub open spec fn read_len(file_len: int, offset: int, len: int) -> int {
    let end = if offset + len < file_len {
        offset + len
    } else {
        file_len
    };
    if offset >= end {
        0
    } else {
        end - offset
    }
}

/// What a disk inode is.
#[derive(Clone, Copy, PartialEq, Eq, Structural)]
pub enum DiskInodeType {
    File,
    Directory,
}

/// The four little-endian bytes of `v`.
pub open spec fn le_bytes(v: u32) -> Seq<u8> {
    seq![(v % 256) as u8, ((v / 256) % 256) as u8, ((v / 65536) % 256) as u8, (v / 16777216) as u8]
}

/// The 32-byte record of a directory entry naming inode `ino` as `name`:
/// the name's bytes, zeros up to byte 28, then the inode number.
pub open spec fn dirent_bytes(name: Seq<u8>, ino: u32) -> Seq<u8> {
    name + Seq::new((28 - name.len()) as nat, |i: int| 0u8) + le_bytes(ino)
}

/// Record `k` of a directory's bytes.
pub open spec fn record(data: Seq<u8>, k: int) -> Seq<u8> {
    data.subrange(32 * k, 32 * k + 32)
}

/// A directory's bytes with the last whole record copied over record `k`.
pub open spec fn moved_last(data: Seq<u8>, k: int) -> Seq<u8> {
    let last = data.len() / 32 - 1;
    data.subrange(0, 32 * k) + record(data, last) + data.subrange(32 * k + 32, data.len() as int)
}

/// The record of a directory entry naming inode `ino` as `name`.
pub fn encode_dirent(name: &str, ino: u32) -> (r: Vec<u8>)
    requires
        name.spec_bytes().len() <= NAME_LENGTH_LIMIT + 1,
    ensures
        r@ == dirent_bytes(name.spec_bytes(), ino),
        r@.len() == DIRENT_SZ,
{
    let bytes = name.as_bytes();
    let mut r: Vec<u8> = Vec::new();
    let mut i: usize = 0;
    while i < bytes.len()
        invariant
            i <= bytes@.len(),
            bytes@ == name.spec_bytes(),
            bytes@.len() <= 28,
            r@ == bytes@.take(i as int),
        decreases bytes.len() - i,
    {
        r.push(bytes[i]);
        i = i + 1;
        assert(r@ =~= bytes@.take(i as int));
    }
    while i < 28
        invariant
            bytes@.len() <= i <= 28,
            bytes@ == name.spec_bytes(),
            r@ == bytes@ + Seq::new((i - bytes@.len()) as nat, |k: int| 0u8),
        decreases 28 - i,
    {
        r.push(0);
        i = i + 1;
        assert(r@ =~= bytes@ + Seq::new((i - bytes@.len()) as nat, |k: int| 0u8));
    }
    r.push((ino % 256) as u8);
    r.push(((ino / 256) % 256) as u8);
    r.push(((ino / 65536) % 256) as u8);
    r.push((ino / 16777216) as u8);
    assert(r@ =~= dirent_bytes(name.spec_bytes(), ino));
    r
}

/// An inode on disk: its size, kind, link count, content and the blocks it
/// holds. `blocks[p]` is the block at position `p` of its index, data and
/// index blocks in the order the layout gives them out; only the first
/// `total_blocks_of(size)` are in use, a shrunk directory keeps the rest.
pub struct DiskInode {
    pub size: u32,
    pub kind: DiskInodeType,
    pub nlink: u32,
    /// The inode's bytes: a file's content, a directory's entry records.
    pub data: Vec<u8>,
    pub blocks: Vec<u32>,
}

impl DiskInode {
    /// The inode's bytes match its size, and it holds the blocks its size needs.
    pub open spec fn wf(&self) -> bool {
        &&& self.blocks@.len() >= total_blocks_of(self.size as int)
        &&& self.data@.len() == self.size
    }

    /// A never used inode: an empty file with no links.
    pub fn empty() -> (r: DiskInode)
        ensures
            r.wf(),
            r.size == 0,
            r.kind == DiskInodeType::File,
            r.nlink == 0,
            r.blocks@.len() == 0,
    {
        DiskInode {
            size: 0,
            kind: DiskInodeType::File,
            nlink: 0,
            data: Vec::new(),
            blocks: Vec::new(),
        }
    }

    /// Makes this inode a new, empty inode of the given kind with one link.
    pub fn initialize(&mut self, kind: DiskInodeType)
        ensures
            final(self).wf(),
            final(self).size == 0,
            final(self).kind == kind,
            final(self).nlink == 1,
            final(self).data@.len() == 0,
            final(self).blocks@.len() == 0,
    {
        self.size = 0;
        self.kind = kind;
        self.nlink = 1;
        self.data = Vec::new();
        self.blocks = Vec::new();
    }

    /// Whether this inode is a directory.
    pub fn is_dir(&self) -> (r: bool)
        ensures
            r == (self.kind == DiskInodeType::Directory),
    {
        match self.kind {
            DiskInodeType::Directory => true,
            DiskInodeType::File => false,
        }
    }

    /// Data blocks a file of `size` bytes spans.
    pub fn data_blocks_for(size: u32) -> (r: u32)
        ensures
            r == data_blocks_of(size as int),
    {
        proof {
            lemma_total_blocks_bound(size);
        }
        let wide: u64 = size as u64;
        ((wide + 511) / 512) as u32
    }

    /// Blocks, data and index, a file of `size` bytes holds.
    pub fn total_blocks(size: u32) -> (r: u32)
        ensures
            r == total_blocks_of(size as int),
    {
        proof {
            lemma_total_blocks_bound(size);
        }
        let data_blocks = Self::data_blocks_for(size);
        let mut total: u32 = data_blocks;
        if data_blocks > 28 {
            total = total + 1;
        }
        if data_blocks > 156 {
            total = total + 1;
            total = total + (data_blocks - 156 + 127) / 128;
        }
        total
    }

    /// Blocks to allocate to grow this inode to `new_size` bytes.
    pub fn blocks_num_needed(&self, new_size: u32) -> (r: u32)
        requires
            new_size >= self.size,
        ensures
            r == total_blocks_of(new_size as int) - total_blocks_of(self.size as int),
    {
        proof {
            lemma_total_blocks_mono(self.size as int, new_size as int);
        }
        Self::total_blocks(new_size) - Self::total_blocks(self.size)
    }

    /// Drops the last `n` bytes (the blocks stay with the inode).
    pub fn shrink_by(&mut self, n: u32)
        requires
            n <= old(self).size,
            old(self).data@.len() == old(self).size,
        ensures
            final(self).size == old(self).size - n,
            final(self).data@ == old(self).data@.take(old(self).size - n),
            final(self).kind == old(self).kind,
            final(self).nlink == old(self).nlink,
            final(self).blocks@ == old(self).blocks@,
    {
        self.size = self.size - n;
        self.data.truncate(self.size as usize);
    }

    /// Copies the last whole record over record `k` and drops the last
    /// record's bytes.
    pub fn remove_record(&mut self, k: usize)
        requires
            old(self).wf(),
            k < old(self).size / 32,
        ensures
            final(self).size == old(self).size - DIRENT_SZ,
            final(self).data@ == moved_last(old(self).data@, k as int).take(old(self).size - DIRENT_SZ),
            final(self).kind == old(self).kind,
            final(self).nlink == old(self).nlink,
            final(self).blocks@ == old(self).blocks@,
            final(self).wf(),
    {
        let count: usize = (self.size / 32) as usize;
        let last: usize = count - 1;
        let ghost orig = self.data@;
        assert(32 * last + 32 <= orig.len()) by (nonlinear_arith)
            requires
                count == orig.len() / 32,
                last == count - 1,
        ;
        assert(orig.len() == self.data.len());
        if k != last {
            let mut j: usize = 0;
            while j < 32
                invariant
                    j <= 32,
                    k < last,
                    32 * last + 32 <= orig.len(),
                    orig.len() <= usize::MAX,
                    self.data@.len() == orig.len(),
                    self.size == old(self).size,
                    self.kind == old(self).kind,
                    self.nlink == old(self).nlink,
                    self.blocks@ == old(self).blocks@,
                    forall|x: int| 0 <= x < orig.len() && !(32 * k <= x < 32 * k + j) ==> #[trigger] self.data@[x] == orig[x],
                    forall|x: int| 32 * k <= x < 32 * k + j ==> #[trigger] self.data@[x] == orig[x - 32 * k + 32 * last],
                decreases 32 - j,
            {
                let b = self.data[32 * last + j];
                self.data.set(32 * k + j, b);
                j = j + 1;
            }
        }
        proof {
            assert(self.data@ =~= moved_last(orig, k as int));
        }
        self.shrink_by(32);
        proof {
            lemma_total_blocks_mono(self.size as int, old(self).size as int);
        }
    }

    /// Sets the link count.
    pub fn set_nlink(&mut self, nlink: u32)
        ensures
            final(self).nlink == nlink,
            final(self).size == old(self).size,
            final(self).kind == old(self).kind,
            final(self).data@ == old(self).data@,
            final(self).blocks@ == old(self).blocks@,
    {
        self.nlink = nlink;
    }

    /// Grows this inode to `new_size` bytes with the blocks `new_blocks`
    /// (as many as the layout needs beyond those already in use); the new
    /// bytes read as zeros.
    pub fn increase_size(&mut self, new_size: u32, new_blocks: Vec<u32>)
        requires
            old(self).blocks@.len() >= total_blocks_of(old(self).size as int),
            old(self).data@.len() == old(self).size,
            new_size >= old(self).size,
            new_blocks@.len() == total_blocks_of(new_size as int) - total_blocks_of(
                old(self).size as int,
            ),
        ensures
            final(self).size == new_size,
            final(self).kind == old(self).kind,
            final(self).nlink == old(self).nlink,
            final(self).blocks@ == old(self).blocks@.take(total_blocks_of(old(self).size as int))
                + new_blocks@,
            final(self).data@ == old(self).data@ + Seq::new((new_size - old(self).size) as nat, |i: int| 0u8),
    {
        let ghost old_data = self.data@;
        let mut new_blocks = new_blocks;
        let keep = Self::total_blocks(self.size);
        self.blocks.truncate(keep as usize);
        self.blocks.append(&mut new_blocks);
        let ghost blocks_now = self.blocks@;
        let mut n: u32 = self.size;
        while n < new_size
            invariant
                self.size == old(self).size,
                self.kind == old(self).kind,
                self.nlink == old(self).nlink,
                self.blocks@ == blocks_now,
                self.size <= n <= new_size,
                self.data@ == old_data + Seq::new((n - self.size) as nat, |i: int| 0u8),
            decreases new_size - n,
        {
            self.data.push(0);
            n = n + 1;
            assert(self.data@ =~= old_data + Seq::new((n - self.size) as nat, |i: int| 0u8));
        }
        self.size = new_size;
        proof {
            assert(self.data@ =~= old_data + Seq::new(
                (new_size - old(self).size) as nat,
                |i: int| 0u8,
            ));
        }
    }

    /// Empties this inode and gives back the blocks it had in use, in order.
    pub fn clear_size(&mut self) -> (freed: Vec<u32>)
        requires
            old(self).blocks@.len() >= total_blocks_of(old(self).size as int),
        ensures
            freed@ == old(self).blocks@.take(total_blocks_of(old(self).size as int)),
            final(self).size == 0,
            final(self).kind == old(self).kind,
            final(self).nlink == old(self).nlink,
            final(self).data@.len() == 0,
            final(self).blocks@.len() == 0,
    {
        let used = Self::total_blocks(self.size);
        let mut freed = Vec::new();
        std::mem::swap(&mut freed, &mut self.blocks);
        freed.truncate(used as usize);
        self.size = 0;
        self.data = Vec::new();
        freed
    }

    /// Reads this inode's bytes from `offset` into the front of `buf`, as
    /// far as its size reaches; gives the number of bytes read.
    pub fn read_at(&self, offset: usize, buf: &mut [u8]) -> (r: usize)
        requires
            offset + old(buf)@.len() <= usize::MAX,
        ensures
            r == read_len(self.data@.len() as int, offset as int, old(buf)@.len() as int),
            final(buf)@ == if r == 0 {
                old(buf)@
            } else {
                self.data@.subrange(offset as int, offset + r) + old(buf)@.subrange(
                    r as int,
                    old(buf)@.len() as int,
                )
            },
    {
        let len = buf.len();
        let end = if offset + len < self.data.len() {
            offset + len
        } else {
            self.data.len()
        };
        if offset >= end {
            return 0;
        }
        let ghost orig = buf@;
        let count = end - offset;
        let mut i: usize = 0;
        while i < count
            invariant
                i <= count,
                count == end - offset,
                end <= self.data@.len(),
                count <= orig.len(),
                buf@.len() == orig.len(),
                forall|k: int| 0 <= k < i ==> #[trigger] buf@[k] == self.data@[offset + k],
                forall|k: int| i <= k < orig.len() ==> #[trigger] buf@[k] == orig[k],
            decreases count - i,
        {
            buf[i] = self.data[offset + i];
            i = i + 1;
        }
        assert(buf@ =~= self.data@.subrange(offset as int, offset + count) + orig.subrange(
            count as int,
            orig.len() as int,
        ));
        count
    }

    /// Writes `buf` into this inode at `offset`, as far as its size reaches
    /// (grow it first); gives the number of bytes written.
    pub fn write_at(&mut self, offset: usize, buf: &[u8]) -> (r: usize)
        requires
            offset + buf@.len() <= usize::MAX,
            offset <= old(self).data@.len(),
        ensures
            r == read_len(old(self).data@.len() as int, offset as int, buf@.len() as int),
            final(self).data@ == old(self).data@.subrange(0, offset as int) + buf@.subrange(
                0,
                r as int,
            ) + old(self).data@.subrange(offset + r, old(self).data@.len() as int),
            final(self).size == old(self).size,
            final(self).kind == old(self).kind,
            final(self).nlink == old(self).nlink,
            final(self).blocks@ == old(self).blocks@,
    {
        let ghost orig = self.data@;
        let len = buf.len();
        let end = if offset + len < self.data.len() {
            offset + len
        } else {
            self.data.len()
        };
        let count = end - offset;
        let mut i: usize = 0;
        while i < count
            invariant
                i <= count,
                count == end - offset,
                end <= orig.len(),
                count <= buf@.len(),
                self.data@.len() == orig.len(),
                self.size == old(self).size,
                self.kind == old(self).kind,
                self.nlink == old(self).nlink,
                self.blocks@ == old(self).blocks@,
                forall|k: int| 0 <= k < offset ==> #[trigger] self.data@[k] == orig[k],
                forall|k: int| 0 <= k < i ==> self.data@[offset + k] == #[trigger] buf@[k],
                forall|k: int| offset + i <= k < orig.len() ==> #[trigger] self.data@[k] == orig[k],
            decreases count - i,
        {
            self.data.set(offset + i, buf[i]);
            i = i + 1;
        }
        assert(self.data@ =~= orig.subrange(0, offset as int) + buf@.subrange(0, count as int)
            + orig.subrange(offset + count, orig.len() as int));
        count
    }

}

/// Bit `i` is the first clear bit of `bits`.
pub open spec fn is_first_free(bits: Seq<bool>, i: int) -> bool {
    &&& 0 <= i < bits.len()
    &&& !bits[i]
    &&& forall|j: int| 0 <= j < i ==> #[trigger] bits[j]
}

/// Some bit of `bits` is clear.
pub open spec fn has_free(bits: Seq<bool>) -> bool {
    exists|i: int| 0 <= i < bits.len() && !#[trigger] bits[i]
}

/// Number of clear bits.
pub open spec fn count_free(bits: Seq<bool>) -> nat
    decreases bits.len(),
{
    if bits.len() == 0 {
        0
    } else {
        count_free(bits.drop_last()) + if bits.last() {
            0nat
        } else {
            1nat
        }
    }
}

proof fn lemma_count_free_set(bits: Seq<bool>, i: int)
    requires
        0 <= i < bits.len(),
        !bits[i],
    ensures
        count_free(bits.update(i, true)) + 1 == count_free(bits),
    decreases bits.len(),
{
    let u = bits.update(i, true);
    if i == bits.len() - 1 {
        assert(u.drop_last() =~= bits.drop_last());
    } else {
        assert(u.drop_last() =~= bits.drop_last().update(i, true));
        lemma_count_free_set(bits.drop_last(), i);
    }
}

proof fn lemma_count_free_has(bits: Seq<bool>)
    requires
        count_free(bits) > 0,
    ensures
        has_free(bits),
    decreases bits.len(),
{
    if bits.last() {
        lemma_count_free_has(bits.drop_last());
        let i = choose|i: int| 0 <= i < bits.drop_last().len() && !#[trigger] bits.drop_last()[i];
        assert(!bits[i]);
    } else {
        assert(!bits[bits.len() - 1]);
    }
}

/// The file system: its two bitmaps, where its areas start, and the inode area.
pub struct EasyFileSystem {
    /// Bit `i` is set while inode `i` is in use.
    pub inode_bitmap: Vec<bool>,
    /// Bit `i` is set while data block `data_area_start_block + i` is in use.
    pub data_bitmap: Vec<bool>,
    pub inode_area_start_block: u32,
    pub data_area_start_block: u32,
    /// The disk inodes, by inode id.
    pub disk_inodes: Vec<DiskInode>,
}

impl EasyFileSystem {
    /// Position `p` of inode `i`'s block list is in use.
    pub open spec fn holds(&self, i: int, p: int) -> bool {
        0 <= i < self.disk_inodes@.len() && 0 <= p < total_blocks_of(
            self.disk_inodes@[i].size as int,
        )
    }

    /// The block at position `p` of inode `i`'s block list.
    pub open spec fn block_at(&self, i: int, p: int) -> u32 {
        self.disk_inodes@[i].blocks@[p]
    }

    /// Block `b` lies in the data area and its bit is set.
    pub open spec fn data_used(&self, b: int) -> bool {
        &&& self.data_area_start_block <= b < self.data_area_start_block
            + self.data_bitmap@.len()
        &&& self.data_bitmap@[b - self.data_area_start_block]
    }

    /// Ids and block numbers fit in `u32`.
    pub open spec fn wf_layout(&self) -> bool {
        &&& self.inode_bitmap@.len() == self.disk_inodes@.len()
        &&& self.disk_inodes@.len() <= 0x1_0000_0000
        &&& self.data_area_start_block + self.data_bitmap@.len() <= 0x1_0000_0000
        &&& self.inode_area_start_block + self.disk_inodes@.len() / 4 <= 0xffff_ffff
    }

    /// Every block an inode holds is in use, and no block is held twice.
    pub open spec fn wf_blocks(&self) -> bool {
        &&& forall|i: int| 0 <= i < self.disk_inodes@.len() ==> #[trigger] self.disk_inodes@[i].blocks@.len()
            >= total_blocks_of(self.disk_inodes@[i].size as int)
        &&& forall|i: int, p: int| #[trigger] self.holds(i, p) ==> self.data_used(
            self.block_at(i, p) as int,
        )
        &&& forall|i: int, p: int, j: int, q: int|
            #![trigger self.block_at(i, p), self.block_at(j, q)]
            self.holds(i, p) && self.holds(j, q) && (i != j || p != q) ==> self.block_at(i, p)
                != self.block_at(j, q)
    }

    /// Every inode is well formed.
    pub open spec fn wf_content(&self) -> bool {
        forall|i: int| 0 <= i < self.disk_inodes@.len() ==> #[trigger] self.disk_inodes@[i].wf()
    }

    pub open spec fn wf(&self) -> bool {
        &&& self.wf_layout()
        &&& self.wf_blocks()
        &&& self.wf_content()
    }

    /// Lays out a file system on `total_blocks` blocks with
    /// `inode_bitmap_blocks` blocks of inode bitmap: block 0 is the super
    /// block, then come the inode bitmap, the inode area, the data bitmap
    /// (one block per 4097 blocks of what remains) and the data area. Every
    /// bit starts clear; inode 0 is then taken as the empty root directory.
    pub fn create(total_blocks: u32, inode_bitmap_blocks: u32) -> (fs: EasyFileSystem)
        requires
            1 <= inode_bitmap_blocks <= 0x10_0000,
            inode_bitmap_blocks * 4096 <= usize::MAX,
            1 + inode_bitmap_blocks * 1025 <= total_blocks,
            ({
                let data_total = total_blocks - 1 - inode_bitmap_blocks * 1025;
                let bitmap_blocks = (data_total + 4096) / 4097;
                &&& 1 + inode_bitmap_blocks * 1025 + bitmap_blocks + bitmap_blocks * 4096 <= 0x1_0000_0000
                &&& bitmap_blocks * 4096 <= usize::MAX
            }),
        ensures
            fs.wf(),
            ({
                let inode_total = inode_bitmap_blocks * 1025;
                let data_total = total_blocks - 1 - inode_total;
                let bitmap_blocks = (data_total + 4096) / 4097;
                &&& fs.inode_area_start_block == 1 + inode_bitmap_blocks
                &&& fs.data_area_start_block == 1 + inode_total + bitmap_blocks
                &&& fs.inode_bitmap@.len() == inode_bitmap_blocks * 4096
                &&& fs.data_bitmap@.len() == bitmap_blocks * 4096
                &&& fs.inode_bitmap@[0]
                &&& forall|i: int| 1 <= i < fs.inode_bitmap@.len() ==> !#[trigger] fs.inode_bitmap@[i]
                &&& forall|i: int| 0 <= i < fs.data_bitmap@.len() ==> !#[trigger] fs.data_bitmap@[i]
                &&& fs.disk_inodes@[0].kind == DiskInodeType::Directory
                &&& fs.disk_inodes@[0].size == 0
                &&& fs.disk_inodes@[0].nlink == 1
                &&& fs.disk_inodes@[0].data@.len() == 0
                &&& forall|i: int| 1 <= i < fs.disk_inodes@.len() ==> #[trigger] fs.disk_inodes@[i].size == 0
                    && fs.disk_inodes@[i].kind == DiskInodeType::File && fs.disk_inodes@[i].nlink == 0
            }),
    {
        let inode_num: usize = inode_bitmap_blocks as usize * BLOCK_BITS;
        let inode_area_blocks: u32 = inode_bitmap_blocks * 1024;
        let inode_total_blocks: u32 = inode_bitmap_blocks + inode_area_blocks;
        let data_total_blocks: u32 = total_blocks - 1 - inode_total_blocks;
        let data_bitmap_blocks: u32 = ((data_total_blocks as u64 + 4096) / 4097) as u32;
        let data_bits: usize = data_bitmap_blocks as usize * BLOCK_BITS;
        assert(inode_num == inode_bitmap_blocks * 4096);
        let mut inode_bitmap: Vec<bool> = Vec::new();
        let mut disk_inodes: Vec<DiskInode> = Vec::new();
        let mut i: usize = 0;
        while i < inode_num
            invariant
                i <= inode_num,
                inode_bitmap@.len() == i,
                disk_inodes@.len() == i,
                forall|k: int| 0 <= k < i ==> !#[trigger] inode_bitmap@[k],
                forall|k: int| 0 <= k < i ==> (#[trigger] disk_inodes@[k]).size == 0
                    && disk_inodes@[k].kind == DiskInodeType::File && disk_inodes@[k].nlink == 0
                    && disk_inodes@[k].wf() && disk_inodes@[k].blocks@.len() == 0,
            decreases inode_num - i,
        {
            inode_bitmap.push(false);
            disk_inodes.push(DiskInode::empty());
            i = i + 1;
        }
        let mut data_bitmap: Vec<bool> = Vec::new();
        let mut j: usize = 0;
        while j < data_bits
            invariant
                j <= data_bits,
                data_bitmap@.len() == j,
                forall|k: int| 0 <= k < j ==> !#[trigger] data_bitmap@[k],
            decreases data_bits - j,
        {
            data_bitmap.push(false);
            j = j + 1;
        }
        let mut fs = EasyFileSystem {
            inode_bitmap,
            data_bitmap,
            inode_area_start_block: 1 + inode_bitmap_blocks,
            data_area_start_block: 1 + inode_total_blocks + data_bitmap_blocks,
            disk_inodes,
        };
        proof {
            assert(fs.wf_layout());
            assert forall|i: int, p: int| #[trigger] fs.holds(i, p) implies fs.data_used(fs.block_at(i, p) as int) by {
                assert(fs.disk_inodes@[i].size == 0);
            }
            assert(fs.wf_blocks());
            assert(fs.wf_content());
            assert(!fs.inode_bitmap@[0]);
        }
        let root = fs.alloc_inode();
        proof {
            assert(root == 0);
        }
        fs.disk_inodes[0].initialize(DiskInodeType::Directory);
        proof {
            assert forall|i: int| 0 <= i < fs.disk_inodes@.len() implies #[trigger] fs.disk_inodes@[i].blocks@.len()
                >= total_blocks_of(fs.disk_inodes@[i].size as int) by {}
            assert forall|i: int, p: int| #[trigger] fs.holds(i, p) implies fs.data_used(fs.block_at(i, p) as int) by {}
            assert forall|i: int| 0 <= i < fs.disk_inodes@.len() implies #[trigger] fs.disk_inodes@[i].wf() by {}
        }
        fs
    }

    /// Where disk inode `inode_id` lies: its block and its offset in the block.
    pub fn get_disk_inode_pos(&self, inode_id: u32) -> (r: (u32, usize))
        requires
            self.inode_area_start_block + inode_id / 4 <= 0xffff_ffff,
        ensures
            r.0 == self.inode_area_start_block + inode_id / 4,
            r.1 == (inode_id % 4) * DISK_INODE_SIZE,
    {
        let block_id = self.inode_area_start_block + inode_id / INODES_PER_BLOCK;
        (block_id, (inode_id % INODES_PER_BLOCK) as usize * DISK_INODE_SIZE)
    }

    /// Number of inodes not in use.
    pub fn free_inode_count(&self) -> (r: usize)
        ensures
            r == count_free(self.inode_bitmap@),
    {
        count_clear_bits(&self.inode_bitmap)
    }

    /// Number of data blocks not in use.
    pub fn free_data_count(&self) -> (r: usize)
        ensures
            r == count_free(self.data_bitmap@),
    {
        count_clear_bits(&self.data_bitmap)
    }

    /// Takes the first inode not in use.
    pub fn alloc_inode(&mut self) -> (r: u32)
        requires
            old(self).wf_layout(),
            has_free(old(self).inode_bitmap@),
        ensures
            old(self).wf() ==> final(self).wf(),
            is_first_free(old(self).inode_bitmap@, r as int),
            final(self).inode_bitmap@ == old(self).inode_bitmap@.update(r as int, true),
            final(self).data_bitmap@ == old(self).data_bitmap@,
            final(self).disk_inodes@ == old(self).disk_inodes@,
            final(self).inode_area_start_block == old(self).inode_area_start_block,
            final(self).data_area_start_block == old(self).data_area_start_block,
    {
        let bit = take_first_clear_bit(&mut self.inode_bitmap);
        proof {
            if old(self).wf() {
                assert forall|i: int, p: int| #[trigger] self.holds(i, p) implies self.data_used(self.block_at(i, p) as int) by {
                    assert(old(self).holds(i, p));
                }
                assert forall|i: int, p: int, j: int, q: int|
                    self.holds(i, p) && self.holds(j, q) && (i != j || p != q) implies #[trigger] self.block_at(i, p)
                        != #[trigger] self.block_at(j, q) by {
                    assert(old(self).holds(i, p) && old(self).holds(j, q));
                    assert(old(self).block_at(i, p) != old(self).block_at(j, q));
                }
            }
        }
        bit as u32
    }

    /// Takes the first data block not in use; gives its block number.
    pub fn alloc_data(&mut self) -> (r: u32)
        requires
            old(self).wf_layout(),
            has_free(old(self).data_bitmap@),
        ensures
            is_first_free(old(self).data_bitmap@, r - old(self).data_area_start_block),
            r >= old(self).data_area_start_block,
            final(self).data_bitmap@ == old(self).data_bitmap@.update(
                r - old(self).data_area_start_block,
                true,
            ),
            final(self).inode_bitmap@ == old(self).inode_bitmap@,
            final(self).disk_inodes@ == old(self).disk_inodes@,
            final(self).inode_area_start_block == old(self).inode_area_start_block,
            final(self).data_area_start_block == old(self).data_area_start_block,
    {
        let bit = take_first_clear_bit(&mut self.data_bitmap);
        bit as u32 + self.data_area_start_block
    }

    /// Gives data block `block_id` back.
    pub fn dealloc_data(&mut self, block_id: u32)
        requires
            old(self).data_used(block_id as int),
        ensures
            final(self).data_bitmap@ == old(self).data_bitmap@.update(
                block_id - old(self).data_area_start_block,
                false,
            ),
            final(self).inode_bitmap@ == old(self).inode_bitmap@,
            final(self).disk_inodes@ == old(self).disk_inodes@,
            final(self).inode_area_start_block == old(self).inode_area_start_block,
            final(self).data_area_start_block == old(self).data_area_start_block,
    {
        let bit = (block_id - self.data_area_start_block) as usize;
        self.data_bitmap.set(bit, false);
    }

    /// Data blocks growing inode `id` to `new_size` bytes takes.
    pub open spec fn blocks_needed(&self, id: int, new_size: int) -> int {
        let size = self.disk_inodes@[id].size as int;
        if new_size < size {
            0
        } else {
            total_blocks_of(new_size) - total_blocks_of(size)
        }
    }

    /// Grows inode `id` to `new_size` bytes (nothing if it is larger),
    /// taking the first free data blocks one by one for what it lacks.
    pub fn increase_size(&mut self, id: u32, new_size: u32)
        requires
            old(self).wf_layout(),
            old(self).wf_blocks(),
            id < old(self).disk_inodes@.len(),
            old(self).disk_inodes@[id as int].data@.len() == old(self).disk_inodes@[id as int].size,
            count_free(old(self).data_bitmap@) >= old(self).blocks_needed(id as int, new_size as int),
        ensures
            final(self).wf_layout(),
            final(self).wf_blocks(),
            final(self).inode_bitmap@ == old(self).inode_bitmap@,
            final(self).inode_area_start_block == old(self).inode_area_start_block,
            final(self).data_area_start_block == old(self).data_area_start_block,
            final(self).disk_inodes@.len() == old(self).disk_inodes@.len(),
            forall|j: int| 0 <= j < old(self).disk_inodes@.len() && j != id ==> #[trigger] final(self).disk_inodes@[j] == old(self).disk_inodes@[j],
            count_free(final(self).data_bitmap@) + old(self).blocks_needed(id as int, new_size as int)
                == count_free(old(self).data_bitmap@),
            old(self).wf_content() ==> final(self).wf_content(),
            ({
                let o = old(self).disk_inodes@[id as int];
                let n = final(self).disk_inodes@[id as int];
                if new_size < o.size {
                    n == o
                } else {
                    &&& n.size == new_size
                    &&& n.kind == o.kind
                    &&& n.nlink == o.nlink
                    &&& n.data@ == o.data@ + Seq::new((new_size - o.size) as nat, |i: int| 0u8)
                }
            }),
    {
        let idx = id as usize;
        if new_size < self.disk_inodes[idx].size {
            return;
        }
        let needed = self.disk_inodes[idx].blocks_num_needed(new_size);
        let ghost start = self.data_area_start_block as int;
        let mut v: Vec<u32> = Vec::new();
        let mut k: u32 = 0;
        while k < needed
            invariant
                k <= needed,
                needed == old(self).blocks_needed(id as int, new_size as int),
                v@.len() == k,
                start == self.data_area_start_block,
                self.wf_layout(),
                self.wf_blocks(),
                self.disk_inodes@ == old(self).disk_inodes@,
                self.inode_bitmap@ == old(self).inode_bitmap@,
                self.inode_area_start_block == old(self).inode_area_start_block,
                self.data_area_start_block == old(self).data_area_start_block,
                count_free(self.data_bitmap@) + k == count_free(old(self).data_bitmap@),
                count_free(old(self).data_bitmap@) >= needed,
                forall|m: int| 0 <= m < k ==> #[trigger] self.data_used(v@[m] as int),
                forall|m1: int, m2: int| 0 <= m1 < m2 < k ==> #[trigger] v@[m1] != #[trigger] v@[m2],
                forall|i: int, p: int, m: int| #[trigger] self.holds(i, p) && 0 <= m < k ==> self.block_at(i, p) != #[trigger] v@[m],
            decreases needed - k,
        {
            proof {
                lemma_count_free_has(self.data_bitmap@);
            }
            let ghost before = *self;
            let b = self.alloc_data();
            proof {
                let bit = b - start;
                lemma_count_free_set(before.data_bitmap@, bit);
                assert(!before.data_used(b as int));
                assert forall|i: int, p: int| #[trigger] self.holds(i, p) implies self.data_used(self.block_at(i, p) as int) by {
                    assert(before.holds(i, p));
                    assert(before.data_used(before.block_at(i, p) as int));
                }
                assert forall|m: int| 0 <= m < k implies #[trigger] self.data_used(v@[m] as int) by {
                    assert(before.data_used(v@[m] as int));
                }
                assert forall|i: int, p: int| #[trigger] self.holds(i, p) implies self.block_at(i, p) != b by {
                    assert(before.holds(i, p));
                    assert(before.data_used(before.block_at(i, p) as int));
                }
            }
            let ghost v_before = v@;
            v.push(b);
            k = k + 1;
            proof {
                assert forall|m: int| 0 <= m < k - 1 implies v@[m] == v_before[m] by {}
                assert forall|i: int, p: int, m: int| #[trigger] self.holds(i, p) && 0 <= m < k implies self.block_at(i, p) != #[trigger] v@[m] by {
                    assert(before.holds(i, p));
                    if m < k - 1 {
                        assert(v@[m] == v_before[m]);
                        assert(before.block_at(i, p) != v_before[m]);
                    } else {
                        assert(v@[m] == b);
                    }
                }
                assert forall|i: int, p: int, j: int, q: int|
                    self.holds(i, p) && self.holds(j, q) && (i != j || p != q) implies #[trigger] self.block_at(i, p)
                        != #[trigger] self.block_at(j, q) by {
                    assert(before.holds(i, p) && before.holds(j, q));
                    assert(before.block_at(i, p) != before.block_at(j, q));
                }
            }
        }
        let ghost mid = *self;
        let ghost vs = v@;
        let ghost total_old = total_blocks_of(mid.disk_inodes@[id as int].size as int);
        proof {
            lemma_total_blocks_mono(mid.disk_inodes@[id as int].size as int, new_size as int);
        }
        self.disk_inodes[idx].increase_size(new_size, v);
        proof {
            assert(self.data_bitmap@ == mid.data_bitmap@);
            let ni = self.disk_inodes@[id as int];
            assert forall|i: int| 0 <= i < self.disk_inodes@.len() implies #[trigger] self.disk_inodes@[i].blocks@.len()
                >= total_blocks_of(self.disk_inodes@[i].size as int) by {
                if i != id {
                    assert(self.disk_inodes@[i] == mid.disk_inodes@[i]);
                }
            }
            assert forall|i: int, p: int| #[trigger] self.holds(i, p) implies self.data_used(self.block_at(i, p) as int) by {
                if i != id {
                    assert(self.disk_inodes@[i] == mid.disk_inodes@[i]);
                    assert(mid.holds(i, p));
                } else if p < total_old {
                    assert(self.block_at(i, p) == mid.block_at(i, p));
                    assert(mid.holds(i, p));
                } else {
                    assert(self.block_at(i, p) == vs[p - total_old]);
                    assert(mid.data_used(vs[p - total_old] as int));
                }
            }
            assert forall|i: int, p: int, j: int, q: int|
                self.holds(i, p) && self.holds(j, q) && (i != j || p != q) implies #[trigger] self.block_at(i, p)
                    != #[trigger] self.block_at(j, q) by {
                if i != id {
                    assert(self.disk_inodes@[i] == mid.disk_inodes@[i]);
                    assert(mid.holds(i, p));
                }
                if j != id {
                    assert(self.disk_inodes@[j] == mid.disk_inodes@[j]);
                    assert(mid.holds(j, q));
                }
                if i == id && p < total_old {
                    assert(self.block_at(i, p) == mid.block_at(i, p));
                    assert(mid.holds(i, p));
                }
                if j == id && q < total_old {
                    assert(self.block_at(j, q) == mid.block_at(j, q));
                    assert(mid.holds(j, q));
                }
                if i == id && p >= total_old {
                    assert(self.block_at(i, p) == vs[p - total_old]);
                }
                if j == id && q >= total_old {
                    assert(self.block_at(j, q) == vs[q - total_old]);
                }
            }
            if old(self).wf_content() {
                assert(old(self).disk_inodes@[id as int].wf());
                lemma_content_frame(&mid, self, id as int);
            }
        }
    }

    /// Empties inode `id` and gives back every block it had in use.
    pub fn clear_inode(&mut self, id: u32)
        requires
            old(self).wf_layout(),
            old(self).wf_blocks(),
            id < old(self).disk_inodes@.len(),
        ensures
            final(self).wf_layout(),
            final(self).wf_blocks(),
            final(self).inode_bitmap@ == old(self).inode_bitmap@,
            final(self).inode_area_start_block == old(self).inode_area_start_block,
            final(self).data_area_start_block == old(self).data_area_start_block,
            final(self).disk_inodes@.len() == old(self).disk_inodes@.len(),
            forall|j: int| 0 <= j < old(self).disk_inodes@.len() && j != id ==> #[trigger] final(self).disk_inodes@[j] == old(self).disk_inodes@[j],
            final(self).disk_inodes@[id as int].size == 0,
            final(self).disk_inodes@[id as int].kind == old(self).disk_inodes@[id as int].kind,
            final(self).disk_inodes@[id as int].nlink == old(self).disk_inodes@[id as int].nlink,
            final(self).disk_inodes@[id as int].data@.len() == 0,
            final(self).disk_inodes@[id as int].blocks@.len() == 0,
            old(self).wf_content() ==> final(self).wf_content(),
            final(self).data_bitmap@.len() == old(self).data_bitmap@.len(),
            forall|x: int| 0 <= x < old(self).data_bitmap@.len() ==> #[trigger] final(self).data_bitmap@[x] == (old(self).data_bitmap@[x]
                && !exists|p: int| old(self).holds(id as int, p) && old(self).block_at(id as int, p) == x + old(self).data_area_start_block),
    {
        let ghost orig = *self;
        let idx = id as usize;
        let freed = self.disk_inodes[idx].clear_size();
        let ghost start = self.data_area_start_block as int;
        let mut k: usize = 0;
        while k < freed.len()
            invariant
                k <= freed@.len(),
                freed@ == orig.disk_inodes@[id as int].blocks@.take(total_blocks_of(orig.disk_inodes@[id as int].size as int)),
                start == self.data_area_start_block,
                orig.wf_layout(),
                orig.wf_blocks(),
                id < orig.disk_inodes@.len(),
                self.wf_layout(),
                self.inode_bitmap@ == orig.inode_bitmap@,
                self.inode_area_start_block == orig.inode_area_start_block,
                self.data_area_start_block == orig.data_area_start_block,
                self.disk_inodes@.len() == orig.disk_inodes@.len(),
                forall|j: int| 0 <= j < orig.disk_inodes@.len() && j != id ==> #[trigger] self.disk_inodes@[j] == orig.disk_inodes@[j],
                self.disk_inodes@[id as int].size == 0,
                self.disk_inodes@[id as int].kind == orig.disk_inodes@[id as int].kind,
                self.disk_inodes@[id as int].nlink == orig.disk_inodes@[id as int].nlink,
                self.disk_inodes@[id as int].data@.len() == 0,
                self.disk_inodes@[id as int].blocks@.len() == 0,
                self.data_bitmap@.len() == orig.data_bitmap@.len(),
                forall|x: int| 0 <= x < orig.data_bitmap@.len() ==> #[trigger] self.data_bitmap@[x] == (orig.data_bitmap@[x]
                    && !exists|m: int| 0 <= m < k && freed@[m] == x + start),
            decreases freed.len() - k,
        {
            let b = freed[k];
            proof {
                assert(orig.holds(id as int, k as int));
                assert(orig.block_at(id as int, k as int) == b);
                assert(orig.data_used(b as int));
                assert forall|m: int| 0 <= m < k implies freed@[m] != b by {
                    assert(orig.holds(id as int, m));
                    assert(orig.block_at(id as int, m) == freed@[m]);
                }
                assert(self.data_bitmap@[b - start]);
            }
            self.dealloc_data(b);
            k = k + 1;
            proof {
                assert forall|x: int| 0 <= x < orig.data_bitmap@.len() implies #[trigger] self.data_bitmap@[x] == (orig.data_bitmap@[x]
                    && !exists|m: int| 0 <= m < k && freed@[m] == x + start) by {
                    if x == b - start {
                        assert(freed@[k - 1] == x + start);
                    } else {
                        if exists|m: int| 0 <= m < k && freed@[m] == x + start {
                            let m = choose|m: int| 0 <= m < k && freed@[m] == x + start;
                            assert(m != k - 1);
                        }
                    }
                }
            }
        }
        proof {
            assert forall|x: int| 0 <= x < orig.data_bitmap@.len() implies #[trigger] self.data_bitmap@[x] == (orig.data_bitmap@[x]
                && !exists|p: int| orig.holds(id as int, p) && orig.block_at(id as int, p) == x + orig.data_area_start_block) by {
                if exists|p: int| orig.holds(id as int, p) && orig.block_at(id as int, p) == x + orig.data_area_start_block {
                    let p = choose|p: int| orig.holds(id as int, p) && orig.block_at(id as int, p) == x + orig.data_area_start_block;
                    assert(freed@[p] == x + start);
                }
                if exists|m: int| 0 <= m < k && freed@[m] == x + start {
                    let m = choose|m: int| 0 <= m < k && freed@[m] == x + start;
                    assert(orig.holds(id as int, m));
                }
            }
            assert forall|i: int| 0 <= i < self.disk_inodes@.len() implies #[trigger] self.disk_inodes@[i].blocks@.len()
                >= total_blocks_of(self.disk_inodes@[i].size as int) by {
                if i != id {
                    assert(self.disk_inodes@[i] == orig.disk_inodes@[i]);
                }
            }
            assert forall|i: int, p: int| #[trigger] self.holds(i, p) implies self.data_used(self.block_at(i, p) as int) by {
                assert(i != id);
                assert(self.disk_inodes@[i] == orig.disk_inodes@[i]);
                assert(orig.holds(i, p));
                let bb = self.block_at(i, p);
                assert(orig.data_used(bb as int));
                if exists|q: int| orig.holds(id as int, q) && orig.block_at(id as int, q) == bb {
                    let q = choose|q: int| orig.holds(id as int, q) && orig.block_at(id as int, q) == bb;
                    assert(orig.block_at(i, p) != orig.block_at(id as int, q));
                }
                assert(self.data_bitmap@[bb - start]);
            }
            assert forall|i: int, p: int, j: int, q: int|
                self.holds(i, p) && self.holds(j, q) && (i != j || p != q) implies #[trigger] self.block_at(i, p)
                    != #[trigger] self.block_at(j, q) by {
                assert(self.disk_inodes@[i] == orig.disk_inodes@[i]);
                assert(self.disk_inodes@[j] == orig.disk_inodes@[j]);
                assert(orig.holds(i, p));
                assert(orig.holds(j, q));
            }
            if orig.wf_content() {
                lemma_content_frame(&orig, self, id as int);
            }
        }
    }

    /// Appends the record of an entry naming inode `ino` as `name` to
    /// directory `dir`: the directory grows to hold one more whole record
    /// after its whole records, and the record is written there.
    pub fn append_entry(&mut self, dir: u32, name: &str, ino: u32)
        requires
            old(self).wf(),
            dir < old(self).disk_inodes@.len(),
            name.spec_bytes().len() <= NAME_LENGTH_LIMIT + 1,
            (old(self).disk_inodes@[dir as int].size / 32 + 1) * 32 <= u32::MAX,
            count_free(old(self).data_bitmap@) >= old(self).blocks_needed(
                dir as int,
                (old(self).disk_inodes@[dir as int].size / 32 + 1) * 32,
            ),
        ensures
            final(self).wf(),
            final(self).inode_bitmap@ == old(self).inode_bitmap@,
            final(self).inode_area_start_block == old(self).inode_area_start_block,
            final(self).data_area_start_block == old(self).data_area_start_block,
            final(self).disk_inodes@.len() == old(self).disk_inodes@.len(),
            forall|j: int| 0 <= j < old(self).disk_inodes@.len() && j != dir ==> #[trigger] final(self).disk_inodes@[j] == old(self).disk_inodes@[j],
            count_free(final(self).data_bitmap@) + old(self).blocks_needed(
                dir as int,
                (old(self).disk_inodes@[dir as int].size / 32 + 1) * 32,
            ) == count_free(old(self).data_bitmap@),
            ({
                let o = old(self).disk_inodes@[dir as int];
                let n = final(self).disk_inodes@[dir as int];
                &&& n.size == (o.size / 32 + 1) * 32
                &&& n.data@ == o.data@.take((o.size / 32) * 32) + dirent_bytes(name.spec_bytes(), ino)
                &&& n.kind == o.kind
                &&& n.nlink == o.nlink
            }),
    {
        let idx = dir as usize;
        let count: u32 = self.disk_inodes[idx].size / 32;
        let new_size: u32 = (count + 1) * 32;
        proof {
            assert(old(self).disk_inodes@[dir as int].wf());
        }
        self.increase_size(dir, new_size);
        let ghost mid = self.disk_inodes@[dir as int].data@;
        let rec = encode_dirent(name, ino);
        proof {
            assert(self.disk_inodes@[dir as int].wf());
        }
        let n = self.write_inode(dir, (count * 32) as usize, rec.as_slice());
        proof {
            let o = old(self).disk_inodes@[dir as int].data@;
            let c = (count * 32) as int;
            assert(mid == o + Seq::new((new_size - o.len()) as nat, |i: int| 0u8));
            assert(n == 32);
            assert(mid.subrange(0, c) =~= o.take(c));
            assert(mid.subrange(c + 32, mid.len() as int) =~= Seq::<u8>::empty());
            assert(rec@.subrange(0, 32) =~= rec@);
            assert(self.disk_inodes@[dir as int].data@ =~= o.take(c) + dirent_bytes(name.spec_bytes(), ino));
        }
    }

    /// Makes inode `id` a new, empty file with one link.
    pub fn init_file_inode(&mut self, id: u32)
        requires
            old(self).wf(),
            id < old(self).disk_inodes@.len(),
        ensures
            final(self).wf(),
            final(self).inode_bitmap@ == old(self).inode_bitmap@,
            final(self).data_bitmap@ == old(self).data_bitmap@,
            final(self).inode_area_start_block == old(self).inode_area_start_block,
            final(self).data_area_start_block == old(self).data_area_start_block,
            final(self).disk_inodes@.len() == old(self).disk_inodes@.len(),
            forall|j: int| 0 <= j < old(self).disk_inodes@.len() && j != id ==> #[trigger] final(self).disk_inodes@[j] == old(self).disk_inodes@[j],
            final(self).disk_inodes@[id as int].size == 0,
            final(self).disk_inodes@[id as int].kind == DiskInodeType::File,
            final(self).disk_inodes@[id as int].nlink == 1,
            final(self).disk_inodes@[id as int].data@.len() == 0,
    {
        let ghost mid = *self;
        self.disk_inodes[id as usize].initialize(DiskInodeType::File);
        proof {
            assert forall|i: int| 0 <= i < self.disk_inodes@.len() implies #[trigger] self.disk_inodes@[i].blocks@.len()
                >= total_blocks_of(self.disk_inodes@[i].size as int) by {
                if i != id {
                    assert(self.disk_inodes@[i] == mid.disk_inodes@[i]);
                }
            }
            assert forall|i: int, p: int| #[trigger] self.holds(i, p) implies self.data_used(self.block_at(i, p) as int) by {
                assert(i != id);
                assert(self.disk_inodes@[i] == mid.disk_inodes@[i]);
                assert(mid.holds(i, p));
            }
            assert forall|i: int, p: int, j: int, q: int|
                self.holds(i, p) && self.holds(j, q) && (i != j || p != q) implies #[trigger] self.block_at(i, p)
                    != #[trigger] self.block_at(j, q) by {
                assert(self.disk_inodes@[i] == mid.disk_inodes@[i]);
                assert(self.disk_inodes@[j] == mid.disk_inodes@[j]);
                assert(mid.holds(i, p) && mid.holds(j, q));
            }
            assert forall|i: int| 0 <= i < self.disk_inodes@.len() implies #[trigger] self.disk_inodes@[i].wf() by {
                if i != id {
                    assert(self.disk_inodes@[i] == mid.disk_inodes@[i]);
                    assert(mid.disk_inodes@[i].wf());
                }
            }
        }
    }

    /// Sets inode `id`'s link count.
    pub fn set_inode_nlink(&mut self, id: u32, nlink: u32)
        requires
            old(self).wf(),
            id < old(self).disk_inodes@.len(),
        ensures
            final(self).wf(),
            final(self).inode_bitmap@ == old(self).inode_bitmap@,
            final(self).data_bitmap@ == old(self).data_bitmap@,
            final(self).inode_area_start_block == old(self).inode_area_start_block,
            final(self).data_area_start_block == old(self).data_area_start_block,
            final(self).disk_inodes@.len() == old(self).disk_inodes@.len(),
            forall|j: int| 0 <= j < old(self).disk_inodes@.len() && j != id ==> #[trigger] final(self).disk_inodes@[j] == old(self).disk_inodes@[j],
            ({
                let o = old(self).disk_inodes@[id as int];
                let n = final(self).disk_inodes@[id as int];
                &&& n.nlink == nlink
                &&& n.size == o.size
                &&& n.kind == o.kind
                &&& n.data@ == o.data@
                &&& n.blocks@ == o.blocks@
            }),
    {
        self.disk_inodes[id as usize].set_nlink(nlink);
        proof {
            assert(old(self).disk_inodes@[id as int].wf());
            lemma_wf_frame(old(self), self, id as int);
        }
    }

    /// Drops record `k` of directory `dir`: the last whole record is copied
    /// over it and the directory shrinks by one record's bytes.
    pub fn remove_record(&mut self, dir: u32, k: usize)
        requires
            old(self).wf(),
            dir < old(self).disk_inodes@.len(),
            k < old(self).disk_inodes@[dir as int].size / 32,
        ensures
            final(self).wf(),
            final(self).inode_bitmap@ == old(self).inode_bitmap@,
            final(self).data_bitmap@ == old(self).data_bitmap@,
            final(self).inode_area_start_block == old(self).inode_area_start_block,
            final(self).data_area_start_block == old(self).data_area_start_block,
            final(self).disk_inodes@.len() == old(self).disk_inodes@.len(),
            forall|j: int| 0 <= j < old(self).disk_inodes@.len() && j != dir ==> #[trigger] final(self).disk_inodes@[j] == old(self).disk_inodes@[j],
            ({
                let o = old(self).disk_inodes@[dir as int];
                let n = final(self).disk_inodes@[dir as int];
                &&& n.size == o.size - DIRENT_SZ
                &&& n.data@ == moved_last(o.data@, k as int).take(o.size - DIRENT_SZ)
                &&& n.kind == o.kind
                &&& n.nlink == o.nlink
            }),
    {
        proof {
            assert(old(self).disk_inodes@[dir as int].wf());
        }
        self.disk_inodes[dir as usize].remove_record(k);
        proof {
            let o = old(self).disk_inodes@[dir as int];
            let n = self.disk_inodes@[dir as int];
            lemma_total_blocks_mono(n.size as int, o.size as int);
            lemma_wf_frame(old(self), self, dir as int);
        }
    }

    /// Writes `buf` into inode `id` at `offset`, as far as its size reaches.
    pub fn write_inode(&mut self, id: u32, offset: usize, buf: &[u8]) -> (r: usize)
        requires
            old(self).wf(),
            id < old(self).disk_inodes@.len(),
            offset + buf@.len() <= usize::MAX,
            offset <= old(self).disk_inodes@[id as int].data@.len(),
        ensures
            final(self).wf(),
            final(self).inode_bitmap@ == old(self).inode_bitmap@,
            final(self).data_bitmap@ == old(self).data_bitmap@,
            final(self).inode_area_start_block == old(self).inode_area_start_block,
            final(self).data_area_start_block == old(self).data_area_start_block,
            final(self).disk_inodes@.len() == old(self).disk_inodes@.len(),
            forall|j: int| 0 <= j < old(self).disk_inodes@.len() && j != id ==> #[trigger] final(self).disk_inodes@[j] == old(self).disk_inodes@[j],
            ({
                let o = old(self).disk_inodes@[id as int];
                let n = final(self).disk_inodes@[id as int];
                &&& n.size == o.size
                &&& n.kind == o.kind
                &&& n.nlink == o.nlink
                &&& r == read_len(o.data@.len() as int, offset as int, buf@.len() as int)
                &&& n.data@ == o.data@.subrange(0, offset as int) + buf@.subrange(0, r as int)
                    + o.data@.subrange(offset + r, o.data@.len() as int)
            }),
    {
        let r = self.disk_inodes[id as usize].write_at(offset, buf);
        proof {
            assert(old(self).disk_inodes@[id as int].wf());
            lemma_wf_frame(old(self), self, id as int);
        }
        r
    }

    /// Gives inode `inode_id` back.
    pub fn dealloc_inode(&mut self, inode_id: u32)
        requires
            inode_id < old(self).inode_bitmap@.len(),
            old(self).inode_bitmap@[inode_id as int],
        ensures
            old(self).wf() ==> final(self).wf(),
            final(self).inode_bitmap@ == old(self).inode_bitmap@.update(inode_id as int, false),
            final(self).data_bitmap@ == old(self).data_bitmap@,
            final(self).disk_inodes@ == old(self).disk_inodes@,
            final(self).inode_area_start_block == old(self).inode_area_start_block,
            final(self).data_area_start_block == old(self).data_area_start_block,
    {
        self.inode_bitmap.set(inode_id as usize, false);
        proof {
            if old(self).wf() {
                assert forall|i: int, p: int| #[trigger] self.holds(i, p) implies self.data_used(self.block_at(i, p) as int) by {
                    assert(old(self).holds(i, p));
                }
                assert forall|i: int, p: int, j: int, q: int|
                    self.holds(i, p) && self.holds(j, q) && (i != j || p != q) implies #[trigger] self.block_at(i, p)
                        != #[trigger] self.block_at(j, q) by {
                    assert(old(self).holds(i, p) && old(self).holds(j, q));
                    assert(old(self).block_at(i, p) != old(self).block_at(j, q));
                }
            }
        }
    }
}

/// Counts the clear bits.
fn count_clear_bits(bits: &Vec<bool>) -> (r: usize)
    ensures
        r == count_free(bits@),
{
    let mut n: usize = 0;
    let mut i: usize = 0;
    while i < bits.len()
        invariant
            i <= bits@.len(),
            n == count_free(bits@.take(i as int)),
            n <= i,
        decreases bits.len() - i,
    {
        assert(bits@.take(i + 1).drop_last() =~= bits@.take(i as int));
        if !bits[i] {
            n = n + 1;
        }
        i = i + 1;
    }
    assert(bits@.take(i as int) =~= bits@);
    n
}

/// Sets the first clear bit and gives its index.
fn take_first_clear_bit(bits: &mut Vec<bool>) -> (r: usize)
    requires
        has_free(old(bits)@),
    ensures
        is_first_free(old(bits)@, r as int),
        final(bits)@ == old(bits)@.update(r as int, true),
{
    let mut i: usize = 0;
    while i < bits.len()
        invariant
            i <= bits@.len(),
            bits@ == old(bits)@,
            has_free(bits@),
            forall|j: int| 0 <= j < i ==> #[trigger] bits@[j],
        decreases bits.len() - i,
    {
        if !bits[i] {
            bits.set(i, true);
            return i;
        }
        i = i + 1;
    }
    proof {
        let k = choose|k: int| 0 <= k < bits@.len() && !#[trigger] bits@[k];
        assert(bits@[k]);
    }
    0
}

/// A change to inode `id` alone keeps the file system well formed when
/// it keeps the inode's kind and well-formedness and holds no block the
/// inode did not hold at the same position.
proof fn lemma_wf_frame(a: &EasyFileSystem, b: &EasyFileSystem, id: int)
    requires
        a.wf(),
        0 <= id < a.disk_inodes@.len(),
        b.inode_bitmap@.len() == a.inode_bitmap@.len(),
        b.data_bitmap@ == a.data_bitmap@,
        b.inode_area_start_block == a.inode_area_start_block,
        b.data_area_start_block == a.data_area_start_block,
        b.disk_inodes@.len() == a.disk_inodes@.len(),
        forall|j: int| 0 <= j < a.disk_inodes@.len() && j != id ==> #[trigger] b.disk_inodes@[j] == a.disk_inodes@[j],
        b.disk_inodes@[id].kind == a.disk_inodes@[id].kind,
        b.disk_inodes@[id].wf(),
        total_blocks_of(b.disk_inodes@[id].size as int) <= total_blocks_of(a.disk_inodes@[id].size as int),
        forall|p: int| 0 <= p < total_blocks_of(b.disk_inodes@[id].size as int) ==> #[trigger] b.disk_inodes@[id].blocks@[p] == a.disk_inodes@[id].blocks@[p],
    ensures
        b.wf(),
{
    assert forall|i: int| 0 <= i < b.disk_inodes@.len() implies #[trigger] b.disk_inodes@[i].blocks@.len()
        >= total_blocks_of(b.disk_inodes@[i].size as int) by {
        if i != id {
            assert(b.disk_inodes@[i] == a.disk_inodes@[i]);
            assert(a.disk_inodes@[i].blocks@.len() >= total_blocks_of(a.disk_inodes@[i].size as int));
        }
    }
    assert forall|i: int, p: int| #[trigger] b.holds(i, p) implies b.data_used(b.block_at(i, p) as int) by {
        if i != id {
            assert(b.disk_inodes@[i] == a.disk_inodes@[i]);
        }
        assert(a.holds(i, p));
    }
    assert forall|i: int, p: int, j: int, q: int|
        b.holds(i, p) && b.holds(j, q) && (i != j || p != q) implies #[trigger] b.block_at(i, p)
            != #[trigger] b.block_at(j, q) by {
        if i != id {
            assert(b.disk_inodes@[i] == a.disk_inodes@[i]);
        }
        if j != id {
            assert(b.disk_inodes@[j] == a.disk_inodes@[j]);
        }
        assert(a.holds(i, p) && a.holds(j, q));
        assert(a.block_at(i, p) != a.block_at(j, q));
    }
    assert forall|i: int| 0 <= i < b.disk_inodes@.len() implies #[trigger] b.disk_inodes@[i].wf() by {
        if i != id {
            assert(b.disk_inodes@[i] == a.disk_inodes@[i]);
            assert(a.disk_inodes@[i].wf());
        }
    }
}

/// A change to inode `id` alone keeps every inode well formed when it
/// keeps that inode well formed.
proof fn lemma_content_frame(a: &EasyFileSystem, b: &EasyFileSystem, id: int)
    requires
        a.wf_content(),
        0 <= id < a.disk_inodes@.len(),
        b.disk_inodes@.len() == a.disk_inodes@.len(),
        forall|j: int| 0 <= j < a.disk_inodes@.len() && j != id ==> #[trigger] b.disk_inodes@[j] == a.disk_inodes@[j],
        b.disk_inodes@[id].kind == a.disk_inodes@[id].kind,
        b.disk_inodes@[id].wf(),
    ensures
        b.wf_content(),
{
    assert forall|i: int| 0 <= i < b.disk_inodes@.len() implies #[trigger] b.disk_inodes@[i].wf() by {
        if i != id {
            assert(b.disk_inodes@[i] == a.disk_inodes@[i]);
            assert(a.disk_inodes@[i].wf());
        }
    }
}

} // verus!
