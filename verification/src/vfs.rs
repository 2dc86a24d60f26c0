//! The directory layer: handles on inodes, and the operations on them that
//! the kernel's file system calls use (look up, create, link, unlink, list,
//! read, write, truncate).
//!
//! A handle names its inode by id and records where the inode lies on disk;
//! the file system it belongs to is passed to each operation.
use vstd::prelude::*;
use std::sync::Arc;
use vstd::string::StringSliceAdditionalSpecFns;
use vstd::utf8::{encode_utf8, valid_utf8};
use crate::easy_fs::{
    count_free, dirent_bytes, has_free, is_first_free, moved_last, read_len, record, DiskInodeType,
    EasyFileSystem, DIRENT_SZ, NAME_LENGTH_LIMIT,
};

verus! {

/// Byte `n` ends a record's name: it is the first zero among the record's
/// first 28 bytes.
pub open spec fn name_end(r: Seq<u8>, n: int) -> bool {
    &&& 0 <= n < 28
    &&& r[n] == 0
    &&& forall|j: int| 0 <= j < n ==> #[trigger] r[j] != 0
}

/// A record whose name can be read: its name ends within its first 28
/// bytes and is UTF-8.
pub open spec fn readable(r: Seq<u8>) -> bool {
    &&& exists|n: int| name_end(r, n)
    &&& valid_utf8(r.take(choose|n: int| name_end(r, n)))
}

/// The name a record holds: its bytes up to the first zero.
pub open spec fn rec_name(r: Seq<u8>) -> Seq<u8> {
    r.take(choose|n: int| name_end(r, n))
}

/// The inode number a record holds: its last four bytes, little-endian.
pub open spec fn rec_ino(r: Seq<u8>) -> u32 {
    (r[28] + 256 * r[29] + 65536 * r[30] + 16777216 * r[31]) as u32
}

/// The number of whole records in a directory's bytes.
pub open spec fn rec_count(data: Seq<u8>) -> int {
    (data.len() / 32) as int
}

/// Record `k` of `data` is readable and holds the name `name`.
pub open spec fn named(data: Seq<u8>, name: Seq<u8>, k: int) -> bool {
    &&& readable(record(data, k))
    &&& rec_name(record(data, k)) == name
}

/// `k` is the first record of `data` named `name`.
pub open spec fn first_named(data: Seq<u8>, name: Seq<u8>, k: int) -> bool {
    &&& 0 <= k < rec_count(data)
    &&& named(data, name, k)
    &&& forall|j: int| 0 <= j < k ==> !#[trigger] named(data, name, j)
}

/// Some record of `data` is named `name`.
pub open spec fn has_entry(data: Seq<u8>, name: Seq<u8>) -> bool {
    exists|k: int| 0 <= k < rec_count(data) && #[trigger] named(data, name, k)
}

/// Every record a scan for `name` reads (up to the first match) is readable.
pub open spec fn scan_ok(data: Seq<u8>, name: Seq<u8>) -> bool {
    forall|k: int|
        0 <= k < rec_count(data) && !readable(#[trigger] record(data, k)) ==> exists|j: int|
            0 <= j < k && #[trigger] named(data, name, j)
}

/// Every record of `data` is readable.
pub open spec fn all_readable(data: Seq<u8>) -> bool {
    forall|k: int| 0 <= k < rec_count(data) ==> readable(#[trigger] record(data, k))
}

proof fn lemma_name_end_unique(r: Seq<u8>, a: int, b: int)
    requires
        name_end(r, a),
        name_end(r, b),
    ensures
        a == b,
{
    if a < b {
        assert(r[a] != 0);
    } else if b < a {
        assert(r[b] != 0);
    }
}

proof fn lemma_record_len(data: Seq<u8>, k: int)
    requires
        0 <= k < rec_count(data),
    ensures
        32 * k + 32 <= data.len(),
        record(data, k).len() == 32,
{
    assert(32 * k + 32 <= data.len()) by (nonlinear_arith)
        requires
            0 <= k < data.len() / 32,
    ;
}

/// The record a directory entry is written as holds the entry's name and
/// inode number, when the name is UTF-8 with no zero byte and at most 27
/// bytes long.
pub proof fn lemma_dirent_readable(name: Seq<u8>, ino: u32)
    requires
        name.len() <= NAME_LENGTH_LIMIT,
        forall|i: int| 0 <= i < name.len() ==> #[trigger] name[i] != 0,
        valid_utf8(name),
    ensures
        readable(dirent_bytes(name, ino)),
        rec_name(dirent_bytes(name, ino)) == name,
        rec_ino(dirent_bytes(name, ino)) == ino,
        dirent_bytes(name, ino).len() == 32,
{
    let r = dirent_bytes(name, ino);
    let n = name.len() as int;
    assert(r[n] == 0);
    assert forall|j: int| 0 <= j < n implies #[trigger] r[j] != 0 by {
        assert(r[j] == name[j]);
    }
    assert(name_end(r, n));
    let c = choose|m: int| name_end(r, m);
    lemma_name_end_unique(r, c, n);
    assert(r.take(n) =~= name);
    assert(r[28] == (ino % 256) as u8);
    assert(r[29] == ((ino / 256) % 256) as u8);
    assert(r[30] == ((ino / 65536) % 256) as u8);
    assert(r[31] == (ino / 16777216) as u8);
    assert((ino % 256) + 256 * ((ino / 256) % 256) + 65536 * ((ino / 65536) % 256) + 16777216 * (
    ino / 16777216) == ino) by (nonlinear_arith);
}

/// Appending an entry's record after a directory's whole records: the new
/// record is the first one named `name` when no record was, and unlinking
/// that name again (the record is the last one, so nothing moves) gives
/// back the directory's bytes when it held whole records only.
pub proof fn lemma_new_entry_found(data: Seq<u8>, name: Seq<u8>, ino: u32)
    requires
        !has_entry(data, name),
        name.len() <= NAME_LENGTH_LIMIT,
        forall|i: int| 0 <= i < name.len() ==> #[trigger] name[i] != 0,
        valid_utf8(name),
    ensures
        ({
            let c = rec_count(data);
            let new = data.take(c * 32) + dirent_bytes(name, ino);
            &&& rec_count(new) == c + 1
            &&& first_named(new, name, c)
            &&& rec_ino(record(new, c)) == ino
            &&& data.len() % 32 == 0 ==> moved_last(new, c).take(new.len() - DIRENT_SZ) == data
        }),
{
    let c = rec_count(data);
    lemma_dirent_readable(name, ino);
    assert(c * 32 <= data.len()) by (nonlinear_arith)
        requires
            c == data.len() / 32,
            data.len() >= 0,
    ;
    let new = data.take(c * 32) + dirent_bytes(name, ino);
    assert(new.len() == c * 32 + 32);
    assert(rec_count(new) == c + 1) by (nonlinear_arith)
        requires
            new.len() == c * 32 + 32,
            c >= 0,
    ;
    assert(record(new, c) =~= dirent_bytes(name, ino));
    assert forall|j: int| 0 <= j < c implies !#[trigger] named(new, name, j) by {
        lemma_record_len(data, j);
        assert(32 * j + 32 <= c * 32);
        assert forall|x: int| 0 <= x < 32 implies #[trigger] record(new, j)[x] == record(data, j)[x] by {
            assert(record(new, j)[x] == new[32 * j + x]);
            assert(new[32 * j + x] == data[32 * j + x]);
        }
        assert(record(new, j) =~= record(data, j));
        assert(!named(data, name, j));
    }
    if data.len() % 32 == 0 {
        assert(c * 32 == data.len());
        assert(moved_last(new, c) =~= new);
        assert(new.take(new.len() - DIRENT_SZ) =~= data);
    }
}

/// The bytes of inode `id`.
pub open spec fn data_of(fs: &EasyFileSystem, id: u32) -> Seq<u8> {
    fs.disk_inodes@[id as int].data@
}

/// The size a write ending at byte `end` grows a file of `size` bytes to:
/// the end taken modulo 2^32, if that is larger.
pub open spec fn grown_size(size: int, end: int) -> int {
    let t = end % 0x1_0000_0000;
    if t < size {
        size
    } else {
        t
    }
}

/// A file's bytes after a write of `buf` at `offset`: the file is first
/// grown with zeros to the size the write asks for, then as much of `buf`
/// as fits is copied in at `offset`.
pub open spec fn written_data(data: Seq<u8>, offset: int, buf: Seq<u8>) -> Seq<u8> {
    let size = grown_size(data.len() as int, offset + buf.len());
    let grown = data + Seq::new((size - data.len()) as nat, |i: int| 0u8);
    let r = read_len(size, offset, buf.len() as int);
    grown.subrange(0, offset) + buf.subrange(0, r) + grown.subrange(offset + r, size)
}

/// Reading back a write: after a write of `buf` at `offset` that wrote
/// `r` bytes, the file is `grown_size` bytes long and reading `r` bytes at
/// `offset` gives the first `r` bytes of `buf`; the bytes before `offset`
/// are those of the file before.
pub proof fn lemma_read_after_write(data: Seq<u8>, offset: int, buf: Seq<u8>)
    requires
        0 <= offset <= grown_size(data.len() as int, offset + buf.len()),
    ensures
        ({
            let size = grown_size(data.len() as int, offset + buf.len());
            let r = read_len(size, offset, buf.len() as int);
            let new = written_data(data, offset, buf);
            &&& new.len() == size
            &&& read_len(new.len() as int, offset, r) == r
            &&& new.subrange(offset, offset + r) == buf.subrange(0, r)
            &&& forall|i: int| 0 <= i < offset && i < data.len() ==> new[i] == data[i]
        }),
{
    let size = grown_size(data.len() as int, offset + buf.len());
    let grown = data + Seq::new((size - data.len()) as nat, |i: int| 0u8);
    let r = read_len(size, offset, buf.len() as int);
    let new = written_data(data, offset, buf);
    assert(new.subrange(offset, offset + r) =~= buf.subrange(0, r));
    assert forall|i: int| 0 <= i < offset && i < data.len() implies new[i] == data[i] by {
        assert(new[i] == grown[i]);
    }
}

/// What `create_hard_link` does to directory `dir` and file `t` when it
/// adds the record `name`: the directory grows to one more whole record
/// after its whole records, which is written there; the file counts one
/// more link; nothing else changes but the data blocks the growth takes.
pub open spec fn linked(o: EasyFileSystem, f: EasyFileSystem, dir: u32, name: Seq<u8>, t: u32) -> bool {
    let od = o.disk_inodes@[dir as int];
    let d = dir as int;
    let ti = t as int;
    &&& f.disk_inodes@[d].size == (od.size / 32 + 1) * 32
    &&& data_of(&f, dir) == od.data@.take((od.size / 32) * 32) + dirent_bytes(name, t)
    &&& f.disk_inodes@[d].nlink == od.nlink
    &&& f.disk_inodes@[ti].nlink == o.disk_inodes@[ti].nlink + 1
    &&& f.disk_inodes@[ti].size == o.disk_inodes@[ti].size
    &&& f.disk_inodes@[ti].data@ == o.disk_inodes@[ti].data@
    &&& f.disk_inodes@[ti].kind == DiskInodeType::File
    &&& f.disk_inodes@[d].kind == DiskInodeType::Directory
    &&& f.disk_inodes@.len() == o.disk_inodes@.len()
    &&& forall|j: int| 0 <= j < o.disk_inodes@.len() && j != d && j != ti ==> #[trigger] f.disk_inodes@[j] == o.disk_inodes@[j]
    &&& f.inode_bitmap@ == o.inode_bitmap@
    &&& count_free(f.data_bitmap@) + o.blocks_needed(d, (od.size / 32 + 1) * 32) == count_free(o.data_bitmap@)
}

/// What `unlink_child` does when it removes record `k` of directory `dir`:
/// the last whole record is copied over it and the directory shrinks by
/// one record; the inode it names drops a link, and with its last link
/// its blocks and its inode are freed.
pub open spec fn unlinked(o: EasyFileSystem, f: EasyFileSystem, dir: u32, k: int) -> bool {
    let d = data_of(&o, dir);
    let t = rec_ino(record(d, k)) as int;
    let di = dir as int;
    let links = o.disk_inodes@[t].nlink;
    &&& data_of(&f, dir) == moved_last(d, k).take(d.len() - DIRENT_SZ)
    &&& f.disk_inodes@[di].size == o.disk_inodes@[di].size - DIRENT_SZ
    &&& f.disk_inodes@[di].kind == DiskInodeType::Directory
    &&& f.disk_inodes@[di].nlink == o.disk_inodes@[di].nlink
    &&& f.disk_inodes@[t].nlink == links - 1
    &&& f.disk_inodes@[t].kind == o.disk_inodes@[t].kind
    &&& f.disk_inodes@.len() == o.disk_inodes@.len()
    &&& forall|j: int| 0 <= j < o.disk_inodes@.len() && j != di && j != t ==> #[trigger] f.disk_inodes@[j] == o.disk_inodes@[j]
    &&& links > 1 ==> {
        &&& f.disk_inodes@[t].size == o.disk_inodes@[t].size
        &&& f.disk_inodes@[t].data@ == o.disk_inodes@[t].data@
        &&& f.inode_bitmap@ == o.inode_bitmap@
        &&& f.data_bitmap@ == o.data_bitmap@
    }
    &&& links == 1 ==> {
        &&& f.disk_inodes@[t].size == 0
        &&& f.disk_inodes@[t].data@.len() == 0
        &&& f.inode_bitmap@ == o.inode_bitmap@.update(t, false)
        &&& f.data_bitmap@.len() == o.data_bitmap@.len()
        &&& forall|x: int| 0 <= x < o.data_bitmap@.len() ==> #[trigger] f.data_bitmap@[x]
            == (o.data_bitmap@[x] && !exists|p: int| o.holds(t, p)
            && o.block_at(t, p) == x + o.data_area_start_block)
    }
}

/// A hard link made and then unlinked again gives back what there was:
/// in a directory that holds whole records only and had no record of the
/// name, `create_hard_link` then `unlink_child` of that name leaves the
/// directory's bytes and size, and the file's link count, size and bytes,
/// as they were, and every other inode unchanged.
pub proof fn lemma_link_then_unlink(
    s0: EasyFileSystem,
    s1: EasyFileSystem,
    s2: EasyFileSystem,
    dir: u32,
    name: Seq<u8>,
    t: u32,
    k: int,
)
    requires
        dir < s0.disk_inodes@.len(),
        t < s0.disk_inodes@.len(),
        t != dir,
        s0.disk_inodes@[dir as int].data@.len() == s0.disk_inodes@[dir as int].size,
        s0.disk_inodes@[dir as int].size % 32 == 0,
        s0.disk_inodes@[t as int].nlink >= 1,
        !has_entry(data_of(&s0, dir), name),
        name.len() <= NAME_LENGTH_LIMIT,
        forall|i: int| 0 <= i < name.len() ==> #[trigger] name[i] != 0,
        valid_utf8(name),
        linked(s0, s1, dir, name, t),
        first_named(data_of(&s1, dir), name, k),
        unlinked(s1, s2, dir, k),
    ensures
        data_of(&s2, dir) == data_of(&s0, dir),
        s2.disk_inodes@[dir as int].size == s0.disk_inodes@[dir as int].size,
        s2.disk_inodes@[dir as int].nlink == s0.disk_inodes@[dir as int].nlink,
        s2.disk_inodes@[t as int].nlink == s0.disk_inodes@[t as int].nlink,
        s2.disk_inodes@[t as int].size == s0.disk_inodes@[t as int].size,
        s2.disk_inodes@[t as int].data@ == s0.disk_inodes@[t as int].data@,
        s2.disk_inodes@.len() == s0.disk_inodes@.len(),
        forall|j: int| 0 <= j < s0.disk_inodes@.len() && j != dir && j != t ==> #[trigger] s2.disk_inodes@[j] == s0.disk_inodes@[j],
{
    let d0 = data_of(&s0, dir);
    let c = rec_count(d0);
    lemma_new_entry_found(d0, name, t);
    assert((s0.disk_inodes@[dir as int].size / 32) * 32 == s0.disk_inodes@[dir as int].size);
    assert(c * 32 == d0.len());
    let d1 = data_of(&s1, dir);
    assert(d1 == d0.take(c * 32) + dirent_bytes(name, t));
    assert(first_named(d1, name, c));
    if k < c {
        assert(!named(d1, name, k));
    } else if k > c {
        assert(!named(d1, name, c));
    }
    assert(k == c);
    assert(rec_ino(record(d1, k)) == t);
}

/// A handle on an inode.
pub struct Inode {
    /// The block holding the disk inode.
    pub block_id: usize,
    /// Where in that block the disk inode starts.
    pub block_offset: usize,
    pub inode_id: u32,
}

/// A handle on the root directory, inode 0.
pub fn root_inode(fs: &EasyFileSystem) -> (r: Inode)
    requires
        fs.wf_layout(),
    ensures
        r.inode_id == 0,
        r.block_id == fs.inode_area_start_block,
        r.block_offset == 0,
{
    Inode::at(fs, 0)
}

impl Inode {
    /// A handle on inode `inode_id`, whose disk inode lies at `block_offset` in block `block_id`.
    pub fn new(block_id: u32, block_offset: usize, inode_id: u32) -> (r: Inode)
        ensures
            r.block_id == block_id,
            r.block_offset == block_offset,
            r.inode_id == inode_id,
    {
        Inode { block_id: block_id as usize, block_offset, inode_id }
    }

    /// This handle is on an inode of `fs`.
    pub open spec fn valid(&self, fs: &EasyFileSystem) -> bool {
        self.inode_id < fs.disk_inodes@.len()
    }

    /// This handle is on an inode of `fs` that is in use.
    pub open spec fn live(&self, fs: &EasyFileSystem) -> bool {
        &&& self.valid(fs)
        &&& fs.inode_bitmap@[self.inode_id as int]
    }

    /// The handle `fs` gives for inode `inode_id`.
    pub open spec fn placed(&self, fs: &EasyFileSystem, inode_id: u32) -> bool {
        &&& self.inode_id == inode_id
        &&& self.block_id == fs.inode_area_start_block + inode_id / 4
        &&& self.block_offset == (inode_id % 4) * 128
    }

    fn at(fs: &EasyFileSystem, inode_id: u32) -> (r: Inode)
        requires
            fs.inode_area_start_block + inode_id / 4 <= 0xffff_ffff,
        ensures
            r.placed(fs, inode_id),
    {
        let (block_id, block_offset) = fs.get_disk_inode_pos(inode_id);
        Self::new(block_id, block_offset, inode_id)
    }

    /// Where the name of record `k` of `data` ends.
    fn record_name_end(data: &Vec<u8>, k: usize) -> (n: usize)
        requires
            k < rec_count(data@),
            exists|m: int| name_end(record(data@, k as int), m),
        ensures
            name_end(record(data@, k as int), n as int),
            rec_name(record(data@, k as int)) == record(data@, k as int).take(n as int),
    {
        proof {
            lemma_record_len(data@, k as int);
        }
        let ghost r = record(data@, k as int);
        assert(32 * k + 32 <= data.len());
        let base = 32 * k;
        let mut n: usize = 0;
        while n < 28 && data[base + n] != 0
            invariant
                n <= 28,
                base == 32 * k,
                base + 32 <= data@.len(),
                r == record(data@, k as int),
                exists|m: int| name_end(r, m),
                forall|j: int| 0 <= j < n ==> #[trigger] r[j] != 0,
            decreases 28 - n,
        {
            assert(r[n as int] == data@[base + n]);
            n = n + 1;
        }
        proof {
            let m = choose|m: int| name_end(r, m);
            if n == 28 {
                assert(r[m] != 0);
            }
            assert(r[n as int] == data@[base + n]);
            assert(name_end(r, n as int));
            let c = choose|m: int| name_end(r, m);
            lemma_name_end_unique(r, c, n as int);
        }
        n
    }

    /// Whether record `k` of `data` holds the name `name`.
    fn record_named(data: &Vec<u8>, k: usize, name: &[u8]) -> (b: bool)
        requires
            k < rec_count(data@),
            readable(record(data@, k as int)),
        ensures
            b == named(data@, name@, k as int),
    {
        let n = Self::record_name_end(data, k);
        proof {
            lemma_record_len(data@, k as int);
        }
        let ghost r = record(data@, k as int);
        if n != name.len() {
            return false;
        }
        assert(32 * k + 32 <= data.len());
        let base = 32 * k;
        let mut j: usize = 0;
        while j < n
            invariant
                j <= n,
                n == name@.len(),
                n < 28,
                base == 32 * k,
                base + 32 <= data@.len(),
                r == record(data@, k as int),
                forall|x: int| 0 <= x < j ==> #[trigger] r[x] == name@[x],
            decreases n - j,
        {
            assert(r[j as int] == data@[base + j]);
            if data[base + j] != name[j] {
                assert(r.take(n as int)[j as int] != name@[j as int]);
                return false;
            }
            j = j + 1;
        }
        assert(r.take(n as int) =~= name@);
        true
    }

    /// The inode number record `k` of `data` holds.
    fn record_ino(data: &Vec<u8>, k: usize) -> (r: u32)
        requires
            k < rec_count(data@),
        ensures
            r == rec_ino(record(data@, k as int)),
    {
        proof {
            lemma_record_len(data@, k as int);
        }
        assert(32 * k + 32 <= data.len());
        let base = 32 * k;
        let b0 = data[base + 28] as u32;
        let b1 = data[base + 29] as u32;
        let b2 = data[base + 30] as u32;
        let b3 = data[base + 31] as u32;
        proof {
            assert(record(data@, k as int)[28] == b0);
            assert(record(data@, k as int)[29] == b1);
            assert(record(data@, k as int)[30] == b2);
            assert(record(data@, k as int)[31] == b3);
        }
        b0 + b1 * 256 + b2 * 65536 + b3 * 16777216
    }

    /// The index of the first record named `name` in this inode's bytes.
    fn find_index(&self, fs: &EasyFileSystem, name: &str) -> (r: Option<usize>)
        requires
            self.valid(fs),
            scan_ok(data_of(fs, self.inode_id), name.spec_bytes()),
        ensures
            match r {
                Some(k) => first_named(data_of(fs, self.inode_id), name.spec_bytes(), k as int),
                None => !has_entry(data_of(fs, self.inode_id), name.spec_bytes()),
            },
    {
        let data = &fs.disk_inodes[self.inode_id as usize].data;
        let wanted = name.as_bytes();
        let count = data.len() / 32;
        let mut i: usize = 0;
        while i < count
            invariant
                i <= count,
                count == rec_count(data@),
                self.valid(fs),
                data@ == data_of(fs, self.inode_id),
                wanted@ == name.spec_bytes(),
                scan_ok(data@, wanted@),
                forall|j: int| 0 <= j < i ==> !#[trigger] named(data@, wanted@, j),
            decreases count - i,
        {
            proof {
                if !readable(record(data@, i as int)) {
                    assert(exists|j: int| 0 <= j < i && #[trigger] named(data@, wanted@, j));
                }
            }
            if Self::record_named(data, i, wanted) {
                return Some(i);
            }
            i = i + 1;
        }
        None
    }

    /// A handle on the inode that the first record named `name` in this
    /// directory names, if there is one.
    pub fn find(&self, fs: &EasyFileSystem, name: &str) -> (r: Option<Arc<Inode>>)
        requires
            self.valid(fs),
            fs.disk_inodes@[self.inode_id as int].kind == DiskInodeType::Directory,
            scan_ok(data_of(fs, self.inode_id), name.spec_bytes()),
            forall|k: int| #[trigger] first_named(data_of(fs, self.inode_id), name.spec_bytes(), k)
                ==> fs.inode_area_start_block + rec_ino(record(data_of(fs, self.inode_id), k)) / 4 <= 0xffff_ffff,
        ensures
            match r {
                Some(found) => exists|k: int|
                    #[trigger] first_named(data_of(fs, self.inode_id), name.spec_bytes(), k)
                        && found.placed(fs, rec_ino(record(data_of(fs, self.inode_id), k))),
                None => !has_entry(data_of(fs, self.inode_id), name.spec_bytes()),
            },
    {
        match self.find_index(fs, name) {
            Some(k) => {
                let ino = Self::record_ino(&fs.disk_inodes[self.inode_id as usize].data, k);
                assert(first_named(data_of(fs, self.inode_id), name.spec_bytes(), k as int));
                Some(Arc::new(Self::at(fs, ino)))
            },
            None => None,
        }
    }

    /// The same as `find`.
    pub fn search(&self, fs: &EasyFileSystem, name: &str) -> (r: Option<Arc<Inode>>)
        requires
            self.valid(fs),
            fs.disk_inodes@[self.inode_id as int].kind == DiskInodeType::Directory,
            scan_ok(data_of(fs, self.inode_id), name.spec_bytes()),
            forall|k: int| #[trigger] first_named(data_of(fs, self.inode_id), name.spec_bytes(), k)
                ==> fs.inode_area_start_block + rec_ino(record(data_of(fs, self.inode_id), k)) / 4 <= 0xffff_ffff,
        ensures
            match r {
                Some(found) => exists|k: int|
                    #[trigger] first_named(data_of(fs, self.inode_id), name.spec_bytes(), k)
                        && found.placed(fs, rec_ino(record(data_of(fs, self.inode_id), k))),
                None => !has_entry(data_of(fs, self.inode_id), name.spec_bytes()),
            },
    {
        self.find(fs, name)
    }

    /// This inode's id, whether it is a directory, and its link count.
    pub fn stat(&self, fs: &EasyFileSystem) -> (r: (u32, bool, u32))
        requires
            self.valid(fs),
        ensures
            r.0 == self.inode_id,
            r.1 == (fs.disk_inodes@[self.inode_id as int].kind == DiskInodeType::Directory),
            r.2 == fs.disk_inodes@[self.inode_id as int].nlink,
    {
        let disk_inode = &fs.disk_inodes[self.inode_id as usize];
        (self.inode_id, disk_inode.is_dir(), disk_inode.nlink)
    }

    /// The names the records of this inode hold, in order.
    pub fn readdir(&self, fs: &EasyFileSystem) -> (r: Vec<String>)
        requires
            self.valid(fs),
            all_readable(data_of(fs, self.inode_id)),
        ensures
            r@.len() == rec_count(data_of(fs, self.inode_id)),
            forall|k: int| 0 <= k < r@.len() ==> encode_utf8(#[trigger] r@[k]@) == rec_name(
                record(data_of(fs, self.inode_id), k),
            ),
    {
        let data = &fs.disk_inodes[self.inode_id as usize].data;
        let count = data.len() / 32;
        let mut v: Vec<String> = Vec::new();
        let mut i: usize = 0;
        while i < count
            invariant
                i <= count,
                count == rec_count(data@),
                self.valid(fs),
                data@ == data_of(fs, self.inode_id),
                all_readable(data@),
                v@.len() == i,
                forall|k: int| 0 <= k < i ==> encode_utf8(#[trigger] v@[k]@) == rec_name(record(data@, k)),
            decreases count - i,
        {
            proof {
                lemma_record_len(data@, i as int);
                assert(readable(record(data@, i as int)));
            }
            let n = Self::record_name_end(data, i);
            assert(32 * i + 32 <= data.len());
            let base = 32 * i;
            let mut bytes: Vec<u8> = Vec::new();
            let mut j: usize = 0;
            while j < n
                invariant
                    j <= n < 28,
                    base == 32 * i,
                    base + 32 <= data@.len(),
                    bytes@ == record(data@, i as int).take(j as int),
                decreases n - j,
            {
                bytes.push(data[base + j]);
                j = j + 1;
                assert(bytes@ =~= record(data@, i as int).take(j as int));
            }
            let name = utf8_name(bytes.as_slice()).to_owned();
            v.push(name);
            i = i + 1;
        }
        v
    }

    /// Reads this inode's bytes from `offset` into the front of `buf`, as
    /// far as its size reaches; gives the number of bytes read.
    pub fn read_at(&self, fs: &EasyFileSystem, offset: usize, buf: &mut [u8]) -> (r: usize)
        requires
            self.valid(fs),
            offset + old(buf)@.len() <= usize::MAX,
        ensures
            r == read_len(
                fs.disk_inodes@[self.inode_id as int].data@.len() as int,
                offset as int,
                old(buf)@.len() as int,
            ),
            final(buf)@ == if r == 0 {
                old(buf)@
            } else {
                fs.disk_inodes@[self.inode_id as int].data@.subrange(offset as int, offset + r)
                    + old(buf)@.subrange(r as int, old(buf)@.len() as int)
            },
    {
        fs.disk_inodes[self.inode_id as usize].read_at(offset, buf)
    }

    /// Creates a file named `name` in this directory (the record is
    /// appended to this inode's bytes whatever its kind): takes the first free
    /// inode, makes it an empty file with one link, and appends its record
    /// after the directory's whole records. (Callers look the name up first;
    /// a second record of the same name is appended as asked.)
    pub fn create(&self, fs: &mut EasyFileSystem, name: &str) -> (r: Option<Arc<Inode>>)
        requires
            old(fs).wf(),
            self.live(old(fs)),
            name.spec_bytes().len() <= NAME_LENGTH_LIMIT + 1,
            has_free(old(fs).inode_bitmap@),
            (old(fs).disk_inodes@[self.inode_id as int].size / 32 + 1) * 32 <= u32::MAX,
            count_free(old(fs).data_bitmap@) >= old(fs).blocks_needed(
                self.inode_id as int,
                (old(fs).disk_inodes@[self.inode_id as int].size / 32 + 1) * 32,
            ),
        ensures
            final(fs).wf(),
            r is Some,
            ({
                let new_id = r->0.inode_id;
                let dir = self.inode_id as int;
                let o = old(fs).disk_inodes@[dir];
                &&& r->0.placed(final(fs), new_id)
                &&& is_first_free(old(fs).inode_bitmap@, new_id as int)
                &&& final(fs).inode_bitmap@ == old(fs).inode_bitmap@.update(new_id as int, true)
                &&& final(fs).disk_inodes@.len() == old(fs).disk_inodes@.len()
                &&& final(fs).disk_inodes@[new_id as int].kind == DiskInodeType::File
                &&& final(fs).disk_inodes@[new_id as int].size == 0
                &&& final(fs).disk_inodes@[new_id as int].nlink == 1
                &&& final(fs).disk_inodes@[new_id as int].data@.len() == 0
                &&& final(fs).disk_inodes@[dir].size == (o.size / 32 + 1) * 32
                &&& data_of(final(fs), self.inode_id) == o.data@.take((o.size / 32) * 32)
                    + dirent_bytes(name.spec_bytes(), new_id)
                &&& final(fs).disk_inodes@[dir].kind == o.kind
                &&& final(fs).disk_inodes@[dir].nlink == o.nlink
                &&& forall|j: int| 0 <= j < old(fs).disk_inodes@.len() && j != dir && j != new_id ==> #[trigger] final(fs).disk_inodes@[j] == old(fs).disk_inodes@[j]
                &&& count_free(final(fs).data_bitmap@) + old(fs).blocks_needed(dir, (o.size / 32 + 1) * 32)
                    == count_free(old(fs).data_bitmap@)
                &&& final(fs).inode_area_start_block == old(fs).inode_area_start_block
                &&& final(fs).data_area_start_block == old(fs).data_area_start_block
            }),
    {
        let new_inode_id = fs.alloc_inode();
        assert(new_inode_id != self.inode_id);
        fs.init_file_inode(new_inode_id);
        let ghost mid = *fs;
        fs.append_entry(self.inode_id, name, new_inode_id);
        proof {
            assert(fs.disk_inodes@[new_inode_id as int] == mid.disk_inodes@[new_inode_id as int]);
            assert(fs.disk_inodes@[self.inode_id as int].data@ == old(fs).disk_inodes@[self.inode_id as int].data@.take(
                (old(fs).disk_inodes@[self.inode_id as int].size / 32) * 32) + dirent_bytes(name.spec_bytes(), new_inode_id));
        }
        Some(Arc::new(Self::at(fs, new_inode_id)))
    }

    /// Whether `create_hard_link(name, target)` on this directory adds a record.
    pub open spec fn links(&self, fs: &EasyFileSystem, name: Seq<u8>, target: u32) -> bool {
        &&& fs.disk_inodes@[target as int].kind == DiskInodeType::File
        &&& fs.disk_inodes@[self.inode_id as int].kind == DiskInodeType::Directory
        &&& !has_entry(data_of(fs, self.inode_id), name)
    }

    /// Appends a record named `name` in this directory for the file `inode`
    /// and counts the new link; gives 0, or -1 (changing nothing) when
    /// `inode` is a directory, this inode is not one, or the name is taken.
    pub fn create_hard_link(&self, fs: &mut EasyFileSystem, name: &str, inode: &Arc<Inode>) -> (r: isize)
        requires
            old(fs).wf(),
            self.valid(old(fs)),
            inode.valid(old(fs)),
            name.spec_bytes().len() <= NAME_LENGTH_LIMIT + 1,
            old(fs).disk_inodes@[inode.inode_id as int].kind == DiskInodeType::File
                && old(fs).disk_inodes@[self.inode_id as int].kind == DiskInodeType::Directory
                ==> scan_ok(data_of(old(fs), self.inode_id), name.spec_bytes()),
            self.links(old(fs), name.spec_bytes(), inode.inode_id) ==> {
                &&& (old(fs).disk_inodes@[self.inode_id as int].size / 32 + 1) * 32 <= u32::MAX
                &&& count_free(old(fs).data_bitmap@) >= old(fs).blocks_needed(
                    self.inode_id as int,
                    (old(fs).disk_inodes@[self.inode_id as int].size / 32 + 1) * 32,
                )
                &&& old(fs).disk_inodes@[inode.inode_id as int].nlink < u32::MAX
            },
        ensures
            final(fs).wf(),
            r == if self.links(old(fs), name.spec_bytes(), inode.inode_id) { 0isize } else { -1isize },
            !self.links(old(fs), name.spec_bytes(), inode.inode_id) ==> *final(fs) == *old(fs),
            self.links(old(fs), name.spec_bytes(), inode.inode_id) ==> linked(
                *old(fs),
                *final(fs),
                self.inode_id,
                name.spec_bytes(),
                inode.inode_id,
            ),
    {
        let target = inode.inode_id;
        if fs.disk_inodes[target as usize].is_dir() {
            return -1;
        }
        if !fs.disk_inodes[self.inode_id as usize].is_dir() {
            return -1;
        }
        if self.find_index(fs, name).is_some() {
            return -1;
        }
        fs.append_entry(self.inode_id, name, target);
        let ghost mid = *fs;
        let links = fs.disk_inodes[target as usize].nlink;
        fs.set_inode_nlink(target, links + 1);
        proof {
            assert(fs.disk_inodes@[self.inode_id as int] == mid.disk_inodes@[self.inode_id as int]);
        }
        0
    }

    /// What unlinking the first record named `name` requires of the inode
    /// it names: an inode of `fs` other than this directory, with a link to
    /// drop, and, for the last one, an inode in use to free. (Neither
    /// `create` nor `create_hard_link` writes a record naming the directory
    /// itself; only bytes written into the directory by hand can, and
    /// unlinking such a record would free the directory being edited, which
    /// is left out here.)
    pub open spec fn unlink_ok(&self, fs: &EasyFileSystem, name: Seq<u8>) -> bool {
        forall|k: int| #[trigger] first_named(data_of(fs, self.inode_id), name, k) ==> {
            let t = rec_ino(record(data_of(fs, self.inode_id), k)) as int;
            &&& t < fs.disk_inodes@.len()
            &&& t != self.inode_id
            &&& fs.disk_inodes@[t].nlink >= 1
            &&& fs.disk_inodes@[t].nlink == 1 ==> fs.inode_bitmap@[t]
        }
    }

    /// Removes the first record named `name` from this directory (the last
    /// whole record is copied into its slot, and the directory shrinks by
    /// one record) and drops a link of the file it names; the last link
    /// gone, the file's blocks and inode are freed. Gives 0, or -1 (changing
    /// nothing) when this is no directory or has no such record.
    pub fn unlink_child(&self, fs: &mut EasyFileSystem, name: &str) -> (r: isize)
        requires
            old(fs).wf(),
            self.valid(old(fs)),
            old(fs).disk_inodes@[self.inode_id as int].kind == DiskInodeType::Directory
                ==> scan_ok(data_of(old(fs), self.inode_id), name.spec_bytes()),
            self.unlink_ok(old(fs), name.spec_bytes()),
        ensures
            final(fs).wf(),
            r == if old(fs).disk_inodes@[self.inode_id as int].kind == DiskInodeType::Directory
                && has_entry(data_of(old(fs), self.inode_id), name.spec_bytes()) {
                0isize
            } else {
                -1isize
            },
            r == -1 ==> *final(fs) == *old(fs),
            r == 0 ==> exists|k: int| #[trigger] first_named(data_of(old(fs), self.inode_id), name.spec_bytes(), k)
                && unlinked(*old(fs), *final(fs), self.inode_id, k),
    {
        let dir = self.inode_id;
        if !fs.disk_inodes[dir as usize].is_dir() {
            return -1;
        }
        let k = match self.find_index(fs, name) {
            Some(k) => k,
            None => {
                return -1;
            },
        };
        let ghost orig = *fs;
        let target = Self::record_ino(&fs.disk_inodes[dir as usize].data, k);
        proof {
            assert(first_named(data_of(&orig, dir), name.spec_bytes(), k as int));
            assert(orig.disk_inodes@[dir as int].wf());
        }
        fs.remove_record(dir, k);
        let links = fs.disk_inodes[target as usize].nlink - 1;
        fs.set_inode_nlink(target, links);
        let ghost s2 = *fs;
        if links == 0 {
            fs.clear_inode(target);
            fs.dealloc_inode(target);
            proof {
                assert forall|x: int| 0 <= x < orig.data_bitmap@.len() implies #[trigger] fs.data_bitmap@[x]
                    == (orig.data_bitmap@[x] && !exists|p: int| orig.holds(target as int, p)
                    && orig.block_at(target as int, p) == x + orig.data_area_start_block) by {
                    assert(fs.data_bitmap@[x] == (s2.data_bitmap@[x] && !exists|p: int| s2.holds(target as int, p)
                        && s2.block_at(target as int, p) == x + s2.data_area_start_block));
                    if exists|p: int| orig.holds(target as int, p) && orig.block_at(target as int, p) == x + orig.data_area_start_block {
                        let p = choose|p: int| orig.holds(target as int, p) && orig.block_at(target as int, p) == x + orig.data_area_start_block;
                        assert(s2.holds(target as int, p) && s2.block_at(target as int, p) == x + s2.data_area_start_block);
                    }
                    if exists|p: int| s2.holds(target as int, p) && s2.block_at(target as int, p) == x + s2.data_area_start_block {
                        let p = choose|p: int| s2.holds(target as int, p) && s2.block_at(target as int, p) == x + s2.data_area_start_block;
                        assert(orig.holds(target as int, p) && orig.block_at(target as int, p) == x + orig.data_area_start_block);
                    }
                }
            }
        }
        proof {
            assert(target != dir);
        }
        0
    }

    /// Writes `buf` into this inode at `offset`, growing it first to
    /// `offset + buf.len()` bytes taken modulo 2^32; gives the number of
    /// bytes written.
    pub fn write_at(&self, fs: &mut EasyFileSystem, offset: usize, buf: &[u8]) -> (r: usize)
        requires
            old(fs).wf(),
            self.valid(old(fs)),
            offset + buf@.len() <= usize::MAX,
            offset <= grown_size(old(fs).disk_inodes@[self.inode_id as int].size as int, offset + buf@.len()),
            count_free(old(fs).data_bitmap@) >= old(fs).blocks_needed(
                self.inode_id as int,
                (offset + buf@.len()) % 0x1_0000_0000,
            ),
        ensures
            final(fs).wf(),
            ({
                let id = self.inode_id as int;
                let o = old(fs).disk_inodes@[id];
                let size = grown_size(o.size as int, offset + buf@.len());
                &&& r == read_len(size, offset as int, buf@.len() as int)
                &&& final(fs).disk_inodes@[id].size == size
                &&& final(fs).disk_inodes@[id].data@ == written_data(o.data@, offset as int, buf@)
                &&& final(fs).disk_inodes@[id].nlink == o.nlink
                &&& final(fs).disk_inodes@[id].kind == o.kind
                &&& final(fs).disk_inodes@.len() == old(fs).disk_inodes@.len()
                &&& forall|j: int| 0 <= j < old(fs).disk_inodes@.len() && j != id ==> #[trigger] final(fs).disk_inodes@[j] == old(fs).disk_inodes@[j]
                &&& final(fs).inode_bitmap@ == old(fs).inode_bitmap@
                &&& count_free(final(fs).data_bitmap@) + old(fs).blocks_needed(id, (offset + buf@.len()) % 0x1_0000_0000)
                    == count_free(old(fs).data_bitmap@)
            }),
    {
        let id = self.inode_id;
        let end: u64 = (offset + buf.len()) as u64;
        let new_size = (end % 0x1_0000_0000) as u32;
        proof {
            assert(fs.disk_inodes@[id as int].wf());
        }
        fs.increase_size(id, new_size);
        let n = fs.write_inode(id, offset, buf);
        proof {
            assert(fs.disk_inodes@[id as int].wf());
        }
        n
    }

    /// Empties this inode and frees every block it held.
    pub fn clear(&self, fs: &mut EasyFileSystem)
        requires
            old(fs).wf(),
            self.valid(old(fs)),
        ensures
            final(fs).wf(),
            ({
                let id = self.inode_id as int;
                &&& final(fs).disk_inodes@[id].size == 0
                &&& final(fs).disk_inodes@[id].data@.len() == 0
                &&& final(fs).disk_inodes@[id].kind == old(fs).disk_inodes@[id].kind
                &&& final(fs).disk_inodes@[id].nlink == old(fs).disk_inodes@[id].nlink
                &&& final(fs).disk_inodes@.len() == old(fs).disk_inodes@.len()
                &&& forall|j: int| 0 <= j < old(fs).disk_inodes@.len() && j != id ==> #[trigger] final(fs).disk_inodes@[j] == old(fs).disk_inodes@[j]
                &&& final(fs).inode_bitmap@ == old(fs).inode_bitmap@
                &&& final(fs).data_bitmap@.len() == old(fs).data_bitmap@.len()
                &&& forall|x: int| 0 <= x < old(fs).data_bitmap@.len() ==> #[trigger] final(fs).data_bitmap@[x]
                    == (old(fs).data_bitmap@[x] && !exists|p: int| old(fs).holds(id, p)
                    && old(fs).block_at(id, p) == x + old(fs).data_area_start_block)
            }),
    {
        fs.clear_inode(self.inode_id);
    }

}

/// Reads a record's name bytes as text with `core::str::from_utf8`. The
/// bytes must be UTF-8 (the kernel's lookup panics otherwise); the text's
/// UTF-8 encoding is then the given bytes.
#[verifier::external_body]
fn utf8_name(bytes: &[u8]) -> (r: &str)
    requires
        valid_utf8(bytes@),
    ensures
        r.spec_bytes() == bytes@,
{
    core::str::from_utf8(bytes).unwrap()
}

} // verus!
