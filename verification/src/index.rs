//! Totals of an image's index: how many bytes and blocks its files hold.
use vstd::prelude::*;

use crate::signatures::ImageId;

verus! {

/// A component of a path, in the order a path lists them.
#[derive(Debug)]
pub enum PathPart {
    /// The root directory: a leading `/`.
    Root,
    /// A named component.
    Normal(String),
    /// Any other component: `..`, or a `.` that starts a relative path.
    Special,
}

/// An entry of an index: a directory, a file with the hashes of its
/// blocks, or a symbolic link with its destination.
#[derive(Debug)]
pub enum Entry {
    Dir(Vec<PathPart>),
    File { path: Vec<PathPart>, exe: bool, size: u64, hashes: Vec<Vec<u8>> },
    Link(Vec<PathPart>, String),
}

/// The bytes an entry holds: a file's size, nothing for others.
pub open spec fn entry_bytes(e: Entry) -> int {
    match e {
        Entry::File { size, .. } => size as int,
        _ => 0,
    }
}

/// The blocks an entry holds: a file's size divided by the block size,
/// rounded up; nothing for others.
pub open spec fn entry_blocks(e: Entry, block_size: int) -> int {
    match e {
        Entry::File { size, .. } => (size + block_size - 1) / block_size,
        _ => 0,
    }
}

/// The bytes of all entries.
pub open spec fn total_bytes(s: Seq<Entry>) -> int
    decreases s.len(),
{
    if s.len() == 0 {
        0
    } else {
        total_bytes(s.drop_last()) + entry_bytes(s.last())
    }
}

/// The blocks of all entries.
pub open spec fn total_blocks(s: Seq<Entry>, block_size: int) -> int
    decreases s.len(),
{
    if s.len() == 0 {
        0
    } else {
        total_blocks(s.drop_last(), block_size) + entry_blocks(s.last(), block_size)
    }
}

/// The index of an image with its totals.
pub struct IndexData {
    pub id: ImageId,
    pub hash_type: String,
    pub block_size: u64,
    pub entries: Vec<Entry>,
    pub bytes_total: u64,
    pub blocks_total: u64,
}

proof fn lemma_totals_monotone(s: Seq<Entry>, i: int, block_size: int)
    requires
        0 <= i <= s.len(),
        block_size > 0,
    ensures
        total_bytes(s.take(i)) <= total_bytes(s),
        total_blocks(s.take(i), block_size) <= total_blocks(s, block_size),
    decreases s.len() - i,
{
    if i < s.len() {
        lemma_totals_monotone(s, i + 1, block_size);
        assert(s.take(i + 1).drop_last() =~= s.take(i));
        assert(entry_blocks(s[i], block_size) >= 0) by (nonlinear_arith)
            requires
                block_size > 0,
                entry_blocks(s[i], block_size) == match s[i] {
                    Entry::File { size, .. } => (size + block_size - 1) / block_size,
                    _ => 0,
                },
        {
        }
    } else {
        assert(s.take(i) =~= s);
    }
}

/// The bytes an entry holds.
pub fn bytes(e: &Entry) -> (res: u64)
    ensures
        res == entry_bytes(*e),
{
    match e {
        Entry::File { size, .. } => *size,
        _ => 0,
    }
}

/// The blocks an entry holds.
pub fn blocks(e: &Entry, block_size: u64) -> (res: u64)
    requires
        block_size > 0,
        entry_bytes(*e) + block_size - 1 <= u64::MAX,
    ensures
        res == entry_blocks(*e, block_size as int),
{
    match e {
        Entry::File { size, .. } => {
            assert(entry_bytes(*e) == *size);
            (*size + (block_size - 1)) / block_size
        },
        _ => 0,
    }
}

impl IndexData {
    /// The index of image `id` with the given entries, and its totals.
    pub fn from_entries(id: ImageId, hash_type: String, block_size: u64, entries: Vec<Entry>)
        -> (res: IndexData)
        requires
            block_size > 0,
            forall|i: int|
                0 <= i < entries@.len() ==> entry_bytes(#[trigger] entries@[i]) + block_size - 1
                    <= u64::MAX,
            total_bytes(entries@) <= u64::MAX,
            total_blocks(entries@, block_size as int) <= u64::MAX,
        ensures
            res.id == id,
            res.hash_type == hash_type,
            res.block_size == block_size,
            res.entries == entries,
            res.bytes_total == total_bytes(entries@),
            res.blocks_total == total_blocks(entries@, block_size as int),
    {
        let mut bytes_total: u64 = 0;
        let mut blocks_total: u64 = 0;
        let n = entries.len();
        let mut i: usize = 0;
        assert(entries@.take(0) =~= Seq::<Entry>::empty());
        while i < n
            invariant
                i <= n,
                n == entries@.len(),
                block_size > 0,
                forall|j: int|
                    0 <= j < entries@.len() ==> entry_bytes(#[trigger] entries@[j]) + block_size - 1
                        <= u64::MAX,
                total_bytes(entries@) <= u64::MAX,
                total_blocks(entries@, block_size as int) <= u64::MAX,
                bytes_total == total_bytes(entries@.take(i as int)),
                blocks_total == total_blocks(entries@.take(i as int), block_size as int),
            decreases n - i,
        {
            proof {
                assert(entries@.take(i + 1).drop_last() =~= entries@.take(i as int));
                lemma_totals_monotone(entries@, i + 1, block_size as int);
            }
            bytes_total = bytes_total + bytes(&entries[i]);
            blocks_total = blocks_total + blocks(&entries[i], block_size);
            i = i + 1;
        }
        assert(entries@.take(n as int) =~= entries@);
        IndexData { id, hash_type, block_size, entries, bytes_total, blocks_total }
    }
}

} // verus!
