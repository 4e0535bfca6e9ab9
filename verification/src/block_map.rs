//! Where the blocks of a directory's files lie, so that a block can be read
//! back by its hash when a peer asks for it.
use vstd::prelude::*;

use crate::block_id::BlockHash;
use crate::index::{Entry, PathPart};
use crate::link_sources::{clone_part, same_path};

verus! {

/// Where the data of a block lies: the file (by its path below the
/// directory), the offset in it, and how many bytes the block holds.
#[derive(Debug)]
pub struct BlockPointer {
    pub path: Vec<PathPart>,
    pub offset: u64,
    pub size: u64,
}

/// The bytes of the `i`-th block of a file of `size` bytes: what is left of
/// the file from the block's offset on, at most `block_size`.
pub open spec fn block_len(size: u64, block_size: u64, i: int) -> int {
    let left = if size >= i * block_size {
        size - i * block_size
    } else {
        0
    };
    if left < block_size {
        left
    } else {
        block_size as int
    }
}

/// The blocks of an entry, each with its hash, the file's path below the
/// directory, its offset and its length: a file has one block per hash, the
/// `i`-th at offset `i * block_size`; other entries have none.
pub open spec fn entry_blocks(e: Entry, block_size: u64) -> Seq<(Seq<u8>, Seq<PathPart>, int, int)> {
    match e {
        Entry::File { path, size, hashes, .. } => Seq::new(
            hashes@.len(),
            |i: int| (hashes@[i]@, path@.skip(1), i * block_size, block_len(size, block_size, i)),
        ),
        _ => Seq::empty(),
    }
}

/// The blocks of all entries, in order.
pub open spec fn all_blocks(entries: Seq<Entry>, block_size: u64) -> Seq<
    (Seq<u8>, Seq<PathPart>, int, int),
>
    decreases entries.len(),
{
    if entries.len() == 0 {
        Seq::empty()
    } else {
        all_blocks(entries.drop_last(), block_size) + entry_blocks(entries.last(), block_size)
    }
}

/// A file entry's path starts at the root, and its blocks' offsets fit in
/// 64 bits.
pub open spec fn registrable(e: Entry, block_size: u64) -> bool {
    match e {
        Entry::File { path, hashes, .. } => path@.len() > 0 && path@[0] is Root && hashes@.len()
            * block_size <= u64::MAX,
        _ => true,
    }
}

/// `x` is the block described by `b`.
pub open spec fn is_block(x: (BlockHash, BlockPointer), b: (Seq<u8>, Seq<PathPart>, int, int)) -> bool {
    &&& x.0@ == b.0
    &&& same_path(x.1.path@, b.1)
    &&& x.1.offset == b.2
    &&& x.1.size == b.3
}

/// A block hash of another length than 32 bytes.
#[derive(Debug, Clone, Copy, PartialEq, Eq)]
pub struct HashSizeError;

/// A copy of a path without its first part.
fn path_tail(path: &Vec<PathPart>) -> (res: Vec<PathPart>)
    requires
        path@.len() > 0,
    ensures
        same_path(res@, path@.skip(1)),
{
    let mut res: Vec<PathPart> = Vec::new();
    let mut i: usize = 1;
    while i < path.len()
        invariant
            1 <= i <= path@.len(),
            res@.len() == i - 1,
            forall|j: int| 0 <= j < res@.len() ==> crate::link_sources::same_part(#[trigger] res@[j], path@[j + 1]),
        decreases path.len() - i,
    {
        let c = clone_part(&path[i]);
        res.push(c);
        i = i + 1;
    }
    res
}

/// Adds to `out` where the blocks of the entries lie (see `all_blocks`),
/// for a directory whose index lists the entries, until a block hash of
/// another length than 32 bytes, which fails.
pub fn register_blocks(
    entries: &Vec<Entry>,
    block_size: u64,
    out: &mut Vec<(BlockHash, BlockPointer)>,
) -> (res: Result<(), HashSizeError>)
    requires
        forall|i: int| 0 <= i < entries@.len() ==> registrable(#[trigger] entries@[i], block_size),
    ensures
        ({
            let bl = all_blocks(entries@, block_size);
            let k = final(out)@.len() - old(out)@.len();
            &&& 0 <= k <= bl.len()
            &&& final(out)@.take(old(out)@.len() as int) == old(out)@
            &&& forall|j: int| 0 <= j < k ==> is_block(#[trigger] final(out)@[old(out)@.len() + j], bl[j])
            &&& forall|j: int| 0 <= j < k ==> (#[trigger] bl[j]).0.len() == 32
            &&& res is Ok <==> k == bl.len()
            &&& res is Err ==> bl[k].0.len() != 32
        }),
{
    let ghost start = out@;
    let mut e: usize = 0;
    assert(entries@.take(0) =~= Seq::<Entry>::empty());
    while e < entries.len()
        invariant
            e <= entries@.len(),
            start == old(out)@,
            forall|i: int| 0 <= i < entries@.len() ==> registrable(#[trigger] entries@[i], block_size),
            out@.len() - start.len() == all_blocks(entries@.take(e as int), block_size).len(),
            out@.take(start.len() as int) == start,
            forall|j: int|
                0 <= j < out@.len() - start.len() ==> is_block(
                    #[trigger] out@[start.len() + j],
                    all_blocks(entries@.take(e as int), block_size)[j],
                ),
            forall|j: int|
                0 <= j < out@.len() - start.len() ==> (#[trigger] all_blocks(
                    entries@.take(e as int),
                    block_size,
                )[j]).0.len() == 32,
        decreases entries.len() - e,
    {
        let ghost before = all_blocks(entries@.take(e as int), block_size);
        let ghost eb = entry_blocks(entries@[e as int], block_size);
        proof {
            assert(entries@.take(e + 1).drop_last() =~= entries@.take(e as int));
            assert(entries@.take(e + 1).last() == entries@[e as int]);
            assert(all_blocks(entries@.take(e + 1), block_size) == before + eb);
        }
        match &entries[e] {
            Entry::File { path, size, hashes, .. } => {
                assert(registrable(entries@[e as int], block_size));
                let n = hashes.len();
                let mut idx: usize = 0;
                let mut left: u64 = *size;
                while idx < n
                    invariant
                        idx <= n,
                        e < entries@.len(),
                        start == old(out)@,
                        before == all_blocks(entries@.take(e as int), block_size),
                        all_blocks(entries@.take(e + 1), block_size) == before + eb,
                        n == hashes@.len(),
                        n * block_size <= u64::MAX,
                        path@.len() > 0,
                        eb == Seq::new(
                            hashes@.len(),
                            |i: int| (hashes@[i]@, path@.skip(1), i * block_size, block_len(*size, block_size, i)),
                        ),
                        left == (if *size >= idx * block_size {
                            *size - idx * block_size
                        } else {
                            0
                        }),
                        out@.len() - start.len() == before.len() + idx,
                        out@.take(start.len() as int) == start,
                        forall|j: int|
                            0 <= j < out@.len() - start.len() ==> is_block(
                                #[trigger] out@[start.len() + j],
                                (before + eb)[j],
                            ),
                        forall|j: int|
                            0 <= j < out@.len() - start.len() ==> (#[trigger] (before + eb)[j]).0.len()
                                == 32,
                    decreases n - idx,
                {
                    assert((before + eb)[before.len() + idx] == eb[idx as int]);
                    match BlockHash::from_bytes(hashes[idx].as_slice()) {
                        Some(id) => {
                            assert(idx * block_size <= n * block_size) by (nonlinear_arith)
                                requires
                                    idx <= n,
                            ;
                            let offset = idx as u64 * block_size;
                            let bsize = if left < block_size {
                                left
                            } else {
                                block_size
                            };
                            let ghost old_out = out@;
                            out.push((id, BlockPointer { path: path_tail(path), offset, size: bsize }));
                            proof {
                                assert(out@.take(start.len() as int) =~= old_out.take(start.len() as int));
                                assert forall|j: int| 0 <= j < out@.len() - start.len() implies is_block(
                                    #[trigger] out@[start.len() + j],
                                    (before + eb)[j],
                                ) by {
                                    if j < old_out.len() - start.len() {
                                        assert(out@[start.len() + j] == old_out[start.len() + j]);
                                    }
                                }
                                assert forall|j: int| 0 <= j < out@.len() - start.len() implies (
                                #[trigger] (before + eb)[j]).0.len() == 32 by {
                                    if j == before.len() + idx {
                                        id.lemma_len();
                                    }
                                }
                                assert((idx + 1) * block_size == idx * block_size + block_size)
                                    by (nonlinear_arith);
                            }
                            left = if left > block_size {
                                left - block_size
                            } else {
                                0
                            };
                        },
                        None => {
                            proof {
                                lemma_all_blocks_prefix(entries@, e + 1, block_size);
                                let bl = all_blocks(entries@, block_size);
                                let c = all_blocks(entries@.take(e + 1), block_size);
                                assert forall|j: int| 0 <= j < out@.len() - start.len() implies is_block(
                                    #[trigger] out@[start.len() + j],
                                    bl[j],
                                ) by {
                                    assert(bl[j] == c[j]);
                                }
                                assert forall|j: int| 0 <= j < out@.len() - start.len() implies (
                                #[trigger] bl[j]).0.len() == 32 by {
                                    assert(bl[j] == c[j]);
                                }
                                assert(bl[before.len() + idx] == c[before.len() + idx]);
                            }
                            return Err(HashSizeError);
                        },
                    }
                    idx = idx + 1;
                }
                assert(before + eb =~= all_blocks(entries@.take(e + 1), block_size));
            },
            _ => {
                assert(eb =~= Seq::<(Seq<u8>, Seq<PathPart>, int, int)>::empty());
                assert(before + eb =~= before);
            },
        }
        e = e + 1;
    }
    assert(entries@.take(entries@.len() as int) =~= entries@);
    Ok(())
}

/// The blocks of the first entries come first among the blocks of all.
proof fn lemma_all_blocks_prefix(entries: Seq<Entry>, k: int, block_size: u64)
    requires
        0 <= k <= entries.len(),
    ensures
        all_blocks(entries, block_size).len() >= all_blocks(entries.take(k), block_size).len(),
        forall|j: int|
            0 <= j < all_blocks(entries.take(k), block_size).len() ==> all_blocks(entries, block_size)[j]
                == #[trigger] all_blocks(entries.take(k), block_size)[j],
    decreases entries.len() - k,
{
    if k < entries.len() {
        lemma_all_blocks_prefix(entries, k + 1, block_size);
        assert(entries.take(k + 1).drop_last() =~= entries.take(k));
        assert(entries.take(k + 1).last() == entries[k]);
        let a = all_blocks(entries.take(k), block_size);
        let b = all_blocks(entries.take(k + 1), block_size);
        assert(b == a + entry_blocks(entries[k], block_size));
        assert forall|j: int| 0 <= j < a.len() implies all_blocks(entries, block_size)[j] == #[trigger] a[j] by {
            assert(b[j] == a[j]);
        }
    } else {
        assert(entries.take(k) =~= entries);
    }
}

} // verus!
