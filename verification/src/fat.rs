//! The File Allocation Table: loading a bounded snapshot, looking up
//! chain links, and reading clusters of the data region.

use crate::boot_sector::BootSector;
use crate::disk::read_at;
use crate::helpers::{spec_le32, u8_to_u32_le};
use vstd::prelude::*;
use vstd::slice::slice_subrange;

verus! {

/// At most this many bytes of the on-disk FAT are loaded; chains that
/// reach beyond the prefix resolve as ended.
pub const FAT_MAX_SIZE: usize = 65536;

/// Largest supported cluster size in bytes.
pub const CLUSTER_MAX_SIZE: usize = 65536;

/// Cluster size in bytes: bytes per sector times sectors per cluster.
pub open spec fn spec_cluster_size(bs: BootSector) -> int {
    bs.bytes_per_sector * bs.sectors_per_cluster
}

/// How many FAT bytes `load_fat` reads: the on-disk FAT size, capped at
/// `FAT_MAX_SIZE`.
pub open spec fn spec_fat_read_size(bs: BootSector) -> int {
    let fat_bytes = bs.fat_size_sectors * bs.bytes_per_sector;
    if fat_bytes < FAT_MAX_SIZE as int {
        fat_bytes
    } else {
        FAT_MAX_SIZE as int
    }
}

/// The FAT entry for `cluster`: its 4-byte little-endian slot masked to
/// 28 bits, or the end-of-chain marker where the slot lies beyond the
/// loaded snapshot.
pub open spec fn spec_fat_entry(fat: Seq<u8>, cluster: u32) -> u32 {
    if 4 * cluster + 4 > fat.len() {
        0x0FFFFFFFu32
    } else {
        (spec_le32(fat, 4 * cluster) as u32) & 0x0FFFFFFF
    }
}

/// Masked FAT values at or above 0x0FFFFFF8 end a chain.
pub open spec fn spec_is_end_cluster(cluster: u32) -> bool {
    cluster >= 0x0FFFFFF8
}

/// Offset of `cluster`'s data within the image: clusters number the data
/// region from 2.
pub open spec fn spec_cluster_off(data_start: int, cs: int, cluster: u32) -> int {
    data_start + (cluster - 2) * cs
}

/// Whether `cluster` addresses `cs` bytes that lie wholly inside the
/// image.
pub open spec fn spec_cluster_readable(img: Seq<u8>, data_start: int, cs: int, cluster: u32) -> bool {
    cluster >= 2 && 0 <= spec_cluster_off(data_start, cs, cluster) && spec_cluster_off(
        data_start,
        cs,
        cluster,
    ) + cs <= img.len()
}

/// The `cs` bytes of `cluster`'s data.
pub open spec fn spec_cluster_data(img: Seq<u8>, data_start: int, cs: int, cluster: u32) -> Seq<u8> {
    img.subrange(
        spec_cluster_off(data_start, cs, cluster),
        spec_cluster_off(data_start, cs, cluster) + cs,
    )
}

/// Looks up the chain link for `cluster` in the FAT snapshot.
pub fn fat_entry(fat_buf: &[u8], cluster: u32) -> (r: u32)
    ensures
        r == spec_fat_entry(fat_buf@, cluster),
{
    let off: u64 = cluster as u64 * 4;
    if off + 4 > fat_buf.len() as u64 {
        return 0x0FFFFFFF;
    }
    let idx = off as usize;
    let v = u8_to_u32_le(slice_subrange(fat_buf, idx, idx + 4));
    v & 0x0FFFFFFF
}

/// True iff a masked FAT value marks the end of a chain.
pub fn is_end_cluster(cluster: u32) -> (r: bool)
    ensures
        r == spec_is_end_cluster(cluster),
{
    cluster >= 0x0FFFFFF8
}

/// Loads the FAT snapshot: the on-disk FAT, truncated to `FAT_MAX_SIZE`
/// bytes.  Fails exactly when the snapshot does not fit in the image.
pub fn load_fat(img: &[u8], bs: &BootSector, fat_start: usize) -> (r: Option<Vec<u8>>)
    ensures
        match r {
            Some(b) => fat_start + spec_fat_read_size(*bs) <= img@.len() && b@ == img@.subrange(
                fat_start as int,
                fat_start + spec_fat_read_size(*bs),
            ),
            None => fat_start + spec_fat_read_size(*bs) > img@.len(),
        },
{
    proof {
        assert(bs.fat_size_sectors as int * bs.bytes_per_sector as int <= 0xFFFFFFFF * 0xFFFF)
            by (nonlinear_arith)
            requires
                bs.fat_size_sectors as int <= 0xFFFFFFFF,
                bs.bytes_per_sector as int <= 0xFFFF,
        ;
    }
    let fat_size_bytes: u64 = bs.fat_size_sectors as u64 * bs.bytes_per_sector as u64;
    let read_size: usize = if fat_size_bytes < FAT_MAX_SIZE as u64 {
        fat_size_bytes as usize
    } else {
        FAT_MAX_SIZE
    };
    read_at(img, fat_start, read_size)
}

/// Clusters 0 and 1 are reserved and never addressable: whatever the
/// image, geometry and offsets, a cluster below 2 is unreadable, so
/// `read_cluster` fails on it.
pub proof fn lemma_reserved_clusters_unreadable(
    img: Seq<u8>,
    data_start: int,
    cs: int,
    cluster: u32,
)
    requires
        cluster < 2,
    ensures
        !spec_cluster_readable(img, data_start, cs, cluster),
{
}

/// Reads one cluster's worth of data.  Clusters below 2 are reserved and
/// always fail; otherwise the read succeeds exactly when the cluster's
/// data lies wholly inside the image.
pub fn read_cluster(img: &[u8], bs: &BootSector, data_start: usize, cluster: u32) -> (r: Option<
    Vec<u8>,
>)
    ensures
        match r {
            Some(b) => spec_cluster_readable(
                img@,
                data_start as int,
                spec_cluster_size(*bs),
                cluster,
            ) && b@ == spec_cluster_data(img@, data_start as int, spec_cluster_size(*bs), cluster),
            None => !spec_cluster_readable(img@, data_start as int, spec_cluster_size(*bs), cluster),
        },
{
    if cluster < 2 {
        return None;
    }
    proof {
        assert(bs.bytes_per_sector as int * bs.sectors_per_cluster as int <= 0xFFFF * 0xFF)
            by (nonlinear_arith)
            requires
                bs.bytes_per_sector as int <= 0xFFFF,
                bs.sectors_per_cluster as int <= 0xFF,
        ;
    }
    let cs: u64 = bs.bytes_per_sector as u64 * bs.sectors_per_cluster as u64;
    let idx: u64 = (cluster - 2) as u64;
    proof {
        assert(idx as int * cs as int <= 0xFFFFFFFF * 0xFFFFFF) by (nonlinear_arith)
            requires
                idx as int <= 0xFFFFFFFF,
                cs as int <= 0xFFFFFF,
        ;
    }
    let off: u128 = data_start as u128 + idx as u128 * cs as u128;
    let end: u128 = off + cs as u128;
    if end > img.len() as u128 {
        return None;
    }
    read_at(img, off as usize, cs as usize)
}

} // verus!
