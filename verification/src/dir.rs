//! Directory entries: 8.3 short-name decoding, decoding of 32-byte
//! records, and iteration over a directory's whole cluster chain.

use crate::boot_sector::BootSector;
use crate::fat::{
    fat_entry, is_end_cluster, load_fat, read_cluster, spec_cluster_data, spec_cluster_readable,
    spec_cluster_size, spec_fat_entry, spec_fat_read_size, spec_is_end_cluster, CLUSTER_MAX_SIZE,
};
use crate::helpers::{spec_le16, spec_le32, u8_le_to_u16, u8_to_u32_le};
use vstd::prelude::*;
use vstd::slice::{slice_subrange, slice_to_vec};

verus! {

/// A directory walk gives up after this many clusters.  The FAT snapshot
/// holds fewer than this many entries, so a walk this long must have
/// revisited some cluster and would otherwise never end.
pub const MAX_CHAIN_CLUSTERS: usize = 16386;

/// Space byte, the 8.3 name padding.
pub const PAD: u8 = 32;

/// Spec-level image of one accepted directory entry.
pub struct EntryView {
    pub name: Seq<u8>,
    pub ext: Seq<u8>,
    pub attributes: u8,
    pub start_cluster: u32,
    pub file_size: u32,
    pub last_in_cluster: bool,
}

/// One decoded 32-byte directory record: the raw 8-byte name and 3-byte
/// extension, the attribute byte, the composite starting cluster, the
/// file size, and whether the record sat in the last slot of its
/// cluster.
pub struct DirEntry {
    pub name: Vec<u8>,
    pub ext: Vec<u8>,
    pub attributes: u8,
    pub start_cluster: u32,
    pub file_size: u32,
    pub last_in_cluster: bool,
}

impl View for DirEntry {
    type V = EntryView;

    open spec fn view(&self) -> EntryView {
        EntryView {
            name: self.name@,
            ext: self.ext@,
            attributes: self.attributes,
            start_cluster: self.start_cluster,
            file_size: self.file_size,
            last_in_cluster: self.last_in_cluster,
        }
    }
}

/// The views of a sequence of decoded entries.
pub open spec fn entry_views(es: Seq<DirEntry>) -> Seq<EntryView> {
    es.map_values(|e: DirEntry| e@)
}

/// `s` with its trailing space padding removed.
pub open spec fn spec_trim_spaces(s: Seq<u8>) -> Seq<u8>
    decreases s.len(),
{
    if s.len() > 0 && s[s.len() - 1] == PAD {
        spec_trim_spaces(s.drop_last())
    } else {
        s
    }
}

/// The printable form of an 8.3 name: the trimmed name, joined to the
/// trimmed extension by a dot only when the extension is non-empty.
pub open spec fn spec_short_name(name: Seq<u8>, ext: Seq<u8>) -> Seq<u8> {
    let n = spec_trim_spaces(name);
    let e = spec_trim_spaces(ext);
    if e.len() > 0 {
        n + seq![46u8] + e
    } else {
        n
    }
}

/// The fields `parse_dir_entry` decodes from one 32-byte record.
pub open spec fn spec_entry_of(rec: Seq<u8>, last: bool) -> EntryView {
    EntryView {
        name: rec.subrange(0, 8),
        ext: rec.subrange(8, 11),
        attributes: rec[11],
        start_cluster: (spec_le16(rec, 20) * 65536 + spec_le16(rec, 26)) as u32,
        file_size: spec_le32(rec, 28) as u32,
        last_in_cluster: last,
    }
}

/// A 0x00 first byte marks the end of the whole directory.
pub open spec fn spec_entry_end(rec: Seq<u8>) -> bool {
    rec[0] == 0
}

/// Records that are skipped rather than reported: deleted entries,
/// long-file-name fragments and volume labels.
pub open spec fn spec_entry_skipped(rec: Seq<u8>) -> bool {
    rec[0] == 0xE5 || rec[11] & 0x0F == 0x0F || rec[11] & 0x08 != 0
}

/// The 32-byte record at slot `i` of a cluster's data.
pub open spec fn spec_record(data: Seq<u8>, i: int) -> Seq<u8> {
    data.subrange(32 * i, 32 * i + 32)
}

/// Scanning slots `i..n` of one cluster: the entries accepted, and
/// whether a 0x00 first byte ended the directory inside this cluster.
/// An accepted entry is flagged as last in its cluster exactly when no
/// later slot of the cluster, before a 0x00 end record, is reported.
pub open spec fn spec_scan_records(data: Seq<u8>, n: int, i: int) -> (Seq<EntryView>, bool)
    decreases n - i,
{
    if i < 0 || i >= n {
        (Seq::empty(), false)
    } else {
        let rec = spec_record(data, i);
        if spec_entry_end(rec) {
            (Seq::empty(), true)
        } else {
            let rest = spec_scan_records(data, n, i + 1);
            if spec_entry_skipped(rec) {
                rest
            } else {
                (seq![spec_entry_of(rec, rest.0.len() == 0)] + rest.0, rest.1)
            }
        }
    }
}

/// The chain walk from `cluster`: each cluster's accepted records in
/// slot order, cluster after cluster, until a 0x00 record, an
/// end-of-chain link or a zero link — and whether the walk completed.
/// The walk is cut short, with the entries read so far kept, by a
/// cluster that cannot be read or by running out of fuel (a chain
/// longer than the FAT snapshot can describe, which must have looped).
pub open spec fn spec_walk_dir(
    img: Seq<u8>,
    data_start: int,
    cs: int,
    fat: Seq<u8>,
    cluster: u32,
    fuel: nat,
) -> (Seq<EntryView>, bool)
    decreases fuel,
{
    if spec_is_end_cluster(cluster) {
        (Seq::empty(), true)
    } else if fuel == 0 {
        (Seq::empty(), false)
    } else if !spec_cluster_readable(img, data_start, cs, cluster) {
        (Seq::empty(), false)
    } else {
        let scan = spec_scan_records(spec_cluster_data(img, data_start, cs, cluster), cs / 32, 0);
        if scan.1 {
            (scan.0, true)
        } else {
            let next = spec_fat_entry(fat, cluster);
            if next == 0 || spec_is_end_cluster(next) {
                (scan.0, true)
            } else {
                let rest = spec_walk_dir(img, data_start, cs, fat, next, (fuel - 1) as nat);
                (scan.0 + rest.0, rest.1)
            }
        }
    }
}

/// What `iterate_dir_entries` yields: the entries read before the
/// directory's end or the first failure, and whether iteration
/// completed.  A rejected geometry, a start cluster below 2 or an
/// unloadable FAT yield no entries and no completion.
pub open spec fn spec_iterate(
    img: Seq<u8>,
    bs: BootSector,
    fat_start: int,
    data_start: int,
    start_cluster: u32,
) -> (Seq<EntryView>, bool) {
    let cs = spec_cluster_size(bs);
    if cs == 0 || cs > CLUSTER_MAX_SIZE as int || start_cluster < 2 {
        (Seq::empty(), false)
    } else if fat_start + spec_fat_read_size(bs) > img.len() {
        (Seq::empty(), false)
    } else {
        spec_walk_dir(
            img,
            data_start,
            cs,
            img.subrange(fat_start, fat_start + spec_fat_read_size(bs)),
            start_cluster,
            MAX_CHAIN_CLUSTERS as nat,
        )
    }
}

/// A directory whose first record begins with 0x00 ends at once: the
/// walk yields no entries and completes without consulting the chain —
/// whatever the FAT links to and whether any later cluster could be
/// read.
pub proof fn lemma_end_record_stops_walk(
    img: Seq<u8>,
    data_start: int,
    cs: int,
    fat: Seq<u8>,
    cluster: u32,
    fuel: nat,
)
    requires
        !spec_is_end_cluster(cluster),
        fuel > 0,
        cs >= 32,
        spec_cluster_readable(img, data_start, cs, cluster),
        spec_cluster_data(img, data_start, cs, cluster)[0] == 0,
    ensures
        spec_walk_dir(img, data_start, cs, fat, cluster, fuel) == (Seq::<EntryView>::empty(), true),
{
    let data = spec_cluster_data(img, data_start, cs, cluster);
    assert(spec_record(data, 0)[0] == data[0]);
    assert(cs / 32 >= 1);
}

/// Decodes the printable form of an 8.3 name: trims the space padding
/// from name and extension and joins them with a dot only when the
/// extension is non-empty.
pub fn build_short_name(name: &[u8], ext: &[u8]) -> (r: Vec<u8>)
    ensures
        r@ == spec_short_name(name@, ext@),
{
    let mut out: Vec<u8> = Vec::new();

    let mut name_end: usize = name.len();
    proof {
        assert(name@.take(name@.len() as int) =~= name@);
    }
    while name_end > 0 && name[name_end - 1] == PAD
        invariant
            name_end <= name@.len(),
            spec_trim_spaces(name@) == spec_trim_spaces(name@.take(name_end as int)),
        decreases name_end,
    {
        proof {
            assert(name@.take(name_end as int).drop_last() =~= name@.take(name_end - 1));
        }
        name_end = name_end - 1;
    }

    let mut j: usize = 0;
    while j < name_end
        invariant
            name_end <= name@.len(),
            j <= name_end,
            out@ == name@.take(j as int),
        decreases name_end - j,
    {
        proof {
            assert(name@.take(j + 1) =~= name@.take(j as int).push(name@[j as int]));
        }
        out.push(name[j]);
        j = j + 1;
    }

    let mut ext_end: usize = ext.len();
    proof {
        assert(ext@.take(ext@.len() as int) =~= ext@);
    }
    while ext_end > 0 && ext[ext_end - 1] == PAD
        invariant
            ext_end <= ext@.len(),
            spec_trim_spaces(ext@) == spec_trim_spaces(ext@.take(ext_end as int)),
        decreases ext_end,
    {
        proof {
            assert(ext@.take(ext_end as int).drop_last() =~= ext@.take(ext_end - 1));
        }
        ext_end = ext_end - 1;
    }

    if ext_end > 0 {
        out.push(46);
        proof {
            assert(name@.take(name_end as int).push(46u8) =~= name@.take(name_end as int) + seq![
                46u8,
            ]);
        }
        let ghost head = name@.take(name_end as int) + seq![46u8];
        let mut k: usize = 0;
        while k < ext_end
            invariant
                ext_end <= ext@.len(),
                k <= ext_end,
                out@ == head + ext@.take(k as int),
            decreases ext_end - k,
        {
            proof {
                assert(head + ext@.take(k + 1) =~= (head + ext@.take(k as int)).push(
                    ext@[k as int],
                ));
            }
            out.push(ext[k]);
            k = k + 1;
        }
    }
    out
}

/// Decodes one 32-byte directory record.
pub fn parse_dir_entry(rec: &[u8], last: bool) -> (e: DirEntry)
    requires
        rec@.len() == 32,
    ensures
        e@ == spec_entry_of(rec@, last),
{
    let hi = u8_le_to_u16(slice_subrange(rec, 20, 22));
    let lo = u8_le_to_u16(slice_subrange(rec, 26, 28));
    DirEntry {
        name: slice_to_vec(slice_subrange(rec, 0, 8)),
        ext: slice_to_vec(slice_subrange(rec, 8, 11)),
        attributes: rec[11],
        start_cluster: hi as u32 * 65536 + lo as u32,
        file_size: u8_to_u32_le(slice_subrange(rec, 28, 32)),
        last_in_cluster: last,
    }
}

/// Scans slots `i..n` of one cluster, mirroring `spec_scan_records`:
/// the accepted entries, and whether a 0x00 record ended the directory.
/// The recursion looks ahead, so each entry's last-in-cluster flag says
/// whether any later slot of the cluster is reported.
fn scan_records(data: &Vec<u8>, n: usize, i: usize) -> (r: (Vec<DirEntry>, bool))
    requires
        32 * n <= data@.len(),
        i <= n,
    ensures
        entry_views(r.0@) == spec_scan_records(data@, n as int, i as int).0,
        r.1 == spec_scan_records(data@, n as int, i as int).1,
    decreases n - i,
{
    if i >= n {
        let r: (Vec<DirEntry>, bool) = (Vec::new(), false);
        proof {
            assert(entry_views(r.0@) =~= Seq::<EntryView>::empty());
        }
        return r;
    }
    let dlen: usize = data.len();
    proof {
        assert(32 * (i as int) + 32 <= 32 * (n as int));
        assert(32 * (n as int) <= dlen);
    }
    let off: usize = 32 * i;
    let first = data[off];
    let ghost rec = spec_record(data@, i as int);
    proof {
        assert(rec[0] == data@[32 * i]);
        assert(rec[11] == data@[32 * i + 11]);
    }
    if first == 0x00 {
        let r: (Vec<DirEntry>, bool) = (Vec::new(), true);
        proof {
            assert(entry_views(r.0@) =~= Seq::<EntryView>::empty());
        }
        return r;
    }
    let attr = data[off + 11];
    let (mut rest, stopped) = scan_records(data, n, i + 1);
    if first != 0xE5 && attr & 0x0F != 0x0F && attr & 0x08 == 0 {
        let ghost restv = rest@;
        proof {
            assert(entry_views(restv).len() == restv.len());
        }
        let last = rest.len() == 0;
        let e = parse_dir_entry(slice_subrange(data.as_slice(), off, off + 32), last);
        let ghost ev = e@;
        let mut es: Vec<DirEntry> = Vec::new();
        es.push(e);
        es.append(&mut rest);
        proof {
            assert(entry_views(es@) =~= seq![ev] + entry_views(restv));
        }
        (es, stopped)
    } else {
        (rest, stopped)
    }
}

/// Scans one cluster's slots in order, appending the accepted entries,
/// and reports whether a 0x00 record ended the directory here.
fn scan_cluster(data: &Vec<u8>, entries_per_cluster: usize, result: &mut Vec<DirEntry>) -> (stopped:
    bool)
    requires
        32 * entries_per_cluster <= data@.len(),
    ensures
        ({
            let scan = spec_scan_records(data@, entries_per_cluster as int, 0);
            entry_views(final(result)@) == entry_views(old(result)@) + scan.0 && stopped == scan.1
        }),
{
    let (mut es, stopped) = scan_records(data, entries_per_cluster, 0);
    let ghost esv = es@;
    result.append(&mut es);
    proof {
        assert(entry_views(old(result)@ + esv) =~= entry_views(old(result)@) + entry_views(esv));
    }
    stopped
}

/// Walks the cluster chain of the directory at `start_cluster` and
/// collects every reportable entry read before the directory's end or
/// the first failure, in on-disk order, together with whether the walk
/// completed: an unreadable cluster, a rejected geometry, a start
/// cluster below 2, an unloadable FAT or a chain so long it must loop
/// cut the walk short, keeping the entries already read.
pub fn iterate_dir_entries(
    img: &[u8],
    bs: &BootSector,
    fat_start: usize,
    data_start: usize,
    start_cluster: u32,
) -> (r: (Vec<DirEntry>, bool))
    ensures
        entry_views(r.0@) == spec_iterate(
            img@,
            *bs,
            fat_start as int,
            data_start as int,
            start_cluster,
        ).0,
        r.1 == spec_iterate(img@, *bs, fat_start as int, data_start as int, start_cluster).1,
{
    proof {
        assert(bs.bytes_per_sector as int * bs.sectors_per_cluster as int <= 0xFFFF * 0xFF)
            by (nonlinear_arith)
            requires
                bs.bytes_per_sector as int <= 0xFFFF,
                bs.sectors_per_cluster as int <= 0xFF,
        ;
    }
    let cs_u64: u64 = bs.bytes_per_sector as u64 * bs.sectors_per_cluster as u64;
    if cs_u64 == 0 || cs_u64 > CLUSTER_MAX_SIZE as u64 {
        let r: (Vec<DirEntry>, bool) = (Vec::new(), false);
        proof {
            assert(entry_views(r.0@) =~= Seq::<EntryView>::empty());
        }
        return r;
    }
    let cluster_size: usize = cs_u64 as usize;
    if start_cluster < 2 {
        let r: (Vec<DirEntry>, bool) = (Vec::new(), false);
        proof {
            assert(entry_views(r.0@) =~= Seq::<EntryView>::empty());
        }
        return r;
    }
    let fat_buf = match load_fat(img, bs, fat_start) {
        Some(b) => b,
        None => {
            let r: (Vec<DirEntry>, bool) = (Vec::new(), false);
            proof {
                assert(entry_views(r.0@) =~= Seq::<EntryView>::empty());
            }
            return r;
        },
    };
    let ghost fat = fat_buf@;
    let entries_per_cluster: usize = cluster_size / 32;

    let mut result: Vec<DirEntry> = Vec::new();
    let mut cluster: u32 = start_cluster;
    let mut steps: usize = 0;
    let ghost full = spec_walk_dir(
        img@,
        data_start as int,
        cluster_size as int,
        fat,
        start_cluster,
        MAX_CHAIN_CLUSTERS as nat,
    );

    loop
        invariant
            steps <= MAX_CHAIN_CLUSTERS,
            cluster_size == spec_cluster_size(*bs),
            1 <= cluster_size <= CLUSTER_MAX_SIZE,
            entries_per_cluster == cluster_size as int / 32,
            fat == fat_buf@,
            spec_iterate(img@, *bs, fat_start as int, data_start as int, start_cluster) == full,
            full.0 == entry_views(result@) + spec_walk_dir(
                img@,
                data_start as int,
                cluster_size as int,
                fat,
                cluster,
                (MAX_CHAIN_CLUSTERS - steps) as nat,
            ).0,
            full.1 == spec_walk_dir(
                img@,
                data_start as int,
                cluster_size as int,
                fat,
                cluster,
                (MAX_CHAIN_CLUSTERS - steps) as nat,
            ).1,
        decreases MAX_CHAIN_CLUSTERS - steps,
    {
        if is_end_cluster(cluster) {
            proof {
                assert(entry_views(result@) + Seq::<EntryView>::empty() =~= entry_views(result@));
            }
            return (result, true);
        }
        if steps == MAX_CHAIN_CLUSTERS {
            proof {
                assert(entry_views(result@) + Seq::<EntryView>::empty() =~= entry_views(result@));
            }
            return (result, false);
        }
        let data = match read_cluster(img, bs, data_start, cluster) {
            Some(d) => d,
            None => {
                proof {
                    assert(entry_views(result@) + Seq::<EntryView>::empty() =~= entry_views(
                        result@,
                    ));
                }
                return (result, false);
            },
        };
        proof {
            assert(32 * entries_per_cluster <= cluster_size);
        }
        let ghost before = entry_views(result@);
        let stopped = scan_cluster(&data, entries_per_cluster, &mut result);
        proof {
            assert(data@ == spec_cluster_data(
                img@,
                data_start as int,
                cluster_size as int,
                cluster,
            ));
        }
        if stopped {
            return (result, true);
        }
        let next = fat_entry(fat_buf.as_slice(), cluster);
        if next == 0 || is_end_cluster(next) {
            return (result, true);
        }
        proof {
            let scan0 = spec_scan_records(
                spec_cluster_data(img@, data_start as int, cluster_size as int, cluster),
                cluster_size as int / 32,
                0,
            ).0;
            let rest = spec_walk_dir(
                img@,
                data_start as int,
                cluster_size as int,
                fat,
                next,
                (MAX_CHAIN_CLUSTERS - steps - 1) as nat,
            ).0;
            assert(before + (scan0 + rest) =~= (before + scan0) + rest);
        }
        cluster = next;
        steps = steps + 1;
    }
}

} // verus!
