//! Path resolution and the operations the command surface exposes:
//! listing a directory, changing directory, and streaming a file.

use crate::boot_sector::BootSector;
use crate::cli::{
    print_bytes, print_line, print_ls, reset_cli, spec_line_output, spec_ls_line, spec_reset_output,
};
use crate::dir::{
    build_short_name, entry_views, iterate_dir_entries, spec_iterate, spec_short_name, DirEntry,
    EntryView,
};
use crate::fat::{
    fat_entry, is_end_cluster, load_fat, read_cluster, spec_cluster_data, spec_cluster_readable,
    spec_cluster_size, spec_fat_entry, spec_fat_read_size, spec_is_end_cluster, CLUSTER_MAX_SIZE,
};
use crate::helpers::{spec_lower, to_lowercase_ascii};
use vstd::prelude::*;
use vstd::slice::slice_subrange;

verus! {

/// Path separator byte.
pub const SLASH: u8 = 47;

/// Dot byte, for the `.` and `..` components.
pub const DOT: u8 = 46;

/// Which records are eligible when a component is looked up: any record
/// for `..`, directories while walking, files for the final component of
/// a file path.
#[derive(Clone, Copy)]
pub enum EntryFilter {
    Any,
    DirectoriesOnly,
    FilesOnly,
}

/// The name an entry is found under: its decoded 8.3 form, lower-cased.
pub open spec fn spec_entry_name(e: EntryView) -> Seq<u8> {
    spec_lower(spec_short_name(e.name, e.ext))
}

/// The directory attribute bit.
pub open spec fn spec_entry_is_dir(e: EntryView) -> bool {
    e.attributes & 0x10 != 0
}

/// Whether the filter admits an entry.
pub open spec fn spec_filter_admits(f: EntryFilter, e: EntryView) -> bool {
    match f {
        EntryFilter::Any => true,
        EntryFilter::DirectoriesOnly => spec_entry_is_dir(e),
        EntryFilter::FilesOnly => !spec_entry_is_dir(e),
    }
}

/// The first admitted entry whose name equals `lower_comp`, a
/// lower-cased component.  Comparison is length-exact and byte-exact.
pub open spec fn spec_find_entry(es: Seq<EntryView>, lower_comp: Seq<u8>, f: EntryFilter) -> Option<
    EntryView,
>
    decreases es.len(),
{
    if es.len() == 0 {
        None
    } else if spec_filter_admits(f, es[0]) && spec_entry_name(es[0]) == lower_comp {
        Some(es[0])
    } else {
        spec_find_entry(es.drop_first(), lower_comp, f)
    }
}

/// Byte-wise equality of two slices.
fn bytes_equal(a: &[u8], b: &[u8]) -> (r: bool)
    ensures
        r == (a@ == b@),
{
    if a.len() != b.len() {
        return false;
    }
    let n = a.len();
    let mut i: usize = 0;
    while i < n
        invariant
            n == a@.len(),
            n == b@.len(),
            i <= n,
            forall|j: int| 0 <= j < i ==> a@[j] == b@[j],
        decreases n - i,
    {
        if a[i] != b[i] {
            return false;
        }
        i = i + 1;
    }
    proof {
        assert(a@ =~= b@);
    }
    true
}

/// Finds the first admitted entry named `lower_comp` and hands back its
/// starting cluster and file size.
fn find_entry(es: &Vec<DirEntry>, lower_comp: &[u8], f: EntryFilter) -> (r: Option<(u32, u32)>)
    ensures
        (match spec_find_entry(entry_views(es@), lower_comp@, f) {
            Some(e) => r == Some((e.start_cluster, e.file_size)),
            None => r is None,
        }),
{
    let n = es.len();
    let mut i: usize = 0;
    proof {
        assert(entry_views(es@).skip(0) =~= entry_views(es@));
    }
    while i < n
        invariant
            n == es@.len(),
            i <= n,
            spec_find_entry(entry_views(es@), lower_comp@, f) == spec_find_entry(
                entry_views(es@).skip(i as int),
                lower_comp@,
                f,
            ),
        decreases n - i,
    {
        let ghost vs = entry_views(es@);
        proof {
            assert(vs.skip(i as int)[0] == vs[i as int]);
            assert(vs[i as int] == es@[i as int]@);
            assert(vs.skip(i as int).drop_first() =~= vs.skip(i + 1));
        }
        let admitted: bool = match f {
            EntryFilter::Any => true,
            EntryFilter::DirectoriesOnly => es[i].attributes & 0x10 != 0,
            EntryFilter::FilesOnly => es[i].attributes & 0x10 == 0,
        };
        if admitted {
            let decoded = build_short_name(es[i].name.as_slice(), es[i].ext.as_slice());
            let mut lower: Vec<u8> = Vec::new();
            to_lowercase_ascii(decoded.as_slice(), &mut lower);
            if bytes_equal(lower.as_slice(), lower_comp) {
                return Some((es[i].start_cluster, es[i].file_size));
            }
        }
        i = i + 1;
    }
    None
}

/// One lookup: the readable entries of the directory at `wc`, searched
/// for `lower_comp`.  A match found before an unreadable cluster
/// resolves; a name that is absent from what could be read does not.
pub open spec fn spec_lookup(
    img: Seq<u8>,
    bs: BootSector,
    fat_start: int,
    data_start: int,
    wc: u32,
    lower_comp: Seq<u8>,
    f: EntryFilter,
) -> Option<EntryView> {
    spec_find_entry(spec_iterate(img, bs, fat_start, data_start, wc).0, lower_comp, f)
}

/// Iterates the directory at `wc` and finds `lower_comp` under the
/// filter.
fn lookup_entry(
    img: &[u8],
    bs: &BootSector,
    fat_start: usize,
    data_start: usize,
    wc: u32,
    lower_comp: &[u8],
    f: EntryFilter,
) -> (r: Option<(u32, u32)>)
    ensures
        (match spec_lookup(img@, *bs, fat_start as int, data_start as int, wc, lower_comp@, f) {
            Some(e) => r == Some((e.start_cluster, e.file_size)),
            None => r is None,
        }),
{
    let (es, _completed) = iterate_dir_entries(img, bs, fat_start, data_start, wc);
    find_entry(&es, lower_comp, f)
}

/// The views of split path components.
pub open spec fn component_views(cs: Seq<Vec<u8>>) -> Seq<Seq<u8>> {
    cs.map_values(|c: Vec<u8>| c@)
}

/// Components of `p` from position `i` on, with `cur` the partial
/// component read so far: maximal runs of non-separator bytes.
pub open spec fn spec_components_from(p: Seq<u8>, i: int, cur: Seq<u8>) -> Seq<Seq<u8>>
    decreases p.len() - i,
{
    if i < 0 || i >= p.len() {
        if cur.len() > 0 {
            seq![cur]
        } else {
            Seq::empty()
        }
    } else if p[i] == SLASH {
        (if cur.len() > 0 {
            seq![cur]
        } else {
            Seq::empty()
        }) + spec_components_from(p, i + 1, Seq::empty())
    } else {
        spec_components_from(p, i + 1, cur.push(p[i]))
    }
}

/// The slash-separated components of a path; empty components (from
/// consecutive or edge separators) collapse.
pub open spec fn spec_components(p: Seq<u8>) -> Seq<Seq<u8>> {
    spec_components_from(p, 0, Seq::empty())
}

/// Splits a path into its components.
pub fn split_components(path: &[u8]) -> (r: Vec<Vec<u8>>)
    ensures
        component_views(r@) == spec_components(path@),
{
    let mut comps: Vec<Vec<u8>> = Vec::new();
    let mut cur: Vec<u8> = Vec::new();
    let mut i: usize = 0;
    proof {
        assert(component_views(comps@) + spec_components_from(path@, 0, cur@) =~= spec_components(
            path@,
        ));
    }
    while i < path.len()
        invariant
            i <= path@.len(),
            spec_components(path@) == component_views(comps@) + spec_components_from(
                path@,
                i as int,
                cur@,
            ),
        decreases path@.len() - i,
    {
        let b = path[i];
        if b == SLASH {
            if cur.len() > 0 {
                proof {
                    assert(component_views(comps@.push(cur)) =~= component_views(comps@).push(
                        cur@,
                    ));
                    assert(component_views(comps@).push(cur@) =~= component_views(comps@) + seq![
                        cur@,
                    ]);
                    assert(component_views(comps@) + (seq![cur@] + spec_components_from(
                        path@,
                        i + 1,
                        Seq::empty(),
                    )) =~= (component_views(comps@) + seq![cur@]) + spec_components_from(
                        path@,
                        i + 1,
                        Seq::empty(),
                    ));
                }
                comps.push(cur);
                cur = Vec::new();
            } else {
                proof {
                    assert(Seq::<Seq<u8>>::empty() + spec_components_from(path@, i + 1, Seq::empty())
                        =~= spec_components_from(path@, i + 1, Seq::empty()));
                }
                cur = Vec::new();
            }
        } else {
            cur.push(b);
        }
        i = i + 1;
    }
    if cur.len() > 0 {
        proof {
            assert(component_views(comps@.push(cur)) =~= component_views(comps@).push(cur@));
            assert(component_views(comps@).push(cur@) =~= component_views(comps@) + seq![cur@]);
        }
        comps.push(cur);
    } else {
        proof {
            assert(component_views(comps@) + Seq::<Seq<u8>>::empty() =~= component_views(comps@));
        }
    }
    comps
}

/// The listing lines of a directory's entries, in order.
pub open spec fn spec_ls_lines(es: Seq<EntryView>) -> Seq<u8>
    decreases es.len(),
{
    if es.len() == 0 {
        Seq::empty()
    } else {
        spec_ls_lines(es.drop_last()) + spec_ls_line(
            spec_entry_name(es.last()),
            spec_entry_is_dir(es.last()),
            es.last().last_in_cluster,
            0,
        )
    }
}

/// Everything `list_dir` appends: the path, a blank line, one line per
/// entry read before the directory's end or the first failure, and the
/// separator line.
pub open spec fn spec_list_dir_output(
    img: Seq<u8>,
    bs: BootSector,
    fat_start: int,
    data_start: int,
    start_cluster: u32,
    path: Seq<u8>,
) -> Seq<u8> {
    path + seq![10u8, 10u8] + spec_ls_lines(
        spec_iterate(img, bs, fat_start, data_start, start_cluster).0,
    ) + spec_line_output()
}

/// Lists the directory at `start_cluster` under the shown `path`.
pub fn list_dir(
    img: &[u8],
    bs: &BootSector,
    fat_start: usize,
    data_start: usize,
    start_cluster: u32,
    path: &[u8],
    out: &mut Vec<u8>,
)
    ensures
        final(out)@ == old(out)@ + spec_list_dir_output(
            img@,
            *bs,
            fat_start as int,
            data_start as int,
            start_cluster,
            path@,
        ),
{
    print_bytes(out, path);
    out.push(10);
    out.push(10);
    let ghost head = old(out)@ + path@ + seq![10u8, 10u8];
    proof {
        assert(out@ =~= head);
    }
    let (es, _completed) = iterate_dir_entries(img, bs, fat_start, data_start, start_cluster);
    let n = es.len();
    let mut i: usize = 0;
    proof {
        assert(head + spec_ls_lines(entry_views(es@).take(0)) =~= head);
    }
    while i < n
        invariant
            n == es@.len(),
            i <= n,
            out@ == head + spec_ls_lines(entry_views(es@).take(i as int)),
        decreases n - i,
    {
        let ghost vs = entry_views(es@);
        proof {
            assert(vs[i as int] == es@[i as int]@);
            assert(vs.take(i + 1).drop_last() =~= vs.take(i as int));
            assert(vs.take(i + 1).last() == vs[i as int]);
        }
        let decoded = build_short_name(es[i].name.as_slice(), es[i].ext.as_slice());
        let mut lower: Vec<u8> = Vec::new();
        to_lowercase_ascii(decoded.as_slice(), &mut lower);
        let is_dir = es[i].attributes & 0x10 != 0;
        proof {
            assert(head + spec_ls_lines(vs.take(i + 1)) =~= (head + spec_ls_lines(vs.take(
                i as int,
            ))) + spec_ls_line(
                spec_entry_name(vs[i as int]),
                spec_entry_is_dir(vs[i as int]),
                vs[i as int].last_in_cluster,
                0,
            ));
        }
        print_ls(out, lower.as_slice(), is_dir, es[i].last_in_cluster, 0);
        i = i + 1;
    }
    proof {
        assert(entry_views(es@).take(es@.len() as int) =~= entry_views(es@));
    }
    print_line(out);
    proof {
        assert(out@ =~= old(out)@ + spec_list_dir_output(
            img@,
            *bs,
            fat_start as int,
            data_start as int,
            start_cluster,
            path@,
        ));
    }
}

/// Lists the root directory.
pub fn list_root(img: &[u8], bs: &BootSector, fat_start: usize, data_start: usize, out: &mut Vec<
    u8,
>)
    ensures
        final(out)@ == old(out)@ + spec_list_dir_output(
            img@,
            *bs,
            fat_start as int,
            data_start as int,
            bs.root_cluster,
            seq![SLASH],
        ),
{
    let mut p: Vec<u8> = Vec::new();
    p.push(SLASH);
    proof {
        assert(p@ =~= seq![SLASH]);
    }
    list_dir(img, bs, fat_start, data_start, bs.root_cluster, p.as_slice(), out);
}

/// One traversal step: `.` stays put, `..` follows the parent entry
/// recorded in the working directory (an encoded cluster below 2 being
/// the FAT32 convention for the root), and any other name must match a
/// subdirectory of the working directory.
pub open spec fn spec_resolve_component(
    img: Seq<u8>,
    bs: BootSector,
    fat_start: int,
    data_start: int,
    wc: u32,
    comp: Seq<u8>,
) -> Option<u32> {
    let lc = spec_lower(comp);
    if lc == seq![DOT] {
        Some(wc)
    } else if lc == seq![DOT, DOT] {
        match spec_lookup(img, bs, fat_start, data_start, wc, lc, EntryFilter::Any) {
            None => None,
            Some(e) => Some(
                if e.start_cluster < 2 {
                    bs.root_cluster
                } else {
                    e.start_cluster
                },
            ),
        }
    } else {
        match spec_lookup(img, bs, fat_start, data_start, wc, lc, EntryFilter::DirectoriesOnly) {
            None => None,
            Some(e) => Some(e.start_cluster),
        }
    }
}

/// Walking components `i..` of a path from the working cluster `wc`;
/// the first component that fails to resolve fails the whole walk.
pub open spec fn spec_resolve_dir_path(
    img: Seq<u8>,
    bs: BootSector,
    fat_start: int,
    data_start: int,
    wc: u32,
    comps: Seq<Seq<u8>>,
    i: int,
) -> Option<u32>
    decreases comps.len() - i,
{
    if i < 0 || i >= comps.len() {
        Some(wc)
    } else {
        match spec_resolve_component(img, bs, fat_start, data_start, wc, comps[i]) {
            None => None,
            Some(w2) => spec_resolve_dir_path(img, bs, fat_start, data_start, w2, comps, i + 1),
        }
    }
}

/// The cluster `change_directory` resolves `path` to: the current
/// cluster for an empty path; otherwise the components walked from the
/// root (absolute path) or the current cluster (relative path).
pub open spec fn spec_change_directory(
    img: Seq<u8>,
    bs: BootSector,
    fat_start: int,
    data_start: int,
    current: u32,
    path: Seq<u8>,
) -> Option<u32> {
    if path.len() == 0 {
        Some(current)
    } else {
        let start = if path[0] == SLASH {
            bs.root_cluster
        } else {
            current
        };
        spec_resolve_dir_path(img, bs, fat_start, data_start, start, spec_components(path), 0)
    }
}

/// The path as the listing header shows it: truncated to 64 bytes.
pub open spec fn spec_shown_path(path: Seq<u8>) -> Seq<u8> {
    if path.len() <= 64 {
        path
    } else {
        path.take(64)
    }
}

/// Everything `change_directory` appends: nothing for an empty path or a
/// failed resolution; on success a terminal reset and the resolved
/// directory's listing.
pub open spec fn spec_change_directory_output(
    img: Seq<u8>,
    bs: BootSector,
    fat_start: int,
    data_start: int,
    current: u32,
    path: Seq<u8>,
) -> Seq<u8> {
    if path.len() == 0 {
        Seq::empty()
    } else {
        match spec_change_directory(img, bs, fat_start, data_start, current, path) {
            None => Seq::empty(),
            Some(wc) => spec_reset_output() + spec_list_dir_output(
                img,
                bs,
                fat_start,
                data_start,
                wc,
                spec_shown_path(path),
            ),
        }
    }
}

/// Resolves `dir_name` against the working directory, and on success
/// resets the terminal and lists the resolved directory.  The caller
/// adopts the returned cluster; nothing changes on failure.
pub fn change_directory(
    img: &[u8],
    bs: &BootSector,
    fat_start: usize,
    data_start: usize,
    current_cluster: u32,
    dir_name: &[u8],
    out: &mut Vec<u8>,
) -> (r: Option<u32>)
    ensures
        r == spec_change_directory(
            img@,
            *bs,
            fat_start as int,
            data_start as int,
            current_cluster,
            dir_name@,
        ),
        final(out)@ == old(out)@ + spec_change_directory_output(
            img@,
            *bs,
            fat_start as int,
            data_start as int,
            current_cluster,
            dir_name@,
        ),
{
    if dir_name.len() == 0 {
        proof {
            assert(old(out)@ + Seq::<u8>::empty() =~= old(out)@);
        }
        return Some(current_cluster);
    }
    let start: u32 = if dir_name[0] == SLASH {
        bs.root_cluster
    } else {
        current_cluster
    };
    let comps = split_components(dir_name);
    let ghost cviews = component_views(comps@);
    let mut wc: u32 = start;
    let mut i: usize = 0;
    while i < comps.len()
        invariant
            i <= comps@.len(),
            cviews == component_views(comps@),
            cviews == spec_components(dir_name@),
            dir_name@.len() > 0,
            start == (if dir_name@[0] == SLASH {
                bs.root_cluster
            } else {
                current_cluster
            }),
            out@ == old(out)@,
            spec_resolve_dir_path(
                img@,
                *bs,
                fat_start as int,
                data_start as int,
                start,
                cviews,
                0,
            ) == spec_resolve_dir_path(
                img@,
                *bs,
                fat_start as int,
                data_start as int,
                wc,
                cviews,
                i as int,
            ),
        decreases comps@.len() - i,
    {
        proof {
            assert(cviews[i as int] == comps@[i as int]@);
        }
        let mut lc: Vec<u8> = Vec::new();
        to_lowercase_ascii(comps[i].as_slice(), &mut lc);
        let is_dot = lc.len() == 1 && lc[0] == DOT;
        let is_dotdot = lc.len() == 2 && lc[0] == DOT && lc[1] == DOT;
        if is_dot {
            proof {
                assert(lc@ =~= seq![DOT]);
            }
        } else if is_dotdot {
            proof {
                assert(lc@ =~= seq![DOT, DOT]);
                assert(lc@ != seq![DOT]) by {
                    assert(seq![DOT].len() == 1);
                }
            }
            match lookup_entry(img, bs, fat_start, data_start, wc, lc.as_slice(), EntryFilter::Any) {
                Some((c, _sz)) => {
                    wc = if c < 2 {
                        bs.root_cluster
                    } else {
                        c
                    };
                },
                None => {
                    proof {
                        assert(old(out)@ + Seq::<u8>::empty() =~= old(out)@);
                    }
                    return None;
                },
            }
        } else {
            proof {
                assert(lc@ != seq![DOT]) by {
                    assert(seq![DOT].len() == 1);
                    assert(seq![DOT][0] == DOT);
                }
                assert(lc@ != seq![DOT, DOT]) by {
                    assert(seq![DOT, DOT].len() == 2);
                    assert(seq![DOT, DOT][0] == DOT);
                    assert(seq![DOT, DOT][1] == DOT);
                }
            }
            match lookup_entry(
                img,
                bs,
                fat_start,
                data_start,
                wc,
                lc.as_slice(),
                EntryFilter::DirectoriesOnly,
            ) {
                Some((c, _sz)) => {
                    wc = c;
                },
                None => {
                    proof {
                        assert(old(out)@ + Seq::<u8>::empty() =~= old(out)@);
                    }
                    return None;
                },
            }
        }
        i = i + 1;
    }
    reset_cli(out);
    let copy_len: usize = if dir_name.len() < 64 {
        dir_name.len()
    } else {
        64
    };
    let shown = slice_subrange(dir_name, 0, copy_len);
    proof {
        assert(shown@ =~= spec_shown_path(dir_name@));
    }
    list_dir(img, bs, fat_start, data_start, wc, shown, out);
    proof {
        assert(out@ =~= old(out)@ + spec_change_directory_output(
            img@,
            *bs,
            fat_start as int,
            data_start as int,
            current_cluster,
            dir_name@,
        ));
    }
    Some(wc)
}

/// Resolving a path to a file: components before the last must resolve
/// as directories (`.` and `..` as usual); the final component — final
/// only when the path does not end in a separator — must name a
/// non-directory entry, whose starting cluster and size are yielded.
pub open spec fn spec_resolve_file(
    img: Seq<u8>,
    bs: BootSector,
    fat_start: int,
    data_start: int,
    wc: u32,
    comps: Seq<Seq<u8>>,
    i: int,
    trailing_sep: bool,
) -> Option<(u32, u32)>
    decreases comps.len() - i,
{
    if i < 0 || i >= comps.len() {
        None
    } else {
        let lc = spec_lower(comps[i]);
        let is_final = i == comps.len() - 1 && !trailing_sep;
        if is_final && lc != seq![DOT] && lc != seq![DOT, DOT] {
            match spec_lookup(img, bs, fat_start, data_start, wc, lc, EntryFilter::FilesOnly) {
                None => None,
                Some(e) => Some((e.start_cluster, e.file_size)),
            }
        } else {
            match spec_resolve_component(img, bs, fat_start, data_start, wc, comps[i]) {
                None => None,
                Some(w2) => spec_resolve_file(
                    img,
                    bs,
                    fat_start,
                    data_start,
                    w2,
                    comps,
                    i + 1,
                    trailing_sep,
                ),
            }
        }
    }
}

/// The bytes a chain walk emits for a file, and whether it succeeded:
/// `min(remaining, cs)` bytes per cluster until the byte budget or the
/// chain runs out — a chain shorter than the recorded size yields what
/// was there; an unreadable cluster fails after what was already
/// emitted.
pub open spec fn spec_stream(
    img: Seq<u8>,
    data_start: int,
    cs: int,
    fat: Seq<u8>,
    cluster: u32,
    remaining: int,
) -> (Seq<u8>, bool)
    decreases remaining,
{
    if remaining <= 0 || spec_is_end_cluster(cluster) {
        (Seq::empty(), true)
    } else if cs < 1 {
        (Seq::empty(), true)
    } else if !spec_cluster_readable(img, data_start, cs, cluster) {
        (Seq::empty(), false)
    } else {
        let data = spec_cluster_data(img, data_start, cs, cluster);
        let tp = if remaining < cs {
            remaining
        } else {
            cs
        };
        let emitted = data.take(tp);
        if remaining == tp {
            (emitted, true)
        } else {
            let next = spec_fat_entry(fat, cluster);
            if next == 0 || spec_is_end_cluster(next) {
                (emitted, true)
            } else {
                let rest = spec_stream(img, data_start, cs, fat, next, remaining - tp);
                (emitted + rest.0, rest.1)
            }
        }
    }
}

/// The outcome of streaming a resolved file entry: a start cluster
/// below 2 is an empty file and succeeds with no bytes; an unsupported
/// cluster size fails; otherwise the chain is streamed.
pub open spec fn spec_stream_result(
    img: Seq<u8>,
    bs: BootSector,
    data_start: int,
    fat: Seq<u8>,
    start_cluster: u32,
    file_size: u32,
) -> (Seq<u8>, bool) {
    let cs = spec_cluster_size(bs);
    if start_cluster < 2 {
        (Seq::empty(), true)
    } else if cs == 0 || cs > CLUSTER_MAX_SIZE as int {
        (Seq::empty(), false)
    } else {
        spec_stream(img, data_start, cs, fat, start_cluster, file_size as int)
    }
}

/// Streams a resolved file entry's bytes into the sink.
fn stream_file(
    img: &[u8],
    bs: &BootSector,
    data_start: usize,
    fat_buf: &Vec<u8>,
    start_cluster: u32,
    file_size: u32,
    out: &mut Vec<u8>,
) -> (r: Option<()>)
    ensures
        final(out)@ == old(out)@ + spec_stream_result(
            img@,
            *bs,
            data_start as int,
            fat_buf@,
            start_cluster,
            file_size,
        ).0,
        r is Some <==> spec_stream_result(
            img@,
            *bs,
            data_start as int,
            fat_buf@,
            start_cluster,
            file_size,
        ).1,
{
    if start_cluster < 2 {
        proof {
            assert(old(out)@ + Seq::<u8>::empty() =~= old(out)@);
        }
        return Some(());
    }
    proof {
        assert(bs.bytes_per_sector as int * bs.sectors_per_cluster as int <= 0xFFFF * 0xFF)
            by (nonlinear_arith)
            requires
                bs.bytes_per_sector as int <= 0xFFFF,
                bs.sectors_per_cluster as int <= 0xFF,
        ;
    }
    let cs_u64: u64 = bs.bytes_per_sector as u64 * bs.sectors_per_cluster as u64;
    if cs_u64 == 0 || cs_u64 > CLUSTER_MAX_SIZE as u64 {
        proof {
            assert(old(out)@ + Seq::<u8>::empty() =~= old(out)@);
        }
        return None;
    }
    let cluster_size: usize = cs_u64 as usize;
    let mut remaining: usize = file_size as usize;
    let mut cluster: u32 = start_cluster;
    let ghost full = spec_stream(
        img@,
        data_start as int,
        cluster_size as int,
        fat_buf@,
        start_cluster,
        file_size as int,
    );
    let ghost mut acc = Seq::<u8>::empty();
    proof {
        assert(old(out)@ + acc =~= old(out)@);
    }
    loop
        invariant
            cluster_size == spec_cluster_size(*bs),
            1 <= cluster_size <= CLUSTER_MAX_SIZE,
            out@ == old(out)@ + acc,
            full == spec_stream_result(
                img@,
                *bs,
                data_start as int,
                fat_buf@,
                start_cluster,
                file_size,
            ),
            full.0 == acc + spec_stream(
                img@,
                data_start as int,
                cluster_size as int,
                fat_buf@,
                cluster,
                remaining as int,
            ).0,
            full.1 == spec_stream(
                img@,
                data_start as int,
                cluster_size as int,
                fat_buf@,
                cluster,
                remaining as int,
            ).1,
        decreases remaining,
    {
        if remaining == 0 {
            proof {
                assert(acc + Seq::<u8>::empty() =~= acc);
            }
            return Some(());
        }
        if is_end_cluster(cluster) {
            proof {
                assert(acc + Seq::<u8>::empty() =~= acc);
            }
            return Some(());
        }
        let data = match read_cluster(img, bs, data_start, cluster) {
            Some(d) => d,
            None => {
                proof {
                    assert(acc + Seq::<u8>::empty() =~= acc);
                }
                return None;
            },
        };
        let to_print: usize = if remaining < cluster_size {
            remaining
        } else {
            cluster_size
        };
        let ghost emitted = data@.take(to_print as int);
        let ghost before = acc;
        proof {
            assert(data@.subrange(0, to_print as int) =~= emitted);
        }
        print_bytes(out, slice_subrange(data.as_slice(), 0, to_print));
        proof {
            assert(out@ =~= old(out)@ + (acc + emitted));
            acc = acc + emitted;
        }
        remaining = remaining - to_print;
        if remaining == 0 {
            return Some(());
        }
        let next = fat_entry(fat_buf.as_slice(), cluster);
        if next == 0 || is_end_cluster(next) {
            return Some(());
        }
        proof {
            let rest = spec_stream(
                img@,
                data_start as int,
                cluster_size as int,
                fat_buf@,
                next,
                remaining as int,
            );
            assert(before + (emitted + rest.0) =~= acc + rest.0);
        }
        cluster = next;
    }
}

/// What `read_file` emits and whether it succeeds.  An empty path, the
/// bare root path, an unloadable FAT or a failed resolution emit
/// nothing and fail; a resolved file entry is streamed.
pub open spec fn spec_read_file(
    img: Seq<u8>,
    bs: BootSector,
    fat_start: int,
    data_start: int,
    current: u32,
    path: Seq<u8>,
) -> (Seq<u8>, bool) {
    if path.len() == 0 {
        (Seq::empty(), false)
    } else if path.len() == 1 && path[0] == SLASH {
        (Seq::empty(), false)
    } else if fat_start + spec_fat_read_size(bs) > img.len() {
        (Seq::empty(), false)
    } else {
        let start = if path[0] == SLASH {
            bs.root_cluster
        } else {
            current
        };
        let fat = img.subrange(fat_start, fat_start + spec_fat_read_size(bs));
        let trailing = path[path.len() - 1] == SLASH;
        match spec_resolve_file(
            img,
            bs,
            fat_start,
            data_start,
            start,
            spec_components(path),
            0,
            trailing,
        ) {
            None => (Seq::empty(), false),
            Some((sc, size)) => spec_stream_result(img, bs, data_start, fat, sc, size),
        }
    }
}

/// Resolves `path` to a file and streams its bytes into the sink.  A
/// chain that ends before the recorded size is not an error; everything
/// read so far stays in the sink even when a later cluster fails.
pub fn read_file(
    img: &[u8],
    bs: &BootSector,
    fat_start: usize,
    data_start: usize,
    current_cluster: u32,
    path: &[u8],
    out: &mut Vec<u8>,
) -> (r: Option<()>)
    ensures
        final(out)@ == old(out)@ + spec_read_file(
            img@,
            *bs,
            fat_start as int,
            data_start as int,
            current_cluster,
            path@,
        ).0,
        r is Some <==> spec_read_file(
            img@,
            *bs,
            fat_start as int,
            data_start as int,
            current_cluster,
            path@,
        ).1,
{
    if path.len() == 0 {
        proof {
            assert(old(out)@ + Seq::<u8>::empty() =~= old(out)@);
        }
        return None;
    }
    let start: u32 = if path[0] == SLASH {
        bs.root_cluster
    } else {
        current_cluster
    };
    if path.len() == 1 && path[0] == SLASH {
        proof {
            assert(old(out)@ + Seq::<u8>::empty() =~= old(out)@);
        }
        return None;
    }
    let fat_buf = match load_fat(img, bs, fat_start) {
        Some(b) => b,
        None => {
            proof {
                assert(old(out)@ + Seq::<u8>::empty() =~= old(out)@);
            }
            return None;
        },
    };
    let trailing = path[path.len() - 1] == SLASH;
    let comps = split_components(path);
    let ghost cviews = component_views(comps@);
    let mut wc: u32 = start;
    let mut i: usize = 0;
    while i < comps.len()
        invariant
            i <= comps@.len(),
            cviews == component_views(comps@),
            cviews == spec_components(path@),
            path@.len() > 0,
            !(path@.len() == 1 && path@[0] == SLASH),
            start == (if path@[0] == SLASH {
                bs.root_cluster
            } else {
                current_cluster
            }),
            trailing == (path@[path@.len() - 1] == SLASH),
            fat_buf@ == img@.subrange(
                fat_start as int,
                fat_start + spec_fat_read_size(*bs),
            ),
            fat_start + spec_fat_read_size(*bs) <= img@.len(),
            out@ == old(out)@,
            spec_resolve_file(
                img@,
                *bs,
                fat_start as int,
                data_start as int,
                start,
                cviews,
                0,
                trailing,
            ) == spec_resolve_file(
                img@,
                *bs,
                fat_start as int,
                data_start as int,
                wc,
                cviews,
                i as int,
                trailing,
            ),
        decreases comps@.len() - i,
    {
        proof {
            assert(cviews[i as int] == comps@[i as int]@);
        }
        let mut lc: Vec<u8> = Vec::new();
        to_lowercase_ascii(comps[i].as_slice(), &mut lc);
        let is_dot = lc.len() == 1 && lc[0] == DOT;
        let is_dotdot = lc.len() == 2 && lc[0] == DOT && lc[1] == DOT;
        proof {
            if is_dot {
                assert(lc@ =~= seq![DOT]);
            } else {
                assert(lc@ != seq![DOT]) by {
                    assert(seq![DOT].len() == 1);
                    assert(seq![DOT][0] == DOT);
                }
            }
            if is_dotdot {
                assert(lc@ =~= seq![DOT, DOT]);
            } else {
                assert(lc@ != seq![DOT, DOT]) by {
                    assert(seq![DOT, DOT].len() == 2);
                    assert(seq![DOT, DOT][0] == DOT);
                    assert(seq![DOT, DOT][1] == DOT);
                }
            }
        }
        let is_final = i == comps.len() - 1 && !trailing;
        if is_final && !is_dot && !is_dotdot {
            match lookup_entry(
                img,
                bs,
                fat_start,
                data_start,
                wc,
                lc.as_slice(),
                EntryFilter::FilesOnly,
            ) {
                Some((sc, sz)) => {
                    let res = stream_file(img, bs, data_start, &fat_buf, sc, sz, out);
                    return res;
                },
                None => {
                    proof {
                        assert(old(out)@ + Seq::<u8>::empty() =~= old(out)@);
                    }
                    return None;
                },
            }
        } else if is_dot {
        } else if is_dotdot {
            match lookup_entry(img, bs, fat_start, data_start, wc, lc.as_slice(), EntryFilter::Any) {
                Some((c, _sz)) => {
                    wc = if c < 2 {
                        bs.root_cluster
                    } else {
                        c
                    };
                },
                None => {
                    proof {
                        assert(old(out)@ + Seq::<u8>::empty() =~= old(out)@);
                    }
                    return None;
                },
            }
        } else {
            match lookup_entry(
                img,
                bs,
                fat_start,
                data_start,
                wc,
                lc.as_slice(),
                EntryFilter::DirectoriesOnly,
            ) {
                Some((c, _sz)) => {
                    wc = c;
                },
                None => {
                    proof {
                        assert(old(out)@ + Seq::<u8>::empty() =~= old(out)@);
                    }
                    return None;
                },
            }
        }
        i = i + 1;
    }
    proof {
        assert(old(out)@ + Seq::<u8>::empty() =~= old(out)@);
    }
    None
}

/// Resolving components `i..k` of a path, one at a time — the prefix of
/// a walk, used to state where a failure happened.
pub open spec fn spec_resolve_prefix(
    img: Seq<u8>,
    bs: BootSector,
    fat_start: int,
    data_start: int,
    wc: u32,
    comps: Seq<Seq<u8>>,
    i: int,
    k: int,
) -> Option<u32>
    decreases k - i,
{
    if i >= k {
        Some(wc)
    } else {
        match spec_resolve_component(img, bs, fat_start, data_start, wc, comps[i]) {
            None => None,
            Some(w2) => spec_resolve_prefix(img, bs, fat_start, data_start, w2, comps, i + 1, k),
        }
    }
}

/// A lookup that fails at any depth fails the whole path: when the walk
/// from `wc` consumes components `i..k`, reaches `wk`, and component `k`
/// does not resolve there, the path as a whole resolves to nothing — no
/// partial result is handed out.
pub proof fn lemma_absent_component_fails_path(
    img: Seq<u8>,
    bs: BootSector,
    fat_start: int,
    data_start: int,
    wc: u32,
    comps: Seq<Seq<u8>>,
    i: int,
    k: int,
    wk: u32,
)
    requires
        0 <= i <= k < comps.len(),
        spec_resolve_prefix(img, bs, fat_start, data_start, wc, comps, i, k) == Some(wk),
        spec_resolve_component(img, bs, fat_start, data_start, wk, comps[k]) is None,
    ensures
        spec_resolve_dir_path(img, bs, fat_start, data_start, wc, comps, i) is None,
    decreases k - i,
{
    if i == k {
        assert(wk == wc);
    } else {
        let step = spec_resolve_component(img, bs, fat_start, data_start, wc, comps[i]);
        assert(step is Some);
        lemma_absent_component_fails_path(
            img,
            bs,
            fat_start,
            data_start,
            step->Some_0,
            comps,
            i + 1,
            k,
            wk,
        );
    }
}

/// The same, at the command surface: when the walk of a non-empty path
/// reaches `wk` after its first `k` components and component `k` does
/// not resolve there, `change_directory` resolves the path to nothing,
/// however deep the failure lies — the caller keeps its old cluster.
pub proof fn lemma_absent_fails_change_directory(
    img: Seq<u8>,
    bs: BootSector,
    fat_start: int,
    data_start: int,
    current: u32,
    path: Seq<u8>,
    k: int,
    wk: u32,
)
    requires
        path.len() > 0,
        0 <= k < spec_components(path).len(),
        spec_resolve_prefix(
            img,
            bs,
            fat_start,
            data_start,
            if path[0] == SLASH {
                bs.root_cluster
            } else {
                current
            },
            spec_components(path),
            0,
            k,
        ) == Some(wk),
        spec_resolve_component(img, bs, fat_start, data_start, wk, spec_components(path)[k])
            is None,
    ensures
        spec_change_directory(img, bs, fat_start, data_start, current, path) is None,
{
    let start = if path[0] == SLASH {
        bs.root_cluster
    } else {
        current
    };
    lemma_absent_component_fails_path(
        img,
        bs,
        fat_start,
        data_start,
        start,
        spec_components(path),
        0,
        k,
        wk,
    );
}

/// The path `"/"` always resolves to the root cluster, whatever the
/// image and whatever the current working cluster.
pub proof fn lemma_root_path_resolves_to_root(
    img: Seq<u8>,
    bs: BootSector,
    fat_start: int,
    data_start: int,
    current: u32,
)
    ensures
        spec_change_directory(img, bs, fat_start, data_start, current, seq![SLASH]) == Some(
            bs.root_cluster,
        ),
{
    let p = seq![SLASH];
    assert(p.len() == 1 && p[0] == SLASH);
    assert(spec_components_from(p, 1, Seq::empty()) =~= Seq::<Seq<u8>>::empty());
    assert(spec_components(p) =~= Seq::<Seq<u8>>::empty() + Seq::<Seq<u8>>::empty());
}

/// Component matching is case-insensitive: two components with the same
/// ASCII case folding resolve identically, wherever they stand.
pub proof fn lemma_resolve_case_insensitive(
    img: Seq<u8>,
    bs: BootSector,
    fat_start: int,
    data_start: int,
    wc: u32,
    comp: Seq<u8>,
    other: Seq<u8>,
)
    requires
        spec_lower(comp) == spec_lower(other),
    ensures
        spec_resolve_component(img, bs, fat_start, data_start, wc, comp) == spec_resolve_component(
            img,
            bs,
            fat_start,
            data_start,
            wc,
            other,
        ),
{
}

} // verus!
