use fat32_driver::boot_sector::{parse_boot_sector, BootSector};
use fat32_driver::dir::iterate_dir_entries;
use fat32_driver::resolve::{change_directory, list_dir, list_root, read_file};

const FAT_START: usize = 512;
const DATA_START: usize = 1024;

fn put_u16(img: &mut [u8], off: usize, v: u16) {
    img[off] = v as u8;
    img[off + 1] = (v >> 8) as u8;
}

fn put_u32(img: &mut [u8], off: usize, v: u32) {
    img[off] = v as u8;
    img[off + 1] = (v >> 8) as u8;
    img[off + 2] = (v >> 16) as u8;
    img[off + 3] = (v >> 24) as u8;
}

fn cluster_off(c: u32) -> usize {
    DATA_START + (c as usize - 2) * 512
}

fn put_entry(img: &mut [u8], off: usize, name: &str, ext: &str, attr: u8, cluster: u32, size: u32) {
    let nb = name.as_bytes();
    let eb = ext.as_bytes();
    for i in 0..8 {
        img[off + i] = if i < nb.len() { nb[i] } else { b' ' };
    }
    for i in 0..3 {
        img[off + 8 + i] = if i < eb.len() { eb[i] } else { b' ' };
    }
    img[off + 11] = attr;
    put_u16(img, off + 20, (cluster >> 16) as u16);
    put_u16(img, off + 26, (cluster & 0xFFFF) as u16);
    put_u32(img, off + 28, size);
}

fn set_fat(img: &mut [u8], cluster: u32, value: u32) {
    put_u32(img, FAT_START + 4 * cluster as usize, value);
}

/// 512-byte sectors, one sector per cluster, one reserved sector, one
/// FAT of one sector, root at cluster 2.
fn base_boot_sector(img: &mut [u8]) {
    put_u16(img, 11, 512);
    img[13] = 1;
    put_u16(img, 14, 1);
    img[16] = 1;
    put_u32(img, 36, 1);
    put_u32(img, 44, 2);
    img[510] = 0x55;
    img[511] = 0xAA;
}

fn parse(img: &[u8]) -> BootSector {
    let mut boot = [0u8; 512];
    boot.copy_from_slice(&img[..512]);
    parse_boot_sector(&boot)
}

const END: u32 = 0x0FFFFFFF;

/// Root holds DOCS (directory, cluster 5), README.TXT (cluster 7, 11
/// bytes), BIG.BIN (clusters 3 then 4, 700 bytes) and SHORT.BIN
/// (cluster 6, recorded as 2000 bytes but its chain ends after one
/// cluster).  DOCS holds `.`, `..` (encoded cluster 0), NOTES.MD and a
/// placeholder EMPTY.TXT whose start cluster is 0.
fn build_image() -> (Vec<u8>, BootSector) {
    let mut img = vec![0u8; 1024 + 7 * 512];
    base_boot_sector(&mut img);
    set_fat(&mut img, 2, END);
    set_fat(&mut img, 3, 4);
    set_fat(&mut img, 4, END);
    set_fat(&mut img, 5, END);
    set_fat(&mut img, 6, END);
    set_fat(&mut img, 7, END);
    set_fat(&mut img, 8, END);

    let root = cluster_off(2);
    put_entry(&mut img, root, "DOCS", "", 0x10, 5, 0);
    put_entry(&mut img, root + 32, "README", "TXT", 0x20, 7, 11);
    put_entry(&mut img, root + 64, "BIG", "BIN", 0x20, 3, 700);
    put_entry(&mut img, root + 96, "SHORT", "BIN", 0x20, 6, 2000);

    let docs = cluster_off(5);
    put_entry(&mut img, docs, ".", "", 0x10, 5, 0);
    put_entry(&mut img, docs + 32, "..", "", 0x10, 0, 0);
    put_entry(&mut img, docs + 64, "NOTES", "MD", 0x20, 8, 3);
    put_entry(&mut img, docs + 96, "EMPTY", "TXT", 0x20, 0, 5);

    let r7 = cluster_off(7);
    img[r7..r7 + 11].copy_from_slice(b"hello world");
    let r8 = cluster_off(8);
    img[r8..r8 + 3].copy_from_slice(b"abc");
    for i in 0..512 {
        img[cluster_off(3) + i] = (i % 256) as u8;
        img[cluster_off(4) + i] = 0xBB;
        img[cluster_off(6) + i] = 0x6C;
    }

    let bs = parse(&img);
    (img, bs)
}

fn ls_line(name: &str, is_dir: bool, last: bool) -> Vec<u8> {
    let mut line = Vec::new();
    line.extend_from_slice(if last { "└─ " } else { "├─ " }.as_bytes());
    line.extend_from_slice(if is_dir { "📁 " } else { "📄 " }.as_bytes());
    line.extend_from_slice(name.as_bytes());
    line.push(b'\n');
    line
}

fn separator() -> Vec<u8> {
    let mut s = vec![b'_'; 79];
    s.push(b'\n');
    s
}

#[test]
fn list_root_shows_each_entry_line() {
    let (img, bs) = build_image();
    let mut out = Vec::new();
    list_root(&img, &bs, FAT_START, DATA_START, &mut out);

    let mut expected: Vec<u8> = Vec::new();
    expected.extend_from_slice(b"/\n\n");
    expected.extend_from_slice(&ls_line("docs", true, false));
    expected.extend_from_slice(&ls_line("readme.txt", false, false));
    expected.extend_from_slice(&ls_line("big.bin", false, false));
    /* nothing after SHORT.BIN is reported, so it draws the closing branch */
    expected.extend_from_slice(&ls_line("short.bin", false, true));
    expected.extend_from_slice(&separator());
    assert_eq!(out, expected);
}

#[test]
fn list_dir_prints_the_given_path_header() {
    let (img, bs) = build_image();
    let mut out = Vec::new();
    list_dir(&img, &bs, FAT_START, DATA_START, 5, b"somewhere", &mut out);

    let mut expected: Vec<u8> = Vec::new();
    expected.extend_from_slice(b"somewhere\n\n");
    expected.extend_from_slice(&ls_line(".", true, false));
    expected.extend_from_slice(&ls_line("..", true, false));
    expected.extend_from_slice(&ls_line("notes.md", false, false));
    expected.extend_from_slice(&ls_line("empty.txt", false, true));
    expected.extend_from_slice(&separator());
    assert_eq!(out, expected);
}

#[test]
fn change_directory_descends_into_docs() {
    let (img, bs) = build_image();
    let mut out = Vec::new();
    let r = change_directory(&img, &bs, FAT_START, DATA_START, 2, b"docs", &mut out);
    assert_eq!(r, Some(5));

    /* on success the resolved directory is listed */
    let mut listing = Vec::new();
    list_dir(&img, &bs, FAT_START, DATA_START, 5, b"docs", &mut listing);
    assert!(out.ends_with(&listing));
}

#[test]
fn change_directory_dotdot_returns_to_the_root() {
    let (img, bs) = build_image();
    let mut out = Vec::new();
    /* the ".." entry encodes cluster 0, the root-parent convention */
    let r = change_directory(&img, &bs, FAT_START, DATA_START, 5, b"..", &mut out);
    assert_eq!(r, Some(2));
}

#[test]
fn change_directory_root_path_ignores_the_current_cluster() {
    let (img, bs) = build_image();
    for current in [2u32, 5, 7, 999] {
        let mut out = Vec::new();
        let r = change_directory(&img, &bs, FAT_START, DATA_START, current, b"/", &mut out);
        assert_eq!(r, Some(2));
    }
}

#[test]
fn change_directory_matches_case_insensitively() {
    let (img, bs) = build_image();
    for query in [&b"DOCS"[..], b"DoCs", b"docs"] {
        let mut out = Vec::new();
        let r = change_directory(&img, &bs, FAT_START, DATA_START, 2, query, &mut out);
        assert_eq!(r, Some(5), "query {:?} should match", query);
    }
}

#[test]
fn change_directory_length_mismatch_never_matches() {
    let (img, bs) = build_image();
    let mut out = Vec::new();
    assert_eq!(change_directory(&img, &bs, FAT_START, DATA_START, 2, b"doc", &mut out), None);
    assert_eq!(change_directory(&img, &bs, FAT_START, DATA_START, 2, b"docss", &mut out), None);
    assert!(out.is_empty());
}

#[test]
fn missing_component_fails_with_no_output_and_no_state_change() {
    let (img, bs) = build_image();
    let mut out = Vec::new();
    assert_eq!(
        change_directory(&img, &bs, FAT_START, DATA_START, 2, b"docs/missing", &mut out),
        None,
    );
    assert_eq!(
        change_directory(&img, &bs, FAT_START, DATA_START, 2, b"missing/..", &mut out),
        None,
    );
    assert_eq!(read_file(&img, &bs, FAT_START, DATA_START, 2, b"docs/absent.txt", &mut out), None);
    assert!(out.is_empty());
}

#[test]
fn empty_path_is_a_no_op() {
    let (img, bs) = build_image();
    let mut out = Vec::new();
    assert_eq!(change_directory(&img, &bs, FAT_START, DATA_START, 5, b"", &mut out), Some(5));
    assert!(out.is_empty());
}

#[test]
fn dot_components_stay_put() {
    let (img, bs) = build_image();
    let mut out = Vec::new();
    let r = change_directory(&img, &bs, FAT_START, DATA_START, 2, b"./docs/.", &mut out);
    assert_eq!(r, Some(5));
}

#[test]
fn consecutive_separators_collapse() {
    let (img, bs) = build_image();
    let mut out = Vec::new();
    let r = change_directory(&img, &bs, FAT_START, DATA_START, 5, b"//docs", &mut out);
    assert_eq!(r, Some(5));
}

#[test]
fn read_file_streams_exactly_the_recorded_size() {
    let (img, bs) = build_image();
    let mut out = Vec::new();
    let r = read_file(&img, &bs, FAT_START, DATA_START, 2, b"readme.txt", &mut out);
    assert_eq!(r, Some(()));
    assert_eq!(out, b"hello world".to_vec());
}

#[test]
fn read_file_resolves_absolute_and_nested_paths() {
    let (img, bs) = build_image();

    let mut out = Vec::new();
    assert_eq!(read_file(&img, &bs, FAT_START, DATA_START, 5, b"/readme.txt", &mut out), Some(()));
    assert_eq!(out, b"hello world".to_vec());

    let mut nested = Vec::new();
    assert_eq!(
        read_file(&img, &bs, FAT_START, DATA_START, 2, b"docs/notes.md", &mut nested),
        Some(()),
    );
    assert_eq!(nested, b"abc".to_vec());

    let mut relative = Vec::new();
    assert_eq!(read_file(&img, &bs, FAT_START, DATA_START, 5, b"notes.md", &mut relative), Some(()));
    assert_eq!(relative, b"abc".to_vec());
}

#[test]
fn read_file_follows_a_two_cluster_chain() {
    let (img, bs) = build_image();
    let mut out = Vec::new();
    let r = read_file(&img, &bs, FAT_START, DATA_START, 2, b"big.bin", &mut out);
    assert_eq!(r, Some(()));
    assert_eq!(out.len(), 700);
    for (i, b) in out.iter().enumerate().take(512) {
        assert_eq!(*b, (i % 256) as u8);
    }
    assert!(out[512..].iter().all(|&b| b == 0xBB));
}

#[test]
fn read_file_tolerates_a_chain_shorter_than_the_size() {
    let (img, bs) = build_image();
    let mut out = Vec::new();
    /* recorded as 2000 bytes, but the chain ends after one cluster */
    let r = read_file(&img, &bs, FAT_START, DATA_START, 2, b"short.bin", &mut out);
    assert_eq!(r, Some(()));
    assert_eq!(out.len(), 512);
    assert!(out.iter().all(|&b| b == 0x6C));
}

#[test]
fn placeholder_file_succeeds_with_no_bytes() {
    let (img, bs) = build_image();
    let mut out = Vec::new();
    /* EMPTY.TXT has start cluster 0: trivially successful, nothing emitted */
    let r = read_file(&img, &bs, FAT_START, DATA_START, 2, b"docs/empty.txt", &mut out);
    assert_eq!(r, Some(()));
    assert!(out.is_empty());
}

#[test]
fn file_paths_reject_directories_and_directory_paths_reject_files() {
    let (img, bs) = build_image();
    let mut out = Vec::new();
    assert_eq!(read_file(&img, &bs, FAT_START, DATA_START, 2, b"docs", &mut out), None);
    assert_eq!(change_directory(&img, &bs, FAT_START, DATA_START, 2, b"readme.txt", &mut out), None);
    assert!(out.is_empty());
}

#[test]
fn trailing_separator_fails_a_file_path() {
    let (img, bs) = build_image();
    let mut out = Vec::new();
    assert_eq!(read_file(&img, &bs, FAT_START, DATA_START, 2, b"readme.txt/", &mut out), None);
    assert_eq!(read_file(&img, &bs, FAT_START, DATA_START, 2, b"docs/", &mut out), None);
    assert_eq!(read_file(&img, &bs, FAT_START, DATA_START, 2, b"/", &mut out), None);
    assert!(out.is_empty());
}

#[test]
fn end_record_stops_iteration_before_the_next_cluster() {
    /* root's first record is 0x00 while the FAT links the root on to
    cluster 3, which lies wholly outside the image: iteration must end
    at the record without touching the second cluster */
    let mut img = vec![0u8; 1024 + 512];
    base_boot_sector(&mut img);
    set_fat(&mut img, 2, 3);
    set_fat(&mut img, 3, END);
    let bs = parse(&img);

    let (entries, completed) = iterate_dir_entries(&img, &bs, FAT_START, DATA_START, 2);
    assert!(completed, "the walk ends at the 0x00 record");
    assert!(entries.is_empty());
}

#[test]
fn deleted_lfn_and_volume_records_are_skipped() {
    let mut img = vec![0u8; 1024 + 512];
    base_boot_sector(&mut img);
    set_fat(&mut img, 2, END);
    let root = cluster_off(2);
    put_entry(&mut img, root, "GONE", "TXT", 0x20, 3, 1);
    img[root] = 0xE5; /* deleted */
    put_entry(&mut img, root + 32, "FRAG", "", 0x0F, 0, 0); /* long-name fragment */
    put_entry(&mut img, root + 64, "LABEL", "", 0x08, 0, 0); /* volume label */
    put_entry(&mut img, root + 96, "KEPT", "TXT", 0x20, 9, 4);
    let bs = parse(&img);

    let (entries, completed) = iterate_dir_entries(&img, &bs, FAT_START, DATA_START, 2);
    assert!(completed);
    assert_eq!(entries.len(), 1);
    assert_eq!(entries[0].name, b"KEPT    ".to_vec());
    assert_eq!(entries[0].ext, b"TXT".to_vec());
    assert_eq!(entries[0].start_cluster, 9);
    assert_eq!(entries[0].file_size, 4);
    /* the only reported record of its cluster is also the last one */
    assert!(entries[0].last_in_cluster);
}

#[test]
fn directory_iteration_crosses_cluster_boundaries() {
    /* sixteen records fill the root cluster; the FAT links it to a
    second cluster holding one more entry */
    let mut img = vec![0u8; 1024 + 2 * 512];
    base_boot_sector(&mut img);
    set_fat(&mut img, 2, 3);
    set_fat(&mut img, 3, END);
    let root = cluster_off(2);
    for slot in 0..16 {
        let name = format!("F{:07}", slot);
        put_entry(&mut img, root + 32 * slot, &name, "TXT", 0x20, 9, 1);
    }
    let second = cluster_off(3);
    put_entry(&mut img, second, "EXTRA", "", 0x10, 6, 0);
    let bs = parse(&img);

    let (entries, completed) = iterate_dir_entries(&img, &bs, FAT_START, DATA_START, 2);
    assert!(completed);
    assert_eq!(entries.len(), 17);
    assert!(entries[15].last_in_cluster);
    assert!(!entries[14].last_in_cluster);
    assert_eq!(entries[16].name, b"EXTRA   ".to_vec());
    assert!(entries[16].last_in_cluster);

    /* a lookup reaches the entry in the second cluster */
    let mut out = Vec::new();
    assert_eq!(change_directory(&img, &bs, FAT_START, DATA_START, 2, b"extra", &mut out), Some(6));
}

/// A root whose sixteen slots are all reported, whose chain continues
/// into a cluster lying past the image end.
fn build_truncated_chain_image() -> (Vec<u8>, BootSector) {
    let mut img = vec![0u8; 1024 + 512];
    base_boot_sector(&mut img);
    set_fat(&mut img, 2, 3);
    set_fat(&mut img, 3, END);
    let root = cluster_off(2);
    put_entry(&mut img, root, "SUB", "", 0x10, 5, 0);
    for slot in 1..16 {
        let name = format!("F{:07}", slot);
        put_entry(&mut img, root + 32 * slot, &name, "TXT", 0x20, 9, 1);
    }
    let bs = parse(&img);
    (img, bs)
}

#[test]
fn a_match_before_an_unreadable_cluster_still_resolves() {
    let (img, bs) = build_truncated_chain_image();

    let (entries, completed) = iterate_dir_entries(&img, &bs, FAT_START, DATA_START, 2);
    assert!(!completed);
    assert_eq!(entries.len(), 16);

    /* SUB sits in the readable first cluster, so it is found although
    the chain's second cluster cannot be read */
    let mut out = Vec::new();
    let r = change_directory(&img, &bs, FAT_START, DATA_START, 2, b"sub", &mut out);
    assert_eq!(r, Some(5));

    /* a name absent from the readable prefix still fails */
    let mut none_out = Vec::new();
    assert_eq!(
        change_directory(&img, &bs, FAT_START, DATA_START, 2, b"elsewhere", &mut none_out),
        None,
    );
    assert!(none_out.is_empty());
}

#[test]
fn listing_shows_what_was_read_before_a_failed_cluster() {
    let (img, bs) = build_truncated_chain_image();
    let mut out = Vec::new();
    list_dir(&img, &bs, FAT_START, DATA_START, 2, b"/", &mut out);

    assert!(out.starts_with(b"/\n\n"));
    let sub_line = ls_line("sub", true, false);
    assert!(out.windows(sub_line.len()).any(|w| w == &sub_line[..]));
    assert!(out.ends_with(&separator()));
}

#[test]
fn long_paths_resolve_but_the_header_is_truncated() {
    let (img, bs) = build_image();
    let mut path = b"docs".to_vec();
    for _ in 0..40 {
        path.extend_from_slice(b"/.");
    }
    let mut out = Vec::new();
    let r = change_directory(&img, &bs, FAT_START, DATA_START, 2, &path, &mut out);
    assert_eq!(r, Some(5));

    /* the listing header shows at most 64 bytes of the path */
    let mut reset = Vec::new();
    fat32_driver::cli::reset_cli(&mut reset);
    assert!(out.starts_with(&reset));
    let rest = &out[reset.len()..];
    assert!(rest.starts_with(&path[..64]));
    assert_eq!(rest[64], b'\n');
    assert_eq!(rest[65], b'\n');
}

#[test]
fn components_longer_than_any_short_name_fail_to_match() {
    let (img, bs) = build_image();
    let mut out = Vec::new();
    let r = change_directory(
        &img,
        &bs,
        FAT_START,
        DATA_START,
        2,
        b"averylongcomponentname",
        &mut out,
    );
    assert_eq!(r, None);
    assert!(out.is_empty());
}

#[test]
fn oversized_cluster_geometry_is_rejected() {
    let mut img = vec![0u8; 1024 + 512];
    base_boot_sector(&mut img);
    img[13] = 255; /* 512 * 255 > 65536 bytes per cluster */
    set_fat(&mut img, 2, END);
    let bs = parse(&img);

    let (entries, completed) = iterate_dir_entries(&img, &bs, FAT_START, DATA_START, 2);
    assert!(!completed);
    assert!(entries.is_empty());
    let mut out = Vec::new();
    assert_eq!(change_directory(&img, &bs, FAT_START, DATA_START, 2, b"docs", &mut out), None);
    assert!(out.is_empty());
}
