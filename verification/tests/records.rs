use kufu::db::utils::{handle_next_inode, ivec_to_u64, u64_to_ivec};
use kufu::fuse::attrs::{
    time_from_offset, time_from_system_time, time_now, FileAttr, FileKind, InodeAttributes,
};
use kufu::fuse::bytelist::{put_byte_list, take_byte_list};
use kufu::fuse::dentry::{bytes_rank, DentryAttributes, Entry, Rank};
use kufu::fuse::dentry_text::{decode_dentry, encode_dentry};
use kufu::fuse::inode_text::{decode_inode, encode_inode};
use kufu::fuse::quoted::{put_quoted, take_quoted};
use kufu::fuse::text::{put_int, put_nat, take_int, take_nat, take_word};

fn text(bytes: &[u8]) -> String {
    String::from_utf8(bytes.to_vec()).unwrap()
}

#[test]
fn inode_key_is_eight_big_endian_bytes() {
    assert_eq!(u64_to_ivec(0), vec![0u8, 0, 0, 0, 0, 0, 0, 0]);
    assert_eq!(u64_to_ivec(1), vec![0u8, 0, 0, 0, 0, 0, 0, 1]);
    assert_eq!(u64_to_ivec(0x0102030405060708), vec![1u8, 2, 3, 4, 5, 6, 7, 8]);
    assert_eq!(u64_to_ivec(u64::MAX), vec![255u8; 8]);
    assert_eq!(u64_to_ivec(258), 258u64.to_be_bytes().to_vec());
}

#[test]
fn inode_key_reads_back() {
    assert_eq!(ivec_to_u64(&[0, 0, 0, 0, 0, 0, 1, 2]), 258);
    for number in [0u64, 1, 255, 256, 1 << 40, u64::MAX - 1, u64::MAX] {
        assert_eq!(ivec_to_u64(&u64_to_ivec(number)), number);
    }
}

#[test]
fn inode_numbers_rise_by_one() {
    let mut counter = 0u64;
    let first = handle_next_inode(&mut counter);
    let second = handle_next_inode(&mut counter);
    let third = handle_next_inode(&mut counter);
    assert_eq!(first, (0, u64_to_ivec(0)));
    assert_eq!(second, (1, u64_to_ivec(1)));
    assert_eq!(third.0, 2);
    assert!(first.0 < second.0 && second.0 < third.0);
    assert_eq!(counter, 3);
}

#[test]
fn inode_counter_wraps_after_the_largest_number() {
    let mut counter = u64::MAX;
    assert_eq!(handle_next_inode(&mut counter).0, u64::MAX);
    assert_eq!(counter, 0);
}

#[test]
fn numbers_are_written_in_decimal() {
    let mut buf = Vec::new();
    put_nat(&mut buf, 0);
    buf.push(b' ');
    put_nat(&mut buf, 511);
    buf.push(b' ');
    put_nat(&mut buf, u64::MAX);
    buf.push(b' ');
    put_int(&mut buf, -3);
    buf.push(b' ');
    put_int(&mut buf, i64::MIN);
    buf.push(b' ');
    put_int(&mut buf, i64::MAX);
    assert_eq!(
        text(&buf),
        "0 511 18446744073709551615 -3 -9223372036854775808 9223372036854775807"
    );
}

#[test]
fn numbers_are_read_up_to_their_bound() {
    assert_eq!(take_nat(b"255]", 0, 255), Some((255, 3)));
    assert_eq!(take_nat(b"256]", 0, 255), None);
    assert_eq!(take_nat(b"x12", 1, 100), Some((12, 3)));
    assert_eq!(take_nat(b"abc", 0, 100), None);
    assert_eq!(take_nat(b"", 0, 100), None);
    assert_eq!(take_nat(b"18446744073709551615", 0, u64::MAX), Some((u64::MAX, 20)));
    assert_eq!(take_nat(b"18446744073709551616", 0, u64::MAX), None);
    assert_eq!(take_nat(b"007", 0, 100), Some((7, 3)));
    assert_eq!(take_int(b"-9223372036854775808,", 0), Some((i64::MIN, 20)));
    assert_eq!(take_int(b"-9223372036854775809,", 0), None);
    assert_eq!(take_int(b"9223372036854775807", 0), Some((i64::MAX, 19)));
    assert_eq!(take_int(b"9223372036854775808", 0), None);
    assert_eq!(take_int(b"-", 0), None);
    assert_eq!(take_word(b"kind: File", 0, "kind: "), Some(6));
    assert_eq!(take_word(b"kind: File", 0, "mode: "), None);
    assert_eq!(take_word(b"ki", 0, "kind: "), None);
}

#[test]
fn strings_are_quoted_and_escaped() {
    let mut buf = Vec::new();
    put_quoted(&mut buf, b"a\"b\\c\n\x7f\xc3\xa9");
    assert_eq!(buf, b"\"a\\\"b\\\\c\\x0A\\x7F\xc3\xa9\"".to_vec());
    assert_eq!(take_quoted(&buf, 0), Some((b"a\"b\\c\n\x7f\xc3\xa9".to_vec(), buf.len())));
}

#[test]
fn malformed_quoted_strings_are_refused() {
    assert_eq!(take_quoted(b"abc\"", 0), None);
    assert_eq!(take_quoted(b"\"abc", 0), None);
    assert_eq!(take_quoted(b"\"a\\q\"", 0), None);
    assert_eq!(take_quoted(b"\"a\\x4\"", 0), None);
    assert_eq!(take_quoted(b"\"a\\x41\"", 0), None);
    assert_eq!(take_quoted(b"\"a\nb\"", 0), None);
    assert_eq!(take_quoted(b"\"\" rest", 0), Some((Vec::new(), 2)));
}

#[test]
fn byte_lists_are_written_in_brackets() {
    let mut buf = Vec::new();
    put_byte_list(&mut buf, &[]);
    put_byte_list(&mut buf, &[7]);
    put_byte_list(&mut buf, &[1, 20, 255]);
    assert_eq!(text(&buf), "[][7][1, 20, 255]");
    assert_eq!(take_byte_list(&buf, 0), Some((Vec::new(), 2)));
    assert_eq!(take_byte_list(&buf, 2), Some((vec![7u8], 5)));
    assert_eq!(take_byte_list(&buf, 5), Some((vec![1u8, 20, 255], buf.len())));
    assert_eq!(take_byte_list(b"[1,2]", 0), None);
    assert_eq!(take_byte_list(b"[256]", 0), None);
    assert_eq!(take_byte_list(b"[1, 2", 0), None);
}

#[test]
fn byte_strings_are_ranked_byte_by_byte() {
    assert_eq!(bytes_rank(b".", b".."), Rank::Before);
    assert_eq!(bytes_rank(b"..", b"."), Rank::After);
    assert_eq!(bytes_rank(b"Pod", b"Pod"), Rank::Same);
    assert_eq!(bytes_rank(b"Namespace", b"Pod"), Rank::Before);
    assert_eq!(bytes_rank(b"b", b"a"), Rank::After);
    assert_eq!(bytes_rank(b"", b""), Rank::Same);
    assert_eq!(bytes_rank(b"", b"a"), Rank::Before);
}

#[test]
fn new_file_has_the_given_size_and_time() {
    let attr = InodeAttributes::new_file(5, 12, (1700000000, 7));
    assert_eq!(
        attr,
        InodeAttributes {
            inode: 5,
            open_file_handles: 0,
            size: 12,
            last_accessed: (1700000000, 7),
            last_modified: (1700000000, 7),
            last_metadata_changed: (1700000000, 7),
            kind: FileKind::File,
            mode: 0o777,
            hardlinks: 0,
            uid: 0,
            gid: 0,
            xattrs: Vec::new(),
        }
    );
}

#[test]
fn new_dict_is_an_empty_directory() {
    let attr = InodeAttributes::new_dict(9, (-5, 1));
    assert_eq!(attr.inode, 9);
    assert_eq!(attr.size, 0);
    assert_eq!(attr.kind, FileKind::Directory);
    assert_eq!(attr.mode, 0o777);
    assert_eq!(attr.last_accessed, (-5, 1));
    assert_eq!(attr.last_modified, (-5, 1));
    assert_eq!(attr.last_metadata_changed, (-5, 1));
    assert_eq!(attr.open_file_handles, 0);
    assert!(attr.xattrs.is_empty());
}

#[test]
fn inode_attributes_are_stored_as_lines() {
    let attr = InodeAttributes::new_file(5, 12, (1700000000, 7));
    assert_eq!(
        text(&encode_inode(&attr)),
        "inode: 5\n\
         open_file_handles: 0\n\
         size: 12\n\
         last_accessed: [1700000000, 7]\n\
         last_modified: [1700000000, 7]\n\
         last_metadata_changed: [1700000000, 7]\n\
         kind: File\n\
         mode: 511\n\
         hardlinks: 0\n\
         uid: 0\n\
         gid: 0\n\
         xattrs: {}\n"
    );
}

fn busy_attributes() -> InodeAttributes {
    InodeAttributes {
        inode: u64::MAX,
        open_file_handles: 3,
        size: 4096,
        last_accessed: (i64::MIN, u32::MAX),
        last_modified: (-1, 0),
        last_metadata_changed: (i64::MAX, 999_999_999),
        kind: FileKind::Symlink,
        mode: u16::MAX,
        hardlinks: u32::MAX,
        uid: 1000,
        gid: 100,
        xattrs: vec![(vec![], vec![]), (vec![1, 2], vec![3]), (vec![255], vec![0, 0])],
    }
}

#[test]
fn inode_attributes_read_back() {
    for attr in [
        InodeAttributes::new_file(0, 0, (0, 0)),
        InodeAttributes::new_dict(7, (1700000000, 123456789)),
        busy_attributes(),
    ] {
        assert_eq!(decode_inode(&encode_inode(&attr)), Some(attr));
    }
}

#[test]
fn extended_attributes_are_stored_as_a_block() {
    let stored = text(&encode_inode(&busy_attributes()));
    assert!(stored.ends_with(
        "xattrs:\n  ? []\n  : []\n  ? [1, 2]\n  : [3]\n  ? [255]\n  : [0, 0]\n"
    ));
    assert!(stored.contains("last_accessed: [-9223372036854775808, 4294967295]\n"));
    assert!(stored.contains("kind: Symlink\n"));
}

#[test]
fn extended_attributes_out_of_order_do_not_read_back() {
    let mut attr = InodeAttributes::new_file(1, 0, (0, 0));
    attr.xattrs = vec![(vec![2], vec![0]), (vec![1], vec![0])];
    assert_eq!(decode_inode(&encode_inode(&attr)), None);
    attr.xattrs = vec![(vec![1], vec![0]), (vec![1], vec![1])];
    assert_eq!(decode_inode(&encode_inode(&attr)), None);
    attr.xattrs = vec![(vec![1], vec![0]), (vec![1, 0], vec![1]), (vec![2], vec![])];
    assert_eq!(decode_inode(&encode_inode(&attr)), Some(attr));
}

#[test]
fn text_that_is_no_inode_record_is_refused() {
    let good = encode_inode(&InodeAttributes::new_file(5, 12, (1, 2)));
    assert!(decode_inode(&good).is_some());
    assert_eq!(decode_inode(b""), None);
    assert_eq!(decode_inode(b"inode: 5\n"), None);
    assert_eq!(decode_inode(&good[..good.len() - 1]), None);
    let mut longer = good.clone();
    longer.push(b'\n');
    assert_eq!(decode_inode(&longer), None);
    let wrong_kind = text(&good).replace("kind: File", "kind: Socket");
    assert_eq!(decode_inode(wrong_kind.as_bytes()), None);
    let wide_mode = text(&good).replace("mode: 511", "mode: 65536");
    assert_eq!(decode_inode(wide_mode.as_bytes()), None);
    let swapped = text(&good).replace("uid: 0\ngid: 0\n", "gid: 0\nuid: 0\n");
    assert_eq!(decode_inode(swapped.as_bytes()), None);
}

#[test]
fn inode_record_is_yaml() {
    let stored = encode_inode(&busy_attributes());
    let value: serde_yaml::Value = serde_yaml::from_slice(&stored).unwrap();
    assert_eq!(value.get("inode").and_then(|v| v.as_u64()), Some(u64::MAX));
    assert_eq!(value.get("size").and_then(|v| v.as_u64()), Some(4096));
    assert_eq!(value.get("kind").and_then(|v| v.as_str()), Some("Symlink"));
    assert_eq!(value.get("mode").and_then(|v| v.as_u64()), Some(65535));
    let modified = value.get("last_modified").and_then(|v| v.as_sequence()).unwrap();
    assert_eq!(modified.len(), 2);
    assert_eq!(modified[0].as_i64(), Some(-1));
    assert_eq!(modified[1].as_u64(), Some(0));
    let xattrs = value.get("xattrs").and_then(|v| v.as_mapping()).unwrap();
    assert_eq!(xattrs.len(), 3);
    let key = serde_yaml::Value::Sequence(vec![
        serde_yaml::Value::Number(1u64.into()),
        serde_yaml::Value::Number(2u64.into()),
    ]);
    let bound = xattrs.get(&key).and_then(|v| v.as_sequence()).unwrap();
    assert_eq!(bound.len(), 1);
    assert_eq!(bound[0].as_u64(), Some(3));
    let plain: serde_yaml::Value =
        serde_yaml::from_slice(&encode_inode(&InodeAttributes::new_dict(1, (2, 3)))).unwrap();
    assert!(plain.get("xattrs").and_then(|v| v.as_mapping()).unwrap().is_empty());
}

#[test]
fn fresh_directory_lists_itself_and_its_parent() {
    let child = DentryAttributes::new("Pod".to_string(), 3, 2);
    assert_eq!(child.parent, 2);
    assert_eq!(child.name, "Pod");
    assert_eq!(
        child.entries,
        vec![
            Entry { name: ".".to_string(), kind: FileKind::Directory, inode: 3 },
            Entry { name: "..".to_string(), kind: FileKind::Directory, inode: 2 },
        ]
    );
    let root = DentryAttributes::new("mnt".to_string(), 0, 0);
    assert_eq!(root.parent, 0);
    assert_eq!(
        root.entries,
        vec![Entry { name: ".".to_string(), kind: FileKind::Directory, inode: 0 }]
    );
}

#[test]
fn entries_are_kept_in_the_order_of_their_names() {
    let mut record = DentryAttributes::new("ns".to_string(), 3, 2);
    record.insert("Pod".to_string(), FileKind::Directory, 9);
    record.insert("ConfigMap".to_string(), FileKind::Directory, 8);
    record.insert("a.yaml".to_string(), FileKind::File, 7);
    record.insert("-".to_string(), FileKind::File, 6);
    let names: Vec<&str> = record.entries.iter().map(|e| e.name.as_str()).collect();
    assert_eq!(names, vec!["-", ".", "..", "ConfigMap", "Pod", "a.yaml"]);
    assert_eq!(record.lookup("Pod"), Some((FileKind::Directory, 9)));
    assert_eq!(record.lookup("a.yaml"), Some((FileKind::File, 7)));
    assert_eq!(record.lookup("."), Some((FileKind::Directory, 3)));
    assert_eq!(record.lookup("missing"), None);
    assert_eq!(record.lookup(""), None);
}

#[test]
fn binding_a_name_again_replaces_the_binding() {
    let mut record = DentryAttributes::new("ns".to_string(), 3, 2);
    record.insert("alpha.yaml".to_string(), FileKind::File, 7);
    let once = record.clone();
    record.insert("alpha.yaml".to_string(), FileKind::File, 7);
    assert_eq!(record, once);
    record.insert("alpha.yaml".to_string(), FileKind::Directory, 8);
    assert_eq!(record.entries.len(), 3);
    assert_eq!(record.lookup("alpha.yaml"), Some((FileKind::Directory, 8)));
}

#[test]
fn directory_record_is_stored_as_lines() {
    let mut record = DentryAttributes::new("Pod".to_string(), 3, 2);
    record.insert("q\"x.yaml".to_string(), FileKind::File, 12);
    assert_eq!(
        text(&encode_dentry(&record)),
        "parent: 2\n\
         entries:\n  ? \".\"\n  : [Directory, 3]\n  ? \"..\"\n  : [Directory, 2]\n  ? \"q\\\"x.yaml\"\n  : [File, 12]\n\
         name: \"Pod\"\n"
    );
    let empty = DentryAttributes { parent: 0, entries: Vec::new(), name: String::new() };
    assert_eq!(text(&encode_dentry(&empty)), "parent: 0\nentries: {}\nname: \"\"\n");
}

#[test]
fn directory_record_reads_back() {
    let mut record = DentryAttributes::new("caf\u{e9} \u{1F600}".to_string(), u64::MAX, 1);
    record.insert("tab\there".to_string(), FileKind::Symlink, 4);
    record.insert("back\\slash".to_string(), FileKind::File, 5);
    record.insert("\u{4e2d}\u{6587}".to_string(), FileKind::Directory, 6);
    assert_eq!(decode_dentry(&encode_dentry(&record)), Some(record));
    let empty = DentryAttributes { parent: 0, entries: Vec::new(), name: String::new() };
    assert_eq!(decode_dentry(&encode_dentry(&empty)), Some(empty));
}

#[test]
fn text_that_is_no_directory_record_is_refused() {
    assert_eq!(decode_dentry(b""), None);
    assert_eq!(decode_dentry(b"parent: 1\nentries: {}\n"), None);
    assert_eq!(decode_dentry(b"parent: 1\nentries: {}\nname: \"\xff\"\n"), None);
    assert_eq!(decode_dentry(b"parent: 1\nentries: {}\nname: \"a\"\n\n"), None);
    let unordered = b"parent: 1\nentries:\n  ? \"b\"\n  : [File, 2]\n  ? \"a\"\n  : [File, 3]\nname: \"d\"\n";
    assert_eq!(decode_dentry(unordered), None);
    let twice = b"parent: 1\nentries:\n  ? \"a\"\n  : [File, 2]\n  ? \"a\"\n  : [File, 3]\nname: \"d\"\n";
    assert_eq!(decode_dentry(twice), None);
    let ordered = b"parent: 1\nentries:\n  ? \"a\"\n  : [File, 2]\n  ? \"b\"\n  : [File, 3]\nname: \"d\"\n";
    let record = decode_dentry(ordered).unwrap();
    assert_eq!(record.lookup("b"), Some((FileKind::File, 3)));
    assert_eq!(record.name, "d");
}

#[test]
fn directory_record_is_yaml() {
    let mut record = DentryAttributes::new("Pod".to_string(), 3, 2);
    record.insert("q \"x\" \\ y.yaml".to_string(), FileKind::File, 12);
    record.insert("caf\u{e9}".to_string(), FileKind::Directory, 13);
    let value: serde_yaml::Value = serde_yaml::from_slice(&encode_dentry(&record)).unwrap();
    assert_eq!(value.get("parent").and_then(|v| v.as_u64()), Some(2));
    assert_eq!(value.get("name").and_then(|v| v.as_str()), Some("Pod"));
    let entries = value.get("entries").and_then(|v| v.as_mapping()).unwrap();
    assert_eq!(entries.len(), 4);
    let file = entries
        .get(&serde_yaml::Value::String("q \"x\" \\ y.yaml".to_string()))
        .and_then(|v| v.as_sequence())
        .unwrap();
    assert_eq!(file[0].as_str(), Some("File"));
    assert_eq!(file[1].as_u64(), Some(12));
    let dir = entries
        .get(&serde_yaml::Value::String("caf\u{e9}".to_string()))
        .and_then(|v| v.as_sequence())
        .unwrap();
    assert_eq!(dir[0].as_str(), Some("Directory"));
    assert_eq!(dir[1].as_u64(), Some(13));
    let dotdot = entries
        .get(&serde_yaml::Value::String("..".to_string()))
        .and_then(|v| v.as_sequence())
        .unwrap();
    assert_eq!(dotdot[1].as_u64(), Some(2));
}

#[test]
fn control_characters_in_names_are_escaped_as_yaml_does() {
    let mut record = DentryAttributes { parent: 1, entries: Vec::new(), name: "d".to_string() };
    record.insert("a\u{1}\nb\u{7f}".to_string(), FileKind::File, 2);
    let stored = encode_dentry(&record);
    assert!(text(&stored).contains("? \"a\\x01\\x0Ab\\x7F\"\n"));
    let value: serde_yaml::Value = serde_yaml::from_slice(&stored).unwrap();
    let entries = value.get("entries").and_then(|v| v.as_mapping()).unwrap();
    assert!(entries.get(&serde_yaml::Value::String("a\u{1}\nb\u{7f}".to_string())).is_some());
}

#[test]
fn stat_reports_blocks_of_512_bytes() {
    let blocks = |size: u64| FileAttr::from(InodeAttributes::new_file(1, size, (0, 0))).blocks;
    assert_eq!(blocks(0), 0);
    assert_eq!(blocks(1), 1);
    assert_eq!(blocks(512), 1);
    assert_eq!(blocks(513), 2);
    assert_eq!(blocks(1024), 2);
    assert_eq!(blocks(u64::MAX), 36028797018963968);
}

#[test]
fn stat_copies_the_attributes() {
    let attr = FileAttr::from(busy_attributes());
    assert_eq!(
        attr,
        FileAttr {
            ino: u64::MAX,
            size: 4096,
            blocks: 8,
            atime: (i64::MIN, u32::MAX),
            mtime: (-1, 0),
            ctime: (i64::MAX, 999_999_999),
            crtime: (0, 0),
            kind: FileKind::Symlink,
            perm: u16::MAX,
            nlink: u32::MAX,
            uid: 1000,
            gid: 100,
            rdev: 0,
            blksize: 512,
            flags: 0,
        }
    );
}

#[test]
fn time_stamps_count_from_the_epoch() {
    assert_eq!(time_from_offset(Ok((0, 0))), (0, 0));
    assert_eq!(time_from_offset(Ok((1700000000, 5))), (1700000000, 5));
    assert_eq!(time_from_offset(Err((3, 5))), (-3, 5));
    assert_eq!(time_from_offset(Err((0, 9))), (0, 9));
    assert_eq!(time_from_offset(Ok((i64::MAX as u64, 1))), (i64::MAX, 1));
    assert_eq!(time_from_offset(Ok((u64::MAX, 1))), (i64::MAX, 1));
    assert_eq!(time_from_offset(Err((u64::MAX, 1))), (-i64::MAX, 1));
}

#[test]
fn clock_readings_become_time_stamps() {
    let epoch = std::time::UNIX_EPOCH;
    assert_eq!(time_from_system_time(&epoch), (0, 0));
    let later = epoch + std::time::Duration::new(1700000000, 42);
    assert_eq!(time_from_system_time(&later), (1700000000, 42));
    let earlier = epoch - std::time::Duration::new(10, 500);
    assert_eq!(time_from_system_time(&earlier), (-10, 500));
    let now = time_now();
    assert!(now.0 > 1_600_000_000);
    assert!(now.1 < 1_000_000_000);
}
