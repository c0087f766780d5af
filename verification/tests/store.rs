use kufu::db::utils::{clean_one_time_buckets, extract_name, into_string, u64_to_ivec};
use kufu::db::{Bucket, FSManger, SledDb, Storage};
use kufu::error::FsError;
use kufu::fuse::attrs::{FileKind, InodeAttributes};
use kufu::fuse::dentry::{DentryAttributes, Entry};
use kufu::fuse::dentry_text::decode_dentry;
use kufu::fuse::inode_text::decode_inode;

fn fresh_store(name: &str) -> SledDb {
    let nanos = std::time::SystemTime::now()
        .duration_since(std::time::UNIX_EPOCH)
        .unwrap()
        .as_nanos();
    SledDb::new(&format!("/tmp/kufu-tests/store-{}-{}", name, nanos)).unwrap()
}

const T1: (i64, u32) = (1700000000, 1);
const T2: (i64, u32) = (1700000100, 2);

fn tree_with_one_file(store: &mut SledDb) -> (u64, u64, u64) {
    assert_eq!(store.mount_dir("mnt", 0, T1).unwrap(), 0);
    let root = store.mount_dir("default", 0, T1).unwrap();
    let dir = store.mount_dir("default/Pod", root, T1).unwrap();
    let file = store.mount_file("default/Pod/alpha.yaml", dir, b"kind: Pod\n", T1).unwrap();
    (root, dir, file)
}

#[test]
fn bucket_names_are_those_of_the_trees() {
    assert_eq!(Bucket::RIndex.name(), "reverse-index");
    assert_eq!(Bucket::Inode.name(), "inode");
    assert_eq!(Bucket::Dentry.name(), "dentry");
    assert_eq!(Bucket::Data.name(), "data");
}

#[test]
fn last_component_follows_the_last_slash() {
    assert_eq!(extract_name("default/namespace/foo/Pod/alpha.yaml"), "alpha.yaml");
    assert_eq!(extract_name("default"), "default");
    assert_eq!(extract_name("/mnt/kufu"), "kufu");
    assert_eq!(extract_name("a/"), "");
    assert_eq!(extract_name(""), "");
    assert_eq!(extract_name("caf\u{e9}/\u{4e2d}\u{6587}"), "\u{4e2d}\u{6587}");
    assert_eq!(into_string("default/Pod"), "default/Pod".to_string());
}

#[test]
fn new_store_starts_empty_and_issues_inodes_from_zero() {
    let mut store = fresh_store("empty");
    assert!(store.get_bucket(Bucket::RIndex).is_empty());
    assert!(store.get_bucket(Bucket::Inode).is_empty());
    assert!(store.get_bucket(Bucket::Dentry).is_empty());
    assert_eq!(store.mount_dir("mnt", 0, T1).unwrap(), 0);
    assert_eq!(store.mount_dir("default", 0, T1).unwrap(), 1);
}

#[test]
fn opening_a_store_twice_fails_in_the_engine() {
    let nanos = std::time::SystemTime::now()
        .duration_since(std::time::UNIX_EPOCH)
        .unwrap()
        .as_nanos();
    let path = format!("/tmp/kufu-tests/store-twice-{}", nanos);
    let first = SledDb::new(&path).unwrap();
    let second = SledDb::new(&path);
    assert!(matches!(second, Err(FsError::StoreDynamicObjectFailed(_))));
    assert!(first.get_bucket(Bucket::RIndex).is_empty());
}

#[test]
fn reopening_a_store_drops_all_but_the_data() {
    let nanos = std::time::SystemTime::now()
        .duration_since(std::time::UNIX_EPOCH)
        .unwrap()
        .as_nanos();
    let path = format!("/tmp/kufu-tests/store-reopen-{}", nanos);
    {
        let mut store = SledDb::new(&path).unwrap();
        let (_, _, file) = tree_with_one_file(&mut store);
        assert_eq!(file, 3);
        store.get_bucket(Bucket::Data).flush().unwrap();
    }
    let mut store = SledDb::new(&path).unwrap();
    assert!(store.get_bucket(Bucket::RIndex).is_empty());
    assert!(store.get_bucket(Bucket::Inode).is_empty());
    assert!(store.get_bucket(Bucket::Dentry).is_empty());
    assert_eq!(store.get_data(3).unwrap(), b"kind: Pod\n".to_vec());
    assert!(matches!(store.get_inode("default"), Err(FsError::PathNotFound(p)) if p == "default"));
    assert_eq!(store.mount_dir("again", 0, T1).unwrap(), 0);
}

#[test]
fn mount_dir_writes_index_attributes_and_entries() {
    let mut store = fresh_store("mount-dir");
    let root = store.mount_dir("default", 0, T1).unwrap();
    let dir = store.mount_dir("default/Pod", root, T2).unwrap();
    assert_eq!((root, dir), (0, 1));
    assert_eq!(store.get_inode("default").unwrap(), 0);
    assert_eq!(store.get_inode("default/Pod").unwrap(), 1);
    assert_eq!(store.get_inode_attr(1).unwrap(), InodeAttributes::new_dict(1, T2));
    assert_eq!(store.get_dentry(0).unwrap(), DentryAttributes::new("default".to_string(), 0, 0));
    assert!(matches!(store.get_data(1), Err(FsError::ClusterObjectDataNotFound(1))));
    assert_eq!(
        store.get_bucket(Bucket::RIndex).get("default/Pod").unwrap().unwrap().to_vec(),
        u64_to_ivec(1)
    );
}

#[test]
fn mounted_directory_is_listed_in_its_parent() {
    let mut store = fresh_store("listed");
    let top = store.mount_dir("mnt", 0, T1).unwrap();
    let root = store.mount_dir("mnt/default", 7, T1).unwrap();
    let dir = store.mount_dir("mnt/default/Pod", root, T1).unwrap();
    assert_eq!((top, root, dir), (0, 1, 2));
    let parent = store.get_dentry(root).unwrap();
    assert_eq!(parent.parent, 7);
    assert_eq!(
        parent.entries,
        vec![
            Entry { name: ".".to_string(), kind: FileKind::Directory, inode: 1 },
            Entry { name: "..".to_string(), kind: FileKind::Directory, inode: 7 },
            Entry { name: "Pod".to_string(), kind: FileKind::Directory, inode: 2 },
        ]
    );
    let child = store.get_dentry(dir).unwrap();
    assert_eq!(child.parent, root);
    assert_eq!(child.name, "Pod");
    assert_eq!(child.lookup(".."), Some((FileKind::Directory, root)));
    assert_eq!(store.get_dentry(top).unwrap().entries.len(), 1);
}

#[test]
fn mounting_a_directory_twice_gives_one_inode() {
    let mut store = fresh_store("dir-twice");
    let root = store.mount_dir("default", 0, T1).unwrap();
    let first = store.mount_dir("default/Pod", root, T1).unwrap();
    let attr = store.get_inode_attr(first).unwrap();
    let record = store.get_dentry(first).unwrap();
    let parent = store.get_dentry(root).unwrap();
    let second = store.mount_dir("default/Pod", root, T2).unwrap();
    let third = store.mount_dir("default/Pod", 99, T2).unwrap();
    assert_eq!(first, second);
    assert_eq!(first, third);
    assert_eq!(store.get_inode_attr(first).unwrap(), attr);
    assert_eq!(store.get_dentry(first).unwrap(), record);
    assert_eq!(store.get_dentry(root).unwrap(), parent);
    assert_eq!(store.get_bucket(Bucket::RIndex).len(), 2);
    assert_eq!(store.get_bucket(Bucket::Inode).len(), 2);
    assert_eq!(store.mount_dir("default/Other", root, T1).unwrap(), 2);
}

#[test]
fn mount_file_writes_index_attributes_and_data() {
    let mut store = fresh_store("mount-file");
    let (root, dir, file) = tree_with_one_file(&mut store);
    assert_eq!((root, dir, file), (1, 2, 3));
    assert_eq!(store.get_inode("default/Pod/alpha.yaml").unwrap(), 3);
    assert_eq!(store.get_inode_attr(3).unwrap(), InodeAttributes::new_file(3, 10, T1));
    assert_eq!(store.get_data(3).unwrap(), b"kind: Pod\n".to_vec());
    assert!(matches!(store.get_dentry(3), Err(FsError::DentryAttrNotFound(3))));
    assert_eq!(store.get_dentry(dir).unwrap().lookup("alpha.yaml"), Some((FileKind::File, 3)));
}

#[test]
fn mounting_a_file_again_reuses_its_inode() {
    let mut store = fresh_store("file-again");
    let (_, dir, file) = tree_with_one_file(&mut store);
    let again = store.mount_file("default/Pod/alpha.yaml", dir, b"longer content", T2).unwrap();
    assert_eq!(again, file);
    assert_eq!(store.get_inode_attr(file).unwrap(), InodeAttributes::new_file(file, 14, T2));
    assert_eq!(store.get_data(file).unwrap(), b"longer content".to_vec());
    assert_eq!(store.get_dentry(dir).unwrap().entries.len(), 3);
    assert_eq!(store.mount_file("default/Pod/beta.yaml", dir, b"", T2).unwrap(), 4);
    assert_eq!(store.get_inode_attr(4).unwrap().size, 0);
    assert_eq!(store.get_data(4).unwrap(), Vec::<u8>::new());
}

#[test]
fn mounting_the_same_file_twice_changes_nothing() {
    let mut store = fresh_store("file-same");
    let (_, dir, file) = tree_with_one_file(&mut store);
    let attr = store.get_bucket(Bucket::Inode).get(u64_to_ivec(file)).unwrap();
    let listing = store.get_bucket(Bucket::Dentry).get(u64_to_ivec(dir)).unwrap();
    let again = store.mount_file("default/Pod/alpha.yaml", dir, b"kind: Pod\n", T1).unwrap();
    assert_eq!(again, file);
    assert_eq!(store.get_bucket(Bucket::Inode).get(u64_to_ivec(file)).unwrap(), attr);
    assert_eq!(store.get_bucket(Bucket::Dentry).get(u64_to_ivec(dir)).unwrap(), listing);
    assert_eq!(store.get_bucket(Bucket::RIndex).len(), 4);
    assert_eq!(store.mount_dir("next", 0, T1).unwrap(), 4);
}

#[test]
fn edit_file_rewrites_content_and_times_of_modification() {
    let mut store = fresh_store("edit");
    let (_, _, file) = tree_with_one_file(&mut store);
    let mut opened = store.get_inode_attr(file).unwrap();
    opened.open_file_handles = 4;
    opened.uid = 1000;
    store.update_inode(file, opened).unwrap();
    store.edit_file("default/Pod/alpha.yaml", b"changed", T2).unwrap();
    let attr = store.get_inode_attr(file).unwrap();
    assert_eq!(attr.last_modified, T2);
    assert_eq!(attr.last_metadata_changed, T2);
    assert_eq!(attr.last_accessed, T1);
    assert_eq!(attr.open_file_handles, 4);
    assert_eq!(attr.uid, 1000);
    assert_eq!(attr.size, 10);
    assert_eq!(attr.kind, FileKind::File);
    assert_eq!(store.get_data(file).unwrap(), b"changed".to_vec());
}

#[test]
fn edit_file_of_an_unknown_path_is_refused() {
    let mut store = fresh_store("edit-missing");
    tree_with_one_file(&mut store);
    let r = store.edit_file("default/Pod/beta.yaml", b"x", T2);
    assert!(matches!(r, Err(FsError::PathNotFound(p)) if p == "default/Pod/beta.yaml"));
    assert_eq!(store.get_bucket(Bucket::Data).len(), 1);
}

#[test]
fn join_dir_binds_and_overwrites() {
    let mut store = fresh_store("join");
    let (_, dir, file) = tree_with_one_file(&mut store);
    store.join_dir(dir, 40, "alias".to_string(), FileKind::Symlink).unwrap();
    store.join_dir(dir, 41, "alias".to_string(), FileKind::File).unwrap();
    let record = store.get_dentry(dir).unwrap();
    assert_eq!(record.lookup("alias"), Some((FileKind::File, 41)));
    assert_eq!(record.lookup("alpha.yaml"), Some((FileKind::File, file)));
    assert_eq!(record.entries.len(), 4);
}

#[test]
fn join_dir_does_nothing_without_a_parent() {
    let mut store = fresh_store("join-none");
    let (root, _, file) = tree_with_one_file(&mut store);
    let before = store.get_dentry(root).unwrap();
    store.join_dir(0, 5, "x".to_string(), FileKind::File).unwrap();
    assert_eq!(store.get_dentry(root).unwrap(), before);
    store.join_dir(77, 5, "x".to_string(), FileKind::File).unwrap();
    store.join_dir(file, 5, "x".to_string(), FileKind::File).unwrap();
    assert!(matches!(store.get_dentry(77), Err(FsError::DentryAttrNotFound(77))));
    assert!(matches!(store.get_dentry(file), Err(FsError::DentryAttrNotFound(3))));
    assert_eq!(store.get_bucket(Bucket::Dentry).len(), 3);
}

#[test]
fn lookups_of_missing_keys_name_what_is_missing() {
    let store = fresh_store("missing");
    assert!(matches!(store.get_inode_attr(5), Err(FsError::InodeAttrNotFound(5))));
    assert!(matches!(store.get_dentry(6), Err(FsError::DentryAttrNotFound(6))));
    assert!(matches!(store.get_data(u64::MAX - 7), Err(FsError::ClusterObjectDataNotFound(n)) if n == u64::MAX - 7));
    assert!(matches!(store.get_inode("nowhere"), Err(FsError::PathNotFound(p)) if p == "nowhere"));
}

#[test]
fn update_inode_replaces_the_attributes() {
    let mut store = fresh_store("update");
    let mut attr = InodeAttributes::new_file(9, 3, T1);
    attr.xattrs = vec![(b"user.k".to_vec(), b"v".to_vec())];
    attr.hardlinks = 2;
    store.update_inode(9, attr.clone()).unwrap();
    assert_eq!(store.get_inode_attr(9).unwrap(), attr);
    store.update_inode(9, InodeAttributes::new_dict(9, T2)).unwrap();
    assert_eq!(store.get_inode_attr(9).unwrap(), InodeAttributes::new_dict(9, T2));
}

#[test]
fn bytes_that_are_no_record_are_reported() {
    let mut store = fresh_store("corrupt");
    let (root, dir, file) = tree_with_one_file(&mut store);
    store.get_bucket(Bucket::Inode).insert(u64_to_ivec(file), "size: many").unwrap();
    store.get_bucket(Bucket::Dentry).insert(u64_to_ivec(dir), "entries: none").unwrap();
    assert!(matches!(store.get_inode_attr(file), Err(FsError::CorruptRecord(3))));
    assert!(matches!(store.get_dentry(dir), Err(FsError::CorruptRecord(2))));
    let joined = store.join_dir(dir, 9, "x".to_string(), FileKind::File);
    assert!(matches!(joined, Err(FsError::CorruptRecord(2))));
    assert_eq!(
        store.get_bucket(Bucket::Dentry).get(u64_to_ivec(dir)).unwrap().unwrap().to_vec(),
        b"entries: none".to_vec()
    );
    let edited = store.edit_file("default/Pod/alpha.yaml", b"new", T2);
    assert!(matches!(edited, Err(FsError::CorruptRecord(3))));
    assert_eq!(store.get_data(file).unwrap(), b"kind: Pod\n".to_vec());
    assert!(store.get_dentry(root).is_ok());
}

#[test]
fn index_values_that_are_no_inode_key_are_reported() {
    let mut store = fresh_store("corrupt-index");
    tree_with_one_file(&mut store);
    store.get_bucket(Bucket::RIndex).insert("broken", "12").unwrap();
    assert!(matches!(store.get_inode("broken"), Err(FsError::CorruptIndex(p)) if p == "broken"));
    assert!(matches!(store.mount_dir("broken", 0, T1), Err(FsError::CorruptIndex(_))));
    assert!(matches!(store.mount_file("broken", 0, b"", T1), Err(FsError::CorruptIndex(_))));
    assert!(matches!(store.edit_file("broken", b"", T1), Err(FsError::CorruptIndex(_))));
    assert_eq!(store.mount_dir("fine", 0, T1).unwrap(), 4);
}

#[test]
fn every_indexed_path_has_attributes() {
    let mut store = fresh_store("index-consistent");
    let (_, dir, _) = tree_with_one_file(&mut store);
    store.mount_file("default/Pod/beta.yaml", dir, b"b", T2).unwrap();
    store.mount_dir("default/Namespace", 0, T2).unwrap();
    store.edit_file("default/Pod/alpha.yaml", b"c", T2).unwrap();
    let mut paths = 0;
    for pair in store.get_bucket(Bucket::RIndex).iter() {
        let (path, key) = pair.unwrap();
        assert_eq!(key.len(), 8);
        let path = String::from_utf8(path.to_vec()).unwrap();
        let inode = store.get_inode(&path).unwrap();
        assert_eq!(u64_to_ivec(inode), key.to_vec());
        assert_eq!(store.get_inode_attr(inode).unwrap().inode, inode);
        paths += 1;
    }
    assert_eq!(paths, 6);
}

#[test]
fn listed_directories_name_their_parent() {
    let mut store = fresh_store("symmetry");
    let top = store.mount_dir("mnt", 0, T1).unwrap();
    let root = store.mount_dir("default", top, T1).unwrap();
    let all = store.mount_dir("default/namespace", root, T1).unwrap();
    let ns = store.mount_dir("default/namespace/foo", all, T1).unwrap();
    let pods = store.mount_dir("default/namespace/foo/Pod", ns, T1).unwrap();
    store.mount_file("default/namespace/foo/Pod/alpha.yaml", pods, b"x", T1).unwrap();
    let mut checked = 0;
    for pair in store.get_bucket(Bucket::Dentry).iter() {
        let (key, bytes) = pair.unwrap();
        let d = u64::from_be_bytes(key.as_ref().try_into().unwrap());
        let record = decode_dentry(&bytes).unwrap();
        for entry in record.entries.iter() {
            if entry.name == "." || entry.name == ".." || entry.kind != FileKind::Directory {
                continue;
            }
            assert_eq!(store.get_dentry(entry.inode).unwrap().parent, d);
            checked += 1;
        }
    }
    assert_eq!(checked, 3);
    for pair in store.get_bucket(Bucket::Inode).iter() {
        let (_, bytes) = pair.unwrap();
        assert!(decode_inode(&bytes).is_some());
    }
}

#[test]
fn cleaning_drops_the_three_short_lived_buckets() {
    let nanos = std::time::SystemTime::now()
        .duration_since(std::time::UNIX_EPOCH)
        .unwrap()
        .as_nanos();
    let mut db = sled::open(format!("/tmp/kufu-tests/store-clean-{}", nanos)).unwrap();
    for name in ["reverse-index", "inode", "dentry", "data", "other"] {
        db.open_tree(name).unwrap().insert("k", "v").unwrap();
    }
    clean_one_time_buckets(&mut db).unwrap();
    let mut left: Vec<String> = db
        .tree_names()
        .iter()
        .map(|name| String::from_utf8(name.to_vec()).unwrap())
        .filter(|name| !name.starts_with("__"))
        .collect();
    left.sort();
    assert_eq!(left, vec!["data".to_string(), "other".to_string()]);
    assert!(db.open_tree("inode").unwrap().is_empty());
    assert_eq!(db.open_tree("data").unwrap().get("k").unwrap().unwrap().to_vec(), b"v".to_vec());
    clean_one_time_buckets(&mut db).unwrap();
    assert!(db.open_tree("dentry").unwrap().is_empty());
}
