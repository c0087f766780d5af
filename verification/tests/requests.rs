use kufu::db::{FSManger, SledDb};
use kufu::error::FsError;
use kufu::fuse::attrs::{FileAttr, FileKind, InodeAttributes};
use kufu::fuse::inner::{
    next_file_handle, DirItem, FsInner, FILE_HANDLE_READ_BIT, FILE_HANDLE_WRITE_BIT,
};

const T1: (i64, u32) = (1700000000, 1);

fn handler(name: &str) -> FsInner {
    let nanos = std::time::SystemTime::now()
        .duration_since(std::time::UNIX_EPOCH)
        .unwrap()
        .as_nanos();
    let store = SledDb::new(&format!("/tmp/kufu-tests/requests-{}-{}", name, nanos)).unwrap();
    let mut inner = FsInner::new(store);
    inner.init_at("/mnt/kufu", T1).unwrap();
    let dir = inner.store.mount_dir("default/Pod", 1, T1).unwrap();
    assert_eq!(dir, 2);
    assert_eq!(inner.store.mount_file("default/Pod/a.yaml", dir, b"0123456789", T1).unwrap(), 3);
    assert_eq!(inner.store.mount_file("default/Pod/b.yaml", dir, b"", T1).unwrap(), 4);
    inner
}

#[test]
fn init_reads_the_clock() {
    let nanos = std::time::SystemTime::now()
        .duration_since(std::time::UNIX_EPOCH)
        .unwrap()
        .as_nanos();
    let store = SledDb::new(&format!("/tmp/kufu-tests/requests-init-{}", nanos)).unwrap();
    let mut inner = FsInner::new(store);
    assert_eq!(inner.next_handle, 0);
    let before = kufu::fuse::attrs::time_now();
    inner.init("/mnt/kufu".to_string(), vec!["local".to_string()]).unwrap();
    let after = kufu::fuse::attrs::time_now();
    let attr = inner.store.get_inode_attr(1).unwrap();
    assert!(before <= attr.last_accessed && attr.last_accessed <= after);
    assert_eq!(inner.store.get_inode("default").unwrap(), 1);
    assert_eq!(inner.store.get_inode("/mnt/kufu").unwrap(), 0);
    inner.init("/mnt/kufu".to_string(), Vec::new()).unwrap();
    assert_eq!(inner.store.get_inode_attr(1).unwrap(), attr);
}

#[test]
fn getattr_reports_the_attributes() {
    let inner = handler("getattr");
    assert_eq!(
        inner.get_attr(3).unwrap(),
        FileAttr::from(InodeAttributes::new_file(3, 10, T1))
    );
    assert_eq!(inner.get_attr(3).unwrap().blocks, 1);
    assert_eq!(inner.get_attr(2).unwrap().kind, FileKind::Directory);
    assert!(matches!(inner.get_attr(9), Err(FsError::InodeAttrNotFound(9))));
}

#[test]
fn lookup_finds_an_entry_by_its_name() {
    let inner = handler("lookup");
    assert_eq!(inner.look_up(2, "a.yaml").unwrap().ino, 3);
    assert_eq!(inner.look_up(2, "b.yaml").unwrap().size, 0);
    assert_eq!(inner.look_up(1, "Pod").unwrap().ino, 2);
    assert_eq!(inner.look_up(2, "..").unwrap().ino, 1);
    assert_eq!(inner.look_up(2, ".").unwrap().ino, 2);
}

#[test]
fn lookup_of_a_missing_name_names_directory_and_entry() {
    let inner = handler("lookup-missing");
    let missing = inner.look_up(2, "c.yaml");
    assert!(matches!(
        missing,
        Err(FsError::ChildEntryNotFound(parent, child)) if parent == "Pod" && child == "c.yaml"
    ));
    assert!(matches!(inner.look_up(3, "x"), Err(FsError::DentryAttrNotFound(3))));
    inner.store.get_dentry(2).unwrap();
    let mut inner = inner;
    inner.store.join_dir(2, 77, "ghost".to_string(), FileKind::File).unwrap();
    assert!(matches!(inner.look_up(2, "ghost"), Err(FsError::InodeAttrNotFound(77))));
}

fn line(inode: u64, offset: i64, kind: FileKind, name: &str) -> DirItem {
    DirItem { inode, offset, kind, name: name.to_string() }
}

#[test]
fn readdir_lists_the_entries_from_an_offset() {
    let inner = handler("readdir");
    let all = vec![
        line(2, 1, FileKind::Directory, "."),
        line(1, 2, FileKind::Directory, ".."),
        line(3, 3, FileKind::File, "a.yaml"),
        line(4, 4, FileKind::File, "b.yaml"),
    ];
    assert_eq!(inner.read_dir(2, 0).unwrap(), all);
    assert_eq!(inner.read_dir(2, 2).unwrap(), all[2..].to_vec_by_clone());
    assert_eq!(inner.read_dir(2, 3).unwrap(), all[3..].to_vec_by_clone());
    assert_eq!(inner.read_dir(2, 4).unwrap(), Vec::new());
    assert_eq!(inner.read_dir(2, 5).unwrap(), Vec::new());
    assert_eq!(inner.read_dir(2, -1).unwrap(), Vec::new());
    assert_eq!(inner.read_dir(2, i64::MAX).unwrap(), Vec::new());
    assert!(matches!(inner.read_dir(3, 0), Err(FsError::DentryAttrNotFound(3))));
}

trait CloneLines {
    fn to_vec_by_clone(&self) -> Vec<DirItem>;
}

impl CloneLines for [DirItem] {
    fn to_vec_by_clone(&self) -> Vec<DirItem> {
        self.iter().map(|l| line(l.inode, l.offset, l.kind, &l.name)).collect()
    }
}

#[test]
fn opendir_counts_handles_and_marks_the_intents() {
    let mut inner = handler("opendir");
    assert_eq!(inner.open_dir(2, false, false).unwrap(), 0);
    assert_eq!(inner.open_dir(2, true, false).unwrap(), 1 | FILE_HANDLE_READ_BIT);
    assert_eq!(inner.open_dir(2, false, true).unwrap(), 2 | FILE_HANDLE_WRITE_BIT);
    assert_eq!(
        inner.open_dir(3, true, true).unwrap(),
        3 | FILE_HANDLE_READ_BIT | FILE_HANDLE_WRITE_BIT
    );
    assert_eq!(inner.store.get_inode_attr(2).unwrap().open_file_handles, 3);
    assert_eq!(inner.store.get_inode_attr(3).unwrap().open_file_handles, 1);
    assert_eq!(inner.store.get_inode_attr(3).unwrap().size, 10);
    assert_eq!(inner.next_handle, 4);
    assert!(matches!(inner.open_dir(9, true, false), Err(FsError::InodeAttrNotFound(9))));
    assert_eq!(inner.next_handle, 4);
    assert_eq!(FILE_HANDLE_READ_BIT, 1 << 63);
    assert_eq!(FILE_HANDLE_WRITE_BIT, 1 << 62);
}

#[test]
fn open_handle_count_stays_at_its_largest_value() {
    let mut inner = handler("opendir-full");
    let mut attr = inner.store.get_inode_attr(3).unwrap();
    attr.open_file_handles = u64::MAX;
    inner.store.update_inode(3, attr).unwrap();
    inner.open_dir(3, true, false).unwrap();
    assert_eq!(inner.store.get_inode_attr(3).unwrap().open_file_handles, u64::MAX);
}

#[test]
fn file_handle_numbers_rise_by_one() {
    let mut counter = 41u64;
    assert_eq!(next_file_handle(&mut counter), 41);
    assert_eq!(next_file_handle(&mut counter), 42);
    assert_eq!(counter, 43);
    let mut last = u64::MAX;
    assert_eq!(next_file_handle(&mut last), u64::MAX);
    assert_eq!(last, 0);
}

#[test]
fn read_gives_the_bytes_of_a_range() {
    let inner = handler("read");
    assert_eq!(inner.read(3, 0, 4).unwrap(), b"0123".to_vec());
    assert_eq!(inner.read(3, 4, 4).unwrap(), b"4567".to_vec());
    assert_eq!(inner.read(3, 8, 4).unwrap(), b"89".to_vec());
    assert_eq!(inner.read(3, 0, 10).unwrap(), b"0123456789".to_vec());
    assert_eq!(inner.read(3, 0, u32::MAX).unwrap(), b"0123456789".to_vec());
    assert_eq!(inner.read(3, 9, 0).unwrap(), Vec::<u8>::new());
    assert_eq!(inner.read(3, 10, 4).unwrap(), Vec::<u8>::new());
    assert_eq!(inner.read(3, 11, 4).unwrap(), Vec::<u8>::new());
    assert_eq!(inner.read(3, -1, 4).unwrap(), Vec::<u8>::new());
    assert_eq!(inner.read(3, i64::MAX, 4).unwrap(), Vec::<u8>::new());
    assert_eq!(inner.read(4, 0, 4).unwrap(), Vec::<u8>::new());
    assert!(matches!(inner.read(2, 0, 4), Err(FsError::ClusterObjectDataNotFound(2))));
}
