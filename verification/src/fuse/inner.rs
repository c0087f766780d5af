//! The request handler: what the filesystem answers to a lookup, a stat, a
//! listing, an open and a read. It never writes on behalf of a user.
use vstd::prelude::*;
use vstd::slice::{slice_subrange, slice_to_vec};
use crate::db::laws::{lemma_mount_dir_wf, lemma_update_inode_wf};
use crate::db::model::FsState;
use crate::db::utils::wrapping_succ;
use crate::db::{outcome_view, FSManger, SledDb};
use crate::error::{engine_failed, outcome, FsError, FsErrorView};
use crate::fuse::attrs::{file_attr_of, time_now, FileAttr, FileKind, MAX_NANOS};
use crate::fuse::dentry::DentryAttributesView;

verus! {

/// The bit of a file handle that says it was opened for reading.
pub const FILE_HANDLE_READ_BIT: u64 = 0x8000_0000_0000_0000;

/// The bit of a file handle that says it was opened for writing.
pub const FILE_HANDLE_WRITE_BIT: u64 = 0x4000_0000_0000_0000;

/// The name of the directory that stands for the cluster.
pub open spec fn cluster_alias() -> Seq<char> {
    "default"@
}

/// One line of a directory listing: the entry's inode, the offset at which
/// the listing goes on after it, its kind and its name.
#[derive(PartialEq, Eq, Debug)]
pub struct DirItem {
    pub inode: u64,
    pub offset: i64,
    pub kind: FileKind,
    pub name: String,
}

/// One line of a directory listing as a mathematical value.
pub struct DirItemView {
    pub inode: u64,
    pub offset: i64,
    pub kind: FileKind,
    pub name: Seq<char>,
}

impl View for DirItem {
    type V = DirItemView;

    open spec fn view(&self) -> DirItemView {
        DirItemView { inode: self.inode, offset: self.offset, kind: self.kind, name: self.name@ }
    }
}

/// A listing as a sequence of mathematical values.
pub open spec fn items_view(items: Seq<DirItem>) -> Seq<DirItemView> {
    items.map_values(|item: DirItem| item@)
}

/// The offset at which a listing goes on after the entry at `place`.
pub open spec fn next_offset(place: int) -> i64 {
    if place + 1 <= i64::MAX {
        (place + 1) as i64
    } else {
        i64::MAX
    }
}

/// The line of a listing for the entry at `place`.
pub open spec fn item_at(record: DentryAttributesView, place: int) -> DirItemView {
    DirItemView {
        inode: record.entries[place].inode,
        offset: next_offset(place),
        kind: record.entries[place].kind,
        name: record.entries[place].name,
    }
}

/// The listing of a directory from `offset` on: its entries in their order
/// without the first `offset` of them, and nothing where `offset` is
/// negative or beyond the last entry.
pub open spec fn listing(record: DentryAttributesView, offset: i64) -> Seq<DirItemView> {
    if 0 <= offset < record.entries.len() {
        Seq::new(
            (record.entries.len() - offset) as nat,
            |j: int| item_at(record, offset + j),
        )
    } else {
        Seq::empty()
    }
}

/// The bytes of `data` from `offset` on, at most `size` of them, and none
/// where `offset` is negative or beyond the last byte.
pub open spec fn read_range(data: Seq<u8>, offset: i64, size: u32) -> Seq<u8> {
    if 0 <= offset < data.len() {
        data.subrange(
            offset as int,
            if offset + size <= data.len() {
                offset + size
            } else {
                data.len() as int
            },
        )
    } else {
        Seq::empty()
    }
}

/// The handle that the counter value `number` gives to an open with the
/// intents `read` and `write`.
pub open spec fn file_handle(number: u64, read: bool, write: bool) -> u64 {
    number | (if read {
        FILE_HANDLE_READ_BIT
    } else {
        0
    }) | (if write {
        FILE_HANDLE_WRITE_BIT
    } else {
        0
    })
}

impl FsState {
    /// What a `stat` of `inode` reports.
    pub open spec fn get_attr(self, inode: u64) -> Result<FileAttr, FsErrorView> {
        match self.get_inode_attr(inode) {
            Ok(attr) => Ok(file_attr_of(attr)),
            Err(e) => Err(e),
        }
    }

    /// What a lookup of `name` in the directory `parent` reports.
    pub open spec fn look_up(self, parent: u64, name: Seq<char>) -> Result<FileAttr, FsErrorView> {
        match self.get_dentry(parent) {
            Ok(record) => match record.lookup(name) {
                Some(found) => self.get_attr(found.1),
                None => Err(FsErrorView::ChildEntryNotFound(record.name, name)),
            },
            Err(e) => Err(e),
        }
    }

    /// The listing of the directory `inode` from `offset` on.
    pub open spec fn read_dir(self, inode: u64, offset: i64) -> Result<
        Seq<DirItemView>,
        FsErrorView,
    > {
        match self.get_dentry(inode) {
            Ok(record) => Ok(listing(record, offset)),
            Err(e) => Err(e),
        }
    }

    /// What a read of `size` bytes at `offset` of the file `inode` gives.
    pub open spec fn read(self, inode: u64, offset: i64, size: u32) -> Result<
        Seq<u8>,
        FsErrorView,
    > {
        match self.get_data(inode) {
            Ok(data) => Ok(read_range(data, offset, size)),
            Err(e) => Err(e),
        }
    }

    /// The buckets after `inode` was opened, and whether that went well: its
    /// count of open handles is one higher.
    pub open spec fn open_dir(self, inode: u64) -> (FsState, Result<(), FsErrorView>) {
        match self.get_inode_attr(inode) {
            Ok(attr) => (self.update_inode(inode, attr.opened()), Ok(())),
            Err(e) => (self, Err(e)),
        }
    }

    /// The buckets after the mount point and, as a root of its own, the
    /// directory of the cluster were mounted, and whether that went well.
    pub open spec fn init(self, mount_point: Seq<char>, now: (i64, u32)) -> (
        FsState,
        Result<(), FsErrorView>,
    ) {
        let top = self.mount_dir(mount_point, 0, now);
        match top.1 {
            Ok(inode) => {
                let cluster = top.0.mount_dir(cluster_alias(), inode, now);
                (
                    cluster.0,
                    match cluster.1 {
                        Ok(_) => Ok(()),
                        Err(e) => Err(e),
                    },
                )
            },
            Err(e) => (top.0, Err(e)),
        }
    }
}

/// Mounting the mount point and the directory of the cluster keeps the
/// buckets well-formed and succeeds.
pub proof fn lemma_init_wf(s: FsState, mount_point: Seq<char>, now: (i64, u32))
    requires
        s.wf(),
        s.next_inode <= u64::MAX - 2,
    ensures
        s.init(mount_point, now).0.wf(),
        s.init(mount_point, now).1 is Ok,
{
    lemma_mount_dir_wf(s, mount_point, 0, now);
    let top = s.mount_dir(mount_point, 0, now);
    lemma_mount_dir_wf(top.0, cluster_alias(), top.1->Ok_0, now);
}

/// The request handler on its store.
pub struct FsInner {
    pub store: SledDb,
    /// The counter from which file handles are issued.
    pub next_handle: u64,
}

impl FsInner {
    /// A handler on `store`, with file handles issued from 0.
    pub fn new(store: SledDb) -> (inner: FsInner)
        ensures
            inner.store == store,
            inner.next_handle == 0,
    {
        FsInner { store, next_handle: 0 }
    }

    /// Mounts the mount point as a root and the directory of the cluster
    /// under it, at the time `now`.
    pub fn init_at(&mut self, mount_point: &str, now: (i64, u32)) -> (r: Result<(), FsError>)
        ensures
            final(self).next_handle == old(self).next_handle,
            engine_failed(r) || (final(self).store@, outcome(r)) == old(self).store@.init(
                mount_point@,
                now,
            ),
            !engine_failed(r) && old(self).store@.wf() && old(self).store@.next_inode <= u64::MAX
                - 2 ==> final(self).store@.wf() && r is Ok,
    {
        proof {
            if self.store@.wf() && self.store@.next_inode <= u64::MAX - 2 {
                lemma_init_wf(self.store@, mount_point@, now);
            }
        }
        let mount_point_inode = self.store.mount_dir(mount_point, 0, now)?;
        self.store.mount_dir("default", mount_point_inode, now)?;
        Ok(())
    }

    /// Mounts the mount point as a root and the directory of the cluster
    /// under it, at the time that the clock shows.
    pub fn init(&mut self, mount_point: String, cluster: Vec<String>) -> (r: Result<(), FsError>)
        ensures
            final(self).next_handle == old(self).next_handle,
            engine_failed(r) || exists|now: (i64, u32)|
                now.1 <= MAX_NANOS && (final(self).store@, outcome(r)) == #[trigger] old(
                    self,
                ).store@.init(mount_point@, now),
    {
        let now = time_now();
        self.init_at(mount_point.as_str(), now)
    }

    /// What a lookup of `name` in the directory `parent` reports.
    pub fn look_up(&self, parent: u64, name: &str) -> (r: Result<FileAttr, FsError>)
        ensures
            engine_failed(r) || outcome(r) == self.store@.look_up(parent, name@),
    {
        let dentry = self.store.get_dentry(parent)?;
        match dentry.lookup(name) {
            Some(found) => self.get_attr(found.1),
            None => Err(FsError::ChildEntryNotFound(dentry.name, name.to_owned())),
        }
    }

    /// What a `stat` of `inode` reports.
    pub fn get_attr(&self, inode: u64) -> (r: Result<FileAttr, FsError>)
        ensures
            engine_failed(r) || outcome(r) == self.store@.get_attr(inode),
    {
        let attr = self.store.get_inode_attr(inode)?;
        Ok(FileAttr::from(attr))
    }

    /// The listing of the directory `inode` from `offset` on. Whoever
    /// answers the request hands on as many of its lines as the reply takes.
    pub fn read_dir(&self, inode: u64, offset: i64) -> (r: Result<Vec<DirItem>, FsError>)
        ensures
            engine_failed(r) || (match r {
                Ok(items) => Ok(items_view(items@)),
                Err(e) => Err(e@),
            }) == self.store@.read_dir(inode, offset),
    {
        let dentry = self.store.get_dentry(inode)?;
        let mut items: Vec<DirItem> = Vec::new();
        let count = dentry.entries.len();
        if offset < 0 || offset as u64 >= count as u64 {
            assert(items_view(items@) =~= listing(dentry@, offset));
            return Ok(items);
        }
        let start = offset as u64 as usize;
        let mut i: usize = start;
        while i < count
            invariant
                start <= i <= count,
                start == offset,
                count == dentry.entries@.len(),
                items@.len() == i - start,
                forall|j: int|
                    0 <= j < i - start ==> (#[trigger] items@[j])@ == item_at(dentry@, start + j),
            decreases count - i,
        {
            let entry = &dentry.entries[i];
            let next: i64 = if (i as u64) < 0x7fff_ffff_ffff_ffffu64 {
                (i as u64 + 1) as i64
            } else {
                i64::MAX
            };
            assert(dentry@.entries[i as int] == entry@);
            items.push(
                DirItem { inode: entry.inode, offset: next, kind: entry.kind, name: entry.name.clone() },
            );
            i += 1;
        }
        assert(items_view(items@) =~= listing(dentry@, offset));
        Ok(items)
    }

    /// Opens `inode` with the intents `read` and `write`: counts one more
    /// open handle on it, and issues the next file handle, whose two top
    /// bits tell the intents.
    pub fn open_dir(&mut self, inode: u64, read: bool, write: bool) -> (r: Result<u64, FsError>)
        ensures
            engine_failed(r) || ({
                let opened = old(self).store@.open_dir(inode);
                &&& final(self).store@ == opened.0
                &&& match r {
                    Ok(handle) => opened.1 is Ok && handle == file_handle(
                        old(self).next_handle,
                        read,
                        write,
                    ) && final(self).next_handle == wrapping_succ(old(self).next_handle),
                    Err(e) => opened.1 == Err::<(), FsErrorView>(e@) && final(self).next_handle
                        == old(self).next_handle,
                }
            }),
            !engine_failed(r) && old(self).store@.wf() ==> final(self).store@.wf(),
    {
        proof {
            if self.store@.wf() {
                if let Ok(attr) = self.store@.get_inode_attr(inode) {
                    lemma_update_inode_wf(self.store@, inode, attr.opened());
                }
            }
        }
        let mut inode_attr = self.store.get_inode_attr(inode)?;
        inode_attr.open_file_handles = if inode_attr.open_file_handles < u64::MAX {
            inode_attr.open_file_handles + 1
        } else {
            u64::MAX
        };
        self.store.update_inode(inode, inode_attr)?;
        let number = next_file_handle(&mut self.next_handle);
        let read_bit: u64 = if read {
            FILE_HANDLE_READ_BIT
        } else {
            0
        };
        let write_bit: u64 = if write {
            FILE_HANDLE_WRITE_BIT
        } else {
            0
        };
        Ok(number | read_bit | write_bit)
    }

    /// What a read of `size` bytes at `offset` of the file `inode` gives.
    pub fn read(&self, inode: u64, offset: i64, size: u32) -> (r: Result<Vec<u8>, FsError>)
        ensures
            engine_failed(r) || outcome_view(r) == self.store@.read(inode, offset, size),
    {
        let data = self.store.get_data(inode)?;
        let len = data.len();
        if offset < 0 || offset as u64 >= len as u64 {
            return Ok(Vec::new());
        }
        let start = offset as u64 as usize;
        let left = len - start;
        let end = if (size as u64) < left as u64 {
            start + size as usize
        } else {
            len
        };
        Ok(slice_to_vec(slice_subrange(data.as_slice(), start, end)))
    }
}

/// Takes the next file handle number from `counter`: the number that the
/// counter stands at; the counter then stands one higher.
pub fn next_file_handle(counter: &mut u64) -> (number: u64)
    ensures
        number == *old(counter),
        *final(counter) == wrapping_succ(*old(counter)),
{
    let number = *counter;
    *counter = if number == u64::MAX {
        0
    } else {
        number + 1
    };
    number
}

} // verus!
