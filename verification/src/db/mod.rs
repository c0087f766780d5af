//! The key-value buckets and everything that reads or writes them.
use vstd::prelude::*;
use vstd::string::StringSliceAdditionalSpecFns;
use crate::db::engine::{opt_bytes, tree_map};
use crate::db::laws::is_child_directory;
use crate::db::model::FsState;
use crate::error::{engine_failed, outcome, FsError, FsErrorView};
use crate::fuse::attrs::{FileKind, InodeAttributes};
use crate::fuse::dentry::{DentryAttributes, EntryView};
use crate::ClusterObject;

pub mod engine;
pub mod frame;
pub mod laws;
pub mod manager;
pub mod model;
pub mod storage;
pub mod utils;

verus! {

/// The four buckets.
#[derive(Copy, Clone, PartialEq, Eq, Hash, Debug, Structural)]
pub enum Bucket {
    /// Path to inode.
    RIndex,
    /// Inode to attributes.
    Inode,
    /// Inode to directory record.
    Dentry,
    /// Inode to file content.
    Data,
}

impl Bucket {
    /// The name of the bucket's tree in the database.
    pub open spec fn spec_name(self) -> Seq<u8> {
        match self {
            Bucket::RIndex => "reverse-index".spec_bytes(),
            Bucket::Inode => "inode".spec_bytes(),
            Bucket::Dentry => "dentry".spec_bytes(),
            Bucket::Data => "data".spec_bytes(),
        }
    }

    /// The name of the bucket's tree in the database.
    pub fn name(&self) -> (name: &'static str)
        ensures
            name.spec_bytes() == self.spec_name(),
    {
        match self {
            Bucket::RIndex => "reverse-index",
            Bucket::Inode => "inode",
            Bucket::Dentry => "dentry",
            Bucket::Data => "data",
        }
    }

    /// Different buckets have different names.
    pub proof fn lemma_names_differ(a: Bucket, b: Bucket)
        requires
            a != b,
        ensures
            a.spec_name() != b.spec_name(),
    {
        reveal_strlit("reverse-index");
        reveal_strlit("inode");
        reveal_strlit("dentry");
        reveal_strlit("data");
        assert(vstd::utf8::is_ascii_chars("reverse-index"@));
        assert(vstd::utf8::is_ascii_chars("inode"@));
        assert(vstd::utf8::is_ascii_chars("dentry"@));
        assert(vstd::utf8::is_ascii_chars("data"@));
        vstd::utf8::is_ascii_chars_encode_utf8("reverse-index"@);
        vstd::utf8::is_ascii_chars_encode_utf8("inode"@);
        vstd::utf8::is_ascii_chars_encode_utf8("dentry"@);
        vstd::utf8::is_ascii_chars_encode_utf8("data"@);
        assert(Bucket::RIndex.spec_name().len() == 13);
        assert(Bucket::Inode.spec_name().len() == 5);
        assert(Bucket::Dentry.spec_name().len() == 6);
        assert(Bucket::Data.spec_name().len() == 4);
    }
}

/// The filesystem's store: the four buckets in a `sled` database, and the
/// counter from which inode numbers are issued. The store owns its buckets:
/// every reader and writer goes through it.
pub struct SledDb {
    pub(crate) db: sled::Db,
    pub(crate) rindex: sled::Tree,
    pub(crate) inode: sled::Tree,
    pub(crate) dentry: sled::Tree,
    pub(crate) data: sled::Tree,
    pub(crate) next_inode: u64,
}

impl View for SledDb {
    type V = FsState;

    open(crate) spec fn view(&self) -> FsState {
        FsState {
            rindex: tree_map(self.rindex),
            inode: tree_map(self.inode),
            dentry: tree_map(self.dentry),
            data: tree_map(self.data),
            next_inode: self.next_inode,
        }
    }
}

/// The outcome of an operation that reads a record, as a mathematical value.
pub open spec fn outcome_view<T: View>(r: Result<T, FsError>) -> Result<T::V, FsErrorView> {
    match r {
        Ok(value) => Ok(value@),
        Err(e) => Err(e@),
    }
}

/// The filesystem manager: mounts directories and files, and looks inodes
/// up. Every operation does to the buckets what the function of the same
/// name says of `FsState`, unless the engine fails.
pub trait FSManger {
    /// What the buckets hold.
    spec fn state(&self) -> FsState;

    /// Mounts a directory at `path` under `parent_inode` (0 for a root), or
    /// finds the one that is mounted there.
    fn mount_dir(&mut self, path: &str, parent_inode: u64, now: (i64, u32)) -> (r: Result<
        u64,
        FsError,
    >)
        ensures
            engine_failed(r) || (final(self).state(), outcome(r)) == old(self).state().mount_dir(
                path@,
                parent_inode,
                now,
            ),
            !engine_failed(r) && old(self).state().wf() && old(self).state().next_inode < u64::MAX
                ==> final(self).state().wf() && r is Ok,
    ;

    /// Mounts a file with `content` at `path` under `parent_inode`, in place
    /// of the one that is mounted there, if any.
    fn mount_file(&mut self, path: &str, parent_inode: u64, content: &[u8], now: (i64, u32)) -> (r:
        Result<u64, FsError>)
        ensures
            engine_failed(r) || (final(self).state(), outcome(r)) == old(self).state().mount_file(
                path@,
                parent_inode,
                content@,
                now,
            ),
            !engine_failed(r) && old(self).state().wf() && old(self).state().next_inode < u64::MAX
                ==> final(self).state().wf() && r is Ok,
    ;

    /// Rewrites the file at `path` with `content`.
    fn edit_file(&mut self, path: &str, content: &[u8], now: (i64, u32)) -> (r: Result<
        (),
        FsError,
    >)
        ensures
            engine_failed(r) || (final(self).state(), outcome(r)) == old(self).state().edit_file(
                path@,
                content@,
                now,
            ),
            !engine_failed(r) && old(self).state().wf() ==> final(self).state().wf(),
    ;

    /// Binds `name` to `kind` and `inode` in the directory `parent_inode`.
    fn join_dir(&mut self, parent_inode: u64, inode: u64, name: String, kind: FileKind) -> (r:
        Result<(), FsError>)
        ensures
            engine_failed(r) || (final(self).state(), outcome(r)) == old(self).state().join_dir(
                parent_inode,
                inode,
                name@,
                kind,
            ),
            parent_inode == 0 ==> r is Ok && final(self).state() == old(self).state(),
            !engine_failed(r) && old(self).state().wf() && (is_child_directory(
                EntryView { name: name@, kind, inode },
            ) ==> inode < old(self).state().next_inode && (old(self).state().get_dentry(
                inode,
            ) matches Ok(record) ==> record.parent == parent_inode)) ==> final(self).state().wf()
                && r is Ok,
    ;

    /// The directory record of `inode`.
    fn get_dentry(&self, inode: u64) -> (r: Result<DentryAttributes, FsError>)
        ensures
            engine_failed(r) || outcome_view(r) == self.state().get_dentry(inode),
            r matches Ok(record) ==> record@.wf(),
    ;

    /// The attributes of `inode`.
    fn get_inode_attr(&self, inode: u64) -> (r: Result<InodeAttributes, FsError>)
        ensures
            engine_failed(r) || outcome_view(r) == self.state().get_inode_attr(inode),
            r matches Ok(attr) ==> attr@.wf(),
    ;

    /// Replaces the attributes of `inode`. Attributes whose extended
    /// attributes are not in order are stored as they are, and cannot be read
    /// back.
    fn update_inode(&mut self, inode: u64, attr: InodeAttributes) -> (r: Result<(), FsError>)
        ensures
            engine_failed(r) || (r is Ok && final(self).state() == old(self).state().update_inode(
                inode,
                attr@,
            )),
            !engine_failed(r) && old(self).state().wf() && attr@.wf()
                ==> final(self).state().wf(),
    ;

    /// The inode that `key` is mounted as.
    fn get_inode(&self, key: &str) -> (r: Result<u64, FsError>)
        ensures
            engine_failed(r) || outcome(r) == self.state().get_inode(key@),
    ;

    /// The content of `inode`.
    fn get_data(&self, inode: u64) -> (r: Result<Vec<u8>, FsError>)
        ensures
            engine_failed(r) || outcome_view(r) == self.state().get_data(inode),
    ;
}

/// The store of cluster objects: each object is a file in the tree that the
/// filesystem manager keeps. Every operation does to the buckets what the
/// function of the same name says of `FsState`, unless the engine fails.
pub trait Storage: FSManger {
    /// Adds an object: rewrites it where the path index holds its path,
    /// mounts it where it does not.
    fn add(&mut self, cluster_obj: ClusterObject, now: (i64, u32)) -> (r: Result<(), FsError>)
        requires
            cluster_obj.addressable(),
        ensures
            engine_failed(r) || (final(self).state(), outcome(r)) == old(self).state().add(
                cluster_obj@,
                now,
            ),
            !engine_failed(r) && old(self).state().wf() && old(self).state().next_inode
                <= u64::MAX - 4 ==> final(self).state().wf(),
    ;

    /// What the data bucket holds under the path of an object.
    fn get(&self, cluster_obj: ClusterObject) -> (r: Result<Option<Vec<u8>>, FsError>)
        requires
            cluster_obj.addressable(),
        ensures
            r matches Ok(found) ==> opt_bytes(found) == self.state().get(cluster_obj@),
            r matches Err(e) ==> e@.is_engine_failure(),
    ;

    /// Rewrites the file at the path of an object with the object's text.
    fn update(&mut self, cluster_obj: ClusterObject, now: (i64, u32)) -> (r: Result<(), FsError>)
        requires
            cluster_obj.addressable(),
        ensures
            engine_failed(r) || (final(self).state(), outcome(r)) == old(self).state().update(
                cluster_obj@,
                now,
            ),
            !engine_failed(r) && old(self).state().wf() ==> final(self).state().wf(),
    ;

    /// Removes the data bucket's entry under the path of an object.
    fn delete(&mut self, cluster_obj: ClusterObject) -> (r: Result<(), FsError>)
        requires
            cluster_obj.addressable(),
        ensures
            r is Ok ==> final(self).state() == old(self).state().delete(cluster_obj@),
            r is Ok && old(self).state().wf() ==> final(self).state().wf(),
            r matches Err(e) ==> e@.is_engine_failure(),
    ;

    /// The tree of a bucket, for reading. Whoever writes through it changes
    /// the bucket without the store's knowledge: nothing that is proved of
    /// the store holds of such a write.
    fn get_bucket(&self, name: Bucket) -> (tree: &sled::Tree)
        ensures
            tree_map(*tree) == (match name {
                Bucket::RIndex => self.state().rindex,
                Bucket::Inode => self.state().inode,
                Bucket::Dentry => self.state().dentry,
                Bucket::Data => self.state().data,
            }),
    ;

    /// Whether the path index holds the path of an object.
    fn has(&self, cluster_obj: &ClusterObject) -> (r: Result<bool, FsError>)
        requires
            cluster_obj.addressable(),
        ensures
            r matches Ok(found) ==> found == self.state().has(cluster_obj@),
            r matches Err(e) ==> e@.is_engine_failure(),
    ;
}

} // verus!
