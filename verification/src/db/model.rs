//! The four buckets as a mathematical value, and what each operation of the
//! filesystem makes of them.
//!
//! The executable operations are proved to do to the buckets exactly what the
//! functions of this file say, whenever the engine does not fail.
use vstd::prelude::*;
use vstd::utf8::encode_utf8;
use crate::db::engine::{lookup, rebind};
use crate::db::utils::{
    be_bytes, be_value, file_name, namespace_root_key, parent_resource_full_key, resource_api_key,
    resource_file_key, resource_full_key, wrapping_succ,
};
use crate::{ObjectView, Scope};
use crate::error::FsErrorView;
use crate::fuse::attrs::{FileKind, InodeAttributesView};
use crate::fuse::dentry::DentryAttributesView;
use crate::fuse::dentry_text::{dentry_text, parse_dentry};
use crate::fuse::inode_text::{inode_text, parse_inode};

verus! {

/// What the buckets hold, and the next inode number to be issued.
pub struct FsState {
    /// The path index: a path's bytes to an inode key.
    pub rindex: Map<Seq<u8>, Seq<u8>>,
    /// The inode bucket: an inode key to the text of its attributes.
    pub inode: Map<Seq<u8>, Seq<u8>>,
    /// The directory bucket: an inode key to the text of its directory record.
    pub dentry: Map<Seq<u8>, Seq<u8>>,
    /// The data bucket: an inode key to a file's content.
    pub data: Map<Seq<u8>, Seq<u8>>,
    /// The number that the next new inode gets.
    pub next_inode: u64,
}

/// The key under which the path index files a path.
pub open spec fn path_key(path: Seq<char>) -> Seq<u8> {
    encode_utf8(path)
}

/// The key under which the other buckets file an inode.
pub open spec fn inode_key(inode: u64) -> Seq<u8> {
    be_bytes(inode)
}

/// What becomes of a stored directory record when `name` is bound in it: a
/// record is rewritten with the binding, bytes that are no record stay, and
/// nothing stays nothing.
pub open spec fn joined_record(
    stored: Option<Seq<u8>>,
    name: Seq<char>,
    kind: FileKind,
    inode: u64,
) -> Option<Seq<u8>> {
    match stored {
        Some(bytes) => match parse_dentry(bytes) {
            Some(record) => Some(dentry_text(record.joined(name, kind, inode))),
            None => Some(bytes),
        },
        None => None,
    }
}

/// What becomes of stored attributes when the file is rewritten at `now`:
/// attributes get the new times, bytes that are no attributes stay, and
/// nothing stays nothing.
pub open spec fn touched_record(stored: Option<Seq<u8>>, now: (i64, u32)) -> Option<Seq<u8>> {
    match stored {
        Some(bytes) => match parse_inode(bytes) {
            Some(attr) => Some(inode_text(attr.touched(now))),
            None => Some(bytes),
        },
        None => None,
    }
}

/// Whether stored bytes, if any, are the text of a directory record.
pub open spec fn readable_dentry(stored: Option<Seq<u8>>) -> bool {
    stored matches Some(bytes) ==> parse_dentry(bytes) is Some
}

/// Whether stored bytes, if any, are the text of an inode's attributes.
pub open spec fn readable_inode(stored: Option<Seq<u8>>) -> bool {
    stored matches Some(bytes) ==> parse_inode(bytes) is Some
}

impl FsState {
    /// Whether the path index holds `path`.
    pub open spec fn has_path(self, path: Seq<char>) -> bool {
        self.rindex.contains_key(path_key(path))
    }

    /// The inode that `path` is mounted as.
    pub open spec fn get_inode(self, path: Seq<char>) -> Result<u64, FsErrorView> {
        match lookup(self.rindex, path_key(path)) {
            Some(key) => if key.len() == 8 {
                Ok(be_value(key))
            } else {
                Err(FsErrorView::CorruptIndex(path))
            },
            None => Err(FsErrorView::PathNotFound(path)),
        }
    }

    /// The attributes of `inode`.
    pub open spec fn get_inode_attr(self, inode: u64) -> Result<InodeAttributesView, FsErrorView> {
        match lookup(self.inode, inode_key(inode)) {
            Some(bytes) => match parse_inode(bytes) {
                Some(attr) => Ok(attr),
                None => Err(FsErrorView::CorruptRecord(inode)),
            },
            None => Err(FsErrorView::InodeAttrNotFound(inode)),
        }
    }

    /// The directory record of `inode`.
    pub open spec fn get_dentry(self, inode: u64) -> Result<DentryAttributesView, FsErrorView> {
        match lookup(self.dentry, inode_key(inode)) {
            Some(bytes) => match parse_dentry(bytes) {
                Some(record) => Ok(record),
                None => Err(FsErrorView::CorruptRecord(inode)),
            },
            None => Err(FsErrorView::DentryAttrNotFound(inode)),
        }
    }

    /// The content of `inode`.
    pub open spec fn get_data(self, inode: u64) -> Result<Seq<u8>, FsErrorView> {
        match lookup(self.data, inode_key(inode)) {
            Some(bytes) => Ok(bytes),
            None => Err(FsErrorView::ClusterObjectDataNotFound(inode)),
        }
    }

    /// The buckets after the attributes of `inode` were replaced.
    pub open spec fn update_inode(self, inode: u64, attr: InodeAttributesView) -> FsState {
        FsState { inode: self.inode.insert(inode_key(inode), inode_text(attr)), ..self }
    }

    /// The buckets after `name` was bound to `kind` and `child` in the
    /// directory `parent`, and whether that went well. Nothing happens where
    /// `parent` is 0 or has no directory record; a record that cannot be read
    /// stays as it is and is reported.
    pub open spec fn join_dir(self, parent: u64, child: u64, name: Seq<char>, kind: FileKind) -> (
        FsState,
        Result<(), FsErrorView>,
    ) {
        let stored = lookup(self.dentry, inode_key(parent));
        if parent == 0 {
            (self, Ok(()))
        } else {
            (
                FsState {
                    dentry: rebind(
                        self.dentry,
                        inode_key(parent),
                        joined_record(stored, name, kind, child),
                    ),
                    ..self
                },
                if readable_dentry(stored) {
                    Ok(())
                } else {
                    Err(FsErrorView::CorruptRecord(parent))
                },
            )
        }
    }

    /// The buckets after a directory was freshly mounted at `path` as the
    /// next inode, before it is bound in its parent.
    pub open spec fn with_directory(self, path: Seq<char>, parent: u64, now: (i64, u32))
        -> FsState {
        let inode = self.next_inode;
        FsState {
            rindex: self.rindex.insert(path_key(path), inode_key(inode)),
            inode: self.inode.insert(
                inode_key(inode),
                inode_text(InodeAttributesView::directory(inode, now)),
            ),
            dentry: self.dentry.insert(
                inode_key(inode),
                dentry_text(DentryAttributesView::fresh(file_name(path), inode, parent)),
            ),
            data: self.data,
            next_inode: wrapping_succ(inode),
        }
    }

    /// The buckets after a directory was mounted at `path` under `parent`,
    /// and its inode. A path that is mounted already keeps its inode and
    /// nothing changes.
    pub open spec fn mount_dir(self, path: Seq<char>, parent: u64, now: (i64, u32)) -> (
        FsState,
        Result<u64, FsErrorView>,
    ) {
        if self.has_path(path) {
            (self, self.get_inode(path))
        } else {
            let inode = self.next_inode;
            let joined = self.with_directory(path, parent, now).join_dir(
                parent,
                inode,
                file_name(path),
                FileKind::Directory,
            );
            (
                joined.0,
                match joined.1 {
                    Ok(_) => Ok(inode),
                    Err(e) => Err(e),
                },
            )
        }
    }

    /// The inode that a file at `path` gets: the one that the path has
    /// already, or the next new one.
    pub open spec fn file_inode(self, path: Seq<char>) -> u64 {
        match self.get_inode(path) {
            Ok(inode) => inode,
            Err(_) => self.next_inode,
        }
    }

    /// The buckets after a file was written at `path` as `inode`, before it
    /// is bound in its parent.
    pub open spec fn with_file(self, path: Seq<char>, content: Seq<u8>, now: (i64, u32))
        -> FsState {
        let inode = self.file_inode(path);
        FsState {
            rindex: self.rindex.insert(path_key(path), inode_key(inode)),
            inode: self.inode.insert(
                inode_key(inode),
                inode_text(InodeAttributesView::file(inode, content.len() as u64, now)),
            ),
            dentry: self.dentry,
            data: self.data.insert(inode_key(inode), content),
            next_inode: if self.has_path(path) {
                self.next_inode
            } else {
                wrapping_succ(self.next_inode)
            },
        }
    }

    /// The buckets after a file with `content` was mounted at `path` under
    /// `parent`, and its inode. A path that is mounted already keeps its
    /// inode, and its attributes and content are written anew.
    pub open spec fn mount_file(
        self,
        path: Seq<char>,
        parent: u64,
        content: Seq<u8>,
        now: (i64, u32),
    ) -> (FsState, Result<u64, FsErrorView>) {
        if self.get_inode(path) is Err && self.has_path(path) {
            (self, Err(FsErrorView::CorruptIndex(path)))
        } else {
            let inode = self.file_inode(path);
            let joined = self.with_file(path, content, now).join_dir(
                parent,
                inode,
                file_name(path),
                FileKind::File,
            );
            (
                joined.0,
                match joined.1 {
                    Ok(_) => Ok(inode),
                    Err(e) => Err(e),
                },
            )
        }
    }

    /// The buckets after the file at `path` was rewritten with `content` at
    /// `now`, and whether that went well: its times of modification are
    /// `now`, its other attributes are as before.
    pub open spec fn edit_file(self, path: Seq<char>, content: Seq<u8>, now: (i64, u32)) -> (
        FsState,
        Result<(), FsErrorView>,
    ) {
        match self.get_inode(path) {
            Ok(inode) => {
                let stored = lookup(self.inode, inode_key(inode));
                if readable_inode(stored) {
                    (
                        FsState {
                            inode: rebind(
                                self.inode,
                                inode_key(inode),
                                touched_record(stored, now),
                            ),
                            data: self.data.insert(inode_key(inode), content),
                            ..self
                        },
                        Ok(()),
                    )
                } else {
                    (self, Err(FsErrorView::CorruptRecord(inode)))
                }
            },
            Err(e) => (self, Err(e)),
        }
    }
}

/// An operation's outcome without its value.
pub open spec fn done<T>(r: Result<T, FsErrorView>) -> Result<(), FsErrorView> {
    match r {
        Ok(_) => Ok(()),
        Err(e) => Err(e),
    }
}

impl FsState {
    /// The buckets after the directory of an object's namespace was mounted,
    /// with the directory of all namespaces above it, and its inode. The
    /// directory of the cluster must be mounted already.
    pub open spec fn mount_namespace(self, o: ObjectView, now: (i64, u32)) -> (
        FsState,
        Result<u64, FsErrorView>,
    ) {
        match self.get_inode(o.cluster) {
            Ok(root) => {
                let above = self.mount_dir(namespace_root_key(o), root, now);
                match above.1 {
                    Ok(inode) => above.0.mount_dir(parent_resource_full_key(o), inode, now),
                    Err(e) => (above.0, Err(e)),
                }
            },
            Err(e) => (self, Err(e)),
        }
    }

    /// The buckets after the directory above that of an object's kind was
    /// found or mounted, and its inode. The directory of a namespace is
    /// mounted where it is missing; the directory of a cluster is not.
    pub open spec fn mount_parent(self, o: ObjectView, now: (i64, u32)) -> (
        FsState,
        Result<u64, FsErrorView>,
    ) {
        if self.has_path(parent_resource_full_key(o)) {
            (self, self.get_inode(parent_resource_full_key(o)))
        } else {
            match o.scope {
                Scope::Namespaced => self.mount_namespace(o, now),
                Scope::Cluster => (self, Err(FsErrorView::MockParentDirError(resource_api_key(o)))),
            }
        }
    }

    /// The buckets after the directory of an object's kind was mounted, and
    /// its inode.
    pub open spec fn mount_gvk(self, o: ObjectView, now: (i64, u32)) -> (
        FsState,
        Result<u64, FsErrorView>,
    ) {
        let parent = self.mount_parent(o, now);
        match parent.1 {
            Ok(inode) => parent.0.mount_dir(resource_api_key(o), inode, now),
            Err(e) => (parent.0, Err(e)),
        }
    }

    /// The buckets after the file of an object was mounted in the directory
    /// of its kind, and the file's inode.
    pub open spec fn mount_gvr(self, o: ObjectView, now: (i64, u32)) -> (
        FsState,
        Result<u64, FsErrorView>,
    ) {
        let kind = self.mount_gvk(o, now);
        match kind.1 {
            Ok(inode) => kind.0.mount_file(resource_file_key(o), inode, o.yaml, now),
            Err(e) => (kind.0, Err(e)),
        }
    }

    /// Whether the path index holds the path of an object.
    pub open spec fn has(self, o: ObjectView) -> bool {
        self.has_path(resource_full_key(o))
    }

    /// The buckets after the file at the path of an object was rewritten
    /// with the object's text.
    pub open spec fn update(self, o: ObjectView, now: (i64, u32)) -> (
        FsState,
        Result<(), FsErrorView>,
    ) {
        self.edit_file(resource_full_key(o), o.yaml, now)
    }

    /// The buckets after an object was added: rewritten where the path index
    /// holds its path, mounted where it does not.
    pub open spec fn add(self, o: ObjectView, now: (i64, u32)) -> (
        FsState,
        Result<(), FsErrorView>,
    ) {
        if self.has(o) {
            self.update(o, now)
        } else {
            let mounted = self.mount_gvr(o, now);
            (mounted.0, done(mounted.1))
        }
    }

    /// The buckets after the data bucket's entry under the path of an object
    /// was removed.
    pub open spec fn delete(self, o: ObjectView) -> FsState {
        FsState { data: self.data.remove(path_key(resource_full_key(o))), ..self }
    }

    /// What the data bucket holds under the path of an object.
    pub open spec fn get(self, o: ObjectView) -> Option<Seq<u8>> {
        lookup(self.data, path_key(resource_full_key(o)))
    }
}

} // verus!
