//! The filesystem manager on the `sled` store.
use vstd::prelude::*;
use vstd::string::StringSliceAdditionalSpecFns;
use crate::db::engine::{
    lookup, opt_bytes, opt_slice, tree_fetch_and_update, tree_get, tree_insert,
    trees_insert_together,
};
use crate::db::laws::{
    is_child_directory, lemma_edit_file_wf, lemma_join_dir_wf, lemma_mount_dir_wf,
    lemma_mount_file_wf, lemma_update_inode_wf,
};
use crate::db::model::{joined_record, path_key, touched_record, FsState};
use crate::db::utils::{extract_name, handle_next_inode, into_string, ivec_to_u64, u64_to_ivec};
use crate::db::{FSManger, SledDb};
use crate::error::FsError;
use crate::fuse::attrs::{copy_bytes, FileKind, InodeAttributes};
use crate::fuse::dentry::{DentryAttributes, EntryView};
use crate::fuse::dentry_text::{decode_dentry, encode_dentry};
use crate::fuse::inode_text::{decode_inode, encode_inode};

verus! {

/// What becomes of a stored directory record when `name` is bound in it.
pub fn join_record(stored: Option<&[u8]>, name: &str, kind: FileKind, inode: u64) -> (out: Option<
    Vec<u8>,
>)
    ensures
        opt_bytes(out) == joined_record(opt_slice(stored), name@, kind, inode),
{
    match stored {
        Some(bytes) => match decode_dentry(bytes) {
            Some(record) => {
                let mut record = record;
                record.insert(into_string(name), kind, inode);
                Some(encode_dentry(&record))
            },
            None => Some(copy_bytes(bytes)),
        },
        None => None,
    }
}

/// What becomes of stored attributes when the file is rewritten at `now`.
pub fn touch_record(stored: Option<&[u8]>, now: (i64, u32)) -> (out: Option<Vec<u8>>)
    ensures
        opt_bytes(out) == touched_record(opt_slice(stored), now),
{
    match stored {
        Some(bytes) => match decode_inode(bytes) {
            Some(attr) => {
                let mut attr = attr;
                attr.last_modified = now;
                attr.last_metadata_changed = now;
                Some(encode_inode(&attr))
            },
            None => Some(copy_bytes(bytes)),
        },
        None => None,
    }
}

impl SledDb {
    /// The inode key that the path index holds for `path`, if any.
    fn indexed(&self, path: &str) -> (r: Result<Option<Vec<u8>>, FsError>)
        ensures
            r matches Ok(found) ==> opt_bytes(found) == lookup(self@.rindex, path_key(path@)),
            r matches Err(e) ==> e@.is_engine_failure(),
    {
        match tree_get(&self.rindex, path.as_bytes()) {
            Ok(found) => Ok(found),
            Err(e) => Err(FsError::StoreDynamicObjectFailed(e)),
        }
    }
}

impl FSManger for SledDb {
    open spec fn state(&self) -> FsState {
        self@
    }

    fn mount_dir(&mut self, path: &str, parent_inode: u64, now: (i64, u32)) -> (r: Result<
        u64,
        FsError,
    >) {
        proof {
            if self@.wf() && self@.next_inode < u64::MAX {
                lemma_mount_dir_wf(self@, path@, parent_inode, now);
            }
        }
        let name = extract_name(path);
        match self.indexed(path)? {
            Some(key) => {
                return if key.len() == 8 {
                    Ok(ivec_to_u64(key.as_slice()))
                } else {
                    Err(FsError::CorruptIndex(into_string(path)))
                };
            },
            None => {},
        }
        let next_inode = handle_next_inode(&mut self.next_inode);
        let inode_attr = encode_inode(&InodeAttributes::new_dict(next_inode.0, now));
        let dentry_attr = encode_dentry(
            &DentryAttributes::new(into_string(name.as_str()), next_inode.0, parent_inode),
        );
        match trees_insert_together(
            &mut self.rindex,
            path.as_bytes(),
            next_inode.1.as_slice(),
            &mut self.inode,
            next_inode.1.as_slice(),
            inode_attr.as_slice(),
            &mut self.dentry,
            next_inode.1.as_slice(),
            dentry_attr.as_slice(),
        ) {
            Ok(_) => {},
            Err(e) => {
                return Err(FsError::SledTransactionError(e));
            },
        }
        assert(self@ == old(self)@.with_directory(path@, parent_inode, now));
        match self.join_dir(parent_inode, next_inode.0, name, FileKind::Directory) {
            Ok(_) => Ok(next_inode.0),
            Err(e) => Err(e),
        }
    }

    fn mount_file(&mut self, path: &str, parent_inode: u64, content: &[u8], now: (i64, u32)) -> (r:
        Result<u64, FsError>) {
        proof {
            if self@.wf() && self@.next_inode < u64::MAX {
                lemma_mount_file_wf(self@, path@, parent_inode, content@, now);
            }
        }
        let name = extract_name(path);
        let next_inode = match self.indexed(path)? {
            Some(key) => {
                if key.len() != 8 {
                    return Err(FsError::CorruptIndex(into_string(path)));
                }
                (ivec_to_u64(key.as_slice()), key)
            },
            None => handle_next_inode(&mut self.next_inode),
        };
        let inode_attr = encode_inode(
            &InodeAttributes::new_file(next_inode.0, content.len() as u64, now),
        );
        match trees_insert_together(
            &mut self.rindex,
            path.as_bytes(),
            next_inode.1.as_slice(),
            &mut self.inode,
            next_inode.1.as_slice(),
            inode_attr.as_slice(),
            &mut self.data,
            next_inode.1.as_slice(),
            content,
        ) {
            Ok(_) => {},
            Err(e) => {
                return Err(FsError::SledTransactionError(e));
            },
        }
        assert(self@ == old(self)@.with_file(path@, content@, now));
        match self.join_dir(parent_inode, next_inode.0, name, FileKind::File) {
            Ok(_) => Ok(next_inode.0),
            Err(e) => Err(e),
        }
    }

    fn edit_file(&mut self, path: &str, content: &[u8], now: (i64, u32)) -> (r: Result<
        (),
        FsError,
    >) {
        proof {
            if self@.wf() {
                lemma_edit_file_wf(self@, path@, content@, now);
            }
        }
        let inode = self.get_inode(path)?;
        let key = u64_to_ivec(inode);
        let stored = match tree_get(&self.inode, key.as_slice()) {
            Ok(found) => found,
            Err(e) => {
                return Err(FsError::StoreDynamicObjectFailed(e));
            },
        };
        if let Some(bytes) = &stored {
            if decode_inode(bytes.as_slice()).is_none() {
                return Err(FsError::CorruptRecord(inode));
            }
        }
        let touch = |stored: Option<&[u8]>| -> (out: Option<Vec<u8>>)
            ensures
                opt_bytes(out) == touched_record(opt_slice(stored), now),
            { touch_record(stored, now) };
        match tree_fetch_and_update(&mut self.inode, key.as_slice(), touch) {
            Ok(_) => {},
            Err(e) => {
                return Err(FsError::StoreDynamicObjectFailed(e));
            },
        }
        match tree_insert(&mut self.data, key.as_slice(), content) {
            Ok(_) => Ok(()),
            Err(e) => Err(FsError::StoreDynamicObjectFailed(e)),
        }
    }

    fn join_dir(&mut self, parent_inode: u64, inode: u64, name: String, kind: FileKind) -> (r:
        Result<(), FsError>) {
        proof {
            if self@.wf() && (is_child_directory(EntryView { name: name@, kind, inode }) ==> inode
                < self@.next_inode && (self@.get_dentry(inode) matches Ok(record) ==> record.parent
                == parent_inode)) {
                lemma_join_dir_wf(self@, parent_inode, inode, name@, kind);
            }
        }
        if parent_inode == 0 {
            return Ok(());
        }
        let key = u64_to_ivec(parent_inode);
        let name_ref = name.as_str();
        let join = |stored: Option<&[u8]>| -> (out: Option<Vec<u8>>)
            ensures
                opt_bytes(out) == joined_record(opt_slice(stored), name_ref@, kind, inode),
            { join_record(stored, name_ref, kind, inode) };
        let prev = match tree_fetch_and_update(&mut self.dentry, key.as_slice(), join) {
            Ok(prev) => prev,
            Err(e) => {
                return Err(FsError::StoreDynamicObjectFailed(e));
            },
        };
        match prev {
            Some(bytes) => if decode_dentry(bytes.as_slice()).is_none() {
                Err(FsError::CorruptRecord(parent_inode))
            } else {
                Ok(())
            },
            None => Ok(()),
        }
    }

    fn get_dentry(&self, inode: u64) -> (r: Result<DentryAttributes, FsError>) {
        let key = u64_to_ivec(inode);
        match tree_get(&self.dentry, key.as_slice()) {
            Ok(Some(bytes)) => match decode_dentry(bytes.as_slice()) {
                Some(record) => Ok(record),
                None => Err(FsError::CorruptRecord(inode)),
            },
            Ok(None) => Err(FsError::DentryAttrNotFound(inode)),
            Err(e) => Err(FsError::StoreDynamicObjectFailed(e)),
        }
    }

    fn get_inode_attr(&self, inode: u64) -> (r: Result<InodeAttributes, FsError>) {
        let key = u64_to_ivec(inode);
        match tree_get(&self.inode, key.as_slice()) {
            Ok(Some(bytes)) => match decode_inode(bytes.as_slice()) {
                Some(attr) => Ok(attr),
                None => Err(FsError::CorruptRecord(inode)),
            },
            Ok(None) => Err(FsError::InodeAttrNotFound(inode)),
            Err(e) => Err(FsError::StoreDynamicObjectFailed(e)),
        }
    }

    fn update_inode(&mut self, inode: u64, attr: InodeAttributes) -> (r: Result<(), FsError>) {
        proof {
            if self@.wf() && attr@.wf() {
                lemma_update_inode_wf(self@, inode, attr@);
            }
        }
        let key = u64_to_ivec(inode);
        let value = encode_inode(&attr);
        match tree_insert(&mut self.inode, key.as_slice(), value.as_slice()) {
            Ok(_) => Ok(()),
            Err(e) => Err(FsError::StoreDynamicObjectFailed(e)),
        }
    }

    fn get_inode(&self, key: &str) -> (r: Result<u64, FsError>) {
        match self.indexed(key)? {
            Some(found) => if found.len() == 8 {
                Ok(ivec_to_u64(found.as_slice()))
            } else {
                Err(FsError::CorruptIndex(into_string(key)))
            },
            None => Err(FsError::PathNotFound(into_string(key))),
        }
    }

    fn get_data(&self, inode: u64) -> (r: Result<Vec<u8>, FsError>) {
        let key = u64_to_ivec(inode);
        match tree_get(&self.data, key.as_slice()) {
            Ok(Some(bytes)) => Ok(bytes),
            Ok(None) => Err(FsError::ClusterObjectDataNotFound(inode)),
            Err(e) => Err(FsError::StoreDynamicObjectFailed(e)),
        }
    }
}

} // verus!
