//! The store of cluster objects on the `sled` store.
use vstd::prelude::*;
use vstd::string::StringSliceAdditionalSpecFns;
use crate::db::engine::{db_open, db_open_tree, db_trees, tree_contains_key, tree_get, tree_remove};
use crate::db::laws::{lemma_add_wf, lemma_delete_wf, lemma_empty_wf, lemma_update_wf};
use crate::db::utils::{
    clean_one_time_buckets, get_namespace_root_key, get_parent_resource_full_key,
    get_resource_api_key, get_resource_file_key, get_resource_full_key,
};
use crate::db::{Bucket, FSManger, SledDb, Storage};
use crate::error::{engine_failed, outcome, FsError};
use crate::{ClusterObject, Scope};

verus! {

impl SledDb {
    /// Opens the store in the directory `path`. The path index, the inode
    /// bucket and the directory bucket start empty, whatever an earlier
    /// process left of them; the data bucket is kept. Inode numbers are
    /// issued from 0.
    pub fn new(path: &str) -> (r: Result<SledDb, FsError>)
        ensures
            r matches Ok(store) ==> {
                &&& store@.rindex == Map::<Seq<u8>, Seq<u8>>::empty()
                &&& store@.inode == Map::<Seq<u8>, Seq<u8>>::empty()
                &&& store@.dentry == Map::<Seq<u8>, Seq<u8>>::empty()
                &&& store@.next_inode == 0
                &&& store@.wf()
            },
            r matches Err(e) ==> e@.is_engine_failure(),
    {
        let mut db = match db_open(path) {
            Ok(db) => db,
            Err(e) => {
                return Err(FsError::StoreDynamicObjectFailed(e));
            },
        };
        clean_one_time_buckets(&mut db)?;
        proof {
            Bucket::lemma_names_differ(Bucket::RIndex, Bucket::Inode);
            Bucket::lemma_names_differ(Bucket::RIndex, Bucket::Dentry);
            Bucket::lemma_names_differ(Bucket::Inode, Bucket::Dentry);
        }
        let rindex = match db_open_tree(&mut db, Bucket::RIndex.name().as_bytes()) {
            Ok(tree) => tree,
            Err(e) => {
                return Err(FsError::StoreDynamicObjectFailed(e));
            },
        };
        proof {
            let now = db_trees(db);
            assert(!now.remove(Bucket::RIndex.spec_name()).contains_key(Bucket::Inode.spec_name()));
            assert(!now.remove(Bucket::RIndex.spec_name()).contains_key(
                Bucket::Dentry.spec_name(),
            ));
        }
        let inode = match db_open_tree(&mut db, Bucket::Inode.name().as_bytes()) {
            Ok(tree) => tree,
            Err(e) => {
                return Err(FsError::StoreDynamicObjectFailed(e));
            },
        };
        proof {
            let now = db_trees(db);
            assert(!now.remove(Bucket::Inode.spec_name()).contains_key(Bucket::Dentry.spec_name()));
        }
        let dentry = match db_open_tree(&mut db, Bucket::Dentry.name().as_bytes()) {
            Ok(tree) => tree,
            Err(e) => {
                return Err(FsError::StoreDynamicObjectFailed(e));
            },
        };
        let data = match db_open_tree(&mut db, Bucket::Data.name().as_bytes()) {
            Ok(tree) => tree,
            Err(e) => {
                return Err(FsError::StoreDynamicObjectFailed(e));
            },
        };
        let store = SledDb { db, rindex, inode, dentry, data, next_inode: 0 };
        proof {
            lemma_empty_wf(store@);
        }
        Ok(store)
    }

    /// Finds or mounts the directory above that of an object's kind.
    fn mount_parent(&mut self, cluster_obj: &ClusterObject, now: (i64, u32)) -> (r: Result<
        u64,
        FsError,
    >)
        requires
            cluster_obj.addressable(),
        ensures
            engine_failed(r) || (final(self)@, outcome(r)) == old(self)@.mount_parent(
                cluster_obj@,
                now,
            ),
    {
        let parent_path = get_parent_resource_full_key(cluster_obj);
        let found = match tree_contains_key(&self.rindex, parent_path.as_str().as_bytes()) {
            Ok(found) => found,
            Err(e) => {
                return Err(FsError::StoreDynamicObjectFailed(e));
            },
        };
        if found {
            return self.get_inode(parent_path.as_str());
        }
        match cluster_obj.scope() {
            Scope::Namespaced => {
                let root = self.get_inode(cluster_obj.meta.cluster.as_str())?;
                let above = self.mount_dir(get_namespace_root_key(cluster_obj).as_str(), root, now)?;
                self.mount_dir(parent_path.as_str(), above, now)
            },
            Scope::Cluster => Err(
                FsError::MockParentDirError(get_resource_api_key(cluster_obj)),
            ),
        }
    }

    /// Mounts the directory of an object's kind, and above it the directory
    /// of its namespace where that is missing.
    pub fn mount_gvk(&mut self, cluster_obj: &ClusterObject, now: (i64, u32)) -> (r: Result<
        u64,
        FsError,
    >)
        requires
            cluster_obj.addressable(),
        ensures
            engine_failed(r) || (final(self)@, outcome(r)) == old(self)@.mount_gvk(
                cluster_obj@,
                now,
            ),
    {
        let api_path = get_resource_api_key(cluster_obj);
        let parent_inode = self.mount_parent(cluster_obj, now)?;
        self.mount_dir(api_path.as_str(), parent_inode, now)
    }

    /// Mounts the file of an object in the directory of its kind.
    pub fn mount_gvr(&mut self, cluster_obj: &ClusterObject, now: (i64, u32)) -> (r: Result<
        u64,
        FsError,
    >)
        requires
            cluster_obj.addressable(),
        ensures
            engine_failed(r) || (final(self)@, outcome(r)) == old(self)@.mount_gvr(
                cluster_obj@,
                now,
            ),
    {
        let parent_inode = self.mount_gvk(cluster_obj, now)?;
        let file_key = get_resource_file_key(cluster_obj);
        self.mount_file(file_key.as_str(), parent_inode, cluster_obj.obj.yaml.as_slice(), now)
    }

    /// Rewrites the file at the path of an object with the object's text.
    pub fn update_gvr(&mut self, cluster_obj: ClusterObject, now: (i64, u32)) -> (r: Result<
        (),
        FsError,
    >)
        requires
            cluster_obj.addressable(),
        ensures
            engine_failed(r) || (final(self)@, outcome(r)) == old(self)@.update(cluster_obj@, now),
    {
        let key = get_resource_full_key(&cluster_obj);
        self.edit_file(key.as_str(), cluster_obj.obj.yaml.as_slice(), now)
    }
}

impl Storage for SledDb {
    fn add(&mut self, cluster_obj: ClusterObject, now: (i64, u32)) -> (r: Result<(), FsError>) {
        proof {
            if self@.wf() && self@.next_inode <= u64::MAX - 4 {
                lemma_add_wf(self@, cluster_obj@, now);
            }
        }
        if self.has(&cluster_obj)? {
            return self.update(cluster_obj, now);
        }
        match self.mount_gvr(&cluster_obj, now) {
            Ok(_) => Ok(()),
            Err(e) => Err(e),
        }
    }

    fn get(&self, cluster_obj: ClusterObject) -> (r: Result<Option<Vec<u8>>, FsError>) {
        let key = get_resource_full_key(&cluster_obj);
        match tree_get(&self.data, key.as_str().as_bytes()) {
            Ok(found) => Ok(found),
            Err(e) => Err(FsError::StoreDynamicObjectFailed(e)),
        }
    }

    fn update(&mut self, cluster_obj: ClusterObject, now: (i64, u32)) -> (r: Result<(), FsError>) {
        proof {
            if self@.wf() {
                lemma_update_wf(self@, cluster_obj@, now);
            }
        }
        self.update_gvr(cluster_obj, now)
    }

    fn delete(&mut self, cluster_obj: ClusterObject) -> (r: Result<(), FsError>) {
        proof {
            if self@.wf() {
                lemma_delete_wf(self@, cluster_obj@);
            }
        }
        let key = get_resource_full_key(&cluster_obj);
        match tree_remove(&mut self.data, key.as_str().as_bytes()) {
            Ok(_) => Ok(()),
            Err(e) => Err(FsError::StoreDynamicObjectFailed(e)),
        }
    }

    fn get_bucket(&self, name: Bucket) -> (tree: &sled::Tree) {
        match name {
            Bucket::RIndex => &self.rindex,
            Bucket::Inode => &self.inode,
            Bucket::Dentry => &self.dentry,
            Bucket::Data => &self.data,
        }
    }

    fn has(&self, cluster_obj: &ClusterObject) -> (r: Result<bool, FsError>) {
        let key = get_resource_full_key(cluster_obj);
        match tree_contains_key(&self.rindex, key.as_str().as_bytes()) {
            Ok(found) => Ok(found),
            Err(e) => Err(FsError::StoreDynamicObjectFailed(e)),
        }
    }
}

} // verus!
