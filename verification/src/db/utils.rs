//! Keys of the buckets: inode numbers as eight big-endian bytes, paths as
//! their bytes.
use vstd::prelude::*;
use vstd::string::{StrSliceExecFns, StringExecFns, StringSliceAdditionalSpecFns};
use crate::db::engine::{db_drop_tree, db_trees};
use crate::db::Bucket;
use crate::error::FsError;
use crate::{ClusterObject, ObjectView, Scope};

verus! {

/// The eight bytes of `number`, most significant first.
pub open spec fn be_bytes(number: u64) -> Seq<u8> {
    seq![
        (number >> 56) as u8,
        (number >> 48) as u8,
        (number >> 40) as u8,
        (number >> 32) as u8,
        (number >> 24) as u8,
        (number >> 16) as u8,
        (number >> 8) as u8,
        number as u8,
    ]
}

/// The number whose big-endian bytes are the first eight of `bytes`.
pub open spec fn be_value(bytes: Seq<u8>) -> u64
    recommends
        bytes.len() == 8,
{
    (bytes[0] as u64) << 56 | (bytes[1] as u64) << 48 | (bytes[2] as u64) << 40 | (bytes[3] as u64)
        << 32 | (bytes[4] as u64) << 24 | (bytes[5] as u64) << 16 | (bytes[6] as u64) << 8
        | bytes[7] as u64
}

/// Reading back the key of a number gives the number.
pub proof fn lemma_be_value_of_be_bytes(number: u64)
    ensures
        be_bytes(number).len() == 8,
        be_value(be_bytes(number)) == number,
{
    let b = be_bytes(number);
    assert(((number >> 56) as u8 as u64) << 56 | ((number >> 48) as u8 as u64) << 48 | ((number
        >> 40) as u8 as u64) << 40 | ((number >> 32) as u8 as u64) << 32 | ((number >> 24) as u8
        as u64) << 24 | ((number >> 16) as u8 as u64) << 16 | ((number >> 8) as u8 as u64) << 8 | (
    number as u8 as u64) == number) by (bit_vector);
}

/// Writing the key of the number read from eight bytes gives those bytes.
pub proof fn lemma_be_bytes_of_be_value(bytes: Seq<u8>)
    requires
        bytes.len() == 8,
    ensures
        be_bytes(be_value(bytes)) == bytes,
{
    let (b0, b1, b2, b3, b4, b5, b6, b7) = (
        bytes[0],
        bytes[1],
        bytes[2],
        bytes[3],
        bytes[4],
        bytes[5],
        bytes[6],
        bytes[7],
    );
    let n = (b0 as u64) << 56 | (b1 as u64) << 48 | (b2 as u64) << 40 | (b3 as u64) << 32 | (
    b4 as u64) << 24 | (b5 as u64) << 16 | (b6 as u64) << 8 | b7 as u64;
    assert(n == (b0 as u64) << 56 | (b1 as u64) << 48 | (b2 as u64) << 40 | (b3 as u64) << 32 | (
    b4 as u64) << 24 | (b5 as u64) << 16 | (b6 as u64) << 8 | b7 as u64 ==> (n >> 56) as u8 == b0
        && (n >> 48) as u8 == b1 && (n >> 40) as u8 == b2 && (n >> 32) as u8 == b3 && (n >> 24) as u8
        == b4 && (n >> 16) as u8 == b5 && (n >> 8) as u8 == b6 && n as u8 == b7) by (bit_vector);
    assert(be_bytes(be_value(bytes)) =~= bytes);
}

/// The key under which the buckets file `number`.
pub fn u64_to_ivec(number: u64) -> (key: Vec<u8>)
    ensures
        key@ == be_bytes(number),
{
    let mut key: Vec<u8> = Vec::with_capacity(8);
    key.push((number >> 56) as u8);
    key.push((number >> 48) as u8);
    key.push((number >> 40) as u8);
    key.push((number >> 32) as u8);
    key.push((number >> 24) as u8);
    key.push((number >> 16) as u8);
    key.push((number >> 8) as u8);
    key.push(number as u8);
    assert(key@ =~= be_bytes(number));
    key
}

/// The number that an eight-byte key stands for.
pub fn ivec_to_u64(value: &[u8]) -> (number: u64)
    requires
        value@.len() == 8,
    ensures
        number == be_value(value@),
        be_bytes(number) == value@,
{
    proof {
        lemma_be_bytes_of_be_value(value@);
    }
    (value[0] as u64) << 56 | (value[1] as u64) << 48 | (value[2] as u64) << 40 | (value[3] as u64)
        << 32 | (value[4] as u64) << 24 | (value[5] as u64) << 16 | (value[6] as u64) << 8
        | value[7] as u64
}

/// The number after `number`, and 0 after the largest.
pub open spec fn wrapping_succ(number: u64) -> u64 {
    if number == u64::MAX {
        0
    } else {
        (number + 1) as u64
    }
}

/// An inode number and the key that files it.
pub type SledInode = (u64, Vec<u8>);

/// Takes the next inode number from `counter`: the number that the counter
/// stands at, with its key; the counter then stands one higher.
pub fn handle_next_inode(counter: &mut u64) -> (next: SledInode)
    ensures
        next.0 == *old(counter),
        next.1@ == be_bytes(*old(counter)),
        *final(counter) == wrapping_succ(*old(counter)),
{
    let inode = *counter;
    *counter = if inode == u64::MAX {
        0
    } else {
        inode + 1
    };
    (inode, u64_to_ivec(inode))
}

/// Where the last component of a path begins: after its last `/`, or at its
/// start where it holds none.
pub open spec fn name_start(path: Seq<char>) -> int
    decreases path.len(),
{
    if path.len() == 0 {
        0
    } else if path.last() == '/' {
        path.len() as int
    } else {
        name_start(path.drop_last())
    }
}

/// The last component of a path: what follows its last `/`.
pub open spec fn file_name(path: Seq<char>) -> Seq<char> {
    path.skip(name_start(path))
}

/// The last component of a path lies within the path.
pub proof fn lemma_name_start(path: Seq<char>)
    ensures
        0 <= name_start(path) <= path.len(),
    decreases path.len(),
{
    if path.len() > 0 && path.last() != '/' {
        lemma_name_start(path.drop_last());
    }
}

/// The last component of a path.
pub fn extract_name(path: &str) -> (name: String)
    ensures
        name@ == file_name(path@),
{
    let len = path.unicode_len();
    let mut start: usize = 0;
    let mut i: usize = 0;
    for c in it: path.chars()
        invariant
            len == path@.len(),
            it.seq() == path@,
            i == it.index(),
            start == name_start(path@.take(i as int)),
            start <= i,
    {
        proof {
            assert(path@.take(i + 1).drop_last() =~= path@.take(i as int));
            assert(path@.take(i + 1).last() == c);
        }
        i += 1;
        if c == '/' {
            start = i;
        }
    }
    assert(path@.take(i as int) =~= path@);
    path.substring_char(start, i).to_owned()
}

/// A path as an owned string.
pub fn into_string(path: &str) -> (owned: String)
    ensures
        owned@ == path@,
{
    path.to_owned()
}

/// The path of the directory that holds the kinds of an object's namespace,
/// or of its cluster where its kind lives in none:
/// `{cluster}/namespace/{namespace}` or `{cluster}`.
pub open spec fn parent_resource_full_key(o: ObjectView) -> Seq<char> {
    match o.scope {
        Scope::Namespaced => o.cluster + "/namespace/"@ + o.namespace->0,
        Scope::Cluster => o.cluster,
    }
}

/// The path of the directory of an object's kind:
/// `{cluster}/namespace/{namespace}/{Kind}` or `{cluster}/{Kind}`.
pub open spec fn resource_api_key(o: ObjectView) -> Seq<char> {
    parent_resource_full_key(o) + "/"@ + o.kind
}

/// The path of an object:
/// `{cluster}/namespace/{namespace}/{Kind}/{name}` or `{cluster}/{Kind}/{name}`.
pub open spec fn resource_full_key(o: ObjectView) -> Seq<char> {
    resource_api_key(o) + "/"@ + o.name->0
}

/// The path of the file that shows an object: its path and `.yaml`.
pub open spec fn resource_file_key(o: ObjectView) -> Seq<char> {
    resource_full_key(o) + ".yaml"@
}

/// The path of the directory that holds the namespaces of an object's
/// cluster: `{cluster}/namespace`.
pub open spec fn namespace_root_key(o: ObjectView) -> Seq<char> {
    o.cluster + "/namespace"@
}

/// The path of the directory that holds the kinds of an object's namespace,
/// or of its cluster.
pub fn get_parent_resource_full_key(cluster_obj: &ClusterObject) -> (key: String)
    requires
        cluster_obj@.scope == Scope::Namespaced ==> cluster_obj@.namespace is Some,
    ensures
        key@ == parent_resource_full_key(cluster_obj@),
{
    let mut key = cluster_obj.meta.cluster.clone();
    match cluster_obj.meta.caps.scope {
        Scope::Namespaced => {
            key.append("/namespace/");
            match &cluster_obj.obj.metadata.namespace {
                Some(namespace) => key.append(namespace.as_str()),
                None => {},
            }
        },
        Scope::Cluster => {},
    }
    key
}

/// The path of the directory of an object's kind.
pub fn get_resource_api_key(cluster_obj: &ClusterObject) -> (key: String)
    requires
        cluster_obj@.scope == Scope::Namespaced ==> cluster_obj@.namespace is Some,
    ensures
        key@ == resource_api_key(cluster_obj@),
{
    let mut key = get_parent_resource_full_key(cluster_obj);
    key.append("/");
    key.append(cluster_obj.meta.gvk.kind.as_str());
    key
}

/// The path of an object.
pub fn get_resource_full_key(cluster_obj: &ClusterObject) -> (key: String)
    requires
        cluster_obj.addressable(),
    ensures
        key@ == resource_full_key(cluster_obj@),
{
    let mut key = get_resource_api_key(cluster_obj);
    key.append("/");
    match &cluster_obj.obj.metadata.name {
        Some(name) => key.append(name.as_str()),
        None => {},
    }
    key
}

/// The path of the file that shows an object.
pub fn get_resource_file_key(cluster_obj: &ClusterObject) -> (key: String)
    requires
        cluster_obj.addressable(),
    ensures
        key@ == resource_file_key(cluster_obj@),
{
    let mut key = get_resource_full_key(cluster_obj);
    key.append(".yaml");
    key
}

/// The path of the directory that holds the namespaces of an object's
/// cluster.
pub fn get_namespace_root_key(cluster_obj: &ClusterObject) -> (key: String)
    ensures
        key@ == namespace_root_key(cluster_obj@),
{
    let mut key = cluster_obj.meta.cluster.clone();
    key.append("/namespace");
    key
}

/// Drops the buckets that do not outlive the process: the path index, the
/// inode bucket and the directory bucket.
pub fn clean_one_time_buckets(db: &mut sled::Db) -> (r: Result<(), FsError>)
    ensures
        r is Ok ==> db_trees(*final(db)) == db_trees(*old(db)).remove(
            Bucket::RIndex.spec_name(),
        ).remove(Bucket::Inode.spec_name()).remove(Bucket::Dentry.spec_name()),
        r matches Err(e) ==> e@.is_engine_failure(),
{
    match db_drop_tree(db, Bucket::RIndex.name().as_bytes()) {
        Ok(_) => {},
        Err(e) => {
            return Err(FsError::StoreDynamicObjectFailed(e));
        },
    }
    match db_drop_tree(db, Bucket::Inode.name().as_bytes()) {
        Ok(_) => {},
        Err(e) => {
            return Err(FsError::StoreDynamicObjectFailed(e));
        },
    }
    match db_drop_tree(db, Bucket::Dentry.name().as_bytes()) {
        Ok(_) => {},
        Err(e) => {
            return Err(FsError::StoreDynamicObjectFailed(e));
        },
    }
    Ok(())
}

} // verus!
