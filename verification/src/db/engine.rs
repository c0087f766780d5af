//! The `sled` engine as the rest of the crate sees it.
//!
//! Nothing in this file is proved. Each item states what the `sled` source
//! shows of one function; every proof in the crate that touches a bucket rests
//! on these statements. The handles are treated as owning their contents: the
//! crate opens each tree once and never clones a handle, so no second handle
//! can change a tree behind a contract's back.
use vstd::prelude::*;
use sled::transaction::Transactional;

verus! {

/// `sled::Db`, carried as an opaque value.
#[verifier::external_type_specification]
#[verifier::external_body]
pub struct ExDb(sled::Db);

/// `sled::Tree`, carried as an opaque value.
#[verifier::external_type_specification]
#[verifier::external_body]
pub struct ExTree(sled::Tree);

/// `sled::Error`, carried as an opaque value.
#[verifier::external_type_specification]
#[verifier::external_body]
pub struct ExEngineError(sled::Error);

/// `sled::transaction::TransactionError`, carried as an opaque value.
#[verifier::external_type_specification]
#[verifier::external_body]
#[verifier::reject_recursive_types(T)]
pub struct ExTransactionError<T>(sled::transaction::TransactionError<T>);

/// The key-value pairs that a tree holds.
pub uninterp spec fn tree_map(tree: sled::Tree) -> Map<Seq<u8>, Seq<u8>>;

/// The trees that a database holds, by name, each with its key-value pairs.
pub uninterp spec fn db_trees(db: sled::Db) -> Map<Seq<u8>, Map<Seq<u8>, Seq<u8>>>;

/// What a lookup of `key` in `m` gives, as an optional value.
pub open spec fn lookup(m: Map<Seq<u8>, Seq<u8>>, key: Seq<u8>) -> Option<Seq<u8>> {
    if m.contains_key(key) {
        Some(m[key])
    } else {
        None
    }
}

/// The view of an optional byte vector.
pub open spec fn opt_bytes(v: Option<Vec<u8>>) -> Option<Seq<u8>> {
    match v {
        Some(b) => Some(b@),
        None => None,
    }
}

/// The view of an optional byte slice.
pub open spec fn opt_slice(v: Option<&[u8]>) -> Option<Seq<u8>> {
    match v {
        Some(b) => Some(b@),
        None => None,
    }
}

/// `m` after `key` was bound to `value`, or unbound where `value` is `None`.
pub open spec fn rebind(m: Map<Seq<u8>, Seq<u8>>, key: Seq<u8>, value: Option<Seq<u8>>) -> Map<
    Seq<u8>,
    Seq<u8>,
> {
    match value {
        Some(v) => m.insert(key, v),
        None => m.remove(key),
    }
}

/// `sled::open`: opens or creates the database directory at `path`. Nothing is
/// claimed of what the database holds.
#[verifier::external_body]
pub(crate) fn db_open(path: &str) -> (r: Result<sled::Db, sled::Error>) {
    sled::open(path)
}

/// `sled::Db::drop_tree`: on success the database holds no tree called `name`
/// any more, and its other trees are as before.
#[verifier::external_body]
pub(crate) fn db_drop_tree(db: &mut sled::Db, name: &[u8]) -> (r: Result<bool, sled::Error>)
    ensures
        r is Ok ==> db_trees(*final(db)) == db_trees(*old(db)).remove(name@),
{
    db.drop_tree(name)
}

/// `sled::Db::open_tree`: on success the handle is that of the tree called
/// `name`, with the pairs the database held under that name, or of a new and
/// empty tree where it held none; the trees of other names are as before.
/// Nothing is claimed of what the database holds under `name` after the call:
/// from then on the handle speaks for that tree.
#[verifier::external_body]
pub(crate) fn db_open_tree(db: &mut sled::Db, name: &[u8]) -> (r: Result<sled::Tree, sled::Error>)
    ensures
        r matches Ok(tree) ==> {
            &&& tree_map(tree) == if db_trees(*old(db)).contains_key(name@) {
                db_trees(*old(db))[name@]
            } else {
                Map::<Seq<u8>, Seq<u8>>::empty()
            }
            &&& db_trees(*final(db)).remove(name@) == db_trees(*old(db)).remove(name@)
        },
{
    db.open_tree(name)
}

/// `sled::Tree::contains_key`: on success, whether the tree binds `key`.
#[verifier::external_body]
pub(crate) fn tree_contains_key(tree: &sled::Tree, key: &[u8]) -> (r: Result<bool, sled::Error>)
    ensures
        r matches Ok(found) ==> found == tree_map(*tree).contains_key(key@),
{
    tree.contains_key(key)
}

/// `sled::Tree::get`: on success, the value bound to `key`, if any.
#[verifier::external_body]
pub(crate) fn tree_get(tree: &sled::Tree, key: &[u8]) -> (r: Result<Option<Vec<u8>>, sled::Error>)
    ensures
        r matches Ok(found) ==> opt_bytes(found) == lookup(tree_map(*tree), key@),
{
    tree.get(key).map(|found| found.map(|value| value.to_vec()))
}

/// `sled::Tree::insert`: on success the tree binds `key` to `value`, its other
/// pairs are as before, and the result is the value that `key` was bound to.
/// Nothing is claimed of the tree after a failure.
#[verifier::external_body]
pub(crate) fn tree_insert(tree: &mut sled::Tree, key: &[u8], value: &[u8]) -> (r: Result<
    Option<Vec<u8>>,
    sled::Error,
>)
    ensures
        r matches Ok(prev) ==> {
            &&& tree_map(*final(tree)) == tree_map(*old(tree)).insert(key@, value@)
            &&& opt_bytes(prev) == lookup(tree_map(*old(tree)), key@)
        },
{
    tree.insert(key, value).map(|prev| prev.map(|value| value.to_vec()))
}

/// `sled::Tree::remove`: on success the tree no longer binds `key`, its other
/// pairs are as before, and the result is the value that `key` was bound to.
/// Nothing is claimed of the tree after a failure.
#[verifier::external_body]
pub(crate) fn tree_remove(tree: &mut sled::Tree, key: &[u8]) -> (r: Result<
    Option<Vec<u8>>,
    sled::Error,
>)
    ensures
        r matches Ok(prev) ==> {
            &&& tree_map(*final(tree)) == tree_map(*old(tree)).remove(key@)
            &&& opt_bytes(prev) == lookup(tree_map(*old(tree)), key@)
        },
{
    tree.remove(key).map(|prev| prev.map(|value| value.to_vec()))
}

/// `sled::Tree::fetch_and_update`: on success the result is the value that
/// `key` was bound to, and the tree binds `key` to what `f` made of that
/// value, or no longer binds it where `f` gave nothing; its other pairs are as
/// before. `f` may be called more than once, so it must accept every value.
/// Nothing is claimed of the tree after a failure.
#[verifier::external_body]
pub(crate) fn tree_fetch_and_update<F: Fn(Option<&[u8]>) -> Option<Vec<u8>>>(
    tree: &mut sled::Tree,
    key: &[u8],
    f: F,
) -> (r: Result<Option<Vec<u8>>, sled::Error>)
    requires
        forall|value: Option<&[u8]>| f.requires((value,)),
    ensures
        r matches Ok(prev) ==> {
            &&& opt_bytes(prev) == lookup(tree_map(*old(tree)), key@)
            &&& exists|value: Option<&[u8]>, next: Option<Vec<u8>>|
                opt_slice(value) == opt_bytes(prev) && f.ensures((value,), next) && tree_map(
                    *final(tree),
                ) == rebind(tree_map(*old(tree)), key@, opt_bytes(next))
        },
{
    tree.fetch_and_update(key, f).map(|prev| prev.map(|value| value.to_vec()))
}

/// `Transactional::transaction` on three trees, with a closure that inserts
/// one pair into each: on success each tree binds its key to its value and
/// its other pairs are as before. Nothing is claimed of the trees after a
/// failure.
#[verifier::external_body]
pub(crate) fn trees_insert_together(
    first: &mut sled::Tree,
    first_key: &[u8],
    first_value: &[u8],
    second: &mut sled::Tree,
    second_key: &[u8],
    second_value: &[u8],
    third: &mut sled::Tree,
    third_key: &[u8],
    third_value: &[u8],
) -> (r: Result<(), sled::transaction::TransactionError<sled::Error>>)
    ensures
        r is Ok ==> {
            &&& tree_map(*final(first)) == tree_map(*old(first)).insert(first_key@, first_value@)
            &&& tree_map(*final(second)) == tree_map(*old(second)).insert(
                second_key@,
                second_value@,
            )
            &&& tree_map(*final(third)) == tree_map(*old(third)).insert(third_key@, third_value@)
        },
{
    (&*first, &*second, &*third).transaction(|(a, b, c)| {
        a.insert(first_key, first_value)?;
        b.insert(second_key, second_value)?;
        c.insert(third_key, third_value)?;
        Ok(())
    })
}

} // verus!
