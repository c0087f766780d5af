//! What holds of the buckets after every operation.
//!
//! The laws speak of `FsState`, the buckets as a mathematical value; the
//! executable operations are proved elsewhere to move the buckets as the
//! functions of `FsState` say.
use vstd::prelude::*;
use crate::db::engine::lookup;
use crate::db::model::{
    inode_key, joined_record, path_key, readable_dentry, readable_inode, touched_record, FsState,
};
use crate::db::utils::{
    be_value, file_name, lemma_be_value_of_be_bytes, namespace_root_key, parent_resource_full_key,
    resource_api_key, resource_file_key, resource_full_key, wrapping_succ,
};
use crate::{ObjectView, Scope};
use crate::error::FsErrorView;
use crate::fuse::attrs::{FileKind, InodeAttributesView};
use crate::fuse::dentry::{
    entries_joined, lemma_dot_names, lemma_joined, lemma_joined_twice, lemma_name_key_injective,
    lemma_slot_bounds, names, slot, DentryAttributesView, EntryView,
};
use crate::fuse::dentry_text::{lemma_parse_dentry, parse_dentry};
use crate::fuse::inode_text::{lemma_parse_inode, parse_inode};

verus! {

/// Whether every path of the path index leads to an inode whose attributes
/// can be read.
pub open spec fn index_resolves(s: FsState) -> bool {
    forall|k: Seq<u8>| #[trigger]
        s.rindex.contains_key(k) ==> s.rindex[k].len() == 8 && s.inode.contains_key(s.rindex[k])
            && parse_inode(s.inode[s.rindex[k]]) is Some
}

/// Whether everything in the inode bucket and in the directory bucket is the
/// text of a record.
pub open spec fn records_readable(s: FsState) -> bool {
    &&& forall|k: Seq<u8>| #[trigger] s.inode.contains_key(k) ==> parse_inode(s.inode[k]) is Some
    &&& forall|k: Seq<u8>| #[trigger]
        s.dentry.contains_key(k) ==> parse_dentry(s.dentry[k]) is Some
}

/// Whether an entry stands for a child directory: it is of kind directory
/// and is neither `.` nor `..`.
pub open spec fn is_child_directory(e: EntryView) -> bool {
    e.kind == FileKind::Directory && e.name != seq!['.'] && e.name != seq!['.', '.']
}

/// Whether the directory `d` lists, at place `i`, the directory `child`.
pub open spec fn lists_directory(s: FsState, d: u64, i: int, child: u64) -> bool {
    s.get_dentry(d) matches Ok(record) && 0 <= i < record.entries.len() && is_child_directory(
        record.entries[i],
    ) && record.entries[i].inode == child
}

/// Whether every directory that is listed as a child names the listing
/// directory as its parent.
pub open spec fn links_symmetric(s: FsState) -> bool {
    forall|d: u64, i: int, child: u64| #[trigger]
        lists_directory(s, d, i, child) ==> (s.get_dentry(child) matches Ok(record)
            ==> record.parent == d)
}

/// Whether every directory that is listed as a child has a number that was
/// issued already.
pub open spec fn children_issued(s: FsState) -> bool {
    forall|d: u64, i: int, child: u64| #[trigger]
        lists_directory(s, d, i, child) ==> child < s.next_inode
}

/// Whether every inode of the path index has a number that was issued
/// already.
pub open spec fn index_issued(s: FsState) -> bool {
    forall|k: Seq<u8>| #[trigger] s.rindex.contains_key(k) ==> be_value(s.rindex[k]) < s.next_inode
}

/// Whether no two paths of the path index lead to the same inode.
pub open spec fn index_injective(s: FsState) -> bool {
    forall|k1: Seq<u8>, k2: Seq<u8>|
        #[trigger] s.rindex.contains_key(k1) && #[trigger] s.rindex.contains_key(k2) && k1 != k2
            ==> s.rindex[k1] != s.rindex[k2]
}

impl FsState {
    /// Whether the buckets are as the operations of the filesystem leave
    /// them.
    #[verifier::opaque]
    pub open spec fn wf(self) -> bool {
        &&& index_resolves(self)
        &&& index_issued(self)
        &&& index_injective(self)
        &&& records_readable(self)
        &&& links_symmetric(self)
        &&& children_issued(self)
    }
}

/// Different inodes have different keys.
pub proof fn lemma_inode_key_injective(a: u64, b: u64)
    ensures
        inode_key(a) == inode_key(b) <==> a == b,
        inode_key(a).len() == 8,
        be_value(inode_key(a)) == a,
{
    lemma_be_value_of_be_bytes(a);
    lemma_be_value_of_be_bytes(b);
}

/// Different paths have different keys.
pub proof fn lemma_path_key_injective(a: Seq<char>, b: Seq<char>)
    ensures
        path_key(a) == path_key(b) <==> a == b,
{
    if path_key(a) == path_key(b) {
        lemma_name_key_injective(a, b);
    }
}

/// A directory record that was read and had a name bound in it can be read
/// again, and holds the binding.
pub proof fn lemma_joined_record(stored: Option<Seq<u8>>, name: Seq<char>, kind: FileKind, inode: u64)
    requires
        readable_dentry(stored),
    ensures
        readable_dentry(joined_record(stored, name, kind, inode)),
        stored is Some <==> joined_record(stored, name, kind, inode) is Some,
        stored matches Some(bytes) ==> parse_dentry(joined_record(stored, name, kind, inode)->0)
            == Some(parse_dentry(bytes)->0.joined(name, kind, inode)),
{
    if let Some(bytes) = stored {
        let record = parse_dentry(bytes)->0;
        lemma_joined(record.entries, name, kind, inode);
        lemma_parse_dentry(record.joined(name, kind, inode));
    }
}

/// Binding a name a second time in a stored directory record changes nothing.
pub proof fn lemma_joined_record_twice(
    stored: Option<Seq<u8>>,
    name: Seq<char>,
    kind: FileKind,
    inode: u64,
)
    requires
        readable_dentry(stored),
    ensures
        joined_record(joined_record(stored, name, kind, inode), name, kind, inode)
            == joined_record(stored, name, kind, inode),
{
    if let Some(bytes) = stored {
        let record = parse_dentry(bytes)->0;
        lemma_joined_record(stored, name, kind, inode);
        lemma_joined_twice(record.entries, name, kind, inode);
    }
}

/// Stored attributes that were read and got new times can be read again, and
/// getting the same times again changes nothing.
pub proof fn lemma_touched_record(stored: Option<Seq<u8>>, now: (i64, u32))
    requires
        readable_inode(stored),
    ensures
        readable_inode(touched_record(stored, now)),
        stored is Some <==> touched_record(stored, now) is Some,
        touched_record(touched_record(stored, now), now) == touched_record(stored, now),
{
    if let Some(bytes) = stored {
        let attr = parse_inode(bytes)->0;
        lemma_parse_inode(attr.touched(now));
    }
}

/// Every entry of a record in which a name was bound is the new entry or an
/// entry of the record before.
pub proof fn lemma_joined_entries(
    entries: Seq<EntryView>,
    name: Seq<char>,
    kind: FileKind,
    inode: u64,
    j: int,
)
    requires
        0 <= j < entries_joined(entries, name, kind, inode).len(),
    ensures
        entries_joined(entries, name, kind, inode)[j] == (EntryView { name, kind, inode })
            || exists|i: int|
            0 <= i < entries.len() && entries[i] == entries_joined(entries, name, kind, inode)[j],
{
    let k = slot(entries, name, 0);
    let after = entries_joined(entries, name, kind, inode);
    lemma_slot_bounds(entries, name, 0);
    if names(entries, k, name) {
        if j != k {
            assert(entries[j] == after[j]);
        }
    } else {
        if j < k {
            assert(entries[j] == after[j]);
        } else if j > k {
            assert(entries[j - 1] == after[j]);
        }
    }
}

/// What binding a name in a directory does to what is read from the
/// buckets: the record of that directory holds the binding, where it could
/// be read, and nothing else differs.
pub proof fn lemma_join_dir_reads(s: FsState, parent: u64, child: u64, name: Seq<char>, kind: FileKind)
    ensures
        ({
            let t = s.join_dir(parent, child, name, kind).0;
            &&& t.rindex == s.rindex
            &&& t.inode == s.inode
            &&& t.data == s.data
            &&& t.next_inode == s.next_inode
            &&& forall|k: Seq<u8>| #[trigger] t.dentry.contains_key(k) <==> s.dentry.contains_key(k)
            &&& forall|k: Seq<u8>|
                k != inode_key(parent) && #[trigger] s.dentry.contains_key(k) ==> t.dentry[k]
                    == s.dentry[k]
            &&& forall|x: u64|
                x != parent ==> #[trigger] t.get_dentry(x) == s.get_dentry(x)
            &&& t.get_dentry(parent) == (match s.get_dentry(parent) {
                Ok(record) => if parent != 0 {
                    Ok(record.joined(name, kind, child))
                } else {
                    Ok(record)
                },
                Err(e) => Err(e),
            })
            &&& forall|x: u64| #[trigger]
                t.get_dentry(x) is Ok ==> s.get_dentry(x) is Ok && s.get_dentry(x)->Ok_0.parent
                    == t.get_dentry(x)->Ok_0.parent
        }),
{
    let t = s.join_dir(parent, child, name, kind).0;
    let stored = lookup(s.dentry, inode_key(parent));
    if parent != 0 {
        assert forall|x: u64| x != parent implies #[trigger] t.get_dentry(x) == s.get_dentry(x) by {
            lemma_inode_key_injective(x, parent);
        }
        if readable_dentry(stored) {
            lemma_joined_record(stored, name, kind, child);
        }
    }
}

/// What mounting a fresh directory does to what is read from the buckets,
/// before the directory is bound in its parent.
pub proof fn lemma_with_directory_reads(s: FsState, path: Seq<char>, parent: u64, now: (i64, u32))
    ensures
        ({
            let t = s.with_directory(path, parent, now);
            let n = s.next_inode;
            &&& t.data == s.data
            &&& t.next_inode == wrapping_succ(n)
            &&& forall|p: Seq<char>| #[trigger] t.has_path(p) <==> (p == path || s.has_path(p))
            &&& forall|p: Seq<char>| p != path ==> #[trigger] t.get_inode(p) == s.get_inode(p)
            &&& t.get_inode(path) == Ok::<u64, FsErrorView>(n)
            &&& forall|x: u64| x != n ==> #[trigger] t.get_dentry(x) == s.get_dentry(x)
            &&& forall|x: u64| x != n ==> #[trigger] t.get_inode_attr(x) == s.get_inode_attr(x)
            &&& t.get_dentry(n) == Ok::<DentryAttributesView, FsErrorView>(
                DentryAttributesView::fresh(file_name(path), n, parent),
            )
            &&& t.get_inode_attr(n) == Ok::<InodeAttributesView, FsErrorView>(
                InodeAttributesView::directory(n, now),
            )
        }),
{
    let t = s.with_directory(path, parent, now);
    let n = s.next_inode;
    lemma_inode_key_injective(n, n);
    assert forall|p: Seq<char>| #[trigger] t.has_path(p) <==> (p == path || s.has_path(p)) by {
        lemma_path_key_injective(p, path);
    }
    assert forall|p: Seq<char>| p != path implies #[trigger] t.get_inode(p) == s.get_inode(p) by {
        lemma_path_key_injective(p, path);
    }
    assert forall|x: u64| x != n implies #[trigger] t.get_dentry(x) == s.get_dentry(x) by {
        lemma_inode_key_injective(x, n);
    }
    assert forall|x: u64| x != n implies #[trigger] t.get_inode_attr(x) == s.get_inode_attr(x) by {
        lemma_inode_key_injective(x, n);
    }
    lemma_fresh_wf(file_name(path), n, parent);
    lemma_parse_dentry(DentryAttributesView::fresh(file_name(path), n, parent));
    lemma_parse_inode(InodeAttributesView::directory(n, now));
}

/// The record of a directory that was just mounted has its entries in order,
/// and none of them stands for a child directory.
pub proof fn lemma_fresh_wf(name: Seq<char>, inode: u64, parent: u64)
    ensures
        DentryAttributesView::fresh(name, inode, parent).wf(),
        forall|i: int|
            0 <= i < DentryAttributesView::fresh(name, inode, parent).entries.len()
                ==> !is_child_directory(
                #[trigger] DentryAttributesView::fresh(name, inode, parent).entries[i],
            ),
{
    lemma_dot_names();
}

/// What writing a file does to what is read from the buckets, before the
/// file is bound in its parent.
pub proof fn lemma_with_file_reads(s: FsState, path: Seq<char>, content: Seq<u8>, now: (i64, u32))
    ensures
        ({
            let t = s.with_file(path, content, now);
            let f = s.file_inode(path);
            &&& t.dentry == s.dentry
            &&& t.next_inode == s.next_inode || (!s.has_path(path) && t.next_inode == wrapping_succ(
                s.next_inode,
            ))
            &&& forall|p: Seq<char>| #[trigger] t.has_path(p) <==> (p == path || s.has_path(p))
            &&& forall|p: Seq<char>| p != path ==> #[trigger] t.get_inode(p) == s.get_inode(p)
            &&& t.get_inode(path) == Ok::<u64, FsErrorView>(f)
            &&& forall|x: u64| #[trigger] t.get_dentry(x) == s.get_dentry(x)
            &&& forall|x: u64| x != f ==> #[trigger] t.get_inode_attr(x) == s.get_inode_attr(x)
            &&& forall|x: u64| x != f ==> #[trigger] t.get_data(x) == s.get_data(x)
            &&& t.get_inode_attr(f) == Ok::<InodeAttributesView, FsErrorView>(
                InodeAttributesView::file(f, content.len() as u64, now),
            )
            &&& t.get_data(f) == Ok::<Seq<u8>, FsErrorView>(content)
        }),
{
    let t = s.with_file(path, content, now);
    let f = s.file_inode(path);
    lemma_inode_key_injective(f, f);
    assert forall|p: Seq<char>| #[trigger] t.has_path(p) <==> (p == path || s.has_path(p)) by {
        lemma_path_key_injective(p, path);
    }
    assert forall|p: Seq<char>| p != path implies #[trigger] t.get_inode(p) == s.get_inode(p) by {
        lemma_path_key_injective(p, path);
    }
    assert forall|x: u64| x != f implies #[trigger] t.get_inode_attr(x) == s.get_inode_attr(x) by {
        lemma_inode_key_injective(x, f);
    }
    assert forall|x: u64| x != f implies #[trigger] t.get_data(x) == s.get_data(x) by {
        lemma_inode_key_injective(x, f);
    }
    lemma_parse_inode(InodeAttributesView::file(f, content.len() as u64, now));
}

/// Binding a name in a directory keeps the buckets well-formed, provided
/// that a child directory which is bound has a number that was issued and,
/// if it has a record, names that directory as its parent.
#[verifier::rlimit(50)]
pub proof fn lemma_join_dir_wf(s: FsState, parent: u64, child: u64, name: Seq<char>, kind: FileKind)
    requires
        s.wf(),
        is_child_directory(EntryView { name, kind, inode: child }) ==> child < s.next_inode && (
        s.get_dentry(child) matches Ok(record) ==> record.parent == parent),
    ensures
        s.join_dir(parent, child, name, kind).0.wf(),
        s.join_dir(parent, child, name, kind).1 is Ok,
{
    reveal(FsState::wf);
    let t = s.join_dir(parent, child, name, kind).0;
    let stored = lookup(s.dentry, inode_key(parent));
    lemma_join_dir_reads(s, parent, child, name, kind);
    if stored is Some {
        assert(s.dentry.contains_key(inode_key(parent)));
    }
    if parent != 0 {
        lemma_joined_record(stored, name, kind, child);
    }
    assert(records_readable(t)) by {
        assert forall|k: Seq<u8>| #[trigger] t.dentry.contains_key(k) implies parse_dentry(
            t.dentry[k],
        ) is Some by {
            assert(s.dentry.contains_key(k));
        }
    }
    assert forall|d: u64, i: int, c: u64| #[trigger] lists_directory(t, d, i, c) implies c
        < t.next_inode && (t.get_dentry(c) matches Ok(record) ==> record.parent == d) by {
        let after = t.get_dentry(d)->Ok_0;
        if d == parent && parent != 0 {
            let before = s.get_dentry(parent)->Ok_0;
            lemma_joined_entries(before.entries, name, kind, child, i);
            if after.entries[i] == (EntryView { name, kind, inode: child }) {
                assert(c == child);
            } else {
                let i0 = choose|i0: int|
                    0 <= i0 < before.entries.len() && before.entries[i0] == after.entries[i];
                assert(lists_directory(s, d, i0, c));
            }
        } else {
            assert(lists_directory(s, d, i, c));
        }
    }
}

/// Mounting a fresh directory keeps the buckets well-formed, before the
/// directory is bound in its parent.
#[verifier::rlimit(50)]
pub proof fn lemma_with_directory_wf(s: FsState, path: Seq<char>, parent: u64, now: (i64, u32))
    requires
        s.wf(),
        s.next_inode < u64::MAX,
    ensures
        s.with_directory(path, parent, now).wf(),
{
    reveal(FsState::wf);
    let t = s.with_directory(path, parent, now);
    let n = s.next_inode;
    lemma_inode_key_injective(n, n);
    assert(index_issued(t)) by {
        assert forall|k: Seq<u8>| #[trigger] t.rindex.contains_key(k) implies be_value(t.rindex[k])
            < t.next_inode by {
            if k != path_key(path) {
                assert(s.rindex.contains_key(k));
            }
        }
    }
    assert(index_injective(t)) by {
        assert forall|k1: Seq<u8>, k2: Seq<u8>|
            #[trigger] t.rindex.contains_key(k1) && #[trigger] t.rindex.contains_key(k2) && k1
                != k2 implies t.rindex[k1] != t.rindex[k2] by {
            if k1 != path_key(path) {
                assert(s.rindex.contains_key(k1));
            }
            if k2 != path_key(path) {
                assert(s.rindex.contains_key(k2));
            }
        }
    }
    lemma_with_directory_reads(s, path, parent, now);
    lemma_fresh_wf(file_name(path), n, parent);
    lemma_parse_dentry(DentryAttributesView::fresh(file_name(path), n, parent));
    lemma_parse_inode(InodeAttributesView::directory(n, now));
    assert(index_resolves(t)) by {
        assert forall|k: Seq<u8>| #[trigger] t.rindex.contains_key(k) implies t.rindex[k].len()
            == 8 && t.inode.contains_key(t.rindex[k]) && parse_inode(t.inode[t.rindex[k]])
            is Some by {
            if k != path_key(path) {
                assert(s.rindex.contains_key(k));
                assert(s.inode.contains_key(s.rindex[k]));
            }
        }
    }
    assert(records_readable(t)) by {
        assert forall|k: Seq<u8>| #[trigger] t.inode.contains_key(k) implies parse_inode(
            t.inode[k],
        ) is Some by {
            if k != inode_key(n) {
                assert(s.inode.contains_key(k));
            }
        }
        assert forall|k: Seq<u8>| #[trigger] t.dentry.contains_key(k) implies parse_dentry(
            t.dentry[k],
        ) is Some by {
            if k != inode_key(n) {
                assert(s.dentry.contains_key(k));
            }
        }
    }
    assert forall|d: u64, i: int, c: u64| #[trigger] lists_directory(t, d, i, c) implies c
        < t.next_inode && (t.get_dentry(c) matches Ok(record) ==> record.parent == d) by {
        if d != n {
            assert(lists_directory(s, d, i, c));
        }
    }
}

/// Mounting a directory keeps the buckets well-formed and succeeds; it
/// issues at most one inode number.
#[verifier::rlimit(50)]
pub proof fn lemma_mount_dir_wf(s: FsState, path: Seq<char>, parent: u64, now: (i64, u32))
    requires
        s.wf(),
        s.next_inode < u64::MAX,
    ensures
        s.mount_dir(path, parent, now).0.wf(),
        s.mount_dir(path, parent, now).1 is Ok,
        s.mount_dir(path, parent, now).0.next_inode == s.next_inode || s.mount_dir(
            path,
            parent,
            now,
        ).0.next_inode == s.next_inode + 1,
        s.mount_dir(path, parent, now).0.get_inode(path) == s.mount_dir(path, parent, now).1,
        s.mount_dir(path, parent, now).0.has_path(path),
        s.has_path(path) ==> s.mount_dir(path, parent, now) == (s, s.get_inode(path)),
        !s.has_path(path) ==> s.mount_dir(path, parent, now).1 == Ok::<u64, FsErrorView>(
            s.next_inode,
        ),
        forall|p: Seq<char>|
            s.has_path(p) ==> #[trigger] s.mount_dir(path, parent, now).0.has_path(p) && s.mount_dir(
                path,
                parent,
                now,
            ).0.get_inode(p) == s.get_inode(p),
        forall|p: Seq<char>| #[trigger]
            s.mount_dir(path, parent, now).0.has_path(p) ==> p == path || s.has_path(p),
{
    reveal(FsState::wf);
    if s.has_path(path) {
        assert(s.rindex.contains_key(path_key(path)));
    } else {
        let t = s.with_directory(path, parent, now);
        let n = s.next_inode;
        lemma_with_directory_reads(s, path, parent, now);
        lemma_with_directory_wf(s, path, parent, now);
        lemma_join_dir_reads(t, parent, n, file_name(path), FileKind::Directory);
        lemma_join_dir_wf(t, parent, n, file_name(path), FileKind::Directory);
        let u = t.join_dir(parent, n, file_name(path), FileKind::Directory).0;
        assert forall|p: Seq<char>| s.has_path(p) implies #[trigger] u.has_path(p) && u.get_inode(p)
            == s.get_inode(p) by {
            assert(t.has_path(p));
            assert(t.get_inode(p) == s.get_inode(p));
        }
        assert forall|p: Seq<char>| #[trigger] u.has_path(p) implies p == path || s.has_path(
            p,
        ) by {
            assert(t.has_path(p));
        }
    }
}

/// Writing a file keeps the buckets well-formed, before the file is bound in
/// its parent.
#[verifier::rlimit(50)]
pub proof fn lemma_with_file_wf(s: FsState, path: Seq<char>, content: Seq<u8>, now: (i64, u32))
    requires
        s.wf(),
        s.has_path(path) || s.next_inode < u64::MAX,
    ensures
        s.with_file(path, content, now).wf(),
{
    reveal(FsState::wf);
    let t = s.with_file(path, content, now);
    let f = s.file_inode(path);
    lemma_inode_key_injective(f, f);
    lemma_parse_inode(InodeAttributesView::file(f, content.len() as u64, now));
    if s.has_path(path) {
        assert(s.rindex.contains_key(path_key(path)));
        crate::db::utils::lemma_be_bytes_of_be_value(s.rindex[path_key(path)]);
        assert(t.rindex =~= s.rindex);
    }
    assert(index_issued(t)) by {
        assert forall|k: Seq<u8>| #[trigger] t.rindex.contains_key(k) implies be_value(t.rindex[k])
            < t.next_inode by {
            if k != path_key(path) {
                assert(s.rindex.contains_key(k));
            }
        }
    }
    assert(index_injective(t)) by {
        assert forall|k1: Seq<u8>, k2: Seq<u8>|
            #[trigger] t.rindex.contains_key(k1) && #[trigger] t.rindex.contains_key(k2) && k1
                != k2 implies t.rindex[k1] != t.rindex[k2] by {
            if !s.has_path(path) {
                if k1 != path_key(path) {
                    assert(s.rindex.contains_key(k1));
                }
                if k2 != path_key(path) {
                    assert(s.rindex.contains_key(k2));
                }
            }
        }
    }
    lemma_with_file_reads(s, path, content, now);
    assert(index_resolves(t)) by {
        assert forall|k: Seq<u8>| #[trigger] t.rindex.contains_key(k) implies t.rindex[k].len()
            == 8 && t.inode.contains_key(t.rindex[k]) && parse_inode(t.inode[t.rindex[k]])
            is Some by {
            if k != path_key(path) {
                assert(s.rindex.contains_key(k));
                assert(s.inode.contains_key(s.rindex[k]));
            }
        }
    }
    assert(records_readable(t)) by {
        assert forall|k: Seq<u8>| #[trigger] t.inode.contains_key(k) implies parse_inode(
            t.inode[k],
        ) is Some by {
            if k != inode_key(f) {
                assert(s.inode.contains_key(k));
            }
        }
    }
    assert forall|d: u64, i: int, c: u64| #[trigger] lists_directory(t, d, i, c) implies c
        < t.next_inode && (t.get_dentry(c) matches Ok(record) ==> record.parent == d) by {
        assert(lists_directory(s, d, i, c));
    }
}

/// Mounting a file keeps the buckets well-formed and succeeds; it issues at
/// most one inode number.
#[verifier::rlimit(50)]
pub proof fn lemma_mount_file_wf(
    s: FsState,
    path: Seq<char>,
    parent: u64,
    content: Seq<u8>,
    now: (i64, u32),
)
    requires
        s.wf(),
        s.next_inode < u64::MAX,
    ensures
        s.mount_file(path, parent, content, now).0.wf(),
        s.mount_file(path, parent, content, now).1 is Ok,
        s.mount_file(path, parent, content, now).0.next_inode == s.next_inode || s.mount_file(
            path,
            parent,
            content,
            now,
        ).0.next_inode == s.next_inode + 1,
        forall|p: Seq<char>| #[trigger]
            s.mount_file(path, parent, content, now).0.has_path(p) ==> p == path || s.has_path(p),
        forall|p: Seq<char>|
            s.has_path(p) ==> #[trigger] s.mount_file(path, parent, content, now).0.has_path(p)
                && s.mount_file(path, parent, content, now).0.get_inode(p) == s.get_inode(p),
        s.mount_file(path, parent, content, now).0.has_path(path),
        s.mount_file(path, parent, content, now).0.get_inode(path) == s.mount_file(
            path,
            parent,
            content,
            now,
        ).1,
        s.mount_file(path, parent, content, now).1 == Ok::<u64, FsErrorView>(s.file_inode(path)),
{
    reveal(FsState::wf);
    if s.has_path(path) {
        assert(s.rindex.contains_key(path_key(path)));
    }
    let t = s.with_file(path, content, now);
    let f = s.file_inode(path);
    lemma_with_file_reads(s, path, content, now);
    lemma_with_file_wf(s, path, content, now);
    lemma_join_dir_wf(t, parent, f, file_name(path), FileKind::File);
    lemma_join_dir_reads(t, parent, f, file_name(path), FileKind::File);
    let u = t.join_dir(parent, f, file_name(path), FileKind::File).0;
    assert forall|p: Seq<char>| #[trigger] u.has_path(p) implies p == path || s.has_path(p) by {
        assert(t.has_path(p));
    }
    assert forall|p: Seq<char>| s.has_path(p) implies #[trigger] u.has_path(p) && u.get_inode(p)
        == s.get_inode(p) by {
        assert(t.has_path(p));
        if p != path {
            assert(t.get_inode(p) == s.get_inode(p));
        }
    }
}

/// Mounting a file a second time at the same path, under the same parent,
/// with the same content and at the same time, changes nothing.
#[verifier::rlimit(50)]
pub proof fn lemma_mount_file_idempotent(
    s: FsState,
    path: Seq<char>,
    parent: u64,
    content: Seq<u8>,
    now: (i64, u32),
)
    requires
        s.wf(),
        s.next_inode < u64::MAX,
    ensures
        s.mount_file(path, parent, content, now).0.mount_file(path, parent, content, now)
            == s.mount_file(path, parent, content, now),
{
    reveal(FsState::wf);
    if s.has_path(path) {
        assert(s.rindex.contains_key(path_key(path)));
    }
    let t = s.with_file(path, content, now);
    let f = s.file_inode(path);
    let name = file_name(path);
    lemma_with_file_reads(s, path, content, now);
    lemma_with_file_wf(s, path, content, now);
    lemma_join_dir_wf(t, parent, f, name, FileKind::File);
    lemma_join_dir_reads(t, parent, f, name, FileKind::File);
    let u = t.join_dir(parent, f, name, FileKind::File).0;
    assert(u.has_path(path));
    assert(u.get_inode(path) == Ok::<u64, FsErrorView>(f));
    let v = u.with_file(path, content, now);
    lemma_inode_key_injective(f, f);
    assert(v.rindex =~= u.rindex);
    assert(v.inode =~= u.inode);
    assert(v.data =~= u.data);
    assert(v == u);
    let stored = lookup(t.dentry, inode_key(parent));
    if stored is Some {
        assert(t.dentry.contains_key(inode_key(parent)));
    }
    if parent != 0 {
        lemma_joined_record(stored, name, FileKind::File, f);
        lemma_joined_record_twice(stored, name, FileKind::File, f);
        let w = u.join_dir(parent, f, name, FileKind::File).0;
        assert(w.dentry =~= u.dentry);
        assert(w == u);
    }
}

/// Rewriting a file keeps the buckets well-formed.
#[verifier::rlimit(50)]
pub proof fn lemma_edit_file_wf(s: FsState, path: Seq<char>, content: Seq<u8>, now: (i64, u32))
    requires
        s.wf(),
    ensures
        s.edit_file(path, content, now).0.wf(),
{
    reveal(FsState::wf);
    let t = s.edit_file(path, content, now).0;
    if let Ok(inode) = s.get_inode(path) {
        let stored = lookup(s.inode, inode_key(inode));
        if stored is Some {
            assert(s.inode.contains_key(inode_key(inode)));
        }
        lemma_touched_record(stored, now);
        assert forall|k: Seq<u8>| #[trigger] t.inode.contains_key(k) implies s.inode.contains_key(
            k,
        ) && parse_inode(t.inode[k]) is Some by {}
        assert forall|k: Seq<u8>| #[trigger] s.inode.contains_key(k) implies t.inode.contains_key(
            k,
        ) by {}
        assert(index_resolves(t)) by {
            assert forall|k: Seq<u8>| #[trigger] t.rindex.contains_key(k) implies t.rindex[k].len()
                == 8 && t.inode.contains_key(t.rindex[k]) && parse_inode(t.inode[t.rindex[k]])
                is Some by {
                assert(s.rindex.contains_key(k));
                assert(s.inode.contains_key(s.rindex[k]));
            }
        }
        assert forall|d: u64, i: int, c: u64| #[trigger] lists_directory(t, d, i, c) implies c
            < t.next_inode && (t.get_dentry(c) matches Ok(record) ==> record.parent == d) by {
            assert(lists_directory(s, d, i, c));
        }
    }
}

/// Replacing the attributes of an inode keeps the buckets well-formed.
pub proof fn lemma_update_inode_wf(s: FsState, inode: u64, attr: InodeAttributesView)
    requires
        s.wf(),
        attr.wf(),
    ensures
        s.update_inode(inode, attr).wf(),
{
    reveal(FsState::wf);
    let t = s.update_inode(inode, attr);
    lemma_parse_inode(attr);
    assert(index_resolves(t)) by {
        assert forall|k: Seq<u8>| #[trigger] t.rindex.contains_key(k) implies t.rindex[k].len()
            == 8 && t.inode.contains_key(t.rindex[k]) && parse_inode(t.inode[t.rindex[k]])
            is Some by {
            assert(s.rindex.contains_key(k));
            assert(s.inode.contains_key(s.rindex[k]));
        }
    }
    assert(records_readable(t)) by {
        assert forall|k: Seq<u8>| #[trigger] t.inode.contains_key(k) implies parse_inode(
            t.inode[k],
        ) is Some by {
            if k != inode_key(inode) {
                assert(s.inode.contains_key(k));
            }
        }
    }
    assert forall|d: u64, i: int, c: u64| #[trigger] lists_directory(t, d, i, c) implies c
        < t.next_inode && (t.get_dentry(c) matches Ok(record) ==> record.parent == d) by {
        assert(lists_directory(s, d, i, c));
    }
}

/// A store whose path index, inode bucket and directory bucket are empty is
/// well-formed, whatever its data bucket holds.
pub proof fn lemma_empty_wf(s: FsState)
    requires
        s.rindex == Map::<Seq<u8>, Seq<u8>>::empty(),
        s.inode == Map::<Seq<u8>, Seq<u8>>::empty(),
        s.dentry == Map::<Seq<u8>, Seq<u8>>::empty(),
    ensures
        s.wf(),
{
    reveal(FsState::wf);
}

/// Every path of the path index leads to an inode whose attributes can be
/// read.
pub proof fn law_index_consistent(s: FsState, path: Seq<char>)
    requires
        s.wf(),
        s.has_path(path),
    ensures
        s.get_inode(path) is Ok,
        s.get_inode_attr(s.get_inode(path)->Ok_0) is Ok,
{
    reveal(FsState::wf);
    let key = s.rindex[path_key(path)];
    assert(s.rindex.contains_key(path_key(path)));
    crate::db::utils::lemma_be_bytes_of_be_value(key);
}

/// A directory that is listed as a child of `d`, under another name than `.`
/// and `..`, names `d` as its parent.
pub proof fn law_parent_child_symmetry(s: FsState, d: u64, i: int)
    requires
        s.wf(),
        s.get_dentry(d) is Ok,
        0 <= i < s.get_dentry(d)->Ok_0.entries.len(),
        is_child_directory(s.get_dentry(d)->Ok_0.entries[i]),
        s.get_dentry(s.get_dentry(d)->Ok_0.entries[i].inode) is Ok,
    ensures
        s.get_dentry(s.get_dentry(d)->Ok_0.entries[i].inode)->Ok_0.parent == d,
{
    reveal(FsState::wf);
    assert(lists_directory(s, d, i, s.get_dentry(d)->Ok_0.entries[i].inode));
}

/// Mounting a directory a second time at the same path gives the inode of
/// the first time and leaves the buckets as they are, whatever parent and
/// time the second call names.
pub proof fn law_mount_dir_idempotent(
    s: FsState,
    path: Seq<char>,
    parent: u64,
    now: (i64, u32),
    parent_again: u64,
    now_again: (i64, u32),
)
    requires
        s.mount_dir(path, parent, now).1 is Ok,
    ensures
        s.mount_dir(path, parent, now).0.mount_dir(path, parent_again, now_again) == s.mount_dir(
            path,
            parent,
            now,
        ),
{
    if !s.has_path(path) {
        let t = s.with_directory(path, parent, now);
        lemma_with_directory_reads(s, path, parent, now);
        lemma_join_dir_reads(t, parent, s.next_inode, file_name(path), FileKind::Directory);
    }
}

/// The lengths of the words that paths are made of.
pub proof fn lemma_path_words()
    ensures
        "/"@.len() == 1,
        ".yaml"@.len() == 5,
        "/namespace"@.len() == 10,
        "/namespace/"@.len() == 11,
{
    reveal_strlit("/");
    reveal_strlit(".yaml");
    reveal_strlit("/namespace");
    reveal_strlit("/namespace/");
}

/// The path of an object is none of the paths that are mounted for it: not
/// that of its file, nor of the directories above the file.
pub proof fn lemma_object_paths_differ(o: ObjectView)
    ensures
        resource_full_key(o) != resource_file_key(o),
        resource_full_key(o) != resource_api_key(o),
        resource_full_key(o) != parent_resource_full_key(o),
        o.scope == Scope::Namespaced ==> resource_full_key(o) != namespace_root_key(o),
{
    lemma_path_words();
    let parent = parent_resource_full_key(o);
    let api = resource_api_key(o);
    let full = resource_full_key(o);
    assert(api.len() == parent.len() + 1 + o.kind.len());
    assert(full.len() > api.len());
    assert(resource_file_key(o).len() == full.len() + 5);
    if o.scope == Scope::Namespaced {
        assert(parent.len() > namespace_root_key(o).len());
    }
}

/// Finding or mounting the directories above an object's file keeps the
/// buckets well-formed and issues at most three inode numbers; where it
/// succeeds, a second run finds what the first left and changes nothing.
#[verifier::rlimit(50)]
pub proof fn lemma_mount_gvk_wf(s: FsState, o: ObjectView, now: (i64, u32))
    requires
        s.wf(),
        s.next_inode <= u64::MAX - 4,
    ensures
        s.mount_gvk(o, now).0.wf(),
        s.next_inode <= s.mount_gvk(o, now).0.next_inode <= s.next_inode + 3,
        s.mount_gvk(o, now).1 is Err ==> s.mount_gvk(o, now).0 == s,
        s.mount_gvk(o, now).1 is Ok ==> ({
            let t = s.mount_gvk(o, now).0;
            &&& t.has_path(parent_resource_full_key(o))
            &&& t.get_inode(parent_resource_full_key(o)) is Ok
            &&& t.has_path(resource_api_key(o))
            &&& t.get_inode(resource_api_key(o)) == s.mount_gvk(o, now).1
            &&& t.mount_gvk(o, now) == s.mount_gvk(o, now)
        }),
        forall|p: Seq<char>|
            s.has_path(p) ==> #[trigger] s.mount_gvk(o, now).0.has_path(p) && s.mount_gvk(
                o,
                now,
            ).0.get_inode(p) == s.get_inode(p),
        forall|p: Seq<char>| #[trigger]
            s.mount_gvk(o, now).0.has_path(p) ==> (o.scope == Scope::Namespaced && p
                == namespace_root_key(o)) || p == parent_resource_full_key(o) || p
                == resource_api_key(o) || s.has_path(p),
{
    reveal(FsState::wf);
    let parent_path = parent_resource_full_key(o);
    let api_path = resource_api_key(o);
    if s.has_path(parent_path) {
        assert(s.rindex.contains_key(path_key(parent_path)));
        let inode = s.get_inode(parent_path)->Ok_0;
        lemma_mount_dir_wf(s, api_path, inode, now);
        let t = s.mount_dir(api_path, inode, now).0;
        law_mount_dir_idempotent(s, api_path, inode, now, inode, now);
    } else if o.scope == Scope::Namespaced {
        if let Ok(root) = s.get_inode(o.cluster) {
            let root_path = namespace_root_key(o);
            lemma_mount_dir_wf(s, root_path, root, now);
            let a = s.mount_dir(root_path, root, now).0;
            let above = s.mount_dir(root_path, root, now).1->Ok_0;
            lemma_mount_dir_wf(a, parent_path, above, now);
            let b = a.mount_dir(parent_path, above, now).0;
            let inode = a.mount_dir(parent_path, above, now).1->Ok_0;
            lemma_mount_dir_wf(b, api_path, inode, now);
            let t = b.mount_dir(api_path, inode, now).0;
            law_mount_dir_idempotent(b, api_path, inode, now, inode, now);
            assert(b.has_path(parent_path));
            assert(t.has_path(parent_path));
            assert(t.get_inode(parent_path) == b.get_inode(parent_path));
            assert(t.rindex.contains_key(path_key(parent_path)));
            assert forall|p: Seq<char>| s.has_path(p) implies #[trigger] t.has_path(p)
                && t.get_inode(p) == s.get_inode(p) by {
                assert(a.has_path(p));
                assert(b.has_path(p));
            }
            assert forall|p: Seq<char>| #[trigger] t.has_path(p) implies p == root_path || p
                == parent_path || p == api_path || s.has_path(p) by {
                if p != api_path {
                    assert(b.has_path(p));
                    if p != parent_path {
                        assert(a.has_path(p));
                    }
                }
            }
        }
    }
}

/// Adding an object keeps the buckets well-formed.
pub proof fn lemma_add_wf(s: FsState, o: ObjectView, now: (i64, u32))
    requires
        s.wf(),
        s.next_inode <= u64::MAX - 4,
    ensures
        s.add(o, now).0.wf(),
        s.next_inode <= s.add(o, now).0.next_inode <= s.next_inode + 4,
{
    if s.has(o) {
        lemma_edit_file_wf(s, resource_full_key(o), o.yaml, now);
    } else {
        lemma_mount_gvk_wf(s, o, now);
        if let Ok(inode) = s.mount_gvk(o, now).1 {
            lemma_mount_file_wf(s.mount_gvk(o, now).0, resource_file_key(o), inode, o.yaml, now);
        }
    }
}

/// Rewriting the file at the path of an object keeps the buckets
/// well-formed.
pub proof fn lemma_update_wf(s: FsState, o: ObjectView, now: (i64, u32))
    requires
        s.wf(),
    ensures
        s.update(o, now).0.wf(),
{
    lemma_edit_file_wf(s, resource_full_key(o), o.yaml, now);
}

/// Removing the data bucket's entry of an object keeps the buckets
/// well-formed.
pub proof fn lemma_delete_wf(s: FsState, o: ObjectView)
    requires
        s.wf(),
    ensures
        s.delete(o).wf(),
{
    reveal(FsState::wf);
    let t = s.delete(o);
    assert forall|d: u64, i: int, c: u64| #[trigger] lists_directory(t, d, i, c) implies c
        < t.next_inode && (t.get_dentry(c) matches Ok(record) ==> record.parent == d) by {
        assert(lists_directory(s, d, i, c));
    }
}

/// Rewriting a file a second time with the same content at the same time
/// changes nothing.
pub proof fn lemma_edit_file_idempotent(s: FsState, path: Seq<char>, content: Seq<u8>, now: (i64, u32))
    requires
        s.wf(),
    ensures
        s.edit_file(path, content, now).0.edit_file(path, content, now) == s.edit_file(
            path,
            content,
            now,
        ),
{
    reveal(FsState::wf);
    if let Ok(inode) = s.get_inode(path) {
        let stored = lookup(s.inode, inode_key(inode));
        if stored is Some {
            assert(s.inode.contains_key(inode_key(inode)));
        }
        lemma_touched_record(stored, now);
        let t = s.edit_file(path, content, now).0;
        let u = t.edit_file(path, content, now).0;
        assert(u.inode =~= t.inode);
        assert(u.data =~= t.data);
    }
}

/// Where the directory above an object's kind and the directory of the kind
/// are mounted, they are found and nothing changes.
pub proof fn lemma_mount_gvk_found(s: FsState, o: ObjectView, now: (i64, u32))
    requires
        s.has_path(parent_resource_full_key(o)),
        s.get_inode(parent_resource_full_key(o)) is Ok,
        s.has_path(resource_api_key(o)),
    ensures
        s.mount_gvk(o, now) == (s, s.get_inode(resource_api_key(o))),
{
}

/// After the directories above an object's file were mounted, they are in
/// the path index and the object's own path is not, where it was not before.
#[verifier::rlimit(50)]
pub proof fn lemma_mount_gvk_paths(s: FsState, o: ObjectView, now: (i64, u32))
    requires
        s.wf(),
        s.next_inode <= u64::MAX - 4,
        !s.has(o),
        s.mount_gvk(o, now).1 is Ok,
    ensures
        ({
            let k = s.mount_gvk(o, now).0;
            &&& k.wf()
            &&& k.next_inode < u64::MAX
            &&& k.has_path(parent_resource_full_key(o))
            &&& k.get_inode(parent_resource_full_key(o)) is Ok
            &&& k.has_path(resource_api_key(o))
            &&& k.get_inode(resource_api_key(o)) == s.mount_gvk(o, now).1
            &&& !k.has_path(resource_full_key(o))
        }),
{
    let k = s.mount_gvk(o, now).0;
    lemma_mount_gvk_wf(s, o, now);
    lemma_object_paths_differ(o);
    if k.has_path(resource_full_key(o)) {
        assert(s.has_path(resource_full_key(o)));
    }
}

/// After the file of an object was mounted, the directories above it are
/// in the path index as before, and the object's own path is not, where it
/// was not before.
#[verifier::rlimit(50)]
pub proof fn lemma_mount_file_paths(k: FsState, o: ObjectView, inode: u64, now: (i64, u32))
    requires
        k.wf(),
        k.next_inode < u64::MAX,
        k.has_path(parent_resource_full_key(o)),
        k.get_inode(parent_resource_full_key(o)) is Ok,
        k.has_path(resource_api_key(o)),
        !k.has_path(resource_full_key(o)),
    ensures
        ({
            let t = k.mount_file(resource_file_key(o), inode, o.yaml, now).0;
            &&& t.has_path(parent_resource_full_key(o))
            &&& t.get_inode(parent_resource_full_key(o)) is Ok
            &&& t.has_path(resource_api_key(o))
            &&& t.get_inode(resource_api_key(o)) == k.get_inode(resource_api_key(o))
            &&& !t.has_path(resource_full_key(o))
        }),
{
    let file = resource_file_key(o);
    let t = k.mount_file(file, inode, o.yaml, now).0;
    lemma_mount_file_wf(k, file, inode, o.yaml, now);
    lemma_object_paths_differ(o);
    lemma_path_words();
    assert(parent_resource_full_key(o).len() < file.len());
    assert(resource_api_key(o).len() < file.len());
    if t.has_path(resource_full_key(o)) {
        assert(k.has_path(resource_full_key(o)));
    }
}

/// Mounting the file of an object a second time, at the same time, leaves
/// the buckets exactly as the first time left them.
#[verifier::rlimit(50)]
pub proof fn lemma_mount_gvr_idempotent(s: FsState, o: ObjectView, now: (i64, u32))
    requires
        s.wf(),
        s.next_inode <= u64::MAX - 4,
        !s.has(o),
    ensures
        !s.mount_gvr(o, now).0.has(o),
        s.mount_gvr(o, now).0.mount_gvr(o, now) == s.mount_gvr(o, now),
{
    let file = resource_file_key(o);
    let kind = s.mount_gvk(o, now);
    let k = kind.0;
    if let Ok(inode) = kind.1 {
        let content = o.yaml;
        let mounted = k.mount_file(file, inode, content, now);
        let t = mounted.0;
        lemma_mount_gvk_paths(s, o, now);
        lemma_mount_file_paths(k, o, inode, now);
        lemma_mount_gvk_found(t, o, now);
        lemma_mount_file_idempotent(k, file, inode, content, now);
        assert(s.mount_gvr(o, now) == mounted);
        assert(t.mount_gvk(o, now) == (t, kind.1));
        assert(t.mount_gvr(o, now) == mounted);
    } else {
        assert(kind.0 == s) by {
            lemma_mount_gvk_wf(s, o, now);
        }
        assert(s.mount_gvr(o, now).0 == s);
    }
}

/// Adding the same object a second time, at the same time, leaves the
/// buckets exactly as the first time left them.
pub proof fn law_add_idempotent(s: FsState, o: ObjectView, now: (i64, u32))
    requires
        s.wf(),
        s.next_inode <= u64::MAX - 4,
    ensures
        s.add(o, now).0.add(o, now) == s.add(o, now),
{
    if s.has(o) {
        lemma_edit_file_idempotent(s, resource_full_key(o), o.yaml, now);
    } else {
        lemma_mount_gvr_idempotent(s, o, now);
    }
}

/// The `i`-th number that a counter issues which stands at `start`.
pub open spec fn issued(start: u64, i: nat) -> u64
    decreases i,
{
    if i == 0 {
        start
    } else {
        wrapping_succ(issued(start, (i - 1) as nat))
    }
}

/// As long as the counter does not pass the largest number, it issues
/// `start`, `start + 1`, and so on.
pub proof fn lemma_issued(start: u64, i: nat)
    requires
        start + i <= u64::MAX,
    ensures
        issued(start, i) == start + i,
    decreases i,
{
    if i > 0 {
        lemma_issued(start, (i - 1) as nat);
    }
}

/// Inode numbers are issued in strictly rising order, so no two are the
/// same, as long as the counter does not pass the largest number.
pub proof fn law_inodes_rise(start: u64, i: nat, j: nat)
    requires
        i < j,
        start + j <= u64::MAX,
    ensures
        issued(start, i) < issued(start, j),
{
    lemma_issued(start, i);
    lemma_issued(start, j);
}

} // verus!
