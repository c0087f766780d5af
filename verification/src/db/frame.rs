//! What an operation leaves untouched, and what follows from it for an
//! object that is placed while others are.
use vstd::prelude::*;
use crate::db::engine::lookup;
use crate::db::laws::{
    lemma_inode_key_injective, lemma_join_dir_reads, lemma_joined_record,
    lemma_joined_record_twice, lemma_mount_dir_wf, lemma_mount_file_wf, lemma_mount_gvk_wf,
    lemma_object_paths_differ, lemma_path_key_injective, lemma_path_words, lemma_with_file_reads,
    lemma_with_file_wf,
};
use crate::db::model::{inode_key, joined_record, path_key, readable_dentry, FsState};
use crate::db::utils::{
    file_name, lemma_be_bytes_of_be_value, namespace_root_key, parent_resource_full_key,
    resource_api_key, resource_file_key, resource_full_key,
};
use crate::error::FsErrorView;
use crate::fuse::attrs::{FileKind, InodeAttributesView};
use crate::fuse::inode_text::inode_text;
use crate::{ObjectView, Scope};

verus! {

/// Whether `t` holds for the inode `x` what `s` holds for it, in the inode
/// bucket, the directory bucket and the data bucket.
pub open spec fn kept(s: FsState, t: FsState, x: u64) -> bool {
    &&& lookup(t.inode, inode_key(x)) == lookup(s.inode, inode_key(x))
    &&& lookup(t.dentry, inode_key(x)) == lookup(s.dentry, inode_key(x))
    &&& lookup(t.data, inode_key(x)) == lookup(s.data, inode_key(x))
}

/// Mounting a directory touches the new inode and the parent, and no other.
pub proof fn lemma_mount_dir_frame(s: FsState, path: Seq<char>, parent: u64, now: (i64, u32), x: u64)
    requires
        x != parent,
        x != s.next_inode,
    ensures
        kept(s, s.mount_dir(path, parent, now).0, x),
{
    if !s.has_path(path) {
        let t = s.with_directory(path, parent, now);
        lemma_inode_key_injective(x, s.next_inode);
        lemma_inode_key_injective(x, parent);
        lemma_join_dir_reads(t, parent, s.next_inode, file_name(path), FileKind::Directory);
    }
}

/// Mounting a file touches the file's inode and the parent, and no other.
pub proof fn lemma_mount_file_frame(
    s: FsState,
    path: Seq<char>,
    parent: u64,
    content: Seq<u8>,
    now: (i64, u32),
    x: u64,
)
    requires
        x != parent,
        x != s.file_inode(path),
    ensures
        kept(s, s.mount_file(path, parent, content, now).0, x),
{
    let t = s.with_file(path, content, now);
    let f = s.file_inode(path);
    lemma_inode_key_injective(x, f);
    lemma_inode_key_injective(x, parent);
    lemma_join_dir_reads(t, parent, f, file_name(path), FileKind::File);
}

/// Rewriting a file touches the file's inode, and no other.
pub proof fn lemma_edit_file_frame(
    s: FsState,
    path: Seq<char>,
    content: Seq<u8>,
    now: (i64, u32),
    x: u64,
)
    requires
        s.get_inode(path) != Ok::<u64, FsErrorView>(x),
    ensures
        kept(s, s.edit_file(path, content, now).0, x),
{
    if let Ok(inode) = s.get_inode(path) {
        lemma_inode_key_injective(x, inode);
    }
}

/// Whether `x` is the inode of one of the paths under which an object is
/// placed, or of the directory of its cluster.
pub open spec fn names_inode(s: FsState, o: ObjectView, x: u64) -> bool {
    ||| s.get_inode(o.cluster) == Ok::<u64, FsErrorView>(x)
    ||| s.get_inode(namespace_root_key(o)) == Ok::<u64, FsErrorView>(x)
    ||| s.get_inode(parent_resource_full_key(o)) == Ok::<u64, FsErrorView>(x)
    ||| s.get_inode(resource_api_key(o)) == Ok::<u64, FsErrorView>(x)
    ||| s.get_inode(resource_full_key(o)) == Ok::<u64, FsErrorView>(x)
    ||| s.get_inode(resource_file_key(o)) == Ok::<u64, FsErrorView>(x)
}

/// Finding or mounting the directories above the file of an object that
/// lives in a namespace touches only inodes that are new or that are those
/// of the object's paths.
#[verifier::rlimit(50)]
pub proof fn lemma_mount_gvk_frame(s: FsState, o: ObjectView, now: (i64, u32), x: u64)
    requires
        s.wf(),
        s.next_inode <= u64::MAX - 4,
        o.scope == Scope::Namespaced,
        x < s.next_inode,
        !names_inode(s, o, x),
    ensures
        kept(s, s.mount_gvk(o, now).0, x),
        s.mount_gvk(o, now).1 != Ok::<u64, FsErrorView>(x),
{
    let parent_path = parent_resource_full_key(o);
    let api_path = resource_api_key(o);
    if s.has_path(parent_path) {
        if let Ok(inode) = s.get_inode(parent_path) {
            lemma_mount_dir_wf(s, api_path, inode, now);
            lemma_mount_dir_frame(s, api_path, inode, now, x);
        }
    } else if let Ok(root) = s.get_inode(o.cluster) {
        let root_path = namespace_root_key(o);
        lemma_mount_dir_wf(s, root_path, root, now);
        lemma_mount_dir_frame(s, root_path, root, now, x);
        let a = s.mount_dir(root_path, root, now).0;
        let above = s.mount_dir(root_path, root, now).1->Ok_0;
        assert(above != x);
        lemma_mount_dir_wf(a, parent_path, above, now);
        lemma_mount_dir_frame(a, parent_path, above, now, x);
        let b = a.mount_dir(parent_path, above, now).0;
        let inode = a.mount_dir(parent_path, above, now).1->Ok_0;
        assert(!a.has_path(parent_path)) by {
            lemma_path_words();
            assert(parent_path.len() > root_path.len());
        }
        assert(inode != x);
        lemma_mount_dir_wf(b, api_path, inode, now);
        lemma_mount_dir_frame(b, api_path, inode, now, x);
        let t = b.mount_dir(api_path, inode, now).0;
        assert(kept(s, a, x));
        assert(kept(a, b, x));
        assert(kept(b, t, x));
        if b.has_path(api_path) {
            assert(a.has_path(api_path)) by {
                lemma_path_words();
                assert(api_path.len() > parent_path.len());
            }
            assert(s.has_path(api_path)) by {
                lemma_path_words();
                assert(api_path.len() > root_path.len());
            }
            assert(a.get_inode(api_path) == s.get_inode(api_path));
            assert(b.get_inode(api_path) == a.get_inode(api_path));
        }
    }
}

/// Adding an object that lives in a namespace touches only inodes that are
/// new or that are those of the object's paths.
#[verifier::rlimit(50)]
pub proof fn lemma_add_frame(s: FsState, o: ObjectView, now: (i64, u32), x: u64)
    requires
        s.wf(),
        s.next_inode <= u64::MAX - 4,
        o.scope == Scope::Namespaced,
        x < s.next_inode,
        !names_inode(s, o, x),
    ensures
        kept(s, s.add(o, now).0, x),
{
    if s.has(o) {
        lemma_edit_file_frame(s, resource_full_key(o), o.yaml, now, x);
    } else {
        let file = resource_file_key(o);
        lemma_mount_gvk_frame(s, o, now, x);
        lemma_mount_gvk_wf(s, o, now);
        let k = s.mount_gvk(o, now).0;
        if let Ok(inode) = s.mount_gvk(o, now).1 {
            assert(k.file_inode(file) != x) by {
                if k.has_path(file) {
                    lemma_path_words();
                    assert(file.len() > resource_api_key(o).len());
                    assert(file.len() > parent_resource_full_key(o).len());
                    assert(file.len() > namespace_root_key(o).len());
                    assert(s.has_path(file));
                    assert(k.get_inode(file) == s.get_inode(file));
                    reveal(FsState::wf);
                    assert(s.rindex.contains_key(path_key(file)));
                }
            }
            lemma_mount_file_frame(k, file, inode, o.yaml, now, x);
            let t = k.mount_file(file, inode, o.yaml, now).0;
            assert(kept(s, k, x));
            assert(kept(k, t, x));
        }
    }
}

/// Adding an object keeps every path of the path index, with its inode.
#[verifier::rlimit(50)]
pub proof fn lemma_add_paths(s: FsState, o: ObjectView, now: (i64, u32))
    requires
        s.wf(),
        s.next_inode <= u64::MAX - 4,
    ensures
        forall|p: Seq<char>|
            s.has_path(p) ==> #[trigger] s.add(o, now).0.has_path(p) && s.add(o, now).0.get_inode(
                p,
            ) == s.get_inode(p),
        s.has(o) ==> s.add(o, now).0.rindex == s.rindex,
        forall|p: Seq<char>| #[trigger]
            s.add(o, now).0.has_path(p) ==> s.has_path(p) || p == resource_file_key(o) || p
                == resource_api_key(o) || p == parent_resource_full_key(o) || (o.scope
                == Scope::Namespaced && p == namespace_root_key(o)),
{
    if !s.has(o) {
        lemma_mount_gvk_wf(s, o, now);
        let k = s.mount_gvk(o, now).0;
        if let Ok(inode) = s.mount_gvk(o, now).1 {
            lemma_mount_file_wf(k, resource_file_key(o), inode, o.yaml, now);
            let t = k.mount_file(resource_file_key(o), inode, o.yaml, now).0;
            assert forall|p: Seq<char>| s.has_path(p) implies #[trigger] t.has_path(p)
                && t.get_inode(p) == s.get_inode(p) by {
                assert(k.has_path(p));
            }
            assert forall|p: Seq<char>| #[trigger] t.has_path(p) implies s.has_path(p) || p
                == resource_file_key(o) || p == resource_api_key(o) || p
                == parent_resource_full_key(o) || (o.scope == Scope::Namespaced && p
                == namespace_root_key(o)) by {
                if p != resource_file_key(o) {
                    assert(k.has_path(p));
                }
            }
        }
    }
}

/// Whether an object is placed in the buckets as adding it at `now` places
/// it: the directories above its file and the file are in the path index,
/// the file has the attributes and the content of the object, and the
/// directory of its kind lists the file.
pub open spec fn in_place(x: FsState, o: ObjectView, now: (i64, u32)) -> bool {
    let above = parent_resource_full_key(o);
    let api = resource_api_key(o);
    let file = resource_file_key(o);
    let a = x.get_inode(api)->Ok_0;
    let f = x.get_inode(file)->Ok_0;
    let listed = lookup(x.dentry, inode_key(a));
    &&& !x.has(o)
    &&& x.has_path(above)
    &&& x.get_inode(above) is Ok
    &&& x.has_path(api)
    &&& x.get_inode(api) is Ok
    &&& x.has_path(file)
    &&& x.get_inode(file) is Ok
    &&& lookup(x.inode, inode_key(f)) == Some(
        inode_text(InodeAttributesView::file(f, o.yaml.len() as u64, now)),
    )
    &&& lookup(x.data, inode_key(f)) == Some(o.yaml)
    &&& readable_dentry(listed)
    &&& a != 0 ==> joined_record(listed, file_name(file), FileKind::File, f) == listed
}

/// Adding an object that is in place changes nothing.
#[verifier::rlimit(50)]
pub proof fn lemma_in_place_stable(x: FsState, o: ObjectView, now: (i64, u32))
    requires
        in_place(x, o, now),
    ensures
        x.add(o, now) == (x, Ok::<(), FsErrorView>(())),
{
    let file = resource_file_key(o);
    let a = x.get_inode(resource_api_key(o))->Ok_0;
    let f = x.get_inode(file)->Ok_0;
    assert(x.mount_gvk(o, now) == (x, Ok::<u64, FsErrorView>(a)));
    let t = x.with_file(file, o.yaml, now);
    lemma_be_bytes_of_be_value(x.rindex[path_key(file)]);
    assert(t.rindex =~= x.rindex);
    assert(t.inode =~= x.inode);
    assert(t.data =~= x.data);
    assert(t == x);
    let u = x.join_dir(a, f, file_name(file), FileKind::File).0;
    assert(u.dentry =~= x.dentry);
    assert(u == x);
}

/// After an object was added that the path index did not hold, it is in
/// place.
#[verifier::rlimit(50)]
pub proof fn lemma_in_place_after_add(s: FsState, o: ObjectView, now: (i64, u32))
    requires
        s.wf(),
        s.next_inode <= u64::MAX - 4,
        !s.has(o),
        s.add(o, now).1 is Ok,
    ensures
        in_place(s.add(o, now).0, o, now),
{
    let file = resource_file_key(o);
    let full = resource_full_key(o);
    lemma_mount_gvk_wf(s, o, now);
    lemma_object_paths_differ(o);
    let k = s.mount_gvk(o, now).0;
    let a = s.mount_gvk(o, now).1->Ok_0;
    lemma_mount_file_wf(k, file, a, o.yaml, now);
    let w = k.with_file(file, o.yaml, now);
    let f = k.file_inode(file);
    lemma_with_file_reads(k, file, o.yaml, now);
    lemma_with_file_wf(k, file, o.yaml, now);
    lemma_join_dir_reads(w, a, f, file_name(file), FileKind::File);
    let t = w.join_dir(a, f, file_name(file), FileKind::File).0;
    assert(t == s.add(o, now).0);
    assert(!t.has_path(full)) by {
        if t.has_path(full) {
            assert(k.has_path(full));
            assert(s.has_path(full));
        }
    }
    lemma_inode_key_injective(f, f);
    let stored = lookup(w.dentry, inode_key(a));
    assert(readable_dentry(stored)) by {
        reveal(FsState::wf);
        if stored is Some {
            assert(w.dentry.contains_key(inode_key(a)));
        }
    }
    lemma_joined_record(stored, file_name(file), FileKind::File, f);
    lemma_joined_record_twice(stored, file_name(file), FileKind::File, f);
    assert(t.has_path(parent_resource_full_key(o)) && t.has_path(resource_api_key(o))) by {
        lemma_path_words();
        assert(parent_resource_full_key(o).len() < file.len());
        assert(resource_api_key(o).len() < file.len());
    }
}

/// An object that is in place stays in place while the path index keeps its
/// paths and does not get its own path, and the inodes of its file and of
/// the directory of its kind are not touched.
pub proof fn lemma_in_place_kept(x: FsState, y: FsState, o: ObjectView, now: (i64, u32))
    requires
        in_place(x, o, now),
        !y.has(o),
        forall|p: Seq<char>|
            x.has_path(p) ==> #[trigger] y.has_path(p) && y.get_inode(p) == x.get_inode(p),
        kept(x, y, x.get_inode(resource_api_key(o))->Ok_0),
        kept(x, y, x.get_inode(resource_file_key(o))->Ok_0),
    ensures
        in_place(y, o, now),
{
    assert(y.has_path(parent_resource_full_key(o)));
    assert(y.has_path(resource_api_key(o)));
    assert(y.has_path(resource_file_key(o)));
}

/// In well-formed buckets every path of the path index leads to an inode
/// whose number was issued already, and two different paths lead to
/// different inodes: no inode number is used twice.
pub proof fn law_indexed_inodes_differ(s: FsState, p: Seq<char>, q: Seq<char>)
    requires
        s.wf(),
        s.has_path(p),
    ensures
        s.get_inode(p) is Ok,
        s.get_inode(p)->Ok_0 < s.next_inode,
        s.has_path(q) && q != p ==> s.get_inode(q) != s.get_inode(p),
{
    reveal(FsState::wf);
    assert(s.rindex.contains_key(path_key(p)));
    if s.has_path(q) && q != p {
        lemma_path_key_injective(p, q);
        assert(s.rindex.contains_key(path_key(q)));
        lemma_be_bytes_of_be_value(s.rindex[path_key(p)]);
        lemma_be_bytes_of_be_value(s.rindex[path_key(q)]);
    }
}

} // verus!
