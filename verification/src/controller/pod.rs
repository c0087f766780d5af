//! The handler of pods: each pod is a file in the directory of the pods of
//! its namespace, and a pod that arrives before its namespace brings the
//! namespace with it.
use vstd::prelude::*;
use crate::controller::{
    accepts_all, applied_all, event_view, handled, objects_view, Event, EventHandler, EventView,
    EventHandlerFactory, FactoryClone, Placement,
};
use crate::db::frame::{
    in_place, lemma_add_frame, lemma_add_paths, lemma_in_place_after_add, lemma_in_place_kept,
    lemma_in_place_stable, law_indexed_inodes_differ, names_inode,
};
use crate::db::laws::{law_add_idempotent, lemma_add_wf, lemma_mount_file_wf, lemma_mount_gvk_wf};
use crate::db::model::FsState;
use crate::db::utils::{
    namespace_root_key, parent_resource_full_key, resource_api_key, resource_file_key,
    resource_full_key,
};
use crate::db::Storage;
use crate::error::{engine_failed, outcome, FsError, FsErrorView};
use crate::fuse::attrs::time_now;
use crate::{
    manifest_text, object_view, ApiCapabilities, ClusterObject, ClusterObjectMeta, DynamicObject,
    GroupVersionKind, ObjectView, Scope,
};

verus! {

/// The namespace that an object lives in, as an object of its cluster that
/// holds nothing but its schema and its name.
pub open spec fn namespace_of(o: ObjectView) -> ObjectView {
    ObjectView {
        cluster: o.cluster,
        kind: "Namespace"@,
        scope: Scope::Cluster,
        name: o.namespace,
        namespace: None,
        yaml: manifest_text("v1"@, "Namespace"@, o.namespace->0),
    }
}

/// The handler of the events of pods.
pub struct PodController {
    pub meta: ClusterObjectMeta,
}

impl PodController {
    pub fn new(meta: ClusterObjectMeta) -> (handler: PodController)
        ensures
            handler.meta == meta,
    {
        PodController { meta }
    }

    /// The object together with where the handler places it.
    pub fn to_cluster_obj<'a>(&'a self, o: &'a DynamicObject) -> (obj: ClusterObject<'a>)
        ensures
            obj@ == object_view(self.meta, *o),
    {
        ClusterObject { meta: &self.meta, obj: o }
    }

    /// Places a pod that was created or changed, after the namespace it
    /// lives in where the store does not hold that yet.
    pub fn on_apply<S: Storage>(&self, store: &mut S, o: &DynamicObject, now: (i64, u32)) -> (r:
        Result<(), FsError>)
        requires
            self.accepts(object_view(self.meta, *o)),
        ensures
            engine_failed(r) || (final(store).state(), outcome(r)) == self.applied(
                old(store).state(),
                object_view(self.meta, *o),
                now,
            ),
    {
        let ns_gvk = GroupVersionKind::gvk("", "v1", "Namespace");
        let ns_meta = ClusterObjectMeta {
            cluster: self.meta.cluster.clone(),
            gvk: ns_gvk.clone(),
            caps: ApiCapabilities { scope: Scope::Cluster },
        };
        let ns_data = match &o.metadata.namespace {
            Some(ns) => DynamicObject::new(ns.as_str(), &ns_gvk),
            None => DynamicObject::new("", &ns_gvk),
        };
        let ns_obj = ClusterObject { meta: &ns_meta, obj: &ns_data };
        proof {
            reveal_strlit("");
            assert(ns_gvk.group@.len() == 0);
            assert(ns_obj@ == namespace_of(object_view(self.meta, *o)));
        }
        if !store.has(&ns_obj)? {
            store.add(ns_obj, now)?
        }
        store.add(self.to_cluster_obj(o), now)
    }

    /// Removes the data of a pod that was deleted.
    pub fn on_delete<S: Storage>(&self, store: &mut S, o: &DynamicObject) -> (r: Result<
        (),
        FsError,
    >)
        requires
            self.accepts(object_view(self.meta, *o)),
        ensures
            engine_failed(r) || (r is Ok && final(store).state() == old(store).state().delete(
                object_view(self.meta, *o),
            )),
    {
        store.delete(self.to_cluster_obj(o))
    }

    /// Places every pod that there is after a restart of the watch.
    pub fn on_resync<S: Storage>(&self, store: &mut S, objs: &Vec<DynamicObject>, now: (i64, u32))
        -> (r: Result<(), FsError>)
        requires
            forall|i: int|
                0 <= i < objs@.len() ==> self.accepts(#[trigger] object_view(self.meta, objs@[i])),
        ensures
            engine_failed(r) || (final(store).state(), outcome(r)) == applied_all(
                self,
                old(store).state(),
                objects_view(self.meta, objs@),
                now,
            ),
    {
        let ghost all = objects_view(self.meta, objs@);
        let mut i: usize = 0;
        assert(all.skip(0) =~= all);
        while i < objs.len()
            invariant
                i <= objs@.len(),
                all == objects_view(self.meta, objs@),
                forall|k: int|
                    0 <= k < objs@.len() ==> self.accepts(
                        #[trigger] object_view(self.meta, objs@[k]),
                    ),
                applied_all(self, old(store).state(), all, now) == applied_all(
                    self,
                    store.state(),
                    all.skip(i as int),
                    now,
                ),
            decreases objs@.len() - i,
        {
            assert(all.skip(i as int)[0] == object_view(self.meta, objs@[i as int]));
            assert(all.skip(i as int).skip(1) =~= all.skip(i + 1));
            match self.on_apply(store, &objs[i], now) {
                Ok(_) => {},
                Err(e) => {
                    return Err(e);
                },
            }
            i += 1;
        }
        Ok(())
    }
}

impl Placement for PodController {
    open spec fn meta(&self) -> ClusterObjectMeta {
        self.meta
    }

    open spec fn accepts(&self, o: ObjectView) -> bool {
        o.name is Some && o.namespace is Some
    }

    open spec fn applied(&self, s: FsState, o: ObjectView, now: (i64, u32)) -> (
        FsState,
        Result<(), FsErrorView>,
    ) {
        if s.has(namespace_of(o)) {
            s.add(o, now)
        } else {
            let first = s.add(namespace_of(o), now);
            match first.1 {
                Ok(_) => first.0.add(o, now),
                Err(e) => first,
            }
        }
    }
}

impl PodController {
    /// Whether an object has a name and a namespace.
    fn placeable(&self, o: &DynamicObject) -> (ok: bool)
        ensures
            ok == self.accepts(object_view(self.meta, *o)),
    {
        o.metadata.name.is_some() && o.metadata.namespace.is_some()
    }

    /// Whether every object of the list has a name and a namespace.
    fn all_placeable(&self, objs: &Vec<DynamicObject>) -> (ok: bool)
        ensures
            ok == accepts_all(self, objects_view(self.meta, objs@)),
    {
        let ghost all = objects_view(self.meta, objs@);
        let mut i: usize = 0;
        while i < objs.len()
            invariant
                i <= objs@.len(),
                all == objects_view(self.meta, objs@),
                forall|k: int| 0 <= k < i ==> self.accepts(#[trigger] all[k]),
            decreases objs@.len() - i,
        {
            assert(all[i as int] == object_view(self.meta, objs@[i as int]));
            if !self.placeable(&objs[i]) {
                return false;
            }
            i += 1;
        }
        true
    }
}

impl EventHandler for PodController {
    fn can_process(&self, e: &Event) -> (ok: bool) {
        match e {
            Event::Applied(o) => self.placeable(o),
            Event::Deleted(o) => self.placeable(o),
            Event::Restarted(objs) => self.all_placeable(objs),
        }
    }

    fn process_at<S: Storage>(&self, store: &mut S, e: Event, now: (i64, u32)) -> (r: Result<
        (),
        FsError,
    >) {
        let ghost seen = event_view(self.meta(), e);
        match e {
            Event::Applied(o) => self.on_apply(store, &o, now),
            Event::Deleted(o) => self.on_delete(store, &o),
            Event::Restarted(objs) => {
                assert forall|i: int| 0 <= i < objs@.len() implies self.accepts(
                    #[trigger] object_view(self.meta, objs@[i]),
                ) by {
                    let all = objects_view(self.meta, objs@);
                    assert(seen == EventView::Restarted(all));
                    assert(accepts_all(self, all));
                    assert(all[i] == object_view(self.meta, objs@[i]));
                    assert(self.accepts(all[i]));
                }
                self.on_resync(store, &objs, now)
            },
        }
    }

    fn process<S: Storage>(&self, store: &mut S, e: Event) -> (r: Result<(), FsError>) {
        let now = time_now();
        self.process_at(store, e, now)
    }
}

/// Builds the handler of pods.
#[derive(Clone, Copy, PartialEq, Eq, Debug, Structural)]
pub struct PodControllerFactory;

impl PodControllerFactory {
    pub fn new_box() -> (factory: Box<PodControllerFactory>) {
        Box::new(PodControllerFactory)
    }
}

impl EventHandlerFactory for PodControllerFactory {
    type Handler = PodController;

    fn build(&self, meta: ClusterObjectMeta) -> (handler: PodController) {
        PodController::new(meta)
    }
}

impl FactoryClone for PodControllerFactory {
    fn clone_box(&self) -> (copy: Box<PodControllerFactory>) {
        Box::new(*self)
    }
}

/// The paths under which the namespace of an object is placed begin, after
/// the cluster, with another letter than the paths of the object itself.
#[verifier::rlimit(50)]
pub proof fn lemma_namespace_paths_apart(o: ObjectView, p: Seq<char>)
    requires
        o.scope == Scope::Namespaced,
        o.namespace is Some,
        p == o.cluster || p == namespace_root_key(o) || p == parent_resource_full_key(o) || p
            == resource_api_key(o) || p == resource_full_key(o) || p == resource_file_key(o),
    ensures
        p != resource_api_key(namespace_of(o)),
        p != resource_file_key(namespace_of(o)),
{
    reveal_strlit("/");
    reveal_strlit(".yaml");
    reveal_strlit("/namespace");
    reveal_strlit("/namespace/");
    reveal_strlit("Namespace");
    let c = o.cluster;
    let at = c.len() as int + 1;
    let api = resource_api_key(namespace_of(o));
    let file = resource_file_key(namespace_of(o));
    assert(api.len() > at && api[at] == 'N');
    assert(file.len() > at && file[at] == 'N');
    if p != c {
        assert(namespace_root_key(o)[at] == 'n');
        assert(parent_resource_full_key(o)[at] == 'n');
        assert(resource_api_key(o)[at] == 'n');
        assert(resource_full_key(o)[at] == 'n');
        assert(resource_file_key(o)[at] == 'n');
        assert(p.len() > at && p[at] == 'n');
    }
}

/// In well-formed buckets, an inode that is that of one of the namespace's
/// paths is none of those of the object's own paths.
#[verifier::rlimit(50)]
proof fn lemma_namespace_inode_apart(s: FsState, o: ObjectView, q: Seq<char>)
    requires
        s.wf(),
        o.scope == Scope::Namespaced,
        o.namespace is Some,
        q == resource_api_key(namespace_of(o)) || q == resource_file_key(namespace_of(o)),
        s.has_path(q),
    ensures
        s.get_inode(q) is Ok,
        s.get_inode(q)->Ok_0 < s.next_inode,
        !names_inode(s, o, s.get_inode(q)->Ok_0),
{
    law_indexed_inodes_differ(s, q, o.cluster);
    law_indexed_inodes_differ(s, q, namespace_root_key(o));
    law_indexed_inodes_differ(s, q, parent_resource_full_key(o));
    law_indexed_inodes_differ(s, q, resource_api_key(o));
    law_indexed_inodes_differ(s, q, resource_full_key(o));
    law_indexed_inodes_differ(s, q, resource_file_key(o));
    lemma_namespace_paths_apart(o, o.cluster);
    lemma_namespace_paths_apart(o, namespace_root_key(o));
    lemma_namespace_paths_apart(o, parent_resource_full_key(o));
    lemma_namespace_paths_apart(o, resource_api_key(o));
    lemma_namespace_paths_apart(o, resource_full_key(o));
    lemma_namespace_paths_apart(o, resource_file_key(o));
}

/// After a pod was added, its namespace, which was added before it, is still
/// in place, unless the path index now holds the namespace's own path.
#[verifier::rlimit(50)]
proof fn lemma_namespace_still_in_place(s1: FsState, o: ObjectView, now: (i64, u32))
    requires
        s1.wf(),
        s1.next_inode <= u64::MAX - 4,
        o.scope == Scope::Namespaced,
        o.namespace is Some,
        in_place(s1, namespace_of(o), now),
        !s1.add(o, now).0.has(namespace_of(o)),
    ensures
        in_place(s1.add(o, now).0, namespace_of(o), now),
{
    let n = namespace_of(o);
    let s2 = s1.add(o, now).0;
    let api = resource_api_key(n);
    let file = resource_file_key(n);
    lemma_add_paths(s1, o, now);
    lemma_namespace_inode_apart(s1, o, api);
    lemma_namespace_inode_apart(s1, o, file);
    lemma_add_frame(s1, o, now, s1.get_inode(api)->Ok_0);
    lemma_add_frame(s1, o, now, s1.get_inode(file)->Ok_0);
    lemma_in_place_kept(s1, s2, n, now);
}

/// Handling the same applied pod a second time, at the same time, leaves the
/// buckets exactly as the first time left them. The pod is one of a kind
/// that lives in namespaces.
#[verifier::rlimit(50)]
pub proof fn law_pod_applied_twice(h: &PodController, s: FsState, o: ObjectView, now: (i64, u32))
    requires
        s.wf(),
        s.next_inode <= u64::MAX - 8,
        o.scope == Scope::Namespaced,
        o.namespace is Some,
    ensures
        handled(h, handled(h, s, EventView::Applied(o), now).0, EventView::Applied(o), now)
            == handled(h, s, EventView::Applied(o), now),
{
    let n = namespace_of(o);
    if s.has(n) {
        lemma_add_paths(s, o, now);
        law_add_idempotent(s, o, now);
        assert(s.add(o, now).0.has_path(resource_full_key(n)));
    } else {
        let first = s.add(n, now);
        let s1 = first.0;
        lemma_add_wf(s, n, now);
        if first.1 is Err {
            assert(s1 == s) by {
                lemma_mount_gvk_wf(s, n, now);
                if let Ok(inode) = s.mount_gvk(n, now).1 {
                    lemma_mount_file_wf(
                        s.mount_gvk(n, now).0,
                        resource_file_key(n),
                        inode,
                        n.yaml,
                        now,
                    );
                }
            }
        } else {
            let second = s1.add(o, now);
            let s2 = second.0;
            law_add_idempotent(s1, o, now);
            if !s2.has(n) {
                lemma_in_place_after_add(s, n, now);
                lemma_namespace_still_in_place(s1, o, now);
                lemma_in_place_stable(s2, n, now);
            }
        }
    }
}

} // verus!
