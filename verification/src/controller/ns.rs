//! The handler of namespaces: each namespace is a file in the cluster's
//! directory of namespaces.
use vstd::prelude::*;
use crate::controller::{
    accepts_all, applied_all, event_view, objects_view, Event, EventHandler, EventView,
    EventHandlerFactory, FactoryClone, Placement,
};
use crate::db::model::FsState;
use crate::db::Storage;
use crate::error::{engine_failed, outcome, FsError, FsErrorView};
use crate::fuse::attrs::time_now;
use crate::{object_view, ClusterObject, ClusterObjectMeta, DynamicObject, ObjectView};

verus! {

/// The handler of the events of namespaces.
pub struct NamespaceController {
    pub meta: ClusterObjectMeta,
}

impl NamespaceController {
    pub fn new(meta: ClusterObjectMeta) -> (handler: NamespaceController)
        ensures
            handler.meta == meta,
    {
        NamespaceController { meta }
    }

    /// The object together with where the handler places it.
    pub fn to_cluster_obj<'a>(&'a self, o: &'a DynamicObject) -> (obj: ClusterObject<'a>)
        ensures
            obj@ == object_view(self.meta, *o),
    {
        ClusterObject { meta: &self.meta, obj: o }
    }

    /// Places an object that was created or changed.
    pub fn on_apply<S: Storage>(&self, store: &mut S, o: &DynamicObject, now: (i64, u32)) -> (r:
        Result<(), FsError>)
        requires
            object_view(self.meta, *o).addressable(),
        ensures
            engine_failed(r) || (final(store).state(), outcome(r)) == self.applied(
                old(store).state(),
                object_view(self.meta, *o),
                now,
            ),
    {
        store.add(self.to_cluster_obj(o), now)
    }

    /// Removes the data of an object that was deleted.
    pub fn on_delete<S: Storage>(&self, store: &mut S, o: &DynamicObject) -> (r: Result<
        (),
        FsError,
    >)
        requires
            object_view(self.meta, *o).addressable(),
        ensures
            engine_failed(r) || (r is Ok && final(store).state() == old(store).state().delete(
                object_view(self.meta, *o),
            )),
    {
        store.delete(self.to_cluster_obj(o))
    }

    /// Places every object that there is after a restart of the watch.
    pub fn on_resync<S: Storage>(&self, store: &mut S, objs: &Vec<DynamicObject>, now: (i64, u32))
        -> (r: Result<(), FsError>)
        requires
            forall|i: int|
                0 <= i < objs@.len() ==> (#[trigger] object_view(self.meta, objs@[i])).addressable(),
        ensures
            engine_failed(r) || (final(store).state(), outcome(r)) == applied_all(
                self,
                old(store).state(),
                objects_view(self.meta, objs@),
                now,
            ),
    {
        let ghost all = objects_view(self.meta, objs@);
        let mut i: usize = 0;
        assert(all.skip(0) =~= all);
        while i < objs.len()
            invariant
                i <= objs@.len(),
                all == objects_view(self.meta, objs@),
                forall|k: int|
                    0 <= k < objs@.len() ==> (#[trigger] object_view(
                        self.meta,
                        objs@[k],
                    )).addressable(),
                applied_all(self, old(store).state(), all, now) == applied_all(
                    self,
                    store.state(),
                    all.skip(i as int),
                    now,
                ),
            decreases objs@.len() - i,
        {
            assert(all.skip(i as int)[0] == object_view(self.meta, objs@[i as int]));
            assert(all.skip(i as int).skip(1) =~= all.skip(i + 1));
            match self.on_apply(store, &objs[i], now) {
                Ok(_) => {},
                Err(e) => {
                    return Err(e);
                },
            }
            i += 1;
        }
        Ok(())
    }
}

impl Placement for NamespaceController {
    open spec fn meta(&self) -> ClusterObjectMeta {
        self.meta
    }

    open spec fn accepts(&self, o: ObjectView) -> bool {
        o.addressable()
    }

    open spec fn applied(&self, s: FsState, o: ObjectView, now: (i64, u32)) -> (
        FsState,
        Result<(), FsErrorView>,
    ) {
        s.add(o, now)
    }
}

impl NamespaceController {
    /// Whether every object of the list has what its paths are made of.
    fn all_addressable(&self, objs: &Vec<DynamicObject>) -> (ok: bool)
        ensures
            ok == accepts_all(self, objects_view(self.meta, objs@)),
    {
        let ghost all = objects_view(self.meta, objs@);
        let mut i: usize = 0;
        while i < objs.len()
            invariant
                i <= objs@.len(),
                all == objects_view(self.meta, objs@),
                forall|k: int| 0 <= k < i ==> self.accepts(#[trigger] all[k]),
            decreases objs@.len() - i,
        {
            assert(all[i as int] == object_view(self.meta, objs@[i as int]));
            if !self.to_cluster_obj(&objs[i]).is_addressable() {
                return false;
            }
            i += 1;
        }
        true
    }
}

impl EventHandler for NamespaceController {
    fn can_process(&self, e: &Event) -> (ok: bool) {
        match e {
            Event::Applied(o) => self.to_cluster_obj(o).is_addressable(),
            Event::Deleted(o) => self.to_cluster_obj(o).is_addressable(),
            Event::Restarted(objs) => self.all_addressable(objs),
        }
    }

    fn process_at<S: Storage>(&self, store: &mut S, e: Event, now: (i64, u32)) -> (r: Result<
        (),
        FsError,
    >) {
        let ghost seen = event_view(self.meta(), e);
        match e {
            Event::Applied(o) => self.on_apply(store, &o, now),
            Event::Deleted(o) => self.on_delete(store, &o),
            Event::Restarted(objs) => {
                assert forall|i: int| 0 <= i < objs@.len() implies (#[trigger] object_view(
                    self.meta,
                    objs@[i],
                )).addressable() by {
                    let all = objects_view(self.meta, objs@);
                    assert(seen == EventView::Restarted(all));
                    assert(accepts_all(self, all));
                    assert(all[i] == object_view(self.meta, objs@[i]));
                    assert(self.accepts(all[i]));
                }
                self.on_resync(store, &objs, now)
            },
        }
    }

    fn process<S: Storage>(&self, store: &mut S, e: Event) -> (r: Result<(), FsError>) {
        let now = time_now();
        self.process_at(store, e, now)
    }
}

/// Builds the handler of namespaces.
#[derive(Clone, Copy, PartialEq, Eq, Debug, Structural)]
pub struct NamespaceControllerFactory;

impl NamespaceControllerFactory {
    pub fn new_box() -> (factory: Box<NamespaceControllerFactory>) {
        Box::new(NamespaceControllerFactory)
    }
}

impl EventHandlerFactory for NamespaceControllerFactory {
    type Handler = NamespaceController;

    fn build(&self, meta: ClusterObjectMeta) -> (handler: NamespaceController) {
        NamespaceController::new(meta)
    }
}

impl FactoryClone for NamespaceControllerFactory {
    fn clone_box(&self) -> (copy: Box<NamespaceControllerFactory>) {
        Box::new(*self)
    }
}

} // verus!
