//! The handlers that turn what a watch reports into operations on the store
//! of cluster objects, one handler for each kind.
use vstd::prelude::*;
use crate::db::model::FsState;
use crate::db::Storage;
use crate::error::{engine_failed, outcome, FsError, FsErrorView};
use crate::fuse::attrs::MAX_NANOS;
use crate::{object_view, ClusterObjectMeta, DynamicObject, ObjectView};

pub mod ns;
pub mod pod;

pub use ns::{NamespaceController, NamespaceControllerFactory};
pub use pod::{PodController, PodControllerFactory};

verus! {

/// What a watch reports.
#[derive(PartialEq, Eq, Debug)]
pub enum Event {
    /// An object was created or changed.
    Applied(DynamicObject),
    /// An object was deleted.
    Deleted(DynamicObject),
    /// The watch started anew: these are all the objects there are.
    Restarted(Vec<DynamicObject>),
}

/// What a watch reports, as a mathematical value, for a handler that places
/// the objects where `meta` says.
pub enum EventView {
    Applied(ObjectView),
    Deleted(ObjectView),
    Restarted(Seq<ObjectView>),
}

/// The objects of a list, placed where `meta` says.
pub open spec fn objects_view(meta: ClusterObjectMeta, objs: Seq<DynamicObject>) -> Seq<ObjectView> {
    objs.map_values(|obj: DynamicObject| object_view(meta, obj))
}

/// An event whose objects are placed where `meta` says.
pub open spec fn event_view(meta: ClusterObjectMeta, e: Event) -> EventView {
    match e {
        Event::Applied(obj) => EventView::Applied(object_view(meta, obj)),
        Event::Deleted(obj) => EventView::Deleted(object_view(meta, obj)),
        Event::Restarted(objs) => EventView::Restarted(objects_view(meta, objs@)),
    }
}

/// What a handler of the events of one kind does, as a mathematical value.
pub trait Placement: Sized {
    /// Where the handler places its objects.
    spec fn meta(&self) -> ClusterObjectMeta;

    /// Whether the handler can place an object: whether the object has the
    /// name, and the namespace, that the handler makes its paths of.
    spec fn accepts(&self, o: ObjectView) -> bool;

    /// What the handler makes of the buckets when an object was applied.
    spec fn applied(&self, s: FsState, o: ObjectView, now: (i64, u32)) -> (
        FsState,
        Result<(), FsErrorView>,
    );
}

/// A handler of the events of one kind.
pub trait EventHandler: Placement {
    /// Whether the handler can place every object of an event, and so
    /// handle the event.
    fn can_process(&self, e: &Event) -> (ok: bool)
        ensures
            ok == accepts_event(self, event_view(self.meta(), *e)),
    ;

    /// Handles an event at the time `now`.
    fn process_at<S: Storage>(&self, store: &mut S, e: Event, now: (i64, u32)) -> (r: Result<
        (),
        FsError,
    >)
        requires
            accepts_event(self, event_view(self.meta(), e)),
        ensures
            engine_failed(r) || (final(store).state(), outcome(r)) == handled(
                self,
                old(store).state(),
                event_view(self.meta(), e),
                now,
            ),
    ;

    /// Handles an event at the time that the clock shows.
    fn process<S: Storage>(&self, store: &mut S, e: Event) -> (r: Result<(), FsError>)
        requires
            accepts_event(self, event_view(self.meta(), e)),
        ensures
            engine_failed(r) || exists|now: (i64, u32)|
                now.1 <= MAX_NANOS && (final(store).state(), outcome(r)) == #[trigger] handled(
                    self,
                    old(store).state(),
                    event_view(self.meta(), e),
                    now,
                ),
    ;
}

/// Whether a handler can place every object of a list.
pub open spec fn accepts_all<H: Placement>(h: &H, objs: Seq<ObjectView>) -> bool {
    forall|i: int| 0 <= i < objs.len() ==> h.accepts(#[trigger] objs[i])
}

/// Whether a handler can place every object of an event.
pub open spec fn accepts_event<H: Placement>(h: &H, e: EventView) -> bool {
    match e {
        EventView::Applied(o) => h.accepts(o),
        EventView::Deleted(o) => h.accepts(o),
        EventView::Restarted(objs) => accepts_all(h, objs),
    }
}

/// What a handler makes of the buckets when the objects of a list were
/// applied one after the other, up to the first that fails.
pub open spec fn applied_all<H: Placement>(
    h: &H,
    s: FsState,
    objs: Seq<ObjectView>,
    now: (i64, u32),
) -> (FsState, Result<(), FsErrorView>)
    decreases objs.len(),
{
    if objs.len() == 0 {
        (s, Ok(()))
    } else {
        let first = h.applied(s, objs[0], now);
        match first.1 {
            Ok(_) => applied_all(h, first.0, objs.skip(1), now),
            Err(e) => first,
        }
    }
}

/// What a handler makes of the buckets on an event: an applied object is
/// placed, a deleted object loses its entry in the data bucket, and after a
/// restart every object is applied.
pub open spec fn handled<H: Placement>(h: &H, s: FsState, e: EventView, now: (i64, u32)) -> (
    FsState,
    Result<(), FsErrorView>,
) {
    match e {
        EventView::Applied(o) => h.applied(s, o, now),
        EventView::Deleted(o) => (s.delete(o), Ok(())),
        EventView::Restarted(objs) => applied_all(h, s, objs, now),
    }
}

/// Builds the handler of a kind.
pub trait EventHandlerFactory: FactoryClone {
    /// The handler that this factory builds.
    type Handler: EventHandler;

    /// The handler that places its objects where `meta` says.
    fn build(&self, meta: ClusterObjectMeta) -> (handler: Self::Handler)
        ensures
            handler.meta() == meta,
    ;
}

/// Copies a factory into a box.
pub trait FactoryClone: Sized {
    fn clone_box(&self) -> (copy: Box<Self>)
        ensures
            *copy == *self,
    ;
}

} // verus!
