//! The registry of handler factories, one for each kind that is watched.
use vstd::prelude::*;
use crate::controller::{
    accepts_all, applied_all, event_view, handled, Event, EventHandler, EventHandlerFactory,
    EventView, FactoryClone, NamespaceController, NamespaceControllerFactory, Placement,
    PodController, PodControllerFactory,
};
use crate::controller::pod::namespace_of;
use crate::db::laws::{law_add_idempotent, lemma_add_wf, lemma_delete_wf};
use crate::db::model::FsState;
use crate::db::Storage;
use crate::error::{FsError, FsErrorView};
use crate::{ClusterObjectMeta, GroupVersionKind, ObjectView};

verus! {

/// A schema of cluster resources as a mathematical value.
pub struct GvkView {
    pub group: Seq<char>,
    pub version: Seq<char>,
    pub kind: Seq<char>,
}

impl View for GroupVersionKind {
    type V = GvkView;

    open spec fn view(&self) -> GvkView {
        GvkView { group: self.group@, version: self.version@, kind: self.kind@ }
    }
}

/// Whether two schemas are the same.
pub fn same_gvk(a: &GroupVersionKind, b: &GroupVersionKind) -> (same: bool)
    ensures
        same == (a@ == b@),
{
    a.group == b.group && a.version == b.version && a.kind == b.kind
}

/// The handler of a kind that is registered.
pub enum Handler {
    Pod(PodController),
    Namespace(NamespaceController),
}

impl Placement for Handler {
    open spec fn meta(&self) -> ClusterObjectMeta {
        match self {
            Handler::Pod(h) => h.meta(),
            Handler::Namespace(h) => h.meta(),
        }
    }

    open spec fn accepts(&self, o: ObjectView) -> bool {
        match self {
            Handler::Pod(h) => h.accepts(o),
            Handler::Namespace(h) => h.accepts(o),
        }
    }

    open spec fn applied(&self, s: FsState, o: ObjectView, now: (i64, u32)) -> (
        FsState,
        Result<(), FsErrorView>,
    ) {
        match self {
            Handler::Pod(h) => h.applied(s, o, now),
            Handler::Namespace(h) => h.applied(s, o, now),
        }
    }
}

/// A registered handler of pods accepts what the handler of pods accepts.
pub proof fn lemma_pod_accepts(handler: &Handler, h: &PodController, objs: Seq<ObjectView>)
    requires
        *handler == Handler::Pod(*h),
    ensures
        accepts_all(handler, objs) == accepts_all(h, objs),
{
    if accepts_all(handler, objs) {
        assert forall|i: int| 0 <= i < objs.len() implies h.accepts(#[trigger] objs[i]) by {
            assert(handler.accepts(objs[i]));
        }
    }
    if accepts_all(h, objs) {
        assert forall|i: int| 0 <= i < objs.len() implies handler.accepts(#[trigger] objs[i]) by {
            assert(h.accepts(objs[i]));
        }
    }
}

/// A registered handler of pods does what the handler of pods does.
pub proof fn lemma_pod_handler(
    handler: &Handler,
    h: &PodController,
    s: FsState,
    objs: Seq<ObjectView>,
    now: (i64, u32),
)
    requires
        *handler == Handler::Pod(*h),
    ensures
        applied_all(handler, s, objs, now) == applied_all(h, s, objs, now),
        accepts_all(handler, objs) == accepts_all(h, objs),
    decreases objs.len(),
{
    lemma_pod_accepts(handler, h, objs);
    if objs.len() > 0 {
        lemma_pod_handler(handler, h, h.applied(s, objs[0], now).0, objs.skip(1), now);
    }
}

/// A registered handler of namespaces accepts what the handler of
/// namespaces accepts.
pub proof fn lemma_namespace_accepts(
    handler: &Handler,
    h: &NamespaceController,
    objs: Seq<ObjectView>,
)
    requires
        *handler == Handler::Namespace(*h),
    ensures
        accepts_all(handler, objs) == accepts_all(h, objs),
{
    if accepts_all(handler, objs) {
        assert forall|i: int| 0 <= i < objs.len() implies h.accepts(#[trigger] objs[i]) by {
            assert(handler.accepts(objs[i]));
        }
    }
    if accepts_all(h, objs) {
        assert forall|i: int| 0 <= i < objs.len() implies handler.accepts(#[trigger] objs[i]) by {
            assert(h.accepts(objs[i]));
        }
    }
}

/// A registered handler of namespaces does what the handler of namespaces
/// does.
pub proof fn lemma_namespace_handler(
    handler: &Handler,
    h: &NamespaceController,
    s: FsState,
    objs: Seq<ObjectView>,
    now: (i64, u32),
)
    requires
        *handler == Handler::Namespace(*h),
    ensures
        applied_all(handler, s, objs, now) == applied_all(h, s, objs, now),
        accepts_all(handler, objs) == accepts_all(h, objs),
    decreases objs.len(),
{
    lemma_namespace_accepts(handler, h, objs);
    if objs.len() > 0 {
        lemma_namespace_handler(handler, h, h.applied(s, objs[0], now).0, objs.skip(1), now);
    }
}

/// What a registered handler makes of an applied object keeps the buckets
/// well-formed, and issues at most eight inode numbers.
pub proof fn lemma_applied_wf(h: &Handler, s: FsState, o: ObjectView, now: (i64, u32))
    requires
        s.wf(),
        s.next_inode <= u64::MAX - 8,
    ensures
        h.applied(s, o, now).0.wf(),
        s.next_inode <= h.applied(s, o, now).0.next_inode <= s.next_inode + 8,
{
    match h {
        Handler::Pod(_) => {
            if s.has(namespace_of(o)) {
                lemma_add_wf(s, o, now);
            } else {
                lemma_add_wf(s, namespace_of(o), now);
                lemma_add_wf(s.add(namespace_of(o), now).0, o, now);
            }
        },
        Handler::Namespace(_) => {
            lemma_add_wf(s, o, now);
        },
    }
}

/// What a registered handler makes of a list of applied objects keeps the
/// buckets well-formed.
pub proof fn lemma_applied_all_wf(h: &Handler, s: FsState, objs: Seq<ObjectView>, now: (i64, u32))
    requires
        s.wf(),
        s.next_inode + 8 * objs.len() <= u64::MAX,
    ensures
        applied_all(h, s, objs, now).0.wf(),
    decreases objs.len(),
{
    if objs.len() > 0 {
        lemma_applied_wf(h, s, objs[0], now);
        let first = h.applied(s, objs[0], now);
        if first.1 is Ok {
            lemma_applied_all_wf(h, first.0, objs.skip(1), now);
        }
    }
}

/// Whatever a registered handler makes of an event, the buckets stay
/// well-formed, as long as eight inode numbers are left for each object of
/// the event.
pub proof fn law_handled_wf(h: &Handler, s: FsState, e: EventView, now: (i64, u32))
    requires
        s.wf(),
        s.next_inode + 8 * objects_of(e).len() <= u64::MAX,
    ensures
        handled(h, s, e, now).0.wf(),
{
    match e {
        EventView::Applied(o) => {
            lemma_applied_wf(h, s, o, now);
        },
        EventView::Deleted(o) => {
            lemma_delete_wf(s, o);
        },
        EventView::Restarted(objs) => {
            lemma_applied_all_wf(h, s, objs, now);
        },
    }
}

/// Handling the same applied namespace a second time, at the same time,
/// leaves the buckets exactly as the first time left them.
pub proof fn law_namespace_applied_twice(
    h: &NamespaceController,
    s: FsState,
    o: ObjectView,
    now: (i64, u32),
)
    requires
        s.wf(),
        s.next_inode <= u64::MAX - 4,
    ensures
        handled(h, handled(h, s, EventView::Applied(o), now).0, EventView::Applied(o), now)
            == handled(h, s, EventView::Applied(o), now),
{
    law_add_idempotent(s, o, now);
}

/// The objects of an event.
pub open spec fn objects_of(e: EventView) -> Seq<ObjectView> {
    match e {
        EventView::Applied(o) => seq![o],
        EventView::Deleted(o) => seq![o],
        EventView::Restarted(objs) => objs,
    }
}

impl EventHandler for Handler {
    fn can_process(&self, e: &Event) -> (ok: bool) {
        let ghost seen = event_view(self.meta(), *e);
        match self {
            Handler::Pod(h) => {
                proof {
                    lemma_pod_accepts(self, h, objects_of(seen));
                }
                h.can_process(e)
            },
            Handler::Namespace(h) => {
                proof {
                    lemma_namespace_accepts(self, h, objects_of(seen));
                }
                h.can_process(e)
            },
        }
    }

    fn process_at<S: Storage>(&self, store: &mut S, e: Event, now: (i64, u32)) -> (r: Result<
        (),
        FsError,
    >) {
        let ghost seen = event_view(self.meta(), e);
        match self {
            Handler::Pod(h) => {
                proof {
                    lemma_pod_handler(self, h, store.state(), objects_of(seen), now);
                }
                h.process_at(store, e, now)
            },
            Handler::Namespace(h) => {
                proof {
                    lemma_namespace_handler(self, h, store.state(), objects_of(seen), now);
                }
                h.process_at(store, e, now)
            },
        }
    }

    fn process<S: Storage>(&self, store: &mut S, e: Event) -> (r: Result<(), FsError>) {
        let now = crate::fuse::attrs::time_now();
        self.process_at(store, e, now)
    }
}

/// The factory of a kind that is registered.
#[derive(Clone, Copy, PartialEq, Eq, Debug, Structural)]
pub enum Factory {
    Pod(PodControllerFactory),
    Namespace(NamespaceControllerFactory),
}

impl Factory {
    /// The handler that a factory builds for objects placed where `meta`
    /// says.
    pub open spec fn built(self, meta: ClusterObjectMeta) -> Handler {
        match self {
            Factory::Pod(_) => Handler::Pod(PodController { meta }),
            Factory::Namespace(_) => Handler::Namespace(NamespaceController { meta }),
        }
    }

    /// The handler that places its objects where `meta` says.
    pub fn build(&self, meta: ClusterObjectMeta) -> (handler: Handler)
        ensures
            handler == self.built(meta),
            handler.meta() == meta,
    {
        match self {
            Factory::Pod(f) => Handler::Pod(f.build(meta)),
            Factory::Namespace(f) => Handler::Namespace(f.build(meta)),
        }
    }
}

/// One line of the registry as a mathematical value.
pub struct Registered {
    pub gvk: GvkView,
    pub factory: Factory,
}

/// The registry: for each kind that is watched, the factory of its handler.
pub struct Schema {
    entries: Vec<(GroupVersionKind, Factory)>,
}

/// The first place at or after `i` at which `gvk` is registered.
pub open spec fn place_of(lines: Seq<Registered>, gvk: GvkView, i: int) -> Option<int>
    decreases lines.len() - i,
{
    if i < 0 || i >= lines.len() {
        None
    } else if lines[i].gvk == gvk {
        Some(i)
    } else {
        place_of(lines, gvk, i + 1)
    }
}

/// The factory that is registered for `gvk`, if any.
pub open spec fn factory_of(lines: Seq<Registered>, gvk: GvkView) -> Option<Factory> {
    match place_of(lines, gvk, 0) {
        Some(i) => Some(lines[i].factory),
        None => None,
    }
}

/// The registry after `factory` was registered for `gvk`: in place of the
/// factory that was registered for it, or as a new line.
pub open spec fn registered(lines: Seq<Registered>, gvk: GvkView, factory: Factory) -> Seq<
    Registered,
> {
    match place_of(lines, gvk, 0) {
        Some(i) => lines.update(i, Registered { gvk, factory }),
        None => lines.push(Registered { gvk, factory }),
    }
}

/// A place that is found lies within the registry, holds the kind, and is
/// the first that does.
pub proof fn lemma_place_of(lines: Seq<Registered>, gvk: GvkView, i: int)
    requires
        0 <= i,
    ensures
        match place_of(lines, gvk, i) {
            Some(k) => i <= k < lines.len() && lines[k].gvk == gvk && forall|j: int|
                i <= j < k ==> (#[trigger] lines[j]).gvk != gvk,
            None => forall|j: int| i <= j < lines.len() ==> (#[trigger] lines[j]).gvk != gvk,
        },
    decreases lines.len() - i,
{
    if i < lines.len() && lines[i].gvk != gvk {
        lemma_place_of(lines, gvk, i + 1);
    }
}

/// A kind that stands at `k`, and at no place from `i` to `k`, is found at
/// `k`.
pub proof fn lemma_place_is(lines: Seq<Registered>, gvk: GvkView, i: int, k: int)
    requires
        0 <= i <= k < lines.len(),
        lines[k].gvk == gvk,
        forall|j: int| i <= j < k ==> (#[trigger] lines[j]).gvk != gvk,
    ensures
        place_of(lines, gvk, i) == Some(k),
    decreases k - i,
{
    if i < k {
        lemma_place_is(lines, gvk, i + 1, k);
    }
}

/// A kind that stands nowhere from `i` on is not found.
pub proof fn lemma_place_none(lines: Seq<Registered>, gvk: GvkView, i: int)
    requires
        0 <= i,
        forall|j: int| i <= j < lines.len() ==> (#[trigger] lines[j]).gvk != gvk,
    ensures
        place_of(lines, gvk, i) is None,
    decreases lines.len() - i,
{
    if i < lines.len() {
        lemma_place_none(lines, gvk, i + 1);
    }
}

/// After a factory was registered for a kind, it is the factory of that
/// kind, and every other kind has the factory it had.
pub proof fn law_registered(lines: Seq<Registered>, gvk: GvkView, factory: Factory, other: GvkView)
    ensures
        factory_of(registered(lines, gvk, factory), gvk) == Some(factory),
        other != gvk ==> factory_of(registered(lines, gvk, factory), other) == factory_of(
            lines,
            other,
        ),
{
    let after = registered(lines, gvk, factory);
    lemma_place_of(lines, gvk, 0);
    lemma_place_of(lines, other, 0);
    match place_of(lines, gvk, 0) {
        Some(i) => {
            assert forall|j: int| 0 <= j < i implies (#[trigger] after[j]).gvk != gvk by {
                assert(lines[j].gvk != gvk);
            }
            lemma_place_is(after, gvk, 0, i);
        },
        None => {
            assert forall|j: int| 0 <= j < lines.len() implies (#[trigger] after[j]).gvk
                != gvk by {
                assert(lines[j].gvk != gvk);
            }
            lemma_place_is(after, gvk, 0, lines.len() as int);
        },
    }
    if other != gvk {
        match place_of(lines, other, 0) {
            Some(k) => {
                assert forall|j: int| 0 <= j < k implies (#[trigger] after[j]).gvk != other by {
                    assert(lines[j].gvk != other);
                }
                assert(after[k] == lines[k]);
                lemma_place_is(after, other, 0, k);
            },
            None => {
                assert forall|j: int| 0 <= j < after.len() implies (#[trigger] after[j]).gvk
                    != other by {
                    if j < lines.len() {
                        assert(lines[j].gvk != other);
                    }
                }
                lemma_place_none(after, other, 0);
            },
        }
    }
}

impl View for Schema {
    type V = Seq<Registered>;

    closed spec fn view(&self) -> Seq<Registered> {
        self.entries@.map_values(
            |line: (GroupVersionKind, Factory)| Registered { gvk: line.0@, factory: line.1 },
        )
    }
}

impl Schema {
    /// A registry that holds nothing.
    pub fn new() -> (schema: Schema)
        ensures
            schema@ == Seq::<Registered>::empty(),
    {
        let schema = Schema { entries: Vec::new() };
        assert(schema@ =~= Seq::<Registered>::empty());
        schema
    }

    /// The registry that every process starts with: the handlers of pods and
    /// of namespaces, both of the core group in version `v1`.
    pub fn standard() -> (schema: Schema)
        ensures
            schema@ == registered(
                registered(
                    Seq::<Registered>::empty(),
                    GvkView { group: ""@, version: "v1"@, kind: "Pod"@ },
                    Factory::Pod(PodControllerFactory),
                ),
                GvkView { group: ""@, version: "v1"@, kind: "Namespace"@ },
                Factory::Namespace(NamespaceControllerFactory),
            ),
    {
        let mut schema = Schema::new();
        register(
            &mut schema,
            GroupVersionKind::gvk("", "v1", "Pod"),
            Factory::Pod(*PodControllerFactory::new_box()),
        );
        register(
            &mut schema,
            GroupVersionKind::gvk("", "v1", "Namespace"),
            Factory::Namespace(*NamespaceControllerFactory::new_box()),
        );
        schema
    }

    /// How many kinds are registered.
    pub fn len(&self) -> (n: usize)
        ensures
            n == self@.len(),
    {
        self.entries.len()
    }

    /// The place at which `gvk` is registered, if any.
    fn find(&self, gvk: &GroupVersionKind) -> (place: Option<usize>)
        ensures
            match place {
                Some(i) => place_of(self@, gvk@, 0) == Some(i as int) && i < self.entries@.len(),
                None => place_of(self@, gvk@, 0) is None,
            },
    {
        let mut i: usize = 0;
        while i < self.entries.len()
            invariant
                i <= self.entries@.len(),
                self@.len() == self.entries@.len(),
                place_of(self@, gvk@, 0) == place_of(self@, gvk@, i as int),
            decreases self.entries@.len() - i,
        {
            assert(self@[i as int].gvk == self.entries@[i as int].0@);
            if same_gvk(&self.entries[i].0, gvk) {
                return Some(i);
            }
            i += 1;
        }
        None
    }

    /// The factory that is registered for `gvk`, if any.
    pub fn dispatcher(&self, gvk: &GroupVersionKind) -> (factory: Option<Factory>)
        ensures
            factory == factory_of(self@, gvk@),
    {
        match self.find(gvk) {
            Some(i) => {
                assert(self@[i as int].factory == self.entries@[i as int].1);
                Some(self.entries[i].1)
            },
            None => None,
        }
    }
}

/// Registers `f` as the factory of the handler of `gvk`, in place of the
/// factory that was registered for it, if any.
pub fn register(schema: &mut Schema, gvk: GroupVersionKind, f: Factory)
    ensures
        final(schema)@ == registered(old(schema)@, gvk@, f),
{
    match schema.find(&gvk) {
        Some(i) => {
            schema.entries.set(i, (gvk, f));
            assert(schema@ =~= registered(old(schema)@, gvk@, f));
        },
        None => {
            schema.entries.push((gvk, f));
            assert(schema@ =~= registered(old(schema)@, gvk@, f));
        },
    }
}

} // verus!
