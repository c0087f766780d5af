//! The plan of the watch: which kinds are watched, under which schema, and
//! with which handler. Opening the watches and reading their events is left
//! to the program around the library.
use vstd::prelude::*;
use vstd::string::StrSliceExecFns;
use crate::config::KubeConfig;
use crate::controller::Placement;
use crate::schema::{factory_of, same_gvk, GvkView, Handler, Registered, Schema};
use crate::{ApiCapabilities, ClusterObjectMeta, GroupVersionKind};

verus! {

/// The `apiVersion` and `kind` that a configuration names a kind by.
#[derive(PartialEq, Eq, Debug)]
pub struct TypeMeta {
    pub api_version: String,
    pub kind: String,
}

impl Clone for TypeMeta {
    fn clone(&self) -> (copy: TypeMeta)
        ensures
            copy == *self,
    {
        TypeMeta { api_version: self.api_version.clone(), kind: self.kind.clone() }
    }
}

/// Where the first `/` of a text stands at or after `i`, or the length of
/// the text where there is none.
pub open spec fn first_slash(text: Seq<char>, i: int) -> int
    decreases text.len() - i,
{
    if i < 0 || i >= text.len() {
        text.len() as int
    } else if text[i] == '/' {
        i
    } else {
        first_slash(text, i + 1)
    }
}

/// The schema that an `apiVersion` and a `kind` name: the group is what
/// stands before the first `/` of the `apiVersion` and the version what
/// follows it; without a `/` the group is empty and the version is the
/// whole `apiVersion`.
pub open spec fn gvk_of(api_version: Seq<char>, kind: Seq<char>) -> GvkView {
    let slash = first_slash(api_version, 0);
    if slash < api_version.len() {
        GvkView {
            group: api_version.take(slash),
            version: api_version.skip(slash + 1),
            kind,
        }
    } else {
        GvkView { group: Seq::empty(), version: api_version, kind }
    }
}

/// The first `/` lies within the text or at its end.
pub proof fn lemma_first_slash(text: Seq<char>, i: int)
    requires
        0 <= i <= text.len(),
    ensures
        i <= first_slash(text, i) <= text.len(),
    decreases text.len() - i,
{
    if i < text.len() && text[i] != '/' {
        lemma_first_slash(text, i + 1);
    }
}

/// The schema that a configuration names.
pub fn parse_gvk(tm: &TypeMeta) -> (gvk: GroupVersionKind)
    ensures
        gvk@ == gvk_of(tm.api_version@, tm.kind@),
{
    let text = tm.api_version.as_str();
    let len = text.unicode_len();
    let mut slash: usize = len;
    let mut found = false;
    let mut i: usize = 0;
    for c in it: text.chars()
        invariant
            len == text@.len(),
            it.seq() == text@,
            i == it.index(),
            found ==> slash < i && first_slash(text@, 0) == slash,
            !found ==> slash == len && first_slash(text@, 0) == first_slash(text@, i as int),
    {
        if !found && c == '/' {
            slash = i;
            found = true;
        }
        i += 1;
    }
    if found {
        let group = text.substring_char(0, slash).to_owned();
        let version = text.substring_char(slash + 1, len).to_owned();
        assert(text@.subrange(0, slash as int) =~= text@.take(slash as int));
        assert(text@.subrange(slash + 1, len as int) =~= text@.skip(slash + 1));
        GroupVersionKind { group, version, kind: tm.kind.clone() }
    } else {
        let group = String::new();
        GroupVersionKind { group, version: tm.api_version.clone(), kind: tm.kind.clone() }
    }
}

/// Where a kubeconfig is taken from.
#[derive(PartialEq, Eq, Debug)]
pub enum KubeconfigSource {
    /// Embedded in the configuration.
    Raw(String),
    /// A file at this path.
    File(String),
}

/// A source of a kubeconfig as a mathematical value.
pub enum KubeconfigSourceView {
    Raw(Seq<char>),
    File(Seq<char>),
}

impl View for KubeconfigSource {
    type V = KubeconfigSourceView;

    open spec fn view(&self) -> KubeconfigSourceView {
        match self {
            KubeconfigSource::Raw(text) => KubeconfigSourceView::Raw(text@),
            KubeconfigSource::File(path) => KubeconfigSourceView::File(path@),
        }
    }
}

/// Where the kubeconfig of an entry of the configuration is taken from: the
/// embedded one where there is one, else the file, and nowhere where the
/// entry names neither.
pub open spec fn source_of(c: KubeConfig) -> Option<KubeconfigSourceView> {
    match (c.config_path, c.raw) {
        (_, Some(raw)) => Some(KubeconfigSourceView::Raw(raw@)),
        (Some(path), None) => Some(KubeconfigSourceView::File(path@)),
        (None, None) => None,
    }
}

/// Where the kubeconfig of an entry of the configuration is taken from.
pub fn kubeconfig_source(c: &KubeConfig) -> (source: Option<KubeconfigSource>)
    ensures
        match source {
            Some(s) => source_of(*c) == Some(s@),
            None => source_of(*c) is None,
        },
{
    match &c.raw {
        Some(raw) => Some(KubeconfigSource::Raw(raw.clone())),
        None => match &c.config_path {
            Some(path) => Some(KubeconfigSource::File(path.clone())),
            None => None,
        },
    }
}

/// A kind that is watched: its schema, and what the cluster's discovery says
/// of it.
#[derive(PartialEq, Eq, Debug)]
pub struct ApiConfig {
    pub caps: ApiCapabilities,
    pub gvk: GroupVersionKind,
}

/// A watched kind as a mathematical value.
pub struct ApiConfigView {
    pub caps: ApiCapabilities,
    pub gvk: GvkView,
}

impl View for ApiConfig {
    type V = ApiConfigView;

    open spec fn view(&self) -> ApiConfigView {
        ApiConfigView { caps: self.caps, gvk: self.gvk@ }
    }
}

/// A pool of watched kinds as a sequence of mathematical values.
pub open spec fn pool_view(pool: Seq<ApiConfig>) -> Seq<ApiConfigView> {
    pool.map_values(|c: ApiConfig| c@)
}

/// The first place at or after `i` at which the pool holds `gvk`.
pub open spec fn pooled_at(pool: Seq<ApiConfigView>, gvk: GvkView, i: int) -> Option<int>
    decreases pool.len() - i,
{
    if i < 0 || i >= pool.len() {
        None
    } else if pool[i].gvk == gvk {
        Some(i)
    } else {
        pooled_at(pool, gvk, i + 1)
    }
}

/// The pool after a kind was put into it: in place of the line of the same
/// schema, or as a new line.
pub open spec fn pooled(pool: Seq<ApiConfigView>, c: ApiConfigView) -> Seq<ApiConfigView> {
    match pooled_at(pool, c.gvk, 0) {
        Some(i) => pool.update(i, c),
        None => pool.push(c),
    }
}

/// The pool after the first `n` of the resources were put into it, each
/// with what the discovery said of it.
pub open spec fn pool_of(
    pool: Seq<ApiConfigView>,
    resources: Seq<TypeMeta>,
    caps: Seq<ApiCapabilities>,
    n: int,
) -> Seq<ApiConfigView>
    decreases n,
{
    if n <= 0 {
        pool
    } else {
        pooled(
            pool_of(pool, resources, caps, n - 1),
            ApiConfigView {
                caps: caps[n - 1],
                gvk: gvk_of(resources[n - 1].api_version@, resources[n - 1].kind@),
            },
        )
    }
}

/// The name of the directory under which every watched kind is placed.
pub open spec fn cluster_alias() -> Seq<char> {
    "default"@
}

/// Whether the registry holds a factory for every kind of the pool.
pub open spec fn all_registered(lines: Seq<Registered>, pool: Seq<ApiConfigView>) -> bool {
    forall|i: int| 0 <= i < pool.len() ==> factory_of(lines, (#[trigger] pool[i]).gvk) is Some
}

/// Whether `handler` is the handler of the watched kind `c`: the one that
/// the registered factory builds, for objects placed in the directory of the
/// cluster.
pub open spec fn handler_for(lines: Seq<Registered>, c: ApiConfig, handler: Handler) -> bool {
    &&& factory_of(lines, c.gvk@) matches Some(factory) && handler == factory.built(handler.meta())
    &&& handler.meta().cluster@ == cluster_alias()
    &&& handler.meta().gvk@ == c.gvk@
    &&& handler.meta().caps == c.caps
}

/// The kinds that the configuration asks to watch, and what is known of
/// them.
pub struct Watcher {
    /// The kinds that the configuration names.
    pub r: Vec<TypeMeta>,
    /// The kinds whose schema was resolved.
    pub watch_pool: Vec<ApiConfig>,
}

impl Watcher {
    /// A watcher of the kinds `r`, none of which is resolved yet.
    pub fn new(r: Vec<TypeMeta>) -> (watcher: Watcher)
        ensures
            watcher.r == r,
            watcher.watch_pool@.len() == 0,
    {
        Watcher { r, watch_pool: Vec::new() }
    }

    /// The place at which the pool holds `gvk`, if any.
    fn pooled_place(&self, gvk: &GroupVersionKind) -> (place: Option<usize>)
        ensures
            match place {
                Some(i) => pooled_at(pool_view(self.watch_pool@), gvk@, 0) == Some(i as int) && i
                    < self.watch_pool@.len(),
                None => pooled_at(pool_view(self.watch_pool@), gvk@, 0) is None,
            },
    {
        let ghost pool = pool_view(self.watch_pool@);
        let mut i: usize = 0;
        while i < self.watch_pool.len()
            invariant
                i <= self.watch_pool@.len(),
                pool == pool_view(self.watch_pool@),
                pooled_at(pool, gvk@, 0) == pooled_at(pool, gvk@, i as int),
            decreases self.watch_pool@.len() - i,
        {
            assert(pool[i as int].gvk == self.watch_pool@[i as int].gvk@);
            if same_gvk(&self.watch_pool[i].gvk, gvk) {
                return Some(i);
            }
            i += 1;
        }
        None
    }

    /// Puts every kind of the configuration into the pool, each under the
    /// schema that its `apiVersion` and `kind` name and with what the
    /// discovery said of it; `caps` holds that for each kind, in the order
    /// of the configuration.
    pub fn build_api_pool(&mut self, caps: Vec<ApiCapabilities>)
        requires
            caps@.len() == old(self).r@.len(),
        ensures
            final(self).r == old(self).r,
            pool_view(final(self).watch_pool@) == pool_of(
                pool_view(old(self).watch_pool@),
                old(self).r@,
                caps@,
                caps@.len() as int,
            ),
    {
        let mut i: usize = 0;
        while i < self.r.len()
            invariant
                i <= self.r@.len(),
                self.r == old(self).r,
                caps@.len() == self.r@.len(),
                pool_view(self.watch_pool@) == pool_of(
                    pool_view(old(self).watch_pool@),
                    self.r@,
                    caps@,
                    i as int,
                ),
            decreases self.r@.len() - i,
        {
            let gvk = parse_gvk(&self.r[i]);
            let api_config = ApiConfig { caps: caps[i], gvk };
            let ghost before = pool_view(self.watch_pool@);
            match self.pooled_place(&api_config.gvk) {
                Some(k) => {
                    let ghost line = api_config@;
                    self.watch_pool.set(k, api_config);
                    assert(pool_view(self.watch_pool@) =~= before.update(k as int, line));
                },
                None => {
                    let ghost line = api_config@;
                    self.watch_pool.push(api_config);
                    assert(pool_view(self.watch_pool@) =~= before.push(line));
                },
            }
            i += 1;
        }
    }

    /// Whether the registry holds a handler for every kind that is to be
    /// watched: whether it holds as many as the configuration names kinds,
    /// and one for each kind of the pool.
    pub fn handlers_registered(&self, schema: &Schema) -> (ready: bool)
        ensures
            ready == (schema@.len() == self.r@.len() && all_registered(
                schema@,
                pool_view(self.watch_pool@),
            )),
    {
        if schema.len() != self.r.len() {
            return false;
        }
        let ghost pool = pool_view(self.watch_pool@);
        let mut i: usize = 0;
        while i < self.watch_pool.len()
            invariant
                i <= self.watch_pool@.len(),
                pool == pool_view(self.watch_pool@),
                forall|k: int| 0 <= k < i ==> factory_of(schema@, (#[trigger] pool[k]).gvk) is Some,
            decreases self.watch_pool@.len() - i,
        {
            assert(pool[i as int].gvk == self.watch_pool@[i as int].gvk@);
            if schema.dispatcher(&self.watch_pool[i].gvk).is_none() {
                return false;
            }
            i += 1;
        }
        true
    }

    /// The handlers of the kinds of the pool, in the order of the pool: for
    /// each kind the one that its registered factory builds, placing its
    /// objects in the directory of the cluster.
    pub fn watch(&self, schema: &Schema) -> (handlers: Vec<Handler>)
        requires
            schema@.len() == self.r@.len(),
            all_registered(schema@, pool_view(self.watch_pool@)),
        ensures
            handlers@.len() == self.watch_pool@.len(),
            forall|i: int|
                0 <= i < handlers@.len() ==> handler_for(
                    schema@,
                    self.watch_pool@[i],
                    #[trigger] handlers@[i],
                ),
    {
        let ghost pool = pool_view(self.watch_pool@);
        let mut handlers: Vec<Handler> = Vec::new();
        let mut i: usize = 0;
        while i < self.watch_pool.len()
            invariant
                i <= self.watch_pool@.len(),
                pool == pool_view(self.watch_pool@),
                all_registered(schema@, pool),
                handlers@.len() == i,
                forall|k: int|
                    0 <= k < i ==> handler_for(
                        schema@,
                        self.watch_pool@[k],
                        #[trigger] handlers@[k],
                    ),
            decreases self.watch_pool@.len() - i,
        {
            let api_config = &self.watch_pool[i];
            assert(pool[i as int].gvk == api_config.gvk@);
            let object_meta = ClusterObjectMeta::new(
                "default".to_owned(),
                api_config.gvk.clone(),
                api_config.caps,
            );
            match schema.dispatcher(&api_config.gvk) {
                Some(factory) => {
                    handlers.push(factory.build(object_meta));
                },
                None => {
                    assert(false);
                },
            }
            i += 1;
        }
        handlers
    }
}

} // verus!
