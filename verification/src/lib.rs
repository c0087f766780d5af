//! A cluster's live state projected as a read-only filesystem tree.
//!
//! The crate keeps four keyed buckets (path index, inode attributes, directory
//! entries, file data) in an embedded `sled` database and proves, with Verus,
//! how every operation moves the contents of those buckets.
use vstd::prelude::*;
use vstd::string::StringExecFns;
use crate::fuse::quoted::{put_quoted, quoted};
use crate::fuse::text::{lit, put_word};

pub mod config;
pub mod controller;
pub mod db;
pub mod error;
pub mod fuse;
pub mod kube;
pub mod schema;
pub mod utils;

verus! {

/// The group, version and kind that name a schema of cluster resources.
#[derive(PartialEq, Eq, Hash, Debug)]
pub struct GroupVersionKind {
    pub group: String,
    pub version: String,
    pub kind: String,
}

impl Clone for GroupVersionKind {
    fn clone(&self) -> (copy: GroupVersionKind)
        ensures
            copy == *self,
    {
        GroupVersionKind {
            group: self.group.clone(),
            version: self.version.clone(),
            kind: self.kind.clone(),
        }
    }
}

/// The `apiVersion` of a group and version: the version alone for the core
/// group, whose name is empty, and `group/version` for any other.
pub open spec fn api_version_of(group: Seq<char>, version: Seq<char>) -> Seq<char> {
    if group.len() == 0 {
        version
    } else {
        group + "/"@ + version
    }
}

impl GroupVersionKind {
    /// The schema named by `group`, `version` and `kind`.
    pub fn gvk(group: &str, version: &str, kind: &str) -> (gvk: GroupVersionKind)
        ensures
            gvk.group@ == group@,
            gvk.version@ == version@,
            gvk.kind@ == kind@,
    {
        GroupVersionKind {
            group: group.to_owned(),
            version: version.to_owned(),
            kind: kind.to_owned(),
        }
    }

    /// The `apiVersion` under which objects of this schema are written.
    pub fn api_version(&self) -> (text: String)
        ensures
            text@ == api_version_of(self.group@, self.version@),
    {
        if self.group.as_str().is_empty() {
            self.version.clone()
        } else {
            let mut text = self.group.clone();
            text.append("/");
            text.append(self.version.as_str());
            text
        }
    }
}

/// Whether the objects of a kind live in namespaces or in the cluster itself.
#[derive(Copy, Clone, PartialEq, Eq, Debug, Structural)]
pub enum Scope {
    Cluster,
    Namespaced,
}

/// What the cluster's discovery says of a kind, as far as the filesystem
/// reads it.
#[derive(Copy, Clone, PartialEq, Eq, Debug, Structural)]
pub struct ApiCapabilities {
    pub scope: Scope,
}

/// Where the objects of one kind of one cluster belong.
#[derive(PartialEq, Eq, Debug)]
pub struct ClusterObjectMeta {
    pub cluster: String,
    pub gvk: GroupVersionKind,
    pub caps: ApiCapabilities,
}

impl ClusterObjectMeta {
    pub fn new(cluster: String, gvk: GroupVersionKind, caps: ApiCapabilities) -> (meta:
        ClusterObjectMeta)
        ensures
            meta.cluster == cluster,
            meta.gvk == gvk,
            meta.caps == caps,
    {
        ClusterObjectMeta { cluster, gvk, caps }
    }
}

impl Clone for ClusterObjectMeta {
    fn clone(&self) -> (copy: ClusterObjectMeta)
        ensures
            copy == *self,
    {
        ClusterObjectMeta { cluster: self.cluster.clone(), gvk: self.gvk.clone(), caps: self.caps }
    }
}

/// The name of an object and the namespace it lives in, if it lives in one.
#[derive(PartialEq, Eq, Debug)]
pub struct ObjectMeta {
    pub name: Option<String>,
    pub namespace: Option<String>,
}

/// An object of the cluster: what identifies it, and its YAML text as it was
/// received. The text is carried as it is; nothing in the crate reads it.
#[derive(PartialEq, Eq, Debug)]
pub struct DynamicObject {
    pub api_version: String,
    pub kind: String,
    pub metadata: ObjectMeta,
    pub yaml: Vec<u8>,
}

/// The YAML text of an object that holds nothing but its schema and its name.
pub open spec fn manifest_text(api_version: Seq<char>, kind: Seq<char>, name: Seq<char>) -> Seq<
    u8,
> {
    lit("apiVersion: ") + quoted(vstd::utf8::encode_utf8(api_version)) + lit("\nkind: ") + quoted(
        vstd::utf8::encode_utf8(kind),
    ) + lit("\nmetadata:\n  name: ") + quoted(vstd::utf8::encode_utf8(name)) + seq![10u8]
}

impl DynamicObject {
    /// An object of the schema `gvk` that is called `name`, lives in no
    /// namespace and holds nothing else.
    pub fn new(name: &str, gvk: &GroupVersionKind) -> (obj: DynamicObject)
        ensures
            obj.api_version@ == api_version_of(gvk.group@, gvk.version@),
            obj.kind@ == gvk.kind@,
            obj.metadata.name matches Some(n) && n@ == name@,
            obj.metadata.namespace is None,
            obj.yaml@ == manifest_text(obj.api_version@, obj.kind@, name@),
    {
        let api_version = gvk.api_version();
        let mut yaml: Vec<u8> = Vec::new();
        put_word(&mut yaml, "apiVersion: ");
        put_quoted(&mut yaml, api_version.as_str().as_bytes());
        put_word(&mut yaml, "\nkind: ");
        put_quoted(&mut yaml, gvk.kind.as_str().as_bytes());
        put_word(&mut yaml, "\nmetadata:\n  name: ");
        put_quoted(&mut yaml, name.as_bytes());
        yaml.push(10u8);
        assert(yaml@ =~= manifest_text(api_version@, gvk.kind@, name@));
        DynamicObject {
            api_version,
            kind: gvk.kind.clone(),
            metadata: ObjectMeta { name: Some(name.to_owned()), namespace: None },
            yaml,
        }
    }
}

/// An object together with where its kind belongs.
pub struct ClusterObject<'a> {
    pub meta: &'a ClusterObjectMeta,
    pub obj: &'a DynamicObject,
}

/// An object of a cluster as a mathematical value: what its paths are made
/// of, and its text.
pub struct ObjectView {
    pub cluster: Seq<char>,
    pub kind: Seq<char>,
    pub scope: Scope,
    pub name: Option<Seq<char>>,
    pub namespace: Option<Seq<char>>,
    pub yaml: Seq<u8>,
}

/// The view of an optional string.
pub open spec fn opt_string(s: Option<String>) -> Option<Seq<char>> {
    match s {
        Some(text) => Some(text@),
        None => None,
    }
}

/// The object `obj` of a kind that belongs where `meta` says.
pub open spec fn object_view(meta: ClusterObjectMeta, obj: DynamicObject) -> ObjectView {
    ObjectView {
        cluster: meta.cluster@,
        kind: meta.gvk.kind@,
        scope: meta.caps.scope,
        name: opt_string(obj.metadata.name),
        namespace: opt_string(obj.metadata.namespace),
        yaml: obj.yaml@,
    }
}

impl ObjectView {
    /// Whether the object has what its paths are made of: a name and, where
    /// its kind lives in namespaces, a namespace.
    pub open spec fn addressable(self) -> bool {
        &&& self.name is Some
        &&& self.scope == Scope::Namespaced ==> self.namespace is Some
    }
}

impl<'a> View for ClusterObject<'a> {
    type V = ObjectView;

    open spec fn view(&self) -> ObjectView {
        object_view(*self.meta, *self.obj)
    }
}

impl<'a> ClusterObject<'a> {
    /// Whether the object has what its paths are made of: a name and, where
    /// its kind lives in namespaces, a namespace.
    pub open spec fn addressable(&self) -> bool {
        self@.addressable()
    }

    /// Whether the object has what its paths are made of.
    pub fn is_addressable(&self) -> (r: bool)
        ensures
            r == self.addressable(),
    {
        self.obj.metadata.name.is_some() && (match self.meta.caps.scope {
            Scope::Namespaced => self.obj.metadata.namespace.is_some(),
            Scope::Cluster => true,
        })
    }

    /// Whether the object's kind lives in namespaces.
    pub fn scope(&self) -> (scope: Scope)
        ensures
            scope == self.meta.caps.scope,
    {
        self.meta.caps.scope
    }
}

} // verus!
