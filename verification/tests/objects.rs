use kufu::controller::{
    Event, EventHandler, EventHandlerFactory, FactoryClone, NamespaceController,
    NamespaceControllerFactory, PodController, PodControllerFactory,
};
use kufu::db::utils::{
    get_namespace_root_key, get_parent_resource_full_key, get_resource_api_key,
    get_resource_file_key, get_resource_full_key, u64_to_ivec,
};
use kufu::db::{Bucket, FSManger, SledDb, Storage};
use kufu::error::FsError;
use kufu::fuse::attrs::{FileKind, InodeAttributes};
use kufu::fuse::inner::FsInner;
use kufu::{
    ApiCapabilities, ClusterObject, ClusterObjectMeta, DynamicObject, GroupVersionKind,
    ObjectMeta, Scope,
};

const T1: (i64, u32) = (1700000000, 1);
const T2: (i64, u32) = (1700000100, 2);

fn mounted_store(name: &str) -> SledDb {
    let nanos = std::time::SystemTime::now()
        .duration_since(std::time::UNIX_EPOCH)
        .unwrap()
        .as_nanos();
    let store = SledDb::new(&format!("/tmp/kufu-tests/objects-{}-{}", name, nanos)).unwrap();
    let mut inner = FsInner::new(store);
    inner.init_at("/mnt/kufu", T1).unwrap();
    inner.store
}

fn pod_meta() -> ClusterObjectMeta {
    ClusterObjectMeta::new(
        "default".to_string(),
        GroupVersionKind::gvk("", "v1", "Pod"),
        ApiCapabilities { scope: Scope::Namespaced },
    )
}

fn namespace_meta() -> ClusterObjectMeta {
    ClusterObjectMeta::new(
        "default".to_string(),
        GroupVersionKind::gvk("", "v1", "Namespace"),
        ApiCapabilities { scope: Scope::Cluster },
    )
}

fn pod(namespace: &str, name: &str, yaml: &str) -> DynamicObject {
    DynamicObject {
        api_version: "v1".to_string(),
        kind: "Pod".to_string(),
        metadata: ObjectMeta {
            name: Some(name.to_string()),
            namespace: Some(namespace.to_string()),
        },
        yaml: yaml.as_bytes().to_vec(),
    }
}

fn file_at(store: &SledDb, path: &str) -> (InodeAttributes, Vec<u8>) {
    let inode = store.get_inode(path).unwrap();
    (store.get_inode_attr(inode).unwrap(), store.get_data(inode).unwrap())
}

fn names_in(store: &SledDb, path: &str) -> Vec<String> {
    let inode = store.get_inode(path).unwrap();
    store.get_dentry(inode).unwrap().entries.iter().map(|e| e.name.clone()).collect()
}

#[test]
fn metadata_keeps_what_it_is_given() {
    let meta = pod_meta();
    assert_eq!(meta.cluster, "default");
    assert_eq!(meta.gvk, GroupVersionKind::gvk("", "v1", "Pod"));
    assert_eq!(meta.caps, ApiCapabilities { scope: Scope::Namespaced });
    assert_eq!(meta.clone(), meta);
    assert_eq!(GroupVersionKind::gvk("apps", "v1", "Deployment").api_version(), "apps/v1");
    assert_eq!(GroupVersionKind::gvk("", "v1", "Pod").api_version(), "v1");
}

#[test]
fn paths_of_a_namespaced_object() {
    let meta = pod_meta();
    let obj = pod("foo", "alpha", "");
    let o = ClusterObject { meta: &meta, obj: &obj };
    assert!(o.is_addressable());
    assert_eq!(o.scope(), Scope::Namespaced);
    assert_eq!(get_resource_full_key(&o), "default/namespace/foo/Pod/alpha");
    assert_eq!(get_resource_file_key(&o), "default/namespace/foo/Pod/alpha.yaml");
    assert_eq!(get_resource_api_key(&o), "default/namespace/foo/Pod");
    assert_eq!(get_parent_resource_full_key(&o), "default/namespace/foo");
    assert_eq!(get_namespace_root_key(&o), "default/namespace");
}

#[test]
fn paths_of_a_cluster_object() {
    let meta = ClusterObjectMeta::new(
        "east".to_string(),
        GroupVersionKind::gvk("", "v1", "Node"),
        ApiCapabilities { scope: Scope::Cluster },
    );
    let obj = DynamicObject::new("n1", &meta.gvk);
    let o = ClusterObject { meta: &meta, obj: &obj };
    assert!(o.is_addressable());
    assert_eq!(get_resource_full_key(&o), "east/Node/n1");
    assert_eq!(get_resource_file_key(&o), "east/Node/n1.yaml");
    assert_eq!(get_resource_api_key(&o), "east/Node");
    assert_eq!(get_parent_resource_full_key(&o), "east");
}

#[test]
fn object_without_name_or_namespace_has_no_paths() {
    let meta = pod_meta();
    let mut obj = pod("foo", "alpha", "");
    obj.metadata.namespace = None;
    assert!(!ClusterObject { meta: &meta, obj: &obj }.is_addressable());
    obj.metadata.namespace = Some("foo".to_string());
    obj.metadata.name = None;
    assert!(!ClusterObject { meta: &meta, obj: &obj }.is_addressable());
    let cluster = namespace_meta();
    let named = DynamicObject::new("foo", &cluster.gvk);
    assert!(ClusterObject { meta: &cluster, obj: &named }.is_addressable());
}

#[test]
fn bare_object_is_written_as_its_schema_and_name() {
    let obj = DynamicObject::new("kube-system", &GroupVersionKind::gvk("", "v1", "Namespace"));
    assert_eq!(obj.api_version, "v1");
    assert_eq!(obj.kind, "Namespace");
    assert_eq!(obj.metadata.name.as_deref(), Some("kube-system"));
    assert_eq!(obj.metadata.namespace, None);
    assert_eq!(
        String::from_utf8(obj.yaml.clone()).unwrap(),
        "apiVersion: \"v1\"\nkind: \"Namespace\"\nmetadata:\n  name: \"kube-system\"\n"
    );
    let grouped = DynamicObject::new("d\"1", &GroupVersionKind::gvk("apps", "v1", "Deployment"));
    assert_eq!(
        String::from_utf8(grouped.yaml).unwrap(),
        "apiVersion: \"apps/v1\"\nkind: \"Deployment\"\nmetadata:\n  name: \"d\\\"1\"\n"
    );
}

#[test]
fn bare_object_reads_as_the_cluster_client_writes_it() {
    for name in ["foo", "123", "true", "kube-system", "a b", "x: y"] {
        let ours = DynamicObject::new(name, &GroupVersionKind::gvk("", "v1", "Namespace"));
        let gvk = kube::core::GroupVersionKind::gvk("", "v1", "Namespace");
        let theirs =
            kube::core::DynamicObject::new(name, &kube::core::ApiResource::from_gvk(&gvk));
        let left: serde_yaml::Value = serde_yaml::from_slice(&ours.yaml).unwrap();
        let right: serde_yaml::Value =
            serde_yaml::from_str(&serde_yaml::to_string(&theirs).unwrap()).unwrap();
        assert_eq!(left, right);
        let back: kube::core::DynamicObject = serde_yaml::from_slice(&ours.yaml).unwrap();
        assert_eq!(back.metadata.name.as_deref(), Some(name));
        assert_eq!(back.types.unwrap().kind, "Namespace");
    }
}

#[test]
fn cluster_object_text_survives_a_round_trip() {
    let gvk = kube::core::GroupVersionKind::gvk("", "v1", "Pod");
    let mut object =
        kube::core::DynamicObject::new("alpha", &kube::core::ApiResource::from_gvk(&gvk))
            .within("foo");
    object.data = serde_yaml::from_str("spec:\n  containers:\n  - name: c\n    image: busybox\n")
        .unwrap();
    let written = serde_yaml::to_string(&object).unwrap();
    let read: kube::core::DynamicObject = serde_yaml::from_str(&written).unwrap();
    assert_eq!(read.metadata, object.metadata);
    assert_eq!(read.data, object.data);
    assert_eq!(serde_yaml::to_string(&read).unwrap(), written);
}

#[test]
fn init_mounts_the_mount_point_and_the_cluster() {
    let store = mounted_store("init");
    assert_eq!(store.get_inode("/mnt/kufu").unwrap(), 0);
    assert_eq!(store.get_inode("default").unwrap(), 1);
    assert_eq!(names_in(&store, "default"), vec!["."]);
    assert_eq!(store.get_dentry(0).unwrap().name, "kufu");
    assert_eq!(store.get_dentry(1).unwrap().parent, 0);
}

#[test]
fn add_mounts_the_directories_above_the_file() {
    let mut store = mounted_store("add");
    let meta = pod_meta();
    let obj = pod("foo", "alpha", "kind: Pod\n");
    assert!(!store.has(&ClusterObject { meta: &meta, obj: &obj }).unwrap());
    store.add(ClusterObject { meta: &meta, obj: &obj }, T2).unwrap();
    assert_eq!(store.get_inode("default/namespace").unwrap(), 2);
    assert_eq!(store.get_inode("default/namespace/foo").unwrap(), 3);
    assert_eq!(store.get_inode("default/namespace/foo/Pod").unwrap(), 4);
    assert_eq!(store.get_inode("default/namespace/foo/Pod/alpha.yaml").unwrap(), 5);
    assert_eq!(names_in(&store, "default"), vec![".", "namespace"]);
    assert_eq!(names_in(&store, "default/namespace"), vec![".", "..", "foo"]);
    assert_eq!(names_in(&store, "default/namespace/foo"), vec![".", "..", "Pod"]);
    assert_eq!(names_in(&store, "default/namespace/foo/Pod"), vec![".", "..", "alpha.yaml"]);
    let (attr, data) = file_at(&store, "default/namespace/foo/Pod/alpha.yaml");
    assert_eq!(attr, InodeAttributes::new_file(5, 10, T2));
    assert_eq!(data, b"kind: Pod\n".to_vec());
    assert!(!store.has(&ClusterObject { meta: &meta, obj: &obj }).unwrap());
}

#[test]
fn mount_gvk_finds_or_mounts_the_directory_of_the_kind() {
    let mut store = mounted_store("gvk");
    let meta = namespace_meta();
    let obj = DynamicObject::new("foo", &meta.gvk);
    let o = ClusterObject { meta: &meta, obj: &obj };
    assert_eq!(store.mount_gvk(&o, T1).unwrap(), 2);
    assert_eq!(store.mount_gvk(&o, T2).unwrap(), 2);
    assert_eq!(store.get_inode("default/Namespace").unwrap(), 2);
    assert_eq!(store.get_dentry(2).unwrap().parent, 1);
    assert_eq!(store.mount_gvr(&o, T1).unwrap(), 3);
    assert_eq!(store.mount_gvr(&o, T1).unwrap(), 3);
    assert_eq!(store.get_data(3).unwrap(), obj.yaml);
}

#[test]
fn cluster_object_without_its_cluster_is_refused() {
    let mut store = mounted_store("mock-parent");
    let meta = ClusterObjectMeta::new(
        "west".to_string(),
        GroupVersionKind::gvk("", "v1", "Node"),
        ApiCapabilities { scope: Scope::Cluster },
    );
    let obj = DynamicObject::new("n1", &meta.gvk);
    let r = store.add(ClusterObject { meta: &meta, obj: &obj }, T1);
    assert!(matches!(r, Err(FsError::MockParentDirError(p)) if p == "west/Node"));
    assert_eq!(store.get_bucket(Bucket::RIndex).len(), 2);
}

#[test]
fn namespaced_object_without_its_cluster_is_refused() {
    let mut store = mounted_store("no-cluster");
    let meta = ClusterObjectMeta::new(
        "west".to_string(),
        GroupVersionKind::gvk("", "v1", "Pod"),
        ApiCapabilities { scope: Scope::Namespaced },
    );
    let obj = pod("foo", "alpha", "x");
    let r = store.add(ClusterObject { meta: &meta, obj: &obj }, T1);
    assert!(matches!(r, Err(FsError::PathNotFound(p)) if p == "west"));
    assert_eq!(store.get_bucket(Bucket::RIndex).len(), 2);
}

#[test]
fn update_rewrites_the_file_at_the_path_of_the_object() {
    let mut store = mounted_store("update");
    let meta = pod_meta();
    let obj = pod("foo", "alpha", "new text");
    let missing = store.update(ClusterObject { meta: &meta, obj: &obj }, T2);
    assert!(matches!(missing, Err(FsError::PathNotFound(p)) if p == "default/namespace/foo/Pod/alpha"));
    let inode = store.mount_file("default/namespace/foo/Pod/alpha", 0, b"old", T1).unwrap();
    assert!(store.has(&ClusterObject { meta: &meta, obj: &obj }).unwrap());
    store.update_gvr(ClusterObject { meta: &meta, obj: &obj }, T2).unwrap();
    assert_eq!(store.get_data(inode).unwrap(), b"new text".to_vec());
    assert_eq!(store.get_inode_attr(inode).unwrap().last_modified, T2);
    store.add(ClusterObject { meta: &meta, obj: &pod("foo", "alpha", "added") }, T1).unwrap();
    assert_eq!(store.get_data(inode).unwrap(), b"added".to_vec());
    assert_eq!(store.get_bucket(Bucket::RIndex).len(), 3);
}

#[test]
fn delete_removes_the_data_under_the_path_of_the_object() {
    let mut store = mounted_store("delete");
    let meta = pod_meta();
    let obj = pod("foo", "alpha", "kind: Pod\n");
    store.add(ClusterObject { meta: &meta, obj: &obj }, T1).unwrap();
    store
        .get_bucket(Bucket::Data)
        .insert("default/namespace/foo/Pod/alpha", "cached")
        .unwrap();
    let found = store.get(ClusterObject { meta: &meta, obj: &obj }).unwrap();
    assert_eq!(found, Some(b"cached".to_vec()));
    store.delete(ClusterObject { meta: &meta, obj: &obj }).unwrap();
    assert_eq!(store.get(ClusterObject { meta: &meta, obj: &obj }).unwrap(), None);
    let (_, data) = file_at(&store, "default/namespace/foo/Pod/alpha.yaml");
    assert_eq!(data, b"kind: Pod\n".to_vec());
    assert_eq!(names_in(&store, "default/namespace/foo/Pod"), vec![".", "..", "alpha.yaml"]);
}

#[test]
fn applied_namespace_becomes_a_file() {
    let mut store = mounted_store("flow-namespace");
    let handler = NamespaceControllerFactory.build(namespace_meta());
    let object = DynamicObject::new("default", &GroupVersionKind::gvk("", "v1", "Namespace"));
    handler.process_at(&mut store, Event::Applied(object), T1).unwrap();
    let (attr, data) = file_at(&store, "default/Namespace/default.yaml");
    assert_eq!(attr.kind, FileKind::File);
    assert_eq!(
        String::from_utf8(data).unwrap(),
        "apiVersion: \"v1\"\nkind: \"Namespace\"\nmetadata:\n  name: \"default\"\n"
    );
    assert_eq!(names_in(&store, "default"), vec![".", "Namespace"]);
}

#[test]
fn applied_namespace_of_a_namespaced_kind_lies_under_its_namespace() {
    let mut store = mounted_store("flow-namespaced");
    let meta = ClusterObjectMeta::new(
        "default".to_string(),
        GroupVersionKind::gvk("", "v1", "Namespace"),
        ApiCapabilities { scope: Scope::Namespaced },
    );
    let handler = NamespaceController::new(meta);
    let mut object = DynamicObject::new("default", &GroupVersionKind::gvk("", "v1", "Namespace"));
    object.metadata.namespace = Some("default".to_string());
    let text = object.yaml.clone();
    handler.process_at(&mut store, Event::Applied(object), T1).unwrap();
    let (_, data) = file_at(&store, "default/namespace/default/Namespace/default.yaml");
    assert_eq!(data, text);
}

#[test]
fn pod_before_its_namespace_brings_the_namespace() {
    let mut store = mounted_store("flow-pod-first");
    let handler = PodControllerFactory.build(pod_meta());
    handler
        .process_at(&mut store, Event::Applied(pod("foo", "alpha", "kind: Pod\nname: alpha\n")), T1)
        .unwrap();
    let (_, namespace) = file_at(&store, "default/Namespace/foo.yaml");
    assert_eq!(
        String::from_utf8(namespace).unwrap(),
        "apiVersion: \"v1\"\nkind: \"Namespace\"\nmetadata:\n  name: \"foo\"\n"
    );
    let dir = store.get_inode("default/namespace/foo").unwrap();
    assert_eq!(store.get_inode_attr(dir).unwrap().kind, FileKind::Directory);
    let (_, data) = file_at(&store, "default/namespace/foo/Pod/alpha.yaml");
    assert_eq!(data, b"kind: Pod\nname: alpha\n".to_vec());
    assert_eq!(names_in(&store, "default"), vec![".", "Namespace", "namespace"]);
    assert_eq!(names_in(&store, "default/Namespace"), vec![".", "..", "foo.yaml"]);
}

#[test]
fn applying_a_pod_twice_leaves_one_entry() {
    let mut store = mounted_store("flow-twice");
    let handler = PodController::new(pod_meta());
    handler.process_at(&mut store, Event::Applied(pod("foo", "alpha", "short")), T1).unwrap();
    let first = store.get_inode("default/namespace/foo/Pod/alpha.yaml").unwrap();
    handler
        .process_at(&mut store, Event::Applied(pod("foo", "alpha", "a longer payload")), T2)
        .unwrap();
    assert_eq!(names_in(&store, "default/namespace/foo/Pod"), vec![".", "..", "alpha.yaml"]);
    let (attr, data) = file_at(&store, "default/namespace/foo/Pod/alpha.yaml");
    assert_eq!(attr.inode, first);
    assert_eq!(attr.size, 16);
    assert_eq!(data, b"a longer payload".to_vec());
}

fn snapshot(store: &SledDb) -> Vec<Vec<(Vec<u8>, Vec<u8>)>> {
    [Bucket::RIndex, Bucket::Inode, Bucket::Dentry, Bucket::Data]
        .iter()
        .map(|bucket| {
            store
                .get_bucket(*bucket)
                .iter()
                .map(|pair| {
                    let (k, v) = pair.unwrap();
                    (k.to_vec(), v.to_vec())
                })
                .collect()
        })
        .collect()
}

#[test]
fn applying_the_same_event_twice_leaves_the_same_bytes() {
    let mut store = mounted_store("flow-identical");
    let pods = PodController::new(pod_meta());
    pods.process_at(&mut store, Event::Applied(pod("foo", "alpha", "kind: Pod\n")), T2).unwrap();
    let once = snapshot(&store);
    pods.process_at(&mut store, Event::Applied(pod("foo", "alpha", "kind: Pod\n")), T2).unwrap();
    assert_eq!(snapshot(&store), once);
    let namespaces = NamespaceController::new(namespace_meta());
    let object = DynamicObject::new("bar", &GroupVersionKind::gvk("", "v1", "Namespace"));
    namespaces
        .process_at(
            &mut store,
            Event::Applied(DynamicObject::new("bar", &GroupVersionKind::gvk("", "v1", "Namespace"))),
            T1,
        )
        .unwrap();
    let once = snapshot(&store);
    namespaces.process_at(&mut store, Event::Applied(object), T1).unwrap();
    assert_eq!(snapshot(&store), once);
    assert_eq!(store.mount_dir("next", 0, T1).unwrap(), 9);
}

#[test]
fn deleted_pod_has_no_data_under_its_path() {
    let mut store = mounted_store("flow-deleted");
    let handler = PodController::new(pod_meta());
    let meta = pod_meta();
    handler.process_at(&mut store, Event::Applied(pod("foo", "alpha", "x")), T1).unwrap();
    handler.process_at(&mut store, Event::Deleted(pod("foo", "alpha", "x")), T2).unwrap();
    let obj = pod("foo", "alpha", "x");
    assert_eq!(store.get(ClusterObject { meta: &meta, obj: &obj }).unwrap(), None);
}

#[test]
fn restart_applies_every_object() {
    let mut store = mounted_store("flow-restart");
    let handler = PodController::new(pod_meta());
    handler.process_at(&mut store, Event::Applied(pod("foo", "alpha", "before")), T1).unwrap();
    handler
        .process_at(
            &mut store,
            Event::Restarted(vec![pod("foo", "alpha", "after"), pod("foo", "beta", "second")]),
            T2,
        )
        .unwrap();
    assert_eq!(file_at(&store, "default/namespace/foo/Pod/alpha.yaml").1, b"after".to_vec());
    assert_eq!(file_at(&store, "default/namespace/foo/Pod/beta.yaml").1, b"second".to_vec());
    assert_eq!(
        names_in(&store, "default/namespace/foo/Pod"),
        vec![".", "..", "alpha.yaml", "beta.yaml"]
    );
    handler.process_at(&mut store, Event::Restarted(Vec::new()), T2).unwrap();
    assert_eq!(store.get_bucket(Bucket::RIndex).len(), 9);
}

#[test]
fn restart_stops_at_the_first_object_that_fails() {
    let mut store = mounted_store("flow-restart-fails");
    let meta = ClusterObjectMeta::new(
        "west".to_string(),
        GroupVersionKind::gvk("", "v1", "Namespace"),
        ApiCapabilities { scope: Scope::Cluster },
    );
    let handler = NamespaceController::new(meta);
    let gvk = GroupVersionKind::gvk("", "v1", "Namespace");
    let r = handler.process_at(
        &mut store,
        Event::Restarted(vec![DynamicObject::new("a", &gvk), DynamicObject::new("b", &gvk)]),
        T1,
    );
    assert!(matches!(r, Err(FsError::MockParentDirError(p)) if p == "west/Namespace"));
    assert_eq!(store.get_bucket(Bucket::RIndex).len(), 2);
}

#[test]
fn two_pods_of_one_namespace_get_two_inodes() {
    let mut store = mounted_store("flow-two-pods");
    let handler = PodController::new(pod_meta());
    handler.process_at(&mut store, Event::Applied(pod("foo", "alpha", "one")), T1).unwrap();
    handler.process_at(&mut store, Event::Applied(pod("foo", "beta", "two")), T1).unwrap();
    let first = store.get_inode("default/namespace/foo/Pod/alpha.yaml").unwrap();
    let second = store.get_inode("default/namespace/foo/Pod/beta.yaml").unwrap();
    assert_ne!(first, second);
    let dir = store.get_inode("default/namespace/foo/Pod").unwrap();
    let record = store.get_dentry(dir).unwrap();
    assert_eq!(record.lookup("alpha.yaml"), Some((FileKind::File, first)));
    assert_eq!(record.lookup("beta.yaml"), Some((FileKind::File, second)));
    let mut inodes: Vec<Vec<u8>> = store
        .get_bucket(Bucket::RIndex)
        .iter()
        .map(|pair| pair.unwrap().1.to_vec())
        .collect();
    let paths = inodes.len();
    inodes.sort();
    inodes.dedup();
    assert_eq!(inodes.len(), paths);
    assert_eq!(inodes.last().unwrap(), &u64_to_ivec(8));
}

#[test]
fn events_are_stamped_with_the_clock() {
    let mut store = mounted_store("clock");
    let handler = PodControllerFactory::new_box().build(pod_meta());
    let before = kufu::fuse::attrs::time_now();
    handler.process(&mut store, Event::Applied(pod("foo", "alpha", "x"))).unwrap();
    let after = kufu::fuse::attrs::time_now();
    let (attr, _) = file_at(&store, "default/namespace/foo/Pod/alpha.yaml");
    assert!(before <= attr.last_modified && attr.last_modified <= after);
    assert_eq!(attr.last_accessed, attr.last_modified);
}

#[test]
fn factories_copy_into_boxes() {
    let pods = PodControllerFactory::new_box();
    assert_eq!(*pods.clone_box(), PodControllerFactory);
    let namespaces = NamespaceControllerFactory::new_box();
    assert_eq!(*namespaces.clone_box(), NamespaceControllerFactory);
    assert_eq!(pods.build(pod_meta()).meta, pod_meta());
    assert_eq!(namespaces.build(namespace_meta()).meta, namespace_meta());
}

#[test]
fn handlers_say_which_events_they_can_place() {
    let nameless = |namespace: &str| {
        let mut o = pod(namespace, "alpha", "");
        o.metadata.name = None;
        o
    };
    let homeless = || {
        let mut o = pod("foo", "alpha", "");
        o.metadata.namespace = None;
        o
    };
    let pods = PodController::new(pod_meta());
    assert!(pods.can_process(&Event::Applied(pod("foo", "alpha", ""))));
    assert!(!pods.can_process(&Event::Applied(nameless("foo"))));
    assert!(!pods.can_process(&Event::Deleted(homeless())));
    assert!(pods.can_process(&Event::Restarted(Vec::new())));
    assert!(!pods.can_process(&Event::Restarted(vec![pod("foo", "alpha", ""), nameless("foo")])));
    let namespaces = NamespaceController::new(namespace_meta());
    let gvk = GroupVersionKind::gvk("", "v1", "Namespace");
    assert!(namespaces.can_process(&Event::Applied(DynamicObject::new("foo", &gvk))));
    assert!(namespaces.can_process(&Event::Deleted(homeless())));
    assert!(!namespaces.can_process(&Event::Restarted(vec![
        DynamicObject::new("a", &gvk),
        nameless("foo"),
    ])));
    let registered = kufu::schema::Factory::Pod(PodControllerFactory).build(pod_meta());
    assert!(registered.can_process(&Event::Applied(pod("foo", "alpha", ""))));
    assert!(!registered.can_process(&Event::Applied(homeless())));
}
