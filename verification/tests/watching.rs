use kufu::config::KubeConfig;
use kufu::controller::{NamespaceControllerFactory, PodControllerFactory};
use kufu::kube::watcher::{kubeconfig_source, parse_gvk, ApiConfig, KubeconfigSource, TypeMeta, Watcher};
use kufu::schema::{register, same_gvk, Factory, Handler, Schema};
use kufu::utils::config::{
    can_select, get_current_kubeconfig_options, Context, KubeConfigOptions, Kubeconfig,
    NamedContext,
};
use kufu::{ApiCapabilities, GroupVersionKind, Scope};

fn type_meta(api_version: &str, kind: &str) -> TypeMeta {
    TypeMeta { api_version: api_version.to_string(), kind: kind.to_string() }
}

#[test]
fn api_version_splits_at_its_first_slash() {
    assert_eq!(parse_gvk(&type_meta("v1", "Pod")), GroupVersionKind::gvk("", "v1", "Pod"));
    assert_eq!(
        parse_gvk(&type_meta("apps/v1", "Deployment")),
        GroupVersionKind::gvk("apps", "v1", "Deployment")
    );
    assert_eq!(parse_gvk(&type_meta("a/b/c", "K")), GroupVersionKind::gvk("a", "b/c", "K"));
    assert_eq!(parse_gvk(&type_meta("/v1", "K")), GroupVersionKind::gvk("", "v1", "K"));
    assert_eq!(parse_gvk(&type_meta("g/", "K")), GroupVersionKind::gvk("g", "", "K"));
    assert_eq!(parse_gvk(&type_meta("", "")), GroupVersionKind::gvk("", "", ""));
}

#[test]
fn api_version_splits_as_the_cluster_client_splits_it() {
    for api_version in ["v1", "apps/v1", "a/b/c", "/v1", "g/", "", "caf\u{e9}/v\u{4e2d}", "//"] {
        let ours = parse_gvk(&type_meta(api_version, "Kind"));
        let theirs = kube::core::GroupVersionKind::try_from(&kube::core::TypeMeta {
            api_version: api_version.to_string(),
            kind: "Kind".to_string(),
        })
        .unwrap();
        assert_eq!(ours.group, theirs.group);
        assert_eq!(ours.version, theirs.version);
        assert_eq!(ours.kind, theirs.kind);
        assert_eq!(ours.api_version(), theirs.api_version());
    }
}

#[test]
fn schemas_are_compared_by_all_three_parts() {
    let pod = GroupVersionKind::gvk("", "v1", "Pod");
    assert!(same_gvk(&pod, &GroupVersionKind::gvk("", "v1", "Pod")));
    assert!(!same_gvk(&pod, &GroupVersionKind::gvk("", "v1", "Node")));
    assert!(!same_gvk(&pod, &GroupVersionKind::gvk("", "v2", "Pod")));
    assert!(!same_gvk(&pod, &GroupVersionKind::gvk("core", "v1", "Pod")));
}

#[test]
fn standard_registry_holds_pods_and_namespaces() {
    let schema = Schema::standard();
    assert_eq!(schema.len(), 2);
    assert_eq!(
        schema.dispatcher(&GroupVersionKind::gvk("", "v1", "Pod")),
        Some(Factory::Pod(PodControllerFactory))
    );
    assert_eq!(
        schema.dispatcher(&GroupVersionKind::gvk("", "v1", "Namespace")),
        Some(Factory::Namespace(NamespaceControllerFactory))
    );
    assert_eq!(schema.dispatcher(&GroupVersionKind::gvk("", "v1", "Node")), None);
    assert_eq!(schema.dispatcher(&GroupVersionKind::gvk("apps", "v1", "Pod")), None);
}

#[test]
fn registering_a_kind_again_replaces_its_factory() {
    let mut schema = Schema::new();
    assert_eq!(schema.len(), 0);
    let node = GroupVersionKind::gvk("", "v1", "Node");
    register(&mut schema, node.clone(), Factory::Pod(PodControllerFactory));
    register(
        &mut schema,
        GroupVersionKind::gvk("", "v1", "Pod"),
        Factory::Pod(PodControllerFactory),
    );
    assert_eq!(schema.len(), 2);
    register(&mut schema, node.clone(), Factory::Namespace(NamespaceControllerFactory));
    assert_eq!(schema.len(), 2);
    assert_eq!(schema.dispatcher(&node), Some(Factory::Namespace(NamespaceControllerFactory)));
    assert_eq!(
        schema.dispatcher(&GroupVersionKind::gvk("", "v1", "Pod")),
        Some(Factory::Pod(PodControllerFactory))
    );
}

fn namespaced() -> ApiCapabilities {
    ApiCapabilities { scope: Scope::Namespaced }
}

fn cluster() -> ApiCapabilities {
    ApiCapabilities { scope: Scope::Cluster }
}

#[test]
fn pool_holds_each_schema_once() {
    let mut watcher = Watcher::new(vec![
        type_meta("v1", "Pod"),
        type_meta("v1", "Namespace"),
        type_meta("v1", "Pod"),
    ]);
    assert!(watcher.watch_pool.is_empty());
    watcher.build_api_pool(vec![namespaced(), cluster(), cluster()]);
    assert_eq!(
        watcher.watch_pool,
        vec![
            ApiConfig { caps: cluster(), gvk: GroupVersionKind::gvk("", "v1", "Pod") },
            ApiConfig { caps: cluster(), gvk: GroupVersionKind::gvk("", "v1", "Namespace") },
        ]
    );
    assert_eq!(watcher.r.len(), 3);
}

#[test]
fn watch_builds_a_handler_for_each_kind() {
    let mut watcher = Watcher::new(vec![type_meta("v1", "Namespace"), type_meta("v1", "Pod")]);
    watcher.build_api_pool(vec![cluster(), namespaced()]);
    let schema = Schema::standard();
    assert!(watcher.handlers_registered(&schema));
    let handlers = watcher.watch(&schema);
    assert_eq!(handlers.len(), 2);
    match &handlers[0] {
        Handler::Namespace(h) => {
            assert_eq!(h.meta.cluster, "default");
            assert_eq!(h.meta.gvk, GroupVersionKind::gvk("", "v1", "Namespace"));
            assert_eq!(h.meta.caps, cluster());
        }
        Handler::Pod(_) => panic!("the first kind is the namespace"),
    }
    match &handlers[1] {
        Handler::Pod(h) => {
            assert_eq!(h.meta.cluster, "default");
            assert_eq!(h.meta.gvk, GroupVersionKind::gvk("", "v1", "Pod"));
            assert_eq!(h.meta.caps, namespaced());
        }
        Handler::Namespace(_) => panic!("the second kind is the pod"),
    }
}

#[test]
fn watch_needs_a_handler_for_every_kind() {
    let schema = Schema::standard();
    let mut one = Watcher::new(vec![type_meta("v1", "Pod")]);
    one.build_api_pool(vec![namespaced()]);
    assert!(!one.handlers_registered(&schema));
    let mut other = Watcher::new(vec![type_meta("v1", "Pod"), type_meta("apps/v1", "Deployment")]);
    other.build_api_pool(vec![namespaced(), namespaced()]);
    assert!(!other.handlers_registered(&schema));
    let unresolved = Watcher::new(vec![type_meta("v1", "Pod"), type_meta("v1", "Namespace")]);
    assert!(unresolved.handlers_registered(&schema));
    assert!(unresolved.watch(&schema).is_empty());
}

#[test]
fn embedded_kubeconfig_wins_over_the_file() {
    let both = KubeConfig { config_path: Some("/k".to_string()), raw: Some("raw".to_string()) };
    assert_eq!(kubeconfig_source(&both), Some(KubeconfigSource::Raw("raw".to_string())));
    let raw = KubeConfig { config_path: None, raw: Some("raw".to_string()) };
    assert_eq!(kubeconfig_source(&raw), Some(KubeconfigSource::Raw("raw".to_string())));
    let file = KubeConfig { config_path: Some("/k".to_string()), raw: None };
    assert_eq!(kubeconfig_source(&file), Some(KubeconfigSource::File("/k".to_string())));
    let neither = KubeConfig { config_path: None, raw: None };
    assert_eq!(kubeconfig_source(&neither), None);
}

fn named(name: &str, cluster: &str, user: &str) -> NamedContext {
    NamedContext {
        name: name.to_string(),
        context: Some(Context { cluster: cluster.to_string(), user: user.to_string() }),
    }
}

#[test]
fn options_select_the_current_context() {
    let kubeconfig = Kubeconfig {
        contexts: vec![
            named("dev", "dev-cluster", "dev-user"),
            named("prod", "prod-cluster", "prod-user"),
            named("prod", "shadowed", "shadowed"),
        ],
        current_context: Some("prod".to_string()),
    };
    assert_eq!(
        get_current_kubeconfig_options(&kubeconfig),
        KubeConfigOptions {
            context: Some("prod".to_string()),
            cluster: Some("prod-cluster".to_string()),
            user: Some("prod-cluster".to_string()),
        }
    );
}

#[test]
fn options_of_an_unknown_context_name_no_cluster() {
    let unknown = Kubeconfig {
        contexts: vec![named("dev", "dev-cluster", "dev-user")],
        current_context: Some("prod".to_string()),
    };
    assert_eq!(
        get_current_kubeconfig_options(&unknown),
        KubeConfigOptions { context: Some("prod".to_string()), cluster: None, user: None }
    );
    let empty = Kubeconfig { contexts: Vec::new(), current_context: None };
    assert_eq!(
        get_current_kubeconfig_options(&empty),
        KubeConfigOptions { context: None, cluster: None, user: None }
    );
}

#[test]
fn kubeconfig_must_say_which_context_is_in_use() {
    let empty = Kubeconfig { contexts: Vec::new(), current_context: None };
    assert!(can_select(&empty));
    let silent = Kubeconfig { contexts: vec![named("dev", "c", "u")], current_context: None };
    assert!(!can_select(&silent));
    let unknown = Kubeconfig {
        contexts: vec![named("dev", "c", "u")],
        current_context: Some("prod".to_string()),
    };
    assert!(can_select(&unknown));
    let hollow = Kubeconfig {
        contexts: vec![
            NamedContext { name: "dev".to_string(), context: None },
            named("dev", "c", "u"),
        ],
        current_context: Some("dev".to_string()),
    };
    assert!(!can_select(&hollow));
    let sound = Kubeconfig {
        contexts: vec![named("dev", "c", "u"), NamedContext { name: "dev".to_string(), context: None }],
        current_context: Some("dev".to_string()),
    };
    assert!(can_select(&sound));
}
