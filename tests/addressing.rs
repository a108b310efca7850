use kuqu::descriptor::{find_resource, match_resource, ResourceDescriptor};
use kuqu::url::{determine_namespace, ContextEntry, KubernetesUrl, ParseError};

fn descriptor(group: &str, version: &str, kind: &str, name: &str, singular: &str, short: &[&str], namespaced: bool) -> ResourceDescriptor {
    ResourceDescriptor {
        group: Some(group.to_string()),
        version: Some(version.to_string()),
        kind: kind.to_string(),
        name: name.to_string(),
        singular_name: singular.to_string(),
        short_names: short.iter().map(|s| s.to_string()).collect(),
        namespaced,
    }
}

fn catalog() -> Vec<ResourceDescriptor> {
    vec![
        descriptor("core", "v1", "Pod", "pods", "pod", &["po"], true),
        descriptor("core", "v1", "Node", "node", "node", &["no"], false),
        descriptor("apps", "v1", "Deployment", "deployments", "deployment", &["deploy"], true),
    ]
}

fn team_a_contexts() -> Vec<ContextEntry> {
    vec![
        ContextEntry { name: "other".to_string(), namespace: Some("elsewhere".to_string()) },
        ContextEntry { name: "dev".to_string(), namespace: Some("team-a".to_string()) },
    ]
}

#[test]
fn short_name_takes_context_default_namespace() {
    let url = KubernetesUrl::parse("po", "dev", &team_a_contexts(), &catalog()).ok().unwrap();
    assert_eq!(url.resource.name, "pods");
    assert_eq!(url.namespace, "team-a");
}

#[test]
fn explicit_namespace_kept_for_cluster_scoped_resource() {
    let url = KubernetesUrl::parse("node/anything", "dev", &team_a_contexts(), &catalog()).ok().unwrap();
    assert_eq!(url.resource.name, "node");
    assert!(!url.resource.namespaced);
    assert_eq!(url.namespace, "anything");
}

#[test]
fn empty_address_is_refused() {
    let r = KubernetesUrl::parse("", "dev", &team_a_contexts(), &catalog());
    assert!(matches!(r, Err(ParseError::EmptyUrl)));
}

#[test]
fn three_segments_are_refused() {
    let r = KubernetesUrl::parse("a/b/c", "dev", &team_a_contexts(), &catalog());
    match r {
        Err(e) => assert_eq!(e, ParseError::InvalidFormat("a/b/c".to_string())),
        Ok(_) => panic!("three segments must not resolve"),
    }
}

#[test]
fn trailing_slashes_count_as_segments() {
    let r = KubernetesUrl::parse("pods//", "dev", &team_a_contexts(), &catalog());
    match r {
        Err(e) => assert_eq!(e, ParseError::InvalidFormat("pods//".to_string())),
        Ok(_) => panic!("three segments must not resolve"),
    }
}

#[test]
fn unknown_resource_is_named() {
    let r = KubernetesUrl::parse("widgets/ns", "dev", &team_a_contexts(), &catalog());
    match r {
        Err(e) => assert_eq!(e, ParseError::ResourceNotFound("widgets".to_string())),
        Ok(_) => panic!("no such resource"),
    }
}

#[test]
fn bare_name_without_context_default_uses_default() {
    let url = KubernetesUrl::parse("deploy", "missing", &team_a_contexts(), &catalog()).ok().unwrap();
    assert_eq!(url.resource.kind, "Deployment");
    assert_eq!(url.namespace, "default");
    let none: Vec<ContextEntry> = Vec::new();
    let url = KubernetesUrl::parse("pods", "dev", &none, &catalog()).ok().unwrap();
    assert_eq!(url.namespace, "default");
}

#[test]
fn context_without_namespace_falls_back() {
    let contexts = vec![ContextEntry { name: "dev".to_string(), namespace: None }];
    assert_eq!(determine_namespace(None, "dev", &contexts), "default");
}

#[test]
fn explicit_namespace_wins_over_context() {
    assert_eq!(determine_namespace(Some("ops".to_string()), "dev", &team_a_contexts()), "ops");
    assert_eq!(determine_namespace(None, "dev", &team_a_contexts()), "team-a");
}

#[test]
fn first_context_of_a_name_decides() {
    let contexts = vec![
        ContextEntry { name: "dev".to_string(), namespace: Some("first".to_string()) },
        ContextEntry { name: "dev".to_string(), namespace: Some("second".to_string()) },
    ];
    assert_eq!(determine_namespace(None, "dev", &contexts), "first");
}

#[test]
fn matching_is_exact() {
    let pods = descriptor("core", "v1", "Pod", "pods", "pod", &["po"], true);
    assert!(match_resource("pods", &pods));
    assert!(match_resource("pod", &pods));
    assert!(match_resource("po", &pods));
    assert!(match_resource("pods.core", &pods));
    assert!(!match_resource("p", &pods));
    assert!(!match_resource("Pods", &pods));
    assert!(!match_resource("pods.cor", &pods));
    assert!(!match_resource("pod.core", &pods));
    assert!(!match_resource("podsXcore", &pods));
    assert!(!match_resource("podss", &pods));
}

#[test]
fn qualified_name_needs_a_group() {
    let mut pods = descriptor("core", "v1", "Pod", "pods", "pod", &[], true);
    pods.group = None;
    assert!(!match_resource("pods.core", &pods));
    assert!(match_resource("pods", &pods));
}

#[test]
fn first_matching_descriptor_wins() {
    let ds = vec![
        descriptor("metrics.k8s.io", "v1beta1", "PodMetrics", "pods", "", &[], true),
        descriptor("core", "v1", "Pod", "pods", "pod", &["po"], true),
    ];
    let found = find_resource("pods", &ds).unwrap();
    assert_eq!(found.kind, "PodMetrics");
    let found = find_resource("po", &ds).unwrap();
    assert_eq!(found.kind, "Pod");
    assert!(find_resource("svc", &ds).is_none());
}

#[test]
fn qualified_address_with_namespace() {
    let url = KubernetesUrl::parse("deployments.apps/prod", "dev", &team_a_contexts(), &catalog()).ok().unwrap();
    assert_eq!(url.resource.kind, "Deployment");
    assert_eq!(url.namespace, "prod");
}

#[test]
fn parse_error_messages() {
    assert_eq!(ParseError::EmptyUrl.message(), "URL is empty");
    assert_eq!(
        ParseError::ResourceNotFound("widgets".to_string()).message(),
        "Resource 'widgets' not found"
    );
    let m = ParseError::InvalidFormat("a/b/c".to_string()).message();
    assert!(m.starts_with("Invalid URL format: a/b/c\n\nSupported formats:\n"));
    assert!(m.ends_with("namespace is ignored"));
}
