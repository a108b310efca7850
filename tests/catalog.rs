use kuqu::descriptor::ResourceDescriptor;
use kuqu::discover::{
    assemble_catalog, drop_subresources, fill_core_version, fill_group_version, split_once_at,
    CoreVersionListing, DiscoveryError, GroupVersionListing,
};

fn bare(name: &str, kind: &str) -> ResourceDescriptor {
    ResourceDescriptor {
        group: None,
        version: None,
        kind: kind.to_string(),
        name: name.to_string(),
        singular_name: String::new(),
        short_names: Vec::new(),
        namespaced: true,
    }
}

#[test]
fn grouped_listing_takes_group_and_version() {
    let out = fill_group_version(&vec![bare("deployments", "Deployment")], "apps/v1");
    assert_eq!(out[0].group.as_deref(), Some("apps"));
    assert_eq!(out[0].version.as_deref(), Some("v1"));
    assert_eq!(out[0].name, "deployments");
}

#[test]
fn group_version_without_slash_leaves_descriptor() {
    let out = fill_group_version(&vec![bare("things", "Thing")], "v1");
    assert_eq!(out[0].group, None);
    assert_eq!(out[0].version, None);
}

#[test]
fn core_listing_takes_core_group() {
    let out = fill_core_version(&vec![bare("pods", "Pod")], "v1");
    assert_eq!(out[0].group.as_deref(), Some("core"));
    assert_eq!(out[0].version.as_deref(), Some("v1"));
}

#[test]
fn split_once_at_first_separator() {
    assert_eq!(split_once_at("a/b/c", '/'), Some(("a".to_string(), "b/c".to_string())));
    assert_eq!(split_once_at("abc", '/'), None);
    assert_eq!(split_once_at("/x", '/'), Some((String::new(), "x".to_string())));
}

#[test]
fn subresources_never_reach_the_catalog() {
    let ds = vec![bare("pods", "Pod"), bare("pods/log", "Pod"), bare("nodes", "Node"), bare("pods/exec", "Pod")];
    let out = drop_subresources(&ds);
    let names: Vec<&str> = out.iter().map(|d| d.name.as_str()).collect();
    assert_eq!(names, vec!["pods", "nodes"]);
}

#[test]
fn catalog_joins_grouped_then_core() {
    let groups = vec![
        GroupVersionListing {
            group_version: "apps/v1".to_string(),
            resources: Some(vec![bare("deployments", "Deployment"), bare("deployments/scale", "Scale")]),
        },
        GroupVersionListing { group_version: "broken/v1".to_string(), resources: None },
    ];
    let core = vec![CoreVersionListing { version: "v1".to_string(), resources: Some(vec![bare("pods", "Pod")]) }];
    let cat = assemble_catalog(&groups, &core).unwrap();
    assert_eq!(cat.len(), 2);
    assert_eq!(cat[0].name, "deployments");
    assert_eq!(cat[0].group.as_deref(), Some("apps"));
    assert_eq!(cat[1].name, "pods");
    assert_eq!(cat[1].group.as_deref(), Some("core"));
}

#[test]
fn failed_core_listing_fails_discovery() {
    let core = vec![
        CoreVersionListing { version: "v1".to_string(), resources: Some(vec![bare("pods", "Pod")]) },
        CoreVersionListing { version: "v2".to_string(), resources: None },
        CoreVersionListing { version: "v3".to_string(), resources: None },
    ];
    let r = assemble_catalog(&Vec::new(), &core);
    assert_eq!(r.err(), Some(DiscoveryError::CoreVersionFailed(1)));
}

#[test]
fn empty_discovery_gives_empty_catalog() {
    let cat = assemble_catalog(&Vec::new(), &Vec::new()).unwrap();
    assert!(cat.is_empty());
}

#[test]
fn api_version_of_core_and_grouped() {
    let core = fill_core_version(&vec![bare("pods", "Pod")], "v1");
    assert_eq!(core[0].api_version(), "v1");
    assert_eq!(core[0].api_group(), "");
    let apps = fill_group_version(&vec![bare("deployments", "Deployment")], "apps/v1");
    assert_eq!(apps[0].api_version(), "apps/v1");
    assert_eq!(apps[0].api_group(), "apps");
}

#[test]
fn duplicate_keeps_every_field() {
    let mut d = bare("pods", "Pod");
    d.short_names = vec!["po".to_string()];
    d.group = Some("core".to_string());
    let c = d.duplicate();
    assert_eq!(c.short_names, vec!["po".to_string()]);
    assert_eq!(c.group.as_deref(), Some("core"));
    assert_eq!(c.kind, "Pod");
}
