use cargo_easy_dep::analyzer::find_common_dependencies;
use cargo_easy_dep::inventory::{DeclaredDependency, ModuleDescriptor, QualifyingDependency, SourceKind};

fn dep(name: &str, req: &str, source: SourceKind) -> DeclaredDependency {
    DeclaredDependency { name: name.to_string(), req: req.to_string(), source }
}

fn module(id: &str, deps: Vec<DeclaredDependency>) -> ModuleDescriptor {
    ModuleDescriptor {
        id: id.to_string(),
        manifest_path: format!("{}/Cargo.toml", id),
        dependencies: deps,
    }
}

fn find<'a>(r: &'a [QualifyingDependency], name: &str) -> Option<&'a QualifyingDependency> {
    r.iter().find(|q| q.name == name)
}

#[test]
fn threshold_minus_one_does_not_qualify() {
    let mods = vec![
        module("a", vec![dep("serde", "1.0", SourceKind::Registry)]),
        module("b", vec![dep("serde", "1.0", SourceKind::Registry)]),
        module("c", vec![dep("log", "0.4", SourceKind::Registry)]),
    ];
    let r = find_common_dependencies(&mods, 3);
    assert!(find(&r, "serde").is_none());
    assert!(r.is_empty());
}

#[test]
fn exactly_threshold_qualifies() {
    let mods = vec![
        module("a", vec![dep("serde", "1.0", SourceKind::Registry)]),
        module("b", vec![dep("serde", "1.0", SourceKind::Registry)]),
        module("c", vec![dep("log", "0.4", SourceKind::Registry)]),
    ];
    let r = find_common_dependencies(&mods, 2);
    assert_eq!(r.len(), 1);
    assert_eq!(find(&r, "serde").unwrap().req, "1.0");
}

#[test]
fn representative_is_first_seen_requirement() {
    let mods = vec![
        module("a", vec![dep("rand", "0.7", SourceKind::Registry)]),
        module("b", vec![dep("rand", "0.8", SourceKind::Registry)]),
        module("c", vec![dep("rand", "0.9", SourceKind::Registry)]),
    ];
    for _ in 0..3 {
        let r = find_common_dependencies(&mods, 2);
        assert_eq!(r.len(), 1);
        assert_eq!(find(&r, "rand").unwrap().req, "0.7");
    }
}

#[test]
fn local_path_dependency_never_qualifies() {
    let mods = vec![
        module("a", vec![dep("shared", "*", SourceKind::LocalPath)]),
        module("b", vec![dep("shared", "*", SourceKind::LocalPath)]),
        module("c", vec![dep("shared", "*", SourceKind::LocalPath)]),
    ];
    let r = find_common_dependencies(&mods, 2);
    assert!(r.is_empty());
}

#[test]
fn other_sources_are_not_counted() {
    let mods = vec![
        module("a", vec![dep("gitdep", "*", SourceKind::Other), dep("log", "0.4", SourceKind::Registry)]),
        module("b", vec![dep("gitdep", "*", SourceKind::Other), dep("log", "0.4.1", SourceKind::Registry)]),
    ];
    let r = find_common_dependencies(&mods, 2);
    assert_eq!(r.len(), 1);
    assert_eq!(find(&r, "log").unwrap().req, "0.4");
}

#[test]
fn threshold_one_takes_every_registry_dependency_once() {
    let mods = vec![
        module("a", vec![dep("a1", "1", SourceKind::Registry), dep("b1", "2", SourceKind::Registry)]),
        module("b", vec![dep("a1", "3", SourceKind::Registry)]),
    ];
    let r = find_common_dependencies(&mods, 1);
    assert_eq!(r.len(), 2);
    assert_eq!(find(&r, "a1").unwrap().req, "1");
    assert_eq!(find(&r, "b1").unwrap().req, "2");
}

#[test]
fn empty_inventory_gives_empty_set() {
    let mods: Vec<ModuleDescriptor> = Vec::new();
    assert!(find_common_dependencies(&mods, 2).is_empty());
}
