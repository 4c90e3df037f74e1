use cargo_easy_dep::engine::{update_member_manifest, update_root_manifest};
use cargo_easy_dep::error::ManifestError;
use cargo_easy_dep::inventory::QualifyingDependency;
use toml_edit::DocumentMut;

fn q(name: &str, req: &str) -> QualifyingDependency {
    QualifyingDependency { name: name.to_string(), req: req.to_string() }
}

fn parse(text: &str) -> DocumentMut {
    text.parse::<DocumentMut>().unwrap()
}

#[test]
fn member_rewrite_covers_string_and_inline_variants() {
    let deps = vec![q("foo", "1.0"), q("bar", "2.0")];
    let member = "[package]\nname = \"m\"\n\n[dependencies]\nfoo = \"1.0\"\nbar = { version = \"2.0\", features = [\"x\"] }\n";
    let out = update_member_manifest(member, &deps).unwrap().unwrap();
    let doc = parse(&out);
    let foo = doc["dependencies"]["foo"].as_inline_table().unwrap();
    assert_eq!(foo.len(), 1);
    assert_eq!(foo.get("workspace").unwrap().as_bool(), Some(true));
    let bar = doc["dependencies"]["bar"].as_inline_table().unwrap();
    assert!(bar.get("version").is_none());
    assert_eq!(bar.get("workspace").unwrap().as_bool(), Some(true));
    let features = bar.get("features").unwrap().as_array().unwrap();
    assert_eq!(features.len(), 1);
    assert_eq!(features.get(0).unwrap().as_str(), Some("x"));

    let root = "[workspace]\nmembers = [\"m\"]\n";
    let out = update_root_manifest(root, &deps).unwrap().unwrap();
    let doc = parse(&out);
    assert_eq!(doc["workspace"]["dependencies"]["foo"].as_str(), Some("1.0"));
    assert_eq!(doc["workspace"]["dependencies"]["bar"].as_str(), Some("2.0"));
}

#[test]
fn root_keeps_an_existing_pin() {
    let deps = vec![q("serde", "1.0.100"), q("log", "0.4")];
    let root = "[workspace]\nmembers = [\"a\"]\n\n[workspace.dependencies]\nserde = { version = \"=1.0.5\", features = [\"derive\"] }\n";
    let out = update_root_manifest(root, &deps).unwrap().unwrap();
    let doc = parse(&out);
    let serde = doc["workspace"]["dependencies"]["serde"].as_inline_table().unwrap();
    assert_eq!(serde.get("version").unwrap().as_str(), Some("=1.0.5"));
    assert_eq!(doc["workspace"]["dependencies"]["log"].as_str(), Some("0.4"));
    assert!(out.contains("serde = { version = \"=1.0.5\", features = [\"derive\"] }"));
}

#[test]
fn root_without_workspace_gains_the_shared_table() {
    let deps = vec![q("anyhow", "1")];
    let root = "# top comment\n[package]\nname = \"r\"\n";
    let out = update_root_manifest(root, &deps).unwrap().unwrap();
    assert!(out.starts_with("# top comment\n[package]\nname = \"r\"\n"));
    let doc = parse(&out);
    assert_eq!(doc["workspace"]["dependencies"]["anyhow"].as_str(), Some("1"));
}

#[test]
fn second_run_changes_nothing() {
    let deps = vec![q("foo", "1.0"), q("bar", "2.0")];
    let root = "[workspace]\nmembers = [\"m\"]\n";
    let root1 = update_root_manifest(root, &deps).unwrap().unwrap();
    assert!(update_root_manifest(&root1, &deps).unwrap().is_none());

    let member = "[dependencies]\nfoo = \"1.0\"\nbar = { version = \"2.0\", optional = true }\n\n[dev-dependencies.foo]\nversion = \"1.0\"\n";
    let member1 = update_member_manifest(member, &deps).unwrap().unwrap();
    assert!(update_member_manifest(&member1, &deps).unwrap().is_none());
}

#[test]
fn unrelated_regions_are_byte_identical() {
    let deps = vec![q("foo", "1.0")];
    let head = "# Project manifest\n[package]\nversion = \"0.1.0\"   # bumped by hand\nname = \"m\"\nedition = \"2021\"\n\n";
    let tail = "\n# features below\n[features]\nzeta = []\nalpha = [\"zeta\"] # keep order\n";
    let member = format!("{}[dependencies]\nfoo = \"1.0\"\n{}", head, tail);
    let out = update_member_manifest(&member, &deps).unwrap().unwrap();
    assert!(out.starts_with(head));
    assert!(out.ends_with(tail));
}

#[test]
fn block_entry_loses_version_and_gains_marker() {
    let deps = vec![q("foo", "1.0")];
    let member = "[build-dependencies.foo]\nversion = \"1.0\"\ndefault-features = false\n";
    let out = update_member_manifest(member, &deps).unwrap().unwrap();
    let doc = parse(&out);
    let foo = doc["build-dependencies"]["foo"].as_table().unwrap();
    assert!(foo.get("version").is_none());
    assert_eq!(foo.get("workspace").unwrap().as_bool(), Some(true));
    assert_eq!(foo.get("default-features").unwrap().as_bool(), Some(false));
}

#[test]
fn false_marker_is_flipped() {
    let deps = vec![q("foo", "1.0")];
    let member = "[dependencies]\nfoo = { workspace = false, features = [\"a\"] }\n";
    let out = update_member_manifest(member, &deps).unwrap().unwrap();
    let doc = parse(&out);
    assert_eq!(doc["dependencies"]["foo"]["workspace"].as_bool(), Some(true));
}

#[test]
fn target_list_blocks_are_each_rewritten() {
    let deps = vec![q("foo", "1.0")];
    let member = "[[dependencies.foo]]\nversion = \"1.0\"\n\n[[dependencies.foo]]\nversion = \"1.0\"\nfeatures = [\"b\"]\n";
    let out = update_member_manifest(member, &deps).unwrap().unwrap();
    let doc = parse(&out);
    let list = doc["dependencies"]["foo"].as_array_of_tables().unwrap();
    assert_eq!(list.len(), 2);
    for t in list.iter() {
        assert!(t.get("version").is_none());
        assert_eq!(t.get("workspace").unwrap().as_bool(), Some(true));
    }
    assert!(list.get(1).unwrap().get("features").is_some());
}

#[test]
fn local_path_entry_and_other_names_stay_untouched() {
    let deps = vec![q("foo", "1.0")];
    let member = "[dependencies]\nfoo = { path = \"../foo\", version = \"1.0\" }\nbaz = \"3\"\n";
    assert!(update_member_manifest(member, &deps).unwrap().is_none());
}

#[test]
fn member_without_dependency_tables_is_unchanged() {
    let deps = vec![q("foo", "1.0")];
    assert!(update_member_manifest("[package]\nname = \"x\"\n", &deps).unwrap().is_none());
}

#[test]
fn dependencies_scalar_is_a_schema_error() {
    let deps = vec![q("foo", "1.0")];
    match update_member_manifest("dependencies = 3\n", &deps) {
        Err(ManifestError::Schema { key }) => assert_eq!(key, "dependencies"),
        other => panic!("unexpected: {:?}", other),
    }
}

#[test]
fn dev_dependencies_scalar_fails_before_any_change() {
    let deps = vec![q("foo", "1.0")];
    match update_member_manifest("dev-dependencies = \"x\"\n[dependencies]\nfoo = \"1.0\"\n", &deps) {
        Err(ManifestError::Schema { key }) => assert_eq!(key, "dev-dependencies"),
        other => panic!("unexpected: {:?}", other),
    }
}

#[test]
fn unexpected_entry_shape_is_malformed() {
    let deps = vec![q("foo", "1.0")];
    match update_member_manifest("[dependencies]\nfoo = 1\n", &deps) {
        Err(ManifestError::MalformedDeclaration { name }) => assert_eq!(name, "foo"),
        other => panic!("unexpected: {:?}", other),
    }
}

#[test]
fn non_boolean_marker_is_malformed() {
    let deps = vec![q("foo", "1.0")];
    match update_member_manifest("[dependencies]\nfoo = { workspace = \"yes\" }\n", &deps) {
        Err(ManifestError::MalformedDeclaration { name }) => assert_eq!(name, "foo"),
        other => panic!("unexpected: {:?}", other),
    }
}

#[test]
fn invalid_text_is_a_parse_error() {
    let deps = vec![q("foo", "1.0")];
    assert!(matches!(update_member_manifest("[dependencies\nfoo = ", &deps), Err(ManifestError::Parse(_))));
    assert!(matches!(update_root_manifest("= =", &deps), Err(ManifestError::Parse(_))));
}

#[test]
fn workspace_scalar_is_a_schema_error() {
    let deps = vec![q("foo", "1.0")];
    match update_root_manifest("workspace = 1\n", &deps) {
        Err(ManifestError::Schema { key }) => assert_eq!(key, "workspace"),
        other => panic!("unexpected: {:?}", other),
    }
    match update_root_manifest("[workspace]\ndependencies = [1]\n", &deps) {
        Err(ManifestError::Schema { key }) => assert_eq!(key, "workspace.dependencies"),
        other => panic!("unexpected: {:?}", other),
    }
}

#[test]
fn root_with_every_name_present_is_unchanged() {
    let deps = vec![q("foo", "1.0")];
    let root = "[workspace.dependencies]\nfoo = \"0.9\"\n";
    assert!(update_root_manifest(root, &deps).unwrap().is_none());
}

#[test]
fn version_beside_true_marker_is_not_a_modification() {
    let deps = vec![q("foo", "1.0")];
    let member = "[dependencies]\nfoo = { version = \"1.0\", workspace = true }\n";
    assert!(update_member_manifest(member, &deps).unwrap().is_none());
}

#[test]
fn version_is_dropped_when_marker_is_inserted() {
    let deps = vec![q("foo", "1.0")];
    let member = "[dependencies]\nfoo = { version = \"1.0\", optional = true }\n";
    let out = update_member_manifest(member, &deps).unwrap().unwrap();
    let doc = parse(&out);
    assert!(doc["dependencies"]["foo"].get("version").is_none());
    assert_eq!(doc["dependencies"]["foo"]["optional"].as_bool(), Some(true));
    assert_eq!(doc["dependencies"]["foo"]["workspace"].as_bool(), Some(true));
}

#[test]
fn root_with_nothing_to_insert_is_not_modified() {
    let deps: Vec<QualifyingDependency> = Vec::new();
    assert!(update_root_manifest("[package]\nname = \"r\"\n", &deps).unwrap().is_none());
}

#[test]
fn duplicate_names_in_the_set_rewrite_once() {
    let deps = vec![q("foo", "1.0"), q("foo", "9.9")];
    let root = update_root_manifest("[workspace]\n", &deps).unwrap().unwrap();
    assert_eq!(parse(&root)["workspace"]["dependencies"]["foo"].as_str(), Some("1.0"));
    let member = update_member_manifest("[dependencies]\nfoo = \"1.0\"\n", &deps).unwrap().unwrap();
    assert_eq!(parse(&member)["dependencies"]["foo"]["workspace"].as_bool(), Some(true));
}

#[test]
fn other_attributes_keep_values_and_order() {
    let deps = vec![q("bar", "2.0")];
    let member = "[dependencies]\nbar = { version = \"2.0\", features = [\"x\", \"y\"], optional = true, package = \"bar-core\" }\n";
    let out = update_member_manifest(member, &deps).unwrap().unwrap();
    let doc = parse(&out);
    let bar = doc["dependencies"]["bar"].as_inline_table().unwrap();
    let keys: Vec<&str> = bar.iter().map(|(k, _)| k).collect();
    assert_eq!(keys, vec!["features", "optional", "package", "workspace"]);
    assert!(out.contains("features = [\"x\", \"y\"]"));
    assert_eq!(bar.get("package").unwrap().as_str(), Some("bar-core"));
}

#[test]
fn rewritten_entry_keeps_its_position() {
    let deps = vec![q("foo", "1.0")];
    let member = "[dependencies]\na = \"1\"\nfoo = \"1.0\"\nz = { version = \"2\" }\n";
    let out = update_member_manifest(member, &deps).unwrap().unwrap();
    let doc = parse(&out);
    let keys: Vec<&str> = doc["dependencies"].as_table().unwrap().iter().map(|(k, _)| k).collect();
    assert_eq!(keys, vec!["a", "foo", "z"]);
    assert!(out.contains("a = \"1\"\n"));
    assert!(out.contains("z = { version = \"2\" }\n"));
}

#[test]
fn new_shared_entries_come_after_existing_ones() {
    let deps = vec![q("c", "3"), q("a", "9"), q("d", "4")];
    let root = "[workspace.dependencies]\nb = \"1\"\na = { version = \"2\", default-features = false }\n";
    let out = update_root_manifest(root, &deps).unwrap().unwrap();
    let doc = parse(&out);
    let keys: Vec<&str> = doc["workspace"]["dependencies"].as_table().unwrap().iter().map(|(k, _)| k).collect();
    assert_eq!(keys, vec!["b", "a", "c", "d"]);
    assert!(out.contains("a = { version = \"2\", default-features = false }"));
}

#[test]
fn inline_shared_table_is_a_schema_error() {
    let deps = vec![q("foo", "1.0")];
    match update_root_manifest("[workspace]\ndependencies = { bar = \"1\" }\n", &deps) {
        Err(ManifestError::Schema { key }) => assert_eq!(key, "workspace.dependencies"),
        other => panic!("unexpected: {:?}", other),
    }
}
