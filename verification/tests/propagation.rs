use workspace_bump::cargo_toml::{Cargo, DependencyDescription, PackageDescription};
use workspace_bump::change_set::ChangeSet;
use workspace_bump::options::Options;
use workspace_bump::propagate::{propagate, update_dependency};
use workspace_bump::table::Table;

fn versioned(version: &str) -> DependencyDescription {
    DependencyDescription { version: Some(version.to_string()), ..DependencyDescription::default() }
}

fn table(entries: &[(&str, &str)]) -> Table<DependencyDescription> {
    Table::from_entries(entries.iter().map(|(n, v)| (n.to_string(), versioned(v))).collect())
}

fn package(name: &str, deps: &[&str], dev: &[&str], build: &[&str]) -> Cargo {
    let at_first = |names: &[&str]| -> Table<DependencyDescription> {
        Table::from_entries(names.iter().map(|n| (n.to_string(), versioned("0.1.0"))).collect())
    };
    Cargo {
        dependencies: at_first(deps),
        dev_dependencies: at_first(dev),
        build_dependencies: at_first(build),
        package: PackageDescription {
            version: "0.1.0".to_string(),
            name: name.to_string(),
            description: None,
            edition: None,
            authors: None,
        },
        package_root: format!("crates/{}", name),
    }
}

fn changes(paths: &[&str]) -> ChangeSet {
    let mut set = ChangeSet::new();
    for p in paths {
        set.insert(p.to_string());
    }
    set
}

fn options(new_version: &str, replace_all: bool) -> Options {
    Options::new("v0.1.0".to_string(), new_version.to_string(), None, replace_all)
}

fn run(ws: &[Cargo], paths: &[&str], new_version: &str, replace_all: bool) -> Vec<Cargo> {
    let mut packages = ws.to_vec();
    propagate(&mut packages, ws, &changes(paths), &options(new_version, replace_all));
    packages
}

fn version_of(table: &Table<DependencyDescription>, name: &str) -> Option<String> {
    table.get(&name.to_string()).expect("the entry is there").version.clone()
}

#[test]
fn change_in_dependency_bumps_both_packages_and_the_edge() {
    let ws = vec![package("a", &["b"], &[], &[]), package("b", &[], &[], &[])];
    let out = run(&ws, &["crates/b/src/lib.rs"], "0.2.0", false);
    assert_eq!(out[1].package.version, "0.2.0");
    assert_eq!(out[0].package.version, "0.2.0");
    assert_eq!(out[0].dependencies.len(), 1);
    assert_eq!(version_of(&out[0].dependencies, "b"), Some("0.2.0".to_string()));
}

#[test]
fn change_outside_every_root_changes_nothing() {
    let ws = vec![package("a", &["b"], &[], &[]), package("b", &[], &[], &[])];
    let out = run(&ws, &["docs/intro.md"], "0.2.0", false);
    assert_eq!(out, ws);
}

#[test]
fn dev_dependency_on_changed_package_bumps_only_the_changed_package() {
    let ws = vec![package("a", &[], &["b"], &[]), package("b", &[], &[], &[])];
    let out = run(&ws, &["crates/b/src/lib.rs"], "0.2.0", false);
    assert_eq!(out[1].package.version, "0.2.0");
    assert_eq!(out[0].package.version, "0.1.0");
    assert_eq!(version_of(&out[0].dev_dependencies, "b"), Some("0.1.0".to_string()));
    assert_eq!(out[0], ws[0]);
}

#[test]
fn build_and_dev_tables_are_never_rewritten() {
    let ws = vec![package("a", &["b"], &["b"], &["b"]), package("b", &[], &[], &[])];
    let out = run(&ws, &["crates/b/src/lib.rs"], "0.2.0", false);
    assert_eq!(version_of(&out[0].dependencies, "b"), Some("0.2.0".to_string()));
    assert_eq!(out[0].dev_dependencies, ws[0].dev_dependencies);
    assert_eq!(out[0].build_dependencies, ws[0].build_dependencies);
    let out = run(&ws, &[], "0.3.0", true);
    assert_eq!(version_of(&out[0].dependencies, "b"), Some("0.3.0".to_string()));
    assert_eq!(out[0].dev_dependencies, ws[0].dev_dependencies);
    assert_eq!(out[0].build_dependencies, ws[0].build_dependencies);
}

#[test]
fn unaffected_package_keeps_its_version() {
    let ws = vec![
        package("a", &["b"], &[], &[]),
        package("b", &[], &[], &[]),
        package("c", &["serde"], &[], &[]),
    ];
    let out = run(&ws, &["crates/b/src/lib.rs"], "0.2.0", false);
    assert_eq!(out[2], ws[2]);
    assert_eq!(out[2].package.version, "0.1.0");
}

#[test]
fn replace_all_bumps_every_package_and_every_internal_edge() {
    let ws = vec![
        package("a", &["b", "serde"], &[], &[]),
        package("b", &["c"], &[], &[]),
        package("c", &[], &[], &[]),
    ];
    let out = run(&ws, &[], "1.0.0", true);
    for p in &out {
        assert_eq!(p.package.version, "1.0.0");
    }
    assert_eq!(version_of(&out[0].dependencies, "b"), Some("1.0.0".to_string()));
    assert_eq!(version_of(&out[0].dependencies, "serde"), Some("0.1.0".to_string()));
    assert_eq!(out[0].dependencies.len(), 2);
    assert_eq!(version_of(&out[1].dependencies, "c"), Some("1.0.0".to_string()));
    let with_changes = run(&ws, &["crates/c/x.rs", "elsewhere"], "1.0.0", true);
    assert_eq!(with_changes, out);
}

#[test]
fn second_pass_changes_nothing_more() {
    let ws = vec![
        package("a", &["b"], &["c"], &[]),
        package("b", &[], &[], &[]),
        package("c", &["serde"], &[], &["a"]),
    ];
    let once = run(&ws, &["crates/b/src/lib.rs"], "0.2.0", false);
    let twice = run(&once, &["crates/b/src/lib.rs"], "0.2.0", false);
    assert_eq!(twice, once);
    let once = run(&ws, &[], "0.2.0", true);
    let twice = run(&once, &[], "0.2.0", true);
    assert_eq!(twice, once);
}

#[test]
fn edge_gets_a_version_even_where_it_had_none() {
    let mut a = package("a", &[], &[], &[]);
    a.dependencies.insert(
        "b".to_string(),
        DependencyDescription {
            path: Some("../b".to_string()),
            features: Some(vec!["std".to_string()]),
            default_features: Some(false),
            ..DependencyDescription::default()
        },
    );
    let ws = vec![a, package("b", &[], &[], &[])];
    let out = run(&ws, &["crates/b/src/lib.rs"], "0.2.0", false);
    let edge = out[0].dependencies.get(&"b".to_string()).unwrap();
    assert_eq!(edge.version, Some("0.2.0".to_string()));
    assert_eq!(edge.path, Some("../b".to_string()));
    assert_eq!(edge.features, Some(vec!["std".to_string()]));
    assert_eq!(edge.default_features, Some(false));
    assert_eq!(edge.registry, None);
    assert_eq!(edge.package, None);
    assert_eq!(edge.git, None);
    assert_eq!(edge.branch, None);
}

#[test]
fn edge_to_unaffected_package_keeps_its_version() {
    let ws = vec![
        package("a", &["b", "c"], &[], &[]),
        package("b", &[], &[], &[]),
        package("c", &[], &[], &[]),
    ];
    let out = run(&ws, &["crates/c/src/lib.rs"], "0.2.0", false);
    assert_eq!(out[0].package.version, "0.2.0");
    assert_eq!(version_of(&out[0].dependencies, "b"), Some("0.1.0".to_string()));
    assert_eq!(version_of(&out[0].dependencies, "c"), Some("0.2.0".to_string()));
    assert_eq!(out[1], ws[1]);
}

#[test]
fn affectedness_is_judged_against_the_reference_snapshot() {
    let ws = vec![package("a", &["b"], &[], &[]), package("b", &[], &[], &[])];
    let reference = vec![package("a", &[], &[], &[]), package("b", &[], &[], &[])];
    let mut packages = ws.clone();
    propagate(&mut packages, &reference, &changes(&["crates/a/x.rs"]), &options("0.2.0", false));
    assert_eq!(packages[0].package.version, "0.2.0");
    assert_eq!(packages[1].package.version, "0.1.0");
    assert_eq!(version_of(&packages[0].dependencies, "b"), Some("0.1.0".to_string()));
    let mut packages = vec![package("x", &["a"], &[], &[])];
    packages[0].package_root = "tools/x".to_string();
    propagate(&mut packages, &reference, &changes(&["crates/a/x.rs"]), &options("0.2.0", false));
    assert_eq!(packages[0].package.version, "0.2.0");
    assert_eq!(version_of(&packages[0].dependencies, "a"), Some("0.2.0".to_string()));
}

#[test]
fn update_dependency_rewrites_entries_that_name_affected_packages() {
    let ws = vec![
        package("a", &["b"], &[], &[]),
        package("b", &[], &[], &[]),
        package("c", &[], &[], &[]),
    ];
    let mut deps = table(&[("c", "0.1.0"), ("a", "0.1.0"), ("rand", "0.8"), ("b", "^0.1")]);
    update_dependency(&mut deps, &changes(&["crates/b/src/lib.rs"]), &ws, &options("0.2.0", false));
    assert_eq!(deps, table(&[("c", "0.1.0"), ("a", "0.2.0"), ("rand", "0.8"), ("b", "0.2.0")]));
}

#[test]
fn update_dependency_with_replace_all_spares_outside_names() {
    let ws = vec![package("a", &[], &[], &[]), package("b", &[], &[], &[])];
    let mut deps = table(&[("a", "0.1.0"), ("rand", "0.8"), ("b", "0.1.0")]);
    update_dependency(&mut deps, &changes(&[]), &ws, &options("2.0.0", true));
    assert_eq!(deps, table(&[("a", "2.0.0"), ("rand", "0.8"), ("b", "2.0.0")]));
    let mut empty: Table<DependencyDescription> = Table::new();
    update_dependency(&mut empty, &changes(&[]), &ws, &options("2.0.0", true));
    assert_eq!(empty.len(), 0);
}

#[test]
fn cycle_is_bumped_as_a_whole() {
    let ws = vec![package("a", &["b"], &[], &[]), package("b", &["a"], &[], &[]), package("c", &[], &[], &[])];
    let out = run(&ws, &["crates/a/src/lib.rs"], "0.2.0", false);
    assert_eq!(out[0].package.version, "0.2.0");
    assert_eq!(out[1].package.version, "0.2.0");
    assert_eq!(version_of(&out[0].dependencies, "b"), Some("0.2.0".to_string()));
    assert_eq!(version_of(&out[1].dependencies, "a"), Some("0.2.0".to_string()));
    assert_eq!(out[2], ws[2]);
}
