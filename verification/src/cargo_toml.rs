//! The manifest model: a package's identity, its version and its three
//! dependency tables, together with the mathematical view of each type.
//!
//! A dependency table maps each dependency name to its description; no name
//! stands twice in a table.

use crate::table::Table;
use vstd::prelude::*;

verus! {

/// The text of an optional string.
pub open spec fn text_of(s: Option<String>) -> Option<Seq<char>> {
    match s {
        Some(s) => Some(s@),
        None => None,
    }
}

/// The texts of an optional list of strings.
pub open spec fn texts_of(s: Option<Vec<String>>) -> Option<Seq<Seq<char>>> {
    match s {
        Some(v) => Some(v.deep_view()),
        None => None,
    }
}

/// What a dependency description says, as plain values.
pub struct DependencyView {
    pub version: Option<Seq<char>>,
    pub features: Option<Seq<Seq<char>>>,
    pub default_features: Option<bool>,
    pub path: Option<Seq<char>>,
    pub registry: Option<Seq<char>>,
    pub package: Option<Seq<char>>,
    pub git: Option<Seq<char>>,
    pub branch: Option<Seq<char>>,
}

/// A dependency table as plain values: the description under each name.
pub type TableView = Map<Seq<char>, DependencyView>;

/// A package's identity as plain values.
pub struct PackageView {
    pub version: Seq<char>,
    pub name: Seq<char>,
    pub description: Option<Seq<char>>,
    pub edition: Option<Seq<char>>,
    pub authors: Option<Seq<Seq<char>>>,
}

/// A package manifest as plain values.
pub struct CargoView {
    pub dependencies: TableView,
    pub dev_dependencies: TableView,
    pub build_dependencies: TableView,
    pub package: PackageView,
    pub package_root: Seq<char>,
}

/// The description that names a version and nothing else.
pub open spec fn version_only(version: Seq<char>) -> DependencyView {
    DependencyView {
        version: Some(version),
        features: None,
        default_features: None,
        path: None,
        registry: None,
        package: None,
        git: None,
        branch: None,
    }
}

/// The description that says nothing.
pub open spec fn empty_description() -> DependencyView {
    DependencyView {
        version: None,
        features: None,
        default_features: None,
        path: None,
        registry: None,
        package: None,
        git: None,
        branch: None,
    }
}

/// The member list of a workspace manifest.
#[derive(Clone, Debug, PartialEq, Eq)]
pub struct WsCargoToml {
    pub members: Vec<String>,
}

/// A workspace manifest: the root file that lists the member package roots.
#[derive(Clone, Debug, PartialEq, Eq)]
pub struct WorkspaceCargoToml {
    pub workspace: WsCargoToml,
}

/// A dependency as a manifest may write it: a bare version string, or a
/// table of fields.
#[derive(Clone, Debug, PartialEq, Eq)]
pub enum DependencyRaw {
    Single(String),
    Structured(DependencyDescription),
}

/// A package manifest as it is read, before its dependencies are normalized.
/// A table that the manifest leaves out is `None`.
#[derive(Clone, Debug, PartialEq, Eq)]
pub struct PackageToml {
    pub dependencies: Option<Table<DependencyRaw>>,
    pub dev_dependencies: Option<Table<DependencyRaw>>,
    pub build_dependencies: Option<Table<DependencyRaw>>,
    pub package: PackageDescription,
}

/// A package's identity: its name, its version, and fields that are carried
/// along unchanged.
#[derive(Clone, Debug, PartialEq, Eq)]
pub struct PackageDescription {
    pub version: String,
    pub name: String,
    pub description: Option<String>,
    pub edition: Option<String>,
    pub authors: Option<Vec<String>>,
}

/// One dependency in its canonical shape.
#[derive(Clone, Debug, PartialEq, Eq)]
pub struct DependencyDescription {
    pub version: Option<String>,
    pub features: Option<Vec<String>>,
    pub default_features: Option<bool>,
    pub path: Option<String>,
    pub registry: Option<String>,
    pub package: Option<String>,
    pub git: Option<String>,
    pub branch: Option<String>,
}

/// A package manifest with normalized dependency tables, and the root of the
/// package relative to the workspace root.
#[derive(Clone, Debug, PartialEq, Eq)]
pub struct Cargo {
    pub dependencies: Table<DependencyDescription>,
    pub dev_dependencies: Table<DependencyDescription>,
    pub build_dependencies: Table<DependencyDescription>,
    pub package: PackageDescription,
    pub package_root: String,
}

impl View for DependencyDescription {
    type V = DependencyView;

    open spec fn view(&self) -> DependencyView {
        DependencyView {
            version: text_of(self.version),
            features: texts_of(self.features),
            default_features: self.default_features,
            path: text_of(self.path),
            registry: text_of(self.registry),
            package: text_of(self.package),
            git: text_of(self.git),
            branch: text_of(self.branch),
        }
    }
}

impl View for PackageDescription {
    type V = PackageView;

    open spec fn view(&self) -> PackageView {
        PackageView {
            version: self.version@,
            name: self.name@,
            description: text_of(self.description),
            edition: text_of(self.edition),
            authors: texts_of(self.authors),
        }
    }
}

/// A dependency table as plain values.
pub open spec fn table_view(table: Table<DependencyDescription>) -> TableView {
    table@.map_values(|description: DependencyDescription| description@)
}

impl View for Cargo {
    type V = CargoView;

    open spec fn view(&self) -> CargoView {
        CargoView {
            dependencies: table_view(self.dependencies),
            dev_dependencies: table_view(self.dev_dependencies),
            build_dependencies: table_view(self.build_dependencies),
            package: self.package@,
            package_root: self.package_root@,
        }
    }
}

/// A list of manifests as plain values.
pub open spec fn workspace_view(packages: Seq<Cargo>) -> Seq<CargoView> {
    Seq::new(packages.len(), |i: int| packages[i]@)
}

/// What a raw dependency normalizes to: a bare version string gives the
/// description that names that version and nothing else, a table stands as
/// it is.
pub open spec fn normalized(raw: DependencyRaw) -> DependencyView {
    match raw {
        DependencyRaw::Single(version) => version_only(version@),
        DependencyRaw::Structured(description) => description@,
    }
}

/// A raw dependency table normalized entry by entry.
pub open spec fn normalized_table(table: Table<DependencyRaw>) -> TableView {
    table@.map_values(|raw: DependencyRaw| normalized(raw))
}

/// A raw table that may be left out, normalized; a table left out is empty.
pub open spec fn normalized_or_empty(table: Option<Table<DependencyRaw>>) -> TableView {
    match table {
        Some(t) => normalized_table(t),
        None => Map::empty(),
    }
}

impl Default for DependencyDescription {
    fn default() -> (d: DependencyDescription)
        ensures
            d@ == empty_description(),
    {
        DependencyDescription {
            version: None,
            features: None,
            default_features: None,
            path: None,
            registry: None,
            package: None,
            git: None,
            branch: None,
        }
    }
}

/// Brings a raw dependency into its canonical shape.
pub fn normalize(raw: DependencyRaw) -> (description: DependencyDescription)
    ensures
        description@ == normalized(raw),
{
    match raw {
        DependencyRaw::Single(version) => DependencyDescription {
            version: Some(version),
            features: None,
            default_features: None,
            path: None,
            registry: None,
            package: None,
            git: None,
            branch: None,
        },
        DependencyRaw::Structured(description) => description,
    }
}

/// Normalizes every entry of a raw dependency table. The names and their
/// order stay as they are.
pub fn convert_dependency(deps: Table<DependencyRaw>) -> (table: Table<DependencyDescription>)
    ensures
        table_view(table) == normalized_table(deps),
        table.names() == deps.names(),
        table.well_formed(),
{
    let ghost names = deps.names();
    let ghost values = deps.values();
    let entries = deps.into_entries();
    let ghost given = entries@;
    let mut table: Table<DependencyDescription> = Table::new();
    for entry in it: entries
        invariant
            it.seq() == given,
            given.len() == names.len(),
            names.no_duplicates(),
            forall|j: int|
                0 <= j < given.len() ==> (#[trigger] given[j]).0@ == names[j] && given[j].1
                    == values[j],
            table.well_formed(),
            table.names() == names.take(it.index()),
            forall|j: int|
                0 <= j < it.index() ==> (#[trigger] table.values()[j])@ == normalized(values[j]),
    {
        let ghost done = table.values();
        let (name, raw) = entry;
        proof {
            assert(given[it.index()].0@ == names[it.index()]);
            if table@.dom().contains(name@) {
                let k = choose|k: int| 0 <= k < it.index() && names.take(it.index())[k] == name@;
                assert(names[k] == names[it.index()]);
            }
        }
        table.insert(name, normalize(raw));
        proof {
            assert(table.names() =~= names.take(it.index() + 1));
            assert forall|j: int| 0 <= j < it.index() + 1 implies (#[trigger] table.values()[j])@
                == normalized(values[j]) by {
                if j < it.index() {
                    assert(table.values()[j] == done[j]);
                }
            }
        }
    }
    proof {
        assert(names.take(names.len() as int) =~= names);
        assert forall|n: Seq<char>| #[trigger] deps@.dom().contains(n) implies table_view(table)[n]
            == normalized_table(deps)[n] by {
            let k = choose|k: int| 0 <= k < names.len() && names[k] == n;
            assert(table@[table.names()[k]] == table.values()[k]);
            assert(deps@[deps.names()[k]] == deps.values()[k]);
        }
        assert(table_view(table) =~= normalized_table(deps));
    }
    table
}

/// Builds the manifest of the package at `package_root` from what was read
/// of it: each table is normalized, and a table left out becomes empty.
pub fn package_from_manifest(manifest: PackageToml, package_root: String) -> (cargo: Cargo)
    ensures
        cargo@ == (CargoView {
            dependencies: normalized_or_empty(manifest.dependencies),
            dev_dependencies: normalized_or_empty(manifest.dev_dependencies),
            build_dependencies: normalized_or_empty(manifest.build_dependencies),
            package: manifest.package@,
            package_root: package_root@,
        }),
{
    let PackageToml { dependencies, dev_dependencies, build_dependencies, package } = manifest;
    Cargo {
        dependencies: convert_or_empty(dependencies),
        dev_dependencies: convert_or_empty(dev_dependencies),
        build_dependencies: convert_or_empty(build_dependencies),
        package,
        package_root,
    }
}

/// Normalizes a table that may be left out.
fn convert_or_empty(table: Option<Table<DependencyRaw>>) -> (out: Table<DependencyDescription>)
    ensures
        table_view(out) == normalized_or_empty(table),
{
    match table {
        Some(t) => convert_dependency(t),
        None => {
            let out: Table<DependencyDescription> = Table::new();
            assert(table_view(out) =~= Map::empty());
            out
        },
    }
}

} // verus!
