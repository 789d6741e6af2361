//! The version propagator.
//!
//! One new version is stamped onto every affected package and onto every
//! entry of a normal dependency table that names an affected package of the
//! workspace. Affectedness is always judged against a reference snapshot
//! that is not written to, so the order in which packages and entries are
//! visited makes no difference. Development and build tables are never
//! rewritten.

use crate::cargo_toml::{
    table_view, workspace_view, Cargo, CargoView, DependencyDescription, DependencyView,
    PackageView, TableView,
};
use crate::change_set::ChangeSet;
use crate::options::Options;
use crate::resolver::{
    affected, affected_marks, affected_packages, find_package, is_changed_given,
    lemma_affected_by_graph_alone, lemma_names_package_by_graph,
    lemma_package_affected_by_graph_alone, lemma_same_graph_symmetric, names_package,
    package_affected, same_graph, same_names,
};
use crate::table::Table;
use vstd::prelude::*;

verus! {

/// An entry called `name` is rewritten when `name` is borne by a package of
/// the workspace and that package is affected, or every package counts as
/// affected.
pub open spec fn entry_bumped(
    name: Seq<char>,
    ws: Seq<CargoView>,
    files: Set<Seq<char>>,
    replace_all: bool,
) -> bool {
    exists|j: int| #[trigger] names_package(ws, name, j) && (replace_all || affected(ws, files, j))
}

/// A description with its version set to `version`.
pub open spec fn with_version(description: DependencyView, version: Seq<char>) -> DependencyView {
    DependencyView { version: Some(version), ..description }
}

/// The description under `name` after propagation.
pub open spec fn updated_description(
    name: Seq<char>,
    description: DependencyView,
    ws: Seq<CargoView>,
    files: Set<Seq<char>>,
    version: Seq<char>,
    replace_all: bool,
) -> DependencyView {
    if entry_bumped(name, ws, files, replace_all) {
        with_version(description, version)
    } else {
        description
    }
}

/// A normal dependency table after propagation: the same names, each with
/// its description updated.
pub open spec fn updated_table(
    table: TableView,
    ws: Seq<CargoView>,
    files: Set<Seq<char>>,
    version: Seq<char>,
    replace_all: bool,
) -> TableView {
    Map::new(
        |name: Seq<char>| table.dom().contains(name),
        |name: Seq<char>| updated_description(name, table[name], ws, files, version, replace_all),
    )
}

/// A package after propagation against the reference snapshot `ws`.
pub open spec fn updated_package(
    pkg: CargoView,
    ws: Seq<CargoView>,
    files: Set<Seq<char>>,
    version: Seq<char>,
    replace_all: bool,
) -> CargoView {
    CargoView {
        dependencies: updated_table(pkg.dependencies, ws, files, version, replace_all),
        package: if replace_all || package_affected(pkg, files, ws) {
            PackageView { version: version, ..pkg.package }
        } else {
            pkg.package
        },
        ..pkg
    }
}

/// A list of packages after propagation against the reference snapshot
/// `ws`.
pub open spec fn propagated(
    packages: Seq<CargoView>,
    ws: Seq<CargoView>,
    files: Set<Seq<char>>,
    version: Seq<char>,
    replace_all: bool,
) -> Seq<CargoView> {
    Seq::new(
        packages.len(),
        |i: int| updated_package(packages[i], ws, files, version, replace_all),
    )
}

/// Without the override, a package that is not affected keeps its version,
/// and with it its whole identity.
pub proof fn lemma_unaffected_version_stays(
    pkg: CargoView,
    ws: Seq<CargoView>,
    files: Set<Seq<char>>,
    version: Seq<char>,
)
    requires
        !package_affected(pkg, files, ws),
    ensures
        updated_package(pkg, ws, files, version, false).package == pkg.package,
{
}

/// Propagation never rewrites a development or build table, whatever the
/// packages they name, and never moves a package root.
pub proof fn lemma_dev_and_build_tables_stay(
    pkg: CargoView,
    ws: Seq<CargoView>,
    files: Set<Seq<char>>,
    version: Seq<char>,
    replace_all: bool,
)
    ensures
        updated_package(pkg, ws, files, version, replace_all).dev_dependencies
            == pkg.dev_dependencies,
        updated_package(pkg, ws, files, version, replace_all).build_dependencies
            == pkg.build_dependencies,
        updated_package(pkg, ws, files, version, replace_all).package_root == pkg.package_root,
{
}

/// Some package of the workspace is called `name`.
pub open spec fn in_workspace(ws: Seq<CargoView>, name: Seq<char>) -> bool {
    exists|j: int| 0 <= j < ws.len() && (#[trigger] ws[j]).package.name == name
}

/// With the override every package has the new version, and so has every
/// entry of a normal dependency table that names a package of the
/// workspace, whatever the changes are. An entry that names no package of
/// the workspace is left as it was, and no entry comes or goes.
pub proof fn lemma_replace_all_bumps_everything(
    packages: Seq<CargoView>,
    ws: Seq<CargoView>,
    files: Set<Seq<char>>,
    version: Seq<char>,
    i: int,
    name: Seq<char>,
)
    requires
        0 <= i < packages.len(),
        packages[i].dependencies.dom().contains(name),
    ensures
        propagated(packages, ws, files, version, true)[i].package.version == version,
        propagated(packages, ws, files, version, true)[i].dependencies.dom()
            == packages[i].dependencies.dom(),
        in_workspace(ws, name) ==> propagated(
            packages,
            ws,
            files,
            version,
            true,
        )[i].dependencies[name] == with_version(packages[i].dependencies[name], version),
        !in_workspace(ws, name) ==> propagated(
            packages,
            ws,
            files,
            version,
            true,
        )[i].dependencies[name] == packages[i].dependencies[name],
{
    let after = propagated(packages, ws, files, version, true)[i].dependencies;
    assert(after.dom() =~= packages[i].dependencies.dom());
    if in_workspace(ws, name) {
        let j = choose|j: int| 0 <= j < ws.len() && (#[trigger] ws[j]).package.name == name;
        let first = lemma_first_named(ws, name, j);
        assert(names_package(ws, name, first));
    }
}

/// Where some package bears `name`, a first one does.
proof fn lemma_first_named(ws: Seq<CargoView>, name: Seq<char>, j: int) -> (first: int)
    requires
        0 <= j < ws.len(),
        ws[j].package.name == name,
    ensures
        names_package(ws, name, first),
        first <= j,
    decreases j,
{
    if exists|h: int| 0 <= h < j && (#[trigger] ws[h]).package.name == name {
        let h = choose|h: int| 0 <= h < j && (#[trigger] ws[h]).package.name == name;
        lemma_first_named(ws, name, h)
    } else {
        j
    }
}

/// Propagation changes versions only: its result has the dependency graph
/// that it started from.
pub proof fn lemma_propagation_keeps_graph(
    packages: Seq<CargoView>,
    ws: Seq<CargoView>,
    files: Set<Seq<char>>,
    version: Seq<char>,
    replace_all: bool,
)
    ensures
        same_graph(packages, propagated(packages, ws, files, version, replace_all)),
{
}

/// Whether an entry is rewritten rests on the dependency graph alone.
proof fn lemma_entry_bumped_by_graph(
    name: Seq<char>,
    a: Seq<CargoView>,
    b: Seq<CargoView>,
    files: Set<Seq<char>>,
    replace_all: bool,
)
    requires
        same_graph(a, b),
        entry_bumped(name, a, files, replace_all),
    ensures
        entry_bumped(name, b, files, replace_all),
{
    let j = choose|j: int|
        #[trigger] names_package(a, name, j) && (replace_all || affected(a, files, j));
    lemma_names_package_by_graph(a, b, name, j);
    lemma_affected_by_graph_alone(a, b, files, j);
    assert(names_package(b, name, j) && (replace_all || affected(b, files, j)));
}

/// A second pass with the same changes and the same new version, judged
/// against the workspace as the first pass left it, changes nothing more.
pub proof fn lemma_propagation_is_idempotent(
    ws: Seq<CargoView>,
    files: Set<Seq<char>>,
    version: Seq<char>,
    replace_all: bool,
)
    ensures
        propagated(
            propagated(ws, ws, files, version, replace_all),
            propagated(ws, ws, files, version, replace_all),
            files,
            version,
            replace_all,
        ) == propagated(ws, ws, files, version, replace_all),
{
    let once = propagated(ws, ws, files, version, replace_all);
    let twice = propagated(once, once, files, version, replace_all);
    lemma_propagation_keeps_graph(ws, ws, files, version, replace_all);
    lemma_same_graph_symmetric(ws, once);
    assert forall|i: int| 0 <= i < once.len() implies twice[i] == once[i] by {
        assert(same_names(ws[i].dependencies, once[i].dependencies));
        lemma_package_affected_by_graph_alone(ws[i], once[i], ws, once, files);
        let s = once[i].dependencies;
        let t = twice[i].dependencies;
        assert forall|name: Seq<char>| s.dom().contains(name) implies #[trigger] t[name]
            == s[name] by {
            if entry_bumped(name, once, files, replace_all) {
                lemma_entry_bumped_by_graph(name, once, ws, files, replace_all);
            }
            if entry_bumped(name, ws, files, replace_all) {
                lemma_entry_bumped_by_graph(name, ws, once, files, replace_all);
            }
        }
        assert(t =~= s);
    }
    assert(twice =~= once);
}

/// `update_dependency`, for a caller that holds the marks of the workspace.
/// With the override the marks are not read.
fn update_dependency_given(
    deps: &mut Table<DependencyDescription>,
    file_set: &ChangeSet,
    packages_in_workspace: &[Cargo],
    marks: &Vec<bool>,
    options: &Options,
)
    requires
        options.replace_all || marks@ == affected_marks(
            workspace_view(packages_in_workspace@),
            file_set@,
        ),
    ensures
        table_view(*final(deps)) == updated_table(
            table_view(*old(deps)),
            workspace_view(packages_in_workspace@),
            file_set@,
            options.new_version@,
            options.replace_all,
        ),
        final(deps).names() == old(deps).names(),
        final(deps).well_formed(),
{
    let ghost files = file_set@;
    let ghost ws = workspace_view(packages_in_workspace@);
    let ghost version = options.new_version@;
    let n = deps.len();
    let ghost names = deps.names();
    let ghost given = deps.values();
    let ghost given_view = table_view(*deps);
    let mut k: usize = 0;
    while k < n
        invariant
            k <= n,
            n == names.len(),
            given.len() == n,
            deps.names() == names,
            deps.well_formed(),
            ws == workspace_view(packages_in_workspace@),
            options.replace_all || marks@ == affected_marks(ws, files),
            files == file_set@,
            version == options.new_version@,
            forall|e: int|
                0 <= e < k ==> (#[trigger] deps.values()[e])@ == updated_description(
                    names[e],
                    given[e]@,
                    ws,
                    files,
                    version,
                    options.replace_all,
                ),
            forall|e: int| k <= e < n ==> #[trigger] deps.values()[e] == given[e],
        decreases n - k,
    {
        let ghost before = deps.values();
        let bump = match find_package(packages_in_workspace, deps.name(k)) {
            Some(j) => options.replace_all || marks[j],
            None => false,
        };
        assert(bump == entry_bumped(names[k as int], ws, files, options.replace_all));
        if bump {
            let mut description = deps.replace(k, DependencyDescription::default());
            description.version = Some(options.new_version.clone());
            deps.replace(k, description);
        }
        proof {
            assert forall|e: int| 0 <= e < n && e != k implies deps.values()[e] == before[e] by {}
        }
        k += 1;
    }
    proof {
        let after = table_view(*deps);
        let wanted = updated_table(given_view, ws, files, version, options.replace_all);
        assert(after.dom() =~= wanted.dom());
        assert forall|name: Seq<char>| after.dom().contains(name) implies #[trigger] after[name]
            == wanted[name] by {
            assert(names.to_set().contains(name));
            let e = choose|e: int| 0 <= e < names.len() && names[e] == name;
            assert(deps@[deps.names()[e]] == deps.values()[e]);
        }
        assert(after =~= wanted);
    }
}

/// Stamps the new version onto every entry of the normal dependency table
/// `deps` that names a package of the workspace which is affected, or any
/// package of the workspace when every package counts as affected. The
/// names, the other fields and the entries that name no package of the
/// workspace stay as they are.
pub fn update_dependency(
    deps: &mut Table<DependencyDescription>,
    file_set: &ChangeSet,
    packages_in_workspace: &[Cargo],
    options: &Options,
)
    ensures
        table_view(*final(deps)) == updated_table(
            table_view(*old(deps)),
            workspace_view(packages_in_workspace@),
            file_set@,
            options.new_version@,
            options.replace_all,
        ),
        final(deps).names() == old(deps).names(),
{
    let marks = if options.replace_all {
        Vec::new()
    } else {
        affected_packages(packages_in_workspace, file_set)
    };
    update_dependency_given(deps, file_set, packages_in_workspace, &marks, options);
}

/// Runs one propagation pass over `packages`, judging affectedness against
/// the snapshot `reference`, which is not written to: every package that is
/// affected, or every package when all count as affected, gets the new
/// version, and its normal dependency table is updated as
/// `update_dependency` does it. With the override nothing is resolved.
pub fn propagate(
    packages: &mut Vec<Cargo>,
    reference: &[Cargo],
    file_set: &ChangeSet,
    options: &Options,
)
    ensures
        workspace_view(final(packages)@) == propagated(
            workspace_view(old(packages)@),
            workspace_view(reference@),
            file_set@,
            options.new_version@,
            options.replace_all,
        ),
{
    let ghost ws = workspace_view(reference@);
    let ghost files = file_set@;
    let ghost given = workspace_view(packages@);
    let marks = if options.replace_all {
        Vec::new()
    } else {
        affected_packages(reference, file_set)
    };
    let n = packages.len();
    let mut i: usize = 0;
    while i < n
        invariant
            i <= n,
            n == packages@.len(),
            given.len() == n,
            ws == workspace_view(reference@),
            files == file_set@,
            options.replace_all || marks@ == affected_marks(ws, files),
            forall|p: int|
                0 <= p < i ==> #[trigger] workspace_view(packages@)[p] == updated_package(
                    given[p],
                    ws,
                    files,
                    options.new_version@,
                    options.replace_all,
                ),
            forall|p: int| i <= p < n ==> #[trigger] workspace_view(packages@)[p] == given[p],
        decreases n - i,
    {
        let ghost before = workspace_view(packages@);
        assert(before[i as int] == given[i as int]);
        let changed = options.replace_all || is_changed_given(
            &packages[i],
            file_set,
            reference,
            &marks,
        );
        if changed {
            packages[i].package.version = options.new_version.clone();
        }
        update_dependency_given(
            &mut packages[i].dependencies,
            file_set,
            reference,
            &marks,
            options,
        );
        proof {
            let after = workspace_view(packages@);
            assert forall|p: int| 0 <= p < n && p != i implies after[p] == before[p] by {}
            assert(after[i as int].dependencies == updated_table(
                given[i as int].dependencies,
                ws,
                files,
                options.new_version@,
                options.replace_all,
            ));
        }
        i += 1;
    }
    assert(workspace_view(packages@) =~= propagated(
        given,
        ws,
        files,
        options.new_version@,
        options.replace_all,
    ));
}

} // verus!
