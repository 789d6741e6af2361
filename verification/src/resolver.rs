//! The affected-set resolver.
//!
//! A package is affected when a changed file lies under its root, or when
//! it has a normal dependency on a workspace package that is affected.
//! Development and build dependencies play no part. Affectedness is the
//! least relation closed under these two rules, so a dependency cycle is
//! affected exactly when some package that the cycle reaches is changed
//! directly.

use crate::cargo_toml::{
    table_view, workspace_view, Cargo, CargoView, DependencyDescription, TableView,
};
use crate::change_set::{touches_root, ChangeSet};
use crate::table::Table;
use vstd::prelude::*;

verus! {

/// `i` is the index of the first package of `ws` that is called `name`.
/// A dependency name that no package bears points at nothing.
pub open spec fn names_package(ws: Seq<CargoView>, name: Seq<char>, i: int) -> bool {
    &&& 0 <= i < ws.len()
    &&& ws[i].package.name == name
    &&& forall|j: int| 0 <= j < i ==> (#[trigger] ws[j]).package.name != name
}

/// Some entry of `table` names the package at index `i` of `ws`.
pub open spec fn depends_on(table: TableView, ws: Seq<CargoView>, i: int) -> bool {
    exists|name: Seq<char>| table.dom().contains(name) && #[trigger] names_package(ws, name, i)
}

/// Some entry of `table` names a package of `ws` that `marks` holds true.
pub open spec fn depends_on_marked(table: TableView, ws: Seq<CargoView>, marks: Seq<bool>) -> bool {
    exists|j: int| #[trigger] depends_on(table, ws, j) && marks[j]
}

/// The package at index `i` is shown to be affected by a chain of at most
/// `depth` dependency steps that ends at a package with a changed file
/// under its root.
pub open spec fn affected_within(
    ws: Seq<CargoView>,
    files: Set<Seq<char>>,
    i: int,
    depth: nat,
) -> bool
    decreases depth,
{
    &&& 0 <= i < ws.len()
    &&& (touches_root(files, ws[i].package_root) || (depth > 0 && exists|j: int|
        #[trigger] depends_on(ws[i].dependencies, ws, j) && affected_within(
            ws,
            files,
            j,
            (depth - 1) as nat,
        )))
}

/// The package at index `i` of `ws` is affected by the changes `files`.
pub open spec fn affected(ws: Seq<CargoView>, files: Set<Seq<char>>, i: int) -> bool {
    exists|depth: nat| affected_within(ws, files, i, depth)
}

/// The package `pkg`, which need not be a member of `ws`, is affected: a
/// changed file lies under its root, or it has a normal dependency on an
/// affected package of `ws`.
pub open spec fn package_affected(pkg: CargoView, files: Set<Seq<char>>, ws: Seq<CargoView>) -> bool {
    touches_root(files, pkg.package_root) || exists|j: int|
        #[trigger] depends_on(pkg.dependencies, ws, j) && affected(ws, files, j)
}

/// The marks of a workspace: for each package, whether it is affected.
pub open spec fn affected_marks(ws: Seq<CargoView>, files: Set<Seq<char>>) -> Seq<bool> {
    Seq::new(ws.len(), |i: int| affected(ws, files, i))
}

/// A member of the workspace is affected exactly when a changed file lies
/// under its root or it has a normal dependency on an affected member.
pub proof fn lemma_affected_unfolds(ws: Seq<CargoView>, files: Set<Seq<char>>, i: int)
    ensures
        affected(ws, files, i) <==> 0 <= i < ws.len() && package_affected(ws[i], files, ws),
{
    if affected(ws, files, i) {
        let depth = choose|depth: nat| affected_within(ws, files, i, depth);
        if !touches_root(files, ws[i].package_root) {
            let j = choose|j: int|
                #[trigger] depends_on(ws[i].dependencies, ws, j) && affected_within(
                    ws,
                    files,
                    j,
                    (depth - 1) as nat,
                );
            assert(affected(ws, files, j));
        }
    }
    if 0 <= i < ws.len() && package_affected(ws[i], files, ws) {
        if touches_root(files, ws[i].package_root) {
            assert(affected_within(ws, files, i, 0));
        } else {
            let j = choose|j: int|
                #[trigger] depends_on(ws[i].dependencies, ws, j) && affected(ws, files, j);
            let depth = choose|depth: nat| affected_within(ws, files, j, depth);
            assert(affected_within(ws, files, i, depth + 1));
        }
    }
}

/// No two packages of the workspace bear the same name.
pub open spec fn distinct_names(ws: Seq<CargoView>) -> bool {
    forall|i: int, j: int|
        0 <= i < j < ws.len() ==> (#[trigger] ws[i]).package.name != (#[trigger] ws[j]).package.name
}

/// In a workspace with distinct names, a name points at the one package
/// that bears it.
pub proof fn lemma_distinct_names_point_exactly(ws: Seq<CargoView>, name: Seq<char>, i: int)
    requires
        distinct_names(ws),
    ensures
        names_package(ws, name, i) <==> 0 <= i < ws.len() && ws[i].package.name == name,
{
}

/// Two workspaces with the same graph have distinct names together.
pub proof fn lemma_graph_keeps_distinct_names(a: Seq<CargoView>, b: Seq<CargoView>)
    requires
        same_graph(a, b),
        distinct_names(a),
    ensures
        distinct_names(b),
{
    assert forall|i: int, j: int| 0 <= i < j < b.len() implies (#[trigger] b[i]).package.name != (
    #[trigger] b[j]).package.name by {
        assert(a[i].package.name == b[i].package.name);
        assert(a[j].package.name == b[j].package.name);
    }
}

/// Two tables hold the same names.
pub open spec fn same_names(a: TableView, b: TableView) -> bool {
    a.dom() =~= b.dom()
}

/// Two workspaces have the same dependency graph: package for package the
/// same name, the same root, and the same names in the normal dependency
/// table. Versions, the other fields of a description, and the development
/// and build tables may differ.
pub open spec fn same_graph(a: Seq<CargoView>, b: Seq<CargoView>) -> bool {
    &&& a.len() == b.len()
    &&& forall|i: int|
        #![trigger a[i]]
        #![trigger b[i]]
        0 <= i < a.len() ==> {
            &&& a[i].package.name == b[i].package.name
            &&& a[i].package_root == b[i].package_root
            &&& same_names(a[i].dependencies, b[i].dependencies)
        }
}

/// A name points at the same package in two workspaces with the same graph.
pub proof fn lemma_names_package_by_graph(
    a: Seq<CargoView>,
    b: Seq<CargoView>,
    name: Seq<char>,
    i: int,
)
    requires
        same_graph(a, b),
    ensures
        names_package(a, name, i) == names_package(b, name, i),
{
    if 0 <= i < a.len() {
        assert(a[i].package.name == b[i].package.name);
        if names_package(a, name, i) {
            assert forall|j: int| 0 <= j < i implies (#[trigger] b[j]).package.name != name by {
                assert(a[j].package.name == b[j].package.name);
            }
        }
        if names_package(b, name, i) {
            assert forall|j: int| 0 <= j < i implies (#[trigger] a[j]).package.name != name by {
                assert(a[j].package.name == b[j].package.name);
            }
        }
    }
}

/// Two tables with the same names depend on the same packages of two
/// workspaces with the same graph.
pub proof fn lemma_depends_on_by_graph(
    s: TableView,
    t: TableView,
    a: Seq<CargoView>,
    b: Seq<CargoView>,
    j: int,
)
    requires
        same_names(s, t),
        same_graph(a, b),
    ensures
        depends_on(s, a, j) == depends_on(t, b, j),
{
    if depends_on(s, a, j) {
        let name = choose|name: Seq<char>|
            s.dom().contains(name) && #[trigger] names_package(a, name, j);
        lemma_names_package_by_graph(a, b, name, j);
        assert(names_package(b, name, j));
    }
    if depends_on(t, b, j) {
        let name = choose|name: Seq<char>|
            t.dom().contains(name) && #[trigger] names_package(b, name, j);
        lemma_names_package_by_graph(a, b, name, j);
        assert(names_package(a, name, j));
    }
}

/// A chain that shows a package affected in one workspace shows it affected
/// in every workspace with the same graph.
proof fn lemma_affected_within_by_graph(
    a: Seq<CargoView>,
    b: Seq<CargoView>,
    files: Set<Seq<char>>,
    i: int,
    depth: nat,
)
    requires
        same_graph(a, b),
        affected_within(a, files, i, depth),
    ensures
        affected_within(b, files, i, depth),
    decreases depth,
{
    assert(a[i].package_root == b[i].package_root);
    if !touches_root(files, a[i].package_root) {
        let j = choose|j: int|
            #[trigger] depends_on(a[i].dependencies, a, j) && affected_within(
                a,
                files,
                j,
                (depth - 1) as nat,
            );
        lemma_affected_within_by_graph(a, b, files, j, (depth - 1) as nat);
        lemma_depends_on_by_graph(a[i].dependencies, b[i].dependencies, a, b, j);
    }
}

/// The graph is symmetric in its two workspaces.
pub proof fn lemma_same_graph_symmetric(a: Seq<CargoView>, b: Seq<CargoView>)
    requires
        same_graph(a, b),
    ensures
        same_graph(b, a),
{
    assert forall|i: int|
        #![trigger b[i]]
        #![trigger a[i]]
        0 <= i < b.len() implies {
        &&& b[i].package.name == a[i].package.name
        &&& b[i].package_root == a[i].package_root
        &&& same_names(b[i].dependencies, a[i].dependencies)
    } by {
        assert(same_names(a[i].dependencies, b[i].dependencies));
    }
}

/// Affectedness rests on the dependency graph and the changes alone. What
/// a workspace holds besides (versions, the development and build tables)
/// has no part in it: development and build dependencies never make a
/// package affected.
pub proof fn lemma_affected_by_graph_alone(
    a: Seq<CargoView>,
    b: Seq<CargoView>,
    files: Set<Seq<char>>,
    i: int,
)
    requires
        same_graph(a, b),
    ensures
        affected(a, files, i) == affected(b, files, i),
{
    lemma_same_graph_symmetric(a, b);
    if affected(a, files, i) {
        let depth = choose|depth: nat| affected_within(a, files, i, depth);
        lemma_affected_within_by_graph(a, b, files, i, depth);
    }
    if affected(b, files, i) {
        let depth = choose|depth: nat| affected_within(b, files, i, depth);
        lemma_affected_within_by_graph(b, a, files, i, depth);
    }
}

/// A package outside the workspace is judged by its root and the names in
/// its normal dependency table alone.
pub proof fn lemma_package_affected_by_graph_alone(
    p: CargoView,
    q: CargoView,
    a: Seq<CargoView>,
    b: Seq<CargoView>,
    files: Set<Seq<char>>,
)
    requires
        same_graph(a, b),
        p.package_root == q.package_root,
        same_names(p.dependencies, q.dependencies),
    ensures
        package_affected(p, files, a) == package_affected(q, files, b),
{
    assert forall|j: int|
        (#[trigger] depends_on(p.dependencies, a, j) && affected(a, files, j)) == (depends_on(
            q.dependencies,
            b,
            j,
        ) && affected(b, files, j)) by {
        lemma_depends_on_by_graph(p.dependencies, q.dependencies, a, b, j);
        lemma_affected_by_graph_alone(a, b, files, j);
    }
    if package_affected(p, files, a) && !touches_root(files, p.package_root) {
        let j = choose|j: int|
            #[trigger] depends_on(p.dependencies, a, j) && affected(a, files, j);
        assert(depends_on(q.dependencies, b, j) && affected(b, files, j));
    }
    if package_affected(q, files, b) && !touches_root(files, q.package_root) {
        let j = choose|j: int|
            #[trigger] depends_on(q.dependencies, b, j) && affected(b, files, j);
        lemma_depends_on_by_graph(p.dependencies, q.dependencies, a, b, j);
        lemma_affected_by_graph_alone(a, b, files, j);
        assert(depends_on(p.dependencies, a, j) && affected(a, files, j));
    }
}

/// A package with no changed file under its root and no normal dependency
/// on an affected package is not affected.
pub proof fn lemma_unaffected_without_cause(
    pkg: CargoView,
    files: Set<Seq<char>>,
    ws: Seq<CargoView>,
)
    requires
        !touches_root(files, pkg.package_root),
        forall|j: int| #[trigger] depends_on(pkg.dependencies, ws, j) ==> !affected(ws, files, j),
    ensures
        !package_affected(pkg, files, ws),
        forall|i: int| 0 <= i < ws.len() && ws[i] == pkg ==> !affected(ws, files, i),
{
    assert forall|i: int| 0 <= i < ws.len() && ws[i] == pkg implies !affected(ws, files, i) by {
        lemma_affected_unfolds(ws, files, i);
    }
}

/// A package with a changed file under its root is affected.
pub proof fn lemma_changed_root_is_affected(
    pkg: CargoView,
    files: Set<Seq<char>>,
    ws: Seq<CargoView>,
)
    requires
        touches_root(files, pkg.package_root),
    ensures
        package_affected(pkg, files, ws),
        forall|i: int| 0 <= i < ws.len() && ws[i] == pkg ==> affected(ws, files, i),
{
    assert forall|i: int| 0 <= i < ws.len() && ws[i] == pkg implies affected(ws, files, i) by {
        assert(affected_within(ws, files, i, 0));
    }
}

/// A package with a normal dependency on an affected package is affected.
pub proof fn lemma_affected_is_transitive(
    pkg: CargoView,
    files: Set<Seq<char>>,
    ws: Seq<CargoView>,
    q: int,
)
    requires
        depends_on(pkg.dependencies, ws, q),
        affected(ws, files, q),
    ensures
        package_affected(pkg, files, ws),
        forall|i: int| 0 <= i < ws.len() && ws[i] == pkg ==> affected(ws, files, i),
{
    assert forall|i: int| 0 <= i < ws.len() && ws[i] == pkg implies affected(ws, files, i) by {
        lemma_affected_unfolds(ws, files, i);
    }
}

/// `chain` is a path in the dependency graph: each of its packages has a
/// normal dependency on the next.
pub open spec fn is_chain(ws: Seq<CargoView>, chain: Seq<int>) -> bool {
    &&& chain.len() > 0
    &&& 0 <= chain[0] < ws.len()
    &&& forall|k: int|
        0 <= k < chain.len() - 1 ==> 0 <= #[trigger] chain[k] < ws.len() && depends_on(
            ws[chain[k]].dependencies,
            ws,
            chain[k + 1],
        )
}

/// Affectedness travels along a dependency chain of any length: when the
/// last package of a chain is affected, so is the first.
pub proof fn lemma_chain_carries_affected(
    ws: Seq<CargoView>,
    files: Set<Seq<char>>,
    chain: Seq<int>,
)
    requires
        is_chain(ws, chain),
        affected(ws, files, chain.last()),
    ensures
        affected(ws, files, chain[0]),
    decreases chain.len(),
{
    if chain.len() > 1 {
        let rest = chain.subrange(1, chain.len() as int);
        assert(depends_on(ws[chain[0]].dependencies, ws, chain[1]));
        assert(rest[0] == chain[1]);
        assert forall|k: int| 0 <= k < rest.len() - 1 implies 0 <= #[trigger] rest[k] < ws.len()
            && depends_on(ws[rest[k]].dependencies, ws, rest[k + 1]) by {
            assert(rest[k] == chain[k + 1]);
            assert(rest[k + 1] == chain[k + 2]);
        }
        assert(rest.last() == chain.last());
        lemma_chain_carries_affected(ws, files, rest);
        lemma_affected_is_transitive(ws[chain[0]], files, ws, chain[1]);
    }
}

/// The index of the first package called `name`, if there is one.
pub fn find_package(packages_in_workspace: &[Cargo], name: &String) -> (found: Option<usize>)
    ensures
        match found {
            Some(i) => names_package(workspace_view(packages_in_workspace@), name@, i as int),
            None => forall|i: int|
                0 <= i < packages_in_workspace@.len() ==> (#[trigger] workspace_view(
                    packages_in_workspace@,
                )[i]).package.name != name@,
        },
{
    let ghost ws = workspace_view(packages_in_workspace@);
    let mut i: usize = 0;
    while i < packages_in_workspace.len()
        invariant
            i <= packages_in_workspace@.len(),
            ws == workspace_view(packages_in_workspace@),
            forall|j: int| 0 <= j < i ==> (#[trigger] ws[j]).package.name != name@,
        decreases packages_in_workspace@.len() - i,
    {
        if packages_in_workspace[i].package.name == *name {
            return Some(i);
        }
        i += 1;
    }
    None
}

/// Whether no two packages of the workspace bear the same name.
pub fn names_are_distinct(packages_in_workspace: &[Cargo]) -> (distinct: bool)
    ensures
        distinct == distinct_names(workspace_view(packages_in_workspace@)),
{
    let ghost ws = workspace_view(packages_in_workspace@);
    let mut i: usize = 0;
    while i < packages_in_workspace.len()
        invariant
            i <= packages_in_workspace@.len(),
            ws == workspace_view(packages_in_workspace@),
            forall|h: int, j: int|
                0 <= h < j < i ==> (#[trigger] ws[h]).package.name != (#[trigger] ws[j]).package.name,
        decreases packages_in_workspace@.len() - i,
    {
        let first = find_package(packages_in_workspace, &packages_in_workspace[i].package.name);
        match first {
            Some(j) => {
                if j != i {
                    assert(ws[j as int].package.name == ws[i as int].package.name);
                    return false;
                }
            },
            None => {
                assert(ws[i as int].package.name == packages_in_workspace@[i as int].package.name@);
                return false;
            },
        }
        i += 1;
    }
    true
}

/// Whether some entry of `table` names a package that `marks` holds true.
fn table_reaches_marked(
    table: &Table<DependencyDescription>,
    packages_in_workspace: &[Cargo],
    marks: &Vec<bool>,
) -> (hit: bool)
    requires
        marks@.len() == packages_in_workspace@.len(),
    ensures
        hit == depends_on_marked(
            table_view(*table),
            workspace_view(packages_in_workspace@),
            marks@,
        ),
{
    let ghost ws = workspace_view(packages_in_workspace@);
    let ghost entries = table_view(*table);
    let n = table.len();
    let mut k: usize = 0;
    while k < n
        invariant
            k <= n,
            n == table.names().len(),
            table.well_formed(),
            marks@.len() == packages_in_workspace@.len(),
            ws == workspace_view(packages_in_workspace@),
            entries == table_view(*table),
            forall|e: int, j: int|
                0 <= e < k && #[trigger] names_package(ws, table.names()[e], j) ==> !marks@[j],
        decreases n - k,
    {
        if let Some(j) = find_package(packages_in_workspace, table.name(k)) {
            if marks[j] {
                proof {
                    let name = table.names()[k as int];
                    assert(table@.dom().contains(name));
                    assert(names_package(ws, name, j as int));
                    assert(depends_on(entries, ws, j as int));
                }
                return true;
            }
        }
        k += 1;
    }
    proof {
        if depends_on_marked(entries, ws, marks@) {
            let j = choose|j: int| #[trigger] depends_on(entries, ws, j) && marks@[j];
            let name = choose|name: Seq<char>|
                entries.dom().contains(name) && #[trigger] names_package(ws, name, j);
            assert(table.names().to_set().contains(name));
            let e = choose|e: int| 0 <= e < table.names().len() && table.names()[e] == name;
            assert(names_package(ws, table.names()[e], j));
        }
    }
    false
}

/// Every marked package is affected, and every package with a changed file
/// under its root is marked.
spec fn marks_sound(ws: Seq<CargoView>, files: Set<Seq<char>>, marks: Seq<bool>) -> bool {
    &&& marks.len() == ws.len()
    &&& forall|i: int| 0 <= i < ws.len() && #[trigger] marks[i] ==> affected(ws, files, i)
    &&& forall|i: int|
        0 <= i < ws.len() && touches_root(files, (#[trigger] ws[i]).package_root) ==> marks[i]
}

/// No unmarked package among the first `upto` depends on a marked one.
spec fn marks_closed(ws: Seq<CargoView>, marks: Seq<bool>, upto: int) -> bool {
    forall|i: int|
        0 <= i < upto && !(#[trigger] marks[i]) ==> !depends_on_marked(
            ws[i].dependencies,
            ws,
            marks,
        )
}

/// The number of packages that are not marked.
spec fn unmarked(marks: Seq<bool>) -> nat
    decreases marks.len(),
{
    if marks.len() == 0 {
        0
    } else {
        unmarked(marks.drop_last()) + if marks.last() {
            0nat
        } else {
            1nat
        }
    }
}

/// Marking a package that was not marked leaves one unmarked package fewer.
proof fn lemma_unmarked_drops(marks: Seq<bool>, i: int)
    requires
        0 <= i < marks.len(),
        !marks[i],
    ensures
        unmarked(marks.update(i, true)) + 1 == unmarked(marks),
    decreases marks.len(),
{
    let after = marks.update(i, true);
    if i == marks.len() - 1 {
        assert(after.drop_last() =~= marks.drop_last());
    } else {
        assert(after.drop_last() =~= marks.drop_last().update(i, true));
        lemma_unmarked_drops(marks.drop_last(), i);
    }
}

/// Marks that are sound and closed hold every affected package.
proof fn lemma_closed_marks_are_complete(
    ws: Seq<CargoView>,
    files: Set<Seq<char>>,
    marks: Seq<bool>,
    i: int,
    depth: nat,
)
    requires
        marks_sound(ws, files, marks),
        marks_closed(ws, marks, ws.len() as int),
        affected_within(ws, files, i, depth),
    ensures
        marks[i],
    decreases depth,
{
    if !touches_root(files, ws[i].package_root) {
        let j = choose|j: int|
            #[trigger] depends_on(ws[i].dependencies, ws, j) && affected_within(
                ws,
                files,
                j,
                (depth - 1) as nat,
            );
        lemma_closed_marks_are_complete(ws, files, marks, j, (depth - 1) as nat);
        if !marks[i] {
            assert(depends_on_marked(ws[i].dependencies, ws, marks));
        }
    }
}

/// For each package of the workspace, whether it is affected by the
/// changes: the direct marks, closed under the dependency rule.
pub fn affected_packages(packages_in_workspace: &[Cargo], file_set: &ChangeSet) -> (marks: Vec<
    bool,
>)
    ensures
        marks@ == affected_marks(workspace_view(packages_in_workspace@), file_set@),
{
    let ghost ws = workspace_view(packages_in_workspace@);
    let ghost files = file_set@;
    let n = packages_in_workspace.len();
    let mut marks: Vec<bool> = Vec::new();
    let mut i: usize = 0;
    while i < n
        invariant
            i <= n,
            n == packages_in_workspace@.len(),
            ws == workspace_view(packages_in_workspace@),
            files == file_set@,
            marks@.len() == i,
            forall|j: int| 0 <= j < i ==> marks@[j] == touches_root(files, ws[j].package_root),
        decreases n - i,
    {
        let hit = file_set.touches(packages_in_workspace[i].package_root.as_str());
        marks.push(hit);
        i += 1;
    }
    proof {
        assert forall|j: int| 0 <= j < ws.len() && #[trigger] marks@[j] implies affected(
            ws,
            files,
            j,
        ) by {
            assert(affected_within(ws, files, j, 0));
        }
    }
    let mut progress = true;
    while progress
        invariant
            n == packages_in_workspace@.len(),
            ws == workspace_view(packages_in_workspace@),
            files == file_set@,
            marks_sound(ws, files, marks@),
            !progress ==> marks_closed(ws, marks@, n as int),
        decreases unmarked(marks@), if progress { 1nat } else { 0nat },
    {
        progress = false;
        let ghost at_start = marks@;
        let mut i: usize = 0;
        while i < n
            invariant
                i <= n,
                n == packages_in_workspace@.len(),
                ws == workspace_view(packages_in_workspace@),
                files == file_set@,
                marks_sound(ws, files, marks@),
                !progress ==> marks@ == at_start && marks_closed(ws, marks@, i as int),
                progress ==> unmarked(marks@) < unmarked(at_start),
                unmarked(marks@) <= unmarked(at_start),
            decreases n - i,
        {
            if !marks[i] {
                if table_reaches_marked(
                    &packages_in_workspace[i].dependencies,
                    packages_in_workspace,
                    &marks,
                ) {
                    proof {
                        let j = choose|j: int|
                            #[trigger] depends_on(ws[i as int].dependencies, ws, j) && marks@[j];
                        assert(affected(ws, files, j));
                        lemma_affected_unfolds(ws, files, i as int);
                        lemma_unmarked_drops(marks@, i as int);
                    }
                    marks.set(i, true);
                    progress = true;
                }
            }
            i += 1;
        }
    }
    proof {
        assert forall|i: int| 0 <= i < ws.len() implies marks@[i] == affected(ws, files, i) by {
            if affected(ws, files, i) {
                let depth = choose|depth: nat| affected_within(ws, files, i, depth);
                lemma_closed_marks_are_complete(ws, files, marks@, i, depth);
            }
        }
        assert(marks@ =~= affected_marks(ws, files));
    }
    marks
}

/// Whether `package` is affected by the changes in `file_set`: a changed
/// file lies under its root, or it has a normal dependency on an affected
/// package of the workspace.
pub fn is_changed(package: &Cargo, file_set: &ChangeSet, packages_in_workspace: &[Cargo]) -> (changed:
    bool)
    ensures
        changed == package_affected(
            package@,
            file_set@,
            workspace_view(packages_in_workspace@),
        ),
{
    if file_set.touches(package.package_root.as_str()) {
        return true;
    }
    let marks = affected_packages(packages_in_workspace, file_set);
    is_changed_given(package, file_set, packages_in_workspace, &marks)
}

/// `is_changed`, for a caller that holds the marks of the workspace.
pub(crate) fn is_changed_given(
    package: &Cargo,
    file_set: &ChangeSet,
    packages_in_workspace: &[Cargo],
    marks: &Vec<bool>,
) -> (changed: bool)
    requires
        marks@ == affected_marks(workspace_view(packages_in_workspace@), file_set@),
    ensures
        changed == package_affected(
            package@,
            file_set@,
            workspace_view(packages_in_workspace@),
        ),
{
    let ghost ws = workspace_view(packages_in_workspace@);
    let ghost files = file_set@;
    let changed = file_set.touches(package.package_root.as_str()) || table_reaches_marked(
        &package.dependencies,
        packages_in_workspace,
        marks,
    );
    proof {
        let table = package@.dependencies;
        if depends_on_marked(table, ws, marks@) {
            let j = choose|j: int| #[trigger] depends_on(table, ws, j) && marks@[j];
            assert(affected(ws, files, j));
        }
        if exists|j: int| #[trigger] depends_on(table, ws, j) && affected(ws, files, j) {
            let j = choose|j: int| #[trigger] depends_on(table, ws, j) && affected(ws, files, j);
            assert(marks@[j]);
        }
    }
    changed
}

} // verus!
