//! What holds of the record of what a package is linked with.

use vstd::prelude::*;

use crate::linking;
use crate::linking::{LinkView, Linkage, ResolvedView};
use crate::package::{DependencyView, PackageView};

verus! {

/// The dependency is on this package: it has its name, its version, its type and its digest.
pub open spec fn is_on(dependency: DependencyView, package: PackageView) -> bool {
    &&& dependency.name == package.name
    &&& dependency.version == package.version
    &&& dependency.kind == package.kind
    &&& dependency.digest == package.digest
}

/// The package is the kernel that comes with a linked package: the linked package itself, if that is
/// a kernel, or else the one that it was assembled against.
pub open spec fn is_kernel_of(kernel: PackageView, resolved: ResolvedView) -> bool {
    if resolved.package.kind is Kernel {
        kernel == resolved.package
    } else {
        resolved.kernel == Some(kernel)
    }
}

/// The dependency is on the kernel that comes with a linked package.
pub open spec fn is_on_kernel_of(dependency: DependencyView, resolved: ResolvedView) -> bool {
    if resolved.package.kind is Kernel {
        is_on(dependency, resolved.package)
    } else {
        resolved.kernel matches Some(kernel) && is_on(dependency, kernel)
    }
}

/// What has to be recorded once a package is linked: what was recorded, the kernel that comes with
/// it, what it needs at run time, and the package itself if it is linked dynamically.
pub open spec fn has_to_be_recorded(
    dependency: DependencyView,
    state: LinkView,
    resolved: ResolvedView,
    linkage: Linkage,
) -> bool {
    ||| state.dependencies.contains(dependency)
    ||| is_on_kernel_of(dependency, resolved)
    ||| exists|i: int|
        0 <= i < resolved.package.dependencies.len() && #[trigger] resolved.package.dependencies[i]
            == dependency
    ||| linkage is Dynamic && is_on(dependency, resolved.package)
}

/// The kernel that comes with a linked package is no other one than the kernel that is recorded.
pub open spec fn kernels_agree(state: LinkView, resolved: ResolvedView) -> bool {
    forall|kernel: PackageView| #[trigger]
        is_kernel_of(kernel, resolved) && state.kernel is Some ==> {
            &&& state.kernel->0.name == kernel.name
            &&& state.kernel->0.version == kernel.version
            &&& state.kernel->0.digest == kernel.digest
        }
}

proof fn lemma_sum(a: Seq<DependencyView>, b: Seq<DependencyView>)
    ensures
        forall|x: DependencyView| #[trigger]
            (a + b).contains(x) <==> a.contains(x) || b.contains(x),
{
    assert forall|x: DependencyView| #[trigger]
        (a + b).contains(x) <==> a.contains(x) || b.contains(x) by {
        if a.contains(x) {
            let i = choose|i: int| 0 <= i < a.len() && a[i] == x;
            assert((a + b)[i] == x);
        }
        if b.contains(x) {
            let i = choose|i: int| 0 <= i < b.len() && b[i] == x;
            assert((a + b)[a.len() + i] == x);
        }
    }
}

/// The kernel that comes with a package is recorded if it is the recorded one, and nothing else is
/// recorded under its name. The record then holds what it held, and the kernel. The first kernel that
/// is recorded stays.
pub proof fn kernel_is_recorded_where_it_agrees(state: LinkView, resolved: ResolvedView)
    requires
        linking::ascending(state.dependencies),
    ensures
        linking::kernel_linked(state, resolved) is Ok <==> kernels_agree(state, resolved) && (
        forall|x: DependencyView, y: DependencyView| #[trigger]
            state.dependencies.contains(x) && #[trigger] is_on_kernel_of(y, resolved) && x.name
                == y.name ==> x == y),
        linking::kernel_linked(state, resolved) matches Ok(after) ==> {
            &&& linking::ascending(after.dependencies)
            &&& forall|x: DependencyView| #[trigger]
                after.dependencies.contains(x) <==> state.dependencies.contains(x)
                    || is_on_kernel_of(x, resolved)
            &&& state.kernel is Some ==> after.kernel == state.kernel
            &&& forall|kernel: PackageView| #[trigger]
                is_kernel_of(kernel, resolved) && state.kernel is None ==> after.kernel == Some(
                    kernel,
                )
            &&& after.kernel is Some ==> state.kernel is Some || is_kernel_of(
                after.kernel->0,
                resolved,
            )
        },
{
    match linking::brought_kernel(resolved) {
        None => {
            assert(forall|kernel: PackageView| !is_kernel_of(kernel, resolved));
        },
        Some(kernel) => {
            let dependency = linking::dependency_on(kernel);
            assert(is_kernel_of(kernel, resolved));
            assert(is_on_kernel_of(dependency, resolved));
            assert forall|y: DependencyView| #[trigger]
                is_on_kernel_of(y, resolved) implies y == dependency by {}
            linking::merged_record_holds_the_dependency(state.dependencies, dependency);
            let one = seq![dependency];
            assert(one[0] == dependency);
            assert(state.dependencies.push(dependency) =~= state.dependencies + one);
            lemma_sum(state.dependencies, one);
            if let Ok(after) = linking::kernel_linked(state, resolved) {
                assert forall|x: DependencyView| #[trigger]
                    after.dependencies.contains(x) <==> state.dependencies.contains(x)
                        || is_on_kernel_of(x, resolved) by {
                    assert((state.dependencies + one).contains(x)
                        <==> after.dependencies.contains(x));
                    assert(one.contains(x) <==> x == dependency);
                }
            }
        },
    }
}

/// A package is linked if all that has to be recorded agrees: any two dependencies of one name are
/// the same, and so are the kernels. The record then holds all that has to be recorded and nothing
/// else, in ascending order of the names, and the first kernel that came along.
pub proof fn package_is_linked_where_everything_agrees(
    state: LinkView,
    resolved: ResolvedView,
    linkage: Linkage,
)
    requires
        linking::ascending(state.dependencies),
    ensures
        linking::dependency_linked(state, resolved, linkage) is Ok <==> kernels_agree(
            state,
            resolved,
        ) && (forall|x: DependencyView, y: DependencyView| #[trigger]
            has_to_be_recorded(x, state, resolved, linkage) && #[trigger] has_to_be_recorded(
                y,
                state,
                resolved,
                linkage,
            ) && x.name == y.name ==> x == y),
        linking::dependency_linked(state, resolved, linkage) matches Ok(after) ==> {
            &&& linking::ascending(after.dependencies)
            &&& forall|x: DependencyView| #[trigger]
                after.dependencies.contains(x) <==> has_to_be_recorded(
                    x,
                    state,
                    resolved,
                    linkage,
                )
            &&& state.kernel is Some ==> after.kernel == state.kernel
            &&& forall|kernel: PackageView| #[trigger]
                is_kernel_of(kernel, resolved) && state.kernel is None ==> after.kernel == Some(
                    kernel,
                )
            &&& after.kernel is Some ==> state.kernel is Some || is_kernel_of(
                after.kernel->0,
                resolved,
            )
        },
{
    kernel_is_recorded_where_it_agrees(state, resolved);
    match linking::kernel_linked(state, resolved) {
        Ok(linked) => {
            let own = if linkage is Dynamic && !(resolved.package.kind is Kernel) {
                seq![linking::dependency_on(resolved.package)]
            } else {
                Seq::empty()
            };
            if own.len() > 0 {
                assert(own[0] == linking::dependency_on(resolved.package));
            }
            let needed = resolved.package.dependencies;
            let all = linked.dependencies + (own + needed);
            lemma_sum(own, needed);
            lemma_sum(linked.dependencies, own + needed);
            linking::merging_a_list_succeeds_where_names_agree(linked.dependencies, own + needed);
            assert forall|x: DependencyView| #[trigger] all.contains(x) <==> has_to_be_recorded(
                x,
                state,
                resolved,
                linkage,
            ) by {
                assert(own.contains(x) ==> x == linking::dependency_on(resolved.package));
                assert(linked.dependencies.contains(x) <==> state.dependencies.contains(x)
                    || is_on_kernel_of(x, resolved));
            }
            if linking::agreeing(all) {
                assert forall|x: DependencyView, y: DependencyView| #[trigger]
                    has_to_be_recorded(x, state, resolved, linkage)
                        && #[trigger] has_to_be_recorded(y, state, resolved, linkage) && x.name
                        == y.name implies x == y by {
                    assert(all.contains(x) && all.contains(y));
                }
            } else {
                let (x, y) = choose|x: DependencyView, y: DependencyView|
                    !(#[trigger] all.contains(x) && #[trigger] all.contains(y) && x.name == y.name
                        ==> x == y);
                assert(has_to_be_recorded(x, state, resolved, linkage));
                assert(has_to_be_recorded(y, state, resolved, linkage));
            }
            if let Ok(after) = linking::dependency_linked(state, resolved, linkage) {
                assert forall|x: DependencyView| #[trigger]
                    after.dependencies.contains(x) <==> has_to_be_recorded(
                        x,
                        state,
                        resolved,
                        linkage,
                    ) by {
                    assert(all.contains(x) <==> after.dependencies.contains(x));
                }
            }
        },
        Err(_) => {
            if kernels_agree(state, resolved) {
                let (x, y) = choose|x: DependencyView, y: DependencyView|
                    !(#[trigger] state.dependencies.contains(x) && #[trigger] is_on_kernel_of(
                        y,
                        resolved,
                    ) && x.name == y.name ==> x == y);
                assert(has_to_be_recorded(x, state, resolved, linkage));
                assert(has_to_be_recorded(y, state, resolved, linkage));
            }
        },
    }
}

} // verus!
