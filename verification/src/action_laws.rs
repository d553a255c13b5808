//! What every action of an assembly is for: which work asks for it, and with what.

use vstd::prelude::*;

use crate::assembler;
use crate::assembly_model;
use crate::assembly_model::{
    ActionView, AssemblyView, BuildPhaseView, BuildView, EventView, FrameView, PlanView,
    ProvidedView, ResolvePhaseView, ResolveView, StepView,
};
use crate::closure;
use crate::files;
use crate::graph;
use crate::graph::{GraphView, NodeProvenanceView, NodeView};
use crate::linking;
use crate::linking::{Linkage, ResolvedView};
use crate::package;
use crate::package::{PackageView, SectionView};
use crate::project;
use crate::project::{ProjectTargetSelector, ProjectView, TargetView};
use crate::project_laws;
use crate::provenance::ProvenanceView;
use crate::sources;
use crate::sources::{ListedView, TargetModulesView};
use crate::version::VersionView;

verus! {

/// The package of the graph with a name.
pub open spec fn node(plan: PlanView, id: Seq<char>) -> Option<NodeView> {
    graph::find_node(plan.graph.nodes, id)
}

/// A package of the graph is the first one of its name.
pub proof fn package_of_the_graph_has_its_name(nodes: Seq<NodeView>, i: int)
    requires
        0 <= i < nodes.len(),
        forall|j: int| 0 <= j < i ==> (#[trigger] nodes[j]).name != nodes[i].name,
    ensures
        graph::find_node(nodes, nodes[i].name) == Some(nodes[i]),
    decreases i,
{
    if i > 0 {
        assert(nodes[0].name != nodes[i].name);
        let rest = nodes.drop_first();
        assert forall|j: int| 0 <= j < i - 1 implies (#[trigger] rest[j]).name
            != rest[i - 1].name by {
            assert(rest[j] == nodes[j + 1]);
        }
        package_of_the_graph_has_its_name(rest, i - 1);
    }
}

/// The topmost frame of a stack is the assembly of a package.
pub open spec fn builds(state: AssemblyView) -> bool {
    state.stack.len() > 0 && state.stack.last() is Build
}

/// The topmost frame of a stack is the resolution of a dependency.
pub open spec fn is_resolving(state: AssemblyView) -> bool {
    state.stack.len() > 0 && state.stack.last() is Resolve
}

/// The package that is being assembled on top.
pub open spec fn build(state: AssemblyView) -> BuildView {
    state.stack.last()->Build_0
}

/// The dependency that is being resolved on top.
pub open spec fn frame(state: AssemblyView) -> ResolveView {
    state.stack.last()->Resolve_0
}

// Packages.

/// The action is one that the assembly of a package may ask for.
pub open spec fn is_for_a_build(action: ActionView) -> bool {
    ||| action is StartAssembler
    ||| action is Link
    ||| action is ListFiles
    ||| action is ParseModules
    ||| action is UseModules
    ||| action is LinkSupport
    ||| action is AssembleExecutable
    ||| action is AssembleKernel
    ||| action is AssembleLibrary
    ||| action is CreatePackage
    ||| action is KindMismatch
}

/// The action is one that the resolution of a dependency may ask for.
pub open spec fn is_for_a_resolution(action: ActionView) -> bool {
    ||| action is LoadProject
    ||| action is FindCanonical
    ||| action is FindExact
    ||| action is LoadPackage
    ||| action is ReadPackage
    ||| action is Publish
}

proof fn lemma_builds_ask_for_builds(
    plan: PlanView,
    rest: AssemblyView,
    build: BuildView,
    event: EventView,
)
    ensures
        !is_for_a_resolution(assembly_model::build_step(plan, rest, build, event).action),
{
}

proof fn lemma_resolutions_ask_for_resolutions(
    plan: PlanView,
    rest: AssemblyView,
    frame: ResolveView,
    event: EventView,
)
    ensures
        !is_for_a_build(assembly_model::resolve_step(plan, rest, frame, event).action),
{
}

/// Only the assembly of a package starts an assembler, links, parses, assembles and creates, and only
/// the resolution of a dependency loads and publishes.
pub proof fn actions_belong_to_the_work_on_top(
    plan: PlanView,
    state: AssemblyView,
    event: EventView,
)
    ensures
        is_for_a_build(assembly_model::step(plan, state, event).action) ==> builds(state),
        is_for_a_resolution(assembly_model::step(plan, state, event).action) ==> is_resolving(
            state,
        ),
{
    if state.stack.len() > 0 {
        let rest = AssemblyView { stack: state.stack.drop_last(), ..state };
        match state.stack.last() {
            FrameView::Build(build) => {
                lemma_builds_ask_for_builds(plan, rest, build, event);
            },
            FrameView::Resolve(frame) => {
                lemma_resolutions_ask_for_resolutions(plan, rest, frame, event);
            },
        }
    }
}

proof fn lemma_build_step(plan: PlanView, state: AssemblyView, event: EventView)
    requires
        builds(state),
    ensures
        assembly_model::step(plan, state, event) == assembly_model::build_step(
            plan,
            AssemblyView { stack: state.stack.drop_last(), ..state },
            build(state),
            event,
        ),
{
}

/// Every assembler is started with the settings of the profile of the assembly: those of the first
/// profile with this name that the project has, whatever the type of the target is.
pub proof fn assembler_has_the_settings_of_the_profile(
    plan: PlanView,
    state: AssemblyView,
    event: EventView,
)
    requires
        assembly_model::step(plan, state, event).action is StartAssembler,
    ensures
        builds(state),
        build(state).phase is Start,
        ({
            let profiles = build(state).project.profiles;
            exists|i: int|
                project_laws::is_first_profile(profiles, plan.profile, i)
                    && assembly_model::step(plan, state, event).action
                    == (ActionView::StartAssembler { settings: profiles[i].settings })
        }),
{
    actions_belong_to_the_work_on_top(plan, state, event);
    lemma_build_step(plan, state, event);
    project_laws::profile_is_the_first_of_its_name(build(state).project, plan.profile);
}

/// The assembly of a package that is not ready starts with an assembler, if the project has the
/// profile, and fails without it.
pub proof fn assembly_of_a_package_starts_an_assembler(
    plan: PlanView,
    state: AssemblyView,
    build: BuildView,
)
    requires
        build.phase is Start,
        build.provided || !state.cache.contains_key(
            if build.target.ty is Executable {
                build.project.name + ":"@ + build.target.name
            } else {
                build.project.name
            },
        ),
    ensures
        ({
            let step = assembly_model::step(
                plan,
                state.with(FrameView::Build(build)),
                EventView::Proceed,
            );
            if exists|i: int| 0 <= i < build.project.profiles.len() && (
            #[trigger] build.project.profiles[i]).name == plan.profile {
                step.action is StartAssembler
            } else {
                step.action is Failed
            }
        }),
{
    let full = state.with(FrameView::Build(build));
    assert(full.stack.drop_last() =~= state.stack);
    lemma_build_step(plan, full, EventView::Proceed);
    project_laws::profile_is_the_first_of_its_name(build.project, plan.profile);
    let step = assembly_model::step(plan, full, EventView::Proceed);
    if step.action is StartAssembler {
        let i = project_laws::first_profile(build.project, plan.profile)->0;
        assert(build.project.profiles[i].name == plan.profile);
    } else {
        if exists|i: int| 0 <= i < build.project.profiles.len() && (
        #[trigger] build.project.profiles[i]).name == plan.profile {
            project_laws::lemma_first_profile(build.project.profiles, plan.profile);
        }
    }
}

/// What is linked is the library that the package needs, statically unless it is a kernel, or the
/// dependency that was resolved, as the graph says. No executable is linked as a dependency.
pub proof fn dependencies_are_linked_as_the_graph_says(
    plan: PlanView,
    state: AssemblyView,
    event: EventView,
)
    requires
        assembly_model::step(plan, state, event).action is Link,
    ensures
        builds(state),
        ({
            let build = build(state);
            let package = assembly_model::step(plan, state, event).action->Link_package;
            let linkage = assembly_model::step(plan, state, event).action->Link_linkage;
            ||| {
                &&& build.phase is LinkRequired
                &&& build.required is Some
                &&& package == build.required->0.package
                &&& linkage is Dynamic <==> package.kind is Kernel
            }
            ||| {
                &&& build.phase is AwaitDependency
                &&& state.delivered is Some
                &&& package == state.delivered->0.package
                &&& !(package.kind is Executable)
                &&& node(plan, build.id) is Some
                &&& build.next < node(plan, build.id)->0.dependencies.len()
                &&& linkage == node(plan, build.id)->0.dependencies[build.next as int].linkage
            }
        }),
{
    actions_belong_to_the_work_on_top(plan, state, event);
    lemma_build_step(plan, state, event);
}

/// The files that are listed are those in the directory of the root module of the target, once all
/// the dependencies are linked.
pub proof fn files_of_the_target_are_listed(
    plan: PlanView,
    state: AssemblyView,
    event: EventView,
)
    requires
        assembly_model::step(plan, state, event).action is ListFiles,
    ensures
        builds(state),
        build(state).phase is Dependencies,
        build(state).sources is None,
        node(plan, build(state).id) is Some,
        build(state).next >= node(plan, build(state).id)->0.dependencies.len(),
        build(state).target.source is Some,
        build(state).target.source->0.resolved is Ok,
        files::parent(build(state).target.source->0.resolved->Ok_0) == Some(
            assembly_model::step(plan, state, event).action->ListFiles_directory,
        ),
{
    actions_belong_to_the_work_on_top(plan, state, event);
    lemma_build_step(plan, state, event);
}

/// The modules that are parsed are those of the target, as its files were listed.
pub proof fn modules_of_the_target_are_parsed(
    plan: PlanView,
    state: AssemblyView,
    event: EventView,
)
    requires
        assembly_model::step(plan, state, event).action is ParseModules,
    ensures
        builds(state),
        build(state).phase is ListSources,
        event is Listing,
        sources::target_modules(
            build(state).project,
            build(state).target,
            event->Listing_0,
        ) == Ok::<TargetModulesView, Seq<char>>(
            assembly_model::step(plan, state, event).action->ParseModules_modules,
        ),
{
    actions_belong_to_the_work_on_top(plan, state, event);
    lemma_build_step(plan, state, event);
}

/// Modules that are provided are used as they are, in their order: the root as the root module of the
/// target, under its namespace, and the others as library modules under their own paths.
pub proof fn provided_modules_are_used(plan: PlanView, state: AssemblyView, event: EventView)
    requires
        assembly_model::step(plan, state, event).action is UseModules,
    ensures
        builds(state),
        build(state).phase is Dependencies,
        build(state).sources is Some,
        node(plan, build(state).id) is Some,
        build(state).next >= node(plan, build(state).id)->0.dependencies.len(),
        ({
            let target = build(state).target;
            let provided = build(state).sources->0;
            let used = assembly_model::step(plan, state, event).action->UseModules_modules;
            &&& used.root.handle == provided.root.handle
            &&& used.root.path == target.namespace
            &&& used.root.kind is Executable <==> target.ty is Executable
            &&& used.root.kind is Kernel <==> target.ty is Kernel
            &&& used.support.len() == provided.support.len()
            &&& forall|i: int|
                0 <= i < provided.support.len() ==> {
                    &&& (#[trigger] used.support[i]).handle == provided.support[i].handle
                    &&& used.support[i].path == provided.support[i].path
                    &&& used.support[i].kind is Library
                }
        }),
{
    actions_belong_to_the_work_on_top(plan, state, event);
    lemma_build_step(plan, state, event);
}

/// Once all the dependencies of a package are linked, modules that are provided are used, and the
/// files of the target are listed where none are.
pub proof fn sources_follow_the_dependencies(plan: PlanView, state: AssemblyView, build: BuildView)
    requires
        build.phase is Dependencies,
        node(plan, build.id) is Some,
        build.next >= node(plan, build.id)->0.dependencies.len(),
    ensures
        ({
            let step = assembly_model::step(
                plan,
                state.with(FrameView::Build(build)),
                EventView::Proceed,
            );
            &&& build.sources is Some ==> step.action is UseModules
            &&& build.sources is None && sources::target_root(build.project, build.target) is Ok
                ==> step.action is ListFiles
            &&& build.sources is None && sources::target_root(build.project, build.target) is Err
                ==> step.action is Failed
        }),
{
    let full = state.with(FrameView::Build(build));
    assert(full.stack.drop_last() =~= state.stack);
    lemma_build_step(plan, full, EventView::Proceed);
}

/// The dependencies of a package are resolved one after the other, in the order of the graph.
pub proof fn dependencies_are_resolved_in_order(
    plan: PlanView,
    state: AssemblyView,
    build: BuildView,
)
    requires
        build.phase is Dependencies,
        node(plan, build.id) is Some,
        build.next < node(plan, build.id)->0.dependencies.len(),
    ensures
        ({
            let step = assembly_model::step(
                plan,
                state.with(FrameView::Build(build)),
                EventView::Proceed,
            );
            let above = step.state.stack.last();
            &&& step.action is Continue
            &&& step.state.stack.len() == state.stack.len() + 2
            &&& step.state.stack[state.stack.len() as int] == FrameView::Build(
                BuildView { phase: BuildPhaseView::AwaitDependency, ..build },
            )
            &&& above is Resolve
            &&& above->Resolve_0.phase is Start
            &&& above->Resolve_0.id == node(
                plan,
                build.id,
            )->0.dependencies[build.next as int].dependency
            &&& step.state.cache == state.cache
        }),
{
    let full = state.with(FrameView::Build(build));
    assert(full.stack.drop_last() =~= state.stack);
    lemma_build_step(plan, full, EventView::Proceed);
}

/// A dependency that turns out to be an executable ends the assembly, and any other one is linked.
pub proof fn resolved_dependency_is_linked(
    plan: PlanView,
    state: AssemblyView,
    build: BuildView,
    resolved: ResolvedView,
)
    requires
        build.phase is AwaitDependency,
        state.delivered == Some(resolved),
        node(plan, build.id) is Some,
        build.next < node(plan, build.id)->0.dependencies.len(),
    ensures
        ({
            let step = assembly_model::step(
                plan,
                state.with(FrameView::Build(build)),
                EventView::Proceed,
            );
            let edge = node(plan, build.id)->0.dependencies[build.next as int];
            if resolved.package.kind is Executable {
                step.action == (ActionView::Failed {
                    message: "dependency '"@ + edge.dependency
                        + "' resolved to executable package '"@ + resolved.package.name
                        + "', but only library-like packages can be linked"@,
                })
            } else {
                step.action == (ActionView::Link {
                    package: resolved.package,
                    linkage: edge.linkage,
                })
            }
        }),
{
    let full = state.with(FrameView::Build(build));
    assert(full.stack.drop_last() =~= state.stack);
    lemma_build_step(plan, full, EventView::Proceed);
}

/// The modules of a target are assembled as what the manifest declares: as an executable, as a
/// kernel, or as a library of exactly the type of the target. Only the support modules of a kernel
/// are linked before.
pub proof fn modules_are_assembled_as_the_type_of_the_target(
    plan: PlanView,
    state: AssemblyView,
    event: EventView,
)
    ensures
        match assembly_model::step(plan, state, event).action {
            ActionView::AssembleExecutable => {
                &&& builds(state)
                &&& build(state).phase is Modules
                &&& build(state).target.ty is Executable
            },
            ActionView::AssembleKernel => {
                &&& builds(state)
                &&& build(state).phase is Support || (build(state).target.ty is Kernel && build(
                    state,
                ).phase == (BuildPhaseView::Modules { support: false }))
            },
            ActionView::LinkSupport => {
                &&& builds(state)
                &&& build(state).target.ty is Kernel
                &&& build(state).phase == (BuildPhaseView::Modules { support: true })
            },
            ActionView::AssembleLibrary { ty } => {
                &&& builds(state)
                &&& build(state).phase is Modules
                &&& ty == build(state).target.ty
                &&& !(ty is Executable)
                &&& !(ty is Kernel)
            },
            _ => true,
        },
{
    let action = assembly_model::step(plan, state, event).action;
    if action is AssembleExecutable || action is AssembleKernel || action is LinkSupport
        || action is AssembleLibrary {
        assert(is_for_a_build(action));
        actions_belong_to_the_work_on_top(plan, state, event);
        lemma_build_step(plan, state, event);
        let rest = AssemblyView { stack: state.stack.drop_last(), ..state };
        lemma_assembles(plan, rest, build(state), event);
    }
}

proof fn lemma_assembles(
    plan: PlanView,
    rest: AssemblyView,
    build: BuildView,
    event: EventView,
)
    ensures
        match assembly_model::build_step(plan, rest, build, event).action {
            ActionView::AssembleExecutable => build.phase is Modules && build.target.ty
                is Executable,
            ActionView::AssembleKernel => build.phase is Support || (build.target.ty is Kernel
                && build.phase == (BuildPhaseView::Modules { support: false })),
            ActionView::LinkSupport => build.target.ty is Kernel && build.phase == (
            BuildPhaseView::Modules { support: true }),
            ActionView::AssembleLibrary { ty } => {
                &&& build.phase is Modules
                &&& ty == build.target.ty
                &&& !(ty is Executable)
                &&& !(ty is Kernel)
            },
            _ => true,
        },
{
}

/// Support modules are linked for kernels only.
pub open spec fn supports_kernels(state: AssemblyView) -> bool {
    &&& forall|i: int|
        0 <= i < state.stack.len() ==> is_kernel_support(#[trigger] state.stack[i])
    &&& state.pending matches Some(build) ==> build.phase is Start
}

/// A package whose support modules are linked is a kernel.
pub open spec fn is_kernel_support(frame: FrameView) -> bool {
    frame matches FrameView::Build(build) ==> (build.phase is Support ==> build.target.ty is Kernel)
}

proof fn lemma_build_supports(
    plan: PlanView,
    rest: AssemblyView,
    build: BuildView,
    event: EventView,
)
    requires
        supports_kernels(rest),
    ensures
        supports_kernels(assembly_model::build_step(plan, rest, build, event).state),
{
}

proof fn lemma_resolve_supports(
    plan: PlanView,
    rest: AssemblyView,
    frame: ResolveView,
    event: EventView,
)
    requires
        supports_kernels(rest),
    ensures
        supports_kernels(assembly_model::resolve_step(plan, rest, frame, event).state),
{
}

/// Every step of an assembly keeps it so that support modules are linked for kernels only, and so it
/// is from the beginning.
pub proof fn support_modules_are_linked_for_kernels_only(
    plan: PlanView,
    state: AssemblyView,
    event: EventView,
    project: ProjectView,
    target: TargetView,
    sources: Option<ProvidedView>,
)
    requires
        supports_kernels(state),
    ensures
        supports_kernels(assembly_model::step(plan, state, event).state),
        supports_kernels(assembly_model::started(plan.graph.root, project, target, sources)),
{
    if state.stack.len() > 0 {
        let rest = AssemblyView { stack: state.stack.drop_last(), ..state };
        assert forall|i: int| 0 <= i < rest.stack.len() implies is_kernel_support(
            #[trigger] rest.stack[i],
        ) by {
            assert(rest.stack[i] == state.stack[i]);
        }
        match state.stack.last() {
            FrameView::Build(build) => {
                lemma_build_supports(plan, rest, build, event);
            },
            FrameView::Resolve(frame) => {
                lemma_resolve_supports(plan, rest, frame, event);
            },
        }
    }
}

/// Once the modules of a target are there, they are assembled as what the target is.
pub proof fn parsed_modules_are_assembled(
    plan: PlanView,
    state: AssemblyView,
    build: BuildView,
    support: bool,
)
    requires
        build.phase == (BuildPhaseView::Modules { support }),
    ensures
        ({
            let step = assembly_model::step(
                plan,
                state.with(FrameView::Build(build)),
                EventView::Proceed,
            );
            &&& build.target.ty is Executable ==> step.action is AssembleExecutable
            &&& build.target.ty is Kernel && support ==> step.action is LinkSupport
            &&& build.target.ty is Kernel && !support ==> step.action is AssembleKernel
            &&& !(build.target.ty is Executable) && !(build.target.ty is Kernel) ==> step.action
                == (ActionView::AssembleLibrary { ty: build.target.ty })
        }),
{
    let full = state.with(FrameView::Build(build));
    assert(full.stack.drop_last() =~= state.stack);
    lemma_build_step(plan, full, EventView::Proceed);
}

/// Once the support modules of a kernel are linked, the kernel is assembled.
pub proof fn linked_support_is_followed_by_the_kernel(
    plan: PlanView,
    state: AssemblyView,
    build: BuildView,
)
    requires
        build.phase is Support,
    ensures
        assembly_model::step(
            plan,
            state.with(FrameView::Build(build)),
            EventView::Proceed,
        ).action is AssembleKernel,
{
    let full = state.with(FrameView::Build(build));
    assert(full.stack.drop_last() =~= state.stack);
    lemma_build_step(plan, full, EventView::Proceed);
}

/// Whether there are support modules is what the modules say that are parsed or used.
pub proof fn support_modules_are_noticed(plan: PlanView, state: AssemblyView, event: EventView)
    ensures
        ({
            let step = assembly_model::step(plan, state, event);
            let after = step.state;
            let phase = build(after).phase;
            match step.action {
                ActionView::ParseModules { modules } => builds(after) && phase == (
                BuildPhaseView::Modules { support: modules.support.len() > 0 }),
                ActionView::UseModules { modules } => builds(after) && phase == (
                BuildPhaseView::Modules { support: modules.support.len() > 0 }),
                _ => true,
            }
        }),
{
    actions_belong_to_the_work_on_top(plan, state, event);
    if builds(state) {
        lemma_build_step(plan, state, event);
    }
}

/// A package is assembled from files that the graph knows: it was loaded from a manifest, and its
/// modules were not provided. A package from a directory names the file of its root module.
pub open spec fn has_provenance(plan: PlanView, build: BuildView) -> bool {
    &&& !build.provided
    &&& node(plan, build.id) is Some
    &&& node(plan, build.id)->0.provenance is Real
    &&& node(plan, build.id)->0.provenance->Real_origin is Git || build.target.source is Some
}

/// Once the modules are assembled, what goes into the provenance is read where the package has one,
/// and where it has none the package is created.
pub proof fn assembled_package_has_its_provenance_computed(
    plan: PlanView,
    state: AssemblyView,
    build: BuildView,
)
    requires
        build.phase is Assembled,
    ensures
        ({
            let step = assembly_model::step(
                plan,
                state.with(FrameView::Build(build)),
                EventView::Proceed,
            );
            if has_provenance(plan, build) {
                let provenance = node(plan, build.id)->0.provenance;
                step.action == (ActionView::ReadSources {
                    name: build.id,
                    project: build.project,
                    target: build.target,
                    manifest_path: provenance->Real_manifest_path,
                    in_workspace: provenance->Real_in_workspace,
                })
            } else {
                step.action is CreatePackage
            }
        }),
{
    let full = state.with(FrameView::Build(build));
    assert(full.stack.drop_last() =~= state.stack);
    lemma_build_step(plan, full, EventView::Proceed);
}

/// The provenance that a package is to record, computed from what was read.
pub open spec fn computed_provenance(
    plan: PlanView,
    id: Seq<char>,
    project: ProjectView,
    target: TargetView,
    event: EventView,
) -> Result<ProvenanceView, Seq<char>> {
    let provenance = node(plan, id)->0.provenance;
    closure::source_provenance(
        closure::ContextView {
            nodes: plan.graph.nodes,
            snapshot: event->Sources_snapshot,
            profile: plan.profile,
        },
        id,
        project,
        target,
        provenance->Real_origin,
        provenance->Real_manifest_path,
        provenance->Real_in_workspace,
        event->Sources_listing,
        Set::empty(),
    )
}

/// A package is created under the name and the version of its project, an executable under the name
/// of its target too, with the description of the project and all that was recorded when it was
/// linked. It carries its provenance, where it has one, and an executable carries behind it the
/// kernel that it was assembled against. It carries nothing else.
pub proof fn package_is_created_as_its_target_says(
    plan: PlanView,
    state: AssemblyView,
    event: EventView,
)
    requires
        assembly_model::step(plan, state, event).action is CreatePackage,
    ensures
        builds(state),
        ({
            let build = build(state);
            let created = assembly_model::step(plan, state, event).action;
            let sections = created->CreatePackage_sections;
            let carried = if build.target.ty is Executable && build.link.kernel is Some {
                1int
            } else {
                0
            };
            &&& created->CreatePackage_name == if build.target.ty is Executable {
                build.project.name + ":"@ + build.target.name
            } else {
                build.project.name
            }
            &&& created->CreatePackage_version == build.project.version
            &&& created->CreatePackage_description == build.project.description
            &&& created->CreatePackage_dependencies == build.link.dependencies
            &&& carried == 1 ==> sections.len() > 0 && sections.last() == (SectionView {
                id: "kernel"@,
                data: build.link.kernel->0.encoded,
            })
            &&& build.phase is Assembled || build.phase is ReadSources
            &&& build.phase is Assembled ==> !has_provenance(plan, build) && sections.len()
                == carried
            &&& build.phase is ReadSources ==> {
                let computed = computed_provenance(
                    plan,
                    build.id,
                    build.project,
                    build.target,
                    event,
                );
                &&& has_provenance(plan, build)
                &&& event is Sources
                &&& computed is Ok
                &&& sections.len() == 1 + carried
                &&& sections[0] == (SectionView {
                    id: "project_source_provenance"@,
                    data: computed->Ok_0.encoding(),
                })
            }
        }),
{
    actions_belong_to_the_work_on_top(plan, state, event);
    lemma_build_step(plan, state, event);
}

/// Once what goes into its provenance is read, a package is created with the provenance, or the
/// assembly fails as computing it fails.
pub proof fn read_sources_are_followed_by_the_package(
    plan: PlanView,
    state: AssemblyView,
    build: BuildView,
    event: EventView,
)
    requires
        build.phase is ReadSources,
        event is Sources,
        has_provenance(plan, build),
    ensures
        ({
            let step = assembly_model::step(plan, state.with(FrameView::Build(build)), event);
            match computed_provenance(plan, build.id, build.project, build.target, event) {
                Ok(_) => step.action is CreatePackage,
                Err(message) => step.action == (ActionView::Failed { message }),
            }
        }),
{
    let full = state.with(FrameView::Build(build));
    assert(full.stack.drop_last() =~= state.stack);
    lemma_build_step(plan, full, event);
}

/// The step of a package that is being assembled on top of `state`.
pub open spec fn build_on(
    plan: PlanView,
    state: AssemblyView,
    build: BuildView,
    event: EventView,
) -> StepView {
    assembly_model::step(plan, state.with(FrameView::Build(build)), event)
}

/// The assembly goes on with the package on top, which has come to `phase` and asks for `action`. Of
/// the package nothing else has changed, and of the assembly nothing.
pub open spec fn goes_on(
    step: StepView,
    state: AssemblyView,
    build: BuildView,
    phase: BuildPhaseView,
    action: ActionView,
) -> bool {
    &&& step.action == action
    &&& step.state.stack == state.stack.push(FrameView::Build(BuildView { phase, ..build }))
    &&& step.state.cache == state.cache
    &&& step.state.pending == state.pending
    &&& step.state.delivered == state.delivered
}

proof fn lemma_build_on(
    plan: PlanView,
    state: AssemblyView,
    build: BuildView,
    event: EventView,
)
    ensures
        build_on(plan, state, build, event) == assembly_model::build_step(
            plan,
            state,
            build,
            event,
        ),
{
    assert(state.with(FrameView::Build(build)).stack.drop_last() =~= state.stack);
}

/// What a package waits for between its actions, and that it changes in nothing but what it waits
/// for: the assembler, the library of the project, the files, the modules, the assembled modules.
pub proof fn package_waits_for_what_it_asked_for(
    plan: PlanView,
    state: AssemblyView,
    build: BuildView,
    event: EventView,
)
    ensures
        ({
            let step = build_on(plan, state, build, event);
            let action = step.action;
            &&& action is StartAssembler ==> goes_on(
                step,
                state,
                build,
                BuildPhaseView::LinkRequired,
                action,
            )
            &&& action is Link && build.phase is LinkRequired ==> goes_on(
                step,
                state,
                build,
                BuildPhaseView::RecordRequired,
                action,
            )
            &&& action is Link && !(build.phase is LinkRequired) ==> goes_on(
                step,
                AssemblyView { delivered: None, ..state },
                build,
                BuildPhaseView::RecordDependency(state.delivered->0),
                action,
            )
            &&& action is ListFiles ==> goes_on(
                step,
                state,
                build,
                BuildPhaseView::ListSources,
                action,
            )
            &&& action is LinkSupport ==> goes_on(step, state, build, BuildPhaseView::Support, action)
            &&& action is AssembleExecutable || action is AssembleKernel || action
                is AssembleLibrary ==> goes_on(
                step,
                state,
                build,
                BuildPhaseView::Assembled,
                action,
            )
            &&& action is ReadSources ==> goes_on(
                step,
                state,
                build,
                BuildPhaseView::ReadSources,
                action,
            )
            &&& action is CreatePackage ==> goes_on(
                step,
                state,
                build,
                BuildPhaseView::Package,
                action,
            )
        }),
{
    lemma_build_on(plan, state, build, event);
}

/// What a package waits for once its modules are there. Modules that were provided are used once.
pub proof fn package_waits_for_its_modules(
    plan: PlanView,
    state: AssemblyView,
    build: BuildView,
    event: EventView,
)
    ensures
        match build_on(plan, state, build, event).action {
            ActionView::ParseModules { modules } => goes_on(
                build_on(plan, state, build, event),
                state,
                build,
                BuildPhaseView::Modules { support: modules.support.len() > 0 },
                ActionView::ParseModules { modules },
            ),
            ActionView::UseModules { modules } => goes_on(
                build_on(plan, state, build, event),
                state,
                BuildView { sources: None, ..build },
                BuildPhaseView::Modules { support: modules.support.len() > 0 },
                ActionView::UseModules { modules },
            ),
            _ => true,
        },
{
    lemma_build_on(plan, state, build, event);
}

/// Once an assembler is started, the library that the package needs is linked, and where it needs
/// none the dependencies follow at once.
pub proof fn library_is_linked_before_the_dependencies(
    plan: PlanView,
    state: AssemblyView,
    build: BuildView,
)
    requires
        build.phase is LinkRequired,
    ensures
        ({
            let step = build_on(plan, state, build, EventView::Proceed);
            match build.required {
                Some(required) => step.action == (ActionView::Link {
                    package: required.package,
                    linkage: if required.package.kind is Kernel {
                        Linkage::Dynamic
                    } else {
                        Linkage::Static
                    },
                }),
                None => goes_on(
                    step,
                    state,
                    build,
                    BuildPhaseView::Dependencies,
                    ActionView::Continue,
                ),
            }
        }),
{
    lemma_build_on(plan, state, build, EventView::Proceed);
}

/// A dependency that is linked is done with: the next one follows. What cannot be recorded beside
/// what is recorded already ends the assembly.
pub proof fn linked_dependency_is_followed_by_the_next(
    plan: PlanView,
    state: AssemblyView,
    build: BuildView,
    resolved: ResolvedView,
)
    requires
        build.phase == BuildPhaseView::RecordDependency(resolved),
        node(plan, build.id) is Some,
        build.next < node(plan, build.id)->0.dependencies.len(),
    ensures
        ({
            let step = build_on(plan, state, build, EventView::Proceed);
            let edge = node(plan, build.id)->0.dependencies[build.next as int];
            match linking::dependency_linked(build.link, resolved, edge.linkage) {
                Ok(link) => goes_on(
                    step,
                    state,
                    BuildView { link, next: build.next + 1, ..build },
                    BuildPhaseView::Dependencies,
                    ActionView::Continue,
                ),
                Err(message) => step.action == (ActionView::Failed { message }),
            }
        }),
{
    lemma_build_on(plan, state, build, EventView::Proceed);
}

/// Once the library that a package needs is linked, its kernel is recorded, and the dependencies
/// follow.
pub proof fn linked_library_is_followed_by_the_dependencies(
    plan: PlanView,
    state: AssemblyView,
    build: BuildView,
    required: ResolvedView,
)
    requires
        build.phase is RecordRequired,
        build.required == Some(required),
    ensures
        ({
            let step = build_on(plan, state, build, EventView::Proceed);
            match linking::kernel_linked(build.link, required) {
                Ok(link) => goes_on(
                    step,
                    state,
                    BuildView { link, ..build },
                    BuildPhaseView::Dependencies,
                    ActionView::Continue,
                ),
                Err(message) => step.action == (ActionView::Failed { message }),
            }
        }),
{
    lemma_build_on(plan, state, build, EventView::Proceed);
}

/// Once the files of a target are listed, its modules are parsed, or the assembly fails as finding
/// them fails.
pub proof fn listed_files_are_parsed(
    plan: PlanView,
    state: AssemblyView,
    build: BuildView,
    listing: Result<Seq<ListedView>, Seq<char>>,
)
    requires
        build.phase is ListSources,
    ensures
        ({
            let step = build_on(plan, state, build, EventView::Listing(listing));
            match sources::target_modules(build.project, build.target, listing) {
                Ok(modules) => step.action == (ActionView::ParseModules { modules }),
                Err(message) => step.action == (ActionView::Failed { message }),
            }
        }),
{
    lemma_build_on(plan, state, build, EventView::Listing(listing));
}

/// A package that is created is handed over with the kernel that it was assembled against, and kept
/// for whatever else depends on it, unless its modules were provided.
pub proof fn created_package_is_handed_over(
    plan: PlanView,
    state: AssemblyView,
    build: BuildView,
    package: PackageView,
)
    requires
        build.phase is Package,
    ensures
        ({
            let step = build_on(plan, state, build, EventView::Package(package));
            let resolved = ResolvedView { package, kernel: build.link.kernel };
            &&& step.state.cache == if build.provided {
                state.cache
            } else {
                state.cache.insert(build.id, resolved)
            }
            &&& state.stack.len() > 0 ==> step.action is Continue && step.state.stack == state.stack
                && step.state.delivered == Some(resolved)
            &&& state.stack.len() == 0 && state.pending is None ==> step.action == (
            ActionView::Finished { package })
            &&& state.stack.len() == 0 && state.pending is Some ==> step.action is Continue
                && step.state.pending is None && step.state.stack == seq![
                FrameView::Build(BuildView { required: Some(resolved), ..state.pending->0 }),
            ]
        }),
{
    lemma_build_on(plan, state, build, EventView::Package(package));
    let step = build_on(plan, state, build, EventView::Package(package));
    if state.stack.len() == 0 && state.pending is Some {
        let resolved = ResolvedView { package, kernel: build.link.kernel };
        assert(step.state.stack =~= seq![
            FrameView::Build(BuildView { required: Some(resolved), ..state.pending->0 }),
        ]);
    }
}

/// A package that is ready under the name of the target is handed over in place of an assembly, if
/// it is of the type of the target, and stops the assembly if it is not.
pub proof fn ready_package_is_handed_over(
    plan: PlanView,
    state: AssemblyView,
    build: BuildView,
    name: Seq<char>,
)
    requires
        build.phase is Start,
        !build.provided,
        state.cache.contains_key(name),
        name == if build.target.ty is Executable {
            build.project.name + ":"@ + build.target.name
        } else {
            build.project.name
        },
    ensures
        ({
            let step = build_on(plan, state, build, EventView::Proceed);
            let ready = state.cache[name];
            if ready.package.kind != build.target.ty {
                step.action == (ActionView::KindMismatch {
                    found: ready.package.kind,
                    expected: build.target.ty,
                })
            } else {
                &&& step.state.cache == state.cache
                &&& state.stack.len() > 0 ==> step.action is Continue && step.state.stack
                    == state.stack && step.state.delivered == Some(ready)
                &&& state.stack.len() == 0 && state.pending is None ==> step.action == (
                ActionView::Finished { package: ready.package })
            }
        }),
{
    lemma_build_on(plan, state, build, EventView::Proceed);
}

/// What fails ends the assembly, with the message of the failure.
pub proof fn failures_end_the_assembly(plan: PlanView, state: AssemblyView, message: Seq<char>)
    requires
        state.stack.len() > 0,
    ensures
        ({
            let step = assembly_model::step(plan, state, EventView::Failed(message));
            &&& step.action == (ActionView::Failed { message })
            &&& step.state.stack.len() == 0
            &&& step.state.pending is None
            &&& step.state.delivered is None
        }),
{
}

/// Where an assembly begins: nothing is ready, and the target is assembled, of an executable of a
/// project with a library the library before it. Modules are provided for the target alone.
pub proof fn assembly_begins_with_the_target(
    root: Seq<char>,
    project: ProjectView,
    target: TargetView,
    sources: Option<ProvidedView>,
)
    ensures
        ({
            let start = assembly_model::started(root, project, target, sources);
            let first = start.stack[0]->Build_0;
            &&& start.cache == Map::<Seq<char>, ResolvedView>::empty()
            &&& start.delivered is None
            &&& start.stack.len() == 1
            &&& start.stack[0] is Build
            &&& first.phase is Start
            &&& first.id == root
            &&& first.project == project
            &&& first.required is None
            &&& first.next == 0
            &&& first.link.dependencies.len() == 0
            &&& first.link.kernel is None
            &&& if target.ty is Executable && project.library is Some {
                &&& first.target == project.library->0
                &&& first.sources is None
                &&& !first.provided
                &&& start.pending is Some
                &&& start.pending->0.target == target
                &&& start.pending->0.project == project
                &&& start.pending->0.id == root
                &&& start.pending->0.sources == sources
                &&& start.pending->0.provided == (sources is Some)
                &&& start.pending->0.phase is Start
            } else {
                &&& first.target == target
                &&& first.sources == sources
                &&& first.provided == (sources is Some)
                &&& start.pending is None
            }
        }),
{
}

/// An assembly begins if the target that was selected exists. The work on it is on the stack, or waits
/// for that on the library: it is the target that was selected, of this project, with the modules that
/// were provided.
pub proof fn assembly_begins_with_what_was_selected(
    project: ProjectView,
    graph: GraphView,
    selector: ProjectTargetSelector<'_>,
    sources: Option<ProvidedView>,
)
    ensures
        match (
            assembler::assembly_start(project, graph, selector, sources),
            project::selected_target(project, selector),
        ) {
            (Ok(start), Ok(target)) => {
                let work = if target.ty is Executable && project.library is Some {
                    start.pending->0
                } else {
                    start.stack[0]->Build_0
                };
                &&& start.stack.len() == 1
                &&& start.stack[0] is Build
                &&& start.pending is Some <==> target.ty is Executable && project.library is Some
                &&& start.pending is Some ==> start.stack[0]->Build_0.target == project.library->0
                &&& work.target == target
                &&& work.project == project
                &&& work.id == graph.root
                &&& work.sources == sources
                &&& work.provided == (sources is Some)
                &&& work.phase is Start
            },
            (Err(error), Err(message)) => error == message,
            _ => false,
        },
{
    if let Ok(target) = project::selected_target(project, selector) {
        assembly_begins_with_the_target(graph.root, project, target, sources);
    }
}

// Dependencies.

/// The step of a dependency that is being resolved on top of `state`.
pub open spec fn resolve_on(
    plan: PlanView,
    state: AssemblyView,
    id: Seq<char>,
    phase: ResolvePhaseView,
    event: EventView,
) -> StepView {
    assembly_model::step(plan, state.with(FrameView::Resolve(ResolveView { id, phase })), event)
}

/// The resolution of a dependency has come to `phase` and asks for `action`.
pub open spec fn comes_to(
    step: StepView,
    state: AssemblyView,
    id: Seq<char>,
    phase: ResolvePhaseView,
    action: ActionView,
) -> bool {
    &&& step.action == action
    &&& step.state == (AssemblyView {
        stack: state.stack.push(FrameView::Resolve(ResolveView { id, phase })),
        ..state
    })
}

/// A dependency is resolved: it is handed to the package that waits for it, and kept.
pub open spec fn hands_over(
    step: StepView,
    state: AssemblyView,
    id: Seq<char>,
    resolved: ResolvedView,
) -> bool {
    &&& step.action is Continue
    &&& step.state == (AssemblyView {
        delivered: Some(resolved),
        cache: state.cache.insert(id, resolved),
        ..state
    })
}

proof fn lemma_resolve_on(
    plan: PlanView,
    state: AssemblyView,
    id: Seq<char>,
    phase: ResolvePhaseView,
    event: EventView,
)
    ensures
        resolve_on(plan, state, id, phase, event) == assembly_model::resolve_step(
            plan,
            state,
            ResolveView { id, phase },
            event,
        ),
{
    assert(state.with(FrameView::Resolve(ResolveView { id, phase })).stack.drop_last()
        =~= state.stack);
}

/// A dependency that is not ready is taken from where the graph says: from its project, if that has a
/// library, from the registry in the version of the graph, if it has none, from the registry in the
/// version that was selected, or from a file.
pub proof fn dependency_is_taken_from_where_the_graph_says(
    plan: PlanView,
    state: AssemblyView,
    id: Seq<char>,
)
    requires
        !state.cache.contains_key(id),
    ensures
        ({
            let step = resolve_on(plan, state, id, ResolvePhaseView::Start, EventView::Proceed);
            match node(plan, id) {
                None => step.action is Failed,
                Some(found) => match found.provenance {
                    NodeProvenanceView::Virtual => step.action == (ActionView::Failed {
                        message: "package '"@ + id + "' is missing a manifest path"@,
                    }),
                    NodeProvenanceView::Real { manifest_path, has_library, .. } => if has_library {
                        comes_to(
                            step,
                            state,
                            id,
                            ResolvePhaseView::LoadProject,
                            ActionView::LoadProject { name: id, manifest_path },
                        )
                    } else {
                        comes_to(
                            step,
                            state,
                            id,
                            ResolvePhaseView::FindCanonical,
                            ActionView::FindCanonical { name: id, version: found.version },
                        )
                    },
                    NodeProvenanceView::Registry { selected } => comes_to(
                        step,
                        state,
                        id,
                        ResolvePhaseView::LoadPackage,
                        ActionView::LoadPackage { name: id, version: selected },
                    ),
                    NodeProvenanceView::Preassembled { path, .. } => comes_to(
                        step,
                        state,
                        id,
                        ResolvePhaseView::ReadPackage,
                        ActionView::ReadPackage { path },
                    ),
                },
            }
        }),
{
    lemma_resolve_on(plan, state, id, ResolvePhaseView::Start, EventView::Proceed);
}

/// The library of a dependency is looked up in the registry before it is assembled: under the version
/// of the graph. A project without a library is refused.
pub proof fn library_of_a_dependency_is_looked_up(
    plan: PlanView,
    state: AssemblyView,
    id: Seq<char>,
    project: ProjectView,
)
    requires
        node(plan, id) is Some,
    ensures
        ({
            let step = resolve_on(
                plan,
                state,
                id,
                ResolvePhaseView::LoadProject,
                EventView::Project(project),
            );
            match project.library {
                Some(target) => comes_to(
                    step,
                    state,
                    id,
                    ResolvePhaseView::FindRegistered { project, target },
                    ActionView::FindCanonical { name: id, version: node(plan, id)->0.version },
                ),
                None => step.action == (ActionView::Failed {
                    message: "dependency '"@ + id + "' does not define a library target"@,
                }),
            }
        }),
{
    lemma_resolve_on(
        plan,
        state,
        id,
        ResolvePhaseView::LoadProject,
        EventView::Project(project),
    );
}

/// A registered version of a dependency is loaded, and held against the sources; what is not
/// registered is assembled, from the sources of its own project.
pub proof fn unregistered_dependency_is_assembled(
    plan: PlanView,
    state: AssemblyView,
    id: Seq<char>,
    project: ProjectView,
    target: TargetView,
    registered: Option<VersionView>,
)
    ensures
        ({
            let step = resolve_on(
                plan,
                state,
                id,
                ResolvePhaseView::FindRegistered { project, target },
                EventView::Canonical(registered),
            );
            let above = step.state.stack.last()->Build_0;
            match registered {
                Some(version) => comes_to(
                    step,
                    state,
                    id,
                    ResolvePhaseView::LoadRegistered { project, target },
                    ActionView::LoadPackage { name: id, version },
                ),
                None => {
                    &&& step.action is Continue
                    &&& step.state.cache == state.cache
                    &&& step.state.stack.len() == state.stack.len() + 2
                    &&& step.state.stack[state.stack.len() as int] == FrameView::Resolve(
                        ResolveView { id, phase: ResolvePhaseView::AwaitBuild },
                    )
                    &&& step.state.stack.last() is Build
                    &&& above.id == id
                    &&& above.project == project
                    &&& above.target == target
                    &&& above.required is None
                    &&& above.sources is None
                    &&& !above.provided
                    &&& above.next == 0
                    &&& above.link.dependencies.len() == 0
                    &&& above.link.kernel is None
                    &&& above.phase is Start
                },
            }
        }),
{
    lemma_resolve_on(
        plan,
        state,
        id,
        ResolvePhaseView::FindRegistered { project, target },
        EventView::Canonical(registered),
    );
}

/// What goes into the provenance of the sources of a dependency is read once the registered package is
/// loaded.
pub proof fn registered_package_is_held_against_the_sources(
    plan: PlanView,
    state: AssemblyView,
    id: Seq<char>,
    project: ProjectView,
    target: TargetView,
    package: PackageView,
)
    requires
        node(plan, id) is Some,
        node(plan, id)->0.provenance is Real,
    ensures
        comes_to(
            resolve_on(
                plan,
                state,
                id,
                ResolvePhaseView::LoadRegistered { project, target },
                EventView::Package(package),
            ),
            state,
            id,
            ResolvePhaseView::CheckRegistered { project, target, package },
            ActionView::ReadSources {
                name: id,
                project,
                target,
                manifest_path: node(plan, id)->0.provenance->Real_manifest_path,
                in_workspace: node(plan, id)->0.provenance->Real_in_workspace,
            },
        ),
{
    lemma_resolve_on(
        plan,
        state,
        id,
        ResolvePhaseView::LoadRegistered { project, target },
        EventView::Package(package),
    );
}

/// A registered package is used in place of its sources if and only if it records the provenance that
/// the sources have now. If it records another one, or none, the message asks for a new version.
pub proof fn registered_package_is_used_if_nothing_has_changed(
    plan: PlanView,
    state: AssemblyView,
    id: Seq<char>,
    project: ProjectView,
    target: TargetView,
    package: PackageView,
    event: EventView,
)
    requires
        node(plan, id) is Some,
        node(plan, id)->0.provenance is Real,
        event is Sources,
    ensures
        ({
            let step = resolve_on(
                plan,
                state,
                id,
                ResolvePhaseView::CheckRegistered { project, target, package },
                event,
            );
            let version = node(plan, id)->0.version;
            let recorded = crate::provenance::recorded_provenance(package.sections);
            match computed_provenance(plan, id, project, target, event) {
                Err(message) => step.action == (ActionView::Failed { message }),
                Ok(expected) => {
                    &&& recorded is Some && recorded->0 is Ok && recorded->0->Ok_0 == expected
                        ==> comes_to(
                        step,
                        state,
                        id,
                        ResolvePhaseView::Kernel(package),
                        ActionView::Continue,
                    )
                    &&& recorded is None ==> step.action == (ActionView::Failed {
                        message: "package '"@ + id + "' version '"@ + version
                            + "' is already registered, but the canonical artifact is missing source provenance; bump the semantic version"@,
                    })
                    &&& recorded is Some && recorded->0 is Err ==> step.action is Failed
                    &&& recorded is Some && recorded->0 is Ok && recorded->0->Ok_0 != expected
                        ==> step.action == (ActionView::Failed {
                        message: "package '"@ + id + "' version '"@ + version
                            + "' is already registered with different source provenance (expected "@
                            + expected.description() + ", found "@
                            + recorded->0->Ok_0.description() + "); bump the semantic version"@,
                    })
                },
            }
        }),
{
    lemma_resolve_on(
        plan,
        state,
        id,
        ResolvePhaseView::CheckRegistered { project, target, package },
        event,
    );
}

/// A dependency that was assembled is published, and handed over once it is, as it was assembled.
pub proof fn assembled_dependency_is_published_and_handed_over(
    plan: PlanView,
    state: AssemblyView,
    id: Seq<char>,
    resolved: ResolvedView,
)
    requires
        state.stack.len() > 0,
    ensures
        state.delivered == Some(resolved) ==> comes_to(
            resolve_on(plan, state, id, ResolvePhaseView::AwaitBuild, EventView::Proceed),
            AssemblyView { delivered: None, ..state },
            id,
            ResolvePhaseView::Publish(resolved),
            ActionView::Publish { package: resolved.package },
        ),
        hands_over(
            resolve_on(
                plan,
                state,
                id,
                ResolvePhaseView::Publish(resolved),
                EventView::Proceed,
            ),
            state,
            id,
            resolved,
        ),
{
    lemma_resolve_on(plan, state, id, ResolvePhaseView::AwaitBuild, EventView::Proceed);
    lemma_resolve_on(plan, state, id, ResolvePhaseView::Publish(resolved), EventView::Proceed);
}

/// A dependency without a library to assemble is loaded from the registry, and missing there it is
/// missed.
pub proof fn dependency_without_sources_is_loaded(
    plan: PlanView,
    state: AssemblyView,
    id: Seq<char>,
    registered: Option<VersionView>,
)
    requires
        node(plan, id) is Some,
    ensures
        ({
            let step = resolve_on(
                plan,
                state,
                id,
                ResolvePhaseView::FindCanonical,
                EventView::Canonical(registered),
            );
            match registered {
                Some(version) => comes_to(
                    step,
                    state,
                    id,
                    ResolvePhaseView::LoadPackage,
                    ActionView::LoadPackage { name: id, version },
                ),
                None => step.action == (ActionView::Failed {
                    message: "dependency '"@ + id + "' version '"@ + node(plan, id)->0.version
                        + "' was not found in the package registry"@,
                }),
            }
        }),
{
    lemma_resolve_on(
        plan,
        state,
        id,
        ResolvePhaseView::FindCanonical,
        EventView::Canonical(registered),
    );
}

/// The kernel of a package that was loaded or read is looked for. Bytes that hold no package end the
/// assembly.
pub proof fn loaded_package_has_its_kernel_looked_for(
    plan: PlanView,
    state: AssemblyView,
    id: Seq<char>,
    package: PackageView,
    bytes: Seq<u8>,
)
    ensures
        comes_to(
            resolve_on(
                plan,
                state,
                id,
                ResolvePhaseView::LoadPackage,
                EventView::Package(package),
            ),
            state,
            id,
            ResolvePhaseView::Kernel(package),
            ActionView::Continue,
        ),
        match package::decoded_package(bytes) {
            Ok(read) => comes_to(
                resolve_on(plan, state, id, ResolvePhaseView::ReadPackage, EventView::Bytes(bytes)),
                state,
                id,
                ResolvePhaseView::Kernel(read),
                ActionView::Continue,
            ),
            Err(error) => node(plan, id) is Some && node(plan, id)->0.provenance is Preassembled
                ==> resolve_on(
                plan,
                state,
                id,
                ResolvePhaseView::ReadPackage,
                EventView::Bytes(bytes),
            ).action == (ActionView::Failed {
                message: "failed to decode package '"@ + files::path_text(
                    node(plan, id)->0.provenance->Preassembled_path,
                ) + "': "@ + error,
            }),
        },
{
    lemma_resolve_on(plan, state, id, ResolvePhaseView::LoadPackage, EventView::Package(package));
    lemma_resolve_on(plan, state, id, ResolvePhaseView::ReadPackage, EventView::Bytes(bytes));
}

/// The dependencies of a package that are kernels.
pub open spec fn is_kernel_dependency(package: PackageView, i: int) -> bool {
    0 <= i < package.dependencies.len() && package.dependencies[i].kind is Kernel
}

/// The kernel that a package needs at run time is the only dependency of it that is a kernel. There is
/// none where no dependency is a kernel, and two are refused.
pub proof fn kernel_is_the_only_one(package: PackageView)
    ensures
        match linking::kernel_dependency(package) {
            Ok(None) => forall|i: int| !is_kernel_dependency(package, i),
            Ok(Some(kernel)) => {
                &&& kernel.kind is Kernel
                &&& exists|i: int|
                    is_kernel_dependency(package, i) && package.dependencies[i] == kernel
                        && forall|j: int| #[trigger] is_kernel_dependency(package, j) ==> j == i
            },
            Err(_) => exists|i: int, j: int| #[trigger]
                is_kernel_dependency(package, i) && #[trigger] is_kernel_dependency(package, j) && i
                    != j,
        },
{
    lemma_kernels(package.dependencies);
    let list = package.dependencies;
    let kernels = linking::kernels(list);
    if kernels.len() == 0 {
        assert forall|i: int| !is_kernel_dependency(package, i) by {
            if is_kernel_dependency(package, i) {
                assert(kernel_at(list, i));
            }
        }
    } else if kernels.len() == 1 {
        let i = choose|i: int|
            kernel_at(list, i) && list[i] == kernels[0] && forall|j: int| #[trigger]
                kernel_at(list, j) ==> j == i;
        assert(is_kernel_dependency(package, i));
        assert forall|j: int| #[trigger] is_kernel_dependency(package, j) implies j == i by {
            assert(kernel_at(list, j));
        }
    } else {
        let (i, j) = choose|i: int, j: int| #[trigger]
            kernel_at(list, i) && #[trigger] kernel_at(list, j) && i != j;
        assert(is_kernel_dependency(package, i) && is_kernel_dependency(package, j));
    }
}

spec fn kernel_at(list: Seq<package::DependencyView>, i: int) -> bool {
    0 <= i < list.len() && list[i].kind is Kernel
}

proof fn lemma_kernels(list: Seq<package::DependencyView>)
    ensures
        linking::kernels(list).len() == 0 ==> forall|i: int| !kernel_at(list, i),
        linking::kernels(list).len() == 1 ==> exists|i: int|
            kernel_at(list, i) && list[i] == linking::kernels(list)[0] && forall|j: int| #[trigger]
                kernel_at(list, j) ==> j == i,
        linking::kernels(list).len() > 1 ==> exists|i: int, j: int| #[trigger]
            kernel_at(list, i) && #[trigger] kernel_at(list, j) && i != j,
    decreases list.len(),
{
    reveal(Seq::filter);
    if list.len() > 0 {
        let rest = list.drop_last();
        let n = list.len() - 1;
        lemma_kernels(rest);
        assert forall|i: int| 0 <= i < n implies kernel_at(list, i) == kernel_at(rest, i) by {
            assert(rest[i] == list[i]);
        }
        let earlier = linking::kernels(rest);
        if list.last().kind is Kernel {
            assert(kernel_at(list, n));
            if earlier.len() == 0 {
                assert forall|j: int| #[trigger] kernel_at(list, j) implies j == n by {
                    if j < n {
                        assert(!kernel_at(rest, j));
                    }
                }
            } else if earlier.len() == 1 {
                let i = choose|i: int|
                    kernel_at(rest, i) && rest[i] == earlier[0] && forall|j: int| #[trigger]
                        kernel_at(rest, j) ==> j == i;
                assert(kernel_at(list, i) && kernel_at(list, n) && i != n);
            } else {
                let (i, j) = choose|i: int, j: int| #[trigger]
                    kernel_at(rest, i) && #[trigger] kernel_at(rest, j) && i != j;
                assert(kernel_at(list, i) && kernel_at(list, j));
            }
        } else {
            assert(!kernel_at(list, n));
            if earlier.len() == 0 {
                assert forall|i: int| !kernel_at(list, i) by {
                    if 0 <= i < n {
                        assert(!kernel_at(rest, i));
                    }
                }
            } else if earlier.len() == 1 {
                let i = choose|i: int|
                    kernel_at(rest, i) && rest[i] == earlier[0] && forall|j: int| #[trigger]
                        kernel_at(rest, j) ==> j == i;
                assert(kernel_at(list, i));
                assert forall|j: int| #[trigger] kernel_at(list, j) implies j == i by {
                    assert(kernel_at(rest, j));
                }
            } else {
                let (i, j) = choose|i: int, j: int| #[trigger]
                    kernel_at(rest, i) && #[trigger] kernel_at(rest, j) && i != j;
                assert(kernel_at(list, i) && kernel_at(list, j));
            }
        }
    }
}

/// The kernel of a package: a kernel is its own, a package that needs none has none, and any other one
/// has the kernel that it declares, which is looked up with exactly its digest.
pub proof fn kernel_of_a_package_is_the_one_that_it_declares(
    plan: PlanView,
    state: AssemblyView,
    id: Seq<char>,
    package: PackageView,
)
    requires
        state.stack.len() > 0,
    ensures
        ({
            let step = resolve_on(
                plan,
                state,
                id,
                ResolvePhaseView::Kernel(package),
                EventView::Proceed,
            );
            if package.kind is Kernel {
                hands_over(step, state, id, ResolvedView { package, kernel: Some(package) })
            } else {
                match linking::kernel_dependency(package) {
                    Err(message) => step.action == (ActionView::Failed { message }),
                    Ok(None) => hands_over(step, state, id, ResolvedView { package, kernel: None }),
                    Ok(Some(kernel)) => comes_to(
                        step,
                        state,
                        id,
                        ResolvePhaseView::FindKernel { package, kernel },
                        ActionView::FindExact {
                            name: kernel.name,
                            version: VersionView {
                                version: kernel.version,
                                digest: Some(kernel.digest),
                            },
                        },
                    ),
                }
            }
        }),
{
    lemma_resolve_on(plan, state, id, ResolvePhaseView::Kernel(package), EventView::Proceed);
}

/// A declared kernel that is registered is loaded, and one that is not is taken out of the package.
pub proof fn registered_kernel_is_preferred(
    plan: PlanView,
    state: AssemblyView,
    id: Seq<char>,
    package: PackageView,
    kernel: package::DependencyView,
    registered: bool,
)
    requires
        state.stack.len() > 0,
    ensures
        ({
            let step = resolve_on(
                plan,
                state,
                id,
                ResolvePhaseView::FindKernel { package, kernel },
                EventView::Exact(registered),
            );
            if registered {
                comes_to(
                    step,
                    state,
                    id,
                    ResolvePhaseView::LoadKernel { package, kernel },
                    ActionView::LoadPackage {
                        name: kernel.name,
                        version: VersionView {
                            version: kernel.version,
                            digest: Some(kernel.digest),
                        },
                    },
                )
            } else {
                match linking::embedded_kernel(package) {
                    Err(message) => step.action == (ActionView::Failed { message }),
                    Ok(embedded) => hands_over(
                        step,
                        state,
                        id,
                        ResolvedView { package, kernel: embedded },
                    ),
                }
            }
        }),
{
    lemma_resolve_on(
        plan,
        state,
        id,
        ResolvePhaseView::FindKernel { package, kernel },
        EventView::Exact(registered),
    );
}

/// What is loaded as the kernel of a package has to be a kernel.
pub proof fn loaded_kernel_is_a_kernel(
    plan: PlanView,
    state: AssemblyView,
    id: Seq<char>,
    package: PackageView,
    kernel: package::DependencyView,
    loaded: PackageView,
)
    requires
        state.stack.len() > 0,
    ensures
        ({
            let step = resolve_on(
                plan,
                state,
                id,
                ResolvePhaseView::LoadKernel { package, kernel },
                EventView::Package(loaded),
            );
            if loaded.kind is Kernel {
                hands_over(step, state, id, ResolvedView { package, kernel: Some(loaded) })
            } else {
                step.action is Failed
            }
        }),
{
    lemma_resolve_on(
        plan,
        state,
        id,
        ResolvePhaseView::LoadKernel { package, kernel },
        EventView::Package(loaded),
    );
}

} // verus!
