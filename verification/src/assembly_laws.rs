//! What holds of every assembly.

use vstd::prelude::*;

use crate::assembly_model;
use crate::assembly_model::{
    ActionView, AssemblyView, BuildPhaseView, BuildView, EventView, FrameView, PlanView,
    ProvidedView, ResolvePhaseView, ResolveView,
};
use crate::closure;
use crate::closure::SnapshotView;
use crate::graph;
use crate::graph::NodeProvenanceView;
use crate::linking;
use crate::linking::{LinkView, ResolvedView};
use crate::package::{PackageView, SectionView, KERNEL, PROJECT_SOURCE_PROVENANCE};
use crate::project::{ProjectView, TargetView};
use crate::provenance;
use crate::provenance::ProvenanceView;
use crate::sources::ListedView;

verus! {

/// What lies above a frame is what it waits for: a dependency that is being resolved above a
/// package, and the package that a dependency is assembled into above the dependency.
pub open spec fn waits_for(plan: PlanView, lower: FrameView, upper: FrameView) -> bool {
    match (lower, upper) {
        (FrameView::Build(build), FrameView::Resolve(frame)) => build.phase is AwaitDependency
            && assembly_model::current_edge(plan, build) is Ok && assembly_model::current_edge(
            plan,
            build,
        )->Ok_0.dependency == frame.id,
        (FrameView::Resolve(frame), FrameView::Build(build)) => frame.phase is AwaitBuild && frame.id
            == build.id && !build.provided && build.required is None,
        _ => false,
    }
}

/// The frame waits for a package that is handed to it.
pub open spec fn awaits_package(frame: FrameView) -> bool {
    match frame {
        FrameView::Build(build) => build.phase is AwaitDependency,
        FrameView::Resolve(frame) => frame.phase is AwaitBuild,
    }
}

/// The shape of every assembly: at the bottom of the stack is the root of the graph, every frame
/// waits for the one above it, and a package is handed over only to a topmost frame that waits
/// for it.
pub open spec fn well_shaped(plan: PlanView, state: AssemblyView) -> bool {
    &&& state.stack.len() > 0 ==> state.stack[0] is Build && state.stack[0]->Build_0.id
        == plan.graph.root
    &&& forall|i: int|
        0 <= i < state.stack.len() - 1 ==> waits_for(
            plan,
            #[trigger] state.stack[i],
            state.stack[i + 1],
        )
    &&& state.stack.len() > 0 ==> (state.delivered is Some <==> awaits_package(state.stack.last()))
    &&& state.stack.len() == 0 ==> state.pending is None && state.delivered is None
    &&& state.pending matches Some(build) ==> build.id == plan.graph.root && build.phase is Start
}

/// An assembly has the right shape from its first step on.
pub proof fn assemblies_start_well_shaped(
    plan: PlanView,
    project: ProjectView,
    target: TargetView,
    sources: Option<ProvidedView>,
)
    ensures
        well_shaped(
            plan,
            assembly_model::started(plan.graph.root, project, target, sources),
        ),
{
}

proof fn lemma_rest(plan: PlanView, state: AssemblyView)
    requires
        well_shaped(plan, state),
        state.stack.len() > 1,
    ensures
        awaits_package(state.stack.drop_last().last()),
        waits_for(plan, state.stack.drop_last().last(), state.stack.last()),
        forall|i: int|
            0 <= i < state.stack.drop_last().len() - 1 ==> waits_for(
                plan,
                #[trigger] state.stack.drop_last()[i],
                state.stack.drop_last()[i + 1],
            ),
{
    let n = state.stack.len();
    assert(waits_for(plan, state.stack[n - 2], state.stack[n - 2 + 1]));
    assert forall|i: int| 0 <= i < state.stack.drop_last().len() - 1 implies waits_for(
        plan,
        #[trigger] state.stack.drop_last()[i],
        state.stack.drop_last()[i + 1],
    ) by {
        assert(waits_for(plan, state.stack[i], state.stack[i + 1]));
    }
}

/// The frames are stages of the same work.
pub open spec fn same_work(a: FrameView, b: FrameView) -> bool {
    match (a, b) {
        (FrameView::Build(a), FrameView::Build(b)) => a.id == b.id && a.provided == b.provided
            && a.required == b.required,
        (FrameView::Resolve(a), FrameView::Resolve(b)) => a.id == b.id,
        _ => false,
    }
}

/// The assembly is over.
pub open spec fn is_over(state: AssemblyView) -> bool {
    state.stack.len() == 0 && state.pending is None && state.delivered is None
}

/// What a step does to the stack, where `rest` is all but the topmost frame `top`: the assembly is
/// over, the work on top goes on, it waits for other work, or its package is handed over.
pub open spec fn stack_step(
    plan: PlanView,
    rest: AssemblyView,
    top: FrameView,
    after: AssemblyView,
) -> bool {
    ||| is_over(after)
    ||| {
        &&& after.stack.len() == rest.stack.len() + 1
        &&& after.stack.drop_last() == rest.stack
        &&& same_work(after.stack.last(), top)
        &&& !awaits_package(after.stack.last())
        &&& after.pending == rest.pending
        &&& after.delivered is None
    }
    ||| {
        &&& after.stack.len() == rest.stack.len() + 2
        &&& after.stack.drop_last().drop_last() == rest.stack
        &&& same_work(after.stack[rest.stack.len() as int], top)
        &&& waits_for(plan, after.stack[rest.stack.len() as int], after.stack.last())
        &&& !awaits_package(after.stack.last())
        &&& after.pending == rest.pending
        &&& after.delivered is None
    }
    ||| {
        &&& rest.stack.len() > 0
        &&& after.stack == rest.stack
        &&& after.pending == rest.pending
        &&& after.delivered is Some
    }
    ||| {
        &&& rest.stack.len() == 0
        &&& rest.pending is Some
        &&& after.stack.len() == 1
        &&& after.stack[0] is Build
        &&& after.stack[0]->Build_0.id == rest.pending->0.id
        &&& after.stack[0]->Build_0.phase == rest.pending->0.phase
        &&& after.pending is None
        &&& after.delivered is None
    }
}

broadcast proof fn lemma_delivering(
    plan: PlanView,
    rest: AssemblyView,
    top: FrameView,
    resolved: ResolvedView,
)
    requires
        rest.delivered is None,
    ensures
        #[trigger] stack_step(plan, rest, top, assembly_model::delivering(rest, resolved).state),
{
}

broadcast proof fn lemma_going_on(
    plan: PlanView,
    rest: AssemblyView,
    top: FrameView,
    frame: FrameView,
    action: ActionView,
)
    requires
        rest.delivered is None,
        same_work(frame, top),
        !awaits_package(frame),
    ensures
        #[trigger] stack_step(
            plan,
            rest,
            top,
            assembly_model::going_on(rest, frame, action).state,
        ),
{
    let after = assembly_model::going_on(rest, frame, action).state;
    assert(after.stack.drop_last() =~= rest.stack);
}

proof fn lemma_build_dependencies(plan: PlanView, rest: AssemblyView, build: BuildView)
    requires
        rest.delivered is None,
    ensures
        stack_step(
            plan,
            rest,
            FrameView::Build(build),
            assembly_model::build_dependencies(plan, rest, build).state,
        ),
{
    broadcast use lemma_going_on;

    let after = assembly_model::build_dependencies(plan, rest, build).state;
    if let Some(node) = crate::graph::find_node(plan.graph.nodes, build.id) {
        if build.next < node.dependencies.len() {
            assert(after.stack.drop_last().drop_last() =~= rest.stack);
        } else {
            assert(after == assembly_model::build_sources(rest, build).state);
            match build.sources {
                Some(provided) => {},
                None => {},
            }
        }
    }
}

proof fn lemma_build_step(plan: PlanView, rest: AssemblyView, build: BuildView, event: EventView)
    requires
        rest.delivered is Some <==> build.phase is AwaitDependency,
    ensures
        stack_step(
            plan,
            rest,
            FrameView::Build(build),
            assembly_model::build_step(plan, rest, build, event).state,
        ),
{
    broadcast use lemma_going_on, lemma_delivering;

    match build.phase {
        BuildPhaseView::Dependencies => {
            lemma_build_dependencies(plan, rest, build);
        },
        BuildPhaseView::AwaitDependency => {
            let taken = AssemblyView { delivered: None, ..rest };
            if let (Some(resolved), Ok(edge)) = (
                rest.delivered,
                assembly_model::current_edge(plan, build),
            ) {
                if !(resolved.package.kind is Executable) {
                    let frame = build.at(BuildPhaseView::RecordDependency(resolved));
                    assert(taken.with(frame).stack.drop_last() =~= rest.stack);
                }
            }
        },
        BuildPhaseView::Package => {
            if let EventView::Package(package) = event {
                let resolved = ResolvedView { package, kernel: build.link.kernel };
                let ready = rest.with_ready(build.id, resolved);
                lemma_delivering(plan, ready, FrameView::Build(build), resolved);
            }
        },
        _ => {},
    }
}

broadcast proof fn lemma_resolved_with(
    plan: PlanView,
    rest: AssemblyView,
    top: FrameView,
    id: Seq<char>,
    resolved: ResolvedView,
)
    requires
        rest.delivered is None,
    ensures
        #[trigger] stack_step(
            plan,
            rest,
            top,
            assembly_model::resolved_with(rest, id, resolved).state,
        ),
{
    lemma_delivering(plan, rest.with_ready(id, resolved), top, resolved);
}

proof fn lemma_resolve_step(plan: PlanView, rest: AssemblyView, frame: ResolveView, event: EventView)
    requires
        rest.delivered is Some <==> frame.phase is AwaitBuild,
    ensures
        stack_step(
            plan,
            rest,
            FrameView::Resolve(frame),
            assembly_model::resolve_step(plan, rest, frame, event).state,
        ),
{
    broadcast use lemma_going_on, lemma_delivering, lemma_resolved_with;

    match (frame.phase, event) {
        (
            ResolvePhaseView::FindRegistered { project, target },
            EventView::Canonical(registered),
        ) => {
            let lower = frame.at(ResolvePhaseView::AwaitBuild);
            let upper = FrameView::Build(
                assembly_model::new_build(frame.id, project, target, None),
            );
            assert(rest.with(lower).with(upper).stack.drop_last().drop_last() =~= rest.stack);
        },
        (ResolvePhaseView::AwaitBuild, EventView::Proceed) => {
            let taken = AssemblyView { delivered: None, ..rest };
            let next = frame.at(ResolvePhaseView::Publish(rest.delivered->0));
            assert(taken.with(next).stack.drop_last() =~= rest.stack);
        },
        _ => {},
    }
}

proof fn lemma_shape(plan: PlanView, state: AssemblyView, after: AssemblyView)
    requires
        well_shaped(plan, state),
        state.stack.len() > 0,
        stack_step(
            plan,
            AssemblyView { stack: state.stack.drop_last(), ..state },
            state.stack.last(),
            after,
        ),
    ensures
        well_shaped(plan, after),
{
    let rest = state.stack.drop_last();
    if rest.len() > 0 {
        lemma_rest(plan, state);
        assert(rest[0] == state.stack[0]);
    }
    if !is_over(after) {
        assert forall|i: int| 0 <= i < after.stack.len() - 1 implies waits_for(
            plan,
            #[trigger] after.stack[i],
            after.stack[i + 1],
        ) by {
            if i + 1 < rest.len() {
                assert(waits_for(plan, rest[i], rest[i + 1]));
                assert(after.stack[i] == rest[i] && after.stack[i + 1] == rest[i + 1]);
            } else if i + 1 == rest.len() {
                assert(after.stack[i] == rest[i]);
                assert(waits_for(plan, rest.last(), state.stack.last()));
            }
        }
        if rest.len() > 0 {
            assert(after.stack[0] == rest[0]);
        }
    }
}

/// Every step ends the assembly, goes on with the work on top, puts other work on it, or hands its
/// package over.
pub proof fn steps_move_the_stack(plan: PlanView, state: AssemblyView, event: EventView)
    requires
        well_shaped(plan, state),
        state.stack.len() > 0,
    ensures
        stack_step(
            plan,
            AssemblyView { stack: state.stack.drop_last(), delivered: None, ..state },
            state.stack.last(),
            assembly_model::step(plan, state, event).state,
        ),
{
    let rest = AssemblyView { stack: state.stack.drop_last(), ..state };
    match state.stack.last() {
        FrameView::Build(build) => {
            lemma_build_step(plan, rest, build, event);
        },
        FrameView::Resolve(frame) => {
            lemma_resolve_step(plan, rest, frame, event);
        },
    }
}

/// Every step keeps the shape of the assembly, whatever the event is.
pub proof fn steps_keep_shape(plan: PlanView, state: AssemblyView, event: EventView)
    requires
        well_shaped(plan, state),
    ensures
        well_shaped(plan, assembly_model::step(plan, state, event).state),
{
    if state.stack.len() > 0 {
        let rest = AssemblyView { stack: state.stack.drop_last(), ..state };
        match state.stack.last() {
            FrameView::Build(build) => {
                lemma_build_step(plan, rest, build, event);
            },
            FrameView::Resolve(frame) => {
                lemma_resolve_step(plan, rest, frame, event);
            },
        }
        lemma_shape(plan, state, assembly_model::step(plan, state, event).state);
    }
}

/// Every step leaves the frames below the topmost one as they are, unless the assembly is over.
pub proof fn steps_leave_lower_frames(plan: PlanView, state: AssemblyView, event: EventView)
    requires
        well_shaped(plan, state),
        state.stack.len() > 0,
    ensures
        ({
            let lower = state.stack.drop_last();
            let after = assembly_model::step(plan, state, event).state.stack;
            after.len() == 0 || lower.is_prefix_of(after)
        }),
{
    let rest = AssemblyView { stack: state.stack.drop_last(), ..state };
    match state.stack.last() {
        FrameView::Build(build) => {
            lemma_build_step(plan, rest, build, event);
        },
        FrameView::Resolve(frame) => {
            lemma_resolve_step(plan, rest, frame, event);
        },
    }
    let after = assembly_model::step(plan, state, event).state.stack;
    if after.len() == rest.stack.len() + 2 {
        assert(after.drop_last().drop_last() =~= after.take(rest.stack.len() as int));
    }
}

/// Only a dependency that was assembled from sources is published. The package that the caller asks
/// for stands below it and is not published.
pub proof fn only_dependencies_are_published(
    plan: PlanView,
    state: AssemblyView,
    event: EventView,
)
    requires
        well_shaped(plan, state),
        assembly_model::step(plan, state, event).action is Publish,
    ensures
        state.stack.len() >= 2,
        state.stack.last() is Resolve,
        state.stack.last()->Resolve_0.phase is AwaitBuild,
        state.delivered is Some,
        assembly_model::step(plan, state, event).action == (ActionView::Publish {
            package: state.delivered->0.package,
        }),
{
    let rest = AssemblyView { stack: state.stack.drop_last(), ..state };
    match state.stack.last() {
        FrameView::Build(build) => {
            lemma_builds_publish_nothing(plan, rest, build, event);
        },
        FrameView::Resolve(frame) => {
            lemma_what_is_published(plan, rest, frame, event);
        },
    }
}

proof fn lemma_builds_publish_nothing(
    plan: PlanView,
    rest: AssemblyView,
    build: BuildView,
    event: EventView,
)
    ensures
        !(assembly_model::build_step(plan, rest, build, event).action is Publish),
{
}

proof fn lemma_what_is_published(
    plan: PlanView,
    rest: AssemblyView,
    frame: ResolveView,
    event: EventView,
)
    ensures
        assembly_model::resolve_step(plan, rest, frame, event).action is Publish ==> {
            &&& frame.phase is AwaitBuild
            &&& rest.delivered is Some
            &&& assembly_model::resolve_step(plan, rest, frame, event).action == (
            ActionView::Publish { package: rest.delivered->0.package })
        },
{
}

/// A package that is ready stays ready: it is not resolved again.
pub proof fn ready_packages_stay_ready(
    plan: PlanView,
    state: AssemblyView,
    event: EventView,
    name: Seq<char>,
)
    requires
        state.cache.contains_key(name),
    ensures
        assembly_model::step(plan, state, event).state.cache.contains_key(name),
{
    if state.stack.len() > 0 {
        let rest = AssemblyView { stack: state.stack.drop_last(), ..state };
        match state.stack.last() {
            FrameView::Build(build) => {
                lemma_build_keeps_ready(plan, rest, build, event, name);
            },
            FrameView::Resolve(frame) => {
                lemma_resolve_keeps_ready(plan, rest, frame, event, name);
            },
        }
    }
}

proof fn lemma_build_keeps_ready(
    plan: PlanView,
    rest: AssemblyView,
    build: BuildView,
    event: EventView,
    name: Seq<char>,
)
    requires
        rest.cache.contains_key(name),
    ensures
        assembly_model::build_step(plan, rest, build, event).state.cache.contains_key(name),
{
}

proof fn lemma_resolve_keeps_ready(
    plan: PlanView,
    rest: AssemblyView,
    frame: ResolveView,
    event: EventView,
    name: Seq<char>,
)
    requires
        rest.cache.contains_key(name),
    ensures
        assembly_model::resolve_step(plan, rest, frame, event).state.cache.contains_key(name),
{
}

/// A dependency that is ready is handed over at once: nothing is loaded, assembled or published
/// for it.
pub proof fn ready_dependency_is_handed_over(
    plan: PlanView,
    state: AssemblyView,
    id: Seq<char>,
)
    requires
        state.stack.len() > 0,
        state.cache.contains_key(id),
    ensures
        ({
            let frame = FrameView::Resolve(ResolveView { id, phase: ResolvePhaseView::Start });
            let after = assembly_model::step(plan, state.with(frame), EventView::Proceed);
            &&& after.action is Continue
            &&& after.state == (AssemblyView { delivered: Some(state.cache[id]), ..state })
        }),
{
    let frame = FrameView::Resolve(ResolveView { id, phase: ResolvePhaseView::Start });
    assert(state.with(frame).stack.drop_last() =~= state.stack);
}

/// What is recorded of the package in a frame fits together.
pub open spec fn consistent_frame(frame: FrameView) -> bool {
    frame matches FrameView::Build(build) ==> linking::consistent(build.link)
}

/// What is recorded of all the packages that are being assembled fits together: their runtime
/// dependencies are in ascending order of their names, and their kernels are among them.
pub open spec fn consistent(state: AssemblyView) -> bool {
    &&& forall|i: int| 0 <= i < state.stack.len() ==> consistent_frame(#[trigger] state.stack[i])
    &&& state.pending matches Some(build) ==> linking::consistent(build.link)
}

/// An assembly starts with nothing recorded.
pub proof fn assemblies_start_consistent(
    root: Seq<char>,
    project: ProjectView,
    target: TargetView,
    sources: Option<ProvidedView>,
)
    ensures
        consistent(assembly_model::started(root, project, target, sources)),
{
}

proof fn lemma_consistent_with(state: AssemblyView, frame: FrameView)
    requires
        consistent(state),
        consistent_frame(frame),
    ensures
        consistent(state.with(frame)),
{
    assert forall|i: int| 0 <= i < state.with(frame).stack.len() implies consistent_frame(
        #[trigger] state.with(frame).stack[i],
    ) by {
        if i < state.stack.len() {
            assert(state.with(frame).stack[i] == state.stack[i]);
        }
    }
}

broadcast proof fn lemma_going_on_consistent(rest: AssemblyView, frame: FrameView, action: ActionView)
    requires
        consistent(rest),
        consistent_frame(frame),
    ensures
        #[trigger] consistent(assembly_model::going_on(rest, frame, action).state),
{
    lemma_consistent_with(rest, frame);
}

broadcast proof fn lemma_delivering_consistent(rest: AssemblyView, resolved: ResolvedView)
    requires
        consistent(rest),
    ensures
        #[trigger] consistent(assembly_model::delivering(rest, resolved).state),
{
    if rest.stack.len() == 0 {
        if let Some(build) = rest.pending {
            let main = FrameView::Build(BuildView { required: Some(resolved), ..build });
            lemma_consistent_with(AssemblyView { pending: None, ..rest }, main);
        }
    }
}

broadcast proof fn lemma_failed_consistent(rest: AssemblyView, message: Seq<char>)
    ensures
        #[trigger] consistent(assembly_model::failed(rest, message).state),
{
}

broadcast proof fn lemma_ready_consistent(rest: AssemblyView, id: Seq<char>, resolved: ResolvedView)
    requires
        consistent(rest),
    ensures
        #[trigger] consistent(rest.with_ready(id, resolved)),
{
}

proof fn lemma_build_step_consistent(
    plan: PlanView,
    rest: AssemblyView,
    build: BuildView,
    event: EventView,
)
    requires
        consistent(rest),
        linking::consistent(build.link),
    ensures
        consistent(assembly_model::build_step(plan, rest, build, event).state),
{
    broadcast use
        lemma_going_on_consistent,
        lemma_delivering_consistent,
        lemma_failed_consistent,
        lemma_ready_consistent,
    ;

    match build.phase {
        BuildPhaseView::RecordRequired => {
            if let Some(required) = build.required {
                linking::linking_a_kernel_keeps_consistency(build.link, required);
            }
        },
        BuildPhaseView::Dependencies => {
            if let Some(node) = crate::graph::find_node(plan.graph.nodes, build.id) {
                if build.next < node.dependencies.len() {
                    let lower = build.at(BuildPhaseView::AwaitDependency);
                    let upper = FrameView::Resolve(
                        ResolveView {
                            id: node.dependencies[build.next as int].dependency,
                            phase: ResolvePhaseView::Start,
                        },
                    );
                    lemma_consistent_with(rest, lower);
                    lemma_consistent_with(rest.with(lower), upper);
                }
            }
        },
        BuildPhaseView::AwaitDependency => {
            assert(consistent(AssemblyView { delivered: None, ..rest }));
        },
        BuildPhaseView::RecordDependency(resolved) => {
            if let Ok(edge) = assembly_model::current_edge(plan, build) {
                linking::linking_a_dependency_keeps_consistency(
                    build.link,
                    resolved,
                    edge.linkage,
                );
            }
        },
        _ => {},
    }
}

proof fn lemma_resolve_step_consistent(
    plan: PlanView,
    rest: AssemblyView,
    frame: ResolveView,
    event: EventView,
)
    requires
        consistent(rest),
    ensures
        consistent(assembly_model::resolve_step(plan, rest, frame, event).state),
{
    broadcast use
        lemma_going_on_consistent,
        lemma_delivering_consistent,
        lemma_failed_consistent,
        lemma_ready_consistent,
    ;

    match frame.phase {
        ResolvePhaseView::FindRegistered { project, target } => {
            let lower = frame.at(ResolvePhaseView::AwaitBuild);
            let upper = FrameView::Build(
                assembly_model::new_build(frame.id, project, target, None),
            );
            lemma_consistent_with(rest, lower);
            lemma_consistent_with(rest.with(lower), upper);
        },
        ResolvePhaseView::AwaitBuild => {
            assert(consistent(AssemblyView { delivered: None, ..rest }));
        },
        _ => {},
    }
}

/// Every step leaves what is recorded consistent.
pub proof fn steps_keep_consistency(plan: PlanView, state: AssemblyView, event: EventView)
    requires
        consistent(state),
    ensures
        consistent(assembly_model::step(plan, state, event).state),
{
    if state.stack.len() > 0 {
        let rest = AssemblyView { stack: state.stack.drop_last(), ..state };
        assert(consistent_frame(state.stack[state.stack.len() - 1]));
        assert forall|i: int| 0 <= i < rest.stack.len() implies consistent_frame(
            #[trigger] rest.stack[i],
        ) by {
            assert(rest.stack[i] == state.stack[i]);
        }
        match state.stack.last() {
            FrameView::Build(build) => {
                lemma_build_step_consistent(plan, rest, build, event);
            },
            FrameView::Resolve(frame) => {
                lemma_resolve_step_consistent(plan, rest, frame, event);
            },
        }
    }
}

/// The runtime dependencies that a package is created with are in ascending order of their names:
/// no name occurs twice.
pub proof fn created_dependencies_are_unique(
    plan: PlanView,
    state: AssemblyView,
    event: EventView,
)
    requires
        consistent(state),
    ensures
        assembly_model::step(plan, state, event).action matches ActionView::CreatePackage {
            dependencies,
            ..
        } ==> linking::ascending(dependencies),
{
    if state.stack.len() > 0 {
        let rest = AssemblyView { stack: state.stack.drop_last(), ..state };
        assert(consistent_frame(state.stack[state.stack.len() - 1]));
        match state.stack.last() {
            FrameView::Build(build) => {
                lemma_created_dependencies(plan, rest, build, event);
            },
            FrameView::Resolve(frame) => {
                lemma_resolutions_create_nothing(plan, rest, frame, event);
            },
        }
    }
}

proof fn lemma_created_dependencies(
    plan: PlanView,
    rest: AssemblyView,
    build: BuildView,
    event: EventView,
)
    ensures
        assembly_model::build_step(plan, rest, build, event).action matches ActionView::CreatePackage {
            dependencies,
            ..
        } ==> dependencies == build.link.dependencies,
{
}

proof fn lemma_resolutions_create_nothing(
    plan: PlanView,
    rest: AssemblyView,
    frame: ResolveView,
    event: EventView,
)
    ensures
        !(assembly_model::resolve_step(plan, rest, frame, event).action is CreatePackage),
{
}

/// A package that carries a kernel declares it: the kernel is one of the runtime dependencies that
/// the package is created with.
pub proof fn embedded_kernel_is_declared(
    plan: PlanView,
    state: AssemblyView,
    build: BuildView,
    event: EventView,
)
    requires
        linking::consistent(build.link),
    ensures
        assembly_model::step(
            plan,
            state.with(FrameView::Build(build)),
            event,
        ).action matches ActionView::CreatePackage { dependencies, sections, .. } ==> forall|i: int|
            0 <= i < sections.len() && (#[trigger] sections[i]).id == KERNEL@ ==> {
                &&& build.link.kernel is Some
                &&& sections[i].data == build.link.kernel->0.encoded
                &&& linking::lookup(dependencies, build.link.kernel->0.name) == Some(
                    linking::dependency_on(build.link.kernel->0),
                )
            },
{
    let full = state.with(FrameView::Build(build));
    let rest = AssemblyView { stack: full.stack.drop_last(), ..full };
    assert(rest.stack =~= state.stack);
    lemma_created_sections(plan, rest, build, event);
    lemma_created_dependencies(plan, rest, build, event);
    if let ActionView::CreatePackage { sections, .. } = assembly_model::step(
        plan,
        full,
        event,
    ).action {
        let provenance = choose|provenance: Option<ProvenanceView>|
            sections == #[trigger] assembly_model::created_sections(
                build.target,
                build.link.kernel,
                provenance,
            );
        assert forall|i: int|
            0 <= i < sections.len() && (#[trigger] sections[i]).id == KERNEL@ implies build.link.kernel
            is Some && sections[i].data == build.link.kernel->0.encoded by {
            only_executables_embed_their_kernel(build.target, build.link.kernel, provenance, i);
        }
    }
}

proof fn lemma_created_sections(
    plan: PlanView,
    rest: AssemblyView,
    build: BuildView,
    event: EventView,
)
    ensures
        assembly_model::build_step(plan, rest, build, event).action matches ActionView::CreatePackage {
            sections,
            ..
        } ==> exists|provenance: Option<ProvenanceView>|
            sections == #[trigger] assembly_model::created_sections(
                build.target,
                build.link.kernel,
                provenance,
            ),
{
}

/// An executable carries the kernel that it was assembled against, and no other package carries
/// one.
pub proof fn only_executables_embed_their_kernel(
    target: TargetView,
    kernel: Option<PackageView>,
    provenance: Option<ProvenanceView>,
    i: int,
)
    ensures
        ({
            let sections = assembly_model::created_sections(target, kernel, provenance);
            &&& 0 <= i < sections.len() && sections[i].id == KERNEL@ ==> target.ty is Executable
                && kernel is Some && sections[i].data == kernel->0.encoded
            &&& target.ty is Executable && kernel is Some ==> sections.len() > 0 && sections.last()
                == (SectionView { id: KERNEL@, data: kernel->0.encoded })
        }),
{
    reveal_strlit("kernel");
    reveal_strlit("project_source_provenance");
    assert(KERNEL@.len() != PROJECT_SOURCE_PROVENANCE@.len());
}

/// A package records the provenance that it was created with.
pub proof fn created_package_records_provenance(
    target: TargetView,
    kernel: Option<PackageView>,
    provenance: ProvenanceView,
)
    requires
        provenance.valid(),
    ensures
        provenance::recorded_provenance(
            assembly_model::created_sections(target, kernel, Some(provenance)),
        ) == Some(Ok::<ProvenanceView, crate::codec::DecodeErrorView>(provenance)),
{
    let sections = assembly_model::created_sections(target, kernel, Some(provenance));
    assert(sections[0] == (SectionView {
        id: PROJECT_SOURCE_PROVENANCE@,
        data: provenance.encoding(),
    }));
    provenance::provenance_round_trip(provenance, Seq::empty());
    assert(provenance.encoding() + Seq::<u8>::empty() =~= provenance.encoding());
}

/// A package without a provenance records none.
pub proof fn created_package_without_provenance_records_none(
    target: TargetView,
    kernel: Option<PackageView>,
)
    ensures
        provenance::recorded_provenance(
            assembly_model::created_sections(target, kernel, None),
        ) is None,
{
    reveal_strlit("kernel");
    reveal_strlit("project_source_provenance");
    assert(KERNEL@.len() != PROJECT_SOURCE_PROVENANCE@.len());
    reveal_with_fuel(provenance::provenance_data, 3);
}

/// A registered package may be used in place of its sources as long as their provenance is the one
/// that it was created with.
pub proof fn unchanged_sources_are_reused(
    name: Seq<char>,
    version: Seq<char>,
    package: PackageView,
    target: TargetView,
    kernel: Option<PackageView>,
    created_with: ProvenanceView,
    expected: ProvenanceView,
)
    requires
        created_with.valid(),
        package.sections == assembly_model::created_sections(target, kernel, Some(created_with)),
    ensures
        assembly_model::reusable(name, version, package, expected) is Ok <==> created_with
            == expected,
{
    created_package_records_provenance(target, kernel, created_with);
}

/// A registered package that records no provenance is never used in place of sources.
pub proof fn package_without_provenance_is_not_reused(
    name: Seq<char>,
    version: Seq<char>,
    package: PackageView,
    expected: ProvenanceView,
)
    requires
        provenance::recorded_provenance(package.sections) is None,
    ensures
        assembly_model::reusable(name, version, package, expected) == Err::<(), Seq<char>>(
            assembly_model::missing_provenance(name, version),
        ),
{
}

/// Sources are held against the registered package of their version: if they have the provenance
/// that it was created with, it is used, and nothing else is. If they have changed, the assembly
/// fails, and the message asks for a new version.
pub proof fn changed_sources_need_a_new_version(
    plan: PlanView,
    state: AssemblyView,
    frame: ResolveView,
    snapshot: SnapshotView,
    listing: Result<Seq<ListedView>, Seq<char>>,
    created_target: TargetView,
    kernel: Option<PackageView>,
    created_with: ProvenanceView,
    expected: ProvenanceView,
)
    requires
        frame.phase is CheckRegistered,
        frame.phase->CheckRegistered_package.sections == assembly_model::created_sections(
            created_target,
            kernel,
            Some(created_with),
        ),
        created_with.valid(),
        graph::find_node(plan.graph.nodes, frame.id) matches Some(node) && node.provenance
            matches NodeProvenanceView::Real { origin, manifest_path, in_workspace, .. }
            && closure::expected_provenance(
            assembly_model::context(plan, snapshot),
            frame.id,
            frame.phase->CheckRegistered_project,
            frame.phase->CheckRegistered_target,
            origin,
            manifest_path,
            in_workspace,
            listing,
        ) == Ok::<ProvenanceView, Seq<char>>(expected),
    ensures
        ({
            let node = graph::find_node(plan.graph.nodes, frame.id)->0;
            let after = assembly_model::step(
                plan,
                state.with(FrameView::Resolve(frame)),
                EventView::Sources { snapshot, listing },
            );
            if created_with == expected {
                after == assembly_model::going_on(
                    state,
                    frame.at(ResolvePhaseView::Kernel(frame.phase->CheckRegistered_package)),
                    ActionView::Continue,
                )
            } else {
                after == assembly_model::failed(
                    state,
                    assembly_model::different_provenance(
                        frame.id,
                        node.version,
                        expected,
                        created_with,
                    ),
                )
            }
        }),
{
    created_package_records_provenance(created_target, kernel, created_with);
    assert(state.with(FrameView::Resolve(frame)).stack.drop_last() =~= state.stack);
}

/// A package that is assembled from provided modules has no provenance and is not kept.
pub proof fn provided_modules_leave_no_trace(
    plan: PlanView,
    rest: AssemblyView,
    build: BuildView,
    event: EventView,
)
    requires
        build.provided,
    ensures
        assembly_model::provenance_request(plan, build) is None,
        assembly_model::build_step(plan, rest, build, event).state.cache == rest.cache,
        assembly_model::build_step(plan, rest, build, event).action matches ActionView::CreatePackage {
            sections,
            ..
        } ==> provenance::recorded_provenance(sections) is None,
{
    created_package_without_provenance_records_none(build.target, build.link.kernel);
}

/// An executable of a project with a library is linked with the library, which is assembled first.
pub proof fn library_is_assembled_first(
    root: Seq<char>,
    project: ProjectView,
    target: TargetView,
    sources: Option<ProvidedView>,
    library: ResolvedView,
)
    requires
        target.ty is Executable,
        project.library is Some,
    ensures
        ({
            let state = assembly_model::started(root, project, target, sources);
            let rest = AssemblyView { stack: state.stack.drop_last(), ..state };
            let main = assembly_model::delivering(rest, library).state;
            &&& state.stack[0]->Build_0.target == project.library->0
            &&& !state.stack[0]->Build_0.provided
            &&& main.stack == seq![
                FrameView::Build(
                    BuildView {
                        required: Some(library),
                        ..assembly_model::new_build(root, project, target, sources)
                    },
                ),
            ]
        }),
{
    let state = assembly_model::started(root, project, target, sources);
    let rest = AssemblyView { stack: state.stack.drop_last(), ..state };
    let main = assembly_model::delivering(rest, library).state;
    assert(main.stack =~= seq![
        FrameView::Build(
            BuildView {
                required: Some(library),
                ..assembly_model::new_build(root, project, target, sources)
            },
        ),
    ]);
}

} // verus!
