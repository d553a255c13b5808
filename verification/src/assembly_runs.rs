//! What holds of whole runs of an assembly.

use vstd::prelude::*;

use crate::assembly_laws;
use crate::assembly_model;
use crate::assembly_model::{
    ActionView, AssemblyView, BuildPhaseView, BuildView, EventView, FrameView, PlanView,
    ProvidedView, ResolvePhaseView, ResolveView, StepView,
};
use crate::graph;
use crate::graph::NodeProvenanceView;
use crate::index;
use crate::linking;
use crate::linking::{Linkage, ResolvedView};
use crate::package;
use crate::package::PackageView;
use crate::project;
use crate::project::{ProjectView, TargetView};
use crate::registry;
use crate::registry::ErrorView;
use crate::registry_laws;
use crate::registry_laws::{PublishView, StoreView};
use crate::version::VersionView;

verus! {

/// A step of an assembly, as one term.
#[verifier::opaque]
pub open spec fn stepped(plan: PlanView, state: AssemblyView, event: EventView) -> StepView {
    assembly_model::step(plan, state, event)
}

/// Where an assembly stands after a sequence of events.
pub open spec fn after(plan: PlanView, state: AssemblyView, events: Seq<EventView>) -> AssemblyView
    decreases events.len(),
{
    if events.len() == 0 {
        state
    } else {
        stepped(plan, after(plan, state, events.drop_last()), events.last()).state
    }
}

/// Where an assembly stands before the event with this number.
pub open spec fn before(
    plan: PlanView,
    state: AssemblyView,
    events: Seq<EventView>,
    i: int,
) -> AssemblyView {
    after(plan, state, events.take(i))
}

/// The action that follows the event with this number.
pub open spec fn action_at(
    plan: PlanView,
    state: AssemblyView,
    events: Seq<EventView>,
    i: int,
) -> ActionView {
    stepped(plan, before(plan, state, events, i), events[i]).action
}

/// The action with which an assembly ends.
pub open spec fn ends(action: ActionView) -> bool {
    action is Finished || action is Failed || action is KindMismatch
}

/// The assembly has not ended with the first `n` events.
pub open spec fn unfinished(
    plan: PlanView,
    state: AssemblyView,
    events: Seq<EventView>,
    n: int,
) -> bool {
    forall|i: int| 0 <= i < n ==> !ends(#[trigger] action_at(plan, state, events, i))
}

pub proof fn lemma_next(plan: PlanView, state: AssemblyView, events: Seq<EventView>, i: int)
    requires
        0 <= i < events.len(),
    ensures
        before(plan, state, events, i + 1) == stepped(
            plan,
            before(plan, state, events, i),
            events[i],
        ).state,
{
    assert(events.take(i + 1).drop_last() =~= events.take(i));
    assert(events.take(i + 1).last() == events[i]);
}

pub proof fn lemma_first(plan: PlanView, state: AssemblyView, events: Seq<EventView>)
    ensures
        before(plan, state, events, 0) == state,
        before(plan, state, events, events.len() as int) == after(plan, state, events),
{
    assert(events.take(events.len() as int) =~= events);
}

/// Every run keeps the shape of the assembly.
pub proof fn runs_keep_shape(plan: PlanView, state: AssemblyView, events: Seq<EventView>)
    requires
        assembly_laws::well_shaped(plan, state),
    ensures
        assembly_laws::well_shaped(plan, after(plan, state, events)),
    decreases events.len(),
{
    reveal(stepped);
    if events.len() > 0 {
        runs_keep_shape(plan, state, events.drop_last());
        assembly_laws::steps_keep_shape(
            plan,
            after(plan, state, events.drop_last()),
            events.last(),
        );
    }
}

// The executable of a project with a library.

/// The state in which an executable is assembled once the library of its project is.
pub open spec fn resumed(
    cache: Map<Seq<char>, ResolvedView>,
    build: BuildView,
    library: ResolvedView,
) -> AssemblyView {
    AssemblyView {
        cache,
        stack: seq![FrameView::Build(BuildView { required: Some(library), ..build })],
        pending: None,
        delivered: None,
    }
}

/// The step with an executable that is pending follows the step without it: where the one without
/// it finishes, the executable is assembled next.
pub open spec fn follows(alone: StepView, with: StepView, build: BuildView) -> bool {
    match alone.action {
        ActionView::Finished { package } => with.action is Continue && exists|
            library: ResolvedView,
        |
            library.package == package && with.state == #[trigger] resumed(
                alone.state.cache,
                build,
                library,
            ),
        ActionView::Failed { .. } => with == alone,
        ActionView::KindMismatch { .. } => with == alone,
        _ => with == (StepView {
            state: AssemblyView { pending: Some(build), ..alone.state },
            action: alone.action,
        }),
    }
}

proof fn lemma_delivering_follows(rest: AssemblyView, build: BuildView, resolved: ResolvedView)
    requires
        rest.pending is None,
        rest.delivered is None,
    ensures
        follows(
            assembly_model::delivering(rest, resolved),
            assembly_model::delivering(
                AssemblyView { pending: Some(build), ..rest },
                resolved,
            ),
            build,
        ),
{
    if rest.stack.len() == 0 {
        let with = assembly_model::delivering(
            AssemblyView { pending: Some(build), ..rest },
            resolved,
        );
        assert(with.state =~= resumed(rest.cache, build, resolved)) by {
            assert(with.state.stack =~= resumed(rest.cache, build, resolved).stack);
        }
    }
}

proof fn lemma_build_follows(
    plan: PlanView,
    rest: AssemblyView,
    build: BuildView,
    top: BuildView,
    event: EventView,
)
    requires
        rest.pending is None,
        rest.delivered is Some <==> top.phase is AwaitDependency,
    ensures
        follows(
            assembly_model::build_step(plan, rest, top, event),
            assembly_model::build_step(
                plan,
                AssemblyView { pending: Some(build), ..rest },
                top,
                event,
            ),
            build,
        ),
{
    match (top.phase, event) {
        (BuildPhaseView::Start, EventView::Proceed) => {
            let name = project::package_name(top.project, top.target);
            if rest.cache.contains_key(name) {
                lemma_delivering_follows(rest, build, rest.cache[name]);
            }
        },
        (BuildPhaseView::Package, EventView::Package(package)) => {
            let resolved = ResolvedView { package, kernel: top.link.kernel };
            lemma_delivering_follows(rest, build, resolved);
            lemma_delivering_follows(rest.with_ready(top.id, resolved), build, resolved);
        },
        _ => {},
    }
}

proof fn lemma_resolved_follows(
    rest: AssemblyView,
    build: BuildView,
    id: Seq<char>,
    resolved: ResolvedView,
)
    requires
        rest.pending is None,
        rest.delivered is None,
    ensures
        follows(
            assembly_model::resolved_with(rest, id, resolved),
            assembly_model::resolved_with(
                AssemblyView { pending: Some(build), ..rest },
                id,
                resolved,
            ),
            build,
        ),
{
    lemma_delivering_follows(rest.with_ready(id, resolved), build, resolved);
}

proof fn lemma_resolve_follows(
    plan: PlanView,
    rest: AssemblyView,
    build: BuildView,
    frame: ResolveView,
    event: EventView,
)
    requires
        rest.pending is None,
        rest.delivered is Some <==> frame.phase is AwaitBuild,
    ensures
        follows(
            assembly_model::resolve_step(plan, rest, frame, event),
            assembly_model::resolve_step(
                plan,
                AssemblyView { pending: Some(build), ..rest },
                frame,
                event,
            ),
            build,
        ),
{
    match (frame.phase, event) {
        (ResolvePhaseView::Start, EventView::Proceed) => {
            if rest.cache.contains_key(frame.id) {
                lemma_delivering_follows(rest, build, rest.cache[frame.id]);
            }
        },
        (ResolvePhaseView::Publish(resolved), EventView::Proceed) => {
            lemma_resolved_follows(rest, build, frame.id, resolved);
        },
        (ResolvePhaseView::Kernel(package), EventView::Proceed) => {
            lemma_resolved_follows(
                rest,
                build,
                frame.id,
                ResolvedView { package, kernel: Some(package) },
            );
            lemma_resolved_follows(
                rest,
                build,
                frame.id,
                ResolvedView { package, kernel: None },
            );
        },
        (
            ResolvePhaseView::FindKernel { package, .. },
            EventView::Exact(_),
        ) => {
            if let Ok(kernel) = linking::embedded_kernel(package) {
                lemma_resolved_follows(rest, build, frame.id, ResolvedView { package, kernel });
            }
        },
        (
            ResolvePhaseView::LoadKernel { package, .. },
            EventView::Package(loaded),
        ) => {
            lemma_resolved_follows(
                rest,
                build,
                frame.id,
                ResolvedView { package, kernel: Some(loaded) },
            );
        },
        _ => {},
    }
}

proof fn lemma_step_follows(
    plan: PlanView,
    state: AssemblyView,
    build: BuildView,
    event: EventView,
)
    requires
        assembly_laws::well_shaped(plan, state),
        state.stack.len() > 0,
        state.pending is None,
    ensures
        follows(
            stepped(plan, state, event),
            stepped(plan, AssemblyView { pending: Some(build), ..state }, event),
            build,
        ),
{
    reveal(stepped);
    let rest = AssemblyView { stack: state.stack.drop_last(), ..state };
    match state.stack.last() {
        FrameView::Build(top) => {
            lemma_build_follows(plan, rest, build, top, event);
        },
        FrameView::Resolve(frame) => {
            lemma_resolve_follows(plan, rest, build, frame, event);
        },
    }
}

/// No modules are provided for any of the packages that are being assembled.
pub open spec fn nothing_provided(state: AssemblyView) -> bool {
    forall|i: int|
        0 <= i < state.stack.len() ==> ((#[trigger] state.stack[i]) matches FrameView::Build(build)
            ==> build.sources is None)
}

proof fn lemma_step_provides_nothing(plan: PlanView, state: AssemblyView, event: EventView)
    requires
        nothing_provided(state),
        state.pending is None,
        state.stack.len() > 0,
    ensures
        nothing_provided(stepped(plan, state, event).state),
        !(stepped(plan, state, event).action is UseModules),
{
    reveal(stepped);
    let rest = AssemblyView { stack: state.stack.drop_last(), ..state };
    assert(forall|i: int| 0 <= i < rest.stack.len() ==> rest.stack[i] == state.stack[i]);
    match state.stack.last() {
        FrameView::Build(top) => {
            assert(state.stack[state.stack.len() - 1] is Build);
            assert(top.sources is None);
        },
        FrameView::Resolve(frame) => {},
    }
}

pub proof fn lemma_stack(plan: PlanView, state: AssemblyView, event: EventView)
    requires
        assembly_laws::well_shaped(plan, state),
        state.stack.len() > 0,
    ensures
        assembly_laws::well_shaped(plan, stepped(plan, state, event).state),
        assembly_laws::stack_step(
            plan,
            AssemblyView { stack: state.stack.drop_last(), delivered: None, ..state },
            state.stack.last(),
            stepped(plan, state, event).state,
        ),
{
    reveal(stepped);
    assembly_laws::steps_keep_shape(plan, state, event);
    assembly_laws::steps_move_the_stack(plan, state, event);
}

/// An assembly that has not ended goes on with something.
proof fn lemma_goes_on(plan: PlanView, state: AssemblyView, event: EventView)
    requires
        state.stack.len() > 0,
        !ends(stepped(plan, state, event).action),
    ensures
        stepped(plan, state, event).state.stack.len() > 0,
{
    reveal(stepped);
}

proof fn lemma_runs_alongside(
    plan: PlanView,
    alone: AssemblyView,
    build: BuildView,
    events: Seq<EventView>,
    n: int,
)
    requires
        assembly_laws::well_shaped(plan, alone),
        alone.pending is None,
        alone.stack.len() > 0,
        nothing_provided(alone),
        0 <= n <= events.len(),
        unfinished(plan, alone, events, n),
    ensures
        ({
            let with = AssemblyView { pending: Some(build), ..alone };
            let at = before(plan, alone, events, n);
            &&& at.pending is None
            &&& at.stack.len() > 0
            &&& nothing_provided(at)
            &&& before(plan, with, events, n) == (AssemblyView { pending: Some(build), ..at })
            &&& forall|i: int|
                0 <= i < n ==> #[trigger] action_at(plan, with, events, i) == action_at(
                    plan,
                    alone,
                    events,
                    i,
                ) && !(action_at(plan, alone, events, i) is UseModules)
        }),
    decreases n,
{
    let with = AssemblyView { pending: Some(build), ..alone };
    lemma_first(plan, alone, events);
    lemma_first(plan, with, events);
    if n > 0 {
        lemma_runs_alongside(plan, alone, build, events, n - 1);
        let at = before(plan, alone, events, n - 1);
        lemma_next(plan, alone, events, n - 1);
        lemma_next(plan, with, events, n - 1);
        runs_keep_shape(plan, alone, events.take(n - 1));
        assert(!ends(action_at(plan, alone, events, n - 1)));
        lemma_step_follows(plan, at, build, events[n - 1]);
        lemma_step_provides_nothing(plan, at, events[n - 1]);
        lemma_goes_on(plan, at, events[n - 1]);
        lemma_stack(plan, at, events[n - 1]);
    }
}

/// An executable of a project with a library is assembled once the library is, and until then the
/// assembly runs as that of the library alone, without the modules that are provided for the
/// executable. Where the library fails, the executable fails in the same way. Where the library is
/// finished, the executable is assembled next, with this library.
pub proof fn library_is_assembled_as_if_alone(
    plan: PlanView,
    project: ProjectView,
    target: TargetView,
    library: TargetView,
    sources: Option<ProvidedView>,
    events: Seq<EventView>,
)
    requires
        target.ty is Executable,
        project.library == Some(library),
        !(library.ty is Executable),
        events.len() > 0,
        unfinished(
            plan,
            assembly_model::started(plan.graph.root, project, library, None),
            events,
            events.len() - 1,
        ),
    ensures
        ({
            let alone = assembly_model::started(plan.graph.root, project, library, None);
            let whole = assembly_model::started(plan.graph.root, project, target, sources);
            let build = assembly_model::new_build(plan.graph.root, project, target, sources);
            let last = events.len() - 1;
            let end = action_at(plan, alone, events, last);
            &&& forall|i: int|
                0 <= i < last ==> #[trigger] action_at(plan, whole, events, i) == action_at(
                    plan,
                    alone,
                    events,
                    i,
                )
            &&& forall|i: int|
                0 <= i <= last ==> !(#[trigger] action_at(plan, whole, events, i) is UseModules)
            &&& match end {
                ActionView::Finished { package } => action_at(plan, whole, events, last) is Continue
                    && exists|q: ResolvedView|
                    q.package == package && after(plan, whole, events) == #[trigger] resumed(
                        after(plan, alone, events).cache,
                        build,
                        q,
                    ),
                _ => action_at(plan, whole, events, last) == end,
            }
        }),
{
    let alone = assembly_model::started(plan.graph.root, project, library, None);
    let whole = assembly_model::started(plan.graph.root, project, target, sources);
    let build = assembly_model::new_build(plan.graph.root, project, target, sources);
    let last = events.len() - 1;
    assert(whole =~= AssemblyView { pending: Some(build), ..alone });
    assembly_laws::assemblies_start_well_shaped(plan, project, library, None);
    lemma_runs_alongside(plan, alone, build, events, last);
    runs_keep_shape(plan, alone, events.take(last));
    let at = before(plan, alone, events, last);
    lemma_step_follows(plan, at, build, events[last]);
    lemma_step_provides_nothing(plan, at, events[last]);
    lemma_next(plan, alone, events, last);
    lemma_next(plan, whole, events, last);
    lemma_first(plan, alone, events);
    lemma_first(plan, whole, events);
}

/// The work in a frame has come as far as its name was found in the graph.
pub open spec fn is_found(plan: PlanView, frame: FrameView) -> bool {
    match frame {
        FrameView::Resolve(frame) => frame.phase is Start || graph::find_node(
            plan.graph.nodes,
            frame.id,
        ) is Some,
        FrameView::Build(build) => build.phase is Start || build.phase is LinkRequired
            || build.phase is RecordRequired || build.phase is Dependencies || graph::find_node(
            plan.graph.nodes,
            build.id,
        ) is Some,
    }
}

/// The packages that are ready are packages of the graph.
pub open spec fn is_named(plan: PlanView, state: AssemblyView) -> bool {
    &&& forall|name: Seq<char>|
        #[trigger] state.cache.contains_key(name) ==> graph::find_node(
            plan.graph.nodes,
            name,
        ) is Some
    &&& forall|i: int|
        0 <= i < state.stack.len() ==> is_found(plan, #[trigger] state.stack[i])
    &&& state.pending matches Some(build) ==> build.phase is Start
}

proof fn lemma_named_with(plan: PlanView, rest: AssemblyView, frame: FrameView)
    requires
        is_named(plan, rest),
        is_found(plan, frame),
    ensures
        is_named(plan, rest.with(frame)),
{
    let after = rest.with(frame);
    assert forall|i: int| 0 <= i < after.stack.len() implies is_found(
        plan,
        #[trigger] after.stack[i],
    ) by {
        if i < rest.stack.len() {
            assert(after.stack[i] == rest.stack[i]);
        }
    }
}

proof fn lemma_named_ready(
    plan: PlanView,
    rest: AssemblyView,
    id: Seq<char>,
    resolved: ResolvedView,
)
    requires
        is_named(plan, rest),
        graph::find_node(plan.graph.nodes, id) is Some,
    ensures
        is_named(plan, rest.with_ready(id, resolved)),
{
}

proof fn lemma_named_delivering(plan: PlanView, rest: AssemblyView, resolved: ResolvedView)
    requires
        is_named(plan, rest),
    ensures
        is_named(plan, assembly_model::delivering(rest, resolved).state),
{
    if rest.stack.len() == 0 {
        if let Some(build) = rest.pending {
            lemma_named_with(
                plan,
                AssemblyView { pending: None, ..rest },
                FrameView::Build(BuildView { required: Some(resolved), ..build }),
            );
        }
    }
}

proof fn lemma_build_named(plan: PlanView, rest: AssemblyView, build: BuildView, event: EventView)
    requires
        is_named(plan, rest),
        is_found(plan, FrameView::Build(build)),
    ensures
        is_named(plan, assembly_model::build_step(plan, rest, build, event).state),
{
    let after = assembly_model::build_step(plan, rest, build, event);
    match (build.phase, event) {
        (BuildPhaseView::Start, EventView::Proceed) => {
            let name = project::package_name(build.project, build.target);
            if rest.cache.contains_key(name) {
                lemma_named_delivering(plan, rest, rest.cache[name]);
            }
            lemma_named_with(plan, rest, build.at(BuildPhaseView::LinkRequired));
        },
        (BuildPhaseView::Dependencies, EventView::Proceed) => {
            if let Some(node) = graph::find_node(plan.graph.nodes, build.id) {
                if build.next < node.dependencies.len() {
                    let waiting = build.at(BuildPhaseView::AwaitDependency);
                    let frame = FrameView::Resolve(
                        ResolveView {
                            id: node.dependencies[build.next as int].dependency,
                            phase: ResolvePhaseView::Start,
                        },
                    );
                    lemma_named_with(plan, rest, waiting);
                    lemma_named_with(plan, rest.with(waiting), frame);
                } else if after.state.stack.len() > 0 {
                    lemma_named_with(plan, rest, after.state.stack.last());
                }
            }
        },
        (BuildPhaseView::AwaitDependency, EventView::Proceed) => {
            if after.state.stack.len() > 0 {
                lemma_named_with(
                    plan,
                    AssemblyView { delivered: None, ..rest },
                    after.state.stack.last(),
                );
            }
        },
        (BuildPhaseView::Package, EventView::Package(package)) => {
            let resolved = ResolvedView { package, kernel: build.link.kernel };
            lemma_named_delivering(plan, rest, resolved);
            lemma_named_ready(plan, rest, build.id, resolved);
            lemma_named_delivering(plan, rest.with_ready(build.id, resolved), resolved);
        },
        _ => {
            if after.state.stack.len() > 0 {
                lemma_named_with(plan, rest, after.state.stack.last());
            }
        },
    }
}

proof fn lemma_named_resolved(
    plan: PlanView,
    rest: AssemblyView,
    id: Seq<char>,
    resolved: ResolvedView,
)
    requires
        is_named(plan, rest),
        graph::find_node(plan.graph.nodes, id) is Some,
    ensures
        is_named(plan, assembly_model::resolved_with(rest, id, resolved).state),
{
    lemma_named_ready(plan, rest, id, resolved);
    lemma_named_delivering(plan, rest.with_ready(id, resolved), resolved);
}

proof fn lemma_resolve_named(
    plan: PlanView,
    rest: AssemblyView,
    frame: ResolveView,
    event: EventView,
)
    requires
        is_named(plan, rest),
        is_found(plan, FrameView::Resolve(frame)),
    ensures
        is_named(plan, assembly_model::resolve_step(plan, rest, frame, event).state),
{
    let after = assembly_model::resolve_step(plan, rest, frame, event);
    match (frame.phase, event) {
        (ResolvePhaseView::Start, EventView::Proceed) => {
            if rest.cache.contains_key(frame.id) {
                lemma_named_delivering(plan, rest, rest.cache[frame.id]);
            } else if after.state.stack.len() > 0 {
                lemma_named_with(plan, rest, after.state.stack.last());
            }
        },
        (
            ResolvePhaseView::FindRegistered { project, target },
            EventView::Canonical(registered),
        ) => {
            let waiting = frame.at(ResolvePhaseView::AwaitBuild);
            let build = FrameView::Build(
                assembly_model::new_build(frame.id, project, target, None),
            );
            lemma_named_with(plan, rest, waiting);
            lemma_named_with(plan, rest.with(waiting), build);
            lemma_named_with(
                plan,
                rest,
                frame.at(ResolvePhaseView::LoadRegistered { project, target }),
            );
        },
        (ResolvePhaseView::AwaitBuild, EventView::Proceed) => {
            if after.state.stack.len() > 0 {
                lemma_named_with(
                    plan,
                    AssemblyView { delivered: None, ..rest },
                    after.state.stack.last(),
                );
            }
        },
        (ResolvePhaseView::Publish(resolved), EventView::Proceed) => {
            lemma_named_resolved(plan, rest, frame.id, resolved);
        },
        (ResolvePhaseView::Kernel(package), EventView::Proceed) => {
            lemma_named_resolved(
                plan,
                rest,
                frame.id,
                ResolvedView { package, kernel: Some(package) },
            );
            lemma_named_resolved(plan, rest, frame.id, ResolvedView { package, kernel: None });
            if let Ok(Some(kernel)) = linking::kernel_dependency(package) {
                lemma_named_with(
                    plan,
                    rest,
                    frame.at(ResolvePhaseView::FindKernel { package, kernel }),
                );
            }
        },
        (ResolvePhaseView::FindKernel { package, kernel }, EventView::Exact(_)) => {
            lemma_named_with(
                plan,
                rest,
                frame.at(ResolvePhaseView::LoadKernel { package, kernel }),
            );
            if let Ok(kernel) = linking::embedded_kernel(package) {
                lemma_named_resolved(plan, rest, frame.id, ResolvedView { package, kernel });
            }
        },
        (ResolvePhaseView::LoadKernel { package, .. }, EventView::Package(loaded)) => {
            lemma_named_resolved(
                plan,
                rest,
                frame.id,
                ResolvedView { package, kernel: Some(loaded) },
            );
        },
        _ => {
            if after.state.stack.len() > 0 {
                lemma_named_with(plan, rest, after.state.stack.last());
            }
        },
    }
}

proof fn lemma_step_named(plan: PlanView, state: AssemblyView, event: EventView)
    requires
        is_named(plan, state),
    ensures
        is_named(plan, stepped(plan, state, event).state),
{
    reveal(stepped);
    if state.stack.len() > 0 {
        let rest = AssemblyView { stack: state.stack.drop_last(), ..state };
        assert(forall|i: int| 0 <= i < rest.stack.len() ==> rest.stack[i] == state.stack[i]);
        assert(is_found(plan, state.stack[state.stack.len() - 1]));
        match state.stack.last() {
            FrameView::Build(build) => {
                lemma_build_named(plan, rest, build, event);
            },
            FrameView::Resolve(frame) => {
                lemma_resolve_named(plan, rest, frame, event);
            },
        }
    }
}

/// Whatever the events are, every package that is ready under a name is a package of the graph with
/// that name.
pub proof fn ready_packages_are_in_the_graph(
    plan: PlanView,
    project: ProjectView,
    target: TargetView,
    sources: Option<ProvidedView>,
    events: Seq<EventView>,
)
    ensures
        is_named(
            plan,
            after(
                plan,
                assembly_model::started(plan.graph.root, project, target, sources),
                events,
            ),
        ),
    decreases events.len(),
{
    if events.len() > 0 {
        ready_packages_are_in_the_graph(plan, project, target, sources, events.drop_last());
        lemma_step_named(
            plan,
            after(
                plan,
                assembly_model::started(plan.graph.root, project, target, sources),
                events.drop_last(),
            ),
            events.last(),
        );
    }
}

/// How the library of a project is linked into its executables.
pub open spec fn library_linkage(library: PackageView) -> Linkage {
    if library.kind is Kernel {
        Linkage::Dynamic
    } else {
        Linkage::Static
    }
}

/// At the bottom of the stack is the assembly of a target, which the library was linked for.
spec fn is_under_way(
    state: AssemblyView,
    project: ProjectView,
    target: TargetView,
    library: ResolvedView,
) -> bool {
    &&& state.pending is None
    &&& state.stack.len() > 0
    &&& state.stack[0] matches FrameView::Build(build) && {
        &&& build.project == project
        &&& build.target == target
        &&& build.required == Some(library)
        &&& !(build.phase is Start)
        &&& !(build.phase is LinkRequired)
    }
}

proof fn lemma_executable_starts(
    plan: PlanView,
    cache: Map<Seq<char>, ResolvedView>,
    build: BuildView,
    library: ResolvedView,
    event: EventView,
)
    requires
        build.phase is Start,
        build.provided || !cache.contains_key(
            project::package_name(build.project, build.target),
        ),
    ensures
        ({
            let step = stepped(plan, resumed(cache, build, library), event);
            &&& !(step.action is Finished)
            &&& !ends(step.action) ==> step.action is StartAssembler && step.state == resumed(
                cache,
                BuildView { phase: BuildPhaseView::LinkRequired, ..build },
                library,
            )
        }),
{
    reveal(stepped);
    let state = resumed(cache, build, library);
    let rest = AssemblyView { stack: state.stack.drop_last(), ..state };
    assert(rest.stack =~= Seq::<FrameView>::empty());
    let next = FrameView::Build(
        BuildView { required: Some(library), phase: BuildPhaseView::LinkRequired, ..build },
    );
    assert(rest.with(next).stack =~= seq![next]);
}

proof fn lemma_executable_is_linked(
    plan: PlanView,
    cache: Map<Seq<char>, ResolvedView>,
    build: BuildView,
    library: ResolvedView,
    event: EventView,
)
    requires
        build.phase is LinkRequired,
    ensures
        ({
            let step = stepped(plan, resumed(cache, build, library), event);
            &&& !(step.action is Finished)
            &&& !ends(step.action) ==> step.action == (ActionView::Link {
                package: library.package,
                linkage: library_linkage(library.package),
            }) && step.state == resumed(
                cache,
                BuildView { phase: BuildPhaseView::RecordRequired, ..build },
                library,
            )
        }),
{
    reveal(stepped);
    let state = resumed(cache, build, library);
    let rest = AssemblyView { stack: state.stack.drop_last(), ..state };
    assert(rest.stack =~= Seq::<FrameView>::empty());
    let next = FrameView::Build(
        BuildView { required: Some(library), phase: BuildPhaseView::RecordRequired, ..build },
    );
    assert(rest.with(next).stack =~= seq![next]);
}

/// The action creates the package of a target.
spec fn creates(action: ActionView, project: ProjectView, target: TargetView) -> bool {
    action matches ActionView::CreatePackage { name, .. } && name == project::package_name(
        project,
        target,
    )
}

/// The package of the target at the bottom of the stack is to be created, and nothing else is done.
spec fn is_created(state: AssemblyView) -> bool {
    &&& state.stack.len() == 1
    &&& state.stack[0] matches FrameView::Build(build) && build.phase is Package
}

proof fn lemma_bottom_step(
    plan: PlanView,
    state: AssemblyView,
    project: ProjectView,
    target: TargetView,
    library: ResolvedView,
    event: EventView,
)
    requires
        assembly_laws::well_shaped(plan, state),
        is_under_way(state, project, target, library),
        !ends(stepped(plan, state, event).action),
    ensures
        is_under_way(stepped(plan, state, event).state, project, target, library),
        is_created(stepped(plan, state, event).state) ==> creates(
            stepped(plan, state, event).action,
            project,
            target,
        ),
{
    lemma_stack(plan, state, event);
    lemma_goes_on(plan, state, event);
    let after = stepped(plan, state, event).state;
    if state.stack.len() > 1 {
        assert(assembly_laws::waits_for(plan, state.stack[0], state.stack[0int + 1]));
        let lower = state.stack.drop_last();
        assert(after.stack[0] == state.stack[0]) by {
            if after.stack.len() == lower.len() + 2 {
                assert(after.stack.drop_last().drop_last()[0] == after.stack[0]);
            } else if after.stack.len() == lower.len() + 1 {
                assert(after.stack.drop_last()[0] == after.stack[0]);
            }
        }
    } else {
        lemma_bottom_alone(plan, state, project, target, library, event);
    }
}

proof fn lemma_bottom_alone(
    plan: PlanView,
    state: AssemblyView,
    project: ProjectView,
    target: TargetView,
    library: ResolvedView,
    event: EventView,
)
    requires
        state.stack.len() == 1,
        is_under_way(state, project, target, library),
        !ends(stepped(plan, state, event).action),
    ensures
        is_under_way(stepped(plan, state, event).state, project, target, library),
        is_created(stepped(plan, state, event).state) ==> creates(
            stepped(plan, state, event).action,
            project,
            target,
        ),
{
    reveal(stepped);
    let rest = AssemblyView { stack: state.stack.drop_last(), ..state };
    assert(rest.stack =~= Seq::<FrameView>::empty());
    assert(state.stack.last() == state.stack[0]);
}

proof fn lemma_bottom_finish(
    plan: PlanView,
    state: AssemblyView,
    project: ProjectView,
    target: TargetView,
    library: ResolvedView,
    event: EventView,
    package: PackageView,
)
    requires
        is_under_way(state, project, target, library),
        stepped(plan, state, event).action == (ActionView::Finished { package }),
    ensures
        is_created(state),
        event == EventView::Package(package),
{
    reveal(stepped);
    let rest = AssemblyView { stack: state.stack.drop_last(), ..state };
    if state.stack.len() > 1 {
        assert(rest.stack.len() > 0);
    } else {
        assert(state.stack.last() == state.stack[0]);
    }
}

proof fn lemma_bottom_run(
    plan: PlanView,
    start: AssemblyView,
    events: Seq<EventView>,
    project: ProjectView,
    target: TargetView,
    library: ResolvedView,
    from: int,
    to: int,
)
    requires
        assembly_laws::well_shaped(plan, start),
        0 <= from <= to <= events.len(),
        unfinished(plan, start, events, to),
        is_under_way(before(plan, start, events, from), project, target, library),
    ensures
        is_under_way(before(plan, start, events, to), project, target, library),
        to > from && is_created(before(plan, start, events, to)) ==> creates(
            action_at(plan, start, events, to - 1),
            project,
            target,
        ),
    decreases to - from,
{
    if to > from {
        lemma_bottom_run(plan, start, events, project, target, library, from, to - 1);
        lemma_next(plan, start, events, to - 1);
        runs_keep_shape(plan, start, events.take(to - 1));
        assert(!ends(action_at(plan, start, events, to - 1)));
        lemma_bottom_step(
            plan,
            before(plan, start, events, to - 1),
            project,
            target,
            library,
            events[to - 1],
        );
    }
}

/// The number of the first event with which an assembly ends, or the number of the events.
proof fn lemma_first_end(
    plan: PlanView,
    state: AssemblyView,
    events: Seq<EventView>,
    n: int,
) -> (k: int)
    requires
        0 <= n <= events.len(),
    ensures
        0 <= k <= n,
        unfinished(plan, state, events, k),
        k < n ==> ends(action_at(plan, state, events, k)),
    decreases n,
{
    if n == 0 {
        0
    } else {
        let k = lemma_first_end(plan, state, events, n - 1);
        if k < n - 1 {
            k
        } else if ends(action_at(plan, state, events, n - 1)) {
            n - 1
        } else {
            n
        }
    }
}

/// The library alone is finished with the event before the one with number `k`, and from there on
/// the executable is assembled: it is linked with the library before anything else, and in the end
/// its package is created.
pub open spec fn assembled_against(
    plan: PlanView,
    alone: AssemblyView,
    whole: AssemblyView,
    events: Seq<EventView>,
    name: Seq<char>,
    package: PackageView,
    k: int,
    library: PackageView,
) -> bool {
    let n = events.len();
    &&& 0 < k
    &&& k + 1 < n - 2
    &&& unfinished(plan, alone, events, k - 1)
    &&& action_at(plan, alone, events, k - 1) == (ActionView::Finished { package: library })
    &&& action_at(plan, whole, events, k) is StartAssembler
    &&& action_at(plan, whole, events, k + 1) == (ActionView::Link {
        package: library,
        linkage: library_linkage(library),
    })
    &&& action_at(plan, whole, events, n - 2) is CreatePackage
    &&& action_at(plan, whole, events, n - 2)->CreatePackage_name == name
    &&& events[n - 1] == EventView::Package(package)
}

/// An executable of a project with a library is finished only if the library alone is, and it is
/// linked against that library: statically, or dynamically if the library is a kernel. What is
/// handed over is the package of the executable. A package of the graph with the name of the
/// executable would be handed over in its place.
pub proof fn executable_is_assembled_against_its_library(
    plan: PlanView,
    project: ProjectView,
    target: TargetView,
    library: TargetView,
    sources: Option<ProvidedView>,
    events: Seq<EventView>,
    package: PackageView,
)
    requires
        target.ty is Executable,
        project.library == Some(library),
        !(library.ty is Executable),
        sources is Some || graph::find_node(
            plan.graph.nodes,
            project::package_name(project, target),
        ) is None,
        events.len() > 0,
        unfinished(
            plan,
            assembly_model::started(plan.graph.root, project, target, sources),
            events,
            events.len() - 1,
        ),
        action_at(
            plan,
            assembly_model::started(plan.graph.root, project, target, sources),
            events,
            events.len() - 1,
        ) == (ActionView::Finished { package }),
    ensures
        exists|k: int, q: PackageView| #[trigger]
            assembled_against(
                plan,
                assembly_model::started(plan.graph.root, project, library, None),
                assembly_model::started(plan.graph.root, project, target, sources),
                events,
                project::package_name(project, target),
                package,
                k,
                q,
            ),
{
    let alone = assembly_model::started(plan.graph.root, project, library, None);
    let whole = assembly_model::started(plan.graph.root, project, target, sources);
    let build = assembly_model::new_build(plan.graph.root, project, target, sources);
    let n = events.len() as int;
    assert(whole =~= AssemblyView { pending: Some(build), ..alone });
    assembly_laws::assemblies_start_well_shaped(plan, project, library, None);
    assembly_laws::assemblies_start_well_shaped(plan, project, target, sources);
    let j = lemma_first_end(plan, alone, events, n);
    lemma_runs_alongside(plan, alone, build, events, j);
    assert(action_at(plan, whole, events, n - 1) is Finished);
    assert(j < n) by {
        if j == n {
            assert(action_at(plan, whole, events, n - 1) == action_at(plan, alone, events, n - 1));
            assert(!ends(action_at(plan, alone, events, n - 1)));
        }
    }
    let at = before(plan, alone, events, j);
    runs_keep_shape(plan, alone, events.take(j));
    lemma_step_follows(plan, at, build, events[j]);
    lemma_next(plan, alone, events, j);
    lemma_next(plan, whole, events, j);
    assert(j < n - 1 ==> !ends(action_at(plan, whole, events, j)));
    let library_package = match action_at(plan, alone, events, j) {
        ActionView::Finished { package } => package,
        _ => package,
    };
    assert(action_at(plan, alone, events, j) == (ActionView::Finished {
        package: library_package,
    }));
    let cache = before(plan, alone, events, j + 1).cache;
    let q = choose|q: ResolvedView|
        q.package == library_package && before(plan, whole, events, j + 1) == #[trigger] resumed(
            cache,
            build,
            q,
        );
    let k = j + 1;
    lemma_executable_run(plan, whole, build, cache, q, events, k, package);
    assert(assembled_against(
        plan,
        alone,
        whole,
        events,
        project::package_name(project, target),
        package,
        k,
        library_package,
    ));
}

proof fn lemma_executable_run(
    plan: PlanView,
    whole: AssemblyView,
    build: BuildView,
    cache: Map<Seq<char>, ResolvedView>,
    library: ResolvedView,
    events: Seq<EventView>,
    k: int,
    package: PackageView,
)
    requires
        whole == assembly_model::started(
            plan.graph.root,
            build.project,
            build.target,
            build.sources,
        ),
        build == assembly_model::new_build(
            plan.graph.root,
            build.project,
            build.target,
            build.sources,
        ),
        build.provided || graph::find_node(
            plan.graph.nodes,
            project::package_name(build.project, build.target),
        ) is None,
        0 < k < events.len(),
        before(plan, whole, events, k) == resumed(cache, build, library),
        unfinished(plan, whole, events, events.len() - 1),
        action_at(plan, whole, events, events.len() - 1) == (ActionView::Finished { package }),
    ensures
        ({
            let n = events.len();
            &&& k + 1 < n - 2
            &&& action_at(plan, whole, events, k) is StartAssembler
            &&& action_at(plan, whole, events, k + 1) == (ActionView::Link {
                package: library.package,
                linkage: library_linkage(library.package),
            })
            &&& creates(
                action_at(plan, whole, events, n - 2),
                build.project,
                build.target,
            )
            &&& events[n - 1] == EventView::Package(package)
        }),
{
    let n = events.len() as int;
    assembly_laws::assemblies_start_well_shaped(
        plan,
        build.project,
        build.target,
        build.sources,
    );
    ready_packages_are_in_the_graph(
        plan,
        build.project,
        build.target,
        build.sources,
        events.take(k),
    );
    let name = project::package_name(build.project, build.target);
    assert(cache == before(plan, whole, events, k).cache);
    assert(before(plan, whole, events, k).cache.contains_key(name) ==> graph::find_node(
        plan.graph.nodes,
        name,
    ) is Some);
    lemma_executable_starts(plan, cache, build, library, events[k]);
    assert(action_at(plan, whole, events, k) == stepped(
        plan,
        resumed(cache, build, library),
        events[k],
    ).action);
    assert(k < n - 1);
    assert(!ends(action_at(plan, whole, events, k)));
    lemma_next(plan, whole, events, k);
    let linked = BuildView { phase: BuildPhaseView::LinkRequired, ..build };
    lemma_executable_is_linked(plan, cache, linked, library, events[k + 1]);
    assert(action_at(plan, whole, events, k + 1) == stepped(
        plan,
        resumed(cache, linked, library),
        events[k + 1],
    ).action);
    assert(k + 1 < n - 1);
    assert(!ends(action_at(plan, whole, events, k + 1)));
    lemma_next(plan, whole, events, k + 1);
    let state = before(plan, whole, events, k + 2);
    assert(state.stack[0] is Build);
    assert(is_under_way(state, build.project, build.target, library));
    assert(!is_created(state));
    lemma_bottom_run(
        plan,
        whole,
        events,
        build.project,
        build.target,
        library,
        k + 2,
        n - 1,
    );
    lemma_bottom_finish(
        plan,
        before(plan, whole, events, n - 1),
        build.project,
        build.target,
        library,
        events[n - 1],
        package,
    );
}

/// Modules are provided for the target alone: at the bottom of the stack, or pending.
pub open spec fn provided_for(state: AssemblyView, target: TargetView) -> bool {
    &&& forall|i: int|
        0 <= i < state.stack.len() ==> ((#[trigger] state.stack[i]) matches FrameView::Build(build)
            ==> (build.sources is Some ==> i == 0 && build.target == target))
    &&& state.pending matches Some(build) ==> build.target == target
}

/// A frame for which modules are provided only if it is for the target, at the bottom of the stack.
spec fn fits(rest: AssemblyView, target: TargetView, frame: FrameView) -> bool {
    frame matches FrameView::Build(build) ==> (build.sources is Some ==> rest.stack.len() == 0
        && build.target == target)
}

proof fn lemma_provided_with(rest: AssemblyView, target: TargetView, frame: FrameView)
    requires
        provided_for(rest, target),
        fits(rest, target, frame),
    ensures
        provided_for(rest.with(frame), target),
{
    let after = rest.with(frame);
    assert forall|i: int| 0 <= i < after.stack.len() implies ((
    #[trigger] after.stack[i]) matches FrameView::Build(build) ==> (build.sources is Some ==> i == 0
        && build.target == target)) by {
        if i < rest.stack.len() {
            assert(after.stack[i] == rest.stack[i]);
        }
    }
}

proof fn lemma_provided_delivering(rest: AssemblyView, target: TargetView, resolved: ResolvedView)
    requires
        provided_for(rest, target),
    ensures
        provided_for(assembly_model::delivering(rest, resolved).state, target),
{
    if rest.stack.len() == 0 {
        if let Some(build) = rest.pending {
            lemma_provided_with(
                AssemblyView { pending: None, ..rest },
                target,
                FrameView::Build(BuildView { required: Some(resolved), ..build }),
            );
        }
    }
}

proof fn lemma_build_provided_for(
    plan: PlanView,
    rest: AssemblyView,
    target: TargetView,
    build: BuildView,
    event: EventView,
)
    requires
        provided_for(rest, target),
        fits(rest, target, FrameView::Build(build)),
    ensures
        provided_for(assembly_model::build_step(plan, rest, build, event).state, target),
        assembly_model::build_step(plan, rest, build, event).action is UseModules
            ==> build.sources is Some,
{
    let after = assembly_model::build_step(plan, rest, build, event);
    match (build.phase, event) {
        (BuildPhaseView::Start, EventView::Proceed) => {
            let name = project::package_name(build.project, build.target);
            if rest.cache.contains_key(name) {
                lemma_provided_delivering(rest, target, rest.cache[name]);
            }
            lemma_provided_with(rest, target, build.at(BuildPhaseView::LinkRequired));
        },
        (BuildPhaseView::Dependencies, EventView::Proceed) => {
            if let Some(node) = graph::find_node(plan.graph.nodes, build.id) {
                if build.next < node.dependencies.len() {
                    let waiting = build.at(BuildPhaseView::AwaitDependency);
                    let frame = FrameView::Resolve(
                        ResolveView {
                            id: node.dependencies[build.next as int].dependency,
                            phase: ResolvePhaseView::Start,
                        },
                    );
                    lemma_provided_with(rest, target, waiting);
                    lemma_provided_with(rest.with(waiting), target, frame);
                } else if after.state.stack.len() > 0 {
                    lemma_provided_with(rest, target, after.state.stack.last());
                }
            }
        },
        (BuildPhaseView::AwaitDependency, EventView::Proceed) => {
            if after.state.stack.len() > 0 {
                lemma_provided_with(
                    AssemblyView { delivered: None, ..rest },
                    target,
                    after.state.stack.last(),
                );
            }
        },
        (BuildPhaseView::Package, EventView::Package(package)) => {
            let resolved = ResolvedView { package, kernel: build.link.kernel };
            lemma_provided_delivering(rest, target, resolved);
            lemma_provided_delivering(rest.with_ready(build.id, resolved), target, resolved);
        },
        _ => {
            if after.state.stack.len() > 0 {
                lemma_provided_with(rest, target, after.state.stack.last());
            }
        },
    }
}

proof fn lemma_resolve_provided_for(
    plan: PlanView,
    rest: AssemblyView,
    target: TargetView,
    frame: ResolveView,
    event: EventView,
)
    requires
        provided_for(rest, target),
    ensures
        provided_for(assembly_model::resolve_step(plan, rest, frame, event).state, target),
        !(assembly_model::resolve_step(plan, rest, frame, event).action is UseModules),
{
    let after = assembly_model::resolve_step(plan, rest, frame, event);
    if after.state.delivered is Some {
        let resolved = after.state.delivered->0;
        lemma_provided_delivering(rest, target, resolved);
        lemma_provided_delivering(rest.with_ready(frame.id, resolved), target, resolved);
    }
    match (frame.phase, event) {
        (
            ResolvePhaseView::FindRegistered { project, target: library },
            EventView::Canonical(None),
        ) => {
            let waiting = frame.at(ResolvePhaseView::AwaitBuild);
            let build = FrameView::Build(
                assembly_model::new_build(frame.id, project, library, None),
            );
            lemma_provided_with(rest, target, waiting);
            lemma_provided_with(rest.with(waiting), target, build);
        },
        (ResolvePhaseView::AwaitBuild, EventView::Proceed) => {
            if after.state.stack.len() > 0 {
                lemma_provided_with(
                    AssemblyView { delivered: None, ..rest },
                    target,
                    after.state.stack.last(),
                );
            }
        },
        _ => {
            if after.state.stack.len() > 0 && after.state.stack.last() is Resolve {
                lemma_provided_with(rest, target, after.state.stack.last());
            }
        },
    }
}

proof fn lemma_step_provided_for(
    plan: PlanView,
    state: AssemblyView,
    target: TargetView,
    event: EventView,
)
    requires
        provided_for(state, target),
        state.stack.len() > 0,
    ensures
        provided_for(stepped(plan, state, event).state, target),
        stepped(plan, state, event).action is UseModules ==> state.stack.len() == 1 && (
        state.stack[0] matches FrameView::Build(build) && build.target == target),
{
    reveal(stepped);
    let rest = AssemblyView { stack: state.stack.drop_last(), ..state };
    assert(forall|i: int| 0 <= i < rest.stack.len() ==> rest.stack[i] == state.stack[i]);
    let top = state.stack[state.stack.len() - 1];
    assert(fits(rest, target, top));
    match state.stack.last() {
        FrameView::Build(build) => {
            lemma_build_provided_for(plan, rest, target, build, event);
        },
        FrameView::Resolve(frame) => {
            lemma_resolve_provided_for(plan, rest, target, frame, event);
        },
    }
}

/// Modules that are provided serve the target that they are provided for, and nothing else.
pub proof fn provided_modules_serve_the_target_alone(
    plan: PlanView,
    project: ProjectView,
    target: TargetView,
    sources: Option<ProvidedView>,
    events: Seq<EventView>,
    i: int,
)
    requires
        0 <= i < events.len(),
        unfinished(
            plan,
            assembly_model::started(plan.graph.root, project, target, sources),
            events,
            i,
        ),
    ensures
        ({
            let start = assembly_model::started(plan.graph.root, project, target, sources);
            let state = before(plan, start, events, i);
            &&& provided_for(state, target)
            &&& state.stack.len() > 0
            &&& action_at(plan, start, events, i) is UseModules ==> state.stack.len() == 1 && (
            state.stack[0] matches FrameView::Build(build) && build.target == target)
        }),
    decreases i,
{
    let start = assembly_model::started(plan.graph.root, project, target, sources);
    lemma_first(plan, start, events);
    if i > 0 {
        provided_modules_serve_the_target_alone(plan, project, target, sources, events, i - 1);
        let state = before(plan, start, events, i - 1);
        lemma_step_provided_for(plan, state, target, events[i - 1]);
        assert(!ends(action_at(plan, start, events, i - 1)));
        lemma_goes_on(plan, state, events[i - 1]);
        lemma_next(plan, start, events, i - 1);
    }
    lemma_step_provided_for(plan, before(plan, start, events, i), target, events[i]);
}

// The resolution of a dependency.

/// The events take a dependency from its first step to the one with which its package is handed
/// over. `rest` is the assembly below it.
pub open spec fn resolves(
    plan: PlanView,
    rest: AssemblyView,
    id: Seq<char>,
    events: Seq<EventView>,
) -> bool {
    let start = resolving(rest, id);
    &&& assembly_laws::well_shaped(plan, start)
    &&& rest.stack.len() > 0
    &&& forall|i: int|
        0 <= i < events.len() ==> (#[trigger] before(plan, start, events, i)).stack.len()
            > rest.stack.len()
    &&& after(plan, start, events).stack.len() == rest.stack.len()
}

/// The assembly in which a dependency is about to be resolved.
pub open spec fn resolving(rest: AssemblyView, id: Seq<char>) -> AssemblyView {
    rest.with(FrameView::Resolve(ResolveView { id, phase: ResolvePhaseView::Start }))
}

/// The package of a dependency that is handed over once it is resolved.
pub open spec fn resolution(
    plan: PlanView,
    rest: AssemblyView,
    id: Seq<char>,
    events: Seq<EventView>,
) -> Option<ResolvedView> {
    after(plan, resolving(rest, id), events).delivered
}

/// The dependency has sources with a library, and is not ready.
pub open spec fn has_sources(plan: PlanView, rest: AssemblyView, id: Seq<char>) -> bool {
    &&& !rest.cache.contains_key(id)
    &&& graph::find_node(plan.graph.nodes, id) matches Some(node) && node.provenance
        matches NodeProvenanceView::Real { has_library, .. } && has_library
}

/// Only this dependency is being worked on: it is on top of the assembly below it.
spec fn is_on_top(
    state: AssemblyView,
    rest: AssemblyView,
    id: Seq<char>,
    phase: ResolvePhaseView,
) -> bool {
    &&& state.stack == rest.stack.push(FrameView::Resolve(ResolveView { id, phase }))
    &&& state.pending == rest.pending
    &&& state.cache == rest.cache
    &&& state.delivered is None
}

proof fn lemma_top_step(
    plan: PlanView,
    state: AssemblyView,
    rest: AssemblyView,
    id: Seq<char>,
    phase: ResolvePhaseView,
    event: EventView,
)
    requires
        is_on_top(state, rest, id, phase),
    ensures
        stepped(plan, state, event) == assembly_model::resolve_step(
            plan,
            AssemblyView { delivered: None, ..rest },
            ResolveView { id, phase },
            event,
        ),
{
    reveal(stepped);
    assert(state.stack.drop_last() =~= rest.stack);
    assert(AssemblyView { stack: state.stack.drop_last(), ..state } =~= AssemblyView {
        delivered: None,
        ..rest
    });
}

/// The project of a dependency is loaded, and the registered version is looked up.
proof fn lemma_project_is_loaded(
    plan: PlanView,
    rest: AssemblyView,
    id: Seq<char>,
    events: Seq<EventView>,
) -> (found: (ProjectView, TargetView))
    requires
        resolves(plan, rest, id, events),
        has_sources(plan, rest, id),
        events.len() > 2,
    ensures
        ({
            let start = resolving(rest, id);
            let node = graph::find_node(plan.graph.nodes, id)->0;
            &&& rest.delivered is None
            &&& action_at(plan, start, events, 0) is LoadProject
            &&& action_at(plan, start, events, 0)->LoadProject_name == id
            &&& action_at(plan, start, events, 1) == (ActionView::FindCanonical {
                name: id,
                version: node.version,
            })
            &&& is_on_top(
                before(plan, start, events, 2),
                rest,
                id,
                ResolvePhaseView::FindRegistered { project: found.0, target: found.1 },
            )
        }),
{
    let start = resolving(rest, id);
    lemma_first(plan, start, events);
    assert(start.stack.last() == FrameView::Resolve(
        ResolveView { id, phase: ResolvePhaseView::Start },
    ));
    assert(is_on_top(start, rest, id, ResolvePhaseView::Start));
    lemma_top_step(plan, start, rest, id, ResolvePhaseView::Start, events[0]);
    lemma_next(plan, start, events, 0);
    assert(before(plan, start, events, 1).stack.len() > rest.stack.len());
    let first = before(plan, start, events, 1);
    assert(is_on_top(first, rest, id, ResolvePhaseView::LoadProject));
    lemma_top_step(plan, first, rest, id, ResolvePhaseView::LoadProject, events[1]);
    lemma_next(plan, start, events, 1);
    assert(before(plan, start, events, 2).stack.len() > rest.stack.len());
    match events[1] {
        EventView::Project(project) => (project, project.library->0),
        _ => arbitrary(),
    }
}

/// The dependency waits, above the assembly below it, for a package that is being assembled.
spec fn is_waiting(state: AssemblyView, rest: AssemblyView, id: Seq<char>) -> bool {
    let h = rest.stack.len();
    &&& state.stack.len() >= h + 2
    &&& state.stack.take(h as int) == rest.stack
    &&& state.stack[h as int] == FrameView::Resolve(
        ResolveView { id, phase: ResolvePhaseView::AwaitBuild },
    )
    &&& state.pending == rest.pending
}

/// The dependency is published in the step before the last, and nothing of its own is done between.
spec fn is_published_last(
    plan: PlanView,
    start: AssemblyView,
    rest: AssemblyView,
    id: Seq<char>,
    events: Seq<EventView>,
    from: int,
) -> bool {
    let n = events.len() as int;
    let end = after(plan, start, events);
    &&& from <= n - 2
    &&& forall|i: int|
        from <= i < n - 2 ==> (#[trigger] before(plan, start, events, i)).stack.len()
            > rest.stack.len() + 1
    &&& end.delivered is Some
    &&& action_at(plan, start, events, n - 2) == (ActionView::Publish {
        package: end.delivered->0.package,
    })
    &&& action_at(plan, start, events, n - 1) is Continue
    &&& end.cache.contains_key(id)
    &&& end.cache[id] == end.delivered->0
}

proof fn lemma_built_is_published(
    plan: PlanView,
    rest: AssemblyView,
    id: Seq<char>,
    events: Seq<EventView>,
    j: int,
)
    requires
        resolves(plan, rest, id, events),
        0 <= j < events.len(),
        ({
            let state = before(plan, resolving(rest, id), events, j);
            &&& state.stack == rest.stack.push(
                FrameView::Resolve(ResolveView { id, phase: ResolvePhaseView::AwaitBuild }),
            )
            &&& state.pending == rest.pending
            &&& state.delivered is Some
        }),
    ensures
        is_published_last(plan, resolving(rest, id), rest, id, events, j),
{
    let start = resolving(rest, id);
    let n = events.len() as int;
    lemma_first(plan, start, events);
    let state = before(plan, start, events, j);
    let resolved = state.delivered->0;
    lemma_next(plan, start, events, j);
    lemma_publishing(plan, state, rest, id, events[j]);
    assert(j + 1 < n ==> before(plan, start, events, j + 1).stack.len() > rest.stack.len());
    let next = before(plan, start, events, j + 1);
    assert(j + 1 < n);
    lemma_next(plan, start, events, j + 1);
    lemma_publishing_ends(plan, next, rest, id, resolved, events[j + 1]);
    assert(j + 2 < n ==> before(plan, start, events, j + 2).stack.len() > rest.stack.len());
    assert(j + 2 == n);
}

proof fn lemma_publishing(
    plan: PlanView,
    state: AssemblyView,
    rest: AssemblyView,
    id: Seq<char>,
    event: EventView,
)
    requires
        state.stack == rest.stack.push(
            FrameView::Resolve(ResolveView { id, phase: ResolvePhaseView::AwaitBuild }),
        ),
        state.pending == rest.pending,
        state.delivered is Some,
    ensures
        ({
            let step = stepped(plan, state, event);
            let resolved = state.delivered->0;
            step.state.stack.len() > 0 ==> {
                &&& step.action == (ActionView::Publish { package: resolved.package })
                &&& step.state.stack == rest.stack.push(
                    FrameView::Resolve(
                        ResolveView { id, phase: ResolvePhaseView::Publish(resolved) },
                    ),
                )
                &&& step.state.pending == rest.pending
                &&& step.state.delivered is None
            }
        }),
{
    reveal(stepped);
    assert(state.stack.drop_last() =~= rest.stack);
}

proof fn lemma_publishing_ends(
    plan: PlanView,
    state: AssemblyView,
    rest: AssemblyView,
    id: Seq<char>,
    resolved: ResolvedView,
    event: EventView,
)
    requires
        rest.stack.len() > 0,
        state.stack == rest.stack.push(
            FrameView::Resolve(ResolveView { id, phase: ResolvePhaseView::Publish(resolved) }),
        ),
    ensures
        ({
            let step = stepped(plan, state, event);
            step.state.stack.len() > 0 ==> {
                &&& step.action is Continue
                &&& step.state.stack == rest.stack
                &&& step.state.delivered == Some(resolved)
                &&& step.state.cache == state.cache.insert(id, resolved)
            }
        }),
{
    reveal(stepped);
    assert(state.stack.drop_last() =~= rest.stack);
}

proof fn lemma_waits_to_publish(
    plan: PlanView,
    rest: AssemblyView,
    id: Seq<char>,
    events: Seq<EventView>,
    j: int,
)
    requires
        resolves(plan, rest, id, events),
        0 <= j < events.len(),
        is_waiting(before(plan, resolving(rest, id), events, j), rest, id),
    ensures
        is_published_last(plan, resolving(rest, id), rest, id, events, j),
    decreases events.len() - j,
{
    let start = resolving(rest, id);
    let n = events.len() as int;
    let h = rest.stack.len() as int;
    lemma_first(plan, start, events);
    let state = before(plan, start, events, j);
    runs_keep_shape(plan, start, events.take(j));
    lemma_stack(plan, state, events[j]);
    lemma_next(plan, start, events, j);
    let next = before(plan, start, events, j + 1);
    assert(j + 1 < n ==> next.stack.len() > h);
    let lower = state.stack.drop_last();
    assert(next.stack.len() > 0);
    assert(lower.len() >= h + 1);
    assert(next.stack.len() >= lower.len() && next.stack.take(lower.len() as int) =~= lower) by {
        if next.stack.len() == lower.len() + 2 {
            assert(next.stack.drop_last().drop_last() =~= next.stack.take(lower.len() as int));
        } else if next.stack.len() == lower.len() + 1 {
            assert(next.stack.drop_last() =~= next.stack.take(lower.len() as int));
        }
    }
    assert(next.stack.take(h) =~= rest.stack) by {
        assert(next.stack.take(h) =~= next.stack.take(lower.len() as int).take(h));
        assert(lower.take(h) =~= state.stack.take(h));
    }
    assert(next.stack[h] == state.stack[h]) by {
        assert(next.stack.take(lower.len() as int)[h] == lower[h]);
    }
    assert(j + 1 < n);
    if next.stack.len() >= h + 2 {
        lemma_waits_to_publish(plan, rest, id, events, j + 1);
    } else {
        assert(next.stack =~= rest.stack.push(state.stack[h]));
        lemma_built_is_published(plan, rest, id, events, j + 1);
    }
    assert forall|i: int| j <= i < n - 2 implies (#[trigger] before(
        plan,
        start,
        events,
        i,
    )).stack.len() > rest.stack.len() + 1 by {
        if i == j {
            assert(state.stack.len() >= h + 2);
        }
    }
}

/// A dependency with sources of which no version is registered is assembled and published exactly
/// once, in the last but one of its steps, with the package that is handed over. It is not loaded:
/// between looking up the registered version and publishing, only the package and what it needs are
/// worked on.
pub proof fn unregistered_dependency_is_published_once(
    plan: PlanView,
    rest: AssemblyView,
    id: Seq<char>,
    events: Seq<EventView>,
)
    requires
        resolves(plan, rest, id, events),
        has_sources(plan, rest, id),
        events.len() > 2,
        events[2] == EventView::Canonical(None),
    ensures
        ({
            let start = resolving(rest, id);
            let n = events.len() as int;
            let node = graph::find_node(plan.graph.nodes, id)->0;
            &&& n >= 5
            &&& resolution(plan, rest, id, events) is Some
            &&& action_at(plan, start, events, 0) is LoadProject
            &&& action_at(plan, start, events, 1) == (ActionView::FindCanonical {
                name: id,
                version: node.version,
            })
            &&& action_at(plan, start, events, 2) is Continue
            &&& forall|i: int|
                3 <= i < n - 2 ==> (#[trigger] before(plan, start, events, i)).stack.len()
                    > rest.stack.len() + 1
            &&& action_at(plan, start, events, n - 2) == (ActionView::Publish {
                package: resolution(plan, rest, id, events)->0.package,
            })
            &&& action_at(plan, start, events, n - 1) is Continue
            &&& after(plan, start, events).cache.contains_key(id)
            &&& after(plan, start, events).cache[id] == resolution(plan, rest, id, events)->0
        }),
{
    let start = resolving(rest, id);
    let found = lemma_project_is_loaded(plan, rest, id, events);
    let phase = ResolvePhaseView::FindRegistered { project: found.0, target: found.1 };
    let state = before(plan, start, events, 2);
    lemma_top_step(plan, state, rest, id, phase, events[2]);
    lemma_next(plan, start, events, 2);
    lemma_first(plan, start, events);
    let next = before(plan, start, events, 3);
    assert(next.stack.take(rest.stack.len() as int) =~= rest.stack);
    assert(is_waiting(next, rest, id));
    assert(events.len() > 3);
    lemma_waits_to_publish(plan, rest, id, events, 3);
}

proof fn lemma_own_step(
    plan: PlanView,
    rest: AssemblyView,
    id: Seq<char>,
    events: Seq<EventView>,
    i: int,
    phase: ResolvePhaseView,
)
    requires
        resolves(plan, rest, id, events),
        rest.delivered is None,
        0 <= i < events.len(),
        is_on_top(before(plan, resolving(rest, id), events, i), rest, id, phase),
    ensures
        ({
            let start = resolving(rest, id);
            let step = assembly_model::resolve_step(
                plan,
                rest,
                ResolveView { id, phase },
                events[i],
            );
            &&& before(plan, start, events, i + 1) == step.state
            &&& action_at(plan, start, events, i) == step.action
            &&& step.state.stack.len() >= rest.stack.len()
            &&& step.state.stack.len() == rest.stack.len() <==> i + 1 == events.len()
        }),
{
    let start = resolving(rest, id);
    lemma_first(plan, start, events);
    lemma_top_step(plan, before(plan, start, events, i), rest, id, phase, events[i]);
    assert(rest =~= AssemblyView { delivered: None, ..rest });
    lemma_next(plan, start, events, i);
    assert(i + 1 < events.len() ==> before(plan, start, events, i + 1).stack.len()
        > rest.stack.len());
}

/// What is done for a dependency whose registered package is used: the package is loaded, held
/// against the sources, and handed over with its kernel.
pub open spec fn is_reused(
    plan: PlanView,
    rest: AssemblyView,
    id: Seq<char>,
    events: Seq<EventView>,
    version: VersionView,
) -> bool {
    let start = resolving(rest, id);
    let n = events.len() as int;
    &&& 6 <= n <= 8
    &&& forall|i: int|
        0 <= i < n ==> (#[trigger] before(plan, start, events, i)).stack.len()
            == rest.stack.len() + 1
    &&& action_at(plan, start, events, 2) == (ActionView::LoadPackage { name: id, version })
    &&& events[3] is Package
    &&& resolution(plan, rest, id, events) is Some
    &&& resolution(plan, rest, id, events)->0.package == events[3]->Package_0
    &&& forall|i: int|
        0 <= i < n ==> !(#[trigger] action_at(plan, start, events, i) is Publish) && !(action_at(
            plan,
            start,
            events,
            i,
        ) is CreatePackage)
    &&& forall|i: int|
        0 <= i < n && i != 2 && #[trigger] action_at(plan, start, events, i) is LoadPackage ==> i
            == 6 && loads_kernel(action_at(plan, start, events, i), events[3]->Package_0)
}

/// The action loads the kernel that the package declares.
pub open spec fn loads_kernel(action: ActionView, package: PackageView) -> bool {
    linking::kernel_dependency(package) matches Ok(Some(kernel)) && action
        == (ActionView::LoadPackage {
        name: kernel.name,
        version: VersionView::exact(kernel.version, kernel.digest),
    })
}

/// A dependency with sources of which a version is registered is loaded exactly once, with that
/// version, and the package that was loaded is handed over. Nothing is assembled and nothing is
/// published for it: besides its own package only the kernel that the package declares is loaded.
pub proof fn registered_dependency_is_loaded_once(
    plan: PlanView,
    rest: AssemblyView,
    id: Seq<char>,
    events: Seq<EventView>,
    version: VersionView,
)
    requires
        resolves(plan, rest, id, events),
        has_sources(plan, rest, id),
        events.len() > 2,
        events[2] == EventView::Canonical(Some(version)),
    ensures
        is_reused(plan, rest, id, events, version),
{
    let start = resolving(rest, id);
    let n = events.len() as int;
    let h = rest.stack.len();
    lemma_first(plan, start, events);
    let (project, target) = lemma_project_is_loaded(plan, rest, id, events);
    assert(before(plan, start, events, 1).stack.len() == h + 1) by {
        assert(is_on_top(start, rest, id, ResolvePhaseView::Start));
        lemma_own_step(plan, rest, id, events, 0, ResolvePhaseView::Start);
    }
    lemma_own_step(
        plan,
        rest,
        id,
        events,
        2,
        ResolvePhaseView::FindRegistered { project, target },
    );
    let loading = ResolvePhaseView::LoadRegistered { project, target };
    assert(is_on_top(before(plan, start, events, 3), rest, id, loading));
    assert(n > 3);
    lemma_own_step(plan, rest, id, events, 3, loading);
    assert(events[3] is Package);
    let package = events[3]->Package_0;
    let checking = ResolvePhaseView::CheckRegistered { project, target, package };
    assert(is_on_top(before(plan, start, events, 4), rest, id, checking));
    assert(n > 4);
    lemma_own_step(plan, rest, id, events, 4, checking);
    let kernel = ResolvePhaseView::Kernel(package);
    assert(is_on_top(before(plan, start, events, 5), rest, id, kernel));
    assert(n > 5);
    lemma_own_step(plan, rest, id, events, 5, kernel);
    if n > 6 {
        let declared = linking::kernel_dependency(package)->Ok_0->0;
        let finding = ResolvePhaseView::FindKernel { package, kernel: declared };
        assert(is_on_top(before(plan, start, events, 6), rest, id, finding));
        lemma_own_step(plan, rest, id, events, 6, finding);
        if n > 7 {
            let loading = ResolvePhaseView::LoadKernel { package, kernel: declared };
            assert(is_on_top(before(plan, start, events, 7), rest, id, loading));
            lemma_own_step(plan, rest, id, events, 7, loading);
        }
    }
    assert(n <= 8);
    assert forall|i: int| 0 <= i < n implies (#[trigger] before(
        plan,
        start,
        events,
        i,
    )).stack.len() == h + 1 by {
        assert(i == 0 || i == 1 || i == 2 || i == 3 || i == 4 || i == 5 || i == 6 || i == 7);
    }
    assert forall|i: int| 0 <= i < n implies !(#[trigger] action_at(
        plan,
        start,
        events,
        i,
    ) is Publish) && !(action_at(plan, start, events, i) is CreatePackage) by {
        assert(i == 0 || i == 1 || i == 2 || i == 3 || i == 4 || i == 5 || i == 6 || i == 7);
    }
}

/// A dependency that was assembled, published to a store and is resolved again later, by an assembly
/// that looks it up there, is not assembled or published again: it is loaded once, with the version
/// under which it was registered, and what is handed over is the package of the first resolution.
pub proof fn second_resolution_loads_what_the_first_published(
    plan: PlanView,
    first: AssemblyView,
    first_events: Seq<EventView>,
    second: AssemblyView,
    second_events: Seq<EventView>,
    id: Seq<char>,
    store: StoreView,
    bytes: Seq<u8>,
)
    requires
        resolves(plan, first, id, first_events),
        has_sources(plan, first, id),
        first_events.len() > 2,
        first_events[2] == EventView::Canonical(None),
        resolves(plan, second, id, second_events),
        has_sources(plan, second, id),
        second_events.len() > 3,
        ({
            let published = resolution(plan, first, id, first_events)->0.package;
            let node = graph::find_node(plan.graph.nodes, id)->0;
            let publish = PublishView { package: published, bytes };
            let stored = registry_laws::published(store, publish);
            // The package is published under the name and the version of the graph.
            &&& published.name == id
            &&& published.version == node.version
            &&& package::holds(bytes, published)
            &&& registry::published_contents(store.registry.contents, published) is Ok
            // The store answers what it holds.
            &&& index::record_of(stored.registry.contents, id, node.version) matches Some(record)
                && second_events[2] == EventView::Canonical(Some(record.version))
            &&& second_events[3] is Package ==> registry_laws::loaded(
                stored,
                id,
                second_events[2]->Canonical_0->0,
            ) == Ok::<PackageView, ErrorView>(second_events[3]->Package_0)
        }),
    ensures
        ({
            let published = resolution(plan, first, id, first_events)->0.package;
            let version = VersionView::exact(published.version, published.digest);
            &&& is_reused(plan, second, id, second_events, version)
            &&& resolution(plan, second, id, second_events)->0.package == package::read_from(
                published,
                bytes,
            )
        }),
{
    unregistered_dependency_is_published_once(plan, first, id, first_events);
    let published = resolution(plan, first, id, first_events)->0.package;
    let exact = VersionView::exact(published.version, published.digest);
    registry::published_package_is_registered(store.registry.contents, published);
    registry::published_artifact_is_loaded(store.registry, published, bytes);
    assert(second_events[2] == EventView::Canonical(Some(exact)));
    registered_dependency_is_loaded_once(plan, second, id, second_events, exact);
    registry_laws::published_package_stays_loadable(
        store,
        PublishView { package: published, bytes },
        Seq::empty(),
    );
}

} // verus!
