//! What the packages of a run of an assembly record: exactly what was linked into them.

use vstd::prelude::*;

use crate::assembly_laws;
use crate::assembly_model;
use crate::assembly_model::{
    ActionView, AssemblyView, BuildPhaseView, BuildView, EventView, FrameView, PlanView,
    ProvidedView, ResolvePhaseView, ResolveView, StepView,
};
use crate::assembly_runs;
use crate::graph;
use crate::linking;
use crate::linking::{Linkage, ResolvedView};
use crate::package::DependencyView;
use crate::project;
use crate::project::{ProjectView, TargetView};

verus! {

/// A dependency that was linked, and how.
#[verifier::ext_equal]
pub struct LinkedView {
    pub resolved: ResolvedView,
    pub linkage: Linkage,
}

/// The dependency that a step links into the package on top, if it links one.
pub open spec fn link_of(step: StepView) -> Option<LinkedView> {
    if step.state.stack.len() == 0 {
        None
    } else {
        match (step.action, step.state.stack.last()) {
            (ActionView::Link { package, linkage }, FrameView::Build(build)) => match build.phase {
                BuildPhaseView::RecordDependency(resolved) => Some(
                    LinkedView {
                        resolved: ResolvedView { package, kernel: resolved.kernel },
                        linkage,
                    },
                ),
                _ => None,
            },
            _ => None,
        }
    }
}

/// What is linked into each of the packages on the stack once a step is taken: nothing into a
/// package whose assembly begins, and what the step links into the package on top.
pub open spec fn links_after(
    links: Seq<Seq<LinkedView>>,
    state: AssemblyView,
    step: StepView,
) -> Seq<Seq<LinkedView>> {
    let height = step.state.stack.len();
    if height > state.stack.len() {
        links.push(Seq::empty())
    } else if height < state.stack.len() {
        links.take(height as int)
    } else if state.pending is Some && step.state.pending is None {
        seq![Seq::empty()]
    } else {
        match link_of(step) {
            Some(link) => links.drop_last().push(links.last().push(link)),
            None => links,
        }
    }
}

/// What is linked into each of the packages on the stack after a sequence of events, if nothing
/// was at the beginning.
pub open spec fn links(plan: PlanView, state: AssemblyView, events: Seq<EventView>) -> Seq<
    Seq<LinkedView>,
>
    decreases events.len(),
{
    if events.len() == 0 {
        Seq::new(state.stack.len(), |i: int| Seq::empty())
    } else {
        let at = assembly_runs::after(plan, state, events.drop_last());
        links_after(
            links(plan, state, events.drop_last()),
            at,
            assembly_runs::stepped(plan, at, events.last()),
        )
    }
}

/// A package with these links has the dependency at run time: one of the linked packages brings it
/// along, or it is the kernel of the library that an executable is assembled against.
pub open spec fn is_needed(
    required: Option<ResolvedView>,
    list: Seq<LinkedView>,
    dependency: DependencyView,
) -> bool {
    ||| required is Some && linking::brings_kernel(required->0, dependency)
    ||| exists|k: int|
        0 <= k < list.len() && linking::brings(
            (#[trigger] list[k]).resolved,
            list[k].linkage,
            dependency,
        )
}

/// The library that an executable is assembled against is not recorded yet.
pub open spec fn is_early(phase: BuildPhaseView) -> bool {
    phase is Start || phase is LinkRequired || phase is RecordRequired
}

/// All the dependencies are linked.
pub open spec fn is_late(phase: BuildPhaseView) -> bool {
    ||| phase is ListSources
    ||| phase is Modules
    ||| phase is Support
    ||| phase is Assembled
    ||| phase is ReadSources
    ||| phase is Package
}

/// The links are those of the first dependencies of a package of the graph.
pub open spec fn are_linked(plan: PlanView, id: Seq<char>, list: Seq<LinkedView>) -> bool {
    forall|k: int|
        0 <= k < list.len() ==> {
            &&& graph::find_node(plan.graph.nodes, id) is Some
            &&& k < graph::find_node(plan.graph.nodes, id)->0.dependencies.len()
            &&& (#[trigger] list[k]).linkage == graph::find_node(
                plan.graph.nodes,
                id,
            )->0.dependencies[k].linkage
        }
}

/// A package that is being assembled has recorded what was linked into it.
pub open spec fn is_recorded(plan: PlanView, build: BuildView, list: Seq<LinkedView>) -> bool {
    &&& linking::ascending(build.link.dependencies)
    &&& list.len() == if build.phase is RecordDependency {
        build.next + 1
    } else {
        build.next
    }
    &&& build.phase matches BuildPhaseView::RecordDependency(resolved) ==> list.last().resolved
        == resolved
    &&& are_linked(plan, build.id, list)
    &&& is_early(build.phase) ==> build.next == 0
    &&& is_late(build.phase) ==> graph::find_node(plan.graph.nodes, build.id) is Some && build.next
        == graph::find_node(plan.graph.nodes, build.id)->0.dependencies.len()
    &&& forall|dependency: DependencyView| #[trigger]
        build.link.dependencies.contains(dependency) <==> is_needed(
            if is_early(build.phase) {
                None
            } else {
                build.required
            },
            list.take(build.next as int),
            dependency,
        )
}

/// The frame has recorded what was linked into it, if it stands for a package.
pub open spec fn frame_is_recorded(plan: PlanView, frame: FrameView, list: Seq<LinkedView>) -> bool {
    frame matches FrameView::Build(build) ==> is_recorded(plan, build, list)
}

/// Nothing is recorded of an executable that is pending.
pub open spec fn pending_is_fresh(state: AssemblyView) -> bool {
    state.pending matches Some(build) ==> build.phase is Start && build.next == 0
        && build.link.dependencies.len() == 0
}

/// All the packages on the stack have recorded what was linked into them.
pub open spec fn all_recorded(
    plan: PlanView,
    state: AssemblyView,
    links: Seq<Seq<LinkedView>>,
) -> bool {
    &&& links.len() == state.stack.len()
    &&& pending_is_fresh(state)
    &&& forall|i: int|
        0 <= i < state.stack.len() ==> frame_is_recorded(
            plan,
            #[trigger] state.stack[i],
            links[i],
        )
}

/// The assembly of a package that begins has recorded nothing.
proof fn lemma_fresh(plan: PlanView, build: BuildView)
    requires
        build.phase is Start,
        build.next == 0,
        build.link.dependencies.len() == 0,
    ensures
        is_recorded(plan, build, Seq::empty()),
{
}

/// The links with what the step links.
pub open spec fn with_link(list: Seq<LinkedView>, step: StepView) -> Seq<LinkedView> {
    match link_of(step) {
        Some(link) => list.push(link),
        None => list,
    }
}

/// The links of the work on top, once it goes on or waits for other work.
pub open spec fn top_is_recorded(
    plan: PlanView,
    rest: AssemblyView,
    list: Seq<LinkedView>,
    step: StepView,
) -> bool {
    let height = step.state.stack.len();
    let begins = rest.pending is Some && step.state.pending is None;
    &&& height == rest.stack.len() + 1 && !begins ==> frame_is_recorded(
        plan,
        step.state.stack.last(),
        with_link(list, step),
    )
    &&& height == rest.stack.len() + 1 && begins ==> frame_is_recorded(
        plan,
        step.state.stack.last(),
        Seq::empty(),
    )
    &&& height == rest.stack.len() + 2 ==> frame_is_recorded(
        plan,
        step.state.stack[rest.stack.len() as int],
        list,
    ) && frame_is_recorded(plan, step.state.stack.last(), Seq::empty())
    &&& pending_is_fresh(step.state)
}

proof fn lemma_record_dependency(
    plan: PlanView,
    rest: AssemblyView,
    build: BuildView,
    resolved: ResolvedView,
    list: Seq<LinkedView>,
)
    requires
        is_recorded(plan, build, list),
        build.phase == BuildPhaseView::RecordDependency(resolved),
        pending_is_fresh(rest),
    ensures
        top_is_recorded(
            plan,
            rest,
            list,
            assembly_model::build_record_dependency(plan, rest, build, resolved),
        ),
{
    let step = assembly_model::build_record_dependency(plan, rest, build, resolved);
    if let Ok(edge) = assembly_model::current_edge(plan, build) {
        linking::linked_dependency_is_all_that_is_recorded(build.link, resolved, edge.linkage);
        let next = build.next as int;
        assert(list[next].resolved == resolved);
        assert(list[next].linkage == edge.linkage);
        if let Ok(link) = linking::dependency_linked(build.link, resolved, edge.linkage) {
            let after = BuildView {
                link,
                next: build.next + 1,
                phase: BuildPhaseView::Dependencies,
                ..build
            };
            assert forall|dependency: DependencyView| #[trigger]
                after.link.dependencies.contains(dependency) <==> is_needed(
                    after.required,
                    list.take(next + 1),
                    dependency,
                ) by {
                let (short, long) = (list.take(next), list.take(next + 1));
                assert(build.link.dependencies.contains(dependency) <==> is_needed(
                    build.required,
                    short,
                    dependency,
                ));
                if linking::brings(resolved, edge.linkage, dependency) {
                    assert(long[next] == list[next]);
                }
                if is_needed(build.required, short, dependency) && !(build.required is Some
                    && linking::brings_kernel(build.required->0, dependency)) {
                    let k = choose|k: int|
                        0 <= k < short.len() && linking::brings(
                            (#[trigger] short[k]).resolved,
                            short[k].linkage,
                            dependency,
                        );
                    assert(long[k] == short[k]);
                }
                if is_needed(build.required, long, dependency) && !(build.required is Some
                    && linking::brings_kernel(build.required->0, dependency)) {
                    let k = choose|k: int|
                        0 <= k < long.len() && linking::brings(
                            (#[trigger] long[k]).resolved,
                            long[k].linkage,
                            dependency,
                        );
                    if k < next {
                        assert(short[k] == long[k]);
                    }
                }
            }
            assert(is_recorded(plan, after, list));
            assert(step.state.stack.last() == FrameView::Build(after));
        }
    }
}

proof fn lemma_record_required(
    plan: PlanView,
    rest: AssemblyView,
    build: BuildView,
    list: Seq<LinkedView>,
)
    requires
        is_recorded(plan, build, list),
        build.phase is RecordRequired,
        pending_is_fresh(rest),
    ensures
        top_is_recorded(
            plan,
            rest,
            list,
            assembly_model::build_record_required(rest, build),
        ),
{
    if let Some(required) = build.required {
        linking::linked_kernel_is_all_that_is_recorded(build.link, required);
    }
}

proof fn lemma_build_record(
    plan: PlanView,
    rest: AssemblyView,
    build: BuildView,
    list: Seq<LinkedView>,
    event: EventView,
)
    requires
        is_recorded(plan, build, list),
        pending_is_fresh(rest),
        rest.delivered is Some <==> build.phase is AwaitDependency,
    ensures
        top_is_recorded(
            plan,
            rest,
            list,
            assembly_model::build_step(plan, rest, build, event),
        ),
{
    let step = assembly_model::build_step(plan, rest, build, event);
    match (build.phase, event) {
        (BuildPhaseView::Start, EventView::Proceed) => {
            if rest.stack.len() == 0 && rest.pending is Some {
                let name = project::package_name(build.project, build.target);
                lemma_fresh(
                    plan,
                    BuildView { required: Some(rest.cache[name]), ..rest.pending->0 },
                );
            }
        },
        (BuildPhaseView::Package, EventView::Package(package)) => {
            if rest.stack.len() == 0 && rest.pending is Some {
                let resolved = ResolvedView { package, kernel: build.link.kernel };
                lemma_fresh(plan, BuildView { required: Some(resolved), ..rest.pending->0 });
            }
        },
        (BuildPhaseView::AwaitDependency, EventView::Proceed) => {
            lemma_link_dependency(plan, rest, build, list);
        },
        (BuildPhaseView::RecordDependency(resolved), EventView::Proceed) => {
            lemma_record_dependency(plan, rest, build, resolved, list);
        },
        (BuildPhaseView::RecordRequired, EventView::Proceed) => {
            lemma_record_required(plan, rest, build, list);
        },
        _ => {},
    }
}

proof fn lemma_link_dependency(
    plan: PlanView,
    rest: AssemblyView,
    build: BuildView,
    list: Seq<LinkedView>,
)
    requires
        is_recorded(plan, build, list),
        build.phase is AwaitDependency,
        pending_is_fresh(rest),
    ensures
        top_is_recorded(
            plan,
            rest,
            list,
            assembly_model::build_link_dependency(plan, rest, build),
        ),
{
    if let (Some(resolved), Ok(edge)) = (rest.delivered, assembly_model::current_edge(plan, build)) {
        let longer = list.push(LinkedView { resolved, linkage: edge.linkage });
        assert(longer.take(build.next as int) =~= list);
        assert(list.take(build.next as int) =~= list);
        assert(forall|k: int| 0 <= k < list.len() ==> longer[k] == list[k]);
    }
}

proof fn lemma_resolve_record(
    plan: PlanView,
    rest: AssemblyView,
    frame: ResolveView,
    list: Seq<LinkedView>,
    event: EventView,
)
    requires
        rest.stack.len() > 0,
        pending_is_fresh(rest),
        rest.delivered is Some <==> frame.phase is AwaitBuild,
    ensures
        top_is_recorded(
            plan,
            rest,
            list,
            assembly_model::resolve_step(plan, rest, frame, event),
        ),
{
    match (frame.phase, event) {
        (
            ResolvePhaseView::FindRegistered { project, target },
            EventView::Canonical(registered),
        ) => {
            lemma_fresh(plan, assembly_model::new_build(frame.id, project, target, None));
        },
        _ => {},
    }
}

proof fn lemma_step_records(
    plan: PlanView,
    state: AssemblyView,
    links: Seq<Seq<LinkedView>>,
    event: EventView,
)
    requires
        assembly_laws::well_shaped(plan, state),
        all_recorded(plan, state, links),
    ensures
        all_recorded(
            plan,
            assembly_runs::stepped(plan, state, event).state,
            links_after(links, state, assembly_runs::stepped(plan, state, event)),
        ),
{
    let step = assembly_runs::stepped(plan, state, event);
    if state.stack.len() == 0 {
        reveal(assembly_runs::stepped);
    } else {
        let rest = AssemblyView { stack: state.stack.drop_last(), ..state };
        let n = state.stack.len() - 1;
        assert(frame_is_recorded(plan, state.stack[n], links[n]));
        assert(top_is_recorded(plan, rest, links[n], step)) by {
            reveal(assembly_runs::stepped);
            match state.stack.last() {
                FrameView::Build(build) => {
                    lemma_build_record(plan, rest, build, links[n], event);
                },
                FrameView::Resolve(frame) => {
                    lemma_resolve_record(plan, rest, frame, links[n], event);
                },
            }
        }
        assembly_runs::lemma_stack(plan, state, event);
        let after = links_after(links, state, step);
        assert forall|i: int| 0 <= i < step.state.stack.len() implies frame_is_recorded(
            plan,
            #[trigger] step.state.stack[i],
            after[i],
        ) by {
            if i < n {
                assert(frame_is_recorded(plan, state.stack[i], links[i]));
                assert(rest.stack[i] == state.stack[i]);
            }
        }
    }
}

/// At every point of a run all the packages on the stack have recorded exactly what was linked into
/// them up to then.
pub proof fn runs_record_what_is_linked(
    plan: PlanView,
    project: ProjectView,
    target: TargetView,
    sources: Option<ProvidedView>,
    events: Seq<EventView>,
)
    ensures
        ({
            let start = assembly_model::started(plan.graph.root, project, target, sources);
            all_recorded(
                plan,
                assembly_runs::after(plan, start, events),
                links(plan, start, events),
            )
        }),
    decreases events.len(),
{
    let start = assembly_model::started(plan.graph.root, project, target, sources);
    assembly_laws::assemblies_start_well_shaped(plan, project, target, sources);
    if events.len() == 0 {
        lemma_fresh(plan, start.stack[0]->Build_0);
    } else {
        let earlier = events.drop_last();
        runs_record_what_is_linked(plan, project, target, sources, earlier);
        assembly_runs::runs_keep_shape(plan, start, earlier);
        lemma_step_records(
            plan,
            assembly_runs::after(plan, start, earlier),
            links(plan, start, earlier),
            events.last(),
        );
    }
}

/// Where a step creates a package, it does so for the package on top, with what that has recorded,
/// once all its dependencies are linked.
proof fn lemma_created(plan: PlanView, state: AssemblyView, event: EventView)
    requires
        assembly_model::step(plan, state, event).action is CreatePackage,
    ensures
        state.stack.len() > 0,
        state.stack.last() is Build,
        is_late(state.stack.last()->Build_0.phase),
        assembly_model::step(plan, state, event).action->CreatePackage_dependencies
            == state.stack.last()->Build_0.link.dependencies,
{
}

/// Every package that is created in a run records at run time exactly what was linked into it. All
/// the dependencies that the graph gives the package were linked, in this order and with these
/// linkages, and what the package depends on at run time are those that were linked dynamically and
/// are no kernels, all that the linked packages depend on at run time, and the kernels that they
/// and the library of an executable bring along, in ascending order of the names.
pub proof fn created_package_records_what_was_linked(
    plan: PlanView,
    project: ProjectView,
    target: TargetView,
    sources: Option<ProvidedView>,
    events: Seq<EventView>,
)
    requires
        events.len() > 0,
        assembly_runs::action_at(
            plan,
            assembly_model::started(plan.graph.root, project, target, sources),
            events,
            events.len() - 1,
        ) is CreatePackage,
    ensures
        ({
            let start = assembly_model::started(plan.graph.root, project, target, sources);
            let at = assembly_runs::after(plan, start, events.drop_last());
            let build = at.stack.last()->Build_0;
            let list = links(plan, start, events.drop_last()).last();
            let node = graph::find_node(plan.graph.nodes, build.id);
            let created = assembly_runs::action_at(plan, start, events, events.len() - 1);
            &&& at.stack.len() > 0
            &&& at.stack.last() is Build
            &&& node is Some
            &&& list.len() == node->0.dependencies.len()
            &&& forall|k: int|
                0 <= k < list.len() ==> (#[trigger] list[k]).linkage
                    == node->0.dependencies[k].linkage
            &&& linking::ascending(created->CreatePackage_dependencies)
            &&& forall|dependency: DependencyView| #[trigger]
                created->CreatePackage_dependencies.contains(dependency) <==> is_needed(
                    build.required,
                    list,
                    dependency,
                )
        }),
{
    let start = assembly_model::started(plan.graph.root, project, target, sources);
    let earlier = events.drop_last();
    let at = assembly_runs::after(plan, start, earlier);
    assert(events.take(events.len() - 1) =~= earlier);
    runs_record_what_is_linked(plan, project, target, sources, earlier);
    reveal(assembly_runs::stepped);
    lemma_created(plan, at, events.last());
    let list = links(plan, start, earlier).last();
    let top = at.stack.len() - 1;
    assert(frame_is_recorded(plan, at.stack[top], links(plan, start, earlier)[top]));
    assert(list.take(list.len() as int) =~= list);
}

} // verus!
