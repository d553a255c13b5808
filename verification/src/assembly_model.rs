//! The course of an assembly as a state machine, in mathematical terms.
//!
//! A stack of frames stands for the packages that are being assembled and the dependencies that
//! are being resolved. Every step takes an event, which is the outcome of the action of the step
//! before, and gives the next action.

use vstd::prelude::*;

use crate::closure;
use crate::closure::{ContextView, SnapshotView};
use crate::files;
use crate::files::PathView;
use crate::graph;
use crate::graph::{EdgeView, GraphView, NodeProvenanceView, OriginView};
use crate::linking;
use crate::linking::{LinkView, Linkage, ResolvedView};
use crate::package;
use crate::package::{
    DependencyView, PackageView, SectionView, TargetType, KERNEL, PROJECT_SOURCE_PROVENANCE,
};
use crate::project;
use crate::project::{ModuleKind, ProjectView, TargetView};
use crate::provenance;
use crate::provenance::{PackageBuildSettings, ProvenanceView};
use crate::sources;
use crate::sources::{ListedView, ModuleView, TargetModulesView};
use crate::version::VersionView;

verus! {

/// The modules that a caller provides in place of sources.
#[verifier::ext_equal]
pub struct ProvidedView {
    pub root: ModuleView,
    pub support: Seq<ModuleView>,
}

/// How far the assembly of a package has come: what it waits for.
#[verifier::ext_equal]
pub enum BuildPhaseView {
    /// Nothing is done yet.
    Start,
    /// For the assembler.
    LinkRequired,
    /// For the library of the project to be linked.
    RecordRequired,
    /// For nothing: the next dependency is to be resolved.
    Dependencies,
    /// For a dependency to be resolved.
    AwaitDependency,
    /// For a dependency to be linked.
    RecordDependency(ResolvedView),
    /// For the files below the directory of the target.
    ListSources,
    /// For the modules to be parsed. There are support modules or not.
    Modules { support: bool },
    /// For the support modules of a kernel to be linked.
    Support,
    /// For the modules to be assembled.
    Assembled,
    /// For what goes into the provenance.
    ReadSources,
    /// For the package to be created.
    Package,
}

/// A package that is being assembled from sources.
#[verifier::ext_equal]
pub struct BuildView {
    /// The name of the package in the graph.
    pub id: Seq<char>,
    pub project: ProjectView,
    pub target: TargetView,
    /// The library of the project, for an executable.
    pub required: Option<ResolvedView>,
    /// The modules that are provided in place of the sources, until they are used.
    pub sources: Option<ProvidedView>,
    /// Modules are or were provided.
    pub provided: bool,
    /// How many dependencies are linked.
    pub next: nat,
    pub link: LinkView,
    pub phase: BuildPhaseView,
}

/// How far the resolution of a dependency has come: what it waits for.
#[verifier::ext_equal]
pub enum ResolvePhaseView {
    /// Nothing is done yet.
    Start,
    /// For the project of the dependency.
    LoadProject,
    /// For the registered version of a dependency that has sources.
    FindRegistered { project: ProjectView, target: TargetView },
    /// For the registered package of a dependency that has sources.
    LoadRegistered { project: ProjectView, target: TargetView },
    /// For what goes into the provenance that the registered package is held against.
    CheckRegistered { project: ProjectView, target: TargetView, package: PackageView },
    /// For the package to be assembled.
    AwaitBuild,
    /// For the package to be published.
    Publish(ResolvedView),
    /// For the registered version of a dependency without a library.
    FindCanonical,
    /// For the package.
    LoadPackage,
    /// For the bytes of the package.
    ReadPackage,
    /// For nothing: the kernel of the package is to be found.
    Kernel(PackageView),
    /// For the answer whether the kernel is registered.
    FindKernel { package: PackageView, kernel: DependencyView },
    /// For the kernel.
    LoadKernel { package: PackageView, kernel: DependencyView },
}

/// A dependency that is being resolved.
#[verifier::ext_equal]
pub struct ResolveView {
    pub id: Seq<char>,
    pub phase: ResolvePhaseView,
}

/// What is being done.
#[verifier::ext_equal]
pub enum FrameView {
    Build(BuildView),
    Resolve(ResolveView),
}

/// What an assembly knows from beginning to end.
#[verifier::ext_equal]
pub struct PlanView {
    pub graph: GraphView,
    pub profile: Seq<char>,
}

/// Where an assembly stands.
#[verifier::ext_equal]
pub struct AssemblyView {
    /// The packages that are ready, by name.
    pub cache: Map<Seq<char>, ResolvedView>,
    pub stack: Seq<FrameView>,
    /// The executable that is to be assembled once the library of the project is.
    pub pending: Option<BuildView>,
    /// The package that the topmost frame waits for.
    pub delivered: Option<ResolvedView>,
}

/// What is to be done next.
#[allow(inconsistent_fields)]
#[verifier::ext_equal]
pub enum ActionView {
    /// Nothing.
    Continue,
    /// Make a new assembler with these settings. Up to the creation of its package it is the one
    /// that links, parses and assembles.
    StartAssembler { settings: PackageBuildSettings },
    /// Link a package.
    Link { package: PackageView, linkage: Linkage },
    /// Load the project with this name from its manifest.
    LoadProject { name: Seq<char>, manifest_path: PathView },
    /// Look up the version of a package that is registered under a semantic version.
    FindCanonical { name: Seq<char>, version: Seq<char> },
    /// Look up whether exactly this version of a package is registered.
    FindExact { name: Seq<char>, version: VersionView },
    /// Load a registered package.
    LoadPackage { name: Seq<char>, version: VersionView },
    /// Read a file that holds a package.
    ReadPackage { path: PathView },
    /// Publish a package.
    Publish { package: PackageView },
    /// List all the files below a directory.
    ListFiles { directory: PathView },
    /// Parse module files.
    ParseModules { modules: TargetModulesView },
    /// Take the modules that were provided.
    UseModules { modules: ProvidedView },
    /// Compile the support modules, and link all of them statically.
    LinkSupport,
    /// Assemble the root module and the support modules into an executable.
    AssembleExecutable,
    /// Assemble the root module into a kernel.
    AssembleKernel,
    /// Assemble all the modules, the root module first, into a library of this type.
    AssembleLibrary { ty: TargetType },
    /// Read what goes into the provenance of a target.
    ReadSources {
        name: Seq<char>,
        project: ProjectView,
        target: TargetView,
        manifest_path: PathView,
        in_workspace: bool,
    },
    /// Create the package from what was assembled.
    CreatePackage {
        name: Seq<char>,
        version: Seq<char>,
        description: Option<Seq<char>>,
        dependencies: Seq<DependencyView>,
        sections: Seq<SectionView>,
    },
    /// The package is assembled.
    Finished { package: PackageView },
    /// The assembly has failed.
    Failed { message: Seq<char> },
    /// The assembly met a package of another kind under the name of the target.
    KindMismatch { found: TargetType, expected: TargetType },
}

/// What has become of an action.
#[verifier::ext_equal]
pub enum EventView {
    /// It is done.
    Proceed,
    /// It has failed.
    Failed(Seq<char>),
    Project(ProjectView),
    Canonical(Option<VersionView>),
    Exact(bool),
    Package(PackageView),
    Bytes(Seq<u8>),
    Listing(Result<Seq<ListedView>, Seq<char>>),
    Sources { snapshot: SnapshotView, listing: Result<Seq<ListedView>, Seq<char>> },
}

/// A step: where the assembly stands, and what is to be done next.
#[verifier::ext_equal]
pub struct StepView {
    pub state: AssemblyView,
    pub action: ActionView,
}

impl AssemblyView {
    /// The state with one more frame.
    pub open spec fn with(self, frame: FrameView) -> AssemblyView {
        AssemblyView { stack: self.stack.push(frame), ..self }
    }

    /// The state in which the assembly is over.
    pub open spec fn over(self) -> AssemblyView {
        AssemblyView { stack: Seq::empty(), pending: None, delivered: None, ..self }
    }

    /// The state with a package that is ready.
    pub open spec fn with_ready(self, id: Seq<char>, resolved: ResolvedView) -> AssemblyView {
        AssemblyView { cache: self.cache.insert(id, resolved), ..self }
    }
}

/// The assembly has failed.
pub open spec fn failed(state: AssemblyView, message: Seq<char>) -> StepView {
    StepView { state: state.over(), action: ActionView::Failed { message } }
}

/// The message on an event that is no outcome of the last action.
pub open spec fn unexpected() -> Seq<char> {
    "unexpected event"@
}

/// Goes on with a frame.
pub open spec fn going_on(state: AssemblyView, frame: FrameView, action: ActionView) -> StepView {
    StepView { state: state.with(frame), action }
}

/// Hands a package to whoever waits for it. At the bottom of the stack that is the executable that
/// needs the library of the project, or the caller.
pub open spec fn delivering(state: AssemblyView, resolved: ResolvedView) -> StepView {
    if state.stack.len() > 0 {
        StepView {
            state: AssemblyView { delivered: Some(resolved), ..state },
            action: ActionView::Continue,
        }
    } else {
        match state.pending {
            Some(build) => StepView {
                state: AssemblyView { pending: None, ..state }.with(
                    FrameView::Build(BuildView { required: Some(resolved), ..build }),
                ),
                action: ActionView::Continue,
            },
            None => StepView {
                state: state.over(),
                action: ActionView::Finished { package: resolved.package },
            },
        }
    }
}

/// Hands over a dependency that is resolved, and keeps it.
pub open spec fn resolved_with(
    state: AssemblyView,
    id: Seq<char>,
    resolved: ResolvedView,
) -> StepView {
    delivering(state.with_ready(id, resolved), resolved)
}

/// The assembly of a package before its first step.
pub open spec fn new_build(
    id: Seq<char>,
    project: ProjectView,
    target: TargetView,
    sources: Option<ProvidedView>,
) -> BuildView {
    BuildView {
        id,
        project,
        target,
        required: None,
        sources,
        provided: sources is Some,
        next: 0,
        link: LinkView { dependencies: Seq::empty(), kernel: None },
        phase: BuildPhaseView::Start,
    }
}

impl BuildView {
    pub open spec fn at(self, phase: BuildPhaseView) -> FrameView {
        FrameView::Build(BuildView { phase, ..self })
    }
}

impl ResolveView {
    pub open spec fn at(self, phase: ResolvePhaseView) -> FrameView {
        FrameView::Resolve(ResolveView { phase, ..self })
    }
}

/// The first step of an assembly: what is ready under the name of the target is handed over,
/// unless modules are provided. Otherwise an assembler is made for the profile.
pub open spec fn build_start(plan: PlanView, state: AssemblyView, build: BuildView) -> StepView {
    let name = project::package_name(build.project, build.target);
    if !build.provided && state.cache.contains_key(name) {
        let ready = state.cache[name];
        if ready.package.kind == build.target.ty {
            delivering(state, ready)
        } else {
            StepView {
                state: state.over(),
                action: ActionView::KindMismatch {
                    found: ready.package.kind,
                    expected: build.target.ty,
                },
            }
        }
    } else {
        match project::profile_settings(build.project, plan.profile) {
            Err(message) => failed(state, message),
            Ok(settings) => going_on(
                state,
                build.at(BuildPhaseView::LinkRequired),
                ActionView::StartAssembler { settings },
            ),
        }
    }
}

/// The library of the project is linked first: statically, or dynamically if it is a kernel.
pub open spec fn build_link_required(state: AssemblyView, build: BuildView) -> StepView {
    match build.required {
        None => going_on(state, build.at(BuildPhaseView::Dependencies), ActionView::Continue),
        Some(required) => going_on(
            state,
            build.at(BuildPhaseView::RecordRequired),
            ActionView::Link {
                package: required.package,
                linkage: if required.package.kind is Kernel {
                    Linkage::Dynamic
                } else {
                    Linkage::Static
                },
            },
        ),
    }
}

/// The kernel of the library of the project is recorded.
pub open spec fn build_record_required(state: AssemblyView, build: BuildView) -> StepView {
    match build.required {
        None => failed(state, unexpected()),
        Some(required) => match linking::kernel_linked(build.link, required) {
            Err(message) => failed(state, message),
            Ok(link) => going_on(
                state,
                BuildView { link, ..build }.at(BuildPhaseView::Dependencies),
                ActionView::Continue,
            ),
        },
    }
}

/// The next dependency is resolved. When there is none left, the sources are loaded.
pub open spec fn build_dependencies(plan: PlanView, state: AssemblyView, build: BuildView) -> StepView {
    match graph::find_node(plan.graph.nodes, build.id) {
        None => failed(state, graph::missing_node(build.id)),
        Some(node) => if build.next < node.dependencies.len() {
            StepView {
                state: state.with(build.at(BuildPhaseView::AwaitDependency)).with(
                    FrameView::Resolve(
                        ResolveView {
                            id: node.dependencies[build.next as int].dependency,
                            phase: ResolvePhaseView::Start,
                        },
                    ),
                ),
                action: ActionView::Continue,
            }
        } else {
            build_sources(state, build)
        },
    }
}

/// The modules that were provided are used, or the files of the target are listed.
pub open spec fn build_sources(state: AssemblyView, build: BuildView) -> StepView {
    match build.sources {
        Some(provided) => going_on(
            state,
            BuildView { sources: None, ..build }.at(
                BuildPhaseView::Modules { support: provided.support.len() > 0 },
            ),
            ActionView::UseModules { modules: normalized(build.target, provided) },
        ),
        None => match sources::target_root(build.project, build.target) {
            Err(message) => failed(state, message),
            Ok((_, directory)) => going_on(
                state,
                build.at(BuildPhaseView::ListSources),
                ActionView::ListFiles { directory },
            ),
        },
    }
}

/// The modules that were provided, as modules of the target.
pub open spec fn normalized(target: TargetView, provided: ProvidedView) -> ProvidedView {
    ProvidedView {
        root: ModuleView {
            handle: provided.root.handle,
            kind: project::root_module_kind(target.ty),
            path: target.namespace,
        },
        support: Seq::new(
            provided.support.len(),
            |i: int| ModuleView { kind: ModuleKind::Library, ..provided.support[i] },
        ),
    }
}

/// The dependency that is to be linked next.
pub open spec fn current_edge(plan: PlanView, build: BuildView) -> Result<EdgeView, Seq<char>> {
    match graph::find_node(plan.graph.nodes, build.id) {
        None => Err(graph::missing_node(build.id)),
        Some(node) => if build.next < node.dependencies.len() {
            Ok(node.dependencies[build.next as int])
        } else {
            Err(unexpected())
        },
    }
}

/// A dependency that is resolved is linked, if it is library-like.
pub open spec fn build_link_dependency(
    plan: PlanView,
    state: AssemblyView,
    build: BuildView,
) -> StepView {
    match (state.delivered, current_edge(plan, build)) {
        (_, Err(message)) => failed(state, message),
        (None, _) => failed(state, unexpected()),
        (Some(resolved), Ok(edge)) => if resolved.package.kind is Executable {
            failed(
                state,
                "dependency '"@ + edge.dependency + "' resolved to executable package '"@
                    + resolved.package.name
                    + "', but only library-like packages can be linked"@,
            )
        } else {
            going_on(
                AssemblyView { delivered: None, ..state },
                build.at(BuildPhaseView::RecordDependency(resolved)),
                ActionView::Link { package: resolved.package, linkage: edge.linkage },
            )
        },
    }
}

/// What a linked dependency brings along is recorded.
pub open spec fn build_record_dependency(
    plan: PlanView,
    state: AssemblyView,
    build: BuildView,
    resolved: ResolvedView,
) -> StepView {
    match current_edge(plan, build) {
        Err(message) => failed(state, message),
        Ok(edge) => match linking::dependency_linked(build.link, resolved, edge.linkage) {
            Err(message) => failed(state, message),
            Ok(link) => going_on(
                state,
                BuildView { link, next: build.next + 1, ..build }.at(BuildPhaseView::Dependencies),
                ActionView::Continue,
            ),
        },
    }
}

/// The files of the target are listed: its modules are parsed.
pub open spec fn build_parse(
    state: AssemblyView,
    build: BuildView,
    listing: Result<Seq<ListedView>, Seq<char>>,
) -> StepView {
    match sources::target_modules(build.project, build.target, listing) {
        Err(message) => failed(state, message),
        Ok(modules) => going_on(
            state,
            build.at(BuildPhaseView::Modules { support: modules.support.len() > 0 }),
            ActionView::ParseModules { modules },
        ),
    }
}

/// The modules are parsed: they are assembled as the type of the target asks. The support modules of
/// a kernel are linked before.
pub open spec fn build_modules(state: AssemblyView, build: BuildView, support: bool) -> StepView {
    match build.target.ty {
        TargetType::Executable => going_on(
            state,
            build.at(BuildPhaseView::Assembled),
            ActionView::AssembleExecutable,
        ),
        TargetType::Kernel => if support {
            going_on(state, build.at(BuildPhaseView::Support), ActionView::LinkSupport)
        } else {
            going_on(state, build.at(BuildPhaseView::Assembled), ActionView::AssembleKernel)
        },
        ty => going_on(
            state,
            build.at(BuildPhaseView::Assembled),
            ActionView::AssembleLibrary { ty },
        ),
    }
}

/// Where the provenance of a package is to be computed from: the manifest, and whether the project
/// is a member of a workspace. There is none for modules that were provided, for packages that are
/// not assembled from files, and for a target in a directory that names no source.
pub open spec fn provenance_request(plan: PlanView, build: BuildView) -> Option<
    (OriginView, PathView, bool),
> {
    if build.provided {
        None
    } else {
        match graph::find_node(plan.graph.nodes, build.id) {
            None => None,
            Some(node) => match node.provenance {
                NodeProvenanceView::Real { origin, manifest_path, in_workspace, .. } => {
                    if !(origin is Git) && build.target.source is None {
                        None
                    } else {
                        Some((origin, manifest_path, in_workspace))
                    }
                },
                _ => None,
            },
        }
    }
}

/// The modules are assembled: the provenance is computed, if there is one.
pub open spec fn build_assembled(plan: PlanView, state: AssemblyView, build: BuildView) -> StepView {
    match provenance_request(plan, build) {
        None => build_create(state, build, None),
        Some((_, manifest_path, in_workspace)) => going_on(
            state,
            build.at(BuildPhaseView::ReadSources),
            ActionView::ReadSources {
                name: build.id,
                project: build.project,
                target: build.target,
                manifest_path,
                in_workspace,
            },
        ),
    }
}

/// What provenances are computed from.
pub open spec fn context(plan: PlanView, snapshot: SnapshotView) -> ContextView {
    ContextView { nodes: plan.graph.nodes, snapshot, profile: plan.profile }
}

/// The sources are read: the package is created with its provenance.
pub open spec fn build_provenance(
    plan: PlanView,
    state: AssemblyView,
    build: BuildView,
    snapshot: SnapshotView,
    listing: Result<Seq<ListedView>, Seq<char>>,
) -> StepView {
    match provenance_request(plan, build) {
        None => failed(state, unexpected()),
        Some((origin, manifest_path, in_workspace)) => match closure::expected_provenance(
            context(plan, snapshot),
            build.id,
            build.project,
            build.target,
            origin,
            manifest_path,
            in_workspace,
            listing,
        ) {
            Err(message) => failed(state, message),
            Ok(provenance) => build_create(state, build, Some(provenance)),
        },
    }
}

/// The sections of a package: its provenance, and in an executable the kernel that it was
/// assembled against.
pub open spec fn created_sections(
    target: TargetView,
    kernel: Option<PackageView>,
    provenance: Option<ProvenanceView>,
) -> Seq<SectionView> {
    let sections = match provenance {
        Some(provenance) => seq![
            SectionView { id: PROJECT_SOURCE_PROVENANCE@, data: provenance.encoding() },
        ],
        None => Seq::empty(),
    };
    match kernel {
        Some(kernel) => if target.ty is Executable {
            sections.push(SectionView { id: KERNEL@, data: kernel.encoded })
        } else {
            sections
        },
        None => sections,
    }
}

/// The package is created.
pub open spec fn build_create(
    state: AssemblyView,
    build: BuildView,
    provenance: Option<ProvenanceView>,
) -> StepView {
    going_on(
        state,
        build.at(BuildPhaseView::Package),
        ActionView::CreatePackage {
            name: project::package_name(build.project, build.target),
            version: build.project.version,
            description: build.project.description,
            dependencies: build.link.dependencies,
            sections: created_sections(build.target, build.link.kernel, provenance),
        },
    )
}

/// The package is created: it is kept, unless modules were provided for it, and handed over.
pub open spec fn build_created(
    state: AssemblyView,
    build: BuildView,
    package: PackageView,
) -> StepView {
    let resolved = ResolvedView { package, kernel: build.link.kernel };
    if build.provided {
        delivering(state, resolved)
    } else {
        delivering(state.with_ready(build.id, resolved), resolved)
    }
}

/// A step of the assembly of a package. `state` is the rest of the assembly.
pub open spec fn build_step(
    plan: PlanView,
    state: AssemblyView,
    build: BuildView,
    event: EventView,
) -> StepView {
    match (build.phase, event) {
        (_, EventView::Failed(message)) => failed(state, message),
        (BuildPhaseView::Start, EventView::Proceed) => build_start(plan, state, build),
        (BuildPhaseView::LinkRequired, EventView::Proceed) => build_link_required(state, build),
        (BuildPhaseView::RecordRequired, EventView::Proceed) => build_record_required(state, build),
        (BuildPhaseView::Dependencies, EventView::Proceed) => build_dependencies(
            plan,
            state,
            build,
        ),
        (BuildPhaseView::AwaitDependency, EventView::Proceed) => build_link_dependency(
            plan,
            state,
            build,
        ),
        (BuildPhaseView::RecordDependency(resolved), EventView::Proceed) => build_record_dependency(
            plan,
            state,
            build,
            resolved,
        ),
        (BuildPhaseView::ListSources, EventView::Listing(listing)) => build_parse(
            state,
            build,
            listing,
        ),
        (BuildPhaseView::Modules { support }, EventView::Proceed) => build_modules(
            state,
            build,
            support,
        ),
        (BuildPhaseView::Support, EventView::Proceed) => going_on(
            state,
            build.at(BuildPhaseView::Assembled),
            ActionView::AssembleKernel,
        ),
        (BuildPhaseView::Assembled, EventView::Proceed) => build_assembled(plan, state, build),
        (BuildPhaseView::ReadSources, EventView::Sources { snapshot, listing }) => build_provenance(
            plan,
            state,
            build,
            snapshot,
            listing,
        ),
        (BuildPhaseView::Package, EventView::Package(package)) => build_created(
            state,
            build,
            package,
        ),
        _ => failed(state, unexpected()),
    }
}

/// The first step of the resolution of a dependency: what is ready under its name is handed over.
/// Otherwise the dependency is found where the graph says.
pub open spec fn resolve_start(plan: PlanView, state: AssemblyView, frame: ResolveView) -> StepView {
    if state.cache.contains_key(frame.id) {
        delivering(state, state.cache[frame.id])
    } else {
        match graph::find_node(plan.graph.nodes, frame.id) {
            None => failed(state, graph::missing_node(frame.id)),
            Some(node) => match node.provenance {
                NodeProvenanceView::Virtual => failed(
                    state,
                    "package '"@ + frame.id + "' is missing a manifest path"@,
                ),
                NodeProvenanceView::Real { manifest_path, has_library, .. } => if has_library {
                    going_on(
                        state,
                        frame.at(ResolvePhaseView::LoadProject),
                        ActionView::LoadProject { name: frame.id, manifest_path },
                    )
                } else {
                    going_on(
                        state,
                        frame.at(ResolvePhaseView::FindCanonical),
                        ActionView::FindCanonical { name: frame.id, version: node.version },
                    )
                },
                NodeProvenanceView::Registry { selected } => going_on(
                    state,
                    frame.at(ResolvePhaseView::LoadPackage),
                    ActionView::LoadPackage { name: frame.id, version: selected },
                ),
                NodeProvenanceView::Preassembled { path, .. } => going_on(
                    state,
                    frame.at(ResolvePhaseView::ReadPackage),
                    ActionView::ReadPackage { path },
                ),
            },
        }
    }
}

/// The project of a dependency is loaded: the registered version is looked up.
pub open spec fn resolve_project(
    plan: PlanView,
    state: AssemblyView,
    frame: ResolveView,
    project: ProjectView,
) -> StepView {
    match (project.library, graph::find_node(plan.graph.nodes, frame.id)) {
        (None, _) => failed(state, closure::no_library(frame.id)),
        (_, None) => failed(state, graph::missing_node(frame.id)),
        (Some(target), Some(node)) => going_on(
            state,
            frame.at(ResolvePhaseView::FindRegistered { project, target }),
            ActionView::FindCanonical { name: frame.id, version: node.version },
        ),
    }
}

/// The registered version is looked up: the package is loaded, or assembled if there is none.
pub open spec fn resolve_registered(
    state: AssemblyView,
    frame: ResolveView,
    project: ProjectView,
    target: TargetView,
    registered: Option<VersionView>,
) -> StepView {
    match registered {
        Some(version) => going_on(
            state,
            frame.at(ResolvePhaseView::LoadRegistered { project, target }),
            ActionView::LoadPackage { name: frame.id, version },
        ),
        None => StepView {
            state: state.with(frame.at(ResolvePhaseView::AwaitBuild)).with(
                FrameView::Build(new_build(frame.id, project, target, None)),
            ),
            action: ActionView::Continue,
        },
    }
}

/// The registered package is loaded: what goes into the provenance is read.
pub open spec fn resolve_loaded(
    plan: PlanView,
    state: AssemblyView,
    frame: ResolveView,
    project: ProjectView,
    target: TargetView,
    package: PackageView,
) -> StepView {
    match graph::find_node(plan.graph.nodes, frame.id) {
        None => failed(state, graph::missing_node(frame.id)),
        Some(node) => match node.provenance {
            NodeProvenanceView::Real { manifest_path, in_workspace, .. } => going_on(
                state,
                frame.at(ResolvePhaseView::CheckRegistered { project, target, package }),
                ActionView::ReadSources {
                    name: frame.id,
                    project,
                    target,
                    manifest_path,
                    in_workspace,
                },
            ),
            _ => failed(state, unexpected()),
        },
    }
}

/// The message on a registered package of another provenance.
pub open spec fn different_provenance(
    name: Seq<char>,
    version: Seq<char>,
    expected: ProvenanceView,
    actual: ProvenanceView,
) -> Seq<char> {
    "package '"@ + name + "' version '"@ + version
        + "' is already registered with different source provenance (expected "@
        + expected.description() + ", found "@ + actual.description()
        + "); bump the semantic version"@
}

/// The message on a registered package without a provenance.
pub open spec fn missing_provenance(name: Seq<char>, version: Seq<char>) -> Seq<char> {
    "package '"@ + name + "' version '"@ + version
        + "' is already registered, but the canonical artifact is missing source provenance; bump the semantic version"@
}

/// Whether a registered package may be used for sources that have the expected provenance: only
/// if it records that provenance.
pub open spec fn reusable(
    name: Seq<char>,
    version: Seq<char>,
    package: PackageView,
    expected: ProvenanceView,
) -> Result<(), Seq<char>> {
    match provenance::recorded_provenance(package.sections) {
        None => Err(missing_provenance(name, version)),
        Some(Err(error)) => Err(
            "failed to decode source provenance for package '"@ + package.name + "': "@
                + error.text(),
        ),
        Some(Ok(actual)) => if actual == expected {
            Ok(())
        } else {
            Err(different_provenance(name, version, expected, actual))
        },
    }
}

/// What goes into the provenance is read: the registered package is held against it.
pub open spec fn resolve_checked(
    plan: PlanView,
    state: AssemblyView,
    frame: ResolveView,
    project: ProjectView,
    target: TargetView,
    package: PackageView,
    snapshot: SnapshotView,
    listing: Result<Seq<ListedView>, Seq<char>>,
) -> StepView {
    match graph::find_node(plan.graph.nodes, frame.id) {
        None => failed(state, graph::missing_node(frame.id)),
        Some(node) => match node.provenance {
            NodeProvenanceView::Real { origin, manifest_path, in_workspace, .. } => {
                match closure::expected_provenance(
                    context(plan, snapshot),
                    frame.id,
                    project,
                    target,
                    origin,
                    manifest_path,
                    in_workspace,
                    listing,
                ) {
                    Err(message) => failed(state, message),
                    Ok(expected) => match reusable(
                        frame.id,
                        node.version,
                        package,
                        expected,
                    ) {
                        Err(message) => failed(state, message),
                        Ok(()) => going_on(
                            state,
                            frame.at(ResolvePhaseView::Kernel(package)),
                            ActionView::Continue,
                        ),
                    },
                }
            },
            _ => failed(state, unexpected()),
        },
    }
}

/// The package is assembled: it is published.
pub open spec fn resolve_built(state: AssemblyView, frame: ResolveView) -> StepView {
    match state.delivered {
        None => failed(state, unexpected()),
        Some(resolved) => going_on(
            AssemblyView { delivered: None, ..state },
            frame.at(ResolvePhaseView::Publish(resolved)),
            ActionView::Publish { package: resolved.package },
        ),
    }
}

/// The registered version of a dependency without a library is looked up: the package is loaded.
pub open spec fn resolve_canonical(
    plan: PlanView,
    state: AssemblyView,
    frame: ResolveView,
    registered: Option<VersionView>,
) -> StepView {
    match (registered, graph::find_node(plan.graph.nodes, frame.id)) {
        (Some(version), _) => going_on(
            state,
            frame.at(ResolvePhaseView::LoadPackage),
            ActionView::LoadPackage { name: frame.id, version },
        ),
        (None, None) => failed(state, graph::missing_node(frame.id)),
        (None, Some(node)) => failed(
            state,
            "dependency '"@ + frame.id + "' version '"@ + node.version
                + "' was not found in the package registry"@,
        ),
    }
}

/// The bytes of a package are read.
pub open spec fn resolve_bytes(
    plan: PlanView,
    state: AssemblyView,
    frame: ResolveView,
    bytes: Seq<u8>,
) -> StepView {
    match package::decoded_package(bytes) {
        Ok(package) => going_on(
            state,
            frame.at(ResolvePhaseView::Kernel(package)),
            ActionView::Continue,
        ),
        Err(error) => match graph::find_node(plan.graph.nodes, frame.id) {
            Some(node) => match node.provenance {
                NodeProvenanceView::Preassembled { path, .. } => failed(
                    state,
                    "failed to decode package '"@ + files::path_text(path) + "': "@ + error,
                ),
                _ => failed(state, unexpected()),
            },
            None => failed(state, graph::missing_node(frame.id)),
        },
    }
}

/// The kernel of a loaded package is found: the package itself, or the one that it declares.
pub open spec fn resolve_kernel(
    state: AssemblyView,
    frame: ResolveView,
    package: PackageView,
) -> StepView {
    if package.kind is Kernel {
        resolved_with(
            state,
            frame.id,
            ResolvedView { package: package, kernel: Some(package) },
        )
    } else {
        match linking::kernel_dependency(package) {
            Err(message) => failed(state, message),
            Ok(None) => resolved_with(
                state,
                frame.id,
                ResolvedView { package: package, kernel: None },
            ),
            Ok(Some(kernel)) => going_on(
                state,
                frame.at(ResolvePhaseView::FindKernel { package, kernel }),
                ActionView::FindExact {
                    name: kernel.name,
                    version: VersionView::exact(kernel.version, kernel.digest),
                },
            ),
        }
    }
}

/// The declared kernel is looked up: it is loaded, or taken out of the package.
pub open spec fn resolve_kernel_found(
    state: AssemblyView,
    frame: ResolveView,
    package: PackageView,
    kernel: DependencyView,
    registered: bool,
) -> StepView {
    if registered {
        going_on(
            state,
            frame.at(ResolvePhaseView::LoadKernel { package, kernel }),
            ActionView::LoadPackage {
                name: kernel.name,
                version: VersionView::exact(kernel.version, kernel.digest),
            },
        )
    } else {
        match linking::embedded_kernel(package) {
            Err(message) => failed(state, message),
            Ok(kernel) => resolved_with(
                state,
                frame.id,
                ResolvedView { package: package, kernel },
            ),
        }
    }
}

/// The declared kernel is loaded.
pub open spec fn resolve_kernel_loaded(
    state: AssemblyView,
    frame: ResolveView,
    package: PackageView,
    kernel: DependencyView,
    loaded: PackageView,
) -> StepView {
    if loaded.kind is Kernel {
        resolved_with(
            state,
            frame.id,
            ResolvedView { package: package, kernel: Some(loaded) },
        )
    } else {
        failed(
            state,
            "runtime kernel dependency '"@ + kernel.name + "@"@ + VersionView::exact(
                kernel.version,
                kernel.digest,
            ).text() + "' resolved to non-kernel package '"@ + loaded.name + "'"@,
        )
    }
}

/// A step of the resolution of a dependency. `state` is the rest of the assembly.
pub open spec fn resolve_step(
    plan: PlanView,
    state: AssemblyView,
    frame: ResolveView,
    event: EventView,
) -> StepView {
    match (frame.phase, event) {
        (_, EventView::Failed(message)) => failed(state, message),
        (ResolvePhaseView::Start, EventView::Proceed) => resolve_start(plan, state, frame),
        (ResolvePhaseView::LoadProject, EventView::Project(project)) => resolve_project(
            plan,
            state,
            frame,
            project,
        ),
        (
            ResolvePhaseView::FindRegistered { project, target },
            EventView::Canonical(registered),
        ) => resolve_registered(state, frame, project, target, registered),
        (
            ResolvePhaseView::LoadRegistered { project, target },
            EventView::Package(package),
        ) => resolve_loaded(plan, state, frame, project, target, package),
        (
            ResolvePhaseView::CheckRegistered { project, target, package },
            EventView::Sources { snapshot, listing },
        ) => resolve_checked(
            plan,
            state,
            frame,
            project,
            target,
            package,
            snapshot,
            listing,
        ),
        (ResolvePhaseView::AwaitBuild, EventView::Proceed) => resolve_built(state, frame),
        (ResolvePhaseView::Publish(resolved), EventView::Proceed) => resolved_with(
            state,
            frame.id,
            resolved,
        ),
        (ResolvePhaseView::FindCanonical, EventView::Canonical(registered)) => resolve_canonical(
            plan,
            state,
            frame,
            registered,
        ),
        (ResolvePhaseView::LoadPackage, EventView::Package(package)) => going_on(
            state,
            frame.at(ResolvePhaseView::Kernel(package)),
            ActionView::Continue,
        ),
        (ResolvePhaseView::ReadPackage, EventView::Bytes(bytes)) => resolve_bytes(
            plan,
            state,
            frame,
            bytes,
        ),
        (ResolvePhaseView::Kernel(package), EventView::Proceed) => resolve_kernel(
            state,
            frame,
            package,
        ),
        (
            ResolvePhaseView::FindKernel { package, kernel },
            EventView::Exact(registered),
        ) => resolve_kernel_found(state, frame, package, kernel, registered),
        (
            ResolvePhaseView::LoadKernel { package, kernel },
            EventView::Package(loaded),
        ) => resolve_kernel_loaded(state, frame, package, kernel, loaded),
        _ => failed(state, unexpected()),
    }
}

/// A step of an assembly: the topmost frame takes the event.
pub open spec fn step(plan: PlanView, state: AssemblyView, event: EventView) -> StepView {
    if state.stack.len() == 0 {
        failed(state, unexpected())
    } else {
        let rest = AssemblyView { stack: state.stack.drop_last(), ..state };
        match state.stack.last() {
            FrameView::Build(build) => build_step(plan, rest, build, event),
            FrameView::Resolve(frame) => resolve_step(plan, rest, frame, event),
        }
    }
}

/// An assembly before its first step. An executable of a project with a library is assembled once
/// the library is.
pub open spec fn started(
    root: Seq<char>,
    project: ProjectView,
    target: TargetView,
    sources: Option<ProvidedView>,
) -> AssemblyView {
    let main = new_build(root, project, target, sources);
    let library_first = target.ty is Executable && project.library is Some;
    AssemblyView {
        cache: Map::empty(),
        stack: seq![
            FrameView::Build(
                if library_first {
                    new_build(root, project, project.library->0, None)
                } else {
                    main
                },
            ),
        ],
        pending: if library_first {
            Some(main)
        } else {
            None
        },
        delivered: None,
    }
}

} // verus!
