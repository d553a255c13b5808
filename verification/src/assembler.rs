//! The assembly of a project: which packages are linked, reused, assembled and published, and in
//! what order.

use std::sync::Arc;

use vstd::prelude::*;

use crate::assembly_model;
use crate::assembly_model::{
    ActionView, AssemblyView, BuildPhaseView, BuildView, EventView, FrameView,
    PlanView, ProvidedView, ResolvePhaseView, ResolveView, StepView,
};
use crate::closure;
use crate::closure::{ProvenanceContext, Snapshot};
use crate::files::FilePath;
use crate::graph;
use crate::graph::{DependencyEdge, DependencyGraph, NodeProvenance, SourceOrigin};
use crate::linking;
use crate::linking::{LinkState, Linkage, ResolvedPackage, ResolvedView};
use crate::package;
use crate::package::{Package, PackageDependency, Section, TargetType};
use crate::project;
use crate::project::{ProjectPackage, ProjectTargetSelector, Target};
use crate::provenance::{PackageBuildProvenance, PackageBuildSettings};
use crate::sorting;
use crate::sources;
use crate::sources::{Listing, ProjectSourceInputs, TargetModules};
use crate::text;
use crate::version::{SemVer, Version};

verus! {

/// The packages that are ready, by name.
struct ReadyPackages {
    entries: Vec<(String, ResolvedPackage)>,
}

/// The packages of a list of entries. A later entry replaces an earlier one of the same name.
spec fn entries_map(entries: Seq<(String, ResolvedPackage)>) -> Map<Seq<char>, ResolvedView>
    decreases entries.len(),
{
    if entries.len() == 0 {
        Map::empty()
    } else {
        entries_map(entries.drop_last()).insert(entries.last().0@, entries.last().1@)
    }
}

impl View for ReadyPackages {
    type V = Map<Seq<char>, ResolvedView>;

    closed spec fn view(&self) -> Map<Seq<char>, ResolvedView> {
        entries_map(self.entries@)
    }
}

impl ReadyPackages {
    fn new() -> (ready: ReadyPackages)
        ensures
            ready@ == Map::<Seq<char>, ResolvedView>::empty(),
    {
        ReadyPackages { entries: Vec::new() }
    }

    /// The package with this name.
    fn get(&self, name: &str) -> (resolved: Option<ResolvedPackage>)
        ensures
            match resolved {
                Some(resolved) => self@.contains_key(name@) && self@[name@] == resolved@,
                None => !self@.contains_key(name@),
            },
    {
        let mut i: usize = self.entries.len();
        assert(self.entries@.take(i as int) =~= self.entries@);
        while i > 0
            invariant
                i <= self.entries@.len(),
                self@.contains_key(name@) == entries_map(
                    self.entries@.take(i as int),
                ).contains_key(name@),
                self@.contains_key(name@) ==> self@[name@] == entries_map(
                    self.entries@.take(i as int),
                )[name@],
            decreases i,
        {
            assert(self.entries@.take(i as int).drop_last() =~= self.entries@.take(i - 1));
            i -= 1;
            if text::same_text(self.entries[i].0.as_str(), name) {
                return Some(self.entries[i].1.clone());
            }
        }
        None
    }

    /// Keeps a package under a name.
    fn insert(&mut self, name: String, resolved: ResolvedPackage)
        ensures
            final(self)@ == old(self)@.insert(name@, resolved@),
    {
        let ghost before = self.entries@;
        self.entries.push((name, resolved));
        assert(self.entries@.drop_last() =~= before);
    }
}

/// The view of modules that a caller provides.
pub open spec fn provided_view(sources: ProjectSourceInputs) -> ProvidedView {
    ProvidedView {
        root: sources.root@,
        support: Seq::new(sources.support@.len(), |i: int| sources.support@[i]@),
    }
}

/// The view of modules that a caller may provide.
pub open spec fn optional_provided(sources: Option<ProjectSourceInputs>) -> Option<ProvidedView> {
    match sources {
        Some(sources) => Some(provided_view(sources)),
        None => None,
    }
}

/// How far the assembly of a package has come: what it waits for.
enum BuildPhase {
    Start,
    LinkRequired,
    RecordRequired,
    Dependencies,
    AwaitDependency,
    RecordDependency(ResolvedPackage),
    ListSources,
    Modules { support: bool },
    Support,
    Assembled,
    ReadSources,
    Package,
}

impl View for BuildPhase {
    type V = BuildPhaseView;

    closed spec fn view(&self) -> BuildPhaseView {
        match self {
            BuildPhase::Start => BuildPhaseView::Start,
            BuildPhase::LinkRequired => BuildPhaseView::LinkRequired,
            BuildPhase::RecordRequired => BuildPhaseView::RecordRequired,
            BuildPhase::Dependencies => BuildPhaseView::Dependencies,
            BuildPhase::AwaitDependency => BuildPhaseView::AwaitDependency,
            BuildPhase::RecordDependency(resolved) => BuildPhaseView::RecordDependency(resolved@),
            BuildPhase::ListSources => BuildPhaseView::ListSources,
            BuildPhase::Modules { support } => BuildPhaseView::Modules { support: *support },
            BuildPhase::Support => BuildPhaseView::Support,
            BuildPhase::Assembled => BuildPhaseView::Assembled,
            BuildPhase::ReadSources => BuildPhaseView::ReadSources,
            BuildPhase::Package => BuildPhaseView::Package,
        }
    }
}

/// A package that is being assembled from sources.
struct Build {
    id: String,
    project: Arc<ProjectPackage>,
    target: Arc<Target>,
    required: Option<ResolvedPackage>,
    sources: Option<ProjectSourceInputs>,
    provided: bool,
    next: usize,
    link: LinkState,
    phase: BuildPhase,
}

/// The view of an optional resolved package.
spec fn optional_resolved(resolved: Option<ResolvedPackage>) -> Option<ResolvedView> {
    match resolved {
        Some(resolved) => Some(resolved@),
        None => None,
    }
}

impl View for Build {
    type V = BuildView;

    closed spec fn view(&self) -> BuildView {
        BuildView {
            id: self.id@,
            project: self.project@,
            target: self.target@,
            required: optional_resolved(self.required),
            sources: optional_provided(self.sources),
            provided: self.provided,
            next: self.next as nat,
            link: self.link@,
            phase: self.phase@,
        }
    }
}

/// How far the resolution of a dependency has come: what it waits for.
enum ResolvePhase {
    Start,
    LoadProject,
    FindRegistered { project: Arc<ProjectPackage>, target: Arc<Target> },
    LoadRegistered { project: Arc<ProjectPackage>, target: Arc<Target> },
    CheckRegistered { project: Arc<ProjectPackage>, target: Arc<Target>, package: Arc<Package> },
    AwaitBuild,
    Publish(ResolvedPackage),
    FindCanonical,
    LoadPackage,
    ReadPackage,
    Kernel(Arc<Package>),
    FindKernel { package: Arc<Package>, kernel: PackageDependency },
    LoadKernel { package: Arc<Package>, kernel: PackageDependency },
}

impl View for ResolvePhase {
    type V = ResolvePhaseView;

    closed spec fn view(&self) -> ResolvePhaseView {
        match self {
            ResolvePhase::Start => ResolvePhaseView::Start,
            ResolvePhase::LoadProject => ResolvePhaseView::LoadProject,
            ResolvePhase::FindRegistered { project, target } => ResolvePhaseView::FindRegistered {
                project: project@,
                target: target@,
            },
            ResolvePhase::LoadRegistered { project, target } => ResolvePhaseView::LoadRegistered {
                project: project@,
                target: target@,
            },
            ResolvePhase::CheckRegistered { project, target, package } => {
                ResolvePhaseView::CheckRegistered {
                    project: project@,
                    target: target@,
                    package: package@,
                }
            },
            ResolvePhase::AwaitBuild => ResolvePhaseView::AwaitBuild,
            ResolvePhase::Publish(resolved) => ResolvePhaseView::Publish(resolved@),
            ResolvePhase::FindCanonical => ResolvePhaseView::FindCanonical,
            ResolvePhase::LoadPackage => ResolvePhaseView::LoadPackage,
            ResolvePhase::ReadPackage => ResolvePhaseView::ReadPackage,
            ResolvePhase::Kernel(package) => ResolvePhaseView::Kernel(package@),
            ResolvePhase::FindKernel { package, kernel } => ResolvePhaseView::FindKernel {
                package: package@,
                kernel: kernel@,
            },
            ResolvePhase::LoadKernel { package, kernel } => ResolvePhaseView::LoadKernel {
                package: package@,
                kernel: kernel@,
            },
        }
    }
}

/// What is being done.
enum Frame {
    Build(Build),
    Resolve { id: String, phase: ResolvePhase },
}

impl View for Frame {
    type V = FrameView;

    closed spec fn view(&self) -> FrameView {
        match self {
            Frame::Build(build) => FrameView::Build(build@),
            Frame::Resolve { id, phase } => FrameView::Resolve(
                ResolveView { id: id@, phase: phase@ },
            ),
        }
    }
}

/// What is to be done next.
#[allow(inconsistent_fields)]
#[derive(Debug)]
pub enum Action {
    /// Nothing.
    Continue,
    /// Make a new assembler with these settings. Up to the creation of its package it is the one
    /// that links, parses and assembles.
    StartAssembler { settings: PackageBuildSettings },
    /// Link a package.
    Link { package: Arc<Package>, linkage: Linkage },
    /// Load the project with this name from its manifest.
    LoadProject { name: String, manifest_path: FilePath },
    /// Look up the version of a package that is registered under a semantic version.
    FindCanonical { name: String, version: SemVer },
    /// Look up whether exactly this version of a package is registered.
    FindExact { name: String, version: Version },
    /// Load a registered package.
    LoadPackage { name: String, version: Version },
    /// Read a file that holds a package.
    ReadPackage { path: FilePath },
    /// Publish a package.
    Publish { package: Arc<Package> },
    /// List all the files below a directory.
    ListFiles { directory: FilePath },
    /// Parse module files.
    ParseModules { modules: TargetModules },
    /// Take the modules that were provided.
    UseModules { modules: ProjectSourceInputs },
    /// Compile the support modules, and link all of them statically.
    LinkSupport,
    /// Assemble the root module and the support modules into an executable.
    AssembleExecutable,
    /// Assemble the root module into a kernel.
    AssembleKernel,
    /// Assemble all the modules, the root module first, into a library of this type.
    AssembleLibrary { ty: TargetType },
    /// Read what goes into the provenance of a target.
    ReadSources {
        name: String,
        project: Arc<ProjectPackage>,
        target: Arc<Target>,
        manifest_path: FilePath,
        in_workspace: bool,
    },
    /// Create the package from what was assembled.
    CreatePackage {
        name: String,
        version: SemVer,
        description: Option<String>,
        dependencies: Vec<PackageDependency>,
        sections: Vec<Section>,
    },
    /// The package is assembled.
    Finished { package: Arc<Package> },
    /// The assembly has failed.
    Failed { message: String },
    /// The assembly met a package of another kind under the name of the target.
    KindMismatch { found: TargetType, expected: TargetType },
}

impl View for Action {
    type V = ActionView;

    open spec fn view(&self) -> ActionView {
        match self {
            Action::Continue => ActionView::Continue,
            Action::StartAssembler { settings } => ActionView::StartAssembler {
                settings: *settings,
            },
            Action::Link { package, linkage } => ActionView::Link {
                package: package@,
                linkage: *linkage,
            },
            Action::LoadProject { name, manifest_path } => ActionView::LoadProject {
                name: name@,
                manifest_path: manifest_path@,
            },
            Action::FindCanonical { name, version } => ActionView::FindCanonical {
                name: name@,
                version: version@,
            },
            Action::FindExact { name, version } => ActionView::FindExact {
                name: name@,
                version: version@,
            },
            Action::LoadPackage { name, version } => ActionView::LoadPackage {
                name: name@,
                version: version@,
            },
            Action::ReadPackage { path } => ActionView::ReadPackage { path: path@ },
            Action::Publish { package } => ActionView::Publish { package: package@ },
            Action::ListFiles { directory } => ActionView::ListFiles { directory: directory@ },
            Action::ParseModules { modules } => ActionView::ParseModules { modules: modules@ },
            Action::UseModules { modules } => ActionView::UseModules {
                modules: provided_view(*modules),
            },
            Action::LinkSupport => ActionView::LinkSupport,
            Action::AssembleExecutable => ActionView::AssembleExecutable,
            Action::AssembleKernel => ActionView::AssembleKernel,
            Action::AssembleLibrary { ty } => ActionView::AssembleLibrary { ty: *ty },
            Action::ReadSources { name, project, target, manifest_path, in_workspace } => {
                ActionView::ReadSources {
                    name: name@,
                    project: project@,
                    target: target@,
                    manifest_path: manifest_path@,
                    in_workspace: *in_workspace,
                }
            },
            Action::CreatePackage { name, version, description, dependencies, sections } => {
                ActionView::CreatePackage {
                    name: name@,
                    version: version@,
                    description: package::optional_text(*description),
                    dependencies: package::dependency_views(dependencies@),
                    sections: package::section_views(sections@),
                }
            },
            Action::Finished { package } => ActionView::Finished { package: package@ },
            Action::Failed { message } => ActionView::Failed { message: message@ },
            Action::KindMismatch { found, expected } => ActionView::KindMismatch {
                found: *found,
                expected: *expected,
            },
        }
    }
}

/// What has become of an action.
#[derive(Debug)]
pub enum Event {
    /// It is done.
    Proceed,
    /// It has failed.
    Failed(String),
    /// The project was loaded.
    Project(Arc<ProjectPackage>),
    /// This version is registered under the semantic version, if any.
    Canonical(Option<Version>),
    /// The version is registered, or is not.
    Exact(bool),
    /// The package was loaded or created.
    Package(Arc<Package>),
    /// The file was read.
    Bytes(Vec<u8>),
    /// The files were listed.
    Listing(Listing),
    /// What goes into a provenance was read, and the files below the directory of the target.
    Sources { snapshot: Snapshot, listing: Listing },
}

/// The view of an optional version.
pub open spec fn optional_version(version: Option<Version>) -> Option<crate::version::VersionView> {
    match version {
        Some(version) => Some(version@),
        None => None,
    }
}

impl View for Event {
    type V = EventView;

    open spec fn view(&self) -> EventView {
        match self {
            Event::Proceed => EventView::Proceed,
            Event::Failed(message) => EventView::Failed(message@),
            Event::Project(project) => EventView::Project(project@),
            Event::Canonical(version) => EventView::Canonical(optional_version(*version)),
            Event::Exact(registered) => EventView::Exact(*registered),
            Event::Package(package) => EventView::Package(package@),
            Event::Bytes(bytes) => EventView::Bytes(bytes@),
            Event::Listing(listing) => EventView::Listing(sources::listing_view(*listing)),
            Event::Sources { snapshot, listing } => EventView::Sources {
                snapshot: snapshot@,
                listing: sources::listing_view(*listing),
            },
        }
    }
}

/// The assembly of a target, under way.
pub struct Assembly {
    graph: Arc<DependencyGraph>,
    profile: String,
    cache: ReadyPackages,
    stack: Vec<Frame>,
    pending: Option<Build>,
    delivered: Option<ResolvedPackage>,
}

spec fn optional_build(build: Option<Build>) -> Option<BuildView> {
    match build {
        Some(build) => Some(build@),
        None => None,
    }
}

impl View for Assembly {
    type V = AssemblyView;

    closed spec fn view(&self) -> AssemblyView {
        AssemblyView {
            cache: self.cache@,
            stack: sorting::views(self.stack@),
            pending: optional_build(self.pending),
            delivered: optional_resolved(self.delivered),
        }
    }
}

impl Assembly {
    /// What the assembly knows from beginning to end.
    pub closed spec fn plan(self) -> PlanView {
        PlanView { graph: self.graph@, profile: self.profile@ }
    }

    /// Goes on with one more frame.
    fn push(&mut self, frame: Frame)
        ensures
            final(self)@ == old(self)@.with(frame@),
            final(self).plan() == old(self).plan(),
    {
        let ghost before = self@.stack;
        self.stack.push(frame);
        assert(self@.stack =~= before.push(frame@));
    }

    /// Ends the assembly.
    fn end(&mut self)
        ensures
            final(self)@ == old(self)@.over(),
            final(self).plan() == old(self).plan(),
    {
        self.stack = Vec::new();
        self.pending = None;
        self.delivered = None;
        assert(self@.stack =~= Seq::<FrameView>::empty());
    }

    /// The assembly has failed.
    fn fail(&mut self, message: String) -> (action: Action)
        ensures
            (StepView { state: final(self)@, action: action@ }) == assembly_model::failed(
                old(self)@,
                message@,
            ),
            final(self).plan() == old(self).plan(),
    {
        self.end();
        Action::Failed { message }
    }

    /// The assembly has failed on an event that is no outcome of the last action.
    fn fail_unexpected(&mut self) -> (action: Action)
        ensures
            (StepView { state: final(self)@, action: action@ }) == assembly_model::failed(
                old(self)@,
                assembly_model::unexpected(),
            ),
            final(self).plan() == old(self).plan(),
    {
        self.fail("unexpected event".to_string())
    }

    /// Hands a package to whoever waits for it.
    fn deliver(&mut self, resolved: ResolvedPackage) -> (action: Action)
        ensures
            (StepView { state: final(self)@, action: action@ }) == assembly_model::delivering(
                old(self)@,
                resolved@,
            ),
            final(self).plan() == old(self).plan(),
    {
        if self.stack.len() > 0 {
            self.delivered = Some(resolved);
            return Action::Continue;
        }
        match self.pending.take() {
            Some(build) => {
                let build = Build { required: Some(resolved), ..build };
                self.push(Frame::Build(build));
                Action::Continue
            },
            None => {
                self.end();
                Action::Finished { package: text::share(resolved.package()) }
            },
        }
    }

    /// Hands over a dependency that is resolved, and keeps it.
    fn finish(&mut self, id: String, resolved: ResolvedPackage) -> (action: Action)
        ensures
            (StepView { state: final(self)@, action: action@ }) == assembly_model::resolved_with(
                old(self)@,
                id@,
                resolved@,
            ),
            final(self).plan() == old(self).plan(),
    {
        self.cache.insert(id, resolved.clone());
        self.deliver(resolved)
    }

    fn build_start(&mut self, build: Build) -> (action: Action)
        ensures
            (StepView { state: final(self)@, action: action@ }) == assembly_model::build_start(
                old(self).plan(),
                old(self)@,
                build@,
            ),
            final(self).plan() == old(self).plan(),
    {
        if !build.provided {
            let name = project::target_package_name(&build.project, &build.target);
            if let Some(ready) = self.cache.get(name.as_str()) {
                let found = ready.package().kind();
                return if found == build.target.ty {
                    self.deliver(ready)
                } else {
                    self.end();
                    Action::KindMismatch { found, expected: build.target.ty }
                };
            }
        }
        let settings = match project::resolve_profile(&build.project, self.profile.as_str()) {
            Ok(profile) => PackageBuildSettings::from_profile(profile),
            Err(message) => return self.fail(message),
        };
        self.push(Frame::Build(Build { phase: BuildPhase::LinkRequired, ..build }));
        Action::StartAssembler { settings }
    }

    fn build_link_required(&mut self, build: Build) -> (action: Action)
        ensures
            (StepView { state: final(self)@, action: action@ })
                == assembly_model::build_link_required(old(self)@, build@),
            final(self).plan() == old(self).plan(),
    {
        let link = match &build.required {
            None => None,
            Some(required) => {
                let package = text::share(required.package());
                let linkage = if package.kind() == TargetType::Kernel {
                    Linkage::Dynamic
                } else {
                    Linkage::Static
                };
                Some(Action::Link { package, linkage })
            },
        };
        match link {
            None => {
                self.push(Frame::Build(Build { phase: BuildPhase::Dependencies, ..build }));
                Action::Continue
            },
            Some(action) => {
                self.push(Frame::Build(Build { phase: BuildPhase::RecordRequired, ..build }));
                action
            },
        }
    }

    fn build_record_required(&mut self, build: Build) -> (action: Action)
        ensures
            (StepView { state: final(self)@, action: action@ })
                == assembly_model::build_record_required(old(self)@, build@),
            final(self).plan() == old(self).plan(),
    {
        let Build { id, project, target, required, sources, provided, next, link, phase: _ } = build;
        let linked = match &required {
            None => return self.fail_unexpected(),
            Some(required) => link.link_kernel(required),
        };
        match linked {
            Err(message) => self.fail(message),
            Ok(link) => {
                let phase = BuildPhase::Dependencies;
                self.push(
                    Frame::Build(
                        Build { id, project, target, required, sources, provided, next, link, phase },
                    ),
                );
                Action::Continue
            },
        }
    }

    fn build_dependencies(&mut self, build: Build) -> (action: Action)
        ensures
            (StepView { state: final(self)@, action: action@ })
                == assembly_model::build_dependencies(old(self).plan(), old(self)@, build@),
            final(self).plan() == old(self).plan(),
    {
        let graph = text::share(&self.graph);
        let node = match graph.get(build.id.as_str()) {
            Some(node) => node,
            None => return self.fail(graph::missing_node_message(build.id.as_str())),
        };
        assert(node@.dependencies.len() == node.dependencies@.len());
        if build.next < node.dependencies.len() {
            let id = node.dependencies[build.next].dependency.clone();
            self.push(Frame::Build(Build { phase: BuildPhase::AwaitDependency, ..build }));
            self.push(Frame::Resolve { id, phase: ResolvePhase::Start });
            Action::Continue
        } else {
            self.build_sources(build)
        }
    }

    fn build_sources(&mut self, build: Build) -> (action: Action)
        ensures
            (StepView { state: final(self)@, action: action@ }) == assembly_model::build_sources(
                old(self)@,
                build@,
            ),
            final(self).plan() == old(self).plan(),
    {
        let Build { id, project, target, required, sources, provided, next, link, phase: _ } = build;
        match sources {
            Some(provided_sources) => {
                let modules = sources::normalize_provided_sources(&target, provided_sources);
                proof {
                    let expected = assembly_model::normalized(
                        target@,
                        provided_view(provided_sources),
                    );
                    assert(provided_view(modules).support =~= expected.support);
                }
                let phase = BuildPhase::Modules { support: modules.support.len() > 0 };
                let sources = None;
                self.push(
                    Frame::Build(
                        Build { id, project, target, required, sources, provided, next, link, phase },
                    ),
                );
                Action::UseModules { modules }
            },
            None => match sources::locate_target_root(&project, &target) {
                Err(message) => self.fail(message),
                Ok((_, directory)) => {
                    let phase = BuildPhase::ListSources;
                    self.push(
                        Frame::Build(
                            Build {
                                id,
                                project,
                                target,
                                required,
                                sources: None,
                                provided,
                                next,
                                link,
                                phase,
                            },
                        ),
                    );
                    Action::ListFiles { directory }
                },
            },
        }
    }

    /// The dependency that is to be linked next.
    fn current_edge(&self, build: &Build) -> (edge: Result<DependencyEdge, String>)
        ensures
            match (edge, assembly_model::current_edge(self.plan(), build@)) {
                (Ok(edge), Ok(expected)) => edge@ == expected,
                (Err(error), Err(message)) => error@ == message,
                _ => false,
            },
            edge is Ok ==> build.next < usize::MAX,
    {
        match self.graph.get(build.id.as_str()) {
            None => Err(graph::missing_node_message(build.id.as_str())),
            Some(node) => {
                assert(node@.dependencies.len() == node.dependencies@.len());
                if build.next < node.dependencies.len() {
                    Ok(node.dependencies[build.next].clone())
                } else {
                    Err("unexpected event".to_string())
                }
            },
        }
    }

    fn build_link_dependency(&mut self, build: Build) -> (action: Action)
        ensures
            (StepView { state: final(self)@, action: action@ })
                == assembly_model::build_link_dependency(old(self).plan(), old(self)@, build@),
            final(self).plan() == old(self).plan(),
    {
        let edge = match self.current_edge(&build) {
            Ok(edge) => edge,
            Err(message) => return self.fail(message),
        };
        let resolved = match self.delivered.take() {
            Some(resolved) => resolved,
            None => return self.fail_unexpected(),
        };
        let package = text::share(resolved.package());
        if package.kind() == TargetType::Executable {
            let mut message = "dependency '".to_string();
            message.append(edge.dependency.as_str());
            message.append("' resolved to executable package '");
            message.append(package.name());
            message.append("', but only library-like packages can be linked");
            return self.fail(message);
        }
        self.push(Frame::Build(Build { phase: BuildPhase::RecordDependency(resolved), ..build }));
        Action::Link { package, linkage: edge.linkage }
    }

    fn build_record_dependency(&mut self, build: Build, resolved: ResolvedPackage) -> (action: Action)
        ensures
            (StepView { state: final(self)@, action: action@ })
                == assembly_model::build_record_dependency(
                old(self).plan(),
                old(self)@,
                build@,
                resolved@,
            ),
            final(self).plan() == old(self).plan(),
    {
        let edge = match self.current_edge(&build) {
            Ok(edge) => edge,
            Err(message) => return self.fail(message),
        };
        let Build { id, project, target, required, sources, provided, next, link, phase: _ } = build;
        match link.link_dependency(&resolved, edge.linkage) {
            Err(message) => self.fail(message),
            Ok(link) => {
                let phase = BuildPhase::Dependencies;
                let next = next + 1;
                self.push(
                    Frame::Build(
                        Build { id, project, target, required, sources, provided, next, link, phase },
                    ),
                );
                Action::Continue
            },
        }
    }

    fn build_parse(&mut self, build: Build, listing: &Listing) -> (action: Action)
        ensures
            (StepView { state: final(self)@, action: action@ }) == assembly_model::build_parse(
                old(self)@,
                build@,
                sources::listing_view(*listing),
            ),
            final(self).plan() == old(self).plan(),
    {
        match sources::load_target_sources(&build.project, &build.target, listing) {
            Err(message) => self.fail(message),
            Ok(modules) => {
                let phase = BuildPhase::Modules { support: modules.support.len() > 0 };
                self.push(Frame::Build(Build { phase, ..build }));
                Action::ParseModules { modules }
            },
        }
    }

    fn build_modules(&mut self, build: Build, support: bool) -> (action: Action)
        ensures
            (StepView { state: final(self)@, action: action@ }) == assembly_model::build_modules(
                old(self)@,
                build@,
                support,
            ),
            final(self).plan() == old(self).plan(),
    {
        let action = match build.target.ty {
            TargetType::Executable => Action::AssembleExecutable,
            TargetType::Kernel => if support {
                self.push(Frame::Build(Build { phase: BuildPhase::Support, ..build }));
                return Action::LinkSupport;
            } else {
                Action::AssembleKernel
            },
            ty => Action::AssembleLibrary { ty },
        };
        self.push(Frame::Build(Build { phase: BuildPhase::Assembled, ..build }));
        action
    }

    fn build_assembled(&mut self, build: Build) -> (action: Action)
        ensures
            (StepView { state: final(self)@, action: action@ }) == assembly_model::build_assembled(
                old(self).plan(),
                old(self)@,
                build@,
            ),
            final(self).plan() == old(self).plan(),
    {
        let graph = text::share(&self.graph);
        match provenance_request(&graph, &build) {
            None => self.build_create(build, None),
            Some((_, manifest_path, in_workspace)) => {
                let action = Action::ReadSources {
                    name: build.id.clone(),
                    project: text::share(&build.project),
                    target: text::share(&build.target),
                    manifest_path: manifest_path.clone(),
                    in_workspace,
                };
                self.push(Frame::Build(Build { phase: BuildPhase::ReadSources, ..build }));
                action
            },
        }
    }

    fn build_provenance(&mut self, build: Build, snapshot: &Snapshot, listing: &Listing) -> (action:
        Action)
        ensures
            (StepView { state: final(self)@, action: action@ })
                == assembly_model::build_provenance(
                old(self).plan(),
                old(self)@,
                build@,
                snapshot@,
                sources::listing_view(*listing),
            ),
            final(self).plan() == old(self).plan(),
    {
        let graph = text::share(&self.graph);
        let provenance = match provenance_request(&graph, &build) {
            None => return self.fail_unexpected(),
            Some((origin, manifest_path, in_workspace)) => {
                let context = ProvenanceContext {
                    graph: &graph,
                    snapshot,
                    profile: self.profile.as_str(),
                };
                context.expected_source_provenance(
                    build.id.as_str(),
                    &build.project,
                    &build.target,
                    origin,
                    manifest_path,
                    in_workspace,
                    listing,
                )
            },
        };
        match provenance {
            Err(message) => self.fail(message),
            Ok(provenance) => self.build_create(build, Some(provenance)),
        }
    }

    fn build_create(&mut self, build: Build, provenance: Option<PackageBuildProvenance>) -> (action:
        Action)
        ensures
            (StepView { state: final(self)@, action: action@ }) == assembly_model::build_create(
                old(self)@,
                build@,
                optional_provenance(provenance),
            ),
            final(self).plan() == old(self).plan(),
    {
        let kernel = build.link.kernel();
        let sections = package_sections(&build.target, kernel, provenance);
        let dependencies = build.link.dependencies();
        let action = Action::CreatePackage {
            name: project::target_package_name(&build.project, &build.target),
            version: build.project.version.clone(),
            description: build.project.description.clone(),
            dependencies,
            sections,
        };
        self.push(Frame::Build(Build { phase: BuildPhase::Package, ..build }));
        action
    }

    fn build_created(&mut self, build: Build, package: Arc<Package>) -> (action: Action)
        ensures
            (StepView { state: final(self)@, action: action@ }) == assembly_model::build_created(
                old(self)@,
                build@,
                package@,
            ),
            final(self).plan() == old(self).plan(),
    {
        let resolved = ResolvedPackage::new(package, build.link.kernel());
        if !build.provided {
            self.cache.insert(build.id, resolved.clone());
        }
        self.deliver(resolved)
    }

    fn build_step(&mut self, build: Build, event: Event) -> (action: Action)
        ensures
            (StepView { state: final(self)@, action: action@ }) == assembly_model::build_step(
                old(self).plan(),
                old(self)@,
                build@,
                event@,
            ),
            final(self).plan() == old(self).plan(),
    {
        let Build { id, project, target, required, sources, provided, next, link, phase } = build;
        let waiting = BuildPhase::Start;
        let build = Build {
            id,
            project,
            target,
            required,
            sources,
            provided,
            next,
            link,
            phase: waiting,
        };
        match (phase, event) {
            (_, Event::Failed(message)) => self.fail(message),
            (BuildPhase::Start, Event::Proceed) => self.build_start(build),
            (BuildPhase::LinkRequired, Event::Proceed) => self.build_link_required(build),
            (BuildPhase::RecordRequired, Event::Proceed) => self.build_record_required(build),
            (BuildPhase::Dependencies, Event::Proceed) => self.build_dependencies(build),
            (BuildPhase::AwaitDependency, Event::Proceed) => self.build_link_dependency(build),
            (
                BuildPhase::RecordDependency(resolved),
                Event::Proceed,
            ) => self.build_record_dependency(build, resolved),
            (BuildPhase::ListSources, Event::Listing(listing)) => self.build_parse(build, &listing),
            (BuildPhase::Modules { support }, Event::Proceed) => self.build_modules(build, support),
            (BuildPhase::Support, Event::Proceed) => {
                self.push(Frame::Build(Build { phase: BuildPhase::Assembled, ..build }));
                Action::AssembleKernel
            },
            (BuildPhase::Assembled, Event::Proceed) => self.build_assembled(build),
            (
                BuildPhase::ReadSources,
                Event::Sources { snapshot, listing },
            ) => self.build_provenance(build, &snapshot, &listing),
            (BuildPhase::Package, Event::Package(package)) => self.build_created(build, package),
            _ => self.fail_unexpected(),
        }
    }

    fn resolve_start(&mut self, id: String) -> (action: Action)
        ensures
            (StepView { state: final(self)@, action: action@ }) == assembly_model::resolve_start(
                old(self).plan(),
                old(self)@,
                ResolveView { id: id@, phase: ResolvePhaseView::Start },
            ),
            final(self).plan() == old(self).plan(),
    {
        if let Some(ready) = self.cache.get(id.as_str()) {
            return self.deliver(ready);
        }
        let graph = text::share(&self.graph);
        let node = match graph.get(id.as_str()) {
            Some(node) => node,
            None => return self.fail(graph::missing_node_message(id.as_str())),
        };
        match &node.provenance {
            NodeProvenance::Virtual => {
                let mut message = "package '".to_string();
                message.append(id.as_str());
                message.append("' is missing a manifest path");
                self.fail(message)
            },
            NodeProvenance::Real { manifest_path, has_library, .. } => {
                let name = id.clone();
                if *has_library {
                    self.push(Frame::Resolve { id, phase: ResolvePhase::LoadProject });
                    Action::LoadProject { name, manifest_path: manifest_path.clone() }
                } else {
                    self.push(Frame::Resolve { id, phase: ResolvePhase::FindCanonical });
                    Action::FindCanonical { name, version: node.version.clone() }
                }
            },
            NodeProvenance::Registry { selected } => {
                let name = id.clone();
                self.push(Frame::Resolve { id, phase: ResolvePhase::LoadPackage });
                Action::LoadPackage { name, version: selected.clone() }
            },
            NodeProvenance::Preassembled { path, .. } => {
                self.push(Frame::Resolve { id, phase: ResolvePhase::ReadPackage });
                Action::ReadPackage { path: path.clone() }
            },
        }
    }

    fn resolve_project(&mut self, id: String, project: Arc<ProjectPackage>) -> (action: Action)
        ensures
            (StepView { state: final(self)@, action: action@ }) == assembly_model::resolve_project(
                old(self).plan(),
                old(self)@,
                ResolveView { id: id@, phase: ResolvePhaseView::Start },
                project@,
            ),
            final(self).plan() == old(self).plan(),
    {
        let target = match &project.library {
            Some(target) => text::share(target),
            None => return self.fail(closure::no_library_message(id.as_str())),
        };
        let graph = text::share(&self.graph);
        let node = match graph.get(id.as_str()) {
            Some(node) => node,
            None => return self.fail(graph::missing_node_message(id.as_str())),
        };
        let name = id.clone();
        self.push(Frame::Resolve { id, phase: ResolvePhase::FindRegistered { project, target } });
        Action::FindCanonical { name, version: node.version.clone() }
    }

    fn resolve_registered(
        &mut self,
        id: String,
        project: Arc<ProjectPackage>,
        target: Arc<Target>,
        registered: Option<Version>,
    ) -> (action: Action)
        ensures
            (StepView { state: final(self)@, action: action@ })
                == assembly_model::resolve_registered(
                old(self)@,
                ResolveView { id: id@, phase: ResolvePhaseView::Start },
                project@,
                target@,
                optional_version(registered),
            ),
            final(self).plan() == old(self).plan(),
    {
        let name = id.clone();
        match registered {
            Some(version) => {
                self.push(
                    Frame::Resolve { id, phase: ResolvePhase::LoadRegistered { project, target } },
                );
                Action::LoadPackage { name, version }
            },
            None => {
                self.push(Frame::Resolve { id, phase: ResolvePhase::AwaitBuild });
                self.push(Frame::Build(new_build(name, project, target, None)));
                Action::Continue
            },
        }
    }

    fn resolve_loaded(
        &mut self,
        id: String,
        project: Arc<ProjectPackage>,
        target: Arc<Target>,
        package: Arc<Package>,
    ) -> (action: Action)
        ensures
            (StepView { state: final(self)@, action: action@ }) == assembly_model::resolve_loaded(
                old(self).plan(),
                old(self)@,
                ResolveView { id: id@, phase: ResolvePhaseView::Start },
                project@,
                target@,
                package@,
            ),
            final(self).plan() == old(self).plan(),
    {
        let graph = text::share(&self.graph);
        let node = match graph.get(id.as_str()) {
            Some(node) => node,
            None => return self.fail(graph::missing_node_message(id.as_str())),
        };
        match &node.provenance {
            NodeProvenance::Real { manifest_path, in_workspace, .. } => {
                let action = Action::ReadSources {
                    name: id.clone(),
                    project: text::share(&project),
                    target: text::share(&target),
                    manifest_path: manifest_path.clone(),
                    in_workspace: *in_workspace,
                };
                let phase = ResolvePhase::CheckRegistered { project, target, package };
                self.push(Frame::Resolve { id, phase });
                action
            },
            _ => self.fail_unexpected(),
        }
    }

    fn resolve_checked(
        &mut self,
        id: String,
        project: Arc<ProjectPackage>,
        target: Arc<Target>,
        package: Arc<Package>,
        snapshot: &Snapshot,
        listing: &Listing,
    ) -> (action: Action)
        ensures
            (StepView { state: final(self)@, action: action@ }) == assembly_model::resolve_checked(
                old(self).plan(),
                old(self)@,
                ResolveView { id: id@, phase: ResolvePhaseView::Start },
                project@,
                target@,
                package@,
                snapshot@,
                sources::listing_view(*listing),
            ),
            final(self).plan() == old(self).plan(),
    {
        let graph = text::share(&self.graph);
        let node = match graph.get(id.as_str()) {
            Some(node) => node,
            None => return self.fail(graph::missing_node_message(id.as_str())),
        };
        let expected = match &node.provenance {
            NodeProvenance::Real { origin, manifest_path, in_workspace, .. } => {
                let context = ProvenanceContext {
                    graph: &graph,
                    snapshot,
                    profile: self.profile.as_str(),
                };
                context.expected_source_provenance(
                    id.as_str(),
                    &project,
                    &target,
                    origin,
                    manifest_path,
                    *in_workspace,
                    listing,
                )
            },
            _ => return self.fail_unexpected(),
        };
        let expected = match expected {
            Ok(expected) => expected,
            Err(message) => return self.fail(message),
        };
        match check_reusable(id.as_str(), &node.version, &package, &expected) {
            Ok(()) => {
                self.push(Frame::Resolve { id, phase: ResolvePhase::Kernel(package) });
                Action::Continue
            },
            Err(message) => self.fail(message),
        }
    }

    fn resolve_built(&mut self, id: String) -> (action: Action)
        ensures
            (StepView { state: final(self)@, action: action@ }) == assembly_model::resolve_built(
                old(self)@,
                ResolveView { id: id@, phase: ResolvePhaseView::Start },
            ),
            final(self).plan() == old(self).plan(),
    {
        let resolved = match self.delivered.take() {
            Some(resolved) => resolved,
            None => return self.fail_unexpected(),
        };
        let package = text::share(resolved.package());
        self.push(Frame::Resolve { id, phase: ResolvePhase::Publish(resolved) });
        Action::Publish { package }
    }

    fn resolve_canonical(&mut self, id: String, registered: Option<Version>) -> (action: Action)
        ensures
            (StepView { state: final(self)@, action: action@ })
                == assembly_model::resolve_canonical(
                old(self).plan(),
                old(self)@,
                ResolveView { id: id@, phase: ResolvePhaseView::Start },
                optional_version(registered),
            ),
            final(self).plan() == old(self).plan(),
    {
        if let Some(version) = registered {
            let name = id.clone();
            self.push(Frame::Resolve { id, phase: ResolvePhase::LoadPackage });
            return Action::LoadPackage { name, version };
        }
        let graph = text::share(&self.graph);
        match graph.get(id.as_str()) {
            None => self.fail(graph::missing_node_message(id.as_str())),
            Some(node) => {
                let mut message = "dependency '".to_string();
                message.append(id.as_str());
                message.append("' version '");
                message.append(node.version.as_str());
                message.append("' was not found in the package registry");
                self.fail(message)
            },
        }
    }

    fn resolve_bytes(&mut self, id: String, bytes: Vec<u8>) -> (action: Action)
        ensures
            (StepView { state: final(self)@, action: action@ }) == assembly_model::resolve_bytes(
                old(self).plan(),
                old(self)@,
                ResolveView { id: id@, phase: ResolvePhaseView::Start },
                bytes@,
            ),
            final(self).plan() == old(self).plan(),
    {
        let error = match Package::from_bytes(bytes) {
            Ok(package) => {
                let package = Arc::new(package);
                self.push(Frame::Resolve { id, phase: ResolvePhase::Kernel(package) });
                return Action::Continue;
            },
            Err(error) => error,
        };
        let graph = text::share(&self.graph);
        match graph.get(id.as_str()) {
            None => self.fail(graph::missing_node_message(id.as_str())),
            Some(node) => match &node.provenance {
                NodeProvenance::Preassembled { path, .. } => {
                    let mut message = "failed to decode package '".to_string();
                    message.append(path.display().as_str());
                    message.append("': ");
                    message.append(error.as_str());
                    self.fail(message)
                },
                _ => self.fail_unexpected(),
            },
        }
    }

    fn resolve_kernel(&mut self, id: String, package: Arc<Package>) -> (action: Action)
        ensures
            (StepView { state: final(self)@, action: action@ }) == assembly_model::resolve_kernel(
                old(self)@,
                ResolveView { id: id@, phase: ResolvePhaseView::Start },
                package@,
            ),
            final(self).plan() == old(self).plan(),
    {
        if package.kind() == TargetType::Kernel {
            let kernel = text::share(&package);
            return self.finish(id, ResolvedPackage::new(package, Some(kernel)));
        }
        match linking::kernel_runtime_dependency(&package) {
            Err(message) => self.fail(message),
            Ok(None) => self.finish(id, ResolvedPackage::new(package, None)),
            Ok(Some(kernel)) => {
                let action = Action::FindExact {
                    name: kernel.name.clone(),
                    version: Version::new(kernel.version.clone(), kernel.digest),
                };
                self.push(Frame::Resolve { id, phase: ResolvePhase::FindKernel { package, kernel } });
                action
            },
        }
    }

    fn resolve_kernel_found(
        &mut self,
        id: String,
        package: Arc<Package>,
        kernel: PackageDependency,
        registered: bool,
    ) -> (action: Action)
        ensures
            (StepView { state: final(self)@, action: action@ })
                == assembly_model::resolve_kernel_found(
                old(self)@,
                ResolveView { id: id@, phase: ResolvePhaseView::Start },
                package@,
                kernel@,
                registered,
            ),
            final(self).plan() == old(self).plan(),
    {
        if registered {
            let action = Action::LoadPackage {
                name: kernel.name.clone(),
                version: Version::new(kernel.version.clone(), kernel.digest),
            };
            self.push(Frame::Resolve { id, phase: ResolvePhase::LoadKernel { package, kernel } });
            return action;
        }
        match linking::embedded_kernel_package(&package) {
            Err(message) => self.fail(message),
            Ok(kernel) => self.finish(id, ResolvedPackage::new(package, kernel)),
        }
    }

    fn resolve_kernel_loaded(
        &mut self,
        id: String,
        package: Arc<Package>,
        kernel: PackageDependency,
        loaded: Arc<Package>,
    ) -> (action: Action)
        ensures
            (StepView { state: final(self)@, action: action@ })
                == assembly_model::resolve_kernel_loaded(
                old(self)@,
                ResolveView { id: id@, phase: ResolvePhaseView::Start },
                package@,
                kernel@,
                loaded@,
            ),
            final(self).plan() == old(self).plan(),
    {
        if loaded.kind() == TargetType::Kernel {
            return self.finish(id, ResolvedPackage::new(package, Some(loaded)));
        }
        let mut message = "runtime kernel dependency '".to_string();
        message.append(kernel.name.as_str());
        message.append("@");
        message.append(Version::new(kernel.version, kernel.digest).text().as_str());
        message.append("' resolved to non-kernel package '");
        message.append(loaded.name());
        message.append("'");
        self.fail(message)
    }

    fn resolve_step(&mut self, id: String, phase: ResolvePhase, event: Event) -> (action: Action)
        ensures
            (StepView { state: final(self)@, action: action@ }) == assembly_model::resolve_step(
                old(self).plan(),
                old(self)@,
                ResolveView { id: id@, phase: phase@ },
                event@,
            ),
            final(self).plan() == old(self).plan(),
    {
        match (phase, event) {
            (_, Event::Failed(message)) => self.fail(message),
            (ResolvePhase::Start, Event::Proceed) => self.resolve_start(id),
            (ResolvePhase::LoadProject, Event::Project(project)) => self.resolve_project(
                id,
                project,
            ),
            (
                ResolvePhase::FindRegistered { project, target },
                Event::Canonical(registered),
            ) => self.resolve_registered(id, project, target, registered),
            (
                ResolvePhase::LoadRegistered { project, target },
                Event::Package(package),
            ) => self.resolve_loaded(id, project, target, package),
            (
                ResolvePhase::CheckRegistered { project, target, package },
                Event::Sources { snapshot, listing },
            ) => self.resolve_checked(id, project, target, package, &snapshot, &listing),
            (ResolvePhase::AwaitBuild, Event::Proceed) => self.resolve_built(id),
            (ResolvePhase::Publish(resolved), Event::Proceed) => self.finish(id, resolved),
            (ResolvePhase::FindCanonical, Event::Canonical(registered)) => self.resolve_canonical(
                id,
                registered,
            ),
            (ResolvePhase::LoadPackage, Event::Package(package)) => {
                self.push(Frame::Resolve { id, phase: ResolvePhase::Kernel(package) });
                Action::Continue
            },
            (ResolvePhase::ReadPackage, Event::Bytes(bytes)) => self.resolve_bytes(id, bytes),
            (ResolvePhase::Kernel(package), Event::Proceed) => self.resolve_kernel(id, package),
            (
                ResolvePhase::FindKernel { package, kernel },
                Event::Exact(registered),
            ) => self.resolve_kernel_found(id, package, kernel, registered),
            (
                ResolvePhase::LoadKernel { package, kernel },
                Event::Package(loaded),
            ) => self.resolve_kernel_loaded(id, package, kernel, loaded),
            _ => self.fail_unexpected(),
        }
    }

    /// Takes the outcome of the last action, and gives the next one. The first event of an
    /// assembly is that it may proceed.
    pub fn step(&mut self, event: Event) -> (action: Action)
        ensures
            (StepView { state: final(self)@, action: action@ }) == assembly_model::step(
                old(self).plan(),
                old(self)@,
                event@,
            ),
            final(self).plan() == old(self).plan(),
    {
        let ghost before = self@;
        match self.stack.pop() {
            None => self.fail_unexpected(),
            Some(frame) => {
                proof {
                    assert(before.stack.last() == frame@);
                    assert(self@.stack =~= before.stack.drop_last());
                    assert(self@ =~= (AssemblyView {
                        stack: before.stack.drop_last(),
                        ..before
                    }));
                }
                match frame {
                    Frame::Build(build) => self.build_step(build, event),
                    Frame::Resolve { id, phase } => self.resolve_step(id, phase, event),
                }
            },
        }
    }
}

/// The assembly of a package before its first step.
fn new_build(
    id: String,
    project: Arc<ProjectPackage>,
    target: Arc<Target>,
    sources: Option<ProjectSourceInputs>,
) -> (build: Build)
    ensures
        build@ == assembly_model::new_build(
            id@,
            project@,
            target@,
            optional_provided(sources),
        ),
{
    let provided = sources.is_some();
    Build {
        id,
        project,
        target,
        required: None,
        sources,
        provided,
        next: 0,
        link: LinkState::new(),
        phase: BuildPhase::Start,
    }
}

/// Tells whether a registered package may be used for sources of the expected provenance.
fn check_reusable(
    name: &str,
    version: &SemVer,
    package: &Package,
    expected: &PackageBuildProvenance,
) -> (result: Result<(), String>)
    ensures
        match (result, assembly_model::reusable(name@, version@, package@, expected@)) {
            (Ok(()), Ok(())) => true,
            (Err(error), Err(message)) => error@ == message,
            _ => false,
        },
{
    let mut message = "package '".to_string();
    message.append(name);
    message.append("' version '");
    message.append(version.as_str());
    match PackageBuildProvenance::from_package(package) {
        Err(error) => Err(error),
        Ok(Some(actual)) => {
            if actual == *expected {
                return Ok(());
            }
            message.append("' is already registered with different source provenance (expected ");
            message.append(expected.describe().as_str());
            message.append(", found ");
            message.append(actual.describe().as_str());
            message.append("); bump the semantic version");
            Err(message)
        },
        Ok(None) => {
            message.append(
                "' is already registered, but the canonical artifact is missing source provenance; bump the semantic version",
            );
            Err(message)
        },
    }
}

spec fn optional_provenance(provenance: Option<PackageBuildProvenance>) -> Option<
    crate::provenance::ProvenanceView,
> {
    match provenance {
        Some(provenance) => Some(provenance@),
        None => None,
    }
}

/// Where the provenance of a package is to be computed from, if it has one.
fn provenance_request<'a>(graph: &'a DependencyGraph, build: &Build) -> (request: Option<
    (&'a SourceOrigin, &'a FilePath, bool),
>)
    ensures
        forall|plan: PlanView|
            plan.graph == graph@ ==> match (
                request,
                #[trigger] assembly_model::provenance_request(plan, build@),
            ) {
                (Some((origin, path, in_workspace)), Some((o, p, w))) => origin@ == o && path@ == p
                    && in_workspace == w,
                (None, None) => true,
                _ => false,
            },
{
    if build.provided {
        return None;
    }
    match graph.get(build.id.as_str()) {
        None => None,
        Some(node) => match &node.provenance {
            NodeProvenance::Real { origin, manifest_path, in_workspace, .. } => {
                let in_git = matches!(origin, SourceOrigin::Git { .. });
                if !in_git && build.target.source.is_none() {
                    None
                } else {
                    Some((origin, manifest_path, *in_workspace))
                }
            },
            _ => None,
        },
    }
}

/// The sections of a package.
fn package_sections(
    target: &Target,
    kernel: Option<Arc<Package>>,
    provenance: Option<PackageBuildProvenance>,
) -> (sections: Vec<Section>)
    ensures
        package::section_views(sections@) == assembly_model::created_sections(
            target@,
            linking::optional_package(kernel),
            optional_provenance(provenance),
        ),
{
    let mut sections: Vec<Section> = Vec::new();
    if let Some(provenance) = &provenance {
        sections.push(provenance.to_section());
    }
    let ghost first = package::section_views(sections@);
    proof {
        match provenance {
            Some(provenance) => {
                assert(first =~= seq![
                    crate::package::SectionView {
                        id: crate::package::PROJECT_SOURCE_PROVENANCE@,
                        data: provenance@.encoding(),
                    },
                ]);
            },
            None => {
                assert(first =~= Seq::<crate::package::SectionView>::empty());
            },
        }
    }
    if target.ty.is_executable() {
        if let Some(kernel) = kernel {
            let section = linking::linked_kernel_package_section(&kernel);
            sections.push(section);
            assert(package::section_views(sections@) =~= first.push(section@));
        }
    }
    sections
}

/// Assembles the targets of a project.
pub struct ProjectAssembler {
    project: Arc<ProjectPackage>,
    graph: Arc<DependencyGraph>,
}

/// What an assembly is at its beginning, or the message that the target does not exist.
pub open spec fn assembly_start(
    project: project::ProjectView,
    graph: graph::GraphView,
    selector: ProjectTargetSelector<'_>,
    sources: Option<ProvidedView>,
) -> Result<AssemblyView, Seq<char>> {
    match project::selected_target(project, selector) {
        Err(message) => Err(message),
        Ok(target) => Ok(assembly_model::started(graph.root, project, target, sources)),
    }
}

impl ProjectAssembler {
    /// The project, in mathematical terms.
    pub closed spec fn project_view(self) -> project::ProjectView {
        self.project@
    }

    /// The dependency graph of the project, in mathematical terms.
    pub closed spec fn graph_view(self) -> graph::GraphView {
        self.graph@
    }

    /// An assembler for `project`, whose dependency graph is `graph`.
    pub fn for_project(project: Arc<ProjectPackage>, graph: Arc<DependencyGraph>) -> (assembler:
        ProjectAssembler)
        ensures
            assembler.project_view() == project@,
            assembler.graph_view() == graph@,
    {
        ProjectAssembler { project, graph }
    }

    /// The project.
    pub fn project(&self) -> (project: &ProjectPackage)
        ensures
            project@ == self.project_view(),
    {
        &self.project
    }

    /// The dependency graph of the project.
    pub fn dependency_graph(&self) -> (graph: &DependencyGraph)
        ensures
            graph@ == self.graph_view(),
    {
        &self.graph
    }

    /// Begins the assembly of a target from the sources that the project names.
    pub fn assemble(&self, target: ProjectTargetSelector<'_>, profile: &str) -> (assembly: Result<
        Assembly,
        String,
    >)
        ensures
            match (
                assembly,
                assembly_start(self.project_view(), self.graph_view(), target, None),
            ) {
                (Ok(assembly), Ok(expected)) => assembly@ == expected && assembly.plan() == (
                PlanView { graph: self.graph_view(), profile: profile@ }),
                (Err(error), Err(message)) => error@ == message,
                _ => false,
            },
    {
        self.assemble_impl(target, profile, None)
    }

    /// Begins the assembly of a target from modules that the caller provides.
    pub fn assemble_with_sources(
        &self,
        target: ProjectTargetSelector<'_>,
        profile: &str,
        sources: ProjectSourceInputs,
    ) -> (assembly: Result<Assembly, String>)
        ensures
            match (
                assembly,
                assembly_start(
                    self.project_view(),
                    self.graph_view(),
                    target,
                    Some(provided_view(sources)),
                ),
            ) {
                (Ok(assembly), Ok(expected)) => assembly@ == expected && assembly.plan() == (
                PlanView { graph: self.graph_view(), profile: profile@ }),
                (Err(error), Err(message)) => error@ == message,
                _ => false,
            },
    {
        self.assemble_impl(target, profile, Some(sources))
    }

    fn assemble_impl(
        &self,
        selector: ProjectTargetSelector<'_>,
        profile: &str,
        sources: Option<ProjectSourceInputs>,
    ) -> (assembly: Result<Assembly, String>)
        ensures
            match (
                assembly,
                assembly_start(
                    self.project_view(),
                    self.graph_view(),
                    selector,
                    optional_provided(sources),
                ),
            ) {
                (Ok(assembly), Ok(expected)) => assembly@ == expected && assembly.plan() == (
                PlanView { graph: self.graph_view(), profile: profile@ }),
                (Err(error), Err(message)) => error@ == message,
                _ => false,
            },
    {
        let target = match project::select_target(&self.project, selector) {
            Ok(target) => target,
            Err(message) => return Err(message),
        };
        let library = match &self.project.library {
            Some(library) => if target.ty.is_executable() {
                Some(text::share(library))
            } else {
                None
            },
            None => None,
        };
        let main = new_build(
            self.graph.root.clone(),
            text::share(&self.project),
            target,
            sources,
        );
        let (first, pending) = match library {
            Some(library) => {
                let root = self.graph.root.clone();
                let first = new_build(root, text::share(&self.project), library, None);
                (first, Some(main))
            },
            None => (main, None),
        };
        let ghost first_view = first@;
        let mut stack: Vec<Frame> = Vec::new();
        stack.push(Frame::Build(first));
        let assembly = Assembly {
            graph: text::share(&self.graph),
            profile: profile.to_string(),
            cache: ReadyPackages::new(),
            stack,
            pending,
            delivered: None,
        };
        assert(assembly@.stack =~= seq![FrameView::Build(first_view)]);
        Ok(assembly)
    }
}

} // verus!
