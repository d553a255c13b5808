//! The provenance that a package assembled from sources has to record.

use std::sync::Arc;

use vstd::prelude::*;

use crate::files::{FilePath, PathView};
use crate::graph;
use crate::graph::{
    DependencyEdge, DependencyGraph, EdgeView, NodeProvenance, NodeProvenanceView, NodeView,
    OriginView, SourceOrigin,
};
use crate::project;
use crate::project::{ProjectPackage, ProjectView, Target, TargetView};
use crate::provenance;
use crate::provenance::{PackageBuildProvenance, PackageBuildSettings, ProvenanceView};
use crate::sorting;
use crate::sorting::Sortable;
use crate::source_hash;
use crate::source_hash::{ReadFile, ReadFileView};
use crate::sources;
use crate::sources::{ListedView, Listing};
use crate::text;
use crate::word;
use crate::word::Word;

verus! {

/// A project of the graph that was loaded from its manifest, and the files below the directory of
/// its library.
#[derive(Debug)]
pub struct LoadedProject {
    pub name: String,
    pub project: Result<Arc<ProjectPackage>, String>,
    pub listing: Listing,
}

/// The mathematical counterpart of [`LoadedProject`].
#[verifier::ext_equal]
pub struct LoadedView {
    pub name: Seq<char>,
    pub project: Result<ProjectView, Seq<char>>,
    pub listing: Result<Seq<ListedView>, Seq<char>>,
}

impl View for LoadedProject {
    type V = LoadedView;

    open spec fn view(&self) -> LoadedView {
        LoadedView {
            name: self.name@,
            project: match self.project {
                Ok(project) => Ok(project@),
                Err(error) => Err(error@),
            },
            listing: sources::listing_view(self.listing),
        }
    }
}

/// What was read from disk to compute provenances: the projects of the graph and the files that go
/// into the digests of their sources.
#[derive(Debug)]
pub struct Snapshot {
    pub projects: Vec<LoadedProject>,
    pub files: Vec<ReadFile>,
}

/// The mathematical counterpart of [`Snapshot`].
#[verifier::ext_equal]
pub struct SnapshotView {
    pub projects: Seq<LoadedView>,
    pub files: Seq<ReadFileView>,
}

impl View for Snapshot {
    type V = SnapshotView;

    open spec fn view(&self) -> SnapshotView {
        SnapshotView {
            projects: sorting::views(self.projects@),
            files: sorting::views(self.files@),
        }
    }
}

/// All that provenances are computed from: the graph, what was read from disk, and the profile.
#[verifier::ext_equal]
pub struct ContextView {
    pub nodes: Seq<NodeView>,
    pub snapshot: SnapshotView,
    pub profile: Seq<char>,
}

/// The project with this name, and the files below the directory of its library.
pub open spec fn find_project(projects: Seq<LoadedView>, name: Seq<char>) -> Result<
    (ProjectView, Result<Seq<ListedView>, Seq<char>>),
    Seq<char>,
>
    decreases projects.len(),
{
    if projects.len() == 0 {
        Err("project was not loaded"@)
    } else if projects[0].name == name {
        match projects[0].project {
            Ok(project) => Ok((project, projects[0].listing)),
            Err(error) => Err(error),
        }
    } else {
        find_project(projects.drop_first(), name)
    }
}

/// The names of the packages of a graph.
pub open spec fn names(nodes: Seq<NodeView>) -> Set<Seq<char>> {
    nodes.map_values(|node: NodeView| node.name).to_set()
}

/// How many packages of the graph are not being visited.
pub open spec fn unvisited(nodes: Seq<NodeView>, visiting: Set<Seq<char>>) -> nat {
    names(nodes).difference(visiting).len()
}

proof fn lemma_found_name(nodes: Seq<NodeView>, name: Seq<char>)
    ensures
        graph::find_node(nodes, name) is Some ==> names(nodes).contains(name),
    decreases nodes.len(),
{
    if nodes.len() > 0 {
        let all = nodes.map_values(|node: NodeView| node.name);
        let rest = nodes.drop_first().map_values(|node: NodeView| node.name);
        if nodes[0].name == name {
            assert(all[0] == name);
        } else {
            lemma_found_name(nodes.drop_first(), name);
            if graph::find_node(nodes, name) is Some {
                let i = choose|i: int| 0 <= i < rest.len() && rest[i] == name;
                assert(all[i + 1] == name);
            }
        }
    }
}

pub proof fn lemma_visit(nodes: Seq<NodeView>, name: Seq<char>, visiting: Set<Seq<char>>)
    requires
        graph::find_node(nodes, name) is Some,
        !visiting.contains(name),
    ensures
        unvisited(nodes, visiting.insert(name)) < unvisited(nodes, visiting),
{
    lemma_found_name(nodes, name);
    vstd::seq_lib::seq_to_set_is_finite(nodes.map_values(|node: NodeView| node.name));
    let left = names(nodes).difference(visiting);
    assert(names(nodes).difference(visiting.insert(name)) =~= left.remove(name));
    assert(left.contains(name));
    assert(left.finite());
}

/// The digest of all that a package depends on, or the message on why there is none. `visiting`
/// holds the packages whose digests are being computed.
pub open spec fn closure_hash(
    context: ContextView,
    name: Seq<char>,
    visiting: Set<Seq<char>>,
) -> Result<Seq<u8>, Seq<char>>
    decreases unvisited(context.nodes, visiting), 0nat, 0nat,
{
    if visiting.contains(name) {
        Err("dependency cycle detected while computing source provenance for '"@ + name + "'"@)
    } else {
        match graph::find_node(context.nodes, name) {
            None => Err(graph::missing_node(name)),
            Some(node) => if node.dependencies.len() == 0 {
                Ok(provenance::empty_dependency_hash())
            } else {
                proof {
                    lemma_visit(context.nodes, name, visiting);
                }
                match edges_material(
                    context,
                    sorting::sorted::<DependencyEdge>(node.dependencies),
                    visiting.insert(name),
                ) {
                    Err(error) => Err(error),
                    Ok(material) => Ok(word::hash_of(material)),
                }
            },
        }
    }
}

/// What the dependencies of a package contribute to its digest.
pub open spec fn edges_material(
    context: ContextView,
    edges: Seq<EdgeView>,
    visiting: Set<Seq<char>>,
) -> Result<Seq<char>, Seq<char>>
    decreases unvisited(context.nodes, visiting), 3nat, edges.len(),
{
    if edges.len() == 0 {
        Ok(Seq::empty())
    } else {
        match edges_material(context, edges.drop_last(), visiting) {
            Err(error) => Err(error),
            Ok(material) => match resolution_input(context, edges.last().dependency, visiting) {
                Err(error) => Err(error),
                Ok(input) => Ok(
                    material + "dependency:"@ + edges.last().dependency + ":"@
                        + edges.last().linkage.name() + "\n"@ + input,
                ),
            },
        }
    }
}

/// What stands for a dependency: the version that is selected, the provenance of its sources, or
/// the version that is registered.
pub open spec fn resolution_input(
    context: ContextView,
    name: Seq<char>,
    visiting: Set<Seq<char>>,
) -> Result<Seq<char>, Seq<char>>
    decreases unvisited(context.nodes, visiting), 2nat, 0nat,
{
    match graph::find_node(context.nodes, name) {
        None => Err(graph::missing_node(name)),
        Some(node) => match node.provenance {
            NodeProvenanceView::Registry { selected } => Ok(
                "registry:"@ + name + "@"@ + selected.text() + "\n"@,
            ),
            NodeProvenanceView::Preassembled { selected, .. } => Ok(
                "preassembled:"@ + name + "@"@ + selected.text() + "\n"@,
            ),
            NodeProvenanceView::Real { origin, manifest_path, in_workspace, has_library } => {
                if has_library {
                    match find_project(context.snapshot.projects, name) {
                        Err(error) => Err(error),
                        Ok((project, listing)) => match project.library {
                            None => Err(no_library(name)),
                            Some(target) => match source_provenance(
                                context,
                                name,
                                project,
                                target,
                                origin,
                                manifest_path,
                                in_workspace,
                                listing,
                                visiting,
                            ) {
                                Err(error) => Err(error),
                                Ok(provenance) => Ok(
                                    "source:"@ + name + ":"@ + provenance.description() + "\n"@,
                                ),
                            },
                        },
                    }
                } else {
                    Ok(canonical_input(name, node.version))
                }
            },
            NodeProvenanceView::Virtual => Ok(canonical_input(name, node.version)),
        },
    }
}

/// What stands for a dependency that is taken from the registry in its own version.
pub open spec fn canonical_input(name: Seq<char>, version: Seq<char>) -> Seq<char> {
    "canonical:"@ + name + "@"@ + version + "\n"@
}

/// The message on a dependency without a library.
pub open spec fn no_library(name: Seq<char>) -> Seq<char> {
    "dependency '"@ + name + "' does not define a library target"@
}

/// The provenance of a target: where its sources come from, what it depends on, and the settings
/// of the profile.
pub open spec fn source_provenance(
    context: ContextView,
    name: Seq<char>,
    project: ProjectView,
    target: TargetView,
    origin: OriginView,
    manifest_path: PathView,
    in_workspace: bool,
    listing: Result<Seq<ListedView>, Seq<char>>,
    visiting: Set<Seq<char>>,
) -> Result<ProvenanceView, Seq<char>>
    decreases unvisited(context.nodes, visiting), 1nat, 0nat,
{
    match closure_hash(context, name, visiting) {
        Err(error) => Err(error),
        Ok(dependency_hash) => match project::profile_settings(project, context.profile) {
            Err(error) => Err(error),
            Ok(build_settings) => match origin {
                OriginView::Git { repo, resolved_revision } => Ok(
                    ProvenanceView::Git { repo, resolved_revision, dependency_hash, build_settings },
                ),
                _ => match source_hash::source_hash(
                    project,
                    target,
                    manifest_path,
                    in_workspace,
                    listing,
                    context.snapshot.files,
                ) {
                    Err(error) => Err(error),
                    Ok(source_hash) => Ok(
                        ProvenanceView::Path { source_hash, dependency_hash, build_settings },
                    ),
                },
            },
        },
    }
}

/// All that provenances are computed from.
pub struct ProvenanceContext<'a> {
    pub graph: &'a DependencyGraph,
    pub snapshot: &'a Snapshot,
    pub profile: &'a str,
}

impl<'a> View for ProvenanceContext<'a> {
    type V = ContextView;

    open spec fn view(&self) -> ContextView {
        ContextView {
            nodes: self.graph@.nodes,
            snapshot: self.snapshot@,
            profile: self.profile@,
        }
    }
}

/// The set of the names in a list.
pub open spec fn name_set(list: Seq<String>) -> Set<Seq<char>> {
    text::texts(list).to_set()
}

/// Tells whether a list holds `name`.
fn contains_name(list: &Vec<String>, name: &str) -> (contains: bool)
    ensures
        contains == name_set(list@).contains(name@),
{
    let ghost all = text::texts(list@);
    let mut i: usize = 0;
    while i < list.len()
        invariant
            i <= list@.len(),
            all == text::texts(list@),
            forall|j: int| 0 <= j < i ==> all[j] != name@,
        decreases list.len() - i,
    {
        if text::same_text(list[i].as_str(), name) {
            assert(all[i as int] == name@);
            return true;
        }
        assert(all[i as int] != name@);
        i += 1;
    }
    false
}

/// The list with one more name.
fn with_name(list: &Vec<String>, name: &str) -> (longer: Vec<String>)
    ensures
        name_set(longer@) == name_set(list@).insert(name@),
{
    let mut longer: Vec<String> = Vec::new();
    let mut i: usize = 0;
    while i < list.len()
        invariant
            i <= list@.len(),
            longer@.len() == i,
            forall|j: int| 0 <= j < i ==> (#[trigger] longer@[j])@ == list@[j]@,
        decreases list.len() - i,
    {
        longer.push(list[i].clone());
        i += 1;
    }
    longer.push(name.to_string());
    proof {
        let old_names = text::texts(list@);
        let new_names = text::texts(longer@);
        assert(new_names =~= old_names.push(name@));
        assert forall|n: Seq<char>| name_set(longer@).contains(n) <==> name_set(list@).insert(
            name@,
        ).contains(n) by {
            if old_names.contains(n) {
                let k = choose|k: int| 0 <= k < old_names.len() && old_names[k] == n;
                assert(new_names[k] == n);
            }
            if n == name@ {
                assert(new_names[old_names.len() as int] == n);
            }
            if new_names.contains(n) && n != name@ {
                let k = choose|k: int| 0 <= k < new_names.len() && new_names[k] == n;
                assert(old_names[k] == n);
            }
        }
        assert(name_set(longer@) =~= name_set(list@).insert(name@));
    }
    longer
}

/// A copy of a list of dependencies.
fn copied_edges(edges: &Vec<DependencyEdge>) -> (copy: Vec<DependencyEdge>)
    ensures
        sorting::views(copy@) == sorting::views(edges@),
{
    let mut copy: Vec<DependencyEdge> = Vec::new();
    let mut i: usize = 0;
    while i < edges.len()
        invariant
            i <= edges@.len(),
            copy@.len() == i,
            forall|j: int| 0 <= j < i ==> (#[trigger] copy@[j])@ == edges@[j]@,
        decreases edges.len() - i,
    {
        copy.push(edges[i].clone());
        i += 1;
    }
    assert(sorting::views(copy@) =~= sorting::views(edges@));
    copy
}

/// The loaded project with this name.
fn loaded_project<'a>(projects: &'a Vec<LoadedProject>, name: &str) -> (loaded: Result<
    (&'a Arc<ProjectPackage>, &'a Listing),
    String,
>)
    ensures
        match (loaded, find_project(sorting::views(projects@), name@)) {
            (Ok((project, listing)), Ok((expected, expected_listing))) => project@ == expected
                && sources::listing_view(*listing) == expected_listing,
            (Err(error), Err(message)) => error@ == message,
            _ => false,
        },
{
    let ghost all = sorting::views(projects@);
    let mut i: usize = 0;
    assert(all.skip(0) =~= all);
    while i < projects.len()
        invariant
            i <= projects@.len(),
            all == sorting::views(projects@),
            find_project(all, name@) == find_project(all.skip(i as int), name@),
        decreases projects.len() - i,
    {
        let loaded = &projects[i];
        assert(all.skip(i as int)[0] == loaded@);
        assert(all.skip(i as int).drop_first() =~= all.skip(i + 1));
        if text::same_text(loaded.name.as_str(), name) {
            return match &loaded.project {
                Ok(project) => Ok((project, &loaded.listing)),
                Err(error) => Err(error.clone()),
            };
        }
        i += 1;
    }
    Err("project was not loaded".to_string())
}

/// The message on a dependency without a library.
pub fn no_library_message(name: &str) -> (message: String)
    ensures
        message@ == no_library(name@),
{
    let mut message = "dependency '".to_string();
    message.append(name);
    message.append("' does not define a library target");
    message
}

/// `prefix`, the name, `separator`, the text and a line break.
fn input_line(prefix: &str, name: &str, separator: &str, text: &str) -> (line: String)
    ensures
        line@ == prefix@ + name@ + separator@ + text@ + "\n"@,
{
    let mut line = prefix.to_string();
    line.append(name);
    line.append(separator);
    line.append(text);
    line.append("\n");
    line
}

proof fn lemma_edges_error(
    context: ContextView,
    edges: Seq<EdgeView>,
    visiting: Set<Seq<char>>,
    i: int,
)
    requires
        0 <= i <= edges.len(),
        edges_material(context, edges.take(i), visiting) is Err,
    ensures
        edges_material(context, edges, visiting) == edges_material(
            context,
            edges.take(i),
            visiting,
        ),
    decreases edges.len() - i,
{
    if i < edges.len() {
        assert(edges.take(i + 1).drop_last() =~= edges.take(i));
        lemma_edges_error(context, edges, visiting, i + 1);
    } else {
        assert(edges.take(i) =~= edges);
    }
}

impl<'a> ProvenanceContext<'a> {
    /// The digest of all that the package `name` depends on. `visiting` holds the packages whose
    /// digests are being computed: one that depends on itself has none.
    pub fn compute_dependency_closure_hash(&self, name: &str, visiting: &Vec<String>) -> (hash: Result<
        Word,
        String,
    >)
        ensures
            match (hash, closure_hash(self@, name@, name_set(visiting@))) {
                (Ok(hash), Ok(expected)) => hash@ == expected,
                (Err(error), Err(message)) => error@ == message,
                _ => false,
            },
        decreases unvisited(self@.nodes, name_set(visiting@)), 0nat, 0nat,
    {
        if contains_name(visiting, name) {
            let mut message =
                "dependency cycle detected while computing source provenance for '".to_string();
            message.append(name);
            message.append("'");
            return Err(message);
        }
        let node = match self.graph.get(name) {
            Some(node) => node,
            None => return Err(graph::missing_node_message(name)),
        };
        if node.dependencies.len() == 0 {
            return Ok(PackageBuildProvenance::empty_dependency_hash());
        }
        let mut edges = copied_edges(&node.dependencies);
        sorting::sort(&mut edges);
        let visited = with_name(visiting, name);
        proof {
            lemma_visit(self@.nodes, name@, name_set(visiting@));
        }
        let ghost all = sorting::views(edges@);
        let ghost inner = name_set(visited@);
        let mut material = "".to_string();
        proof {
            reveal_strlit("");
            assert(material@ =~= Seq::<char>::empty());
            assert(node@.dependencies.len() == node.dependencies@.len());
        }
        let mut i: usize = 0;
        while i < edges.len()
            invariant
                i <= edges@.len(),
                all == sorting::views(edges@),
                inner == name_set(visited@),
                unvisited(self@.nodes, inner) < unvisited(self@.nodes, name_set(visiting@)),
                edges_material(self@, all.take(i as int), inner) == Ok::<Seq<char>, Seq<char>>(
                    material@,
                ),
                closure_hash(self@, name@, name_set(visiting@)) == match edges_material(
                    self@,
                    all,
                    inner,
                ) {
                    Err(error) => Err::<Seq<u8>, Seq<char>>(error),
                    Ok(material) => Ok(word::hash_of(material)),
                },
            decreases edges.len() - i,
        {
            let edge = &edges[i];
            assert(all.take(i + 1).drop_last() =~= all.take(i as int));
            assert(all.take(i + 1).last() == edge@);
            match self.dependency_resolution_hash_input(edge.dependency.as_str(), &visited) {
                Ok(input) => {
                    material.append("dependency:");
                    material.append(edge.dependency.as_str());
                    material.append(":");
                    material.append(edge.linkage.as_str());
                    material.append("\n");
                    material.append(input.as_str());
                },
                Err(error) => {
                    proof {
                        lemma_edges_error(self@, all, inner, i + 1);
                    }
                    return Err(error);
                },
            }
            i += 1;
        }
        assert(all.take(i as int) =~= all);
        Ok(word::hash_text(material.as_str()))
    }

    /// What stands for the dependency `name` in the digest of a dependent.
    pub fn dependency_resolution_hash_input(&self, name: &str, visiting: &Vec<String>) -> (input: Result<
        String,
        String,
    >)
        ensures
            match (input, resolution_input(self@, name@, name_set(visiting@))) {
                (Ok(input), Ok(expected)) => input@ == expected,
                (Err(error), Err(message)) => error@ == message,
                _ => false,
            },
        decreases unvisited(self@.nodes, name_set(visiting@)), 2nat, 0nat,
    {
        let node = match self.graph.get(name) {
            Some(node) => node,
            None => return Err(graph::missing_node_message(name)),
        };
        match &node.provenance {
            NodeProvenance::Registry { selected } => Ok(
                input_line("registry:", name, "@", selected.text().as_str()),
            ),
            NodeProvenance::Preassembled { selected, .. } => Ok(
                input_line("preassembled:", name, "@", selected.text().as_str()),
            ),
            NodeProvenance::Real { origin, manifest_path, in_workspace, has_library } => {
                if !*has_library {
                    return Ok(input_line("canonical:", name, "@", node.version.as_str()));
                }
                let (project, listing) = match loaded_project(&self.snapshot.projects, name) {
                    Ok(loaded) => loaded,
                    Err(error) => return Err(error),
                };
                let target = match &project.library {
                    Some(target) => target,
                    None => return Err(no_library_message(name)),
                };
                match self.expected_source_provenance_with_visited(
                    name,
                    project,
                    target,
                    origin,
                    manifest_path,
                    *in_workspace,
                    listing,
                    visiting,
                ) {
                    Ok(provenance) => Ok(
                        input_line("source:", name, ":", provenance.describe().as_str()),
                    ),
                    Err(error) => Err(error),
                }
            },
            NodeProvenance::Virtual => Ok(
                input_line("canonical:", name, "@", node.version.as_str()),
            ),
        }
    }

    /// The provenance of `target`, computed while the digests of `visiting` are being computed.
    pub fn expected_source_provenance_with_visited(
        &self,
        name: &str,
        project: &ProjectPackage,
        target: &Target,
        origin: &SourceOrigin,
        manifest_path: &FilePath,
        in_workspace: bool,
        listing: &Listing,
        visiting: &Vec<String>,
    ) -> (provenance: Result<PackageBuildProvenance, String>)
        ensures
            match (
                provenance,
                source_provenance(
                    self@,
                    name@,
                    project@,
                    target@,
                    origin@,
                    manifest_path@,
                    in_workspace,
                    sources::listing_view(*listing),
                    name_set(visiting@),
                ),
            ) {
                (Ok(provenance), Ok(expected)) => provenance@ == expected,
                (Err(error), Err(message)) => error@ == message,
                _ => false,
            },
        decreases unvisited(self@.nodes, name_set(visiting@)), 1nat, 0nat,
    {
        let dependency_hash = match self.compute_dependency_closure_hash(name, visiting) {
            Ok(hash) => hash,
            Err(error) => return Err(error),
        };
        let build_settings = match project::resolve_profile(project, self.profile) {
            Ok(profile) => PackageBuildSettings::from_profile(profile),
            Err(error) => return Err(error),
        };
        match origin {
            SourceOrigin::Git { repo, resolved_revision } => Ok(
                PackageBuildProvenance::Git {
                    repo: repo.clone(),
                    resolved_revision: resolved_revision.clone(),
                    dependency_hash,
                    build_settings,
                },
            ),
            _ => match source_hash::compute_path_source_hash(
                project,
                target,
                manifest_path,
                in_workspace,
                listing,
                &self.snapshot.files,
            ) {
                Ok(source_hash) => Ok(
                    PackageBuildProvenance::Path { source_hash, dependency_hash, build_settings },
                ),
                Err(error) => Err(error),
            },
        }
    }

    /// The provenance that a package assembled from `target` has to record.
    pub fn expected_source_provenance(
        &self,
        name: &str,
        project: &ProjectPackage,
        target: &Target,
        origin: &SourceOrigin,
        manifest_path: &FilePath,
        in_workspace: bool,
        listing: &Listing,
    ) -> (provenance: Result<PackageBuildProvenance, String>)
        ensures
            match (
                provenance,
                expected_provenance(
                    self@,
                    name@,
                    project@,
                    target@,
                    origin@,
                    manifest_path@,
                    in_workspace,
                    sources::listing_view(*listing),
                ),
            ) {
                (Ok(provenance), Ok(expected)) => provenance@ == expected,
                (Err(error), Err(message)) => error@ == message,
                _ => false,
            },
    {
        let visiting: Vec<String> = Vec::new();
        assert(name_set(visiting@) =~= Set::<Seq<char>>::empty());
        self.expected_source_provenance_with_visited(
            name,
            project,
            target,
            origin,
            manifest_path,
            in_workspace,
            listing,
            &visiting,
        )
    }
}

/// The provenance that a package assembled from a target has to record.
pub open spec fn expected_provenance(
    context: ContextView,
    name: Seq<char>,
    project: ProjectView,
    target: TargetView,
    origin: OriginView,
    manifest_path: PathView,
    in_workspace: bool,
    listing: Result<Seq<ListedView>, Seq<char>>,
) -> Result<ProvenanceView, Seq<char>> {
    source_provenance(
        context,
        name,
        project,
        target,
        origin,
        manifest_path,
        in_workspace,
        listing,
        Set::empty(),
    )
}

proof fn lemma_closure_hash_alone(
    context: ContextView,
    name: Seq<char>,
    visiting: Set<Seq<char>>,
    fewer: Set<Seq<char>>,
)
    requires
        fewer.subset_of(visiting),
        closure_hash(context, name, visiting) is Ok,
    ensures
        closure_hash(context, name, fewer) == closure_hash(context, name, visiting),
    decreases unvisited(context.nodes, visiting), 0nat, 0nat,
{
    if let Some(node) = graph::find_node(context.nodes, name) {
        if node.dependencies.len() > 0 {
            lemma_visit(context.nodes, name, visiting);
            lemma_edges_alone(
                context,
                sorting::sorted::<DependencyEdge>(node.dependencies),
                visiting.insert(name),
                fewer.insert(name),
            );
        }
    }
}

proof fn lemma_edges_alone(
    context: ContextView,
    edges: Seq<EdgeView>,
    visiting: Set<Seq<char>>,
    fewer: Set<Seq<char>>,
)
    requires
        fewer.subset_of(visiting),
        edges_material(context, edges, visiting) is Ok,
    ensures
        edges_material(context, edges, fewer) == edges_material(context, edges, visiting),
    decreases unvisited(context.nodes, visiting), 3nat, edges.len(),
{
    if edges.len() > 0 {
        lemma_edges_alone(context, edges.drop_last(), visiting, fewer);
        lemma_resolution_alone(context, edges.last().dependency, visiting, fewer);
    }
}

proof fn lemma_resolution_alone(
    context: ContextView,
    name: Seq<char>,
    visiting: Set<Seq<char>>,
    fewer: Set<Seq<char>>,
)
    requires
        fewer.subset_of(visiting),
        resolution_input(context, name, visiting) is Ok,
    ensures
        resolution_input(context, name, fewer) == resolution_input(context, name, visiting),
    decreases unvisited(context.nodes, visiting), 2nat, 0nat,
{
    if let Some(node) = graph::find_node(context.nodes, name) {
        if let NodeProvenanceView::Real { origin, manifest_path, in_workspace, has_library } =
            node.provenance {
            if has_library {
                if let Ok((project, listing)) = find_project(context.snapshot.projects, name) {
                    if let Some(target) = project.library {
                        provenance_does_not_depend_on_dependents(
                            context,
                            name,
                            project,
                            target,
                            origin,
                            manifest_path,
                            in_workspace,
                            listing,
                            visiting,
                            fewer,
                        );
                    }
                }
            }
        }
    }
}

/// The provenance of a package does not depend on the packages that it is computed for: in the
/// digest of a dependent stands the provenance that the dependency itself has to record.
pub proof fn provenance_does_not_depend_on_dependents(
    context: ContextView,
    name: Seq<char>,
    project: ProjectView,
    target: TargetView,
    origin: OriginView,
    manifest_path: PathView,
    in_workspace: bool,
    listing: Result<Seq<ListedView>, Seq<char>>,
    visiting: Set<Seq<char>>,
    fewer: Set<Seq<char>>,
)
    requires
        fewer.subset_of(visiting),
        source_provenance(
            context,
            name,
            project,
            target,
            origin,
            manifest_path,
            in_workspace,
            listing,
            visiting,
        ) is Ok,
    ensures
        source_provenance(
            context,
            name,
            project,
            target,
            origin,
            manifest_path,
            in_workspace,
            listing,
            fewer,
        ) == source_provenance(
            context,
            name,
            project,
            target,
            origin,
            manifest_path,
            in_workspace,
            listing,
            visiting,
        ),
    decreases unvisited(context.nodes, visiting), 1nat, 0nat,
{
    lemma_closure_hash_alone(context, name, visiting, fewer);
}

proof fn lemma_sorted_edges(a: Seq<EdgeView>, b: Seq<EdgeView>)
    requires
        a.to_multiset() == b.to_multiset(),
    ensures
        sorting::sorted::<DependencyEdge>(a) == sorting::sorted::<DependencyEdge>(b),
{
    assert forall|x: EdgeView| a.contains(x) implies !#[trigger] DependencyEdge::before(x, x) by {
        text::text_order_is_total(x.dependency, x.dependency, x.dependency);
        text::text_order_is_total(x.linkage.name(), x.linkage.name(), x.linkage.name());
    }
    assert forall|x: EdgeView, y: EdgeView| a.contains(x) && a.contains(y) implies x == y
        || #[trigger] DependencyEdge::before(x, y) || DependencyEdge::before(y, x) by {
        text::text_order_is_total(x.dependency, y.dependency, x.dependency);
        text::text_order_is_total(x.linkage.name(), y.linkage.name(), x.linkage.name());
        reveal_strlit("dynamic");
        reveal_strlit("static");
        assert("dynamic"@.len() != "static"@.len());
    }
    assert forall|x: EdgeView, y: EdgeView, z: EdgeView|
        a.contains(x) && a.contains(y) && a.contains(z) && #[trigger] DependencyEdge::before(x, y)
            && #[trigger] DependencyEdge::before(y, z) implies DependencyEdge::before(x, z) by {
        text::text_order_is_total(x.dependency, y.dependency, z.dependency);
        text::text_order_is_total(x.linkage.name(), y.linkage.name(), z.linkage.name());
    }
    sorting::sorting_forgets_order::<DependencyEdge>(a, b);
}

/// The contexts differ at most in the order in which packages name their dependencies.
pub open spec fn same_but_for_order(a: ContextView, b: ContextView) -> bool {
    &&& a.snapshot == b.snapshot
    &&& a.profile == b.profile
    &&& a.nodes.len() == b.nodes.len()
    &&& forall|i: int|
        0 <= i < a.nodes.len() ==> same_node(#[trigger] a.nodes[i], #[trigger] b.nodes[i])
}

/// The packages differ at most in the order in which they name their dependencies.
pub open spec fn same_node(a: NodeView, b: NodeView) -> bool {
    &&& a.name == b.name
    &&& a.version == b.version
    &&& a.provenance == b.provenance
    &&& a.dependencies.to_multiset() == b.dependencies.to_multiset()
}

proof fn lemma_same_node_found(a: Seq<NodeView>, b: Seq<NodeView>, name: Seq<char>)
    requires
        a.len() == b.len(),
        forall|i: int| 0 <= i < a.len() ==> same_node(#[trigger] a[i], #[trigger] b[i]),
    ensures
        match (graph::find_node(a, name), graph::find_node(b, name)) {
            (Some(x), Some(y)) => same_node(x, y) && x.dependencies.len() == y.dependencies.len()
                && sorting::sorted::<DependencyEdge>(x.dependencies) == sorting::sorted::<
                DependencyEdge,
            >(y.dependencies),
            (None, None) => true,
            _ => false,
        },
    decreases a.len(),
{
    broadcast use vstd::seq_lib::group_to_multiset_ensures;

    if a.len() > 0 {
        assert(same_node(a[0], b[0]));
        if a[0].name == name {
            lemma_sorted_edges(a[0].dependencies, b[0].dependencies);
            assert(a[0].dependencies.len() == a[0].dependencies.to_multiset().len());
            assert(b[0].dependencies.len() == b[0].dependencies.to_multiset().len());
        } else {
            let (x, y) = (a.drop_first(), b.drop_first());
            assert forall|i: int| 0 <= i < x.len() implies same_node(
                #[trigger] x[i],
                #[trigger] y[i],
            ) by {
                assert(same_node(a[i + 1], b[i + 1]));
            }
            lemma_same_node_found(x, y, name);
        }
    }
}

proof fn lemma_edges_forget_order(
    a: ContextView,
    b: ContextView,
    edges: Seq<EdgeView>,
    visiting: Set<Seq<char>>,
)
    requires
        same_but_for_order(a, b),
    ensures
        edges_material(a, edges, visiting) == edges_material(b, edges, visiting),
    decreases unvisited(a.nodes, visiting), 3nat, edges.len(),
{
    if edges.len() > 0 {
        lemma_edges_forget_order(a, b, edges.drop_last(), visiting);
        lemma_resolution_forgets_order(a, b, edges.last().dependency, visiting);
    }
}

proof fn lemma_resolution_forgets_order(
    a: ContextView,
    b: ContextView,
    name: Seq<char>,
    visiting: Set<Seq<char>>,
)
    requires
        same_but_for_order(a, b),
    ensures
        resolution_input(a, name, visiting) == resolution_input(b, name, visiting),
    decreases unvisited(a.nodes, visiting), 2nat, 0nat,
{
    lemma_same_node_found(a.nodes, b.nodes, name);
    if let Some(node) = graph::find_node(a.nodes, name) {
        if let NodeProvenanceView::Real { origin, manifest_path, in_workspace, has_library } =
            node.provenance {
            if has_library {
                if let Ok((project, listing)) = find_project(a.snapshot.projects, name) {
                    if let Some(target) = project.library {
                        provenance_forgets_dependency_order(
                            a,
                            b,
                            name,
                            project,
                            target,
                            origin,
                            manifest_path,
                            in_workspace,
                            listing,
                            visiting,
                        );
                    }
                }
            }
        }
    }
}

/// The digest of all that a package depends on does not depend on the order in which this package,
/// or any other one, names its dependencies.
pub proof fn dependency_order_does_not_matter(
    a: ContextView,
    b: ContextView,
    name: Seq<char>,
    visiting: Set<Seq<char>>,
)
    requires
        same_but_for_order(a, b),
    ensures
        closure_hash(a, name, visiting) == closure_hash(b, name, visiting),
    decreases unvisited(a.nodes, visiting), 0nat, 0nat,
{
    lemma_same_node_found(a.nodes, b.nodes, name);
    if !visiting.contains(name) {
        if let Some(node) = graph::find_node(a.nodes, name) {
            if node.dependencies.len() > 0 {
                lemma_visit(a.nodes, name, visiting);
                lemma_edges_forget_order(
                    a,
                    b,
                    sorting::sorted::<DependencyEdge>(node.dependencies),
                    visiting.insert(name),
                );
            }
        }
    }
}

/// Neither does the provenance that a package assembled from a target has to record.
pub proof fn provenance_forgets_dependency_order(
    a: ContextView,
    b: ContextView,
    name: Seq<char>,
    project: ProjectView,
    target: TargetView,
    origin: OriginView,
    manifest_path: PathView,
    in_workspace: bool,
    listing: Result<Seq<ListedView>, Seq<char>>,
    visiting: Set<Seq<char>>,
)
    requires
        same_but_for_order(a, b),
    ensures
        source_provenance(
            a,
            name,
            project,
            target,
            origin,
            manifest_path,
            in_workspace,
            listing,
            visiting,
        ) == source_provenance(
            b,
            name,
            project,
            target,
            origin,
            manifest_path,
            in_workspace,
            listing,
            visiting,
        ),
    decreases unvisited(a.nodes, visiting), 1nat, 0nat,
{
    dependency_order_does_not_matter(a, b, name, visiting);
}

/// The special case of one package: where its dependencies are named in another order, the digests
/// of all the packages of the graph stay the same.
pub proof fn order_of_one_package_does_not_matter(
    context: ContextView,
    i: int,
    dependencies: Seq<EdgeView>,
    name: Seq<char>,
    visiting: Set<Seq<char>>,
)
    requires
        0 <= i < context.nodes.len(),
        dependencies.to_multiset() == context.nodes[i].dependencies.to_multiset(),
    ensures
        ({
            let node = NodeView { dependencies, ..context.nodes[i] };
            let other = ContextView { nodes: context.nodes.update(i, node), ..context };
            closure_hash(other, name, visiting) == closure_hash(context, name, visiting)
        }),
{
    let node = NodeView { dependencies, ..context.nodes[i] };
    let other = ContextView { nodes: context.nodes.update(i, node), ..context };
    dependency_order_does_not_matter(other, context, name, visiting);
}

} // verus!
