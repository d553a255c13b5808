//! The dependency graph of a project.

use vstd::prelude::*;

use crate::files::{FilePath, PathView};
use crate::linking::Linkage;
use crate::sorting;
use crate::sorting::Sortable;
use crate::text;
use crate::version::{SemVer, Version, VersionView};

verus! {

/// How the sources of a package are found.
#[derive(Debug)]
pub enum SourceOrigin {
    /// The package is the root of the graph.
    Root,
    /// In a directory.
    Path,
    /// In a git repository, at a revision.
    Git { repo: String, resolved_revision: String },
}

/// The mathematical counterpart of [`SourceOrigin`].
#[verifier::ext_equal]
pub enum OriginView {
    Root,
    Path,
    Git { repo: Seq<char>, resolved_revision: Seq<char> },
}

impl View for SourceOrigin {
    type V = OriginView;

    open spec fn view(&self) -> OriginView {
        match self {
            SourceOrigin::Root => OriginView::Root,
            SourceOrigin::Path => OriginView::Path,
            SourceOrigin::Git { repo, resolved_revision } => OriginView::Git {
                repo: repo@,
                resolved_revision: resolved_revision@,
            },
        }
    }
}

/// Where a package of the graph comes from.
#[derive(Debug)]
pub enum NodeProvenance {
    /// From sources that are in no file.
    Virtual,
    /// From sources in files.
    Real {
        origin: SourceOrigin,
        manifest_path: FilePath,
        /// The project is a member of a workspace.
        in_workspace: bool,
        /// The project has a library whose sources are known.
        has_library: bool,
    },
    /// From the registry, in this version.
    Registry { selected: Version },
    /// From an assembled package in a file.
    Preassembled { path: FilePath, selected: Version },
}

/// The mathematical counterpart of [`NodeProvenance`].
#[verifier::ext_equal]
pub enum NodeProvenanceView {
    Virtual,
    Real { origin: OriginView, manifest_path: PathView, in_workspace: bool, has_library: bool },
    Registry { selected: VersionView },
    Preassembled { path: PathView, selected: VersionView },
}

impl View for NodeProvenance {
    type V = NodeProvenanceView;

    open spec fn view(&self) -> NodeProvenanceView {
        match self {
            NodeProvenance::Virtual => NodeProvenanceView::Virtual,
            NodeProvenance::Real { origin, manifest_path, in_workspace, has_library } => {
                NodeProvenanceView::Real {
                    origin: origin@,
                    manifest_path: manifest_path@,
                    in_workspace: *in_workspace,
                    has_library: *has_library,
                }
            },
            NodeProvenance::Registry { selected } => NodeProvenanceView::Registry {
                selected: selected@,
            },
            NodeProvenance::Preassembled { path, selected } => NodeProvenanceView::Preassembled {
                path: path@,
                selected: selected@,
            },
        }
    }
}

/// A dependency of a package of the graph.
#[derive(Debug)]
pub struct DependencyEdge {
    pub dependency: String,
    pub linkage: Linkage,
}

/// The mathematical counterpart of [`DependencyEdge`].
#[verifier::ext_equal]
pub struct EdgeView {
    pub dependency: Seq<char>,
    pub linkage: Linkage,
}

impl View for DependencyEdge {
    type V = EdgeView;

    open spec fn view(&self) -> EdgeView {
        EdgeView { dependency: self.dependency@, linkage: self.linkage }
    }
}

impl Clone for DependencyEdge {
    fn clone(&self) -> (copy: DependencyEdge)
        ensures
            copy@ == self@,
    {
        DependencyEdge { dependency: self.dependency.clone(), linkage: self.linkage }
    }
}

impl Sortable for DependencyEdge {
    open spec fn before(a: EdgeView, b: EdgeView) -> bool {
        text::text_lt(a.dependency, b.dependency) || (a.dependency == b.dependency
            && text::text_lt(a.linkage.name(), b.linkage.name()))
    }

    fn comes_before(&self, other: &DependencyEdge) -> (before: bool) {
        text::text_less(self.dependency.as_str(), other.dependency.as_str()) || (text::same_text(
            self.dependency.as_str(),
            other.dependency.as_str(),
        ) && text::text_less(self.linkage.as_str(), other.linkage.as_str()))
    }
}

/// A package of the graph.
#[derive(Debug)]
pub struct DependencyNode {
    pub name: String,
    pub version: SemVer,
    pub dependencies: Vec<DependencyEdge>,
    pub provenance: NodeProvenance,
}

/// The mathematical counterpart of [`DependencyNode`].
#[verifier::ext_equal]
pub struct NodeView {
    pub name: Seq<char>,
    pub version: Seq<char>,
    pub dependencies: Seq<EdgeView>,
    pub provenance: NodeProvenanceView,
}

impl View for DependencyNode {
    type V = NodeView;

    open spec fn view(&self) -> NodeView {
        NodeView {
            name: self.name@,
            version: self.version@,
            dependencies: sorting::views(self.dependencies@),
            provenance: self.provenance@,
        }
    }
}

/// A project and all that it depends on.
#[derive(Debug)]
pub struct DependencyGraph {
    pub root: String,
    pub nodes: Vec<DependencyNode>,
}

/// The mathematical counterpart of [`DependencyGraph`].
#[verifier::ext_equal]
pub struct GraphView {
    pub root: Seq<char>,
    pub nodes: Seq<NodeView>,
}

impl View for DependencyGraph {
    type V = GraphView;

    open spec fn view(&self) -> GraphView {
        GraphView { root: self.root@, nodes: sorting::views(self.nodes@) }
    }
}

/// The package with this name.
pub open spec fn find_node(nodes: Seq<NodeView>, name: Seq<char>) -> Option<NodeView>
    decreases nodes.len(),
{
    if nodes.len() == 0 {
        None
    } else if nodes[0].name == name {
        Some(nodes[0])
    } else {
        find_node(nodes.drop_first(), name)
    }
}

/// The message on a package that is not in the graph.
pub open spec fn missing_node(name: Seq<char>) -> Seq<char> {
    "missing dependency graph node for '"@ + name + "'"@
}

/// The message on a package that is not in the graph.
pub fn missing_node_message(name: &str) -> (message: String)
    ensures
        message@ == missing_node(name@),
{
    let mut message = "missing dependency graph node for '".to_string();
    message.append(name);
    message.append("'");
    message
}

impl DependencyGraph {
    /// The package with this name.
    pub fn get(&self, name: &str) -> (node: Option<&DependencyNode>)
        ensures
            match (node, find_node(self@.nodes, name@)) {
                (Some(node), Some(expected)) => node@ == expected,
                (None, None) => true,
                _ => false,
            },
    {
        let ghost all = self@.nodes;
        let mut i: usize = 0;
        assert(all.skip(0) =~= all);
        while i < self.nodes.len()
            invariant
                i <= self.nodes@.len(),
                all == self@.nodes,
                find_node(all, name@) == find_node(all.skip(i as int), name@),
            decreases self.nodes.len() - i,
        {
            let node = &self.nodes[i];
            assert(all.skip(i as int)[0] == node@);
            assert(all.skip(i as int).drop_first() =~= all.skip(i + 1));
            if text::same_text(node.name.as_str(), name) {
                return Some(node);
            }
            i += 1;
        }
        None
    }
}

} // verus!
