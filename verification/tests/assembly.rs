use std::collections::BTreeMap;
use std::sync::Arc;

use miden_assembly_syntax::ast::{Path as MasmPath, ProcedureName};
use miden_assembly_syntax::debuginfo::{SourceFile, SourceId, SourceLanguage, Uri};
use miden_assembly_syntax::library::{LibraryExport, ProcedureExport};
use miden_assembly_syntax::Library;
use miden_core::mast::{BasicBlockNodeBuilder, MastForest, MastForestContributor};
use miden_core::operations::{AssemblyOp, Operation};
use miden_core::serde::{Deserializable, Serializable};
use miden_core::utils::hash_string_to_word;
use miden_mast_package::{
    Dependency, Package as MastPackage, Section, SectionId, TargetType as MastTargetType,
};
use miden_package_registry::{PackageId, PackageRegistry};
use miden_project::ast::WorkspaceFile;
use miden_project::{DependencyVersionScheme, Linkage as ProjectLinkage, Package as Manifest};
use miden_project_assembly::assembler::{Action, Assembly, Event, ProjectAssembler};
use miden_project_assembly::closure::{LoadedProject, Snapshot};
use miden_project_assembly::files::FilePath;
use miden_project_assembly::graph::{
    DependencyEdge, DependencyGraph, DependencyNode, NodeProvenance, SourceOrigin,
};
use miden_project_assembly::linking::Linkage;
use miden_project_assembly::package::{Package, PackageDependency, TargetType};
use miden_project_assembly::project::{
    ModuleKind, Profile, ProjectDependency, ProjectPackage, ProjectTargetSelector, Target,
    TargetSource,
};
use miden_project_assembly::provenance::{PackageBuildProvenance, PackageBuildSettings};
use miden_project_assembly::registry::{ArtifactFile, LocalPackageRegistry};
use miden_project_assembly::source_hash::{source_hash_inputs, ReadFile};
use miden_project_assembly::sources::{
    locate_target_root, ListedFile, Listing, Module, ProjectSourceInputs, TargetModules,
};
use miden_project_assembly::version::{SemVer, Version};

const MISSING: &str = "No such file or directory (os error 2)";

fn path(text: &str) -> FilePath {
    FilePath { bytes: text.as_bytes().to_vec() }
}

fn join(base: &str, relative: &str) -> String {
    let mut parts: Vec<&str> = if relative.starts_with('/') {
        Vec::new()
    } else {
        base.split('/').filter(|part| !part.is_empty()).collect()
    };
    for part in relative.split('/') {
        match part {
            "" | "." => {},
            ".." => {
                parts.pop();
            },
            part => parts.push(part),
        }
    }
    format!("/{}", parts.join("/"))
}

fn parent(path: &str) -> String {
    join(path, "..")
}

/// A library with one procedure, whose code depends on `seed`, with debug information or without.
fn library(export: &MasmPath, seed: &str, debug: bool) -> Arc<Library> {
    let count = seed.bytes().enumerate().map(|(i, b)| (i + 1) * b as usize).sum::<usize>() % 199;
    let mut forest = MastForest::new();
    let node = BasicBlockNodeBuilder::new(vec![Operation::Add; count + 1], Vec::new())
        .add_to_forest(&mut forest)
        .unwrap();
    forest.make_root(node);
    if debug {
        let op = AssemblyOp::new(None, seed.to_string(), 1, "add".to_string());
        let op = forest.debug_info_mut().add_asm_op(op).unwrap();
        forest.debug_info_mut().register_asm_ops(node, count + 1, vec![(0, op)]).unwrap();
    }
    let export: Arc<MasmPath> = Arc::from(export.to_path_buf().into_boxed_path());
    let procedure = LibraryExport::Procedure(ProcedureExport::new(node, Arc::clone(&export)));
    Arc::new(Library::new(Arc::new(forest), BTreeMap::from([(export, procedure)])).unwrap())
}

fn mast_kind(kind: TargetType) -> MastTargetType {
    kind.as_str().parse().unwrap()
}

fn mast_dependency(dependency: &PackageDependency) -> Dependency {
    Dependency {
        name: dependency.name.as_str().into(),
        version: dependency.version.as_str().parse().unwrap(),
        kind: mast_kind(dependency.kind),
        digest: dependency.digest.as_bytes().try_into().unwrap(),
    }
}

fn target_type(kind: MastTargetType) -> TargetType {
    match kind {
        MastTargetType::Library => TargetType::Library,
        MastTargetType::Executable => TargetType::Executable,
        MastTargetType::Kernel => TargetType::Kernel,
        MastTargetType::AccountComponent => TargetType::AccountComponent,
        MastTargetType::Note => TargetType::Note,
        _ => TargetType::TransactionScript,
    }
}

fn linkage(linkage: ProjectLinkage) -> Linkage {
    match linkage {
        ProjectLinkage::Dynamic => Linkage::Dynamic,
        ProjectLinkage::Static => Linkage::Static,
    }
}

fn dependency_texts(package: &MastPackage) -> Vec<String> {
    package
        .manifest
        .dependencies()
        .map(|dep| format!("{}@{}#{}", &dep.name, dep.version, dep.digest))
        .collect()
}

/// Files, a registry and what an assembler would do, all in memory.
struct Context {
    files: BTreeMap<String, Vec<u8>>,
    /// The revision that is checked out in each repository.
    revisions: BTreeMap<String, String>,
    registry: LocalPackageRegistry,
    artifacts: BTreeMap<String, Vec<u8>>,
    loaded: Vec<String>,
    linked: Vec<(String, Linkage)>,
    settings: Vec<PackageBuildSettings>,
    /// Whether the assemblers in use, each for the one before it, emit debug information.
    debugging: Vec<bool>,
    parsed: Vec<TargetModules>,
    used: Vec<ProjectSourceInputs>,
    assembled: TargetType,
    /// What was made of modules, in order.
    actions: Vec<&'static str>,
}

impl Context {
    fn new() -> Self {
        Self {
            files: BTreeMap::new(),
            revisions: BTreeMap::new(),
            registry: LocalPackageRegistry::load(path("/registry/index.toml"), path("/lib"), None)
                .unwrap(),
            artifacts: BTreeMap::new(),
            loaded: Vec::new(),
            linked: Vec::new(),
            settings: Vec::new(),
            debugging: Vec::new(),
            parsed: Vec::new(),
            used: Vec::new(),
            assembled: TargetType::Library,
            actions: Vec::new(),
        }
    }

    fn write_file(&mut self, path: &str, contents: &str) {
        self.files.insert(path.to_string(), contents.as_bytes().to_vec());
    }

    fn add_package(&mut self, package: &MastPackage) {
        let package = Package::from_bytes(package.to_bytes()).unwrap();
        let published = self.registry.publish_package(&package).unwrap();
        self.artifacts.insert(published.package.artifact_path.display(), published.artifact);
    }

    fn is_semver_available(&self, name: &str, version: &str) -> bool {
        self.registry.index().is_semver_available(&PackageId::from(name), &version.parse().unwrap())
    }

    fn registered(&self, name: &str, version: &str) -> String {
        let record = self
            .registry
            .index()
            .get_by_semver(&PackageId::from(name), &version.parse().unwrap())
            .expect("package should be registered");
        format!("{name}@{}", record.version())
    }

    fn source(&self, path: &str) -> Result<Arc<SourceFile>, String> {
        let text = self.files.get(path).ok_or(MISSING.to_string())?;
        let text = String::from_utf8(text.clone()).unwrap();
        Ok(Arc::new(SourceFile::new(
            SourceId::default(),
            SourceLanguage::Other("toml"),
            Uri::from(path),
            text,
        )))
    }

    /// The workspace that a manifest belongs to, and its directory.
    fn workspace(&self, manifest: &str) -> Option<(WorkspaceFile, String)> {
        let mut directory = parent(manifest);
        while directory != "/" {
            let candidate = join(&directory, "miden-project.toml");
            if let Ok(source) = self.source(&candidate) {
                if source.as_str().contains("[workspace]") {
                    return Some((WorkspaceFile::parse(source).unwrap(), directory));
                }
            }
            directory = parent(&directory);
        }
        None
    }

    fn manifest(&self, path: &str) -> Result<Box<Manifest>, String> {
        let source = self.source(path)?;
        match self.workspace(path) {
            Some((workspace, _)) => Manifest::load_from_workspace(source, &workspace),
            None => Manifest::load(source),
        }
        .map_err(|error| error.to_string())
    }

    /// The manifest of a member of the workspace that `dependent` belongs to.
    fn workspace_member(&self, dependent: &str, member: &str) -> Option<String> {
        let (workspace, directory) = self.workspace(dependent)?;
        let members = &workspace.workspace.members;
        members
            .iter()
            .any(|known| known.path() == member)
            .then_some(join(&join(&directory, member), "miden-project.toml"))
    }

    fn target(&self, root: &str, target: &miden_project::Target) -> Arc<Target> {
        let source = target.path.as_ref().map(|relative| {
            let location = join(root, relative.path());
            let resolved = if self.files.contains_key(&location) {
                Ok(path(&location))
            } else {
                Err(MISSING.to_string())
            };
            TargetSource { location, resolved }
        });
        Arc::new(Target {
            ty: target_type(target.ty),
            name: target.name.inner().to_string(),
            namespace: target.namespace.inner().to_string(),
            source,
        })
    }

    fn project(&self, manifest_path: &str) -> Result<Arc<ProjectPackage>, String> {
        let manifest = self.manifest(manifest_path)?;
        let root = parent(manifest_path);
        Ok(Arc::new(ProjectPackage {
            name: manifest.name().inner().to_string(),
            version: SemVer::parse(&manifest.version().inner().to_string()).unwrap(),
            description: manifest.description().map(|text| text.to_string()),
            manifest_path: Some(path(manifest_path)),
            library: manifest.library_target().map(|target| self.target(&root, target.inner())),
            executables: manifest
                .executable_targets()
                .iter()
                .map(|target| self.target(&root, target.inner()))
                .collect(),
            profiles: manifest
                .profiles()
                .iter()
                .map(|profile| Profile {
                    name: profile.name().to_string(),
                    emit_debug_info: profile.should_emit_debug_info(),
                    trim_paths: profile.should_trim_paths(),
                })
                .collect(),
            dependencies: manifest
                .dependencies()
                .iter()
                .map(|dependency| ProjectDependency {
                    name: dependency.name().to_string(),
                    linkage: linkage(dependency.linkage()),
                    workspace_path: match dependency.scheme() {
                        DependencyVersionScheme::Workspace { member, .. } => {
                            Some(member.path().to_string())
                        },
                        DependencyVersionScheme::WorkspacePath { path, .. } => {
                            Some(path.path().to_string())
                        },
                        DependencyVersionScheme::Path { path, .. } => self
                            .workspace_member(manifest_path, path.path())
                            .map(|_| path.path().to_string()),
                        _ => None,
                    },
                })
                .collect(),
            effective_manifest: manifest.to_toml().map_err(|error| error.to_string()),
        }))
    }

    fn add_source_node(
        &self,
        nodes: &mut Vec<DependencyNode>,
        manifest_path: &str,
        origin: SourceOrigin,
    ) -> String {
        let manifest = self.manifest(manifest_path).unwrap();
        let name = manifest.name().inner().to_string();
        if nodes.iter().any(|node| node.name == name) {
            return name;
        }
        let index = nodes.len();
        nodes.push(DependencyNode {
            name: name.clone(),
            version: SemVer::parse(&manifest.version().inner().to_string()).unwrap(),
            dependencies: Vec::new(),
            provenance: NodeProvenance::Real {
                origin,
                manifest_path: path(manifest_path),
                in_workspace: self.workspace(manifest_path).is_some(),
                has_library: manifest
                    .library_target()
                    .is_some_and(|target| target.path.is_some()),
            },
        });
        for dependency in manifest.dependencies() {
            let resolved = self.add_dependency(nodes, manifest_path, dependency);
            nodes[index].dependencies.push(DependencyEdge {
                dependency: resolved,
                linkage: linkage(dependency.linkage()),
            });
        }
        name
    }

    fn add_dependency(
        &self,
        nodes: &mut Vec<DependencyNode>,
        dependent: &str,
        dependency: &miden_project::Dependency,
    ) -> String {
        let name = dependency.name().to_string();
        match dependency.scheme() {
            DependencyVersionScheme::Registry(requirement) => {
                let record = self
                    .registry
                    .index()
                    .find_latest(&PackageId::from(name.as_str()), requirement)
                    .expect("requirement should be satisfied");
                if !nodes.iter().any(|node| node.name == name) {
                    nodes.push(DependencyNode {
                        name: name.clone(),
                        version: SemVer::parse(&record.semantic_version().to_string()).unwrap(),
                        dependencies: Vec::new(),
                        provenance: NodeProvenance::Registry {
                            selected: Version::parse(&record.version().to_string()).unwrap(),
                        },
                    });
                }
                name
            },
            DependencyVersionScheme::Workspace { member, .. } => {
                let (_, directory) = self.workspace(dependent).unwrap();
                let manifest = join(&join(&directory, member.path()), "miden-project.toml");
                self.add_source_node(nodes, &manifest, SourceOrigin::Path)
            },
            DependencyVersionScheme::WorkspacePath { path: relative, .. } => {
                let (_, directory) = self.workspace(dependent).unwrap();
                let manifest = join(&join(&directory, relative.path()), "miden-project.toml");
                self.add_source_node(nodes, &manifest, SourceOrigin::Path)
            },
            DependencyVersionScheme::Path { path: relative, .. } => {
                let location = join(&parent(dependent), relative.path());
                if let Some(manifest) = self.workspace_member(dependent, relative.path()) {
                    self.add_source_node(nodes, &manifest, SourceOrigin::Path)
                } else if location.ends_with(".masp") {
                    let package = MastPackage::read_from_bytes(&self.files[&location]).unwrap();
                    let selected = format!("{}#{}", package.version, package.digest());
                    nodes.push(DependencyNode {
                        name: name.clone(),
                        version: SemVer::parse(&package.version.to_string()).unwrap(),
                        dependencies: Vec::new(),
                        provenance: NodeProvenance::Preassembled {
                            path: path(&location),
                            selected: Version::parse(&selected).unwrap(),
                        },
                    });
                    name
                } else {
                    let manifest = join(&location, "miden-project.toml");
                    self.add_source_node(nodes, &manifest, SourceOrigin::Path)
                }
            },
            DependencyVersionScheme::Git { repo, .. } => {
                let origin = SourceOrigin::Git {
                    repo: repo.inner().to_string(),
                    resolved_revision: self.revisions[repo.path()].clone(),
                };
                self.add_source_node(nodes, &join(repo.path(), "miden-project.toml"), origin)
            },
        }
    }

    fn assembler(&self, manifest_path: &str) -> ProjectAssembler {
        let mut nodes = Vec::new();
        let root = self.add_source_node(&mut nodes, manifest_path, SourceOrigin::Root);
        let project = self.project(manifest_path).unwrap();
        ProjectAssembler::for_project(project, Arc::new(DependencyGraph { root, nodes }))
    }

    fn assemble_library_package(
        &mut self,
        manifest_path: &str,
        profile: Option<&str>,
    ) -> Result<MastPackage, String> {
        let assembler = self.assembler(manifest_path);
        let assembly =
            assembler.assemble(ProjectTargetSelector::Library, profile.unwrap_or("dev"))?;
        self.run(&assembler, assembly)
    }

    fn assemble_executable_package(
        &mut self,
        manifest_path: &str,
        name: &str,
    ) -> Result<MastPackage, String> {
        let assembler = self.assembler(manifest_path);
        let assembly = assembler.assemble(ProjectTargetSelector::Executable(name), "dev")?;
        self.run(&assembler, assembly)
    }

    fn assemble_library_package_with_export(
        &self,
        name: &str,
        version: &str,
        export: &str,
        dependencies: &[(&str, &str, MastTargetType, miden_core::Word)],
    ) -> Box<MastPackage> {
        let export = MasmPath::new(export).to_absolute().into_owned();
        MastPackage::from_library(
            name.into(),
            version.parse().unwrap(),
            MastTargetType::Library,
            library(&export, name, false),
            dependencies.iter().map(|(name, version, kind, digest)| Dependency {
                name: (*name).into(),
                version: version.parse().unwrap(),
                kind: *kind,
                digest: *digest,
            }),
        )
    }

    fn list(&self, directory: &str) -> Listing {
        let below = format!("{}/", directory.trim_end_matches('/'));
        // The order of a directory is arbitrary.
        Ok(self
            .files
            .keys()
            .rev()
            .filter(|file| file.starts_with(&below))
            .map(|file| ListedFile { path: path(file), canonical: Ok(path(file)) })
            .collect())
    }

    fn listing(&self, project: &ProjectPackage, target: &Target) -> Listing {
        let (_, directory) = locate_target_root(project, target)?;
        self.list(&directory.display())
    }

    fn read_inputs(
        &self,
        project: &ProjectPackage,
        target: &Target,
        manifest_path: &FilePath,
        in_workspace: bool,
        files: &mut Vec<ReadFile>,
    ) -> Listing {
        let listing = self.listing(project, target);
        if let Ok(inputs) =
            source_hash_inputs(project, target, manifest_path, in_workspace, &listing)
        {
            for input in inputs {
                let contents = self.files.get(&input.path.display()).cloned();
                files.push(ReadFile {
                    path: input.path,
                    contents: contents.ok_or(MISSING.to_string()),
                });
            }
        }
        listing
    }

    fn snapshot(&self, graph: &DependencyGraph) -> Snapshot {
        let mut snapshot = Snapshot { projects: Vec::new(), files: Vec::new() };
        for node in &graph.nodes {
            let NodeProvenance::Real { manifest_path, in_workspace, has_library: true, .. } =
                &node.provenance
            else {
                continue;
            };
            let project = self.project(&manifest_path.display());
            let listing = match &project {
                Ok(project) => match &project.library {
                    Some(target) => self.read_inputs(
                        project,
                        target,
                        manifest_path,
                        *in_workspace,
                        &mut snapshot.files,
                    ),
                    None => Ok(Vec::new()),
                },
                Err(_) => Ok(Vec::new()),
            };
            snapshot.projects.push(LoadedProject { name: node.name.clone(), project, listing });
        }
        snapshot
    }

    fn product(&mut self, name: &str) -> Arc<Library> {
        let debug = self.debugging.pop().expect("an assembler should have been made");
        let export = match self.assembled {
            TargetType::Executable => {
                MasmPath::exec_path().join(ProcedureName::MAIN_PROC_NAME)
            },
            TargetType::Kernel => MasmPath::kernel_path().join("foo"),
            _ => MasmPath::new("::deps").join(name).join("proc"),
        };
        library(&export, name, debug)
    }

    fn run(
        &mut self,
        assembler: &ProjectAssembler,
        mut assembly: Assembly,
    ) -> Result<MastPackage, String> {
        let mut event = Event::Proceed;
        loop {
            event = match assembly.step(event) {
                Action::Continue => Event::Proceed,
                Action::StartAssembler { settings } => {
                    self.debugging.push(settings.emit_debug_info);
                    self.settings.push(settings);
                    Event::Proceed
                },
                Action::Link { package, linkage } => {
                    self.linked.push((package.name().to_string(), linkage));
                    Event::Proceed
                },
                Action::LoadProject { name, manifest_path } => {
                    match self.project(&manifest_path.display()) {
                        Ok(project) => {
                            assert_eq!(project.name, name);
                            Event::Project(project)
                        },
                        Err(error) => Event::Failed(error),
                    }
                },
                Action::FindCanonical { name, version } => {
                    let version = version.as_str().parse().unwrap();
                    let record =
                        self.registry.index().get_by_semver(&PackageId::from(name), &version);
                    Event::Canonical(
                        record.map(|r| Version::parse(&r.version().to_string()).unwrap()),
                    )
                },
                Action::FindExact { name, version } => {
                    let version = version.text().parse().unwrap();
                    let record =
                        self.registry.index().get_exact_version(&PackageId::from(name), &version);
                    Event::Exact(record.is_some())
                },
                Action::LoadPackage { name, version } => {
                    self.loaded.push(format!("{name}@{}", version.text()));
                    let artifact = self
                        .registry
                        .artifact_path(&version)
                        .and_then(|path| self.artifacts.get(&path.display()).cloned())
                        .map_or(ArtifactFile::Absent, ArtifactFile::Contents);
                    match self.registry.load_package(&name, &version, artifact) {
                        Ok(package) => Event::Package(package),
                        Err(error) => Event::Failed(error.message()),
                    }
                },
                Action::ReadPackage { path } => match self.files.get(&path.display()) {
                    Some(bytes) => Event::Bytes(bytes.clone()),
                    None => Event::Failed(format!("failed to read '{}'", path.display())),
                },
                Action::Publish { package } => match self.registry.publish_package(&package) {
                    Ok(published) => {
                        let file = published.package.artifact_path.display();
                        self.artifacts.insert(file, published.artifact);
                        Event::Proceed
                    },
                    Err(error) => Event::Failed(error.message()),
                },
                Action::ListFiles { directory } => Event::Listing(self.list(&directory.display())),
                Action::ParseModules { modules } => {
                    self.parsed.push(modules);
                    Event::Proceed
                },
                Action::UseModules { modules } => {
                    self.used.push(modules);
                    Event::Proceed
                },
                Action::LinkSupport => {
                    self.actions.push("link support");
                    Event::Proceed
                },
                Action::AssembleExecutable => {
                    self.actions.push("executable");
                    self.assembled = TargetType::Executable;
                    Event::Proceed
                },
                Action::AssembleKernel => {
                    self.actions.push("kernel");
                    self.assembled = TargetType::Kernel;
                    Event::Proceed
                },
                Action::AssembleLibrary { ty } => {
                    self.actions.push("library");
                    self.assembled = ty;
                    Event::Proceed
                },
                Action::ReadSources { project, target, manifest_path, in_workspace, .. } => {
                    let mut snapshot = self.snapshot(assembler.dependency_graph());
                    let listing = self.read_inputs(
                        &project,
                        &target,
                        &manifest_path,
                        in_workspace,
                        &mut snapshot.files,
                    );
                    Event::Sources { snapshot, listing }
                },
                Action::CreatePackage { name, version, description, dependencies, sections } => {
                    let mut package = MastPackage::from_library(
                        name.as_str().into(),
                        version.as_str().parse().unwrap(),
                        mast_kind(self.assembled),
                        self.product(&name),
                        dependencies.iter().map(mast_dependency),
                    );
                    package.description = description;
                    package.sections = sections
                        .into_iter()
                        .map(|section| Section::new(section.id.parse().unwrap(), section.data))
                        .collect();
                    Event::Package(Arc::new(Package::from_bytes(package.to_bytes()).unwrap()))
                },
                Action::Finished { package } => {
                    return Ok(MastPackage::read_from_bytes(package.to_bytes()).unwrap());
                },
                Action::Failed { message } => return Err(message),
                Action::KindMismatch { found, expected } => {
                    panic!("{} is no {}", found.as_str(), expected.as_str())
                },
            };
        }
    }
}

#[test]
fn builds_library_package_from_project_profiles() {
    let mut context = Context::new();
    let manifest_path = "/tmp/miden-project.toml";
    context.write_file(
        manifest_path,
        r#"[package]
name = "libpkg"
version = "1.2.3"
description = "sample library"

[lib]
path = "lib.masm"
"#,
    );
    context.write_file(
        "/tmp/lib.masm",
        r#"pub proc helper
    push.1
    push.2
    add
end
"#,
    );

    let dev = context
        .assemble_library_package(manifest_path, None)
        .expect("failed to assemble under dev profile");
    assert_eq!(&dev.name, "libpkg");
    assert_eq!(dev.version.to_string(), "1.2.3");
    assert_eq!(dev.description.as_deref(), Some("sample library"));
    assert_eq!(dev.kind, MastTargetType::Library);
    assert!(dev.mast.mast_forest().debug_info().num_asm_ops() > 0);
    assert!(!context.settings[0].trim_paths);

    let release = context
        .assemble_library_package(manifest_path, Some("release"))
        .expect("failed to assemble under release profile");
    assert_eq!(release.mast.mast_forest().debug_info().num_asm_ops(), 0);
    assert!(context.settings[1].trim_paths);
}

#[test]
fn builds_executable_target_from_shared_source_tree() {
    let mut context = Context::new();
    let manifest_path = "/tmp/miden-project.toml";
    context.write_file(
        manifest_path,
        r#"[package]
name = "app"
version = "1.0.0"

[lib]
path = "lib.masm"

[[bin]]
name = "primary"
path = "main.masm"

[[bin]]
name = "alternate"
path = "main2.masm"
"#,
    );
    context.write_file(
        "/tmp/lib.masm",
        r#"pub proc helper
    push.1
end
"#,
    );
    context.write_file(
        "/tmp/shared.masm",
        r#"pub proc helper
    push.2
end
"#,
    );
    context.write_file(
        "/tmp/main.masm",
        r#"use $exec::lib
use $exec::shared

begin
    exec.lib::helper
    exec.shared::helper
end
"#,
    );
    context.write_file(
        "/tmp/main2.masm",
        r#"begin
    push.9
end
"#,
    );

    let package = context
        .assemble_executable_package(manifest_path, "primary")
        .expect("executable build should succeed");

    assert_eq!(&package.name, "app:primary");
    assert_eq!(package.kind, MastTargetType::Executable);
    assert!(package.is_program());

    // The library is assembled first, without the roots of the executables, and linked.
    assert_eq!(context.linked, vec![("app".to_string(), Linkage::Static)]);
    let modules = |modules: &TargetModules| -> Vec<(String, String)> {
        modules.support.iter().map(|m| (m.file.display(), m.path.clone())).collect()
    };
    assert_eq!(context.parsed.len(), 2);
    assert_eq!(context.parsed[0].root.file.display(), "/tmp/lib.masm");
    assert_eq!(context.parsed[0].root.kind, ModuleKind::Library);
    assert_eq!(context.parsed[0].root.path, "::app");
    assert_eq!(
        modules(&context.parsed[0]),
        vec![("/tmp/shared.masm".to_string(), "::app::shared".to_string())]
    );
    assert_eq!(context.parsed[1].root.file.display(), "/tmp/main.masm");
    assert_eq!(context.parsed[1].root.kind, ModuleKind::Executable);
    assert_eq!(
        modules(&context.parsed[1]),
        vec![
            ("/tmp/lib.masm".to_string(), "::$exec::lib".to_string()),
            ("/tmp/shared.masm".to_string(), "::$exec::shared".to_string())
        ]
    );
}

#[test]
fn omitted_path_targets_require_explicit_sources() {
    let mut context = Context::new();
    let manifest_path = "/tmp/miden-project.toml";
    context.write_file(
        manifest_path,
        r#"[package]
name = "generated"
version = "1.0.0"

[lib]
"#,
    );

    let error = context
        .assemble_library_package(manifest_path, None)
        .expect_err("assembly without sources should fail");
    assert!(error.contains("assemble_with_sources"));

    let root = Box::new(Module {
        handle: 0,
        kind: ModuleKind::Library,
        path: "generated::temp".to_string(),
    });
    let assembler = context.assembler(manifest_path);
    let assembly = assembler
        .assemble_with_sources(
            ProjectTargetSelector::Library,
            "dev",
            ProjectSourceInputs { root, support: Vec::new() },
        )
        .unwrap();
    let package =
        context.run(&assembler, assembly).expect("assembly with sources should succeed");
    assert_eq!(&package.name, "generated");
    assert_eq!(package.kind, MastTargetType::Library);
    let decoded = Package::from_bytes(package.to_bytes()).unwrap();
    assert!(PackageBuildProvenance::from_package(&decoded).unwrap().is_none());
}

#[test]
fn provided_modules_become_modules_of_the_target() {
    let mut context = Context::new();
    let manifest_path = write_kernel_program_project(&mut context);
    let module = |handle: usize, path: &str| {
        Box::new(Module { handle, kind: ModuleKind::Executable, path: path.to_string() })
    };
    let assembler = context.assembler(manifest_path);
    let assembly = assembler
        .assemble_with_sources(
            ProjectTargetSelector::Library,
            "dev",
            ProjectSourceInputs {
                root: module(0, "temp"),
                support: vec![module(1, "app::helper")],
            },
        )
        .unwrap();
    let package = context.run(&assembler, assembly).unwrap();
    assert_eq!(package.kind, MastTargetType::Kernel);
    assert!(context.parsed.is_empty());

    let used = &context.used[0];
    let namespace = &assembler.project().library.as_ref().unwrap().namespace;
    assert_eq!((used.root.handle, used.root.kind), (0, ModuleKind::Kernel));
    assert_eq!(&used.root.path, namespace);
    assert_eq!((used.support[0].handle, used.support[0].kind), (1, ModuleKind::Library));
    assert_eq!(used.support[0].path, "app::helper");
    assert_eq!(context.actions, vec!["link support", "kernel"]);
}

#[test]
fn modules_are_assembled_as_the_type_of_the_target_asks() {
    let mut context = Context::new();
    let manifest_path = write_kernel_program_project(&mut context);
    context.assemble_executable_package(manifest_path, "main").unwrap();
    assert_eq!(context.actions, vec!["kernel", "executable"]);

    let mut context = Context::new();
    context.write_file(
        "/tmp/miden-project.toml",
        "[package]\nname = \"lib\"\nversion = \"1.0.0\"\n\n[lib]\npath = \"lib.masm\"\n",
    );
    context.write_file("/tmp/lib.masm", "pub proc foo\n    push.1\nend\n");
    context.assemble_library_package("/tmp/miden-project.toml", Some("dev")).unwrap();
    assert_eq!(context.actions, vec!["library"]);
}

#[test]
fn builds_kernel_package_and_supports_kernel_conversion() {
    let mut context = Context::new();
    let manifest_path = "/tmp/miden-project.toml";
    context.write_file(
        manifest_path,
        r#"[package]
name = "kernel-pkg"
version = "1.0.0"

[lib]
kind = "kernel"
path = "kernel.masm"
"#,
    );
    context.write_file(
        "/tmp/kernel.masm",
        r#"pub proc foo
    caller
end
"#,
    );

    let package = context
        .assemble_library_package(manifest_path, Some("dev"))
        .expect("kernel build should succeed");

    assert_eq!(package.kind, MastTargetType::Kernel);
    assert!(package.try_into_kernel_library().is_ok());
}

#[test]
fn assembles_mixed_dependencies_and_inherits_static_runtime_deps() {
    let mut context = Context::new();

    let runtime = context.assemble_library_package_with_export(
        "runtime",
        "1.0.0",
        "deps::runtime::leaf",
        &[],
    );
    let runtime_digest = runtime.digest();
    context.add_package(&runtime);

    let regdep = context.assemble_library_package_with_export(
        "regdep",
        "1.0.0",
        "deps::regdep::leaf",
        &[],
    );
    let regdep_digest = regdep.digest();
    context.add_package(&regdep);

    let predep = context.assemble_library_package_with_export(
        "predep",
        "1.0.0",
        "deps::predep::leaf",
        &[],
    );
    context.files.insert("/tmp/predep.masp".to_string(), predep.to_bytes());

    context.write_file(
        "/tmp/pathdep/miden-project.toml",
        r#"[package]
name = "pathdep"
version = "1.0.0"

[lib]
path = "lib.masm"
namespace = "deps::pathdep"

[dependencies]
runtime = "=1.0.0"
"#,
    );
    context.write_file(
        "/tmp/pathdep/lib.masm",
        r#"use ::deps::runtime

pub proc call_runtime
    exec.runtime::leaf
end
"#,
    );

    context.write_file(
        "/tmp/gitdep/miden-project.toml",
        r#"[package]
name = "gitdep"
version = "1.0.0"

[lib]
path = "lib.masm"
namespace = "deps::gitdep"
"#,
    );
    context.write_file(
        "/tmp/gitdep/lib.masm",
        r#"pub proc leaf
    push.7
end
"#,
    );
    context.revisions.insert("/tmp/gitdep".to_string(), "init".to_string());

    context.write_file(
        "/tmp/root/miden-project.toml",
        r#"[package]
name = "root"
version = "1.0.0"

[lib]
path = "lib.masm"

[dependencies]
pathdep = { path = "../pathdep", linkage = "static" }
gitdep = { git = "/tmp/gitdep", branch = "main" }
regdep = "=1.0.0"
predep = { path = "../predep.masp" }
"#,
    );
    context.write_file(
        "/tmp/root/lib.masm",
        r#"use ::deps::pathdep
use ::deps::gitdep

pub proc entry
    exec.pathdep::call_runtime
    exec.gitdep::leaf
end
"#,
    );

    let package = context
        .assemble_library_package("/tmp/root/miden-project.toml", Some("dev"))
        .expect("mixed dependency build should succeed");

    let dependency_names = package
        .manifest
        .dependencies()
        .map(|dependency| dependency.name.to_string())
        .collect::<Vec<_>>();
    assert_eq!(dependency_names, vec!["gitdep", "predep", "regdep", "runtime"]);
    assert_eq!(
        context.loaded,
        vec![format!("runtime@1.0.0#{runtime_digest}"), format!("regdep@1.0.0#{regdep_digest}")]
    );
    assert!(!dependency_names.iter().any(|name| name == "pathdep"));
    assert_eq!(package.kind, MastTargetType::Library);
    assert_eq!(
        runtime_digest,
        package.manifest.dependencies().find(|d| &d.name == "runtime").unwrap().digest
    );
    assert_eq!(
        package
            .manifest
            .dependencies()
            .find(|d| &d.name == "runtime")
            .unwrap()
            .version
            .to_string(),
        "1.0.0"
    );
    assert!(context.is_semver_available("pathdep", "1.0.0"));
    assert!(context.is_semver_available("gitdep", "1.0.0"));
}

#[test]
fn runtime_dependency_conflict_requires_matching_digest() {
    let mut context = Context::new();

    let runtime_a_digest = hash_string_to_word("runtime-a");
    let runtime_b_digest = hash_string_to_word("runtime-b");

    let depa = context.assemble_library_package_with_export(
        "depa",
        "1.0.0",
        "deps::depa::leaf",
        &[("runtime", "1.0.0", MastTargetType::Library, runtime_a_digest)],
    );
    context.files.insert("/tmp/depa.masp".to_string(), depa.to_bytes());

    let depb = context.assemble_library_package_with_export(
        "depb",
        "1.0.0",
        "deps::depb::leaf",
        &[("runtime", "1.0.0", MastTargetType::Library, runtime_b_digest)],
    );
    context.files.insert("/tmp/depb.masp".to_string(), depb.to_bytes());

    let root_manifest = "/tmp/root/miden-project.toml";
    context.write_file(
        root_manifest,
        r#"[package]
name = "root"
version = "1.0.0"

[lib]
path = "lib.masm"

[dependencies]
depa = { path = "../depa.masp" }
depb = { path = "../depb.masp" }
"#,
    );
    context.write_file(
        "/tmp/root/lib.masm",
        r#"pub proc entry
    exec.::deps::depa::leaf
    exec.::deps::depb::leaf
end
"#,
    );

    let error = context
        .assemble_library_package(root_manifest, None)
        .expect_err("runtime dependency digest conflicts should fail");
    assert!(error.contains("conflicting runtime dependency 'runtime'"));
    assert!(error.contains(&format!("1.0.0#{runtime_a_digest}")));
    assert!(error.contains(&format!("1.0.0#{runtime_b_digest}")));
}

#[test]
fn statically_linked_dynamic_dependencies_propagate_multiple_levels() {
    let mut context = Context::new();

    let runtime = context.assemble_library_package_with_export(
        "runtime",
        "1.0.0",
        "deps::runtime::leaf",
        &[],
    );
    let runtime_digest = runtime.digest();
    context.add_package(&runtime);

    context.write_file(
        "/tmp/mid/miden-project.toml",
        r#"[package]
name = "mid"
version = "1.0.0"

[lib]
path = "lib.masm"
namespace = "deps::mid"

[dependencies]
runtime = "=1.0.0"
"#,
    );
    context.write_file(
        "/tmp/mid/lib.masm",
        r#"use ::deps::runtime

pub proc call_runtime
    exec.runtime::leaf
end
"#,
    );

    context.write_file(
        "/tmp/top/miden-project.toml",
        r#"[package]
name = "top"
version = "1.0.0"

[lib]
path = "lib.masm"
namespace = "deps::top"

[dependencies]
mid = { path = "../mid", linkage = "static" }
"#,
    );
    context.write_file(
        "/tmp/top/lib.masm",
        r#"use ::deps::mid

pub proc call_mid
    exec.mid::call_runtime
end
"#,
    );

    let root_manifest = "/tmp/root/miden-project.toml";
    context.write_file(
        root_manifest,
        r#"[package]
name = "root"
version = "1.0.0"

[lib]
path = "lib.masm"

[dependencies]
top = { path = "../top", linkage = "static" }
"#,
    );
    context.write_file(
        "/tmp/root/lib.masm",
        r#"pub proc entry
    exec.::deps::top::call_mid
end
"#,
    );

    let package = context
        .assemble_library_package(root_manifest, None)
        .expect("multi-level static propagation should succeed");

    assert_eq!(dependency_texts(&package), vec![format!("runtime@1.0.0#{runtime_digest}")]);
}

#[test]
fn workspace_dependency_stays_on_the_workspace_member_version() {
    let mut context = Context::new();
    context.write_file(
        "/tmp/workspace-dep/miden-project.toml",
        r#"[workspace]
members = ["dep", "app"]

[workspace.dependencies]
dep = { path = "dep" }
"#,
    );
    context.write_file(
        "/tmp/workspace-dep/dep/miden-project.toml",
        r#"[package]
name = "dep"
version = "0.2.0"

[lib]
path = "mod.masm"

"#,
    );
    context.write_file("/tmp/workspace-dep/dep/mod.masm", r#"pub proc foo add end"#);

    let app_manifest = "/tmp/workspace-dep/app/miden-project.toml";
    context.write_file(
        app_manifest,
        r#"[package]
name = "app"
version = "0.1.0"

[lib]
path = "mod.masm"

[dependencies]
dep.workspace = true
"#,
    );
    context.write_file(
        "/tmp/workspace-dep/app/mod.masm",
        r#"pub proc bar push.1 push.2 exec.::dep::foo end"#,
    );

    // A version of 'dep' that is registered, but does not match the effective requirement.
    let dep010 = context.assemble_library_package_with_export("dep", "0.1.0", "dep::foo", &[]);
    context.add_package(&dep010);

    let package = context
        .assemble_library_package(app_manifest, None)
        .expect("failed to assemble 'app'");

    assert_eq!(dependency_texts(&package), vec![format!("dep@0.2.0#{}", dep010.digest())]);
}

fn write_path_dependency_project(context: &mut Context) -> &'static str {
    context.write_file(
        "/tmp/dep/miden-project.toml",
        r#"[package]
name = "dep"
version = "1.0.0"

[lib]
path = "lib.masm"
"#,
    );
    context.write_file(
        "/tmp/dep/lib.masm",
        r#"pub proc foo
    push.1
end
"#,
    );
    let root_manifest = "/tmp/root/miden-project.toml";
    context.write_file(
        root_manifest,
        r#"[package]
name = "root"
version = "1.0.0"

[lib]
path = "lib.masm"

[dependencies]
dep = { path = "../dep" }
"#,
    );
    context.write_file(
        "/tmp/root/lib.masm",
        r#"pub proc entry
    exec.::dep::foo
end
"#,
    );
    root_manifest
}

#[test]
fn path_dependency_is_published_and_reused_when_sources_match() {
    let mut context = Context::new();
    let root_manifest = write_path_dependency_project(&mut context);

    let first = context
        .assemble_library_package(root_manifest, None)
        .expect("first build should succeed");
    assert!(context.is_semver_available("dep", "1.0.0"));
    assert!(context.loaded.is_empty());

    let expected_dependency = dependency_texts(&first);

    let second = context
        .assemble_library_package(root_manifest, None)
        .expect("second build should reuse canonical dependency");

    assert_eq!(context.loaded, vec![context.registered("dep", "1.0.0")]);
    assert_eq!(dependency_texts(&second), expected_dependency);
}

#[test]
fn root_package_is_not_auto_published_when_assembling_source_dependencies() {
    let mut context = Context::new();
    let root_manifest = write_path_dependency_project(&mut context);

    let package = context
        .assemble_library_package(root_manifest, None)
        .expect("assembly with a source dependency should succeed");

    assert_eq!(&package.name, "root");
    assert!(context.is_semver_available("dep", "1.0.0"));
    assert!(!context.is_semver_available("root", "1.0.0"));
}

#[test]
fn path_dependency_source_changes_require_semver_bump() {
    let mut context = Context::new();
    let root_manifest = write_path_dependency_project(&mut context);
    context
        .assemble_library_package(root_manifest, None)
        .expect("initial build should succeed");

    context.write_file(
        "/tmp/dep/lib.masm",
        r#"pub proc foo
    push.2
end
"#,
    );

    let error = context
        .assemble_library_package(root_manifest, None)
        .expect_err("changed dependency sources should require a semver bump");
    assert!(error.contains("bump the semantic version"));
}

#[test]
fn transitive_path_dependency_source_changes_require_semver_bump() {
    let mut context = Context::new();
    context.write_file(
        "/tmp/leaf/miden-project.toml",
        r#"[package]
name = "leaf"
version = "1.0.0"

[lib]
path = "lib.masm"
namespace = "deps::leaf"
"#,
    );
    context.write_file(
        "/tmp/leaf/lib.masm",
        r#"pub proc foo
    push.1
end
"#,
    );
    context.write_file(
        "/tmp/dep/miden-project.toml",
        r#"[package]
name = "dep"
version = "1.0.0"

[lib]
path = "lib.masm"
namespace = "deps::dep"

[dependencies]
leaf = { path = "../leaf", linkage = "static" }
"#,
    );
    context.write_file(
        "/tmp/dep/lib.masm",
        r#"use ::deps::leaf

pub proc call_leaf
    exec.leaf::foo
end
"#,
    );
    let root_manifest = "/tmp/root/miden-project.toml";
    context.write_file(
        root_manifest,
        r#"[package]
name = "root"
version = "1.0.0"

[lib]
path = "lib.masm"

[dependencies]
dep = { path = "../dep" }
"#,
    );
    context.write_file(
        "/tmp/root/lib.masm",
        r#"pub proc entry
    exec.::deps::dep::call_leaf
end
"#,
    );

    context
        .assemble_library_package(root_manifest, None)
        .expect("initial build should succeed");

    context.write_file(
        "/tmp/leaf/lib.masm",
        r#"pub proc foo
    push.2
end
"#,
    );

    let error = context
        .assemble_library_package(root_manifest, None)
        .expect_err("changed transitive dependency sources should require a semver bump");
    assert!(error.contains("package 'dep' version '1.0.0'"));
    assert!(error.contains("different source provenance"));
}

#[test]
fn source_dependency_profile_changes_require_semver_bump() {
    let mut context = Context::new();
    let root_manifest = write_path_dependency_project(&mut context);
    context
        .assemble_library_package(root_manifest, Some("dev"))
        .expect("initial dev build should succeed");

    let error = context
        .assemble_library_package(root_manifest, Some("release"))
        .expect_err("changing package-shaping profile inputs should require a semver bump");
    assert!(error.contains("package 'dep' version '1.0.0'"));
    assert!(error.contains("different source provenance"));
    assert!(error.contains("trim_paths=true"));
}

#[test]
fn workspace_manifest_changes_without_effect_allow_reuse_of_member_packages() {
    let mut context = Context::new();
    let workspace_manifest = "/tmp/workspace/miden-project.toml";
    context.write_file(
        workspace_manifest,
        r#"[workspace]
members = ["dep", "app"]

[workspace.dependencies]
dep = { path = "dep" }
"#,
    );
    context.write_file(
        "/tmp/workspace/dep/miden-project.toml",
        r#"[package]
name = "dep"
version = "1.0.0"

[lib]
path = "mod.masm"
"#,
    );
    context.write_file(
        "/tmp/workspace/dep/mod.masm",
        r#"pub proc foo
    push.1
end
"#,
    );
    let app_manifest = "/tmp/workspace/app/miden-project.toml";
    context.write_file(
        app_manifest,
        r#"[package]
name = "app"
version = "1.0.0"

[lib]
path = "mod.masm"

[dependencies]
dep.workspace = true
"#,
    );
    context.write_file(
        "/tmp/workspace/app/mod.masm",
        r#"pub proc bar
    exec.::dep::foo
end
"#,
    );

    let first = context
        .assemble_library_package(app_manifest, None)
        .expect("initial workspace build should succeed");
    assert!(context.is_semver_available("dep", "1.0.0"));
    let expected_dependency = dependency_texts(&first);
    context.loaded.clear();

    context.write_file(
        workspace_manifest,
        r#"[workspace]
members = ["dep", "app"]

[workspace.dependencies]
dep = { path = "dep" }

# comment changes provenance hashing for workspace member builds
"#,
    );

    let second = context
        .assemble_library_package(app_manifest, None)
        .expect("workspace manifest comment changes should still allow reuse");

    assert_eq!(context.loaded, vec![context.registered("dep", "1.0.0")]);
    assert_eq!(second.digest(), first.digest());
    assert_eq!(dependency_texts(&second), expected_dependency);
}

#[test]
fn git_dependency_reuses_canonical_revision_and_rejects_new_commit_without_semver_bump() {
    let mut context = Context::new();
    context.write_file(
        "/tmp/gitdep/miden-project.toml",
        r#"[package]
name = "gitdep"
version = "1.0.0"

[lib]
path = "lib.masm"
"#,
    );
    context.write_file(
        "/tmp/gitdep/lib.masm",
        r#"pub proc leaf
    push.7
end
"#,
    );
    context.revisions.insert("/tmp/gitdep".to_string(), "init".to_string());

    let root_manifest = "/tmp/root/miden-project.toml";
    context.write_file(
        root_manifest,
        r#"[package]
name = "root"
version = "1.0.0"

[lib]
path = "lib.masm"

[dependencies]
gitdep = { git = "/tmp/gitdep", branch = "main" }
"#,
    );
    context.write_file(
        "/tmp/root/lib.masm",
        r#"pub proc entry
    exec.::gitdep::leaf
end
"#,
    );

    context
        .assemble_library_package(root_manifest, None)
        .expect("initial build should succeed");
    context.loaded.clear();

    context
        .assemble_library_package(root_manifest, None)
        .expect("matching revision should reuse canonical dependency");
    assert_eq!(context.loaded, vec![context.registered("gitdep", "1.0.0")]);

    context.write_file(
        "/tmp/gitdep/lib.masm",
        r#"pub proc leaf
    push.8
end
"#,
    );
    context.revisions.insert("/tmp/gitdep".to_string(), "change".to_string());

    let error = context
        .assemble_library_package(root_manifest, None)
        .expect_err("new git revision should require a semver bump");
    assert!(error.contains("bump the semantic version"));
    assert!(error.contains("git(/tmp/gitdep@change)"));
    assert!(error.contains("git(/tmp/gitdep@init)"));
}

#[test]
fn omitted_path_dependency_requires_canonical_registry_entry() {
    let mut context = Context::new();
    let root_manifest = write_path_dependency_project(&mut context);
    context.write_file(
        "/tmp/dep/miden-project.toml",
        r#"[package]
name = "dep"
version = "1.0.0"

[lib]
"#,
    );
    context.files.remove("/tmp/dep/lib.masm");

    let missing = context
        .assemble_library_package(root_manifest, None)
        .expect_err("omitted-path dependency should require a canonical registry entry");
    assert!(missing.contains("was not found in the package registry"));

    let dep = context.assemble_library_package_with_export("dep", "1.0.0", "dep::foo", &[]);
    let dep_digest = dep.digest();
    context.add_package(&dep);

    let package = context
        .assemble_library_package(root_manifest, None)
        .expect("canonical registry entry should satisfy omitted-path dependency");
    assert_eq!(dependency_texts(&package), vec![format!("dep@1.0.0#{dep_digest}")]);
}

#[test]
fn workspace_member_source_dependencies_preserve_workspace_inheritance() {
    let mut context = Context::new();
    context.write_file(
        "/tmp/workspace/miden-project.toml",
        r#"[workspace]
members = ["dep", "app"]

[workspace.package]
version = "1.0.0"

[workspace.dependencies]
dep = { path = "dep" }
"#,
    );
    context.write_file(
        "/tmp/workspace/dep/miden-project.toml",
        r#"[package]
name = "dep"
version.workspace = true

[lib]
path = "mod.masm"
"#,
    );
    context.write_file(
        "/tmp/workspace/dep/mod.masm",
        r#"pub proc foo
    push.1
end
"#,
    );
    let app_manifest = "/tmp/workspace/app/miden-project.toml";
    context.write_file(
        app_manifest,
        r#"[package]
name = "app"
version = "1.0.0"

[lib]
path = "mod.masm"

[dependencies]
dep.workspace = true
"#,
    );
    context.write_file(
        "/tmp/workspace/app/mod.masm",
        r#"pub proc bar
    exec.::dep::foo
end
"#,
    );

    let package = context
        .assemble_library_package(app_manifest, None)
        .expect("workspace member dependency should assemble with inherited workspace config");
    assert!(context.is_semver_available("dep", "1.0.0"));

    let dependencies = package.manifest.dependencies().collect::<Vec<_>>();
    assert_eq!(dependencies.len(), 1);
    assert_eq!(dependencies[0].name, PackageId::from("dep"));
    assert_eq!(dependencies[0].version.to_string(), "1.0.0");
}

fn write_kernel_program_project(context: &mut Context) -> &'static str {
    let manifest_path = "/tmp/miden-project.toml";
    context.write_file(
        manifest_path,
        r#"[package]
name = "app"
version = "1.0.0"

[lib]
kind = "kernel"
path = "kernel.masm"

[[bin]]
name = "main"
path = "main.masm"
"#,
    );
    context.write_file(
        "/tmp/kernel.masm",
        r#"pub proc foo
    caller
end
"#,
    );
    context.write_file(
        "/tmp/main.masm",
        r#"begin
    syscall.foo
end
"#,
    );
    manifest_path
}

fn write_transitive_kernel_program_project(
    context: &mut Context,
) -> (&'static str, &'static str, &'static str) {
    let kernel_manifest = "/tmp/kernel/miden-project.toml";
    context.write_file(
        kernel_manifest,
        r#"[package]
name = "kernelpkg"
version = "1.0.0"

[lib]
kind = "kernel"
path = "kernel.masm"
"#,
    );
    context.write_file(
        "/tmp/kernel/kernel.masm",
        r#"pub proc foo
    caller
end
"#,
    );
    let mid_manifest = "/tmp/mid/miden-project.toml";
    context.write_file(
        mid_manifest,
        r#"[package]
name = "mid"
version = "1.0.0"

[lib]
path = "lib.masm"
namespace = "deps::mid"

[dependencies]
kernelpkg = { path = "../kernel" }
"#,
    );
    context.write_file(
        "/tmp/mid/lib.masm",
        r#"pub proc call_kernel
    syscall.foo
end
"#,
    );
    let root_manifest = "/tmp/app/miden-project.toml";
    context.write_file(
        root_manifest,
        r#"[package]
name = "app"
version = "1.0.0"

[[bin]]
name = "main"
path = "main.masm"

[dependencies]
mid = { path = "../mid", linkage = "static" }
"#,
    );
    context.write_file(
        "/tmp/app/main.masm",
        r#"begin
    exec.::deps::mid::call_kernel
end
"#,
    );
    (root_manifest, kernel_manifest, mid_manifest)
}

fn write_preassembled_kernel_executable_project(
    context: &mut Context,
    dependency_package_path: &str,
) -> &'static str {
    let manifest_path = "/tmp/preassembled-app/miden-project.toml";
    context.write_file(
        manifest_path,
        &format!(
            r#"[package]
name = "app"
version = "1.0.0"

[[bin]]
name = "main"
path = "main.masm"

[dependencies]
mid = {{ path = "{dependency_package_path}", linkage = "static" }}
"#
        ),
    );
    context.write_file(
        "/tmp/preassembled-app/main.masm",
        r#"begin
    exec.::deps::mid::call_kernel
end
"#,
    );
    manifest_path
}

fn embedded_kernel(package: &MastPackage) -> Option<MastPackage> {
    package
        .sections
        .iter()
        .find(|section| section.id == SectionId::KERNEL)
        .map(|section| MastPackage::read_from_bytes(section.data.as_ref()).unwrap())
}

fn kernel_dependency(package: &MastPackage) -> Option<Dependency> {
    package
        .manifest
        .dependencies()
        .find(|dependency| dependency.kind == MastTargetType::Kernel)
        .cloned()
}

#[test]
fn executable_packages_preserve_kernel_when_converted_back_to_program() {
    let mut context = Context::new();
    let manifest_path = write_kernel_program_project(&mut context);

    let kernel_package = context
        .assemble_library_package(manifest_path, None)
        .expect("kernel package build should succeed");
    let expected_kernel = kernel_package
        .try_into_kernel_library()
        .expect("kernel package should round-trip as a kernel library")
        .kernel()
        .clone();
    let package = context
        .assemble_executable_package(manifest_path, "main")
        .expect("executable package build should succeed");
    let kernel_dependency = kernel_dependency(&package)
        .expect("executable package should record the linked kernel runtime dependency");
    let embedded_kernel_package = embedded_kernel(&package)
        .expect("executable package should embed the linked kernel package");
    assert_eq!(embedded_kernel_package.kind, MastTargetType::Kernel);
    assert_eq!(embedded_kernel_package.name, kernel_dependency.name);
    assert_eq!(embedded_kernel_package.version, kernel_dependency.version);
    assert_eq!(embedded_kernel_package.digest(), kernel_dependency.digest);
    assert_eq!(context.linked, vec![("app".to_string(), Linkage::Dynamic)]);

    let round_tripped_package = MastPackage::read_from_bytes(&package.to_bytes())
        .expect("serialized executable package should round-trip");
    let round_tripped_program = round_tripped_package
        .try_into_program()
        .expect("executable package conversion should preserve kernel information");

    assert_eq!(round_tripped_program.kernel(), &expected_kernel);
}

#[test]
fn executable_packages_preserve_transitive_kernel_when_converted_back_to_program() {
    let mut context = Context::new();
    let (root_manifest, kernel_manifest, _) =
        write_transitive_kernel_program_project(&mut context);

    let kernel_package = context
        .assemble_library_package(kernel_manifest, None)
        .expect("kernel package build should succeed");
    let expected_kernel = kernel_package
        .try_into_kernel_library()
        .expect("kernel package should round-trip as a kernel library")
        .kernel()
        .clone();
    let package = context
        .assemble_executable_package(root_manifest, "main")
        .expect("executable package build should succeed");
    let kernel_dependency = kernel_dependency(&package)
        .expect("executable package should record the transitive kernel runtime dependency");
    let embedded_kernel_package = embedded_kernel(&package)
        .expect("executable package should embed the transitive kernel package");
    assert_eq!(embedded_kernel_package.kind, MastTargetType::Kernel);
    assert_eq!(embedded_kernel_package.name, kernel_dependency.name);
    assert_eq!(embedded_kernel_package.version, kernel_dependency.version);
    assert_eq!(embedded_kernel_package.digest(), kernel_dependency.digest);

    let round_tripped_package = MastPackage::read_from_bytes(&package.to_bytes())
        .expect("serialized executable package should round-trip");
    let round_tripped_program = round_tripped_package
        .try_into_program()
        .expect("executable package conversion should preserve transitive kernel information");

    assert_eq!(round_tripped_program.kernel(), &expected_kernel);
}

#[test]
fn library_packages_with_transitive_kernels_do_not_embed_kernel_sections() {
    let mut context = Context::new();
    let (_, _, mid_manifest) = write_transitive_kernel_program_project(&mut context);

    let package = context
        .assemble_library_package(mid_manifest, None)
        .expect("library package build should succeed");

    assert!(kernel_dependency(&package).is_some());
    assert!(!package.sections.iter().any(|section| section.id == SectionId::KERNEL));
}

#[test]
fn preassembled_libraries_prefer_store_kernel_over_embedded_copy() {
    let mut build_context = Context::new();
    let (_, kernel_manifest, mid_manifest) =
        write_transitive_kernel_program_project(&mut build_context);

    let kernel_package = build_context
        .assemble_library_package(kernel_manifest, None)
        .expect("kernel package build should succeed");
    let expected_kernel = kernel_package
        .try_into_kernel_library()
        .expect("kernel package should round-trip as a kernel library")
        .kernel()
        .clone();
    let mut mid_package = build_context
        .assemble_library_package(mid_manifest, None)
        .expect("mid package build should succeed");
    let mut mismatched_kernel_package = MastPackage::read_from_bytes(&kernel_package.to_bytes())
        .expect("kernel should deserialize");
    mismatched_kernel_package.version = "2.0.0".parse().unwrap();
    mid_package
        .sections
        .push(Section::new(SectionId::KERNEL, mismatched_kernel_package.to_bytes()));

    let mut context = Context::new();
    context.files.insert("/tmp/mid-embedded.masp".to_string(), mid_package.to_bytes());
    let root_manifest =
        write_preassembled_kernel_executable_project(&mut context, "/tmp/mid-embedded.masp");
    context.add_package(&kernel_package);

    let package = context
        .assemble_executable_package(root_manifest, "main")
        .expect("executable package build should prefer the store kernel");
    let embedded_kernel_package = embedded_kernel(&package)
        .expect("executable package should embed the store-provided kernel package");
    assert_eq!(embedded_kernel_package.version, kernel_package.version);
    assert_eq!(embedded_kernel_package.digest(), kernel_package.digest());

    let round_tripped_program = MastPackage::read_from_bytes(&package.to_bytes())
        .expect("serialized executable package should round-trip")
        .try_into_program()
        .expect("program reconstruction should use the store-provided kernel");
    assert_eq!(round_tripped_program.kernel(), &expected_kernel);
}

#[test]
fn preassembled_libraries_fall_back_to_embedded_kernel_when_store_is_missing() {
    let mut build_context = Context::new();
    let (_, kernel_manifest, mid_manifest) =
        write_transitive_kernel_program_project(&mut build_context);

    let kernel_package = build_context
        .assemble_library_package(kernel_manifest, None)
        .expect("kernel package build should succeed");
    let expected_kernel = kernel_package
        .try_into_kernel_library()
        .expect("kernel package should round-trip as a kernel library")
        .kernel()
        .clone();
    let mut mid_package = build_context
        .assemble_library_package(mid_manifest, None)
        .expect("mid package build should succeed");
    mid_package.sections.push(Section::new(SectionId::KERNEL, kernel_package.to_bytes()));

    let mut context = Context::new();
    context.files.insert("/tmp/mid-embedded.masp".to_string(), mid_package.to_bytes());
    let root_manifest =
        write_preassembled_kernel_executable_project(&mut context, "/tmp/mid-embedded.masp");
    let package = context
        .assemble_executable_package(root_manifest, "main")
        .expect("executable package build should fall back to the embedded kernel");
    let embedded_kernel_package = embedded_kernel(&package)
        .expect("executable package should embed the fallback kernel package");
    assert_eq!(embedded_kernel_package.version, kernel_package.version);
    assert_eq!(embedded_kernel_package.digest(), kernel_package.digest());

    let round_tripped_program = MastPackage::read_from_bytes(&package.to_bytes())
        .expect("serialized executable package should round-trip")
        .try_into_program()
        .expect("program reconstruction should use the embedded fallback kernel");
    assert_eq!(round_tripped_program.kernel(), &expected_kernel);
}

#[test]
fn preassembled_libraries_without_store_or_embedded_kernel_leave_runtime_kernel_to_caller() {
    let mut build_context = Context::new();
    let (_, _, mid_manifest) = write_transitive_kernel_program_project(&mut build_context);
    let mid_package = build_context
        .assemble_library_package(mid_manifest, None)
        .expect("mid package build should succeed");

    let mut context = Context::new();
    context.files.insert("/tmp/mid.masp".to_string(), mid_package.to_bytes());
    let root_manifest =
        write_preassembled_kernel_executable_project(&mut context, "/tmp/mid.masp");
    let package = context
        .assemble_executable_package(root_manifest, "main")
        .expect("executable package build should succeed without an available kernel artifact");

    assert!(kernel_dependency(&package).is_some());
    assert!(!package.sections.iter().any(|section| section.id == SectionId::KERNEL));

    let round_tripped_program = MastPackage::read_from_bytes(&package.to_bytes())
        .expect("serialized executable package should round-trip")
        .try_into_program()
        .expect("packages without a recoverable kernel should still convert to a program");
    assert!(round_tripped_program.kernel().is_empty());
}

#[test]
fn embedded_kernel_package_must_match_runtime_dependency() {
    let mut context = Context::new();
    let manifest_path = write_kernel_program_project(&mut context);

    let package = context
        .assemble_executable_package(manifest_path, "main")
        .expect("executable package build should succeed");
    let mut round_tripped_package = MastPackage::read_from_bytes(&package.to_bytes())
        .expect("serialized executable package should round-trip");
    let kernel_dependency = kernel_dependency(&round_tripped_package)
        .expect("executable package should record a kernel dependency");
    let embedded_kernel_section = round_tripped_package
        .sections
        .iter_mut()
        .find(|section| section.id == SectionId::KERNEL)
        .expect("executable package should embed a kernel package");
    let mut embedded_kernel_package =
        MastPackage::read_from_bytes(embedded_kernel_section.data.as_ref())
            .expect("embedded kernel package should deserialize");
    embedded_kernel_package.version = "2.0.0".parse().unwrap();
    embedded_kernel_section.data = embedded_kernel_package.to_bytes().into();

    let error = round_tripped_package
        .try_into_program()
        .expect_err("mismatched embedded kernel metadata should be rejected");
    let kernel_name = kernel_dependency.name.to_string();
    assert!(error.to_string().contains("does not match the embedded kernel package"));
    assert!(error.to_string().contains(&kernel_name));

    let read = Package::from_bytes(round_tripped_package.to_bytes()).unwrap();
    let error = miden_project_assembly::linking::embedded_kernel_package(&read)
        .expect_err("mismatched embedded kernel metadata should be rejected");
    assert!(error.contains("does not match the embedded kernel package"));
}

#[test]
fn executable_packages_without_embedded_kernel_section_fall_back_to_empty_kernel() {
    let mut context = Context::new();
    let manifest_path = write_kernel_program_project(&mut context);

    let package = context
        .assemble_executable_package(manifest_path, "main")
        .expect("executable package build should succeed");
    let mut round_tripped_package = MastPackage::read_from_bytes(&package.to_bytes())
        .expect("serialized executable package should round-trip");
    round_tripped_package.sections.retain(|section| section.id != SectionId::KERNEL);

    let round_tripped_program = round_tripped_package
        .try_into_program()
        .expect("packages without embedded kernels should still convert to a program");

    assert!(round_tripped_program.kernel().is_empty());
}

fn source_node(name: &str, dependencies: &[&str]) -> DependencyNode {
    DependencyNode {
        name: name.to_string(),
        version: SemVer::parse("1.0.0").unwrap(),
        dependencies: dependencies
            .iter()
            .map(|name| DependencyEdge {
                dependency: name.to_string(),
                linkage: Linkage::Dynamic,
            })
            .collect(),
        provenance: NodeProvenance::Real {
            origin: SourceOrigin::Root,
            manifest_path: path("/tmp/root/miden-project.toml"),
            in_workspace: false,
            has_library: true,
        },
    }
}

/// An assembler for the library `root` that depends on `dep`, which the graph finds as told.
fn assembler_with_dependency(
    context: &mut Context,
    provenance: NodeProvenance,
) -> ProjectAssembler {
    let root_manifest = write_path_dependency_project(context);
    let mut dep = source_node("dep", &[]);
    dep.provenance = provenance;
    let graph = DependencyGraph {
        root: "root".to_string(),
        nodes: vec![source_node("root", &["dep"]), dep],
    };
    ProjectAssembler::for_project(context.project(root_manifest).unwrap(), Arc::new(graph))
}

fn assemble_with_dependency(provenance: NodeProvenance, context: &mut Context) -> String {
    let assembler = assembler_with_dependency(context, provenance);
    let assembly = assembler.assemble(ProjectTargetSelector::Library, "dev").unwrap();
    context.run(&assembler, assembly).unwrap_err()
}

fn preassembled(file: &str, package: &MastPackage) -> NodeProvenance {
    NodeProvenance::Preassembled {
        path: path(file),
        selected: Version::parse(&format!("1.0.0#{}", package.digest())).unwrap(),
    }
}

#[test]
fn an_assembler_keeps_its_project_and_graph() {
    let mut context = Context::new();
    let assembler = assembler_with_dependency(&mut context, NodeProvenance::Virtual);
    assert_eq!(assembler.project().name, "root");
    assert_eq!(assembler.dependency_graph().root, "root");
    assert_eq!(assembler.dependency_graph().get("dep").unwrap().name, "dep");
    assert!(assembler.dependency_graph().get("other").is_none());
    assert_eq!(
        assembler.assemble(ProjectTargetSelector::Executable("x"), "dev").err().unwrap(),
        "project does not define an executable target named 'x'"
    );
}

#[test]
fn assemblies_refuse_unexpected_events() {
    let mut context = Context::new();
    let assembler = assembler_with_dependency(&mut context, NodeProvenance::Virtual);
    let mut assembly = assembler.assemble(ProjectTargetSelector::Library, "dev").unwrap();
    assert!(matches!(
        assembly.step(Event::Exact(true)),
        Action::Failed { message } if message == "unexpected event"
    ));
    // The assembly is over.
    assert!(matches!(
        assembly.step(Event::Proceed),
        Action::Failed { message } if message == "unexpected event"
    ));
    let mut assembly = assembler.assemble(ProjectTargetSelector::Library, "dev").unwrap();
    assert!(matches!(
        assembly.step(Event::Failed("no".to_string())),
        Action::Failed { message } if message == "no"
    ));
}

#[test]
fn unknown_profiles_are_refused() {
    let mut context = Context::new();
    let root_manifest = write_path_dependency_project(&mut context);
    assert_eq!(
        context.assemble_library_package(root_manifest, Some("fast")).unwrap_err(),
        "project 'root' does not define a 'fast' build profile"
    );
}

#[test]
fn dependencies_that_cannot_be_resolved() {
    let mut context = Context::new();
    assert_eq!(
        assemble_with_dependency(NodeProvenance::Virtual, &mut context),
        "package 'dep' is missing a manifest path"
    );
    let canonical = NodeProvenance::Real {
        origin: SourceOrigin::Path,
        manifest_path: path("/tmp/dep/miden-project.toml"),
        in_workspace: false,
        has_library: false,
    };
    assert_eq!(
        assemble_with_dependency(canonical, &mut context),
        "dependency 'dep' version '1.0.0' was not found in the package registry"
    );
    let digest = hash_string_to_word("dep");
    let selected = || Version::parse(&format!("1.0.0#{digest}")).unwrap();
    let registered = NodeProvenance::Registry { selected: selected() };
    assert!(assemble_with_dependency(registered, &mut context).contains("dep"));
    let file = || NodeProvenance::Preassembled {
        path: path("/tmp/dep.masp"),
        selected: selected(),
    };
    assert_eq!(
        assemble_with_dependency(file(), &mut context),
        "failed to read '/tmp/dep.masp'"
    );
    context.files.insert("/tmp/dep.masp".to_string(), vec![1, 2, 3]);
    assert!(assemble_with_dependency(file(), &mut context)
        .starts_with("failed to decode package '/tmp/dep.masp': "));

    let root_manifest = write_path_dependency_project(&mut context);
    let project = context.project(root_manifest).unwrap();
    let graph = DependencyGraph {
        root: "root".to_string(),
        nodes: vec![source_node("root", &["dep"])],
    };
    let assembler = ProjectAssembler::for_project(project, Arc::new(graph));
    let assembly = assembler.assemble(ProjectTargetSelector::Library, "dev").unwrap();
    assert_eq!(
        context.run(&assembler, assembly).unwrap_err(),
        "missing dependency graph node for 'dep'"
    );
}

#[test]
fn executables_cannot_be_linked() {
    let mut context = Context::new();
    let mut dep = context.assemble_library_package_with_export("exe", "1.0.0", "dep::foo", &[]);
    dep.kind = MastTargetType::Executable;
    context.files.insert("/tmp/dep.masp".to_string(), dep.to_bytes());
    assert_eq!(
        assemble_with_dependency(preassembled("/tmp/dep.masp", &dep), &mut context),
        "dependency 'dep' resolved to executable package 'exe', but only library-like packages \
         can be linked"
    );
    assert!(context.linked.is_empty());
}

#[test]
fn kernel_dependencies_have_to_be_kernels() {
    let mut context = Context::new();
    let other = context.assemble_library_package_with_export("k", "1.0.0", "k::foo", &[]);
    context.add_package(&other);
    let dep = context.assemble_library_package_with_export(
        "dep",
        "1.0.0",
        "dep::foo",
        &[("k", "1.0.0", MastTargetType::Kernel, other.digest())],
    );
    context.files.insert("/tmp/dep.masp".to_string(), dep.to_bytes());
    assert_eq!(
        assemble_with_dependency(preassembled("/tmp/dep.masp", &dep), &mut context),
        format!(
            "runtime kernel dependency 'k@1.0.0#{}' resolved to non-kernel package 'k'",
            other.digest()
        )
    );
}

#[test]
fn registered_packages_without_provenance_are_not_reused() {
    let mut context = Context::new();
    let root_manifest = write_path_dependency_project(&mut context);
    let dep = context.assemble_library_package_with_export("dep", "1.0.0", "dep::foo", &[]);
    context.add_package(&dep);
    assert_eq!(
        context.assemble_library_package(root_manifest, None).unwrap_err(),
        "package 'dep' version '1.0.0' is already registered, but the canonical artifact is \
         missing source provenance; bump the semantic version"
    );
}

#[test]
fn registered_packages_with_damaged_provenance_are_not_reused() {
    let mut context = Context::new();
    let root_manifest = write_path_dependency_project(&mut context);
    let mut dep = context.assemble_library_package_with_export("dep", "1.0.0", "dep::foo", &[]);
    dep.sections.push(Section::new(
        "project_source_provenance".parse::<SectionId>().unwrap(),
        vec![9],
    ));
    context.add_package(&dep);
    let error = context.assemble_library_package(root_manifest, None).unwrap_err();
    assert!(error.contains("provenance"), "{error}");
}

#[test]
fn packages_record_where_they_come_from() {
    let mut context = Context::new();
    let root_manifest = write_path_dependency_project(&mut context);
    let package = context.assemble_library_package(root_manifest, None).unwrap();
    let package = Package::from_bytes(package.to_bytes()).unwrap();
    let recorded = PackageBuildProvenance::from_package(&package).unwrap().unwrap();
    assert!(recorded.describe().starts_with("path("), "{}", recorded.describe());
}

#[test]
fn an_executable_fails_as_its_library_does() {
    let mut context = Context::new();
    let manifest_path = write_kernel_program_project(&mut context);
    context.files.remove("/tmp/kernel.masm");
    let alone = context.assemble_library_package(manifest_path, Some("dev")).unwrap_err();
    let whole = context.assemble_executable_package(manifest_path, "main").unwrap_err();
    assert_eq!(whole, alone);
    assert!(context.linked.is_empty());
}

#[test]
fn a_library_is_linked_as_it_is_assembled_alone() {
    let mut context = Context::new();
    let manifest_path = write_kernel_program_project(&mut context);
    let library = context.assemble_library_package(manifest_path, Some("dev")).unwrap();
    assert!(context.linked.is_empty());
    let package = context.assemble_executable_package(manifest_path, "main").unwrap();
    assert_eq!(context.linked, vec![("app".to_string(), Linkage::Dynamic)]);
    assert_eq!(&package.name, "app:main");
    let kernel = kernel_dependency(&package).unwrap();
    assert_eq!((kernel.name, kernel.digest), (library.name.clone(), library.digest()));
}

#[test]
fn what_a_second_resolution_loads_was_published_by_the_first() {
    let mut context = Context::new();
    let root_manifest = write_path_dependency_project(&mut context);
    context.assemble_library_package(root_manifest, None).unwrap();
    assert_eq!(context.artifacts.len(), 1);
    let (file, bytes) = context.artifacts.iter().next().unwrap();
    let (file, bytes) = (file.clone(), bytes.clone());
    let published = Package::from_bytes(bytes.clone()).unwrap();
    context.settings.clear();
    context.assemble_library_package(root_manifest, None).unwrap();
    // Only the root is assembled again, and nothing is published.
    assert_eq!(context.settings.len(), 1);
    assert_eq!(context.artifacts.get(&file), Some(&bytes));
    assert_eq!(context.artifacts.len(), 1);
    let version = published.exact_version();
    let contents = ArtifactFile::Contents(bytes);
    let loaded = context.registry.load_package("dep", &version, contents).unwrap();
    assert_eq!(loaded.exact_version(), version);
}

#[test]
fn embedded_kernels_are_held_against_the_package() {
    let mut context = Context::new();
    let manifest_path = write_kernel_program_project(&mut context);
    let package = context.assemble_executable_package(manifest_path, "main").unwrap();
    let kernel_of = |package: &MastPackage| {
        let read = Package::from_bytes(package.to_bytes()).unwrap();
        miden_project_assembly::linking::embedded_kernel_package(&read)
    };
    let embedded = kernel_of(&package).unwrap().unwrap();
    assert_eq!(embedded.kind(), TargetType::Kernel);
    assert_eq!(embedded.name(), "app");

    let mut twice = package.clone();
    twice.sections.push(package.sections.last().unwrap().clone());
    assert_eq!(
        kernel_of(&twice).unwrap_err(),
        "package 'app:main' contains multiple 'kernel' sections"
    );
    let position = package.sections.iter().position(|s| s.id == SectionId::KERNEL).unwrap();
    let mut damaged = package.clone();
    damaged.sections[position].data = Vec::new().into();
    assert_eq!(
        kernel_of(&damaged).unwrap_err(),
        "failed to decode embedded kernel package for 'app:main': unexpected end of file"
    );
    let mut other = package.clone();
    let mut library = embedded_kernel(&package).unwrap();
    library.kind = MastTargetType::Library;
    other.sections[position].data = library.to_bytes().into();
    assert_eq!(
        kernel_of(&other).unwrap_err(),
        "package 'app:main' embeds 'app', but its kind is 'library'"
    );
    let mut undeclared = package.clone();
    undeclared.manifest = MastPackage::read_from_bytes(&library.to_bytes()).unwrap().manifest;
    assert_eq!(
        kernel_of(&undeclared).unwrap_err(),
        "package 'app:main' embeds a kernel package, but does not declare a kernel runtime dependency"
    );
}

#[test]
fn a_shared_dependency_is_assembled_once() {
    let mut context = Context::new();
    let root_manifest = write_path_dependency_project(&mut context);
    context.write_file(
        "/tmp/mid/miden-project.toml",
        r#"[package]
name = "mid"
version = "1.0.0"

[lib]
path = "lib.masm"

[dependencies]
dep = { path = "../dep" }
"#,
    );
    context.write_file("/tmp/mid/lib.masm", "pub proc bar\n    exec.::dep::foo\nend\n");
    context.write_file(
        root_manifest,
        r#"[package]
name = "root"
version = "1.0.0"

[lib]
path = "lib.masm"

[dependencies]
mid = { path = "../mid" }
dep = { path = "../dep" }
"#,
    );
    let package = context.assemble_library_package(root_manifest, None).unwrap();
    let names: Vec<String> =
        package.manifest.dependencies().map(|dep| dep.name.to_string()).collect();
    assert_eq!(names, vec!["dep", "mid"]);
    // One assembler each for the dependency, the package between, and the root.
    assert_eq!(context.settings.len(), 3);
    assert!(context.loaded.is_empty());
}

#[test]
fn packages_record_exactly_what_was_linked() {
    let mut context = Context::new();
    let need = |name: &'static str| {
        (name, "1.0.0", MastTargetType::Library, hash_string_to_word(name))
    };
    for (name, needs) in [
        ("loaded", vec![need("below_loaded"), need("shared")]),
        ("copied", vec![need("below_copied"), need("shared")]),
    ] {
        let package = context.assemble_library_package_with_export(
            name,
            "1.0.0",
            &format!("deps::{name}::leaf"),
            &needs,
        );
        context.files.insert(format!("/tmp/{name}.masp"), package.to_bytes());
    }
    context.write_file(
        "/tmp/root/miden-project.toml",
        r#"[package]
name = "root"
version = "1.0.0"

[lib]
path = "lib.masm"

[dependencies]
loaded = { path = "../loaded.masp" }
copied = { path = "../copied.masp", linkage = "static" }
"#,
    );
    context.write_file("/tmp/root/lib.masm", "pub proc entry\n    push.1\nend\n");
    let package = context.assemble_library_package("/tmp/root/miden-project.toml", None).unwrap();
    let mut linked = context.linked.clone();
    linked.sort_by(|a, b| a.0.cmp(&b.0));
    assert_eq!(
        linked,
        vec![
            ("copied".to_string(), Linkage::Static),
            ("loaded".to_string(), Linkage::Dynamic)
        ]
    );
    let names: Vec<String> =
        package.manifest.dependencies().map(|dependency| dependency.name.to_string()).collect();
    assert_eq!(names, vec!["below_copied", "below_loaded", "loaded", "shared"]);
}
