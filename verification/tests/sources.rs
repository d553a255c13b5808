use std::path::Path;
use std::sync::Arc;

use miden_core::utils::hash_string_to_word;
use miden_project_assembly::closure::{LoadedProject, ProvenanceContext, Snapshot};
use miden_project_assembly::files::FilePath;
use miden_project_assembly::graph::{
    DependencyEdge, DependencyGraph, DependencyNode, NodeProvenance, SourceOrigin,
};
use miden_project_assembly::linking::Linkage;
use miden_project_assembly::package::TargetType;
use miden_project_assembly::project::{
    effective_manifest_hash_input, project_manifest_path, resolve_profile, select_target,
    target_package_name, target_root_module_kind, ModuleKind, Profile, ProjectDependency,
    ProjectPackage, ProjectTargetSelector, Target, TargetSource,
};
use miden_project_assembly::provenance::{PackageBuildProvenance, PackageBuildSettings};
use miden_project_assembly::source_hash::{
    compute_path_source_hash, source_hash_inputs, ReadFile,
};
use miden_project_assembly::sources::{
    excluded_target_roots, load_target_sources, locate_target_root, module_path_from_relative,
    read_support_module_paths, resolve_target_source_paths, ListedFile, Listing,
};
use miden_project_assembly::text;
use miden_project_assembly::version::{SemVer, Version};
use miden_project_assembly::word::Word;

fn path(text: &str) -> FilePath {
    FilePath { bytes: text.as_bytes().to_vec() }
}

fn word(material: &str) -> Word {
    Word::from_bytes(hash_string_to_word(material).as_bytes()).unwrap()
}

fn target(ty: TargetType, name: &str, file: Option<&str>) -> Arc<Target> {
    Arc::new(Target {
        ty,
        name: name.to_string(),
        namespace: format!("::{name}"),
        source: file.map(|file| TargetSource {
            location: file.to_string(),
            resolved: Ok(path(file)),
        }),
    })
}

fn profile(name: &str, emit_debug_info: bool, trim_paths: bool) -> Profile {
    Profile { name: name.to_string(), emit_debug_info, trim_paths }
}

/// A project in `/p` with the library `lib` and the executable `run`.
fn project() -> ProjectPackage {
    ProjectPackage {
        name: "proj".to_string(),
        version: SemVer::parse("1.0.0").unwrap(),
        description: None,
        manifest_path: Some(path("/p/miden-project.toml")),
        library: Some(target(TargetType::Library, "lib", Some("/p/src/lib.masm"))),
        executables: vec![
            target(TargetType::Executable, "run", Some("/p/src/run.masm")),
            target(TargetType::Executable, "generated", None),
        ],
        profiles: vec![profile("dev", true, false), profile("release", false, true)],
        dependencies: Vec::new(),
        effective_manifest: Ok("effective".to_string()),
    }
}

fn listing(files: &[&str]) -> Listing {
    Ok(files
        .iter()
        .map(|file| ListedFile { path: path(file), canonical: Ok(path(file)) })
        .collect())
}

fn files(files: &[(&str, &str)]) -> Vec<ReadFile> {
    files
        .iter()
        .map(|(file, text)| ReadFile { path: path(file), contents: Ok(text.as_bytes().to_vec()) })
        .collect()
}

fn displayed(paths: &[FilePath]) -> Vec<String> {
    paths.iter().map(|path| path.display()).collect()
}

#[test]
fn paths_are_taken_apart() {
    let file = path("/a/b/c.masm");
    assert_eq!(file.display(), "/a/b/c.masm");
    assert_eq!(file.parent().unwrap().display(), "/a/b");
    assert_eq!(path("/").display(), "/");
    assert!(path("/").parent().is_none());
    assert!(path("").parent().is_none());
    assert_eq!(path("a").parent().unwrap().display(), "");
    assert_eq!(file.strip_prefix(&path("/a")).unwrap().display(), "b/c.masm");
    assert!(file.strip_prefix(&path("/a/c")).is_none());
    assert!(file.strip_prefix(&path("a")).is_none());
    assert_eq!(path("/a").joined(b"b").display(), "/a/b");
    assert!(file.same(&path("/a/b/c.masm")));
    assert!(!file.same(&path("a/b/c.masm")));
    assert!(file.has_extension(b"masm"));
    assert!(!file.has_extension(b"asm"));
    assert!(!path("/a/.masm").has_extension(b"masm"));
    assert!(path("/a/..masm").has_extension(b"masm"));
    assert!(!path("/a/masm").has_extension(b"masm"));
    let stem = |text: &str| path(text).strip_extension().join(&b'|');
    assert_eq!(stem("/a/b.tar.gz"), b"/|a|b.tar");
    assert_eq!(stem("/a/.b"), b"/|a|.b");
    let odd = FilePath { bytes: b"/\xffa".to_vec() };
    assert_eq!(odd.display(), "/\u{fffd}a");
}

/// All texts of at most `len` of the characters `/`, `.` and `a`.
fn spellings(len: usize) -> Vec<String> {
    let mut all = vec![String::new()];
    let mut last = all.clone();
    for _ in 0..len {
        last = last
            .iter()
            .flat_map(|text| ['/', '.', 'a'].iter().map(move |c| format!("{text}{c}")))
            .collect();
        all.extend(last.iter().cloned());
    }
    all
}

#[test]
fn paths_are_read_as_those_of_the_standard_library() {
    for text in spellings(6) {
        let (ours, theirs) = (path(&text), Path::new(&text));
        let components: Vec<String> = ours
            .components()
            .into_iter()
            .map(|component| String::from_utf8(component).unwrap())
            .collect();
        let expected: Vec<&str> = theirs.iter().map(|part| part.to_str().unwrap()).collect();
        assert_eq!(components, expected, "{text}");
        assert_eq!(ours.display(), theirs.display().to_string());
        assert_eq!(
            ours.parent().map(|parent| parent.display()),
            theirs.parent().map(|parent| parent.display().to_string()),
            "{text}"
        );
        for extension in ["a", "", "aa"] {
            assert_eq!(
                ours.has_extension(extension.as_bytes()),
                theirs.extension().is_some_and(|e| e.to_str() == Some(extension)),
                "{text}"
            );
        }
        let stem = theirs.with_extension("");
        let stem: Vec<Vec<u8>> =
            stem.iter().map(|part| part.to_str().unwrap().as_bytes().to_vec()).collect();
        assert_eq!(ours.strip_extension(), stem, "{text}");
    }
    for a in spellings(4) {
        for b in spellings(4) {
            let (ours, theirs) = (path(&a), Path::new(&a));
            assert_eq!(ours.same(&path(&b)), theirs == Path::new(&b), "{a} {b}");
            assert_eq!(ours == path(&b), theirs == Path::new(&b), "{a} {b}");
            assert_eq!(ours.less(&path(&b)), theirs < Path::new(&b), "{a} {b}");
            assert_eq!(
                ours.joined(b.as_bytes()).display(),
                theirs.join(&b).display().to_string(),
                "{a} {b}"
            );
            assert_eq!(
                ours.strip_prefix(&path(&b)).map(|rest| rest.display()),
                theirs.strip_prefix(&b).ok().map(|rest| rest.display().to_string()),
                "{a} {b}"
            );
        }
    }
}

#[test]
fn paths_are_shown_as_they_were_written() {
    let file = path("/a//b/./c.masm");
    assert_eq!(file.display(), "/a//b/./c.masm");
    assert_eq!(file.parent().unwrap().display(), "/a//b");
    assert_eq!(file.parent().unwrap().parent().unwrap().display(), "/a");
    assert!(file.same(&path("/a/b/c.masm")));
    assert_eq!(file.strip_prefix(&path("/a/")).unwrap().display(), "b/./c.masm");
    assert_eq!(path("/a//").joined(b"b").display(), "/a//b");
    assert_eq!(path("./a").components(), [b".".to_vec(), b"a".to_vec()]);
    assert_eq!(path("a/./").components(), [b"a".to_vec()]);
    // A file that is spelled in another way than the root of a target is the root.
    let project = ProjectPackage { manifest_path: Some(path("/p//miden-project.toml")), ..project() };
    let library = project.library.clone().unwrap();
    let spelled = Ok(vec![ListedFile {
        path: path("/p/src/lib.masm"),
        canonical: Ok(path("/p//src/lib.masm")),
    }]);
    let sources = resolve_target_source_paths(&project, &library, &spelled).unwrap();
    assert!(sources.support.is_empty());
    let inputs = source_hash_inputs(
        &project,
        &library,
        &path("/p//./miden-project.toml"),
        false,
        &listing(&["/p/src/lib.masm"]),
    )
    .unwrap();
    let labels: Vec<&str> = inputs.iter().map(|input| input.label.as_str()).collect();
    assert_eq!(labels, ["root:src/lib.masm", "manifest:miden-project.toml"]);
}

#[test]
fn paths_are_ordered_by_their_components() {
    // A directory comes before the files behind it, though `/` comes after `-` and `.`.
    assert!(path("/a/b").less(&path("/a-b")));
    assert!(path("/a").less(&path("/a/b")));
    assert!(!path("/a/b").less(&path("/a")));
    assert!(path("/b").less(&path("a")));
    assert!(path("../a").less(&path("a")));
    assert!(!path("/a").less(&path("/a")));
}

#[test]
fn texts_are_ordered_by_their_bytes() {
    assert!(text::text_less("a", "b"));
    assert!(text::text_less("a", "aa"));
    assert!(text::text_less("B", "a"));
    assert!(!text::text_less("a", "a"));
    assert!(text::text_less("z", "\u{e9}"));
    assert!(text::same_text("a\u{e9}", "a\u{e9}"));
    assert!(!text::same_text("a", "b"));
    assert!(text::bytes_less(&[1, 255], &[2]));
    assert!(!text::same_bytes(&[1], &[1, 2]));
    assert!(text::is_blank(" \t\n\u{2003}"));
    assert!(text::is_blank(""));
    assert!(!text::is_blank(" a "));
    assert_eq!((text::bool_str(true), text::bool_str(false)), ("true", "false"));
}

#[test]
fn modules_are_named_after_their_files() {
    let named = |relative: &str| module_path_from_relative("::ns", &path(relative));
    assert_eq!(named("a.masm").unwrap(), "::ns::a");
    assert_eq!(named("a/b/c.masm").unwrap(), "::ns::a::b::c");
    assert_eq!(named("a/mod.masm").unwrap(), "::ns::a");
    assert_eq!(named("mod.masm").unwrap(), "::ns");
    assert_eq!(named("mod/a.masm").unwrap(), "::ns::mod::a");
    assert!(named("a b/\"c.masm").is_err());
    let odd = FilePath { bytes: b"\xff/a.masm".to_vec() };
    assert_eq!(
        module_path_from_relative("::ns", &odd).unwrap_err(),
        "module path '\u{fffd}/a.masm' contains invalid UTF-8"
    );
}

#[test]
fn targets_are_selected() {
    let project = project();
    let library = select_target(&project, ProjectTargetSelector::Library).unwrap();
    assert_eq!(library.name, "lib");
    let run = select_target(&project, ProjectTargetSelector::Executable("run")).unwrap();
    assert_eq!(target_package_name(&project, &run), "proj:run");
    assert_eq!(target_package_name(&project, &library), "proj");
    assert_eq!(
        select_target(&project, ProjectTargetSelector::Executable("lib")).unwrap_err(),
        "project does not define an executable target named 'lib'"
    );
    let project = ProjectPackage { library: None, ..project };
    assert_eq!(
        select_target(&project, ProjectTargetSelector::Library).unwrap_err(),
        "project does not define a library target"
    );
}

#[test]
fn root_modules_have_the_kind_of_the_target() {
    assert_eq!(target_root_module_kind(TargetType::Executable), ModuleKind::Executable);
    assert_eq!(target_root_module_kind(TargetType::Kernel), ModuleKind::Kernel);
    assert_eq!(target_root_module_kind(TargetType::Library), ModuleKind::Library);
    assert_eq!(target_root_module_kind(TargetType::Note), ModuleKind::Library);
}

#[test]
fn profiles_are_resolved() {
    let project = project();
    let release = resolve_profile(&project, "release").unwrap();
    let settings = PackageBuildSettings::from_profile(release);
    assert!(!settings.emit_debug_info && settings.trim_paths);
    assert_eq!(
        resolve_profile(&project, "fast").unwrap_err(),
        "project 'proj' does not define a 'fast' build profile"
    );
}

#[test]
fn roots_of_targets_are_located() {
    let project = project();
    let library = project.library.clone().unwrap();
    let (root, directory) = locate_target_root(&project, &library).unwrap();
    assert_eq!((root.display(), directory.display()), ("/p/src/lib.masm".into(), "/p/src".into()));
    assert_eq!(
        locate_target_root(&project, &project.executables[1]).unwrap_err(),
        "target 'generated' does not define a source path; use assemble_with_sources instead"
    );
    let lost = Target {
        source: Some(TargetSource {
            location: "lib.masm".to_string(),
            resolved: Err("gone".to_string()),
        }),
        ..Arc::into_inner(target(TargetType::Library, "lib", None)).unwrap()
    };
    assert_eq!(
        locate_target_root(&project, &lost).unwrap_err(),
        "failed to resolve target source 'lib.masm': gone"
    );
    let at_root = target(TargetType::Library, "lib", Some("/"));
    assert_eq!(
        locate_target_root(&project, &at_root).unwrap_err(),
        "target source '/' has no parent directory"
    );
    let project = ProjectPackage { manifest_path: Some(path("/")), ..project };
    assert_eq!(
        locate_target_root(&project, &library).unwrap_err(),
        "manifest '/' has no parent directory"
    );
    let project = ProjectPackage { manifest_path: None, ..project };
    assert_eq!(
        project_manifest_path(&project).unwrap_err(),
        "project 'proj' is missing its manifest path"
    );
    assert_eq!(
        locate_target_root(&project, &library).unwrap_err(),
        "project 'proj' is missing its manifest path"
    );
}

#[test]
fn roots_of_other_targets_are_excluded() {
    let project = project();
    let library = project.library.clone().unwrap();
    let excluded = excluded_target_roots(&project, &library, &path("/p/src/lib.masm")).unwrap();
    assert_eq!(displayed(&excluded), vec!["/p/src/run.masm"]);
    // The library is a support module of an executable.
    let run = Arc::clone(&project.executables[0]);
    let excluded = excluded_target_roots(&project, &run, &path("/p/src/run.masm")).unwrap();
    assert!(excluded.is_empty());
}

#[test]
fn support_modules_are_found() {
    let project = project();
    let library = project.library.clone().unwrap();
    let found = listing(&[
        "/p/src/z.masm",
        "/p/src/lib.masm",
        "/p/src/notes.txt",
        "/p/src/a/mod.masm",
        "/p/src/run.masm",
        "/p/src/a.masm",
    ]);
    let paths = resolve_target_source_paths(&project, &library, &found).unwrap();
    assert_eq!(paths.root.display(), "/p/src/lib.masm");
    assert_eq!(paths.root_dir.display(), "/p/src");
    assert_eq!(
        displayed(&paths.support),
        vec!["/p/src/a/mod.masm", "/p/src/a.masm", "/p/src/z.masm"]
    );
    let modules = load_target_sources(&project, &library, &found).unwrap();
    assert_eq!(modules.root.path, "::lib");
    let names: Vec<&str> = modules.support.iter().map(|module| module.path.as_str()).collect();
    assert_eq!(names, vec!["::lib::a", "::lib::a", "::lib::z"]);
    assert!(modules.support.iter().all(|module| module.kind == ModuleKind::Library));

    let run = Arc::clone(&project.executables[0]);
    let modules = load_target_sources(&project, &run, &found).unwrap();
    assert_eq!(modules.root.kind, ModuleKind::Executable);
    assert_eq!(modules.support.len(), 4);
}

#[test]
fn support_modules_that_cannot_be_used() {
    let read = |listing: &Listing| {
        read_support_module_paths(&path("/p/src"), "::lib", &Vec::new(), listing)
    };
    assert_eq!(read(&Err("denied".to_string())).unwrap_err(), "denied");
    let lost = ListedFile { path: path("/p/src/a.masm"), canonical: Err("gone".to_string()) };
    assert_eq!(
        read(&Ok(vec![lost])).unwrap_err(),
        "failed to resolve '/p/src/a.masm': gone"
    );
    let linked =
        ListedFile { path: path("/p/src/a.masm"), canonical: Ok(path("/elsewhere/a.masm")) };
    assert_eq!(
        read(&Ok(vec![linked])).unwrap_err(),
        "failed to derive module path for '/elsewhere/a.masm': prefix not found"
    );
    assert!(read(&listing(&["/p/src/\"a.masm"])).is_err());
    assert!(read(&listing(&["/p/src/\"a.txt"])).unwrap().is_empty());
}

#[test]
fn source_hash_of_a_project() {
    let project = project();
    let library = project.library.clone().unwrap();
    let manifest = path("/p/miden-project.toml");
    let found = listing(&["/p/src/lib.masm", "/p/src/z.masm", "/p/src/a.masm"]);
    let inputs = source_hash_inputs(&project, &library, &manifest, false, &found).unwrap();
    let labels: Vec<&str> = inputs.iter().map(|input| input.label.as_str()).collect();
    assert_eq!(
        labels,
        vec![
            "root:src/lib.masm",
            "support:src/a.masm",
            "support:src/z.masm",
            "manifest:miden-project.toml"
        ]
    );
    let mut read = files(&[
        ("/p/src/lib.masm", "LIB"),
        ("/p/miden-project.toml", "TOML"),
        ("/p/src/a.masm", "A"),
    ]);
    read.push(ReadFile { path: path("/p/src/z.masm"), contents: Ok(vec![b'Z', 0xff]) });
    let expected = word(&concat(&[
        "target:lib\nkind:library\nnamespace:::lib\n",
        "root:src/lib.masm\nLIB\nsupport:src/a.masm\nA\nsupport:src/z.masm\nZ\u{fffd}\n",
        "manifest:miden-project.toml\nTOML\n",
    ]));
    let hash = compute_path_source_hash(&project, &library, &manifest, false, &found, &read);
    assert!(hash.unwrap() == expected);

    // The order in which a directory is listed does not matter.
    let other = listing(&["/p/src/a.masm", "/p/src/z.masm", "/p/src/lib.masm"]);
    let hash = compute_path_source_hash(&project, &library, &manifest, false, &other, &read);
    assert!(hash.unwrap() == expected);

    let _ = read.pop();
    assert_eq!(
        compute_path_source_hash(&project, &library, &manifest, false, &found, &read).unwrap_err(),
        "failed to read source input '/p/src/z.masm': file was not read"
    );
    assert_eq!(
        compute_path_source_hash(&project, &library, &path("/"), false, &found, &read)
            .unwrap_err(),
        "manifest '/' has no parent directory"
    );
}

fn concat(parts: &[&str]) -> String {
    parts.concat()
}

#[test]
fn source_hash_of_a_member_of_a_workspace() {
    let project = project();
    let library = project.library.clone().unwrap();
    let manifest = path("/p/miden-project.toml");
    let found = listing(&["/p/src/lib.masm"]);
    let read = files(&[("/p/src/lib.masm", "LIB")]);
    let expected = word(&concat(&[
        "target:lib\nkind:library\nnamespace:::lib\n",
        "manifest:effective\neffective\n",
        "root:src/lib.masm\nLIB\n",
    ]));
    let hash = compute_path_source_hash(&project, &library, &manifest, true, &found, &read);
    assert!(hash.unwrap() == expected);

    let project = ProjectPackage { effective_manifest: Err("bad".to_string()), ..project };
    let hash = compute_path_source_hash(&project, &library, &manifest, true, &found, &read);
    assert_eq!(hash.unwrap_err(), "bad");
}

#[test]
fn effective_manifests_name_the_members_of_the_workspace() {
    let dependency = |name: &str, linkage: Linkage, path: Option<&str>| ProjectDependency {
        name: name.to_string(),
        linkage,
        workspace_path: path.map(|path| path.to_string()),
    };
    let plain = project();
    assert_eq!(effective_manifest_hash_input(&plain).unwrap(), "effective");
    let project = ProjectPackage {
        dependencies: vec![
            dependency("b", Linkage::Static, Some("../b")),
            dependency("registered", Linkage::Dynamic, None),
            dependency("a", Linkage::Dynamic, Some("a")),
        ],
        ..plain
    };
    assert_eq!(
        effective_manifest_hash_input(&project).unwrap(),
        "effective\n# resolved_workspace_dependencies\na=a:dynamic\nb=../b:static\n"
    );
}

fn edge(dependency: &str, linkage: Linkage) -> DependencyEdge {
    DependencyEdge { dependency: dependency.to_string(), linkage }
}

fn node(
    name: &str,
    dependencies: Vec<DependencyEdge>,
    provenance: NodeProvenance,
) -> DependencyNode {
    DependencyNode {
        name: name.to_string(),
        version: SemVer::parse("1.0.0").unwrap(),
        dependencies,
        provenance,
    }
}

fn on_disk(origin: SourceOrigin, has_library: bool) -> NodeProvenance {
    NodeProvenance::Real {
        origin,
        manifest_path: path("/p/miden-project.toml"),
        in_workspace: false,
        has_library,
    }
}

fn snapshot() -> Snapshot {
    Snapshot {
        projects: vec![
            LoadedProject {
                name: "source".to_string(),
                project: Ok(Arc::new(project())),
                listing: listing(&["/p/src/lib.masm"]),
            },
            LoadedProject {
                name: "bare".to_string(),
                project: Ok(Arc::new(ProjectPackage { library: None, ..project() })),
                listing: listing(&[]),
            },
            LoadedProject {
                name: "broken".to_string(),
                project: Err("no manifest".to_string()),
                listing: listing(&[]),
            },
        ],
        files: files(&[("/p/src/lib.masm", "LIB"), ("/p/miden-project.toml", "TOML")]),
    }
}

fn closure_hash(nodes: Vec<DependencyNode>, name: &str) -> Result<Word, String> {
    let graph = DependencyGraph { root: "root".to_string(), nodes };
    let snapshot = snapshot();
    let context = ProvenanceContext { graph: &graph, snapshot: &snapshot, profile: "dev" };
    context.compute_dependency_closure_hash(name, &Vec::new())
}

#[test]
fn closure_hash_covers_every_kind_of_dependency() {
    let digest = hash_string_to_word("digest");
    let selected = || Version::parse(&format!("2.0.0#{digest}")).unwrap();
    let git = || SourceOrigin::Git { repo: "repo".into(), resolved_revision: "rev".into() };
    let edges = || vec![
        edge("source", Linkage::Static),
        edge("registered", Linkage::Dynamic),
        edge("pre", Linkage::Dynamic),
        edge("canonical", Linkage::Dynamic),
        edge("virtual", Linkage::Dynamic),
    ];
    let nodes = |dependencies: Vec<DependencyEdge>| vec![
        node("root", dependencies, on_disk(SourceOrigin::Root, true)),
        node("source", Vec::new(), on_disk(git(), true)),
        node("registered", Vec::new(), NodeProvenance::Registry { selected: selected() }),
        node(
            "pre",
            Vec::new(),
            NodeProvenance::Preassembled { path: path("/pre.masp"), selected: selected() },
        ),
        node("canonical", Vec::new(), on_disk(SourceOrigin::Path, false)),
        node("virtual", Vec::new(), NodeProvenance::Virtual),
    ];
    let source = PackageBuildProvenance::Git {
        repo: "repo".to_string(),
        resolved_revision: "rev".to_string(),
        dependency_hash: PackageBuildProvenance::empty_dependency_hash(),
        build_settings: PackageBuildSettings { emit_debug_info: true, trim_paths: false },
    };
    let material = format!(
        "dependency:canonical:dynamic\ncanonical:canonical@1.0.0\n\
         dependency:pre:dynamic\npreassembled:pre@2.0.0#{digest}\n\
         dependency:registered:dynamic\nregistry:registered@2.0.0#{digest}\n\
         dependency:source:static\nsource:source:{}\n\
         dependency:virtual:dynamic\ncanonical:virtual@1.0.0\n",
        source.describe()
    );
    assert!(closure_hash(nodes(edges()), "root").unwrap() == word(&material));
    let mut reversed = edges();
    reversed.reverse();
    assert!(closure_hash(nodes(reversed), "root").unwrap() == word(&material));
    assert!(
        closure_hash(nodes(edges()), "pre").unwrap()
            == PackageBuildProvenance::empty_dependency_hash()
    );
}

#[test]
fn closure_hash_forgets_the_order_of_dependencies_below() {
    let digest = hash_string_to_word("digest");
    let selected = || Version::parse(&format!("2.0.0#{digest}")).unwrap();
    let git = || SourceOrigin::Git { repo: "repo".into(), resolved_revision: "rev".into() };
    let hash = |below: Vec<DependencyEdge>| {
        let nodes = vec![
            node("root", vec![edge("source", Linkage::Static)], on_disk(SourceOrigin::Root, true)),
            node("source", below, on_disk(git(), true)),
            node("a", Vec::new(), NodeProvenance::Registry { selected: selected() }),
            node("b", Vec::new(), NodeProvenance::Registry { selected: selected() }),
        ];
        closure_hash(nodes, "root").unwrap()
    };
    let both = hash(vec![edge("a", Linkage::Dynamic), edge("b", Linkage::Static)]);
    assert!(both == hash(vec![edge("b", Linkage::Static), edge("a", Linkage::Dynamic)]));
    assert!(both != hash(vec![edge("a", Linkage::Static), edge("b", Linkage::Static)]));
    assert!(both != hash(vec![edge("a", Linkage::Dynamic)]));
}

#[test]
fn closure_hash_of_a_project_on_disk() {
    let nodes = vec![
        node("root", vec![edge("source", Linkage::Dynamic)], NodeProvenance::Virtual),
        node("source", Vec::new(), on_disk(SourceOrigin::Path, true)),
    ];
    let source = PackageBuildProvenance::Path {
        source_hash: word(
            "target:lib\nkind:library\nnamespace:::lib\nroot:src/lib.masm\nLIB\n\
             manifest:miden-project.toml\nTOML\n",
        ),
        dependency_hash: PackageBuildProvenance::empty_dependency_hash(),
        build_settings: PackageBuildSettings { emit_debug_info: true, trim_paths: false },
    };
    let material = format!("dependency:source:dynamic\nsource:source:{}\n", source.describe());
    assert!(closure_hash(nodes, "root").unwrap() == word(&material));
}

#[test]
fn closure_hash_is_refused() {
    let failing = |dependency: &str, provenance: NodeProvenance| {
        let nodes = vec![
            node("root", vec![edge(dependency, Linkage::Dynamic)], NodeProvenance::Virtual),
            node(dependency, vec![edge("root", Linkage::Dynamic)], provenance),
        ];
        closure_hash(nodes, "root").unwrap_err()
    };
    assert_eq!(
        failing("bare", on_disk(SourceOrigin::Path, true)),
        "dependency 'bare' does not define a library target"
    );
    assert_eq!(failing("broken", on_disk(SourceOrigin::Path, true)), "no manifest");
    assert_eq!(failing("unknown", on_disk(SourceOrigin::Path, true)), "project was not loaded");

    let nodes = vec![node("root", vec![edge("gone", Linkage::Dynamic)], NodeProvenance::Virtual)];
    assert_eq!(
        closure_hash(nodes, "root").unwrap_err(),
        "missing dependency graph node for 'gone'"
    );
    assert_eq!(
        closure_hash(Vec::new(), "root").unwrap_err(),
        "missing dependency graph node for 'root'"
    );
    let nodes = vec![
        node("source", vec![edge("source", Linkage::Dynamic)], on_disk(SourceOrigin::Path, true)),
    ];
    assert_eq!(
        closure_hash(nodes, "source").unwrap_err(),
        "dependency cycle detected while computing source provenance for 'source'"
    );
}

#[test]
fn provenance_depends_on_the_profile() {
    let graph = DependencyGraph {
        root: "source".to_string(),
        nodes: vec![node("source", Vec::new(), on_disk(SourceOrigin::Root, true))],
    };
    let snapshot = snapshot();
    let project = project();
    let library = project.library.clone().unwrap();
    let expected = |profile: &str| {
        ProvenanceContext { graph: &graph, snapshot: &snapshot, profile }
            .expected_source_provenance(
                "source",
                &project,
                &library,
                &SourceOrigin::Root,
                &path("/p/miden-project.toml"),
                false,
                &listing(&["/p/src/lib.masm"]),
            )
    };
    let dev = expected("dev").unwrap();
    let release = expected("release").unwrap();
    assert!(dev.describe().starts_with("path("));
    assert!(release.describe().contains("trim_paths=true"));
    assert!(dev != release);
    assert!(dev == expected("dev").unwrap());
    assert_eq!(
        expected("fast").unwrap_err(),
        "project 'proj' does not define a 'fast' build profile"
    );
}
