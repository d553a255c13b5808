use miden_assembly_syntax::ast::{Path as MasmPath, PathBuf as MasmPathBuf};
use miden_assembly_syntax::library::{LibraryExport, ProcedureExport};
use miden_assembly_syntax::Library;
use miden_core::mast::{BasicBlockNodeBuilder, MastForest, MastForestContributor};
use miden_core::operations::Operation;
use miden_core::serde::Serializable;
use miden_mast_package::{Dependency, Package as MastPackage, TargetType};
use miden_project_assembly::cli;
use miden_project_assembly::files::FilePath;
use miden_project_assembly::index::PackageRecord;
use miden_project_assembly::linking::embedded_kernel_package;
use miden_project_assembly::package::Package;
use miden_project_assembly::registry::{
    sysroot_paths, ArtifactFile, LocalPackageRegistry, LocalRegistryError, PackageSummary,
    Publication,
};
use miden_project_assembly::version::{SemVer, Version, VersionReq, VersionRequirement};
use miden_project_assembly::word::Word;

fn path(text: &str) -> FilePath {
    FilePath { bytes: text.as_bytes().to_vec() }
}

fn build_package<'a>(
    name: &str,
    version: &str,
    dependencies: impl IntoIterator<Item = (&'a str, &'a str, TargetType, miden_core::Word)>,
) -> Box<MastPackage> {
    MastPackage::generate(
        name.into(),
        version.parse().unwrap(),
        TargetType::Library,
        dependencies.into_iter().map(|(name, version, kind, digest)| Dependency {
            name: name.into(),
            version: version.parse().unwrap(),
            kind,
            digest,
        }),
    )
}

/// A library with other code than that of the packages that are built here.
fn other_library() -> std::sync::Arc<Library> {
    let mut forest = MastForest::new();
    let node = BasicBlockNodeBuilder::new(vec![Operation::Mul, Operation::Add], Vec::new())
        .add_to_forest(&mut forest)
        .unwrap();
    forest.make_root(node);
    let path: std::sync::Arc<MasmPath> =
        MasmPathBuf::new("::other::foo").unwrap().into_boxed_path().into();
    let export = ProcedureExport::new(node, path.clone());
    std::sync::Arc::new(
        Library::new(
            std::sync::Arc::new(forest),
            std::collections::BTreeMap::from([(path, LibraryExport::Procedure(export))]),
        )
        .unwrap(),
    )
}

fn load_registry(index: Option<String>) -> LocalPackageRegistry {
    let index_path = path("/tmp/midenup/registry/index.toml");
    let artifact_dir = path("/tmp/sysroot/lib");
    LocalPackageRegistry::load(index_path, artifact_dir, index).expect("failed to load registry")
}

fn publish(
    registry: &mut LocalPackageRegistry,
    file: &str,
    package: &MastPackage,
) -> Result<Publication, LocalRegistryError> {
    registry.publish(&path(file), package.to_bytes())
}

fn semver(text: &str) -> SemVer {
    SemVer::parse(text).unwrap()
}

fn version(text: &str) -> Version {
    Version::parse(text).unwrap()
}

#[test]
fn publish_persists_artifact_and_index() {
    let mut registry = load_registry(None);

    let dep = build_package("dep", "1.0.0", []);
    publish(&mut registry, "/tmp/dep.masp", &dep).expect("failed to publish dependency");

    let package =
        build_package("pkg", "2.0.0", [("dep", "1.0.0", TargetType::Library, dep.digest())]);
    let published =
        publish(&mut registry, "/tmp/pkg.masp", &package).expect("failed to publish package");
    assert_eq!(
        published.package.artifact_path.display(),
        format!("/tmp/sysroot/lib/{}.masp", package.digest())
    );
    assert_eq!(published.artifact, package.to_bytes());

    let reloaded = load_registry(Some(published.index.unwrap()));
    let listed = reloaded.list();
    assert_eq!(listed.len(), 2);

    let shown = reloaded.show("pkg", None).expect("missing package");
    assert_eq!(shown.version.version, semver("2.0.0"));
    assert_eq!(shown.dependencies.len(), 1);
    assert_eq!(shown.dependencies[0].0, "dep");
    assert_eq!(shown.dependencies[0].1.text(), format!("1.0.0#{}", dep.digest()));

    let loaded = reloaded
        .load_package("pkg", &shown.version, ArtifactFile::Contents(published.artifact))
        .expect("artifact should be loaded");
    assert_eq!(loaded.name(), "pkg");
    assert_eq!(loaded.to_bytes(), &package.to_bytes());
}

#[test]
fn publish_rejects_missing_dependencies() {
    let mut registry = load_registry(None);

    let package = build_package(
        "pkg",
        "1.0.0",
        [("dep", "1.0.0", TargetType::Library, miden_core::utils::hash_string_to_word("dep"))],
    );

    let error =
        publish(&mut registry, "/tmp/pkg.masp", &package).expect_err("publish should fail");
    assert!(matches!(error, LocalRegistryError::MissingDependency { .. }));
    assert_eq!(
        error.message(),
        format!(
            "package 'pkg' depends on unpublished package 'dep' with version '1.0.0#{}'",
            miden_core::utils::hash_string_to_word("dep")
        )
    );
    assert!(registry.list().is_empty());
}

#[test]
fn list_and_show_include_multiple_versions() {
    let mut registry = load_registry(None);

    publish(&mut registry, "/tmp/pkg-1.masp", &build_package("pkg", "1.0.0", [])).unwrap();
    publish(&mut registry, "/tmp/pkg-2.masp", &build_package("pkg", "2.0.0", [])).unwrap();

    let listed = registry.list();
    assert_eq!(listed.len(), 2);

    let latest = registry.show("pkg", None).unwrap();
    assert_eq!(latest.version.version, semver("2.0.0"));

    let exact = registry.show("pkg", Some(&version("1.0.0"))).unwrap();
    assert_eq!(exact.version.version, semver("1.0.0"));
}

#[test]
fn publish_rejects_duplicate_semantic_versions() {
    let mut registry = load_registry(None);

    publish(&mut registry, "/tmp/pkg-1.masp", &build_package("pkg", "1.0.0", [])).unwrap();
    let error = publish(&mut registry, "/tmp/pkg-2.masp", &build_package("pkg", "1.0.0", []))
        .expect_err("duplicate semver should fail");
    assert!(matches!(error, LocalRegistryError::DuplicateSemanticVersion { .. }));
    assert_eq!(error.message(), "package 'pkg' version '1.0.0' is already registered");
}

#[test]
fn publish_rejects_duplicate_semantic_versions_for_identical_bytes() {
    let mut registry = load_registry(None);

    let bytes = build_package("pkg", "1.0.0", []).to_bytes();
    registry.publish(&path("/tmp/pkg.masp"), bytes.clone()).unwrap();
    let error = registry
        .publish(&path("/tmp/pkg.masp"), bytes)
        .expect_err("duplicate semver should fail even for identical bytes");
    assert!(matches!(error, LocalRegistryError::DuplicateSemanticVersion { .. }));
}

#[test]
fn publish_package_serializes_the_package() {
    let mut registry = load_registry(None);
    let package = build_package("pkg", "1.0.0", []);
    let loaded = Package::from_bytes(package.to_bytes()).unwrap();
    let published = registry.publish_package(&loaded).unwrap();
    assert_eq!(published.artifact, package.to_bytes());
    assert_eq!(published.package.name, "pkg");
    assert_eq!(published.package.version.text(), format!("1.0.0#{}", package.digest()));
}

#[test]
fn publish_refuses_what_is_no_package() {
    let mut registry = load_registry(None);
    let error = registry.publish(&path("/tmp/pkg.masp"), vec![1, 2]).unwrap_err();
    assert!(matches!(error, LocalRegistryError::PackageDecode { .. }));
    assert_eq!(
        error.message(),
        "failed to decode package artifact '/tmp/pkg.masp': unexpected end of file"
    );
}

#[test]
fn an_index_is_read_back_as_written() {
    let empty = load_registry(None);
    let text = empty.index_text().unwrap();
    assert!(!text.trim().is_empty());
    assert!(load_registry(Some(text)).list().is_empty());

    let digest = Word::from_bytes(miden_core::utils::hash_string_to_word("a").as_bytes()).unwrap();
    let mut registry = load_registry(None);
    registry
        .register(
            "odd \"name\"\n".to_string(),
            PackageRecord {
                version: version("1.0.0-alpha.1+build.5"),
                description: Some("a \"description\"\nin lines".to_string()),
                dependencies: vec![
                    ("star".to_string(), VersionRequirement::Semantic(VersionReq::parse("*").unwrap())),
                    (
                        "range".to_string(),
                        VersionRequirement::Semantic(VersionReq::parse(">=1.2, <2").unwrap()),
                    ),
                    ("digest".to_string(), VersionRequirement::Digest(digest)),
                    ("exact".to_string(), VersionRequirement::Exact(semver("0.1.0"), digest)),
                ],
            },
        )
        .unwrap();
    let reloaded = load_registry(Some(registry.index_text().unwrap()));
    let listed = reloaded.list();
    assert_eq!(listed.len(), 1);
    assert_eq!(listed[0].name, "odd \"name\"\n");
    assert_eq!(listed[0].version.text(), "1.0.0-alpha.1+build.5");
    assert_eq!(listed[0].description.as_deref(), Some("a \"description\"\nin lines"));
    assert!(listed[0].artifact_path.is_none());
    let dependencies: Vec<(String, String)> =
        listed[0].dependencies.iter().map(|(name, req)| (name.clone(), req.text())).collect();
    let hex = miden_core::utils::hash_string_to_word("a").to_string();
    assert_eq!(
        dependencies,
        vec![
            ("digest".to_string(), hex.clone()),
            ("exact".to_string(), format!("0.1.0#{hex}")),
            ("range".to_string(), ">=1.2, <2".to_string()),
            ("star".to_string(), "*".to_string()),
        ]
    );
}

#[test]
fn load_reads_what_is_there() {
    assert!(load_registry(Some(" \n\t".to_string())).list().is_empty());
    assert!(load_registry(Some("other = 1\n".to_string())).list().is_empty());
    let error = LocalPackageRegistry::load(path("/i"), path("/a"), Some("=".to_string()));
    assert!(matches!(error, Err(LocalRegistryError::IndexParse(_))));
    let shape = "other = 1\npackages = 2\n".to_string();
    let error = LocalPackageRegistry::load(path("/i"), path("/a"), Some(shape)).err().unwrap();
    assert_eq!(
        error.message(),
        "failed to parse registry index: TOML parse error at line 2, column 12\n  |\n2 | packages = 2\n  |            ^\ninvalid type: integer `2`, expected a map\n"
    );
    let registry = load_registry(Some(
        "[packages.dep.\"1.0.0\"]\nversion = \"1.0.0\"\n\n[packages.dep.\"1.0.0\".dependencies]\n"
            .to_string(),
    ));
    assert_eq!(registry.list().len(), 1);
    assert!(registry.show("dep", Some(&version("1.0.0"))).is_some());
    assert!(registry.show("other", None).is_none());
}

#[test]
fn versions_are_listed_by_name_and_in_semantic_order() {
    let mut registry = load_registry(None);
    for (name, version) in
        [("b", "1.10.0"), ("b", "1.9.0"), ("a", "2.0.0"), ("b", "1.10.0-rc.1"), ("B", "1.0.0")]
    {
        publish(&mut registry, "/tmp/x.masp", &build_package(name, version, [])).unwrap();
    }
    let listed: Vec<(String, String)> = registry
        .list()
        .into_iter()
        .map(|summary| (summary.name, summary.version.version.as_str().to_string()))
        .collect();
    assert_eq!(
        listed,
        vec![
            ("B".to_string(), "1.0.0".to_string()),
            ("a".to_string(), "2.0.0".to_string()),
            ("b".to_string(), "1.9.0".to_string()),
            ("b".to_string(), "1.10.0-rc.1".to_string()),
            ("b".to_string(), "1.10.0".to_string()),
        ]
    );
    assert_eq!(registry.show("b", None).unwrap().version.version, semver("1.10.0"));
}

#[test]
fn a_version_with_another_digest_is_not_registered() {
    let mut registry = load_registry(None);
    let package = build_package("pkg", "1.0.0", []);
    publish(&mut registry, "/tmp/pkg.masp", &package).unwrap();
    let exact = version(&format!("1.0.0#{}", package.digest()));
    let other = version(&format!("1.0.0#{}", miden_core::utils::hash_string_to_word("other")));
    assert_eq!(registry.show("pkg", Some(&exact)).unwrap().version, exact);
    assert!(registry.show("pkg", Some(&other)).is_none());
    // Without a digest the version is found, and told as it is registered.
    let told = registry.show("pkg", Some(&version("1.0.0"))).unwrap();
    assert_eq!(told.version, exact);
    assert_eq!(
        told.artifact_path.unwrap().display(),
        format!("/tmp/sysroot/lib/{}.masp", package.digest())
    );
}

#[test]
fn a_file_that_holds_another_package_is_not_the_artifact() {
    let mut registry = load_registry(None);
    let first = build_package("first", "1.0.0", []);
    let second = build_package("second", "1.0.0", []);
    assert_eq!(first.digest(), second.digest());
    let before = publish(&mut registry, "/tmp/first.masp", &first).unwrap();
    let after = publish(&mut registry, "/tmp/second.masp", &second).unwrap();
    assert_eq!(before.package.artifact_path, after.package.artifact_path);

    let exact = version(&format!("1.0.0#{}", first.digest()));
    let contents = || ArtifactFile::Contents(second.to_bytes());
    assert_eq!(registry.load_package("second", &exact, contents()).unwrap().name(), "second");
    let error = registry.load_package("first", &exact, contents()).unwrap_err();
    assert_eq!(
        error.message(),
        format!(
            "package artifact for 'first' version '{}' was not found at '{}'",
            exact.text(),
            before.package.artifact_path.display()
        )
    );
    let newer = build_package("second", "2.0.0", []);
    let error = registry
        .load_package("second", &exact, ArtifactFile::Contents(newer.to_bytes()))
        .unwrap_err();
    assert!(matches!(error, LocalRegistryError::MissingArtifact { .. }));
}

#[test]
fn a_published_package_stays_loadable() {
    let mut registry = load_registry(None);
    let first = build_package("first", "1.0.0", []);
    let mut other = build_package("other", "1.0.0", []);
    other.mast = other_library();
    assert_ne!(first.digest(), other.digest());
    let before = publish(&mut registry, "/tmp/first.masp", &first).unwrap();
    let after = publish(&mut registry, "/tmp/other.masp", &other).unwrap();
    assert_ne!(before.package.artifact_path, after.package.artifact_path);
    let loaded = registry
        .load_package("first", &before.package.version, ArtifactFile::Contents(before.artifact))
        .unwrap();
    assert_eq!(loaded.exact_version(), before.package.version);
    assert_eq!(loaded.name(), "first");
}

#[test]
fn load_package_reports_what_is_missing() {
    let mut registry = load_registry(None);
    let package = build_package("pkg", "1.0.0", []);
    publish(&mut registry, "/tmp/pkg.masp", &package).unwrap();
    let exact = version(&format!("1.0.0#{}", package.digest()));
    let file = format!("/tmp/sysroot/lib/{}.masp", package.digest());

    let error = registry.load_package("other", &exact, ArtifactFile::Absent).unwrap_err();
    assert_eq!(
        error.message(),
        format!(
            "package 'other' with version '1.0.0#{}' is not present in the registry",
            package.digest()
        )
    );
    let error = registry.load_package("pkg", &version("1.0.0"), ArtifactFile::Absent).unwrap_err();
    assert_eq!(error.message(), "package 'pkg' version '1.0.0' has no artifact digest");
    let error = registry.load_package("pkg", &exact, ArtifactFile::Absent).unwrap_err();
    assert_eq!(
        error.message(),
        format!(
            "package artifact for 'pkg' version '1.0.0#{}' was not found at '{file}'",
            package.digest()
        )
    );
    let error = registry
        .load_package("pkg", &exact, ArtifactFile::Unreadable("denied".to_string()))
        .unwrap_err();
    assert_eq!(error.message(), "failed to read registry index: denied");
    let error =
        registry.load_package("pkg", &exact, ArtifactFile::Contents(Vec::new())).unwrap_err();
    assert_eq!(
        error.message(),
        format!("failed to decode package artifact '{file}': unexpected end of file")
    );
}

#[test]
fn other_messages() {
    let missing = LocalRegistryError::MissingEnv { var: "MIDEN_SYSROOT" };
    assert_eq!(missing.message(), "missing required environment variable 'MIDEN_SYSROOT'");
    let write = LocalRegistryError::IndexWrite("full".to_string());
    assert_eq!(write.message(), "failed to write registry index: full");
    let serialize = LocalRegistryError::IndexSerialize("odd".to_string());
    assert_eq!(serialize.message(), "failed to serialize registry index: odd");
    let version = LocalRegistryError::MissingPackageVersion { path: path("/a") };
    assert_eq!(version.message(), "package artifact '/a' is missing semantic version metadata");
}

#[test]
fn sysroot_layout() {
    let (index, artifacts) = sysroot_paths(&path("/opt/miden"));
    assert_eq!(index.display(), "/opt/miden/etc/registry/index.toml");
    assert_eq!(artifacts.display(), "/opt/miden/lib");
    let (index, artifacts) = sysroot_paths(&path("/opt//miden/"));
    assert_eq!(index.display(), "/opt//miden/etc/registry/index.toml");
    assert_eq!(artifacts.display(), "/opt//miden/lib");
}

#[test]
fn published_twice_is_registered_once() {
    let mut registry = load_registry(None);
    publish(&mut registry, "/tmp/pkg.masp", &build_package("pkg", "1.0.0", [])).unwrap();
    let before = registry.index_text().unwrap();
    publish(&mut registry, "/tmp/pkg.masp", &build_package("pkg", "1.0.0", [])).unwrap_err();
    assert_eq!(registry.index_text().unwrap(), before);
    publish(&mut registry, "/tmp/pkg.masp", &build_package("pkg", "1.0.1", [])).unwrap();
    assert!(registry.show("pkg", Some(&version("1.0.0"))).is_some());
}

#[test]
fn artifact_path_is_printed_as_the_system_root_is_written() {
    let (index_path, artifact_dir) = sysroot_paths(&path("/tmp//sys/./root"));
    let mut registry = LocalPackageRegistry::load(index_path, artifact_dir, None).unwrap();
    let package = build_package("pkg", "1.0.0", []);
    let published = publish(&mut registry, "/tmp//pkg.masp", &package).unwrap();
    let digest = package.digest();
    let file = format!("/tmp//sys/./root/lib/{digest}.masp");
    assert_eq!(
        cli::publish_line(&published.package),
        format!("published pkg@1.0.0#{digest} -> {file}")
    );
    let shown = cli::show_command(&registry, "pkg", None).unwrap();
    assert_eq!(shown[2], format!("artifact: {file}"));
    let error = registry.publish(&path("/tmp//./odd.masp"), vec![0]).map(|_| ()).unwrap_err();
    assert!(error.message().contains("'/tmp//./odd.masp'"));
}

#[test]
fn commands_print() {
    let mut registry = load_registry(None);
    let dep = build_package("dep", "1.0.0", []);
    let published = publish(&mut registry, "/tmp/dep.masp", &dep).unwrap();
    let digest = dep.digest();
    assert_eq!(
        cli::publish_line(&published.package),
        format!("published dep@1.0.0#{digest} -> /tmp/sysroot/lib/{digest}.masp")
    );
    let mut pkg = build_package("pkg", "2.0.0", [("dep", "1.0.0", TargetType::Library, digest)]);
    pkg.description = Some("a package".to_string());
    publish(&mut registry, "/tmp/pkg.masp", &pkg).unwrap();
    assert_eq!(
        cli::list_lines(&registry.list()),
        vec![format!("dep 1.0.0#{digest}"), format!("pkg 2.0.0#{digest}")]
    );
    assert_eq!(
        cli::show_command(&registry, "pkg", None).unwrap(),
        vec![
            "package: pkg".to_string(),
            format!("version: 2.0.0#{digest}"),
            "description: a package".to_string(),
            format!("artifact: /tmp/sysroot/lib/{digest}.masp"),
            "dependencies:".to_string(),
            format!("  dep 1.0.0#{digest}"),
        ]
    );
    assert_eq!(
        cli::show_command(&registry, "dep", Some("1.0.0")).unwrap(),
        vec![
            "package: dep".to_string(),
            format!("version: 1.0.0#{digest}"),
            format!("artifact: /tmp/sysroot/lib/{digest}.masp"),
            "dependencies: none".to_string(),
        ]
    );
    assert!(cli::show_command(&registry, "none", None).unwrap().is_empty());
    assert!(cli::show_command(&registry, "dep", Some("2.0.0")).unwrap().is_empty());
    assert!(cli::show_command(&registry, "dep", Some("one"))
        .unwrap_err()
        .starts_with("invalid semantic version: "));
    assert!(cli::show_command(&registry, "dep", Some("1.0.0#zz"))
        .unwrap_err()
        .starts_with("invalid digest: "));
}

#[test]
fn versions_are_parsed_and_displayed() {
    let digest = miden_core::utils::hash_string_to_word("x");
    let text = format!("1.2.3-rc.1+5#{digest}");
    let parsed = version(&text);
    assert_eq!(parsed.version, semver("1.2.3-rc.1+5"));
    assert_eq!(parsed.digest.unwrap().as_bytes(), digest.as_bytes());
    assert_eq!(parsed.text(), text);
    assert!(SemVer::parse("01.2.3").is_err());
    assert!(VersionReq::parse("!").is_err());
}

#[test]
fn packages_are_read_from_their_bytes() {
    let mut source = build_package(
        "pkg",
        "1.0.0",
        [("dep", "0.1.0", TargetType::Kernel, miden_core::utils::hash_string_to_word("dep"))],
    );
    source.description = Some("text".to_string());
    source.sections.push(miden_mast_package::Section::new(
        "custom".parse::<miden_mast_package::SectionId>().unwrap(),
        vec![1, 2, 3],
    ));
    let package = Package::from_bytes(source.to_bytes()).unwrap();
    assert_eq!(package.name(), "pkg");
    assert_eq!(package.version().as_str(), "1.0.0");
    assert_eq!(package.description().as_deref(), Some("text"));
    assert_eq!(package.digest().as_bytes(), source.digest().as_bytes());
    assert_eq!(package.kind().as_str(), "library");
    assert_eq!(package.exact_version().text(), format!("1.0.0#{}", source.digest()));
    assert_eq!(package.dependencies().len(), 1);
    assert_eq!(package.dependencies()[0].name, "dep");
    assert_eq!(package.dependencies()[0].kind.as_str(), "kernel");
    assert_eq!(package.dependencies()[0].version, semver("0.1.0"));
    assert_eq!(package.sections().len(), 1);
    assert_eq!(package.sections()[0].id, "custom");
    assert_eq!(package.sections()[0].data, vec![1, 2, 3]);
    assert!(embedded_kernel_package(&package).unwrap().is_none());
}

#[test]
fn target_types_keep_their_codes() {
    for (kind, name) in [
        (TargetType::Library, "library"),
        (TargetType::Executable, "executable"),
        (TargetType::Kernel, "kernel"),
        (TargetType::AccountComponent, "account-component"),
        (TargetType::Note, "note"),
        (TargetType::TransactionScript, "transaction-script"),
    ] {
        let mut source = build_package("pkg", "1.0.0", []);
        source.kind = kind;
        let package = Package::from_bytes(source.to_bytes()).unwrap();
        assert_eq!(package.kind().as_str(), name);
        assert_eq!(package.kind().is_executable(), kind.is_executable());
    }
}

#[test]
fn summaries_of_packages() {
    let mut registry = load_registry(None);
    let package = build_package("pkg", "1.0.0", []);
    publish(&mut registry, "/tmp/pkg.masp", &package).unwrap();
    let summary: PackageSummary = registry.show("pkg", None).unwrap();
    assert_eq!(summary.clone(), summary);
    assert_eq!(registry.show("pkg", Some(&version("1.0.0"))).unwrap(), summary);
    assert_eq!(registry.list(), vec![summary.clone()]);
    let reloaded = load_registry(Some(registry.index_text().unwrap()));
    assert_eq!(reloaded.list(), vec![summary.clone()]);
    assert_eq!(reloaded.show("pkg", None).unwrap(), summary);
    assert_eq!(summary.name, "pkg");
    assert!(summary.description.is_none());
    let path = registry.artifact_path(&summary.version).unwrap();
    assert!(summary.artifact_path.unwrap().same(&path));
    assert_eq!(registry.index_path().display(), "/tmp/midenup/registry/index.toml");
    assert_eq!(registry.artifact_dir().display(), "/tmp/sysroot/lib");
    assert_eq!(registry.index().packages().len(), 1);
}
