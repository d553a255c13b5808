//! A registry of packages on the local file system: an index, and an artifact for each version.

use std::sync::Arc;

use miden_package_registry::InMemoryPackageRegistry;
use vstd::prelude::*;

use crate::files;
use crate::files::{FilePath, PathView};
use crate::index;
use crate::index::{IndexView, PackageRecord, RecordView};
use crate::package;
use crate::package::{DependencyView, Package, PackageView};
use crate::text;
use crate::version::{
    RequirementView, SemVer, Version, VersionRequirement, VersionView,
};
use crate::word;
use crate::word::Word;

verus! {

/// Why an operation on a registry failed.
#[allow(inconsistent_fields)]
#[derive(Debug)]
pub enum LocalRegistryError {
    MissingEnv { var: &'static str },
    IndexRead(String),
    IndexWrite(String),
    IndexParse(String),
    IndexSerialize(String),
    PackageDecode { path: FilePath, error: String },
    MissingPackageVersion { path: FilePath },
    DuplicateSemanticVersion { package: String, version: SemVer },
    MissingPackage { package: String, version: Version },
    MissingArtifactDigest { package: String, version: Version },
    MissingArtifact { package: String, version: Version, path: FilePath },
    MissingDependency { package: String, dependency: String, version: Version },
}

/// The mathematical counterpart of [`LocalRegistryError`].
#[allow(inconsistent_fields)]
#[verifier::ext_equal]
pub enum ErrorView {
    MissingEnv { var: Seq<char> },
    IndexRead(Seq<char>),
    IndexWrite(Seq<char>),
    IndexParse(Seq<char>),
    IndexSerialize(Seq<char>),
    PackageDecode { path: PathView, error: Seq<char> },
    MissingPackageVersion { path: PathView },
    DuplicateSemanticVersion { package: Seq<char>, version: Seq<char> },
    MissingPackage { package: Seq<char>, version: VersionView },
    MissingArtifactDigest { package: Seq<char>, version: VersionView },
    MissingArtifact { package: Seq<char>, version: VersionView, path: PathView },
    MissingDependency { package: Seq<char>, dependency: Seq<char>, version: VersionView },
}

impl View for LocalRegistryError {
    type V = ErrorView;

    open spec fn view(&self) -> ErrorView {
        match self {
            LocalRegistryError::MissingEnv { var } => ErrorView::MissingEnv { var: var@ },
            LocalRegistryError::IndexRead(error) => ErrorView::IndexRead(error@),
            LocalRegistryError::IndexWrite(error) => ErrorView::IndexWrite(error@),
            LocalRegistryError::IndexParse(error) => ErrorView::IndexParse(error@),
            LocalRegistryError::IndexSerialize(error) => ErrorView::IndexSerialize(error@),
            LocalRegistryError::PackageDecode { path, error } => ErrorView::PackageDecode {
                path: path@,
                error: error@,
            },
            LocalRegistryError::MissingPackageVersion { path } => ErrorView::MissingPackageVersion {
                path: path@,
            },
            LocalRegistryError::DuplicateSemanticVersion { package, version } => {
                ErrorView::DuplicateSemanticVersion { package: package@, version: version@ }
            },
            LocalRegistryError::MissingPackage { package, version } => ErrorView::MissingPackage {
                package: package@,
                version: version@,
            },
            LocalRegistryError::MissingArtifactDigest { package, version } => {
                ErrorView::MissingArtifactDigest { package: package@, version: version@ }
            },
            LocalRegistryError::MissingArtifact { package, version, path } => {
                ErrorView::MissingArtifact { package: package@, version: version@, path: path@ }
            },
            LocalRegistryError::MissingDependency { package, dependency, version } => {
                ErrorView::MissingDependency {
                    package: package@,
                    dependency: dependency@,
                    version: version@,
                }
            },
        }
    }
}

impl ErrorView {
    /// The message of an error.
    pub open spec fn text(self) -> Seq<char> {
        match self {
            ErrorView::MissingEnv { var } => "missing required environment variable '"@ + var
                + "'"@,
            ErrorView::IndexRead(error) => "failed to read registry index: "@ + error,
            ErrorView::IndexWrite(error) => "failed to write registry index: "@ + error,
            ErrorView::IndexParse(error) => "failed to parse registry index: "@ + error,
            ErrorView::IndexSerialize(error) => "failed to serialize registry index: "@ + error,
            ErrorView::PackageDecode { path, error } => "failed to decode package artifact '"@
                + files::path_text(path) + "': "@ + error,
            ErrorView::MissingPackageVersion { path } => "package artifact '"@ + files::path_text(
                path,
            ) + "' is missing semantic version metadata"@,
            ErrorView::DuplicateSemanticVersion { package, version } => "package '"@ + package
                + "' version '"@ + version + "' is already registered"@,
            ErrorView::MissingPackage { package, version } => "package '"@ + package
                + "' with version '"@ + version.text() + "' is not present in the registry"@,
            ErrorView::MissingArtifactDigest { package, version } => "package '"@ + package
                + "' version '"@ + version.text() + "' has no artifact digest"@,
            ErrorView::MissingArtifact { package, version, path } => "package artifact for '"@
                + package + "' version '"@ + version.text() + "' was not found at '"@
                + files::path_text(path) + "'"@,
            ErrorView::MissingDependency { package, dependency, version } => "package '"@ + package
                + "' depends on unpublished package '"@ + dependency + "' with version '"@
                + version.text() + "'"@,
        }
    }
}

/// The texts one behind the other.
fn joined_texts(a: &str, b: &str, c: &str, d: &str, e: &str) -> (text: String)
    ensures
        text@ == a@ + b@ + c@ + d@ + e@,
{
    let mut text = a.to_string();
    text.append(b);
    text.append(c);
    text.append(d);
    text.append(e);
    text
}

impl LocalRegistryError {
    /// The message of the error.
    pub fn message(&self) -> (text: String)
        ensures
            text@ == self@.text(),
    {
        match self {
            LocalRegistryError::MissingEnv { var } => {
                let mut text = "missing required environment variable '".to_string();
                text.append(var);
                text.append("'");
                text
            },
            LocalRegistryError::IndexRead(error) => "failed to read registry index: ".to_string().concat(
            error),
            LocalRegistryError::IndexWrite(error) => "failed to write registry index: ".to_string().concat(
            error),
            LocalRegistryError::IndexParse(error) => "failed to parse registry index: ".to_string().concat(
            error),
            LocalRegistryError::IndexSerialize(error) => "failed to serialize registry index: ".to_string().concat(
            error),
            LocalRegistryError::PackageDecode { path, error } => {
                let mut text = "failed to decode package artifact '".to_string();
                text.append(path.display().as_str());
                text.append("': ");
                text.append(error.as_str());
                text
            },
            LocalRegistryError::MissingPackageVersion { path } => {
                let mut text = "package artifact '".to_string();
                text.append(path.display().as_str());
                text.append("' is missing semantic version metadata");
                text
            },
            LocalRegistryError::DuplicateSemanticVersion { package, version } => joined_texts(
                "package '",
                package.as_str(),
                "' version '",
                version.as_str(),
                "' is already registered",
            ),
            LocalRegistryError::MissingPackage { package, version } => joined_texts(
                "package '",
                package.as_str(),
                "' with version '",
                version.text().as_str(),
                "' is not present in the registry",
            ),
            LocalRegistryError::MissingArtifactDigest { package, version } => joined_texts(
                "package '",
                package.as_str(),
                "' version '",
                version.text().as_str(),
                "' has no artifact digest",
            ),
            LocalRegistryError::MissingArtifact { package, version, path } => {
                let mut text = joined_texts(
                    "package artifact for '",
                    package.as_str(),
                    "' version '",
                    version.text().as_str(),
                    "' was not found at '",
                );
                text.append(path.display().as_str());
                text.append("'");
                text
            },
            LocalRegistryError::MissingDependency { package, dependency, version } => {
                let mut text = joined_texts(
                    "package '",
                    package.as_str(),
                    "' depends on unpublished package '",
                    dependency.as_str(),
                    "' with version '",
                );
                text.append(version.text().as_str());
                text.append("'");
                text
            },
        }
    }
}

/// The registry: where the index and the artifacts are, and the index.
pub struct LocalPackageRegistry {
    index_path: FilePath,
    artifact_dir: FilePath,
    index: InMemoryPackageRegistry,
}

/// The mathematical counterpart of [`LocalPackageRegistry`].
#[verifier::ext_equal]
pub struct RegistryView {
    pub index_path: PathView,
    pub artifact_dir: PathView,
    pub contents: IndexView,
}

impl View for LocalPackageRegistry {
    type V = RegistryView;

    closed spec fn view(&self) -> RegistryView {
        RegistryView {
            index_path: self.index_path@,
            artifact_dir: self.artifact_dir@,
            contents: index::index_contents(self.index),
        }
    }
}

/// What is told of a version of a package.
#[derive(Clone, Debug, PartialEq, Eq)]
pub struct PackageSummary {
    /// The name of the package.
    pub name: String,
    /// The semantic version, and the digest.
    pub version: Version,
    /// What the package says of itself.
    pub description: Option<String>,
    /// What the package asks of its dependencies, in ascending order of their names.
    pub dependencies: Vec<(String, VersionRequirement)>,
    /// Where the artifact is, if the version was registered with one.
    pub artifact_path: Option<FilePath>,
}

/// The mathematical counterpart of [`PackageSummary`].
#[verifier::ext_equal]
pub struct SummaryView {
    pub name: Seq<char>,
    pub version: VersionView,
    pub description: Option<Seq<char>>,
    pub dependencies: Map<Seq<char>, RequirementView>,
    pub artifact_path: Option<PathView>,
}

impl View for PackageSummary {
    type V = SummaryView;

    open spec fn view(&self) -> SummaryView {
        SummaryView {
            name: self.name@,
            version: self.version@,
            description: package::optional_text(self.description),
            dependencies: index::requirements(self.dependencies@),
            artifact_path: files::optional_path(self.artifact_path),
        }
    }
}

/// A package that was published.
#[derive(Clone, Debug, PartialEq, Eq)]
pub struct PublishedPackage {
    pub name: String,
    pub version: Version,
    pub artifact_path: FilePath,
}

/// The mathematical counterpart of [`PublishedPackage`].
#[verifier::ext_equal]
pub struct PublishedView {
    pub name: Seq<char>,
    pub version: VersionView,
    pub artifact_path: PathView,
}

impl View for PublishedPackage {
    type V = PublishedView;

    open spec fn view(&self) -> PublishedView {
        PublishedView {
            name: self.name@,
            version: self.version@,
            artifact_path: self.artifact_path@,
        }
    }
}

/// What publishing a package leaves to be written: the artifact first, and the index.
#[derive(Debug)]
pub struct Publication {
    pub package: PublishedPackage,
    /// What is to be written to the path of the artifact.
    pub artifact: Vec<u8>,
    /// What is to be written to the path of the index.
    pub index: Result<String, LocalRegistryError>,
}

/// What was found at the path of an artifact.
#[derive(Debug)]
pub enum ArtifactFile {
    /// There is no file.
    Absent,
    /// The file could not be read.
    Unreadable(String),
    /// The file was read.
    Contents(Vec<u8>),
}

/// The mathematical counterpart of [`ArtifactFile`].
#[verifier::ext_equal]
pub enum ArtifactView {
    Absent,
    Unreadable(Seq<char>),
    Contents(Seq<u8>),
}

impl View for ArtifactFile {
    type V = ArtifactView;

    open spec fn view(&self) -> ArtifactView {
        match self {
            ArtifactFile::Absent => ArtifactView::Absent,
            ArtifactFile::Unreadable(error) => ArtifactView::Unreadable(error@),
            ArtifactFile::Contents(bytes) => ArtifactView::Contents(bytes@),
        }
    }
}

/// The name of the file that holds the artifact with a digest.
pub open spec fn artifact_name(digest: Seq<u8>) -> Seq<u8> {
    vstd::utf8::encode_utf8(word::word_text(digest) + ".masp"@)
}

/// The path of the artifact with a digest.
pub open spec fn digest_path(artifact_dir: PathView, digest: Seq<u8>) -> PathView {
    files::joined(artifact_dir, artifact_name(digest))
}

/// The path of the artifact of a version, if it has a digest.
pub open spec fn version_path(artifact_dir: PathView, version: VersionView) -> Option<PathView> {
    match version.digest {
        Some(digest) => Some(digest_path(artifact_dir, digest)),
        None => None,
    }
}

/// What is told of a package under `version`, which has this record.
pub open spec fn summary(
    artifact_dir: PathView,
    name: Seq<char>,
    version: VersionView,
    record: RecordView,
) -> SummaryView {
    SummaryView {
        name,
        version,
        description: record.description,
        dependencies: record.dependencies,
        artifact_path: version_path(artifact_dir, version),
    }
}

/// The contents of the index that was read. What does not exist, is blank or has no table of
/// packages holds nothing.
pub open spec fn loaded_contents(text: Option<Seq<char>>) -> Result<IndexView, ErrorView> {
    match text {
        None => Ok(Map::empty()),
        Some(toml) => if text::blank(toml) {
            Ok(Map::empty())
        } else {
            match index::parsed_index(toml, index::PACKAGES@) {
                Ok(Some(contents)) => Ok(contents),
                Ok(None) => Ok(Map::empty()),
                Err(error) => Err(ErrorView::IndexParse(error)),
            }
        },
    }
}

/// The first of the dependencies that is not registered exactly.
pub open spec fn first_missing(contents: IndexView, dependencies: Seq<DependencyView>) -> Option<
    DependencyView,
>
    decreases dependencies.len(),
{
    if dependencies.len() == 0 {
        None
    } else if !index::has_exact(
        contents,
        dependencies[0].name,
        VersionView::exact(dependencies[0].version, dependencies[0].digest),
    ) {
        Some(dependencies[0])
    } else {
        first_missing(contents, dependencies.drop_first())
    }
}

/// The exact versions of dependencies, as requirements.
pub open spec fn exact_requirements(dependencies: Seq<DependencyView>) -> Map<
    Seq<char>,
    RequirementView,
>
    decreases dependencies.len(),
{
    if dependencies.len() == 0 {
        Map::empty()
    } else {
        exact_requirements(dependencies.drop_last()).insert(
            dependencies.last().name,
            RequirementView::Exact(dependencies.last().version, dependencies.last().digest),
        )
    }
}

/// What a published package is registered with.
pub open spec fn published_record(package: PackageView) -> RecordView {
    RecordView {
        version: VersionView::exact(package.version, package.digest),
        description: package.description,
        dependencies: exact_requirements(package.dependencies),
    }
}

/// The contents of the index once a package is published, or why it cannot be: a dependency is
/// not registered exactly, or the semantic version is registered already.
pub open spec fn published_contents(contents: IndexView, package: PackageView) -> Result<
    IndexView,
    ErrorView,
> {
    match first_missing(contents, package.dependencies) {
        Some(dependency) => Err(
            ErrorView::MissingDependency {
                package: package.name,
                dependency: dependency.name,
                version: VersionView::exact(dependency.version, dependency.digest),
            },
        ),
        None => if index::record_of(contents, package.name, package.version) is Some {
            Err(
                ErrorView::DuplicateSemanticVersion {
                    package: package.name,
                    version: package.version,
                },
            )
        } else {
            Ok(index::with_record(contents, package.name, published_record(package)))
        },
    }
}

/// The package is that of a version of the package with this name.
pub open spec fn is_package_of(
    package: PackageView,
    name: Seq<char>,
    version: VersionView,
) -> bool {
    package.name == name && VersionView::exact(package.version, package.digest) == version
}

/// The package that was loaded, or why it could not be. A file that holds another package is not
/// the artifact of this version.
pub open spec fn loaded_package(
    registry: RegistryView,
    name: Seq<char>,
    version: VersionView,
    artifact: ArtifactView,
) -> Result<PackageView, ErrorView> {
    if index::record_by_version(registry.contents, name, version) is None {
        Err(ErrorView::MissingPackage { package: name, version })
    } else {
        match version_path(registry.artifact_dir, version) {
            None => Err(ErrorView::MissingArtifactDigest { package: name, version }),
            Some(path) => match artifact {
                ArtifactView::Absent => Err(
                    ErrorView::MissingArtifact { package: name, version, path },
                ),
                ArtifactView::Unreadable(error) => Err(ErrorView::IndexRead(error)),
                ArtifactView::Contents(bytes) => match package::decoded_package(bytes) {
                    Ok(package) => if is_package_of(package, name, version) {
                        Ok(package)
                    } else {
                        Err(ErrorView::MissingArtifact { package: name, version, path })
                    },
                    Err(error) => Err(ErrorView::PackageDecode { path, error }),
                },
            },
        }
    }
}

/// A row of a listing of the index: the name of a package, a semantic version and the record.
#[verifier::ext_equal]
pub struct RowView {
    pub name: Seq<char>,
    pub version: Seq<char>,
    pub record: RecordView,
}

/// The rows are all the records of an index, each once: by name, and for each package by semantic
/// version.
pub open spec fn is_listing(contents: IndexView, rows: Seq<RowView>) -> bool {
    &&& forall|i: int, j: int|
        0 <= i < rows.len() && 0 <= j < rows.len() ==> (row_before(
            #[trigger] rows[i],
            #[trigger] rows[j],
        ) <==> i < j)
    &&& forall|i: int|
        0 <= i < rows.len() ==> index::record_of(
            contents,
            (#[trigger] rows[i]).name,
            rows[i].version,
        ) == Some(rows[i].record)
    &&& forall|name: Seq<char>, version: Seq<char>|
        #[trigger] index::record_of(contents, name, version) is Some ==> exists|i: int|
            0 <= i < rows.len() && (#[trigger] rows[i]).name == name && rows[i].version == version
}

/// What is told of a version of a package, or of its latest version if none is given: the version
/// as it is registered. Nothing is told of what is not registered.
pub open spec fn shows(
    registry: RegistryView,
    package: Seq<char>,
    version: Option<VersionView>,
    told: Option<PackageSummary>,
) -> bool {
    &&& match version {
        Some(version) => match (
            told,
            index::record_by_version(registry.contents, package, version),
        ) {
            (Some(told), Some(record)) => told@ == summary(
                registry.artifact_dir,
                package,
                record.version,
                record,
            ),
            (None, None) => true,
            _ => false,
        },
        None => match told {
            Some(told) => exists|latest: Seq<char>|
                #![trigger is_latest(registry.contents, package, latest)]
                is_latest(registry.contents, package, latest) && told@ == summary(
                    registry.artifact_dir,
                    package,
                    registry.contents[package][latest].version,
                    registry.contents[package][latest],
                ),
            None => !registry.contents.contains_key(package)
                || registry.contents[package].dom() == Set::<Seq<char>>::empty(),
        },
    }
    &&& told matches Some(told) ==> index::ascending_names(told.dependencies@)
}

/// The summaries are what is told of all the versions of all the packages, in the order of a
/// listing.
pub open spec fn lists(registry: RegistryView, told: Seq<PackageSummary>) -> bool {
    exists|rows: Seq<RowView>| #[trigger]
        tells(registry.artifact_dir, told, rows) && is_listing(registry.contents, rows)
}

/// The order of the rows of a listing.
pub open spec fn row_before(a: RowView, b: RowView) -> bool {
    text::text_lt(a.name, b.name) || (a.name == b.name && index::semver_lt(a.version, b.version))
}

/// Where the index and the artifacts are below the system root.
pub fn sysroot_paths(sysroot: &FilePath) -> (paths: (FilePath, FilePath))
    ensures
        paths.0@ == files::joined(
            files::joined(
                files::joined(sysroot@, vstd::utf8::encode_utf8("etc"@)),
                vstd::utf8::encode_utf8("registry"@),
            ),
            vstd::utf8::encode_utf8("index.toml"@),
        ),
        paths.1@ == files::joined(sysroot@, vstd::utf8::encode_utf8("lib"@)),
{
    let index_path = sysroot.joined("etc".as_bytes()).joined("registry".as_bytes()).joined(
        "index.toml".as_bytes(),
    );
    (index_path, sysroot.joined("lib".as_bytes()))
}

impl LocalPackageRegistry {
    /// A registry whose index is at `index_path` and whose artifacts are in `artifact_dir`.
    /// `contents` is the text of the index, if there is one.
    pub fn load(index_path: FilePath, artifact_dir: FilePath, contents: Option<String>) -> (registry:
        Result<LocalPackageRegistry, LocalRegistryError>)
        ensures
            match (registry, loaded_contents(package::optional_text(contents))) {
                (Ok(registry), Ok(expected)) => registry@ == (RegistryView {
                    index_path: index_path@,
                    artifact_dir: artifact_dir@,
                    contents: expected,
                }),
                (Err(error), Err(expected)) => error@ == expected,
                _ => false,
            },
    {
        let index = match &contents {
            None => index::empty_index(),
            Some(toml) => if text::is_blank(toml.as_str()) {
                index::empty_index()
            } else {
                match index::parse_index(toml.as_str(), index::PACKAGES) {
                    Ok(Some(index)) => index,
                    Ok(None) => index::empty_index(),
                    Err(error) => return Err(LocalRegistryError::IndexParse(error)),
                }
            },
        };
        Ok(LocalPackageRegistry { index_path, artifact_dir, index })
    }

    /// Where the index is.
    pub fn index_path(&self) -> (path: &FilePath)
        ensures
            path@ == self@.index_path,
    {
        &self.index_path
    }

    /// Where the artifacts are.
    pub fn artifact_dir(&self) -> (path: &FilePath)
        ensures
            path@ == self@.artifact_dir,
    {
        &self.artifact_dir
    }

    /// The index.
    pub fn index(&self) -> (index: &InMemoryPackageRegistry)
        ensures
            index::index_contents(*index) == self@.contents,
    {
        &self.index
    }

    /// The text of the index. Loaded again it has the same contents.
    pub fn index_text(&self) -> (toml: Result<String, LocalRegistryError>)
        ensures
            match (toml, index::rendered_index(self@.contents, index::PACKAGES@)) {
                (Ok(toml), Ok(expected)) => toml@ == expected,
                (Err(error), Err(expected)) => error@ == ErrorView::IndexSerialize(expected),
                _ => false,
            },
            toml matches Ok(toml) ==> loaded_contents(Some(toml@)) == Ok::<IndexView, ErrorView>(
                self@.contents,
            ),
    {
        match index::render_index(&self.index, index::PACKAGES) {
            Ok(toml) => Ok(toml),
            Err(error) => Err(LocalRegistryError::IndexSerialize(error)),
        }
    }

    /// The path of the artifact with this digest.
    fn artifact_path_for_digest(&self, digest: Word) -> (path: FilePath)
        ensures
            path@ == digest_path(self@.artifact_dir, digest@),
    {
        let mut name = digest.text();
        name.append(".masp");
        self.artifact_dir.joined(name.as_str().as_bytes())
    }

    /// The path of the artifact of `version`, if it has a digest.
    pub fn artifact_path(&self, version: &Version) -> (path: Option<FilePath>)
        ensures
            files::optional_path(path) == version_path(self@.artifact_dir, version@),
    {
        match &version.digest {
            Some(digest) => Some(self.artifact_path_for_digest(*digest)),
            None => None,
        }
    }

    /// Registers a record under its semantic version, unless there is one.
    pub fn register(&mut self, name: String, record: PackageRecord) -> (result: Result<
        (),
        LocalRegistryError,
    >)
        ensures
            match result {
                Ok(()) => index::record_of(
                    old(self)@.contents,
                    name@,
                    record@.version.version,
                ) is None && final(self)@ == (RegistryView {
                    contents: index::with_record(old(self)@.contents, name@, record@),
                    ..old(self)@
                }),
                Err(error) => index::record_of(
                    old(self)@.contents,
                    name@,
                    record@.version.version,
                ) is Some && final(self)@ == old(self)@ && error@
                    == (ErrorView::DuplicateSemanticVersion {
                    package: name@,
                    version: record@.version.version,
                }),
            },
    {
        let package = name.clone();
        let version = record.version.version.clone();
        if index::insert_record(&mut self.index, name, record) {
            Ok(())
        } else {
            Err(LocalRegistryError::DuplicateSemanticVersion { package, version })
        }
    }

    /// The exact versions of what a package needs at run time, all of which have to be registered.
    fn dependency_requirements(&self, package: &Package) -> (list: Result<
        Vec<(String, VersionRequirement)>,
        LocalRegistryError,
    >)
        ensures
            match (list, first_missing(self@.contents, package@.dependencies)) {
                (Ok(list), None) => index::requirements(list@) == exact_requirements(
                    package@.dependencies,
                ),
                (Err(error), Some(missing)) => error@ == (ErrorView::MissingDependency {
                    package: package@.name,
                    dependency: missing.name,
                    version: VersionView::exact(missing.version, missing.digest),
                }),
                _ => false,
            },
    {
        let dependencies = package.dependencies();
        let ghost all = package@.dependencies;
        let mut list: Vec<(String, VersionRequirement)> = Vec::new();
        let mut i: usize = 0;
        assert(all.skip(0) =~= all);
        assert(all.take(0) =~= Seq::<DependencyView>::empty());
        while i < dependencies.len()
            invariant
                i <= dependencies@.len(),
                all == package@.dependencies,
                all == package::dependency_views(dependencies@),
                first_missing(self@.contents, all) == first_missing(
                    self@.contents,
                    all.skip(i as int),
                ),
                index::requirements(list@) == exact_requirements(all.take(i as int)),
            decreases dependencies.len() - i,
        {
            let dependency = &dependencies[i];
            assert(all.skip(i as int)[0] == dependency@);
            assert(all.skip(i as int).drop_first() =~= all.skip(i + 1));
            assert(all.take(i + 1).drop_last() =~= all.take(i as int));
            assert(all.take(i + 1).last() == dependency@);
            let version = Version::new(dependency.version.clone(), dependency.digest);
            if !index::is_registered(&self.index, dependency.name.as_str(), &version) {
                return Err(
                    LocalRegistryError::MissingDependency {
                        package: package.name().to_string(),
                        dependency: dependency.name.clone(),
                        version,
                    },
                );
            }
            let ghost before = list@;
            list.push(
                (
                    dependency.name.clone(),
                    VersionRequirement::Exact(dependency.version.clone(), dependency.digest),
                ),
            );
            assert(list@.drop_last() =~= before);
            i += 1;
        }
        assert(all.take(i as int) =~= all);
        Ok(list)
    }

    /// Publishes `package`, whose serialized form is `bytes`: registers it, and gives what is to be
    /// written. Every package that it needs at run time has to be registered exactly, and its
    /// semantic version may not be registered.
    pub fn publish_package_with_bytes(&mut self, package: &Package, bytes: Vec<u8>) -> (publication:
        Result<Publication, LocalRegistryError>)
        ensures
            match (publication, published_contents(old(self)@.contents, package@)) {
                (Ok(publication), Ok(contents)) => {
                    &&& final(self)@ == (RegistryView { contents, ..old(self)@ })
                    &&& publication.package@ == (PublishedView {
                        name: package@.name,
                        version: VersionView::exact(package@.version, package@.digest),
                        artifact_path: digest_path(old(self)@.artifact_dir, package@.digest),
                    })
                    &&& publication.artifact@ == bytes@
                    &&& is_index_text(publication.index, contents)
                },
                (Err(error), Err(expected)) => error@ == expected && final(self)@ == old(self)@,
                _ => false,
            },
    {
        let dependencies = match self.dependency_requirements(package) {
            Ok(dependencies) => dependencies,
            Err(error) => return Err(error),
        };
        let version = package.exact_version();
        let record = PackageRecord {
            version: version.clone(),
            description: package.description().clone(),
            dependencies,
        };
        assert(record@ =~= published_record(package@));
        match self.register(package.name().to_string(), record) {
            Ok(()) => {},
            Err(error) => return Err(error),
        }
        let artifact_path = self.artifact_path_for_digest(package.digest());
        let index = self.index_text();
        Ok(
            Publication {
                package: PublishedPackage {
                    name: package.name().to_string(),
                    version,
                    artifact_path,
                },
                artifact: bytes,
                index,
            },
        )
    }

    /// Publishes the package that was read from `package_path`.
    pub fn publish(&mut self, package_path: &FilePath, bytes: Vec<u8>) -> (publication: Result<
        Publication,
        LocalRegistryError,
    >)
        ensures
            match package::decoded_package(bytes@) {
                Err(error) => final(self)@ == old(self)@ && (publication matches Err(e) && e@ == (
                ErrorView::PackageDecode { path: package_path@, error })),
                Ok(package) => match (
                    publication,
                    published_contents(old(self)@.contents, package),
                ) {
                    (Ok(publication), Ok(contents)) => {
                        &&& final(self)@ == (RegistryView { contents, ..old(self)@ })
                        &&& publication.package@ == (PublishedView {
                            name: package.name,
                            version: VersionView::exact(package.version, package.digest),
                            artifact_path: digest_path(old(self)@.artifact_dir, package.digest),
                        })
                        &&& publication.artifact@ == bytes@
                        &&& is_index_text(publication.index, contents)
                    },
                    (Err(error), Err(expected)) => error@ == expected && final(self)@
                        == old(self)@,
                    _ => false,
                },
            },
    {
        match Package::from_bytes(files::copied(bytes.as_slice())) {
            Ok(package) => self.publish_package_with_bytes(&package, bytes),
            Err(error) => Err(
                LocalRegistryError::PackageDecode { path: package_path.clone(), error },
            ),
        }
    }

    /// Publishes `package` in the form in which it is serialized.
    pub fn publish_package(&mut self, package: &Package) -> (publication: Result<
        Publication,
        LocalRegistryError,
    >)
        ensures
            match (publication, published_contents(old(self)@.contents, package@)) {
                (Ok(publication), Ok(contents)) => {
                    &&& final(self)@ == (RegistryView { contents, ..old(self)@ })
                    &&& publication.package@ == (PublishedView {
                        name: package@.name,
                        version: VersionView::exact(package@.version, package@.digest),
                        artifact_path: digest_path(old(self)@.artifact_dir, package@.digest),
                    })
                    &&& publication.artifact@ == package@.encoded
                    &&& is_index_text(publication.index, contents)
                },
                (Err(error), Err(expected)) => error@ == expected && final(self)@ == old(self)@,
                _ => false,
            },
    {
        let bytes = files::copied(package.to_bytes().as_slice());
        self.publish_package_with_bytes(package, bytes)
    }

    /// Loads a version of `package`. `artifact` is what was found at the path of its artifact. Packages
    /// with one digest have one path, so a file that holds another package, or another version, is
    /// not the artifact.
    pub fn load_package(&self, package: &str, version: &Version, artifact: ArtifactFile) -> (loaded:
        Result<Arc<Package>, LocalRegistryError>)
        ensures
            match (loaded, loaded_package(self@, package@, version@, artifact@)) {
                (Ok(loaded), Ok(expected)) => loaded@ == expected,
                (Err(error), Err(expected)) => error@ == expected,
                _ => false,
            },
    {
        if index::get_by_version(&self.index, package, version).is_none() {
            return Err(
                LocalRegistryError::MissingPackage {
                    package: package.to_string(),
                    version: version.clone(),
                },
            );
        }
        let path = match self.artifact_path(version) {
            Some(path) => path,
            None => return Err(
                LocalRegistryError::MissingArtifactDigest {
                    package: package.to_string(),
                    version: version.clone(),
                },
            ),
        };
        match artifact {
            ArtifactFile::Absent => Err(
                LocalRegistryError::MissingArtifact {
                    package: package.to_string(),
                    version: version.clone(),
                    path,
                },
            ),
            ArtifactFile::Unreadable(error) => Err(LocalRegistryError::IndexRead(error)),
            ArtifactFile::Contents(bytes) => match Package::from_bytes(bytes) {
                Ok(loaded) => if text::same_text(loaded.name(), package) && loaded.exact_version()
                    == *version {
                    Ok(Arc::new(loaded))
                } else {
                    Err(
                        LocalRegistryError::MissingArtifact {
                            package: package.to_string(),
                            version: version.clone(),
                            path,
                        },
                    )
                },
                Err(error) => Err(LocalRegistryError::PackageDecode { path, error }),
            },
        }
    }

    /// What is told of what is registered under a version of `package`.
    fn package_summary(&self, package: &str, version: &Version) -> (told: Option<PackageSummary>)
        ensures
            match (told, index::record_by_version(self@.contents, package@, version@)) {
                (Some(told), Some(record)) => told@ == summary(
                    self@.artifact_dir,
                    package@,
                    record.version,
                    record,
                ) && index::ascending_names(told.dependencies@),
                (None, None) => true,
                _ => false,
            },
    {
        let (registered, description) = match index::get_by_version(&self.index, package, version) {
            Some(found) => found,
            None => return None,
        };
        let dependencies = match index::get_requirements(&self.index, package, version) {
            Some(dependencies) => dependencies,
            None => return None,
        };
        let artifact_path = self.artifact_path(&registered);
        Some(
            PackageSummary {
                name: package.to_string(),
                version: registered,
                description,
                dependencies,
                artifact_path,
            },
        )
    }

    /// What is told of a version of `package`, or of its latest version if none is given: the version
    /// as it is registered, with its digest, and where its artifact is. Nothing is told of what is not
    /// registered.
    pub fn show(&self, package: &str, version: Option<&Version>) -> (told: Option<PackageSummary>)
        ensures
            shows(
                self@,
                package@,
                match version {
                    Some(version) => Some(version@),
                    None => None,
                },
                told,
            ),
    {
        if let Some(version) = version {
            return self.package_summary(package, version);
        }
        let mut versions = match index::package_versions(&self.index, package) {
            Some(versions) => versions,
            None => return None,
        };
        let ghost all = Seq::new(versions@.len(), |i: int| versions@[i]@);
        match versions.pop() {
            None => {
                assert(self@.contents[package@].dom() =~= Set::<Seq<char>>::empty()) by {
                    assert forall|key: Seq<char>| !self@.contents[package@].contains_key(key) by {
                        if self@.contents[package@].contains_key(key) {
                            assert(all.contains(key));
                        }
                    }
                }
                None
            },
            Some(latest) => {
                let ghost last = latest@;
                assert(all.last() == last);
                assert(is_latest(self@.contents, package@, last)) by {
                    assert forall|other: Seq<char>|
                        self@.contents[package@].contains_key(other) && other != last implies
                        index::semver_lt(other, last) && !index::semver_lt(last, other) by {
                        assert(all.contains(other));
                        let i = choose|i: int| 0 <= i < all.len() && all[i] == other;
                        assert(all[i] == other && all[all.len() - 1] == last);
                    }
                }
                self.package_summary(package, &Version { version: latest, digest: None })
            },
        }
    }
}

/// What is told of a row of a listing.
pub open spec fn row_summary(artifact_dir: PathView, row: RowView) -> SummaryView {
    summary(artifact_dir, row.name, row.record.version, row.record)
}

/// The summaries tell of the rows.
pub open spec fn tells(
    artifact_dir: PathView,
    told: Seq<PackageSummary>,
    rows: Seq<RowView>,
) -> bool {
    &&& told.len() == rows.len()
    &&& forall|i: int|
        0 <= i < told.len() ==> (#[trigger] told[i])@ == row_summary(artifact_dir, rows[i])
            && index::ascending_names(told[i].dependencies@)
}

/// The rows are all the records of one package, by semantic version.
spec fn is_package_listing(contents: IndexView, name: Seq<char>, rows: Seq<RowView>) -> bool {
    &&& forall|i: int| 0 <= i < rows.len() ==> (#[trigger] rows[i]).name == name
    &&& forall|i: int, j: int|
        0 <= i < rows.len() && 0 <= j < rows.len() ==> (index::semver_lt(
            (#[trigger] rows[i]).version,
            (#[trigger] rows[j]).version,
        ) <==> i < j)
    &&& forall|i: int|
        0 <= i < rows.len() ==> index::record_of(contents, name, (#[trigger] rows[i]).version)
            == Some(rows[i].record)
    &&& forall|version: Seq<char>|
        #[trigger] index::record_of(contents, name, version) is Some ==> exists|i: int|
            0 <= i < rows.len() && (#[trigger] rows[i]).version == version
}

impl LocalPackageRegistry {
    /// What is told of all the versions of one package.
    fn list_versions(&self, name: &str) -> (told: Vec<PackageSummary>)
        ensures
            exists|rows: Seq<RowView>| #[trigger]
                tells(self@.artifact_dir, told@, rows) && is_package_listing(
                    self@.contents,
                    name@,
                    rows,
                ),
    {
        let mut told: Vec<PackageSummary> = Vec::new();
        let versions = match index::package_versions(&self.index, name) {
            Some(versions) => versions,
            None => {
                proof {
                    let rows = Seq::<RowView>::empty();
                    assert(tells(self@.artifact_dir, told@, rows));
                    assert(is_package_listing(self@.contents, name@, rows));
                }
                return told;
            },
        };
        let ghost keys = Seq::new(versions@.len(), |i: int| versions@[i]@);
        let ghost rows = Seq::new(
            versions@.len(),
            |i: int|
                RowView {
                    name: name@,
                    version: keys[i],
                    record: self@.contents[name@][keys[i]],
                },
        );
        let mut i: usize = 0;
        while i < versions.len()
            invariant
                i <= versions@.len(),
                told@.len() == i,
                keys == Seq::new(versions@.len(), |i: int| versions@[i]@),
                rows.len() == versions@.len(),
                self@.contents.contains_key(name@),
                forall|j: int|
                    0 <= j < keys.len() ==> self@.contents[name@].contains_key(#[trigger] keys[j]),
                forall|j: int|
                    0 <= j < rows.len() ==> (#[trigger] rows[j]) == (RowView {
                        name: name@,
                        version: keys[j],
                        record: self@.contents[name@][keys[j]],
                    }),
                forall|j: int|
                    0 <= j < i ==> (#[trigger] told@[j])@ == row_summary(
                        self@.artifact_dir,
                        rows[j],
                    ) && index::ascending_names(told@[j].dependencies@),
            decreases versions.len() - i,
        {
            assert(self@.contents[name@].contains_key(keys[i as int]));
            assert(rows[i as int].version == keys[i as int]);
            let version = Version { version: versions[i].clone(), digest: None };
            if let Some(summary) = self.package_summary(name, &version) {
                told.push(summary);
            }
            i += 1;
        }
        proof {
            assert(tells(self@.artifact_dir, told@, rows));
            assert(is_package_listing(self@.contents, name@, rows)) by {
                assert forall|i: int, j: int|
                    0 <= i < rows.len() && 0 <= j < rows.len() implies (index::semver_lt(
                    (#[trigger] rows[i]).version,
                    (#[trigger] rows[j]).version,
                ) <==> i < j) by {
                    assert(index::semver_lt(keys[i], keys[j]) <==> i < j);
                }
                assert forall|i: int| 0 <= i < rows.len() implies index::record_of(
                    self@.contents,
                    name@,
                    (#[trigger] rows[i]).version,
                ) == Some(rows[i].record) by {
                    assert(self@.contents[name@].contains_key(keys[i]));
                }
                assert forall|version: Seq<char>|
                    #[trigger] index::record_of(self@.contents, name@, version) is Some implies exists|
                    i: int,
                |
                    0 <= i < rows.len() && (#[trigger] rows[i]).version == version by {
                    assert(keys.contains(version));
                    let i = choose|i: int| 0 <= i < keys.len() && keys[i] == version;
                    assert(rows[i].version == version);
                }
            }
        }
        told
    }

    /// What is told of all the versions of all the packages: by name, and for each package by
    /// semantic version.
    pub fn list(&self) -> (told: Vec<PackageSummary>)
        ensures
            lists(self@, told@),
    {
        let names = index::package_names(&self.index);
        let ghost keys = text::texts(names@);
        let mut told: Vec<PackageSummary> = Vec::new();
        let ghost mut rows = Seq::<RowView>::empty();
        let mut n: usize = 0;
        while n < names.len()
            invariant
                n <= names@.len(),
                keys == text::texts(names@),
                index::ascending_keys(
                    keys,
                    self@.contents,
                    |a: Seq<char>, b: Seq<char>| text::text_lt(a, b),
                ),
                tells(self@.artifact_dir, told@, rows),
                listed_up_to(self@.contents, keys, n as int, rows),
            decreases names.len() - n,
        {
            let mut more = self.list_versions(names[n].as_str());
            let ghost added = choose|added: Seq<RowView>| #[trigger]
                tells(self@.artifact_dir, more@, added) && is_package_listing(
                    self@.contents,
                    keys[n as int],
                    added,
                );
            let ghost before = told@;
            let ghost more_before = more@;
            told.append(&mut more);
            proof {
                assert(told@ =~= before + more_before);
                assert(tells(self@.artifact_dir, told@, rows + added));
                lemma_listed(self@.contents, keys, n as int, rows, added);
                rows = rows + added;
            }
            n += 1;
        }
        proof {
            assert(is_listing(self@.contents, rows)) by {
                assert forall|name: Seq<char>, version: Seq<char>|
                    #[trigger] index::record_of(
                        self@.contents,
                        name,
                        version,
                    ) is Some implies exists|i: int|
                    0 <= i < rows.len() && (#[trigger] rows[i]).name == name && rows[i].version
                        == version by {
                    assert(keys.contains(name));
                    let k = choose|k: int| 0 <= k < keys.len() && keys[k] == name;
                    assert(index::record_of(self@.contents, keys[k], version) is Some);
                }
            }
        }
        told
    }
}

/// The rows are all the records of the first packages, by name and by semantic version.
spec fn listed_up_to(
    contents: IndexView,
    names: Seq<Seq<char>>,
    n: int,
    rows: Seq<RowView>,
) -> bool {
    &&& forall|i: int, j: int|
        0 <= i < rows.len() && 0 <= j < rows.len() ==> (row_before(
            #[trigger] rows[i],
            #[trigger] rows[j],
        ) <==> i < j)
    &&& forall|i: int|
        0 <= i < rows.len() ==> index::record_of(
            contents,
            (#[trigger] rows[i]).name,
            rows[i].version,
        ) == Some(rows[i].record)
    &&& forall|i: int|
        0 <= i < rows.len() ==> exists|k: int| 0 <= k < n && names[k] == (#[trigger] rows[i]).name
    &&& forall|k: int, version: Seq<char>|
        0 <= k < n && #[trigger] index::record_of(contents, names[k], version) is Some ==> exists|
            i: int,
        |
            0 <= i < rows.len() && (#[trigger] rows[i]).name == names[k] && rows[i].version
                == version
}

proof fn lemma_listed(
    contents: IndexView,
    names: Seq<Seq<char>>,
    n: int,
    rows: Seq<RowView>,
    added: Seq<RowView>,
)
    requires
        0 <= n < names.len(),
        forall|i: int, j: int|
            0 <= i < names.len() && 0 <= j < names.len() ==> (text::text_lt(
                #[trigger] names[i],
                #[trigger] names[j],
            ) <==> i < j),
        listed_up_to(contents, names, n, rows),
        is_package_listing(contents, names[n], added),
    ensures
        listed_up_to(contents, names, n + 1, rows + added),
{
    let all = rows + added;
    assert forall|i: int| 0 <= i < all.len() implies exists|k: int|
        0 <= k < n + 1 && names[k] == (#[trigger] all[i]).name by {
        if i < rows.len() {
            assert(all[i] == rows[i]);
            let k = choose|k: int| 0 <= k < n && names[k] == rows[i].name;
            assert(0 <= k < n + 1 && names[k] == all[i].name);
        } else {
            assert(all[i] == added[i - rows.len()]);
            assert(names[n] == all[i].name);
        }
    }
    assert forall|i: int, j: int| 0 <= i < all.len() && 0 <= j < all.len() implies (row_before(
        #[trigger] all[i],
        #[trigger] all[j],
    ) <==> i < j) by {
        text::text_order_is_total(names[n], names[n], names[n]);
        if i < rows.len() {
            assert(all[i] == rows[i]);
            let k = choose|k: int| 0 <= k < n && names[k] == rows[i].name;
            assert(text::text_lt(names[k], names[n]));
            assert(!text::text_lt(names[n], names[k]));
            if j >= rows.len() {
                assert(all[j] == added[j - rows.len()]);
            } else {
                assert(all[j] == rows[j]);
            }
        } else {
            assert(all[i] == added[i - rows.len()]);
            if j < rows.len() {
                assert(all[j] == rows[j]);
                let k = choose|k: int| 0 <= k < n && names[k] == rows[j].name;
                assert(text::text_lt(names[k], names[n]));
                assert(!text::text_lt(names[n], names[k]));
            } else {
                assert(all[j] == added[j - rows.len()]);
            }
        }
    }
    assert forall|i: int| 0 <= i < all.len() implies index::record_of(
        contents,
        (#[trigger] all[i]).name,
        all[i].version,
    ) == Some(all[i].record) by {
        if i < rows.len() {
            assert(all[i] == rows[i]);
        } else {
            assert(all[i] == added[i - rows.len()]);
        }
    }
    assert forall|k: int, version: Seq<char>|
        0 <= k < n + 1 && #[trigger] index::record_of(contents, names[k], version) is Some implies exists|
        i: int,
    |
        0 <= i < all.len() && (#[trigger] all[i]).name == names[k] && all[i].version == version by {
        if k < n {
            let i = choose|i: int|
                0 <= i < rows.len() && (#[trigger] rows[i]).name == names[k] && rows[i].version
                    == version;
            assert(all[i] == rows[i]);
        } else {
            let i = choose|i: int|
                0 <= i < added.len() && (#[trigger] added[i]).version == version;
            assert(all[rows.len() + i] == added[i]);
        }
    }
}

/// `latest` is the greatest semantic version of a package.
pub open spec fn is_latest(contents: IndexView, name: Seq<char>, latest: Seq<char>) -> bool {
    &&& contents.contains_key(name)
    &&& contents[name].contains_key(latest)
    &&& forall|other: Seq<char>|
        contents[name].contains_key(other) && other != latest ==> index::semver_lt(other, latest)
            && !index::semver_lt(latest, other)
}

/// The text is that of an index with these contents, which loading it gives back, or the error
/// says why there is no text.
pub open spec fn is_index_text(
    toml: Result<String, LocalRegistryError>,
    contents: IndexView,
) -> bool {
    match (toml, index::rendered_index(contents, index::PACKAGES@)) {
        (Ok(toml), Ok(expected)) => toml@ == expected && loaded_contents(Some(toml@)) == Ok::<
            IndexView,
            ErrorView,
        >(contents),
        (Err(error), Err(expected)) => error@ == ErrorView::IndexSerialize(expected),
        _ => false,
    }
}

/// A package that was published is registered under its exact version, with the exact versions of
/// what it needs at run time.
pub proof fn published_package_is_registered(contents: IndexView, package: PackageView)
    ensures
        published_contents(contents, package) matches Ok(after) ==> {
            let version = VersionView::exact(package.version, package.digest);
            &&& index::has_exact(after, package.name, version)
            &&& index::record_by_version(after, package.name, version) == Some(
                published_record(package),
            )
        },
{
}

/// A semantic version of a package is published at most once, whatever the artifact is.
pub proof fn semantic_version_is_published_once(
    contents: IndexView,
    first: PackageView,
    second: PackageView,
)
    requires
        first.name == second.name,
        first.version == second.version,
    ensures
        published_contents(contents, first) matches Ok(after) ==> published_contents(
            after,
            second,
        ) is Err,
{
}

/// Publishing a package changes nothing but its own version.
pub proof fn publishing_keeps_other_versions(
    contents: IndexView,
    package: PackageView,
    name: Seq<char>,
    version: Seq<char>,
)
    requires
        name != package.name || version != package.version,
    ensures
        published_contents(contents, package) matches Ok(after) ==> index::record_of(
            after,
            name,
            version,
        ) == index::record_of(contents, name, version),
{
}

proof fn lemma_none_missing(contents: IndexView, dependencies: Seq<DependencyView>, i: int)
    requires
        first_missing(contents, dependencies) is None,
        0 <= i < dependencies.len(),
    ensures
        index::has_exact(
            contents,
            dependencies[i].name,
            VersionView::exact(dependencies[i].version, dependencies[i].digest),
        ),
    decreases i,
{
    if i > 0 {
        lemma_none_missing(contents, dependencies.drop_first(), i - 1);
        assert(dependencies.drop_first()[i - 1] == dependencies[i]);
    }
}

proof fn lemma_some_missing(contents: IndexView, dependencies: Seq<DependencyView>, i: int)
    requires
        0 <= i < dependencies.len(),
        !index::has_exact(
            contents,
            dependencies[i].name,
            VersionView::exact(dependencies[i].version, dependencies[i].digest),
        ),
    ensures
        first_missing(contents, dependencies) is Some,
    decreases i,
{
    if i > 0 {
        assert(dependencies.drop_first()[i - 1] == dependencies[i]);
        lemma_some_missing(contents, dependencies.drop_first(), i - 1);
    }
}

/// A package is published only if every package that it needs at run time is registered with
/// exactly its digest.
pub proof fn published_dependencies_are_registered(
    contents: IndexView,
    package: PackageView,
    i: int,
)
    requires
        0 <= i < package.dependencies.len(),
    ensures
        published_contents(contents, package) is Ok ==> index::has_exact(
            contents,
            package.dependencies[i].name,
            VersionView::exact(package.dependencies[i].version, package.dependencies[i].digest),
        ),
{
    if first_missing(contents, package.dependencies) is None {
        lemma_none_missing(contents, package.dependencies, i);
    }
}

/// A package that needs a package that is not registered with exactly its digest is refused.
pub proof fn missing_dependency_is_refused(contents: IndexView, package: PackageView, i: int)
    requires
        0 <= i < package.dependencies.len(),
        !index::has_exact(
            contents,
            package.dependencies[i].name,
            VersionView::exact(package.dependencies[i].version, package.dependencies[i].digest),
        ),
    ensures
        published_contents(contents, package) is Err,
        published_contents(contents, package)->Err_0 is MissingDependency,
{
    lemma_some_missing(contents, package.dependencies, i);
}

/// What the registry persists of the dependencies of a package are their exact versions.
pub proof fn requirements_are_exact(dependencies: Seq<DependencyView>, name: Seq<char>)
    requires
        exact_requirements(dependencies).contains_key(name),
    ensures
        exists|i: int|
            0 <= i < dependencies.len() && (#[trigger] dependencies[i]).name == name
                && exact_requirements(dependencies)[name] == RequirementView::Exact(
                dependencies[i].version,
                dependencies[i].digest,
            ),
    decreases dependencies.len(),
{
    if dependencies.len() > 0 {
        let rest = dependencies.drop_last();
        if dependencies.last().name == name {
            assert(dependencies[dependencies.len() - 1].name == name);
        } else {
            requirements_are_exact(rest, name);
            let i = choose|i: int|
                0 <= i < rest.len() && (#[trigger] rest[i]).name == name && exact_requirements(
                    rest,
                )[name] == RequirementView::Exact(rest[i].version, rest[i].digest);
            assert(dependencies[i] == rest[i]);
        }
    }
}

/// An artifact that was written when its package was published is the package that is loaded.
pub proof fn published_artifact_is_loaded(
    registry: RegistryView,
    package: PackageView,
    bytes: Seq<u8>,
)
    requires
        package::holds(bytes, package),
    ensures
        published_contents(registry.contents, package) matches Ok(contents) ==> loaded_package(
            RegistryView { contents, ..registry },
            package.name,
            VersionView::exact(package.version, package.digest),
            ArtifactView::Contents(bytes),
        ) == Ok::<PackageView, ErrorView>(package::read_from(package, bytes)),
{
}

/// All that the registered packages require exactly is registered.
pub open spec fn is_closed(contents: IndexView) -> bool {
    forall|name: Seq<char>, version: Seq<char>, dependency: Seq<char>|
        #[trigger] requires_of(contents, name, version, dependency) is Some ==> match requires_of(
            contents,
            name,
            version,
            dependency,
        )->0 {
            RequirementView::Exact(semver, digest) => index::has_exact(
                contents,
                dependency,
                VersionView::exact(semver, digest),
            ),
            _ => true,
        }
}

/// What a version of a package asks of a dependency.
pub open spec fn requires_of(
    contents: IndexView,
    name: Seq<char>,
    version: Seq<char>,
    dependency: Seq<char>,
) -> Option<RequirementView> {
    match index::record_of(contents, name, version) {
        Some(record) => if record.dependencies.contains_key(dependency) {
            Some(record.dependencies[dependency])
        } else {
            None
        },
        None => None,
    }
}

/// Publishing keeps the registry closed: all that its packages require exactly is registered.
pub proof fn publishing_keeps_registry_closed(contents: IndexView, package: PackageView)
    requires
        is_closed(contents),
    ensures
        published_contents(contents, package) matches Ok(after) ==> is_closed(after),
{
    if let Ok(after) = published_contents(contents, package) {
        assert forall|name: Seq<char>, version: Seq<char>, dependency: Seq<char>|
            #[trigger] requires_of(
                after,
                name,
                version,
                dependency,
            ) is Some implies match requires_of(after, name, version, dependency)->0 {
            RequirementView::Exact(semver, digest) => index::has_exact(
                after,
                dependency,
                VersionView::exact(semver, digest),
            ),
            _ => true,
        } by {
            if name == package.name && version == package.version {
                requirements_are_exact(package.dependencies, dependency);
                let i = choose|i: int|
                    0 <= i < package.dependencies.len() && (#[trigger] package.dependencies[i]).name
                        == dependency && exact_requirements(package.dependencies)[dependency]
                        == RequirementView::Exact(
                        package.dependencies[i].version,
                        package.dependencies[i].digest,
                    );
                published_dependencies_are_registered(contents, package, i);
                lemma_exact_stays(
                    contents,
                    package,
                    dependency,
                    VersionView::exact(
                        package.dependencies[i].version,
                        package.dependencies[i].digest,
                    ),
                );
            } else {
                publishing_keeps_other_versions(contents, package, name, version);
                assert(requires_of(contents, name, version, dependency) == requires_of(
                    after,
                    name,
                    version,
                    dependency,
                ));
                if let RequirementView::Exact(semver, digest) = requires_of(
                    after,
                    name,
                    version,
                    dependency,
                )->0 {
                    lemma_exact_stays(
                        contents,
                        package,
                        dependency,
                        VersionView::exact(semver, digest),
                    );
                }
            }
        }
    }
}

proof fn lemma_exact_stays(
    contents: IndexView,
    package: PackageView,
    name: Seq<char>,
    version: VersionView,
)
    requires
        index::has_exact(contents, name, version),
    ensures
        published_contents(contents, package) matches Ok(after) ==> index::has_exact(
            after,
            name,
            version,
        ),
{
    if name == package.name && version.version == package.version {
    } else {
        publishing_keeps_other_versions(contents, package, name, version.version);
    }
}

} // verus!
