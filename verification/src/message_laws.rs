//! What the messages tell: they name what they are about.

use vstd::prelude::*;

use crate::assembly_model;
use crate::closure;
use crate::files;
use crate::graph;
use crate::hash_laws;
use crate::linking;
use crate::linking::LinkView;
use crate::package::{DependencyView, PackageView};
use crate::provenance::ProvenanceView;
use crate::registry::ErrorView;
use crate::version::VersionView;
use crate::word;

verus! {

proof fn lemma_tells(
    before: Seq<char>,
    part: Seq<char>,
    behind: Seq<char>,
    whole: Seq<char>,
)
    requires
        whole =~= before + part + behind,
    ensures
        hash_laws::occurs(part, whole),
{
    hash_laws::lemma_occurs(before, part, behind, whole);
}

/// The text of a version with a digest.
pub open spec fn exact_text(version: Seq<char>, digest: Seq<u8>) -> Seq<char> {
    version + "#"@ + word::word_text(digest)
}

/// Two dependencies of one name that are not the same are both told of, with their versions and their
/// digests.
pub proof fn conflict_tells_of_both_dependencies(
    existing: DependencyView,
    incoming: DependencyView,
)
    ensures
        ({
            let message = linking::runtime_conflict(existing, incoming);
            &&& hash_laws::occurs(incoming.name, message)
            &&& hash_laws::occurs(exact_text(existing.version, existing.digest), message)
            &&& hash_laws::occurs(exact_text(incoming.version, incoming.digest), message)
        }),
{
    let message = linking::runtime_conflict(existing, incoming);
    let (a, b, c, d) = (
        "conflicting runtime dependency '"@,
        "' resolved to versions '"@,
        "' and '"@,
        "'"@,
    );
    let x = exact_text(existing.version, existing.digest);
    let y = exact_text(incoming.version, incoming.digest);
    let name = incoming.name;
    lemma_tells(a, name, b + x + c + y + d, message);
    lemma_tells(a + name + b, x, c + y + d, message);
    lemma_tells(a + name + b + x + c, y, d, message);
}

/// Two kernels that are not the same are both told of, with their names, their versions and their
/// digests.
pub proof fn conflict_tells_of_both_kernels(
    state: LinkView,
    existing: PackageView,
    kernel: PackageView,
)
    requires
        linking::ascending(state.dependencies),
        state.kernel == Some(existing),
        linking::merged(state.dependencies, linking::dependency_on(kernel)) is Ok,
        linking::kernel_recorded(state, kernel) is Err,
    ensures
        ({
            let message = linking::kernel_recorded(state, kernel)->Err_0;
            &&& hash_laws::occurs(existing.name + "@"@ + exact_text(existing.version, existing.digest), message)
            &&& hash_laws::occurs(kernel.name + "@"@ + exact_text(kernel.version, kernel.digest), message)
        }),
{
    let message = linking::kernel_recorded(state, kernel)->Err_0;
    let (a, b, c) = ("conflicting linked kernel packages '"@, "' and '"@, "'"@);
    let x = existing.name + "@"@ + exact_text(existing.version, existing.digest);
    let y = kernel.name + "@"@ + exact_text(kernel.version, kernel.digest);
    lemma_tells(a, x, b + y + c, message);
    lemma_tells(a + x + b, y, c, message);
}

/// A package whose registered artifact was built from other sources is named with its version, and
/// both provenances are told.
pub proof fn refusal_tells_of_both_provenances(
    name: Seq<char>,
    version: Seq<char>,
    expected: ProvenanceView,
    actual: ProvenanceView,
)
    ensures
        ({
            let message = assembly_model::different_provenance(name, version, expected, actual);
            &&& hash_laws::occurs(name, message)
            &&& hash_laws::occurs(version, message)
            &&& hash_laws::occurs("expected "@ + expected.description(), message)
            &&& hash_laws::occurs("found "@ + actual.description(), message)
            &&& hash_laws::occurs("bump the semantic version"@, message)
        }),
{
    let message = assembly_model::different_provenance(name, version, expected, actual);
    let (a, b, c, d, e) = (
        "package '"@,
        "' version '"@,
        "' is already registered with different source provenance (expected "@,
        ", found "@,
        "); bump the semantic version"@,
    );
    let (x, y) = (expected.description(), actual.description());
    lemma_tells(a, name, b + version + c + x + d + y + e, message);
    lemma_tells(a + name + b, version, c + x + d + y + e, message);
    reveal_strlit("' is already registered with different source provenance (expected ");
    reveal_strlit("' is already registered with different source provenance (");
    reveal_strlit("expected ");
    reveal_strlit(", found ");
    reveal_strlit(", ");
    reveal_strlit("found ");
    reveal_strlit("); bump the semantic version");
    reveal_strlit("); ");
    reveal_strlit("bump the semantic version");
    let front = "' is already registered with different source provenance ("@;
    assert(c =~= front + "expected "@);
    assert(d =~= ", "@ + "found "@);
    assert(e =~= "); "@ + "bump the semantic version"@);
    let head = a + name + b + version;
    lemma_tells(head + front, "expected "@ + x, d + y + e, message);
    lemma_tells(head + c + x + ", "@, "found "@ + y, e, message);
    lemma_tells(
        head + c + x + d + y + "); "@,
        "bump the semantic version"@,
        Seq::empty(),
        message,
    );
}

/// A package whose registered artifact records no provenance is named with its version.
pub proof fn refusal_tells_that_there_is_no_provenance(name: Seq<char>, version: Seq<char>)
    ensures
        hash_laws::occurs(name, assembly_model::missing_provenance(name, version)),
        hash_laws::occurs(version, assembly_model::missing_provenance(name, version)),
{
    let message = assembly_model::missing_provenance(name, version);
    let (a, b, c) = (
        "package '"@,
        "' version '"@,
        "' is already registered, but the canonical artifact is missing source provenance; bump the semantic version"@,
    );
    lemma_tells(a, name, b + version + c, message);
    lemma_tells(a + name + b, version, c, message);
}

/// A package that is not in the graph is named, and so is a dependency without a library.
pub proof fn missing_package_is_named(name: Seq<char>)
    ensures
        hash_laws::occurs(name, graph::missing_node(name)),
        hash_laws::occurs(name, closure::no_library(name)),
{
    lemma_tells("missing dependency graph node for '"@, name, "'"@, graph::missing_node(name));
    lemma_tells(
        "dependency '"@,
        name,
        "' does not define a library target"@,
        closure::no_library(name),
    );
}

/// The errors of the registry name the package, the version and the path that they are about.
pub proof fn registry_errors_tell_what_they_are_about(
    package: Seq<char>,
    dependency: Seq<char>,
    version: VersionView,
    path: files::PathView,
    error: Seq<char>,
)
    ensures
        ({
            let missing = ErrorView::MissingPackage { package, version }.text();
            let digest = ErrorView::MissingArtifactDigest { package, version }.text();
            let artifact = ErrorView::MissingArtifact { package, version, path }.text();
            let unpublished = ErrorView::MissingDependency { package, dependency, version }.text();
            let duplicate = ErrorView::DuplicateSemanticVersion {
                package,
                version: version.version,
            }.text();
            let decode = ErrorView::PackageDecode { path, error }.text();
            &&& hash_laws::occurs(package, missing) && hash_laws::occurs(version.text(), missing)
            &&& hash_laws::occurs(package, digest) && hash_laws::occurs(version.text(), digest)
            &&& hash_laws::occurs(package, artifact) && hash_laws::occurs(version.text(), artifact) && hash_laws::occurs(
                files::path_text(path),
                artifact,
            )
            &&& hash_laws::occurs(package, unpublished) && hash_laws::occurs(dependency, unpublished) && hash_laws::occurs(
                version.text(),
                unpublished,
            )
            &&& hash_laws::occurs(package, duplicate) && hash_laws::occurs(version.version, duplicate)
            &&& hash_laws::occurs(files::path_text(path), decode) && hash_laws::occurs(error, decode)
        }),
{
    let shown = version.text();
    let place = files::path_text(path);
    let missing = ErrorView::MissingPackage { package, version }.text();
    let (a, b, c) = ("package '"@, "' with version '"@, "' is not present in the registry"@);
    lemma_tells(a, package, b + shown + c, missing);
    lemma_tells(a + package + b, shown, c, missing);
    let digest = ErrorView::MissingArtifactDigest { package, version }.text();
    let (b, c) = ("' version '"@, "' has no artifact digest"@);
    lemma_tells(a, package, b + shown + c, digest);
    lemma_tells(a + package + b, shown, c, digest);
    let duplicate = ErrorView::DuplicateSemanticVersion {
        package,
        version: version.version,
    }.text();
    let c = "' is already registered"@;
    lemma_tells(a, package, b + version.version + c, duplicate);
    lemma_tells(a + package + b, version.version, c, duplicate);
    let artifact = ErrorView::MissingArtifact { package, version, path }.text();
    let (a, c, d) = ("package artifact for '"@, "' was not found at '"@, "'"@);
    lemma_tells(a, package, b + shown + c + place + d, artifact);
    lemma_tells(a + package + b, shown, c + place + d, artifact);
    lemma_tells(a + package + b + shown + c, place, d, artifact);
    let unpublished = ErrorView::MissingDependency { package, dependency, version }.text();
    let (a, b, c) = (
        "package '"@,
        "' depends on unpublished package '"@,
        "' with version '"@,
    );
    lemma_tells(a, package, b + dependency + c + shown + d, unpublished);
    lemma_tells(a + package + b, dependency, c + shown + d, unpublished);
    lemma_tells(a + package + b + dependency + c, shown, d, unpublished);
    let decode = ErrorView::PackageDecode { path, error }.text();
    let (a, b) = ("failed to decode package artifact '"@, "': "@);
    lemma_tells(a, place, b + error, decode);
    lemma_tells(a + place + b, error, Seq::empty(), decode);
}

} // verus!
