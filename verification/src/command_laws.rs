//! What holds of the commands of the registry.

use vstd::prelude::*;

use crate::cli;
use crate::index_laws;
use crate::registry::{LocalPackageRegistry, PackageSummary};
use crate::version;
use crate::version::VersionView;

verus! {

/// The version is registered, with its digest if it has one.
pub open spec fn has_version(
    registry: LocalPackageRegistry,
    package: Seq<char>,
    version: VersionView,
) -> bool {
    index_laws::is_registered(registry@.contents, package, version.version) && (
    version.digest is Some ==> registry@.contents[package][version.version].version == version)
}

/// Of a version that was asked for there are lines if it is registered, and they tell of what is
/// registered under it.
pub proof fn version_that_was_asked_for_is_shown(
    registry: LocalPackageRegistry,
    package: Seq<char>,
    asked: &str,
    version: VersionView,
    summary: PackageSummary,
)
    requires
        version::parsed_version(asked@) == Ok::<VersionView, Seq<char>>(version),
    ensures
        cli::is_registered(registry, package, Some(asked)) <==> has_version(
            registry,
            package,
            version,
        ),
        cli::shows(registry, package, Some(asked), summary) ==> has_version(
            registry,
            package,
            version,
        ) && index_laws::tells_of(
            summary,
            registry@.artifact_dir,
            package,
            registry@.contents[package][version.version],
        ),
{
    if cli::shows(registry, package, Some(asked), summary) {
        index_laws::registered_version_is_shown(registry@, package, version, Some(summary));
    }
}

/// If no version was asked for there are lines if any is registered, and they tell of one that all the
/// others precede.
pub proof fn latest_version_is_shown_if_none_was_asked_for(
    registry: LocalPackageRegistry,
    package: Seq<char>,
    summary: PackageSummary,
)
    ensures
        cli::is_registered(registry, package, None) <==> exists|version: Seq<char>| #[trigger]
            index_laws::is_registered(registry@.contents, package, version),
        cli::shows(registry, package, None, summary) ==> exists|version: Seq<char>| #[trigger]
            index_laws::is_registered(registry@.contents, package, version)
                && index_laws::tells_of(
                summary,
                registry@.artifact_dir,
                package,
                registry@.contents[package][version],
            ) && forall|other: Seq<char>| #[trigger]
                index_laws::is_registered(registry@.contents, package, other) && other != version
                    ==> crate::index::semver_lt(other, version),
{
    if cli::shows(registry, package, None, summary) {
        index_laws::latest_version_is_shown(registry@, package, Some(summary));
    }
    let contents = registry@.contents;
    if cli::is_registered(registry, package, None) {
        let versions = contents[package].dom();
        assert(!(versions =~= Set::<Seq<char>>::empty()));
        let version = choose|version: Seq<char>| versions.contains(version);
        assert(index_laws::is_registered(contents, package, version));
    } else if contents.contains_key(package) {
        assert forall|version: Seq<char>| !#[trigger]
            index_laws::is_registered(contents, package, version) by {
            assert(!Set::<Seq<char>>::empty().contains(version));
            assert(contents[package].dom().contains(version) == contents[package].contains_key(
                version,
            ));
        }
    }
}

} // verus!
