//! What holds of publishing, loading and telling of packages, in terms of what is registered.

use vstd::prelude::*;

use crate::files;
use crate::files::PathView;
use crate::index;
use crate::index::{IndexView, RecordView};
use crate::package;
use crate::package::{DependencyView, PackageView};
use crate::registry;
use crate::registry::{ArtifactView, ErrorView, PackageSummary, RegistryView, RowView};
use crate::text;
use crate::version::{RequirementView, VersionRequirement, VersionView};
use crate::word;

verus! {

/// Something is registered under a semantic version of a package.
pub open spec fn is_registered(contents: IndexView, name: Seq<char>, version: Seq<char>) -> bool {
    contents.contains_key(name) && contents[name].contains_key(version)
}

/// What is registered under a semantic version of a package is the artifact with this digest.
pub open spec fn is_registered_as(
    contents: IndexView,
    name: Seq<char>,
    version: Seq<char>,
    digest: Seq<u8>,
) -> bool {
    is_registered(contents, name, version) && contents[name][version].version == (VersionView {
        version,
        digest: Some(digest),
    })
}

/// The dependency is registered, with its digest.
pub open spec fn is_available(contents: IndexView, dependency: DependencyView) -> bool {
    is_registered_as(contents, dependency.name, dependency.version, dependency.digest)
}

/// The dependency is the last one with its name.
pub open spec fn is_last_of_its_name(dependencies: Seq<DependencyView>, i: int) -> bool {
    forall|j: int| i < j < dependencies.len() ==> (#[trigger] dependencies[j]).name
        != dependencies[i].name
}

proof fn lemma_first_missing(contents: IndexView, dependencies: Seq<DependencyView>, i: int)
    requires
        0 <= i <= dependencies.len(),
        forall|j: int| 0 <= j < i ==> is_available(contents, #[trigger] dependencies[j]),
        i < dependencies.len() ==> !is_available(contents, dependencies[i]),
    ensures
        registry::first_missing(contents, dependencies) == if i < dependencies.len() {
            Some(dependencies[i])
        } else {
            None
        },
    decreases i,
{
    if i > 0 {
        assert(is_available(contents, dependencies[0]));
        let rest = dependencies.drop_first();
        assert forall|j: int| 0 <= j < i - 1 implies is_available(
            contents,
            #[trigger] rest[j],
        ) by {
            assert(rest[j] == dependencies[j + 1]);
        }
        lemma_first_missing(contents, rest, i - 1);
    }
}

/// A package is published if all that it needs at run time is registered with its digest, and
/// nothing is registered under its semantic version yet.
pub proof fn package_is_published_once_its_dependencies_are(
    contents: IndexView,
    package: PackageView,
)
    requires
        forall|j: int|
            0 <= j < package.dependencies.len() ==> is_available(
                contents,
                #[trigger] package.dependencies[j],
            ),
    ensures
        is_registered(contents, package.name, package.version) ==> registry::published_contents(
            contents,
            package,
        ) == Err::<IndexView, ErrorView>(
            ErrorView::DuplicateSemanticVersion {
                package: package.name,
                version: package.version,
            },
        ),
        !is_registered(contents, package.name, package.version)
            ==> registry::published_contents(contents, package) is Ok,
{
    lemma_first_missing(contents, package.dependencies, package.dependencies.len() as int);
}

/// A package is refused for the first of the packages that it needs at run time that is not
/// registered with its digest.
pub proof fn first_missing_dependency_is_reported(
    contents: IndexView,
    package: PackageView,
    i: int,
)
    requires
        0 <= i < package.dependencies.len(),
        !is_available(contents, package.dependencies[i]),
        forall|j: int|
            0 <= j < i ==> is_available(contents, #[trigger] package.dependencies[j]),
    ensures
        registry::published_contents(contents, package) == Err::<IndexView, ErrorView>(
            ErrorView::MissingDependency {
                package: package.name,
                dependency: package.dependencies[i].name,
                version: VersionView {
                    version: package.dependencies[i].version,
                    digest: Some(package.dependencies[i].digest),
                },
            },
        ),
{
    lemma_first_missing(contents, package.dependencies, i);
}

proof fn lemma_requirement(dependencies: Seq<DependencyView>, i: int)
    requires
        0 <= i < dependencies.len(),
    ensures
        registry::exact_requirements(dependencies).contains_key(dependencies[i].name),
        is_last_of_its_name(dependencies, i) ==> registry::exact_requirements(
            dependencies,
        )[dependencies[i].name] == RequirementView::Exact(
            dependencies[i].version,
            dependencies[i].digest,
        ),
    decreases dependencies.len(),
{
    if i < dependencies.len() - 1 {
        let rest = dependencies.drop_last();
        lemma_requirement(rest, i);
        assert(rest[i] == dependencies[i]);
        if is_last_of_its_name(dependencies, i) {
            assert(dependencies[dependencies.len() - 1].name != dependencies[i].name);
            assert forall|j: int| i < j < rest.len() implies (#[trigger] rest[j]).name
                != rest[i].name by {
                assert(rest[j] == dependencies[j]);
            }
            assert(is_last_of_its_name(rest, i));
        }
    }
}

/// Publishing a package registers it, with its digest, what it says of itself and exactly the
/// packages that it needs at run time, and changes nothing else.
pub proof fn published_package_is_all_that_is_added(contents: IndexView, package: PackageView)
    ensures
        registry::published_contents(contents, package) matches Ok(after) ==> {
            let record = after[package.name][package.version];
            &&& is_registered_as(after, package.name, package.version, package.digest)
            &&& record.description == package.description
            &&& forall|i: int|
                0 <= i < package.dependencies.len() ==> record.dependencies.contains_key(
                    (#[trigger] package.dependencies[i]).name,
                )
            &&& forall|i: int|
                0 <= i < package.dependencies.len() && is_last_of_its_name(package.dependencies, i)
                    ==> record.dependencies[(#[trigger] package.dependencies[i]).name]
                    == RequirementView::Exact(
                    package.dependencies[i].version,
                    package.dependencies[i].digest,
                )
            &&& forall|name: Seq<char>| #[trigger]
                record.dependencies.contains_key(name) ==> exists|i: int|
                    0 <= i < package.dependencies.len() && (
                    #[trigger] package.dependencies[i]).name == name
            &&& forall|name: Seq<char>, version: Seq<char>|
                name != package.name || version != package.version ==> (#[trigger] is_registered(
                    after,
                    name,
                    version,
                ) == is_registered(contents, name, version) && (is_registered(
                    after,
                    name,
                    version,
                ) ==> after[name][version] == contents[name][version]))
            &&& forall|name: Seq<char>| #[trigger]
                after.contains_key(name) ==> contents.contains_key(name) || name == package.name
        },
{
    if let Ok(after) = registry::published_contents(contents, package) {
        let record = after[package.name][package.version];
        assert(record.dependencies == registry::exact_requirements(package.dependencies));
        assert forall|i: int| 0 <= i < package.dependencies.len() implies (
        record.dependencies.contains_key((#[trigger] package.dependencies[i]).name) && (
        is_last_of_its_name(package.dependencies, i)
            ==> record.dependencies[package.dependencies[i].name] == RequirementView::Exact(
            package.dependencies[i].version,
            package.dependencies[i].digest,
        ))) by {
            lemma_requirement(package.dependencies, i);
        }
        assert forall|name: Seq<char>| #[trigger]
            record.dependencies.contains_key(name) implies exists|i: int|
            0 <= i < package.dependencies.len() && (#[trigger] package.dependencies[i]).name
                == name by {
            registry::requirements_are_exact(package.dependencies, name);
        }
    }
}

/// The artifact of a published package is where the artifact of its version is looked for: in the
/// directory of the artifacts, in the file that has the digest as its name, and `masp` behind it.
pub proof fn artifact_is_published_where_it_is_looked_for(
    artifact_dir: PathView,
    package: PackageView,
)
    ensures
        registry::version_path(
            artifact_dir,
            VersionView { version: package.version, digest: Some(package.digest) },
        ) == Some(registry::digest_path(artifact_dir, package.digest)),
        registry::digest_path(artifact_dir, package.digest) == files::joined(
            artifact_dir,
            vstd::utf8::encode_utf8(word::word_text(package.digest) + ".masp"@),
        ),
        registry::version_path(
            artifact_dir,
            VersionView { version: package.version, digest: None },
        ) is None,
{
}

/// A version of a package is loaded if it is registered with its digest, and what was found at the
/// path of its artifact is a package with its name, its semantic version and its digest: this
/// package.
pub proof fn registered_package_is_loaded(
    registry: RegistryView,
    name: Seq<char>,
    version: Seq<char>,
    digest: Seq<u8>,
    artifact: ArtifactView,
    package: PackageView,
)
    ensures
        registry::loaded_package(
            registry,
            name,
            VersionView { version, digest: Some(digest) },
            artifact,
        ) == Ok::<PackageView, ErrorView>(package) <==> {
            &&& is_registered_as(registry.contents, name, version, digest)
            &&& artifact matches ArtifactView::Contents(bytes) && package::decoded_package(bytes)
                == Ok::<PackageView, Seq<char>>(package)
            &&& package.name == name
            &&& package.version == version
            &&& package.digest == digest
        },
{
}

/// Why a version with a digest cannot be loaded.
pub proof fn other_artifacts_are_not_loaded(
    registry: RegistryView,
    name: Seq<char>,
    version: Seq<char>,
    digest: Seq<u8>,
    artifact: ArtifactView,
)
    ensures
        ({
            let asked = VersionView { version, digest: Some(digest) };
            let path = files::joined(
                registry.artifact_dir,
                vstd::utf8::encode_utf8(word::word_text(digest) + ".masp"@),
            );
            let loaded = registry::loaded_package(registry, name, asked, artifact);
            if !is_registered_as(registry.contents, name, version, digest) {
                loaded == Err::<PackageView, ErrorView>(
                    ErrorView::MissingPackage { package: name, version: asked },
                )
            } else {
                match artifact {
                    ArtifactView::Absent => loaded == Err::<PackageView, ErrorView>(
                        ErrorView::MissingArtifact { package: name, version: asked, path },
                    ),
                    ArtifactView::Unreadable(error) => loaded == Err::<PackageView, ErrorView>(
                        ErrorView::IndexRead(error),
                    ),
                    ArtifactView::Contents(bytes) => match package::decoded_package(bytes) {
                        Err(error) => loaded == Err::<PackageView, ErrorView>(
                            ErrorView::PackageDecode { path, error },
                        ),
                        Ok(package) => package.name != name || package.version != version
                            || package.digest != digest ==> loaded == Err::<
                            PackageView,
                            ErrorView,
                        >(ErrorView::MissingArtifact { package: name, version: asked, path }),
                    },
                }
            }
        }),
{
}

/// A version without a digest has no artifact to be loaded.
pub proof fn version_without_digest_is_not_loaded(
    registry: RegistryView,
    name: Seq<char>,
    version: Seq<char>,
    artifact: ArtifactView,
)
    ensures
        ({
            let asked = VersionView { version, digest: None };
            registry::loaded_package(registry, name, asked, artifact) == Err::<
                PackageView,
                ErrorView,
            >(
                if is_registered(registry.contents, name, version) {
                    ErrorView::MissingArtifactDigest { package: name, version: asked }
                } else {
                    ErrorView::MissingPackage { package: name, version: asked }
                },
            )
        }),
{
}

/// The summary tells all of a record of a package: its name, its version with its digest, what it
/// says of itself, what it asks of each dependency, in ascending order of their names, and where its
/// artifact is, if it has one.
pub open spec fn tells_of(
    told: PackageSummary,
    artifact_dir: PathView,
    name: Seq<char>,
    record: RecordView,
) -> bool {
    &&& told.name@ == name
    &&& told.version@ == record.version
    &&& match (told.description, record.description) {
        (Some(told), Some(description)) => told@ == description,
        (None, None) => true,
        _ => false,
    }
    &&& forall|i: int|
        0 <= i < told.dependencies@.len() ==> record.dependencies.contains_key(
            (#[trigger] told.dependencies@[i]).0@,
        ) && record.dependencies[told.dependencies@[i].0@] == told.dependencies@[i].1@
    &&& forall|dependency: Seq<char>| #[trigger]
        record.dependencies.contains_key(dependency) ==> exists|i: int|
            0 <= i < told.dependencies@.len() && (#[trigger] told.dependencies@[i]).0@
                == dependency
    &&& forall|i: int, j: int|
        0 <= i < j < told.dependencies@.len() ==> text::text_lt(
            (#[trigger] told.dependencies@[i]).0@,
            (#[trigger] told.dependencies@[j]).0@,
        )
    &&& match (told.artifact_path, record.version.digest) {
        (Some(path), Some(digest)) => path@ == files::joined(
            artifact_dir,
            vstd::utf8::encode_utf8(word::word_text(digest) + ".masp"@),
        ),
        (None, None) => true,
        _ => false,
    }
}

proof fn lemma_requirements(list: Seq<(String, VersionRequirement)>)
    requires
        index::ascending_names(list),
    ensures
        forall|i: int|
            0 <= i < list.len() ==> index::requirements(list).contains_key(
                (#[trigger] list[i]).0@,
            ) && index::requirements(list)[list[i].0@] == list[i].1@,
        forall|name: Seq<char>| #[trigger]
            index::requirements(list).contains_key(name) ==> exists|i: int|
                0 <= i < list.len() && (#[trigger] list[i]).0@ == name,
    decreases list.len(),
{
    if list.len() > 0 {
        let rest = list.drop_last();
        assert forall|i: int, j: int| 0 <= i < j < rest.len() implies text::text_lt(
            #[trigger] rest[i].0@,
            #[trigger] rest[j].0@,
        ) by {
            assert(rest[i] == list[i] && rest[j] == list[j]);
            assert(text::text_lt(list[i].0@, list[j].0@));
        }
        lemma_requirements(rest);
        assert forall|i: int| 0 <= i < list.len() implies index::requirements(list).contains_key(
            (#[trigger] list[i]).0@,
        ) && index::requirements(list)[list[i].0@] == list[i].1@ by {
            if i < list.len() - 1 {
                assert(rest[i] == list[i]);
                assert(text::text_lt(list[i].0@, list[list.len() - 1].0@));
                text::text_order_is_total(list[i].0@, list[i].0@, list[i].0@);
            }
        }
        assert forall|name: Seq<char>| #[trigger]
            index::requirements(list).contains_key(name) implies exists|i: int|
            0 <= i < list.len() && (#[trigger] list[i]).0@ == name by {
            if name == list.last().0@ {
                assert(list[list.len() - 1].0@ == name);
            } else {
                assert(index::requirements(rest).contains_key(name));
                let i = choose|i: int| 0 <= i < rest.len() && (#[trigger] rest[i]).0@ == name;
                assert(list[i] == rest[i]);
            }
        }
    }
}

proof fn lemma_tells_of(
    told: PackageSummary,
    artifact_dir: PathView,
    name: Seq<char>,
    record: RecordView,
)
    requires
        told@ == registry::summary(artifact_dir, name, record.version, record),
        index::ascending_names(told.dependencies@),
    ensures
        tells_of(told, artifact_dir, name, record),
{
    lemma_requirements(told.dependencies@);
    let list = told.dependencies@;
    assert(index::requirements(list) == record.dependencies);
    assert forall|i: int, j: int| 0 <= i < j < list.len() implies text::text_lt(
        (#[trigger] list[i]).0@,
        (#[trigger] list[j]).0@,
    ) by {
        assert(text::text_lt(list[i].0@, list[j].0@));
    }
}

/// A version of a package is told of if it is registered, with the given digest if one is given. All
/// that is registered with it is told.
pub proof fn registered_version_is_shown(
    registry: RegistryView,
    name: Seq<char>,
    version: VersionView,
    told: Option<PackageSummary>,
)
    requires
        registry::shows(registry, name, Some(version), told),
    ensures
        told is Some <==> is_registered(registry.contents, name, version.version) && (
        version.digest is Some ==> registry.contents[name][version.version].version == version),
        told matches Some(told) ==> tells_of(
            told,
            registry.artifact_dir,
            name,
            registry.contents[name][version.version],
        ),
{
    if let Some(told) = told {
        lemma_tells_of(
            told,
            registry.artifact_dir,
            name,
            registry.contents[name][version.version],
        );
    }
}

/// If no version is given, one is told of if there is one, and it is the latest: all the others
/// precede it.
pub proof fn latest_version_is_shown(
    registry: RegistryView,
    name: Seq<char>,
    told: Option<PackageSummary>,
)
    requires
        registry::shows(registry, name, None, told),
    ensures
        told is Some <==> exists|version: Seq<char>| #[trigger]
            is_registered(registry.contents, name, version),
        told matches Some(told) ==> exists|version: Seq<char>| #[trigger]
            is_registered(registry.contents, name, version) && tells_of(
                told,
                registry.artifact_dir,
                name,
                registry.contents[name][version],
            ) && forall|other: Seq<char>| #[trigger]
                is_registered(registry.contents, name, other) && other != version
                    ==> index::semver_lt(other, version),
{
    match told {
        Some(told) => {
            let latest = choose|latest: Seq<char>|
                #![trigger registry::is_latest(registry.contents, name, latest)]
                registry::is_latest(registry.contents, name, latest) && told@
                    == registry::summary(
                    registry.artifact_dir,
                    name,
                    registry.contents[name][latest].version,
                    registry.contents[name][latest],
                );
            lemma_tells_of(
                told,
                registry.artifact_dir,
                name,
                registry.contents[name][latest],
            );
            assert(is_registered(registry.contents, name, latest));
        },
        None => {
            if exists|version: Seq<char>| #[trigger]
                is_registered(registry.contents, name, version) {
                let version = choose|version: Seq<char>| #[trigger]
                    is_registered(registry.contents, name, version);
                assert(registry.contents[name].dom().contains(version));
                assert(!Set::<Seq<char>>::empty().contains(version));
            }
        },
    }
}

/// Every version of every package is listed.
pub proof fn every_version_is_listed(
    registry: RegistryView,
    told: Seq<PackageSummary>,
    name: Seq<char>,
    version: Seq<char>,
)
    requires
        registry::lists(registry, told),
        is_registered(registry.contents, name, version),
    ensures
        exists|i: int|
            0 <= i < told.len() && tells_of(
                #[trigger] told[i],
                registry.artifact_dir,
                name,
                registry.contents[name][version],
            ),
{
    let rows = choose|rows: Seq<RowView>| #[trigger]
        registry::tells(registry.artifact_dir, told, rows) && registry::is_listing(
            registry.contents,
            rows,
        );
    assert(index::record_of(registry.contents, name, version) is Some);
    let i = choose|i: int|
        0 <= i < rows.len() && (#[trigger] rows[i]).name == name && rows[i].version == version;
    assert(told[i]@ == registry::row_summary(registry.artifact_dir, rows[i]));
    lemma_tells_of(told[i], registry.artifact_dir, name, registry.contents[name][version]);
}

/// The summaries tell of what is registered under these names and semantic versions. Of two entries
/// the one with the lesser name comes first, and of two versions of a package the lesser one.
pub open spec fn tells_in_order(
    registry: RegistryView,
    told: Seq<PackageSummary>,
    keys: Seq<(Seq<char>, Seq<char>)>,
) -> bool {
    &&& keys.len() == told.len()
    &&& forall|i: int|
        0 <= i < told.len() ==> is_registered(
            registry.contents,
            (#[trigger] keys[i]).0,
            keys[i].1,
        ) && tells_of(
            told[i],
            registry.artifact_dir,
            keys[i].0,
            registry.contents[keys[i].0][keys[i].1],
        )
    &&& forall|i: int, j: int|
        0 <= i < j < told.len() ==> text::text_lt(
            (#[trigger] keys[i]).0,
            (#[trigger] keys[j]).0,
        ) || (keys[i].0 == keys[j].0 && index::semver_lt(keys[i].1, keys[j].1))
}

/// What is listed is registered, and it is listed in order.
pub proof fn registered_versions_are_listed_in_order(
    registry: RegistryView,
    told: Seq<PackageSummary>,
)
    requires
        registry::lists(registry, told),
    ensures
        exists|keys: Seq<(Seq<char>, Seq<char>)>| #[trigger] tells_in_order(registry, told, keys),
{
    let rows = choose|rows: Seq<RowView>| #[trigger]
        registry::tells(registry.artifact_dir, told, rows) && registry::is_listing(
            registry.contents,
            rows,
        );
    let keys = Seq::new(rows.len(), |i: int| (rows[i].name, rows[i].version));
    assert forall|i: int| 0 <= i < told.len() implies is_registered(
        registry.contents,
        (#[trigger] keys[i]).0,
        keys[i].1,
    ) && tells_of(
        told[i],
        registry.artifact_dir,
        keys[i].0,
        registry.contents[keys[i].0][keys[i].1],
    ) by {
        assert(told[i]@ == registry::row_summary(registry.artifact_dir, rows[i]));
        assert(index::record_of(registry.contents, rows[i].name, rows[i].version) == Some(
            rows[i].record,
        ));
        lemma_tells_of(told[i], registry.artifact_dir, rows[i].name, rows[i].record);
    }
    assert forall|i: int, j: int| 0 <= i < j < told.len() implies text::text_lt(
        (#[trigger] keys[i]).0,
        (#[trigger] keys[j]).0,
    ) || (keys[i].0 == keys[j].0 && index::semver_lt(keys[i].1, keys[j].1)) by {
        assert(registry::row_before(rows[i], rows[j]));
    }
    assert(tells_in_order(registry, told, keys));
}

/// An index that does not exist holds nothing, nor does one without a table of packages. Otherwise
/// the index holds what the table does.
pub proof fn index_is_the_table_of_packages(toml: Seq<char>)
    ensures
        registry::loaded_contents(None) == Ok::<IndexView, ErrorView>(IndexView::empty()),
        (forall|i: int| 0 <= i < toml.len() ==> text::is_white_space(#[trigger] toml[i]))
            ==> registry::loaded_contents(Some(toml)) == Ok::<IndexView, ErrorView>(
            IndexView::empty(),
        ),
        (exists|i: int| 0 <= i < toml.len() && !text::is_white_space(#[trigger] toml[i])) ==> (
        match index::parsed_index(toml, "packages"@) {
            Ok(Some(contents)) => registry::loaded_contents(Some(toml)) == Ok::<
                IndexView,
                ErrorView,
            >(contents),
            Ok(None) => registry::loaded_contents(Some(toml)) == Ok::<IndexView, ErrorView>(
                IndexView::empty(),
            ),
            Err(error) => registry::loaded_contents(Some(toml)) == Err::<IndexView, ErrorView>(
                ErrorView::IndexParse(error),
            ),
        }),
{
}

} // verus!
