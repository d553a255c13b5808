//! The package index: for each package the versions that are registered.

use std::collections::BTreeMap;

use miden_core::Word as CoreWord;
use miden_package_registry::semver::VersionReq as OutsideVersionReq;
use miden_package_registry::{
    InMemoryPackageRegistry, PackageId, PackageRecord as OutsideRecord, PackageRegistry,
    PackageVersions, Version as OutsideVersion, VersionRequirement as OutsideRequirement,
};
use serde::Deserialize;
use toml::de::{DeTable, ValueDeserializer};
use vstd::prelude::*;

use crate::package;
use crate::text;
use crate::version::VersionRequirement::{Digest, Exact, Semantic};
use crate::version::{
    RequirementView, SemVer, Version, VersionReq, VersionRequirement, VersionView,
};
use crate::word::Word;

verus! {

/// The table of the TOML document that holds the index.
pub const PACKAGES: &'static str = "packages";

/// An index in memory.
#[verifier::external_type_specification]
#[verifier::external_body]
pub struct ExInMemoryPackageRegistry(InMemoryPackageRegistry);

/// What is registered under a version of a package.
#[derive(Debug)]
pub struct PackageRecord {
    pub version: Version,
    pub description: Option<String>,
    /// What the package asks of its dependencies. A later entry replaces an earlier one of the
    /// same name.
    pub dependencies: Vec<(String, VersionRequirement)>,
}

/// The mathematical counterpart of [`PackageRecord`].
#[verifier::ext_equal]
pub struct RecordView {
    pub version: VersionView,
    pub description: Option<Seq<char>>,
    pub dependencies: Map<Seq<char>, RequirementView>,
}

/// The requirements of a list. A later entry replaces an earlier one of the same name.
pub open spec fn requirements(list: Seq<(String, VersionRequirement)>) -> Map<
    Seq<char>,
    RequirementView,
>
    decreases list.len(),
{
    if list.len() == 0 {
        Map::empty()
    } else {
        requirements(list.drop_last()).insert(list.last().0@, list.last().1@)
    }
}

impl View for PackageRecord {
    type V = RecordView;

    open spec fn view(&self) -> RecordView {
        RecordView {
            version: self.version@,
            description: package::optional_text(self.description),
            dependencies: requirements(self.dependencies@),
        }
    }
}

/// The contents of an index: the records of each package, by semantic version.
pub type IndexView = Map<Seq<char>, Map<Seq<char>, RecordView>>;

/// What an index holds.
pub uninterp spec fn index_contents(index: InMemoryPackageRegistry) -> Map<
    Seq<char>,
    Map<Seq<char>, RecordView>,
>;

/// The contents of the index that is a table of a TOML document, if there is such a table, or the
/// text of the error.
pub uninterp spec fn parsed_index(text: Seq<char>, table: Seq<char>) -> Result<
    Option<Map<Seq<char>, Map<Seq<char>, RecordView>>>,
    Seq<char>,
>;

/// The TOML document whose only table is an index, or the text of the error.
pub uninterp spec fn rendered_index(
    contents: Map<Seq<char>, Map<Seq<char>, RecordView>>,
    table: Seq<char>,
) -> Result<Seq<char>, Seq<char>>;

/// The order of semantic versions, as the `semver` crate defines it.
pub uninterp spec fn semver_lt(a: Seq<char>, b: Seq<char>) -> bool;

/// The text is not blank, and its table is the index with these contents.
pub open spec fn reads_as(toml: Seq<char>, table: Seq<char>, contents: IndexView) -> bool {
    !text::blank(toml) && parsed_index(toml, table) == Ok::<Option<IndexView>, Seq<char>>(
        Some(contents),
    )
}

/// The record of a package under a semantic version.
pub open spec fn record_of(contents: IndexView, name: Seq<char>, version: Seq<char>) -> Option<
    RecordView,
> {
    if contents.contains_key(name) && contents[name].contains_key(version) {
        Some(contents[name][version])
    } else {
        None
    }
}

/// The record of a package under a version. A version with a digest has to be the registered one.
pub open spec fn record_by_version(
    contents: IndexView,
    name: Seq<char>,
    version: VersionView,
) -> Option<RecordView> {
    match record_of(contents, name, version.version) {
        Some(record) => if version.digest is None || record.version == version {
            Some(record)
        } else {
            None
        },
        None => None,
    }
}

/// Exactly this version of a package is registered.
pub open spec fn has_exact(contents: IndexView, name: Seq<char>, version: VersionView) -> bool {
    version.digest is Some && record_by_version(contents, name, version) is Some
}

/// The contents with one more record, under its semantic version.
pub open spec fn with_record(contents: IndexView, name: Seq<char>, record: RecordView) -> IndexView {
    let versions = if contents.contains_key(name) {
        contents[name]
    } else {
        Map::empty()
    };
    contents.insert(name, versions.insert(record.version.version, record))
}

/// The list holds the keys of a map, each once, in ascending order. On the keys the order is strict
/// and total: one key is less than another if and only if it stands in front of it.
pub open spec fn ascending_keys<V>(
    list: Seq<Seq<char>>,
    map: Map<Seq<char>, V>,
    lt: spec_fn(Seq<char>, Seq<char>) -> bool,
) -> bool {
    &&& forall|i: int, j: int|
        0 <= i < list.len() && 0 <= j < list.len() ==> (lt(#[trigger] list[i], #[trigger] list[j])
            <==> i < j)
    &&& forall|i: int| 0 <= i < list.len() ==> map.contains_key(#[trigger] list[i])
    &&& forall|key: Seq<char>| map.contains_key(key) ==> list.contains(key)
}

/// `InMemoryPackageRegistry::default`: an index that holds nothing.
#[verifier::external_body]
pub(crate) fn empty_index() -> (index: InMemoryPackageRegistry)
    ensures
        index_contents(index) == IndexView::empty(),
{
    InMemoryPackageRegistry::default()
}

/// `toml::de::DeTable::parse`, `Deserialize::deserialize` from a `toml::de::ValueDeserializer`, and
/// `InMemoryPackageRegistry::from_packages`: the index that is a table of a TOML document, `None` if
/// there is no such table. The text of an error tells its line and column.
#[verifier::external_body]
pub(crate) fn parse_index(text: &str, table: &str) -> (index: Result<
    Option<InMemoryPackageRegistry>,
    String,
>)
    ensures
        match (index, parsed_index(text@, table@)) {
            (Ok(Some(index)), Ok(Some(expected))) => index_contents(index) == expected,
            (Ok(None), Ok(None)) => true,
            (Err(error), Err(expected)) => error@ == expected,
            _ => false,
        },
{
    let mut document = DeTable::parse(text).map_err(|error| error.to_string())?.into_inner();
    let found = document.remove(table).map(
        |value| BTreeMap::<PackageId, PackageVersions>::deserialize(ValueDeserializer::from(value)),
    );
    let packages = found.transpose().map_err(|mut error| {
        error.set_input(Some(text));
        error.to_string()
    })?;
    Ok(packages.map(InMemoryPackageRegistry::from_packages))
}

/// `toml::to_string_pretty`: the TOML document whose only table is an index. It is not blank, and
/// read again it is the same index.
#[verifier::external_body]
pub(crate) fn render_index(index: &InMemoryPackageRegistry, table: &str) -> (rendered: Result<
    String,
    String,
>)
    ensures
        match (rendered, rendered_index(index_contents(*index), table@)) {
            (Ok(toml), Ok(expected)) => toml@ == expected,
            (Err(error), Err(expected)) => error@ == expected,
            _ => false,
        },
        rendered matches Ok(toml) ==> reads_as(toml@, table@, index_contents(*index)),
{
    toml::to_string_pretty(&BTreeMap::from([(table, index.packages())])).map_err(
        |error| error.to_string(),
    )
}

/// `InMemoryPackageRegistry::insert_record` of what `PackageRecord::new` and
/// `PackageRecord::with_description` make: registers a record under its semantic version, unless
/// there is one.
#[verifier::external_body]
fn insert_parts(
    index: &mut InMemoryPackageRegistry,
    name: String,
    version: Version,
    description: Option<String>,
    dependencies: Vec<(String, VersionRequirement)>,
) -> (inserted: bool)
    ensures
        inserted == (record_of(index_contents(*old(index)), name@, version@.version) is None),
        index_contents(*final(index)) == if inserted {
            with_record(
                index_contents(*old(index)),
                name@,
                RecordView {
                    version: version@,
                    description: package::optional_text(description),
                    dependencies: requirements(dependencies@),
                },
            )
        } else {
            index_contents(*old(index))
        },
{
    let word = |word: Word| CoreWord::try_from(word.0).unwrap();
    let record = OutsideRecord::new(OutsideVersion {
        version: version.version.text.parse().unwrap(),
        digest: version.digest.map(|digest| word(digest).into())
    }, dependencies.into_iter().map(|(name, requirement)| (name.into(), match requirement {
        Semantic(req) => req.text.parse::<OutsideVersionReq>().unwrap().into(),
        Digest(digest) => word(digest).into(),
        Exact(version, digest) => OutsideVersion::new(version.text.parse().unwrap(), word(digest)).into()
    })));
    index.insert_record(name, match description {
        Some(description) => record.with_description(description),
        None => record
    }).is_ok()
}

/// Registers a record under its semantic version, unless there is one.
pub(crate) fn insert_record(
    index: &mut InMemoryPackageRegistry,
    name: String,
    record: PackageRecord,
) -> (inserted: bool)
    ensures
        inserted == (record_of(
            index_contents(*old(index)),
            name@,
            record@.version.version,
        ) is None),
        index_contents(*final(index)) == if inserted {
            with_record(index_contents(*old(index)), name@, record@)
        } else {
            index_contents(*old(index))
        },
{
    insert_parts(index, name, record.version, record.description, record.dependencies)
}

/// `PackageRegistry::get_by_version` of `InMemoryPackageRegistry`: the version and the description
/// that are registered under a version of a package.
#[verifier::external_body]
pub(crate) fn get_by_version(
    index: &InMemoryPackageRegistry,
    name: &str,
    version: &Version,
) -> (found: Option<(Version, Option<String>)>)
    ensures
        match (found, record_by_version(index_contents(*index), name@, version@)) {
            (Some((version, description)), Some(record)) => version@ == record.version
                && package::optional_text(description) == record.description,
            (None, None) => true,
            _ => false,
        },
{
    let wanted = OutsideVersion {
        version: version.version.text.parse().unwrap(),
        digest: version.digest.map(|digest| CoreWord::try_from(digest.0).unwrap().into()),
    };
    let record = index.get_by_version(&PackageId::from(name), &wanted)?;
    let version = Version {
        version: SemVer { text: record.semantic_version().to_string() },
        digest: record.digest().map(|digest| Word(digest.as_bytes())),
    };
    Some((version, record.description().map(|description| description.to_string())))
}

/// `PackageRecord::dependencies` of what `PackageRegistry::get_by_version` finds: what a version of
/// a package asks of its dependencies, in ascending order of their names.
#[verifier::external_body]
pub(crate) fn get_requirements(
    index: &InMemoryPackageRegistry,
    name: &str,
    version: &Version,
) -> (list: Option<Vec<(String, VersionRequirement)>>)
    ensures
        match (list, record_by_version(index_contents(*index), name@, version@)) {
            (Some(list), Some(record)) => requirements(list@) == record.dependencies
                && ascending_names(list@),
            (None, None) => true,
            _ => false,
        },
{
    let wanted = OutsideVersion {
        version: version.version.text.parse().unwrap(),
        digest: version.digest.map(|digest| CoreWord::try_from(digest.0).unwrap().into()),
    };
    let record = index.get_by_version(&PackageId::from(name), &wanted)?;
    Some(record.dependencies().iter().map(|(name, requirement)| (name.to_string(), match requirement {
        OutsideRequirement::Semantic(req) => Semantic(VersionReq { text: req.to_string() }),
        OutsideRequirement::Digest(digest) => Digest(Word(digest.as_bytes())),
        OutsideRequirement::Exact(v) => Exact(SemVer { text: v.version.to_string() }, Word(v.digest.unwrap().inner().as_bytes())),
    })).collect())
}

/// The names of a list are in strictly ascending order.
pub open spec fn ascending_names(list: Seq<(String, VersionRequirement)>) -> bool {
    forall|i: int, j: int|
        0 <= i < j < list.len() ==> text::text_lt(#[trigger] list[i].0@, #[trigger] list[j].0@)
}

/// `PackageRegistry::get_exact_version` of `InMemoryPackageRegistry`: tells whether exactly this
/// version of a package is registered.
#[verifier::external_body]
pub(crate) fn is_registered(
    index: &InMemoryPackageRegistry,
    name: &str,
    version: &Version,
) -> (registered: bool)
    ensures
        registered == has_exact(index_contents(*index), name@, version@),
{
    let wanted = OutsideVersion {
        version: version.version.text.parse().unwrap(),
        digest: version.digest.map(|digest| CoreWord::try_from(digest.0).unwrap().into()),
    };
    index.get_exact_version(&PackageId::from(name), &wanted).is_some()
}

/// `InMemoryPackageRegistry::packages`: the names of the packages, in ascending order.
#[verifier::external_body]
pub(crate) fn package_names(index: &InMemoryPackageRegistry) -> (names: Vec<String>)
    ensures
        ascending_keys(
            text::texts(names@),
            index_contents(*index),
            |a: Seq<char>, b: Seq<char>| text::text_lt(a, b),
        ),
{
    index.packages().keys().map(|name| name.to_string()).collect()
}

/// `PackageRegistry::available_versions` of `InMemoryPackageRegistry`: the semantic versions of a
/// package, in ascending order. They are the keys of a `BTreeMap`, which `Ord` orders strictly and
/// totally.
#[verifier::external_body]
pub(crate) fn package_versions(index: &InMemoryPackageRegistry, name: &str) -> (versions: Option<
    Vec<SemVer>,
>)
    ensures
        match versions {
            Some(versions) => index_contents(*index).contains_key(name@) && ascending_keys(
                Seq::new(versions@.len(), |i: int| versions@[i]@),
                index_contents(*index)[name@],
                |a: Seq<char>, b: Seq<char>| semver_lt(a, b),
            ),
            None => !index_contents(*index).contains_key(name@),
        },
{
    let versions = index.available_versions(&PackageId::from(name))?;
    Some(versions.keys().map(|version| SemVer { text: version.to_string() }).collect())
}

} // verus!
