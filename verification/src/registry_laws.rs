//! Laws of the registry: what is listed, shown and loaded.

use vstd::prelude::*;
use vstd::utf8::*;

use crate::files;
use crate::files::{ComponentsView, PathView};
use crate::index;
use crate::index::IndexView;
use crate::package;
use crate::package::PackageView;
use crate::registry;
use crate::registry::{ArtifactView, ErrorView, PackageSummary, RegistryView, RowView};
use crate::text;
use crate::version::{VersionRequirement, VersionView};
use crate::word;

verus! {

/// A listing holds no version of a package twice.
pub proof fn listing_holds_no_version_twice(
    contents: IndexView,
    rows: Seq<RowView>,
    i: int,
    j: int,
)
    requires
        registry::is_listing(contents, rows),
        0 <= i < j < rows.len(),
    ensures
        rows[i].name != rows[j].name || rows[i].version != rows[j].version,
{
    assert(registry::row_before(rows[i], rows[j]));
    assert(!registry::row_before(rows[j], rows[i]));
}

/// The row of a listing for what a row of another one holds.
spec fn counterpart(rows: Seq<RowView>, row: RowView) -> int {
    choose|i: int|
        0 <= i < rows.len() && (#[trigger] rows[i]).name == row.name && rows[i].version
            == row.version
}

proof fn lemma_counterpart(contents: IndexView, a: Seq<RowView>, b: Seq<RowView>, i: int)
    requires
        registry::is_listing(contents, a),
        registry::is_listing(contents, b),
        0 <= i < a.len(),
    ensures
        0 <= counterpart(b, a[i]) < b.len(),
        b[counterpart(b, a[i])] == a[i],
{
    assert(index::record_of(contents, a[i].name, a[i].version) is Some);
    let k = counterpart(b, a[i]);
    assert(b[k] =~= a[i]);
}

proof fn lemma_counterpart_not_before(
    contents: IndexView,
    a: Seq<RowView>,
    b: Seq<RowView>,
    i: int,
)
    requires
        registry::is_listing(contents, a),
        registry::is_listing(contents, b),
        0 <= i < a.len(),
    ensures
        i <= counterpart(b, a[i]) < b.len(),
    decreases i,
{
    lemma_counterpart(contents, a, b, i);
    if i > 0 {
        lemma_counterpart_not_before(contents, a, b, i - 1);
        lemma_counterpart(contents, a, b, i - 1);
        assert(registry::row_before(a[i - 1], a[i]));
        assert(registry::row_before(
            b[counterpart(b, a[i - 1])],
            b[counterpart(b, a[i])],
        ));
    }
}

/// An index has one listing.
pub proof fn listing_is_unique(contents: IndexView, a: Seq<RowView>, b: Seq<RowView>)
    requires
        registry::is_listing(contents, a),
        registry::is_listing(contents, b),
    ensures
        a == b,
{
    if a.len() > 0 {
        lemma_counterpart_not_before(contents, a, b, a.len() - 1);
    }
    if b.len() > 0 {
        lemma_counterpart_not_before(contents, b, a, b.len() - 1);
    }
    assert forall|i: int| 0 <= i < a.len() implies a[i] == b[i] by {
        lemma_counterpart(contents, a, b, i);
        lemma_counterpart_not_before(contents, a, b, i);
        let k = counterpart(b, a[i]);
        lemma_counterpart(contents, b, a, k);
        lemma_counterpart_not_before(contents, b, a, k);
        let back = counterpart(a, b[k]);
        assert(a[back] == a[i]);
        assert(registry::row_before(a[back], a[i]) <==> back < i);
        assert(registry::row_before(a[i], a[i]) <==> i < i);
        assert(registry::row_before(a[i], a[back]) <==> i < back);
        assert(back == i);
    }
    assert(a =~= b);
}

/// What is told of a row names an artifact if and only if the version has a digest.
pub proof fn artifact_is_told_for_a_digest(artifact_dir: PathView, row: RowView)
    ensures
        registry::row_summary(artifact_dir, row).artifact_path is Some
            <==> row.record.version.digest is Some,
        registry::row_summary(artifact_dir, row).artifact_path matches Some(path) ==> path
            == registry::digest_path(artifact_dir, row.record.version.digest->0),
{
}

/// A package has at most one latest version.
pub proof fn latest_version_is_unique(
    contents: IndexView,
    name: Seq<char>,
    a: Seq<char>,
    b: Seq<char>,
)
    requires
        registry::is_latest(contents, name, a),
        registry::is_latest(contents, name, b),
    ensures
        a == b,
{
    assert(contents[name].contains_key(a) && contents[name].contains_key(b));
    assert(index::semver_lt(a, b) || a == b);
}

/// Two summaries tell the same, with the dependencies in the same order.
pub open spec fn same_summary(a: PackageSummary, b: PackageSummary) -> bool {
    &&& a@ == b@
    &&& a.dependencies@.len() == b.dependencies@.len()
    &&& forall|i: int|
        0 <= i < a.dependencies@.len() ==> (#[trigger] a.dependencies@[i]).0@
            == b.dependencies@[i].0@ && a.dependencies@[i].1@ == b.dependencies@[i].1@
}

/// The entry of a list with the given name.
spec fn entry(list: Seq<(String, VersionRequirement)>, name: Seq<char>) -> int {
    choose|i: int| 0 <= i < list.len() && (#[trigger] list[i]).0@ == name
}

proof fn lemma_entry(list: Seq<(String, VersionRequirement)>, name: Seq<char>)
    ensures
        index::requirements(list).contains_key(name) ==> 0 <= entry(list, name) < list.len()
            && list[entry(list, name)].0@ == name,
        forall|i: int|
            0 <= i < list.len() ==> index::requirements(list).contains_key(
                (#[trigger] list[i]).0@,
            ),
    decreases list.len(),
{
    if list.len() > 0 {
        let rest = list.drop_last();
        lemma_entry(rest, name);
        if index::requirements(list).contains_key(name) {
            if list.last().0@ == name {
                assert(list[list.len() - 1].0@ == name);
            } else {
                let i = entry(rest, name);
                assert(list[i] == rest[i]);
            }
        }
        assert forall|i: int| 0 <= i < list.len() implies index::requirements(list).contains_key(
            (#[trigger] list[i]).0@,
        ) by {
            if i < rest.len() {
                assert(rest[i] == list[i]);
            }
        }
    }
}

proof fn lemma_requirement(list: Seq<(String, VersionRequirement)>, i: int)
    requires
        index::ascending_names(list),
        0 <= i < list.len(),
    ensures
        index::requirements(list).contains_key(list[i].0@),
        index::requirements(list)[list[i].0@] == list[i].1@,
    decreases list.len(),
{
    let rest = list.drop_last();
    if i < rest.len() {
        assert(index::ascending_names(rest)) by {
            assert forall|i: int, j: int| 0 <= i < j < rest.len() implies text::text_lt(
                #[trigger] rest[i].0@,
                #[trigger] rest[j].0@,
            ) by {
                assert(text::text_lt(list[i].0@, list[j].0@));
            }
        }
        lemma_requirement(rest, i);
        assert(rest[i] == list[i]);
        assert(text::text_lt(list[i].0@, list[list.len() - 1].0@));
        text::text_order_is_total(list[i].0@, list[i].0@, list[i].0@);
    }
}

proof fn lemma_entry_not_before(
    a: Seq<(String, VersionRequirement)>,
    b: Seq<(String, VersionRequirement)>,
    i: int,
)
    requires
        index::ascending_names(a),
        index::ascending_names(b),
        index::requirements(a) == index::requirements(b),
        0 <= i < a.len(),
    ensures
        i <= entry(b, a[i].0@) < b.len(),
        b[entry(b, a[i].0@)].0@ == a[i].0@,
    decreases i,
{
    lemma_requirement(a, i);
    lemma_entry(b, a[i].0@);
    if i > 0 {
        lemma_entry_not_before(a, b, i - 1);
        let before = entry(b, a[i - 1].0@);
        let at = entry(b, a[i].0@);
        assert(text::text_lt(a[i - 1].0@, a[i].0@));
        text::text_order_is_total(b[before].0@, b[at].0@, b[before].0@);
        if at < before {
            assert(text::text_lt(b[at].0@, b[before].0@));
        }
    }
}

proof fn lemma_summaries_are_the_same(a: PackageSummary, b: PackageSummary)
    requires
        a@ == b@,
        index::ascending_names(a.dependencies@),
        index::ascending_names(b.dependencies@),
    ensures
        same_summary(a, b),
{
    let x = a.dependencies@;
    let y = b.dependencies@;
    if x.len() > 0 {
        lemma_entry_not_before(x, y, x.len() - 1);
    }
    if y.len() > 0 {
        lemma_entry_not_before(y, x, y.len() - 1);
    }
    assert forall|i: int| 0 <= i < x.len() implies (#[trigger] x[i]).0@ == y[i].0@ && x[i].1@
        == y[i].1@ by {
        lemma_entry_not_before(x, y, i);
        let k = entry(y, x[i].0@);
        lemma_entry_not_before(y, x, k);
        let back = entry(x, y[k].0@);
        text::text_order_is_total(x[i].0@, x[i].0@, x[i].0@);
        if back > i {
            assert(text::text_lt(x[i].0@, x[back].0@));
        }
        assert(k == i);
        lemma_requirement(x, i);
        lemma_requirement(y, i);
    }
}

/// What is told of all the packages is determined by the index and by where the artifacts are.
pub proof fn listing_is_determined(
    registry: RegistryView,
    a: Seq<PackageSummary>,
    b: Seq<PackageSummary>,
)
    requires
        registry::lists(registry, a),
        registry::lists(registry, b),
    ensures
        a.len() == b.len(),
        forall|i: int| 0 <= i < a.len() ==> same_summary(#[trigger] a[i], b[i]),
{
    let x = choose|rows: Seq<RowView>| #[trigger]
        registry::tells(registry.artifact_dir, a, rows) && registry::is_listing(
            registry.contents,
            rows,
        );
    let y = choose|rows: Seq<RowView>| #[trigger]
        registry::tells(registry.artifact_dir, b, rows) && registry::is_listing(
            registry.contents,
            rows,
        );
    listing_is_unique(registry.contents, x, y);
    assert forall|i: int| 0 <= i < a.len() implies same_summary(#[trigger] a[i], b[i]) by {
        assert(b[i]@ == registry::row_summary(registry.artifact_dir, y[i]));
        lemma_summaries_are_the_same(a[i], b[i]);
    }
}

/// The latest version of a package, of which the summary tells.
spec fn told_latest(registry: RegistryView, package: Seq<char>, told: PackageSummary) -> Seq<char> {
    choose|latest: Seq<char>|
        #![trigger registry::is_latest(registry.contents, package, latest)]
        registry::is_latest(registry.contents, package, latest) && told@ == registry::summary(
            registry.artifact_dir,
            package,
            registry.contents[package][latest].version,
            registry.contents[package][latest],
        )
}

proof fn lemma_latest_is_told(registry: RegistryView, package: Seq<char>, told: PackageSummary)
    requires
        registry::shows(registry, package, None, Some(told)),
    ensures
        ({
            let latest = told_latest(registry, package, told);
            &&& registry::is_latest(registry.contents, package, latest)
            &&& told@ == registry::summary(
                registry.artifact_dir,
                package,
                registry.contents[package][latest].version,
                registry.contents[package][latest],
            )
        }),
        registry.contents.contains_key(package),
        registry.contents[package].dom() != Set::<Seq<char>>::empty(),
{
    let latest = told_latest(registry, package, told);
    assert(registry.contents[package].dom().contains(latest));
}

/// What is told of a version of a package, or of its latest version, is determined by the index and
/// by where the artifacts are.
pub proof fn showing_is_determined(
    registry: RegistryView,
    package: Seq<char>,
    version: Option<VersionView>,
    a: Option<PackageSummary>,
    b: Option<PackageSummary>,
)
    requires
        registry::shows(registry, package, version, a),
        registry::shows(registry, package, version, b),
    ensures
        a is Some <==> b is Some,
        a is Some ==> same_summary(a->0, b->0),
{
    if version is None {
        if let Some(told) = a {
            lemma_latest_is_told(registry, package, told);
        }
        if let Some(told) = b {
            lemma_latest_is_told(registry, package, told);
        }
        if a is Some && b is Some {
            latest_version_is_unique(
                registry.contents,
                package,
                told_latest(registry, package, a->0),
                told_latest(registry, package, b->0),
            );
        }
    }
    if a is Some && b is Some {
        lemma_summaries_are_the_same(a->0, b->0);
    }
}

/// A registry that is loaded again from the text of its index lists the same packages and shows the
/// same of each.
pub proof fn reloaded_registry_tells_the_same(
    registry: RegistryView,
    toml: Result<String, registry::LocalRegistryError>,
    reloaded: RegistryView,
)
    requires
        toml is Ok,
        registry::is_index_text(toml, registry.contents),
        registry::loaded_contents(Some(toml->Ok_0@)) == Ok::<IndexView, ErrorView>(
            reloaded.contents,
        ),
        reloaded.index_path == registry.index_path,
        reloaded.artifact_dir == registry.artifact_dir,
    ensures
        reloaded == registry,
        forall|a: Seq<PackageSummary>, b: Seq<PackageSummary>|
            #[trigger] registry::lists(registry, a) && #[trigger] registry::lists(reloaded, b)
                ==> a.len() == b.len() && forall|i: int|
                0 <= i < a.len() ==> same_summary(#[trigger] a[i], b[i]),
        forall|
            package: Seq<char>,
            version: Option<VersionView>,
            a: Option<PackageSummary>,
            b: Option<PackageSummary>,
        |
            #[trigger] registry::shows(registry, package, version, a)
                && #[trigger] registry::shows(reloaded, package, version, b) ==> (a is Some
                <==> b is Some) && (a is Some ==> same_summary(a->0, b->0)),
{
    assert(reloaded =~= registry);
    assert forall|a: Seq<PackageSummary>, b: Seq<PackageSummary>|
        #[trigger] registry::lists(registry, a) && #[trigger] registry::lists(
            reloaded,
            b,
        ) implies a.len() == b.len() && forall|i: int|
        0 <= i < a.len() ==> same_summary(#[trigger] a[i], b[i]) by {
        listing_is_determined(registry, a, b);
    }
    assert forall|
        package: Seq<char>,
        version: Option<VersionView>,
        a: Option<PackageSummary>,
        b: Option<PackageSummary>,
    |
        #[trigger] registry::shows(registry, package, version, a) && #[trigger] registry::shows(
            reloaded,
            package,
            version,
            b,
        ) implies (a is Some <==> b is Some) && (a is Some ==> same_summary(a->0, b->0)) by {
        showing_is_determined(registry, package, version, a, b);
    }
}

/// The name of an artifact is one name: it has no separator.
proof fn lemma_artifact_name(digest: Seq<u8>)
    ensures
        registry::artifact_name(digest).len() > 1,
        forall|i: int|
            0 <= i < registry::artifact_name(digest).len() ==> registry::artifact_name(digest)[i]
                != files::SEPARATOR,
{
    reveal_strlit("0x");
    reveal_strlit(".masp");
    let text = word::word_text(digest) + ".masp"@;
    assert forall|i: int| 0 <= i < text.len() implies '\0' <= (#[trigger] text[i]) <= '\u{7f}' && (
    text[i] as u8) != files::SEPARATOR by {}
    is_ascii_chars_encode_utf8(text);
}

/// An artifact is in the directory of the artifacts, under a name of its own: different digests
/// give different paths.
pub proof fn artifact_paths_are_different(artifact_dir: PathView, a: Seq<u8>, b: Seq<u8>)
    ensures
        files::components(registry::digest_path(artifact_dir, a)) == files::components(
            artifact_dir,
        ).push(registry::artifact_name(a)),
        files::same_path(
            registry::digest_path(artifact_dir, a),
            registry::digest_path(artifact_dir, b),
        ) <==> a == b,
{
    lemma_artifact_name(a);
    lemma_artifact_name(b);
    files::joined_name_is_one_component(artifact_dir, registry::artifact_name(a));
    files::joined_name_is_one_component(artifact_dir, registry::artifact_name(b));
    if files::same_path(
        registry::digest_path(artifact_dir, a),
        registry::digest_path(artifact_dir, b),
    ) {
        let directory = files::components(artifact_dir);
        assert(directory.push(registry::artifact_name(a)).last() == registry::artifact_name(a));
        assert(directory.push(registry::artifact_name(b)).last() == registry::artifact_name(b));
        let x = word::word_text(a) + ".masp"@;
        let y = word::word_text(b) + ".masp"@;
        encode_utf8_decode_utf8(x);
        encode_utf8_decode_utf8(y);
        assert(x == y);
        assert(a.len() == b.len());
        assert forall|i: int| 0 <= i < a.len() implies a[i] == b[i] by {
            let start = "0x"@.len() as int;
            assert(x[start + 2 * i] == word::hex(a)[2 * i]);
            assert(y[start + 2 * i] == word::hex(b)[2 * i]);
            assert(x[start + 2 * i + 1] == word::hex(a)[2 * i + 1]);
            assert(y[start + 2 * i + 1] == word::hex(b)[2 * i + 1]);
            lemma_hex_digit(a[i] as int / 16, b[i] as int / 16);
            lemma_hex_digit(a[i] as int % 16, b[i] as int % 16);
        }
        assert(a =~= b);
    }
}

proof fn lemma_hex_digit(a: int, b: int)
    requires
        0 <= a < 16,
        0 <= b < 16,
        word::hex_digit(a) == word::hex_digit(b),
    ensures
        a == b,
{
}

/// A registry, and the files that are written when packages are published.
#[verifier::ext_equal]
pub struct StoreView {
    pub registry: RegistryView,
    /// The contents of the files, by the components of their paths.
    pub files: Map<ComponentsView, Seq<u8>>,
}

/// A package that is published, and its serialized form.
#[verifier::ext_equal]
pub struct PublishView {
    pub package: PackageView,
    pub bytes: Seq<u8>,
}

/// The store once a package is published: a package that cannot be published changes nothing.
pub open spec fn published(store: StoreView, publish: PublishView) -> StoreView {
    match registry::published_contents(store.registry.contents, publish.package) {
        Ok(contents) => StoreView {
            registry: RegistryView { contents, ..store.registry },
            files: store.files.insert(
                files::components(
                    registry::digest_path(store.registry.artifact_dir, publish.package.digest),
                ),
                publish.bytes,
            ),
        },
        Err(_) => store,
    }
}

/// The store once packages are published, one after the other.
pub open spec fn published_all(store: StoreView, publishes: Seq<PublishView>) -> StoreView
    decreases publishes.len(),
{
    if publishes.len() == 0 {
        store
    } else {
        published(published_all(store, publishes.drop_last()), publishes.last())
    }
}

/// The packages are those that the serialized forms hold.
pub open spec fn are_decoded(publishes: Seq<PublishView>) -> bool {
    forall|i: int|
        0 <= i < publishes.len() ==> package::holds(
            (#[trigger] publishes[i]).bytes,
            publishes[i].package,
        )
}

/// What is loaded from a store.
pub open spec fn loaded(store: StoreView, name: Seq<char>, version: VersionView) -> Result<
    PackageView,
    ErrorView,
> {
    registry::loaded_package(
        store.registry,
        name,
        version,
        match registry::version_path(store.registry.artifact_dir, version) {
            Some(path) => if store.files.contains_key(files::components(path)) {
                ArtifactView::Contents(store.files[files::components(path)])
            } else {
                ArtifactView::Absent
            },
            None => ArtifactView::Absent,
        },
    )
}

/// What is loaded is the package with the name, the semantic version and the digest that were asked
/// for, whatever stands in the file.
pub proof fn loaded_package_is_the_one_asked_for(
    registry: RegistryView,
    name: Seq<char>,
    version: VersionView,
    artifact: ArtifactView,
)
    ensures
        registry::loaded_package(registry, name, version, artifact) matches Ok(package) ==> {
            &&& package.name == name
            &&& package.version == version.version
            &&& Some(package.digest) == version.digest
            &&& index::has_exact(registry.contents, name, version)
        },
{
}

proof fn lemma_published_all(store: StoreView, publishes: Seq<PublishView>)
    ensures
        published_all(store, publishes).registry.artifact_dir == store.registry.artifact_dir,
        published_all(store, publishes).registry.index_path == store.registry.index_path,
    decreases publishes.len(),
{
    if publishes.len() > 0 {
        lemma_published_all(store, publishes.drop_last());
    }
}

/// Whatever is published, one package after the other, to a registry without artifacts, what is
/// loaded is a package that was published, under its own name and exact version.
pub proof fn loaded_package_was_published(
    store: StoreView,
    publishes: Seq<PublishView>,
    name: Seq<char>,
    version: VersionView,
)
    requires
        store.files == Map::<ComponentsView, Seq<u8>>::empty(),
        are_decoded(publishes),
    ensures
        loaded(published_all(store, publishes), name, version) matches Ok(package) ==> {
            &&& package.name == name
            &&& VersionView::exact(package.version, package.digest) == version
            &&& exists|i: int|
                0 <= i < publishes.len() && package == package::read_from(
                    (#[trigger] publishes[i]).package,
                    publishes[i].bytes,
                )
        },
{
    let after = published_all(store, publishes);
    if let Some(path) = registry::version_path(after.registry.artifact_dir, version) {
        lemma_file_was_published(store, publishes, files::components(path));
    }
}

proof fn lemma_file_was_published(
    store: StoreView,
    publishes: Seq<PublishView>,
    path: ComponentsView,
)
    requires
        store.files == Map::<ComponentsView, Seq<u8>>::empty(),
    ensures
        published_all(store, publishes).files.contains_key(path) ==> exists|i: int|
            0 <= i < publishes.len() && (#[trigger] publishes[i]).bytes == published_all(
                store,
                publishes,
            ).files[path],
    decreases publishes.len(),
{
    if publishes.len() > 0 {
        let rest = publishes.drop_last();
        lemma_file_was_published(store, rest, path);
        let before = published_all(store, rest);
        let after = published_all(store, publishes);
        if after.files.contains_key(path) {
            if before.files.contains_key(path) && after.files[path] == before.files[path] {
                let i = choose|i: int|
                    0 <= i < rest.len() && (#[trigger] rest[i]).bytes == before.files[path];
                assert(publishes[i] == rest[i]);
            } else {
                assert(publishes[publishes.len() - 1].bytes == after.files[path]);
            }
        }
    }
}

/// A package that was published stays loadable, as it was published, after any later publications of
/// packages with other digests.
pub proof fn published_package_stays_loadable(
    store: StoreView,
    publish: PublishView,
    later: Seq<PublishView>,
)
    requires
        package::holds(publish.bytes, publish.package),
        registry::published_contents(store.registry.contents, publish.package) is Ok,
        forall|i: int|
            0 <= i < later.len() ==> (#[trigger] later[i]).package.digest
                != publish.package.digest,
    ensures
        loaded(
            published_all(published(store, publish), later),
            publish.package.name,
            VersionView::exact(publish.package.version, publish.package.digest),
        ) == Ok::<PackageView, ErrorView>(package::read_from(publish.package, publish.bytes)),
{
    lemma_stays(store, publish, later);
    lemma_published_all(published(store, publish), later);
}

proof fn lemma_stays(store: StoreView, publish: PublishView, later: Seq<PublishView>)
    requires
        registry::published_contents(store.registry.contents, publish.package) is Ok,
        forall|i: int|
            0 <= i < later.len() ==> (#[trigger] later[i]).package.digest
                != publish.package.digest,
    ensures
        ({
            let after = published_all(published(store, publish), later);
            let path = files::components(
                registry::digest_path(store.registry.artifact_dir, publish.package.digest),
            );
            &&& index::has_exact(
                after.registry.contents,
                publish.package.name,
                VersionView::exact(publish.package.version, publish.package.digest),
            )
            &&& after.files.contains_key(path)
            &&& after.files[path] == publish.bytes
        }),
    decreases later.len(),
{
    let start = published(store, publish);
    if later.len() > 0 {
        let rest = later.drop_last();
        assert forall|i: int| 0 <= i < rest.len() implies (#[trigger] rest[i]).package.digest
            != publish.package.digest by {
            assert(rest[i] == later[i]);
        }
        lemma_stays(store, publish, rest);
        lemma_published_all(start, rest);
        let last = later[later.len() - 1];
        artifact_paths_are_different(
            store.registry.artifact_dir,
            last.package.digest,
            publish.package.digest,
        );
        let before = published_all(start, rest);
        if publish.package.name != last.package.name || publish.package.version
            != last.package.version {
            registry::publishing_keeps_other_versions(
                before.registry.contents,
                last.package,
                publish.package.name,
                publish.package.version,
            );
        }
    }
}

} // verus!
