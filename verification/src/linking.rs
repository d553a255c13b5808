//! What linking a package records: its runtime dependencies and its kernel.

use std::io::Cursor;
use std::sync::Arc;

use miden_core::serde::{Deserializable, Serializable};
use miden_mast_package::Package as MastPackage;
use vstd::prelude::*;

use crate::files;
use crate::package;
use crate::package::{
    DependencyView, Package, PackageDependency, PackageView, Section, SectionView, TargetType,
    KERNEL,
};
use crate::text;
use crate::version::VersionView;

verus! {

/// How a dependency is linked.
#[derive(Clone, Copy, Debug, PartialEq, Eq, Structural)]
pub enum Linkage {
    /// The dependency is loaded at run time.
    Dynamic,
    /// The code of the dependency is copied into the package.
    Static,
}

impl Linkage {
    /// How a linkage is displayed.
    pub open spec fn name(self) -> Seq<char> {
        match self {
            Linkage::Dynamic => "dynamic"@,
            Linkage::Static => "static"@,
        }
    }

    /// How the linkage is displayed.
    pub fn as_str(&self) -> (text: &'static str)
        ensures
            text@ == self.name(),
    {
        match self {
            Linkage::Dynamic => "dynamic",
            Linkage::Static => "static",
        }
    }
}

/// The dependency with this name in a list.
pub open spec fn lookup(list: Seq<DependencyView>, name: Seq<char>) -> Option<DependencyView>
    decreases list.len(),
{
    if list.len() == 0 {
        None
    } else if list[0].name == name {
        Some(list[0])
    } else {
        lookup(list.drop_first(), name)
    }
}

/// The list with one more dependency, in front of the first one whose name comes after its name.
pub open spec fn inserted(list: Seq<DependencyView>, dependency: DependencyView) -> Seq<
    DependencyView,
>
    decreases list.len(),
{
    if list.len() == 0 || text::text_lt(dependency.name, list[0].name) {
        seq![dependency] + list
    } else {
        seq![list[0]] + inserted(list.drop_first(), dependency)
    }
}

/// The names of the list are in strictly ascending order: none occurs twice.
pub open spec fn ascending(list: Seq<DependencyView>) -> bool {
    forall|i: int, j: int|
        0 <= i < j < list.len() ==> text::text_lt(#[trigger] list[i].name, #[trigger] list[j].name)
}

/// The message on two dependencies of the same name that are not the same artifact.
pub open spec fn runtime_conflict(existing: DependencyView, incoming: DependencyView) -> Seq<char> {
    "conflicting runtime dependency '"@ + incoming.name + "' resolved to versions '"@
        + VersionView::exact(existing.version, existing.digest).text() + "' and '"@
        + VersionView::exact(incoming.version, incoming.digest).text() + "'"@
}

/// The list with `dependency` in it, or the message on the conflict with what is in it.
pub open spec fn merged(list: Seq<DependencyView>, dependency: DependencyView) -> Result<
    Seq<DependencyView>,
    Seq<char>,
> {
    match lookup(list, dependency.name) {
        Some(existing) => if existing.version == dependency.version && existing.kind
            == dependency.kind && existing.digest == dependency.digest {
            Ok(list)
        } else {
            Err(runtime_conflict(existing, dependency))
        },
        None => Ok(inserted(list, dependency)),
    }
}

/// The list with every one of `dependencies` in it, merged one after the other.
pub open spec fn all_merged(
    list: Seq<DependencyView>,
    dependencies: Seq<DependencyView>,
) -> Result<Seq<DependencyView>, Seq<char>>
    decreases dependencies.len(),
{
    if dependencies.len() == 0 {
        Ok(list)
    } else {
        match merged(list, dependencies[0]) {
            Ok(list) => all_merged(list, dependencies.drop_first()),
            Err(error) => Err(error),
        }
    }
}

/// The dependency on a package.
pub open spec fn dependency_on(package: PackageView) -> DependencyView {
    DependencyView {
        name: package.name,
        version: package.version,
        kind: package.kind,
        digest: package.digest,
    }
}

/// `name@version#digest` of a package.
pub open spec fn identity_text(package: PackageView) -> Seq<char> {
    package.name + "@"@ + VersionView::exact(package.version, package.digest).text()
}

/// What linking has recorded so far: the runtime dependencies, by name, and the kernel.
#[verifier::ext_equal]
pub struct LinkView {
    pub dependencies: Seq<DependencyView>,
    pub kernel: Option<PackageView>,
}

/// What is recorded once `package` is the kernel, or the message on the conflict.
pub open spec fn kernel_recorded(state: LinkView, package: PackageView) -> Result<
    LinkView,
    Seq<char>,
> {
    match merged(state.dependencies, dependency_on(package)) {
        Err(error) => Err(error),
        Ok(dependencies) => match state.kernel {
            None => Ok(LinkView { dependencies, kernel: Some(package) }),
            Some(existing) => if existing.name == package.name && existing.version
                == package.version && existing.digest == package.digest {
                Ok(LinkView { dependencies, kernel: Some(existing) })
            } else {
                Err(
                    "conflicting linked kernel packages '"@ + identity_text(existing) + "' and '"@
                        + identity_text(package) + "'"@,
                )
            },
        },
    }
}

/// The dependency on `package`.
pub fn package_dependency(package: &Package) -> (dependency: PackageDependency)
    ensures
        dependency@ == dependency_on(package@),
{
    PackageDependency {
        name: package.name().to_string(),
        version: package.version().clone(),
        kind: package.kind(),
        digest: package.digest(),
    }
}

proof fn lemma_lookup_at(list: Seq<DependencyView>, name: Seq<char>, i: int)
    requires
        0 <= i < list.len(),
        list[i].name == name,
        forall|j: int| 0 <= j < i ==> (#[trigger] list[j]).name != name,
    ensures
        lookup(list, name) == Some(list[i]),
    decreases i,
{
    if i > 0 {
        assert(list[0].name != name);
        assert forall|j: int| 0 <= j < i - 1 implies (#[trigger] list.drop_first()[j]).name != name by {
            assert(list.drop_first()[j] == list[j + 1]);
        }
        lemma_lookup_at(list.drop_first(), name, i - 1);
    }
}

proof fn lemma_lookup_none(list: Seq<DependencyView>, name: Seq<char>)
    requires
        forall|j: int| 0 <= j < list.len() ==> (#[trigger] list[j]).name != name,
    ensures
        lookup(list, name) is None,
    decreases list.len(),
{
    if list.len() > 0 {
        assert(list[0].name != name);
        assert forall|j: int| 0 <= j < list.len() - 1 implies (#[trigger] list.drop_first()[j]).name
            != name by {
            assert(list.drop_first()[j] == list[j + 1]);
        }
        lemma_lookup_none(list.drop_first(), name);
    }
}

proof fn lemma_inserted_at(list: Seq<DependencyView>, dependency: DependencyView, i: int)
    requires
        0 <= i <= list.len(),
        i < list.len() ==> text::text_lt(dependency.name, list[i].name),
        forall|j: int| 0 <= j < i ==> !text::text_lt(dependency.name, (#[trigger] list[j]).name),
    ensures
        inserted(list, dependency) == list.insert(i, dependency),
    decreases i,
{
    if i == 0 {
        assert(seq![dependency] + list =~= list.insert(0, dependency));
    } else {
        assert(!text::text_lt(dependency.name, list[0].name));
        assert forall|j: int| 0 <= j < i - 1 implies !text::text_lt(
            dependency.name,
            (#[trigger] list.drop_first()[j]).name,
        ) by {
            assert(list.drop_first()[j] == list[j + 1]);
        }
        lemma_inserted_at(list.drop_first(), dependency, i - 1);
        assert(seq![list[0]] + list.drop_first().insert(i - 1, dependency) =~= list.insert(
            i,
            dependency,
        ));
    }
}

/// Records one more runtime dependency. One that is recorded already has to be the same artifact.
pub fn merge_runtime_dependency(
    dependencies: &mut Vec<PackageDependency>,
    dependency: PackageDependency,
) -> (result: Result<(), String>)
    ensures
        match (result, merged(package::dependency_views(old(dependencies)@), dependency@)) {
            (Ok(()), Ok(list)) => package::dependency_views(final(dependencies)@) == list,
            (Err(error), Err(message)) => error@ == message && final(dependencies)@
                == old(dependencies)@,
            _ => false,
        },
{
    let ghost before = package::dependency_views(dependencies@);
    let mut i: usize = 0;
    while i < dependencies.len()
        invariant
            i <= dependencies@.len(),
            dependencies@ == old(dependencies)@,
            before == package::dependency_views(dependencies@),
            forall|j: int| 0 <= j < i ==> (#[trigger] before[j]).name != dependency@.name,
        decreases dependencies.len() - i,
    {
        let existing = &dependencies[i];
        assert(before[i as int] == existing@);
        if text::same_text(existing.name.as_str(), dependency.name.as_str()) {
            proof {
                lemma_lookup_at(before, dependency@.name, i as int);
            }
            if existing.version == dependency.version && existing.kind == dependency.kind
                && existing.digest == dependency.digest {
                return Ok(());
            }
            let mut message = "conflicting runtime dependency '".to_string();
            message.append(dependency.name.as_str());
            message.append("' resolved to versions '");
            message.append(version_text(existing).as_str());
            message.append("' and '");
            message.append(version_text(&dependency).as_str());
            message.append("'");
            return Err(message);
        }
        i += 1;
    }
    proof {
        lemma_lookup_none(before, dependency@.name);
    }
    let mut position: usize = 0;
    while position < dependencies.len() && !text::text_less(
        dependency.name.as_str(),
        dependencies[position].name.as_str(),
    )
        invariant
            position <= dependencies@.len(),
            dependencies@ == old(dependencies)@,
            before == package::dependency_views(dependencies@),
            forall|j: int|
                0 <= j < position ==> !text::text_lt(dependency@.name, (#[trigger] before[j]).name),
        decreases dependencies.len() - position,
    {
        assert(before[position as int] == dependencies@[position as int]@);
        position += 1;
    }
    proof {
        if position < dependencies.len() {
            assert(before[position as int] == dependencies@[position as int]@);
        }
        lemma_inserted_at(before, dependency@, position as int);
    }
    let ghost added = dependency@;
    dependencies.insert(position, dependency);
    assert(package::dependency_views(dependencies@) =~= before.insert(position as int, added));
    Ok(())
}

/// `semver#digest` of a dependency.
fn version_text(dependency: &PackageDependency) -> (text: String)
    ensures
        text@ == VersionView::exact(dependency@.version, dependency@.digest).text(),
{
    let mut text = dependency.version.as_str().to_string();
    text.append("#");
    text.append(dependency.digest.text().as_str());
    text
}

/// `name@version#digest` of a package.
fn identity(package: &Package) -> (text: String)
    ensures
        text@ == identity_text(package@),
{
    let mut text = package.name().to_string();
    text.append("@");
    text.append(package.exact_version().text().as_str());
    text
}

/// The view of an optional package.
pub open spec fn optional_package(package: Option<Arc<Package>>) -> Option<PackageView> {
    match package {
        Some(package) => Some(package@),
        None => None,
    }
}

/// Records the kernel that is linked: as a runtime dependency, and as the kernel. All the packages
/// that are linked have to agree on one. Where they do not, the kernel stays what it was.
pub fn record_linked_kernel_dependency(
    dependencies: &mut Vec<PackageDependency>,
    linked_kernel_package: &mut Option<Arc<Package>>,
    package: Arc<Package>,
) -> (result: Result<(), String>)
    requires
        package@.kind is Kernel,
    ensures
        match (
            result,
            kernel_recorded(
                LinkView {
                    dependencies: package::dependency_views(old(dependencies)@),
                    kernel: optional_package(*old(linked_kernel_package)),
                },
                package@,
            ),
        ) {
            (Ok(()), Ok(state)) => state == (LinkView {
                dependencies: package::dependency_views(final(dependencies)@),
                kernel: optional_package(*final(linked_kernel_package)),
            }),
            (Err(error), Err(message)) => error@ == message,
            _ => false,
        },
        *final(linked_kernel_package) == *old(linked_kernel_package)
            || *final(linked_kernel_package) == Some(package),
        result is Err ==> *final(linked_kernel_package) == *old(linked_kernel_package),
{
    match merge_runtime_dependency(dependencies, package_dependency(&package)) {
        Ok(()) => {},
        Err(error) => return Err(error),
    }
    let conflict: Option<String> = match &*linked_kernel_package {
        Some(existing) => {
            if text::same_text(existing.name(), package.name()) && *existing.version()
                == *package.version() && existing.digest() == package.digest() {
                return Ok(());
            }
            let mut message = "conflicting linked kernel packages '".to_string();
            message.append(identity(existing).as_str());
            message.append("' and '");
            message.append(identity(&package).as_str());
            message.append("'");
            Some(message)
        },
        None => None,
    };
    match conflict {
        Some(message) => Err(message),
        None => {
            *linked_kernel_package = Some(package);
            Ok(())
        },
    }
}

/// The section in which an executable carries the kernel that it was assembled against.
pub fn linked_kernel_package_section(package: &Package) -> (section: Section)
    ensures
        section@ == (SectionView { id: KERNEL@, data: package@.encoded }),
{
    let data = package.to_bytes();
    let mut copy: Vec<u8> = Vec::new();
    copy.extend_from_slice(data.as_slice());
    assert(copy@ =~= data@);
    Section { id: KERNEL.to_string(), data: copy }
}

/// The dependencies of a list that are kernels.
pub open spec fn kernels(list: Seq<DependencyView>) -> Seq<DependencyView> {
    list.filter(|dependency: DependencyView| dependency.kind is Kernel)
}

/// The kernel that a package needs at run time. It may not need more than one.
pub open spec fn kernel_dependency(package: PackageView) -> Result<
    Option<DependencyView>,
    Seq<char>,
> {
    let kernels = kernels(package.dependencies);
    if kernels.len() == 0 {
        Ok(None)
    } else if kernels.len() == 1 {
        Ok(Some(kernels[0]))
    } else {
        Err("package '"@ + package.name + "' declares multiple kernel runtime dependencies"@)
    }
}

/// The kernel that `package` needs at run time, if it needs one.
pub fn kernel_runtime_dependency(package: &Package) -> (dependency: Result<
    Option<PackageDependency>,
    String,
>)
    ensures
        match (dependency, kernel_dependency(package@)) {
            (Ok(None), Ok(None)) => true,
            (Ok(Some(dependency)), Ok(Some(expected))) => dependency@ == expected,
            (Err(error), Err(message)) => error@ == message,
            _ => false,
        },
{
    let dependencies = package.dependencies();
    let ghost views = package@.dependencies;
    let mut found: Option<PackageDependency> = None;
    let mut i: usize = 0;
    proof {
        reveal(Seq::filter);
        assert(views.take(0) =~= Seq::<DependencyView>::empty());
    }
    while i < dependencies.len()
        invariant
            i <= dependencies@.len(),
            views == package::dependency_views(dependencies@),
            views == package@.dependencies,
            match found {
                None => kernels(views.take(i as int)).len() == 0,
                Some(found) => kernels(views.take(i as int)) =~= seq![found@],
            },
        decreases dependencies.len() - i,
    {
        let dependency = &dependencies[i];
        proof {
            reveal(Seq::filter);
            assert(views.take(i + 1).drop_last() =~= views.take(i as int));
            assert(views.take(i + 1).last() == dependency@);
        }
        if dependency.kind == TargetType::Kernel {
            if found.is_some() {
                proof {
                    lemma_more_kernels(views, i + 1);
                }
                let mut message = "package '".to_string();
                message.append(package.name());
                message.append("' declares multiple kernel runtime dependencies");
                return Err(message);
            }
            found = Some(dependency.clone());
        }
        i += 1;
    }
    assert(views.take(i as int) =~= views);
    Ok(found)
}

/// The sections of a list that hold kernels.
pub open spec fn kernel_sections(list: Seq<SectionView>) -> Seq<SectionView> {
    list.filter(|section: SectionView| section.id == KERNEL@)
}

/// The package in the only kernel section of a package, or the text of the error. There is none
/// where there is no kernel section, or more than one.
pub open spec fn section_kernel(package: PackageView) -> Option<Result<PackageView, Seq<char>>> {
    let sections = kernel_sections(package.sections);
    if sections.len() == 1 {
        Some(package::decoded_package(sections[0].data))
    } else {
        None
    }
}

/// The serialized form of the kernel package that `miden_mast_package` finds in the package in
/// `bytes`, if it embeds one, or the text of the error with which what it embeds is refused.
pub uninterp spec fn extracted_kernel(bytes: Seq<u8>) -> Result<Option<Seq<u8>>, Seq<char>>;

/// What is extracted is the package in the only kernel section. It is a kernel, and the one that the
/// package needs at run time. Nothing is extracted where there is no kernel section.
pub open spec fn is_extracted(package: PackageView, extracted: Option<Vec<u8>>) -> bool {
    match (extracted, section_kernel(package)) {
        (None, _) => kernel_sections(package.sections).len() == 0,
        (Some(bytes), Some(Ok(kernel))) => {
            &&& bytes@ == kernel.encoded
            &&& kernel.kind is Kernel
            &&& kernel_dependency(package) == Ok::<Option<DependencyView>, Seq<char>>(
                Some(dependency_on(kernel)),
            )
        },
        _ => false,
    }
}

/// `miden_mast_package::Package::try_embedded_kernel_package`, and `to_bytes` on what it returns:
/// the kernel package that the package in `bytes` embeds, serialized. It is a function of the bytes
/// alone. The call reads the package in the only kernel section without a check of the lengths in
/// it, so that section has to hold a package. What is returned is that package, a kernel, and the
/// one that the package in `bytes` declares as its kernel at run time. A package without a kernel
/// section gives none.
#[verifier::external_body]
fn extract_kernel(bytes: &[u8]) -> (kernel: Result<Option<Vec<u8>>, String>)
    requires
        package::decoded_package(bytes@) is Ok,
        section_kernel(package::decoded_package(bytes@)->Ok_0) matches Some(kernel) ==> kernel is Ok,
    ensures
        match (kernel, extracted_kernel(bytes@)) {
            (Ok(Some(kernel)), Ok(Some(expected))) => kernel@ == expected,
            (Ok(None), Ok(None)) => true,
            (Err(error), Err(expected)) => error@ == expected,
            _ => false,
        },
        kernel matches Ok(kernel) ==> is_extracted(package::decoded_package(bytes@)->Ok_0, kernel),
{
    let package = MastPackage::read_from(&mut Cursor::new(bytes)).unwrap();
    match package.try_embedded_kernel_package() {
        Ok(kernel) => Ok(kernel.map(|kernel| kernel.to_bytes())),
        Err(error) => Err(error.to_string()),
    }
}

/// The message on a kernel section that holds no package.
pub open spec fn undecoded_kernel(package: PackageView, error: Seq<char>) -> Seq<char> {
    "failed to decode embedded kernel package for '"@ + package.name + "': "@ + error
}

/// The kernel package that a package embeds, if it embeds one: the package in its only kernel
/// section, if that is the kernel that is extracted.
pub open spec fn embedded_kernel(package: PackageView) -> Result<Option<PackageView>, Seq<char>> {
    match section_kernel(package) {
        Some(Err(error)) => Err(undecoded_kernel(package, error)),
        Some(Ok(kernel)) => found_kernel(extracted_kernel(package.source), Some(kernel)),
        None => found_kernel(extracted_kernel(package.source), None),
    }
}

/// The kernel of a package, given what was extracted and the package in its kernel section.
pub open spec fn found_kernel(
    extracted: Result<Option<Seq<u8>>, Seq<char>>,
    kernel: Option<PackageView>,
) -> Result<Option<PackageView>, Seq<char>> {
    match extracted {
        Err(message) => Err(message),
        Ok(None) => Ok(None),
        Ok(Some(_)) => Ok(kernel),
    }
}

/// The kernel of a package, given what was extracted and the package in its kernel section.
pub fn find_kernel(
    extracted: Result<Option<Vec<u8>>, String>,
    kernel: Option<Arc<Package>>,
) -> (found: Result<Option<Arc<Package>>, String>)
    ensures
        match extracted {
            Err(message) => found matches Err(error) && error@ == message@,
            Ok(None) => found matches Ok(None),
            Ok(Some(_)) => found == Ok::<Option<Arc<Package>>, String>(kernel),
        },
{
    match extracted {
        Err(message) => Err(message),
        Ok(None) => Ok(None),
        Ok(Some(_)) => Ok(kernel),
    }
}

/// The only kernel section of a package, if it has exactly one.
fn find_kernel_section(package: &Package) -> (section: Option<&Section>)
    ensures
        ({
            let sections = kernel_sections(package@.sections);
            match section {
                None => sections.len() != 1,
                Some(section) => sections =~= seq![section@],
            }
        }),
{
    let sections = package.sections();
    let ghost views = package@.sections;
    let mut found: Option<&Section> = None;
    let mut i: usize = 0;
    proof {
        reveal(Seq::filter);
        assert(views.take(0) =~= Seq::<SectionView>::empty());
    }
    while i < sections.len()
        invariant
            i <= sections@.len(),
            views == package::section_views(sections@),
            views == package@.sections,
            match found {
                None => kernel_sections(views.take(i as int)).len() == 0,
                Some(found) => kernel_sections(views.take(i as int)) =~= seq![found@],
            },
        decreases sections.len() - i,
    {
        let section = &sections[i];
        proof {
            reveal(Seq::filter);
            assert(views.take(i + 1).drop_last() =~= views.take(i as int));
            assert(views.take(i + 1).last() == section@);
        }
        if text::same_text(section.id.as_str(), KERNEL) {
            if found.is_some() {
                proof {
                    lemma_more_kernel_sections(views, i + 1);
                }
                return None;
            }
            found = Some(section);
        }
        i += 1;
    }
    assert(views.take(i as int) =~= views);
    found
}

proof fn lemma_more_kernel_sections(list: Seq<SectionView>, i: int)
    requires
        0 <= i <= list.len(),
    ensures
        kernel_sections(list.take(i)).len() <= kernel_sections(list).len(),
    decreases list.len() - i,
{
    if i < list.len() {
        reveal(Seq::filter);
        assert(list.take(i + 1).drop_last() =~= list.take(i));
        lemma_more_kernel_sections(list, i + 1);
    } else {
        assert(list.take(i) =~= list);
    }
}

/// The kernel package that `package` embeds, if it embeds one. It is a kernel, and the one that
/// `package` needs at run time.
pub fn embedded_kernel_package(package: &Package) -> (kernel: Result<Option<Arc<Package>>, String>)
    ensures
        match (kernel, embedded_kernel(package@)) {
            (Ok(kernel), Ok(expected)) => optional_package(kernel) == expected,
            (Err(error), Err(message)) => error@ == message,
            _ => false,
        },
        kernel matches Ok(None) ==> kernel_sections(package@.sections).len() == 0,
        kernel matches Ok(Some(kernel)) ==> {
            &&& kernel@.kind is Kernel
            &&& section_kernel(package@) == Some(Ok::<PackageView, Seq<char>>(kernel@))
            &&& kernel_dependency(package@) == Ok::<Option<DependencyView>, Seq<char>>(
                Some(dependency_on(kernel@)),
            )
        },
{
    let kernel = match find_kernel_section(package) {
        Some(section) => match Package::from_bytes(files::copied(section.data.as_slice())) {
            Ok(kernel) => Some(Arc::new(kernel)),
            Err(error) => {
                let mut message = "failed to decode embedded kernel package for '".to_string();
                message.append(package.name());
                message.append("': ");
                message.append(error.as_str());
                return Err(message);
            },
        },
        None => None,
    };
    find_kernel(extract_kernel(package.source().as_slice()), kernel)
}

proof fn lemma_more_kernels(list: Seq<DependencyView>, i: int)
    requires
        0 <= i <= list.len(),
    ensures
        kernels(list.take(i)).len() <= kernels(list).len(),
    decreases list.len() - i,
{
    if i < list.len() {
        reveal(Seq::filter);
        assert(list.take(i + 1).drop_last() =~= list.take(i));
        lemma_more_kernels(list, i + 1);
    } else {
        assert(list.take(i) =~= list);
    }
}

/// A package that is ready to be linked, and the kernel that it was assembled against.
#[derive(Debug)]
pub struct ResolvedPackage {
    pub(crate) package: Arc<Package>,
    pub(crate) linked_kernel_package: Option<Arc<Package>>,
}

/// The mathematical counterpart of [`ResolvedPackage`].
#[verifier::ext_equal]
pub struct ResolvedView {
    pub package: PackageView,
    pub kernel: Option<PackageView>,
}

impl View for ResolvedPackage {
    type V = ResolvedView;

    closed spec fn view(&self) -> ResolvedView {
        ResolvedView { package: self.package@, kernel: optional_package(self.linked_kernel_package) }
    }
}

impl Clone for ResolvedPackage {
    fn clone(&self) -> (copy: ResolvedPackage)
        ensures
            copy@ == self@,
            copy.shared_package() == self.shared_package(),
    {
        proof {
            use_type_invariant(self);
        }
        let linked_kernel_package = match &self.linked_kernel_package {
            Some(kernel) => Some(text::share(kernel)),
            None => None,
        };
        ResolvedPackage { package: text::share(&self.package), linked_kernel_package }
    }
}

impl ResolvedPackage {
    #[verifier::type_invariant]
    spec fn kernel_is_kernel(self) -> bool {
        self.linked_kernel_package matches Some(kernel) ==> kernel@.kind is Kernel
    }

    /// The package itself.
    pub closed spec fn shared_package(self) -> Arc<Package> {
        self.package
    }

    /// A package with the kernel that it was assembled against.
    pub fn new(package: Arc<Package>, kernel: Option<Arc<Package>>) -> (resolved: ResolvedPackage)
        requires
            kernel matches Some(kernel) ==> kernel@.kind is Kernel,
        ensures
            resolved@ == (ResolvedView { package: package@, kernel: optional_package(kernel) }),
            resolved.shared_package() == package,
    {
        ResolvedPackage { package, linked_kernel_package: kernel }
    }

    /// The package itself.
    pub fn package(&self) -> (package: &Arc<Package>)
        ensures
            *package == self.shared_package(),
            package@ == self@.package,
    {
        &self.package
    }

    /// The kernel that the package brings along: itself, or the one that it was assembled against.
    pub fn kernel(&self) -> (kernel: Option<Arc<Package>>)
        ensures
            optional_package(kernel) == brought_kernel(self@),
            kernel matches Some(kernel) ==> kernel@.kind is Kernel,
    {
        proof {
            use_type_invariant(self);
        }
        if self.package.kind() == TargetType::Kernel {
            Some(text::share(&self.package))
        } else {
            match &self.linked_kernel_package {
                Some(kernel) => Some(text::share(kernel)),
                None => None,
            }
        }
    }
}

/// The kernel that a package brings along: itself, or the one that it was assembled against.
pub open spec fn brought_kernel(resolved: ResolvedView) -> Option<PackageView> {
    if resolved.package.kind is Kernel {
        Some(resolved.package)
    } else {
        resolved.kernel
    }
}

/// What is recorded once `resolved` has brought its kernel along.
pub open spec fn kernel_linked(state: LinkView, resolved: ResolvedView) -> Result<
    LinkView,
    Seq<char>,
> {
    match brought_kernel(resolved) {
        Some(kernel) => kernel_recorded(state, kernel),
        None => Ok(state),
    }
}

/// What is recorded once the dependency `resolved` is linked. A package that is linked dynamically
/// is recorded itself, and in any case what it needs at run time.
pub open spec fn dependency_linked(
    state: LinkView,
    resolved: ResolvedView,
    linkage: Linkage,
) -> Result<LinkView, Seq<char>> {
    match kernel_linked(state, resolved) {
        Err(error) => Err(error),
        Ok(state) => {
            let own = if linkage is Dynamic && !(resolved.package.kind is Kernel) {
                seq![dependency_on(resolved.package)]
            } else {
                Seq::empty()
            };
            match all_merged(state.dependencies, own + resolved.package.dependencies) {
                Err(error) => Err(error),
                Ok(dependencies) => Ok(LinkView { dependencies, kernel: state.kernel }),
            }
        },
    }
}

/// What linking has recorded so far.
#[derive(Debug)]
pub struct LinkState {
    pub(crate) dependencies: Vec<PackageDependency>,
    pub(crate) kernel: Option<Arc<Package>>,
}

impl View for LinkState {
    type V = LinkView;

    closed spec fn view(&self) -> LinkView {
        LinkView {
            dependencies: package::dependency_views(self.dependencies@),
            kernel: optional_package(self.kernel),
        }
    }
}

impl LinkState {
    #[verifier::type_invariant]
    spec fn kernel_is_kernel(self) -> bool {
        self.kernel matches Some(kernel) ==> kernel@.kind is Kernel
    }

    /// Nothing is recorded.
    pub fn new() -> (state: LinkState)
        ensures
            state@ == (LinkView { dependencies: Seq::empty(), kernel: None }),
    {
        let state = LinkState { dependencies: Vec::new(), kernel: None };
        assert(state@.dependencies =~= Seq::<DependencyView>::empty());
        state
    }

    /// Records the kernel that `resolved` brings along.
    pub fn link_kernel(self, resolved: &ResolvedPackage) -> (state: Result<LinkState, String>)
        ensures
            match (state, kernel_linked(self@, resolved@)) {
                (Ok(state), Ok(expected)) => state@ == expected,
                (Err(error), Err(message)) => error@ == message,
                _ => false,
            },
    {
        proof {
            use_type_invariant(&self);
        }
        match resolved.kernel() {
            None => Ok(self),
            Some(package) => {
                let mut dependencies = self.dependencies;
                let mut kernel = self.kernel;
                match record_linked_kernel_dependency(&mut dependencies, &mut kernel, package) {
                    Ok(()) => Ok(LinkState { dependencies, kernel }),
                    Err(error) => Err(error),
                }
            },
        }
    }

    /// Records what linking the dependency `resolved` brings along.
    pub fn link_dependency(self, resolved: &ResolvedPackage, linkage: Linkage) -> (state: Result<
        LinkState,
        String,
    >)
        ensures
            match (state, dependency_linked(self@, resolved@, linkage)) {
                (Ok(state), Ok(expected)) => state@ == expected,
                (Err(error), Err(message)) => error@ == message,
                _ => false,
            },
    {
        let state = match self.link_kernel(resolved) {
            Ok(state) => state,
            Err(error) => return Err(error),
        };
        proof {
            use_type_invariant(&state);
        }
        let ghost linked = state@;
        let kernel = state.kernel;
        let mut dependencies = state.dependencies;
        let package = resolved.package();
        let own = linkage == Linkage::Dynamic && package.kind() != TargetType::Kernel;
        let ghost all = (if own {
            seq![dependency_on(resolved@.package)]
        } else {
            Seq::empty()
        }) + resolved@.package.dependencies;
        let ghost start = if own { 1int } else { 0 };
        assert(all.skip(start) =~= resolved@.package.dependencies);
        if own {
            assert(all.drop_first() =~= all.skip(1));
            match merge_runtime_dependency(&mut dependencies, package_dependency(package)) {
                Ok(()) => {},
                Err(error) => return Err(error),
            }
        } else {
            assert(all.skip(0) =~= all);
        }
        let list = package.dependencies();
        let mut i: usize = 0;
        assert(list@.len() == resolved@.package.dependencies.len());
        while i < list.len()
            invariant
                i <= list@.len(),
                package::dependency_views(list@) == resolved@.package.dependencies,
                0 <= start <= 1,
                all.len() == start + list@.len(),
                all.skip(start) == resolved@.package.dependencies,
                all_merged(linked.dependencies, all) == all_merged(
                    package::dependency_views(dependencies@),
                    all.skip(start + i),
                ),
                kernel_linked(self@, resolved@) == Ok::<LinkView, Seq<char>>(linked),
                dependency_linked(self@, resolved@, linkage) == match all_merged(
                    linked.dependencies,
                    all,
                ) {
                    Err(error) => Err::<LinkView, Seq<char>>(error),
                    Ok(dependencies) => Ok(LinkView { dependencies, kernel: linked.kernel }),
                },
            decreases list.len() - i,
        {
            proof {
                assert(all.skip(start)[i as int] == list@[i as int]@);
                assert(all.skip(start + i)[0] == list@[i as int]@);
                assert(all.skip(start + i).drop_first() =~= all.skip(start + i + 1));
            }
            match merge_runtime_dependency(&mut dependencies, list[i].clone()) {
                Ok(()) => {},
                Err(error) => return Err(error),
            }
            i += 1;
        }
        assert(all.skip(start + i) =~= Seq::<DependencyView>::empty());
        Ok(LinkState { dependencies, kernel })
    }

    /// The runtime dependencies, in ascending order of their names.
    pub fn dependencies(&self) -> (dependencies: Vec<PackageDependency>)
        ensures
            package::dependency_views(dependencies@) == self@.dependencies,
    {
        let mut copy: Vec<PackageDependency> = Vec::new();
        let mut i: usize = 0;
        while i < self.dependencies.len()
            invariant
                i <= self.dependencies@.len(),
                copy@.len() == i,
                forall|j: int| 0 <= j < i ==> (#[trigger] copy@[j])@ == self.dependencies@[j]@,
            decreases self.dependencies.len() - i,
        {
            copy.push(self.dependencies[i].clone());
            i += 1;
        }
        assert(package::dependency_views(copy@) =~= self@.dependencies);
        copy
    }

    /// The kernel.
    pub fn kernel(&self) -> (kernel: Option<Arc<Package>>)
        ensures
            optional_package(kernel) == self@.kernel,
            kernel matches Some(kernel) ==> kernel@.kind is Kernel,
    {
        proof {
            use_type_invariant(self);
        }
        match &self.kernel {
            Some(kernel) => Some(text::share(kernel)),
            None => None,
        }
    }
}

proof fn lemma_inserted(list: Seq<DependencyView>, dependency: DependencyView)
    requires
        ascending(list),
        lookup(list, dependency.name) is None,
    ensures
        ascending(inserted(list, dependency)),
        lookup(inserted(list, dependency), dependency.name) == Some(dependency),
        inserted(list, dependency).len() == list.len() + 1,
        list.len() > 0 ==> inserted(list, dependency)[0] == dependency || inserted(
            list,
            dependency,
        )[0] == list[0],
        list.len() == 0 ==> inserted(list, dependency)[0] == dependency,
        forall|name: Seq<char>|
            name != dependency.name ==> #[trigger] lookup(inserted(list, dependency), name)
                == lookup(list, name),
    decreases list.len(),
{
    let result = inserted(list, dependency);
    if list.len() == 0 || text::text_lt(dependency.name, list[0].name) {
        assert(result.drop_first() =~= list);
        assert forall|name: Seq<char>| name != dependency.name implies #[trigger] lookup(
            result,
            name,
        ) == lookup(list, name) by {
            assert(result[0] == dependency);
        }
        assert forall|i: int, j: int| 0 <= i < j < result.len() implies text::text_lt(
            #[trigger] result[i].name,
            #[trigger] result[j].name,
        ) by {
            if i == 0 {
                text::text_order_is_total(dependency.name, list[0].name, list[j - 1].name);
                assert(list[0].name == list[j - 1].name || j > 1);
            } else {
                assert(result[i] == list[i - 1] && result[j] == list[j - 1]);
            }
        }
    } else {
        let rest = list.drop_first();
        assert forall|i: int, j: int| 0 <= i < j < rest.len() implies text::text_lt(
            #[trigger] rest[i].name,
            #[trigger] rest[j].name,
        ) by {
            assert(rest[i] == list[i + 1] && rest[j] == list[j + 1]);
        }
        lemma_inserted(rest, dependency);
        let tail = inserted(rest, dependency);
        assert(result.drop_first() =~= tail);
        assert forall|name: Seq<char>| name != dependency.name implies #[trigger] lookup(
            result,
            name,
        ) == lookup(list, name) by {
            assert(result[0] == list[0]);
            assert(lookup(tail, name) == lookup(rest, name));
        }
        text::text_order_is_total(list[0].name, dependency.name, dependency.name);
        assert(text::text_lt(list[0].name, dependency.name));
        if rest.len() > 0 {
            assert(text::text_lt(list[0].name, list[1].name));
        }
        assert(text::text_lt(list[0].name, tail[0].name));
        assert forall|i: int, j: int| 0 <= i < j < result.len() implies text::text_lt(
            #[trigger] result[i].name,
            #[trigger] result[j].name,
        ) by {
            assert(result[j] == tail[j - 1]);
            if i == 0 {
                text::text_order_is_total(list[0].name, tail[0].name, tail[j - 1].name);
            } else {
                assert(result[i] == tail[i - 1]);
            }
        }
    }
}

/// Merging keeps the runtime dependencies in ascending order of their names, so that no name
/// occurs twice.
pub proof fn merging_keeps_order(list: Seq<DependencyView>, dependency: DependencyView)
    requires
        ascending(list),
    ensures
        merged(list, dependency) matches Ok(list) ==> ascending(list),
{
    if lookup(list, dependency.name) is None {
        lemma_inserted(list, dependency);
    }
}

proof fn lemma_lookup_name(list: Seq<DependencyView>, name: Seq<char>)
    ensures
        lookup(list, name) matches Some(found) ==> found.name == name,
    decreases list.len(),
{
    if list.len() > 0 {
        lemma_lookup_name(list.drop_first(), name);
    }
}

/// What was merged is found under its name, and what was recorded under other names stays.
pub proof fn merged_dependency_is_found(list: Seq<DependencyView>, dependency: DependencyView)
    requires
        ascending(list),
    ensures
        merged(list, dependency) matches Ok(after) ==> {
            &&& lookup(after, dependency.name) == Some(dependency)
            &&& forall|name: Seq<char>|
                name != dependency.name ==> #[trigger] lookup(after, name) == lookup(list, name)
        },
{
    lemma_lookup_name(list, dependency.name);
    if lookup(list, dependency.name) is None {
        lemma_inserted(list, dependency);
    }
}

/// To merge a dependency a second time changes nothing.
pub proof fn merging_twice_changes_nothing(list: Seq<DependencyView>, dependency: DependencyView)
    requires
        ascending(list),
    ensures
        merged(list, dependency) matches Ok(after) ==> merged(after, dependency) == Ok::<
            Seq<DependencyView>,
            Seq<char>,
        >(after),
{
    merged_dependency_is_found(list, dependency);
}

/// A dependency of a recorded name that is another artifact is refused.
pub proof fn other_artifact_is_refused(list: Seq<DependencyView>, dependency: DependencyView)
    requires
        ascending(list),
    ensures
        lookup(list, dependency.name) matches Some(existing) && existing != dependency ==> merged(
            list,
            dependency,
        ) is Err,
{
    lemma_lookup_name(list, dependency.name);
}

/// When a whole list of dependencies was merged, each of them is found under its name, and so is
/// all that was recorded before. The order stays ascending.
pub proof fn all_merged_are_found(list: Seq<DependencyView>, dependencies: Seq<DependencyView>)
    requires
        ascending(list),
    ensures
        all_merged(list, dependencies) matches Ok(after) ==> {
            &&& ascending(after)
            &&& forall|i: int|
                0 <= i < dependencies.len() ==> lookup(
                    after,
                    (#[trigger] dependencies[i]).name,
                ) == Some(dependencies[i])
            &&& forall|name: Seq<char>|
                lookup(list, name) is Some ==> #[trigger] lookup(after, name) == lookup(list, name)
        },
    decreases dependencies.len(),
{
    if dependencies.len() > 0 {
        let first = dependencies[0];
        merging_keeps_order(list, first);
        merged_dependency_is_found(list, first);
        if let Ok(next) = merged(list, first) {
            lemma_lookup_name(list, first.name);
            all_merged_are_found(next, dependencies.drop_first());
            if let Ok(after) = all_merged(list, dependencies) {
                assert forall|i: int| 0 <= i < dependencies.len() implies lookup(
                    after,
                    (#[trigger] dependencies[i]).name,
                ) == Some(dependencies[i]) by {
                    if i > 0 {
                        assert(dependencies[i] == dependencies.drop_first()[i - 1]);
                    }
                }
                assert forall|name: Seq<char>| lookup(list, name) is Some implies
                    #[trigger] lookup(after, name) == lookup(list, name) by {
                    assert(lookup(next, name) == lookup(list, name));
                }
            }
        }
    }
}

/// All that is linked agrees on one kernel: once one is recorded, another one is refused.
pub proof fn only_one_kernel(state: LinkView, first: PackageView, second: PackageView)
    ensures
        kernel_recorded(state, first) matches Ok(after) && kernel_recorded(after, second) is Ok ==> {
            &&& first.name == second.name
            &&& first.version == second.version
            &&& first.digest == second.digest
        },
{
}

/// The kernel that a dependency brings along is recorded as a runtime dependency and as the
/// kernel, however the dependency is linked.
pub proof fn brought_kernel_is_recorded(
    state: LinkView,
    resolved: ResolvedView,
    linkage: Linkage,
)
    requires
        ascending(state.dependencies),
    ensures
        match (dependency_linked(state, resolved, linkage), brought_kernel(resolved)) {
            (Ok(after), Some(kernel)) => {
                &&& lookup(after.dependencies, kernel.name) == Some(dependency_on(kernel))
                &&& after.kernel is Some
                &&& after.kernel->0.name == kernel.name
                &&& after.kernel->0.version == kernel.version
                &&& after.kernel->0.digest == kernel.digest
            },
            _ => true,
        },
{
    if let Some(kernel) = brought_kernel(resolved) {
        merged_dependency_is_found(state.dependencies, dependency_on(kernel));
        merging_keeps_order(state.dependencies, dependency_on(kernel));
        if let Ok(linked) = kernel_linked(state, resolved) {
            let own = if linkage is Dynamic && !(resolved.package.kind is Kernel) {
                seq![dependency_on(resolved.package)]
            } else {
                Seq::empty()
            };
            all_merged_are_found(linked.dependencies, own + resolved.package.dependencies);
            assert(lookup(linked.dependencies, kernel.name) == Some(dependency_on(kernel)));
            if let Ok(after) = dependency_linked(state, resolved, linkage) {
                assert(lookup(after.dependencies, kernel.name) == Some(dependency_on(kernel)));
            }
        }
    }
}

/// A dependency that is linked dynamically is recorded, and in any case all that it needs at run
/// time. The order of the recorded dependencies stays ascending.
pub proof fn linked_dependency_is_recorded(
    state: LinkView,
    resolved: ResolvedView,
    linkage: Linkage,
)
    requires
        ascending(state.dependencies),
    ensures
        dependency_linked(state, resolved, linkage) matches Ok(after) ==> {
            &&& ascending(after.dependencies)
            &&& linkage is Dynamic ==> lookup(after.dependencies, resolved.package.name) == Some(
                dependency_on(resolved.package),
            )
            &&& forall|i: int|
                0 <= i < resolved.package.dependencies.len() ==> lookup(
                    after.dependencies,
                    (#[trigger] resolved.package.dependencies[i]).name,
                ) == Some(resolved.package.dependencies[i])
        },
{
    if let Some(kernel) = brought_kernel(resolved) {
        merging_keeps_order(state.dependencies, dependency_on(kernel));
        brought_kernel_is_recorded(state, resolved, linkage);
    }
    if let Ok(linked) = kernel_linked(state, resolved) {
        let own = if linkage is Dynamic && !(resolved.package.kind is Kernel) {
            seq![dependency_on(resolved.package)]
        } else {
            Seq::empty()
        };
        let all = own + resolved.package.dependencies;
        all_merged_are_found(linked.dependencies, all);
        assert forall|i: int| 0 <= i < resolved.package.dependencies.len() implies (
        #[trigger] resolved.package.dependencies[i]) == all[own.len() + i] by {}
        if own.len() > 0 {
            assert(all[0] == dependency_on(resolved.package));
        }
    }
}

/// What is recorded fits together: the runtime dependencies are in ascending order of their names,
/// and the kernel is one of them.
pub open spec fn consistent(state: LinkView) -> bool {
    &&& ascending(state.dependencies)
    &&& state.kernel matches Some(kernel) ==> lookup(state.dependencies, kernel.name) == Some(
        dependency_on(kernel),
    )
}

/// What a package brings along as its kernel leaves the record consistent, and a kernel that is
/// recorded stays the kernel.
pub proof fn linking_a_kernel_keeps_consistency(state: LinkView, resolved: ResolvedView)
    requires
        consistent(state),
    ensures
        kernel_linked(state, resolved) matches Ok(after) ==> {
            &&& consistent(after)
            &&& state.kernel is Some ==> after.kernel == state.kernel
        },
{
    if let Some(kernel) = brought_kernel(resolved) {
        merging_keeps_order(state.dependencies, dependency_on(kernel));
        merged_dependency_is_found(state.dependencies, dependency_on(kernel));
        lemma_lookup_name(state.dependencies, kernel.name);
    }
}

/// Linking a dependency leaves the record consistent, and a kernel that is recorded stays the
/// kernel.
pub proof fn linking_a_dependency_keeps_consistency(
    state: LinkView,
    resolved: ResolvedView,
    linkage: Linkage,
)
    requires
        consistent(state),
    ensures
        dependency_linked(state, resolved, linkage) matches Ok(after) ==> {
            &&& consistent(after)
            &&& state.kernel is Some ==> after.kernel == state.kernel
        },
{
    linking_a_kernel_keeps_consistency(state, resolved);
    if let Ok(linked) = kernel_linked(state, resolved) {
        let own = if linkage is Dynamic && !(resolved.package.kind is Kernel) {
            seq![dependency_on(resolved.package)]
        } else {
            Seq::empty()
        };
        all_merged_are_found(linked.dependencies, own + resolved.package.dependencies);
    }
}

/// A package that is linked statically and brings no kernel along is not recorded itself: the
/// record changes only under the names of what it needs at run time.
pub proof fn static_dependency_is_not_recorded(
    state: LinkView,
    resolved: ResolvedView,
    name: Seq<char>,
)
    requires
        ascending(state.dependencies),
        brought_kernel(resolved) is None,
        forall|i: int|
            0 <= i < resolved.package.dependencies.len() ==> (
            #[trigger] resolved.package.dependencies[i]).name != name,
    ensures
        dependency_linked(state, resolved, Linkage::Static) matches Ok(after) ==> lookup(
            after.dependencies,
            name,
        ) == lookup(state.dependencies, name),
{
    assert(Seq::<DependencyView>::empty() + resolved.package.dependencies
        =~= resolved.package.dependencies);
    lemma_other_names_stay(state.dependencies, resolved.package.dependencies, name);
}

proof fn lemma_other_names_stay(
    list: Seq<DependencyView>,
    dependencies: Seq<DependencyView>,
    name: Seq<char>,
)
    requires
        ascending(list),
        forall|i: int| 0 <= i < dependencies.len() ==> (#[trigger] dependencies[i]).name != name,
    ensures
        all_merged(list, dependencies) matches Ok(after) ==> lookup(after, name) == lookup(
            list,
            name,
        ),
    decreases dependencies.len(),
{
    if dependencies.len() > 0 {
        assert(dependencies[0].name != name);
        merging_keeps_order(list, dependencies[0]);
        merged_dependency_is_found(list, dependencies[0]);
        assert forall|i: int| 0 <= i < dependencies.len() - 1 implies (
        #[trigger] dependencies.drop_first()[i]).name != name by {
            assert(dependencies.drop_first()[i] == dependencies[i + 1]);
        }
        if let Ok(next) = merged(list, dependencies[0]) {
            lemma_other_names_stay(next, dependencies.drop_first(), name);
        }
    }
}

// What a record holds once a whole list is merged into it.

/// Any two dependencies of the same name are the same.
pub open spec fn agreeing(list: Seq<DependencyView>) -> bool {
    forall|x: DependencyView, y: DependencyView| #[trigger]
        list.contains(x) && #[trigger] list.contains(y) && x.name == y.name ==> x == y
}

/// The lists hold the same dependencies, whatever the order is and however often each occurs.
pub open spec fn same_contents(a: Seq<DependencyView>, b: Seq<DependencyView>) -> bool {
    forall|x: DependencyView|
        #![trigger a.contains(x)]
        #![trigger b.contains(x)]
        a.contains(x) <==> b.contains(x)
}

proof fn lemma_lookup_contains(list: Seq<DependencyView>, name: Seq<char>)
    ensures
        lookup(list, name) matches Some(found) ==> found.name == name && list.contains(found),
    decreases list.len(),
{
    if list.len() > 0 {
        let rest = list.drop_first();
        lemma_lookup_contains(rest, name);
        if list[0].name == name {
            assert(list.contains(list[0]));
        } else if let Some(found) = lookup(rest, name) {
            let i = choose|i: int| 0 <= i < rest.len() && rest[i] == found;
            assert(list[i + 1] == found);
        }
    }
}

proof fn lemma_contains(list: Seq<DependencyView>, dependency: DependencyView)
    requires
        ascending(list),
    ensures
        list.contains(dependency) <==> lookup(list, dependency.name) == Some(dependency),
{
    lemma_lookup_contains(list, dependency.name);
    if list.contains(dependency) {
        let i = choose|i: int| 0 <= i < list.len() && list[i] == dependency;
        assert forall|j: int| 0 <= j < i implies (#[trigger] list[j]).name != dependency.name by {
            text::text_order_is_total(list[j].name, list[i].name, list[i].name);
        }
        lemma_lookup_at(list, dependency.name, i);
    }
}

/// Merging succeeds if and only if nothing else is recorded under the name, and then the record
/// holds what it held, and the dependency.
pub proof fn merged_record_holds_the_dependency(
    list: Seq<DependencyView>,
    dependency: DependencyView,
)
    requires
        ascending(list),
    ensures
        merged(list, dependency) is Ok <==> forall|x: DependencyView| #[trigger]
            list.contains(x) && x.name == dependency.name ==> x == dependency,
        merged(list, dependency) matches Ok(after) ==> {
            &&& ascending(after)
            &&& same_contents(after, list.push(dependency))
        },
{
    lemma_lookup_contains(list, dependency.name);
    merging_keeps_order(list, dependency);
    merged_dependency_is_found(list, dependency);
    assert forall|x: DependencyView| #[trigger] list.contains(x) && x.name
        == dependency.name implies lookup(list, dependency.name) == Some(x) by {
        lemma_contains(list, x);
    }
    if let Ok(after) = merged(list, dependency) {
        let longer = list.push(dependency);
        assert forall|x: DependencyView| #[trigger] after.contains(x) <==> longer.contains(x) by {
            lemma_contains(after, x);
            lemma_contains(list, x);
            if list.contains(x) {
                let i = choose|i: int| 0 <= i < list.len() && list[i] == x;
                assert(longer[i] == x);
            }
            assert(longer[list.len() as int] == dependency);
            if longer.contains(x) && x != dependency {
                let i = choose|i: int| 0 <= i < longer.len() && longer[i] == x;
                assert(list[i] == x);
            }
        }
    }
}

/// Merging a list succeeds if and only if any two dependencies of one name, recorded or to be
/// merged, are the same. Then the record holds exactly what it held and what was merged.
pub proof fn merging_a_list_succeeds_where_names_agree(
    list: Seq<DependencyView>,
    dependencies: Seq<DependencyView>,
)
    requires
        ascending(list),
    ensures
        all_merged(list, dependencies) is Ok <==> agreeing(list + dependencies),
        all_merged(list, dependencies) matches Ok(after) ==> {
            &&& ascending(after)
            &&& same_contents(after, list + dependencies)
        },
    decreases dependencies.len(),
{
    let all = list + dependencies;
    if dependencies.len() == 0 {
        assert(all =~= list);
        assert forall|x: DependencyView, y: DependencyView| #[trigger]
            all.contains(x) && #[trigger] all.contains(y) && x.name == y.name implies x == y by {
            lemma_contains(list, x);
            lemma_contains(list, y);
        }
    } else {
        let first = dependencies[0];
        let rest = dependencies.drop_first();
        assert(all[list.len() as int] == first);
        assert forall|x: DependencyView| #[trigger] list.contains(x) implies all.contains(x) by {
            let i = choose|i: int| 0 <= i < list.len() && list[i] == x;
            assert(all[i] == x);
        }
        merged_record_holds_the_dependency(list, first);
        match merged(list, first) {
            Err(_) => {
                assert(!agreeing(all)) by {
                    assert(all.contains(first));
                }
            },
            Ok(next) => {
                merging_a_list_succeeds_where_names_agree(next, rest);
                assert(list.push(first) + rest =~= all);
                lemma_same_contents(next, list.push(first), rest);
                let (x, y) = (next + rest, all);
                assert(agreeing(x) <==> agreeing(y));
            },
        }
    }
}

proof fn lemma_same_contents(
    a: Seq<DependencyView>,
    b: Seq<DependencyView>,
    rest: Seq<DependencyView>,
)
    requires
        same_contents(a, b),
    ensures
        same_contents(a + rest, b + rest),
{
    assert forall|x: DependencyView| #[trigger] (a + rest).contains(x) <==> (b + rest).contains(x) by {
        lemma_contains_sum(a, rest, x);
        lemma_contains_sum(b, rest, x);
        assert(a.contains(x) <==> b.contains(x));
    }
}

proof fn lemma_contains_sum(a: Seq<DependencyView>, b: Seq<DependencyView>, x: DependencyView)
    ensures
        (a + b).contains(x) <==> a.contains(x) || b.contains(x),
{
    if a.contains(x) {
        let i = choose|i: int| 0 <= i < a.len() && a[i] == x;
        assert((a + b)[i] == x);
    }
    if b.contains(x) {
        let i = choose|i: int| 0 <= i < b.len() && b[i] == x;
        assert((a + b)[a.len() + i] == x);
    }
    if (a + b).contains(x) {
        let i = choose|i: int| 0 <= i < (a + b).len() && (a + b)[i] == x;
        if i < a.len() {
            assert(a[i] == x);
        } else {
            assert(b[i - a.len()] == x);
        }
    }
}

/// A record is determined by what it holds: there is only one ascending order.
pub proof fn record_is_determined_by_its_contents(a: Seq<DependencyView>, b: Seq<DependencyView>)
    requires
        ascending(a),
        ascending(b),
        same_contents(a, b),
    ensures
        a == b,
    decreases a.len(),
{
    if a.len() == 0 {
        if b.len() > 0 {
            assert(b.contains(b[0]));
        }
        assert(a =~= b);
    } else {
        assert(a.contains(a[0]));
        let j = choose|j: int| 0 <= j < b.len() && b[j] == a[0];
        assert(b.contains(b[0]));
        let i = choose|i: int| 0 <= i < a.len() && a[i] == b[0];
        text::text_order_is_total(a[0].name, b[0].name, a[0].name);
        if j > 0 && i > 0 {
            assert(text::text_lt(b[0].name, b[j].name));
            assert(text::text_lt(a[0].name, a[i].name));
        }
        assert(a[0] == b[0]);
        lemma_tail(a);
        lemma_tail(b);
        record_is_determined_by_its_contents(a.drop_first(), b.drop_first());
        assert(a =~= seq![a[0]] + a.drop_first());
        assert(b =~= seq![b[0]] + b.drop_first());
    }
}

proof fn lemma_tail(list: Seq<DependencyView>)
    requires
        ascending(list),
        list.len() > 0,
    ensures
        ascending(list.drop_first()),
        forall|x: DependencyView| #[trigger]
            list.drop_first().contains(x) <==> list.contains(x) && x != list[0],
{
    let rest = list.drop_first();
    assert forall|i: int, j: int| 0 <= i < j < rest.len() implies text::text_lt(
        #[trigger] rest[i].name,
        #[trigger] rest[j].name,
    ) by {
        assert(rest[i] == list[i + 1] && rest[j] == list[j + 1]);
    }
    assert forall|x: DependencyView| #[trigger] rest.contains(x) <==> list.contains(x) && x
        != list[0] by {
        if rest.contains(x) {
            let i = choose|i: int| 0 <= i < rest.len() && rest[i] == x;
            assert(list[i + 1] == x);
            text::text_order_is_total(list[0].name, list[0].name, list[0].name);
            assert(text::text_lt(list[0].name, list[i + 1].name));
        }
        if list.contains(x) && x != list[0] {
            let i = choose|i: int| 0 <= i < list.len() && list[i] == x;
            assert(rest[i - 1] == x);
        }
    }
}

/// Merging a list into an empty record succeeds if and only if any two of its entries of one name
/// are equal. The record then holds exactly these entries, and for every list of the same entries,
/// in whatever order and however often each occurs, it is the same.
pub proof fn merging_forgets_order(a: Seq<DependencyView>, b: Seq<DependencyView>)
    requires
        same_contents(a, b),
    ensures
        all_merged(Seq::empty(), a) is Ok <==> agreeing(a),
        all_merged(Seq::empty(), a) is Ok <==> all_merged(Seq::empty(), b) is Ok,
        all_merged(Seq::empty(), a) matches Ok(record) ==> {
            &&& same_contents(record, a)
            &&& all_merged(Seq::empty(), b) == Ok::<Seq<DependencyView>, Seq<char>>(record)
        },
{
    let none = Seq::<DependencyView>::empty();
    merging_a_list_succeeds_where_names_agree(none, a);
    merging_a_list_succeeds_where_names_agree(none, b);
    assert(none + a =~= a);
    assert(none + b =~= b);
    assert(agreeing(a) <==> agreeing(b));
    if let (Ok(x), Ok(y)) = (all_merged(none, a), all_merged(none, b)) {
        assert forall|d: DependencyView| #[trigger] x.contains(d) <==> y.contains(d) by {
            assert(a.contains(d) <==> b.contains(d));
        }
        record_is_determined_by_its_contents(x, y);
    }
}

/// Two lists of which one is the other in another order are merged into the same record, if into
/// any.
pub proof fn merging_a_permutation_gives_the_same_record(
    a: Seq<DependencyView>,
    b: Seq<DependencyView>,
)
    requires
        a.to_multiset() == b.to_multiset(),
    ensures
        all_merged(Seq::empty(), a) is Ok <==> all_merged(Seq::empty(), b) is Ok,
        all_merged(Seq::empty(), a) is Ok ==> all_merged(Seq::empty(), a) == all_merged(
            Seq::empty(),
            b,
        ),
{
    broadcast use vstd::seq_lib::group_to_multiset_ensures;

    assert forall|x: DependencyView| #[trigger] a.contains(x) <==> b.contains(x) by {
        assert(a.to_multiset().count(x) > 0 <==> a.contains(x));
        assert(b.to_multiset().count(x) > 0 <==> b.contains(x));
    }
    merging_forgets_order(a, b);
}

/// `dependency` is on the kernel that `resolved` brings along.
pub open spec fn brings_kernel(resolved: ResolvedView, dependency: DependencyView) -> bool {
    brought_kernel(resolved) is Some && dependency == dependency_on(brought_kernel(resolved)->0)
}

/// A package that is linked brings the dependency along: it is on the package itself, if that is
/// linked dynamically and no kernel, on what the package needs at run time, or on its kernel.
pub open spec fn brings(
    resolved: ResolvedView,
    linkage: Linkage,
    dependency: DependencyView,
) -> bool {
    ||| linkage is Dynamic && !(resolved.package.kind is Kernel) && dependency == dependency_on(
        resolved.package,
    )
    ||| resolved.package.dependencies.contains(dependency)
    ||| brings_kernel(resolved, dependency)
}

/// Once the kernel of a package is recorded, the record holds exactly what it held, and the kernel.
pub proof fn linked_kernel_is_all_that_is_recorded(state: LinkView, resolved: ResolvedView)
    requires
        ascending(state.dependencies),
    ensures
        kernel_linked(state, resolved) matches Ok(after) ==> {
            &&& ascending(after.dependencies)
            &&& forall|x: DependencyView| #[trigger]
                after.dependencies.contains(x) <==> state.dependencies.contains(x)
                    || brings_kernel(resolved, x)
        },
{
    if let Some(kernel) = brought_kernel(resolved) {
        let dependency = dependency_on(kernel);
        merged_record_holds_the_dependency(state.dependencies, dependency);
        if let Ok(after) = kernel_linked(state, resolved) {
            assert forall|x: DependencyView| #[trigger]
                after.dependencies.contains(x) <==> state.dependencies.contains(x)
                    || brings_kernel(resolved, x) by {
                let longer = state.dependencies + seq![dependency];
                assert(state.dependencies.push(dependency) =~= longer);
                lemma_contains_sum(state.dependencies, seq![dependency], x);
                assert(seq![dependency].contains(x) <==> x == dependency) by {
                    assert(seq![dependency][0] == dependency);
                }
            }
        }
    }
}

/// Once a dependency is linked, the record holds exactly what it held, and what the dependency
/// brings along.
pub proof fn linked_dependency_is_all_that_is_recorded(
    state: LinkView,
    resolved: ResolvedView,
    linkage: Linkage,
)
    requires
        ascending(state.dependencies),
    ensures
        dependency_linked(state, resolved, linkage) matches Ok(after) ==> {
            &&& ascending(after.dependencies)
            &&& forall|x: DependencyView| #[trigger]
                after.dependencies.contains(x) <==> state.dependencies.contains(x) || brings(
                    resolved,
                    linkage,
                    x,
                )
        },
{
    linked_kernel_is_all_that_is_recorded(state, resolved);
    if let Ok(linked) = kernel_linked(state, resolved) {
        let own = if linkage is Dynamic && !(resolved.package.kind is Kernel) {
            seq![dependency_on(resolved.package)]
        } else {
            Seq::empty()
        };
        let added = own + resolved.package.dependencies;
        merging_a_list_succeeds_where_names_agree(linked.dependencies, added);
        if let Ok(after) = dependency_linked(state, resolved, linkage) {
            assert forall|x: DependencyView| #[trigger]
                after.dependencies.contains(x) <==> state.dependencies.contains(x) || brings(
                    resolved,
                    linkage,
                    x,
                ) by {
                lemma_contains_sum(linked.dependencies, added, x);
                lemma_contains_sum(own, resolved.package.dependencies, x);
                if own.len() > 0 {
                    assert(own[0] == dependency_on(resolved.package));
                }
                assert(linked.dependencies.contains(x) <==> state.dependencies.contains(x)
                    || brings_kernel(resolved, x));
            }
        }
    }
}

} // verus!
