//! Assembled packages, as far as linking, publishing and reuse look at them.

use std::io::Cursor;

use miden_core::serde::{Deserializable, Serializable};
use miden_mast_package::Package as MastPackage;
use vstd::prelude::*;

use crate::package_format;
use crate::version::{SemVer, Version, VersionView};
use crate::word::Word;

verus! {

/// The section that holds the provenance of a package assembled from sources.
pub const PROJECT_SOURCE_PROVENANCE: &'static str = "project_source_provenance";

/// The section that holds the kernel that an executable was assembled against.
pub const KERNEL: &'static str = "kernel";

/// What a target is built into.
#[derive(Clone, Copy, Debug, PartialEq, Eq, Structural)]
pub enum TargetType {
    Library,
    Executable,
    Kernel,
    AccountComponent,
    Note,
    TransactionScript,
}

/// The target type with the given code.
pub open spec fn kind_of_code(code: u8) -> TargetType {
    if code == 0 {
        TargetType::Library
    } else if code == 1 {
        TargetType::Executable
    } else if code == 2 {
        TargetType::Kernel
    } else if code == 3 {
        TargetType::AccountComponent
    } else if code == 4 {
        TargetType::Note
    } else {
        TargetType::TransactionScript
    }
}

impl TargetType {
    /// How a target type is displayed.
    pub open spec fn name(self) -> Seq<char> {
        match self {
            TargetType::Library => "library"@,
            TargetType::Executable => "executable"@,
            TargetType::Kernel => "kernel"@,
            TargetType::AccountComponent => "account-component"@,
            TargetType::Note => "note"@,
            TargetType::TransactionScript => "transaction-script"@,
        }
    }

    /// The target type with the given code.
    fn from_code(code: u8) -> (kind: TargetType)
        ensures
            kind == kind_of_code(code),
    {
        match code {
            0 => TargetType::Library,
            1 => TargetType::Executable,
            2 => TargetType::Kernel,
            3 => TargetType::AccountComponent,
            4 => TargetType::Note,
            _ => TargetType::TransactionScript,
        }
    }

    /// How the target type is displayed.
    pub fn as_str(&self) -> (text: &'static str)
        ensures
            text@ == self.name(),
    {
        match self {
            TargetType::Library => "library",
            TargetType::Executable => "executable",
            TargetType::Kernel => "kernel",
            TargetType::AccountComponent => "account-component",
            TargetType::Note => "note",
            TargetType::TransactionScript => "transaction-script",
        }
    }

    /// Tells whether the target is an executable. Every other target is library-like.
    pub fn is_executable(&self) -> (executable: bool)
        ensures
            executable == (*self is Executable),
    {
        matches!(self, TargetType::Executable)
    }
}

/// A package that another one needs at run time.
#[derive(Debug)]
pub struct PackageDependency {
    pub name: String,
    pub version: SemVer,
    pub kind: TargetType,
    pub digest: Word,
}

/// The mathematical counterpart of [`PackageDependency`].
#[verifier::ext_equal]
pub struct DependencyView {
    pub name: Seq<char>,
    pub version: Seq<char>,
    pub kind: TargetType,
    pub digest: Seq<u8>,
}

impl View for PackageDependency {
    type V = DependencyView;

    open spec fn view(&self) -> DependencyView {
        DependencyView {
            name: self.name@,
            version: self.version@,
            kind: self.kind,
            digest: self.digest@,
        }
    }
}

impl Clone for PackageDependency {
    fn clone(&self) -> (copy: PackageDependency)
        ensures
            copy@ == self@,
    {
        PackageDependency {
            name: self.name.clone(),
            version: self.version.clone(),
            kind: self.kind,
            digest: self.digest,
        }
    }
}

/// The views of a list of dependencies.
pub open spec fn dependency_views(list: Seq<PackageDependency>) -> Seq<DependencyView> {
    Seq::new(list.len(), |i: int| list[i]@)
}

/// A custom section of a package.
#[derive(Debug)]
pub struct Section {
    pub id: String,
    pub data: Vec<u8>,
}

/// The mathematical counterpart of [`Section`].
#[verifier::ext_equal]
pub struct SectionView {
    pub id: Seq<char>,
    pub data: Seq<u8>,
}

impl View for Section {
    type V = SectionView;

    open spec fn view(&self) -> SectionView {
        SectionView { id: self.id@, data: self.data@ }
    }
}

/// The views of a list of sections.
pub open spec fn section_views(list: Seq<Section>) -> Seq<SectionView> {
    Seq::new(list.len(), |i: int| list[i]@)
}

/// What is known of an assembled package.
#[verifier::ext_equal]
pub struct PackageView {
    pub name: Seq<char>,
    pub version: Seq<char>,
    pub description: Option<Seq<char>>,
    pub kind: TargetType,
    /// The digest of the code.
    pub digest: Seq<u8>,
    /// The packages that it needs at run time.
    pub dependencies: Seq<DependencyView>,
    pub sections: Seq<SectionView>,
    /// The bytes that serializing the package gives.
    pub encoded: Seq<u8>,
    /// The bytes that the package was read from.
    pub source: Seq<u8>,
}

/// The package as it is read from `bytes`.
pub open spec fn read_from(package: PackageView, bytes: Seq<u8>) -> PackageView {
    PackageView { source: bytes, ..package }
}

/// The package that `miden_mast_package` reads from `bytes`, or the text of its error.
pub uninterp spec fn deserialized_package(bytes: Seq<u8>) -> Result<PackageView, Seq<char>>;

/// The package that bytes hold, or the text of the error: of the refusal, where the bytes are not
/// handed to the reader of packages, or of the reader.
pub open spec fn decoded_package(bytes: Seq<u8>) -> Result<PackageView, Seq<char>> {
    match package_format::refusal(bytes) {
        Some(refusal) => Err(refusal.text()),
        None => deserialized_package(bytes),
    }
}

/// The bytes hold the package.
pub open spec fn holds(bytes: Seq<u8>, package: PackageView) -> bool {
    decoded_package(bytes) == Ok::<PackageView, Seq<char>>(read_from(package, bytes))
}

/// An assembled package.
#[derive(Debug)]
pub struct Package {
    pub(crate) name: String,
    pub(crate) version: SemVer,
    pub(crate) description: Option<String>,
    pub(crate) kind: TargetType,
    pub(crate) digest: Word,
    pub(crate) dependencies: Vec<PackageDependency>,
    pub(crate) sections: Vec<Section>,
    pub(crate) encoded: Vec<u8>,
    pub(crate) source: Vec<u8>,
}

/// An optional text as a sequence.
pub open spec fn optional_text(text: Option<String>) -> Option<Seq<char>> {
    match text {
        Some(text) => Some(text@),
        None => None,
    }
}

impl View for Package {
    type V = PackageView;

    closed spec fn view(&self) -> PackageView {
        PackageView {
            name: self.name@,
            version: self.version@,
            description: optional_text(self.description),
            kind: self.kind,
            digest: self.digest@,
            dependencies: dependency_views(self.dependencies@),
            sections: section_views(self.sections@),
            encoded: self.encoded@,
            source: self.source@,
        }
    }
}

/// A dependency as it is decoded: its name, its version, the code of its target type, its digest.
struct RawDependency(String, SemVer, u8, Word);

impl View for RawDependency {
    type V = DependencyView;

    closed spec fn view(&self) -> DependencyView {
        DependencyView {
            name: self.0@,
            version: self.1@,
            kind: kind_of_code(self.2),
            digest: self.3@,
        }
    }
}

/// A package as it is decoded, with the codes of target types.
struct RawPackage {
    name: String,
    version: SemVer,
    description: Option<String>,
    kind: u8,
    digest: Word,
    dependencies: Vec<RawDependency>,
    sections: Vec<Section>,
    encoded: Vec<u8>,
}

impl RawPackage {
    /// The package, which was read from `source`.
    spec fn package(&self, source: Seq<u8>) -> PackageView {
        PackageView {
            name: self.name@,
            version: self.version@,
            description: optional_text(self.description),
            kind: kind_of_code(self.kind),
            digest: self.digest@,
            dependencies: Seq::new(self.dependencies@.len(), |i: int| self.dependencies@[i]@),
            sections: section_views(self.sections@),
            encoded: self.encoded@,
            source,
        }
    }
}

/// `miden_mast_package::Package::read_from`, which `read_from_bytes` calls, and `to_bytes`: the
/// package serialized in `bytes`, with what serializing it again gives. Both are functions of the
/// bytes alone. The bytes are read through a cursor, which refuses every length that goes beyond
/// their end. Not stated: that what serializing gives reads as the same package again, since code
/// that no assembler has made is read without validation.
#[verifier::external_body]
fn decode_package(bytes: &[u8]) -> (package: Result<RawPackage, String>)
    requires
        package_format::is_readable(bytes@),
    ensures
        match (package, deserialized_package(bytes@)) {
            (Ok(package), Ok(expected)) => package.package(bytes@) == expected,
            (Err(error), Err(expected)) => error@ == expected,
            _ => false,
        },
{
    MastPackage::read_from(&mut Cursor::new(bytes)).map_err(|error| error.to_string()).map(|p| RawPackage {
        name: p.name.to_string(),
        version: SemVer { text: p.version.to_string() },
        kind: p.kind as u8,
        digest: Word(p.digest().as_bytes()),
        dependencies: p.manifest.dependencies().map(|d| RawDependency(
            d.name.to_string(), SemVer { text: d.version.to_string() }, d.kind as u8, Word(d.digest.as_bytes())
        )).collect(),
        sections: p.sections.iter().map(|s| Section { id: s.id.to_string(), data: s.data.to_vec() }).collect(),
        encoded: p.to_bytes(),
        description: p.description
    })
}

impl Package {
    #[verifier::type_invariant]
    spec fn is_read_from_source(self) -> bool {
        decoded_package(self.source@) == Ok::<PackageView, Seq<char>>(self@)
    }

    /// Reads a package from its serialized form. Bytes that announce more than there is, or that hold
    /// a type without a layout, are refused before they are read.
    pub fn from_bytes(bytes: Vec<u8>) -> (package: Result<Package, String>)
        ensures
            match (package, decoded_package(bytes@)) {
                (Ok(package), Ok(expected)) => package@ == expected,
                (Err(error), Err(expected)) => error@ == expected,
                _ => false,
            },
    {
        if let Some(refusal) = package_format::find_refusal(bytes.as_slice()) {
            return Err(refusal.message().to_string());
        }
        let raw = match decode_package(bytes.as_slice()) {
            Ok(raw) => raw,
            Err(error) => return Err(error),
        };
        let mut dependencies: Vec<PackageDependency> = Vec::new();
        let mut i: usize = 0;
        while i < raw.dependencies.len()
            invariant
                i <= raw.dependencies@.len(),
                dependencies@.len() == i,
                forall|j: int| 0 <= j < i ==> (#[trigger] dependencies@[j])@ == raw.dependencies@[j]@,
            decreases raw.dependencies.len() - i,
        {
            let dependency = &raw.dependencies[i];
            dependencies.push(
                PackageDependency {
                    name: dependency.0.clone(),
                    version: dependency.1.clone(),
                    kind: TargetType::from_code(dependency.2),
                    digest: dependency.3,
                },
            );
            i += 1;
        }
        assert(dependency_views(dependencies@) =~= raw.package(bytes@).dependencies);
        Ok(
            Package {
                name: raw.name,
                version: raw.version,
                description: raw.description,
                kind: TargetType::from_code(raw.kind),
                digest: raw.digest,
                dependencies,
                sections: raw.sections,
                encoded: raw.encoded,
                source: bytes,
            },
        )
    }

    /// The name of the package.
    pub fn name(&self) -> (name: &str)
        ensures
            name@ == self@.name,
    {
        self.name.as_str()
    }

    /// The semantic version of the package.
    pub fn version(&self) -> (version: &SemVer)
        ensures
            version@ == self@.version,
    {
        &self.version
    }

    /// What the package says of itself.
    pub fn description(&self) -> (description: &Option<String>)
        ensures
            optional_text(*description) == self@.description,
    {
        &self.description
    }

    /// The digest of the code of the package.
    pub fn digest(&self) -> (digest: Word)
        ensures
            digest@ == self@.digest,
    {
        self.digest
    }

    /// The version of the package, with the digest of its code.
    pub fn exact_version(&self) -> (version: Version)
        ensures
            version@ == VersionView::exact(self@.version, self@.digest),
    {
        Version::new(self.version.clone(), self.digest)
    }

    /// The target type of the package.
    pub fn kind(&self) -> (kind: TargetType)
        ensures
            kind == self@.kind,
    {
        self.kind
    }

    /// The packages that the package needs at run time.
    pub fn dependencies(&self) -> (dependencies: &Vec<PackageDependency>)
        ensures
            dependency_views(dependencies@) == self@.dependencies,
    {
        &self.dependencies
    }

    /// The sections of the package.
    pub fn sections(&self) -> (sections: &Vec<Section>)
        ensures
            section_views(sections@) == self@.sections,
    {
        &self.sections
    }

    /// The bytes that the package was read from, which hold it.
    pub fn source(&self) -> (bytes: &Vec<u8>)
        ensures
            bytes@ == self@.source,
            decoded_package(bytes@) == Ok::<PackageView, Seq<char>>(self@),
    {
        proof {
            use_type_invariant(self);
        }
        &self.source
    }

    /// The bytes that serializing the package gives.
    pub fn to_bytes(&self) -> (bytes: &Vec<u8>)
        ensures
            bytes@ == self@.encoded,
    {
        &self.encoded
    }
}

} // verus!
