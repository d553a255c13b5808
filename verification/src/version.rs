//! Semantic versions, the versions of published packages, and version requirements.

use miden_package_registry::semver::{Version as OutsideSemVer, VersionReq as OutsideVersionReq};
use miden_package_registry::Version as OutsideVersion;
use vstd::prelude::*;

use crate::word;
use crate::word::Word;

verus! {

/// The text of the semantic version that the `semver` crate reads from `text`, or that of its
/// error.
pub uninterp spec fn parsed_semver(text: Seq<char>) -> Result<Seq<char>, Seq<char>>;

/// The text of the version requirement that the `semver` crate reads from `text`, or that of its
/// error.
pub uninterp spec fn parsed_version_req(text: Seq<char>) -> Result<Seq<char>, Seq<char>>;

/// The semantic version and the digest that `miden_package_registry` reads from `text`, or the
/// text of its error.
pub uninterp spec fn parsed_version(text: Seq<char>) -> Result<VersionView, Seq<char>>;

/// A semantic version, kept as its text.
#[derive(Debug, Eq)]
pub struct SemVer {
    pub(crate) text: String,
}

impl View for SemVer {
    type V = Seq<char>;

    closed spec fn view(&self) -> Seq<char> {
        self.text@
    }
}

impl PartialEq for SemVer {
    fn eq(&self, other: &SemVer) -> (equal: bool) {
        self.text == other.text
    }
}

impl vstd::std_specs::cmp::PartialEqSpecImpl for SemVer {
    open spec fn obeys_eq_spec() -> bool {
        true
    }

    open spec fn eq_spec(&self, other: &SemVer) -> bool {
        self@ == other@
    }
}

impl Clone for SemVer {
    fn clone(&self) -> (copy: SemVer)
        ensures
            copy@ == self@,
    {
        proof {
            use_type_invariant(self);
        }
        SemVer { text: self.text.clone() }
    }
}

impl SemVer {
    #[verifier::type_invariant]
    spec fn canonical(self) -> bool {
        parsed_semver(self.text@) == Ok::<Seq<char>, Seq<char>>(self.text@)
    }

    /// The semantic version written as `text`.
    pub fn parse(text: &str) -> (version: Result<SemVer, String>)
        ensures
            match (version, parsed_semver(text@)) {
                (Ok(version), Ok(expected)) => version@ == expected,
                (Err(error), Err(expected)) => error@ == expected,
                _ => false,
            },
    {
        parse_semver(text)
    }

    /// The text of the version.
    pub fn as_str(&self) -> (text: &str)
        ensures
            text@ == self@,
            parsed_semver(text@) == Ok::<Seq<char>, Seq<char>>(text@),
    {
        proof {
            use_type_invariant(self);
        }
        self.text.as_str()
    }
}

/// `str::parse::<semver::Version>`: the semantic version written as `text`. Displayed and parsed
/// again, a version is the same.
#[verifier::external_body]
fn parse_semver(text: &str) -> (version: Result<SemVer, String>)
    ensures
        match (version, parsed_semver(text@)) {
            (Ok(version), Ok(expected)) => version@ == expected,
            (Err(error), Err(expected)) => error@ == expected,
            _ => false,
        },
        version matches Ok(version) ==> parsed_semver(version@) == Ok::<Seq<char>, Seq<char>>(
            version@,
        ),
{
    match text.parse::<OutsideSemVer>() {
        Ok(version) => Ok(SemVer { text: version.to_string() }),
        Err(error) => Err(error.to_string()),
    }
}

/// The version of a package: its semantic version, and the digest of the artifact if it is known.
#[derive(Debug, Eq)]
pub struct Version {
    pub version: SemVer,
    pub digest: Option<Word>,
}

/// The mathematical counterpart of [`Version`].
#[verifier::ext_equal]
pub struct VersionView {
    pub version: Seq<char>,
    pub digest: Option<Seq<u8>>,
}

impl View for Version {
    type V = VersionView;

    open spec fn view(&self) -> VersionView {
        VersionView {
            version: self.version@,
            digest: match self.digest {
                Some(digest) => Some(digest@),
                None => None,
            },
        }
    }
}

impl VersionView {
    /// The version of an assembled package.
    pub open spec fn exact(version: Seq<char>, digest: Seq<u8>) -> VersionView {
        VersionView { version, digest: Some(digest) }
    }

    /// How a version is displayed: `semver#digest`, or the semantic version alone.
    pub open spec fn text(self) -> Seq<char> {
        match self.digest {
            Some(digest) => self.version + "#"@ + word::word_text(digest),
            None => self.version,
        }
    }
}

/// Displayed and parsed again, the version is the same.
pub open spec fn reads_back(version: VersionView) -> bool {
    parsed_version(version.text()) == Ok::<VersionView, Seq<char>>(version)
}

impl PartialEq for Version {
    fn eq(&self, other: &Version) -> (equal: bool) {
        self.version == other.version && match (&self.digest, &other.digest) {
            (Some(a), Some(b)) => *a == *b,
            (None, None) => true,
            _ => false,
        }
    }
}

impl vstd::std_specs::cmp::PartialEqSpecImpl for Version {
    open spec fn obeys_eq_spec() -> bool {
        true
    }

    open spec fn eq_spec(&self, other: &Version) -> bool {
        self@ == other@
    }
}

impl Clone for Version {
    fn clone(&self) -> (copy: Version)
        ensures
            copy@ == self@,
    {
        Version { version: self.version.clone(), digest: self.digest }
    }
}

impl Version {
    /// The version of an assembled package.
    pub fn new(version: SemVer, digest: Word) -> (exact: Version)
        ensures
            exact@ == VersionView::exact(version@, digest@),
    {
        Version { version, digest: Some(digest) }
    }

    /// The version written as `text`: a semantic version, with `#` and a digest behind it or not.
    /// Displayed and parsed again, it is the same.
    pub fn parse(text: &str) -> (version: Result<Version, String>)
        ensures
            match (version, parsed_version(text@)) {
                (Ok(version), Ok(expected)) => version@ == expected,
                (Err(error), Err(expected)) => error@ == expected,
                _ => false,
            },
            version matches Ok(version) ==> reads_back(version@),
    {
        parse_version(text)
    }

    /// How the version is displayed.
    pub fn text(&self) -> (text: String)
        ensures
            text@ == self@.text(),
    {
        let mut text = self.version.text.clone();
        if let Some(digest) = &self.digest {
            text.append("#");
            text.append(digest.text().as_str());
        }
        text
    }
}

/// `str::parse::<miden_package_registry::Version>`: the version written as `text`. Displayed and
/// parsed again, a version is the same.
#[verifier::external_body]
fn parse_version(text: &str) -> (version: Result<Version, String>)
    ensures
        match (version, parsed_version(text@)) {
            (Ok(version), Ok(expected)) => version@ == expected,
            (Err(error), Err(expected)) => error@ == expected,
            _ => false,
        },
        version matches Ok(version) ==> reads_back(version@),
{
    match text.parse::<OutsideVersion>() {
        Ok(version) => Ok(
            Version {
                version: SemVer { text: version.version.to_string() },
                digest: version.digest.map(|digest| Word(digest.inner().as_bytes())),
            },
        ),
        Err(error) => Err(error.to_string()),
    }
}

/// A range of semantic versions, kept as its text.
#[derive(Debug, PartialEq, Eq)]
pub struct VersionReq {
    pub(crate) text: String,
}

impl View for VersionReq {
    type V = Seq<char>;

    closed spec fn view(&self) -> Seq<char> {
        self.text@
    }
}

impl Clone for VersionReq {
    fn clone(&self) -> (copy: VersionReq)
        ensures
            copy@ == self@,
    {
        proof {
            use_type_invariant(self);
        }
        VersionReq { text: self.text.clone() }
    }
}

impl VersionReq {
    #[verifier::type_invariant]
    spec fn canonical(self) -> bool {
        parsed_version_req(self.text@) == Ok::<Seq<char>, Seq<char>>(self.text@)
    }

    /// The range of versions written as `text`.
    pub fn parse(text: &str) -> (req: Result<VersionReq, String>)
        ensures
            match (req, parsed_version_req(text@)) {
                (Ok(req), Ok(expected)) => req@ == expected,
                (Err(error), Err(expected)) => error@ == expected,
                _ => false,
            },
    {
        parse_version_req(text)
    }
}

/// `str::parse::<semver::VersionReq>`: the range of versions written as `text`. Displayed and
/// parsed again, a range is the same.
#[verifier::external_body]
fn parse_version_req(text: &str) -> (req: Result<VersionReq, String>)
    ensures
        match (req, parsed_version_req(text@)) {
            (Ok(req), Ok(expected)) => req@ == expected,
            (Err(error), Err(expected)) => error@ == expected,
            _ => false,
        },
        req matches Ok(req) ==> parsed_version_req(req@) == Ok::<Seq<char>, Seq<char>>(req@),
{
    match text.parse::<OutsideVersionReq>() {
        Ok(req) => Ok(VersionReq { text: req.to_string() }),
        Err(error) => Err(error.to_string()),
    }
}

/// What a package asks of the version of a dependency.
#[derive(Debug, PartialEq, Eq)]
pub enum VersionRequirement {
    /// A semantic version in a range.
    Semantic(VersionReq),
    /// An artifact with this digest.
    Digest(Word),
    /// An artifact with this semantic version and this digest.
    Exact(SemVer, Word),
}

/// The mathematical counterpart of [`VersionRequirement`].
#[verifier::ext_equal]
pub enum RequirementView {
    Semantic(Seq<char>),
    Digest(Seq<u8>),
    Exact(Seq<char>, Seq<u8>),
}

impl View for VersionRequirement {
    type V = RequirementView;

    open spec fn view(&self) -> RequirementView {
        match self {
            VersionRequirement::Semantic(req) => RequirementView::Semantic(req@),
            VersionRequirement::Digest(digest) => RequirementView::Digest(digest@),
            VersionRequirement::Exact(version, digest) => RequirementView::Exact(
                version@,
                digest@,
            ),
        }
    }
}

impl Clone for VersionRequirement {
    fn clone(&self) -> (copy: VersionRequirement)
        ensures
            copy@ == self@,
    {
        match self {
            VersionRequirement::Semantic(req) => VersionRequirement::Semantic(req.clone()),
            VersionRequirement::Digest(digest) => VersionRequirement::Digest(*digest),
            VersionRequirement::Exact(version, digest) => VersionRequirement::Exact(
                version.clone(),
                *digest,
            ),
        }
    }
}

impl RequirementView {
    /// How a requirement is displayed.
    pub open spec fn text(self) -> Seq<char> {
        match self {
            RequirementView::Semantic(req) => req,
            RequirementView::Digest(digest) => word::word_text(digest),
            RequirementView::Exact(version, digest) => VersionView::exact(version, digest).text(),
        }
    }
}

impl VersionRequirement {
    /// How the requirement is displayed.
    pub fn text(&self) -> (text: String)
        ensures
            text@ == self@.text(),
    {
        match self {
            VersionRequirement::Semantic(req) => req.text.clone(),
            VersionRequirement::Digest(digest) => digest.text(),
            VersionRequirement::Exact(version, digest) => Version::new(
                version.clone(),
                *digest,
            ).text(),
        }
    }
}

} // verus!
