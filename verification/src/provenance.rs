//! Where an assembled package came from: the record that decides whether it can be reused.

use miden_core::serde::SliceReader;
use vstd::prelude::*;
use vstd::utf8::*;

use crate::codec;
use crate::codec::{DecodeError, DecodeErrorView};
use crate::package;
use crate::package::{Package, Section, SectionView, PROJECT_SOURCE_PROVENANCE};
use crate::text;
use crate::word;
use crate::word::Word;

verus! {

/// The settings of a profile that have an effect on the code of a package.
#[derive(Clone, Copy, Debug, PartialEq, Eq, Structural)]
pub struct PackageBuildSettings {
    pub emit_debug_info: bool,
    pub trim_paths: bool,
}

impl PackageBuildSettings {
    /// The settings of packages that record none.
    pub open spec fn spec_legacy() -> PackageBuildSettings {
        PackageBuildSettings { emit_debug_info: true, trim_paths: false }
    }

    /// The settings of packages that record none.
    pub fn legacy() -> (settings: PackageBuildSettings)
        ensures
            settings == Self::spec_legacy(),
    {
        PackageBuildSettings { emit_debug_info: true, trim_paths: false }
    }

    /// Tells whether these are the settings of packages that record none.
    pub fn is_legacy(&self) -> (legacy: bool)
        ensures
            legacy == (*self == Self::spec_legacy()),
    {
        *self == Self::legacy()
    }
}

/// Where a package assembled from sources came from.
#[derive(Debug, Eq)]
pub enum PackageBuildProvenance {
    /// From a directory: the digest of its sources.
    Path { source_hash: Word, dependency_hash: Word, build_settings: PackageBuildSettings },
    /// From a git repository, at a revision.
    Git {
        repo: String,
        resolved_revision: String,
        dependency_hash: Word,
        build_settings: PackageBuildSettings,
    },
}

/// The mathematical counterpart of [`PackageBuildProvenance`].
#[verifier::ext_equal]
pub enum ProvenanceView {
    Path { source_hash: Seq<u8>, dependency_hash: Seq<u8>, build_settings: PackageBuildSettings },
    Git {
        repo: Seq<char>,
        resolved_revision: Seq<char>,
        dependency_hash: Seq<u8>,
        build_settings: PackageBuildSettings,
    },
}

impl View for PackageBuildProvenance {
    type V = ProvenanceView;

    open spec fn view(&self) -> ProvenanceView {
        match self {
            PackageBuildProvenance::Path { source_hash, dependency_hash, build_settings } => {
                ProvenanceView::Path {
                    source_hash: source_hash@,
                    dependency_hash: dependency_hash@,
                    build_settings: *build_settings,
                }
            },
            PackageBuildProvenance::Git {
                repo,
                resolved_revision,
                dependency_hash,
                build_settings,
            } => {
                ProvenanceView::Git {
                    repo: repo@,
                    resolved_revision: resolved_revision@,
                    dependency_hash: dependency_hash@,
                    build_settings: *build_settings,
                }
            },
        }
    }
}

/// The digest of the dependencies of a package that has none.
pub open spec fn empty_dependency_hash() -> Seq<u8> {
    word::hash_of(Seq::empty())
}

impl ProvenanceView {
    /// The digest of what the package was linked with.
    pub open spec fn dependency_hash(self) -> Seq<u8> {
        match self {
            ProvenanceView::Path { dependency_hash, .. } => dependency_hash,
            ProvenanceView::Git { dependency_hash, .. } => dependency_hash,
        }
    }

    /// The settings that the package was built with.
    pub open spec fn build_settings(self) -> PackageBuildSettings {
        match self {
            ProvenanceView::Path { build_settings, .. } => build_settings,
            ProvenanceView::Git { build_settings, .. } => build_settings,
        }
    }

    /// How much the record tells beyond the source: nothing (0), the digest of the dependencies
    /// (1), or that and the settings (2). What has its default value is left out where it can be.
    pub open spec fn detail(self) -> int {
        if self.build_settings() != PackageBuildSettings::spec_legacy() {
            2
        } else if self.dependency_hash() != empty_dependency_hash() {
            1
        } else {
            0
        }
    }

    /// The encoding of the source.
    pub open spec fn source_encoding(self) -> Seq<u8> {
        match self {
            ProvenanceView::Path { source_hash, .. } => source_hash,
            ProvenanceView::Git { repo, resolved_revision, .. } => codec::string_encoding(repo)
                + codec::string_encoding(resolved_revision),
        }
    }

    /// The encoding of what is recorded beyond the source.
    pub open spec fn detail_encoding(self) -> Seq<u8> {
        if self.detail() == 0 {
            Seq::empty()
        } else if self.detail() == 1 {
            self.dependency_hash()
        } else {
            self.dependency_hash() + codec::bool_encoding(self.build_settings().emit_debug_info)
                + codec::bool_encoding(self.build_settings().trim_paths)
        }
    }

    /// The encoding of the record: a tag, which is even for a path and odd for a git repository,
    /// the source, and the rest.
    pub open spec fn encoding(self) -> Seq<u8> {
        let tag = 2 * self.detail() + if self is Git {
            1int
        } else {
            0
        };
        seq![tag as u8] + self.source_encoding() + self.detail_encoding()
    }

    /// What the record looks like in messages and in the digests of dependents.
    pub open spec fn description(self) -> Seq<char> {
        let source = match self {
            ProvenanceView::Path { source_hash, .. } => "path("@ + word::word_text(source_hash),
            ProvenanceView::Git { repo, resolved_revision, .. } => "git("@ + repo + "@"@
                + resolved_revision,
        };
        let deps = ", deps="@ + word::word_text(self.dependency_hash());
        if self.detail() == 0 {
            source + ")"@
        } else if self.detail() == 1 {
            source + deps + ")"@
        } else {
            source + deps + ", debug="@ + text::bool_text(self.build_settings().emit_debug_info)
                + ", trim_paths="@ + text::bool_text(self.build_settings().trim_paths) + ")"@
        }
    }

    /// The digests of the record are words, and its texts fit in memory.
    pub open spec fn valid(self) -> bool {
        &&& word::is_word(self.dependency_hash())
        &&& match self {
            ProvenanceView::Path { source_hash, .. } => word::is_word(source_hash),
            ProvenanceView::Git { repo, resolved_revision, .. } => {
                &&& encode_utf8(repo).len() <= usize::MAX
                &&& encode_utf8(resolved_revision).len() <= usize::MAX
            },
        }
    }
}

/// Reads the rest of a record behind its source, for a tag of the given detail.
pub open spec fn decode_detail(detail: int, bytes: Seq<u8>) -> codec::Decoded<
    (Seq<u8>, PackageBuildSettings),
> {
    if detail == 0 {
        Ok(((empty_dependency_hash(), PackageBuildSettings::spec_legacy()), bytes))
    } else {
        match codec::read_word_value(bytes) {
            Err(error) => Err(error),
            Ok((dependency_hash, rest)) => if detail == 1 {
                Ok(((dependency_hash, PackageBuildSettings::spec_legacy()), rest))
            } else {
                match codec::read_bool_value(rest) {
                    Err(error) => Err(error),
                    Ok((emit_debug_info, rest)) => match codec::read_bool_value(rest) {
                        Err(error) => Err(error),
                        Ok((trim_paths, rest)) => Ok(
                            (
                                (
                                    dependency_hash,
                                    PackageBuildSettings { emit_debug_info, trim_paths },
                                ),
                                rest,
                            ),
                        ),
                    },
                }
            },
        }
    }
}

/// The record at the beginning of `bytes`.
pub open spec fn decode_provenance(bytes: Seq<u8>) -> codec::Decoded<ProvenanceView> {
    if bytes.len() == 0 {
        Err(DecodeErrorView::UnexpectedEof)
    } else if bytes[0] > 5 {
        Err(
            DecodeErrorView::InvalidValue(
                "invalid project source provenance tag '"@ + text::decimal(bytes[0] as nat) + "'"@,
            ),
        )
    } else if bytes[0] % 2 == 0 {
        match codec::read_word_value(bytes.skip(1)) {
            Err(error) => Err(error),
            Ok((source_hash, rest)) => match decode_detail(bytes[0] as int / 2, rest) {
                Err(error) => Err(error),
                Ok(((dependency_hash, build_settings), rest)) => Ok(
                    (ProvenanceView::Path { source_hash, dependency_hash, build_settings }, rest),
                ),
            },
        }
    } else {
        match codec::read_string_value(bytes.skip(1)) {
            Err(error) => Err(error),
            Ok((repo, rest)) => match codec::read_string_value(rest) {
                Err(error) => Err(error),
                Ok((resolved_revision, rest)) => match decode_detail(bytes[0] as int / 2, rest) {
                    Err(error) => Err(error),
                    Ok(((dependency_hash, build_settings), rest)) => Ok(
                        (
                            ProvenanceView::Git {
                                repo,
                                resolved_revision,
                                dependency_hash,
                                build_settings,
                            },
                            rest,
                        ),
                    ),
                },
            },
        }
    }
}

proof fn lemma_detail_round_trip(provenance: ProvenanceView, rest: Seq<u8>)
    requires
        provenance.valid(),
    ensures
        decode_detail(provenance.detail(), provenance.detail_encoding() + rest) == Ok::<
            ((Seq<u8>, PackageBuildSettings), Seq<u8>),
            DecodeErrorView,
        >(((provenance.dependency_hash(), provenance.build_settings()), rest)),
{
    let tail = provenance.detail_encoding() + rest;
    let settings = provenance.build_settings();
    let hash = provenance.dependency_hash();
    if provenance.detail() == 0 {
        assert(tail =~= rest);
    } else {
        let debug = codec::bool_encoding(settings.emit_debug_info);
        let trim = codec::bool_encoding(settings.trim_paths);
        if provenance.detail() == 1 {
            codec::word_round_trip(hash, rest);
        } else {
            assert(tail =~= hash + (debug + (trim + rest)));
            codec::word_round_trip(hash, debug + (trim + rest));
            codec::bool_round_trip(settings.emit_debug_info, trim + rest);
            codec::bool_round_trip(settings.trim_paths, rest);
        }
    }
}

/// A record is read back as it was written, whatever stands behind it.
pub proof fn provenance_round_trip(provenance: ProvenanceView, rest: Seq<u8>)
    requires
        provenance.valid(),
    ensures
        decode_provenance(provenance.encoding() + rest) == Ok::<
            (ProvenanceView, Seq<u8>),
            DecodeErrorView,
        >((provenance, rest)),
{
    let bytes = provenance.encoding() + rest;
    let tail = provenance.detail_encoding() + rest;
    assert(bytes.skip(1) =~= provenance.source_encoding() + tail);
    lemma_detail_round_trip(provenance, rest);
    match provenance {
        ProvenanceView::Path { source_hash, .. } => {
            codec::word_round_trip(source_hash, tail);
        },
        ProvenanceView::Git { repo, resolved_revision, .. } => {
            let revision = codec::string_encoding(resolved_revision);
            assert(bytes.skip(1) =~= codec::string_encoding(repo) + (revision + tail));
            codec::string_round_trip(repo, revision + tail);
            codec::string_round_trip(resolved_revision, tail);
        },
    }
}

impl PartialEq for PackageBuildProvenance {
    fn eq(&self, other: &PackageBuildProvenance) -> (equal: bool) {
        match (self, other) {
            (
                PackageBuildProvenance::Path { source_hash, dependency_hash, build_settings },
                PackageBuildProvenance::Path {
                    source_hash: other_source,
                    dependency_hash: other_hash,
                    build_settings: other_settings,
                },
            ) => *source_hash == *other_source && *dependency_hash == *other_hash && *build_settings
                == *other_settings,
            (
                PackageBuildProvenance::Git {
                    repo,
                    resolved_revision,
                    dependency_hash,
                    build_settings,
                },
                PackageBuildProvenance::Git {
                    repo: other_repo,
                    resolved_revision: other_revision,
                    dependency_hash: other_hash,
                    build_settings: other_settings,
                },
            ) => *repo == *other_repo && *resolved_revision == *other_revision && *dependency_hash
                == *other_hash && *build_settings == *other_settings,
            _ => false,
        }
    }
}

impl vstd::std_specs::cmp::PartialEqSpecImpl for PackageBuildProvenance {
    open spec fn obeys_eq_spec() -> bool {
        true
    }

    open spec fn eq_spec(&self, other: &PackageBuildProvenance) -> bool {
        self@ == other@
    }
}

/// The data of the first provenance section.
pub open spec fn provenance_data(sections: Seq<SectionView>) -> Option<Seq<u8>>
    decreases sections.len(),
{
    if sections.len() == 0 {
        None
    } else if sections[0].id == PROJECT_SOURCE_PROVENANCE@ {
        Some(sections[0].data)
    } else {
        provenance_data(sections.drop_first())
    }
}

/// The record that the sections of a package hold: that of the first provenance section.
pub open spec fn recorded_provenance(sections: Seq<SectionView>) -> Option<
    Result<ProvenanceView, DecodeErrorView>,
> {
    match provenance_data(sections) {
        None => None,
        Some(data) => match decode_provenance(data) {
            Ok((provenance, _)) => Some(Ok(provenance)),
            Err(error) => Some(Err(error)),
        },
    }
}

/// The first provenance section of a package.
fn provenance_section(package: &Package) -> (section: Option<&Section>)
    ensures
        match (section, provenance_data(package@.sections)) {
            (None, None) => true,
            (Some(section), Some(data)) => section@.data == data,
            _ => false,
        },
{
    let sections = package.sections();
    let ghost views = package@.sections;
    let mut i: usize = 0;
    assert(views.skip(0) =~= views);
    while i < sections.len()
        invariant
            i <= sections@.len(),
            views == package@.sections,
            package::section_views(sections@) == views,
            provenance_data(views) == provenance_data(views.skip(i as int)),
        decreases sections.len() - i,
    {
        let section = &sections[i];
        assert(views.skip(i as int)[0] == section@);
        assert(views.skip(i as int).drop_first() =~= views.skip(i + 1));
        if text::same_text(section.id.as_str(), PROJECT_SOURCE_PROVENANCE) {
            return Some(section);
        }
        i += 1;
    }
    None
}

impl PackageBuildProvenance {
    /// The digest of the dependencies of a package that has none.
    pub fn empty_dependency_hash() -> (hash: Word)
        ensures
            hash@ == empty_dependency_hash(),
    {
        let text = "";
        proof {
            reveal_strlit("");
            assert(text@ =~= Seq::<char>::empty());
        }
        word::hash_text(text)
    }

    /// The settings of the record, and whether its dependencies are those of a package that has
    /// none.
    fn rest(&self) -> (rest: (Word, bool, PackageBuildSettings))
        ensures
            rest.0@ == self@.dependency_hash(),
            rest.1 == (self@.dependency_hash() == empty_dependency_hash()),
            rest.2 == self@.build_settings(),
    {
        match self {
            PackageBuildProvenance::Path { dependency_hash, build_settings, .. }
            | PackageBuildProvenance::Git { dependency_hash, build_settings, .. } => {
                let empty = *dependency_hash == Self::empty_dependency_hash();
                (*dependency_hash, empty, *build_settings)
            },
        }
    }

    /// Appends the encoding of the record to `target`.
    pub fn write_into(&self, target: &mut Vec<u8>)
        ensures
            final(target)@ == old(target)@ + self@.encoding(),
    {
        let (dependency_hash, empty, settings) = self.rest();
        let detail: u8 = if !settings.is_legacy() {
            2
        } else if !empty {
            1
        } else {
            0
        };
        match self {
            PackageBuildProvenance::Path { source_hash, .. } => {
                target.push(2 * detail);
                codec::write_word(source_hash, target);
            },
            PackageBuildProvenance::Git { repo, resolved_revision, .. } => {
                target.push(2 * detail + 1);
                codec::write_string(repo, target);
                codec::write_string(resolved_revision, target);
            },
        }
        if detail > 0 {
            codec::write_word(&dependency_hash, target);
        }
        if detail > 1 {
            target.push(if settings.emit_debug_info { 1 } else { 0 });
            target.push(if settings.trim_paths { 1 } else { 0 });
        }
        assert(target@ =~= old(target)@ + self@.encoding());
    }

    /// Reads the rest of a record behind its source, for a tag of the given detail.
    fn read_rest(detail: u8, source: &mut SliceReader<'_>) -> (rest: Result<
        (Word, PackageBuildSettings),
        DecodeError,
    >)
        ensures
            match (rest, decode_detail(detail as int, codec::unread(*old(source)))) {
                (Ok((hash, settings)), Ok(((expected, expected_settings), rest))) => hash@
                    == expected && settings == expected_settings && codec::unread(*final(source))
                    == rest,
                (Err(error), Err(expected)) => error@ == expected,
                _ => false,
            },
    {
        if detail == 0 {
            return Ok((Self::empty_dependency_hash(), PackageBuildSettings::legacy()));
        }
        let dependency_hash = match codec::read_word(source) {
            Ok(hash) => hash,
            Err(error) => return Err(error),
        };
        if detail == 1 {
            return Ok((dependency_hash, PackageBuildSettings::legacy()));
        }
        let emit_debug_info = match codec::read_bool(source) {
            Ok(flag) => flag,
            Err(error) => return Err(error),
        };
        let trim_paths = match codec::read_bool(source) {
            Ok(flag) => flag,
            Err(error) => return Err(error),
        };
        Ok((dependency_hash, PackageBuildSettings { emit_debug_info, trim_paths }))
    }

    /// Reads a record. After an error nothing is promised of the reader.
    pub fn read_from(source: &mut SliceReader<'_>) -> (provenance: Result<
        PackageBuildProvenance,
        DecodeError,
    >)
        ensures
            match (provenance, decode_provenance(codec::unread(*old(source)))) {
                (Ok(provenance), Ok((expected, rest))) => provenance@ == expected && codec::unread(
                    *final(source),
                ) == rest,
                (Err(error), Err(expected)) => error@ == expected,
                _ => false,
            },
    {
        let tag = match codec::read_byte(source) {
            Ok(tag) => tag,
            Err(error) => return Err(error),
        };
        if tag > 5 {
            let mut message = "invalid project source provenance tag '".to_string();
            message.append(text::decimal_text(tag as u64).as_str());
            message.append("'");
            return Err(DecodeError::InvalidValue(message));
        }
        if tag % 2 == 0 {
            let source_hash = match codec::read_word(source) {
                Ok(hash) => hash,
                Err(error) => return Err(error),
            };
            match Self::read_rest(tag / 2, source) {
                Ok((dependency_hash, build_settings)) => Ok(
                    PackageBuildProvenance::Path { source_hash, dependency_hash, build_settings },
                ),
                Err(error) => Err(error),
            }
        } else {
            let repo = match codec::read_string(source) {
                Ok(repo) => repo,
                Err(error) => return Err(error),
            };
            let resolved_revision = match codec::read_string(source) {
                Ok(revision) => revision,
                Err(error) => return Err(error),
            };
            match Self::read_rest(tag / 2, source) {
                Ok((dependency_hash, build_settings)) => Ok(
                    PackageBuildProvenance::Git {
                        repo,
                        resolved_revision,
                        dependency_hash,
                        build_settings,
                    },
                ),
                Err(error) => Err(error),
            }
        }
    }

    /// The record as a section of a package.
    pub fn to_section(&self) -> (section: Section)
        ensures
            section@ == (SectionView {
                id: PROJECT_SOURCE_PROVENANCE@,
                data: self@.encoding(),
            }),
    {
        let mut data: Vec<u8> = Vec::new();
        self.write_into(&mut data);
        assert(data@ =~= self@.encoding());
        Section { id: PROJECT_SOURCE_PROVENANCE.to_string(), data }
    }

    /// The record that a section of `package` holds.
    fn from_section(package: &Package, section: &Section) -> (provenance: Result<
        PackageBuildProvenance,
        String,
    >)
        ensures
            match (provenance, decode_provenance(section@.data)) {
                (Ok(provenance), Ok((expected, _))) => provenance@ == expected,
                (Err(error), Err(expected)) => error@
                    == "failed to decode source provenance for package '"@ + package@.name + "': "@
                    + expected.text(),
                _ => false,
            },
    {
        let mut reader = codec::reader_of(section.data.as_slice());
        match Self::read_from(&mut reader) {
            Ok(provenance) => Ok(provenance),
            Err(error) => {
                let mut message = "failed to decode source provenance for package '".to_string();
                message.append(package.name());
                message.append("': ");
                message.append(error.message().as_str());
                Err(message)
            },
        }
    }

    /// The record that a package holds, if it holds one.
    pub fn from_package(package: &Package) -> (provenance: Result<
        Option<PackageBuildProvenance>,
        String,
    >)
        ensures
            match (provenance, recorded_provenance(package@.sections)) {
                (Ok(None), None) => true,
                (Ok(Some(provenance)), Some(Ok(expected))) => provenance@ == expected,
                (Err(error), Some(Err(expected))) => error@
                    == "failed to decode source provenance for package '"@ + package@.name + "': "@
                    + expected.text(),
                _ => false,
            },
    {
        match provenance_section(package) {
            None => Ok(None),
            Some(section) => match Self::from_section(package, section) {
                Ok(provenance) => Ok(Some(provenance)),
                Err(error) => Err(error),
            },
        }
    }

    /// What the record looks like in messages and in the digests of dependents.
    pub fn describe(&self) -> (text: String)
        ensures
            text@ == self@.description(),
    {
        let (dependency_hash, empty, settings) = self.rest();
        let mut text = match self {
            PackageBuildProvenance::Path { source_hash, .. } => "path(".to_string().concat(
                source_hash.text().as_str(),
            ),
            PackageBuildProvenance::Git { repo, resolved_revision, .. } => "git(".to_string().concat(
                repo.as_str(),
            ).concat("@").concat(resolved_revision.as_str()),
        };
        if !settings.is_legacy() || !empty {
            text.append(", deps=");
            text.append(dependency_hash.text().as_str());
        }
        if !settings.is_legacy() {
            text.append(", debug=");
            text.append(text::bool_str(settings.emit_debug_info));
            text.append(", trim_paths=");
            text.append(text::bool_str(settings.trim_paths));
        }
        text.append(")");
        assert(text@ =~= self@.description());
        text
    }
}

} // verus!
