//! What holds of the records of provenance.

use vstd::prelude::*;

use crate::codec;
use crate::codec::DecodeErrorView;
use crate::package::SectionView;
use crate::provenance;
use crate::provenance::{PackageBuildSettings, ProvenanceView};
use crate::text;
use crate::word;

verus! {

/// The digits of a number below sixteen are those that everybody writes.
pub proof fn hexadecimal_digits(n: int)
    requires
        0 <= n < 16,
    ensures
        word::hex_digit(n) == "0123456789abcdef"@[n],
{
    reveal_strlit("0123456789abcdef");
}

/// A word is displayed as `0x` and two digits for each of its bytes, the high one first.
pub proof fn word_is_displayed_in_hexadecimal(bytes: Seq<u8>)
    ensures
        word::word_text(bytes).len() == 2 + 2 * bytes.len(),
        word::word_text(bytes).take(2) == "0x"@,
        forall|i: int|
            0 <= i < bytes.len() ==> word::word_text(bytes)[2 + 2 * i] == word::hex_digit(
                (#[trigger] bytes[i]) as int / 16,
            ) && word::word_text(bytes)[3 + 2 * i] == word::hex_digit(bytes[i] as int % 16),
{
    reveal_strlit("0x");
    assert(word::word_text(bytes).take(2) =~= "0x"@);
}

/// Different words are displayed differently.
pub proof fn words_are_told_apart(a: Seq<u8>, b: Seq<u8>)
    ensures
        word::word_text(a) == word::word_text(b) <==> a == b,
{
    if word::word_text(a) == word::word_text(b) {
        word_is_displayed_in_hexadecimal(a);
        word_is_displayed_in_hexadecimal(b);
        assert forall|i: int| 0 <= i < a.len() implies a[i] == b[i] by {
            lemma_digit(a[i] as int / 16, b[i] as int / 16);
            lemma_digit(a[i] as int % 16, b[i] as int % 16);
        }
        assert(a =~= b);
    }
}

proof fn lemma_digit(a: int, b: int)
    requires
        0 <= a < 16,
        0 <= b < 16,
        word::hex_digit(a) == word::hex_digit(b),
    ensures
        a == b,
{
}

/// The settings are those that a record leaves out: debug information, and paths that are not
/// trimmed.
pub open spec fn are_default(settings: PackageBuildSettings) -> bool {
    settings.emit_debug_info && !settings.trim_paths
}

/// The digest is the one of no dependencies.
pub open spec fn is_of_nothing(dependency_hash: Seq<u8>) -> bool {
    dependency_hash == word::hash_of(Seq::empty())
}

/// What of a record follows the source: the digest of the dependencies, unless there are none and the
/// settings are the default ones, and then the settings, a byte each, unless they are.
pub open spec fn is_laid_out(
    tail: Seq<u8>,
    dependency_hash: Seq<u8>,
    settings: PackageBuildSettings,
) -> bool {
    if are_default(settings) && is_of_nothing(dependency_hash) {
        tail.len() == 0
    } else if are_default(settings) {
        tail == dependency_hash
    } else {
        &&& tail.len() == dependency_hash.len() + 2
        &&& tail.take(dependency_hash.len() as int) == dependency_hash
        &&& tail[dependency_hash.len() as int] == if settings.emit_debug_info {
            1u8
        } else {
            0
        }
        &&& tail[dependency_hash.len() as int + 1] == if settings.trim_paths {
            1u8
        } else {
            0
        }
    }
}

/// The first byte of a record tells what follows.
pub open spec fn tag(
    is_git: bool,
    dependency_hash: Seq<u8>,
    settings: PackageBuildSettings,
) -> int {
    let kind = if is_git {
        1int
    } else {
        0
    };
    if !are_default(settings) {
        4 + kind
    } else if !is_of_nothing(dependency_hash) {
        2 + kind
    } else {
        kind
    }
}

/// How a record is laid out in bytes: a tag, the digest of the sources or the repository and the
/// revision, and what follows them.
pub proof fn record_is_laid_out(record: ProvenanceView)
    ensures
        match record {
            ProvenanceView::Path { source_hash, dependency_hash, build_settings } => {
                &&& record.encoding()[0] == tag(false, dependency_hash, build_settings)
                &&& record.encoding().len() > source_hash.len()
                &&& record.encoding().skip(1).take(source_hash.len() as int) == source_hash
                &&& is_laid_out(
                    record.encoding().skip(1 + source_hash.len() as int),
                    dependency_hash,
                    build_settings,
                )
            },
            ProvenanceView::Git { repo, resolved_revision, dependency_hash, build_settings } => {
                let source = codec::string_encoding(repo) + codec::string_encoding(
                    resolved_revision,
                );
                &&& record.encoding()[0] == tag(true, dependency_hash, build_settings)
                &&& record.encoding().len() > source.len()
                &&& record.encoding().skip(1).take(source.len() as int) == source
                &&& is_laid_out(
                    record.encoding().skip(1 + source.len() as int),
                    dependency_hash,
                    build_settings,
                )
            },
        },
{
    let source = record.source_encoding();
    let detail = record.detail_encoding();
    let whole = record.encoding();
    assert(whole.skip(1).take(source.len() as int) =~= source);
    assert(whole.skip(1 + source.len() as int) =~= detail);
    let hash = record.dependency_hash();
    if record.detail() == 2 {
        assert(detail.take(hash.len() as int) =~= hash);
    }
}

/// What follows the source where a record is displayed.
spec fn tail(record: ProvenanceView) -> Seq<char> {
    let deps = ", deps="@ + word::word_text(record.dependency_hash());
    let settings = record.build_settings();
    if are_default(settings) && is_of_nothing(record.dependency_hash()) {
        ")"@
    } else if are_default(settings) {
        deps + ")"@
    } else {
        deps + ", debug="@ + text::bool_text(settings.emit_debug_info) + ", trim_paths="@
            + text::bool_text(settings.trim_paths) + ")"@
    }
}

proof fn lemma_tail(a: ProvenanceView, b: ProvenanceView)
    requires
        a.dependency_hash().len() == b.dependency_hash().len(),
        tail(a) == tail(b),
    ensures
        a.dependency_hash() == b.dependency_hash(),
        a.build_settings() == b.build_settings(),
{
    reveal_strlit(")");
    reveal_strlit(", deps=");
    reveal_strlit(", debug=");
    reveal_strlit(", trim_paths=");
    reveal_strlit("true");
    reveal_strlit("false");
    let (x, y) = (tail(a), tail(b));
    let n = a.dependency_hash().len();
    word_is_displayed_in_hexadecimal(a.dependency_hash());
    word_is_displayed_in_hexadecimal(b.dependency_hash());
    let end = 9 + 2 * n as int;
    let detailed = !are_default(a.build_settings()) || !is_of_nothing(a.dependency_hash());
    if detailed {
        assert(x.subrange(7, end) =~= word::word_text(a.dependency_hash()));
        assert(y.subrange(7, end) =~= word::word_text(b.dependency_hash()));
        words_are_told_apart(a.dependency_hash(), b.dependency_hash());
        if !are_default(a.build_settings()) {
            let (s, t) = (a.build_settings(), b.build_settings());
            assert(x[end + 8] == if s.emit_debug_info {
                't'
            } else {
                'f'
            });
            assert(y[end + 8] == if t.emit_debug_info {
                't'
            } else {
                'f'
            });
            assert(s.emit_debug_info == t.emit_debug_info);
            assert(x.len() == end + 8 + text::bool_text(s.emit_debug_info).len() + 13
                + text::bool_text(s.trim_paths).len() + 1);
            assert(y.len() == end + 8 + text::bool_text(t.emit_debug_info).len() + 13
                + text::bool_text(t.trim_paths).len() + 1);
        }
    }
}

/// Two records of sources in directories are displayed alike only if they are the same, and so are
/// two records of one revision of a repository. Records of directories and of repositories are never
/// displayed alike. So a change of the sources, of the dependencies or of the settings shows in the
/// digests of the dependents.
pub proof fn different_records_are_displayed_differently(a: ProvenanceView, b: ProvenanceView)
    requires
        a.valid(),
        b.valid(),
    ensures
        a is Path && b is Path ==> (a.description() == b.description() <==> a == b),
        a is Git && b is Git && a->repo == b->repo && a->resolved_revision == b->resolved_revision
            ==> (a.description() == b.description() <==> a == b),
        a is Path && b is Git ==> a.description() != b.description(),
{
    lemma_start(a);
    lemma_start(b);
    if a is Path && b is Path && a.description() == b.description() {
        lemma_same_path(a, b);
    }
    if a is Git && b is Git && a->repo == b->repo && a->resolved_revision == b->resolved_revision
        && a.description() == b.description() {
        lemma_same_revision(a, b);
    }
}

proof fn lemma_start(record: ProvenanceView)
    ensures
        record.description().len() > 0,
        record.description()[0] == if record is Path {
            'p'
        } else {
            'g'
        },
        record is Path ==> record.description() == ("path("@ + word::word_text(
            record->source_hash,
        )) + tail(record),
        record is Git ==> record.description() == ("git("@ + record->repo + "@"@
            + record->resolved_revision) + tail(record),
{
    reveal_strlit("path(");
    reveal_strlit("git(");
    if record is Path {
        let start = "path("@ + word::word_text(record->source_hash);
        assert(record.description() =~= start + tail(record));
        assert(start[0] == 'p');
    } else {
        let start = "git("@ + record->repo + "@"@ + record->resolved_revision;
        assert(record.description() =~= start + tail(record));
        assert(start[0] == 'g');
    }
}

proof fn lemma_same_end(start: Seq<char>, a: Seq<char>, b: Seq<char>)
    requires
        start + a == start + b,
    ensures
        a == b,
{
    assert((start + a).skip(start.len() as int) =~= a);
    assert((start + b).skip(start.len() as int) =~= b);
}

proof fn lemma_same_path(a: ProvenanceView, b: ProvenanceView)
    requires
        a.valid(),
        b.valid(),
        a is Path,
        b is Path,
        a.description() == b.description(),
    ensures
        a == b,
{
    lemma_start(a);
    lemma_start(b);
    word_is_displayed_in_hexadecimal(a->source_hash);
    word_is_displayed_in_hexadecimal(b->source_hash);
    let (s, t) = ("path("@ + word::word_text(a->source_hash), "path("@ + word::word_text(
        b->source_hash,
    ));
    assert(s =~= a.description().take(s.len() as int));
    assert(t =~= b.description().take(t.len() as int));
    assert(s.len() == t.len());
    lemma_same_end("path("@, word::word_text(a->source_hash), word::word_text(b->source_hash));
    words_are_told_apart(a->source_hash, b->source_hash);
    lemma_same_end(s, tail(a), tail(b));
    lemma_tail(a, b);
}

proof fn lemma_same_revision(a: ProvenanceView, b: ProvenanceView)
    requires
        a.valid(),
        b.valid(),
        a is Git,
        b is Git,
        a->repo == b->repo,
        a->resolved_revision == b->resolved_revision,
        a.description() == b.description(),
    ensures
        a == b,
{
    lemma_start(a);
    lemma_start(b);
    lemma_same_end(
        "git("@ + a->repo + "@"@ + a->resolved_revision,
        tail(a),
        tail(b),
    );
    lemma_tail(a, b);
}

/// The record of a package is the one in its first provenance section. A package without such a
/// section has none.
pub proof fn first_section_is_the_record(sections: Seq<SectionView>, i: int)
    requires
        0 <= i < sections.len(),
        sections[i].id == "project_source_provenance"@,
        forall|j: int| 0 <= j < i ==> (#[trigger] sections[j]).id != "project_source_provenance"@,
    ensures
        provenance::recorded_provenance(sections) == Some(
            match provenance::decode_provenance(sections[i].data) {
                Ok((record, _)) => Ok::<ProvenanceView, DecodeErrorView>(record),
                Err(error) => Err(error),
            },
        ),
    decreases i,
{
    if i > 0 {
        assert(sections[0].id != "project_source_provenance"@);
        let rest = sections.drop_first();
        assert forall|j: int| 0 <= j < i - 1 implies (#[trigger] rest[j]).id
            != "project_source_provenance"@ by {
            assert(rest[j] == sections[j + 1]);
        }
        first_section_is_the_record(rest, i - 1);
    }
}

/// A package without a provenance section records none.
pub proof fn no_section_is_no_record(sections: Seq<SectionView>)
    requires
        forall|j: int|
            0 <= j < sections.len() ==> (#[trigger] sections[j]).id
                != "project_source_provenance"@,
    ensures
        provenance::recorded_provenance(sections) is None,
    decreases sections.len(),
{
    if sections.len() > 0 {
        assert(sections[0].id != "project_source_provenance"@);
        let rest = sections.drop_first();
        assert forall|j: int| 0 <= j < rest.len() implies (#[trigger] rest[j]).id
            != "project_source_provenance"@ by {
            assert(rest[j] == sections[j + 1]);
        }
        no_section_is_no_record(rest);
    }
}

} // verus!
