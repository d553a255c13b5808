//! What holds of how versions and requirements are displayed.

use vstd::prelude::*;

use crate::provenance_laws;
use crate::version::{RequirementView, VersionView};
use crate::word;

verus! {

/// A version is displayed as its semantic version, with `#` and its digest behind it if it has one.
pub proof fn version_is_displayed_with_its_digest(version: VersionView)
    ensures
        version.text().len() >= version.version.len(),
        version.text().take(version.version.len() as int) == version.version,
        version.text().skip(version.version.len() as int) == match version.digest {
            Some(digest) => "#"@ + word::word_text(digest),
            None => Seq::empty(),
        },
{
    let text = version.text();
    let len = version.version.len() as int;
    assert(text.take(len) =~= version.version);
    match version.digest {
        Some(digest) => {
            assert(text.skip(len) =~= "#"@ + word::word_text(digest));
        },
        None => {
            assert(text.skip(len) =~= Seq::empty());
        },
    }
}

/// There is no `#` in the semantic version, and the digest is a word.
pub open spec fn is_plain(version: VersionView) -> bool {
    &&& forall|i: int| 0 <= i < version.version.len() ==> #[trigger] version.version[i] != '#'
    &&& version.digest matches Some(digest) ==> word::is_word(digest)
}

/// Different versions are displayed differently.
pub proof fn versions_are_told_apart(a: VersionView, b: VersionView)
    requires
        is_plain(a),
        is_plain(b),
    ensures
        a.text() == b.text() <==> a == b,
{
    if a.text() == b.text() {
        reveal_strlit("#");
        version_is_displayed_with_its_digest(a);
        version_is_displayed_with_its_digest(b);
        if let Some(digest) = a.digest {
            provenance_laws::word_is_displayed_in_hexadecimal(digest);
            assert(a.text()[a.version.len() as int] == a.text().skip(a.version.len() as int)[0]);
            assert(a.text()[a.version.len() as int] == '#');
            if b.digest is None {
                assert(b.text() =~= b.version);
                assert(b.version[a.version.len() as int] != '#');
            }
        }
        if let Some(digest) = b.digest {
            provenance_laws::word_is_displayed_in_hexadecimal(digest);
            assert(b.text()[b.version.len() as int] == b.text().skip(b.version.len() as int)[0]);
            assert(b.text()[b.version.len() as int] == '#');
            if a.digest is None {
                assert(a.text() =~= a.version);
                assert(a.version[b.version.len() as int] != '#');
            }
        }
        if a.digest is Some && b.digest is Some {
            let (x, y) = (word::word_text(a.digest->0), word::word_text(b.digest->0));
            assert(a.text().len() == a.version.len() + 1 + x.len());
            assert(b.text().len() == b.version.len() + 1 + y.len());
            assert(("#"@ + x).skip(1) =~= x);
            assert(("#"@ + y).skip(1) =~= y);
            provenance_laws::words_are_told_apart(a.digest->0, b.digest->0);
        } else {
            assert(a.text() =~= a.version);
            assert(b.text() =~= b.version);
        }
    }
}

/// A requirement is displayed as what it asks for: a range of semantic versions as it is written, a
/// digest as a word, and an exact version as that version.
pub proof fn requirement_is_displayed_as_what_it_asks_for(
    range: Seq<char>,
    version: Seq<char>,
    digest: Seq<u8>,
)
    ensures
        RequirementView::Semantic(range).text() == range,
        RequirementView::Digest(digest).text() == word::word_text(digest),
        RequirementView::Exact(version, digest).text() == version + "#"@ + word::word_text(digest),
{
}

} // verus!
