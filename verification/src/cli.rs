//! What the commands of the registry print.

use vstd::prelude::*;

use crate::files;
use crate::registry;
use crate::registry::{LocalPackageRegistry, PackageSummary, PublishedPackage, PublishedView};
use crate::text;
use crate::version;
use crate::version::{Version, VersionRequirement};

verus! {

/// The line on a package that was published.
pub open spec fn published_text(published: PublishedView) -> Seq<char> {
    "published "@ + published.name + "@"@ + published.version.text() + " -> "@ + files::path_text(
        published.artifact_path,
    )
}

/// The line on a package in a listing.
pub open spec fn listed_text(summary: PackageSummary) -> Seq<char> {
    summary.name@ + " "@ + summary.version@.text()
}

/// The line on a dependency of a package.
pub open spec fn dependency_text(dependency: (String, VersionRequirement)) -> Seq<char> {
    "  "@ + dependency.0@ + " "@ + dependency.1@.text()
}

/// The lines on a package, up to its dependencies.
pub open spec fn head_lines(summary: PackageSummary) -> Seq<Seq<char>> {
    let lines = seq!["package: "@ + summary.name@, "version: "@ + summary.version@.text()];
    let lines = match summary.description {
        Some(description) => lines.push("description: "@ + description@),
        None => lines,
    };
    match summary.artifact_path {
        Some(path) => lines.push("artifact: "@ + files::path_text(path@)),
        None => lines,
    }
}

/// The lines on a package.
pub open spec fn shown_lines(summary: PackageSummary) -> Seq<Seq<char>> {
    if summary.dependencies@.len() == 0 {
        head_lines(summary).push("dependencies: none"@)
    } else {
        head_lines(summary).push("dependencies:"@) + Seq::new(
            summary.dependencies@.len(),
            |i: int| dependency_text(summary.dependencies@[i]),
        )
    }
}

/// All that a package shows: its name, its version, its description and its artifact as far as there
/// are any, and a line for each of its dependencies, in their order, or that there are none.
pub proof fn every_dependency_is_shown(summary: PackageSummary)
    ensures
        ({
            let lines = shown_lines(summary);
            let n = summary.dependencies@.len();
            let told = if summary.description is Some {
                3int
            } else {
                2
            };
            let head = if summary.artifact_path is Some {
                told + 1
            } else {
                told
            };
            &&& lines.len() == head + 1 + n
            &&& lines[0] == "package: "@ + summary.name@
            &&& lines[1] == "version: "@ + summary.version@.text()
            &&& summary.description matches Some(description) ==> lines[2] == "description: "@
                + description@
            &&& summary.artifact_path matches Some(path) ==> lines[told] == "artifact: "@
                + files::path_text(path@)
            &&& n == 0 ==> lines[head] == "dependencies: none"@
            &&& n > 0 ==> lines[head] == "dependencies:"@
            &&& forall|i: int|
                0 <= i < n ==> lines[head + 1 + i] == "  "@ + (
                #[trigger] summary.dependencies@[i]).0@ + " "@ + summary.dependencies@[i].1@.text()
        }),
{
}

/// The line on a package that was published.
pub fn publish_line(published: &PublishedPackage) -> (line: String)
    ensures
        line@ == published_text(published@),
        line@ == "published "@ + published.name@ + "@"@ + published.version@.text() + " -> "@
            + files::path_text(published.artifact_path@),
{
    let mut line = "published ".to_string();
    line.append(published.name.as_str());
    line.append("@");
    line.append(published.version.text().as_str());
    line.append(" -> ");
    line.append(published.artifact_path.display().as_str());
    line
}

/// The lines on all the packages of a listing.
pub fn list_lines(packages: &Vec<PackageSummary>) -> (lines: Vec<String>)
    ensures
        text::texts(lines@) == Seq::new(
            packages@.len(),
            |i: int| listed_text(packages@[i]),
        ),
        lines@.len() == packages@.len(),
        forall|i: int|
            0 <= i < packages@.len() ==> (#[trigger] lines@[i])@ == packages@[i].name@ + " "@
                + packages@[i].version@.text(),
{
    let mut lines: Vec<String> = Vec::new();
    let mut i: usize = 0;
    while i < packages.len()
        invariant
            i <= packages@.len(),
            lines@.len() == i,
            forall|j: int| 0 <= j < i ==> (#[trigger] lines@[j])@ == listed_text(packages@[j]),
        decreases packages.len() - i,
    {
        let package = &packages[i];
        let mut line = package.name.clone();
        line.append(" ");
        line.append(package.version.text().as_str());
        lines.push(line);
        i += 1;
    }
    assert(text::texts(lines@) =~= Seq::new(packages@.len(), |i: int| listed_text(packages@[i])));
    lines
}

/// Appends a line made of two texts.
fn push_line(lines: &mut Vec<String>, head: &str, tail: &str)
    ensures
        text::texts(final(lines)@) == text::texts(old(lines)@).push(head@ + tail@),
{
    let ghost before = text::texts(lines@);
    let mut line = head.to_string();
    line.append(tail);
    let ghost added = line@;
    lines.push(line);
    assert(text::texts(lines@) =~= before.push(added));
}

/// The lines on a package.
pub fn show_lines(summary: &PackageSummary) -> (lines: Vec<String>)
    ensures
        text::texts(lines@) == shown_lines(*summary),
        lines@.len() >= summary.dependencies@.len() + 3,
        summary.dependencies@.len() > 0 ==> lines@[lines@.len() - summary.dependencies@.len()
            - 1]@ == "dependencies:"@,
        forall|i: int|
            0 <= i < summary.dependencies@.len() ==> lines@[lines@.len()
                - summary.dependencies@.len() + i]@ == "  "@ + (
            #[trigger] summary.dependencies@[i]).0@ + " "@ + summary.dependencies@[i].1@.text(),
{
    proof {
        every_dependency_is_shown(*summary);
    }
    let mut lines: Vec<String> = Vec::new();
    assert(text::texts(lines@) =~= Seq::<Seq<char>>::empty());
    push_line(&mut lines, "package: ", summary.name.as_str());
    push_line(&mut lines, "version: ", summary.version.text().as_str());
    assert(text::texts(lines@) =~= seq![
        "package: "@ + summary.name@,
        "version: "@ + summary.version@.text(),
    ]);
    if let Some(description) = &summary.description {
        push_line(&mut lines, "description: ", description.as_str());
    }
    if let Some(path) = &summary.artifact_path {
        push_line(&mut lines, "artifact: ", path.display().as_str());
    }
    assert(text::texts(lines@) == head_lines(*summary));
    proof {
        reveal_strlit("");
    }
    if summary.dependencies.len() == 0 {
        push_line(&mut lines, "dependencies: none", "");
        assert("dependencies: none"@ + ""@ =~= "dependencies: none"@);
        assert(text::texts(lines@) == shown_lines(*summary));
        assert(lines@.len() == shown_lines(*summary).len());
        return lines;
    }
    push_line(&mut lines, "dependencies:", "");
    assert("dependencies:"@ + ""@ =~= "dependencies:"@);
    let ghost head = head_lines(*summary).push("dependencies:"@);
    let mut i: usize = 0;
    while i < summary.dependencies.len()
        invariant
            i <= summary.dependencies@.len(),
            text::texts(lines@) =~= head + Seq::new(
                i as nat,
                |j: int| dependency_text(summary.dependencies@[j]),
            ),
        decreases summary.dependencies.len() - i,
    {
        let dependency = &summary.dependencies[i];
        let mut line = dependency.0.clone();
        line.append(" ");
        line.append(dependency.1.text().as_str());
        push_line(&mut lines, "  ", line.as_str());
        assert("  "@ + line@ =~= dependency_text(*dependency));
        i += 1;
    }
    proof {
        let shown = shown_lines(*summary);
        assert(text::texts(lines@) =~= shown);
        assert forall|i: int| 0 <= i < lines@.len() implies (#[trigger] lines@[i])@ == shown[i] by {
            assert(text::texts(lines@)[i] == lines@[i]@);
        }
    }
    lines
}

/// The lines on a version of a package, or on its latest version if none is given. There are none
/// on what is not registered. A text that is no version is refused.
pub fn show_command(
    registry: &LocalPackageRegistry,
    package: &str,
    version: Option<&str>,
) -> (lines: Result<Vec<String>, String>)
    ensures
        match version {
            None => lines is Ok,
            Some(text) => match version::parsed_version(text@) {
                Ok(_) => lines is Ok,
                Err(expected) => lines matches Err(error) && error@ == expected,
            },
        },
        lines matches Ok(lines) ==> {
            ||| exists|summary: PackageSummary| #[trigger]
                text::texts(lines@) == shown_lines(summary) && shows(
                    *registry,
                    package@,
                    version,
                    summary,
                )
            ||| lines@.len() == 0 && !is_registered(*registry, package@, version)
        },
{
    let parsed = match version {
        None => None,
        Some(text) => match Version::parse(text) {
            Ok(version) => Some(version),
            Err(error) => return Err(error),
        },
    };
    let told = match &parsed {
        None => registry.show(package, None),
        Some(version) => registry.show(package, Some(version)),
    };
    match told {
        Some(summary) => {
            let lines = show_lines(&summary);
            proof {
                assert(shows(*registry, package@, version, summary));
            }
            Ok(lines)
        },
        None => Ok(Vec::new()),
    }
}

/// The summary tells of the version that was asked for, or of the latest one.
pub open spec fn shows(
    registry: LocalPackageRegistry,
    package: Seq<char>,
    version: Option<&str>,
    summary: PackageSummary,
) -> bool {
    registry::shows(
        registry@,
        package,
        match version {
            Some(text) => Some(version::parsed_version(text@)->Ok_0),
            None => None,
        },
        Some(summary),
    )
}

/// The version that was asked for is registered, or any version if none was asked for.
pub open spec fn is_registered(
    registry: LocalPackageRegistry,
    package: Seq<char>,
    version: Option<&str>,
) -> bool {
    let contents = registry@.contents;
    match version {
        Some(text) => crate::index::record_by_version(
            contents,
            package,
            version::parsed_version(text@)->Ok_0,
        ) is Some,
        None => contents.contains_key(package) && contents[package].dom() != Set::<
            Seq<char>,
        >::empty(),
    }
}

} // verus!
