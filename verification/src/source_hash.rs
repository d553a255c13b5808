//! The digest of the sources of a target.

use vstd::prelude::*;

use crate::files;
use crate::files::{FilePath, PathView};
use crate::project;
use crate::project::{ProjectPackage, ProjectView, Target, TargetView};
use crate::sorting;
use crate::sorting::Sortable;
use crate::sources;
use crate::sources::{ListedView, Listing, SourcePathsView};
use crate::text;
use crate::word;
use crate::word::Word;

verus! {

/// A file that goes into a digest, with its label.
#[derive(Debug)]
pub struct HashInput {
    pub label: String,
    pub path: FilePath,
}

/// The mathematical counterpart of [`HashInput`].
#[verifier::ext_equal]
pub struct HashInputView {
    pub label: Seq<char>,
    pub path: PathView,
}

impl View for HashInput {
    type V = HashInputView;

    open spec fn view(&self) -> HashInputView {
        HashInputView { label: self.label@, path: self.path@ }
    }
}

impl Sortable for HashInput {
    open spec fn before(a: HashInputView, b: HashInputView) -> bool {
        text::text_lt(a.label, b.label)
    }

    fn comes_before(&self, other: &HashInput) -> (before: bool) {
        text::text_less(self.label.as_str(), other.label.as_str())
    }
}

/// A file that was read: its contents, or why they could not be read.
#[derive(Debug)]
pub struct ReadFile {
    pub path: FilePath,
    pub contents: Result<Vec<u8>, String>,
}

/// The mathematical counterpart of [`ReadFile`].
#[verifier::ext_equal]
pub struct ReadFileView {
    pub path: PathView,
    pub contents: Result<Seq<u8>, Seq<char>>,
}

impl View for ReadFile {
    type V = ReadFileView;

    open spec fn view(&self) -> ReadFileView {
        ReadFileView {
            path: self.path@,
            contents: match self.contents {
                Ok(contents) => Ok(contents@),
                Err(error) => Err(error@),
            },
        }
    }
}

/// What was read of the file `path`.
pub open spec fn contents_of(files: Seq<ReadFileView>, path: PathView) -> Result<
    Seq<u8>,
    Seq<char>,
>
    decreases files.len(),
{
    if files.len() == 0 {
        Err("file was not read"@)
    } else if files[0].path == path {
        files[0].contents
    } else {
        contents_of(files.drop_first(), path)
    }
}

/// The input for a file: labelled with its path below the directory of the project.
pub open spec fn labelled(prefix: Seq<char>, path: PathView, project_root: PathView) -> HashInputView {
    let relative = match files::stripped(path, project_root) {
        Some(relative) => relative,
        None => path,
    };
    HashInputView { label: prefix + files::path_text(relative), path }
}

/// The inputs for the modules of a target, in the order of their labels.
pub open spec fn module_inputs(paths: SourcePathsView, project_root: PathView) -> Seq<
    HashInputView,
> {
    sorting::sorted::<HashInput>(
        seq![labelled("root:"@, paths.root, project_root)] + Seq::new(
            paths.support.len(),
            |i: int| labelled("support:"@, paths.support[i], project_root),
        ),
    )
}

/// All the files that go into the digest of the sources of a target: its modules, and behind them
/// the manifest, unless the project is a member of a workspace.
pub open spec fn hash_inputs(
    project: ProjectView,
    target: TargetView,
    manifest: PathView,
    in_workspace: bool,
    listing: Result<Seq<ListedView>, Seq<char>>,
) -> Result<Seq<HashInputView>, Seq<char>> {
    match sources::source_paths(project, target, listing) {
        Err(error) => Err(error),
        Ok(paths) => match files::parent(manifest) {
            None => Err(sources::without_parent("manifest"@, manifest)),
            Some(project_root) => {
                let modules = module_inputs(paths, project_root);
                if in_workspace {
                    Ok(modules)
                } else {
                    Ok(modules.push(labelled("manifest:"@, manifest, project_root)))
                }
            },
        },
    }
}

/// The label and the text of each input, or the message on the first one that could not be read.
pub open spec fn inputs_material(inputs: Seq<HashInputView>, files: Seq<ReadFileView>) -> Result<
    Seq<char>,
    Seq<char>,
>
    decreases inputs.len(),
{
    if inputs.len() == 0 {
        Ok(Seq::empty())
    } else {
        match inputs_material(inputs.drop_last(), files) {
            Err(error) => Err(error),
            Ok(material) => match contents_of(files, inputs.last().path) {
                Err(error) => Err(
                    "failed to read source input '"@ + files::path_text(inputs.last().path)
                        + "': "@ + error,
                ),
                Ok(contents) => Ok(
                    material + inputs.last().label + "\n"@ + files::lossy_text(contents) + "\n"@,
                ),
            },
        }
    }
}

/// What the target itself contributes to the digest.
pub open spec fn target_material(target: TargetView) -> Seq<char> {
    "target:"@ + target.name + "\nkind:"@ + target.ty.name() + "\nnamespace:"@ + target.namespace
        + "\n"@
}

/// What the manifest contributes to the digest beside the inputs: for a member of a workspace the
/// effective manifest.
pub open spec fn manifest_material(project: ProjectView, in_workspace: bool) -> Result<
    Seq<char>,
    Seq<char>,
> {
    if in_workspace {
        match project::effective_manifest_input(project) {
            Err(error) => Err(error),
            Ok(input) => Ok("manifest:effective\n"@ + input + "\n"@),
        }
    } else {
        Ok(Seq::empty())
    }
}

/// What the digest of the sources of a target is computed from, or the message on why there is none.
pub open spec fn source_material(
    project: ProjectView,
    target: TargetView,
    manifest: PathView,
    in_workspace: bool,
    listing: Result<Seq<ListedView>, Seq<char>>,
    files: Seq<ReadFileView>,
) -> Result<Seq<char>, Seq<char>> {
    match hash_inputs(project, target, manifest, in_workspace, listing) {
        Err(error) => Err(error),
        Ok(inputs) => match manifest_material(project, in_workspace) {
            Err(error) => Err(error),
            Ok(manifest) => match inputs_material(inputs, files) {
                Err(error) => Err(error),
                Ok(material) => Ok(target_material(target) + manifest + material),
            },
        },
    }
}

/// The digest of the sources of a target, or the message on why there is none.
pub open spec fn source_hash(
    project: ProjectView,
    target: TargetView,
    manifest: PathView,
    in_workspace: bool,
    listing: Result<Seq<ListedView>, Seq<char>>,
    files: Seq<ReadFileView>,
) -> Result<Seq<u8>, Seq<char>> {
    match source_material(project, target, manifest, in_workspace, listing, files) {
        Err(error) => Err(error),
        Ok(material) => Ok(word::hash_of(material)),
    }
}

/// The input for a file.
fn label_input(prefix: &str, path: &FilePath, project_root: &FilePath) -> (input: HashInput)
    ensures
        input@ == labelled(prefix@, path@, project_root@),
{
    let mut label = prefix.to_string();
    match path.strip_prefix(project_root) {
        Some(relative) => label.append(relative.display().as_str()),
        None => label.append(path.display().as_str()),
    }
    HashInput { label, path: path.clone() }
}

/// The files that go into the digest of the sources of `target`, in their order.
pub fn source_hash_inputs(
    project: &ProjectPackage,
    target: &Target,
    manifest_path: &FilePath,
    in_workspace: bool,
    listing: &Listing,
) -> (inputs: Result<Vec<HashInput>, String>)
    ensures
        match (
            inputs,
            hash_inputs(
                project@,
                target@,
                manifest_path@,
                in_workspace,
                sources::listing_view(*listing),
            ),
        ) {
            (Ok(inputs), Ok(expected)) => sorting::views(inputs@) == expected,
            (Err(error), Err(message)) => error@ == message,
            _ => false,
        },
{
    let paths = match sources::resolve_target_source_paths(project, target, listing) {
        Ok(paths) => paths,
        Err(error) => return Err(error),
    };
    let project_root = match manifest_path.parent() {
        Some(root) => root,
        None => {
            let mut message = "manifest '".to_string();
            message.append(manifest_path.display().as_str());
            message.append("' has no parent directory");
            assert(message@ =~= sources::without_parent("manifest"@, manifest_path@)) by {
                reveal_strlit("manifest '");
                reveal_strlit("manifest");
                reveal_strlit(" '");
            }
            return Err(message);
        },
    };
    let mut inputs: Vec<HashInput> = Vec::new();
    inputs.push(label_input("root:", &paths.root, &project_root));
    let ghost expected = seq![labelled("root:"@, paths@.root, project_root@)] + Seq::new(
        paths@.support.len(),
        |i: int| labelled("support:"@, paths@.support[i], project_root@),
    );
    let mut i: usize = 0;
    while i < paths.support.len()
        invariant
            i <= paths.support@.len(),
            inputs@.len() == i + 1,
            expected.len() == paths@.support.len() + 1,
            forall|j: int|
                0 <= j < paths@.support.len() ==> #[trigger] expected[j + 1] == labelled(
                    "support:"@,
                    paths@.support[j],
                    project_root@,
                ),
            forall|j: int| 0 <= j <= i ==> (#[trigger] inputs@[j])@ == expected[j],
        decreases paths.support.len() - i,
    {
        assert(expected[i + 1] == labelled(
            "support:"@,
            paths.support@[i as int]@,
            project_root@,
        ));
        inputs.push(label_input("support:", &paths.support[i], &project_root));
        i += 1;
    }
    assert(sorting::views(inputs@) =~= expected);
    sorting::sort(&mut inputs);
    if !in_workspace {
        let ghost modules = sorting::views(inputs@);
        let manifest = label_input("manifest:", manifest_path, &project_root);
        inputs.push(manifest);
        assert(sorting::views(inputs@) =~= modules.push(manifest@));
    }
    Ok(inputs)
}

/// What was read of the file `path`.
fn find_contents<'a>(files: &'a Vec<ReadFile>, path: &FilePath) -> (contents: Result<
    &'a Vec<u8>,
    String,
>)
    ensures
        match (contents, contents_of(sorting::views(files@), path@)) {
            (Ok(contents), Ok(expected)) => contents@ == expected,
            (Err(error), Err(message)) => error@ == message,
            _ => false,
        },
{
    let ghost all = sorting::views(files@);
    let mut i: usize = 0;
    assert(all.skip(0) =~= all);
    while i < files.len()
        invariant
            i <= files@.len(),
            all == sorting::views(files@),
            contents_of(all, path@) == contents_of(all.skip(i as int), path@),
        decreases files.len() - i,
    {
        let file = &files[i];
        assert(all.skip(i as int)[0] == file@);
        assert(all.skip(i as int).drop_first() =~= all.skip(i + 1));
        if text::same_bytes(file.path.bytes.as_slice(), path.bytes.as_slice()) {
            return match &file.contents {
                Ok(contents) => Ok(contents),
                Err(error) => Err(error.clone()),
            };
        }
        i += 1;
    }
    Err("file was not read".to_string())
}

/// The digest of the sources of `target`. `listing` holds all the files below the directory of its
/// root, and `files` the contents of those that go into the digest.
pub fn compute_path_source_hash(
    project: &ProjectPackage,
    target: &Target,
    manifest_path: &FilePath,
    in_workspace: bool,
    listing: &Listing,
    files: &Vec<ReadFile>,
) -> (hash: Result<Word, String>)
    ensures
        match (
            hash,
            source_hash(
                project@,
                target@,
                manifest_path@,
                in_workspace,
                sources::listing_view(*listing),
                sorting::views(files@),
            ),
        ) {
            (Ok(hash), Ok(expected)) => hash@ == expected,
            (Err(error), Err(message)) => error@ == message,
            _ => false,
        },
{
    let inputs = match source_hash_inputs(project, target, manifest_path, in_workspace, listing) {
        Ok(inputs) => inputs,
        Err(error) => return Err(error),
    };
    let mut material = "target:".to_string();
    material.append(target.name.as_str());
    material.append("\nkind:");
    material.append(target.ty.as_str());
    material.append("\nnamespace:");
    material.append(target.namespace.as_str());
    material.append("\n");
    if in_workspace {
        match project::effective_manifest_hash_input(project) {
            Ok(input) => {
                material.append("manifest:effective\n");
                material.append(input.as_str());
                material.append("\n");
            },
            Err(error) => return Err(error),
        }
    }
    let ghost manifest = manifest_material(project@, in_workspace)->Ok_0;
    let ghost head = target_material(target@) + manifest;
    assert(material@ =~= head);
    let ghost all = sorting::views(inputs@);
    let ghost read = sorting::views(files@);
    let mut i: usize = 0;
    assert(material@ =~= head + Seq::<char>::empty());
    while i < inputs.len()
        invariant
            i <= inputs@.len(),
            all == sorting::views(inputs@),
            read == sorting::views(files@),
            hash_inputs(
                project@,
                target@,
                manifest_path@,
                in_workspace,
                sources::listing_view(*listing),
            ) == Ok::<Seq<HashInputView>, Seq<char>>(all),
            manifest_material(project@, in_workspace) == Ok::<Seq<char>, Seq<char>>(manifest),
            head == target_material(target@) + manifest,
            inputs_material(all.take(i as int), read) is Ok,
            material@ == head + inputs_material(all.take(i as int), read)->Ok_0,
        decreases inputs.len() - i,
    {
        let input = &inputs[i];
        assert(all.take(i + 1).drop_last() =~= all.take(i as int));
        assert(all.take(i + 1).last() == input@);
        match find_contents(files, &input.path) {
            Ok(contents) => {
                material.append(input.label.as_str());
                material.append("\n");
                material.append(files::lossy(contents.as_slice()).as_str());
                material.append("\n");
                assert(material@ =~= head + inputs_material(all.take(i + 1), read)->Ok_0);
            },
            Err(error) => {
                let mut message = "failed to read source input '".to_string();
                message.append(input.path.display().as_str());
                message.append("': ");
                message.append(error.as_str());
                proof {
                    lemma_material_error(all, read, i + 1);
                }
                return Err(message);
            },
        }
        i += 1;
    }
    assert(all.take(i as int) =~= all);
    Ok(word::hash_text(material.as_str()))
}

proof fn lemma_material_error(inputs: Seq<HashInputView>, files: Seq<ReadFileView>, i: int)
    requires
        0 <= i <= inputs.len(),
        inputs_material(inputs.take(i), files) is Err,
    ensures
        inputs_material(inputs, files) == inputs_material(inputs.take(i), files),
    decreases inputs.len() - i,
{
    if i < inputs.len() {
        assert(inputs.take(i + 1).drop_last() =~= inputs.take(i));
        lemma_material_error(inputs, files, i + 1);
    } else {
        assert(inputs.take(i) =~= inputs);
    }
}

/// The digest of the sources of a target does not depend on the order in which a directory lists
/// its files.
pub proof fn source_hash_forgets_listing_order(
    project: ProjectView,
    target: TargetView,
    manifest: PathView,
    in_workspace: bool,
    a: Seq<ListedView>,
    b: Seq<ListedView>,
    files: Seq<ReadFileView>,
)
    requires
        a.to_multiset() == b.to_multiset(),
        forall|i: int, j: int|
            0 <= i < a.len() && 0 <= j < a.len() && files::same_path(
                (#[trigger] a[i]).path,
                (#[trigger] a[j]).path,
            ) ==> a[i] == a[j],
    ensures
        source_hash(project, target, manifest, in_workspace, Ok(a), files) == source_hash(
            project,
            target,
            manifest,
            in_workspace,
            Ok(b),
            files,
        ),
{
    sources::listing_order_does_not_matter(project, target, a, b);
}

} // verus!
