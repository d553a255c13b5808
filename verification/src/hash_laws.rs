//! What goes into the digests of sources.

use vstd::prelude::*;

use crate::closure;
use crate::closure::ContextView;
use crate::files;
use crate::files::PathView;
use crate::graph;
use crate::graph::{DependencyEdge, EdgeView, NodeProvenanceView, OriginView};
use crate::project;
use crate::project::{ProjectDependencyView, ProjectView, TargetView, WorkspaceDependency,
    WorkspaceDependencyView};
use crate::project_laws;
use crate::provenance;
use crate::provenance::ProvenanceView;
use crate::sorting;
use crate::sorting::Sortable;
use crate::source_hash;
use crate::source_hash::{HashInput, HashInputView, ReadFileView};
use crate::sources;
use crate::sources::{ListedView, SourcePathsView};
use crate::text;
use crate::word;

verus! {

/// `part` stands somewhere in `whole`.
pub open spec fn occurs(part: Seq<char>, whole: Seq<char>) -> bool {
    exists|before: Seq<char>, behind: Seq<char>| #[trigger] (before + part + behind) == whole
}

/// What stands between two texts occurs in the whole.
pub proof fn lemma_occurs(before: Seq<char>, part: Seq<char>, behind: Seq<char>, whole: Seq<char>)
    requires
        before + part + behind == whole,
    ensures
        occurs(part, whole),
{
}

/// What occurs in a text occurs in one that it is a part of.
pub proof fn lemma_occurs_longer(part: Seq<char>, whole: Seq<char>, a: Seq<char>, b: Seq<char>)
    requires
        occurs(part, whole),
    ensures
        occurs(part, a + whole + b),
{
    let (before, behind) = choose|before: Seq<char>, behind: Seq<char>| #[trigger]
        (before + part + behind) == whole;
    assert((a + before) + part + (behind + b) =~= a + whole + b);
    lemma_occurs(a + before, part, behind + b, a + whole + b);
}

/// How a file is named in a digest: by its path below the directory of the project, if it lies
/// there.
pub open spec fn told_below(path: PathView, project_root: PathView) -> Seq<char> {
    match files::stripped(path, project_root) {
        Some(relative) => files::path_text(relative),
        None => files::path_text(path),
    }
}

/// The root and all the support modules of a target are inputs of the digest of its sources, whether
/// or not the project is a member of a workspace, and so is the manifest of a project that is not.
/// There are no other inputs.
pub proof fn every_source_file_is_an_input(
    project: ProjectView,
    target: TargetView,
    manifest: PathView,
    in_workspace: bool,
    listing: Result<Seq<ListedView>, Seq<char>>,
    paths: SourcePathsView,
)
    requires
        sources::source_paths(project, target, listing) == Ok::<SourcePathsView, Seq<char>>(paths),
        files::parent(manifest) is Some,
    ensures
        ({
            let inputs = source_hash::hash_inputs(project, target, manifest, in_workspace, listing);
            let directory = files::parent(manifest)->0;
            let root = HashInputView {
                label: "root:"@ + told_below(paths.root, directory),
                path: paths.root,
            };
            let last = HashInputView {
                label: "manifest:"@ + told_below(manifest, directory),
                path: manifest,
            };
            &&& inputs is Ok
            &&& inputs->Ok_0.contains(root)
            &&& forall|i: int|
                0 <= i < paths.support.len() ==> inputs->Ok_0.contains(
                    HashInputView {
                        label: "support:"@ + told_below(#[trigger] paths.support[i], directory),
                        path: paths.support[i],
                    },
                )
            &&& in_workspace ==> inputs->Ok_0.len() == 1 + paths.support.len()
            &&& !in_workspace ==> inputs->Ok_0.len() == 2 + paths.support.len()
                && inputs->Ok_0.last() == last
        }),
{
    broadcast use vstd::seq_lib::group_to_multiset_ensures;

    let directory = files::parent(manifest)->0;
    let support = Seq::new(
        paths.support.len(),
        |i: int| source_hash::labelled("support:"@, paths.support[i], directory),
    );
    let all = seq![source_hash::labelled("root:"@, paths.root, directory)] + support;
    let modules = source_hash::module_inputs(paths, directory);
    let inputs = source_hash::hash_inputs(
        project,
        target,
        manifest,
        in_workspace,
        listing,
    )->Ok_0;
    sorting::sorting_keeps_items::<HashInput>(all);
    assert(modules.len() == all.len()) by {
        assert(modules.to_multiset().len() == modules.len());
        assert(all.to_multiset().len() == all.len());
    }
    assert forall|k: int| 0 <= k < all.len() implies inputs.contains(#[trigger] all[k]) by {
        assert(all.contains(all[k]));
        assert(all.to_multiset().count(all[k]) > 0);
        assert(modules.contains(all[k]));
        let i = choose|i: int| 0 <= i < modules.len() && modules[i] == all[k];
        assert(inputs[i] == all[k]);
    }
    assert(inputs.contains(all[0]));
    assert forall|i: int| 0 <= i < paths.support.len() implies inputs.contains(
        HashInputView {
            label: "support:"@ + told_below(#[trigger] paths.support[i], directory),
            path: paths.support[i],
        },
    ) by {
        assert(all[i + 1] == support[i]);
        assert(inputs.contains(all[i + 1]));
    }
}

/// No input comes behind one with a greater label.
pub open spec fn in_order_of_labels(inputs: Seq<HashInputView>) -> bool {
    forall|i: int, j: int|
        0 <= i < j < inputs.len() ==> !text::text_lt(
            (#[trigger] inputs[j]).label,
            (#[trigger] inputs[i]).label,
        )
}

proof fn lemma_inserted_in_order(list: Seq<HashInputView>, item: HashInputView)
    requires
        in_order_of_labels(list),
    ensures
        in_order_of_labels(sorting::inserted_last::<HashInput>(list, item)),
        forall|k: int|
            0 <= k < sorting::inserted_last::<HashInput>(list, item).len() ==> (
            #[trigger] sorting::inserted_last::<HashInput>(list, item)[k]) == item
                || list.contains(sorting::inserted_last::<HashInput>(list, item)[k]),
    decreases list.len(),
{
    let longer = sorting::inserted_last::<HashInput>(list, item);
    if list.len() > 0 && text::text_lt(item.label, list.last().label) {
        let rest = list.drop_last();
        let shorter = sorting::inserted_last::<HashInput>(rest, item);
        assert forall|i: int, j: int| 0 <= i < j < rest.len() implies !text::text_lt(
            (#[trigger] rest[j]).label,
            (#[trigger] rest[i]).label,
        ) by {
            assert(rest[i] == list[i] && rest[j] == list[j]);
        }
        lemma_inserted_in_order(rest, item);
        assert(longer =~= shorter.push(list.last()));
        assert forall|k: int| 0 <= k < longer.len() implies (#[trigger] longer[k]) == item
            || list.contains(longer[k]) by {
            if k == shorter.len() {
                assert(longer[k] == list[list.len() - 1]);
            } else {
                assert(longer[k] == shorter[k]);
                if shorter[k] != item {
                    let m = choose|m: int| 0 <= m < rest.len() && rest[m] == shorter[k];
                    assert(list[m] == shorter[k]);
                }
            }
        }
        assert forall|i: int, j: int| 0 <= i < j < longer.len() implies !text::text_lt(
            (#[trigger] longer[j]).label,
            (#[trigger] longer[i]).label,
        ) by {
            assert(longer[i] == shorter[i]);
            if j == shorter.len() {
                if shorter[i] == item {
                    text::text_order_is_total(item.label, list.last().label, item.label);
                } else {
                    let m = choose|m: int| 0 <= m < rest.len() && rest[m] == shorter[i];
                    assert(list[m] == shorter[i] && list[list.len() - 1] == longer[j]);
                }
            } else {
                assert(longer[j] == shorter[j]);
            }
        }
    } else {
        assert(longer =~= list.push(item));
        assert forall|i: int, j: int| 0 <= i < j < longer.len() implies !text::text_lt(
            (#[trigger] longer[j]).label,
            (#[trigger] longer[i]).label,
        ) by {
            assert(longer[i] == list[i]);
            if j < list.len() {
                assert(longer[j] == list[j]);
            } else if i < list.len() - 1 {
                let last = list[list.len() - 1];
                assert(!text::text_lt(last.label, list[i].label));
                text::text_order_is_total(item.label, list[i].label, last.label);
                text::text_order_is_total(list[i].label, last.label, last.label);
            }
        }
        assert forall|k: int| 0 <= k < longer.len() implies (#[trigger] longer[k]) == item
            || list.contains(longer[k]) by {
            if k < list.len() {
                assert(longer[k] == list[k]);
            }
        }
    }
}

proof fn lemma_sorted_in_order_of_labels(list: Seq<HashInputView>)
    ensures
        in_order_of_labels(sorting::sorted::<HashInput>(list)),
    decreases list.len(),
{
    if list.len() > 0 {
        lemma_sorted_in_order_of_labels(list.drop_last());
        lemma_inserted_in_order(sorting::sorted::<HashInput>(list.drop_last()), list.last());
    }
}

/// The modules go into the digest in the order of their labels, and the manifest behind them.
pub proof fn modules_are_digested_in_the_order_of_their_labels(
    project: ProjectView,
    target: TargetView,
    manifest: PathView,
    in_workspace: bool,
    listing: Result<Seq<ListedView>, Seq<char>>,
)
    ensures
        source_hash::hash_inputs(project, target, manifest, in_workspace, listing) matches Ok(
            inputs,
        ) ==> if in_workspace {
            in_order_of_labels(inputs)
        } else {
            &&& inputs.len() > 0
            &&& in_order_of_labels(inputs.drop_last())
            &&& inputs.last().path == manifest
        },
{
    if let Ok(inputs) = source_hash::hash_inputs(
        project,
        target,
        manifest,
        in_workspace,
        listing,
    ) {
        let paths = sources::source_paths(project, target, listing)->Ok_0;
        let directory = files::parent(manifest)->0;
        let modules = source_hash::module_inputs(paths, directory);
        let support = Seq::new(
            paths.support.len(),
            |i: int| source_hash::labelled("support:"@, paths.support[i], directory),
        );
        lemma_sorted_in_order_of_labels(
            seq![source_hash::labelled("root:"@, paths.root, directory)] + support,
        );
        assert(in_order_of_labels(modules));
        if !in_workspace {
            assert(inputs.drop_last() =~= modules);
        }
    }
}

/// What is read of a file is what was read first under its path.
pub proof fn file_has_what_was_read_first(files: Seq<ReadFileView>, i: int)
    requires
        0 <= i < files.len(),
        forall|j: int| 0 <= j < i ==> (#[trigger] files[j]).path != files[i].path,
    ensures
        source_hash::contents_of(files, files[i].path) == files[i].contents,
    decreases i,
{
    if i > 0 {
        assert(files[0].path != files[i].path);
        let rest = files.drop_first();
        assert forall|j: int| 0 <= j < i - 1 implies (#[trigger] rest[j]).path != rest[i - 1].path by {
            assert(rest[j] == files[j + 1]);
        }
        file_has_what_was_read_first(rest, i - 1);
    }
}

/// What an input contributes: its label and its text, a line each.
pub open spec fn input_text(input: HashInputView, contents: Seq<u8>) -> Seq<char> {
    input.label + "\n"@ + files::lossy_text(contents) + "\n"@
}

proof fn lemma_input_occurs(inputs: Seq<HashInputView>, files: Seq<ReadFileView>, k: int)
    requires
        0 <= k < inputs.len(),
        source_hash::inputs_material(inputs, files) is Ok,
    ensures
        source_hash::contents_of(files, inputs[k].path) is Ok,
        occurs(
            input_text(inputs[k], source_hash::contents_of(files, inputs[k].path)->Ok_0),
            source_hash::inputs_material(inputs, files)->Ok_0,
        ),
    decreases inputs.len(),
{
    let whole = source_hash::inputs_material(inputs, files)->Ok_0;
    let earlier = source_hash::inputs_material(inputs.drop_last(), files)->Ok_0;
    let last = input_text(
        inputs.last(),
        source_hash::contents_of(files, inputs.last().path)->Ok_0,
    );
    let none = Seq::<char>::empty();
    assert(whole =~= earlier + last);
    if k < inputs.len() - 1 {
        assert(inputs.drop_last()[k] == inputs[k]);
        lemma_input_occurs(inputs.drop_last(), files, k);
        lemma_occurs_longer(
            input_text(inputs[k], source_hash::contents_of(files, inputs[k].path)->Ok_0),
            earlier,
            none,
            last,
        );
        assert(none + earlier + last =~= whole);
    } else {
        assert(earlier + last + none =~= whole);
        lemma_occurs(earlier, last, none, whole);
    }
}

/// The label and the text of each input stand in what the digest is computed from, behind what tells
/// of the target: its name, its type and its namespace.
pub proof fn digest_tells_of_the_target_and_of_every_input(
    project: ProjectView,
    target: TargetView,
    manifest: PathView,
    in_workspace: bool,
    listing: Result<Seq<ListedView>, Seq<char>>,
    files: Seq<ReadFileView>,
    k: int,
)
    requires
        source_hash::source_material(project, target, manifest, in_workspace, listing, files)
            is Ok,
        0 <= k < source_hash::hash_inputs(
            project,
            target,
            manifest,
            in_workspace,
            listing,
        )->Ok_0.len(),
    ensures
        ({
            let material = source_hash::source_material(
                project,
                target,
                manifest,
                in_workspace,
                listing,
                files,
            )->Ok_0;
            let input = source_hash::hash_inputs(
                project,
                target,
                manifest,
                in_workspace,
                listing,
            )->Ok_0[k];
            let contents = source_hash::contents_of(files, input.path);
            &&& source_hash::source_hash(project, target, manifest, in_workspace, listing, files)
                == Ok::<Seq<u8>, Seq<char>>(word::hash_of(material))
            &&& contents is Ok
            &&& occurs(
                input.label + "\n"@ + files::lossy_text(contents->Ok_0) + "\n"@,
                material,
            )
            &&& exists|rest: Seq<char>|
                material == "target:"@ + target.name + "\nkind:"@ + target.ty.name()
                    + "\nnamespace:"@ + target.namespace + "\n"@ + rest
        }),
{
    let inputs = source_hash::hash_inputs(
        project,
        target,
        manifest,
        in_workspace,
        listing,
    )->Ok_0;
    let material = source_hash::source_material(
        project,
        target,
        manifest,
        in_workspace,
        listing,
        files,
    )->Ok_0;
    lemma_input_occurs(inputs, files, k);
    let of_manifest = source_hash::manifest_material(project, in_workspace)->Ok_0;
    let of_inputs = source_hash::inputs_material(inputs, files)->Ok_0;
    let head = source_hash::target_material(target);
    let none = Seq::<char>::empty();
    lemma_occurs_longer(
        input_text(inputs[k], source_hash::contents_of(files, inputs[k].path)->Ok_0),
        of_inputs,
        head + of_manifest,
        none,
    );
    assert((head + of_manifest) + of_inputs + none =~= material);
    assert(material =~= head + (of_manifest + of_inputs));
}

/// The digest of a member of a workspace is computed from its effective manifest, and that of any
/// other project from the file of its manifest.
pub proof fn digest_tells_of_the_manifest(
    project: ProjectView,
    target: TargetView,
    manifest: PathView,
    in_workspace: bool,
    listing: Result<Seq<ListedView>, Seq<char>>,
    files: Seq<ReadFileView>,
)
    requires
        source_hash::source_material(project, target, manifest, in_workspace, listing, files)
            is Ok,
    ensures
        ({
            let material = source_hash::source_material(
                project,
                target,
                manifest,
                in_workspace,
                listing,
                files,
            )->Ok_0;
            let contents = source_hash::contents_of(files, manifest);
            &&& in_workspace ==> project::effective_manifest_input(project) is Ok && occurs(
                "manifest:effective\n"@ + project::effective_manifest_input(project)->Ok_0 + "\n"@,
                material,
            )
            &&& !in_workspace ==> contents is Ok && files::parent(manifest) is Some && occurs(
                "manifest:"@ + told_below(manifest, files::parent(manifest)->0) + "\n"@
                    + files::lossy_text(contents->Ok_0) + "\n"@,
                material,
            )
        }),
{
    let inputs = source_hash::hash_inputs(
        project,
        target,
        manifest,
        in_workspace,
        listing,
    )->Ok_0;
    let material = source_hash::source_material(
        project,
        target,
        manifest,
        in_workspace,
        listing,
        files,
    )->Ok_0;
    if in_workspace {
        let head = source_hash::target_material(target);
        let of_manifest = source_hash::manifest_material(project, in_workspace)->Ok_0;
        let of_inputs = source_hash::inputs_material(inputs, files)->Ok_0;
        lemma_occurs(head, of_manifest, of_inputs, material);
    } else {
        let paths = sources::source_paths(project, target, listing)->Ok_0;
        every_source_file_is_an_input(project, target, manifest, in_workspace, listing, paths);
        digest_tells_of_the_target_and_of_every_input(
            project,
            target,
            manifest,
            in_workspace,
            listing,
            files,
            inputs.len() - 1,
        );
    }
}

/// Of all the files only `path` may have another text.
pub open spec fn differ_only_in(a: Seq<ReadFileView>, b: Seq<ReadFileView>, path: PathView) -> bool {
    forall|other: PathView|
        other != path ==> #[trigger] source_hash::contents_of(a, other) == source_hash::contents_of(
            b,
            other,
        )
}

proof fn lemma_material_longer(
    inputs: Seq<HashInputView>,
    a: Seq<ReadFileView>,
    b: Seq<ReadFileView>,
    path: PathView,
)
    requires
        differ_only_in(a, b, path),
        source_hash::inputs_material(inputs, a) is Ok,
        source_hash::inputs_material(inputs, b) is Ok,
        source_hash::contents_of(a, path) is Ok,
        source_hash::contents_of(b, path) is Ok,
        files::lossy_text(source_hash::contents_of(a, path)->Ok_0).len() >= files::lossy_text(
            source_hash::contents_of(b, path)->Ok_0,
        ).len(),
    ensures
        ({
            let x = source_hash::inputs_material(inputs, a)->Ok_0;
            let y = source_hash::inputs_material(inputs, b)->Ok_0;
            let longer = files::lossy_text(source_hash::contents_of(a, path)->Ok_0).len()
                > files::lossy_text(source_hash::contents_of(b, path)->Ok_0).len();
            &&& x.len() >= y.len()
            &&& longer && (exists|k: int|
                0 <= k < inputs.len() && (#[trigger] inputs[k]).path == path) ==> x.len() > y.len()
        }),
    decreases inputs.len(),
{
    if inputs.len() > 0 {
        let rest = inputs.drop_last();
        lemma_material_longer(rest, a, b, path);
        let last = inputs.last();
        if last.path != path {
            assert(source_hash::contents_of(a, last.path) == source_hash::contents_of(
                b,
                last.path,
            ));
            if exists|k: int| 0 <= k < inputs.len() && (#[trigger] inputs[k]).path == path {
                let k = choose|k: int| 0 <= k < inputs.len() && (#[trigger] inputs[k]).path == path;
                assert(rest[k].path == path);
            }
        }
    }
}

proof fn lemma_same_tail(a: Seq<char>, b: Seq<char>, x: Seq<char>, y: Seq<char>)
    requires
        a + x == b + y,
        x.len() == y.len(),
    ensures
        a == b,
        x == y,
{
    let (m, n) = (a + x, b + y);
    assert(a =~= m.take(a.len() as int));
    assert(b =~= n.take(b.len() as int));
    assert(x =~= m.skip(a.len() as int));
    assert(y =~= n.skip(b.len() as int));
}

proof fn lemma_material_differs(
    inputs: Seq<HashInputView>,
    a: Seq<ReadFileView>,
    b: Seq<ReadFileView>,
    path: PathView,
    k: int,
)
    requires
        differ_only_in(a, b, path),
        source_hash::inputs_material(inputs, a) is Ok,
        source_hash::inputs_material(inputs, b) is Ok,
        source_hash::contents_of(a, path) is Ok,
        source_hash::contents_of(b, path) is Ok,
        files::lossy_text(source_hash::contents_of(a, path)->Ok_0).len() == files::lossy_text(
            source_hash::contents_of(b, path)->Ok_0,
        ).len(),
        0 <= k < inputs.len(),
        inputs[k].path == path,
        source_hash::inputs_material(inputs, a) == source_hash::inputs_material(inputs, b),
    ensures
        files::lossy_text(source_hash::contents_of(a, path)->Ok_0) == files::lossy_text(
            source_hash::contents_of(b, path)->Ok_0,
        ),
    decreases inputs.len(),
{
    let rest = inputs.drop_last();
    let last = inputs.last();
    let x = files::lossy_text(source_hash::contents_of(a, last.path)->Ok_0);
    let y = files::lossy_text(source_hash::contents_of(b, last.path)->Ok_0);
    if last.path != path {
        assert(source_hash::contents_of(a, last.path) == source_hash::contents_of(b, last.path));
    }
    assert(x.len() == y.len());
    let m = source_hash::inputs_material(rest, a)->Ok_0;
    let n = source_hash::inputs_material(rest, b)->Ok_0;
    let (p, q) = (last.label + "\n"@ + x + "\n"@, last.label + "\n"@ + y + "\n"@);
    assert(source_hash::inputs_material(inputs, a)->Ok_0 =~= m + p);
    assert(source_hash::inputs_material(inputs, b)->Ok_0 =~= n + q);
    lemma_same_tail(m, n, p, q);
    if k == inputs.len() - 1 {
        lemma_same_tail(last.label + "\n"@ + x, last.label + "\n"@ + y, "\n"@, "\n"@);
        lemma_same_tail(last.label + "\n"@, last.label + "\n"@, x, y);
    } else {
        assert(rest[k] == inputs[k]);
        lemma_material_differs(rest, a, b, path, k);
    }
}

/// A change of the text of any one source file changes what the digest is computed from, whether or
/// not the project is a member of a workspace.
pub proof fn changed_source_file_changes_the_digest(
    project: ProjectView,
    target: TargetView,
    manifest: PathView,
    in_workspace: bool,
    listing: Result<Seq<ListedView>, Seq<char>>,
    a: Seq<ReadFileView>,
    b: Seq<ReadFileView>,
    path: PathView,
)
    requires
        differ_only_in(a, b, path),
        ({
            let paths = sources::source_paths(project, target, listing)->Ok_0;
            ||| path == paths.root
            ||| paths.support.contains(path)
            ||| !in_workspace && path == manifest
        }),
        source_hash::source_material(project, target, manifest, in_workspace, listing, a) is Ok,
        source_hash::source_material(project, target, manifest, in_workspace, listing, b) is Ok,
        files::lossy_text(source_hash::contents_of(a, path)->Ok_0) != files::lossy_text(
            source_hash::contents_of(b, path)->Ok_0,
        ),
    ensures
        source_hash::source_material(project, target, manifest, in_workspace, listing, a)
            != source_hash::source_material(project, target, manifest, in_workspace, listing, b),
{
    let paths = sources::source_paths(project, target, listing)->Ok_0;
    let inputs = source_hash::hash_inputs(
        project,
        target,
        manifest,
        in_workspace,
        listing,
    )->Ok_0;
    every_source_file_is_an_input(project, target, manifest, in_workspace, listing, paths);
    assert(exists|k: int| 0 <= k < inputs.len() && (#[trigger] inputs[k]).path == path) by {
        if path == paths.root {
            let input = HashInputView {
                label: "root:"@ + told_below(paths.root, files::parent(manifest)->0),
                path: paths.root,
            };
            let k = choose|k: int| 0 <= k < inputs.len() && inputs[k] == input;
            assert(inputs[k].path == path);
        } else if paths.support.contains(path) {
            let i = choose|i: int| 0 <= i < paths.support.len() && paths.support[i] == path;
            let input = HashInputView {
                label: "support:"@ + told_below(paths.support[i], files::parent(manifest)->0),
                path: paths.support[i],
            };
            assert(inputs.contains(input));
            let k = choose|k: int| 0 <= k < inputs.len() && inputs[k] == input;
            assert(inputs[k].path == path);
        } else {
            assert(inputs[inputs.len() - 1].path == path);
        }
    }
    let k = choose|k: int| 0 <= k < inputs.len() && (#[trigger] inputs[k]).path == path;
    lemma_input_occurs(inputs, a, k);
    lemma_input_occurs(inputs, b, k);
    let x = files::lossy_text(source_hash::contents_of(a, path)->Ok_0);
    let y = files::lossy_text(source_hash::contents_of(b, path)->Ok_0);
    if x.len() >= y.len() {
        lemma_material_longer(inputs, a, b, path);
    } else {
        assert(differ_only_in(b, a, path));
        lemma_material_longer(inputs, b, a, path);
    }
    let head = source_hash::target_material(target) + source_hash::manifest_material(
        project,
        in_workspace,
    )->Ok_0;
    let m = source_hash::inputs_material(inputs, a)->Ok_0;
    let n = source_hash::inputs_material(inputs, b)->Ok_0;
    if head + m == head + n {
        assert((head + m).len() == (head + n).len());
        lemma_same_tail(head, head, m, n);
        lemma_material_differs(inputs, a, b, path, k);
    }
}

/// There is a digest of the sources of a target if and only if the sources are found, the manifest
/// lies in a directory, a member of a workspace has an effective manifest, and all the inputs can
/// be read.
pub proof fn digest_exists_where_all_inputs_can_be_read(
    project: ProjectView,
    target: TargetView,
    manifest: PathView,
    in_workspace: bool,
    listing: Result<Seq<ListedView>, Seq<char>>,
    files: Seq<ReadFileView>,
)
    ensures
        source_hash::source_hash(project, target, manifest, in_workspace, listing, files) is Ok
            <==> {
            let inputs = source_hash::hash_inputs(project, target, manifest, in_workspace, listing);
            &&& sources::source_paths(project, target, listing) is Ok
            &&& files::parent(manifest) is Some
            &&& in_workspace ==> project.effective_manifest is Ok
            &&& forall|k: int|
                0 <= k < inputs->Ok_0.len() ==> source_hash::contents_of(
                    files,
                    (#[trigger] inputs->Ok_0[k]).path,
                ) is Ok
        },
{
    let inputs = source_hash::hash_inputs(project, target, manifest, in_workspace, listing);
    if inputs is Ok {
        lemma_material_exists(inputs->Ok_0, files);
    }
}

proof fn lemma_material_exists(inputs: Seq<HashInputView>, files: Seq<ReadFileView>)
    ensures
        source_hash::inputs_material(inputs, files) is Ok <==> forall|k: int|
            0 <= k < inputs.len() ==> source_hash::contents_of(files, (#[trigger] inputs[k]).path)
                is Ok,
    decreases inputs.len(),
{
    if inputs.len() > 0 {
        let rest = inputs.drop_last();
        lemma_material_exists(rest, files);
        assert(forall|k: int| 0 <= k < rest.len() ==> rest[k] == inputs[k]);
        if source_hash::inputs_material(inputs, files) is Ok {
            assert forall|k: int| 0 <= k < inputs.len() implies source_hash::contents_of(
                files,
                (#[trigger] inputs[k]).path,
            ) is Ok by {
                if k < rest.len() {
                    assert(source_hash::contents_of(files, rest[k].path) is Ok);
                }
            }
        }
        if forall|k: int|
            0 <= k < inputs.len() ==> source_hash::contents_of(files, (#[trigger] inputs[k]).path)
                is Ok {
            assert forall|k: int| 0 <= k < rest.len() implies source_hash::contents_of(
                files,
                (#[trigger] rest[k]).path,
            ) is Ok by {
                assert(source_hash::contents_of(files, inputs[k].path) is Ok);
            }
            assert(source_hash::contents_of(files, inputs[inputs.len() - 1].path) is Ok);
        }
    }
}

// The effective manifest of a member of a workspace.

proof fn lemma_workspace_dependency(dependencies: Seq<ProjectDependencyView>, i: int)
    requires
        0 <= i < dependencies.len(),
        dependencies[i].workspace_path is Some,
    ensures
        project::workspace_dependencies(dependencies).contains(
            WorkspaceDependencyView {
                name: dependencies[i].name,
                path: dependencies[i].workspace_path->0,
                linkage: dependencies[i].linkage,
            },
        ),
    decreases dependencies.len(),
{
    let all = project::workspace_dependencies(dependencies);
    let rest = dependencies.drop_last();
    let earlier = project::workspace_dependencies(rest);
    let wanted = WorkspaceDependencyView {
        name: dependencies[i].name,
        path: dependencies[i].workspace_path->0,
        linkage: dependencies[i].linkage,
    };
    if i < rest.len() {
        lemma_workspace_dependency(rest, i);
        let k = choose|k: int| 0 <= k < earlier.len() && earlier[k] == wanted;
        assert(all[k] == wanted);
    } else {
        assert(all[all.len() - 1] == wanted);
    }
}

proof fn lemma_no_workspace_dependency(dependencies: Seq<ProjectDependencyView>)
    requires
        forall|i: int|
            0 <= i < dependencies.len() ==> (#[trigger] dependencies[i]).workspace_path is None,
    ensures
        project::workspace_dependencies(dependencies).len() == 0,
    decreases dependencies.len(),
{
    if dependencies.len() > 0 {
        let rest = dependencies.drop_last();
        assert forall|i: int| 0 <= i < rest.len() implies (#[trigger] rest[i]).workspace_path
            is None by {
            assert(rest[i] == dependencies[i]);
        }
        assert(dependencies[dependencies.len() - 1].workspace_path is None);
        lemma_no_workspace_dependency(rest);
    }
}

proof fn lemma_workspace_line(list: Seq<WorkspaceDependencyView>, k: int)
    requires
        0 <= k < list.len(),
    ensures
        occurs(
            list[k].name + "="@ + list[k].path + ":"@ + list[k].linkage.name() + "\n"@,
            project::workspace_lines(list),
        ),
    decreases list.len(),
{
    let whole = project::workspace_lines(list);
    let earlier = project::workspace_lines(list.drop_last());
    let last = list.last().name + "="@ + list.last().path + ":"@ + list.last().linkage.name()
        + "\n"@;
    let none = Seq::<char>::empty();
    assert(whole =~= earlier + last);
    if k < list.len() - 1 {
        assert(list.drop_last()[k] == list[k]);
        lemma_workspace_line(list.drop_last(), k);
        lemma_occurs_longer(
            list[k].name + "="@ + list[k].path + ":"@ + list[k].linkage.name() + "\n"@,
            earlier,
            none,
            last,
        );
        assert(none + earlier + last =~= whole);
    } else {
        assert(earlier + last + none =~= whole);
        lemma_occurs(earlier, last, none, whole);
    }
}

/// What stands for the manifest of a member of a workspace is its effective manifest, and behind it
/// a line for each of the members that it depends on, with the path of the member and the linkage.
/// Where it depends on none it is the effective manifest alone.
pub proof fn effective_manifest_tells_of_every_member(project: ProjectView)
    ensures
        match (project::effective_manifest_input(project), project.effective_manifest) {
            (Ok(input), Ok(manifest)) => {
                &&& exists|lines: Seq<char>| input == manifest + lines
                &&& (forall|i: int|
                    0 <= i < project.dependencies.len() ==> (
                    #[trigger] project.dependencies[i]).workspace_path is None) ==> input
                    == manifest
                &&& forall|i: int|
                    0 <= i < project.dependencies.len() && (
                    #[trigger] project.dependencies[i]).workspace_path is Some ==> occurs(
                        project.dependencies[i].name + "="@
                            + project.dependencies[i].workspace_path->0 + ":"@
                            + project.dependencies[i].linkage.name() + "\n"@,
                        input,
                    )
            },
            (Err(a), Err(b)) => a == b,
            _ => false,
        },
{
    broadcast use vstd::seq_lib::group_to_multiset_ensures;

    if let (Ok(input), Ok(manifest)) = (
        project::effective_manifest_input(project),
        project.effective_manifest,
    ) {
        let all = project::workspace_dependencies(project.dependencies);
        let members = sorting::sorted::<WorkspaceDependency>(all);
        let title = "\n# resolved_workspace_dependencies\n"@;
        sorting::sorting_keeps_items::<WorkspaceDependency>(all);
        assert(members.len() == all.len()) by {
            assert(members.to_multiset().len() == members.len());
            assert(all.to_multiset().len() == all.len());
        }
        if members.len() == 0 {
            assert(input =~= manifest + Seq::<char>::empty());
        } else {
            assert(input =~= manifest + (title + project::workspace_lines(members)));
        }
        if forall|i: int|
            0 <= i < project.dependencies.len() ==> (
            #[trigger] project.dependencies[i]).workspace_path is None {
            lemma_no_workspace_dependency(project.dependencies);
        }
        assert forall|i: int|
            0 <= i < project.dependencies.len() && (
            #[trigger] project.dependencies[i]).workspace_path is Some implies occurs(
            project.dependencies[i].name + "="@ + project.dependencies[i].workspace_path->0 + ":"@
                + project.dependencies[i].linkage.name() + "\n"@,
            input,
        ) by {
            lemma_workspace_dependency(project.dependencies, i);
            let wanted = WorkspaceDependencyView {
                name: project.dependencies[i].name,
                path: project.dependencies[i].workspace_path->0,
                linkage: project.dependencies[i].linkage,
            };
            assert(all.contains(wanted));
            assert(all.to_multiset().count(wanted) > 0);
            assert(members.contains(wanted));
            let k = choose|k: int| 0 <= k < members.len() && members[k] == wanted;
            lemma_workspace_line(members, k);
            let none = Seq::<char>::empty();
            lemma_occurs_longer(
                wanted.name + "="@ + wanted.path + ":"@ + wanted.linkage.name() + "\n"@,
                project::workspace_lines(members),
                manifest + title,
                none,
            );
            assert((manifest + title) + project::workspace_lines(members) + none =~= input);
        }
    }
}

// The digest of all that a package depends on.

proof fn lemma_edge_occurs(
    context: ContextView,
    edges: Seq<EdgeView>,
    visiting: Set<Seq<char>>,
    k: int,
)
    requires
        0 <= k < edges.len(),
        closure::edges_material(context, edges, visiting) is Ok,
    ensures
        closure::resolution_input(context, edges[k].dependency, visiting) is Ok,
        occurs(
            "dependency:"@ + edges[k].dependency + ":"@ + edges[k].linkage.name() + "\n"@
                + closure::resolution_input(context, edges[k].dependency, visiting)->Ok_0,
            closure::edges_material(context, edges, visiting)->Ok_0,
        ),
    decreases edges.len(),
{
    let whole = closure::edges_material(context, edges, visiting)->Ok_0;
    let rest = edges.drop_last();
    let earlier = closure::edges_material(context, rest, visiting)->Ok_0;
    let last = "dependency:"@ + edges.last().dependency + ":"@ + edges.last().linkage.name()
        + "\n"@ + closure::resolution_input(context, edges.last().dependency, visiting)->Ok_0;
    let none = Seq::<char>::empty();
    assert(whole =~= earlier + last);
    if k < rest.len() {
        assert(rest[k] == edges[k]);
        lemma_edge_occurs(context, rest, visiting, k);
        lemma_occurs_longer(
            "dependency:"@ + edges[k].dependency + ":"@ + edges[k].linkage.name() + "\n"@
                + closure::resolution_input(context, edges[k].dependency, visiting)->Ok_0,
            earlier,
            none,
            last,
        );
        assert(none + earlier + last =~= whole);
    } else {
        assert(earlier + last + none =~= whole);
        lemma_occurs(earlier, last, none, whole);
    }
}

/// The digest of all that a package depends on is computed from what stands for each of its
/// dependencies, with the linkage. A package that is being visited, or that the graph does not know,
/// has none, and a package without dependencies has the digest of nothing.
pub proof fn digest_tells_of_every_dependency(
    context: ContextView,
    name: Seq<char>,
    visiting: Set<Seq<char>>,
)
    ensures
        visiting.contains(name) ==> closure::closure_hash(context, name, visiting) is Err,
        graph::find_node(context.nodes, name) is None ==> closure::closure_hash(
            context,
            name,
            visiting,
        ) is Err,
        closure::closure_hash(context, name, visiting) matches Ok(hash) ==> {
            let edges = graph::find_node(context.nodes, name)->0.dependencies;
            &&& edges.len() == 0 ==> hash == word::hash_of(Seq::empty())
            &&& edges.len() > 0 ==> exists|material: Seq<char>|
                hash == #[trigger] word::hash_of(material) && forall|i: int|
                    0 <= i < edges.len() ==> {
                        let input = closure::resolution_input(
                            context,
                            (#[trigger] edges[i]).dependency,
                            visiting.insert(name),
                        );
                        &&& input is Ok
                        &&& occurs(
                            "dependency:"@ + edges[i].dependency + ":"@ + edges[i].linkage.name()
                                + "\n"@ + input->Ok_0,
                            material,
                        )
                    }
        },
{
    broadcast use vstd::seq_lib::group_to_multiset_ensures;

    reveal_strlit("");
    assert(""@ =~= Seq::<char>::empty());
    if closure::closure_hash(context, name, visiting) is Ok {
        let edges = graph::find_node(context.nodes, name)->0.dependencies;
        if edges.len() > 0 {
            let sorted = sorting::sorted::<DependencyEdge>(edges);
            let inner = visiting.insert(name);
            let material = closure::edges_material(context, sorted, inner)->Ok_0;
            sorting::sorting_keeps_items::<DependencyEdge>(edges);
            assert forall|i: int| 0 <= i < edges.len() implies ({
                let input = closure::resolution_input(
                    context,
                    (#[trigger] edges[i]).dependency,
                    inner,
                );
                &&& input is Ok
                &&& occurs(
                    "dependency:"@ + edges[i].dependency + ":"@ + edges[i].linkage.name() + "\n"@
                        + input->Ok_0,
                    material,
                )
            }) by {
                assert(edges.contains(edges[i]));
                assert(edges.to_multiset().count(edges[i]) > 0);
                assert(sorted.contains(edges[i]));
                let k = choose|k: int| 0 <= k < sorted.len() && sorted[k] == edges[i];
                lemma_edge_occurs(context, sorted, inner, k);
            }
            assert(closure::closure_hash(context, name, visiting)->Ok_0 == word::hash_of(material));
        }
    }
}

/// There is a digest of all that a package depends on wherever the package is in the graph, is not
/// being visited, and something stands for each of its dependencies.
pub proof fn digest_exists_where_every_dependency_is_told(
    context: ContextView,
    name: Seq<char>,
    visiting: Set<Seq<char>>,
)
    requires
        graph::find_node(context.nodes, name) is Some,
        !visiting.contains(name),
        forall|i: int|
            0 <= i < graph::find_node(context.nodes, name)->0.dependencies.len()
                ==> closure::resolution_input(
                context,
                (#[trigger] graph::find_node(context.nodes, name)->0.dependencies[i]).dependency,
                visiting.insert(name),
            ) is Ok,
    ensures
        closure::closure_hash(context, name, visiting) is Ok,
{
    broadcast use vstd::seq_lib::group_to_multiset_ensures;

    let edges = graph::find_node(context.nodes, name)->0.dependencies;
    let sorted = sorting::sorted::<DependencyEdge>(edges);
    let inner = visiting.insert(name);
    sorting::sorting_keeps_items::<DependencyEdge>(edges);
    assert forall|k: int| 0 <= k < sorted.len() implies closure::resolution_input(
        context,
        (#[trigger] sorted[k]).dependency,
        inner,
    ) is Ok by {
        assert(sorted.contains(sorted[k]));
        assert(sorted.to_multiset().count(sorted[k]) > 0);
        assert(edges.contains(sorted[k]));
        let i = choose|i: int| 0 <= i < edges.len() && edges[i] == sorted[k];
        assert(closure::resolution_input(context, edges[i].dependency, inner) is Ok);
    }
    lemma_edges_told(context, sorted, inner);
}

proof fn lemma_edges_told(context: ContextView, edges: Seq<EdgeView>, visiting: Set<Seq<char>>)
    requires
        forall|k: int|
            0 <= k < edges.len() ==> closure::resolution_input(
                context,
                (#[trigger] edges[k]).dependency,
                visiting,
            ) is Ok,
    ensures
        closure::edges_material(context, edges, visiting) is Ok,
    decreases edges.len(),
{
    if edges.len() > 0 {
        let rest = edges.drop_last();
        assert forall|k: int| 0 <= k < rest.len() implies closure::resolution_input(
            context,
            (#[trigger] rest[k]).dependency,
            visiting,
        ) is Ok by {
            assert(rest[k] == edges[k]);
        }
        lemma_edges_told(context, rest, visiting);
        assert(closure::resolution_input(context, edges[edges.len() - 1].dependency, visiting)
            is Ok);
    }
}

/// What stands for a dependency in a digest: the version with the digest that was selected, for one
/// that comes from the registry or from a file; the provenance of its sources, for one that has a
/// library to be assembled; and the version of the graph for any other.
pub proof fn dependency_is_told_by_what_it_is_taken_from(
    context: ContextView,
    name: Seq<char>,
    visiting: Set<Seq<char>>,
)
    ensures
        match graph::find_node(context.nodes, name) {
            None => closure::resolution_input(context, name, visiting) is Err,
            Some(node) => match node.provenance {
                NodeProvenanceView::Registry { selected } => closure::resolution_input(
                    context,
                    name,
                    visiting,
                ) == Ok::<Seq<char>, Seq<char>>(
                    "registry:"@ + name + "@"@ + selected.text() + "\n"@,
                ),
                NodeProvenanceView::Preassembled { selected, .. } => closure::resolution_input(
                    context,
                    name,
                    visiting,
                ) == Ok::<Seq<char>, Seq<char>>(
                    "preassembled:"@ + name + "@"@ + selected.text() + "\n"@,
                ),
                NodeProvenanceView::Virtual => closure::resolution_input(context, name, visiting)
                    == Ok::<Seq<char>, Seq<char>>(
                    "canonical:"@ + name + "@"@ + node.version + "\n"@,
                ),
                NodeProvenanceView::Real { origin, manifest_path, in_workspace, has_library } => {
                    let found = closure::find_project(context.snapshot.projects, name);
                    if !has_library {
                        closure::resolution_input(context, name, visiting) == Ok::<
                            Seq<char>,
                            Seq<char>,
                        >("canonical:"@ + name + "@"@ + node.version + "\n"@)
                    } else if found is Ok && found->Ok_0.0.library is Some {
                        match (
                            closure::resolution_input(context, name, visiting),
                            closure::source_provenance(
                                context,
                                name,
                                found->Ok_0.0,
                                found->Ok_0.0.library->0,
                                origin,
                                manifest_path,
                                in_workspace,
                                found->Ok_0.1,
                                visiting,
                            ),
                        ) {
                            (Ok(input), Ok(provenance)) => input == "source:"@ + name + ":"@
                                + provenance.description() + "\n"@,
                            (Err(a), Err(b)) => a == b,
                            _ => false,
                        }
                    } else {
                        closure::resolution_input(context, name, visiting) is Err
                    }
                },
            },
        },
{
}

/// A project is the first one that was loaded under its name.
pub proof fn project_is_the_first_of_its_name(projects: Seq<closure::LoadedView>, i: int)
    requires
        0 <= i < projects.len(),
        forall|j: int| 0 <= j < i ==> (#[trigger] projects[j]).name != projects[i].name,
    ensures
        match (closure::find_project(projects, projects[i].name), projects[i].project) {
            (Ok(found), Ok(project)) => found.0 == project && found.1 == projects[i].listing,
            (Err(a), Err(b)) => a == b,
            _ => false,
        },
    decreases i,
{
    if i > 0 {
        assert(projects[0].name != projects[i].name);
        let rest = projects.drop_first();
        assert forall|j: int| 0 <= j < i - 1 implies (#[trigger] rest[j]).name
            != rest[i - 1].name by {
            assert(rest[j] == projects[j + 1]);
        }
        project_is_the_first_of_its_name(rest, i - 1);
    }
}

/// The provenance of a target tells of its sources, of all that it depends on, and of the settings of
/// the profile: for sources in a repository by the repository and the revision, and for all others
/// by the digest of the files. There is one if and only if all three can be told.
pub proof fn provenance_tells_of_sources_dependencies_and_profile(
    context: ContextView,
    name: Seq<char>,
    project: ProjectView,
    target: TargetView,
    origin: OriginView,
    manifest_path: PathView,
    in_workspace: bool,
    listing: Result<Seq<ListedView>, Seq<char>>,
    visiting: Set<Seq<char>>,
)
    ensures
        ({
            let told = closure::source_provenance(
                context,
                name,
                project,
                target,
                origin,
                manifest_path,
                in_workspace,
                listing,
                visiting,
            );
            let dependencies = closure::closure_hash(context, name, visiting);
            let sources = source_hash::source_hash(
                project,
                target,
                manifest_path,
                in_workspace,
                listing,
                context.snapshot.files,
            );
            let profile = project_laws::first_profile(project, context.profile);
            &&& told is Ok <==> dependencies is Ok && profile is Some && (origin is Git || sources
                is Ok)
            &&& told matches Ok(provenance) ==> match provenance {
                ProvenanceView::Git { repo, resolved_revision, dependency_hash, build_settings } => {
                    &&& origin == (OriginView::Git { repo, resolved_revision })
                    &&& dependencies == Ok::<Seq<u8>, Seq<char>>(dependency_hash)
                    &&& build_settings == project.profiles[profile->0].settings
                },
                ProvenanceView::Path { source_hash, dependency_hash, build_settings } => {
                    &&& !(origin is Git)
                    &&& sources == Ok::<Seq<u8>, Seq<char>>(source_hash)
                    &&& dependencies == Ok::<Seq<u8>, Seq<char>>(dependency_hash)
                    &&& build_settings == project.profiles[profile->0].settings
                },
            }
        }),
{
    project_laws::profile_is_the_first_of_its_name(project, context.profile);
}

proof fn lemma_ordered_stays<T: Sortable>(list: Seq<T::V>)
    requires
        forall|i: int, j: int|
            0 <= i < j < list.len() ==> !T::before(#[trigger] list[j], #[trigger] list[i]),
    ensures
        sorting::sorted::<T>(list) == list,
    decreases list.len(),
{
    if list.len() > 0 {
        let rest = list.drop_last();
        assert forall|i: int, j: int| 0 <= i < j < rest.len() implies !T::before(
            #[trigger] rest[j],
            #[trigger] rest[i],
        ) by {
            assert(rest[i] == list[i] && rest[j] == list[j]);
        }
        lemma_ordered_stays::<T>(rest);
        if rest.len() > 0 {
            assert(rest.last() == list[list.len() - 2]);
            assert(!T::before(list[list.len() - 1], list[list.len() - 2]));
        }
        assert(rest.push(list.last()) =~= list);
    }
}

proof fn lemma_at<T>(list: Seq<T>, item: T) -> (i: int)
    requires
        list.contains(item),
    ensures
        0 <= i < list.len(),
        list[i] == item,
{
    choose|i: int| 0 <= i < list.len() && list[i] == item
}

/// The members of the workspace that a project depends on are told in the order of their names.
pub proof fn members_are_told_in_the_order_of_their_names(
    project: ProjectView,
    members: Seq<WorkspaceDependencyView>,
)
    requires
        members.len() > 0,
        members.to_multiset() == project::workspace_dependencies(
            project.dependencies,
        ).to_multiset(),
        forall|i: int, j: int|
            0 <= i < j < members.len() ==> text::text_lt(
                (#[trigger] members[i]).name,
                (#[trigger] members[j]).name,
            ),
    ensures
        project.effective_manifest matches Ok(manifest) ==> project::effective_manifest_input(
            project,
        ) == Ok::<Seq<char>, Seq<char>>(
            manifest + "\n# resolved_workspace_dependencies\n"@ + project::workspace_lines(members),
        ),
{
    broadcast use vstd::seq_lib::group_to_multiset_ensures;

    assert forall|i: int, j: int| 0 <= i < j < members.len() implies !WorkspaceDependency::before(
        #[trigger] members[j],
        #[trigger] members[i],
    ) by {
        text::text_order_is_total(members[i].name, members[j].name, members[i].name);
    }
    lemma_ordered_stays::<WorkspaceDependency>(members);
    assert forall|a: WorkspaceDependencyView| members.contains(a) implies
        !#[trigger] WorkspaceDependency::before(a, a) by {
        text::text_order_is_total(a.name, a.name, a.name);
    }
    assert forall|a: WorkspaceDependencyView, b: WorkspaceDependencyView|
        members.contains(a) && members.contains(b) implies a == b
        || #[trigger] WorkspaceDependency::before(a, b) || WorkspaceDependency::before(b, a) by {
        let i = lemma_at(members, a);
        let j = lemma_at(members, b);
        if i < j {
            assert(text::text_lt(members[i].name, members[j].name));
        } else if j < i {
            assert(text::text_lt(members[j].name, members[i].name));
        }
    }
    assert forall|a: WorkspaceDependencyView, b: WorkspaceDependencyView, c: WorkspaceDependencyView|
        members.contains(a) && members.contains(b) && members.contains(c)
            && #[trigger] WorkspaceDependency::before(a, b)
            && #[trigger] WorkspaceDependency::before(b, c) implies WorkspaceDependency::before(
        a,
        c,
    ) by {
        text::text_order_is_total(a.name, b.name, c.name);
    }
    let declared = project::workspace_dependencies(project.dependencies);
    sorting::sorting_forgets_order::<WorkspaceDependency>(members, declared);
}

/// The dependencies of a package go into its digest in the order of their names, those of one name in
/// the order of their linkages.
pub proof fn dependencies_are_digested_in_the_order_of_their_names(
    context: ContextView,
    name: Seq<char>,
    visiting: Set<Seq<char>>,
    edges: Seq<EdgeView>,
)
    requires
        !visiting.contains(name),
        graph::find_node(context.nodes, name) is Some,
        edges.len() > 0,
        edges.to_multiset() == graph::find_node(
            context.nodes,
            name,
        )->0.dependencies.to_multiset(),
        forall|i: int, j: int|
            0 <= i < j < edges.len() ==> text::text_lt(
                (#[trigger] edges[i]).dependency,
                (#[trigger] edges[j]).dependency,
            ) || (edges[i].dependency == edges[j].dependency && text::text_lt(
                edges[i].linkage.name(),
                edges[j].linkage.name(),
            )),
    ensures
        closure::closure_hash(context, name, visiting) == match closure::edges_material(
            context,
            edges,
            visiting.insert(name),
        ) {
            Ok(material) => Ok::<Seq<u8>, Seq<char>>(word::hash_of(material)),
            Err(message) => Err(message),
        },
{
    broadcast use vstd::seq_lib::group_to_multiset_ensures;

    let declared = graph::find_node(context.nodes, name)->0.dependencies;
    assert(declared.len() > 0) by {
        assert(declared.to_multiset().len() == declared.len());
        assert(edges.to_multiset().len() == edges.len());
    }
    assert forall|i: int, j: int| 0 <= i < j < edges.len() implies !DependencyEdge::before(
        #[trigger] edges[j],
        #[trigger] edges[i],
    ) by {
        lemma_edge_order(edges[i], edges[j], edges[i]);
    }
    lemma_ordered_stays::<DependencyEdge>(edges);
    assert forall|a: EdgeView| edges.contains(a) implies !#[trigger] DependencyEdge::before(
        a,
        a,
    ) by {
        lemma_edge_order(a, a, a);
    }
    assert forall|a: EdgeView, b: EdgeView| edges.contains(a) && edges.contains(b) implies a == b
        || #[trigger] DependencyEdge::before(a, b) || DependencyEdge::before(b, a) by {
        let i = lemma_at(edges, a);
        let j = lemma_at(edges, b);
        if i < j {
            assert(DependencyEdge::before(edges[i], edges[j]));
        } else if j < i {
            assert(DependencyEdge::before(edges[j], edges[i]));
        }
    }
    assert forall|a: EdgeView, b: EdgeView, c: EdgeView|
        edges.contains(a) && edges.contains(b) && edges.contains(c)
            && #[trigger] DependencyEdge::before(a, b)
            && #[trigger] DependencyEdge::before(b, c) implies DependencyEdge::before(a, c) by {
        lemma_edge_order(a, b, c);
    }
    sorting::sorting_forgets_order::<DependencyEdge>(edges, declared);
}

proof fn lemma_edge_order(a: EdgeView, b: EdgeView, c: EdgeView)
    ensures
        !DependencyEdge::before(a, a),
        DependencyEdge::before(a, b) && DependencyEdge::before(b, c) ==> DependencyEdge::before(
            a,
            c,
        ),
{
    text::text_order_is_total(a.dependency, b.dependency, c.dependency);
    text::text_order_is_total(a.linkage.name(), b.linkage.name(), c.linkage.name());
}

} // verus!
