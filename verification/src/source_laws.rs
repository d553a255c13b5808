//! What holds of the sources of every target.

use vstd::multiset::Multiset;
use vstd::prelude::*;
use vstd::utf8::*;

use crate::files;
use crate::files::{ComponentsView, PathView};
use crate::project::{ProjectView, TargetView};
use crate::sorting;
use crate::sources;
use crate::sources::{ListedFile, ListedView};

verus! {

/// The file holds a module: its extension is `masm`.
pub open spec fn is_module(file: ListedView) -> bool {
    files::extension(file.path) == Some(encode_utf8("masm"@))
}

/// `path` is the file that the manifest names as the root module of `target`.
pub open spec fn is_root(target: TargetView, path: PathView) -> bool {
    target.source is Some && target.source->0.resolved is Ok && files::same_path(
        target.source->0.resolved->Ok_0,
        path,
    )
}

/// `path` is no support module of `target`: it is its own root, the root of the library, unless the
/// target is an executable, or the root of an executable.
pub open spec fn is_no_support(
    project: ProjectView,
    target: TargetView,
    root: PathView,
    path: PathView,
) -> bool {
    ||| files::same_path(path, root)
    ||| !(target.ty is Executable) && project.library is Some && is_root(project.library->0, path)
    ||| exists|i: int|
        0 <= i < project.executables.len() && is_root(#[trigger] project.executables[i], path)
}

/// The root module of a target is the file that its manifest names, and its modules are in the
/// directory of that file. Only a target without such a file has none, or one of a project that was
/// not loaded from a file.
pub proof fn root_module_is_the_file_that_the_manifest_names(
    project: ProjectView,
    target: TargetView,
    root: PathView,
    root_dir: PathView,
)
    ensures
        sources::target_root(project, target) == Ok::<(PathView, PathView), Seq<char>>(
            (root, root_dir),
        ) <==> {
            &&& project.manifest_path is Some
            &&& files::parent(project.manifest_path->0) is Some
            &&& target.source is Some
            &&& target.source->0.resolved == Ok::<PathView, Seq<char>>(root)
            &&& files::parent(root) == Some(root_dir)
        },
{
}

/// How often the file with the canonical path `path` is listed as a module.
pub open spec fn times_listed(list: Seq<ListedView>, path: PathView) -> nat {
    list.to_multiset().filter(
        |file: ListedView| is_module(file) && file.canonical == Ok::<PathView, Seq<char>>(path),
    ).len()
}

proof fn lemma_no_support(
    project: ProjectView,
    target: TargetView,
    root: PathView,
    path: PathView,
)
    ensures
        sources::excluded_paths(project, target, root).contains(files::components(path))
            <==> is_no_support(project, target, root, path),
{
    let all = files::components(path);
    if sources::is_other_root(project, target, all) {
        if exists|i: int|
            0 <= i < project.executables.len() && sources::is_root_of(
                #[trigger] project.executables[i],
                all,
            ) {
            let i = choose|i: int|
                0 <= i < project.executables.len() && sources::is_root_of(
                    #[trigger] project.executables[i],
                    all,
                );
            assert(is_root(project.executables[i], path));
        }
    }
    if exists|i: int|
        0 <= i < project.executables.len() && is_root(#[trigger] project.executables[i], path) {
        let i = choose|i: int|
            0 <= i < project.executables.len() && is_root(#[trigger] project.executables[i], path);
        assert(sources::is_root_of(project.executables[i], all));
    }
}

proof fn lemma_filter_insert(
    items: Multiset<ListedView>,
    item: ListedView,
    keep: spec_fn(ListedView) -> bool,
)
    ensures
        items.insert(item).filter(keep).len() == items.filter(keep).len() + if keep(item) {
            1nat
        } else {
            0
        },
{
    broadcast use vstd::multiset::group_multiset_axioms;

    if keep(item) {
        assert(items.insert(item).filter(keep) =~= items.filter(keep).insert(item));
    } else {
        assert(items.insert(item).filter(keep) =~= items.filter(keep));
    }
}

proof fn lemma_support_count(
    list: Seq<ListedView>,
    root_dir: PathView,
    namespace: Seq<char>,
    excluded: Set<ComponentsView>,
    path: PathView,
)
    ensures
        sources::support_paths(list, root_dir, namespace, excluded) matches Ok(paths)
            ==> paths.to_multiset().count(path) == if excluded.contains(files::components(path)) {
            0
        } else {
            list.to_multiset().filter(
                |file: ListedView| file.canonical == Ok::<PathView, Seq<char>>(path),
            ).len()
        },
    decreases list.len(),
{
    broadcast use vstd::seq_lib::group_to_multiset_ensures;
    broadcast use vstd::multiset::group_multiset_axioms;

    let keep = |file: ListedView| file.canonical == Ok::<PathView, Seq<char>>(path);
    if list.len() > 0 {
        let rest = list.drop_last();
        lemma_support_count(rest, root_dir, namespace, excluded, path);
        assert(rest.push(list.last()) =~= list);
        assert(list.to_multiset() == rest.to_multiset().insert(list.last()));
        lemma_filter_insert(rest.to_multiset(), list.last(), keep);
    } else {
        assert(list.to_multiset().filter(keep) =~= Multiset::empty()) by {
            assert forall|x: ListedView| #[trigger]
                list.to_multiset().filter(keep).count(x) == 0 by {
                assert(!list.contains(x));
            }
        }
        assert(!Seq::<PathView>::empty().contains(path));
    }
}

/// All the support modules of a target are found, at whatever depth below the directory of its
/// root: each module file that is listed, and is no root, is a support module as often as it is
/// listed, and nothing else is.
pub proof fn every_module_file_is_a_support_module(
    project: ProjectView,
    target: TargetView,
    list: Seq<ListedView>,
    path: PathView,
)
    ensures
        sources::source_paths(project, target, Ok(list)) matches Ok(paths)
            ==> paths.support.to_multiset().count(path) == if is_no_support(
            project,
            target,
            paths.root,
            path,
        ) {
            0
        } else {
            times_listed(list, path)
        },
{
    if let Ok((root, root_dir)) = sources::target_root(project, target) {
        let modules = sources::module_files(list);
        let ordered = sorting::sorted::<ListedFile>(modules);
        let excluded = sources::excluded_paths(project, target, root);
        lemma_no_support(project, target, root, path);
        lemma_support_count(ordered, root_dir, target.namespace, excluded, path);
        sorting::sorting_keeps_items::<ListedFile>(modules);
        sources::lemma_module_files(list);
        let keep = |file: ListedView| file.canonical == Ok::<PathView, Seq<char>>(path);
        let keep_modules = |file: ListedView|
            is_module(file) && file.canonical == Ok::<PathView, Seq<char>>(path);
        assert(modules.to_multiset().filter(keep) =~= list.to_multiset().filter(keep_modules)) by {
            broadcast use vstd::multiset::group_multiset_axioms;

            assert forall|file: ListedView| #[trigger]
                modules.to_multiset().filter(keep).count(file) == list.to_multiset().filter(
                    keep_modules,
                ).count(file) by {
                assert(modules.to_multiset().count(file) == if is_module(file) {
                    list.to_multiset().count(file)
                } else {
                    0
                });
            }
        }
    }
}

proof fn lemma_same_items(a: Seq<ListedView>, b: Seq<ListedView>, x: ListedView)
    requires
        a.to_multiset() == b.to_multiset(),
    ensures
        a.contains(x) <==> b.contains(x),
{
    broadcast use vstd::seq_lib::group_to_multiset_ensures;

    assert(a.to_multiset().count(x) > 0 <==> a.contains(x));
    assert(b.to_multiset().count(x) > 0 <==> b.contains(x));
}

proof fn lemma_ordered_modules(list: Seq<ListedView>, file: ListedView)
    ensures
        sorting::sorted::<ListedFile>(sources::module_files(list)).contains(file)
            <==> list.contains(file) && is_module(file),
{
    broadcast use vstd::seq_lib::group_to_multiset_ensures;

    let modules = sources::module_files(list);
    sorting::sorting_keeps_items::<ListedFile>(modules);
    lemma_same_items(sorting::sorted::<ListedFile>(modules), modules, file);
    sources::lemma_module_files(list);
    assert(modules.to_multiset().count(file) > 0 <==> modules.contains(file));
    assert(list.to_multiset().count(file) > 0 <==> list.contains(file));
}

/// Every module file that is listed and is no root is a support module, however deep it lies.
pub proof fn listed_module_is_a_support_module(
    project: ProjectView,
    target: TargetView,
    list: Seq<ListedView>,
    i: int,
)
    requires
        0 <= i < list.len(),
        is_module(list[i]),
    ensures
        sources::source_paths(project, target, Ok(list)) matches Ok(paths)
            ==> list[i].canonical is Ok && (is_no_support(
            project,
            target,
            paths.root,
            list[i].canonical->Ok_0,
        ) || paths.support.contains(list[i].canonical->Ok_0)),
{
    if let Ok(paths) = sources::source_paths(project, target, Ok(list)) {
        let ordered = sorting::sorted::<ListedFile>(sources::module_files(list));
        lemma_ordered_modules(list, list[i]);
        let excluded = sources::excluded_paths(project, target, paths.root);
        lemma_support_succeeds(ordered, paths.root_dir, target.namespace, excluded);
        assert(ordered.contains(list[i]));
        let k = choose|k: int| 0 <= k < ordered.len() && ordered[k] == list[i];
        assert(can_be_named(ordered[k], paths.root_dir, target.namespace, excluded));
        let path = list[i].canonical->Ok_0;
        lemma_no_support(project, target, paths.root, path);
        if !is_no_support(project, target, paths.root, path) {
            lemma_support_contains(ordered, paths.root_dir, target.namespace, excluded, k);
        }
    }
}

/// The file is a support module, or left out as a root.
pub open spec fn can_be_named(
    file: ListedView,
    root_dir: PathView,
    namespace: Seq<char>,
    excluded: Set<ComponentsView>,
) -> bool {
    match file.canonical {
        Ok(path) => excluded.contains(files::components(path)) || (files::stripped(path, root_dir)
            is Some && sources::path_of_module(
            namespace,
            files::stripped(path, root_dir)->0,
        ) is Ok),
        Err(_) => false,
    }
}

proof fn lemma_support_succeeds(
    list: Seq<ListedView>,
    root_dir: PathView,
    namespace: Seq<char>,
    excluded: Set<ComponentsView>,
)
    ensures
        sources::support_paths(list, root_dir, namespace, excluded) is Ok <==> forall|i: int|
            0 <= i < list.len() ==> can_be_named(#[trigger] list[i], root_dir, namespace, excluded),
    decreases list.len(),
{
    if list.len() > 0 {
        let rest = list.drop_last();
        lemma_support_succeeds(rest, root_dir, namespace, excluded);
        assert(forall|i: int| 0 <= i < rest.len() ==> rest[i] == list[i]);
        if forall|i: int|
            0 <= i < list.len() ==> can_be_named(#[trigger] list[i], root_dir, namespace, excluded) {
            assert forall|i: int| 0 <= i < rest.len() implies can_be_named(
                #[trigger] rest[i],
                root_dir,
                namespace,
                excluded,
            ) by {
                assert(can_be_named(list[i], root_dir, namespace, excluded));
            }
            assert(can_be_named(list[list.len() - 1], root_dir, namespace, excluded));
        }
        if sources::support_paths(list, root_dir, namespace, excluded) is Ok {
            assert forall|i: int| 0 <= i < list.len() implies can_be_named(
                #[trigger] list[i],
                root_dir,
                namespace,
                excluded,
            ) by {
                if i < rest.len() {
                    assert(can_be_named(rest[i], root_dir, namespace, excluded));
                }
            }
        }
    }
}

proof fn lemma_support_contains(
    list: Seq<ListedView>,
    root_dir: PathView,
    namespace: Seq<char>,
    excluded: Set<ComponentsView>,
    k: int,
)
    requires
        0 <= k < list.len(),
        sources::support_paths(list, root_dir, namespace, excluded) is Ok,
        list[k].canonical is Ok,
        !excluded.contains(files::components(list[k].canonical->Ok_0)),
    ensures
        sources::support_paths(list, root_dir, namespace, excluded)->Ok_0.contains(
            list[k].canonical->Ok_0,
        ),
    decreases list.len(),
{
    let paths = sources::support_paths(list, root_dir, namespace, excluded)->Ok_0;
    let path = list[k].canonical->Ok_0;
    let rest = list.drop_last();
    let earlier = sources::support_paths(rest, root_dir, namespace, excluded)->Ok_0;
    if k < rest.len() {
        assert(rest[k] == list[k]);
        lemma_support_contains(rest, root_dir, namespace, excluded, k);
        let i = choose|i: int| 0 <= i < earlier.len() && earlier[i] == path;
        assert(paths[i] == path);
    } else {
        assert(paths[paths.len() - 1] == path);
    }
}

/// The sources of a target are found if and only if its manifest and its root module lie in
/// directories, the directory of the root can be listed, and each module file in it is a root, or
/// lies below the directory and can be named after its path. They are then the root module that the
/// manifest names, and its directory.
pub proof fn sources_are_found_where_all_modules_can_be_named(
    project: ProjectView,
    target: TargetView,
    listing: Result<Seq<ListedView>, Seq<char>>,
)
    ensures
        ({
            let root = target.source->0.resolved->Ok_0;
            let root_dir = files::parent(root)->0;
            &&& sources::source_paths(project, target, listing) is Ok <==> {
                &&& project.manifest_path is Some
                &&& files::parent(project.manifest_path->0) is Some
                &&& target.source is Some
                &&& target.source->0.resolved is Ok
                &&& files::parent(root) is Some
                &&& listing is Ok
                &&& forall|i: int|
                    0 <= i < listing->Ok_0.len() && is_module(#[trigger] listing->Ok_0[i])
                        ==> listing->Ok_0[i].canonical is Ok && (is_no_support(
                        project,
                        target,
                        root,
                        listing->Ok_0[i].canonical->Ok_0,
                    ) || (files::stripped(listing->Ok_0[i].canonical->Ok_0, root_dir) is Some
                        && sources::path_of_module(
                        target.namespace,
                        files::stripped(listing->Ok_0[i].canonical->Ok_0, root_dir)->0,
                    ) is Ok))
            }
            &&& sources::source_paths(project, target, listing) matches Ok(paths) ==> paths.root
                == root && paths.root_dir == root_dir
        }),
{
    let root = target.source->0.resolved->Ok_0;
    let root_dir = files::parent(root)->0;
    if sources::target_root(project, target) is Ok && listing is Ok {
        let list = listing->Ok_0;
        let ordered = sorting::sorted::<ListedFile>(sources::module_files(list));
        let excluded = sources::excluded_paths(project, target, root);
        lemma_support_succeeds(ordered, root_dir, target.namespace, excluded);
        assert forall|file: ListedView| file.canonical is Ok implies (#[trigger] can_be_named(
            file,
            root_dir,
            target.namespace,
            excluded,
        ) <==> (is_no_support(project, target, root, file.canonical->Ok_0) || (files::stripped(
            file.canonical->Ok_0,
            root_dir,
        ) is Some && sources::path_of_module(
            target.namespace,
            files::stripped(file.canonical->Ok_0, root_dir)->0,
        ) is Ok))) by {
            lemma_no_support(project, target, root, file.canonical->Ok_0);
        }
        if sources::source_paths(project, target, listing) is Ok {
            assert forall|i: int| 0 <= i < list.len() && is_module(#[trigger] list[i]) implies
                can_be_named(list[i], root_dir, target.namespace, excluded) by {
                lemma_ordered_modules(list, list[i]);
                let k = choose|k: int| 0 <= k < ordered.len() && ordered[k] == list[i];
                assert(can_be_named(ordered[k], root_dir, target.namespace, excluded));
            }
        } else {
            let k = choose|k: int|
                0 <= k < ordered.len() && !can_be_named(
                    #[trigger] ordered[k],
                    root_dir,
                    target.namespace,
                    excluded,
                );
            lemma_ordered_modules(list, ordered[k]);
            let i = choose|i: int| 0 <= i < list.len() && list[i] == ordered[k];
            assert(is_module(list[i]));
        }
    }
}

/// Where files are listed once each, the support modules come in the order of the paths under which
/// they are listed.
pub proof fn support_modules_come_in_order(
    project: ProjectView,
    target: TargetView,
    list: Seq<ListedView>,
    i: int,
    j: int,
)
    requires
        forall|i: int, j: int|
            0 <= i < list.len() && 0 <= j < list.len() && files::same_path(
                (#[trigger] list[i]).path,
                (#[trigger] list[j]).path,
            ) ==> list[i] == list[j],
        sources::source_paths(project, target, Ok(list)) is Ok,
        0 <= i < j < sources::source_paths(project, target, Ok(list))->Ok_0.support.len(),
    ensures
        ({
            let support = sources::source_paths(project, target, Ok(list))->Ok_0.support;
            exists|a: ListedView, b: ListedView| #[trigger]
                list.contains(a) && #[trigger] list.contains(b) && a.canonical == Ok::<
                    PathView,
                    Seq<char>,
                >(support[i]) && b.canonical == Ok::<PathView, Seq<char>>(support[j])
                    && !files::path_lt(b.path, a.path)
        }),
{
    let paths = sources::source_paths(project, target, Ok(list))->Ok_0;
    let modules = sources::module_files(list);
    let ordered = sorting::sorted::<ListedFile>(modules);
    let excluded = sources::excluded_paths(project, target, paths.root);
    sources::lemma_modules_are_ordered(list);
    sorting::sorting_puts_into_order::<ListedFile>(modules);
    lemma_support_order(ordered, paths.root_dir, target.namespace, excluded, i, j);
    let (x, y) = choose|x: int, y: int|
        0 <= x < y < ordered.len() && (#[trigger] ordered[x]).canonical == Ok::<
            PathView,
            Seq<char>,
        >(paths.support[i]) && (#[trigger] ordered[y]).canonical == Ok::<PathView, Seq<char>>(
            paths.support[j],
        );
    lemma_ordered_modules(list, ordered[x]);
    lemma_ordered_modules(list, ordered[y]);
    assert(list.contains(ordered[x]) && list.contains(ordered[y]));
    assert(!files::path_lt(ordered[y].path, ordered[x].path));
}

proof fn lemma_support_order(
    list: Seq<ListedView>,
    root_dir: PathView,
    namespace: Seq<char>,
    excluded: Set<ComponentsView>,
    i: int,
    j: int,
)
    requires
        sources::support_paths(list, root_dir, namespace, excluded) is Ok,
        0 <= i < j < sources::support_paths(list, root_dir, namespace, excluded)->Ok_0.len(),
    ensures
        ({
            let paths = sources::support_paths(list, root_dir, namespace, excluded)->Ok_0;
            exists|x: int, y: int|
                0 <= x < y < list.len() && (#[trigger] list[x]).canonical == Ok::<
                    PathView,
                    Seq<char>,
                >(paths[i]) && (#[trigger] list[y]).canonical == Ok::<PathView, Seq<char>>(paths[j])
        }),
    decreases list.len(),
{
    let paths = sources::support_paths(list, root_dir, namespace, excluded)->Ok_0;
    let rest = list.drop_last();
    let earlier = sources::support_paths(rest, root_dir, namespace, excluded)->Ok_0;
    if j < earlier.len() {
        lemma_support_order(rest, root_dir, namespace, excluded, i, j);
        let (x, y) = choose|x: int, y: int|
            0 <= x < y < rest.len() && (#[trigger] rest[x]).canonical == Ok::<PathView, Seq<char>>(
                earlier[i],
            ) && (#[trigger] rest[y]).canonical == Ok::<PathView, Seq<char>>(earlier[j]);
        assert(list[x] == rest[x] && list[y] == rest[y]);
    } else {
        lemma_support_listed(rest, root_dir, namespace, excluded, i);
        let x = choose|x: int|
            0 <= x < rest.len() && (#[trigger] rest[x]).canonical == Ok::<PathView, Seq<char>>(
                earlier[i],
            );
        assert(list[x] == rest[x]);
        assert(list[list.len() - 1].canonical == Ok::<PathView, Seq<char>>(paths[j]));
    }
}

proof fn lemma_support_listed(
    list: Seq<ListedView>,
    root_dir: PathView,
    namespace: Seq<char>,
    excluded: Set<ComponentsView>,
    i: int,
)
    requires
        sources::support_paths(list, root_dir, namespace, excluded) is Ok,
        0 <= i < sources::support_paths(list, root_dir, namespace, excluded)->Ok_0.len(),
    ensures
        exists|x: int|
            0 <= x < list.len() && (#[trigger] list[x]).canonical == Ok::<PathView, Seq<char>>(
                sources::support_paths(list, root_dir, namespace, excluded)->Ok_0[i],
            ),
    decreases list.len(),
{
    let rest = list.drop_last();
    let earlier = sources::support_paths(rest, root_dir, namespace, excluded)->Ok_0;
    if i < earlier.len() {
        lemma_support_listed(rest, root_dir, namespace, excluded, i);
        let x = choose|x: int|
            0 <= x < rest.len() && (#[trigger] rest[x]).canonical == Ok::<PathView, Seq<char>>(
                earlier[i],
            );
        assert(list[x] == rest[x]);
    } else {
        assert(list[list.len() - 1].canonical is Ok);
    }
}

/// The root module of a target has the namespace of the target and the kind that goes with its
/// type. Each support module is a library module, and is named after the path of its file below the
/// directory of the root.
pub proof fn modules_are_the_files_of_the_target(
    project: ProjectView,
    target: TargetView,
    listing: Result<Seq<ListedView>, Seq<char>>,
)
    ensures
        match (
            sources::target_modules(project, target, listing),
            sources::source_paths(project, target, listing),
        ) {
            (Ok(modules), Ok(paths)) => {
                &&& modules.root.file == paths.root
                &&& modules.root.path == target.namespace
                &&& modules.root.kind is Executable <==> target.ty is Executable
                &&& modules.root.kind is Kernel <==> target.ty is Kernel
                &&& modules.support.len() == paths.support.len()
                &&& forall|i: int|
                    0 <= i < paths.support.len() ==> {
                        &&& (#[trigger] modules.support[i]).file == paths.support[i]
                        &&& modules.support[i].kind is Library
                        &&& files::stripped(paths.support[i], paths.root_dir) is Some
                        &&& sources::path_of_module(
                            target.namespace,
                            files::stripped(paths.support[i], paths.root_dir)->0,
                        ) == Ok::<Seq<char>, Seq<char>>(modules.support[i].path)
                    }
            },
            (Err(a), Err(b)) => a == b,
            _ => false,
        },
{
    if let Ok(paths) = sources::source_paths(project, target, listing) {
        sources::lemma_support_paths(
            sorting::sorted::<ListedFile>(sources::module_files(listing->Ok_0)),
            paths.root_dir,
            target.namespace,
            sources::excluded_paths(project, target, paths.root),
        );
    }
}

/// The file of the module `stem` in a directory.
pub open spec fn module_file(directory: PathView, stem: Seq<u8>) -> PathView {
    files::joined(directory, stem + encode_utf8(".masm"@))
}

/// The name of a file or a directory: it is not empty, holds no separator and is not `.`.
pub open spec fn is_name(name: Seq<u8>) -> bool {
    &&& name.len() > 0
    &&& name != seq![0x2eu8]
    &&& forall|i: int| 0 <= i < name.len() ==> name[i] != files::SEPARATOR
}

/// All the components of a path are UTF-8.
pub open spec fn is_text(path: PathView) -> bool {
    forall|i: int|
        0 <= i < files::components(path).len() ==> valid_utf8(
            #[trigger] files::components(path)[i],
        )
}

proof fn lemma_extension_bytes()
    ensures
        encode_utf8(".masm"@) == seq![0x2eu8, 0x6d, 0x61, 0x73, 0x6d],
        encode_utf8("masm"@) == seq![0x6du8, 0x61, 0x73, 0x6d],
        encode_utf8("mod"@) == seq![0x6du8, 0x6f, 0x64],
{
    reveal_strlit(".masm");
    reveal_strlit("masm");
    reveal_strlit("mod");
    is_ascii_chars_encode_utf8(".masm"@);
    is_ascii_chars_encode_utf8("masm"@);
    is_ascii_chars_encode_utf8("mod"@);
    assert(encode_utf8(".masm"@) =~= seq![0x2eu8, 0x6d, 0x61, 0x73, 0x6d]);
    assert(encode_utf8("masm"@) =~= seq![0x6du8, 0x61, 0x73, 0x6d]);
    assert(encode_utf8("mod"@) =~= seq![0x6du8, 0x6f, 0x64]);
}

/// A module file has the extension of module files, and without it the name of the module.
pub proof fn module_file_has_the_stem(directory: PathView, stem: Seq<u8>)
    requires
        is_name(stem),
    ensures
        files::extension(module_file(directory, stem)) == Some(encode_utf8("masm"@)),
        files::without_extension(module_file(directory, stem)) == files::components(
            directory,
        ).push(stem),
{
    lemma_extension_bytes();
    files::extension_is_split_off(directory, stem, encode_utf8("masm"@));
    assert(stem + seq![0x2eu8] + encode_utf8("masm"@) =~= stem + encode_utf8(".masm"@));
}

proof fn lemma_all_pushed_last(namespace: Seq<char>, names: Seq<Seq<char>>)
    requires
        names.len() > 0,
    ensures
        sources::all_pushed(namespace, names) == match sources::all_pushed(
            namespace,
            names.drop_last(),
        ) {
            Err(fault) => Err(fault),
            Ok(path) => match sources::path_fault(names.last()) {
                Some(fault) => Err(fault),
                None => Ok::<Seq<char>, Seq<char>>(sources::pushed_path(path, names.last())),
            },
        },
    decreases names.len(),
{
    if names.len() > 1 {
        if sources::path_fault(names[0]) is None {
            let rest = names.drop_first();
            lemma_all_pushed_last(sources::pushed_path(namespace, names[0]), rest);
            assert(rest.drop_last() =~= names.drop_last().drop_first());
            assert(names.drop_last()[0] == names[0]);
        } else {
            assert(names.drop_last()[0] == names[0]);
        }
    } else {
        assert(names.drop_last() =~= Seq::<Seq<char>>::empty());
        let path = sources::pushed_path(namespace, names[0]);
        assert(names.drop_first() =~= Seq::<Seq<char>>::empty());
        assert(sources::all_pushed(path, names.drop_first()) == Ok::<Seq<char>, Seq<char>>(path));
    }
}

/// The names of the directories of a path.
pub open spec fn directory_names(directory: PathView) -> Seq<Seq<char>> {
    Seq::new(
        files::components(directory).len(),
        |i: int| decode_utf8(files::components(directory)[i]),
    )
}

proof fn lemma_module_path(namespace: Seq<char>, directory: PathView, stem: Seq<u8>)
    requires
        is_name(stem),
        valid_utf8(stem),
        is_text(directory),
    ensures
        sources::path_of_module(namespace, module_file(directory, stem)) == sources::all_pushed(
            namespace,
            if stem == encode_utf8("mod"@) {
                directory_names(directory)
            } else {
                directory_names(directory).push(decode_utf8(stem))
            },
        ),
{
    module_file_has_the_stem(directory, stem);
    let file = module_file(directory, stem);
    let parts = files::without_extension(file);
    assert forall|i: int| 0 <= i < parts.len() implies valid_utf8(#[trigger] parts[i]) by {
        if i < parts.len() - 1 {
            assert(parts[i] == files::components(directory)[i]);
        }
    }
    let names = Seq::new(parts.len(), |i: int| decode_utf8(parts[i]));
    assert(names =~= directory_names(directory).push(decode_utf8(stem)));
    assert(names.drop_last() =~= directory_names(directory));
    assert(decode_utf8(stem) == "mod"@ <==> stem == encode_utf8("mod"@)) by {
        encode_utf8_decode_utf8("mod"@);
        decode_utf8_encode_utf8(stem);
    }
}

/// The module in the file `mod.masm` at the root has the namespace of the target.
pub proof fn root_directory_has_the_namespace(namespace: Seq<char>)
    ensures
        sources::path_of_module(namespace, module_file(Seq::empty(), encode_utf8("mod"@))) == Ok::<
            Seq<char>,
            Seq<char>,
        >(namespace),
{
    lemma_extension_bytes();
    encode_utf8_valid_utf8("mod"@);
    assert(files::components(Seq::<u8>::empty()) =~= Seq::<Seq<u8>>::empty());
    lemma_module_path(namespace, Seq::empty(), encode_utf8("mod"@));
    assert(directory_names(Seq::<u8>::empty()) =~= Seq::<Seq<char>>::empty());
}

/// A module is named after its file, in the module of its directory: its path is that of the file
/// `mod.masm` beside it, with its name pushed onto it.
pub proof fn module_is_named_after_its_file(
    namespace: Seq<char>,
    directory: PathView,
    stem: Seq<u8>,
)
    requires
        is_name(stem),
        valid_utf8(stem),
        is_text(directory),
        stem != encode_utf8("mod"@),
    ensures
        sources::path_of_module(namespace, module_file(directory, stem))
            == match sources::path_of_module(
            namespace,
            module_file(directory, encode_utf8("mod"@)),
        ) {
            Err(fault) => Err(fault),
            Ok(path) => match sources::path_fault(decode_utf8(stem)) {
                Some(fault) => Err(fault),
                None => Ok::<Seq<char>, Seq<char>>(
                    sources::pushed_path(path, decode_utf8(stem)),
                ),
            },
        },
{
    lemma_extension_bytes();
    encode_utf8_valid_utf8("mod"@);
    lemma_module_path(namespace, directory, stem);
    lemma_module_path(namespace, directory, encode_utf8("mod"@));
    let names = directory_names(directory).push(decode_utf8(stem));
    lemma_all_pushed_last(namespace, names);
    assert(names.drop_last() =~= directory_names(directory));
}

/// The module of a directory is named after the directory: `a/mod.masm` and `a.masm` hold the same
/// module.
pub proof fn module_of_a_directory_is_named_after_it(
    namespace: Seq<char>,
    directory: PathView,
    name: Seq<u8>,
)
    requires
        is_name(name),
        valid_utf8(name),
        is_text(directory),
        name != encode_utf8("mod"@),
    ensures
        sources::path_of_module(
            namespace,
            module_file(files::joined(directory, name), encode_utf8("mod"@)),
        ) == sources::path_of_module(namespace, module_file(directory, name)),
{
    lemma_extension_bytes();
    encode_utf8_valid_utf8("mod"@);
    let inner = files::joined(directory, name);
    files::joined_name_is_one_component(directory, name);
    assert(is_text(inner)) by {
        assert forall|i: int| 0 <= i < files::components(inner).len() implies valid_utf8(
            #[trigger] files::components(inner)[i],
        ) by {
            if i < files::components(directory).len() {
                assert(files::components(inner)[i] == files::components(directory)[i]);
            }
        }
    }
    lemma_module_path(namespace, directory, name);
    lemma_module_path(namespace, inner, encode_utf8("mod"@));
    assert(directory_names(inner) =~= directory_names(directory).push(decode_utf8(name)));
}

} // verus!
