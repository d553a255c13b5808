//! The sources of a target: which files belong to it, and which modules they hold.

use miden_assembly_syntax::ast::{Path as MasmPath, PathBuf as MasmPathBuf};
use vstd::prelude::*;
use vstd::utf8::*;

use crate::files;
use crate::files::{ComponentsView, FilePath, PathView};
use crate::project;
use crate::project::{ModuleKind, ProjectPackage, ProjectView, Target, TargetView};
use crate::sorting;
use crate::sorting::Sortable;
use crate::text;

verus! {

/// The extension of a file that holds a module.
pub const FILE_EXTENSION: &'static str = "masm";

/// The name of the file that holds the module of its directory.
pub const ROOT_MODULE: &'static str = "mod";

/// The text of the error with which `miden_assembly_syntax` refuses a module path, if it does.
pub uninterp spec fn path_fault(path: Seq<char>) -> Option<Seq<char>>;

/// The module path that `miden_assembly_syntax` makes of `path` and what is pushed onto it.
pub uninterp spec fn pushed_path(path: Seq<char>, component: Seq<char>) -> Seq<char>;

/// `miden_assembly_syntax::ast::Path::validate`: why `path` is no module path, if it is none.
#[verifier::external_body]
fn validate_module_path(path: &str) -> (fault: Option<String>)
    ensures
        match (fault, path_fault(path@)) {
            (Some(fault), Some(expected)) => fault@ == expected,
            (None, None) => true,
            _ => false,
        },
{
    MasmPath::validate(path).err().map(|error| error.to_string())
}

/// `miden_assembly_syntax::ast::PathBuf::push`: `path` extended by `component`.
#[verifier::external_body]
fn push_module_path(path: &str, component: &str) -> (extended: String)
    requires
        path_fault(component@) is None,
    ensures
        extended@ == pushed_path(path@, component@),
{
    let mut extended: MasmPathBuf = MasmPath::new(path).to_path_buf();
    extended.push(component);
    extended.to_string()
}

/// The module path of `namespace` with `names` pushed onto it, or the message on the first of them
/// that is no module path.
pub open spec fn all_pushed(namespace: Seq<char>, names: Seq<Seq<char>>) -> Result<
    Seq<char>,
    Seq<char>,
>
    decreases names.len(),
{
    if names.len() == 0 {
        Ok(namespace)
    } else {
        match path_fault(names[0]) {
            Some(fault) => Err(fault),
            None => all_pushed(pushed_path(namespace, names[0]), names.drop_first()),
        }
    }
}

/// The names of the module in the file `relative`: the components without the extension, and
/// without the name of the file that holds the module of its directory.
pub open spec fn module_names(relative: PathView) -> Seq<Seq<char>> {
    let stem = files::without_extension(relative);
    let names = Seq::new(stem.len(), |i: int| decode_utf8(stem[i]));
    if names.len() > 0 && names.last() == ROOT_MODULE@ {
        names.drop_last()
    } else {
        names
    }
}

/// The path of the module in the file `relative` to the root of `namespace`.
pub open spec fn path_of_module(namespace: Seq<char>, relative: PathView) -> Result<
    Seq<char>,
    Seq<char>,
> {
    let stem = files::without_extension(relative);
    if forall|i: int| 0 <= i < stem.len() ==> valid_utf8(#[trigger] stem[i]) {
        all_pushed(namespace, module_names(relative))
    } else {
        Err("module path '"@ + files::path_text(relative) + "' contains invalid UTF-8"@)
    }
}

/// The path of the module in the file `relative` to the root of `namespace`.
pub fn module_path_from_relative(namespace: &str, relative: &FilePath) -> (path: Result<
    String,
    String,
>)
    ensures
        match (path, path_of_module(namespace@, relative@)) {
            (Ok(path), Ok(expected)) => path@ == expected,
            (Err(error), Err(message)) => error@ == message,
            _ => false,
        },
{
    let stem = relative.strip_extension();
    let mut names: Vec<String> = Vec::new();
    let mut i: usize = 0;
    let ghost parts = files::without_extension(relative@);
    while i < stem.len()
        invariant
            i <= stem@.len(),
            parts == files::without_extension(relative@),
            parts == files::component_views(stem@),
            names@.len() == i,
            forall|j: int| 0 <= j < i ==> valid_utf8(#[trigger] parts[j]),
            forall|j: int| 0 <= j < i ==> (#[trigger] names@[j])@ == decode_utf8(parts[j]),
        decreases stem.len() - i,
    {
        assert(parts[i as int] == stem@[i as int]@);
        match files::utf8_text(files::copied(stem[i].as_slice())) {
            Some(name) => names.push(name),
            None => {
                assert(!valid_utf8(parts[i as int]));
                let mut message = "module path '".to_string();
                message.append(relative.display().as_str());
                message.append("' contains invalid UTF-8");
                return Err(message);
            },
        }
        i += 1;
    }
    let mut count: usize = names.len();
    let ghost all = Seq::new(parts.len(), |i: int| decode_utf8(parts[i]));
    assert(count > 0 ==> all.last() == names@[count - 1]@);
    if count > 0 && text::same_text(names[count - 1].as_str(), ROOT_MODULE) {
        count -= 1;
    }
    let ghost kept = module_names(relative@);
    assert(kept =~= all.take(count as int));
    let mut path = namespace.to_string();
    let mut k: usize = 0;
    assert(kept.skip(0) =~= kept);
    while k < count
        invariant
            k <= count <= names@.len(),
            kept.len() == count,
            forall|j: int| 0 <= j < count ==> kept[j] == (#[trigger] names@[j])@,
            all_pushed(namespace@, kept) == all_pushed(path@, kept.skip(k as int)),
            path_of_module(namespace@, relative@) == all_pushed(namespace@, kept),
        decreases count - k,
    {
        assert(kept.skip(k as int)[0] == names@[k as int]@);
        assert(kept.skip(k as int).drop_first() =~= kept.skip(k + 1));
        let name = names[k].as_str();
        match validate_module_path(name) {
            Some(fault) => return Err(fault),
            None => {},
        }
        path = push_module_path(path.as_str(), name);
        k += 1;
    }
    Ok(path)
}

/// A file that was found below the directory of a target.
#[derive(Debug)]
pub struct ListedFile {
    pub path: FilePath,
    /// The canonical path of the file, or why there is none.
    pub canonical: Result<FilePath, String>,
}

/// The mathematical counterpart of [`ListedFile`].
#[verifier::ext_equal]
pub struct ListedView {
    pub path: PathView,
    pub canonical: Result<PathView, Seq<char>>,
}

impl View for ListedFile {
    type V = ListedView;

    open spec fn view(&self) -> ListedView {
        ListedView { path: self.path@, canonical: project::path_result(self.canonical) }
    }
}

impl Clone for ListedFile {
    fn clone(&self) -> (copy: ListedFile)
        ensures
            copy@ == self@,
    {
        let canonical = match &self.canonical {
            Ok(path) => Ok(path.clone()),
            Err(error) => Err(error.clone()),
        };
        ListedFile { path: self.path.clone(), canonical }
    }
}

impl Sortable for ListedFile {
    open spec fn before(a: ListedView, b: ListedView) -> bool {
        files::path_lt(a.path, b.path)
    }

    fn comes_before(&self, other: &ListedFile) -> (before: bool) {
        self.path.less(&other.path)
    }
}

/// All the files below a directory, or why it could not be read.
pub type Listing = Result<Vec<ListedFile>, String>;

/// The view of a listing.
pub open spec fn listing_view(listing: Listing) -> Result<Seq<ListedView>, Seq<char>> {
    match listing {
        Ok(list) => Ok(sorting::views(list@)),
        Err(error) => Err(error@),
    }
}

/// The files that hold modules.
pub open spec fn module_files(list: Seq<ListedView>) -> Seq<ListedView>
    decreases list.len(),
{
    if list.len() == 0 {
        list
    } else {
        let rest = module_files(list.drop_last());
        if files::extension(list.last().path) == Some(encode_utf8(FILE_EXTENSION@)) {
            rest.push(list.last())
        } else {
            rest
        }
    }
}

/// The message on a module file that is not below the root directory.
pub open spec fn not_below_root(path: PathView) -> Seq<char> {
    "failed to derive module path for '"@ + files::path_text(path) + "': prefix not found"@
}

/// The canonical paths of the module files that are no roots of targets, in order, or the message
/// on the first of them that is not below `root_dir` or holds no module.
pub open spec fn support_paths(
    list: Seq<ListedView>,
    root_dir: PathView,
    namespace: Seq<char>,
    excluded: Set<ComponentsView>,
) -> Result<Seq<PathView>, Seq<char>>
    decreases list.len(),
{
    if list.len() == 0 {
        Ok(Seq::empty())
    } else {
        match support_paths(list.drop_last(), root_dir, namespace, excluded) {
            Err(error) => Err(error),
            Ok(paths) => match list.last().canonical {
                Err(error) => Err(
                    "failed to resolve '"@ + files::path_text(list.last().path) + "': "@ + error,
                ),
                Ok(path) => if excluded.contains(files::components(path)) {
                    Ok(paths)
                } else {
                    match files::stripped(path, root_dir) {
                        None => Err(not_below_root(path)),
                        Some(relative) => match path_of_module(namespace, relative) {
                            Err(error) => Err(error),
                            Ok(_) => Ok(paths.push(path)),
                        },
                    }
                },
            },
        }
    }
}

/// The path with these components is the root of a target that `target` does not contain: the
/// library, unless `target` is an executable, or an executable.
pub open spec fn is_other_root(
    project: ProjectView,
    target: TargetView,
    path: ComponentsView,
) -> bool {
    ||| !(target.ty is Executable) && project.library is Some && is_root_of(
        project.library->0,
        path,
    )
    ||| exists|i: int|
        0 <= i < project.executables.len() && is_root_of(#[trigger] project.executables[i], path)
}

/// The path with these components is the root module of `target`.
pub open spec fn is_root_of(target: TargetView, path: ComponentsView) -> bool {
    target.source is Some && target.source->0.resolved is Ok && files::components(
        target.source->0.resolved->Ok_0,
    ) == path
}

/// The components of the paths of the files that are no support modules of `target`.
pub open spec fn excluded_paths(project: ProjectView, target: TargetView, root: PathView) -> Set<
    ComponentsView,
> {
    Set::new(
        |path: ComponentsView| path == files::components(root) || is_other_root(project, target, path),
    )
}

/// The components of the paths of a list.
pub open spec fn path_set(paths: Seq<FilePath>) -> Set<ComponentsView> {
    Set::new(
        |path: ComponentsView|
            exists|i: int| 0 <= i < paths.len() && files::components((#[trigger] paths[i])@) == path,
    )
}

/// The message on a path that has no parent directory.
pub open spec fn without_parent(what: Seq<char>, path: PathView) -> Seq<char> {
    what + " '"@ + files::path_text(path) + "' has no parent directory"@
}

/// The directory that a project was loaded from, or the message that there is none.
pub open spec fn project_root(project: ProjectView) -> Result<PathView, Seq<char>> {
    match project::manifest_path(project) {
        Err(error) => Err(error),
        Ok(manifest) => match files::parent(manifest) {
            None => Err(without_parent("manifest"@, manifest)),
            Some(root) => Ok(root),
        },
    }
}

/// The root module of a target and the directory that it is in, or the message that there is none.
pub open spec fn target_root(project: ProjectView, target: TargetView) -> Result<
    (PathView, PathView),
    Seq<char>,
> {
    match project_root(project) {
        Err(error) => Err(error),
        Ok(_) => match target.source {
            None => Err(
                "target '"@ + target.name
                    + "' does not define a source path; use assemble_with_sources instead"@,
            ),
            Some(source) => match source.resolved {
                Err(error) => Err(
                    "failed to resolve target source '"@ + source.location + "': "@ + error,
                ),
                Ok(root) => match files::parent(root) {
                    None => Err(without_parent("target source"@, root)),
                    Some(root_dir) => Ok((root, root_dir)),
                },
            },
        },
    }
}

/// The files of a target.
#[derive(Debug)]
pub struct TargetSourcePaths {
    pub root: FilePath,
    pub root_dir: FilePath,
    pub support: Vec<FilePath>,
}

/// The mathematical counterpart of [`TargetSourcePaths`].
#[verifier::ext_equal]
pub struct SourcePathsView {
    pub root: PathView,
    pub root_dir: PathView,
    pub support: Seq<PathView>,
}

impl View for TargetSourcePaths {
    type V = SourcePathsView;

    open spec fn view(&self) -> SourcePathsView {
        SourcePathsView {
            root: self.root@,
            root_dir: self.root_dir@,
            support: sorting::views(self.support@),
        }
    }
}

/// The files of a target: its root, and below the directory of the root all the module files that
/// are no roots of targets, in the order of their paths.
pub open spec fn source_paths(
    project: ProjectView,
    target: TargetView,
    listing: Result<Seq<ListedView>, Seq<char>>,
) -> Result<SourcePathsView, Seq<char>> {
    match target_root(project, target) {
        Err(error) => Err(error),
        Ok((root, root_dir)) => match listing {
            Err(error) => Err(error),
            Ok(list) => match support_paths(
                sorting::sorted::<ListedFile>(module_files(list)),
                root_dir,
                target.namespace,
                excluded_paths(project, target, root),
            ) {
                Err(error) => Err(error),
                Ok(support) => Ok(SourcePathsView { root, root_dir, support }),
            },
        },
    }
}

/// The message on a path that has no parent directory.
fn without_parent_message(what: &str, path: &FilePath) -> (message: String)
    ensures
        message@ == without_parent(what@, path@),
{
    let mut message = what.to_string();
    message.append(" '");
    message.append(path.display().as_str());
    message.append("' has no parent directory");
    message
}

/// The directory that `project` was loaded from.
fn find_project_root(project: &ProjectPackage) -> (root: Result<FilePath, String>)
    ensures
        match (root, project_root(project@)) {
            (Ok(root), Ok(expected)) => root@ == expected,
            (Err(error), Err(message)) => error@ == message,
            _ => false,
        },
{
    match project::project_manifest_path(project) {
        Err(error) => Err(error),
        Ok(manifest) => match manifest.parent() {
            Some(root) => Ok(root),
            None => Err(without_parent_message("manifest", manifest)),
        },
    }
}

/// The root module of `target` and the directory that it is in.
pub fn locate_target_root(project: &ProjectPackage, target: &Target) -> (root: Result<
    (FilePath, FilePath),
    String,
>)
    ensures
        match (root, target_root(project@, target@)) {
            (Ok((root, root_dir)), Ok((expected, expected_dir))) => root@ == expected && root_dir@
                == expected_dir,
            (Err(error), Err(message)) => error@ == message,
            _ => false,
        },
{
    match find_project_root(project) {
        Err(error) => return Err(error),
        Ok(_) => {},
    }
    let source = match &target.source {
        Some(source) => source,
        None => {
            let mut message = "target '".to_string();
            message.append(target.name.as_str());
            message.append("' does not define a source path; use assemble_with_sources instead");
            return Err(message);
        },
    };
    match &source.resolved {
        Err(error) => {
            let mut message = "failed to resolve target source '".to_string();
            message.append(source.location.as_str());
            message.append("': ");
            message.append(error.as_str());
            Err(message)
        },
        Ok(root) => match root.parent() {
            Some(root_dir) => Ok((root.clone(), root_dir)),
            None => Err(without_parent_message("target source", root)),
        },
    }
}

/// The root module of `target`, if it is known and is not `current_root`.
fn other_root(target: &Target, current_root: &FilePath) -> (root: Option<FilePath>)
    ensures
        match root {
            Some(root) => is_root_of(target@, files::components(root@)) && !files::same_path(
                root@,
                current_root@,
            ),
            None => forall|path: ComponentsView|
                is_root_of(target@, path) ==> path == files::components(current_root@),
        },
{
    match &target.source {
        Some(source) => match &source.resolved {
            Ok(path) => if path.same(current_root) {
                None
            } else {
                Some(path.clone())
            },
            Err(_) => None,
        },
        None => None,
    }
}

/// A list of paths with one more path.
proof fn lemma_path_set(paths: Seq<FilePath>, path: FilePath)
    ensures
        path_set(paths.push(path)) == path_set(paths).insert(files::components(path@)),
{
    let after = paths.push(path);
    assert forall|p: ComponentsView|
        path_set(after).contains(p) <==> path_set(paths).insert(files::components(path@)).contains(
            p,
        ) by {
        if path_set(paths).contains(p) {
            let k = choose|k: int|
                0 <= k < paths.len() && files::components((#[trigger] paths[k])@) == p;
            assert(after[k] == paths[k]);
        }
        if p == files::components(path@) {
            assert(after[paths.len() as int] == path);
        }
        if path_set(after).contains(p) && p != files::components(path@) {
            let k = choose|k: int|
                0 <= k < after.len() && files::components((#[trigger] after[k])@) == p;
            assert(paths[k] == after[k]);
        }
    }
    assert(path_set(after) =~= path_set(paths).insert(files::components(path@)));
}

/// The roots of the other targets, which `target` does not contain.
pub fn excluded_target_roots(
    project: &ProjectPackage,
    target: &Target,
    current_root: &FilePath,
) -> (excluded: Result<Vec<FilePath>, String>)
    ensures
        match (excluded, project_root(project@)) {
            (Ok(excluded), Ok(_)) => forall|path: ComponentsView|
                path_set(excluded@).contains(path) <==> path != files::components(current_root@)
                    && is_other_root(project@, target@, path),
            (Err(error), Err(message)) => error@ == message,
            _ => false,
        },
{
    match find_project_root(project) {
        Err(error) => return Err(error),
        Ok(_) => {},
    }
    let ghost current = files::components(current_root@);
    let mut excluded: Vec<FilePath> = Vec::new();
    assert(path_set(excluded@) =~= Set::<ComponentsView>::empty());
    let ghost of_library = |path: ComponentsView|
        !(target@.ty is Executable) && project@.library is Some && is_root_of(
            project@.library->0,
            path,
        ) && path != current;
    if !target.ty.is_executable() {
        match &project.library {
            Some(library) => match other_root(library, current_root) {
                Some(path) => {
                    proof {
                        lemma_path_set(excluded@, path);
                    }
                    excluded.push(path);
                },
                None => {},
            },
            None => {},
        }
    }
    assert(forall|path: ComponentsView|
        #[trigger] path_set(excluded@).contains(path) <==> of_library(path));
    let mut i: usize = 0;
    while i < project.executables.len()
        invariant
            i <= project.executables@.len(),
            current == files::components(current_root@),
            forall|path: ComponentsView|
                #![trigger path_set(excluded@).contains(path)]
                path_set(excluded@).contains(path) <==> of_library(path) || (path != current
                    && exists|j: int|
                    0 <= j < i && is_root_of(#[trigger] project@.executables[j], path)),
        decreases project.executables.len() - i,
    {
        let executable = &project.executables[i];
        assert(project@.executables[i as int] == executable@);
        match other_root(executable, current_root) {
            Some(path) => {
                proof {
                    lemma_path_set(excluded@, path);
                }
                excluded.push(path);
            },
            None => {},
        }
        i += 1;
    }
    assert forall|path: ComponentsView|
        path_set(excluded@).contains(path) <==> path != current && is_other_root(
            project@,
            target@,
            path,
        ) by {}
    Ok(excluded)
}

/// The files of `list` that hold modules.
fn collect_module_files(list: &Vec<ListedFile>) -> (files: Vec<ListedFile>)
    ensures
        sorting::views(files@) == module_files(sorting::views(list@)),
{
    let ghost all = sorting::views(list@);
    let mut files: Vec<ListedFile> = Vec::new();
    let mut i: usize = 0;
    assert(sorting::views(files@) =~= module_files(all.take(0)));
    while i < list.len()
        invariant
            i <= list@.len(),
            all == sorting::views(list@),
            sorting::views(files@) == module_files(all.take(i as int)),
        decreases list.len() - i,
    {
        let file = &list[i];
        assert(all.take(i + 1).drop_last() =~= all.take(i as int));
        assert(all.take(i + 1).last() == file@);
        let ghost before = sorting::views(files@);
        if file.path.has_extension(FILE_EXTENSION.as_bytes()) {
            files.push(file.clone());
            assert(sorting::views(files@) =~= before.push(file@));
        }
        i += 1;
    }
    assert(all.take(i as int) =~= all);
    files
}

/// Tells whether `path` is one of `paths`.
fn contains_path(paths: &Vec<FilePath>, path: &FilePath) -> (contains: bool)
    ensures
        contains == path_set(paths@).contains(files::components(path@)),
{
    let mut i: usize = 0;
    while i < paths.len()
        invariant
            i <= paths@.len(),
            forall|j: int|
                0 <= j < i ==> files::components((#[trigger] paths@[j])@) != files::components(
                    path@,
                ),
        decreases paths.len() - i,
    {
        if paths[i].same(path) {
            assert(files::components(paths@[i as int]@) == files::components(path@));
            return true;
        }
        i += 1;
    }
    false
}

/// The canonical path of a module file that is a support module, `None` for an excluded one.
fn support_module_path(
    file: &ListedFile,
    root_dir: &FilePath,
    namespace: &str,
    excluded: &Vec<FilePath>,
) -> (path: Result<Option<FilePath>, String>)
    ensures
        match file@.canonical {
            Err(error) => path matches Err(message) && message@ == "failed to resolve '"@
                + files::path_text(file@.path) + "': "@ + error,
            Ok(canonical) => if path_set(excluded@).contains(files::components(canonical)) {
                path matches Ok(None)
            } else {
                match files::stripped(canonical, root_dir@) {
                    None => path matches Err(message) && message@ == not_below_root(canonical),
                    Some(relative) => match path_of_module(namespace@, relative) {
                        Err(error) => path matches Err(message) && message@ == error,
                        Ok(_) => path matches Ok(Some(path)) && path@ == canonical,
                    },
                }
            },
        },
{
    let canonical = match &file.canonical {
        Ok(canonical) => canonical,
        Err(error) => {
            let mut message = "failed to resolve '".to_string();
            message.append(file.path.display().as_str());
            message.append("': ");
            message.append(error.as_str());
            return Err(message);
        },
    };
    if contains_path(excluded, canonical) {
        return Ok(None);
    }
    match canonical.strip_prefix(root_dir) {
        None => {
            let mut message = "failed to derive module path for '".to_string();
            message.append(canonical.display().as_str());
            message.append("': prefix not found");
            Err(message)
        },
        Some(relative) => match module_path_from_relative(namespace, &relative) {
            Ok(_) => Ok(Some(canonical.clone())),
            Err(error) => Err(error),
        },
    }
}

/// The support modules of a target: the module files of a listing of `root_dir` that are not
/// excluded, in the order of their paths.
pub fn read_support_module_paths(
    root_dir: &FilePath,
    namespace: &str,
    excluded: &Vec<FilePath>,
    listing: &Listing,
) -> (support: Result<Vec<FilePath>, String>)
    ensures
        match listing_view(*listing) {
            Err(error) => support matches Err(message) && message@ == error,
            Ok(list) => match (
                support,
                support_paths(
                    sorting::sorted::<ListedFile>(module_files(list)),
                    root_dir@,
                    namespace@,
                    path_set(excluded@),
                ),
            ) {
                (Ok(support), Ok(expected)) => sorting::views(support@) == expected,
                (Err(error), Err(message)) => error@ == message,
                _ => false,
            },
        },
{
    let list = match listing {
        Ok(list) => list,
        Err(error) => return Err(error.clone()),
    };
    let mut files = collect_module_files(list);
    sorting::sort(&mut files);
    let ghost all = sorting::views(files@);
    let ghost excluded_set = path_set(excluded@);
    let mut support: Vec<FilePath> = Vec::new();
    let mut i: usize = 0;
    assert(sorting::views(support@) =~= Seq::<PathView>::empty());
    while i < files.len()
        invariant
            i <= files@.len(),
            all == sorting::views(files@),
            all == sorting::sorted::<ListedFile>(module_files(sorting::views(list@))),
            listing_view(*listing) == Ok::<Seq<ListedView>, Seq<char>>(sorting::views(list@)),
            excluded_set == path_set(excluded@),
            support_paths(all.take(i as int), root_dir@, namespace@, excluded_set) == Ok::<
                Seq<PathView>,
                Seq<char>,
            >(sorting::views(support@)),
        decreases files.len() - i,
    {
        let file = &files[i];
        assert(all.take(i + 1).drop_last() =~= all.take(i as int));
        assert(all.take(i + 1).last() == file@);
        let ghost before = sorting::views(support@);
        match support_module_path(file, root_dir, namespace, excluded) {
            Err(error) => {
                proof {
                    lemma_support_error(all, root_dir@, namespace@, excluded_set, i + 1);
                }
                return Err(error);
            },
            Ok(None) => {},
            Ok(Some(path)) => {
                support.push(path);
                assert(sorting::views(support@) =~= before.push(path@));
            },
        }
        i += 1;
    }
    assert(all.take(i as int) =~= all);
    Ok(support)
}

proof fn lemma_support_error(
    list: Seq<ListedView>,
    root_dir: PathView,
    namespace: Seq<char>,
    excluded: Set<ComponentsView>,
    i: int,
)
    requires
        0 <= i <= list.len(),
        support_paths(list.take(i), root_dir, namespace, excluded) is Err,
    ensures
        support_paths(list, root_dir, namespace, excluded) == support_paths(
            list.take(i),
            root_dir,
            namespace,
            excluded,
        ),
    decreases list.len() - i,
{
    if i < list.len() {
        assert(list.take(i + 1).drop_last() =~= list.take(i));
        lemma_support_error(list, root_dir, namespace, excluded, i + 1);
    } else {
        assert(list.take(i) =~= list);
    }
}

/// The files of `target`, given all the files below the directory of its root.
pub fn resolve_target_source_paths(
    project: &ProjectPackage,
    target: &Target,
    listing: &Listing,
) -> (paths: Result<TargetSourcePaths, String>)
    ensures
        match (paths, source_paths(project@, target@, listing_view(*listing))) {
            (Ok(paths), Ok(expected)) => paths@ == expected,
            (Err(error), Err(message)) => error@ == message,
            _ => false,
        },
{
    let (root, root_dir) = match locate_target_root(project, target) {
        Ok(root) => root,
        Err(error) => return Err(error),
    };
    let mut excluded = match excluded_target_roots(project, target, &root) {
        Ok(excluded) => excluded,
        Err(error) => return Err(error),
    };
    let current = root.clone();
    proof {
        lemma_path_set(excluded@, current);
    }
    excluded.push(current);
    assert(path_set(excluded@) =~= excluded_paths(project@, target@, root@));
    match read_support_module_paths(&root_dir, target.namespace.as_str(), &excluded, listing) {
        Ok(support) => Ok(TargetSourcePaths { root, root_dir, support }),
        Err(error) => Err(error),
    }
}

/// A module file and the module that it is parsed into.
#[derive(Debug)]
pub struct ModuleFile {
    pub file: FilePath,
    pub kind: ModuleKind,
    /// The path of the module in the assembly language.
    pub path: String,
}

/// The mathematical counterpart of [`ModuleFile`].
#[verifier::ext_equal]
pub struct ModuleFileView {
    pub file: PathView,
    pub kind: ModuleKind,
    pub path: Seq<char>,
}

impl View for ModuleFile {
    type V = ModuleFileView;

    open spec fn view(&self) -> ModuleFileView {
        ModuleFileView { file: self.file@, kind: self.kind, path: self.path@ }
    }
}

/// The modules of a target, to be parsed in this order.
#[derive(Debug)]
pub struct TargetModules {
    pub root: ModuleFile,
    pub support: Vec<ModuleFile>,
}

/// The mathematical counterpart of [`TargetModules`].
#[verifier::ext_equal]
pub struct TargetModulesView {
    pub root: ModuleFileView,
    pub support: Seq<ModuleFileView>,
}

impl View for TargetModules {
    type V = TargetModulesView;

    open spec fn view(&self) -> TargetModulesView {
        TargetModulesView { root: self.root@, support: sorting::views(self.support@) }
    }
}

/// The library module in a support file.
pub open spec fn support_module(
    namespace: Seq<char>,
    root_dir: PathView,
    file: PathView,
) -> ModuleFileView {
    ModuleFileView {
        file,
        kind: ModuleKind::Library,
        path: path_of_module(namespace, files::stripped(file, root_dir)->0)->Ok_0,
    }
}

/// The modules of a target, or the message on why its sources cannot be found.
pub open spec fn target_modules(
    project: ProjectView,
    target: TargetView,
    listing: Result<Seq<ListedView>, Seq<char>>,
) -> Result<TargetModulesView, Seq<char>> {
    match source_paths(project, target, listing) {
        Err(error) => Err(error),
        Ok(paths) => Ok(
            TargetModulesView {
                root: ModuleFileView {
                    file: paths.root,
                    kind: project::root_module_kind(target.ty),
                    path: target.namespace,
                },
                support: Seq::new(
                    paths.support.len(),
                    |i: int| support_module(target.namespace, paths.root_dir, paths.support[i]),
                ),
            },
        ),
    }
}

/// Each support file is below the root directory, holds a module and is not excluded.
pub proof fn lemma_support_paths(
    list: Seq<ListedView>,
    root_dir: PathView,
    namespace: Seq<char>,
    excluded: Set<ComponentsView>,
)
    ensures
        support_paths(list, root_dir, namespace, excluded) matches Ok(paths) ==> forall|i: int|
            0 <= i < paths.len() ==> {
                &&& files::stripped(#[trigger] paths[i], root_dir) is Some
                &&& path_of_module(namespace, files::stripped(paths[i], root_dir)->0) is Ok
                &&& !excluded.contains(files::components(paths[i]))
            },
    decreases list.len(),
{
    if list.len() > 0 {
        lemma_support_paths(list.drop_last(), root_dir, namespace, excluded);
    }
}

/// The modules of `target`, given all the files below the directory of its root. Parsing them is
/// left to the caller.
pub fn load_target_sources(project: &ProjectPackage, target: &Target, listing: &Listing) -> (modules:
    Result<TargetModules, String>)
    ensures
        match (modules, target_modules(project@, target@, listing_view(*listing))) {
            (Ok(modules), Ok(expected)) => modules@ == expected,
            (Err(error), Err(message)) => error@ == message,
            _ => false,
        },
{
    let paths = match resolve_target_source_paths(project, target, listing) {
        Ok(paths) => paths,
        Err(error) => return Err(error),
    };
    let root = ModuleFile {
        file: paths.root.clone(),
        kind: project::target_root_module_kind(target.ty),
        path: target.namespace.clone(),
    };
    let ghost expected = target_modules(project@, target@, listing_view(*listing))->Ok_0;
    proof {
        let list = listing_view(*listing)->Ok_0;
        lemma_support_paths(
            sorting::sorted::<ListedFile>(module_files(list)),
            paths@.root_dir,
            target@.namespace,
            excluded_paths(project@, target@, paths@.root),
        );
    }
    let mut support: Vec<ModuleFile> = Vec::new();
    let mut i: usize = 0;
    while i < paths.support.len()
        invariant
            i <= paths.support@.len(),
            support@.len() == i,
            forall|j: int|
                0 <= j < i ==> (#[trigger] support@[j])@ == support_module(
                    target@.namespace,
                    paths@.root_dir,
                    paths@.support[j],
                ),
            forall|j: int|
                0 <= j < paths@.support.len() ==> {
                    &&& files::stripped(#[trigger] paths@.support[j], paths@.root_dir) is Some
                    &&& path_of_module(
                        target@.namespace,
                        files::stripped(paths@.support[j], paths@.root_dir)->0,
                    ) is Ok
                },
        decreases paths.support.len() - i,
    {
        let file = &paths.support[i];
        assert(paths@.support[i as int] == file@);
        if let Some(relative) = file.strip_prefix(&paths.root_dir) {
            if let Ok(path) = module_path_from_relative(target.namespace.as_str(), &relative) {
                support.push(ModuleFile { file: file.clone(), kind: ModuleKind::Library, path });
            }
        }
        i += 1;
    }
    let modules = TargetModules { root, support };
    assert(modules@.support =~= expected.support);
    Ok(modules)
}

/// A module that a caller provides. The parsed module is the caller's, which knows it by `handle`.
#[derive(Debug)]
pub struct Module {
    pub handle: usize,
    pub kind: ModuleKind,
    /// The path of the module in the assembly language.
    pub path: String,
}

/// The mathematical counterpart of [`Module`].
#[verifier::ext_equal]
pub struct ModuleView {
    pub handle: usize,
    pub kind: ModuleKind,
    pub path: Seq<char>,
}

impl View for Module {
    type V = ModuleView;

    open spec fn view(&self) -> ModuleView {
        ModuleView { handle: self.handle, kind: self.kind, path: self.path@ }
    }
}

/// The modules that a caller provides in place of the sources of a target.
#[derive(Debug)]
pub struct ProjectSourceInputs {
    pub root: Box<Module>,
    pub support: Vec<Box<Module>>,
}

/// Makes the modules that a caller provides those of `target`: the root becomes the root module of
/// the namespace, and the others become library modules and keep their paths.
pub fn normalize_provided_sources(target: &Target, sources: ProjectSourceInputs) -> (normalized:
    ProjectSourceInputs)
    ensures
        normalized.root@ == (ModuleView {
            handle: sources.root.handle,
            kind: project::root_module_kind(target.ty),
            path: target.namespace@,
        }),
        normalized.support@.len() == sources.support@.len(),
        forall|i: int|
            0 <= i < sources.support@.len() ==> (#[trigger] normalized.support@[i])@ == (
            ModuleView {
                handle: sources.support@[i].handle,
                kind: ModuleKind::Library,
                path: sources.support@[i].path@,
            }),
{
    let root = Box::new(
        Module {
            handle: sources.root.handle,
            kind: project::target_root_module_kind(target.ty),
            path: target.namespace.clone(),
        },
    );
    let mut support: Vec<Box<Module>> = Vec::new();
    let mut i: usize = 0;
    while i < sources.support.len()
        invariant
            i <= sources.support@.len(),
            support@.len() == i,
            forall|j: int|
                0 <= j < i ==> (#[trigger] support@[j])@ == (ModuleView {
                    handle: sources.support@[j].handle,
                    kind: ModuleKind::Library,
                    path: sources.support@[j].path@,
                }),
        decreases sources.support.len() - i,
    {
        let module = &sources.support[i];
        support.push(
            Box::new(
                Module {
                    handle: module.handle,
                    kind: ModuleKind::Library,
                    path: module.path.clone(),
                },
            ),
        );
        i += 1;
    }
    ProjectSourceInputs { root, support }
}

/// The sources of a target hold neither the root of another target nor, twice, its own: no
/// support file is the root, the library of the project unless the target is an executable, or an
/// executable.
pub proof fn support_files_are_no_roots(
    project: ProjectView,
    target: TargetView,
    listing: Result<Seq<ListedView>, Seq<char>>,
    i: int,
)
    requires
        source_paths(project, target, listing) is Ok,
        0 <= i < source_paths(project, target, listing)->Ok_0.support.len(),
    ensures
        ({
            let paths = source_paths(project, target, listing)->Ok_0;
            !files::same_path(paths.support[i], paths.root) && !is_other_root(
                project,
                target,
                files::components(paths.support[i]),
            )
        }),
{
    let paths = source_paths(project, target, listing)->Ok_0;
    lemma_support_paths(
        sorting::sorted::<ListedFile>(module_files(listing->Ok_0)),
        paths.root_dir,
        target.namespace,
        excluded_paths(project, target, paths.root),
    );
    assert(!excluded_paths(project, target, paths.root).contains(
        files::components(paths.support[i]),
    ));
}

/// How often a file is among the module files of a listing.
pub proof fn lemma_module_files(list: Seq<ListedView>)
    ensures
        forall|file: ListedView|
            (#[trigger] module_files(list).to_multiset().count(file)) == if files::extension(
                file.path,
            ) == Some(encode_utf8(FILE_EXTENSION@)) {
                list.to_multiset().count(file)
            } else {
                0
            },
    decreases list.len(),
{
    broadcast use vstd::seq_lib::group_to_multiset_ensures;

    if list.len() > 0 {
        let rest = list.drop_last();
        lemma_module_files(rest);
        assert(rest.push(list.last()) =~= list);
        assert(list.to_multiset() == rest.to_multiset().insert(list.last()));
        assert forall|file: ListedView|
            (#[trigger] module_files(list).to_multiset().count(file)) == if files::extension(
                file.path,
            ) == Some(encode_utf8(FILE_EXTENSION@)) {
                list.to_multiset().count(file)
            } else {
                0
            } by {
            assert(module_files(rest).to_multiset().count(file) == module_files(
                rest,
            ).to_multiset().count(file));
            if files::extension(list.last().path) == Some(encode_utf8(FILE_EXTENSION@)) {
                assert(module_files(list) == module_files(rest).push(list.last()));
            }
        }
    } else {
        assert forall|file: ListedView| #[trigger] list.to_multiset().count(file) == 0 by {
            assert(!list.contains(file));
        }
    }
}

/// Where files are listed once each, the order of their paths is total.
pub proof fn lemma_modules_are_ordered(a: Seq<ListedView>)
    requires
        forall|i: int, j: int|
            0 <= i < a.len() && 0 <= j < a.len() && files::same_path(
                (#[trigger] a[i]).path,
                (#[trigger] a[j]).path,
            ) ==> a[i] == a[j],
    ensures
        sorting::totally_ordered::<ListedFile>(module_files(a)),
{
    let modules_a = module_files(a);
    lemma_module_files(a);
    assert forall|x: ListedView| modules_a.contains(x) implies a.contains(x) by {
        broadcast use vstd::seq_lib::group_to_multiset_ensures;

        assert(modules_a.to_multiset().count(x) > 0);
    }
    assert forall|x: ListedView| modules_a.contains(x) implies !#[trigger] ListedFile::before(
        x,
        x,
    ) by {
        files::path_order_is_total(x.path, x.path, x.path);
    }
    assert forall|x: ListedView, y: ListedView|
        modules_a.contains(x) && modules_a.contains(y) implies x == y
        || #[trigger] ListedFile::before(x, y) || ListedFile::before(y, x) by {
        files::path_order_is_total(x.path, y.path, x.path);
        assert(a.contains(x) && a.contains(y));
        let i = choose|i: int| 0 <= i < a.len() && a[i] == x;
        let j = choose|j: int| 0 <= j < a.len() && a[j] == y;
        assert(files::same_path(a[i].path, a[j].path) ==> a[i] == a[j]);
    }
    assert forall|x: ListedView, y: ListedView, z: ListedView|
        modules_a.contains(x) && modules_a.contains(y) && modules_a.contains(z)
            && #[trigger] ListedFile::before(x, y) && #[trigger] ListedFile::before(
            y,
            z,
        ) implies ListedFile::before(x, z) by {
        files::path_order_is_total(x.path, y.path, z.path);
    }
}

/// Where files are listed once each, the order in which a directory lists them does not matter:
/// the sources of a target, their modules and their order are the same.
pub proof fn listing_order_does_not_matter(
    project: ProjectView,
    target: TargetView,
    a: Seq<ListedView>,
    b: Seq<ListedView>,
)
    requires
        a.to_multiset() == b.to_multiset(),
        forall|i: int, j: int|
            0 <= i < a.len() && 0 <= j < a.len() && files::same_path(
                (#[trigger] a[i]).path,
                (#[trigger] a[j]).path,
            ) ==> a[i] == a[j],
    ensures
        source_paths(project, target, Ok(a)) == source_paths(project, target, Ok(b)),
        target_modules(project, target, Ok(a)) == target_modules(project, target, Ok(b)),
{
    let modules_a = module_files(a);
    let modules_b = module_files(b);
    lemma_module_files(a);
    lemma_module_files(b);
    assert(modules_a.to_multiset() =~= modules_b.to_multiset());
    lemma_modules_are_ordered(a);
    sorting::sorting_forgets_order::<ListedFile>(modules_a, modules_b);
}

} // verus!
