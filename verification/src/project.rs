//! Projects: targets, profiles and manifests.

use std::sync::Arc;

use vstd::prelude::*;

use crate::files;
use crate::files::{FilePath, PathView};
use crate::linking::Linkage;
use crate::package;
use crate::package::TargetType;
use crate::provenance::PackageBuildSettings;
use crate::sorting;
use crate::sorting::Sortable;
use crate::text;
use crate::version::SemVer;

verus! {

/// Which target of a project to assemble.
pub enum ProjectTargetSelector<'a> {
    /// The library.
    Library,
    /// The executable with this name.
    Executable(&'a str),
}

/// What a module of the assembly language is.
#[derive(Clone, Copy, Debug, PartialEq, Eq, Structural)]
pub enum ModuleKind {
    Library,
    Executable,
    Kernel,
}

/// Where the root module of a target is.
#[derive(Debug)]
pub struct TargetSource {
    /// The location as the manifest gives it, below the directory of the manifest.
    pub location: String,
    /// The canonical path of the file, or why there is none.
    pub resolved: Result<FilePath, String>,
}

/// The mathematical counterpart of [`TargetSource`].
#[verifier::ext_equal]
pub struct TargetSourceView {
    pub location: Seq<char>,
    pub resolved: Result<PathView, Seq<char>>,
}

/// The view of a path or of a message.
pub open spec fn path_result(result: Result<FilePath, String>) -> Result<PathView, Seq<char>> {
    match result {
        Ok(path) => Ok(path@),
        Err(error) => Err(error@),
    }
}

/// The view of a text or of a message.
pub open spec fn text_result(result: Result<String, String>) -> Result<Seq<char>, Seq<char>> {
    match result {
        Ok(text) => Ok(text@),
        Err(error) => Err(error@),
    }
}

impl View for TargetSource {
    type V = TargetSourceView;

    open spec fn view(&self) -> TargetSourceView {
        TargetSourceView { location: self.location@, resolved: path_result(self.resolved) }
    }
}

/// A target of a project.
#[derive(Debug)]
pub struct Target {
    pub ty: TargetType,
    pub name: String,
    /// The path of the root module in the assembly language.
    pub namespace: String,
    /// The root module, if the manifest names one.
    pub source: Option<TargetSource>,
}

/// The mathematical counterpart of [`Target`].
#[verifier::ext_equal]
pub struct TargetView {
    pub ty: TargetType,
    pub name: Seq<char>,
    pub namespace: Seq<char>,
    pub source: Option<TargetSourceView>,
}

impl View for Target {
    type V = TargetView;

    open spec fn view(&self) -> TargetView {
        TargetView {
            ty: self.ty,
            name: self.name@,
            namespace: self.namespace@,
            source: match self.source {
                Some(source) => Some(source@),
                None => None,
            },
        }
    }
}

/// A build profile.
#[derive(Debug)]
pub struct Profile {
    pub name: String,
    pub emit_debug_info: bool,
    pub trim_paths: bool,
}

/// The mathematical counterpart of [`Profile`].
#[verifier::ext_equal]
pub struct ProfileView {
    pub name: Seq<char>,
    pub settings: PackageBuildSettings,
}

impl View for Profile {
    type V = ProfileView;

    open spec fn view(&self) -> ProfileView {
        ProfileView {
            name: self.name@,
            settings: PackageBuildSettings {
                emit_debug_info: self.emit_debug_info,
                trim_paths: self.trim_paths,
            },
        }
    }
}

/// A dependency that a manifest declares.
#[derive(Debug)]
pub struct ProjectDependency {
    pub name: String,
    pub linkage: Linkage,
    /// The path of the member, for a dependency on a member of the workspace.
    pub workspace_path: Option<String>,
}

/// The mathematical counterpart of [`ProjectDependency`].
#[verifier::ext_equal]
pub struct ProjectDependencyView {
    pub name: Seq<char>,
    pub linkage: Linkage,
    pub workspace_path: Option<Seq<char>>,
}

impl View for ProjectDependency {
    type V = ProjectDependencyView;

    open spec fn view(&self) -> ProjectDependencyView {
        ProjectDependencyView {
            name: self.name@,
            linkage: self.linkage,
            workspace_path: package::optional_text(self.workspace_path),
        }
    }
}

/// A project.
#[derive(Debug)]
pub struct ProjectPackage {
    pub name: String,
    pub version: SemVer,
    pub description: Option<String>,
    /// The file that the project was loaded from, if it was loaded from one.
    pub manifest_path: Option<FilePath>,
    pub library: Option<Arc<Target>>,
    pub executables: Vec<Arc<Target>>,
    pub profiles: Vec<Profile>,
    pub dependencies: Vec<ProjectDependency>,
    /// The manifest written as TOML, with what it takes from the workspace, or why it cannot be.
    pub effective_manifest: Result<String, String>,
}

/// The mathematical counterpart of [`ProjectPackage`].
#[verifier::ext_equal]
pub struct ProjectView {
    pub name: Seq<char>,
    pub version: Seq<char>,
    pub description: Option<Seq<char>>,
    pub manifest_path: Option<PathView>,
    pub library: Option<TargetView>,
    pub executables: Seq<TargetView>,
    pub profiles: Seq<ProfileView>,
    pub dependencies: Seq<ProjectDependencyView>,
    pub effective_manifest: Result<Seq<char>, Seq<char>>,
}

/// The view of an optional target.
pub open spec fn optional_target(target: Option<Arc<Target>>) -> Option<TargetView> {
    match target {
        Some(target) => Some(target@),
        None => None,
    }
}

impl View for ProjectPackage {
    type V = ProjectView;

    open spec fn view(&self) -> ProjectView {
        ProjectView {
            name: self.name@,
            version: self.version@,
            description: package::optional_text(self.description),
            manifest_path: files::optional_path(self.manifest_path),
            library: optional_target(self.library),
            executables: sorting::views(self.executables@),
            profiles: sorting::views(self.profiles@),
            dependencies: sorting::views(self.dependencies@),
            effective_manifest: text_result(self.effective_manifest),
        }
    }
}

/// The first executable with this name.
pub open spec fn find_executable(executables: Seq<TargetView>, name: Seq<char>) -> Option<
    TargetView,
>
    decreases executables.len(),
{
    if executables.len() == 0 {
        None
    } else if executables[0].name == name {
        Some(executables[0])
    } else {
        find_executable(executables.drop_first(), name)
    }
}

/// The target that a selector selects, or the message that there is none.
pub open spec fn selected_target(
    project: ProjectView,
    selector: ProjectTargetSelector<'_>,
) -> Result<TargetView, Seq<char>> {
    match selector {
        ProjectTargetSelector::Library => match project.library {
            Some(target) => Ok(target),
            None => Err("project does not define a library target"@),
        },
        ProjectTargetSelector::Executable(name) => match find_executable(
            project.executables,
            name@,
        ) {
            Some(target) => Ok(target),
            None => Err(
                "project does not define an executable target named '"@ + name@ + "'"@,
            ),
        },
    }
}

/// The first profile with this name.
pub open spec fn find_profile(profiles: Seq<ProfileView>, name: Seq<char>) -> Option<ProfileView>
    decreases profiles.len(),
{
    if profiles.len() == 0 {
        None
    } else if profiles[0].name == name {
        Some(profiles[0])
    } else {
        find_profile(profiles.drop_first(), name)
    }
}

/// The settings of the profile with this name, or the message that there is none.
pub open spec fn profile_settings(project: ProjectView, name: Seq<char>) -> Result<
    PackageBuildSettings,
    Seq<char>,
> {
    match find_profile(project.profiles, name) {
        Some(profile) => Ok(profile.settings),
        None => Err(
            "project '"@ + project.name + "' does not define a '"@ + name + "' build profile"@,
        ),
    }
}

/// The name of the package that a target is assembled into. The library has the name of the
/// project.
pub open spec fn package_name(project: ProjectView, target: TargetView) -> Seq<char> {
    if target.ty is Executable {
        project.name + ":"@ + target.name
    } else {
        project.name
    }
}

/// The kind of the root module of a target.
pub open spec fn root_module_kind(ty: TargetType) -> ModuleKind {
    match ty {
        TargetType::Executable => ModuleKind::Executable,
        TargetType::Kernel => ModuleKind::Kernel,
        _ => ModuleKind::Library,
    }
}

/// The file that a project was loaded from, or the message that there is none.
pub open spec fn manifest_path(project: ProjectView) -> Result<PathView, Seq<char>> {
    match project.manifest_path {
        Some(path) => Ok(path),
        None => Err("project '"@ + project.name + "' is missing its manifest path"@),
    }
}

impl PackageBuildSettings {
    /// The settings of a profile.
    pub fn from_profile(profile: &Profile) -> (settings: PackageBuildSettings)
        ensures
            settings == profile@.settings,
            settings.emit_debug_info == profile.emit_debug_info,
            settings.trim_paths == profile.trim_paths,
    {
        PackageBuildSettings {
            emit_debug_info: profile.emit_debug_info,
            trim_paths: profile.trim_paths,
        }
    }
}

/// The target that `selector` selects.
pub fn select_target(project: &ProjectPackage, selector: ProjectTargetSelector<'_>) -> (target:
    Result<Arc<Target>, String>)
    ensures
        match (target, selected_target(project@, selector)) {
            (Ok(target), Ok(expected)) => target@ == expected,
            (Err(error), Err(message)) => error@ == message,
            _ => false,
        },
{
    match selector {
        ProjectTargetSelector::Library => match &project.library {
            Some(target) => Ok(text::share(target)),
            None => Err("project does not define a library target".to_string()),
        },
        ProjectTargetSelector::Executable(name) => {
            let mut i: usize = 0;
            let ghost all = project@.executables;
            assert(all.skip(0) =~= all);
            while i < project.executables.len()
                invariant
                    i <= project.executables@.len(),
                    all == project@.executables,
                    find_executable(all, name@) == find_executable(all.skip(i as int), name@),
                    selected_target(project@, selector) == match find_executable(all, name@) {
                        Some(target) => Ok::<TargetView, Seq<char>>(target),
                        None => Err(
                            "project does not define an executable target named '"@ + name@ + "'"@,
                        ),
                    },
                decreases project.executables.len() - i,
            {
                let target = &project.executables[i];
                assert(all.skip(i as int)[0] == target@);
                assert(all.skip(i as int).drop_first() =~= all.skip(i + 1));
                if text::same_text(target.name.as_str(), name) {
                    return Ok(text::share(target));
                }
                i += 1;
            }
            let mut message = "project does not define an executable target named '".to_string();
            message.append(name);
            message.append("'");
            Err(message)
        },
    }
}

/// The profile with this name.
pub fn resolve_profile<'a>(project: &'a ProjectPackage, name: &str) -> (profile: Result<
    &'a Profile,
    String,
>)
    ensures
        match (profile, profile_settings(project@, name@)) {
            (Ok(profile), Ok(settings)) => find_profile(project@.profiles, name@) == Some(profile@)
                && profile@.settings == settings,
            (Err(error), Err(message)) => error@ == message,
            _ => false,
        },
{
    let mut i: usize = 0;
    let ghost all = project@.profiles;
    assert(all.skip(0) =~= all);
    while i < project.profiles.len()
        invariant
            i <= project.profiles@.len(),
            all == project@.profiles,
            find_profile(all, name@) == find_profile(all.skip(i as int), name@),
        decreases project.profiles.len() - i,
    {
        let profile = &project.profiles[i];
        assert(all.skip(i as int)[0] == profile@);
        assert(all.skip(i as int).drop_first() =~= all.skip(i + 1));
        if text::same_text(profile.name.as_str(), name) {
            return Ok(profile);
        }
        i += 1;
    }
    let mut message = "project '".to_string();
    message.append(project.name.as_str());
    message.append("' does not define a '");
    message.append(name);
    message.append("' build profile");
    Err(message)
}

/// The name of the package that `target` is assembled into.
pub fn target_package_name(project: &ProjectPackage, target: &Target) -> (name: String)
    ensures
        name@ == package_name(project@, target@),
{
    let mut name = project.name.clone();
    if target.ty.is_executable() {
        name.append(":");
        name.append(target.name.as_str());
    }
    name
}

/// The kind of the root module of a target of type `ty`.
pub fn target_root_module_kind(ty: TargetType) -> (kind: ModuleKind)
    ensures
        kind == root_module_kind(ty),
{
    match ty {
        TargetType::Executable => ModuleKind::Executable,
        TargetType::Kernel => ModuleKind::Kernel,
        _ => ModuleKind::Library,
    }
}

/// The file that `project` was loaded from.
pub fn project_manifest_path(project: &ProjectPackage) -> (path: Result<&FilePath, String>)
    ensures
        match (path, manifest_path(project@)) {
            (Ok(path), Ok(expected)) => path@ == expected,
            (Err(error), Err(message)) => error@ == message,
            _ => false,
        },
{
    match &project.manifest_path {
        Some(path) => Ok(path),
        None => {
            let mut message = "project '".to_string();
            message.append(project.name.as_str());
            message.append("' is missing its manifest path");
            Err(message)
        },
    }
}

/// A dependency on a member of the workspace.
#[derive(Debug)]
pub struct WorkspaceDependency {
    pub name: String,
    pub path: String,
    pub linkage: Linkage,
}

/// The mathematical counterpart of [`WorkspaceDependency`].
#[verifier::ext_equal]
pub struct WorkspaceDependencyView {
    pub name: Seq<char>,
    pub path: Seq<char>,
    pub linkage: Linkage,
}

impl View for WorkspaceDependency {
    type V = WorkspaceDependencyView;

    open spec fn view(&self) -> WorkspaceDependencyView {
        WorkspaceDependencyView { name: self.name@, path: self.path@, linkage: self.linkage }
    }
}

impl Sortable for WorkspaceDependency {
    open spec fn before(a: WorkspaceDependencyView, b: WorkspaceDependencyView) -> bool {
        text::text_lt(a.name, b.name)
    }

    fn comes_before(&self, other: &WorkspaceDependency) -> (before: bool) {
        text::text_less(self.name.as_str(), other.name.as_str())
    }
}

/// The dependencies on members of the workspace, in the order of the manifest.
pub open spec fn workspace_dependencies(dependencies: Seq<ProjectDependencyView>) -> Seq<
    WorkspaceDependencyView,
>
    decreases dependencies.len(),
{
    if dependencies.len() == 0 {
        Seq::empty()
    } else {
        let rest = workspace_dependencies(dependencies.drop_last());
        let last = dependencies.last();
        match last.workspace_path {
            Some(path) => rest.push(
                WorkspaceDependencyView { name: last.name, path, linkage: last.linkage },
            ),
            None => rest,
        }
    }
}

/// One line for each of the dependencies: `name=path:linkage`.
pub open spec fn workspace_lines(list: Seq<WorkspaceDependencyView>) -> Seq<char>
    decreases list.len(),
{
    if list.len() == 0 {
        Seq::empty()
    } else {
        workspace_lines(list.drop_last()) + list.last().name + "="@ + list.last().path + ":"@
            + list.last().linkage.name() + "\n"@
    }
}

/// What stands for the manifest of a member of a workspace in the digest of its sources: the
/// effective manifest, and the members of the workspace that it depends on, by name.
pub open spec fn effective_manifest_input(project: ProjectView) -> Result<Seq<char>, Seq<char>> {
    match project.effective_manifest {
        Err(error) => Err(error),
        Ok(manifest) => {
            let members = sorting::sorted::<WorkspaceDependency>(
                workspace_dependencies(project.dependencies),
            );
            if members.len() == 0 {
                Ok(manifest)
            } else {
                Ok(
                    manifest + "\n# resolved_workspace_dependencies\n"@ + workspace_lines(members),
                )
            }
        },
    }
}

/// The dependencies of `project` on members of the workspace, in the order of the manifest.
fn collect_workspace_dependencies(project: &ProjectPackage) -> (list: Vec<WorkspaceDependency>)
    ensures
        sorting::views(list@) == workspace_dependencies(project@.dependencies),
{
    let ghost all = project@.dependencies;
    let mut list: Vec<WorkspaceDependency> = Vec::new();
    let mut i: usize = 0;
    assert(sorting::views(list@) =~= workspace_dependencies(all.take(0)));
    while i < project.dependencies.len()
        invariant
            i <= project.dependencies@.len(),
            all == project@.dependencies,
            sorting::views(list@) == workspace_dependencies(all.take(i as int)),
        decreases project.dependencies.len() - i,
    {
        let dependency = &project.dependencies[i];
        assert(all.take(i + 1).drop_last() =~= all.take(i as int));
        assert(all.take(i + 1).last() == dependency@);
        let ghost before = list@;
        match &dependency.workspace_path {
            Some(path) => {
                let member = WorkspaceDependency {
                    name: dependency.name.clone(),
                    path: path.clone(),
                    linkage: dependency.linkage,
                };
                list.push(member);
                assert(sorting::views(list@) =~= sorting::views(before).push(member@));
            },
            None => {},
        }
        i += 1;
    }
    assert(all.take(i as int) =~= all);
    list
}

/// What stands for the manifest of a member of a workspace in the digest of its sources.
pub fn effective_manifest_hash_input(project: &ProjectPackage) -> (input: Result<String, String>)
    ensures
        match (input, effective_manifest_input(project@)) {
            (Ok(input), Ok(expected)) => input@ == expected,
            (Err(error), Err(message)) => error@ == message,
            _ => false,
        },
{
    let mut manifest = match &project.effective_manifest {
        Ok(manifest) => manifest.clone(),
        Err(error) => return Err(error.clone()),
    };
    let mut members = collect_workspace_dependencies(project);
    sorting::sort(&mut members);
    if members.len() > 0 {
        manifest.append("\n# resolved_workspace_dependencies\n");
        let ghost head = manifest@;
        let ghost all = sorting::views(members@);
        let mut i: usize = 0;
        assert(manifest@ =~= head + workspace_lines(all.take(0)));
        while i < members.len()
            invariant
                i <= members@.len(),
                all == sorting::views(members@),
                manifest@ == head + workspace_lines(all.take(i as int)),
            decreases members.len() - i,
        {
            let member = &members[i];
            assert(all.take(i + 1).drop_last() =~= all.take(i as int));
            assert(all.take(i + 1).last() == member@);
            manifest.append(member.name.as_str());
            manifest.append("=");
            manifest.append(member.path.as_str());
            manifest.append(":");
            manifest.append(member.linkage.as_str());
            manifest.append("\n");
            assert(manifest@ =~= head + workspace_lines(all.take(i + 1)));
            i += 1;
        }
        assert(all.take(i as int) =~= all);
    }
    Ok(manifest)
}

} // verus!
