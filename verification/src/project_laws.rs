//! What holds of the targets and profiles of every project.

use vstd::prelude::*;

use crate::package::TargetType;
use crate::project;
use crate::project::{ProfileView, ProjectTargetSelector, ProjectView, TargetView};

verus! {

/// The index of the first profile with a name, if there is one.
pub open spec fn first_profile(project: ProjectView, name: Seq<char>) -> Option<int> {
    if exists|i: int| is_first_profile(project.profiles, name, i) {
        Some(choose|i: int| is_first_profile(project.profiles, name, i))
    } else {
        None
    }
}

/// `i` is the index of the first profile with a name.
pub open spec fn is_first_profile(profiles: Seq<ProfileView>, name: Seq<char>, i: int) -> bool {
    &&& 0 <= i < profiles.len()
    &&& profiles[i].name == name
    &&& forall|j: int| 0 <= j < i ==> (#[trigger] profiles[j]).name != name
}

proof fn lemma_profile(profiles: Seq<ProfileView>, name: Seq<char>)
    ensures
        match project::find_profile(profiles, name) {
            Some(profile) => exists|i: int|
                is_first_profile(profiles, name, i) && profiles[i] == profile,
            None => forall|i: int| 0 <= i < profiles.len() ==> (#[trigger] profiles[i]).name != name,
        },
    decreases profiles.len(),
{
    if profiles.len() > 0 {
        if profiles[0].name == name {
            assert(is_first_profile(profiles, name, 0));
        } else {
            let rest = profiles.drop_first();
            lemma_profile(rest, name);
            match project::find_profile(rest, name) {
                Some(profile) => {
                    let i = choose|i: int|
                        is_first_profile(rest, name, i) && rest[i] == profile;
                    assert forall|j: int| 0 <= j < i + 1 implies (#[trigger] profiles[j]).name
                        != name by {
                        if j > 0 {
                            assert(rest[j - 1] == profiles[j]);
                        }
                    }
                    assert(is_first_profile(profiles, name, i + 1));
                },
                None => {
                    assert forall|i: int| 0 <= i < profiles.len() implies (
                    #[trigger] profiles[i]).name != name by {
                        if i > 0 {
                            assert(rest[i - 1] == profiles[i]);
                        }
                    }
                },
            }
        }
    }
}

/// The settings for a profile are those of the first profile of the project with its name. Without
/// such a profile there are none.
pub proof fn profile_is_the_first_of_its_name(project: ProjectView, name: Seq<char>)
    ensures
        match (project::profile_settings(project, name), first_profile(project, name)) {
            (Ok(settings), Some(i)) => is_first_profile(project.profiles, name, i) && settings
                == project.profiles[i].settings,
            (Err(_), None) => true,
            _ => false,
        },
{
    lemma_profile(project.profiles, name);
    if let Some(profile) = project::find_profile(project.profiles, name) {
        let k = choose|i: int|
            is_first_profile(project.profiles, name, i) && project.profiles[i] == profile;
        let i = first_profile(project, name)->0;
        if i < k {
            assert(project.profiles[i].name != name);
        }
        if k < i {
            assert(project.profiles[k].name != name);
        }
    } else {
        if exists|i: int| is_first_profile(project.profiles, name, i) {
            let i = choose|i: int| is_first_profile(project.profiles, name, i);
            assert(project.profiles[i].name != name);
        }
    }
}

/// Where there is a profile with a name, there is a first one.
pub proof fn lemma_first_profile(profiles: Seq<ProfileView>, name: Seq<char>)
    requires
        exists|i: int| 0 <= i < profiles.len() && (#[trigger] profiles[i]).name == name,
    ensures
        exists|i: int| is_first_profile(profiles, name, i),
{
    lemma_profile(profiles, name);
}

/// `i` is the index of the first executable with a name.
pub open spec fn is_first_executable(targets: Seq<TargetView>, name: Seq<char>, i: int) -> bool {
    &&& 0 <= i < targets.len()
    &&& targets[i].name == name
    &&& forall|j: int| 0 <= j < i ==> (#[trigger] targets[j]).name != name
}

proof fn lemma_executable(targets: Seq<TargetView>, name: Seq<char>)
    ensures
        match project::find_executable(targets, name) {
            Some(target) => exists|i: int|
                is_first_executable(targets, name, i) && targets[i] == target,
            None => forall|i: int| 0 <= i < targets.len() ==> (#[trigger] targets[i]).name != name,
        },
    decreases targets.len(),
{
    if targets.len() > 0 {
        if targets[0].name == name {
            assert(is_first_executable(targets, name, 0));
        } else {
            let rest = targets.drop_first();
            lemma_executable(rest, name);
            match project::find_executable(rest, name) {
                Some(target) => {
                    let i = choose|i: int|
                        is_first_executable(rest, name, i) && rest[i] == target;
                    assert forall|j: int| 0 <= j < i + 1 implies (#[trigger] targets[j]).name
                        != name by {
                        if j > 0 {
                            assert(rest[j - 1] == targets[j]);
                        }
                    }
                    assert(is_first_executable(targets, name, i + 1));
                },
                None => {
                    assert forall|i: int| 0 <= i < targets.len() implies (
                    #[trigger] targets[i]).name != name by {
                        if i > 0 {
                            assert(rest[i - 1] == targets[i]);
                        }
                    }
                },
            }
        }
    }
}

/// The library of a project is selected if it has one.
pub proof fn library_is_selected(project: ProjectView)
    ensures
        match project::selected_target(project, ProjectTargetSelector::Library) {
            Ok(target) => project.library == Some(target),
            Err(_) => project.library is None,
        },
{
}

/// An executable is selected by its name: the first one that has it.
pub proof fn executable_is_selected_by_its_name(project: ProjectView, name: &str)
    ensures
        match project::selected_target(project, ProjectTargetSelector::Executable(name)) {
            Ok(target) => exists|i: int|
                is_first_executable(project.executables, name@, i) && project.executables[i]
                    == target,
            Err(_) => forall|i: int|
                0 <= i < project.executables.len() ==> (#[trigger] project.executables[i]).name
                    != name@,
        },
{
    lemma_executable(project.executables, name@);
}

/// Different executables of a project are assembled into packages of different names, and none of
/// them has the name of the project, which is that of the package of everything else.
pub proof fn packages_of_a_project_are_told_apart(
    project: ProjectView,
    a: TargetView,
    b: TargetView,
)
    ensures
        !(a.ty is Executable) ==> project::package_name(project, a) == project.name,
        a.ty is Executable ==> project::package_name(project, a).len() == project.name.len() + 1
            + a.name.len() && project.name.is_prefix_of(project::package_name(project, a)),
        a.ty is Executable && b.ty is Executable ==> (project::package_name(project, a)
            == project::package_name(project, b) <==> a.name == b.name),
        a.ty is Executable && !(b.ty is Executable) ==> project::package_name(project, a)
            != project::package_name(project, b),
{
    reveal_strlit(":");
    let (x, y) = (project::package_name(project, a), project::package_name(project, b));
    if a.ty is Executable {
        assert(project.name =~= x.take(project.name.len() as int));
    }
    if a.ty is Executable && b.ty is Executable && x == y {
        let n = project.name.len() as int + 1;
        assert(a.name =~= x.skip(n));
        assert(b.name =~= y.skip(n));
    }
}

/// The root module of an executable is an executable module, that of a kernel a kernel module, and
/// that of any other target a library module.
pub proof fn root_module_is_of_the_kind_of_the_target(ty: TargetType)
    ensures
        project::root_module_kind(ty) is Executable <==> ty is Executable,
        project::root_module_kind(ty) is Kernel <==> ty is Kernel,
        project::root_module_kind(ty) is Library <==> !(ty is Executable) && !(ty is Kernel),
{
}

} // verus!
