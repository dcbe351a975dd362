//! What holds of projects and paths.
use vstd::prelude::*;
#[allow(unused_imports)]
use crate::project::{
    in_project, is_directory, standing_path, stands_among, stands_for, Located, LocatedProject,
    PathParts, Project,
};

verus! {

/// The components of the path that stands for a path: those that it resolves to, or else its
/// own.
pub open spec fn components(located: Located) -> Seq<Vec<u8>> {
    match located.resolved {
        Some(resolved) => resolved.components@,
        None => located.path.components@,
    }
}

/// Two paths have as many components, and the same bytes in each.
pub open spec fn same_components(a: Seq<Vec<u8>>, b: Seq<Vec<u8>>) -> bool {
    &&& a.len() == b.len()
    &&& forall|k: int| #![trigger a[k], b[k]] 0 <= k < a.len() ==> a[k]@ == b[k]@
}

/// Paths are equal exactly if they have as many components and the same bytes in each.
pub proof fn paths_are_equal_by_component(a: PathParts, b: PathParts)
    ensures
        a@ == b@ <==> same_components(a.components@, b.components@),
        a@.len() == a.components@.len(),
        forall|k: int| 0 <= k < a.components@.len() ==> #[trigger] a@[k] == a.components@[k]@,
{
    if a@ == b@ {
        assert forall|k: int| #![trigger a.components@[k], b.components@[k]]
            0 <= k < a.components@.len() implies a.components@[k]@ == b.components@[k]@ by {
            assert(a@[k] == b@[k]);
        }
    }
    if same_components(a.components@, b.components@) {
        assert forall|k: int| 0 <= k < a@.len() implies a@[k] == b@[k] by {
            assert(a.components@[k]@ == b.components@[k]@);
        }
        assert(a@ =~= b@);
    }
}

/// Two located paths stand for the same path exactly if the paths that they resolve to, or
/// else their own, are the same component by component.
pub proof fn located_paths_are_equal_by_component(a: Located, b: Located)
    ensures
        standing_path(a) == standing_path(b) <==> same_components(components(a), components(b)),
{
    let x = match a.resolved {
        Some(resolved) => resolved,
        None => a.path,
    };
    let y = match b.resolved {
        Some(resolved) => resolved,
        None => b.path,
    };
    paths_are_equal_by_component(x, y);
}

/// In a repository, a session belongs to the project there exactly if one of its project's
/// directories and the top directory are the same component by component.
pub proof fn same_project_in_a_repository(top: PathParts, project: Project, same: bool)
    requires
        same == in_project(Some(top), Some(project)),
    ensures
        same <==> exists|i: int|
            0 <= i < project.directories@.len() && same_components(
                (#[trigger] project.directories@[i]).components@,
                top.components@,
            ),
{
    if same {
        let i = choose|i: int|
            0 <= i < project.directories@.len() && (#[trigger] project.directories@[i])@ == top@;
        paths_are_equal_by_component(project.directories@[i], top);
    }
    if exists|i: int|
        0 <= i < project.directories@.len() && same_components(
            (#[trigger] project.directories@[i]).components@,
            top.components@,
        ) {
        let i = choose|i: int|
            0 <= i < project.directories@.len() && same_components(
                (#[trigger] project.directories@[i]).components@,
                top.components@,
            );
        paths_are_equal_by_component(project.directories@[i], top);
        assert(is_directory(project, top@));
    }
}

/// Outside of repositories, only the sessions of the project named `global` belong there. A
/// session whose project is not known belongs nowhere.
pub proof fn same_project_elsewhere(top: Option<PathParts>, project: Project)
    ensures
        in_project(None, Some(project)) <==> project.id@ == "global"@,
        !in_project(top, None),
{
}

/// In a repository, one of a project's directories is the top directory exactly if the two,
/// as resolved, are the same component by component.
pub proof fn same_located_project_in_a_repository(top: Located, project: LocatedProject, same: bool)
    requires
        same == stands_among(project.directories@, standing_path(top)),
    ensures
        same <==> exists|i: int|
            0 <= i < project.directories@.len() && same_components(
                components(#[trigger] project.directories@[i]),
                components(top),
            ),
{
    let directories = project.directories@;
    if same {
        let i = choose|i: int|
            0 <= i < directories.len() && standing_path(#[trigger] directories[i])
                == standing_path(top);
        located_paths_are_equal_by_component(directories[i], top);
    }
    if exists|i: int|
        0 <= i < directories.len() && same_components(
            components(#[trigger] directories[i]),
            components(top),
        ) {
        let i = choose|i: int|
            0 <= i < directories.len() && same_components(
                components(#[trigger] directories[i]),
                components(top),
            );
        located_paths_are_equal_by_component(directories[i], top);
        let _ = directories[i];
    }
}

/// A session does not belong to a repository whose top directory differs from each of its
/// project's directories, as resolved, in the number of components or in a component.
pub proof fn differing_paths_are_no_project(top: Located, project: LocatedProject, same: bool)
    requires
        same == stands_among(project.directories@, standing_path(top)),
        forall|i: int|
            #![trigger project.directories@[i]]
            0 <= i < project.directories@.len() ==> {
                ||| components(project.directories@[i]).len() != components(top).len()
                ||| exists|k: int|
                    0 <= k < components(top).len() && (#[trigger] components(
                        project.directories@[i],
                    )[k])@ != components(top)[k]@
            },
    ensures
        !same,
{
    same_located_project_in_a_repository(top, project, same);
    if same {
        let i = choose|i: int|
            0 <= i < project.directories@.len() && same_components(
                components(#[trigger] project.directories@[i]),
                components(top),
            );
        let a = components(project.directories@[i]);
        let b = components(top);
        let k = choose|k: int| 0 <= k < b.len() && (#[trigger] a[k])@ != b[k]@;
        assert(a[k]@ == b[k]@);
    }
}

/// Which names the paths go by does not matter, only what they resolve to.
pub proof fn names_do_not_matter(top: Located, other: Located, project: LocatedProject)
    requires
        same_components(components(top), components(other)),
    ensures
        stands_among(project.directories@, standing_path(top)) == stands_among(
            project.directories@,
            standing_path(other),
        ),
{
    located_paths_are_equal_by_component(top, other);
}

} // verus!
