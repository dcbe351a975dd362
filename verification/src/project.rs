//! Whether a session belongs to the project of the current directory.
use crate::text::trimmed_text;
use vstd::prelude::*;
#[allow(unused_imports)]
use crate::text::{text_of, trimmed};

verus! {

/// A path, as the bytes of its components.
#[derive(Debug)]
pub struct PathParts {
    pub components: Vec<Vec<u8>>,
}

/// A project: its name, and the directories that it is known to be checked out in.
#[derive(Debug)]
pub struct Project {
    pub id: String,
    pub directories: Vec<PathParts>,
}

impl View for PathParts {
    type V = Seq<Seq<u8>>;

    open spec fn view(&self) -> Seq<Seq<u8>> {
        Seq::new(self.components@.len(), |i: int| self.components@[i]@)
    }
}

/// What `git rev-parse --show-toplevel` printed, if it could be run and succeeded: the top
/// directory of the repository.
pub fn toplevel(ran: Option<(bool, Vec<u8>)>) -> (path: Option<String>)
    ensures
        match ran {
            Some((true, stdout)) => path is Some && path->0@ == trimmed(text_of(stdout@)),
            _ => path is None,
        },
        ran matches Some((true, stdout)) ==> vstd::utf8::valid_utf8(stdout@) ==> path->0@
            == trimmed(vstd::utf8::decode_utf8(stdout@)),
{
    match ran {
        Some((success, stdout)) => if success {
            Some(trimmed_text(stdout.as_slice()))
        } else {
            None
        },
        None => None,
    }
}

/// The path that stands for a path: what the file system resolves it to, or else itself.
pub open spec fn stands_for(
    resolved: Option<Seq<Seq<u8>>>,
    path: Seq<Seq<u8>>,
) -> Seq<Seq<u8>> {
    match resolved {
        Some(resolved) => resolved,
        None => path,
    }
}

/// What a path may have resolved to.
pub open spec fn resolved_view(resolved: Option<PathParts>) -> Option<Seq<Seq<u8>>> {
    match resolved {
        Some(resolved) => Some(resolved@),
        None => None,
    }
}

/// A path that does not resolve, or resolves to itself, stands for itself.
pub proof fn unresolved_path_stands_for_itself(
    resolved: Option<Seq<Seq<u8>>>,
    path: Seq<Seq<u8>>,
)
    ensures
        stands_for(resolved, path) == path <==> resolved is None || resolved == Some(path),
{
}

/// In a file system that resolves what `path` resolves to, if anything, to itself, the path
/// that stands for `path` stands for itself.
pub proof fn standing_path_stands_for_itself(
    resolve: spec_fn(Seq<Seq<u8>>) -> Option<Seq<Seq<u8>>>,
    path: Seq<Seq<u8>>,
)
    requires
        resolve(path) matches Some(resolved) ==> resolve(resolved) == Some(resolved),
    ensures
        ({
            let standing = stands_for(resolve(path), path);
            stands_for(resolve(standing), standing) == standing
        }),
{
}

/// The path that stands for `path`: what the file system resolves it to, or else itself.
pub fn canonical(resolved: Option<PathParts>, path: PathParts) -> (standing: PathParts)
    ensures
        standing == match resolved {
            Some(resolved) => resolved,
            None => path,
        },
        standing@ == stands_for(resolved_view(resolved), path@),
{
    match resolved {
        Some(resolved) => resolved,
        None => path,
    }
}

fn same_bytes(a: &Vec<u8>, b: &Vec<u8>) -> (same: bool)
    ensures
        same == (a@ == b@),
{
    if a.len() != b.len() {
        return false;
    }
    let mut i: usize = 0;
    while i < a.len()
        invariant
            i <= a@.len(),
            a@.len() == b@.len(),
            forall|k: int| 0 <= k < i ==> #[trigger] a@[k] == b@[k],
        decreases a@.len() - i,
    {
        if a[i] != b[i] {
            return false;
        }
        i += 1;
    }
    assert(a@ =~= b@);
    true
}

/// Whether two paths have the same components.
pub fn same_path(a: &PathParts, b: &PathParts) -> (same: bool)
    ensures
        same ==> a.components@.len() == b.components@.len() && forall|k: int|
            0 <= k < a.components@.len() ==> (#[trigger] a.components@[k])@ == b.components@[k]@,
        same == (a@ == b@),
{
    if a.components.len() != b.components.len() {
        assert(a@.len() != b@.len());
        return false;
    }
    let mut i: usize = 0;
    while i < a.components.len()
        invariant
            i <= a.components@.len(),
            a.components@.len() == b.components@.len(),
            forall|k: int| 0 <= k < i ==> #[trigger] a@[k] == b@[k],
        decreases a.components@.len() - i,
    {
        if !same_bytes(&a.components[i], &b.components[i]) {
            assert(a@[i as int] != b@[i as int]);
            return false;
        }
        i += 1;
    }
    assert forall|k: int| 0 <= k < a.components@.len() implies (#[trigger] a.components@[k])@
        == b.components@[k]@ by {
        assert(a@[k] == b@[k]);
    }
    assert(a@ =~= b@);
    true
}

/// `path` is one of the project's directories.
pub open spec fn is_directory(project: Project, path: Seq<Seq<u8>>) -> bool {
    exists|i: int|
        0 <= i < project.directories@.len() && (#[trigger] project.directories@[i])@ == path
}

/// A session's project is that of the current directory: `toplevel`, the top directory of
/// the repository there, is one of the project's directories; or there is no repository and
/// the project is the one for everything outside of repositories.
pub open spec fn in_project(toplevel: Option<PathParts>, project: Option<Project>) -> bool {
    match (project, toplevel) {
        (None, _) => false,
        (Some(project), Some(top)) => is_directory(project, top@),
        (Some(project), None) => project.id@ == "global"@,
    }
}

/// Whether a session belongs to the project of the current directory, from the top directory
/// of the repository there, if any, and the session's project, if known.
pub fn same_project(toplevel: &Option<PathParts>, project: &Option<Project>) -> (same: bool)
    ensures
        same == in_project(*toplevel, *project),
{
    match project {
        None => false,
        Some(known) => match toplevel {
            Some(top) => {
                let mut i: usize = 0;
                while i < known.directories.len()
                    invariant
                        *project == Some(*known),
                        *toplevel == Some(*top),
                        i <= known.directories@.len(),
                        forall|k: int| 0 <= k < i ==> (#[trigger] known.directories@[k])@ != top@,
                    decreases known.directories@.len() - i,
                {
                    if same_path(&known.directories[i], top) {
                        assert(is_directory(*known, top@));
                        return true;
                    }
                    i += 1;
                }
                false
            },
            None => known.id == "global".to_string(),
        },
    }
}

/// A path, and what the file system resolves it to, if it does.
#[derive(Debug)]
pub struct Located {
    pub resolved: Option<PathParts>,
    pub path: PathParts,
}

/// A project: its name, and the directories that it is known to be checked out in, with what
/// the file system resolves them to.
#[derive(Debug)]
pub struct LocatedProject {
    pub id: String,
    pub directories: Vec<Located>,
}

/// The path that stands for a path.
pub open spec fn standing_path(located: Located) -> Seq<Seq<u8>> {
    stands_for(resolved_view(located.resolved), located.path@)
}

/// `path` stands for one of the directories.
pub open spec fn stands_among(directories: Seq<Located>, path: Seq<Seq<u8>>) -> bool {
    exists|i: int| 0 <= i < directories.len() && standing_path(#[trigger] directories[i]) == path
}

proof fn lemma_same_directories(project: Project, located: Seq<Located>, path: Seq<Seq<u8>>)
    requires
        project.directories@.len() == located.len(),
        forall|k: int|
            0 <= k < located.len() ==> (#[trigger] project.directories@[k])@ == standing_path(
                located[k],
            ),
    ensures
        is_directory(project, path) == stands_among(located, path),
{
    if stands_among(located, path) {
        let i = choose|i: int|
            0 <= i < located.len() && standing_path(#[trigger] located[i]) == path;
        assert(project.directories@[i]@ == path);
    }
}

/// Whether a session belongs to the project of the current directory, whatever names its
/// directories go by: the top directory of the repository there, if any, and one of the
/// directories of the session's project, if known, resolve to the same path; or there is no
/// repository and the project is the one for everything outside of repositories.
pub fn same_located_project(top: Option<Located>, project: Option<LocatedProject>) -> (same: bool)
    ensures
        same == match (project, top) {
            (None, _) => false,
            (Some(project), Some(top)) => stands_among(project.directories@, standing_path(top)),
            (Some(project), None) => project.id@ == "global"@,
        },
{
    let toplevel = match top {
        Some(top) => Some(canonical(top.resolved, top.path)),
        None => None,
    };
    match project {
        None => same_project(&toplevel, &None),
        Some(project) => {
            let ghost located = project.directories@;
            let mut directories: Vec<PathParts> = Vec::new();
            for directory in it: project.directories.into_iter()
                invariant
                    it.seq() == located,
                    directories@.len() == it.index(),
                    forall|k: int|
                        0 <= k < directories@.len() ==> (#[trigger] directories@[k])@
                            == standing_path(located[k]),
            {
                directories.push(canonical(directory.resolved, directory.path));
            }
            let known = Project { id: project.id, directories };
            proof {
                if toplevel is Some {
                    lemma_same_directories(known, located, toplevel->0@);
                }
            }
            same_project(&toplevel, &Some(known))
        },
    }
}

/// How a session is opened.
#[derive(Debug, Clone, Copy, PartialEq, Eq, Structural)]
pub enum Opening {
    /// In place.
    Resume,
    /// As a copy in the current directory.
    Copy,
}

/// How to open a session: in place if it belongs to the project of the current directory,
/// unless a copy is asked for.
pub fn opening(always_copy: bool, same_project: bool) -> (opening: Opening)
    ensures
        opening is Resume <==> !always_copy && same_project,
{
    if !always_copy && same_project {
        Opening::Resume
    } else {
        Opening::Copy
    }
}

} // verus!
