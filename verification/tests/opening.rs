use session_import::keys::{command_for, Command, Key};
use session_import::project::{
    canonical, opening, same_located_project, same_path, same_project, toplevel, Located,
    LocatedProject, Opening, PathParts, Project,
};

fn path(text: &str) -> PathParts {
    PathParts {
        components: text.split('/').map(|part| part.as_bytes().to_vec()).collect(),
    }
}

fn project(id: &str, directories: &[&str]) -> Option<Project> {
    Some(Project {
        id: id.to_string(),
        directories: directories.iter().map(|text| path(text)).collect(),
    })
}

fn located(text: &str, resolved: Option<&str>) -> Located {
    Located {
        resolved: resolved.map(path),
        path: path(text),
    }
}

fn located_project(id: &str, directories: Vec<Located>) -> Option<LocatedProject> {
    Some(LocatedProject {
        id: id.to_string(),
        directories,
    })
}

#[test]
fn toplevel_is_what_git_printed() {
    assert_eq!(
        toplevel(Some((true, b"/home/me/repo\n".to_vec()))),
        Some("/home/me/repo".to_string())
    );
    assert_eq!(toplevel(Some((false, b"/home/me/repo\n".to_vec()))), None);
    assert_eq!(toplevel(None), None);
}

#[test]
fn toplevel_reads_utf8() {
    assert_eq!(
        toplevel(Some((true, vec![32, 47, 0xC3, 0xA9, 47, 0xE2, 0x82, 0xAC, 10]))),
        Some("/\u{E9}/\u{20AC}".to_string())
    );
    assert_eq!(
        toplevel(Some((true, vec![47, 0xFF, 10]))),
        Some("/\u{FFFD}".to_string())
    );
    assert_eq!(toplevel(Some((true, Vec::new()))), Some(String::new()));
}

#[test]
fn resolved_path_stands_for_a_path() {
    assert!(same_path(&canonical(Some(path("a/b")), path("c")), &path("a/b")));
    assert!(same_path(&canonical(None, path("c")), &path("c")));
}

#[test]
fn standing_path_stands_for_itself() {
    let resolve = |given: &PathParts| {
        if same_path(given, &path("link")) || same_path(given, &path("a/b")) {
            Some(path("a/b"))
        } else {
            None
        }
    };
    for name in ["link", "a/b", "missing"] {
        let standing = canonical(resolve(&path(name)), path(name));
        let resolved = resolve(&standing);
        let copy = PathParts {
            components: standing.components.clone(),
        };
        assert!(same_path(&canonical(resolved, copy), &standing));
    }
}

#[test]
fn paths_are_compared_by_component() {
    assert!(same_path(&path("a/b"), &path("a/b")));
    assert!(!same_path(&path("a/b"), &path("a/c")));
    assert!(!same_path(&path("a/b"), &path("a")));
    assert!(!same_path(&path("a/b"), &path("ab")));
}

#[test]
fn session_of_the_repository() {
    let known = project("p", &["x", "r/w"]);
    assert!(same_project(&Some(path("r/w")), &known));
    assert!(!same_project(&Some(path("r")), &known));
    assert!(!same_project(&Some(path("r")), &project("global", &[])));
    assert!(!same_project(&Some(path("r")), &None));
}

#[test]
fn session_outside_of_repositories() {
    assert!(same_project(&None, &project("global", &["x"])));
    assert!(!same_project(&None, &project("p", &["x"])));
    assert!(!same_project(&None, &None));
}

#[test]
fn directories_are_compared_as_resolved() {
    let known = || {
        located_project(
            "p",
            vec![located("gone", None), located("link", Some("r/w"))],
        )
    };
    assert!(same_located_project(Some(located("other", Some("r/w"))), known()));
    assert!(same_located_project(Some(located("r/w", None)), known()));
    assert!(same_located_project(Some(located("gone", None)), known()));
    assert!(!same_located_project(Some(located("link", None)), known()));
    assert!(!same_located_project(Some(located("gone", Some("back"))), known()));
    assert!(!same_located_project(Some(located("link", Some("r"))), known()));
    assert!(!same_located_project(Some(located("r/w", None)), None));
    assert!(!same_located_project(
        Some(located("r/w", None)),
        located_project("global", Vec::new())
    ));
}

#[test]
fn nothing_is_resolved_outside_of_repositories() {
    let directories = || vec![located("link", Some("r/w"))];
    assert!(same_located_project(None, located_project("global", directories())));
    assert!(!same_located_project(None, located_project("p", directories())));
    assert!(!same_located_project(None, None));
}

#[test]
fn session_is_resumed_in_its_project_only() {
    assert_eq!(opening(false, true), Opening::Resume);
    assert_eq!(opening(false, false), Opening::Copy);
    assert_eq!(opening(true, true), Opening::Copy);
    assert_eq!(opening(true, false), Opening::Copy);
}

#[test]
fn keys_and_commands() {
    let cases = [
        (Key::Escape, false, Command::Quit),
        (Key::Char('c'), true, Command::Quit),
        (Key::Char('a'), true, Command::CursorToStart),
        (Key::Char('e'), true, Command::CursorToEnd),
        (Key::Char('x'), true, Command::Type('x')),
        (Key::Char('c'), false, Command::Type('c')),
        (Key::Enter, false, Command::Confirm),
        (Key::Backspace, false, Command::Backspace),
        (Key::Left, false, Command::CursorLeft),
        (Key::Right, false, Command::CursorRight),
        (Key::Up, false, Command::SelectUp),
        (Key::Down, false, Command::SelectDown),
        (Key::Function(2), false, Command::ToggleSort),
        (Key::Function(3), false, Command::Nothing),
        (Key::Other, false, Command::Nothing),
    ];
    for (key, control, command) in cases {
        assert_eq!(command_for(true, key, control), command);
        assert_eq!(command_for(false, key, control), Command::Nothing);
    }
}
