use session_import::id::IdState;
use session_import::import::{
    prepare_import, start, step, ImportAction, ImportEvent, ImportState, RunResult,
};

const EXPORT: &[u8] = br#"{"info":{"id":"ses_old","title":"t"},"messages":[{"info":{"id":"msg_a"},"parts":[{"id":"prt_a"}]}]}"#;

fn ended(success: bool, stdout: &[u8], stderr: &[u8]) -> RunResult {
    RunResult::Ended {
        success,
        stdout: stdout.to_vec(),
        stderr: stderr.to_vec(),
    }
}

fn failure(next: (ImportState, ImportAction)) -> String {
    assert!(matches!(next.0, ImportState::Finished));
    match next.1 {
        ImportAction::Finish { outcome: Err(message) } => message,
        other => panic!("{other:?}"),
    }
}

fn after_export(run: RunResult) -> (ImportState, ImportAction) {
    let (state, action) = start("ses_old");
    assert!(matches!(&action, ImportAction::Export { session } if session == "ses_old"));
    step(state, ImportEvent::Exported { run }, &mut IdState::new())
}

#[test]
fn whole_import() {
    let mut ids = IdState::new();
    let (state, _) = start("ses_old");
    let run = ended(true, EXPORT, b"");
    let (state, action) = step(state, ImportEvent::Exported { run }, &mut ids);
    let (file, contents) = match action {
        ImportAction::Write { file, contents } => (file, contents),
        other => panic!("{other:?}"),
    };
    let copy: serde_json::Value = serde_json::from_slice(&contents).expect("JSON");
    let id = copy["info"]["id"].as_str().unwrap().to_string();
    assert!(id.starts_with("ses_") && id != "ses_old");
    assert_eq!(file, format!("opencode-import-{id}.json"));
    assert_eq!(copy["info"]["title"], "t (imported)");
    assert_eq!(copy["messages"][0]["info"]["sessionID"], id.as_str());
    assert!(copy["info"]["time"]["created"].is_u64());
    assert_eq!(
        copy["messages"][0]["parts"][0]["messageID"],
        copy["messages"][0]["info"]["id"]
    );
    let (state, action) = step(state, ImportEvent::Written, &mut ids);
    assert!(matches!(action, ImportAction::Import));
    let run = ended(true, b"", b"");
    let (state, action) = step(state, ImportEvent::Imported { run }, &mut ids);
    assert!(matches!(action, ImportAction::Remove));
    let (state, action) = step(state, ImportEvent::Removed, &mut ids);
    assert!(matches!(state, ImportState::Finished));
    assert!(matches!(action, ImportAction::Finish { outcome: Ok(done) } if done == id));
}

#[test]
fn each_state_comes_with_its_action() {
    let mut ids = IdState::new();
    let next = start("ses_old");
    assert!(matches!(next, (ImportState::Exporting { .. }, ImportAction::Export { .. })));
    let run = ended(true, EXPORT, b"");
    let next = step(next.0, ImportEvent::Exported { run }, &mut ids);
    assert!(matches!(next, (ImportState::Writing { .. }, ImportAction::Write { .. })));
    let next = step(next.0, ImportEvent::Written, &mut ids);
    assert!(matches!(next, (ImportState::Importing { .. }, ImportAction::Import)));
    let run = ended(false, b"", b"");
    let next = step(next.0, ImportEvent::Imported { run }, &mut ids);
    assert!(matches!(next, (ImportState::Removing { .. }, ImportAction::Remove)));
    let next = step(next.0, ImportEvent::Removed, &mut ids);
    assert!(matches!(next, (ImportState::Finished, ImportAction::Finish { .. })));
}

#[test]
fn export_that_does_not_run() {
    let run = RunResult::NotRun {
        error: "not found".to_string(),
    };
    assert_eq!(
        failure(after_export(run)),
        "failed to run `opencode export`: not found"
    );
}

#[test]
fn export_that_fails() {
    assert_eq!(
        failure(after_export(ended(false, b"", b"\n no session \xff\n"))),
        "`opencode export ses_old` failed: no session \u{fffd}"
    );
}

#[test]
fn complaint_is_read_as_utf8() {
    assert_eq!(
        failure(after_export(ended(false, b"", b" \xE2\x82\xAC 5 \n"))),
        "`opencode export ses_old` failed: \u{20AC} 5"
    );
    assert_eq!(
        failure(after_export(ended(false, b"", b"\xFF\n"))),
        "`opencode export ses_old` failed: \u{FFFD}"
    );
}

#[test]
fn export_that_is_no_json() {
    assert_eq!(
        failure(after_export(ended(true, b"x", b""))),
        "could not parse `opencode export` output: expected value at line 1 column 1"
    );
}

#[test]
fn export_that_lacks_something() {
    assert_eq!(
        failure(after_export(ended(true, b"{\"info\":{}}", b""))),
        "export JSON has no messages"
    );
}

#[test]
fn file_that_cannot_be_written() {
    let state = ImportState::Writing {
        copy: "ses_new".to_string(),
    };
    let event = ImportEvent::NotWritten {
        path: "/tmp/f".to_string(),
        error: "full".to_string(),
    };
    assert_eq!(
        failure(step(state, event, &mut IdState::new())),
        "could not write /tmp/f: full"
    );
}

#[test]
fn failed_import_still_removes_the_file() {
    let cases = [
        (
            RunResult::NotRun {
                error: "gone".to_string(),
            },
            "failed to run `opencode import`: gone",
        ),
        (
            ended(false, b"", b" bad file \n"),
            "`opencode import` failed: bad file",
        ),
    ];
    for (run, message) in cases {
        let mut ids = IdState::new();
        let state = ImportState::Importing {
            copy: "ses_new".to_string(),
        };
        let (state, action) = step(state, ImportEvent::Imported { run }, &mut ids);
        assert!(matches!(action, ImportAction::Remove));
        assert_eq!(failure(step(state, ImportEvent::Removed, &mut ids)), message);
        assert_eq!(ids, IdState::new());
    }
}

#[test]
fn prepared_import_draws_an_id_for_everything() {
    let mut ids = IdState { ms: 0, counter: 0 };
    let import = prepare_import(EXPORT, &mut ids).expect("import");
    assert!(import.session.starts_with("ses_"));
    assert_eq!(import.file, format!("opencode-import-{}.json", import.session));
    assert!(ids.ms > 0 && ids.counter >= 1);
    let before = ids;
    assert!(prepare_import(b"", &mut ids).is_err());
    assert_eq!(ids, before);
}
