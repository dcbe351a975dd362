//! Copying a session by way of `opencode export` and `opencode import`.
//!
//! The steps are: export the session, write a rewritten export to a temporary file, import
//! the file, remove the file. [`start`] and [`step`] say what to do next; whoever runs the
//! programs and writes the file says how it went.
use crate::codec::{read_json, write_json};
use crate::id::IdState;
use crate::rewrite::rewrite_export;
use crate::text::trimmed_text;
use vstd::prelude::*;
#[allow(unused_imports)]
use crate::codec::{json_bytes, parsed};
#[allow(unused_imports)]
use crate::json::{text_member, JsonView};
#[allow(unused_imports)]
use crate::laws::copy_belongs_to_the_new_session;
#[allow(unused_imports)]
use crate::copy::{copied_export, failure, session_info};
#[allow(unused_imports)]
use crate::draw::{drawn, Draw};
#[allow(unused_imports)]
use crate::text::{text_of, trimmed};

verus! {

/// How running a program went.
#[derive(Debug)]
pub enum RunResult {
    /// It could not be run; the error's message.
    NotRun { error: String },
    /// It ended.
    Ended { success: bool, stdout: Vec<u8>, stderr: Vec<u8> },
}

/// What is to be done next.
#[derive(Debug)]
pub enum ImportAction {
    /// Run `opencode export` for the session.
    Export { session: String },
    /// Write the file into the directory for temporary files.
    Write { file: String, contents: Vec<u8> },
    /// Run `opencode import` on the file.
    Import,
    /// Remove the file. It does not matter whether that succeeds.
    Remove,
    /// Nothing: the copy has this identifier, or could not be made for this reason.
    Finish { outcome: Result<String, String> },
}

/// What was done.
#[derive(Debug)]
pub enum ImportEvent {
    Exported { run: RunResult },
    Written,
    /// The file could not be written: its path, and the error's message.
    NotWritten { path: String, error: String },
    Imported { run: RunResult },
    Removed,
}

/// How far the copying has come.
#[derive(Debug)]
pub enum ImportState {
    Exporting { session: String },
    /// The file is being written; the copy's identifier.
    Writing { copy: String },
    /// The file is being imported; the copy's identifier.
    Importing { copy: String },
    /// The file is being removed; how the copying went.
    Removing { outcome: Result<String, String> },
    Finished,
}

/// A rewritten export, ready to be written and imported.
#[derive(Debug)]
pub struct PreparedImport {
    pub session: String,
    pub file: String,
    pub contents: Vec<u8>,
}

/// What a program said of its failure, without white space around it.
pub open spec fn complaint(stderr: Seq<u8>) -> Seq<char> {
    trimmed(text_of(stderr))
}

/// Why an export failed, if it did.
pub open spec fn export_failure(session: Seq<char>, run: RunResult) -> Option<Seq<char>> {
    match run {
        RunResult::NotRun { error } => Some("failed to run `opencode export`: "@ + error@),
        RunResult::Ended { success, stdout, stderr } => if success {
            None
        } else {
            Some("`opencode export "@ + session + "` failed: "@ + complaint(stderr@))
        },
    }
}

/// Why an import failed, if it did.
pub open spec fn import_failure(run: RunResult) -> Option<Seq<char>> {
    match run {
        RunResult::NotRun { error } => Some("failed to run `opencode import`: "@ + error@),
        RunResult::Ended { success, stdout, stderr } => if success {
            None
        } else {
            Some("`opencode import` failed: "@ + complaint(stderr@))
        },
    }
}

/// The name of the temporary file.
pub open spec fn file_name(session: Seq<char>) -> Seq<char> {
    "opencode-import-"@ + session + ".json"@
}

/// `result` is what becomes of the exported bytes: a rewritten export, made with new
/// identifiers from the state `before` to the state `after`, or the reason why there is
/// none.
pub open spec fn prepared(
    stdout: Seq<u8>,
    before: IdState,
    after: IdState,
    result: Result<PreparedImport, String>,
) -> bool {
    match parsed(stdout) {
        Err(message) => {
            &&& result is Err
            &&& result->Err_0@ == "could not parse `opencode export` output: "@ + message
            &&& after == before
        },
        Ok(export) => exists|draw: Draw|
            {
                &&& #[trigger] drawn(export, draw, before, after)
                &&& prepared_with(export, draw, result)
            },
    }
}

/// `result` is what becomes of an export with the identifiers and the time of `draw`.
pub open spec fn prepared_with(
    export: JsonView,
    draw: Draw,
    result: Result<PreparedImport, String>,
) -> bool {
    match result {
        Ok(import) => {
            &&& failure(export) is None
            &&& import.session@ == draw.session
            &&& import.file@ == file_name(draw.session)
            &&& import.contents@ == json_bytes(
                copied_export(export, draw.session, draw.now, draw.fresh),
            )
        },
        Err(missing) => failure(export) == Some(missing@),
    }
}

/// Rewrites exported bytes into a copy of the session.
pub fn prepare_import(stdout: &[u8], ids: &mut IdState) -> (result: Result<PreparedImport, String>)
    ensures
        prepared(stdout@, *old(ids), *final(ids), result),
{
    match read_json(stdout) {
        Err(error) => {
            let mut message = "could not parse `opencode export` output: ".to_string();
            message.append(error.as_str());
            Err(message)
        },
        Ok(mut export) => {
            let ghost before = export@;
            match rewrite_export(&mut export, ids) {
                Ok(session) => {
                    let mut file = "opencode-import-".to_string();
                    file.append(session.as_str());
                    file.append(".json");
                    Ok(PreparedImport { session, file, contents: write_json(export) })
                },
                Err(missing) => Err(missing),
            }
        },
    }
}

/// What a program said of its failure, behind `start`.
fn complain(start: String, stderr: &Vec<u8>) -> (message: String)
    ensures
        message@ == start@ + complaint(stderr@),
{
    let mut message = start;
    message.append(trimmed_text(stderr.as_slice()).as_str());
    message
}

/// The first thing to do.
pub fn start(session: &str) -> (next: (ImportState, ImportAction))
    ensures
        next.0 matches ImportState::Exporting { session: s } && s@ == session@,
        next.1 matches ImportAction::Export { session: s } && s@ == session@,
        forall|answer: ImportEvent| #[trigger] answers(next.1, answer) <==> fits(next.0, answer),
{
    (
        ImportState::Exporting { session: session.to_string() },
        ImportAction::Export { session: session.to_string() },
    )
}

/// `event` says how the thing went that is done in `state`.
pub open spec fn fits(state: ImportState, event: ImportEvent) -> bool {
    match state {
        ImportState::Exporting { .. } => event is Exported,
        ImportState::Writing { .. } => event is Written || event is NotWritten,
        ImportState::Importing { .. } => event is Imported,
        ImportState::Removing { .. } => event is Removed,
        ImportState::Finished => false,
    }
}

/// The copying ends, for a reason.
pub open spec fn ends_with(next: (ImportState, ImportAction), reason: Seq<char>) -> bool {
    &&& next.0 is Finished
    &&& next.1 matches ImportAction::Finish { outcome: Err(message) } && message@ == reason
}

/// What follows on an export.
pub open spec fn exported(
    session: Seq<char>,
    run: RunResult,
    before: IdState,
    after: IdState,
    next: (ImportState, ImportAction),
) -> bool {
    match export_failure(session, run) {
        Some(reason) => ends_with(next, reason) && after == before,
        None => exists|result: Result<PreparedImport, String>|
            {
                &&& #[trigger] prepared(run->stdout@, before, after, result)
                &&& match result {
                    Ok(import) => {
                        &&& next.0 matches ImportState::Writing { copy } && copy@ == import.session@
                        &&& next.1 matches ImportAction::Write { file, contents } && file@
                            == import.file@ && contents@ == import.contents@
                    },
                    Err(message) => ends_with(next, message@),
                }
            },
    }
}

/// What follows on an event.
pub open spec fn stepped(
    state: ImportState,
    event: ImportEvent,
    before: IdState,
    after: IdState,
    next: (ImportState, ImportAction),
) -> bool {
    match (state, event) {
        (ImportState::Exporting { session }, ImportEvent::Exported { run }) => exported(
            session@,
            run,
            before,
            after,
            next,
        ),
        (ImportState::Writing { copy }, ImportEvent::Written) => {
            &&& after == before
            &&& next.0 matches ImportState::Importing { copy: c } && c@ == copy@
            &&& next.1 is Import
        },
        (ImportState::Writing { copy }, ImportEvent::NotWritten { path, error }) => {
            &&& after == before
            &&& ends_with(next, "could not write "@ + path@ + ": "@ + error@)
        },
        (ImportState::Importing { copy }, ImportEvent::Imported { run }) => {
            &&& after == before
            &&& next.1 is Remove
            &&& match import_failure(run) {
                Some(reason) => next.0 matches ImportState::Removing { outcome: Err(message) }
                    && message@ == reason,
                None => next.0 matches ImportState::Removing { outcome: Ok(id) } && id@ == copy@,
            }
        },
        (ImportState::Removing { outcome }, ImportEvent::Removed) => {
            &&& after == before
            &&& next.0 is Finished
            &&& next.1 matches ImportAction::Finish { outcome: o } && o == outcome
        },
        _ => false,
    }
}

/// What to do next, after what was done.
pub fn step(state: ImportState, event: ImportEvent, ids: &mut IdState) -> (next: (
    ImportState,
    ImportAction,
))
    requires
        fits(state, event),
    ensures
        stepped(state, event, *old(ids), *final(ids), next),
{
    match (state, event) {
        (ImportState::Exporting { session }, ImportEvent::Exported { run }) => {
            step_exported(session, run, ids)
        },
        (ImportState::Writing { copy }, ImportEvent::Written) => {
            (ImportState::Importing { copy }, ImportAction::Import)
        },
        (ImportState::Writing { copy: _ }, ImportEvent::NotWritten { path, error }) => {
            let mut message = "could not write ".to_string();
            message.append(path.as_str());
            message.append(": ");
            message.append(error.as_str());
            finish(Err(message))
        },
        (ImportState::Importing { copy }, ImportEvent::Imported { run }) => {
            let outcome = match run {
                RunResult::NotRun { error } => {
                    let mut message = "failed to run `opencode import`: ".to_string();
                    message.append(error.as_str());
                    Err(message)
                },
                RunResult::Ended { success, stdout: _, stderr } => if success {
                    Ok(copy)
                } else {
                    Err(complain("`opencode import` failed: ".to_string(), &stderr))
                },
            };
            (ImportState::Removing { outcome }, ImportAction::Remove)
        },
        (ImportState::Removing { outcome }, _) => finish(outcome),
        _ => finish(Err("the event does not fit the state".to_string())),
    }
}

/// The end of the copying.
fn finish(outcome: Result<String, String>) -> (next: (ImportState, ImportAction))
    ensures
        next.0 is Finished,
        next.1 matches ImportAction::Finish { outcome: o } && o == outcome,
{
    (ImportState::Finished, ImportAction::Finish { outcome })
}

/// What to do after the export.
fn step_exported(session: String, run: RunResult, ids: &mut IdState) -> (next: (
    ImportState,
    ImportAction,
))
    ensures
        exported(session@, run, *old(ids), *final(ids), next),
{
    match run {
        RunResult::NotRun { error } => {
            let mut message = "failed to run `opencode export`: ".to_string();
            message.append(error.as_str());
            finish(Err(message))
        },
        RunResult::Ended { success, stdout, stderr } => {
            if !success {
                let mut message = "`opencode export ".to_string();
                message.append(session.as_str());
                message.append("` failed: ");
                return finish(Err(complain(message, &stderr)));
            }
            match prepare_import(stdout.as_slice(), ids) {
                Ok(import) => {
                    let ghost result: Result<PreparedImport, String> = Ok(import);
                    assert(prepared(stdout@, *old(ids), *ids, result));
                    (
                        ImportState::Writing { copy: import.session },
                        ImportAction::Write { file: import.file, contents: import.contents },
                    )
                },
                Err(message) => {
                    let ghost result: Result<PreparedImport, String> = Err(message);
                    assert(prepared(stdout@, *old(ids), *ids, result));
                    finish(Err(message))
                },
            }
        },
    }
}

/// `event` says how `action` went.
pub open spec fn answers(action: ImportAction, event: ImportEvent) -> bool {
    match action {
        ImportAction::Export { .. } => event is Exported,
        ImportAction::Write { .. } => event is Written || event is NotWritten,
        ImportAction::Import => event is Imported,
        ImportAction::Remove => event is Removed,
        ImportAction::Finish { .. } => false,
    }
}

/// Each state comes with its own action, and the copying does not go back to the export. So
/// whoever does what [`start`] and [`step`] say, and answers it, meets what [`step`] asks for.
pub proof fn each_state_comes_with_its_action(
    state: ImportState,
    event: ImportEvent,
    before: IdState,
    after: IdState,
    next: (ImportState, ImportAction),
)
    requires
        stepped(state, event, before, after, next),
    ensures
        next.0 !is Exporting,
        next.0 is Writing <==> next.1 is Write,
        next.0 is Importing <==> next.1 is Import,
        next.0 is Removing <==> next.1 is Remove,
        next.0 is Finished <==> next.1 is Finish,
        forall|answer: ImportEvent| #[trigger] answers(next.1, answer) <==> fits(next.0, answer),
{
}

/// Once the file is written, the copying does not end before the file is removed.
pub proof fn written_file_is_removed_before_the_end(
    state: ImportState,
    event: ImportEvent,
    before: IdState,
    after: IdState,
    next: (ImportState, ImportAction),
)
    requires
        stepped(state, event, before, after, next),
    ensures
        state is Writing && event is Written ==> next.0 is Importing && next.1 is Import,
        state is Importing ==> next.0 is Removing && next.1 is Remove,
        next.1 is Finish <==> next.0 is Finished,
        next.1 is Finish ==> state is Exporting || (state is Writing && event is NotWritten)
            || state is Removing,
{
}

/// Identifiers are made after a successful export only.
pub proof fn failed_steps_make_no_ids(
    state: ImportState,
    event: ImportEvent,
    before: IdState,
    after: IdState,
    next: (ImportState, ImportAction),
)
    requires
        stepped(state, event, before, after, next),
        !(event matches ImportEvent::Exported { run: RunResult::Ended { success: true, .. } }),
    ensures
        after == before,
{
}

/// A copying in which everything succeeds ends with the identifier of the session that is in
/// the file that was written and imported. The file holds the copy of the exported session.
pub proof fn outcome_is_the_imported_session(
    session: String,
    stdout: Vec<u8>,
    stderr: Vec<u8>,
    import_run: RunResult,
    states: Seq<IdState>,
    written: (ImportState, ImportAction),
    imported: (ImportState, ImportAction),
    removed: (ImportState, ImportAction),
    finished: (ImportState, ImportAction),
)
    requires
        states.len() == 5,
        stepped(
            ImportState::Exporting { session },
            (ImportEvent::Exported { run: RunResult::Ended { success: true, stdout, stderr } }),
            states[0],
            states[1],
            written,
        ),
        written.1 is Write,
        stepped(written.0, ImportEvent::Written, states[1], states[2], imported),
        import_failure(import_run) is None,
        stepped(
            imported.0,
            (ImportEvent::Imported { run: import_run }),
            states[2],
            states[3],
            removed,
        ),
        stepped(removed.0, ImportEvent::Removed, states[3], states[4], finished),
    ensures
        parsed(stdout@) is Ok,
        imported.1 is Import,
        removed.1 is Remove,
        finished.1 matches ImportAction::Finish { outcome: Ok(id) } && exists|draw: Draw|
            {
                let export = parsed(stdout@)->Ok_0;
                let copy = copied_export(export, draw.session, draw.now, draw.fresh);
                &&& #[trigger] drawn(parsed(stdout@)->Ok_0, draw, states[0], states[1])
                &&& failure(export) is None
                &&& id@ == draw.session
                &&& text_member(session_info(copy)->0, "id"@) == Some(id@)
                &&& written.1->file@ == file_name(id@)
                &&& written.1->contents@ == json_bytes(copy)
            },
{
    let run = RunResult::Ended { success: true, stdout, stderr };
    let result = choose|result: Result<PreparedImport, String>|
        {
            &&& #[trigger] prepared(run->stdout@, states[0], states[1], result)
            &&& match result {
                Ok(import) => {
                    &&& written.0 matches ImportState::Writing { copy } && copy@ == import.session@
                    &&& written.1 matches ImportAction::Write { file, contents } && file@
                        == import.file@ && contents@ == import.contents@
                },
                Err(message) => ends_with(written, message@),
            }
        };
    assert(result is Ok);
    let export = parsed(stdout@)->Ok_0;
    let draw = choose|draw: Draw|
        {
            &&& #[trigger] drawn(export, draw, states[0], states[1])
            &&& prepared_with(export, draw, result)
        };
    copy_belongs_to_the_new_session(export, draw.session, draw.now, draw.fresh);
}

} // verus!
