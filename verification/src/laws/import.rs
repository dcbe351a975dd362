//! What holds of the steps of a copying.
use vstd::prelude::*;
#[allow(unused_imports)]
use crate::codec::{json_bytes, parsed};
#[allow(unused_imports)]
use crate::copy::{copied_export, failure};
#[allow(unused_imports)]
use crate::draw::{drawn, Draw};
#[allow(unused_imports)]
use crate::id::IdState;
#[allow(unused_imports)]
use crate::import::{
    answers, complaint, ends_with, export_failure, exported, fits, import_failure, prepared,
    prepared_with, stepped, ImportAction, ImportEvent, ImportState, PreparedImport, RunResult,
};
#[allow(unused_imports)]
use crate::json::JsonView;
#[allow(unused_imports)]
use crate::laws::copy::{
    complete, copied_session_says, failures_say_what_is_missing, has_info, info,
};
#[allow(unused_imports)]
use crate::laws::text::{all_blank, trimming_takes_off_white_space, utf8_is_read_as_it_was_written};
#[allow(unused_imports)]
use crate::text::{text_of, trimmed};

verus! {

/// The next thing to do is nothing: the copying has failed, with this message.
pub open spec fn failed(next: (ImportState, ImportAction), message: Seq<char>) -> bool {
    &&& next.0 == ImportState::Finished
    &&& next.1 is Finish
    &&& next.1->outcome is Err
    &&& next.1->outcome->Err_0@ == message
}

/// A run has failed exactly if the program did not run or ended without success, whatever it
/// printed.
pub proof fn runs_fail_by_their_exit_status(session: Seq<char>, run: RunResult)
    ensures
        export_failure(session, run) is Some <==> run is NotRun || !run->success,
        import_failure(run) is Some <==> run is NotRun || !run->success,
{
}

/// What a program printed on its error output is reported without the white space around it.
pub proof fn complaints_are_trimmed(before: Seq<char>, inner: Seq<char>, after: Seq<char>)
    requires
        all_blank(before),
        all_blank(after),
        inner.len() > 0 ==> !crate::laws::text::blank(inner.first()) && !crate::laws::text::blank(
            inner.last(),
        ),
    ensures
        complaint(vstd::utf8::encode_utf8(before + inner + after)) == inner,
{
    utf8_is_read_as_it_was_written(before + inner + after);
    trimming_takes_off_white_space(before, inner, after);
}

/// Text of another encoding than UTF-8 is trimmed too.
pub proof fn every_complaint_is_trimmed(stderr: Seq<u8>)
    ensures
        complaint(stderr) == trimmed(text_of(stderr)),
{
}

/// An export that fails ends the copying, and says how it failed.
pub proof fn failed_export_ends_the_copying(
    session: String,
    run: RunResult,
    before: IdState,
    after: IdState,
    next: (ImportState, ImportAction),
)
    requires
        stepped(
            ImportState::Exporting { session },
            (ImportEvent::Exported { run }),
            before,
            after,
            next,
        ),
        run is NotRun || !run->success,
    ensures
        after == before,
        run is NotRun ==> failed(next, "failed to run `opencode export`: "@ + run->error@),
        run is Ended ==> failed(
            next,
            "`opencode export "@ + session@ + "` failed: "@ + trimmed(text_of(run->stderr@)),
        ),
{
}

/// What is prepared of exported bytes: the copy of the document that they write, in a file
/// named by the copy's identifier, exactly if they write a document and nothing of it is
/// missing. Otherwise it is said why not.
pub proof fn prepared_imports_hold_the_copy(
    stdout: Seq<u8>,
    before: IdState,
    after: IdState,
    result: Result<PreparedImport, String>,
)
    requires
        prepared(stdout, before, after, result),
    ensures
        result is Ok <==> parsed(stdout) is Ok && complete(parsed(stdout)->Ok_0),
        parsed(stdout) is Err ==> {
            &&& after == before
            &&& result->Err_0@ == "could not parse `opencode export` output: "@
                + parsed(stdout)->Err_0
        },
        parsed(stdout) is Ok && result is Err ==> failure(parsed(stdout)->Ok_0) == Some(
            result->Err_0@,
        ),
        parsed(stdout) is Ok ==> exists|draw: Draw| #[trigger]
            drawn(parsed(stdout)->Ok_0, draw, before, after),
        result matches Ok(import) ==> exists|draw: Draw|
            {
                &&& #[trigger] drawn(parsed(stdout)->Ok_0, draw, before, after)
                &&& import.session@ == draw.session
                &&& import.file@ == "opencode-import-"@ + draw.session + ".json"@
                &&& import.contents@ == json_bytes(
                    copied_export(parsed(stdout)->Ok_0, draw.session, draw.now, draw.fresh),
                )
            },
{
    if parsed(stdout) is Ok {
        let export = parsed(stdout)->Ok_0;
        failures_say_what_is_missing(export);
        let draw = choose|draw: Draw|
            {
                &&& #[trigger] drawn(export, draw, before, after)
                &&& prepared_with(export, draw, result)
            };
        assert(drawn(parsed(stdout)->Ok_0, draw, before, after));
    }
}

/// After an export that succeeds, whatever it printed on its error output, the copy is
/// written to a file named by its identifier, exactly if the export wrote a document and
/// nothing of it is missing.
pub proof fn successful_export_is_written(
    session: String,
    stdout: Vec<u8>,
    stderr: Vec<u8>,
    before: IdState,
    after: IdState,
    next: (ImportState, ImportAction),
)
    requires
        stepped(
            ImportState::Exporting { session },
            (ImportEvent::Exported { run: RunResult::Ended { success: true, stdout, stderr } }),
            before,
            after,
            next,
        ),
    ensures
        next.1 is Write <==> parsed(stdout@) is Ok && complete(parsed(stdout@)->Ok_0),
        next.1 is Write ==> next.0 is Writing && exists|draw: Draw|
            {
                &&& #[trigger] drawn(parsed(stdout@)->Ok_0, draw, before, after)
                &&& next.0->Writing_copy@ == draw.session
                &&& next.1->file@ == "opencode-import-"@ + draw.session + ".json"@
                &&& next.1->contents@ == json_bytes(
                    copied_export(parsed(stdout@)->Ok_0, draw.session, draw.now, draw.fresh),
                )
            },
{
    let run = RunResult::Ended { success: true, stdout, stderr };
    let result = choose|result: Result<PreparedImport, String>|
        {
            &&& #[trigger] prepared(run->stdout@, before, after, result)
            &&& match result {
                Ok(import) => {
                    &&& next.0 matches ImportState::Writing { copy } && copy@ == import.session@
                    &&& next.1 matches ImportAction::Write { file, contents } && file@
                        == import.file@ && contents@ == import.contents@
                },
                Err(message) => ends_with(next, message@),
            }
        };
    prepared_imports_hold_the_copy(stdout@, before, after, result);
    if next.1 is Write {
        let draw = choose|draw: Draw|
            {
                &&& #[trigger] drawn(parsed(stdout@)->Ok_0, draw, before, after)
                &&& result->Ok_0.session@ == draw.session
                &&& result->Ok_0.file@ == "opencode-import-"@ + draw.session + ".json"@
                &&& result->Ok_0.contents@ == json_bytes(
                    copied_export(parsed(stdout@)->Ok_0, draw.session, draw.now, draw.fresh),
                )
            };
        assert(drawn(parsed(stdout@)->Ok_0, draw, before, after));
    }
}

/// After an export that succeeds but cannot be copied, the copying ends and says why.
pub proof fn unusable_export_ends_the_copying(
    session: String,
    stdout: Vec<u8>,
    stderr: Vec<u8>,
    before: IdState,
    after: IdState,
    next: (ImportState, ImportAction),
)
    requires
        stepped(
            ImportState::Exporting { session },
            (ImportEvent::Exported { run: RunResult::Ended { success: true, stdout, stderr } }),
            before,
            after,
            next,
        ),
        !(parsed(stdout@) is Ok && complete(parsed(stdout@)->Ok_0)),
    ensures
        parsed(stdout@) is Err ==> after == before && failed(
            next,
            "could not parse `opencode export` output: "@ + parsed(stdout@)->Err_0,
        ),
        parsed(stdout@) is Ok ==> failure(parsed(stdout@)->Ok_0) is Some && failed(
            next,
            failure(parsed(stdout@)->Ok_0)->0,
        ),
        parsed(stdout@) is Ok ==> exists|draw: Draw| #[trigger]
            drawn(parsed(stdout@)->Ok_0, draw, before, after),
{
    let run = RunResult::Ended { success: true, stdout, stderr };
    let result = choose|result: Result<PreparedImport, String>|
        {
            &&& #[trigger] prepared(run->stdout@, before, after, result)
            &&& match result {
                Ok(import) => {
                    &&& next.0 matches ImportState::Writing { copy } && copy@ == import.session@
                    &&& next.1 matches ImportAction::Write { file, contents } && file@
                        == import.file@ && contents@ == import.contents@
                },
                Err(message) => ends_with(next, message@),
            }
        };
    prepared_imports_hold_the_copy(stdout@, before, after, result);
}

proof fn lemma_error_output(
    session: Seq<char>,
    run: RunResult,
    other: RunResult,
    before: IdState,
    after: IdState,
    next: (ImportState, ImportAction),
)
    requires
        run is Ended && run->success,
        other is Ended && other->success,
        run->stdout == other->stdout,
        exported(session, run, before, after, next),
    ensures
        exported(session, other, before, after, next),
{
    let result = choose|result: Result<PreparedImport, String>|
        {
            &&& #[trigger] prepared(run->stdout@, before, after, result)
            &&& match result {
                Ok(import) => {
                    &&& next.0 matches ImportState::Writing { copy } && copy@ == import.session@
                    &&& next.1 matches ImportAction::Write { file, contents } && file@
                        == import.file@ && contents@ == import.contents@
                },
                Err(message) => ends_with(next, message@),
            }
        };
    assert(prepared(other->stdout@, before, after, result));
}

/// What a successful run prints on its error output changes nothing.
pub proof fn error_output_of_success_does_not_matter(
    session: String,
    copy: String,
    stdout: Vec<u8>,
    stderr: Vec<u8>,
    other: Vec<u8>,
    before: IdState,
    after: IdState,
    next: (ImportState, ImportAction),
)
    ensures
        stepped(
            ImportState::Exporting { session },
            (ImportEvent::Exported { run: RunResult::Ended { success: true, stdout, stderr } }),
            before,
            after,
            next,
        ) == stepped(
            ImportState::Exporting { session },
            (ImportEvent::Exported {
                run: RunResult::Ended { success: true, stdout, stderr: other },
            }),
            before,
            after,
            next,
        ),
        stepped(
            ImportState::Importing { copy },
            (ImportEvent::Imported { run: RunResult::Ended { success: true, stdout, stderr } }),
            before,
            after,
            next,
        ) == stepped(
            ImportState::Importing { copy },
            (ImportEvent::Imported {
                run: RunResult::Ended { success: true, stdout: other, stderr: other },
            }),
            before,
            after,
            next,
        ),
{
    let run = RunResult::Ended { success: true, stdout, stderr };
    let another = RunResult::Ended { success: true, stdout, stderr: other };
    if exported(session@, run, before, after, next) {
        lemma_error_output(session@, run, another, before, after, next);
    }
    if exported(session@, another, before, after, next) {
        lemma_error_output(session@, another, run, before, after, next);
    }
}

/// Once the file is written it is imported. If it cannot be written, the copying ends and
/// says which file and why.
pub proof fn written_file_is_imported(
    copy: String,
    path: String,
    error: String,
    before: IdState,
    after: IdState,
    next: (ImportState, ImportAction),
)
    ensures
        stepped(ImportState::Writing { copy }, ImportEvent::Written, before, after, next) ==> {
            &&& after == before
            &&& next.0 is Importing
            &&& next.0->Importing_copy@ == copy@
            &&& next.1 == ImportAction::Import
        },
        stepped(
            ImportState::Writing { copy },
            (ImportEvent::NotWritten { path, error }),
            before,
            after,
            next,
        ) ==> after == before && failed(next, "could not write "@ + path@ + ": "@ + error@),
{
}

/// After the import the file is removed, and then the outcome is given: the copy's
/// identifier exactly if the import succeeded, and else how it failed.
pub proof fn import_decides_the_outcome(
    copy: String,
    run: RunResult,
    before: IdState,
    between: IdState,
    after: IdState,
    removing: (ImportState, ImportAction),
    last: (ImportState, ImportAction),
)
    requires
        stepped(
            ImportState::Importing { copy },
            (ImportEvent::Imported { run }),
            before,
            between,
            removing,
        ),
        stepped(removing.0, ImportEvent::Removed, between, after, last),
    ensures
        after == before,
        removing.1 == ImportAction::Remove,
        last.0 == ImportState::Finished,
        last.1 is Finish,
        last.1->outcome is Ok <==> run is Ended && run->success,
        last.1->outcome is Ok ==> last.1->outcome->Ok_0@ == copy@,
        run is NotRun ==> last.1->outcome->Err_0@ == "failed to run `opencode import`: "@
            + run->error@,
        run is Ended && !run->success ==> last.1->outcome->Err_0@ == "`opencode import` failed: "@
            + trimmed(text_of(run->stderr@)),
{
}

/// Each state takes the events of what is done in it, and no others.
pub proof fn states_take_their_events(state: ImportState, event: ImportEvent)
    ensures
        fits(state, event) <==> {
            ||| state is Exporting && event is Exported
            ||| state is Writing && (event is Written || event is NotWritten)
            ||| state is Importing && event is Imported
            ||| state is Removing && event is Removed
        },
{
}

} // verus!
