//! Making the identifiers of a copy.
use crate::copy::{lemma_identified, old_message_id, FreshIds};
use crate::id::{generate_id, IdState};
use crate::json::{lemma_list_view, Json};
use vstd::prelude::*;
#[allow(unused_imports)]
use crate::clock::clock_reads;
#[allow(unused_imports)]
use crate::copy::{
    fresh_view, identified, message_id, message_list, objects_among, part_ids_needed, session_info,
    FreshView,
};
#[allow(unused_imports)]
use crate::id::issued;
#[allow(unused_imports)]
use crate::json::{list_view, JsonView};

verus! {

/// An identifier that was made, and as what.
pub struct Issue {
    pub prefix: Seq<char>,
    pub descending: bool,
    pub text: Seq<char>,
}

/// The identifiers of a message and of its parts, in the order in which they are made.
pub open spec fn message_issues(fresh: FreshView) -> Seq<Issue> {
    seq![Issue { prefix: "msg"@, descending: false, text: fresh.message }] + Seq::new(
        fresh.parts.len(),
        |i: int| Issue { prefix: "prt"@, descending: false, text: fresh.parts[i] },
    )
}

/// The identifiers of several messages, in the order in which they are made.
pub open spec fn all_message_issues(fresh: Seq<FreshView>) -> Seq<Issue>
    decreases fresh.len(),
{
    if fresh.len() == 0 {
        Seq::empty()
    } else {
        all_message_issues(fresh.drop_last()) + message_issues(fresh.last())
    }
}

/// The identifiers of a copy, in the order in which they are made.
pub open spec fn copy_issues(session: Seq<char>, fresh: Seq<FreshView>) -> Seq<Issue> {
    seq![Issue { prefix: "ses"@, descending: true, text: session }] + all_message_issues(fresh)
}

/// The identifiers were made one after the other, with these states before, between and
/// after them.
pub open spec fn chained(states: Seq<IdState>, issues: Seq<Issue>) -> bool {
    &&& states.len() == issues.len() + 1
    &&& forall|k: int|
        0 <= k < issues.len() ==> issued(
            states[k],
            (#[trigger] issues[k]).prefix,
            issues[k].descending,
            issues[k].text,
            states[k + 1],
        )
}

proof fn lemma_chained_push(states: Seq<IdState>, issues: Seq<Issue>, issue: Issue, after: IdState)
    requires
        chained(states, issues),
        issued(states.last(), issue.prefix, issue.descending, issue.text, after),
    ensures
        chained(states.push(after), issues.push(issue)),
{
    let more = states.push(after);
    let made = issues.push(issue);
    assert forall|k: int| 0 <= k < made.len() implies issued(
        more[k],
        (#[trigger] made[k]).prefix,
        made[k].descending,
        made[k].text,
        more[k + 1],
    ) by {
        if k < issues.len() {
            assert(made[k] == issues[k]);
        }
    }
}

pub(crate) proof fn lemma_chained_join(
    states: Seq<IdState>,
    issues: Seq<Issue>,
    more: Seq<IdState>,
    next: Seq<Issue>,
)
    requires
        chained(states, issues),
        chained(more, next),
        states.last() == more.first(),
    ensures
        chained(states + more.drop_first(), issues + next),
        (states + more.drop_first()).first() == states.first(),
        (states + more.drop_first()).last() == more.last(),
{
    let all = states + more.drop_first();
    let made = issues + next;
    assert forall|k: int| 0 <= k < made.len() implies issued(
        all[k],
        (#[trigger] made[k]).prefix,
        made[k].descending,
        made[k].text,
        all[k + 1],
    ) by {
        if k < issues.len() {
            assert(made[k] == issues[k]);
        } else {
            let j = k - issues.len();
            assert(made[k] == next[j]);
            assert(all[k] == more[j]);
            assert(all[k + 1] == more[j + 1]);
        }
    }
}

/// Makes the new identifiers of one message.
fn draw_message(message: &Json, ids: &mut IdState) -> (drawn: (FreshIds, Ghost<Seq<IdState>>))
    ensures
        drawn.0.parts@.len() == part_ids_needed(message@),
        chained(drawn.1@, message_issues(drawn.0@)),
        drawn.1@.first() == *old(ids),
        drawn.1@.last() == *final(ids),
{
    let ghost start = *ids;
    let id = generate_id(ids, "msg", false);
    let mut fresh = FreshIds { message: id, parts: Vec::new() };
    let ghost mut states = seq![start, *ids];
    assert(chained(states, message_issues(fresh@)));
    if let Json::Object(members) = message {
        if let Some(Json::List(parts)) = members.get("parts") {
            let ghost items = list_view(parts@);
            let mut j: usize = 0;
            proof {
                lemma_list_view(parts@);
            }
            while j < parts.len()
                invariant
                    j <= parts@.len(),
                    items == list_view(parts@),
                    items.len() == parts@.len(),
                    forall|k: int| 0 <= k < items.len() ==> #[trigger] items[k] == parts@[k]@,
                    fresh.parts@.len() == objects_among(items, j as int),
                    chained(states, message_issues(fresh@)),
                    states.first() == start,
                    states.last() == *ids,
                decreases parts@.len() - j,
            {
                assert(items[j as int] == parts@[j as int]@);
                if let Json::Object(_) = &parts[j] {
                    let ghost before = fresh@;
                    let part = generate_id(ids, "prt", false);
                    fresh.parts.push(part);
                    proof {
                        let issue = Issue { prefix: "prt"@, descending: false, text: part@ };
                        lemma_chained_push(states, message_issues(before), issue, *ids);
                        assert(message_issues(fresh@) =~= message_issues(before).push(issue));
                        states = states.push(*ids);
                    }
                }
                j += 1;
            }
        }
    }
    (fresh, Ghost(states))
}

/// The identifiers are one for each message that is copied and one for each of its parts
/// that is an object.
pub open spec fn measured(export: JsonView, fresh: Seq<FreshView>) -> bool {
    match (session_info(export), message_list(export)) {
        (Some(_), Some(messages)) => {
            &&& fresh.len() == identified(messages)
            &&& forall|i: int|
                0 <= i < identified(messages) ==> (#[trigger] fresh[i]).parts.len()
                    == part_ids_needed(messages[i])
        },
        _ => fresh.len() == 0,
    }
}

/// Makes the new identifiers of the messages that can be copied.
pub(crate) fn draw_messages(export: &Json, ids: &mut IdState) -> (drawn: (Vec<FreshIds>, Ghost<Seq<IdState>>))
    ensures
        measured(export@, fresh_view(drawn.0@)),
        chained(drawn.1@, all_message_issues(fresh_view(drawn.0@))),
        drawn.1@.first() == *old(ids),
        drawn.1@.last() == *final(ids),
{
    let ghost start = *ids;
    let mut fresh: Vec<FreshIds> = Vec::new();
    let ghost mut states = seq![start];
    assert(chained(states, all_message_issues(fresh_view(fresh@))));
    if let Json::Object(members) = export {
        if let (Some(Json::Object(_)), Some(Json::List(messages))) = (
            members.get("info"),
            members.get("messages"),
        ) {
            let ghost items = list_view(messages@);
            let mut i: usize = 0;
            proof {
                lemma_list_view(messages@);
                lemma_identified(items);
            }
            while i < messages.len()
                invariant
                    i <= messages@.len(),
                    i <= identified(items),
                    items == list_view(messages@),
                    items.len() == messages@.len(),
                    identified(items) <= items.len(),
                    forall|k: int| 0 <= k < items.len() ==> #[trigger] items[k] == messages@[k]@,
                    forall|k: int|
                        0 <= k < identified(items) ==> message_id(#[trigger] items[k]) is Some,
                    identified(items) < items.len() ==> message_id(items[identified(items) as int])
                        is None,
                    session_info(export@) is Some,
                    message_list(export@) == Some(items),
                    fresh@.len() == i,
                    forall|k: int|
                        0 <= k < i ==> (#[trigger] fresh_view(fresh@)[k]).parts.len()
                            == part_ids_needed(items[k]),
                    chained(states, all_message_issues(fresh_view(fresh@))),
                    start == *old(ids),
                    states.first() == start,
                    states.last() == *ids,
                decreases messages@.len() - i,
            {
                assert(items[i as int] == messages@[i as int]@);
                if old_message_id(&messages[i]).is_err() {
                    return (fresh, Ghost(states));
                }
                let ghost before = fresh_view(fresh@);
                let (next, more) = draw_message(&messages[i], ids);
                fresh.push(next);
                proof {
                    lemma_chained_join(
                        states,
                        all_message_issues(before),
                        more@,
                        message_issues(next@),
                    );
                    assert(fresh_view(fresh@) =~= before.push(next@));
                    assert(fresh_view(fresh@).drop_last() =~= before);
                    states = states + more@.drop_first();
                }
                i += 1;
            }
        }
    }
    (fresh, Ghost(states))
}

/// What went into a copy from outside: the new identifiers, the states between them, and
/// the time.
pub struct Draw {
    pub session: Seq<char>,
    pub now: u64,
    pub fresh: Seq<FreshView>,
    pub states: Seq<IdState>,
}

/// The identifiers of a copy of `export` were made in order from the state `before` to the
/// state `after`, and the time is a clock reading.
pub open spec fn drawn(export: JsonView, draw: Draw, before: IdState, after: IdState) -> bool {
    &&& measured(export, draw.fresh)
    &&& chained(draw.states, copy_issues(draw.session, draw.fresh))
    &&& draw.states.first() == before
    &&& draw.states.last() == after
    &&& clock_reads(draw.now)
}

} // verus!
