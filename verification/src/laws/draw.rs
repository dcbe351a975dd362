//! What holds of the identifiers and the time that go into a copy, and of what is reported.
#[allow(unused_imports)]
use std::time::SystemTime;
use vstd::prelude::*;
#[allow(unused_imports)]
use crate::clock::{since_epoch, whole_millis};
#[allow(unused_imports)]
use crate::copy::{
    copied_export, failure, identified, lemma_identified, message_id, objects_among,
    part_ids_needed, FreshView,
};
#[allow(unused_imports)]
use crate::draw::{all_message_issues, chained, copy_issues, drawn, message_issues, Draw};
#[allow(unused_imports)]
use crate::id::{id_value, issued, IdState};
#[allow(unused_imports)]
use crate::json::JsonView;
#[allow(unused_imports)]
use crate::laws::clock::clock_reads_moments;
#[allow(unused_imports)]
use crate::laws::copy::{
    complete, copied_session_says, failures_say_what_is_missing, has_id, has_info, has_messages,
    has_parts, info, lemma_named, lemma_objects, messages, objects, parts,
};
#[allow(unused_imports)]
use crate::laws::id::{ids_are_made_of_their_number, made_of};
#[allow(unused_imports)]
use crate::laws::{lemma_place, place};
#[allow(unused_imports)]
use crate::rewrite::copied_with;

verus! {

/// `text` is an identifier made at the reading and count of `state`: it holds the low 48 bits
/// of the time stamp, 4096 to the millisecond, or what they lack to 48 bits of ones.
pub open spec fn made_at(
    text: Seq<char>,
    prefix: Seq<char>,
    descending: bool,
    state: IdState,
) -> bool {
    let low = (state.ms * 4096 + state.counter) % 0x1_0000_0000_0000;
    made_of(
        text,
        prefix,
        if descending {
            (0xFFFF_FFFF_FFFF - low) as nat
        } else {
            low as nat
        },
    )
}

/// `ms` is what the clock reads at some moment: the milliseconds since the epoch, or 0
/// before it.
pub open spec fn read_at_a_moment(ms: u64) -> bool {
    exists|moment: SystemTime|
        match #[trigger] since_epoch(moment) {
            Some(duration) => ms == whole_millis(duration) % 0x1_0000_0000_0000_0000,
            None => ms == 0,
        }
}

/// How many identifiers the messages before message `i`, and their parts, have.
pub open spec fn ids_before(fresh: Seq<FreshView>, i: int) -> nat
    decreases i,
{
    if i <= 0 {
        0
    } else {
        ids_before(fresh, i - 1) + 1 + fresh[i - 1].parts.len()
    }
}

proof fn lemma_ids_before(fresh: Seq<FreshView>, i: int)
    requires
        0 <= i <= fresh.len(),
    ensures
        all_message_issues(fresh.take(i)).len() == ids_before(fresh, i),
    decreases i,
{
    if i > 0 {
        lemma_ids_before(fresh, i - 1);
        assert(fresh.take(i).drop_last() =~= fresh.take(i - 1));
    }
}

proof fn lemma_made_at(
    before: IdState,
    prefix: Seq<char>,
    descending: bool,
    text: Seq<char>,
    after: IdState,
)
    requires
        issued(before, prefix, descending, text, after),
    ensures
        made_at(text, prefix, descending, after),
{
    ids_are_made_of_their_number(text, prefix, id_value(descending, after.ms, after.counter));
}

/// The session's identifier is made first. It starts with `ses` and descends.
pub proof fn session_id_is_made_first(export: JsonView, draw: Draw, before: IdState, after: IdState)
    requires
        drawn(export, draw, before, after),
    ensures
        draw.states.len() == 2 + ids_before(draw.fresh, draw.fresh.len() as int),
        draw.states[0] == before,
        draw.states[draw.states.len() - 1] == after,
        made_at(draw.session, "ses"@, true, draw.states[1]),
        read_at_a_moment(draw.now),
{
    lemma_ids_before(draw.fresh, draw.fresh.len() as int);
    assert(draw.fresh.take(draw.fresh.len() as int) =~= draw.fresh);
    clock_reads_moments(draw.now);
    let issue = copy_issues(draw.session, draw.fresh)[0];
    assert(issued(draw.states[0], issue.prefix, issue.descending, issue.text, draw.states[1]));
    lemma_made_at(draw.states[0], "ses"@, true, draw.session, draw.states[1]);
}

/// Each identifier is made at what the clock reads then, and counted.
pub proof fn each_id_is_made_at_a_moment(
    export: JsonView,
    draw: Draw,
    before: IdState,
    after: IdState,
    k: int,
)
    requires
        drawn(export, draw, before, after),
        0 <= k < draw.states.len() - 1,
    ensures
        read_at_a_moment(draw.states[k + 1].ms),
        draw.states[k + 1].ms != draw.states[k].ms ==> draw.states[k + 1].counter == 1,
        draw.states[k + 1].ms == draw.states[k].ms && draw.states[k].counter < u64::MAX
            ==> draw.states[k + 1].counter == draw.states[k].counter + 1,
{
    let issue = copy_issues(draw.session, draw.fresh)[k];
    assert(issued(
        draw.states[k],
        issue.prefix,
        issue.descending,
        issue.text,
        draw.states[k + 1],
    ));
    clock_reads_moments(draw.states[k + 1].ms);
}

/// The identifiers of the messages start with `msg` and ascend. They are made in the order
/// of the messages, each before those of its message's parts.
pub proof fn message_ids_are_made_in_order(
    export: JsonView,
    draw: Draw,
    before: IdState,
    after: IdState,
    i: int,
)
    requires
        drawn(export, draw, before, after),
        0 <= i < draw.fresh.len(),
    ensures
        made_at(
            draw.fresh[i].message,
            "msg"@,
            false,
            draw.states[2 + ids_before(draw.fresh, i) as int],
        ),
{
    let k = place(draw.fresh, i);
    let issues = copy_issues(draw.session, draw.fresh);
    lemma_ids_before(draw.fresh, i);
    lemma_place(draw.session, draw.fresh, i);
    assert(message_issues(draw.fresh[i])[0] == issues[k + 0]);
    assert(issued(
        draw.states[k],
        issues[k].prefix,
        issues[k].descending,
        issues[k].text,
        draw.states[k + 1],
    ));
    lemma_made_at(draw.states[k], "msg"@, false, draw.fresh[i].message, draw.states[k + 1]);
}

/// The identifiers of the parts start with `prt` and ascend. They are made in the order of
/// the parts, behind that of their message.
pub proof fn part_ids_are_made_in_order(
    export: JsonView,
    draw: Draw,
    before: IdState,
    after: IdState,
    i: int,
    j: int,
)
    requires
        drawn(export, draw, before, after),
        0 <= i < draw.fresh.len(),
        0 <= j < draw.fresh[i].parts.len(),
    ensures
        made_at(
            draw.fresh[i].parts[j],
            "prt"@,
            false,
            draw.states[3 + ids_before(draw.fresh, i) as int + j],
        ),
{
    let k = place(draw.fresh, i) + (j + 1);
    let issues = copy_issues(draw.session, draw.fresh);
    lemma_ids_before(draw.fresh, i);
    lemma_place(draw.session, draw.fresh, i);
    assert(message_issues(draw.fresh[i])[j + 1] == issues[k]);
    assert(issued(
        draw.states[k],
        issues[k].prefix,
        issues[k].descending,
        issues[k].text,
        draw.states[k + 1],
    ));
    lemma_made_at(draw.states[k], "prt"@, false, draw.fresh[i].parts[j], draw.states[k + 1]);
}

/// There is one identifier for each message up to the first without an identifier of its
/// own, and one for each of its parts that is an object, and no other.
pub proof fn ids_are_made_for_what_is_copied(
    export: JsonView,
    draw: Draw,
    before: IdState,
    after: IdState,
)
    requires
        drawn(export, draw, before, after),
    ensures
        !(has_info(export) && has_messages(export)) ==> draw.fresh.len() == 0,
        has_info(export) && has_messages(export) ==> {
            &&& draw.fresh.len() <= messages(export).len()
            &&& draw.fresh.len() < messages(export).len() ==> !has_id(
                messages(export)[draw.fresh.len() as int],
            )
            &&& forall|i: int|
                0 <= i < draw.fresh.len() ==> {
                    &&& has_id(#[trigger] messages(export)[i])
                    &&& draw.fresh[i].parts.len() == if has_parts(messages(export)[i]) {
                        objects(parts(messages(export)[i]))
                    } else {
                        0
                    }
                }
        },
{
    if has_info(export) && has_messages(export) {
        let list = messages(export);
        lemma_identified(list);
        if identified(list) < list.len() {
            lemma_named(list[identified(list) as int]);
        }
        assert forall|i: int| 0 <= i < draw.fresh.len() implies {
            &&& has_id(#[trigger] messages(export)[i])
            &&& draw.fresh[i].parts.len() == if has_parts(messages(export)[i]) {
                objects(parts(messages(export)[i]))
            } else {
                0
            }
        } by {
            lemma_named(list[i]);
            assert(draw.fresh[i].parts.len() == part_ids_needed(list[i]));
            if has_parts(list[i]) {
                let items = parts(list[i]);
                lemma_objects(items, items.len() as int);
                assert(items.take(items.len() as int) =~= items);
            }
        }
    }
}

/// A copy is reported by the identifier that it says of itself, exactly if nothing was
/// missing. Otherwise what was missing is reported.
pub proof fn copies_are_reported_by_their_id(
    export: JsonView,
    draw: Draw,
    copy: JsonView,
    result: Result<String, String>,
)
    requires
        copied_with(export, draw, copy, result),
    ensures
        copy == copied_export(export, draw.session, draw.now, draw.fresh),
        result is Ok <==> complete(export),
        result matches Ok(id) ==> id@ == draw.session && has_info(copy) && info(copy)["id"@]
            == JsonView::Text(id@),
        result matches Err(missing) ==> failure(export) == Some(missing@),
{
    failures_say_what_is_missing(export);
    if has_info(export) {
        copied_session_says(export, draw.session, draw.now, draw.fresh, copy);
    }
}

} // verus!
