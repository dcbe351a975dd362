//! What holds of every copy of a session; and, by module, of each operation, member by member
//! and case by case.
pub mod clock;
pub mod copy;
pub mod draw;
pub mod id;
pub mod import;
pub mod json;
pub mod keys;
pub mod project;
pub mod text;
use vstd::prelude::*;
#[allow(unused_imports)]
use crate::id::{
    ascending_ids_sort_by_time, descending_ids_sort_against_time, id_digits, id_head, id_value,
    ids_follow_numbers, in_order, is_id, issued, stamp, IdState,
};
#[allow(unused_imports)]
use crate::copy::{
    copied_export, copied_info, copied_message, copied_message_info, copied_parts, failure,
    identified, lemma_identified, lemma_names_differ, message_id, message_list, objects_among,
    part_list, redirected, renamed, session_info, time_members, FreshView,
};
#[allow(unused_imports)]
use crate::draw::{all_message_issues, chained, copy_issues, drawn, message_issues, Draw, Issue};
#[allow(unused_imports)]
use crate::json::{object_member, text_member, JsonView, Members};
#[allow(unused_imports)]
use crate::text::text_before;

verus! {

/// What an export says of message `i`.
pub open spec fn info_of(export: JsonView, i: int) -> Members {
    object_member((message_list(export)->0)[i], "info"@)->0
}

/// The parts of message `i`.
pub open spec fn parts_of(export: JsonView, i: int) -> Option<Seq<JsonView>> {
    part_list((message_list(export)->0)[i])
}

/// How a copy is made up: its own information, and a copy of each message.
proof fn lemma_copy_shape(export: JsonView, session: Seq<char>, now: u64, fresh: Seq<FreshView>)
    requires
        failure(export) is None,
    ensures
        ({
            let copy = copied_export(export, session, now, fresh);
            let messages = message_list(export)->0;
            &&& session_info(export) is Some
            &&& message_list(export) is Some
            &&& session_info(copy) == Some(copied_info(session_info(export)->0, session, now))
            &&& message_list(copy) is Some
            &&& (message_list(copy)->0).len() == messages.len()
            &&& forall|i: int|
                0 <= i < messages.len() ==> {
                    &&& message_id(messages[i]) is Some
                    &&& #[trigger] (message_list(copy)->0)[i] == copied_message(
                        messages[i],
                        session,
                        fresh[i],
                        renamed(messages, fresh, i + 1),
                    )
                }
        }),
{
    lemma_names_differ();
    let messages = message_list(export)->0;
    lemma_identified(messages);
}

/// How the copy of a message is made up.
proof fn lemma_message_shape(
    message: JsonView,
    session: Seq<char>,
    fresh: FreshView,
    names: Map<Seq<char>, Seq<char>>,
)
    requires
        message_id(message) is Some,
    ensures
        ({
            let copy = copied_message(message, session, fresh, names);
            &&& object_member(copy, "info"@) == Some(
                copied_message_info(
                    object_member(message, "info"@)->0,
                    session,
                    fresh.message,
                    names,
                ),
            )
            &&& part_list(copy) == match part_list(message) {
                Some(parts) => Some(
                    copied_parts(parts, session, fresh, names, parts.len() as int),
                ),
                None => None,
            }
        }),
{
    lemma_names_differ();
}

/// The copy, each of its messages, and each part that is an object, belong to the new
/// session; each of these parts belongs to its message's copy.
pub proof fn copy_belongs_to_the_new_session(
    export: JsonView,
    session: Seq<char>,
    now: u64,
    fresh: Seq<FreshView>,
)
    requires
        failure(export) is None,
    ensures
        ({
            let copy = copied_export(export, session, now, fresh);
            &&& text_member(session_info(copy)->0, "id"@) == Some(session)
            &&& forall|i: int|
                0 <= i < (message_list(export)->0).len() ==> {
                    &&& text_member(#[trigger] info_of(copy, i), "id"@) == Some(fresh[i].message)
                    &&& text_member(info_of(copy, i), "sessionID"@) == Some(session)
                }
            &&& forall|i: int, j: int|
                0 <= i < (message_list(export)->0).len() && parts_of(export, i) is Some && 0 <= j < (
                parts_of(export, i)->0).len() && (parts_of(export, i)->0)[j] is Object ==> {
                    let part = (#[trigger] (parts_of(copy, i)->0)[j])->Object_0;
                    &&& parts_of(copy, i) is Some
                    &&& (parts_of(copy, i)->0)[j] is Object
                    &&& text_member(part, "id"@) == Some(
                        fresh[i].parts[objects_among(parts_of(export, i)->0, j) as int],
                    )
                    &&& text_member(part, "sessionID"@) == Some(session)
                    &&& text_member(part, "messageID"@) == Some(fresh[i].message)
                }
        }),
{
    lemma_names_differ();
    lemma_copy_shape(export, session, now, fresh);
    let copy = copied_export(export, session, now, fresh);
    let messages = message_list(export)->0;
    assert forall|i: int| 0 <= i < messages.len() implies {
        &&& text_member(#[trigger] info_of(copy, i), "id"@) == Some(fresh[i].message)
        &&& text_member(info_of(copy, i), "sessionID"@) == Some(session)
    } by {
        let _ = (message_list(copy)->0)[i];
        lemma_message_shape(messages[i], session, fresh[i], renamed(messages, fresh, i + 1));
    }
    assert forall|i: int, j: int|
        0 <= i < messages.len() && parts_of(export, i) is Some && 0 <= j < (parts_of(
            export,
            i,
        )->0).len() && (parts_of(export, i)->0)[j] is Object implies {
        let part = (#[trigger] (parts_of(copy, i)->0)[j])->Object_0;
        &&& parts_of(copy, i) is Some
        &&& (parts_of(copy, i)->0)[j] is Object
        &&& text_member(part, "id"@) == Some(
            fresh[i].parts[objects_among(parts_of(export, i)->0, j) as int],
        )
        &&& text_member(part, "sessionID"@) == Some(session)
        &&& text_member(part, "messageID"@) == Some(fresh[i].message)
    } by {
        let _ = (message_list(copy)->0)[i];
        lemma_message_shape(messages[i], session, fresh[i], renamed(messages, fresh, i + 1));
    }
}

/// The copy is a session of its own: it is neither shared nor reverted, has no parent and
/// no workspace, and was created and changed when it was made.
pub proof fn copy_is_a_root_session(
    export: JsonView,
    session: Seq<char>,
    now: u64,
    fresh: Seq<FreshView>,
)
    requires
        failure(export) is None,
    ensures
        ({
            let info = session_info(copied_export(export, session, now, fresh))->0;
            &&& !info.contains_key("share"@)
            &&& !info.contains_key("revert"@)
            &&& !info.contains_key("parentID"@)
            &&& !info.contains_key("workspaceID"@)
            &&& info.contains_key("time"@)
            &&& info["time"@] == JsonView::Object(time_members(now))
        }),
{
    lemma_names_differ();
    lemma_copy_shape(export, session, now, fresh);
}

/// A title that is text gets the mark of a copy; another stays as it is.
pub proof fn copy_has_a_marked_title(
    export: JsonView,
    session: Seq<char>,
    now: u64,
    fresh: Seq<FreshView>,
)
    requires
        failure(export) is None,
    ensures
        ({
            let info = session_info(export)->0;
            let copied = session_info(copied_export(export, session, now, fresh))->0;
            match text_member(info, "title"@) {
                Some(title) => text_member(copied, "title"@) == Some(title + " (imported)"@),
                None => {
                    &&& copied.contains_key("title"@) == info.contains_key("title"@)
                    &&& info.contains_key("title"@) ==> copied["title"@] == info["title"@]
                },
            }
        }),
{
    lemma_names_differ();
    lemma_copy_shape(export, session, now, fresh);
}

/// Two objects have the same member `key`, or both have none.
pub open spec fn same_member(a: Members, b: Members, key: Seq<char>) -> bool {
    &&& a.contains_key(key) == b.contains_key(key)
    &&& a.contains_key(key) ==> a[key] == b[key]
}

/// The copy keeps everything else that the export says: of the session, of each message
/// and of each part. It has as many messages and parts as the export, in the same order.
pub proof fn copy_keeps_the_rest(
    export: JsonView,
    session: Seq<char>,
    now: u64,
    fresh: Seq<FreshView>,
)
    requires
        failure(export) is None,
    ensures
        ({
            let copy = copied_export(export, session, now, fresh);
            let messages = message_list(export)->0;
            let copies = message_list(copy)->0;
            &&& copy is Object && export is Object
            &&& forall|key: Seq<char>|
                key != "info"@ && key != "messages"@ ==> #[trigger] same_member(
                    export->Object_0,
                    copy->Object_0,
                    key,
                )
            &&& forall|key: Seq<char>|
                key != "id"@ && key != "title"@ && key != "time"@ && key != "share"@ && key
                    != "revert"@ && key != "parentID"@ && key != "workspaceID"@
                    ==> #[trigger] same_member(session_info(export)->0, session_info(copy)->0, key)
            &&& copies.len() == messages.len()
            &&& forall|i: int, key: Seq<char>|
                0 <= i < messages.len() && key != "info"@ && key != "parts"@
                    ==> #[trigger] same_member(messages[i]->Object_0, copies[i]->Object_0, key)
            &&& forall|i: int, key: Seq<char>|
                0 <= i < messages.len() && key != "id"@ && key != "sessionID"@ && key != "parentID"@
                    ==> #[trigger] same_member(info_of(export, i), info_of(copy, i), key)
            &&& forall|i: int|
                0 <= i < messages.len() ==> {
                    &&& (parts_of(export, i) is Some) == (#[trigger] parts_of(copy, i) is Some)
                    &&& parts_of(export, i) is Some ==> (parts_of(export, i)->0).len() == (parts_of(
                        copy,
                        i,
                    )->0).len()
                }
            &&& forall|i: int, j: int|
                0 <= i < messages.len() && parts_of(export, i) is Some && 0 <= j < (parts_of(
                    export,
                    i,
                )->0).len() && (parts_of(export, i)->0)[j] !is Object ==> #[trigger] (parts_of(
                    copy,
                    i,
                )->0)[j] == (parts_of(export, i)->0)[j]
            &&& forall|i: int, j: int, key: Seq<char>|
                0 <= i < messages.len() && parts_of(export, i) is Some && 0 <= j < (parts_of(
                    export,
                    i,
                )->0).len() && (parts_of(export, i)->0)[j] is Object && key != "id"@ && key
                    != "sessionID"@ && key != "messageID"@ && key != "tail_start_id"@
                    ==> #[trigger] same_member(
                    (parts_of(export, i)->0)[j]->Object_0,
                    (parts_of(copy, i)->0)[j]->Object_0,
                    key,
                )
        }),
{
    lemma_names_differ();
    lemma_copy_shape(export, session, now, fresh);
    let copy = copied_export(export, session, now, fresh);
    let messages = message_list(export)->0;
    let copies = message_list(copy)->0;
    assert forall|i: int| 0 <= i < messages.len() implies {
        &&& #[trigger] copies[i] == copied_message(
            messages[i],
            session,
            fresh[i],
            renamed(messages, fresh, i + 1),
        )
        &&& messages[i] is Object
        &&& info_of(copy, i) == copied_message_info(
            info_of(export, i),
            session,
            fresh[i].message,
            renamed(messages, fresh, i + 1),
        )
        &&& parts_of(copy, i) == match parts_of(export, i) {
            Some(parts) => Some(
                copied_parts(
                    parts,
                    session,
                    fresh[i],
                    renamed(messages, fresh, i + 1),
                    parts.len() as int,
                ),
            ),
            None => None,
        }
    } by {
        lemma_message_shape(messages[i], session, fresh[i], renamed(messages, fresh, i + 1));
    }
    assert forall|i: int, key: Seq<char>|
        0 <= i < messages.len() && key != "info"@ && key
            != "parts"@ implies #[trigger] same_member(
        messages[i]->Object_0,
        copies[i]->Object_0,
        key,
    ) by {
        let _ = copies[i];
    }
    assert forall|i: int, key: Seq<char>|
        0 <= i < messages.len() && key != "id"@ && key != "sessionID"@ && key
            != "parentID"@ implies #[trigger] same_member(
        info_of(export, i),
        info_of(copy, i),
        key,
    ) by {
        let _ = copies[i];
    }
    assert forall|i: int| 0 <= i < messages.len() implies {
        &&& (parts_of(export, i) is Some) == (#[trigger] parts_of(copy, i) is Some)
        &&& parts_of(export, i) is Some ==> (parts_of(export, i)->0).len() == (parts_of(
            copy,
            i,
        )->0).len()
    } by {
        let _ = copies[i];
    }
    assert forall|i: int, j: int|
        0 <= i < messages.len() && parts_of(export, i) is Some && 0 <= j < (parts_of(
            export,
            i,
        )->0).len() && (parts_of(export, i)->0)[j] !is Object implies #[trigger] (parts_of(
        copy,
        i,
    )->0)[j] == (parts_of(export, i)->0)[j] by {
        let _ = copies[i];
    }
    assert forall|i: int, j: int, key: Seq<char>|
        0 <= i < messages.len() && parts_of(export, i) is Some && 0 <= j < (parts_of(
            export,
            i,
        )->0).len() && (parts_of(export, i)->0)[j] is Object && key != "id"@ && key != "sessionID"@
            && key != "messageID"@ && key != "tail_start_id"@ implies #[trigger] same_member(
        (parts_of(export, i)->0)[j]->Object_0,
        (parts_of(copy, i)->0)[j]->Object_0,
        key,
    ) by {
        let _ = copies[i];
    }
}

/// The last of the first `n` messages whose old identifier is `id` is message `j`.
pub open spec fn last_named(messages: Seq<JsonView>, id: Seq<char>, j: int, n: int) -> bool {
    &&& 0 <= j < n
    &&& message_id(messages[j]) == Some(id)
    &&& forall|k: int| j < k < n ==> message_id(#[trigger] messages[k]) != Some(id)
}

/// None of the first `n` messages has the old identifier `id`.
pub open spec fn none_named(messages: Seq<JsonView>, id: Seq<char>, n: int) -> bool {
    forall|k: int| 0 <= k < n ==> message_id(#[trigger] messages[k]) != Some(id)
}

proof fn lemma_renamed(messages: Seq<JsonView>, fresh: Seq<FreshView>, n: int, id: Seq<char>)
    requires
        0 <= n <= messages.len(),
        forall|k: int| 0 <= k < n ==> message_id(#[trigger] messages[k]) is Some,
    ensures
        none_named(messages, id, n) ==> !renamed(messages, fresh, n).contains_key(id),
        forall|j: int| #[trigger]
            last_named(messages, id, j, n) ==> renamed(messages, fresh, n).contains_key(id)
                && renamed(messages, fresh, n)[id] == fresh[j].message,
        renamed(messages, fresh, n).contains_key(id) ==> exists|j: int| #[trigger]
            last_named(messages, id, j, n),
    decreases n,
{
    if n > 0 {
        lemma_renamed(messages, fresh, n - 1, id);
        assert(message_id(messages[n - 1]) is Some);
        if message_id(messages[n - 1]) == Some(id) {
            assert(last_named(messages, id, n - 1, n));
            assert forall|j: int| #[trigger] last_named(messages, id, j, n) implies j == n - 1 by {
                if j < n - 1 {
                    assert(message_id(messages[n - 1]) != Some(id));
                }
            }
        } else {
            if none_named(messages, id, n) {
                assert forall|k: int| 0 <= k < n - 1 implies message_id(#[trigger] messages[k])
                    != Some(id) by {}
            }
            assert forall|j: int| #[trigger] last_named(messages, id, j, n) implies last_named(
                messages,
                id,
                j,
                n - 1,
            ) by {}
            assert forall|j: int| #[trigger] last_named(messages, id, j, n - 1) implies last_named(
                messages,
                id,
                j,
                n,
            ) by {}
        }
    }
}

/// A reference in `before`, of message number `i` or one of its parts, is led in `after` to
/// the copy of the message that it named, if that is message `i` or one before it (the last
/// such message, where several had one identifier), and is left out if there is none. What
/// is no text stays.
pub open spec fn reference_led(
    messages: Seq<JsonView>,
    fresh: Seq<FreshView>,
    i: int,
    before: Members,
    after: Members,
    key: Seq<char>,
) -> bool {
    match text_member(before, key) {
        Some(id) => {
            &&& none_named(messages, id, i + 1) ==> !after.contains_key(key)
            &&& forall|j: int| #[trigger]
                last_named(messages, id, j, i + 1) ==> text_member(after, key) == Some(
                    fresh[j].message,
                )
        },
        None => same_member(before, after, key),
    }
}

/// The reference `key`, where it is text, names the copy of one of the first `i + 1`
/// messages.
pub open spec fn reference_new(
    messages: Seq<JsonView>,
    fresh: Seq<FreshView>,
    i: int,
    after: Members,
    key: Seq<char>,
) -> bool {
    text_member(after, key) is Some ==> exists|j: int|
        0 <= j <= i && text_member(after, key) == Some((#[trigger] fresh[j]).message)
}

proof fn lemma_redirected(
    messages: Seq<JsonView>,
    fresh: Seq<FreshView>,
    i: int,
    before: Members,
    members: Members,
    key: Seq<char>,
)
    requires
        0 <= i < messages.len(),
        forall|k: int| 0 <= k <= i ==> message_id(#[trigger] messages[k]) is Some,
        same_member(before, members, key),
    ensures
        reference_led(
            messages,
            fresh,
            i,
            before,
            redirected(members, key, renamed(messages, fresh, i + 1)),
            key,
        ),
        reference_new(
            messages,
            fresh,
            i,
            redirected(members, key, renamed(messages, fresh, i + 1)),
            key,
        ),
{
    let names = renamed(messages, fresh, i + 1);
    let after = redirected(members, key, names);
    match text_member(members, key) {
        Some(id) => {
            lemma_renamed(messages, fresh, i + 1, id);
            if names.contains_key(id) {
                let j = choose|j: int| #[trigger] last_named(messages, id, j, i + 1);
                assert(text_member(after, key) == Some(fresh[j].message));
                if none_named(messages, id, i + 1) {
                    assert(message_id(messages[j]) != Some(id));
                }
            } else {
                assert forall|j: int| #[trigger] last_named(messages, id, j, i + 1) implies text_member(
                    after,
                    key,
                ) == Some(fresh[j].message) by {
                    assert(names.contains_key(id));
                }
            }
        },
        None => {},
    }
}

/// Every reference in the copy leads to a message of the copy: the parent of a message and
/// the start of the tail that a part keeps.
pub proof fn references_lead_into_the_copy(
    export: JsonView,
    session: Seq<char>,
    now: u64,
    fresh: Seq<FreshView>,
)
    requires
        failure(export) is None,
    ensures
        ({
            let copy = copied_export(export, session, now, fresh);
            let messages = message_list(export)->0;
            &&& forall|i: int|
                0 <= i < messages.len() ==> {
                    &&& reference_led(
                        messages,
                        fresh,
                        i,
                        info_of(export, i),
                        #[trigger] info_of(copy, i),
                        "parentID"@,
                    )
                    &&& reference_new(messages, fresh, i, info_of(copy, i), "parentID"@)
                }
            &&& forall|i: int, j: int|
                0 <= i < messages.len() && parts_of(export, i) is Some && 0 <= j < (parts_of(
                    export,
                    i,
                )->0).len() && (parts_of(export, i)->0)[j] is Object ==> {
                    &&& reference_led(
                        messages,
                        fresh,
                        i,
                        (parts_of(export, i)->0)[j]->Object_0,
                        (#[trigger] (parts_of(copy, i)->0)[j])->Object_0,
                        "tail_start_id"@,
                    )
                    &&& reference_new(
                        messages,
                        fresh,
                        i,
                        (parts_of(copy, i)->0)[j]->Object_0,
                        "tail_start_id"@,
                    )
                }
        }),
{
    lemma_names_differ();
    lemma_copy_shape(export, session, now, fresh);
    let copy = copied_export(export, session, now, fresh);
    let messages = message_list(export)->0;
    let copies = message_list(copy)->0;
    assert forall|k: int| 0 <= k < messages.len() implies message_id(#[trigger] messages[k]) is Some
        && copies[k] == copied_message(
        messages[k],
        session,
        fresh[k],
        renamed(messages, fresh, k + 1),
    ) by {
        let _ = copies[k];
    }
    assert forall|i: int| 0 <= i < messages.len() implies {
        &&& reference_led(
            messages,
            fresh,
            i,
            info_of(export, i),
            #[trigger] info_of(copy, i),
            "parentID"@,
        )
        &&& reference_new(messages, fresh, i, info_of(copy, i), "parentID"@)
    } by {
        let info = info_of(export, i);
        lemma_message_shape(messages[i], session, fresh[i], renamed(messages, fresh, i + 1));
        lemma_redirected(
            messages,
            fresh,
            i,
            info,
            info.insert("id"@, JsonView::Text(fresh[i].message)).insert(
                "sessionID"@,
                JsonView::Text(session),
            ),
            "parentID"@,
        );
    }
    assert forall|i: int, j: int|
        0 <= i < messages.len() && parts_of(export, i) is Some && 0 <= j < (parts_of(
            export,
            i,
        )->0).len() && (parts_of(export, i)->0)[j] is Object implies {
        &&& reference_led(
            messages,
            fresh,
            i,
            (parts_of(export, i)->0)[j]->Object_0,
            (#[trigger] (parts_of(copy, i)->0)[j])->Object_0,
            "tail_start_id"@,
        )
        &&& reference_new(
            messages,
            fresh,
            i,
            (parts_of(copy, i)->0)[j]->Object_0,
            "tail_start_id"@,
        )
    } by {
        let parts = parts_of(export, i)->0;
        let part = parts[j]->Object_0;
        lemma_message_shape(messages[i], session, fresh[i], renamed(messages, fresh, i + 1));
        lemma_redirected(
            messages,
            fresh,
            i,
            part,
            part.insert(
                "id"@,
                JsonView::Text(fresh[i].parts[objects_among(parts, j) as int]),
            ).insert("sessionID"@, JsonView::Text(session)).insert(
                "messageID"@,
                JsonView::Text(fresh[i].message),
            ),
            "tail_start_id"@,
        );
    }
}

/// A copy can be copied in turn.
pub proof fn copy_can_be_copied(
    export: JsonView,
    session: Seq<char>,
    now: u64,
    fresh: Seq<FreshView>,
)
    requires
        failure(export) is None,
    ensures
        failure(copied_export(export, session, now, fresh)) is None,
{
    lemma_copy_shape(export, session, now, fresh);
    copy_belongs_to_the_new_session(export, session, now, fresh);
    let copy = copied_export(export, session, now, fresh);
    let messages = message_list(export)->0;
    let copies = message_list(copy)->0;
    lemma_identified(copies);
    if identified(copies) < copies.len() {
        let i = identified(copies) as int;
        let _ = copies[i];
        lemma_message_shape(messages[i], session, fresh[i], renamed(messages, fresh, i + 1));
        assert(text_member(info_of(copy, i), "id"@) is Some);
    }
}

/// An export that says nothing of its session stays as it is.
pub proof fn nothing_to_copy_leaves_the_export(
    export: JsonView,
    session: Seq<char>,
    now: u64,
    fresh: Seq<FreshView>,
)
    requires
        session_info(export) is None,
    ensures
        copied_export(export, session, now, fresh) == export,
{
}

proof fn lemma_stamps_grow(states: Seq<IdState>, k: int, l: int)
    requires
        1 <= k < l < states.len(),
        forall|m: int| 1 <= m < states.len() - 1 ==> in_order(#[trigger] states[m], states[m + 1]),
    ensures
        stamp(states[k].ms, states[k].counter) < stamp(states[l].ms, states[l].counter),
        stamp(states[k].ms, states[k].counter) / 0x1_0000_0000_0000 == stamp(
            states[l].ms,
            states[l].counter,
        ) / 0x1_0000_0000_0000,
    decreases l - k,
{
    if k < l - 1 {
        lemma_stamps_grow(states, k, l - 1);
    }
    assert(in_order(states[l - 1], states[l]));
}

/// Of the identifiers that were made in turn, those of one prefix sort in that turn, if they
/// ascend, and in the reverse of it, if they descend, where the time stamps are in order.
pub proof fn ids_of_one_kind_sort_in_turn(states: Seq<IdState>, issues: Seq<Issue>, k: int, l: int)
    requires
        chained(states, issues),
        forall|m: int| 1 <= m < states.len() - 1 ==> in_order(#[trigger] states[m], states[m + 1]),
        0 <= k < l < issues.len(),
        issues[k].prefix == issues[l].prefix,
        issues[k].descending == issues[l].descending,
    ensures
        !issues[k].descending ==> text_before(issues[k].text, issues[l].text) && text_before(
            id_digits(issues[k].prefix, issues[k].text),
            id_digits(issues[l].prefix, issues[l].text),
        ),
        issues[k].descending ==> text_before(issues[l].text, issues[k].text) && text_before(
            id_digits(issues[l].prefix, issues[l].text),
            id_digits(issues[k].prefix, issues[k].text),
        ),
{
    lemma_stamps_grow(states, k + 1, l + 1);
    if issues[k].descending {
        descending_ids_sort_against_time(
            issues[k].prefix,
            states[k + 1].ms,
            states[k + 1].counter,
            issues[k].text,
            states[l + 1].ms,
            states[l + 1].counter,
            issues[l].text,
        );
    } else {
        ascending_ids_sort_by_time(
            issues[k].prefix,
            states[k + 1].ms,
            states[k + 1].counter,
            issues[k].text,
            states[l + 1].ms,
            states[l + 1].counter,
            issues[l].text,
        );
    }
}

/// A text does not come before itself.
proof fn lemma_before_differs(a: Seq<char>, b: Seq<char>)
    requires
        text_before(a, b),
    ensures
        a != b,
{
}

/// The prefix of an identifier that is part of a copy.
proof fn lemma_kind(session: Seq<char>, fresh: Seq<FreshView>, k: int)
    requires
        0 <= k < copy_issues(session, fresh).len(),
    ensures
        ({
            let issue = copy_issues(session, fresh)[k];
            &&& k == 0 ==> issue.prefix == "ses"@ && issue.descending
            &&& k > 0 ==> (issue.prefix == "msg"@ || issue.prefix == "prt"@) && !issue.descending
        }),
    decreases fresh.len(),
{
    if fresh.len() > 0 && k > 0 {
        let rest = fresh.drop_last();
        if k < copy_issues(session, rest).len() {
            lemma_kind(session, rest, k);
        }
    }
}

proof fn lemma_prefix_leads(issue: Issue, before: IdState, after: IdState)
    requires
        issued(before, issue.prefix, issue.descending, issue.text, after),
    ensures
        issue.text.len() > issue.prefix.len(),
        issue.text.take(issue.prefix.len() as int) == issue.prefix,
{
    let value = id_value(issue.descending, after.ms, after.counter);
    let head = id_head(issue.prefix, value);
    assert(issue.text.take(issue.prefix.len() as int) =~= issue.prefix) by {
        assert forall|i: int| 0 <= i < issue.prefix.len() implies issue.text[i]
            == issue.prefix[i] by {
            assert(issue.text.take(head.len() as int)[i] == head[i]);
        }
    }
}

/// No identifier occurs twice in a copy, where the time stamps are in order.
pub proof fn ids_of_a_copy_are_different(
    export: JsonView,
    draw: Draw,
    before: IdState,
    after: IdState,
    k: int,
    l: int,
)
    requires
        drawn(export, draw, before, after),
        forall|m: int|
            1 <= m < draw.states.len() - 1 ==> in_order(
                #[trigger] draw.states[m],
                draw.states[m + 1],
            ),
        0 <= k < l < copy_issues(draw.session, draw.fresh).len(),
    ensures
        copy_issues(draw.session, draw.fresh)[k].text != copy_issues(
            draw.session,
            draw.fresh,
        )[l].text,
{
    let issues = copy_issues(draw.session, draw.fresh);
    lemma_kind(draw.session, draw.fresh, k);
    lemma_kind(draw.session, draw.fresh, l);
    if issues[k].prefix == issues[l].prefix {
        reveal_strlit("ses");
        reveal_strlit("msg");
        reveal_strlit("prt");
        assert("ses"@[0] == 's' && "msg"@[0] == 'm' && "prt"@[0] == 'p');
        ids_of_one_kind_sort_in_turn(draw.states, issues, k, l);
        lemma_before_differs(issues[k].text, issues[l].text);
    } else {
        reveal_strlit("ses");
        reveal_strlit("msg");
        reveal_strlit("prt");
        assert("ses"@.len() == 3 && "msg"@.len() == 3 && "prt"@.len() == 3);
        lemma_prefix_leads(issues[k], draw.states[k], draw.states[k + 1]);
        lemma_prefix_leads(issues[l], draw.states[l], draw.states[l + 1]);
    }
}

/// The place of message `i` among the identifiers of a copy.
pub open spec fn place(fresh: Seq<FreshView>, i: int) -> int {
    1 + all_message_issues(fresh.take(i)).len() as int
}

proof fn lemma_place(session: Seq<char>, fresh: Seq<FreshView>, i: int)
    requires
        0 <= i < fresh.len(),
    ensures
        place(fresh, i) + message_issues(fresh[i]).len() <= copy_issues(session, fresh).len(),
        forall|p: int|
            0 <= p < message_issues(fresh[i]).len() ==> copy_issues(session, fresh)[place(fresh, i)
                + p] == #[trigger] message_issues(fresh[i])[p],
        i + 1 < fresh.len() ==> place(fresh, i) + message_issues(fresh[i]).len() == place(
            fresh,
            i + 1,
        ),
    decreases fresh.len(),
{
    let rest = fresh.drop_last();
    assert(fresh.take(i + 1).drop_last() =~= fresh.take(i));
    if i < rest.len() {
        lemma_place(session, rest, i);
        assert(rest.take(i) =~= fresh.take(i));
        let issues = copy_issues(session, rest);
        assert forall|p: int| 0 <= p < message_issues(fresh[i]).len() implies copy_issues(
            session,
            fresh,
        )[place(fresh, i) + p] == #[trigger] message_issues(fresh[i])[p] by {
            assert(message_issues(rest[i])[p] == issues[place(rest, i) + p]);
        }
    } else {
        assert(fresh.take(i) =~= rest);
    }
}

proof fn lemma_places_grow(fresh: Seq<FreshView>, i: int, j: int)
    requires
        0 <= i < j < fresh.len(),
    ensures
        place(fresh, i) + message_issues(fresh[i]).len() <= place(fresh, j),
    decreases j - i,
{
    lemma_place(Seq::empty(), fresh, j - 1);
    if i < j - 1 {
        lemma_places_grow(fresh, i, j - 1);
    }
}

proof fn lemma_messages_sort(
    session: Seq<char>,
    fresh: Seq<FreshView>,
    states: Seq<IdState>,
    i: int,
    j: int,
)
    requires
        chained(states, copy_issues(session, fresh)),
        forall|m: int| 1 <= m < states.len() - 1 ==> in_order(#[trigger] states[m], states[m + 1]),
        0 <= i < j < fresh.len(),
    ensures
        text_before(fresh[i].message, fresh[j].message),
{
    let issues = copy_issues(session, fresh);
    lemma_place(session, fresh, i);
    lemma_place(session, fresh, j);
    lemma_places_grow(fresh, i, j);
    assert(message_issues(fresh[i])[0] == issues[place(fresh, i) + 0]);
    assert(message_issues(fresh[j])[0] == issues[place(fresh, j) + 0]);
    ids_of_one_kind_sort_in_turn(states, issues, place(fresh, i), place(fresh, j));
}

proof fn lemma_parts_sort(
    session: Seq<char>,
    fresh: Seq<FreshView>,
    states: Seq<IdState>,
    i: int,
    a: int,
    j: int,
    b: int,
)
    requires
        chained(states, copy_issues(session, fresh)),
        forall|m: int| 1 <= m < states.len() - 1 ==> in_order(#[trigger] states[m], states[m + 1]),
        0 <= i <= j < fresh.len(),
        0 <= a < fresh[i].parts.len(),
        0 <= b < fresh[j].parts.len(),
        i == j ==> a < b,
    ensures
        text_before(fresh[i].parts[a], fresh[j].parts[b]),
{
    let issues = copy_issues(session, fresh);
    lemma_place(session, fresh, i);
    lemma_place(session, fresh, j);
    if i < j {
        lemma_places_grow(fresh, i, j);
    }
    let k = place(fresh, i) + (a + 1);
    let l = place(fresh, j) + (b + 1);
    assert(message_issues(fresh[i])[a + 1] == issues[k]);
    assert(message_issues(fresh[j])[b + 1] == issues[l]);
    ids_of_one_kind_sort_in_turn(states, issues, k, l);
}

/// The new identifiers of messages sort in the order of the messages, and those of parts in
/// the order of the parts, over all messages, where the time stamps are in order.
pub proof fn drawn_ids_sort_in_turn(
    export: JsonView,
    draw: Draw,
    before: IdState,
    after: IdState,
)
    requires
        drawn(export, draw, before, after),
        forall|m: int|
            1 <= m < draw.states.len() - 1 ==> in_order(
                #[trigger] draw.states[m],
                draw.states[m + 1],
            ),
    ensures
        forall|i: int, j: int|
            0 <= i < j < draw.fresh.len() ==> text_before(
                (#[trigger] draw.fresh[i]).message,
                (#[trigger] draw.fresh[j]).message,
            ),
        forall|i: int, a: int, j: int, b: int|
            0 <= i <= j < draw.fresh.len() && 0 <= a < draw.fresh[i].parts.len() && 0 <= b
                < draw.fresh[j].parts.len() && (i < j || a < b) ==> text_before(
                #[trigger] draw.fresh[i].parts[a],
                #[trigger] draw.fresh[j].parts[b],
            ),
{
    assert forall|i: int, j: int| 0 <= i < j < draw.fresh.len() implies text_before(
        (#[trigger] draw.fresh[i]).message,
        (#[trigger] draw.fresh[j]).message,
    ) by {
        lemma_messages_sort(draw.session, draw.fresh, draw.states, i, j);
    }
    assert forall|i: int, a: int, j: int, b: int|
        0 <= i <= j < draw.fresh.len() && 0 <= a < draw.fresh[i].parts.len() && 0 <= b
            < draw.fresh[j].parts.len() && (i < j || a < b) implies text_before(
        #[trigger] draw.fresh[i].parts[a],
        #[trigger] draw.fresh[j].parts[b],
    ) by {
        lemma_parts_sort(draw.session, draw.fresh, draw.states, i, a, j, b);
    }
}

proof fn lemma_objects_apart(parts: Seq<JsonView>, a: int, b: int)
    requires
        0 <= a < b <= parts.len(),
        parts[a] is Object,
    ensures
        objects_among(parts, a) < objects_among(parts, b),
    decreases b - a,
{
    if a < b - 1 {
        lemma_objects_apart(parts, a, b - 1);
    }
}

/// Part `j` of message `i` is there and is an object.
pub open spec fn is_object_part(export: JsonView, i: int, j: int) -> bool {
    &&& 0 <= i < (message_list(export)->0).len()
    &&& parts_of(export, i) is Some
    &&& 0 <= j < (parts_of(export, i)->0).len()
    &&& (parts_of(export, i)->0)[j] is Object
}

/// The identifier of part `j` of message `i`.
pub open spec fn part_id(export: JsonView, i: int, j: int) -> Seq<char> {
    text_member((parts_of(export, i)->0)[j]->Object_0, "id"@)->0
}

/// The messages of a copy, and the parts of all its messages that are objects, sort by their
/// identifiers in the order in which the copy holds them, where the time stamps are in order.
pub proof fn copy_sorts_in_its_own_order(
    export: JsonView,
    draw: Draw,
    before: IdState,
    after: IdState,
)
    requires
        failure(export) is None,
        drawn(export, draw, before, after),
        forall|m: int|
            1 <= m < draw.states.len() - 1 ==> in_order(
                #[trigger] draw.states[m],
                draw.states[m + 1],
            ),
    ensures
        ({
            let copy = copied_export(export, draw.session, draw.now, draw.fresh);
            let n = (message_list(export)->0).len();
            &&& forall|i: int, j: int|
                0 <= i < j < n ==> text_before(
                    text_member(#[trigger] info_of(copy, i), "id"@)->0,
                    text_member(#[trigger] info_of(copy, j), "id"@)->0,
                )
            &&& forall|i: int, a: int, j: int, b: int|
                #![trigger part_id(copy, i, a), part_id(copy, j, b)]
                is_object_part(export, i, a) && is_object_part(export, j, b) && (i < j || i == j && a
                    < b) ==> text_before(part_id(copy, i, a), part_id(copy, j, b))
        }),
{
    let copy = copied_export(export, draw.session, draw.now, draw.fresh);
    let messages = message_list(export)->0;
    let n = messages.len();
    copy_belongs_to_the_new_session(export, draw.session, draw.now, draw.fresh);
    lemma_identified(messages);
    assert forall|i: int, j: int| 0 <= i < j < n implies text_before(
        text_member(#[trigger] info_of(copy, i), "id"@)->0,
        text_member(#[trigger] info_of(copy, j), "id"@)->0,
    ) by {
        lemma_messages_sort(draw.session, draw.fresh, draw.states, i, j);
    }
    assert forall|i: int, a: int, j: int, b: int|
        #![trigger part_id(copy, i, a), part_id(copy, j, b)]
        is_object_part(export, i, a) && is_object_part(export, j, b) && (i < j || i == j && a
            < b) implies text_before(part_id(copy, i, a), part_id(copy, j, b)) by {
        let parts = parts_of(export, i)->0;
        let later = parts_of(export, j)->0;
        lemma_objects_apart(parts, a, parts.len() as int);
        lemma_objects_apart(later, b, later.len() as int);
        if i == j {
            lemma_objects_apart(parts, a, b);
        }
        assert(draw.fresh[i].parts.len() == objects_among(parts, parts.len() as int));
        assert(draw.fresh[j].parts.len() == objects_among(later, later.len() as int));
        lemma_parts_sort(
            draw.session,
            draw.fresh,
            draw.states,
            i,
            objects_among(parts, a) as int,
            j,
            objects_among(later, b) as int,
        );
    }
}

/// The copy is another session than the one that was exported, unless the exported session
/// already has an identifier with the very number that the copy's identifier holds.
pub proof fn copy_is_another_session(
    export: JsonView,
    draw: Draw,
    before: IdState,
    after: IdState,
)
    requires
        failure(export) is None,
        drawn(export, draw, before, after),
        text_member(session_info(export)->0, "id"@) matches Some(id) ==> !is_id(
            id,
            "ses"@,
            id_value(true, draw.states[1].ms, draw.states[1].counter),
        ),
    ensures
        ({
            let copy = copied_export(export, draw.session, draw.now, draw.fresh);
            text_member(session_info(copy)->0, "id"@) != text_member(
                session_info(export)->0,
                "id"@,
            )
        }),
{
    copy_belongs_to_the_new_session(export, draw.session, draw.now, draw.fresh);
    let issue = copy_issues(draw.session, draw.fresh)[0];
    assert(issued(
        draw.states[0],
        issue.prefix,
        issue.descending,
        issue.text,
        draw.states[1],
    ));
}

/// Identifiers with different numbers are different.
proof fn lemma_numbers_tell_apart(prefix: Seq<char>, a: nat, b: nat, text: Seq<char>)
    requires
        a != b,
        a <= 0xFFFF_FFFF_FFFF,
        b <= 0xFFFF_FFFF_FFFF,
        is_id(text, prefix, a),
    ensures
        !is_id(text, prefix, b),
{
    if is_id(text, prefix, b) {
        if a < b {
            ids_follow_numbers(prefix, a, b, text, text);
        } else {
            ids_follow_numbers(prefix, b, a, text, text);
        }
        lemma_before_differs(text, text);
    }
}

/// The copy of a session whose identifier was made at another time is another session, where
/// the low 48 bits of the two time stamps differ.
pub proof fn copy_of_an_older_session_is_another_session(
    export: JsonView,
    draw: Draw,
    before: IdState,
    after: IdState,
    id: Seq<char>,
    ms: u64,
    counter: u64,
)
    requires
        failure(export) is None,
        drawn(export, draw, before, after),
        text_member(session_info(export)->0, "id"@) == Some(id),
        is_id(id, "ses"@, id_value(true, ms, counter)),
        id_value(true, ms, counter) != id_value(true, draw.states[1].ms, draw.states[1].counter),
    ensures
        ({
            let copy = copied_export(export, draw.session, draw.now, draw.fresh);
            text_member(session_info(copy)->0, "id"@) != Some(id)
        }),
{
    lemma_numbers_tell_apart(
        "ses"@,
        id_value(true, ms, counter),
        id_value(true, draw.states[1].ms, draw.states[1].counter),
        id,
    );
    copy_is_another_session(export, draw, before, after);
}

/// The number in the new identifier of message `i`.
pub open spec fn message_number(draw: Draw, i: int) -> nat {
    let state = draw.states[place(draw.fresh, i) + 1];
    id_value(false, state.ms, state.counter)
}

/// The number in the new identifier of part `j` of message `i`.
pub open spec fn part_number(export: JsonView, draw: Draw, i: int, j: int) -> nat {
    let state = draw.states[place(draw.fresh, i) + 2 + objects_among(parts_of(export, i)->0, j)];
    id_value(false, state.ms, state.counter)
}

proof fn lemma_message_number(
    export: JsonView,
    draw: Draw,
    before: IdState,
    after: IdState,
    i: int,
)
    requires
        failure(export) is None,
        drawn(export, draw, before, after),
        0 <= i < (message_list(export)->0).len(),
    ensures
        is_id(draw.fresh[i].message, "msg"@, message_number(draw, i)),
{
    lemma_identified(message_list(export)->0);
    lemma_place(draw.session, draw.fresh, i);
    let issues = copy_issues(draw.session, draw.fresh);
    assert(message_issues(draw.fresh[i])[0] == issues[place(draw.fresh, i) + 0]);
}

proof fn lemma_part_number(
    export: JsonView,
    draw: Draw,
    before: IdState,
    after: IdState,
    i: int,
    j: int,
)
    requires
        failure(export) is None,
        drawn(export, draw, before, after),
        is_object_part(export, i, j),
    ensures
        is_id(
            draw.fresh[i].parts[objects_among(parts_of(export, i)->0, j) as int],
            "prt"@,
            part_number(export, draw, i, j),
        ),
{
    let parts = parts_of(export, i)->0;
    let a = objects_among(parts, j) as int;
    lemma_identified(message_list(export)->0);
    lemma_objects_apart(parts, j, parts.len() as int);
    assert(draw.fresh[i].parts.len() == objects_among(parts, parts.len() as int));
    lemma_place(draw.session, draw.fresh, i);
    let issues = copy_issues(draw.session, draw.fresh);
    assert(message_issues(draw.fresh[i])[a + 1] == issues[place(draw.fresh, i) + (a + 1)]);
}

/// A message of the copy has another identifier than the message it is a copy of, unless the
/// exported identifier already holds the very number that the new one holds.
pub proof fn copied_message_is_another_message(
    export: JsonView,
    draw: Draw,
    before: IdState,
    after: IdState,
    i: int,
)
    requires
        failure(export) is None,
        drawn(export, draw, before, after),
        0 <= i < (message_list(export)->0).len(),
        text_member(info_of(export, i), "id"@) matches Some(id) ==> !is_id(
            id,
            "msg"@,
            message_number(draw, i),
        ),
    ensures
        ({
            let copy = copied_export(export, draw.session, draw.now, draw.fresh);
            text_member(info_of(copy, i), "id"@) != text_member(info_of(export, i), "id"@)
        }),
{
    copy_belongs_to_the_new_session(export, draw.session, draw.now, draw.fresh);
    lemma_message_number(export, draw, before, after, i);
}

/// A copy of a message whose identifier holds another number than the new one has another
/// identifier.
pub proof fn copy_of_an_older_message_is_another_message(
    export: JsonView,
    draw: Draw,
    before: IdState,
    after: IdState,
    i: int,
    id: Seq<char>,
    number: nat,
)
    requires
        failure(export) is None,
        drawn(export, draw, before, after),
        0 <= i < (message_list(export)->0).len(),
        text_member(info_of(export, i), "id"@) == Some(id),
        number <= 0xFFFF_FFFF_FFFF,
        is_id(id, "msg"@, number),
        number != message_number(draw, i),
    ensures
        ({
            let copy = copied_export(export, draw.session, draw.now, draw.fresh);
            text_member(info_of(copy, i), "id"@) != Some(id)
        }),
{
    lemma_numbers_tell_apart("msg"@, number, message_number(draw, i), id);
    copied_message_is_another_message(export, draw, before, after, i);
}

/// A part of the copy that is an object has another identifier than the part it is a copy of,
/// unless the exported identifier already holds the very number that the new one holds.
pub proof fn copied_part_is_another_part(
    export: JsonView,
    draw: Draw,
    before: IdState,
    after: IdState,
    i: int,
    j: int,
)
    requires
        failure(export) is None,
        drawn(export, draw, before, after),
        is_object_part(export, i, j),
        text_member((parts_of(export, i)->0)[j]->Object_0, "id"@) matches Some(id) ==> !is_id(
            id,
            "prt"@,
            part_number(export, draw, i, j),
        ),
    ensures
        ({
            let copy = copied_export(export, draw.session, draw.now, draw.fresh);
            text_member((parts_of(copy, i)->0)[j]->Object_0, "id"@) != text_member(
                (parts_of(export, i)->0)[j]->Object_0,
                "id"@,
            )
        }),
{
    copy_belongs_to_the_new_session(export, draw.session, draw.now, draw.fresh);
    lemma_part_number(export, draw, before, after, i, j);
}

/// A copy of a part whose identifier holds another number than the new one has another
/// identifier.
pub proof fn copy_of_an_older_part_is_another_part(
    export: JsonView,
    draw: Draw,
    before: IdState,
    after: IdState,
    i: int,
    j: int,
    id: Seq<char>,
    number: nat,
)
    requires
        failure(export) is None,
        drawn(export, draw, before, after),
        is_object_part(export, i, j),
        text_member((parts_of(export, i)->0)[j]->Object_0, "id"@) == Some(id),
        number <= 0xFFFF_FFFF_FFFF,
        is_id(id, "prt"@, number),
        number != part_number(export, draw, i, j),
    ensures
        ({
            let copy = copied_export(export, draw.session, draw.now, draw.fresh);
            text_member((parts_of(copy, i)->0)[j]->Object_0, "id"@) != Some(id)
        }),
{
    lemma_numbers_tell_apart("prt"@, number, part_number(export, draw, i, j), id);
    copied_part_is_another_part(export, draw, before, after, i, j);
}

} // verus!
