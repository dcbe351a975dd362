//! What a copy says, member by member, for every export, time and choice of identifiers.
use vstd::prelude::*;
#[allow(unused_imports)]
use crate::copy::{
    copied_export, copied_info, copied_message, copied_message_info, copied_part, copied_parts,
    failure, identified, lemma_identified, lemma_names_differ, message_id, message_list,
    objects_among, part_ids_needed, part_list, redirected, renamed, session_info, supplied,
    FreshView,
};
#[allow(unused_imports)]
use crate::json::{text_member, JsonView, Members};
#[allow(unused_imports)]
use crate::laws::{last_named, lemma_redirected, none_named, reference_led, same_member};

verus! {

/// The document has an object named `info`.
pub open spec fn has_info(document: JsonView) -> bool {
    &&& document is Object
    &&& document->Object_0.contains_key("info"@)
    &&& document->Object_0["info"@] is Object
}

/// The members of the document's object named `info`.
pub open spec fn info(document: JsonView) -> Members {
    document->Object_0["info"@]->Object_0
}

/// The message has an identifier.
pub open spec fn has_id(message: JsonView) -> bool {
    &&& has_info(message)
    &&& info(message).contains_key("id"@)
    &&& info(message)["id"@] is Text
}

/// The message has the identifier `id`.
pub open spec fn named(message: JsonView, id: Seq<char>) -> bool {
    has_id(message) && info(message)["id"@] == JsonView::Text(id)
}

/// The export has a list named `messages`.
pub open spec fn has_messages(export: JsonView) -> bool {
    &&& export is Object
    &&& export->Object_0.contains_key("messages"@)
    &&& export->Object_0["messages"@] is List
}

/// The items of the export's list named `messages`.
pub open spec fn messages(export: JsonView) -> Seq<JsonView> {
    export->Object_0["messages"@]->List_0
}

/// The message has a list named `parts`.
pub open spec fn has_parts(message: JsonView) -> bool {
    &&& message is Object
    &&& message->Object_0.contains_key("parts"@)
    &&& message->Object_0["parts"@] is List
}

/// The items of the message's list named `parts`.
pub open spec fn parts(message: JsonView) -> Seq<JsonView> {
    message->Object_0["parts"@]->List_0
}

/// Message `i` and all messages before it have identifiers.
pub open spec fn reached(messages: Seq<JsonView>, i: int) -> bool {
    &&& 0 <= i < messages.len()
    &&& forall|k: int| 0 <= k <= i ==> has_id(#[trigger] messages[k])
}

/// How many of the parts are objects.
pub open spec fn objects(parts: Seq<JsonView>) -> nat {
    parts.filter(|part: JsonView| part is Object).len()
}

/// The export says of its session, has a list of messages, and each message has an
/// identifier.
pub open spec fn complete(export: JsonView) -> bool {
    &&& has_info(export)
    &&& has_messages(export)
    &&& forall|i: int| 0 <= i < messages(export).len() ==> has_id(#[trigger] messages(export)[i])
}

/// A reference that is text names, in the copy, the copy of the last message up to message
/// `i` that it named, and is left out if it named none. Anything else stays.
pub open spec fn led(
    messages: Seq<JsonView>,
    fresh: Seq<FreshView>,
    i: int,
    before: Members,
    after: Members,
    key: Seq<char>,
) -> bool {
    if before.contains_key(key) && before[key] is Text {
        let id = before[key]->Text_0;
        &&& (forall|k: int| 0 <= k <= i ==> !named(#[trigger] messages[k], id))
            ==> !after.contains_key(key)
        &&& forall|j: int|
            0 <= j <= i && named(#[trigger] messages[j], id) && (forall|k: int|
                j < k <= i ==> !named(#[trigger] messages[k], id)) ==> {
                &&& after.contains_key(key)
                &&& after[key] == JsonView::Text(fresh[j].message)
            }
    } else {
        same_member(before, after, key)
    }
}

pub(crate) proof fn lemma_named(message: JsonView)
    ensures
        message_id(message) is Some <==> has_id(message),
        forall|id: Seq<char>| message_id(message) == Some(id) <==> #[trigger] named(message, id),
{
}

proof fn lemma_reached(messages: Seq<JsonView>, i: int)
    requires
        0 <= i < messages.len(),
    ensures
        i < identified(messages) <==> reached(messages, i),
{
    lemma_identified(messages);
    if i < identified(messages) {
        assert forall|k: int| 0 <= k <= i implies has_id(#[trigger] messages[k]) by {
            lemma_named(messages[k]);
        }
    } else {
        lemma_named(messages[identified(messages) as int]);
    }
}

pub(crate) proof fn lemma_objects(parts: Seq<JsonView>, n: int)
    requires
        0 <= n <= parts.len(),
    ensures
        objects_among(parts, n) == objects(parts.take(n)),
    decreases n,
{
    reveal(Seq::filter);
    if n > 0 {
        lemma_objects(parts, n - 1);
        assert(parts.take(n).drop_last() =~= parts.take(n - 1));
    }
}

proof fn lemma_led(
    messages: Seq<JsonView>,
    fresh: Seq<FreshView>,
    i: int,
    before: Members,
    after: Members,
    key: Seq<char>,
)
    requires
        0 <= i < messages.len(),
        reference_led(messages, fresh, i, before, after, key),
    ensures
        led(messages, fresh, i, before, after, key),
{
    if before.contains_key(key) && before[key] is Text {
        let id = before[key]->Text_0;
        assert forall|k: int| 0 <= k < messages.len() implies (message_id(#[trigger] messages[k])
            == Some(id) <==> named(messages[k], id)) by {
            lemma_named(messages[k]);
        }
        if forall|k: int| 0 <= k <= i ==> !named(#[trigger] messages[k], id) {
            assert(none_named(messages, id, i + 1));
        }
        assert forall|j: int|
            0 <= j <= i && named(#[trigger] messages[j], id) && (forall|k: int|
                j < k <= i ==> !named(#[trigger] messages[k], id)) implies {
            &&& after.contains_key(key)
            &&& after[key] == JsonView::Text(fresh[j].message)
        } by {
            assert(last_named(messages, id, j, i + 1));
            assert(text_member(after, key) == Some(fresh[j].message));
        }
    }
}

/// What is missing of an export, if anything: what comes first of what the copying reads.
pub proof fn failures_say_what_is_missing(export: JsonView)
    ensures
        failure(export) is None <==> complete(export),
        failure(export) == Some("export JSON has no session info"@) <==> !has_info(export),
        failure(export) == Some("export JSON has no messages"@) <==> has_info(export)
            && !has_messages(export),
        failure(export) == Some("message has no info"@) <==> has_info(export) && has_messages(
            export,
        ) && exists|i: int|
            0 <= i < messages(export).len() && !has_info(#[trigger] messages(export)[i])
                && forall|k: int| 0 <= k < i ==> has_id(#[trigger] messages(export)[k]),
        failure(export) == Some("message has no id"@) <==> has_info(export) && has_messages(export)
            && exists|i: int|
            0 <= i < messages(export).len() && has_info(#[trigger] messages(export)[i])
                && !has_id(messages(export)[i]) && forall|k: int|
                0 <= k < i ==> has_id(#[trigger] messages(export)[k]),
{
    reveal_strlit("export JSON has no session info");
    reveal_strlit("export JSON has no messages");
    reveal_strlit("message has no info");
    reveal_strlit("message has no id");
    assert("export JSON has no session info"@.len() == 31);
    assert("export JSON has no messages"@.len() == 27);
    assert("message has no info"@.len() == 19);
    assert("message has no id"@.len() == 17);
    if has_info(export) && has_messages(export) {
        let list = messages(export);
        let n = identified(list) as int;
        lemma_identified(list);
        assert forall|k: int| 0 <= k < n implies has_id(#[trigger] list[k]) by {
            lemma_named(list[k]);
        }
        if n < list.len() {
            lemma_named(list[n]);
            assert(!has_id(list[n]));
            assert forall|i: int|
                0 <= i < list.len() && !has_id(#[trigger] list[i]) && (forall|k: int|
                    0 <= k < i ==> has_id(#[trigger] list[k])) implies i == n by {
                if n < i {
                    assert(has_id(list[n]));
                }
            }
            if !has_info(list[n]) {
                assert(!has_info(messages(export)[n]));
            } else {
                assert(has_info(messages(export)[n]) && !has_id(messages(export)[n]));
            }
        }
    }
}

/// Message `i` has a new identifier, and each of its parts that is an object has one.
pub open spec fn provided(message: JsonView, fresh: Seq<FreshView>, i: int) -> bool {
    &&& i < fresh.len()
    &&& has_parts(message) ==> objects(parts(message)) <= fresh[i].parts.len()
}

/// Enough identifiers are one for each message up to the first without an identifier of its
/// own, and one for each of its parts that is an object.
pub proof fn enough_ids_are_enough(export: JsonView, fresh: Seq<FreshView>)
    ensures
        supplied(export, fresh) <==> (has_info(export) && has_messages(export) ==> forall|i: int|
            reached(messages(export), i) ==> provided(#[trigger] messages(export)[i], fresh, i)),
{
    if has_info(export) && has_messages(export) {
        let list = messages(export);
        let n = identified(list) as int;
        lemma_identified(list);
        assert forall|i: int| 0 <= i < list.len() implies part_ids_needed(#[trigger] list[i])
            == if has_parts(list[i]) {
            objects(parts(list[i]))
        } else {
            0
        } by {
            if has_parts(list[i]) {
                let items = parts(list[i]);
                lemma_objects(items, items.len() as int);
                assert(items.take(items.len() as int) =~= items);
            }
        }
        if supplied(export, fresh) {
            assert forall|i: int| reached(list, i) implies provided(
                #[trigger] list[i],
                fresh,
                i,
            ) by {
                lemma_reached(list, i);
            }
        }
        if forall|i: int| reached(list, i) ==> provided(#[trigger] list[i], fresh, i) {
            assert forall|i: int| 0 <= i < n implies provided(#[trigger] list[i], fresh, i) by {
                lemma_reached(list, i);
            }
            if n > 0 {
                assert(provided(list[n - 1], fresh, n - 1));
            }
        }
    }
}

/// What the copy says of its session: its new identifier, the time it is made as the time it
/// was created and changed, the marked title, nothing of what bound the session to others,
/// and the rest as the export says it.
pub proof fn copied_session_says(
    export: JsonView,
    session: Seq<char>,
    now: u64,
    fresh: Seq<FreshView>,
    copy: JsonView,
)
    requires
        has_info(export),
        copy == copied_export(export, session, now, fresh),
    ensures
        has_info(copy),
        info(copy).contains_key("id"@) && info(copy)["id"@] == JsonView::Text(session),
        info(copy).contains_key("time"@) && info(copy)["time"@] is Object,
        forall|key: Seq<char>| #[trigger]
            info(copy)["time"@]->Object_0.contains_key(key) <==> key == "created"@ || key
                == "updated"@,
        info(copy)["time"@]->Object_0["created"@] == JsonView::Unsigned(now),
        info(copy)["time"@]->Object_0["updated"@] == JsonView::Unsigned(now),
        info(export).contains_key("title"@) && info(export)["title"@] is Text ==> {
            &&& info(copy).contains_key("title"@)
            &&& info(copy)["title"@] == JsonView::Text(
                info(export)["title"@]->Text_0 + " (imported)"@,
            )
        },
        !(info(export).contains_key("title"@) && info(export)["title"@] is Text) ==> same_member(
            info(export),
            info(copy),
            "title"@,
        ),
        !info(copy).contains_key("share"@),
        !info(copy).contains_key("revert"@),
        !info(copy).contains_key("parentID"@),
        !info(copy).contains_key("workspaceID"@),
        forall|key: Seq<char>|
            key != "id"@ && key != "time"@ && key != "title"@ && key != "share"@ && key
                != "revert"@ && key != "parentID"@ && key != "workspaceID"@
                ==> #[trigger] same_member(info(export), info(copy), key),
        forall|key: Seq<char>|
            key != "info"@ && key != "messages"@ ==> #[trigger] same_member(
                export->Object_0,
                copy->Object_0,
                key,
            ),
        !has_messages(export) ==> same_member(export->Object_0, copy->Object_0, "messages"@),
{
    lemma_names_differ();
}

/// An export that says nothing of its session stays as it is.
pub proof fn other_documents_stay(
    export: JsonView,
    session: Seq<char>,
    now: u64,
    fresh: Seq<FreshView>,
)
    requires
        !has_info(export),
    ensures
        copied_export(export, session, now, fresh) == export,
{
}

/// The copies of two times differ in their time, and in nothing else.
pub proof fn time_changes_the_time_only(
    export: JsonView,
    session: Seq<char>,
    now: u64,
    later: u64,
    fresh: Seq<FreshView>,
)
    requires
        has_info(export),
    ensures
        ({
            let copy = copied_export(export, session, now, fresh);
            let other = copied_export(export, session, later, fresh);
            &&& copy == other <==> now == later
            &&& forall|key: Seq<char>|
                key != "info"@ ==> #[trigger] same_member(copy->Object_0, other->Object_0, key)
            &&& forall|key: Seq<char>|
                key != "time"@ ==> #[trigger] same_member(info(copy), info(other), key)
        }),
{
    let copy = copied_export(export, session, now, fresh);
    let other = copied_export(export, session, later, fresh);
    lemma_names_differ();
    copied_session_says(export, session, now, fresh, copy);
    copied_session_says(export, session, later, fresh, other);
    if copy == other {
        assert(info(copy)["time"@]->Object_0["created"@] == info(
            other,
        )["time"@]->Object_0["created"@]);
    }
}

proof fn lemma_copied_message(
    export: JsonView,
    session: Seq<char>,
    now: u64,
    fresh: Seq<FreshView>,
    i: int,
)
    requires
        has_info(export),
        has_messages(export),
        0 <= i < messages(export).len(),
    ensures
        ({
            let copy = copied_export(export, session, now, fresh);
            &&& has_messages(copy)
            &&& messages(copy).len() == messages(export).len()
            &&& reached(messages(export), i) ==> messages(copy)[i] == copied_message(
                messages(export)[i],
                session,
                fresh[i],
                renamed(messages(export), fresh, i + 1),
            )
            &&& !reached(messages(export), i) ==> messages(copy)[i] == messages(export)[i]
        }),
{
    lemma_names_differ();
    lemma_reached(messages(export), i);
}

/// The copy has as many messages as the export. From the first message without an identifier
/// on, the messages stay as they are.
pub proof fn copied_messages_stand_in_place(
    export: JsonView,
    session: Seq<char>,
    now: u64,
    fresh: Seq<FreshView>,
    copy: JsonView,
)
    requires
        has_info(export),
        has_messages(export),
        copy == copied_export(export, session, now, fresh),
    ensures
        has_messages(copy),
        messages(copy).len() == messages(export).len(),
        forall|i: int|
            0 <= i < messages(export).len() && !reached(messages(export), i)
                ==> #[trigger] messages(copy)[i] == messages(export)[i],
{
    lemma_names_differ();
    assert forall|i: int|
        0 <= i < messages(export).len() && !reached(
            messages(export),
            i,
        ) implies #[trigger] messages(copy)[i] == messages(export)[i] by {
        lemma_copied_message(export, session, now, fresh, i);
    }
}

/// What the copy says of a message: its new identifier, the new session, its parent's new
/// identifier, and the rest as the export says it.
pub proof fn copied_message_says(
    export: JsonView,
    session: Seq<char>,
    now: u64,
    fresh: Seq<FreshView>,
    copy: JsonView,
    i: int,
)
    requires
        has_info(export),
        has_messages(export),
        reached(messages(export), i),
        copy == copied_export(export, session, now, fresh),
    ensures
        ({
            let message = messages(export)[i];
            let copied = messages(copy)[i];
            &&& has_info(copied)
            &&& info(copied).contains_key("id"@)
            &&& info(copied)["id"@] == JsonView::Text(fresh[i].message)
            &&& info(copied).contains_key("sessionID"@)
            &&& info(copied)["sessionID"@] == JsonView::Text(session)
            &&& led(messages(export), fresh, i, info(message), info(copied), "parentID"@)
            &&& forall|key: Seq<char>|
                key != "id"@ && key != "sessionID"@ && key != "parentID"@ ==> #[trigger] same_member(
                    info(message),
                    info(copied),
                    key,
                )
            &&& forall|key: Seq<char>|
                key != "info"@ && key != "parts"@ ==> #[trigger] same_member(
                    message->Object_0,
                    copied->Object_0,
                    key,
                )
            &&& has_parts(message) == has_parts(copied)
            &&& !has_parts(message) ==> same_member(
                message->Object_0,
                copied->Object_0,
                "parts"@,
            )
        }),
{
    lemma_names_differ();
    let list = messages(export);
    let message = list[i];
    let copied = messages(copy)[i];
    let names = renamed(list, fresh, i + 1);
    lemma_copied_message(export, session, now, fresh, i);
    assert(has_id(list[i]));
    assert forall|k: int| 0 <= k <= i implies message_id(#[trigger] list[k]) is Some by {
        lemma_named(list[k]);
    }
    assert(info(copied) == copied_message_info(info(message), session, fresh[i].message, names));
    lemma_redirected(
        list,
        fresh,
        i,
        info(message),
        info(message).insert("id"@, JsonView::Text(fresh[i].message)).insert(
            "sessionID"@,
            JsonView::Text(session),
        ),
        "parentID"@,
    );
    lemma_led(list, fresh, i, info(message), info(copied), "parentID"@);
}

/// What the copy says of a part: a part that is an object has the next new identifier, the
/// new session and message, the new identifier of the message that its tail starts with, and
/// the rest as the export says it. Any other part stays.
pub proof fn copied_part_says(
    export: JsonView,
    session: Seq<char>,
    now: u64,
    fresh: Seq<FreshView>,
    copy: JsonView,
    i: int,
    j: int,
)
    requires
        has_info(export),
        has_messages(export),
        reached(messages(export), i),
        has_parts(messages(export)[i]),
        0 <= j < parts(messages(export)[i]).len(),
        copy == copied_export(export, session, now, fresh),
    ensures
        has_parts(messages(copy)[i]),
        parts(messages(copy)[i]).len() == parts(messages(export)[i]).len(),
        ({
            let part = parts(messages(export)[i])[j];
            let copied = parts(messages(copy)[i])[j];
            &&& part !is Object ==> copied == part
            &&& part is Object ==> {
                &&& copied is Object
                &&& copied->Object_0.contains_key("id"@)
                &&& copied->Object_0["id"@] == JsonView::Text(
                    fresh[i].parts[objects(parts(messages(export)[i]).take(j)) as int],
                )
                &&& copied->Object_0.contains_key("sessionID"@)
                &&& copied->Object_0["sessionID"@] == JsonView::Text(session)
                &&& copied->Object_0.contains_key("messageID"@)
                &&& copied->Object_0["messageID"@] == JsonView::Text(fresh[i].message)
                &&& led(
                    messages(export),
                    fresh,
                    i,
                    part->Object_0,
                    copied->Object_0,
                    "tail_start_id"@,
                )
                &&& forall|key: Seq<char>|
                    key != "id"@ && key != "sessionID"@ && key != "messageID"@ && key
                        != "tail_start_id"@ ==> #[trigger] same_member(
                        part->Object_0,
                        copied->Object_0,
                        key,
                    )
            }
        }),
{
    lemma_names_differ();
    let list = messages(export);
    let message = list[i];
    let names = renamed(list, fresh, i + 1);
    let items = parts(message);
    lemma_copied_message(export, session, now, fresh, i);
    assert(has_id(list[i]));
    assert forall|k: int| 0 <= k <= i implies message_id(#[trigger] list[k]) is Some by {
        lemma_named(list[k]);
    }
    assert(parts(messages(copy)[i]) == copied_parts(
        items,
        session,
        fresh[i],
        names,
        items.len() as int,
    ));
    let copied = parts(messages(copy)[i])[j];
    if items[j] is Object {
        let part = items[j]->Object_0;
        let id = fresh[i].parts[objects_among(items, j) as int];
        lemma_objects(items, j);
        assert(copied == JsonView::Object(
            copied_part(part, session, fresh[i].message, id, names),
        ));
        lemma_redirected(
            list,
            fresh,
            i,
            part,
            part.insert("id"@, JsonView::Text(id)).insert(
                "sessionID"@,
                JsonView::Text(session),
            ).insert("messageID"@, JsonView::Text(fresh[i].message)),
            "tail_start_id"@,
        );
        lemma_led(list, fresh, i, part, copied->Object_0, "tail_start_id"@);
    }
}

} // verus!
