//! What an export says, and what a copy of it says.
use crate::json::Json;
use vstd::prelude::*;
#[allow(unused_imports)]
use crate::json::{list_member, object_member, text_member, JsonView, Members};

verus! {

/// The new identifiers of one message and of its parts, in order.
#[derive(Debug)]
pub struct FreshIds {
    pub message: String,
    pub parts: Vec<String>,
}

/// What [`FreshIds`] stands for.
pub struct FreshView {
    pub message: Seq<char>,
    pub parts: Seq<Seq<char>>,
}

impl View for FreshIds {
    type V = FreshView;

    open spec fn view(&self) -> FreshView {
        FreshView {
            message: self.message@,
            parts: Seq::new(self.parts@.len(), |i: int| self.parts@[i]@),
        }
    }
}

/// The new identifiers of several messages.
pub open spec fn fresh_view(fresh: Seq<FreshIds>) -> Seq<FreshView> {
    Seq::new(fresh.len(), |i: int| fresh[i]@)
}

/// What an export says of its session.
pub open spec fn session_info(export: JsonView) -> Option<Members> {
    object_member(export, "info"@)
}

/// The messages of an export.
pub open spec fn message_list(export: JsonView) -> Option<Seq<JsonView>> {
    list_member(export, "messages"@)
}

/// The identifier of a message.
pub open spec fn message_id(message: JsonView) -> Option<Seq<char>> {
    match object_member(message, "info"@) {
        Some(info) => text_member(info, "id"@),
        None => None,
    }
}

/// The parts of a message.
pub open spec fn part_list(message: JsonView) -> Option<Seq<JsonView>> {
    list_member(message, "parts"@)
}

/// How many messages stand before the first one without an identifier.
pub open spec fn identified(messages: Seq<JsonView>) -> nat
    decreases messages.len(),
{
    if messages.len() > 0 && message_id(messages[0]) is Some {
        1 + identified(messages.drop_first())
    } else {
        0
    }
}

/// How many of the first `n` parts are objects.
pub open spec fn objects_among(parts: Seq<JsonView>, n: int) -> nat
    decreases n,
{
    if n <= 0 {
        0
    } else {
        objects_among(parts, n - 1) + if parts[n - 1] is Object {
            1nat
        } else {
            0nat
        }
    }
}

/// How many identifiers the parts of a message take.
pub open spec fn part_ids_needed(message: JsonView) -> nat {
    match part_list(message) {
        Some(parts) => objects_among(parts, parts.len() as int),
        None => 0,
    }
}

/// The new identifiers by the old ones, over the first `n` messages. Of messages with one
/// old identifier, the last counts.
pub open spec fn renamed(messages: Seq<JsonView>, fresh: Seq<FreshView>, n: int) -> Map<
    Seq<char>,
    Seq<char>,
>
    decreases n,
{
    if n <= 0 {
        Map::empty()
    } else {
        renamed(messages, fresh, n - 1).insert(
            message_id(messages[n - 1])->0,
            fresh[n - 1].message,
        )
    }
}

/// A reference to a message, led to the message's new identifier, and left out where there
/// is none. What is not text is no reference.
pub open spec fn redirected(
    members: Members,
    key: Seq<char>,
    names: Map<Seq<char>, Seq<char>>,
) -> Members {
    match text_member(members, key) {
        Some(id) => if names.contains_key(id) {
            members.insert(key, JsonView::Text(names[id]))
        } else {
            members.remove(key)
        },
        None => members,
    }
}

/// The time that a copy is made, as the time it was created and last changed.
pub open spec fn time_members(now: u64) -> Members {
    Map::empty().insert("created"@, JsonView::Unsigned(now)).insert(
        "updated"@,
        JsonView::Unsigned(now),
    )
}

/// A title with the mark of a copy.
pub open spec fn marked_title(members: Members) -> Members {
    match text_member(members, "title"@) {
        Some(title) => members.insert("title"@, JsonView::Text(title + " (imported)"@)),
        None => members,
    }
}

/// What the copy says of its session.
pub open spec fn copied_info(info: Members, session: Seq<char>, now: u64) -> Members {
    marked_title(info.insert("id"@, JsonView::Text(session))).insert(
        "time"@,
        JsonView::Object(time_members(now)),
    ).remove("share"@).remove("revert"@).remove("parentID"@).remove("workspaceID"@)
}

/// What the copy says of a message.
pub open spec fn copied_message_info(
    info: Members,
    session: Seq<char>,
    message: Seq<char>,
    names: Map<Seq<char>, Seq<char>>,
) -> Members {
    redirected(
        info.insert("id"@, JsonView::Text(message)).insert("sessionID"@, JsonView::Text(session)),
        "parentID"@,
        names,
    )
}

/// The copy of a part that is an object.
pub open spec fn copied_part(
    part: Members,
    session: Seq<char>,
    message: Seq<char>,
    id: Seq<char>,
    names: Map<Seq<char>, Seq<char>>,
) -> Members {
    redirected(
        part.insert("id"@, JsonView::Text(id)).insert("sessionID"@, JsonView::Text(session)).insert(
            "messageID"@,
            JsonView::Text(message),
        ),
        "tail_start_id"@,
        names,
    )
}

/// The parts of a message with the first `n` copied. The identifiers go to the objects, in
/// order; another part stays as it is.
pub open spec fn copied_parts(
    parts: Seq<JsonView>,
    session: Seq<char>,
    fresh: FreshView,
    names: Map<Seq<char>, Seq<char>>,
    n: int,
) -> Seq<JsonView> {
    Seq::new(
        parts.len(),
        |j: int|
            match parts[j] {
                JsonView::Object(part) if j < n => JsonView::Object(
                    copied_part(
                        part,
                        session,
                        fresh.message,
                        fresh.parts[objects_among(parts, j) as int],
                        names,
                    ),
                ),
                other => other,
            },
    )
}

/// The copy of a message.
pub open spec fn copied_message(
    message: JsonView,
    session: Seq<char>,
    fresh: FreshView,
    names: Map<Seq<char>, Seq<char>>,
) -> JsonView {
    match (message, object_member(message, "info"@)) {
        (JsonView::Object(members), Some(info)) => {
            let with_info = members.insert(
                "info"@,
                JsonView::Object(copied_message_info(info, session, fresh.message, names)),
            );
            match part_list(message) {
                Some(parts) => JsonView::Object(
                    with_info.insert(
                        "parts"@,
                        JsonView::List(
                            copied_parts(parts, session, fresh, names, parts.len() as int),
                        ),
                    ),
                ),
                None => JsonView::Object(with_info),
            }
        },
        _ => message,
    }
}

/// The messages with the first `n` copied. A message refers to itself and those before it.
pub open spec fn copied_messages(
    messages: Seq<JsonView>,
    session: Seq<char>,
    fresh: Seq<FreshView>,
    n: int,
) -> Seq<JsonView> {
    Seq::new(
        messages.len(),
        |i: int|
            if i < n {
                copied_message(messages[i], session, fresh[i], renamed(messages, fresh, i + 1))
            } else {
                messages[i]
            },
    )
}

/// The export as the rewriting leaves it: a copy throughout, or up to the first thing that
/// is missing.
pub open spec fn copied_export(
    export: JsonView,
    session: Seq<char>,
    now: u64,
    fresh: Seq<FreshView>,
) -> JsonView {
    match (export, session_info(export)) {
        (JsonView::Object(members), Some(info)) => {
            let with_info = members.insert(
                "info"@,
                JsonView::Object(copied_info(info, session, now)),
            );
            match message_list(export) {
                Some(messages) => JsonView::Object(
                    with_info.insert(
                        "messages"@,
                        JsonView::List(
                            copied_messages(messages, session, fresh, identified(messages) as int),
                        ),
                    ),
                ),
                None => JsonView::Object(with_info),
            }
        },
        _ => export,
    }
}

/// What is missing of a message that has no identifier.
pub open spec fn message_failure(message: JsonView) -> Seq<char> {
    if object_member(message, "info"@) is None {
        "message has no info"@
    } else {
        "message has no id"@
    }
}

/// What is missing of an export that cannot be copied, the first thing first.
pub open spec fn failure(export: JsonView) -> Option<Seq<char>> {
    if session_info(export) is None {
        Some("export JSON has no session info"@)
    } else {
        match message_list(export) {
            None => Some("export JSON has no messages"@),
            Some(messages) => if identified(messages) < messages.len() {
                Some(message_failure(messages[identified(messages) as int]))
            } else {
                None
            },
        }
    }
}

/// There are identifiers for every message that is copied and for its parts.
pub open spec fn supplied(export: JsonView, fresh: Seq<FreshView>) -> bool {
    match (session_info(export), message_list(export)) {
        (Some(_), Some(messages)) => {
            &&& identified(messages) <= fresh.len()
            &&& forall|i: int|
                0 <= i < identified(messages) ==> part_ids_needed(#[trigger] messages[i])
                    <= fresh[i].parts.len()
        },
        _ => true,
    }
}

/// The messages before the first one without an identifier have identifiers.
pub proof fn lemma_identified(messages: Seq<JsonView>)
    ensures
        identified(messages) <= messages.len(),
        forall|i: int|
            0 <= i < identified(messages) ==> message_id(#[trigger] messages[i]) is Some,
        identified(messages) < messages.len() ==> message_id(
            messages[identified(messages) as int],
        ) is None,
    decreases messages.len(),
{
    if messages.len() > 0 && message_id(messages[0]) is Some {
        let rest = messages.drop_first();
        lemma_identified(rest);
        assert forall|i: int| 0 <= i < identified(messages) implies message_id(
            #[trigger] messages[i],
        ) is Some by {
            if i > 0 {
                assert(message_id(rest[i - 1]) is Some);
            }
        }
    }
}

/// The identifier of a message, or what is missing.
pub fn old_message_id(message: &Json) -> (id: Result<String, String>)
    ensures
        match id {
            Ok(id) => message_id(message@) == Some(id@),
            Err(missing) => message_id(message@) is None && missing@ == message_failure(message@),
        },
{
    match message {
        Json::Object(members) => match members.get("info") {
            Some(Json::Object(info)) => match info.get_text("id") {
                Some(id) => Ok(id),
                None => Err("message has no id".to_string()),
            },
            _ => Err("message has no info".to_string()),
        },
        _ => Err("message has no info".to_string()),
    }
}

/// The names of members that the rewriting sets, removes or looks up are different.
pub(crate) proof fn lemma_names_differ()
    ensures
        "info"@.len() == 4,
        "messages"@.len() == 8,
        "parts"@.len() == 5 && "parts"@[0] == 'p',
        "id"@.len() == 2,
        "sessionID"@.len() == 9 && "sessionID"@[0] == 's',
        "messageID"@.len() == 9 && "messageID"@[0] == 'm',
        "parentID"@.len() == 8 && "parentID"@[0] == 'p',
        "messages"@[0] == 'm',
        "tail_start_id"@.len() == 13,
        "title"@.len() == 5 && "title"@[0] == 't',
        "time"@.len() == 4 && "time"@[0] == 't',
        "info"@[0] == 'i',
        "share"@.len() == 5 && "share"@[0] == 's',
        "revert"@.len() == 6,
        "workspaceID"@.len() == 11,
        "created"@.len() == 7 && "created"@[0] == 'c',
        "updated"@.len() == 7 && "updated"@[0] == 'u',
{
    reveal_strlit("info");
    reveal_strlit("messages");
    reveal_strlit("parts");
    reveal_strlit("id");
    reveal_strlit("sessionID");
    reveal_strlit("messageID");
    reveal_strlit("parentID");
    reveal_strlit("tail_start_id");
    reveal_strlit("title");
    reveal_strlit("time");
    reveal_strlit("share");
    reveal_strlit("revert");
    reveal_strlit("workspaceID");
    reveal_strlit("created");
    reveal_strlit("updated");
}

} // verus!
