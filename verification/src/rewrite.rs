//! Turning an exported session into a new session.
//!
//! The copy has new identifiers throughout, and every reference between its parts leads
//! to a new identifier, so that importing it leaves the exported session alone.
use crate::clock::now_millis;
use crate::copy::{lemma_identified, lemma_names_differ, old_message_id, FreshIds};
use crate::draw::{draw_messages, lemma_chained_join};
use crate::id::{generate_id, IdState};
use crate::json::{lemma_list_view, lemma_list_view_update, Json, JsonObject};
use vstd::hash_map::StringHashMap;
use vstd::prelude::*;
#[allow(unused_imports)]
use crate::copy::{
    copied_export, copied_info, copied_message, copied_messages, copied_part, copied_parts, failure,
    fresh_view, identified, message_failure, message_id, objects_among, part_ids_needed, redirected,
    renamed, supplied,
};
#[allow(unused_imports)]
use crate::draw::{all_message_issues, chained, drawn, Draw, Issue};
#[allow(unused_imports)]
use crate::json::{list_view, JsonView};

verus! {

/// The names that a table of new identifiers holds.
pub open spec fn names_view(names: Map<Seq<char>, String>) -> Map<Seq<char>, Seq<char>> {
    names.map_values(|id: String| id@)
}

/// Leads a reference to a message to the message's new identifier.
fn redirect(object: &mut JsonObject, key: &str, names: &StringHashMap<String>)
    ensures
        final(object)@ == redirected(old(object)@, key@, names_view(names@)),
{
    if let Some(id) = object.get_text(key) {
        match names.get(id.as_str()) {
            Some(name) => {
                object.insert(key, Json::Text(name.clone()));
            },
            None => {
                object.remove(key);
            },
        }
    }
}

/// Makes what an export says of its session speak of the new session.
pub fn rewrite_info(info: &mut JsonObject, session: &str, now: u64)
    ensures
        final(info)@.contains_key("id"@) && final(info)@["id"@] == JsonView::Text(session@),
        final(info)@.contains_key("time"@) && final(info)@["time"@] == JsonView::Object(
            map!["created"@ => JsonView::Unsigned(now), "updated"@ => JsonView::Unsigned(now)],
        ),
        final(info)@ == copied_info(old(info)@, session@, now),
{
    proof {
        lemma_names_differ();
    }
    info.insert("id", Json::Text(session.to_string()));
    if let Some(title) = info.get_text("title") {
        let mut marked = title;
        marked.append(" (imported)");
        info.insert("title", Json::Text(marked));
    }
    let mut time = JsonObject::new();
    time.insert("created", Json::Unsigned(now));
    time.insert("updated", Json::Unsigned(now));
    info.insert("time", Json::Object(time));
    info.remove("share");
    info.remove("revert");
    info.remove("parentID");
    info.remove("workspaceID");
}

/// Makes a part belong to the new message and session.
fn rewrite_part(
    part: &mut JsonObject,
    session: &str,
    message: &str,
    id: &str,
    names: &StringHashMap<String>,
)
    ensures
        final(part)@ == copied_part(old(part)@, session@, message@, id@, names_view(names@)),
{
    part.insert("id", Json::Text(id.to_string()));
    part.insert("sessionID", Json::Text(session.to_string()));
    part.insert("messageID", Json::Text(message.to_string()));
    redirect(part, "tail_start_id", names);
}

/// Makes the parts of a message belong to the new message and session.
fn rewrite_parts(
    parts: &mut Vec<Json>,
    session: &str,
    fresh: &FreshIds,
    names: &StringHashMap<String>,
)
    requires
        objects_among(list_view(old(parts)@), old(parts)@.len() as int) <= fresh.parts@.len(),
    ensures
        list_view(final(parts)@) == copied_parts(
            list_view(old(parts)@),
            session@,
            fresh@,
            names_view(names@),
            old(parts)@.len() as int,
        ),
{
    let ghost before = list_view(parts@);
    let mut j: usize = 0;
    let mut used: usize = 0;
    proof {
        lemma_list_view(parts@);
        assert(before =~= copied_parts(before, session@, fresh@, names_view(names@), 0));
    }
    while j < parts.len()
        invariant
            j <= parts@.len(),
            parts@.len() == before.len(),
            before == list_view(old(parts)@),
            used == objects_among(before, j as int),
            used <= j,
            objects_among(before, before.len() as int) <= fresh.parts@.len(),
            list_view(parts@) == copied_parts(
                before,
                session@,
                fresh@,
                names_view(names@),
                j as int,
            ),
        decreases parts@.len() - j,
    {
        let ghost items = parts@;
        proof {
            lemma_list_view(items);
            assert(list_view(items)[j as int] == before[j as int]);
        }
        let part = &mut parts[j];
        match part {
            Json::Object(object) => {
                proof {
                    lemma_objects_among_grows(before, j + 1, before.len() as int);
                }
                rewrite_part(
                    object,
                    session,
                    fresh.message.as_str(),
                    fresh.parts[used].as_str(),
                    names,
                );
                used += 1;
            },
            _ => {},
        }
        proof {
            lemma_list_view_update(items, j as int, parts@[j as int]);
            assert(parts@ =~= items.update(j as int, parts@[j as int]));
            assert(list_view(parts@) =~= copied_parts(
                before,
                session@,
                fresh@,
                names_view(names@),
                j + 1,
            ));
        }
        j += 1;
    }
}

proof fn lemma_objects_among_grows(parts: Seq<JsonView>, m: int, n: int)
    requires
        m <= n,
    ensures
        objects_among(parts, m) <= objects_among(parts, n),
    decreases n - m,
{
    if m < n {
        lemma_objects_among_grows(parts, m, n - 1);
    }
}

/// Makes a message, and its parts, belong to the new session.
fn rewrite_message(
    message: &mut Json,
    session: &str,
    fresh: &FreshIds,
    names: &StringHashMap<String>,
)
    requires
        part_ids_needed(old(message)@) <= fresh.parts@.len(),
    ensures
        final(message)@ == copied_message(old(message)@, session@, fresh@, names_view(names@)),
{
    proof {
        lemma_names_differ();
    }
    match message {
        Json::Object(members) => {
            match members.object_mut("info") {
                Some(info) => {
                    info.insert("id", Json::Text(fresh.message.clone()));
                    info.insert("sessionID", Json::Text(session.to_string()));
                    redirect(info, "parentID", names);
                },
                None => {
                    return ;
                },
            }
            match members.list_mut("parts") {
                Some(parts) => {
                    proof {
                        lemma_list_view(parts@);
                    }
                    rewrite_parts(parts, session, fresh, names);
                },
                None => {},
            }
        },
        _ => {},
    }
}

/// Makes the messages belong to the new session, up to one without an identifier.
fn rewrite_messages(messages: &mut Vec<Json>, session: &str, fresh: &Vec<FreshIds>) -> (done: Result<
    (),
    String,
>)
    requires
        identified(list_view(old(messages)@)) <= fresh@.len(),
        forall|i: int|
            0 <= i < identified(list_view(old(messages)@)) ==> part_ids_needed(
                #[trigger] list_view(old(messages)@)[i],
            ) <= fresh@[i].parts@.len(),
    ensures
        list_view(final(messages)@) == copied_messages(
            list_view(old(messages)@),
            session@,
            fresh_view(fresh@),
            identified(list_view(old(messages)@)) as int,
        ),
        ({
            let n = identified(list_view(old(messages)@)) as int;
            match done {
                Ok(_) => n == old(messages)@.len(),
                Err(missing) => n < old(messages)@.len() && missing@ == message_failure(
                    list_view(old(messages)@)[n],
                ),
            }
        }),
{
    let ghost before = list_view(messages@);
    let ghost ids = fresh_view(fresh@);
    let mut names: StringHashMap<String> = StringHashMap::new();
    let mut i: usize = 0;
    proof {
        lemma_list_view(messages@);
        lemma_identified(before);
        assert(before =~= copied_messages(before, session@, ids, 0));
        assert(names_view(names@) =~= renamed(before, ids, 0));
    }
    while i < messages.len()
        invariant
            i <= messages@.len(),
            messages@.len() == before.len(),
            before == list_view(old(messages)@),
            before.len() == old(messages)@.len(),
            ids == fresh_view(fresh@),
            i <= identified(before),
            identified(before) <= fresh@.len(),
            identified(before) <= before.len(),
            forall|k: int|
                0 <= k < identified(before) ==> part_ids_needed(#[trigger] before[k])
                    <= fresh@[k].parts@.len(),
            forall|k: int| 0 <= k < identified(before) ==> message_id(#[trigger] before[k]) is Some,
            identified(before) < before.len() ==> message_id(before[identified(before) as int])
                is None,
            list_view(messages@) == copied_messages(before, session@, ids, i as int),
            names_view(names@) == renamed(before, ids, i as int),
        decreases messages@.len() - i,
    {
        let ghost items = messages@;
        proof {
            lemma_list_view(items);
            assert(list_view(items)[i as int] == before[i as int]);
        }
        match old_message_id(&messages[i]) {
            Ok(id) => {
                let ghost earlier = names@;
                names.insert(id, fresh[i].message.clone());
                proof {
                    assert(ids[i as int] == fresh@[i as int]@);
                    assert(names_view(names@) =~= names_view(earlier).insert(
                        id@,
                        fresh@[i as int].message@,
                    ));
                }
                rewrite_message(&mut messages[i], session, &fresh[i], &names);
                proof {
                    lemma_list_view_update(items, i as int, messages@[i as int]);
                    assert(messages@ =~= items.update(i as int, messages@[i as int]));
                    assert(list_view(messages@) =~= copied_messages(
                        before,
                        session@,
                        ids,
                        i + 1,
                    ));
                }
            },
            Err(missing) => {
                return Err(missing);
            },
        }
        i += 1;
    }
    Ok(())
}

/// Rewrites an export into a copy, with the identifiers and the time that are given.
///
/// Where something is missing, the export is left rewritten as far as it was read.
pub fn rewrite_export_with(
    export: &mut Json,
    session: &str,
    now: u64,
    fresh: &Vec<FreshIds>,
) -> (done: Result<(), String>)
    requires
        supplied(old(export)@, fresh_view(fresh@)),
    ensures
        final(export)@ == copied_export(old(export)@, session@, now, fresh_view(fresh@)),
        match done {
            Ok(_) => failure(old(export)@) is None,
            Err(missing) => failure(old(export)@) == Some(missing@),
        },
{
    proof {
        lemma_names_differ();
    }
    match export {
        Json::Object(members) => {
            match members.object_mut("info") {
                Some(info) => {
                    rewrite_info(info, session, now);
                },
                None => {
                    return Err("export JSON has no session info".to_string());
                },
            }
            match members.list_mut("messages") {
                Some(messages) => {
                    proof {
                        lemma_list_view(messages@);
                        lemma_identified(list_view(messages@));
                        let n = identified(list_view(messages@));
                        assert forall|i: int| 0 <= i < n implies part_ids_needed(
                            #[trigger] list_view(messages@)[i],
                        ) <= fresh@[i].parts@.len() by {
                            assert(fresh_view(fresh@)[i].parts.len() == fresh@[i].parts@.len());
                        }
                    }
                    rewrite_messages(messages, session, fresh)
                },
                None => Err("export JSON has no messages".to_string()),
            }
        },
        _ => Err("export JSON has no session info".to_string()),
    }
}

/// `copy` is what the rewriting with `draw` leaves of `export`, and `result` what it
/// reports: the new session's identifier, or what is missing.
pub open spec fn copied_with(
    export: JsonView,
    draw: Draw,
    copy: JsonView,
    result: Result<String, String>,
) -> bool {
    &&& copy == copied_export(export, draw.session, draw.now, draw.fresh)
    &&& match result {
        Ok(id) => failure(export) is None && id@ == draw.session,
        Err(missing) => failure(export) == Some(missing@),
    }
}

/// Rewrites an export into a copy, so that importing it makes a new session. Gives the new
/// session's identifier.
///
/// Where something is missing, says what, and leaves the export rewritten as far as it was
/// read.
pub fn rewrite_export(export: &mut Json, ids: &mut IdState) -> (result: Result<String, String>)
    ensures
        exists|draw: Draw|
            {
                &&& #[trigger] drawn(old(export)@, draw, *old(ids), *final(ids))
                &&& copied_with(old(export)@, draw, final(export)@, result)
            },
{
    let ghost start = *ids;
    let ghost before = export@;
    let session = generate_id(ids, "ses", true);
    let ghost first = *ids;
    let now: u64 = now_millis();
    let (fresh, more) = draw_messages(export, ids);
    proof {
        let issue = Issue { prefix: "ses"@, descending: true, text: session@ };
        let draw = Draw {
            session: session@,
            now,
            fresh: fresh_view(fresh@),
            states: seq![start, first] + more@.drop_first(),
        };
        assert(chained(seq![start, first], seq![issue]));
        lemma_chained_join(
            seq![start, first],
            seq![issue],
            more@,
            all_message_issues(fresh_view(fresh@)),
        );
        assert(drawn(before, draw, start, *ids));
    }
    match rewrite_export_with(export, session.as_str(), now, &fresh) {
        Ok(_) => Ok(session),
        Err(missing) => Err(missing),
    }
}

} // verus!
