use session_import::codec::read_json;
use session_import::copy::FreshIds;
use session_import::id::IdState;
use session_import::json::{Json, JsonObject};
use session_import::rewrite::{rewrite_export, rewrite_export_with};

fn parse(text: &str) -> Json {
    read_json(text.as_bytes()).expect("JSON")
}

fn object(json: &Json) -> &JsonObject {
    match json {
        Json::Object(members) => members,
        other => panic!("not an object: {other:?}"),
    }
}

fn list(json: &Json) -> &Vec<Json> {
    match json {
        Json::List(items) => items,
        other => panic!("not a list: {other:?}"),
    }
}

fn member<'a>(json: &'a Json, key: &str) -> &'a Json {
    object(json).get(key).expect("member")
}

fn text<'a>(json: &'a Json, key: &str) -> &'a str {
    match member(json, key) {
        Json::Text(text) => text,
        other => panic!("not text: {other:?}"),
    }
}

fn has(json: &Json, key: &str) -> bool {
    object(json).get(key).is_some()
}

fn fresh(message: &str, parts: &[&str]) -> FreshIds {
    FreshIds {
        message: message.to_string(),
        parts: parts.iter().map(|id| id.to_string()).collect(),
    }
}

fn sample() -> Json {
    parse(
        r#"{
            "info": {
                "id": "ses_old",
                "title": "my session",
                "slug": "brave-otter",
                "parentID": "ses_parent",
                "workspaceID": "wsp_old",
                "share": { "url": "https://example.com" },
                "revert": { "messageID": "msg_a" },
                "time": { "created": 1, "updated": 2 }
            },
            "messages": [
                {
                    "info": { "id": "msg_a", "sessionID": "ses_old", "role": "user" },
                    "parts": [
                        { "id": "prt_a1", "sessionID": "ses_old", "messageID": "msg_a", "type": "text", "text": "hi" }
                    ]
                },
                {
                    "info": { "id": "msg_b", "sessionID": "ses_old", "role": "assistant", "parentID": "msg_a" },
                    "parts": [
                        { "id": "prt_b1", "sessionID": "ses_old", "messageID": "msg_b", "type": "compaction", "tail_start_id": "msg_a" },
                        { "id": "prt_b2", "sessionID": "ses_old", "messageID": "msg_b", "type": "compaction", "tail_start_id": "msg_missing" }
                    ]
                }
            ]
        }"#,
    )
}

#[test]
fn rewrite_remaps_all_ids() {
    let mut export = sample();
    let mut ids = IdState::new();

    let new_id = rewrite_export(&mut export, &mut ids).expect("rewrite");
    assert!(new_id.starts_with("ses_"));

    let info = member(&export, "info");
    assert_eq!(text(info, "id"), new_id);
    assert_eq!(text(info, "title"), "my session (imported)");
    assert_eq!(text(info, "slug"), "brave-otter");
    assert!(!has(info, "share"));
    assert!(!has(info, "revert"));
    assert!(!has(info, "parentID"));
    assert!(!has(info, "workspaceID"));

    let messages = list(member(&export, "messages"));
    let msg_a = member(&messages[0], "info");
    let msg_b = member(&messages[1], "info");
    let new_a = text(msg_a, "id");
    let new_b = text(msg_b, "id");
    assert!(new_a.starts_with("msg_") && new_a != "msg_a");
    assert!(new_b.starts_with("msg_") && new_b != "msg_b");
    assert_eq!(text(msg_a, "sessionID"), new_id);
    assert_eq!(text(msg_b, "parentID"), new_a);

    let part_a = &list(member(&messages[0], "parts"))[0];
    assert!(text(part_a, "id").starts_with("prt_"));
    assert_ne!(text(part_a, "id"), "prt_a1");
    assert_eq!(text(part_a, "sessionID"), new_id);
    assert_eq!(text(part_a, "messageID"), new_a);
    assert_eq!(text(part_a, "text"), "hi");

    let parts_b = list(member(&messages[1], "parts"));
    assert_eq!(text(&parts_b[0], "tail_start_id"), new_a);
    assert!(!has(&parts_b[1], "tail_start_id"));
    assert_eq!(text(&parts_b[0], "messageID"), new_b);
}

#[test]
fn given_ids_and_time_are_used() {
    let mut export = sample();
    let ids = vec![fresh("m1", &["p1"]), fresh("m2", &["p2", "p3"])];
    assert_eq!(rewrite_export_with(&mut export, "s", 77, &ids), Ok(()));
    let info = member(&export, "info");
    assert_eq!(text(info, "id"), "s");
    let time = member(info, "time");
    assert!(matches!(member(time, "created"), Json::Unsigned(77)));
    assert!(matches!(member(time, "updated"), Json::Unsigned(77)));
    let messages = list(member(&export, "messages"));
    assert_eq!(messages.len(), 2);
    assert_eq!(text(member(&messages[0], "info"), "id"), "m1");
    assert_eq!(text(member(&messages[0], "info"), "role"), "user");
    assert!(!has(member(&messages[0], "info"), "parentID"));
    assert_eq!(text(member(&messages[1], "info"), "id"), "m2");
    assert_eq!(text(member(&messages[1], "info"), "parentID"), "m1");
    let parts = list(member(&messages[1], "parts"));
    assert_eq!(text(&parts[0], "id"), "p2");
    assert_eq!(text(&parts[1], "id"), "p3");
    assert_eq!(text(&parts[1], "sessionID"), "s");
    assert_eq!(text(&parts[1], "messageID"), "m2");
    assert_eq!(text(&parts[1], "type"), "compaction");
}

#[test]
fn ids_of_a_copy_sort_in_its_order() {
    let mut export = sample();
    let mut ids = IdState::new();
    rewrite_export(&mut export, &mut ids).expect("rewrite");
    let messages = list(member(&export, "messages"));
    let first = text(member(&messages[0], "info"), "id");
    let second = text(member(&messages[1], "info"), "id");
    assert!(first < second);
    let earlier = list(member(&messages[0], "parts"));
    let parts = list(member(&messages[1], "parts"));
    assert!(text(&earlier[0], "id") < text(&parts[0], "id"));
    assert!(text(&parts[0], "id") < text(&parts[1], "id"));
}

#[test]
fn copy_is_another_session() {
    let mut export = sample();
    let mut ids = IdState::new();
    let copy = rewrite_export(&mut export, &mut ids).expect("rewrite");
    assert_ne!(copy, "ses_old");
    let again = rewrite_export(&mut export, &mut ids).expect("rewrite");
    assert_ne!(again[..16], copy[..16]);
    assert_eq!(text(member(&export, "info"), "id"), again);
}

#[test]
fn copied_messages_and_parts_have_other_ids() {
    let mut export = sample();
    let mut state = IdState::new();
    let ids = |export: &Json| {
        let mut ids = Vec::new();
        for message in list(member(export, "messages")) {
            ids.push(text(member(message, "info"), "id").to_string());
            for part in list(member(message, "parts")) {
                ids.push(text(part, "id").to_string());
            }
        }
        ids
    };
    let exported = ids(&export);
    rewrite_export(&mut export, &mut state).expect("rewrite");
    let copied = ids(&export);
    rewrite_export(&mut export, &mut state).expect("rewrite");
    let again = ids(&export);
    assert_eq!(exported.len(), 5);
    assert_eq!(copied.len(), 5);
    assert_eq!(again.len(), 5);
    for i in 0..5 {
        assert_ne!(exported[i], copied[i]);
        assert_eq!(again[i][..4], copied[i][..4]);
        assert_ne!(again[i][..16], copied[i][..16]);
    }
}

#[test]
fn ids_of_a_copy_are_different() {
    let mut export = sample();
    let mut state = IdState::new();
    let mut ids = vec![rewrite_export(&mut export, &mut state).expect("rewrite")];
    for message in list(member(&export, "messages")) {
        ids.push(text(member(message, "info"), "id").to_string());
        for part in list(member(message, "parts")) {
            ids.push(text(part, "id").to_string());
        }
    }
    assert_eq!(ids.len(), 6);
    ids.sort();
    ids.dedup();
    assert_eq!(ids.len(), 6);
}

#[test]
fn copy_can_be_copied() {
    let mut export = sample();
    let mut ids = IdState::new();
    let first = rewrite_export(&mut export, &mut ids).expect("rewrite");
    let second = rewrite_export(&mut export, &mut ids).expect("rewrite");
    assert_ne!(first, second);
    let info = member(&export, "info");
    assert_eq!(text(info, "title"), "my session (imported) (imported)");
    let messages = list(member(&export, "messages"));
    assert_eq!(
        text(member(&messages[1], "info"), "parentID"),
        text(member(&messages[0], "info"), "id")
    );
}

#[test]
fn references_name_the_last_message_so_far() {
    let mut export = parse(
        r#"{"info": {}, "messages": [
            {"info": {"id": "x", "parentID": "x"}},
            {"info": {"id": "x", "parentID": "x"}},
            {"info": {"id": "y", "parentID": "x"}, "parts": [{"tail_start_id": "z"}]},
            {"info": {"id": "z", "parentID": 7}, "parts": [{"tail_start_id": ["z"]}]}
        ]}"#,
    );
    let ids = vec![
        fresh("1", &[]),
        fresh("2", &[]),
        fresh("3", &["p"]),
        fresh("4", &["q"]),
    ];
    assert_eq!(rewrite_export_with(&mut export, "s", 0, &ids), Ok(()));
    let messages = list(member(&export, "messages"));
    assert_eq!(text(member(&messages[0], "info"), "parentID"), "1");
    assert_eq!(text(member(&messages[1], "info"), "parentID"), "2");
    assert_eq!(text(member(&messages[2], "info"), "parentID"), "2");
    assert!(matches!(
        member(member(&messages[3], "info"), "parentID"),
        Json::Unsigned(7)
    ));
    assert!(!has(&list(member(&messages[2], "parts"))[0], "tail_start_id"));
    assert_eq!(
        list(member(&list(member(&messages[3], "parts"))[0], "tail_start_id")).len(),
        1
    );
}

#[test]
fn parts_that_are_no_objects_stay() {
    let mut export = parse(
        r#"{"info": {"title": 3, "id": 9}, "extra": true, "messages": [
            {"info": {"id": "a"}, "parts": ["note", {"k": 1}, null, {"k": 2}], "more": "m"},
            {"info": {"id": "b"}, "parts": "none"},
            {"info": {"id": "c"}}
        ]}"#,
    );
    let ids = vec![fresh("A", &["p1", "p2"]), fresh("B", &[]), fresh("C", &[])];
    assert_eq!(rewrite_export_with(&mut export, "s", 0, &ids), Ok(()));
    assert!(matches!(member(&export, "extra"), Json::Bool(true)));
    assert!(matches!(
        member(member(&export, "info"), "title"),
        Json::Unsigned(3)
    ));
    let messages = list(member(&export, "messages"));
    assert_eq!(text(&messages[0], "more"), "m");
    let parts = list(member(&messages[0], "parts"));
    assert!(matches!(&parts[0], Json::Text(note) if note == "note"));
    assert_eq!(text(&parts[1], "id"), "p1");
    assert!(matches!(parts[2], Json::Null));
    assert_eq!(text(&parts[3], "id"), "p2");
    assert!(matches!(member(&parts[3], "k"), Json::Unsigned(2)));
    assert_eq!(text(&messages[1], "parts"), "none");
    assert!(!has(&messages[2], "parts"));
}

#[test]
fn missing_session_info_leaves_the_export() {
    for export in ["null", "[]", "{}", r#"{"info": 1, "messages": []}"#] {
        let mut json = parse(export);
        let mut ids = IdState::new();
        assert_eq!(
            rewrite_export(&mut json, &mut ids),
            Err("export JSON has no session info".to_string())
        );
        if let Json::Object(members) = &json {
            if let Some(info) = members.get("info") {
                assert!(matches!(info, Json::Unsigned(1)));
            }
        }
        assert_eq!(ids.counter, 1);
    }
}

#[test]
fn missing_messages() {
    for export in [r#"{"info": {}}"#, r#"{"info": {}, "messages": {}}"#] {
        let mut json = parse(export);
        let mut ids = IdState::new();
        assert_eq!(
            rewrite_export(&mut json, &mut ids),
            Err("export JSON has no messages".to_string())
        );
        assert!(has(member(&json, "info"), "id"));
    }
}

#[test]
fn message_without_info_or_id() {
    let cases = [
        (r#"7"#, "message has no info"),
        (r#"{"info": []}"#, "message has no info"),
        (r#"{"info": {}}"#, "message has no id"),
        (r#"{"info": {"id": 4}}"#, "message has no id"),
    ];
    for (message, missing) in cases {
        let mut export = parse(&format!(
            r#"{{"info": {{}}, "messages": [{{"info": {{"id": "a"}}}}, {message}, {{"info": {{"id": "b"}}}}]}}"#
        ));
        let ids = vec![fresh("A", &[])];
        assert_eq!(
            rewrite_export_with(&mut export, "s", 0, &ids),
            Err(missing.to_string())
        );
        let messages = list(member(&export, "messages"));
        assert_eq!(text(member(&messages[0], "info"), "id"), "A");
        assert_eq!(text(member(&messages[2], "info"), "id"), "b");
    }
}
