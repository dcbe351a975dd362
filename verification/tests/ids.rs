use session_import::clock::{clock_reading, now_millis, unix_millis};
use session_import::id::{compose_id, encode_id, generate_id, id_number, IdState, MASK_48};
use session_import::text::{base62, hex};
use std::time::{Duration, UNIX_EPOCH};

const BASE62: &[u8; 62] = b"0123456789ABCDEFGHIJKLMNOPQRSTUVWXYZabcdefghijklmnopqrstuvwxyz";

#[test]
fn id_format() {
    let mut ids = IdState::new();
    let id = generate_id(&mut ids, "ses", true);
    assert!(id.starts_with("ses_"));
    assert_eq!(id.len(), "ses_".len() + 26);
    let body = &id["ses_".len()..];
    assert!(body[..12]
        .chars()
        .all(|c| c.is_ascii_hexdigit() && !c.is_ascii_uppercase()));
    assert!(body[12..].bytes().all(|b| BASE62.contains(&b)));
}

#[test]
fn id_encoding_matches_opencode() {
    let asc = encode_id("msg", false, 1718000000000, 1);
    assert_eq!(&asc[4..16], "000c79c00001");
    let desc = encode_id("ses", true, 1718000000000, 1);
    assert_eq!(&desc[4..16], "fff3863ffffe");
}

#[test]
fn ascending_ids_sort_in_generation_order() {
    let mut ids = IdState::new();
    let a = generate_id(&mut ids, "msg", false);
    let b = generate_id(&mut ids, "msg", false);
    assert!(a[4..16] < b[4..16], "{a} should sort before {b}");
}

#[test]
fn descending_ids_sort_in_reverse_generation_order() {
    let mut ids = IdState::new();
    let a = generate_id(&mut ids, "ses", true);
    let b = generate_id(&mut ids, "ses", true);
    assert!(a[4..16] > b[4..16], "{a} should sort after {b}");
}

#[test]
fn any_two_ids_of_one_kind_sort_by_their_turn() {
    let mut ids = IdState::new();
    let mut sessions = Vec::new();
    let mut messages = Vec::new();
    for _ in 0..5 {
        sessions.push(generate_id(&mut ids, "ses", true));
        messages.push(generate_id(&mut ids, "msg", false));
    }
    for l in 0..5 {
        for k in 0..l {
            assert!(sessions[l] < sessions[k]);
            assert!(messages[k] < messages[l]);
        }
    }
}

#[test]
fn base62_digits_are_in_order() {
    let bytes: Vec<u8> = (0..62).collect();
    assert_eq!(base62(&bytes).as_bytes(), &BASE62[..]);
    assert_eq!(base62(&[62, 123, 124, 255]), "0z07");
    assert_eq!(base62(&[]), "");
}

#[test]
fn hex_writes_leading_zeros_and_drops_high_digits() {
    assert_eq!(hex(0xab, 4), "00ab");
    assert_eq!(hex(0x12345, 4), "2345");
    assert_eq!(hex(MASK_48, 12), "ffffffffffff");
    assert_eq!(hex(7, 0), "");
}

#[test]
fn composed_id_is_exact() {
    assert_eq!(
        compose_id("prt", false, 1718000000000, 1, &[0, 1, 10, 36, 61]),
        "prt_000c79c0000101Aaz"
    );
    assert_eq!(compose_id("", true, 0, 0, &[]), "_ffffffffffff");
}

#[test]
fn random_digits_differ_between_ids() {
    let a = encode_id("ses", true, 1718000000000, 1);
    let b = encode_id("ses", true, 1718000000000, 1);
    assert_eq!(a[..16], b[..16]);
    assert_eq!(a.len(), 30);
    assert_ne!(a[16..], b[16..]);
}

#[test]
fn numbers_mirror_each_other() {
    for (ms, counter) in [(0, 0), (1718000000000, 1), (u64::MAX, u64::MAX), (1 << 36, 4096)] {
        let up = id_number(false, ms, counter);
        let down = id_number(true, ms, counter);
        assert_eq!(up + down, MASK_48);
        assert_eq!(up, ms.wrapping_mul(4096).wrapping_add(counter) & MASK_48);
    }
}

#[test]
fn ids_sort_by_time_within_a_span() {
    let earlier = compose_id("msg", false, 1718000000000, 4096, &[61; 14]);
    let later = compose_id("msg", false, 1718000000001, 1, &[0; 14]);
    assert!(earlier < later);
    let earlier = compose_id("ses", true, 1718000000000, 4096, &[0; 14]);
    let later = compose_id("ses", true, 1718000000001, 1, &[61; 14]);
    assert!(earlier > later);
}

#[test]
fn order_is_lost_where_the_digits_wrap() {
    let last = compose_id("msg", false, (1 << 36) - 1, 1, &[]);
    let next = compose_id("msg", false, 1 << 36, 1, &[]);
    assert!(last > next);
}

#[test]
fn state_counts_within_a_reading() {
    let mut ids = IdState::new();
    assert_eq!(ids, IdState { ms: 0, counter: 0 });
    assert_eq!(ids.advance(5), (5, 1));
    assert_eq!(ids.advance(5), (5, 2));
    assert_eq!(ids.advance(6), (6, 1));
    assert_eq!(ids.advance(5), (5, 1));
    let mut full = IdState { ms: 5, counter: u64::MAX };
    assert_eq!(full.advance(5), (5, 0));
}

#[test]
fn generating_keeps_the_clock_reading() {
    let mut ids = IdState::new();
    let before = now_millis();
    let id = generate_id(&mut ids, "msg", false);
    let after = now_millis();
    assert!(before <= ids.ms && ids.ms <= after);
    assert_eq!(ids.counter, 1);
    assert_eq!(&id[..16], compose_id("msg", false, ids.ms, 1, &[]));
}

#[test]
fn clock_readings() {
    assert_eq!(clock_reading(Some(1718000000000)), 1718000000000);
    assert_eq!(clock_reading(Some((1u128 << 64) + 3)), 3);
    assert_eq!(clock_reading(None), 0);
    assert_eq!(unix_millis(UNIX_EPOCH + Duration::from_micros(2500)), 2);
    assert_eq!(unix_millis(UNIX_EPOCH - Duration::from_millis(1)), 0);
    assert!(now_millis() > 1718000000000);
}
