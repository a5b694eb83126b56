use pollcast::messages::ack_message;
use pollcast::messages::directed_target;
use pollcast::messages::joined_message;
use pollcast::messages::left_message;
use pollcast::messages::poll_closed_message;
use pollcast::messages::vote_update_message;
use pollcast::text::id_string;

#[test]
fn id_string_matches_uuid_crate() {
    let samples: Vec<u128> = vec![
        0,
        1,
        0xdeadbeef,
        u128::MAX,
        0xa1a2a3a4b1b2c1c2d1d2d3d4d5d6d7d8,
        uuid::Uuid::new_v4().as_u128(),
        uuid::Uuid::new_v4().as_u128(),
    ];
    for n in samples {
        assert_eq!(id_string(n), uuid::Uuid::from_u128(n).to_string());
    }
}

#[test]
fn id_string_exact_values() {
    assert_eq!(id_string(0), "00000000-0000-0000-0000-000000000000");
    assert_eq!(id_string(u128::MAX), "ffffffff-ffff-ffff-ffff-ffffffffffff");
    assert_eq!(
        id_string(0xa1a2a3a4b1b2c1c2d1d2d3d4d5d6d7d8),
        "a1a2a3a4-b1b2-c1c2-d1d2-d3d4d5d6d7d8"
    );
}

#[test]
fn greeting_messages_exact() {
    let n: u128 = 0xa1a2a3a4b1b2c1c2d1d2d3d4d5d6d7d8;
    let text = "a1a2a3a4-b1b2-c1c2-d1d2-d3d4d5d6d7d8";
    assert_eq!(ack_message(n), format!("your user id is {}", text));
    assert_eq!(joined_message(n), format!("user {} just joined the poll", text));
    assert_eq!(left_message(n), format!("{} disconnected.", text));
}

#[test]
fn vote_update_message_exact() {
    assert_eq!(
        vote_update_message(42, "Yes", 3),
        "{\"poll_id\": 42, \"option_text\": \"Yes\", \"vote_count\": 3}"
    );
}

#[test]
fn vote_update_message_negative_numbers() {
    assert_eq!(
        vote_update_message(-7, "No", -1),
        "{\"poll_id\": -7, \"option_text\": \"No\", \"vote_count\": -1}"
    );
}

#[test]
fn vote_update_message_extreme_values() {
    assert_eq!(
        vote_update_message(i32::MIN, "x", i32::MAX),
        "{\"poll_id\": -2147483648, \"option_text\": \"x\", \"vote_count\": 2147483647}"
    );
}

#[test]
fn id_string_keeps_leading_zeros() {
    assert_eq!(pollcast::text::id_string(1), "00000000-0000-0000-0000-000000000001");
}

#[test]
fn vote_update_message_is_valid_json() {
    let s = vote_update_message(42, "Yes", 3);
    let v: serde_json::Value = serde_json::from_str(&s).unwrap();
    assert_eq!(v.get("poll_id").unwrap().as_i64().unwrap(), 42);
    assert_eq!(v.get("option_text").unwrap().as_str().unwrap(), "Yes");
    assert_eq!(v.get("vote_count").unwrap().as_i64().unwrap(), 3);
}

#[test]
fn poll_closed_message_exact() {
    assert_eq!(poll_closed_message(42), "{\"poll_id\": 42, \"closed\": true}");
    let v: serde_json::Value = serde_json::from_str(&poll_closed_message(9)).unwrap();
    assert_eq!(v.get("poll_id").unwrap().as_i64().unwrap(), 9);
    assert_eq!(v.get("closed").unwrap().as_bool().unwrap(), true);
}

#[test]
fn directed_target_parses_the_token() {
    assert_eq!(directed_target("\\w abc rest"), Some("abc"));
    assert_eq!(directed_target("\\w abc"), Some("abc"));
    assert_eq!(directed_target("\\w "), Some(""));
    assert_eq!(directed_target("hello everyone"), None);
    assert_eq!(directed_target("\\wx yz"), None);
    assert_eq!(directed_target(""), None);
    assert_eq!(directed_target("\\w"), None);
}
