use weever_streaming::store::{
    parse_track_field, parse_track_table, peer_list_key, token_key, track_field,
    track_fields_of_user, track_table_key, Role, TrackEntry, KEY_TTL_SECONDS,
};

#[test]
fn key_layout() {
    assert_eq!(token_key(Role::Publisher, "r1", "u1"), "token#pub#r1#u1");
    assert_eq!(token_key(Role::Subscriber, "r1", "u1"), "token#sub#r1#u1");
    assert_eq!(peer_list_key(Role::Publisher, "r1"), "room#r1#pub_list");
    assert_eq!(peer_list_key(Role::Subscriber, "r1"), "room#r1#sub_list");
    assert_eq!(track_table_key("r1"), "utm#r1");
    assert_eq!(track_field("alice", "video0"), "alice#video0");
    assert_eq!(KEY_TTL_SECONDS, 24 * 60 * 60);
}

#[test]
fn track_fields_split_at_the_first_hash() {
    assert_eq!(
        parse_track_field("alice#video0"),
        Some(("alice".to_string(), "video0".to_string()))
    );
    assert_eq!(parse_track_field("a#b#c"), Some(("a".to_string(), "b#c".to_string())));
    assert_eq!(parse_track_field("#x"), Some((String::new(), "x".to_string())));
    assert_eq!(parse_track_field("nohash"), None);
}

#[test]
fn written_field_reads_back() {
    let f = track_field("bob+7", "audio3");
    assert_eq!(parse_track_field(&f), Some(("bob+7".to_string(), "audio3".to_string())));
    // a user holding '#' does not read back
    let g = track_field("a#b", "c");
    assert_eq!(parse_track_field(&g), Some(("a".to_string(), "b#c".to_string())));
}

#[test]
fn track_table_rows_and_removals() {
    let pairs = vec![
        ("alice#video0".to_string(), "video".to_string()),
        ("bob#audio0".to_string(), "audio".to_string()),
        ("alice#audio0".to_string(), "audio".to_string()),
    ];
    let rows = parse_track_table(&pairs).unwrap();
    assert_eq!(rows.len(), 3);
    assert_eq!(rows[1].user, "bob");
    assert_eq!(rows[1].track, "audio0");
    assert_eq!(rows[1].mime, "audio");
    let fields = track_fields_of_user(&rows, "alice");
    assert_eq!(fields, vec!["alice#video0".to_string(), "alice#audio0".to_string()]);
    assert!(track_fields_of_user(&rows, "carol").is_empty());

    let bad = vec![("alice#video0".to_string(), "video".to_string()), ("oops".to_string(), "audio".to_string())];
    assert!(parse_track_table(&bad).is_none());
    let empty: Vec<TrackEntry> = parse_track_table(&vec![]).unwrap();
    assert!(empty.is_empty());
}
