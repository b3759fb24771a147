use weever_streaming::peer::publisher_track_subject;
use weever_streaming::sdp::MediaKind;
use weever_streaming::signal::RtpKind;
use weever_streaming::store::TrackEntry;
use weever_streaming::subscriber::{
    is_own_media, is_plannable, media_counts, peer_id, plan_subscriber_tracks, track_subject,
    MediaCount, TRACK_NUMBER_LIMIT,
};

fn count(user: &str, mime: &str, n: u64) -> MediaCount {
    MediaCount { user: user.to_string(), mime: mime.to_string(), count: n }
}

#[test]
fn peer_ids() {
    assert_eq!(peer_id("abc+123"), "abc");
    assert_eq!(peer_id("abc+1+2"), "abc");
    assert_eq!(peer_id("abc"), "abc");
    assert_eq!(peer_id("+x"), "");
}

#[test]
fn full_id_names_the_same_peer() {
    for random in ["1", "abc", ""] {
        assert_eq!(peer_id(&format!("user7+{}", random)), peer_id("user7"));
    }
    assert_eq!(peer_id("user7"), "user7");
}

#[test]
fn own_media_includes_own_screen_share() {
    assert!(is_own_media("abc+9", "abc+1"));
    assert!(is_own_media("abc-screen+9", "abc+1"));
    assert!(!is_own_media("abd+9", "abc+1"));
    assert!(!is_own_media("abc", "abc-screen"));
}

#[test]
fn plan_numbers_tracks_per_kind() {
    let media = vec![count("alice+1", "video", 2), count("bob+2", "audio", 1), count("bob+2", "video", 1)];
    let held = vec![];
    let plan = plan_subscriber_tracks(&media, &held, "carol+3");
    let got: Vec<(String, String, String, MediaKind)> =
        plan.iter().map(|t| (t.pub_user.clone(), t.track_id.clone(), t.app_id.clone(), t.kind)).collect();
    assert_eq!(
        got,
        vec![
            ("alice+1".to_string(), "video0".to_string(), "video0".to_string(), MediaKind::Video),
            ("alice+1".to_string(), "video1".to_string(), "video1".to_string(), MediaKind::Video),
            ("bob+2".to_string(), "audio0".to_string(), "audio0".to_string(), MediaKind::Audio),
            ("bob+2".to_string(), "video0".to_string(), "video2".to_string(), MediaKind::Video),
        ]
    );
}

#[test]
fn plan_skips_own_and_held_tracks() {
    let media = vec![count("carol+9", "video", 1), count("carol-screen+8", "video", 1), count("alice", "video", 2)];
    let held = vec![("alice".to_string(), "video0".to_string())];
    let plan = plan_subscriber_tracks(&media, &held, "carol+3");
    assert_eq!(plan.len(), 1);
    assert_eq!(plan[0].pub_user, "alice");
    assert_eq!(plan[0].track_id, "video1");
    assert_eq!(plan[0].app_id, "video0");
}

#[test]
fn plannable_media() {
    // a kind other than video and audio cannot be planned for
    assert!(!is_plannable(&vec![count("alice", "text", 1)], "bob"));
    // unless it has no tracks, or is the subscriber's own
    assert!(is_plannable(&vec![count("alice", "text", 0)], "bob"));
    assert!(is_plannable(&vec![count("bob+1", "text", 3)], "bob+2"));
    assert!(plan_subscriber_tracks(&vec![count("alice", "text", 0)], &vec![], "bob").is_empty());
    // at most TRACK_NUMBER_LIMIT tracks of each kind, the subscriber's own not counted
    assert!(is_plannable(&vec![count("a", "video", TRACK_NUMBER_LIMIT)], "z"));
    assert!(is_plannable(&vec![count("a", "video", TRACK_NUMBER_LIMIT), count("b", "audio", TRACK_NUMBER_LIMIT)], "z"));
    assert!(!is_plannable(&vec![count("a", "video", TRACK_NUMBER_LIMIT), count("b", "video", 1)], "z"));
    assert!(!is_plannable(&vec![count("a", "audio", 2), count("b", "audio", TRACK_NUMBER_LIMIT)], "z"));
    assert!(is_plannable(&vec![count("a", "video", TRACK_NUMBER_LIMIT), count("z", "video", 1)], "z"));
    assert!(!is_plannable(&vec![count("a", "video", u64::MAX)], "z"));
    assert!(is_plannable(&vec![], "z"));
}

#[test]
fn planning_again_with_the_plan_held_adds_nothing() {
    let media = vec![count("alice", "video", 2), count("bob", "audio", 1), count("carol", "video", 1)];
    let mut held = vec![("alice".to_string(), "video1".to_string())];
    let plan = plan_subscriber_tracks(&media, &held, "carol");
    assert_eq!(plan.len(), 2);
    for t in &plan {
        held.push((t.pub_user.clone(), t.track_id.clone()));
    }
    assert!(plan_subscriber_tracks(&media, &held, "carol").is_empty());
}

#[test]
fn counts_per_user_and_kind() {
    let rows = vec![
        TrackEntry { user: "a".to_string(), track: "video0".to_string(), mime: "video".to_string() },
        TrackEntry { user: "b".to_string(), track: "audio0".to_string(), mime: "audio".to_string() },
        TrackEntry { user: "a".to_string(), track: "video1".to_string(), mime: "video".to_string() },
        TrackEntry { user: "a".to_string(), track: "audio0".to_string(), mime: "audio".to_string() },
    ];
    let mut counts: Vec<(String, String, u64)> =
        media_counts(&rows).into_iter().map(|m| (m.user, m.mime, m.count)).collect();
    counts.sort();
    assert_eq!(
        counts,
        vec![
            ("a".to_string(), "audio".to_string(), 1),
            ("a".to_string(), "video".to_string(), 2),
            ("b".to_string(), "audio".to_string(), 1),
        ]
    );
    assert!(media_counts(&vec![]).is_empty());
}

#[test]
fn subscriber_track_subject() {
    assert_eq!(track_subject("r", "alice", MediaKind::Video, "video0"), "rtc.r.alice.v.video0");
    assert_eq!(track_subject("r", "alice", MediaKind::Audio, "audio2"), "rtc.r.alice.a.audio2");
}

#[test]
fn subscriber_and_publisher_subjects_meet() {
    for (kind, rtp, id) in [
        (MediaKind::Video, RtpKind::Video, "video0"),
        (MediaKind::Audio, RtpKind::Audio, "audio3"),
    ] {
        assert_eq!(
            track_subject("room", "bob+7", kind, id),
            publisher_track_subject("room", "bob+7", rtp, id)
        );
    }
}
