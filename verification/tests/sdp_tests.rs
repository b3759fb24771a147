use weever_streaming::sdp::{app_id, kind_name, MediaKind, PublisherMedia};

fn offer(sections: &[(&str, &str)]) -> String {
    let mut s = String::from("v=0\r\no=- 1 2 IN IP4 127.0.0.1\r\ns=-\r\nt=0 0\r\na=msid-semantic: WMS s1\r\n");
    for (kind, id) in sections {
        s.push_str(&format!("m={} 9 UDP/TLS/RTP/SAVPF 96\r\nc=IN IP4 0.0.0.0\r\na=msid:s1 {}\r\n", kind, id));
    }
    s.push_str("m=application 9 UDP/DTLS/SCTP webrtc-datachannel\r\n");
    s
}

#[test]
fn app_ids_are_kind_and_number() {
    assert_eq!(app_id(MediaKind::Video, 0), "video0");
    assert_eq!(app_id(MediaKind::Audio, 12), "audio12");
    assert_eq!(app_id(MediaKind::Video, 255), "video255");
}

#[test]
fn kinds_are_recorded_by_name() {
    assert_eq!(kind_name(MediaKind::Video), "video");
    assert_eq!(kind_name(MediaKind::Audio), "audio");
}

#[test]
fn sections_are_walked_last_first() {
    let mut media = PublisherMedia::new();
    let o = offer(&[("audio", "trackA"), ("video", "trackV1"), ("video", "trackV2")]);
    let added = media.add_offer(&o).unwrap();
    let got: Vec<(MediaKind, String, String)> =
        added.iter().map(|t| (t.kind, t.gen_id.clone(), t.app_id.clone())).collect();
    assert_eq!(
        got,
        vec![
            (MediaKind::Video, "trackV2".to_string(), "video0".to_string()),
            (MediaKind::Video, "trackV1".to_string(), "video1".to_string()),
            (MediaKind::Audio, "trackA".to_string(), "audio0".to_string()),
        ]
    );
    assert_eq!(media.video_count(), 2);
    assert_eq!(media.audio_count(), 1);
    assert_eq!(media.app_id_for("trackV1"), Some("video1".to_string()));
    assert_eq!(media.app_id_for("trackA"), Some("audio0".to_string()));
    assert_eq!(media.app_id_for("nope"), None);
}

#[test]
fn same_offer_twice_adds_nothing() {
    let mut media = PublisherMedia::new();
    let o = offer(&[("audio", "a1"), ("video", "v1")]);
    assert_eq!(media.add_offer(&o).unwrap().len(), 2);
    let again = media.add_offer(&o).unwrap();
    assert!(again.is_empty());
    assert_eq!(media.video_count(), 1);
    assert_eq!(media.audio_count(), 1);
}

#[test]
fn renegotiated_offer_adds_only_new_tracks() {
    let mut media = PublisherMedia::new();
    media.add_offer(&offer(&[("video", "cam")])).unwrap();
    let added = media.add_offer(&offer(&[("video", "cam"), ("video", "screen")])).unwrap();
    assert_eq!(added.len(), 1);
    assert_eq!(added[0].gen_id, "screen");
    assert_eq!(added[0].app_id, "video1");
}

#[test]
fn sections_without_a_track_id_are_skipped() {
    let mut media = PublisherMedia::new();
    let o = "v=0\r\nm=video 9 RTP 96\r\na=msid:onlyone\r\nm=audio 9 RTP 111\r\na=sendrecv\r\nm=text 9 RTP 1\r\na=msid:s t\r\n";
    assert!(media.add_offer(o).unwrap().is_empty());
    assert!(media.add_offer("").unwrap().is_empty());
}

#[test]
fn the_last_msid_of_a_section_counts() {
    let mut media = PublisherMedia::new();
    let o = "m=video 9 RTP 96\r\na=msid:s first\r\na=msid:s  \t second third\r\n";
    let added = media.add_offer(o).unwrap();
    assert_eq!(added.len(), 1);
    assert_eq!(added[0].gen_id, "second");
}

#[test]
fn counter_overflow_leaves_record_unchanged() {
    let mut media = PublisherMedia::new();
    let ids: Vec<String> = (0..256).map(|i| format!("t{}", i)).collect();
    let sections: Vec<(&str, &str)> = ids.iter().map(|id| ("video", id.as_str())).collect();
    assert!(media.add_offer(&offer(&sections)).is_none());
    assert_eq!(media.video_count(), 0);
    assert_eq!(media.app_id_for("t0"), None);
    let fits: Vec<(&str, &str)> = sections[..255].to_vec();
    assert_eq!(media.add_offer(&offer(&fits)).unwrap().len(), 255);
    assert_eq!(media.video_count(), 255);
}
