use weever_streaming::peer::{
    ice_servers, publisher_state_actions, publisher_track_subject, subscriber_state_actions,
    IceConfigError, PeerAction, PeerState,
};
use weever_streaming::signal::RtpKind;

#[test]
fn no_turn_server_no_ice_servers() {
    assert!(ice_servers(None, Some("u".to_string()), None).unwrap().is_empty());
}

#[test]
fn turn_server_needs_credentials() {
    let e = ice_servers(Some("turn:x".to_string()), None, Some("p".to_string())).unwrap_err();
    assert_eq!(e, IceConfigError::MissingTurnUsername);
    assert_eq!(e.message(), "TURN username not preset");
    let e = ice_servers(Some("turn:x".to_string()), Some("u".to_string()), None).unwrap_err();
    assert_eq!(e, IceConfigError::MissingTurnPassword);
    assert_eq!(e.message(), "TURN password not preset");
    let v = ice_servers(Some("turn:x".to_string()), Some("u".to_string()), Some("p".to_string())).unwrap();
    assert_eq!(v.len(), 1);
    assert_eq!(v[0].url, "turn:x");
    assert_eq!(v[0].username, "u");
    assert_eq!(v[0].credential, "p");
}

#[test]
fn publisher_reactions() {
    assert_eq!(publisher_state_actions(PeerState::Failed), vec![PeerAction::LeaveRoomList]);
    assert_eq!(
        publisher_state_actions(PeerState::Disconnected),
        vec![PeerAction::NotifyClose, PeerAction::ForgetTracks, PeerAction::AnnounceLeave, PeerAction::LeaveRoomList]
    );
    assert_eq!(publisher_state_actions(PeerState::Connected), vec![PeerAction::JoinRoomList]);
    assert!(publisher_state_actions(PeerState::Closed).is_empty());
    assert!(publisher_state_actions(PeerState::Connecting).is_empty());
}

#[test]
fn subscriber_reactions() {
    assert_eq!(subscriber_state_actions(PeerState::Connected), vec![PeerAction::JoinRoomList]);
    for s in [PeerState::Failed, PeerState::Disconnected, PeerState::Closed] {
        assert_eq!(subscriber_state_actions(s), vec![PeerAction::NotifyClose, PeerAction::LeaveRoomList]);
    }
    assert!(subscriber_state_actions(PeerState::New).is_empty());
}

#[test]
fn publisher_subjects() {
    assert_eq!(publisher_track_subject("r", "u", RtpKind::Video, "video0"), "rtc.r.u.v.video0");
    assert_eq!(publisher_track_subject("r", "u", RtpKind::Audio, "audio1"), "rtc.r.u.a.audio1");
    assert_eq!(publisher_track_subject("r", "u", RtpKind::Unspecified, "x"), "rtc.r.u.u.x");
}
