use weever_streaming::store::Role;
use weever_streaming::web::{
    admit_peer, check_peer_params, check_presence, check_room_name, check_token, is_origin_allowed,
    join_names, listen_address, origin_host_of, readiness, task_id, ParamError, Rejection,
};

#[test]
fn peer_parameter_checks_in_order() {
    assert_eq!(check_peer_params("r", "u"), Ok(()));
    assert_eq!(check_peer_params("r", ""), Err(ParamError::IdEmpty));
    assert_eq!(check_peer_params("", ""), Err(ParamError::IdEmpty));
    assert_eq!(check_peer_params("r", "a b"), Err(ParamError::IdNotGraphic));
    assert_eq!(check_peer_params("r", "é"), Err(ParamError::IdNotGraphic));
    assert_eq!(check_peer_params("r", "a.b"), Err(ParamError::IdHasDot));
    assert_eq!(check_peer_params("", "u"), Err(ParamError::RoomEmpty));
    assert_eq!(check_peer_params("r\t", "u"), Err(ParamError::RoomNotGraphic));
    assert_eq!(check_peer_params("r.1", "u"), Err(ParamError::RoomHasDot));
    assert_eq!(check_peer_params("room-1", "user+7"), Ok(()));
}

#[test]
fn parameter_messages() {
    assert_eq!(ParamError::IdEmpty.message(), "id should not be empty");
    assert_eq!(ParamError::IdNotGraphic.message(), "id should be ascii graphic");
    assert_eq!(ParamError::IdHasDot.message(), "id should not contain '.'");
    assert_eq!(ParamError::RoomEmpty.message(), "room should not be empty");
    assert_eq!(ParamError::RoomNotGraphic.message(), "room should be ascii graphic");
    assert_eq!(ParamError::RoomHasDot.message(), "room should not contain '.'");
}

#[test]
fn listing_checks_room_only() {
    assert_eq!(check_room_name("r.1"), Ok(()));
    assert_eq!(check_room_name(""), Err(ParamError::RoomEmpty));
    assert_eq!(check_room_name("a b"), Err(ParamError::RoomNotGraphic));
}

#[test]
fn rejection_replies() {
    assert_eq!(Rejection::TokenMismatch.status(), 401);
    assert_eq!(Rejection::TokenMismatch.message(), "bad token");
    assert_eq!(Rejection::TokenUnavailable.status(), 400);
    assert_eq!(Rejection::TokenUnavailable.message(), "bad token");
    assert_eq!(Rejection::Duplicate(Role::Publisher).message(), "duplicate publisher");
    assert_eq!(Rejection::Duplicate(Role::Subscriber).message(), "duplicate subscriber");
    assert_eq!(Rejection::PresenceUnknown(Role::Publisher).message(), "publisher check error");
    assert_eq!(Rejection::PresenceUnknown(Role::Subscriber).message(), "subscriber check error");
    assert_eq!(Rejection::BadSdp.message(), "bad SDP");
    assert_eq!(Rejection::ClockError.status(), 500);
    assert_eq!(Rejection::ClockError.message(), "time error");
    assert_eq!(Rejection::NoAnswer.message(), "SDP answer generation error");
    assert_eq!(Rejection::BadParam(ParamError::RoomHasDot).status(), 400);
    assert_eq!(Rejection::BadParam(ParamError::RoomHasDot).message(), "room should not contain '.'");
}

#[test]
fn token_checks() {
    assert_eq!(check_token(false, &None, "x"), None);
    assert_eq!(check_token(true, &Some("t".to_string()), "t"), None);
    assert_eq!(check_token(true, &Some("t".to_string()), "u"), Some(Rejection::TokenMismatch));
    assert_eq!(check_token(true, &None, "t"), Some(Rejection::TokenUnavailable));
}

#[test]
fn presence_checks() {
    assert_eq!(check_presence(Role::Publisher, Some(false)), None);
    assert_eq!(check_presence(Role::Publisher, Some(true)), Some(Rejection::Duplicate(Role::Publisher)));
    assert_eq!(check_presence(Role::Subscriber, None), Some(Rejection::PresenceUnknown(Role::Subscriber)));
}

#[test]
fn task_ids() {
    assert_eq!(task_id(0), 0);
    assert_eq!(task_id(123_456), 12);
    assert_eq!(task_id(10_000 * 65_536 + 10_000 * 5 + 9_999), 5);
    assert_eq!(task_id(1_700_000_000_000_000), ((1_700_000_000_000_000u128 / 10_000) % 65_536) as u16);
}

#[test]
fn listings_join_with_commas() {
    assert_eq!(join_names(&vec![]), "");
    assert_eq!(join_names(&vec!["a".to_string()]), "a");
    assert_eq!(join_names(&vec!["a".to_string(), "b".to_string(), "c".to_string()]), "a,b,c");
}

#[test]
fn cors_origins() {
    assert_eq!(origin_host_of("https://localhost:3000"), "//localhost");
    assert_eq!(origin_host_of("http://example.com"), "//example.com");
    assert_eq!(origin_host_of("example"), "");
    assert!(is_origin_allowed("http://localhost", "example.com"));
    assert!(is_origin_allowed("https://localhost:3000", "example.com"));
    assert!(is_origin_allowed("https://example.com", "example.com"));
    assert!(is_origin_allowed("https://example.com:8443", "example.com"));
    assert!(!is_origin_allowed("https://evil.com", "example.com"));
    assert!(!is_origin_allowed("", "example.com"));
}

#[test]
fn readiness_probe() {
    assert_eq!(readiness(Some(true)), (503, "BUSY"));
    assert_eq!(readiness(Some(false)), (200, "OK"));
    assert_eq!(readiness(None), (200, "OK"));
}

#[test]
fn listen_addresses() {
    assert_eq!(listen_address("0.0.0.0", "8443"), "0.0.0.0:8443");
}

#[test]
fn requests_are_checked_in_order() {
    let tok = Some("t".to_string());
    let offer = b"v=0\r\n".to_vec();
    // everything in order: the offer's text and the task id
    assert_eq!(
        admit_peer(Role::Publisher, "r", "u", true, &tok, "t", Some(false), offer.clone(), Some(1_234_567_890)),
        Ok(("v=0\r\n".to_string(), 57_920))
    );
    // bad parameters come first, whatever else is wrong
    assert_eq!(
        admit_peer(Role::Publisher, "r", "u.1", true, &None, "x", None, vec![0xff], None),
        Err(Rejection::BadParam(ParamError::IdHasDot))
    );
    // then the token
    assert_eq!(
        admit_peer(Role::Publisher, "r", "u", true, &tok, "x", Some(true), vec![0xff], None),
        Err(Rejection::TokenMismatch)
    );
    assert_eq!(
        admit_peer(Role::Subscriber, "r", "u", true, &None, "t", Some(true), offer.clone(), None),
        Err(Rejection::TokenUnavailable)
    );
    // without authentication the token is not looked at
    assert_eq!(
        admit_peer(Role::Subscriber, "r", "u", false, &None, "x", Some(true), offer.clone(), None),
        Err(Rejection::Duplicate(Role::Subscriber))
    );
    assert_eq!(
        admit_peer(Role::Subscriber, "r", "u", false, &None, "x", None, offer.clone(), None),
        Err(Rejection::PresenceUnknown(Role::Subscriber))
    );
    // then the offer's UTF-8, then the clock
    assert_eq!(
        admit_peer(Role::Publisher, "r", "u", false, &None, "", Some(false), vec![0xc3, 0x28], None),
        Err(Rejection::BadSdp)
    );
    assert_eq!(
        admit_peer(Role::Publisher, "r", "u", false, &None, "", Some(false), "é".as_bytes().to_vec(), None),
        Err(Rejection::ClockError)
    );
    assert_eq!(
        admit_peer(Role::Publisher, "r", "u", false, &None, "", Some(false), "é".as_bytes().to_vec(), Some(655_360_000)),
        Ok(("é".to_string(), 0))
    );
}
