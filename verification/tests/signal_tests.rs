use weever_streaming::command::Command;
use weever_streaming::store::Role;
use weever_streaming::signal::{
    acknowledgement, control_response, ControlResponse, parse_control_message, sdp_answer_message,
    sdp_offer_message, ControlMessage, Renegotiation, SignalAction,
};

fn names(actions: &[SignalAction]) -> Vec<String> {
    actions
        .iter()
        .map(|a| match a {
            SignalAction::SendText(t) => format!("send {}", t),
            SignalAction::AddTracks => "add".to_string(),
            SignalAction::RequestRenegotiation => "renegotiate".to_string(),
        })
        .collect()
}

#[test]
fn control_messages() {
    match parse_control_message("SDP_OFFER v=0 x") {
        ControlMessage::SdpOffer(s) => assert_eq!(s, "v=0 x"),
        _ => panic!("expected an offer"),
    }
    match parse_control_message("SDP_OFFER ") {
        ControlMessage::SdpOffer(s) => assert_eq!(s, ""),
        _ => panic!("expected an offer"),
    }
    match parse_control_message("SDP_ANSWER a=1") {
        ControlMessage::SdpAnswer(s) => assert_eq!(s, "a=1"),
        _ => panic!("expected an answer"),
    }
    assert!(matches!(parse_control_message("STOP"), ControlMessage::Stop));
    assert!(matches!(parse_control_message("STOP "), ControlMessage::Other));
    assert!(matches!(parse_control_message("SDP_OFFER"), ControlMessage::Other));
    assert!(matches!(parse_control_message(""), ControlMessage::Other));
}

#[test]
fn outgoing_messages() {
    assert_eq!(sdp_answer_message("v=0"), "SDP_ANSWER v=0");
    assert_eq!(sdp_offer_message("v=0"), "SDP_OFFER v=0");
    assert_eq!(sdp_offer_message(""), "SDP_OFFER ");
}

#[test]
fn open_starts_a_renegotiation() {
    let mut g = Renegotiation::new();
    assert!(!g.in_progress());
    assert_eq!(names(&g.on_channel_open()), vec!["add", "renegotiate"]);
    assert!(g.in_progress());
    assert!(!g.pending());
}

#[test]
fn join_while_idle_renegotiates_at_once() {
    let mut g = Renegotiation::new();
    let acts = g.on_command(&Command::PubJoin("alice+1".to_string()), "bob+2");
    assert_eq!(names(&acts), vec!["send PUB_JOIN alice+1", "add", "renegotiate"]);
    assert!(g.in_progress());
}

#[test]
fn leave_while_idle_renegotiates_without_adding() {
    let mut g = Renegotiation::new();
    let acts = g.on_command(&Command::PubLeft("alice+1".to_string()), "bob+2");
    assert_eq!(names(&acts), vec!["send PUB_LEFT alice+1", "renegotiate"]);
}

#[test]
fn own_join_is_ignored() {
    let mut g = Renegotiation::new();
    let acts = g.on_command(&Command::PubJoin("bob+9".to_string()), "bob+2");
    assert!(acts.is_empty());
    assert!(!g.in_progress());
    // the subscriber's own screen share is another publisher here
    let acts = g.on_command(&Command::PubJoin("bob-screen+9".to_string()), "bob+2");
    assert_eq!(acts.len(), 3);
}

#[test]
fn requests_during_a_renegotiation_are_deferred_not_lost() {
    let mut g = Renegotiation::new();
    g.on_channel_open();
    let acts = g.on_command(&Command::PubJoin("alice".to_string()), "bob");
    assert_eq!(names(&acts), vec!["send PUB_JOIN alice"]);
    let acts = g.on_command(&Command::PubLeft("carol".to_string()), "bob");
    assert_eq!(names(&acts), vec!["send PUB_LEFT carol"]);
    assert!(g.pending());
    // the answer arrives: one renegotiation covers both
    assert_eq!(names(&g.on_answer_applied()), vec!["add", "renegotiate"]);
    assert!(g.in_progress());
    assert!(!g.pending());
    // the next answer finds nothing pending: idle again
    assert!(g.on_answer_applied().is_empty());
    assert!(!g.in_progress());
}

#[test]
fn control_responses_by_role() {
    assert!(matches!(control_response(Role::Publisher, "SDP_OFFER x"), ControlResponse::AnswerOffer(o) if o == "x"));
    // towards a subscriber the SFU makes the offers; one from the browser is only acknowledged
    assert!(matches!(control_response(Role::Subscriber, "SDP_OFFER x"), ControlResponse::Acknowledge));
    assert!(matches!(control_response(Role::Subscriber, "SDP_ANSWER y"), ControlResponse::ApplyAnswer(a) if a == "y"));
    assert!(matches!(control_response(Role::Publisher, "SDP_ANSWER y"), ControlResponse::Acknowledge));
    assert!(matches!(control_response(Role::Publisher, "STOP"), ControlResponse::Close));
    assert!(matches!(control_response(Role::Subscriber, "STOP"), ControlResponse::Close));
    assert!(matches!(control_response(Role::Subscriber, "hello"), ControlResponse::Acknowledge));
    assert_eq!(acknowledgement(), "OK");
}
