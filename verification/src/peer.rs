//! Peer connections: the ICE servers they use, what a publisher or subscriber
//! does when its connection changes state, and the subjects published media
//! travels on.
use vstd::prelude::*;
use crate::signal::RtpKind;

verus! {

/// A TURN server with its credentials.
#[derive(Debug, Clone)]
pub struct IceServer {
    pub url: String,
    pub username: String,
    pub credential: String,
}

/// Why the ICE servers could not be configured.
#[derive(Debug, Clone, Copy, PartialEq, Eq, Structural)]
pub enum IceConfigError {
    /// A TURN server is set without a username.
    MissingTurnUsername,
    /// A TURN server is set without a password.
    MissingTurnPassword,
}

impl IceConfigError {
    /// The text the error is reported with.
    pub fn message(&self) -> (r: &'static str)
        ensures
            r@ == (match *self {
                IceConfigError::MissingTurnUsername => "TURN username not preset"@,
                IceConfigError::MissingTurnPassword => "TURN password not preset"@,
            }),
    {
        match self {
            IceConfigError::MissingTurnUsername => "TURN username not preset",
            IceConfigError::MissingTurnPassword => "TURN password not preset",
        }
    }
}

/// The ICE servers of a peer connection: none without a TURN server; with one,
/// that server with its username and password, both of which must be set.
pub fn ice_servers(
    turn: Option<String>,
    turn_username: Option<String>,
    turn_password: Option<String>,
) -> (r: Result<Vec<IceServer>, IceConfigError>)
    ensures
        turn is None ==> (r matches Ok(v) && v.len() == 0),
        turn is Some && turn_username is None ==> r == Err::<Vec<IceServer>, IceConfigError>(
            IceConfigError::MissingTurnUsername,
        ),
        turn is Some && turn_username is Some && turn_password is None ==> r == Err::<
            Vec<IceServer>,
            IceConfigError,
        >(IceConfigError::MissingTurnPassword),
        turn is Some && turn_username is Some && turn_password is Some ==> (r matches Ok(v)
            && v.len() == 1 && v[0].url@ == turn->0@ && v[0].username@ == turn_username->0@
            && v[0].credential@ == turn_password->0@),
{
    match turn {
        None => Ok(Vec::new()),
        Some(url) => {
            let username = match turn_username {
                Some(u) => u,
                None => {
                    return Err(IceConfigError::MissingTurnUsername);
                },
            };
            let credential = match turn_password {
                Some(p) => p,
                None => {
                    return Err(IceConfigError::MissingTurnPassword);
                },
            };
            let mut v: Vec<IceServer> = Vec::new();
            v.push(IceServer { url, username, credential });
            Ok(v)
        },
    }
}

/// State of a peer connection.
#[derive(Debug, Clone, Copy, PartialEq, Eq, Structural)]
pub enum PeerState {
    Unspecified,
    New,
    Connecting,
    Connected,
    Disconnected,
    Failed,
    Closed,
}

/// What a peer's handler does when its connection changes state.
#[derive(Debug, Clone, Copy, PartialEq, Eq, Structural)]
pub enum PeerAction {
    /// Wake the task waiting for the connection to close.
    NotifyClose,
    /// Add the peer to the room's shared list of its role.
    JoinRoomList,
    /// Remove the peer from the room's shared list of its role.
    LeaveRoomList,
    /// Forget the publisher's tracks in the room's shared track table.
    ForgetTracks,
    /// Tell the room's subscribers that the publisher left.
    AnnounceLeave,
}

/// A publisher's reaction to a state: failed, it leaves the room list;
/// disconnected, it wakes its closer, forgets its tracks, announces its leave
/// and leaves the room list; connected, it joins the room list.
pub open spec fn publisher_reaction(s: PeerState) -> Seq<PeerAction> {
    match s {
        PeerState::Failed => seq![PeerAction::LeaveRoomList],
        PeerState::Disconnected => seq![
            PeerAction::NotifyClose,
            PeerAction::ForgetTracks,
            PeerAction::AnnounceLeave,
            PeerAction::LeaveRoomList,
        ],
        PeerState::Connected => seq![PeerAction::JoinRoomList],
        _ => seq![],
    }
}

/// A subscriber's reaction to a state: connected, it joins the room list;
/// failed, disconnected or closed, it wakes its closer and leaves the list.
pub open spec fn subscriber_reaction(s: PeerState) -> Seq<PeerAction> {
    match s {
        PeerState::Connected => seq![PeerAction::JoinRoomList],
        PeerState::Failed | PeerState::Disconnected | PeerState::Closed => seq![
            PeerAction::NotifyClose,
            PeerAction::LeaveRoomList,
        ],
        _ => seq![],
    }
}

/// What a publisher does when its connection enters state `s`.
pub fn publisher_state_actions(s: PeerState) -> (r: Vec<PeerAction>)
    ensures
        r@ == publisher_reaction(s),
        s == PeerState::Unspecified || s == PeerState::New || s == PeerState::Connecting || s
            == PeerState::Closed ==> r.len() == 0,
        r@.contains(PeerAction::NotifyClose) ==> s == PeerState::Disconnected,
{
    let r = match s {
        PeerState::Failed => vec![PeerAction::LeaveRoomList],
        PeerState::Disconnected => vec![
            PeerAction::NotifyClose,
            PeerAction::ForgetTracks,
            PeerAction::AnnounceLeave,
            PeerAction::LeaveRoomList,
        ],
        PeerState::Connected => vec![PeerAction::JoinRoomList],
        _ => Vec::new(),
    };
    assert(r@ =~= publisher_reaction(s));
    proof {
        lemma_publisher_reacts_only_to_settled_states(s);
        if r@.contains(PeerAction::NotifyClose) {
            let i = choose|i: int| 0 <= i < r@.len() && r@[i] == PeerAction::NotifyClose;
            assert(publisher_reaction(s)[i] == PeerAction::NotifyClose);
        }
    }
    r
}

/// What a subscriber does when its connection enters state `s`.
pub fn subscriber_state_actions(s: PeerState) -> (r: Vec<PeerAction>)
    ensures
        r@ == subscriber_reaction(s),
        s == PeerState::Unspecified || s == PeerState::New || s == PeerState::Connecting ==> r.len() == 0,
        r@.contains(PeerAction::NotifyClose) ==> (s == PeerState::Failed || s == PeerState::Disconnected
            || s == PeerState::Closed),
{
    let r = match s {
        PeerState::Connected => vec![PeerAction::JoinRoomList],
        PeerState::Failed | PeerState::Disconnected | PeerState::Closed => vec![
            PeerAction::NotifyClose,
            PeerAction::LeaveRoomList,
        ],
        _ => Vec::new(),
    };
    assert(r@ =~= subscriber_reaction(s));
    proof {
        lemma_subscriber_reacts_only_to_settled_states(s);
        if r@.contains(PeerAction::NotifyClose) {
            let i = choose|i: int| 0 <= i < r@.len() && r@[i] == PeerAction::NotifyClose;
            assert(subscriber_reaction(s)[i] == PeerAction::NotifyClose);
        }
    }
    r
}

/// A subscriber wakes its closer and leaves the room list only once its
/// connection failed, dropped or closed; it joins the list only once connected;
/// a connection that is not yet connected (unspecified, new, connecting) sets
/// nothing off.
pub proof fn lemma_subscriber_reacts_only_to_settled_states(s: PeerState)
    ensures
        forall|i: int|
            0 <= i < subscriber_reaction(s).len() && (subscriber_reaction(s)[i] == PeerAction::NotifyClose
                || subscriber_reaction(s)[i] == PeerAction::LeaveRoomList) ==> (s == PeerState::Failed || s
                == PeerState::Disconnected || s == PeerState::Closed),
        forall|i: int|
            0 <= i < subscriber_reaction(s).len() && subscriber_reaction(s)[i] == PeerAction::JoinRoomList
                ==> s == PeerState::Connected,
        s == PeerState::Unspecified || s == PeerState::New || s == PeerState::Connecting
            ==> subscriber_reaction(s).len() == 0,
        s == PeerState::Failed || s == PeerState::Disconnected || s == PeerState::Closed
            ==> subscriber_reaction(s).contains(PeerAction::NotifyClose) && subscriber_reaction(s).contains(
            PeerAction::LeaveRoomList,
        ),
        s == PeerState::Connected ==> subscriber_reaction(s).contains(PeerAction::JoinRoomList),
{
    let r = subscriber_reaction(s);
    if s == PeerState::Failed || s == PeerState::Disconnected || s == PeerState::Closed {
        assert(r[0] == PeerAction::NotifyClose);
        assert(r[1] == PeerAction::LeaveRoomList);
    }
    if s == PeerState::Connected {
        assert(r[0] == PeerAction::JoinRoomList);
    }
}

/// A publisher wakes its closer, forgets its tracks and announces its leave
/// only once its connection dropped; it leaves the room list only once failed
/// or dropped, and joins it only once connected; unspecified, new, connecting
/// and closed set nothing off.
pub proof fn lemma_publisher_reacts_only_to_settled_states(s: PeerState)
    ensures
        forall|i: int|
            0 <= i < publisher_reaction(s).len() && (publisher_reaction(s)[i] == PeerAction::NotifyClose
                || publisher_reaction(s)[i] == PeerAction::ForgetTracks || publisher_reaction(s)[i]
                == PeerAction::AnnounceLeave) ==> s == PeerState::Disconnected,
        forall|i: int|
            0 <= i < publisher_reaction(s).len() && publisher_reaction(s)[i] == PeerAction::LeaveRoomList
                ==> (s == PeerState::Failed || s == PeerState::Disconnected),
        forall|i: int|
            0 <= i < publisher_reaction(s).len() && publisher_reaction(s)[i] == PeerAction::JoinRoomList
                ==> s == PeerState::Connected,
        s == PeerState::Unspecified || s == PeerState::New || s == PeerState::Connecting || s
            == PeerState::Closed ==> publisher_reaction(s).len() == 0,
{
}

/// The one-letter tag of a stream kind in a media subject.
pub open spec fn kind_tag_text(k: RtpKind) -> Seq<char> {
    match k {
        RtpKind::Video => "v"@,
        RtpKind::Audio => "a"@,
        RtpKind::Unspecified => "u"@,
    }
}

/// Subject a publisher pushes one track's RTP to: `rtc.ROOM.USER.K.APP_ID`.
pub open spec fn publisher_track_subject_text(room: Seq<char>, user: Seq<char>, kind: RtpKind, app_id: Seq<char>) -> Seq<char> {
    "rtc."@ + room + "."@ + user + "."@ + kind_tag_text(kind) + "."@ + app_id
}

/// Subject a publisher pushes one track's RTP to.
pub fn publisher_track_subject(room: &str, user: &str, kind: RtpKind, app_id: &str) -> (r: String)
    ensures
        r@ == publisher_track_subject_text(room@, user@, kind, app_id@),
{
    let mut r = String::from_str("rtc.");
    r.append(room);
    r.append(".");
    r.append(user);
    r.append(".");
    match kind {
        RtpKind::Video => r.append("v"),
        RtpKind::Audio => r.append("a"),
        RtpKind::Unspecified => r.append("u"),
    }
    r.append(".");
    r.append(app_id);
    r
}

} // verus!
