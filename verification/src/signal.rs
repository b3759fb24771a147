//! The control data channel between the SFU and a browser: the messages it
//! carries, and the subscriber's renegotiation guard, which allows one
//! renegotiation at a time and remembers requests that arrive meanwhile.
use vstd::prelude::*;
use crate::command::Command;
use crate::store::Role;
use crate::subscriber::{peer_id, peer_id_text};
use crate::text::{chars_of, matches_at, same_text, starts_with, substring};

verus! {

/// A message the browser sent on the control channel.
#[derive(Debug, Clone)]
pub enum ControlMessage {
    /// `SDP_OFFER <sdp>`: a new offer.
    SdpOffer(String),
    /// `SDP_ANSWER <sdp>`: the answer to an offer the SFU sent.
    SdpAnswer(String),
    /// `STOP`: close the connection.
    Stop,
    /// Anything else.
    Other,
}

/// View of a control message.
pub enum ControlMessageView {
    SdpOffer(Seq<char>),
    SdpAnswer(Seq<char>),
    Stop,
    Other,
}

impl View for ControlMessage {
    type V = ControlMessageView;

    open spec fn view(&self) -> ControlMessageView {
        match self {
            ControlMessage::SdpOffer(s) => ControlMessageView::SdpOffer(s@),
            ControlMessage::SdpAnswer(s) => ControlMessageView::SdpAnswer(s@),
            ControlMessage::Stop => ControlMessageView::Stop,
            ControlMessage::Other => ControlMessageView::Other,
        }
    }
}

/// How a control-channel text reads: an offer after the `SDP_OFFER ` prefix,
/// an answer after the `SDP_ANSWER ` prefix, `STOP`, or something else.
pub open spec fn control_message_of(text: Seq<char>) -> ControlMessageView {
    if starts_with(text, "SDP_OFFER "@) {
        ControlMessageView::SdpOffer(text.skip("SDP_OFFER "@.len() as int))
    } else if starts_with(text, "SDP_ANSWER "@) {
        ControlMessageView::SdpAnswer(text.skip("SDP_ANSWER "@.len() as int))
    } else if text == "STOP"@ {
        ControlMessageView::Stop
    } else {
        ControlMessageView::Other
    }
}

/// Read a control-channel text.
pub fn parse_control_message(text: &str) -> (r: ControlMessage)
    ensures
        r@ == control_message_of(text@),
        text@.len() >= 10 && text@.take(10) == "SDP_OFFER "@ ==> r@ == ControlMessageView::SdpOffer(
            text@.skip(10),
        ),
        text@.len() >= 11 && text@.take(11) == "SDP_ANSWER "@ ==> r@
            == ControlMessageView::SdpAnswer(text@.skip(11)),
{
    proof {
        let t = text@;
        if t.len() >= 10 && t.take(10) == "SDP_OFFER "@ {
            lemma_offer_message_reads_back(t.skip(10));
            assert(t =~= "SDP_OFFER "@ + t.skip(10));
        }
        if t.len() >= 11 && t.take(11) == "SDP_ANSWER "@ {
            lemma_answer_message_reads_back(t.skip(11));
            assert(t =~= "SDP_ANSWER "@ + t.skip(11));
        }
    }
    let s = chars_of(text);
    let offer = chars_of("SDP_OFFER ");
    let answer = chars_of("SDP_ANSWER ");
    proof {
        reveal_strlit("SDP_OFFER ");
        reveal_strlit("SDP_ANSWER ");
    }
    if matches_at(&s, &offer, 0) {
        let n = s.len();
        ControlMessage::SdpOffer(substring(text, 10, n))
    } else if matches_at(&s, &answer, 0) {
        let n = s.len();
        ControlMessage::SdpAnswer(substring(text, 11, n))
    } else if same_text(text, "STOP") {
        ControlMessage::Stop
    } else {
        ControlMessage::Other
    }
}

/// What the SFU does with a control message.
#[derive(Debug, Clone)]
pub enum ControlResponse {
    /// Apply the offer and send back the answer.
    AnswerOffer(String),
    /// Apply the answer to the SFU's own offer.
    ApplyAnswer(String),
    /// Close the peer connection.
    Close,
    /// Reply `OK`: received, nothing to do.
    Acknowledge,
}

/// View of a control response.
pub enum ControlResponseView {
    AnswerOffer(Seq<char>),
    ApplyAnswer(Seq<char>),
    Close,
    Acknowledge,
}

impl View for ControlResponse {
    type V = ControlResponseView;

    open spec fn view(&self) -> ControlResponseView {
        match self {
            ControlResponse::AnswerOffer(s) => ControlResponseView::AnswerOffer(s@),
            ControlResponse::ApplyAnswer(s) => ControlResponseView::ApplyAnswer(s@),
            ControlResponse::Close => ControlResponseView::Close,
            ControlResponse::Acknowledge => ControlResponseView::Acknowledge,
        }
    }
}

/// The response to a control message from a peer of `role`.  A publisher
/// offers and the SFU answers; towards a subscriber the SFU offers and the
/// subscriber answers.  So an offer is answered only from a publisher, an
/// answer is applied only from a subscriber, `STOP` closes either, and
/// anything else is acknowledged.
pub open spec fn control_response_of(role: Role, text: Seq<char>) -> ControlResponseView {
    match control_message_of(text) {
        ControlMessageView::SdpOffer(o) => if role == Role::Publisher {
            ControlResponseView::AnswerOffer(o)
        } else {
            ControlResponseView::Acknowledge
        },
        ControlMessageView::SdpAnswer(a) => if role == Role::Subscriber {
            ControlResponseView::ApplyAnswer(a)
        } else {
            ControlResponseView::Acknowledge
        },
        ControlMessageView::Stop => ControlResponseView::Close,
        ControlMessageView::Other => ControlResponseView::Acknowledge,
    }
}

/// Decide the response to a control message from a peer of `role`.
pub fn control_response(role: Role, text: &str) -> (r: ControlResponse)
    ensures
        r@ == control_response_of(role, text@),
{
    match parse_control_message(text) {
        ControlMessage::SdpOffer(o) => match role {
            Role::Publisher => ControlResponse::AnswerOffer(o),
            Role::Subscriber => ControlResponse::Acknowledge,
        },
        ControlMessage::SdpAnswer(a) => match role {
            Role::Subscriber => ControlResponse::ApplyAnswer(a),
            Role::Publisher => ControlResponse::Acknowledge,
        },
        ControlMessage::Stop => ControlResponse::Close,
        ControlMessage::Other => ControlResponse::Acknowledge,
    }
}

/// The acknowledgement sent for a message that needs no action.
pub fn acknowledgement() -> (r: &'static str)
    ensures
        r@ == "OK"@,
{
    "OK"
}

/// The answer to an offer: `SDP_ANSWER <sdp>`.
pub open spec fn sdp_answer_text(sdp: Seq<char>) -> Seq<char> {
    "SDP_ANSWER "@ + sdp
}

/// The message that carries an SDP answer.
pub fn sdp_answer_message(sdp: &str) -> (r: String)
    ensures
        r@ == sdp_answer_text(sdp@),
{
    let mut r = String::from_str("SDP_ANSWER ");
    r.append(sdp);
    r
}

/// The offer that starts a renegotiation: `SDP_OFFER <sdp>`.
pub open spec fn sdp_offer_text(sdp: Seq<char>) -> Seq<char> {
    "SDP_OFFER "@ + sdp
}

/// The message that carries an SDP offer.
pub fn sdp_offer_message(sdp: &str) -> (r: String)
    ensures
        r@ == sdp_offer_text(sdp@),
{
    let mut r = String::from_str("SDP_OFFER ");
    r.append(sdp);
    r
}

/// Codec kind of an RTP stream.
#[derive(Debug, Clone, Copy, PartialEq, Eq, Structural)]
pub enum RtpKind {
    Unspecified,
    Audio,
    Video,
}

/// What the subscriber's channel handler does next.
#[derive(Debug, Clone)]
pub enum SignalAction {
    /// Send this text to the browser.
    SendText(String),
    /// Add transceivers for the room's current media.
    AddTracks,
    /// Start a renegotiation: send the browser a fresh offer (`SDP_OFFER`).
    RequestRenegotiation,
}

/// View of a signal action.
pub enum SignalActionView {
    SendText(Seq<char>),
    AddTracks,
    RequestRenegotiation,
}

impl View for SignalAction {
    type V = SignalActionView;

    open spec fn view(&self) -> SignalActionView {
        match self {
            SignalAction::SendText(s) => SignalActionView::SendText(s@),
            SignalAction::AddTracks => SignalActionView::AddTracks,
            SignalAction::RequestRenegotiation => SignalActionView::RequestRenegotiation,
        }
    }
}

/// The renegotiation guard: whether a renegotiation is under way, and whether
/// another one was asked for meanwhile.
pub struct RenegotiationView {
    pub in_progress: bool,
    pub pending: bool,
}

/// The guard's invariant: something is pending only while a renegotiation is
/// under way.
pub open spec fn guard_ok(s: RenegotiationView) -> bool {
    s.pending ==> s.in_progress
}

/// The control channel opened: start a renegotiation with the room's media.
pub open spec fn open_step(s: RenegotiationView) -> (RenegotiationView, Seq<SignalActionView>) {
    (
        RenegotiationView { in_progress: true, pending: s.pending },
        seq![SignalActionView::AddTracks, SignalActionView::RequestRenegotiation],
    )
}

/// A command for the subscriber `sub_user` arrived.  A publisher joining that is
/// the subscriber itself is ignored.  Otherwise the command's text goes to the
/// browser, and a renegotiation starts (after adding tracks, for a join)
/// unless one is under way, in which case it is remembered.
pub open spec fn command_step(s: RenegotiationView, cmd: Command, sub_user: Seq<char>) -> (
    RenegotiationView,
    Seq<SignalActionView>,
) {
    match cmd {
        Command::PubJoin(u) => {
            if peer_id_text(u@) == peer_id_text(sub_user) {
                (s, seq![])
            } else if !s.in_progress {
                (
                    RenegotiationView { in_progress: true, pending: s.pending },
                    seq![
                        SignalActionView::SendText(cmd.user_msg()),
                        SignalActionView::AddTracks,
                        SignalActionView::RequestRenegotiation,
                    ],
                )
            } else {
                (
                    RenegotiationView { in_progress: true, pending: true },
                    seq![SignalActionView::SendText(cmd.user_msg())],
                )
            }
        },
        Command::PubLeft(_) => {
            if !s.in_progress {
                (
                    RenegotiationView { in_progress: true, pending: s.pending },
                    seq![
                        SignalActionView::SendText(cmd.user_msg()),
                        SignalActionView::RequestRenegotiation,
                    ],
                )
            } else {
                (
                    RenegotiationView { in_progress: true, pending: true },
                    seq![SignalActionView::SendText(cmd.user_msg())],
                )
            }
        },
    }
}

/// The browser's answer was applied: start the remembered renegotiation, or
/// mark the guard idle.
pub open spec fn answer_step(s: RenegotiationView) -> (RenegotiationView, Seq<SignalActionView>) {
    if s.pending {
        (
            RenegotiationView { in_progress: s.in_progress, pending: false },
            seq![SignalActionView::AddTracks, SignalActionView::RequestRenegotiation],
        )
    } else {
        (RenegotiationView { in_progress: false, pending: false }, seq![])
    }
}

/// The subscriber's renegotiation guard.
pub struct Renegotiation {
    in_progress: bool,
    pending: bool,
}

impl View for Renegotiation {
    type V = RenegotiationView;

    closed spec fn view(&self) -> RenegotiationView {
        RenegotiationView { in_progress: self.in_progress, pending: self.pending }
    }
}

/// The views of a list of actions.
pub open spec fn actions_view(v: Seq<SignalAction>) -> Seq<SignalActionView> {
    v.map_values(|a: SignalAction| a@)
}

impl Renegotiation {
    #[verifier::type_invariant]
    closed spec fn inv(self) -> bool {
        self.pending ==> self.in_progress
    }

    /// An idle guard.
    pub fn new() -> (r: Self)
        ensures
            r@ == (RenegotiationView { in_progress: false, pending: false }),
            guard_ok(r@),
    {
        Renegotiation { in_progress: false, pending: false }
    }

    /// Whether a renegotiation is under way.
    pub fn in_progress(&self) -> (r: bool)
        ensures
            r == self@.in_progress,
            guard_ok(self@),
    {
        proof {
            use_type_invariant(self);
        }
        self.in_progress
    }

    /// Whether another renegotiation was asked for meanwhile.
    pub fn pending(&self) -> (r: bool)
        ensures
            r == self@.pending,
            guard_ok(self@),
    {
        proof {
            use_type_invariant(self);
        }
        self.pending
    }

    /// The control channel opened.
    pub fn on_channel_open(&mut self) -> (r: Vec<SignalAction>)
        ensures
            (final(self)@, actions_view(r@)) == open_step(old(self)@),
            guard_ok(final(self)@),
    {
        proof {
            use_type_invariant(&*self);
        }
        self.in_progress = true;
        let r = vec![SignalAction::AddTracks, SignalAction::RequestRenegotiation];
        assert(actions_view(r@) =~= open_step(old(self)@).1);
        r
    }

    /// A command for subscriber `sub_user` arrived.
    pub fn on_command(&mut self, cmd: &Command, sub_user: &str) -> (r: Vec<SignalAction>)
        ensures
            (final(self)@, actions_view(r@)) == command_step(old(self)@, *cmd, sub_user@),
            guard_ok(final(self)@),
            cmd is PubJoin && peer_id_text(cmd.user()) == peer_id_text(sub_user@) ==> r@.len() == 0
                && final(self)@ == old(self)@,
    {
        proof {
            use_type_invariant(&*self);
        }
        match cmd {
            Command::PubJoin(user) => {
                let pid = peer_id(user.as_str());
                let sid = peer_id(sub_user);
                if same_text(pid.as_str(), sid.as_str()) {
                    let r: Vec<SignalAction> = Vec::new();
                    assert(actions_view(r@) =~= Seq::<SignalActionView>::empty());
                    return r;
                }
                let msg = cmd.to_user_msg();
                if !self.in_progress {
                    self.in_progress = true;
                    let r = vec![SignalAction::SendText(msg), SignalAction::AddTracks, SignalAction::RequestRenegotiation];
                    assert(actions_view(r@) =~= command_step(old(self)@, *cmd, sub_user@).1);
                    r
                } else {
                    self.pending = true;
                    let r = vec![SignalAction::SendText(msg)];
                    assert(actions_view(r@) =~= command_step(old(self)@, *cmd, sub_user@).1);
                    r
                }
            },
            Command::PubLeft(_) => {
                let msg = cmd.to_user_msg();
                if !self.in_progress {
                    self.in_progress = true;
                    let r = vec![SignalAction::SendText(msg), SignalAction::RequestRenegotiation];
                    assert(actions_view(r@) =~= command_step(old(self)@, *cmd, sub_user@).1);
                    r
                } else {
                    self.pending = true;
                    let r = vec![SignalAction::SendText(msg)];
                    assert(actions_view(r@) =~= command_step(old(self)@, *cmd, sub_user@).1);
                    r
                }
            },
        }
    }

    /// The browser's answer to the current renegotiation was applied.
    pub fn on_answer_applied(&mut self) -> (r: Vec<SignalAction>)
        ensures
            (final(self)@, actions_view(r@)) == answer_step(old(self)@),
            guard_ok(final(self)@),
    {
        proof {
            use_type_invariant(&*self);
        }
        if self.pending {
            self.pending = false;
            let r = vec![SignalAction::AddTracks, SignalAction::RequestRenegotiation];
            assert(actions_view(r@) =~= answer_step(old(self)@).1);
            r
        } else {
            self.in_progress = false;
            let r: Vec<SignalAction> = Vec::new();
            assert(actions_view(r@) =~= Seq::<SignalActionView>::empty());
            r
        }
    }
}

/// Every step keeps the guard's invariant.
pub proof fn lemma_steps_keep_guard(s: RenegotiationView, cmd: Command, sub_user: Seq<char>)
    requires
        guard_ok(s),
    ensures
        guard_ok(open_step(s).0),
        guard_ok(command_step(s, cmd, sub_user).0),
        guard_ok(answer_step(s).0),
{
}

/// While a renegotiation is under way, no command starts another one.
pub proof fn lemma_no_overlapping_requests(s: RenegotiationView, cmd: Command, sub_user: Seq<char>)
    requires
        s.in_progress,
    ensures
        !command_step(s, cmd, sub_user).1.contains(SignalActionView::RequestRenegotiation),
{
    let acts = command_step(s, cmd, sub_user).1;
    assert forall|i: int| 0 <= i < acts.len() implies acts[i] != SignalActionView::RequestRenegotiation by {}
}

/// A command that arrives during a renegotiation is not lost: once the browser's
/// answer is applied, the next renegotiation starts, with tracks added.
pub proof fn lemma_deferred_request_honored(s: RenegotiationView, cmd: Command, sub_user: Seq<char>)
    requires
        s.in_progress,
        cmd is PubLeft || peer_id_text(cmd.user()) != peer_id_text(sub_user),
    ensures
        answer_step(command_step(s, cmd, sub_user).0).1 == seq![
            SignalActionView::AddTracks,
            SignalActionView::RequestRenegotiation,
        ],
        !answer_step(command_step(s, cmd, sub_user).0).0.pending,
{
}

/// Reading an offer message gives back the whole offer it carries, whatever
/// that text holds (line breaks included).
pub proof fn lemma_offer_message_reads_back(sdp: Seq<char>)
    ensures
        control_message_of("SDP_OFFER "@ + sdp) == ControlMessageView::SdpOffer(sdp),
        control_message_of(sdp_offer_text(sdp)) == ControlMessageView::SdpOffer(sdp),
{
    reveal_strlit("SDP_OFFER ");
    let t = "SDP_OFFER "@ + sdp;
    assert(t.subrange(0, 10) =~= "SDP_OFFER "@);
    assert(t.skip(10) =~= sdp);
}

/// Reading an answer message gives back the whole answer it carries.
pub proof fn lemma_answer_message_reads_back(sdp: Seq<char>)
    ensures
        control_message_of("SDP_ANSWER "@ + sdp) == ControlMessageView::SdpAnswer(sdp),
        control_message_of(sdp_answer_text(sdp)) == ControlMessageView::SdpAnswer(sdp),
{
    reveal_strlit("SDP_OFFER ");
    reveal_strlit("SDP_ANSWER ");
    let t = "SDP_ANSWER "@ + sdp;
    assert(t[4] == 'A');
    assert("SDP_OFFER "@[4] == 'O');
    assert(t.subrange(0, 10)[4] == 'A');
    assert(t.subrange(0, 10) != "SDP_OFFER "@);
    assert(t.subrange(0, 11) =~= "SDP_ANSWER "@);
    assert(t.skip(11) =~= sdp);
}

/// A publisher answers a peer's offer with exactly that offer's SDP, and a
/// subscriber applies exactly the answer's SDP.
pub proof fn lemma_responses_carry_whole_sdp(sdp: Seq<char>)
    ensures
        control_response_of(Role::Publisher, sdp_offer_text(sdp)) == ControlResponseView::AnswerOffer(sdp),
        control_response_of(Role::Subscriber, sdp_answer_text(sdp)) == ControlResponseView::ApplyAnswer(sdp),
{
    lemma_offer_message_reads_back(sdp);
    lemma_answer_message_reads_back(sdp);
}

/// The subscriber's own publisher joining changes nothing: whatever the guard's
/// state, a join of a user with the subscriber's peer id sends nothing, starts
/// nothing and defers nothing.
pub proof fn lemma_own_join_ignored(s: RenegotiationView, cmd: Command, sub_user: Seq<char>)
    requires
        cmd is PubJoin,
        peer_id_text(cmd.user()) == peer_id_text(sub_user),
    ensures
        command_step(s, cmd, sub_user).0 == s,
        command_step(s, cmd, sub_user).1.len() == 0,
{
}

/// Any other command is forwarded to the browser as its text, first.
pub proof fn lemma_other_commands_forwarded(s: RenegotiationView, cmd: Command, sub_user: Seq<char>)
    requires
        cmd is PubLeft || peer_id_text(cmd.user()) != peer_id_text(sub_user),
    ensures
        command_step(s, cmd, sub_user).1.len() >= 1,
        command_step(s, cmd, sub_user).1[0] == SignalActionView::SendText(cmd.user_msg()),
        command_step(s, cmd, sub_user).0.in_progress,
{
}

/// With nothing pending, applying the answer returns the guard to idle.
pub proof fn lemma_answer_idles(s: RenegotiationView)
    requires
        !s.pending,
    ensures
        answer_step(s).0 == (RenegotiationView { in_progress: false, pending: false }),
        answer_step(s).1.len() == 0,
{
}

} // verus!
