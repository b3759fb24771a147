//! Decisions of the HTTP endpoints: parameter checks, token and duplicate
//! checks and the replies they give, log task ids, peer listings, allowed
//! CORS origins and the readiness probe.
use vstd::prelude::*;
use vstd::utf8::{decode_utf8, valid_utf8};
use crate::store::Role;
use crate::text::{
    all_ascii_graphic, chars_of, contains_char, find_first, find_first_in, is_ascii_graphic,
    same_text, substring,
};

verus! {

/// A request parameter that is refused.
#[derive(Debug, Clone, Copy, PartialEq, Eq, Structural)]
pub enum ParamError {
    IdEmpty,
    IdNotGraphic,
    IdHasDot,
    RoomEmpty,
    RoomNotGraphic,
    RoomHasDot,
}

impl ParamError {
    /// The reply text for the refusal.
    pub fn message(&self) -> (r: &'static str)
        ensures
            r@ == param_error_text(*self),
    {
        match self {
            ParamError::IdEmpty => "id should not be empty",
            ParamError::IdNotGraphic => "id should be ascii graphic",
            ParamError::IdHasDot => "id should not contain '.'",
            ParamError::RoomEmpty => "room should not be empty",
            ParamError::RoomNotGraphic => "room should be ascii graphic",
            ParamError::RoomHasDot => "room should not contain '.'",
        }
    }
}

/// The reply text for a refused parameter.
pub open spec fn param_error_text(e: ParamError) -> Seq<char> {
    match e {
        ParamError::IdEmpty => "id should not be empty"@,
        ParamError::IdNotGraphic => "id should be ascii graphic"@,
        ParamError::IdHasDot => "id should not contain '.'"@,
        ParamError::RoomEmpty => "room should not be empty"@,
        ParamError::RoomNotGraphic => "room should be ascii graphic"@,
        ParamError::RoomHasDot => "room should not contain '.'"@,
    }
}

/// Every character is printable ASCII other than space.
pub open spec fn all_graphic(s: Seq<char>) -> bool {
    forall|k: int| 0 <= k < s.len() ==> is_ascii_graphic(#[trigger] s[k])
}

/// The first problem with a room name that is listed: empty, or not all
/// printable ASCII.
pub open spec fn room_name_error(room: Seq<char>) -> Option<ParamError> {
    if room.len() == 0 {
        Some(ParamError::RoomEmpty)
    } else if !all_graphic(room) {
        Some(ParamError::RoomNotGraphic)
    } else {
        None
    }
}

/// The first problem with a (room, id) pair that names a peer, checked in
/// this order: id empty, id not printable ASCII, id with `.` (the message
/// subject separator), then the same for the room.
pub open spec fn peer_params_error(room: Seq<char>, id: Seq<char>) -> Option<ParamError> {
    if id.len() == 0 {
        Some(ParamError::IdEmpty)
    } else if !all_graphic(id) {
        Some(ParamError::IdNotGraphic)
    } else if id.contains('.') {
        Some(ParamError::IdHasDot)
    } else if room.len() == 0 {
        Some(ParamError::RoomEmpty)
    } else if !all_graphic(room) {
        Some(ParamError::RoomNotGraphic)
    } else if room.contains('.') {
        Some(ParamError::RoomHasDot)
    } else {
        None
    }
}

/// Check the (room, id) of a peer request.
pub fn check_peer_params(room: &str, id: &str) -> (r: Result<(), ParamError>)
    ensures
        match r {
            Ok(_) => peer_params_error(room@, id@) is None,
            Err(e) => peer_params_error(room@, id@) == Some(e),
        },
{
    let i = chars_of(id);
    let r = chars_of(room);
    if i.len() == 0 {
        Err(ParamError::IdEmpty)
    } else if !all_ascii_graphic(&i) {
        Err(ParamError::IdNotGraphic)
    } else if contains_char(&i, '.') {
        Err(ParamError::IdHasDot)
    } else if r.len() == 0 {
        Err(ParamError::RoomEmpty)
    } else if !all_ascii_graphic(&r) {
        Err(ParamError::RoomNotGraphic)
    } else if contains_char(&r, '.') {
        Err(ParamError::RoomHasDot)
    } else {
        Ok(())
    }
}

/// Check the room name of a listing request.
pub fn check_room_name(room: &str) -> (r: Result<(), ParamError>)
    ensures
        match r {
            Ok(_) => room_name_error(room@) is None,
            Err(e) => room_name_error(room@) == Some(e),
        },
{
    let r = chars_of(room);
    if r.len() == 0 {
        Err(ParamError::RoomEmpty)
    } else if !all_ascii_graphic(&r) {
        Err(ParamError::RoomNotGraphic)
    } else {
        Ok(())
    }
}

/// Why a publish or subscribe request is turned down.
#[derive(Debug, Clone, Copy, PartialEq, Eq, Structural)]
pub enum Rejection {
    /// A refused path parameter.
    BadParam(ParamError),
    /// The bearer token differs from the registered one.
    TokenMismatch,
    /// No registered token could be read.
    TokenUnavailable,
    /// A peer with the same id is already in the room.
    Duplicate(Role),
    /// Whether such a peer exists could not be checked.
    PresenceUnknown(Role),
    /// The offer is not UTF-8.
    BadSdp,
    /// The clock could not be read.
    ClockError,
    /// No answer came back for the offer.
    NoAnswer,
}

/// The HTTP status of a rejection.
pub open spec fn rejection_status(r: Rejection) -> u16 {
    match r {
        Rejection::TokenMismatch => 401,
        Rejection::ClockError => 500,
        _ => 400,
    }
}

/// The reply text of a rejection.
pub open spec fn rejection_text(r: Rejection) -> Seq<char> {
    match r {
        Rejection::BadParam(e) => param_error_text(e),
        Rejection::TokenMismatch => "bad token"@,
        Rejection::TokenUnavailable => "bad token"@,
        Rejection::Duplicate(Role::Publisher) => "duplicate publisher"@,
        Rejection::Duplicate(Role::Subscriber) => "duplicate subscriber"@,
        Rejection::PresenceUnknown(Role::Publisher) => "publisher check error"@,
        Rejection::PresenceUnknown(Role::Subscriber) => "subscriber check error"@,
        Rejection::BadSdp => "bad SDP"@,
        Rejection::ClockError => "time error"@,
        Rejection::NoAnswer => "SDP answer generation error"@,
    }
}

impl Rejection {
    /// The HTTP status of the rejection.
    pub fn status(&self) -> (r: u16)
        ensures
            r == rejection_status(*self),
    {
        match self {
            Rejection::TokenMismatch => 401,
            Rejection::ClockError => 500,
            _ => 400,
        }
    }

    /// The reply text of the rejection.
    pub fn message(&self) -> (r: &'static str)
        ensures
            r@ == rejection_text(*self),
    {
        match self {
            Rejection::BadParam(e) => e.message(),
            Rejection::TokenMismatch => "bad token",
            Rejection::TokenUnavailable => "bad token",
            Rejection::Duplicate(Role::Publisher) => "duplicate publisher",
            Rejection::Duplicate(Role::Subscriber) => "duplicate subscriber",
            Rejection::PresenceUnknown(Role::Publisher) => "publisher check error",
            Rejection::PresenceUnknown(Role::Subscriber) => "subscriber check error",
            Rejection::BadSdp => "bad SDP",
            Rejection::ClockError => "time error",
            Rejection::NoAnswer => "SDP answer generation error",
        }
    }
}

/// The token check: with authentication on, the registered token (`None` when
/// it could not be read) must equal the bearer token.
pub open spec fn token_verdict(auth: bool, registered: Option<Seq<char>>, bearer: Seq<char>) -> Option<Rejection> {
    if !auth {
        None
    } else {
        match registered {
            None => Some(Rejection::TokenUnavailable),
            Some(t) => if t == bearer { None } else { Some(Rejection::TokenMismatch) },
        }
    }
}

/// Check the bearer token against the registered one.
pub fn check_token(auth: bool, registered: &Option<String>, bearer: &str) -> (r: Option<Rejection>)
    ensures
        r == token_verdict(auth, match registered { Some(t) => Some(t@), None => None }, bearer@),
{
    if !auth {
        None
    } else {
        match registered {
            None => Some(Rejection::TokenUnavailable),
            Some(t) => if same_text(t.as_str(), bearer) { None } else { Some(Rejection::TokenMismatch) },
        }
    }
}

/// The duplicate check: whether a peer with the same id is already listed in
/// the room (`None` when that could not be read).
pub open spec fn presence_verdict(role: Role, listed: Option<bool>) -> Option<Rejection> {
    match listed {
        Some(true) => Some(Rejection::Duplicate(role)),
        None => Some(Rejection::PresenceUnknown(role)),
        Some(false) => None,
    }
}

/// Turn down a peer whose id is already listed in the room.
pub fn check_presence(role: Role, listed: Option<bool>) -> (r: Option<Rejection>)
    ensures
        r == presence_verdict(role, listed),
{
    match listed {
        Some(true) => Some(Rejection::Duplicate(role)),
        None => Some(Rejection::PresenceUnknown(role)),
        Some(false) => None,
    }
}

/// The id that marks a peer's task in the logs: the time in microseconds,
/// divided by 10000, modulo 2^16.
pub fn task_id(micros: u128) -> (r: u16)
    ensures
        r as int == (micros as int / 10000) % 65536,
{
    let q = micros / 10000;
    (q % 65536) as u16
}

/// Calls `String::from_utf8`.  Claimed, as std documents it: the call
/// succeeds exactly when the bytes are valid UTF-8, and the string then holds
/// the text the bytes encode.
#[verifier::external_body]
fn utf8_text(bytes: Vec<u8>) -> (r: Option<String>)
    ensures
        r is Some <==> valid_utf8(bytes@),
        r matches Some(t) ==> t@ == decode_utf8(bytes@),
{
    String::from_utf8(bytes).ok()
}

/// The view of an optional string.
pub open spec fn opt_text(o: Option<String>) -> Option<Seq<char>> {
    match o {
        Some(t) => Some(t@),
        None => None,
    }
}

/// The outcome of a publish or subscribe request for peer `id` in `room`,
/// given what was read for it: the registered token (`None` when it could not
/// be read), whether a peer with that id is listed in the room (`None` when
/// that could not be read), the offer's bytes and the time in microseconds
/// (`None` when the clock could not be read).  The checks come in this order:
/// the parameters, the token, the duplicate check, the offer's UTF-8, the
/// clock; the first that fails gives the rejection.  Otherwise the request
/// goes ahead with the offer's text and its task id.
pub open spec fn admission(
    role: Role,
    room: Seq<char>,
    id: Seq<char>,
    auth: bool,
    registered: Option<Seq<char>>,
    bearer: Seq<char>,
    listed: Option<bool>,
    sdp: Seq<u8>,
    micros: Option<u128>,
) -> Result<(Seq<char>, u16), Rejection> {
    match peer_params_error(room, id) {
        Some(e) => Err(Rejection::BadParam(e)),
        None => match token_verdict(auth, registered, bearer) {
            Some(r) => Err(r),
            None => match presence_verdict(role, listed) {
                Some(r) => Err(r),
                None => if !valid_utf8(sdp) {
                    Err(Rejection::BadSdp)
                } else {
                    match micros {
                        None => Err(Rejection::ClockError),
                        Some(m) => Ok((decode_utf8(sdp), ((m as int / 10000) % 65536) as u16)),
                    }
                },
            },
        },
    }
}

/// An admitted request hands on the whole offer, decoded from UTF-8, with the
/// task id of its time; a request is admitted exactly when its parameters, its
/// token and the duplicate check pass, its offer is UTF-8 and the clock read.
pub proof fn lemma_admission_hands_on_whole_offer(
    role: Role,
    room: Seq<char>,
    id: Seq<char>,
    auth: bool,
    registered: Option<Seq<char>>,
    bearer: Seq<char>,
    listed: Option<bool>,
    sdp: Seq<u8>,
    micros: Option<u128>,
)
    ensures
        admission(role, room, id, auth, registered, bearer, listed, sdp, micros) matches Ok((t, tid)) ==> t
            == decode_utf8(sdp) && micros is Some && tid as int == (micros->0 as int / 10000) % 65536,
        admission(role, room, id, auth, registered, bearer, listed, sdp, micros) is Ok <==> (
        peer_params_error(room, id) is None && token_verdict(auth, registered, bearer) is None
            && presence_verdict(role, listed) is None && valid_utf8(sdp) && micros is Some),
{
    if let Some(m) = micros {
        let v = (m as int / 10000) % 65536;
        assert(0 <= v < 65536);
        assert(v as u16 as int == v);
    }
}

/// Decide a publish or subscribe request from what was read for it.
pub fn admit_peer(
    role: Role,
    room: &str,
    id: &str,
    auth: bool,
    registered: &Option<String>,
    bearer: &str,
    listed: Option<bool>,
    sdp: Vec<u8>,
    micros: Option<u128>,
) -> (r: Result<(String, u16), Rejection>)
    ensures
        match r {
            Ok((text, tid)) => admission(role, room@, id@, auth, opt_text(*registered), bearer@, listed, sdp@, micros)
                == Ok::<(Seq<char>, u16), Rejection>((text@, tid)),
            Err(e) => admission(role, room@, id@, auth, opt_text(*registered), bearer@, listed, sdp@, micros)
                == Err::<(Seq<char>, u16), Rejection>(e),
        },        r matches Ok((text, tid)) ==> text@ == decode_utf8(sdp@) && valid_utf8(sdp@) && micros is Some
            && tid as int == (micros->0 as int / 10000) % 65536,
        r is Ok <==> (peer_params_error(room@, id@) is None && token_verdict(auth, opt_text(*registered), bearer@) is None
            && presence_verdict(role, listed) is None && valid_utf8(sdp@) && micros is Some),
{
    proof {
        lemma_admission_hands_on_whole_offer(role, room@, id@, auth, opt_text(*registered), bearer@, listed, sdp@, micros);
    }
    if let Err(e) = check_peer_params(room, id) {
        return Err(Rejection::BadParam(e));
    }
    if let Some(r) = check_token(auth, registered, bearer) {
        return Err(r);
    }
    if let Some(r) = check_presence(role, listed) {
        return Err(r);
    }
    let text = match utf8_text(sdp) {
        Some(t) => t,
        None => {
            return Err(Rejection::BadSdp);
        },
    };
    match micros {
        None => Err(Rejection::ClockError),
        Some(m) => Ok((text, task_id(m))),
    }
}

/// Names joined with `,` between them.
pub open spec fn comma_joined(names: Seq<Seq<char>>) -> Seq<char>
    decreases names.len(),
{
    if names.len() == 0 {
        seq![]
    } else if names.len() == 1 {
        names[0]
    } else {
        comma_joined(names.drop_last()) + ","@ + names.last()
    }
}

/// The listing of a room's peers: their names joined with `,`.
pub fn join_names(names: &Vec<String>) -> (r: String)
    ensures
        r@ == comma_joined(names@.map_values(|s: String| s@)),
{
    let ghost nv = names@.map_values(|s: String| s@);
    if names.len() == 0 {
        return String::new();
    }
    let mut r = names[0].clone();
    let mut k: usize = 1;
    assert(nv.take(1).drop_last() =~= Seq::<Seq<char>>::empty());
    assert(comma_joined(nv.take(1)) == nv[0]);
    while k < names.len()
        invariant
            1 <= k <= names.len(),
            nv == names@.map_values(|s: String| s@),
            r@ == comma_joined(nv.take(k as int)),
        decreases names.len() - k,
    {
        r.append(",");
        r.append(names[k].as_str());
        assert(nv.take(k + 1).drop_last() =~= nv.take(k as int));
        k = k + 1;
    }
    assert(nv.take(k as int) =~= nv);
    r
}

/// The host part that an `Origin` header names: the piece between its first
/// and second `:` (up to the end without a second one), or nothing without a `:`.
pub open spec fn origin_host(origin: Seq<char>) -> Seq<char> {
    match find_first(origin, ":"@) {
        None => seq![],
        Some(i) => {
            let rest = origin.skip(i + 1);
            match find_first(rest, ":"@) {
                Some(j) => rest.take(j),
                None => rest,
            }
        },
    }
}

/// An origin is allowed for cross-origin requests when its host part is
/// `//localhost` (any scheme and port) or `//` followed by the configured domain.
pub open spec fn origin_allowed(origin: Seq<char>, cors_domain: Seq<char>) -> bool {
    origin_host(origin) == "//localhost"@ || origin_host(origin) == "//"@ + cors_domain
}

/// The host part of an `Origin` header.
pub fn origin_host_of(origin: &str) -> (r: String)
    ensures
        r@ == origin_host(origin@),
{
    let s = chars_of(origin);
    let colon = chars_of(":");
    proof {
        reveal_strlit(":");
        assert(colon@.len() == 1);
    }
    match find_first_in(&s, &colon) {
        None => String::new(),
        Some(i) => {
            let n = s.len();
            let rest = substring(origin, i + 1, n);
            let rs = chars_of(rest.as_str());
            match find_first_in(&rs, &colon) {
                Some(j) => substring(rest.as_str(), 0, j),
                None => rest,
            }
        },
    }
}

/// Whether cross-origin requests from `origin` are allowed.
pub fn is_origin_allowed(origin: &str, cors_domain: &str) -> (r: bool)
    ensures
        r == origin_allowed(origin@, cors_domain@),
{
    let host = origin_host_of(origin);
    let mut allowed_domain = String::from_str("//");
    allowed_domain.append(cors_domain);
    same_text(host.as_str(), "//localhost") || same_text(host.as_str(), allowed_domain.as_str())
}

/// The readiness probe: `BUSY` (503) once the instance is stopping, `OK` (200)
/// otherwise.
pub fn readiness(stopping: Option<bool>) -> (r: (u16, &'static str))
    ensures
        stopping == Some(true) ==> r.0 == 503 && r.1@ == "BUSY"@,
        stopping != Some(true) ==> r.0 == 200 && r.1@ == "OK"@,
{
    match stopping {
        Some(true) => (503, "BUSY"),
        _ => (200, "OK"),
    }
}

/// Address a server listens on: `HOST:PORT`.
pub fn listen_address(host: &str, port: &str) -> (r: String)
    ensures
        r@ == host@ + ":"@ + port@,
{
    let mut r = String::from_str(host);
    r.append(":");
    r.append(port);
    r
}

} // verus!
