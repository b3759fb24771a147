//! Layout of the state that instances share through the key-value store:
//! authorization tokens, the per-room track table and the per-room
//! publisher and subscriber sets.
use vstd::prelude::*;
use crate::text::{chars_of, find_first, find_first_in, lemma_find_from_is, occurs_at, same_text, substring};

verus! {

/// How long a written key lives in the store: one day.
pub const KEY_TTL_SECONDS: u64 = 86400;

/// Which side of a connection a peer is on.
#[derive(Debug, Clone, Copy, PartialEq, Eq, Structural)]
pub enum Role {
    Publisher,
    Subscriber,
}

/// Key of the authorization token of `user` in `room`: `token#pub#ROOM#USER`
/// or `token#sub#ROOM#USER`.
pub open spec fn token_key_text(role: Role, room: Seq<char>, user: Seq<char>) -> Seq<char> {
    match role {
        Role::Publisher => "token#pub#"@ + room + "#"@ + user,
        Role::Subscriber => "token#sub#"@ + room + "#"@ + user,
    }
}

/// Key of the set of peers of one role in `room`: `room#ROOM#pub_list` or
/// `room#ROOM#sub_list`.
pub open spec fn peer_list_key_text(role: Role, room: Seq<char>) -> Seq<char> {
    match role {
        Role::Publisher => "room#"@ + room + "#pub_list"@,
        Role::Subscriber => "room#"@ + room + "#sub_list"@,
    }
}

/// Key of the table of a room's published tracks: `utm#ROOM`.
pub open spec fn track_table_key_text(room: Seq<char>) -> Seq<char> {
    "utm#"@ + room
}

/// Field of the track table for `track` of `user`: `USER#TRACK`.
pub open spec fn track_field_text(user: Seq<char>, track: Seq<char>) -> Seq<char> {
    user + "#"@ + track
}

/// A field of the track table read back as (user, track): split at its first `#`.
pub open spec fn track_field_parts(field: Seq<char>) -> Option<(Seq<char>, Seq<char>)> {
    match find_first(field, "#"@) {
        Some(i) => Some((field.take(i), field.skip(i + 1))),
        None => None,
    }
}

/// Key of the authorization token of `user` in `room`.
pub fn token_key(role: Role, room: &str, user: &str) -> (r: String)
    ensures
        r@ == token_key_text(role, room@, user@),
{
    let mut r = match role {
        Role::Publisher => String::from_str("token#pub#"),
        Role::Subscriber => String::from_str("token#sub#"),
    };
    r.append(room);
    r.append("#");
    r.append(user);
    r
}

/// Key of the set of peers of one role in `room`.
pub fn peer_list_key(role: Role, room: &str) -> (r: String)
    ensures
        r@ == peer_list_key_text(role, room@),
{
    let mut r = String::from_str("room#");
    r.append(room);
    match role {
        Role::Publisher => r.append("#pub_list"),
        Role::Subscriber => r.append("#sub_list"),
    }
    r
}

/// Key of the table of a room's published tracks.
pub fn track_table_key(room: &str) -> (r: String)
    ensures
        r@ == track_table_key_text(room@),
{
    let mut r = String::from_str("utm#");
    r.append(room);
    r
}

/// Field of the track table for `track` of `user`.
pub fn track_field(user: &str, track: &str) -> (r: String)
    ensures
        r@ == track_field_text(user@, track@),
{
    let mut r = String::from_str(user);
    r.append("#");
    r.append(track);
    r
}

/// Split a field of the track table into (user, track) at its first `#`;
/// `None` when it holds no `#`.
pub fn parse_track_field(field: &str) -> (r: Option<(String, String)>)
    ensures
        match r {
            Some(p) => track_field_parts(field@) == Some((p.0@, p.1@)),
            None => track_field_parts(field@) is None,
        },
{
    let s = chars_of(field);
    let hash = chars_of("#");
    proof {
        reveal_strlit("#");
        assert(hash@.len() == 1);
    }
    match find_first_in(&s, &hash) {
        Some(i) => {
            let n = s.len();
            Some((substring(field, 0, i), substring(field, i + 1, n)))
        },
        None => None,
    }
}

/// A field written for (user, track) reads back as that pair whenever the user
/// holds no `#`.
pub proof fn lemma_track_field_round_trip(user: Seq<char>, track: Seq<char>)
    requires
        !user.contains('#'),
    ensures
        track_field_parts(track_field_text(user, track)) == Some((user, track)),
{
    reveal_strlit("#");
    let f = track_field_text(user, track);
    let n = user.len() as int;
    assert(f.subrange(n, n + 1) =~= "#"@);
    assert forall|k: int| 0 <= k < n implies !occurs_at(f, "#"@, k) by {
        assert(f[k] == user[k]);
        assert(f.subrange(k, k + 1)[0] == user[k]);
    }
    lemma_find_from_is(f, "#"@, 0, n);
    assert(f.take(n) =~= user);
    assert(f.skip(n + 1) =~= track);
}

/// One row of a room's track table.
#[derive(Debug, Clone)]
pub struct TrackEntry {
    pub user: String,
    pub track: String,
    pub mime: String,
}

/// The rows of a track table read as (field, value) pairs, or `None` when a
/// field holds no `#`.
pub open spec fn track_rows(pairs: Seq<(String, String)>) -> Option<Seq<(Seq<char>, Seq<char>, Seq<char>)>>
    decreases pairs.len(),
{
    if pairs.len() == 0 {
        Some(seq![])
    } else {
        match (track_field_parts(pairs[0].0@), track_rows(pairs.drop_first())) {
            (Some(p), Some(rest)) => Some(seq![(p.0, p.1, pairs[0].1@)] + rest),
            _ => None,
        }
    }
}

/// The (user, track, mime) view of a list of rows.
pub open spec fn entries_view(entries: Seq<TrackEntry>) -> Seq<(Seq<char>, Seq<char>, Seq<char>)> {
    entries.map_values(|e: TrackEntry| (e.user@, e.track@, e.mime@))
}

/// Turn the (field, mime) pairs of a track table into rows, in the same order;
/// `None` when some field holds no `#`.
pub fn parse_track_table(pairs: &Vec<(String, String)>) -> (r: Option<Vec<TrackEntry>>)
    ensures
        match r {
            Some(v) => track_rows(pairs@) == Some(entries_view(v@)),
            None => track_rows(pairs@) is None,
        },
{
    let mut out: Vec<TrackEntry> = Vec::new();
    let mut k: usize = pairs.len();
    proof {
        assert(pairs@.skip(k as int) =~= Seq::<(String, String)>::empty());
    }
    while k > 0
        invariant
            k <= pairs.len(),
            track_rows(pairs@) is Some ==> track_rows(pairs@.skip(k as int)) is Some,
            track_rows(pairs@.skip(k as int)) == Some(entries_view(out@)),
            track_rows(pairs@.skip(k as int)) is None ==> track_rows(pairs@) is None,
        decreases k,
    {
        k = k - 1;
        assert(pairs@.skip(k as int).drop_first() =~= pairs@.skip(k + 1));
        assert(pairs@.skip(k as int)[0] == pairs@[k as int]);
        let (field, mime) = (&pairs[k].0, &pairs[k].1);
        match parse_track_field(field.as_str()) {
            Some((user, track)) => {
                let ghost old_out = out@;
                out.insert(0, TrackEntry { user, track, mime: mime.clone() });
                assert(entries_view(out@) =~= seq![(user@, track@, mime@)] + entries_view(old_out));
            },
            None => {
                proof {
                    lemma_track_rows_none_suffix(pairs@, k as int);
                }
                return None;
            },
        }
    }
    assert(pairs@.skip(0) =~= pairs@);
    Some(out)
}

/// A table whose suffix from `k` holds an unreadable first field is unreadable.
proof fn lemma_track_rows_none_suffix(pairs: Seq<(String, String)>, k: int)
    requires
        0 <= k < pairs.len(),
        track_field_parts(pairs[k].0@) is None,
    ensures
        track_rows(pairs) is None,
    decreases k,
{
    if k == 0 {
    } else {
        assert(pairs.drop_first()[k - 1] == pairs[k]);
        lemma_track_rows_none_suffix(pairs.drop_first(), k - 1);
    }
}

/// The table fields to delete to forget every track of `user`, in table order.
pub open spec fn fields_of_user(
    rows: Seq<(Seq<char>, Seq<char>, Seq<char>)>,
    user: Seq<char>,
) -> Seq<Seq<char>>
    decreases rows.len(),
{
    if rows.len() == 0 {
        seq![]
    } else {
        let rest = fields_of_user(rows.drop_first(), user);
        if rows[0].0 == user {
            seq![track_field_text(user, rows[0].1)] + rest
        } else {
            rest
        }
    }
}

/// The table fields that name a track of `user`.
pub fn track_fields_of_user(entries: &Vec<TrackEntry>, user: &str) -> (r: Vec<String>)
    ensures
        r@.map_values(|f: String| f@) == fields_of_user(entries_view(entries@), user@),
{
    let mut out: Vec<String> = Vec::new();
    let mut k: usize = entries.len();
    proof {
        assert(entries_view(entries@).skip(k as int) =~= Seq::empty());
    }
    while k > 0
        invariant
            k <= entries.len(),
            out@.map_values(|f: String| f@) == fields_of_user(
                entries_view(entries@).skip(k as int),
                user@,
            ),
        decreases k,
    {
        k = k - 1;
        let ghost rows = entries_view(entries@);
        assert(rows.skip(k as int).drop_first() =~= rows.skip(k + 1));
        assert(rows.skip(k as int)[0] == rows[k as int]);
        let e = &entries[k];
        if same_text(e.user.as_str(), user) {
            let ghost old_out = out@;
            let f = track_field(user, e.track.as_str());
            out.insert(0, f);
            assert(out@.map_values(|f: String| f@) =~= seq![f@] + old_out.map_values(
                |f: String| f@,
            ));
        }
    }
    assert(entries_view(entries@).skip(0) =~= entries_view(entries@));
    out
}

} // verus!
