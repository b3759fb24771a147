//! A subscriber's view of a room: which published tracks it pulls, how they
//! are numbered for it, and the subjects it pulls them from.
use vstd::prelude::*;
use crate::peer::{kind_tag_text, publisher_track_subject_text};
use crate::sdp::{app_id_text, kind_name_text, MediaKind};
use crate::signal::RtpKind;
use crate::store::{entries_view, TrackEntry};
use crate::text::{
    chars_of, decimal, decimal_string, find_first, find_first_in, lemma_find_from, lemma_find_from_is,
    occurs_at, same_text, substring,
};

verus! {

/// The peer id of a user name of the form `ID+RANDOM`: what precedes its first
/// `+`, or the whole name.
pub open spec fn peer_id_text(user: Seq<char>) -> Seq<char> {
    match find_first(user, "+"@) {
        Some(i) => user.take(i),
        None => user,
    }
}

/// A publisher's media is the subscriber's own (the same peer, or that peer's
/// screen share) and must not be pulled back.
pub open spec fn is_own_media_text(pub_user: Seq<char>, sub_user: Seq<char>) -> bool {
    peer_id_text(pub_user) == peer_id_text(sub_user) || peer_id_text(pub_user) == peer_id_text(
        sub_user,
    ) + "-screen"@
}

/// The peer id of a user name.
pub fn peer_id(user: &str) -> (r: String)
    ensures
        r@ == peer_id_text(user@),
{
    let s = chars_of(user);
    let plus = chars_of("+");
    proof {
        reveal_strlit("+");
        assert(plus@.len() == 1);
    }
    match find_first_in(&s, &plus) {
        Some(i) => substring(user, 0, i),
        None => String::from_str(user),
    }
}

/// A full id `ID+RANDOM` names the same peer as its id `ID`.
pub proof fn lemma_full_id_same_peer(id: Seq<char>, random: Seq<char>)
    requires
        !id.contains('+'),
    ensures
        peer_id_text(id + "+"@ + random) == peer_id_text(id),
        peer_id_text(id) == id,
{
    reveal_strlit("+");
    let f = id + "+"@ + random;
    let n = id.len() as int;
    assert(f.subrange(n, n + 1) =~= "+"@);
    assert forall|k: int| 0 <= k < n implies !occurs_at(f, "+"@, k) by {
        assert(f.subrange(k, k + 1)[0] == id[k]);
    }
    lemma_find_from_is(f, "+"@, 0, n);
    assert(f.take(n) =~= id);
    assert forall|k: int| 0 <= k implies !occurs_at(id, "+"@, k) by {
        if occurs_at(id, "+"@, k) {
            assert(id.subrange(k, k + 1)[0] == id[k]);
        }
    }
    lemma_find_from(id, "+"@, 0);
}

/// Whether the publisher's media is the subscriber's own.
pub fn is_own_media(pub_user: &str, sub_user: &str) -> (r: bool)
    ensures
        r == is_own_media_text(pub_user@, sub_user@),
        r <==> (peer_id_text(pub_user@) == peer_id_text(sub_user@) || peer_id_text(pub_user@)
            == peer_id_text(sub_user@) + "-screen"@),
{
    let p = peer_id(pub_user);
    let s = peer_id(sub_user);
    let mut screen = s.clone();
    screen.append("-screen");
    same_text(p.as_str(), s.as_str()) || same_text(p.as_str(), screen.as_str())
}

/// How many tracks of one raw kind (`video` or `audio`) a publisher has.
#[derive(Debug, Clone)]
pub struct MediaCount {
    pub user: String,
    pub mime: String,
    pub count: u64,
}

/// A track the subscriber adds: whose it is, its track id (`MIMEINDEX`), the
/// application id it gets here, and its kind.
#[derive(Debug, Clone)]
pub struct PlannedTrack {
    pub pub_user: String,
    pub track_id: String,
    pub app_id: String,
    pub kind: MediaKind,
}

/// View of a planned track.
pub struct PlannedTrackView {
    pub pub_user: Seq<char>,
    pub track_id: Seq<char>,
    pub app_id: Seq<char>,
    pub kind: MediaKind,
}

impl View for PlannedTrack {
    type V = PlannedTrackView;

    open spec fn view(&self) -> PlannedTrackView {
        PlannedTrackView {
            pub_user: self.pub_user@,
            track_id: self.track_id@,
            app_id: self.app_id@,
            kind: self.kind,
        }
    }
}

/// Planning state: the (publisher, track id) pairs the subscriber holds, its
/// video and audio numbering, and the tracks planned so far.
pub struct SubPlan {
    pub known: Seq<(Seq<char>, Seq<char>)>,
    pub video: nat,
    pub audio: nat,
    pub added: Seq<PlannedTrackView>,
}

/// Largest value of the counters that number a subscriber's tracks.
pub const TRACK_NUMBER_LIMIT: u64 = 0x7fff_ffff;

/// Plan the tracks `from..count` of one publisher's media of raw kind `mime`;
/// `None` for a kind other than `video` and `audio`, or when a counter would
/// pass `TRACK_NUMBER_LIMIT`.
pub open spec fn plan_indices(st: SubPlan, user: Seq<char>, mime: Seq<char>, from: nat, count: nat) -> Option<SubPlan>
    decreases count - from,
{
    if from >= count {
        Some(st)
    } else {
        let tid = mime + decimal(from);
        if st.known.contains((user, tid)) {
            plan_indices(st, user, mime, from + 1, count)
        } else if mime == "video"@ {
            if st.video >= TRACK_NUMBER_LIMIT {
                None
            } else {
                let t = PlannedTrackView { pub_user: user, track_id: tid, app_id: "video"@ + decimal(st.video), kind: MediaKind::Video };
                plan_indices(SubPlan { known: st.known.push((user, tid)), video: st.video + 1, audio: st.audio, added: st.added.push(t) }, user, mime, from + 1, count)
            }
        } else if mime == "audio"@ {
            if st.audio >= TRACK_NUMBER_LIMIT {
                None
            } else {
                let t = PlannedTrackView { pub_user: user, track_id: tid, app_id: "audio"@ + decimal(st.audio), kind: MediaKind::Audio };
                plan_indices(SubPlan { known: st.known.push((user, tid)), video: st.video, audio: st.audio + 1, added: st.added.push(t) }, user, mime, from + 1, count)
            }
        } else {
            None
        }
    }
}

/// The view of a media count.
pub open spec fn media_view(m: MediaCount) -> (Seq<char>, Seq<char>, nat) {
    (m.user@, m.mime@, m.count as nat)
}

/// Plan over the first `k` media counts, skipping the subscriber's own media.
pub open spec fn plan_media(st: SubPlan, media: Seq<(Seq<char>, Seq<char>, nat)>, sub_user: Seq<char>, k: int) -> Option<SubPlan>
    decreases k,
{
    if k <= 0 {
        Some(st)
    } else {
        match plan_media(st, media, sub_user, k - 1) {
            None => None,
            Some(s) => {
                let m = media[k - 1];
                if is_own_media_text(m.0, sub_user) {
                    Some(s)
                } else {
                    plan_indices(s, m.0, m.1, 0, m.2)
                }
            },
        }
    }
}

/// Once planning has failed it stays failed.
pub proof fn lemma_plan_media_none_stays(
    st: SubPlan,
    media: Seq<(Seq<char>, Seq<char>, nat)>,
    sub_user: Seq<char>,
    k: int,
    j: int,
)
    requires
        0 <= k <= j,
        plan_media(st, media, sub_user, k) is None,
    ensures
        plan_media(st, media, sub_user, j) is None,
    decreases j,
{
    if k < j {
        lemma_plan_media_none_stays(st, media, sub_user, k, j - 1);
    }
}

/// The tracks a subscriber adds for a room's media, given the tracks it holds.
pub open spec fn plan_room_tracks(
    media: Seq<(Seq<char>, Seq<char>, nat)>,
    held: Seq<(Seq<char>, Seq<char>)>,
    sub_user: Seq<char>,
) -> Option<Seq<PlannedTrackView>> {
    match plan_media(SubPlan { known: held, video: 0, audio: 0, added: seq![] }, media, sub_user, media.len() as int) {
        Some(p) => Some(p.added),
        None => None,
    }
}

/// A copy of a list of string pairs.
fn copy_pairs(pairs: &Vec<(String, String)>) -> (r: Vec<(String, String)>)
    ensures
        r@.map_values(|p: (String, String)| (p.0@, p.1@)) == pairs@.map_values(
            |p: (String, String)| (p.0@, p.1@),
        ),
{
    let mut r: Vec<(String, String)> = Vec::new();
    let mut k: usize = 0;
    while k < pairs.len()
        invariant
            k <= pairs.len(),
            r.len() == k,
            forall|j: int|
                0 <= j < k ==> (#[trigger] r@[j]).0@ == pairs@[j].0@ && r@[j].1@ == pairs@[j].1@,
        decreases pairs.len() - k,
    {
        r.push((pairs[k].0.clone(), pairs[k].1.clone()));
        k = k + 1;
    }
    assert(r@.map_values(|p: (String, String)| (p.0@, p.1@)) =~= pairs@.map_values(
        |p: (String, String)| (p.0@, p.1@),
    ));
    r
}

/// Planning state in which every held pair is still known, and every planned
/// track is another peer's and was not held.
pub open spec fn plan_respects(st: SubPlan, held: Seq<(Seq<char>, Seq<char>)>, sub_user: Seq<char>) -> bool {
    &&& forall|x: (Seq<char>, Seq<char>)| held.contains(x) ==> #[trigger] st.known.contains(x)
    &&& forall|i: int|
        0 <= i < st.added.len() ==> !is_own_media_text(#[trigger] st.added[i].pub_user, sub_user)
            && !held.contains((st.added[i].pub_user, st.added[i].track_id))
}

proof fn lemma_plan_indices_respects(
    st: SubPlan,
    user: Seq<char>,
    mime: Seq<char>,
    from: nat,
    count: nat,
    held: Seq<(Seq<char>, Seq<char>)>,
    sub_user: Seq<char>,
)
    requires
        plan_respects(st, held, sub_user),
        !is_own_media_text(user, sub_user),
    ensures
        plan_indices(st, user, mime, from, count) matches Some(s) ==> plan_respects(s, held, sub_user),
    decreases count - from,
{
    if from < count {
        let tid = mime + decimal(from);
        if st.known.contains((user, tid)) {
            lemma_plan_indices_respects(st, user, mime, from + 1, count, held, sub_user);
        } else if (mime == "video"@ && st.video < TRACK_NUMBER_LIMIT) || (mime != "video"@ && mime
            == "audio"@ && st.audio < TRACK_NUMBER_LIMIT) {
            let is_v = mime == "video"@;
            let t = PlannedTrackView {
                pub_user: user,
                track_id: tid,
                app_id: if is_v { "video"@ + decimal(st.video) } else { "audio"@ + decimal(st.audio) },
                kind: if is_v { MediaKind::Video } else { MediaKind::Audio },
            };
            let s2 = SubPlan {
                known: st.known.push((user, tid)),
                video: if is_v { st.video + 1 } else { st.video },
                audio: if is_v { st.audio } else { st.audio + 1 },
                added: st.added.push(t),
            };
            assert forall|x: (Seq<char>, Seq<char>)| held.contains(x) implies #[trigger] s2.known.contains(x) by {
                assert(st.known.contains(x));
                let j = choose|j: int| 0 <= j < st.known.len() && st.known[j] == x;
                assert(s2.known[j] == st.known[j]);
            }
            assert forall|i: int| 0 <= i < s2.added.len() implies !is_own_media_text(
                #[trigger] s2.added[i].pub_user,
                sub_user,
            ) && !held.contains((s2.added[i].pub_user, s2.added[i].track_id)) by {
                if i < st.added.len() {
                    assert(s2.added[i] == st.added[i]);
                }
            }
            lemma_plan_indices_respects(s2, user, mime, from + 1, count, held, sub_user);
        }
    }
}

proof fn lemma_plan_media_respects(
    st: SubPlan,
    media: Seq<(Seq<char>, Seq<char>, nat)>,
    sub_user: Seq<char>,
    k: int,
    held: Seq<(Seq<char>, Seq<char>)>,
)
    requires
        plan_respects(st, held, sub_user),
    ensures
        plan_media(st, media, sub_user, k) matches Some(s) ==> plan_respects(s, held, sub_user),
    decreases k,
{
    if k > 0 {
        lemma_plan_media_respects(st, media, sub_user, k - 1, held);
        if let Some(s) = plan_media(st, media, sub_user, k - 1) {
            let m = media[k - 1];
            if !is_own_media_text(m.0, sub_user) {
                lemma_plan_indices_respects(s, m.0, m.1, 0, m.2, held, sub_user);
            }
        }
    }
}

/// A subscriber never pulls back its own media, nor a track it already holds.
pub proof fn lemma_plan_excludes_own_and_held(
    media: Seq<(Seq<char>, Seq<char>, nat)>,
    held: Seq<(Seq<char>, Seq<char>)>,
    sub_user: Seq<char>,
)
    ensures
        plan_room_tracks(media, held, sub_user) matches Some(ts) ==> forall|i: int|
            0 <= i < ts.len() ==> !is_own_media_text(#[trigger] ts[i].pub_user, sub_user)
                && !held.contains((ts[i].pub_user, ts[i].track_id)),
{
    let st = SubPlan { known: held, video: 0, audio: 0, added: seq![] };
    lemma_plan_media_respects(st, media, sub_user, media.len() as int, held);
}

/// The (publisher, track id) pairs of planned tracks.
pub open spec fn planned_pairs(ts: Seq<PlannedTrackView>) -> Seq<(Seq<char>, Seq<char>)> {
    ts.map_values(|t: PlannedTrackView| (t.pub_user, t.track_id))
}

/// The pair of a publisher's `i`-th track of raw kind `mime`.
pub open spec fn track_pair(user: Seq<char>, mime: Seq<char>, i: nat) -> (Seq<char>, Seq<char>) {
    (user, mime + decimal(i))
}

/// `known` holds every track `from..count` of a publisher's media of raw kind `mime`.
pub open spec fn covers(known: Seq<(Seq<char>, Seq<char>)>, user: Seq<char>, mime: Seq<char>, from: nat, count: nat) -> bool {
    forall|i: nat| from <= i < count ==> #[trigger] known.contains(track_pair(user, mime, i))
}

proof fn lemma_push_keeps(known: Seq<(Seq<char>, Seq<char>)>, p: (Seq<char>, Seq<char>))
    ensures
        known.push(p).contains(p),
        forall|x: (Seq<char>, Seq<char>)| #[trigger] known.contains(x) ==> known.push(p).contains(x),
{
    assert(known.push(p)[known.len() as int] == p);
    assert forall|x: (Seq<char>, Seq<char>)| #[trigger] known.contains(x) implies known.push(p).contains(x) by {
        let j = choose|j: int| 0 <= j < known.len() && known[j] == x;
        assert(known.push(p)[j] == x);
    }
}

proof fn lemma_plan_indices_tracks_known(
    st: SubPlan,
    user: Seq<char>,
    mime: Seq<char>,
    from: nat,
    count: nat,
    base: Seq<(Seq<char>, Seq<char>)>,
)
    requires
        st.known == base + planned_pairs(st.added),
    ensures
        plan_indices(st, user, mime, from, count) matches Some(s) ==> s.known == base + planned_pairs(s.added),
    decreases count - from,
{
    if from < count {
        let tid = mime + decimal(from);
        if st.known.contains((user, tid)) {
            lemma_plan_indices_tracks_known(st, user, mime, from + 1, count, base);
        } else if mime == "video"@ || mime == "audio"@ {
            let is_v = mime == "video"@;
            let t = PlannedTrackView {
                pub_user: user,
                track_id: tid,
                app_id: if is_v { "video"@ + decimal(st.video) } else { "audio"@ + decimal(st.audio) },
                kind: if is_v { MediaKind::Video } else { MediaKind::Audio },
            };
            let st2 = SubPlan {
                known: st.known.push((user, tid)),
                video: if is_v { st.video + 1 } else { st.video },
                audio: if is_v { st.audio } else { st.audio + 1 },
                added: st.added.push(t),
            };
            assert(planned_pairs(st.added.push(t)) =~= planned_pairs(st.added).push((user, tid)));
            assert(st2.known =~= base + planned_pairs(st2.added));
            lemma_plan_indices_tracks_known(st2, user, mime, from + 1, count, base);
        }
    }
}

proof fn lemma_plan_media_tracks_known(
    st: SubPlan,
    media: Seq<(Seq<char>, Seq<char>, nat)>,
    sub_user: Seq<char>,
    k: int,
    base: Seq<(Seq<char>, Seq<char>)>,
)
    requires
        st.known == base + planned_pairs(st.added),
    ensures
        plan_media(st, media, sub_user, k) matches Some(s) ==> s.known == base + planned_pairs(s.added),
    decreases k,
{
    if k > 0 {
        lemma_plan_media_tracks_known(st, media, sub_user, k - 1, base);
        if let Some(s) = plan_media(st, media, sub_user, k - 1) {
            let m = media[k - 1];
            lemma_plan_indices_tracks_known(s, m.0, m.1, 0, m.2, base);
        }
    }
}

proof fn lemma_plan_indices_covers(st: SubPlan, user: Seq<char>, mime: Seq<char>, from: nat, count: nat)
    ensures
        plan_indices(st, user, mime, from, count) matches Some(s) ==> (forall|x: (Seq<char>, Seq<char>)|
            #[trigger] st.known.contains(x) ==> s.known.contains(x)) && covers(s.known, user, mime, from, count),
    decreases count - from,
{
    if from < count {
        let tid = mime + decimal(from);
        if st.known.contains((user, tid)) {
            lemma_plan_indices_covers(st, user, mime, from + 1, count);
            if let Some(s) = plan_indices(st, user, mime, from, count) {
                assert(track_pair(user, mime, from) == (user, tid));
                assert forall|i: nat| from <= i < count implies #[trigger] s.known.contains(track_pair(user, mime, i)) by {
                    if i == from {
                        assert(st.known.contains(track_pair(user, mime, from)));
                    }
                }
            }
        } else if mime == "video"@ || mime == "audio"@ {
            let is_v = mime == "video"@;
            let t = PlannedTrackView {
                pub_user: user,
                track_id: tid,
                app_id: if is_v { "video"@ + decimal(st.video) } else { "audio"@ + decimal(st.audio) },
                kind: if is_v { MediaKind::Video } else { MediaKind::Audio },
            };
            let st2 = SubPlan {
                known: st.known.push((user, tid)),
                video: if is_v { st.video + 1 } else { st.video },
                audio: if is_v { st.audio } else { st.audio + 1 },
                added: st.added.push(t),
            };
            lemma_push_keeps(st.known, (user, tid));
            lemma_plan_indices_covers(st2, user, mime, from + 1, count);
            if let Some(s) = plan_indices(st, user, mime, from, count) {
                assert(plan_indices(st, user, mime, from, count) == plan_indices(st2, user, mime, from + 1, count));
                assert(track_pair(user, mime, from) == (user, tid));
                assert(s.known.contains(track_pair(user, mime, from)));
                assert forall|i: nat| from <= i < count implies #[trigger] s.known.contains(track_pair(user, mime, i)) by {
                    if i == from {
                        assert(s.known.contains(track_pair(user, mime, from)));
                    }
                }
                assert forall|x: (Seq<char>, Seq<char>)| #[trigger] st.known.contains(x) implies s.known.contains(x) by {
                    assert(st2.known.contains(x));
                }
            }
        }
    }
}

proof fn lemma_plan_media_covers(st: SubPlan, media: Seq<(Seq<char>, Seq<char>, nat)>, sub_user: Seq<char>, k: int)
    requires
        0 <= k <= media.len(),
    ensures
        plan_media(st, media, sub_user, k) matches Some(s) ==> (forall|x: (Seq<char>, Seq<char>)|
            #[trigger] st.known.contains(x) ==> s.known.contains(x)) && (forall|j: int|
            0 <= j < k && !is_own_media_text(media[j].0, sub_user) ==> covers(
                s.known,
                (#[trigger] media[j]).0,
                media[j].1,
                0,
                media[j].2,
            )),
    decreases k,
{
    if k > 0 {
        lemma_plan_media_covers(st, media, sub_user, k - 1);
        if let Some(s1) = plan_media(st, media, sub_user, k - 1) {
            let m = media[k - 1];
            if !is_own_media_text(m.0, sub_user) {
                lemma_plan_indices_covers(s1, m.0, m.1, 0, m.2);
                if let Some(s) = plan_media(st, media, sub_user, k) {
                    assert(s == plan_indices(s1, m.0, m.1, 0, m.2)->0);
                    assert forall|j: int|
                        0 <= j < k && !is_own_media_text(media[j].0, sub_user) implies covers(
                        s.known,
                        (#[trigger] media[j]).0,
                        media[j].1,
                        0,
                        media[j].2,
                    ) by {
                        if j < k - 1 {
                            assert forall|i: nat| 0 <= i < media[j].2 implies #[trigger] s.known.contains(
                                track_pair(media[j].0, media[j].1, i),
                            ) by {
                                assert(s1.known.contains(track_pair(media[j].0, media[j].1, i)));
                            }
                        }
                    }
                    assert forall|x: (Seq<char>, Seq<char>)| #[trigger] st.known.contains(x) implies s.known.contains(x) by {
                        assert(s1.known.contains(x));
                    }
                }
            }
        }
    }
}

proof fn lemma_plan_indices_known_all(st: SubPlan, user: Seq<char>, mime: Seq<char>, from: nat, count: nat)
    requires
        covers(st.known, user, mime, from, count),
    ensures
        plan_indices(st, user, mime, from, count) == Some(st),
    decreases count - from,
{
    if from < count {
        assert(st.known.contains(track_pair(user, mime, from)));
        lemma_plan_indices_known_all(st, user, mime, from + 1, count);
    }
}

proof fn lemma_plan_media_known_all(st: SubPlan, media: Seq<(Seq<char>, Seq<char>, nat)>, sub_user: Seq<char>, k: int)
    requires
        0 <= k <= media.len(),
        forall|j: int|
            0 <= j < k && !is_own_media_text(media[j].0, sub_user) ==> covers(
                st.known,
                (#[trigger] media[j]).0,
                media[j].1,
                0,
                media[j].2,
            ),
    ensures
        plan_media(st, media, sub_user, k) == Some(st),
    decreases k,
{
    if k > 0 {
        lemma_plan_media_known_all(st, media, sub_user, k - 1);
        let m = media[k - 1];
        if !is_own_media_text(m.0, sub_user) {
            lemma_plan_indices_known_all(st, m.0, m.1, 0, m.2);
        }
    }
}

/// Planning again, with the tracks of the first plan held as well, plans
/// nothing: a subscriber that added what a plan gave does not add it twice.
pub proof fn lemma_replan_adds_nothing(
    media: Seq<(Seq<char>, Seq<char>, nat)>,
    held: Seq<(Seq<char>, Seq<char>)>,
    sub_user: Seq<char>,
)
    ensures
        plan_room_tracks(media, held, sub_user) matches Some(ts) ==> plan_room_tracks(
            media,
            held + planned_pairs(ts),
            sub_user,
        ) == Some(Seq::<PlannedTrackView>::empty()),
{
    let st0 = SubPlan { known: held, video: 0, audio: 0, added: seq![] };
    let n = media.len() as int;
    if let Some(s) = plan_media(st0, media, sub_user, n) {
        assert(planned_pairs(st0.added) =~= Seq::<(Seq<char>, Seq<char>)>::empty());
        assert(st0.known =~= held + planned_pairs(st0.added));
        lemma_plan_media_tracks_known(st0, media, sub_user, n, held);
        lemma_plan_media_covers(st0, media, sub_user, n);
        let st1 = SubPlan { known: held + planned_pairs(s.added), video: 0, audio: 0, added: seq![] };
        assert(st1.known == s.known);
        lemma_plan_media_known_all(st1, media, sub_user, n);
    }
}

/// Own media is exactly that of the subscriber's own peer id or of that id's
/// screen share: a publisher whose peer id is neither is someone else.
pub proof fn lemma_own_media_exactly(pub_user: Seq<char>, sub_user: Seq<char>)
    ensures
        is_own_media_text(pub_user, sub_user) <==> (peer_id_text(pub_user) == peer_id_text(sub_user)
            || peer_id_text(pub_user) == peer_id_text(sub_user) + "-screen"@),
{
}

proof fn lemma_plan_indices_extends(st: SubPlan, user: Seq<char>, mime: Seq<char>, from: nat, count: nat)
    ensures
        plan_indices(st, user, mime, from, count) matches Some(s) ==> st.added.len() <= s.added.len()
            && forall|i: int| 0 <= i < st.added.len() ==> #[trigger] s.added[i] == st.added[i],
    decreases count - from,
{
    if from < count {
        let tid = mime + decimal(from);
        if st.known.contains((user, tid)) {
            lemma_plan_indices_extends(st, user, mime, from + 1, count);
        } else if mime == "video"@ || mime == "audio"@ {
            let is_v = mime == "video"@;
            let t = PlannedTrackView {
                pub_user: user,
                track_id: tid,
                app_id: if is_v { "video"@ + decimal(st.video) } else { "audio"@ + decimal(st.audio) },
                kind: if is_v { MediaKind::Video } else { MediaKind::Audio },
            };
            let st2 = SubPlan {
                known: st.known.push((user, tid)),
                video: if is_v { st.video + 1 } else { st.video },
                audio: if is_v { st.audio } else { st.audio + 1 },
                added: st.added.push(t),
            };
            lemma_plan_indices_extends(st2, user, mime, from + 1, count);
            if let Some(s) = plan_indices(st, user, mime, from, count) {
                assert forall|i: int| 0 <= i < st.added.len() implies #[trigger] s.added[i] == st.added[i] by {
                    assert(st2.added[i] == st.added[i]);
                }
            }
        }
    }
}

/// Another peer's media is pulled: when a room holds only the media of a
/// publisher whose peer id is neither the subscriber's nor its screen share's,
/// with at least one video or audio track, and the subscriber holds nothing,
/// the plan starts with that publisher's first track of the kind, numbered
/// first of its kind; media that is the subscriber's own gives no track.
pub proof fn lemma_other_peers_media_is_planned(
    pub_user: Seq<char>,
    sub_user: Seq<char>,
    mime: Seq<char>,
    count: nat,
)
    requires
        mime == "video"@ || mime == "audio"@,
        1 <= count <= TRACK_NUMBER_LIMIT,
    ensures
        peer_id_text(pub_user) != peer_id_text(sub_user) && peer_id_text(pub_user) != peer_id_text(
            sub_user,
        ) + "-screen"@ ==> (plan_room_tracks(seq![(pub_user, mime, count)], seq![], sub_user) matches Some(ts)
            && ts.len() >= 1 && ts[0].pub_user == pub_user && ts[0].track_id == mime + decimal(0)
            && ts[0].app_id == mime + decimal(0)),
        peer_id_text(pub_user) == peer_id_text(sub_user) || peer_id_text(pub_user) == peer_id_text(
            sub_user,
        ) + "-screen"@ ==> plan_room_tracks(seq![(pub_user, mime, count)], seq![], sub_user) == Some(
            Seq::<PlannedTrackView>::empty(),
        ),
{
    let media = seq![(pub_user, mime, count)];
    let st0 = SubPlan { known: seq![], video: 0, audio: 0, added: seq![] };
    assert(plan_media(st0, media, sub_user, 0) == Some(st0));
    assert(media[0] == (pub_user, mime, count));
    if !is_own_media_text(pub_user, sub_user) {
        let tid = mime + decimal(0);
        assert(!st0.known.contains((pub_user, tid)));
        let is_v = mime == "video"@;
        let t = PlannedTrackView {
            pub_user: pub_user,
            track_id: tid,
            app_id: if is_v { "video"@ + decimal(0) } else { "audio"@ + decimal(0) },
            kind: if is_v { MediaKind::Video } else { MediaKind::Audio },
        };
        let st2 = SubPlan {
            known: st0.known.push((pub_user, tid)),
            video: if is_v { 1 } else { 0 },
            audio: if is_v { 0 } else { 1 },
            added: st0.added.push(t),
        };
        assert(plan_indices(st0, pub_user, mime, 0, count) == plan_indices(st2, pub_user, mime, 1, count));
        lemma_plan_indices_some(st2, pub_user, mime, 1, count);
        lemma_plan_indices_extends(st2, pub_user, mime, 1, count);
        let s = plan_indices(st2, pub_user, mime, 1, count)->0;
        assert(s.added[0] == st2.added[0]);
    }
}

/// Whether `pairs` holds the pair (a, b).
fn holds_pair(pairs: &Vec<(String, String)>, a: &str, b: &str) -> (r: bool)
    ensures
        r == pairs@.map_values(|p: (String, String)| (p.0@, p.1@)).contains((a@, b@)),
{
    let ghost v = pairs@.map_values(|p: (String, String)| (p.0@, p.1@));
    let mut k: usize = 0;
    while k < pairs.len()
        invariant
            k <= pairs.len(),
            v == pairs@.map_values(|p: (String, String)| (p.0@, p.1@)),
            forall|j: int| 0 <= j < k ==> v[j] != (a@, b@),
        decreases pairs.len() - k,
    {
        if same_text(pairs[k].0.as_str(), a) && same_text(pairs[k].1.as_str(), b) {
            assert(v[k as int] == (a@, b@));
            return true;
        }
        k = k + 1;
    }
    false
}

/// Sum of the counts of the first `k` media entries of raw kind `mime` that
/// are not the subscriber's own.
pub open spec fn kind_total(media: Seq<(Seq<char>, Seq<char>, nat)>, sub_user: Seq<char>, mime: Seq<char>, k: int) -> nat
    decreases k,
{
    if k <= 0 {
        0
    } else {
        kind_total(media, sub_user, mime, k - 1) + if is_own_media_text(media[k - 1].0, sub_user)
            || media[k - 1].1 != mime {
            0nat
        } else {
            media[k - 1].2
        }
    }
}

/// Whether an entry can be planned: it is the subscriber's own, has no tracks,
/// or is of kind `video` or `audio`.
pub open spec fn entry_plannable(m: (Seq<char>, Seq<char>, nat), sub_user: Seq<char>) -> bool {
    is_own_media_text(m.0, sub_user) || m.2 == 0 || m.1 == "video"@ || m.1 == "audio"@
}

/// Media a subscriber's tracks can be planned for: every entry it would pull
/// from is of kind `video` or `audio`, and the entries of each kind count no
/// more than `TRACK_NUMBER_LIMIT` tracks.
pub open spec fn plannable(media: Seq<(Seq<char>, Seq<char>, nat)>, sub_user: Seq<char>) -> bool {
    &&& forall|i: int| 0 <= i < media.len() ==> entry_plannable(#[trigger] media[i], sub_user)
    &&& kind_total(media, sub_user, "video"@, media.len() as int) <= TRACK_NUMBER_LIMIT
    &&& kind_total(media, sub_user, "audio"@, media.len() as int) <= TRACK_NUMBER_LIMIT
}

proof fn lemma_kind_total_grows(
    media: Seq<(Seq<char>, Seq<char>, nat)>,
    sub_user: Seq<char>,
    mime: Seq<char>,
    k: int,
    j: int,
)
    requires
        k <= j,
    ensures
        kind_total(media, sub_user, mime, k) <= kind_total(media, sub_user, mime, j),
    decreases j - k,
{
    if k < j {
        lemma_kind_total_grows(media, sub_user, mime, k, j - 1);
    }
}

proof fn lemma_plan_indices_some(st: SubPlan, user: Seq<char>, mime: Seq<char>, from: nat, count: nat)
    requires
        from <= count,
        from < count ==> mime == "video"@ || mime == "audio"@,
        mime == "video"@ ==> st.video + (count - from) <= TRACK_NUMBER_LIMIT,
        mime == "audio"@ ==> st.audio + (count - from) <= TRACK_NUMBER_LIMIT,
    ensures
        plan_indices(st, user, mime, from, count) matches Some(s) && s.video <= st.video + (if mime
            == "video"@ { count - from } else { 0int }) && s.audio <= st.audio + (if mime == "audio"@ {
            count - from
        } else {
            0int
        }),
    decreases count - from,
{
    if from < count {
        let tid = mime + decimal(from);
        if st.known.contains((user, tid)) {
            lemma_plan_indices_some(st, user, mime, from + 1, count);
        } else if mime == "video"@ {
            let t = PlannedTrackView { pub_user: user, track_id: tid, app_id: "video"@ + decimal(st.video), kind: MediaKind::Video };
            let st2 = SubPlan { known: st.known.push((user, tid)), video: st.video + 1, audio: st.audio, added: st.added.push(t) };
            lemma_plan_indices_some(st2, user, mime, from + 1, count);
        } else {
            let t = PlannedTrackView { pub_user: user, track_id: tid, app_id: "audio"@ + decimal(st.audio), kind: MediaKind::Audio };
            let st2 = SubPlan { known: st.known.push((user, tid)), video: st.video, audio: st.audio + 1, added: st.added.push(t) };
            lemma_plan_indices_some(st2, user, mime, from + 1, count);
        }
    }
}

proof fn lemma_plan_media_some(st: SubPlan, media: Seq<(Seq<char>, Seq<char>, nat)>, sub_user: Seq<char>, k: int)
    requires
        0 <= k <= media.len(),
        forall|i: int| 0 <= i < media.len() ==> entry_plannable(#[trigger] media[i], sub_user),
        st.video + kind_total(media, sub_user, "video"@, k) <= TRACK_NUMBER_LIMIT,
        st.audio + kind_total(media, sub_user, "audio"@, k) <= TRACK_NUMBER_LIMIT,
    ensures
        plan_media(st, media, sub_user, k) matches Some(s) && s.video <= st.video + kind_total(
            media,
            sub_user,
            "video"@,
            k,
        ) && s.audio <= st.audio + kind_total(media, sub_user, "audio"@, k),
    decreases k,
{
    if k > 0 {
        lemma_plan_media_some(st, media, sub_user, k - 1);
        let s = plan_media(st, media, sub_user, k - 1)->0;
        let m = media[k - 1];
        assert(entry_plannable(media[k - 1], sub_user));
        if !is_own_media_text(m.0, sub_user) {
            assert("video"@ != "audio"@) by {
                reveal_strlit("video");
                reveal_strlit("audio");
                assert("video"@[0] != "audio"@[0]);
            }
            lemma_plan_indices_some(s, m.0, m.1, 0, m.2);
        }
    }
}

/// Plannable media always yield a plan.
proof fn lemma_plannable_plans(
    media: Seq<(Seq<char>, Seq<char>, nat)>,
    held: Seq<(Seq<char>, Seq<char>)>,
    sub_user: Seq<char>,
)
    requires
        plannable(media, sub_user),
    ensures
        plan_room_tracks(media, held, sub_user) is Some,
{
    let st = SubPlan { known: held, video: 0, audio: 0, added: seq![] };
    lemma_plan_media_some(st, media, sub_user, media.len() as int);
}

/// Whether a subscriber's tracks can be planned for `media`.
pub fn is_plannable(media: &Vec<MediaCount>, sub_user: &str) -> (r: bool)
    ensures
        r == plannable(media@.map_values(|m: MediaCount| media_view(m)), sub_user@),
{
    let ghost mv = media@.map_values(|m: MediaCount| media_view(m));
    proof {
        reveal_strlit("video");
        reveal_strlit("audio");
        assert("video"@ != "audio"@) by {
            assert("video"@[0] != "audio"@[0]);
        }
    }
    let mut videos: u64 = 0;
    let mut audios: u64 = 0;
    let mut k: usize = 0;
    while k < media.len()
        invariant
            k <= media.len(),
            mv == media@.map_values(|m: MediaCount| media_view(m)),
            mv.len() == media.len(),
            "video"@ != "audio"@,
            videos == kind_total(mv, sub_user@, "video"@, k as int),
            audios == kind_total(mv, sub_user@, "audio"@, k as int),
            videos <= TRACK_NUMBER_LIMIT,
            audios <= TRACK_NUMBER_LIMIT,
            forall|i: int| 0 <= i < k ==> entry_plannable(#[trigger] mv[i], sub_user@),
        decreases media.len() - k,
    {
        let m = &media[k];
        assert(mv[k as int] == media_view(*m));
        let own = is_own_media(m.user.as_str(), sub_user);
        if !own {
            let is_video = same_text(m.mime.as_str(), "video");
            let is_audio = same_text(m.mime.as_str(), "audio");
            if !(m.count == 0 || is_video || is_audio) {
                assert(!entry_plannable(mv[k as int], sub_user@));
                return false;
            }
            if is_video {
                if m.count > TRACK_NUMBER_LIMIT - videos {
                    proof {
                        lemma_kind_total_grows(mv, sub_user@, "video"@, k + 1, mv.len() as int);
                    }
                    return false;
                }
                videos = videos + m.count;
            } else if is_audio {
                if m.count > TRACK_NUMBER_LIMIT - audios {
                    proof {
                        lemma_kind_total_grows(mv, sub_user@, "audio"@, k + 1, mv.len() as int);
                    }
                    return false;
                }
                audios = audios + m.count;
            }
        }
        k = k + 1;
    }
    true
}

/// Decide which published tracks a subscriber adds, in the order of `media`,
/// given the (publisher, track id) pairs it already holds: for each
/// publisher's media that is not the subscriber's own, track ids `MIME0`,
/// `MIME1`, ... up to its count, skipping those held, numbered `videoN` /
/// `audioN` in the order they are added.  The media must be plannable.
pub fn plan_subscriber_tracks(
    media: &Vec<MediaCount>,
    held: &Vec<(String, String)>,
    sub_user: &str,
) -> (r: Vec<PlannedTrack>)
    requires
        plannable(media@.map_values(|m: MediaCount| media_view(m)), sub_user@),
    ensures
        plan_room_tracks(media@.map_values(|m: MediaCount| media_view(m)), held@.map_values(|p: (String, String)| (p.0@, p.1@)), sub_user@) == Some(r@.map_values(|t: PlannedTrack| t@)),
{
    proof {
        lemma_plannable_plans(
            media@.map_values(|m: MediaCount| media_view(m)),
            held@.map_values(|p: (String, String)| (p.0@, p.1@)),
            sub_user@,
        );
    }
    match plan_tracks(media, held, sub_user) {
        Some(v) => v,
        None => {
            assert(false);
            Vec::new()
        },
    }
}

/// The planning itself; `None` when a kind is neither `video` nor `audio`, or
/// a counter would pass `TRACK_NUMBER_LIMIT`.
fn plan_tracks(
    media: &Vec<MediaCount>,
    held: &Vec<(String, String)>,
    sub_user: &str,
) -> (r: Option<Vec<PlannedTrack>>)
    ensures
        match r {
            Some(v) => plan_room_tracks(media@.map_values(|m: MediaCount| media_view(m)), held@.map_values(|p: (String, String)| (p.0@, p.1@)), sub_user@) == Some(v@.map_values(|t: PlannedTrack| t@)),
            None => plan_room_tracks(media@.map_values(|m: MediaCount| media_view(m)), held@.map_values(|p: (String, String)| (p.0@, p.1@)), sub_user@) is None,
        },
{
    let ghost mv = media@.map_values(|m: MediaCount| media_view(m));
    let ghost hv = held@.map_values(|p: (String, String)| (p.0@, p.1@));
    let ghost start = SubPlan { known: hv, video: 0, audio: 0, added: seq![] };
    let mut known: Vec<(String, String)> = copy_pairs(held);
    let mut out: Vec<PlannedTrack> = Vec::new();
    let mut vc: u64 = 0;
    let mut ac: u64 = 0;
    let mut k: usize = 0;
    assert(out@.map_values(|t: PlannedTrack| t@) =~= Seq::<PlannedTrackView>::empty());
    while k < media.len()
        invariant
            k <= media.len(),
            mv == media@.map_values(|m: MediaCount| media_view(m)),
            mv.len() == media.len(),
            hv == held@.map_values(|p: (String, String)| (p.0@, p.1@)),
            start == (SubPlan { known: hv, video: 0, audio: 0, added: seq![] }),
            plan_media(start, mv, sub_user@, k as int) == Some(SubPlan {
                known: known@.map_values(|p: (String, String)| (p.0@, p.1@)),
                video: vc as nat,
                audio: ac as nat,
                added: out@.map_values(|t: PlannedTrack| t@),
            }),
        decreases media.len() - k,
    {
        let m = &media[k];
        if !is_own_media(m.user.as_str(), sub_user) {
            let ghost entry_state = SubPlan {
                known: known@.map_values(|p: (String, String)| (p.0@, p.1@)),
                video: vc as nat,
                audio: ac as nat,
                added: out@.map_values(|t: PlannedTrack| t@),
            };
            assert(mv[k as int] == media_view(*m));
            let mut idx: u64 = 0;
            while idx < m.count
                invariant
                    idx <= m.count,
                    k < media.len(),
                    mv == media@.map_values(|m: MediaCount| media_view(m)),
                    mv.len() == media.len(),
                    hv == held@.map_values(|p: (String, String)| (p.0@, p.1@)),
                    start == (SubPlan { known: hv, video: 0, audio: 0, added: seq![] }),
                    *m == media@[k as int],
                    mv[k as int] == media_view(*m),
                    !is_own_media_text(m.user@, sub_user@),
                    plan_media(start, mv, sub_user@, k as int) == Some(entry_state),
                    plan_indices(entry_state, m.user@, m.mime@, 0, m.count as nat) == plan_indices(
                        SubPlan {
                            known: known@.map_values(|p: (String, String)| (p.0@, p.1@)),
                            video: vc as nat,
                            audio: ac as nat,
                            added: out@.map_values(|t: PlannedTrack| t@),
                        },
                        m.user@,
                        m.mime@,
                        idx as nat,
                        m.count as nat,
                    ),
                decreases m.count - idx,
            {
                let mut tid = m.mime.clone();
                let d = decimal_string(idx);
                tid.append(d.as_str());
                let ghost kv = known@.map_values(|p: (String, String)| (p.0@, p.1@));
                let ghost ov = out@.map_values(|t: PlannedTrack| t@);
                if !holds_pair(&known, m.user.as_str(), tid.as_str()) {
                    let is_video = same_text(m.mime.as_str(), "video");
                    let is_audio = same_text(m.mime.as_str(), "audio");
                    if is_video {
                        if vc >= TRACK_NUMBER_LIMIT {
                            proof {
                                assert(plan_media(start, mv, sub_user@, k + 1) == plan_indices(entry_state, m.user@, m.mime@, 0, m.count as nat));
                                lemma_plan_media_none_stays(start, mv, sub_user@, k + 1, mv.len() as int);
                            }
                            return None;
                        }
                        let mut app = String::from_str("video");
                        let n = decimal_string(vc);
                        app.append(n.as_str());
                        known.push((m.user.clone(), tid.clone()));
                        out.push(PlannedTrack { pub_user: m.user.clone(), track_id: tid, app_id: app, kind: MediaKind::Video });
                        vc = vc + 1;
                    } else if is_audio {
                        if ac >= TRACK_NUMBER_LIMIT {
                            proof {
                                assert(plan_media(start, mv, sub_user@, k + 1) == plan_indices(entry_state, m.user@, m.mime@, 0, m.count as nat));
                                lemma_plan_media_none_stays(start, mv, sub_user@, k + 1, mv.len() as int);
                            }
                            return None;
                        }
                        let mut app = String::from_str("audio");
                        let n = decimal_string(ac);
                        app.append(n.as_str());
                        known.push((m.user.clone(), tid.clone()));
                        out.push(PlannedTrack { pub_user: m.user.clone(), track_id: tid, app_id: app, kind: MediaKind::Audio });
                        ac = ac + 1;
                    } else {
                        proof {
                            assert(plan_media(start, mv, sub_user@, k + 1) == plan_indices(entry_state, m.user@, m.mime@, 0, m.count as nat));
                            lemma_plan_media_none_stays(start, mv, sub_user@, k + 1, mv.len() as int);
                        }
                        return None;
                    }
                    assert(known@.map_values(|p: (String, String)| (p.0@, p.1@)) =~= kv.push((m.user@, tid@)));
                    assert(out@.map_values(|t: PlannedTrack| t@) =~= ov.push(out@.last()@));
                }
                idx = idx + 1;
            }
        }
        k = k + 1;
    }
    assert(mv.len() == media.len());
    Some(out)
}

/// How many rows of a track table are tracks of `user` with raw kind `mime`.
pub open spec fn count_rows(rows: Seq<(Seq<char>, Seq<char>, Seq<char>)>, user: Seq<char>, mime: Seq<char>) -> nat
    decreases rows.len(),
{
    if rows.len() == 0 {
        0
    } else {
        count_rows(rows.drop_last(), user, mime) + if rows.last().0 == user && rows.last().2 == mime {
            1nat
        } else {
            0nat
        }
    }
}

/// The (user, kind, count) view of media counts.
pub open spec fn counts_view(v: Seq<MediaCount>) -> Seq<(Seq<char>, Seq<char>, nat)> {
    v.map_values(|m: MediaCount| media_view(m))
}

/// The counts summarize `rows`: one count per (user, kind) that occurs, each
/// equal to the number of rows with that user and kind.
pub open spec fn summarizes(counts: Seq<(Seq<char>, Seq<char>, nat)>, rows: Seq<(Seq<char>, Seq<char>, Seq<char>)>) -> bool {
    &&& forall|i: int| 0 <= i < counts.len() ==> #[trigger] counts[i].2 == count_rows(rows, counts[i].0, counts[i].1) && counts[i].2 > 0
    &&& forall|j: int| 0 <= j < rows.len() ==> exists|i: int| 0 <= i < counts.len() && counts[i].0 == (#[trigger] rows[j]).0 && counts[i].1 == rows[j].2
    &&& forall|i: int, k: int| 0 <= i < k < counts.len() ==> (counts[i].0, counts[i].1) != (counts[k].0, counts[k].1)
}

proof fn lemma_count_rows_push(rows: Seq<(Seq<char>, Seq<char>, Seq<char>)>, r: (Seq<char>, Seq<char>, Seq<char>), user: Seq<char>, mime: Seq<char>)
    ensures
        count_rows(rows.push(r), user, mime) == count_rows(rows, user, mime) + if r.0 == user && r.2 == mime { 1nat } else { 0nat },
{
    assert(rows.push(r).drop_last() =~= rows);
}

proof fn lemma_count_rows_absent(rows: Seq<(Seq<char>, Seq<char>, Seq<char>)>, user: Seq<char>, mime: Seq<char>)
    requires
        forall|j: int| 0 <= j < rows.len() ==> !(rows[j].0 == user && rows[j].2 == mime),
    ensures
        count_rows(rows, user, mime) == 0,
    decreases rows.len(),
{
    if rows.len() > 0 {
        lemma_count_rows_absent(rows.drop_last(), user, mime);
    }
}

/// Index of the count for (user, mime), if there is one.
fn find_count(out: &Vec<MediaCount>, user: &str, mime: &str) -> (r: Option<usize>)
    ensures
        match r {
            Some(i) => i < out.len() && out@[i as int].user@ == user@ && out@[i as int].mime@ == mime@,
            None => forall|j: int| 0 <= j < out.len() ==> !((#[trigger] out@[j]).user@ == user@ && out@[j].mime@ == mime@),
        },
{
    let mut i: usize = 0;
    while i < out.len()
        invariant
            i <= out.len(),
            forall|j: int| 0 <= j < i ==> !((#[trigger] out@[j]).user@ == user@ && out@[j].mime@ == mime@),
        decreases out.len() - i,
    {
        if same_text(out[i].user.as_str(), user) && same_text(out[i].mime.as_str(), mime) {
            return Some(i);
        }
        i = i + 1;
    }
    None
}

/// Count a room's tracks per publisher and raw kind.
#[verifier::spinoff_prover]
#[verifier::rlimit(40)]
pub fn media_counts(entries: &Vec<TrackEntry>) -> (r: Vec<MediaCount>)
    ensures
        summarizes(counts_view(r@), entries_view(entries@)),
{
    let ghost rows = entries_view(entries@);
    let mut out: Vec<MediaCount> = Vec::new();
    let mut k: usize = 0;
    while k < entries.len()
        invariant
            k <= entries.len(),
            rows == entries_view(entries@),
            rows.len() == entries.len(),
            out.len() <= k,
            summarizes(counts_view(out@), rows.take(k as int)),
            forall|i: int| 0 <= i < out.len() ==> (#[trigger] out@[i]).count <= k,
        decreases entries.len() - k,
    {
        let e = &entries[k];
        let ghost prev = rows.take(k as int);
        let ghost row = rows[k as int];
        assert(rows.take(k + 1) =~= prev.push(row));
        let ghost before = counts_view(out@);
        let ghost out0 = out@;
        let pos = find_count(&out, e.user.as_str(), e.mime.as_str());
        assert(row == (e.user@, e.track@, e.mime@));
        if let Some(i) = pos {
            let c = out[i].count + 1;
            let u = out[i].user.clone();
            let mm = out[i].mime.clone();
            out.set(i, MediaCount { user: u, mime: mm, count: c });
            proof {
                let after = counts_view(out@);
                let nr = prev.push(row);
                assert forall|t: int| 0 <= t < after.len() implies #[trigger] after[t].2 == count_rows(nr, after[t].0, after[t].1) && after[t].2 > 0 by {
                    lemma_count_rows_push(prev, row, after[t].0, after[t].1);
                    assert(before[t].2 == count_rows(prev, before[t].0, before[t].1));
                    if t != i {
                        assert(after[t] == before[t]);
                        if t < i {
                            assert((before[t].0, before[t].1) != (before[i as int].0, before[i as int].1));
                        } else {
                            assert((before[i as int].0, before[i as int].1) != (before[t].0, before[t].1));
                        }
                    }
                }
                assert forall|j: int| 0 <= j < nr.len() implies exists|t: int| 0 <= t < after.len() && after[t].0 == (#[trigger] nr[j]).0 && after[t].1 == nr[j].2 by {
                    if j < prev.len() {
                        assert(nr[j] == prev[j]);
                        let t = choose|t: int| 0 <= t < before.len() && before[t].0 == prev[j].0 && before[t].1 == prev[j].2;
                        assert(after[t].0 == before[t].0 && after[t].1 == before[t].1);
                    } else {
                        assert(after[i as int].0 == row.0 && after[i as int].1 == row.2);
                    }
                }
                assert forall|a: int, b: int| 0 <= a < b < after.len() implies (after[a].0, after[a].1) != (after[b].0, after[b].1) by {
                    assert(after[a].0 == before[a].0 && after[a].1 == before[a].1);
                    assert(after[b].0 == before[b].0 && after[b].1 == before[b].1);
                }
            }
        } else {
            out.push(MediaCount { user: e.user.clone(), mime: e.mime.clone(), count: 1 });
            proof {
                let after = counts_view(out@);
                let nr = prev.push(row);
                assert forall|j: int| 0 <= j < prev.len() implies !(prev[j].0 == row.0 && prev[j].2 == row.2) by {
                    if prev[j].0 == row.0 && prev[j].2 == row.2 {
                        let t = choose|t: int| 0 <= t < before.len() && before[t].0 == prev[j].0 && before[t].1 == prev[j].2;
                        assert(out0[t].user@ == e.user@ && out0[t].mime@ == e.mime@);
                    }
                }
                lemma_count_rows_absent(prev, row.0, row.2);
                assert forall|t: int| 0 <= t < after.len() implies #[trigger] after[t].2 == count_rows(nr, after[t].0, after[t].1) && after[t].2 > 0 by {
                    lemma_count_rows_push(prev, row, after[t].0, after[t].1);
                    if t < before.len() {
                        assert(after[t] == before[t]);
                        assert(before[t].2 == count_rows(prev, before[t].0, before[t].1));
                        assert(!(out0[t].user@ == e.user@ && out0[t].mime@ == e.mime@));
                    }
                }
                assert forall|j: int| 0 <= j < nr.len() implies exists|t: int| 0 <= t < after.len() && after[t].0 == (#[trigger] nr[j]).0 && after[t].1 == nr[j].2 by {
                    if j < prev.len() {
                        assert(nr[j] == prev[j]);
                        let t = choose|t: int| 0 <= t < before.len() && before[t].0 == prev[j].0 && before[t].1 == prev[j].2;
                        assert(after[t] == before[t]);
                    } else {
                        assert(after[before.len() as int].0 == row.0 && after[before.len() as int].1 == row.2);
                    }
                }
                assert forall|a: int, b: int| 0 <= a < b < after.len() implies (after[a].0, after[a].1) != (after[b].0, after[b].1) by {
                    if b == before.len() {
                        assert(after[a] == before[a]);
                        assert(!(out0[a].user@ == e.user@ && out0[a].mime@ == e.mime@));
                    } else {
                        assert(after[a] == before[a] && after[b] == before[b]);
                    }
                }
            }
        }
        k = k + 1;
    }
    assert(rows.take(k as int) =~= rows);
    out
}

/// The one-letter tag of a kind in a media subject.
pub open spec fn media_tag_text(kind: MediaKind) -> Seq<char> {
    match kind {
        MediaKind::Video => "v"@,
        MediaKind::Audio => "a"@,
    }
}

/// The codec kind of a media kind.
pub open spec fn rtp_kind_of(kind: MediaKind) -> RtpKind {
    match kind {
        MediaKind::Video => RtpKind::Video,
        MediaKind::Audio => RtpKind::Audio,
    }
}

/// Subject a subscriber pulls one published track from:
/// `rtc.ROOM.USER.K.TRACK_ID`, with `K` the kind's one-letter tag.
pub open spec fn track_subject_text(room: Seq<char>, user: Seq<char>, kind: MediaKind, track_id: Seq<char>) -> Seq<char> {
    "rtc."@ + room + "."@ + user + "."@ + media_tag_text(kind) + "."@ + track_id
}

/// Subject a subscriber pulls one published track from.
pub fn track_subject(room: &str, user: &str, kind: MediaKind, track_id: &str) -> (r: String)
    ensures
        r@ == track_subject_text(room@, user@, kind, track_id@),
{
    let mut r = String::from_str("rtc.");
    r.append(room);
    r.append(".");
    r.append(user);
    r.append(".");
    match kind {
        MediaKind::Video => r.append("v"),
        MediaKind::Audio => r.append("a"),
    }
    r.append(".");
    r.append(track_id);
    r
}

/// Publisher and subscriber meet on one subject: the subject a subscriber
/// pulls a publisher's `n`-th track of a kind from (track id: the kind's
/// recorded name and `n`) is the subject the publisher pushes the track it
/// numbered `n` of that kind to (application id `videoN` / `audioN`).
pub proof fn lemma_subjects_meet(room: Seq<char>, user: Seq<char>, kind: MediaKind, n: nat)
    ensures
        track_subject_text(room, user, kind, kind_name_text(kind) + decimal(n))
            == publisher_track_subject_text(room, user, rtp_kind_of(kind), app_id_text(kind, n)),
{
    assert(kind_name_text(kind) + decimal(n) == app_id_text(kind, n));
    assert(media_tag_text(kind) == kind_tag_text(rtp_kind_of(kind)));
}

} // verus!
