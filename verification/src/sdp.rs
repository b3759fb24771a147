//! Reading a publisher's SDP offer: which media sections it announces, and the
//! receive slots the publisher opens for the tracks that are new to it.
use vstd::prelude::*;
use crate::text::{
    chars_of, decimal, decimal_string, find_last, find_last_in, matches_at, second_word,
    split, split_ranges, starts_with, substring, words, same_text,
};

verus! {

/// Kind of media a section or track carries.
#[derive(Debug, Clone, Copy, PartialEq, Eq, Structural)]
pub enum MediaKind {
    Video,
    Audio,
}

/// The media sections of an offer, in the order the publisher walks them: the
/// pieces between `m=` markers with a trailing empty piece dropped, last first
/// (as `str::rsplit_terminator` yields them).
pub open spec fn media_sections(offer: Seq<char>) -> Seq<Seq<char>> {
    let pieces = split(offer, "m="@);
    let kept = if pieces.len() > 0 && pieces.last().len() == 0 {
        pieces.drop_last()
    } else {
        pieces
    };
    kept.reverse()
}

/// The track id a section announces: the second word after its last `msid:`.
pub open spec fn section_track_id(section: Seq<char>) -> Option<Seq<char>> {
    match find_last(section, "msid:"@) {
        Some(i) => {
            let w = words(section.skip(i + "msid:"@.len()));
            if w.len() >= 2 {
                Some(w[1])
            } else {
                None
            }
        },
        None => None,
    }
}

/// The kind of a section, by how it starts.
pub open spec fn section_kind(section: Seq<char>) -> Option<MediaKind> {
    if starts_with(section, "video"@) {
        Some(MediaKind::Video)
    } else if starts_with(section, "audio"@) {
        Some(MediaKind::Audio)
    } else {
        None
    }
}

/// Application track id of the `n`-th track of a kind: `videoN` or `audioN`.
pub open spec fn app_id_text(kind: MediaKind, n: nat) -> Seq<char> {
    match kind {
        MediaKind::Video => "video"@ + decimal(n),
        MediaKind::Audio => "audio"@ + decimal(n),
    }
}

/// The application id recorded for `key`: the first pair with that key.
pub open spec fn lookup(ids: Seq<(Seq<char>, Seq<char>)>, key: Seq<char>) -> Option<Seq<char>>
    decreases ids.len(),
{
    if ids.len() == 0 {
        None
    } else if ids[0].0 == key {
        Some(ids[0].1)
    } else {
        lookup(ids.drop_first(), key)
    }
}

/// No key is recorded twice.
pub open spec fn keys_distinct(ids: Seq<(Seq<char>, Seq<char>)>) -> bool {
    forall|i: int, j: int| 0 <= i < j < ids.len() ==> ids[i].0 != ids[j].0
}

/// A publisher's record of its tracks: generated track id to application id,
/// and how many video and audio tracks it has numbered.
pub struct PublisherMediaView {
    pub ids: Seq<(Seq<char>, Seq<char>)>,
    pub video: nat,
    pub audio: nat,
}

/// A receive slot opened for a new track: its kind, the id the offer gave it,
/// and its application id.
pub struct NewTrackView {
    pub kind: MediaKind,
    pub gen_id: Seq<char>,
    pub app_id: Seq<char>,
}

/// The effect of one section on the record: a section with a track id and a
/// kind, whose id is not yet recorded, gets the next application id of its kind.
pub open spec fn plan_section(
    st: (PublisherMediaView, Seq<NewTrackView>),
    section: Seq<char>,
) -> (PublisherMediaView, Seq<NewTrackView>) {
    match (section_track_id(section), section_kind(section)) {
        (Some(id), Some(kind)) => {
            if lookup(st.0.ids, id) is Some {
                st
            } else {
                let n = if kind == MediaKind::Video { st.0.video } else { st.0.audio };
                let app = app_id_text(kind, n);
                (
                    PublisherMediaView {
                        ids: st.0.ids.push((id, app)),
                        video: if kind == MediaKind::Video { st.0.video + 1 } else { st.0.video },
                        audio: if kind == MediaKind::Audio { st.0.audio + 1 } else { st.0.audio },
                    },
                    st.1.push(NewTrackView { kind, gen_id: id, app_id: app }),
                )
            }
        },
        _ => st,
    }
}

/// The record and new tracks after the first `k` of `sections`.
pub open spec fn plan_upto(
    st: (PublisherMediaView, Seq<NewTrackView>),
    sections: Seq<Seq<char>>,
    k: int,
) -> (PublisherMediaView, Seq<NewTrackView>)
    decreases k,
{
    if k <= 0 {
        st
    } else {
        plan_section(plan_upto(st, sections, k - 1), sections[k - 1])
    }
}

/// The record after an offer, and the tracks it opened slots for.
pub open spec fn plan_offer(v: PublisherMediaView, offer: Seq<char>) -> (
    PublisherMediaView,
    Seq<NewTrackView>,
) {
    plan_upto((v, seq![]), media_sections(offer), media_sections(offer).len() as int)
}

/// Counters never go down along an offer.
pub proof fn lemma_plan_counts_grow(
    st: (PublisherMediaView, Seq<NewTrackView>),
    sections: Seq<Seq<char>>,
    k: int,
    j: int,
)
    requires
        0 <= k <= j,
    ensures
        plan_upto(st, sections, k).0.video <= plan_upto(st, sections, j).0.video,
        plan_upto(st, sections, k).0.audio <= plan_upto(st, sections, j).0.audio,
    decreases j,
{
    if k < j {
        lemma_plan_counts_grow(st, sections, k, j - 1);
    }
}

/// A key recorded at some point of an offer keeps its value to the end.
pub proof fn lemma_plan_lookup_stable(
    st: (PublisherMediaView, Seq<NewTrackView>),
    sections: Seq<Seq<char>>,
    k: int,
    j: int,
    key: Seq<char>,
)
    requires
        0 <= k <= j,
        lookup(plan_upto(st, sections, k).0.ids, key) is Some,
    ensures
        lookup(plan_upto(st, sections, j).0.ids, key) == lookup(plan_upto(st, sections, k).0.ids, key),
    decreases j,
{
    if k < j {
        lemma_plan_lookup_stable(st, sections, k, j - 1, key);
        let prev = plan_upto(st, sections, j - 1);
        let sec = sections[j - 1];
        if let (Some(id), Some(kind)) = (section_track_id(sec), section_kind(sec)) {
            if lookup(prev.0.ids, id) is None {
                let n = if kind == MediaKind::Video { prev.0.video } else { prev.0.audio };
                assert(prev.0.ids.push((id, app_id_text(kind, n))) =~= prev.0.ids + seq![(id, app_id_text(kind, n))]);
                lemma_lookup_concat(prev.0.ids, seq![(id, app_id_text(kind, n))], key);
            }
        }
    }
}

/// Every section that names a track of a known kind has its id recorded once
/// the walk has passed it.
pub proof fn lemma_plan_records_section(
    st: (PublisherMediaView, Seq<NewTrackView>),
    sections: Seq<Seq<char>>,
    k: int,
    j: int,
)
    requires
        0 <= k < j,
        k < sections.len(),
        section_track_id(sections[k]) is Some,
        section_kind(sections[k]) is Some,
    ensures
        lookup(plan_upto(st, sections, j).0.ids, section_track_id(sections[k])->0) is Some,
{
    let prev = plan_upto(st, sections, k);
    let id = section_track_id(sections[k])->0;
    let kind = section_kind(sections[k])->0;
    if lookup(prev.0.ids, id) is None {
        let n = if kind == MediaKind::Video { prev.0.video } else { prev.0.audio };
        assert(prev.0.ids.push((id, app_id_text(kind, n))) =~= prev.0.ids + seq![(id, app_id_text(kind, n))]);
        lemma_lookup_concat(prev.0.ids, seq![(id, app_id_text(kind, n))], id);
        assert(seq![(id, app_id_text(kind, n))][0].0 == id);
    }
    lemma_plan_lookup_stable(st, sections, k + 1, j, id);
}

/// Walking a record whose ids all appear already leaves it unchanged.
proof fn lemma_plan_known_unchanged(
    v: PublisherMediaView,
    sections: Seq<Seq<char>>,
    k: int,
)
    requires
        0 <= k <= sections.len(),
        forall|i: int|
            0 <= i < sections.len() && section_track_id(sections[i]) is Some && section_kind(
                sections[i],
            ) is Some ==> lookup(v.ids, section_track_id(#[trigger] sections[i])->0) is Some,
    ensures
        plan_upto((v, seq![]), sections, k) == (v, Seq::<NewTrackView>::empty()),
    decreases k,
{
    if k > 0 {
        lemma_plan_known_unchanged(v, sections, k - 1);
        let sec = sections[k - 1];
        if section_track_id(sec) is Some && section_kind(sec) is Some {
            assert(lookup(v.ids, section_track_id(sections[k - 1])->0) is Some);
        }
    }
}

/// Giving the same offer twice opens no slot the second time and leaves the
/// record as the first time left it.
pub proof fn lemma_offer_idempotent(v: PublisherMediaView, offer: Seq<char>)
    ensures
        plan_offer(plan_offer(v, offer).0, offer) == (plan_offer(v, offer).0, Seq::<NewTrackView>::empty()),
{
    let sections = media_sections(offer);
    let n = sections.len() as int;
    let st = (v, Seq::<NewTrackView>::empty());
    let v1 = plan_offer(v, offer).0;
    assert forall|i: int|
        0 <= i < sections.len() && section_track_id(sections[i]) is Some && section_kind(
            sections[i],
        ) is Some implies lookup(v1.ids, section_track_id(#[trigger] sections[i])->0) is Some by {
        lemma_plan_records_section(st, sections, i, n);
    }
    lemma_plan_known_unchanged(v1, sections, n);
}

/// Every slot an offer opens is recorded: its generated id looks up to its
/// application id afterwards.
pub proof fn lemma_offer_tracks_recorded(v: PublisherMediaView, offer: Seq<char>, i: int)
    requires
        0 <= i < plan_offer(v, offer).1.len(),
    ensures
        lookup(plan_offer(v, offer).0.ids, plan_offer(v, offer).1[i].gen_id) == Some(
            plan_offer(v, offer).1[i].app_id,
        ),
{
    let sections = media_sections(offer);
    lemma_plan_added_recorded((v, seq![]), sections, sections.len() as int, i);
}

/// The slots opened during the first `k` sections are recorded after them.
proof fn lemma_plan_added_recorded(
    st: (PublisherMediaView, Seq<NewTrackView>),
    sections: Seq<Seq<char>>,
    k: int,
    i: int,
)
    requires
        0 <= k,
        st.1.len() <= i < plan_upto(st, sections, k).1.len(),
    ensures
        lookup(plan_upto(st, sections, k).0.ids, plan_upto(st, sections, k).1[i].gen_id) == Some(
            plan_upto(st, sections, k).1[i].app_id,
        ),
    decreases k,
{
    if k > 0 {
        let prev = plan_upto(st, sections, k - 1);
        let sec = sections[k - 1];
        if i < prev.1.len() {
            lemma_plan_added_recorded(st, sections, k - 1, i);
            assert(plan_upto(st, sections, k).1[i] == prev.1[i]);
            lemma_plan_lookup_stable(st, sections, k - 1, k, prev.1[i].gen_id);
        } else {
            let id = section_track_id(sec)->0;
            let kind = section_kind(sec)->0;
            let n = if kind == MediaKind::Video { prev.0.video } else { prev.0.audio };
            assert(prev.0.ids.push((id, app_id_text(kind, n))) =~= prev.0.ids + seq![(id, app_id_text(kind, n))]);
            lemma_lookup_concat(prev.0.ids, seq![(id, app_id_text(kind, n))], id);
            assert(seq![(id, app_id_text(kind, n))][0].0 == id);
        }
    }
}

/// Looking a key up in a record extended by more pairs.
pub proof fn lemma_lookup_concat(a: Seq<(Seq<char>, Seq<char>)>, b: Seq<(Seq<char>, Seq<char>)>, key: Seq<char>)
    ensures
        lookup(a + b, key) == (if lookup(a, key) is Some { lookup(a, key) } else { lookup(b, key) }),
    decreases a.len(),
{
    if a.len() > 0 {
        assert((a + b).drop_first() =~= a.drop_first() + b);
        lemma_lookup_concat(a.drop_first(), b, key);
    } else {
        assert(a + b =~= b);
    }
}

/// A key is found exactly when some pair carries it.
pub proof fn lemma_lookup_some(ids: Seq<(Seq<char>, Seq<char>)>, key: Seq<char>)
    ensures
        lookup(ids, key) is Some <==> exists|i: int| 0 <= i < ids.len() && ids[i].0 == key,
        lookup(ids, key) is None ==> forall|i: int| 0 <= i < ids.len() ==> ids[i].0 != key,
    decreases ids.len(),
{
    if ids.len() > 0 {
        lemma_lookup_some(ids.drop_first(), key);
        if lookup(ids, key) is None {
            assert forall|i: int| 0 <= i < ids.len() implies ids[i].0 != key by {
                if i > 0 {
                    assert(ids.drop_first()[i - 1] == ids[i]);
                }
            }
        } else if ids[0].0 != key {
            let j = choose|j: int| 0 <= j < ids.drop_first().len() && ids.drop_first()[j].0 == key;
            assert(ids[j + 1].0 == key);
        }
    }
}

/// A track slot opened for a new track.
#[derive(Debug, Clone)]
pub struct NewTrack {
    pub kind: MediaKind,
    pub gen_id: String,
    pub app_id: String,
}

impl View for NewTrack {
    type V = NewTrackView;

    open spec fn view(&self) -> NewTrackView {
        NewTrackView { kind: self.kind, gen_id: self.gen_id@, app_id: self.app_id@ }
    }
}

/// The (key, value) view of pairs of strings.
pub open spec fn pairs_view(p: Seq<(String, String)>) -> Seq<(Seq<char>, Seq<char>)> {
    p.map_values(|q: (String, String)| (q.0@, q.1@))
}

/// A publisher's record of its tracks.
pub struct PublisherMedia {
    ids: Vec<(String, String)>,
    video_count: u8,
    audio_count: u8,
}

impl View for PublisherMedia {
    type V = PublisherMediaView;

    closed spec fn view(&self) -> PublisherMediaView {
        PublisherMediaView {
            ids: pairs_view(self.ids@),
            video: self.video_count as nat,
            audio: self.audio_count as nat,
        }
    }
}

/// The value recorded for `key` among `ids`.
fn find_in_pairs(ids: &Vec<(String, String)>, key: &str) -> (r: Option<String>)
    ensures
        match r {
            Some(v) => lookup(pairs_view(ids@), key@) == Some(v@),
            None => lookup(pairs_view(ids@), key@) is None,
        },
{
    let mut k: usize = 0;
    assert(pairs_view(ids@).skip(0) =~= pairs_view(ids@));
    while k < ids.len()
        invariant
            k <= ids.len(),
            lookup(pairs_view(ids@), key@) == lookup(pairs_view(ids@).skip(k as int), key@),
        decreases ids.len() - k,
    {
        let ghost v = pairs_view(ids@);
        assert(v.skip(k as int).drop_first() =~= v.skip(k + 1));
        assert(v.skip(k as int)[0] == v[k as int]);
        if same_text(ids[k].0.as_str(), key) {
            return Some(ids[k].1.clone());
        }
        k = k + 1;
    }
    assert(pairs_view(ids@).skip(k as int) =~= Seq::<(Seq<char>, Seq<char>)>::empty());
    None
}

/// Ranges of the media sections of `s`, in `media_sections` order.
fn media_section_ranges(s: &Vec<char>) -> (r: Vec<(usize, usize)>)
    ensures
        r@.len() == media_sections(s@).len(),
        forall|k: int|
            0 <= k < r@.len() ==> (#[trigger] r@[k]).0 <= r@[k].1 <= s.len() && s@.subrange(
                r@[k].0 as int,
                r@[k].1 as int,
            ) == media_sections(s@)[k],
{
    let sep = chars_of("m=");
    proof {
        reveal_strlit("m=");
    }
    let pieces = split_ranges(s, &sep);
    let ghost sp = split(s@, "m="@);
    assert(sep@ == "m="@);
    assert forall|j: int|
        0 <= j < pieces@.len() implies (#[trigger] pieces@[j]).0 <= pieces@[j].1 <= s.len()
            && s@.subrange(pieces@[j].0 as int, pieces@[j].1 as int) == sp[j] by {
        assert(split(s@, sep@)[j] == sp[j]);
    }
    let mut n = pieces.len();
    if n > 0 && pieces[n - 1].0 == pieces[n - 1].1 {
        assert(sp[n - 1] == s@.subrange(pieces@[n - 1].0 as int, pieces@[n - 1].1 as int));
        assert(sp.last().len() == 0);
        n = n - 1;
    } else if n > 0 {
        assert(sp[n - 1] == s@.subrange(pieces@[n - 1].0 as int, pieces@[n - 1].1 as int));
    }
    let ghost kept = if sp.len() > 0 && sp.last().len() == 0 {
        sp.drop_last()
    } else {
        sp
    };
    assert(kept.len() == n);
    let mut r: Vec<(usize, usize)> = Vec::new();
    let mut k: usize = n;
    while k > 0
        invariant
            k <= n <= pieces.len(),
            n == kept.len(),
            r@.len() == n - k,
            forall|j: int| 0 <= j < kept.len() ==> kept[j] == sp[j],
            forall|j: int|
                0 <= j < pieces@.len() ==> (#[trigger] pieces@[j]).0 <= pieces@[j].1 <= s.len()
                    && s@.subrange(pieces@[j].0 as int, pieces@[j].1 as int) == sp[j],
            forall|j: int|
                0 <= j < r@.len() ==> (#[trigger] r@[j]).0 <= r@[j].1 <= s.len() && s@.subrange(
                    r@[j].0 as int,
                    r@[j].1 as int,
                ) == kept.reverse()[j],
        decreases k,
    {
        k = k - 1;
        r.push(pieces[k]);
        assert(kept.reverse()[(n - 1 - k) as int] == kept[k as int]);
    }
    r
}

/// The track id announced by a media section.
fn track_id_of_section(section: &str) -> (r: Option<String>)
    ensures
        match r {
            Some(id) => section_track_id(section@) == Some(id@),
            None => section_track_id(section@) is None,
        },
{
    let s = chars_of(section);
    let marker = chars_of("msid:");
    proof {
        reveal_strlit("msid:");
    }
    match find_last_in(&s, &marker) {
        Some(i) => {
            let n = s.len();
            assert(i + 5 <= n);
            match second_word(&s, i + 5) {
                Some((a, b)) => Some(substring(section, a, b)),
                None => None,
            }
        },
        None => None,
    }
}

/// The kind of a media section.
fn kind_of_section(section: &str) -> (r: Option<MediaKind>)
    ensures
        r == section_kind(section@),
{
    let s = chars_of(section);
    let video = chars_of("video");
    let audio = chars_of("audio");
    if matches_at(&s, &video, 0) {
        Some(MediaKind::Video)
    } else if matches_at(&s, &audio, 0) {
        Some(MediaKind::Audio)
    } else {
        None
    }
}

/// The name a kind is recorded under in a room's track table.
pub open spec fn kind_name_text(kind: MediaKind) -> Seq<char> {
    match kind {
        MediaKind::Video => "video"@,
        MediaKind::Audio => "audio"@,
    }
}

/// The name a kind is recorded under: `video` or `audio`.
pub fn kind_name(kind: MediaKind) -> (r: &'static str)
    ensures
        r@ == kind_name_text(kind),
{
    match kind {
        MediaKind::Video => "video",
        MediaKind::Audio => "audio",
    }
}

/// Application id of the `n`-th track of a kind.
pub fn app_id(kind: MediaKind, n: u8) -> (r: String)
    ensures
        r@ == app_id_text(kind, n as nat),
{
    let mut r = match kind {
        MediaKind::Video => String::from_str("video"),
        MediaKind::Audio => String::from_str("audio"),
    };
    let d = decimal_string(n as u64);
    r.append(d.as_str());
    r
}

impl PublisherMedia {
    /// No generated id is recorded twice.
    #[verifier::type_invariant]
    closed spec fn inv(self) -> bool {
        keys_distinct(pairs_view(self.ids@))
    }

    /// An empty record.
    pub fn new() -> (r: Self)
        ensures
            r@ == (PublisherMediaView { ids: seq![], video: 0, audio: 0 }),
    {
        let r = PublisherMedia { ids: Vec::new(), video_count: 0, audio_count: 0 };
        assert(pairs_view(r.ids@) =~= seq![]);
        r
    }

    /// The application id recorded for a generated track id.
    pub fn app_id_for(&self, gen_id: &str) -> (r: Option<String>)
        ensures
            match r {
                Some(v) => lookup(self@.ids, gen_id@) == Some(v@),
                None => lookup(self@.ids, gen_id@) is None,
            },
    {
        find_in_pairs(&self.ids, gen_id)
    }

    /// Record the tracks that an offer announces and that are new, numbering
    /// them per kind, and return the slots to open for them in offer-walk
    /// order.  `None`, with the record unchanged, when a per-kind count would
    /// pass 255.
    pub fn add_offer(&mut self, offer: &str) -> (r: Option<Vec<NewTrack>>)
        ensures
            r is None <==> plan_offer(old(self)@, offer@).0.video > 255 || plan_offer(
                old(self)@,
                offer@,
            ).0.audio > 255,
            r is None ==> final(self)@ == old(self)@,
            r matches Some(v) ==> final(self)@ == plan_offer(old(self)@, offer@).0 && v@.map_values(
                |t: NewTrack| t@,
            ) == plan_offer(old(self)@, offer@).1,
    {
        proof {
            use_type_invariant(&*self);
        }
        let s = chars_of(offer);
        let secs = media_section_ranges(&s);
        let ghost sections = media_sections(offer@);
        let ghost start = (self@, Seq::<NewTrackView>::empty());
        let mut added: Vec<(String, String)> = Vec::new();
        let mut out: Vec<NewTrack> = Vec::new();
        let mut vc: u8 = self.video_count;
        let mut ac: u8 = self.audio_count;
        let mut k: usize = 0;
        assert(self@.ids + pairs_view(added@) =~= self@.ids);
        assert(out@.map_values(|t: NewTrack| t@) =~= Seq::<NewTrackView>::empty());
        while k < secs.len()
            invariant
                k <= secs.len(),
                secs@.len() == sections.len(),
                s@ == offer@,
                sections == media_sections(offer@),
                start == (self@, Seq::<NewTrackView>::empty()),
                forall|j: int|
                    0 <= j < secs@.len() ==> (#[trigger] secs@[j]).0 <= secs@[j].1 <= s.len()
                        && s@.subrange(secs@[j].0 as int, secs@[j].1 as int) == sections[j],
                plan_upto(start, sections, k as int) == (
                    PublisherMediaView {
                        ids: self@.ids + pairs_view(added@),
                        video: vc as nat,
                        audio: ac as nat,
                    },
                    out@.map_values(|t: NewTrack| t@),
                ),
                keys_distinct(self@.ids + pairs_view(added@)),
            decreases secs.len() - k,
        {
            let (a, b) = secs[k];
            let sec = substring(offer, a, b);
            assert(sec@ == sections[k as int]);
            let id_opt = track_id_of_section(sec.as_str());
            let kind_opt = kind_of_section(sec.as_str());
            let ghost before = plan_upto(start, sections, k as int);
            assert(plan_upto(start, sections, k + 1) == plan_section(before, sections[k as int]));
            match id_opt {
                Some(id) => {
                    match kind_opt {
                        Some(kind) => {
                            let in_record = find_in_pairs(&self.ids, id.as_str());
                            let in_added = find_in_pairs(&added, id.as_str());
                            proof {
                                lemma_lookup_concat(self@.ids, pairs_view(added@), id@);
                            }
                            if in_record.is_none() && in_added.is_none() {
                                let n = if kind == MediaKind::Video { vc } else { ac };
                                if n == 255 {
                                    proof {
                                        lemma_plan_counts_grow(
                                            start,
                                            sections,
                                            k + 1,
                                            sections.len() as int,
                                        );
                                    }
                                    return None;
                                }
                                let app = app_id(kind, n);
                                let ghost old_pairs = pairs_view(added@);
                                let ghost old_out = out@.map_values(|t: NewTrack| t@);
                                proof {
                                    lemma_lookup_some(self@.ids + old_pairs, id@);
                                }
                                added.push((id.clone(), app.clone()));
                                out.push(NewTrack { kind, gen_id: id, app_id: app });
                                if kind == MediaKind::Video {
                                    vc = vc + 1;
                                } else {
                                    ac = ac + 1;
                                }
                                assert(pairs_view(added@) =~= old_pairs.push((id@, app@)));
                                assert(self@.ids + pairs_view(added@) =~= (self@.ids
                                    + old_pairs).push((id@, app@)));
                                assert(out@.map_values(|t: NewTrack| t@) =~= old_out.push(
                                    NewTrackView { kind, gen_id: id@, app_id: app@ },
                                ));
                            }
                        },
                        None => {},
                    }
                },
                None => {},
            }
            k = k + 1;
        }
        let ghost old_ids = self.ids@;
        let ghost new_ids = added@;
        assert(pairs_view(old_ids + new_ids) =~= pairs_view(old_ids) + pairs_view(new_ids));
        let mut ids: Vec<(String, String)> = Vec::new();
        std::mem::swap(&mut ids, &mut self.ids);
        ids.append(&mut added);
        self.ids = ids;
        self.video_count = vc;
        self.audio_count = ac;
        Some(out)
    }

    /// How many video tracks have been numbered.
    pub fn video_count(&self) -> (r: u8)
        ensures
            r == self@.video,
    {
        self.video_count
    }

    /// How many audio tracks have been numbered.
    pub fn audio_count(&self) -> (r: u8)
        ensures
            r == self@.audio,
    {
        self.audio_count
    }
}

} // verus!
