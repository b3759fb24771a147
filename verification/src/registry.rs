//! The instance-local table of subscribers to notify, by room and user: each
//! subscriber registers a handle that commands for its room are delivered to.
//! A room is present exactly while it has a registered subscriber.
use vstd::prelude::*;
use crate::text::same_text;

verus! {

/// The (room, user) key of an entry.
pub open spec fn entry_key<H>(e: (String, String, H)) -> (Seq<char>, Seq<char>) {
    (e.0@, e.1@)
}

/// No (room, user) key occurs twice.
pub open spec fn keys_unique<H>(s: Seq<(String, String, H)>) -> bool {
    forall|i: int, j: int| 0 <= i < j < s.len() ==> entry_key(s[i]) != entry_key(s[j])
}

/// The key occurs in the entries.
pub open spec fn has_key<H>(s: Seq<(String, String, H)>, k: (Seq<char>, Seq<char>)) -> bool {
    exists|i: int| 0 <= i < s.len() && entry_key(s[i]) == k
}

/// The entries read as a map from (room, user) to handle.
pub open spec fn entries_map<H>(s: Seq<(String, String, H)>) -> Map<(Seq<char>, Seq<char>), H> {
    Map::new(
        |k: (Seq<char>, Seq<char>)| has_key(s, k),
        |k: (Seq<char>, Seq<char>)| s[choose|i: int| 0 <= i < s.len() && entry_key(s[i]) == k].2,
    )
}

proof fn lemma_entry_value<H>(s: Seq<(String, String, H)>, i: int)
    requires
        keys_unique(s),
        0 <= i < s.len(),
    ensures
        entries_map(s).contains_key(entry_key(s[i])),
        entries_map(s)[entry_key(s[i])] == s[i].2,
{
    let k = entry_key(s[i]);
    assert(has_key(s, k));
    let j = choose|j: int| 0 <= j < s.len() && entry_key(s[j]) == k;
    if j != i {
        if j < i {
            assert(entry_key(s[j]) != entry_key(s[i]));
        } else {
            assert(entry_key(s[i]) != entry_key(s[j]));
        }
    }
}

proof fn lemma_map_push<H>(s: Seq<(String, String, H)>, e: (String, String, H))
    requires
        keys_unique(s),
        !has_key(s, entry_key(e)),
    ensures
        keys_unique(s.push(e)),
        entries_map(s.push(e)) == entries_map(s).insert(entry_key(e), e.2),
{
    let t = s.push(e);
    assert forall|i: int, j: int| 0 <= i < j < t.len() implies entry_key(t[i]) != entry_key(t[j]) by {
        if j == s.len() {
            assert(entry_key(t[i]) == entry_key(s[i]));
        } else {
            assert(t[i] == s[i] && t[j] == s[j]);
        }
    }
    let m1 = entries_map(t);
    let m2 = entries_map(s).insert(entry_key(e), e.2);
    assert forall|k: (Seq<char>, Seq<char>)| m1.contains_key(k) <==> m2.contains_key(k) by {
        if has_key(t, k) {
            let i = choose|i: int| 0 <= i < t.len() && entry_key(t[i]) == k;
            if i < s.len() {
                assert(t[i] == s[i]);
            }
        }
        if has_key(s, k) {
            let i = choose|i: int| 0 <= i < s.len() && entry_key(s[i]) == k;
            assert(t[i] == s[i]);
        }
        if k == entry_key(e) {
            assert(entry_key(t[s.len() as int]) == k);
        }
    }
    assert forall|k: (Seq<char>, Seq<char>)| m1.contains_key(k) implies m1[k] == m2[k] by {
        let i = choose|i: int| 0 <= i < t.len() && entry_key(t[i]) == k;
        lemma_entry_value(t, i);
        if i < s.len() {
            assert(t[i] == s[i]);
            lemma_entry_value(s, i);
        }
    }
    assert(m1 =~= m2);
}

proof fn lemma_map_update<H>(s: Seq<(String, String, H)>, i: int, e: (String, String, H))
    requires
        keys_unique(s),
        0 <= i < s.len(),
        entry_key(s[i]) == entry_key(e),
    ensures
        keys_unique(s.update(i, e)),
        entries_map(s.update(i, e)) == entries_map(s).insert(entry_key(e), e.2),
{
    let t = s.update(i, e);
    assert forall|a: int, b: int| 0 <= a < b < t.len() implies entry_key(t[a]) != entry_key(t[b]) by {
        assert(entry_key(t[a]) == entry_key(s[a]));
        assert(entry_key(t[b]) == entry_key(s[b]));
    }
    let m1 = entries_map(t);
    let m2 = entries_map(s).insert(entry_key(e), e.2);
    assert forall|k: (Seq<char>, Seq<char>)| m1.contains_key(k) <==> m2.contains_key(k) by {
        if has_key(t, k) {
            let j = choose|j: int| 0 <= j < t.len() && entry_key(t[j]) == k;
            assert(entry_key(s[j]) == k);
        }
        if has_key(s, k) {
            let j = choose|j: int| 0 <= j < s.len() && entry_key(s[j]) == k;
            assert(entry_key(t[j]) == k);
        }
        if k == entry_key(e) {
            assert(entry_key(t[i]) == k);
        }
    }
    assert forall|k: (Seq<char>, Seq<char>)| m1.contains_key(k) implies m1[k] == m2[k] by {
        let j = choose|j: int| 0 <= j < t.len() && entry_key(t[j]) == k;
        lemma_entry_value(t, j);
        if j != i {
            lemma_entry_value(s, j);
        }
    }
    assert(m1 =~= m2);
}

proof fn lemma_map_remove<H>(s: Seq<(String, String, H)>, i: int)
    requires
        keys_unique(s),
        0 <= i < s.len(),
    ensures
        keys_unique(s.remove(i)),
        entries_map(s.remove(i)) == entries_map(s).remove(entry_key(s[i])),
{
    let t = s.remove(i);
    let ki = entry_key(s[i]);
    assert forall|a: int, b: int| 0 <= a < b < t.len() implies entry_key(t[a]) != entry_key(t[b]) by {
        let a2 = if a < i { a } else { a + 1 };
        let b2 = if b < i { b } else { b + 1 };
        assert(t[a] == s[a2] && t[b] == s[b2]);
    }
    let m1 = entries_map(t);
    let m2 = entries_map(s).remove(ki);
    assert forall|k: (Seq<char>, Seq<char>)| m1.contains_key(k) <==> m2.contains_key(k) by {
        if has_key(t, k) {
            let j = choose|j: int| 0 <= j < t.len() && entry_key(t[j]) == k;
            let j2 = if j < i { j } else { j + 1 };
            assert(t[j] == s[j2]);
            assert(j2 != i);
            if j2 < i {
                assert(entry_key(s[j2]) != ki);
            } else {
                assert(entry_key(s[i]) != entry_key(s[j2]));
            }
        }
        if has_key(s, k) && k != ki {
            let j = choose|j: int| 0 <= j < s.len() && entry_key(s[j]) == k;
            assert(j != i);
            let j2 = if j < i { j } else { j - 1 };
            assert(t[j2] == s[j]);
        }
    }
    assert forall|k: (Seq<char>, Seq<char>)| m1.contains_key(k) implies m1[k] == m2[k] by {
        let j = choose|j: int| 0 <= j < t.len() && entry_key(t[j]) == k;
        lemma_entry_value(t, j);
        let j2 = if j < i { j } else { j + 1 };
        assert(t[j] == s[j2]);
        lemma_entry_value(s, j2);
    }
    assert(m1 =~= m2);
}

/// Some user is registered in `room`.
pub open spec fn room_present<H>(m: Map<(Seq<char>, Seq<char>), H>, room: Seq<char>) -> bool {
    exists|u: Seq<char>| #[trigger] m.contains_key((room, u))
}

/// Some entry is in `room`.
pub open spec fn has_room<H>(s: Seq<(String, String, H)>, room: Seq<char>) -> bool {
    exists|j: int| 0 <= j < s.len() && s[j].0@ == room
}

/// Some string of `v` reads `t`.
pub open spec fn view_has(v: Seq<String>, t: Seq<char>) -> bool {
    exists|i: int| 0 <= i < v.len() && v[i]@ == t
}

/// Whether some string of `v` reads `t`.
fn contains_text(v: &Vec<String>, t: &str) -> (r: bool)
    ensures
        r == view_has(v@, t@),
{
    let mut i: usize = 0;
    while i < v.len()
        invariant
            i <= v.len(),
            forall|j: int| 0 <= j < i ==> (#[trigger] v@[j])@ != t@,
        decreases v.len() - i,
    {
        if same_text(v[i].as_str(), t) {
            return true;
        }
        i = i + 1;
    }
    false
}

/// Subscribers to notify, by (room, user).
pub struct SubscriberRegistry<H> {
    entries: Vec<(String, String, H)>,
}

impl<H> View for SubscriberRegistry<H> {
    type V = Map<(Seq<char>, Seq<char>), H>;

    closed spec fn view(&self) -> Map<(Seq<char>, Seq<char>), H> {
        entries_map(self.entries@)
    }
}

impl<H> SubscriberRegistry<H> {
    #[verifier::type_invariant]
    closed spec fn inv(self) -> bool {
        keys_unique(self.entries@)
    }

    /// An empty table.
    pub fn new() -> (r: Self)
        ensures
            r@ == Map::<(Seq<char>, Seq<char>), H>::empty(),
    {
        let r = SubscriberRegistry { entries: Vec::new() };
        assert(r@ =~= Map::<(Seq<char>, Seq<char>), H>::empty());
        r
    }

    /// Index of the entry for (room, user).
    fn position(&self, room: &str, user: &str) -> (r: Option<usize>)
        ensures
            match r {
                Some(i) => i < self.entries@.len() && entry_key(self.entries@[i as int]) == (room@, user@),
                None => !has_key(self.entries@, (room@, user@)),
            },
    {
        let mut k: usize = 0;
        while k < self.entries.len()
            invariant
                k <= self.entries@.len(),
                forall|j: int| 0 <= j < k ==> entry_key(#[trigger] self.entries@[j]) != (room@, user@),
            decreases self.entries.len() - k,
        {
            if same_text(self.entries[k].0.as_str(), room) && same_text(self.entries[k].1.as_str(), user) {
                return Some(k);
            }
            k = k + 1;
        }
        None
    }

    /// Register the handle of `user` in `room`, replacing an earlier one.
    pub fn add_sub_notify(&mut self, room: &str, user: &str, handle: H)
        ensures
            final(self)@ == old(self)@.insert((room@, user@), handle),
    {
        proof {
            use_type_invariant(&*self);
        }
        let pos = self.position(room, user);
        let mut entries: Vec<(String, String, H)> = Vec::new();
        std::mem::swap(&mut entries, &mut self.entries);
        let ghost s = entries@;
        let e = (String::from_str(room), String::from_str(user), handle);
        match pos {
            Some(i) => {
                entries.set(i, e);
                proof {
                    lemma_map_update(s, i as int, e);
                }
            },
            None => {
                entries.push(e);
                proof {
                    lemma_map_push(s, e);
                }
            },
        }
        self.entries = entries;
    }

    /// Deregister `user` in `room`; the room disappears with its last subscriber.
    pub fn remove_sub_notify(&mut self, room: &str, user: &str)
        ensures
            final(self)@ == old(self)@.remove((room@, user@)),
    {
        proof {
            use_type_invariant(&*self);
        }
        match self.position(room, user) {
            Some(i) => {
                let mut entries: Vec<(String, String, H)> = Vec::new();
                std::mem::swap(&mut entries, &mut self.entries);
                let ghost s = entries@;
                entries.remove(i);
                proof {
                    lemma_map_remove(s, i as int);
                }
                self.entries = entries;
            },
            None => {
                assert(self@ =~= old(self)@.remove((room@, user@)));
            },
        }
    }

    /// The subscribers of `room` with their handles, each once.
    pub fn notify_targets(&self, room: &str) -> (r: Vec<(String, &H)>)
        ensures
            forall|i: int| 0 <= i < r@.len() ==> #[trigger] self@.contains_key((room@, r@[i].0@))
                && self@[(room@, r@[i].0@)] == *r@[i].1,
            forall|u: Seq<char>| #[trigger] self@.contains_key((room@, u)) ==> exists|i: int|
                0 <= i < r@.len() && r@[i].0@ == u,
            forall|i: int, j: int| 0 <= i < j < r@.len() ==> r@[i].0@ != r@[j].0@,
    {
        proof {
            use_type_invariant(self);
        }
        let mut r: Vec<(String, &H)> = Vec::new();
        let mut k: usize = 0;
        while k < self.entries.len()
            invariant
                k <= self.entries@.len(),
                keys_unique(self.entries@),
                forall|i: int| 0 <= i < r@.len() ==> exists|j: int| 0 <= j < k && entry_key(self.entries@[j]) == (room@, #[trigger] r@[i].0@)
                    && self.entries@[j].2 == *r@[i].1,
                forall|j: int| 0 <= j < k && #[trigger] self.entries@[j].0@ == room@ ==> exists|i: int|
                    0 <= i < r@.len() && r@[i].0@ == self.entries@[j].1@,
                forall|i: int, j: int| 0 <= i < j < r@.len() ==> r@[i].0@ != r@[j].0@,
            decreases self.entries.len() - k,
        {
            let e = &self.entries[k];
            if same_text(e.0.as_str(), room) {
                let ghost old_r = r@;
                proof {
                    assert forall|i: int| 0 <= i < old_r.len() implies old_r[i].0@ != e.1@ by {
                        let j = choose|j: int| 0 <= j < k && entry_key(self.entries@[j]) == (room@, old_r[i].0@)
                            && self.entries@[j].2 == *old_r[i].1;
                        if old_r[i].0@ == e.1@ {
                            assert(entry_key(self.entries@[j]) == entry_key(self.entries@[k as int]));
                        }
                    }
                }
                r.push((e.1.clone(), &e.2));
                proof {
                    assert forall|i: int| 0 <= i < r@.len() implies exists|j: int| 0 <= j < k + 1 && entry_key(self.entries@[j]) == (room@, #[trigger] r@[i].0@)
                        && self.entries@[j].2 == *r@[i].1 by {
                        if i < old_r.len() {
                            assert(r@[i] == old_r[i]);
                        } else {
                            assert(entry_key(self.entries@[k as int]) == (room@, r@[i].0@));
                        }
                    }
                    assert forall|j: int| 0 <= j < k + 1 && #[trigger] self.entries@[j].0@ == room@ implies exists|i: int|
                        0 <= i < r@.len() && r@[i].0@ == self.entries@[j].1@ by {
                        if j < k {
                            let i = choose|i: int| 0 <= i < old_r.len() && old_r[i].0@ == self.entries@[j].1@;
                            assert(r@[i] == old_r[i]);
                        } else {
                            assert(r@[old_r.len() as int].0@ == self.entries@[j].1@);
                        }
                    }
                }
            }
            k = k + 1;
        }
        proof {
            assert forall|i: int| 0 <= i < r@.len() implies #[trigger] self@.contains_key((room@, r@[i].0@))
                && self@[(room@, r@[i].0@)] == *r@[i].1 by {
                let j = choose|j: int| 0 <= j < k && entry_key(self.entries@[j]) == (room@, r@[i].0@)
                    && self.entries@[j].2 == *r@[i].1;
                lemma_entry_value(self.entries@, j);
            }
            assert forall|u: Seq<char>| #[trigger] self@.contains_key((room@, u)) implies exists|i: int|
                0 <= i < r@.len() && r@[i].0@ == u by {
                let j = choose|j: int| 0 <= j < self.entries@.len() && entry_key(self.entries@[j]) == (room@, u);
                assert(self.entries@[j].0@ == room@);
            }
        }
        r
    }

    /// The rooms that have a registered subscriber, each once.
    pub fn rooms(&self) -> (r: Vec<String>)
        ensures
            forall|i: int| #![trigger r@[i]] 0 <= i < r@.len() ==> room_present(self@, r@[i]@),
            forall|k: (Seq<char>, Seq<char>)| #[trigger] self@.contains_key(k) ==> exists|i: int|
                0 <= i < r@.len() && r@[i]@ == k.0,
            forall|i: int, j: int| 0 <= i < j < r@.len() ==> r@[i]@ != r@[j]@,
    {
        proof {
            use_type_invariant(self);
        }
        let mut r: Vec<String> = Vec::new();
        let mut k: usize = 0;
        while k < self.entries.len()
            invariant
                k <= self.entries@.len(),
                keys_unique(self.entries@),
                forall|i: int| #![trigger r@[i]] 0 <= i < r@.len() ==> has_room(self.entries@, r@[i]@),
                forall|j: int| 0 <= j < k ==> view_has(r@, (#[trigger] self.entries@[j]).0@),
                forall|i: int, j: int| 0 <= i < j < r@.len() ==> r@[i]@ != r@[j]@,
            decreases self.entries.len() - k,
        {
            let room = &self.entries[k].0;
            proof {
                assert(has_room(self.entries@, self.entries@[k as int].0@));
            }
            if !contains_text(&r, room.as_str()) {
                let ghost old_r = r@;
                r.push(room.clone());
                proof {
                    assert forall|i: int| #![trigger r@[i]] 0 <= i < r@.len() implies has_room(self.entries@, r@[i]@) by {
                        if i < old_r.len() {
                            assert(r@[i] == old_r[i]);
                        }
                    }
                    assert forall|j: int| 0 <= j < k + 1 implies view_has(r@, (#[trigger] self.entries@[j]).0@) by {
                        if j < k {
                            assert(view_has(old_r, self.entries@[j].0@));
                            let i = choose|i: int| 0 <= i < old_r.len() && old_r[i]@ == self.entries@[j].0@;
                            assert(r@[i] == old_r[i]);
                        } else {
                            assert(r@[old_r.len() as int]@ == self.entries@[j].0@);
                        }
                    }
                    assert forall|i: int, j: int| 0 <= i < j < r@.len() implies r@[i]@ != r@[j]@ by {
                        if j == old_r.len() {
                            assert(r@[i] == old_r[i]);
                        } else {
                            assert(r@[i] == old_r[i] && r@[j] == old_r[j]);
                        }
                    }
                }
            }
            k = k + 1;
        }
        proof {
            assert forall|i: int| #![trigger r@[i]] 0 <= i < r@.len() implies room_present(self@, r@[i]@) by {
                assert(has_room(self.entries@, r@[i]@));
                let j = choose|j: int| 0 <= j < self.entries@.len() && self.entries@[j].0@ == r@[i]@;
                lemma_entry_value(self.entries@, j);
                assert(self@.contains_key((r@[i]@, self.entries@[j].1@)));
                assert(room_present(self@, r@[i]@));
            }
            assert forall|key: (Seq<char>, Seq<char>)| #[trigger] self@.contains_key(key) implies exists|i: int|
                0 <= i < r@.len() && r@[i]@ == key.0 by {
                let j = choose|j: int| 0 <= j < self.entries@.len() && entry_key(self.entries@[j]) == key;
                assert(view_has(r@, self.entries@[j].0@));
            }
        }
        r
    }

    /// Whether no subscriber is registered.
    pub fn is_empty(&self) -> (r: bool)
        ensures
            r == (self@ == Map::<(Seq<char>, Seq<char>), H>::empty()),
    {
        proof {
            use_type_invariant(self);
        }
        if self.entries.len() == 0 {
            assert(self@ =~= Map::<(Seq<char>, Seq<char>), H>::empty());
            true
        } else {
            proof {
                lemma_entry_value(self.entries@, 0);
                assert(!Map::<(Seq<char>, Seq<char>), H>::empty().contains_key(entry_key(self.entries@[0])));
            }
            false
        }
    }
}

/// Registering a subscriber that was not registered and deregistering it again
/// leaves the table as it was.
pub proof fn lemma_add_then_remove<H>(
    m: Map<(Seq<char>, Seq<char>), H>,
    room: Seq<char>,
    user: Seq<char>,
    h: H,
)
    requires
        !m.contains_key((room, user)),
    ensures
        m.insert((room, user), h).remove((room, user)) == m,
{
    assert(m.insert((room, user), h).remove((room, user)) =~= m);
}

} // verus!
