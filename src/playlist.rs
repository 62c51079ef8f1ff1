use crate::library::{ListEntryId, SongId};
use vstd::prelude::*;

verus! {

/// One entry of a playlist: its own identity and the song it refers to.
pub type Entry = (ListEntryId, SongId);

/// An entry together with its position in the playlist.
pub type PositionedEntry = (ListEntryId, SongId, usize);

/// The song identities of `entries`, in order.
pub open spec fn song_ids_of(entries: Seq<Entry>) -> Seq<SongId> {
    entries.map_values(|e: Entry| e.1)
}

/// `entries` holds an entry with identity `id` at position `i`.
pub open spec fn entry_at(entries: Seq<Entry>, id: ListEntryId, i: int) -> bool {
    0 <= i < entries.len() && entries[i].0 == id
}

/// `entries` holds an entry with identity `id`.
pub open spec fn holds_entry(entries: Seq<Entry>, id: ListEntryId) -> bool {
    exists|i: int| entry_at(entries, id, i)
}

/// The position that follows `i` when walking forward, wrapping to the front.
pub open spec fn next_position(len: int, i: int) -> int {
    if i + 1 < len {
        i + 1
    } else {
        0
    }
}

/// The position that precedes `i` when walking backward, wrapping to the back.
pub open spec fn previous_position(len: int, i: int) -> int {
    if i > 0 {
        i - 1
    } else {
        len - 1
    }
}

/// The entry at position `i` together with that position.
pub open spec fn positioned(entries: Seq<Entry>, i: int) -> PositionedEntry {
    (entries[i].0, entries[i].1, i as usize)
}

/// The entries that appending `song_ids` after `entries` gives, the first of
/// them with identity `first_id` and each next one with the identity after.
pub open spec fn appended(entries: Seq<Entry>, first_id: nat, song_ids: Seq<SongId>) -> Seq<Entry> {
    entries + Seq::new(
        song_ids.len(),
        |i: int| (ListEntryId((first_id + i) as usize), song_ids[i]),
    )
}

/// The entries after taking the one at `from` out and putting it back at
/// `target` of what is left. Out-of-range positions leave `entries` as it is.
pub open spec fn moved(entries: Seq<Entry>, from: int, target: int) -> Seq<Entry> {
    if 0 <= from < entries.len() && 0 <= target < entries.len() {
        entries.remove(from).insert(target, entries[from])
    } else {
        entries
    }
}

/// The position reached from `i` after `n` forward steps.
pub open spec fn advance(len: int, i: int, n: nat) -> int
    decreases n,
{
    if n == 0 {
        i
    } else {
        next_position(len, advance(len, i, (n - 1) as nat))
    }
}

/// The position reached from `i` after `n` backward steps.
pub open spec fn retreat(len: int, i: int, n: nat) -> int
    decreases n,
{
    if n == 0 {
        i
    } else {
        previous_position(len, retreat(len, i, (n - 1) as nat))
    }
}

/// Identities handed out by a run of `add_song` calls, where call `k` went from
/// `states[k]` to `states[k + 1]` and returned `ids[k]`, are pairwise distinct
/// and strictly increasing in call order.
pub proof fn lemma_entry_identities_increase(states: Seq<Playlist>, ids: Seq<ListEntryId>)
    requires
        states.len() == ids.len() + 1,
        forall|k: int|
            0 <= k < ids.len() ==> (#[trigger] ids[k]).0 == states[k].next_identity()
                && states[k + 1].next_identity() == states[k].next_identity() + 1,
    ensures
        forall|i: int, j: int| 0 <= i < j < ids.len() ==> ids[i].0 < ids[j].0,
{
    assert forall|k: int| 0 <= k <= ids.len() implies #[trigger] states[k].next_identity()
        == states[0].next_identity() + k by {
        lemma_identity_counter(states, ids, k);
    }
    assert forall|i: int, j: int| 0 <= i < j < ids.len() implies ids[i].0 < ids[j].0 by {
        assert(states[i].next_identity() == states[0].next_identity() + i);
        assert(states[j].next_identity() == states[0].next_identity() + j);
    }
}

proof fn lemma_identity_counter(states: Seq<Playlist>, ids: Seq<ListEntryId>, k: int)
    requires
        states.len() == ids.len() + 1,
        0 <= k <= ids.len(),
        forall|k: int|
            0 <= k < ids.len() ==> (#[trigger] ids[k]).0 == states[k].next_identity()
                && states[k + 1].next_identity() == states[k].next_identity() + 1,
    ensures
        states[k].next_identity() == states[0].next_identity() + k,
    decreases k,
{
    if k > 0 {
        lemma_identity_counter(states, ids, k - 1);
        assert(ids[k - 1].0 == states[k - 1].next_identity());
    }
}

/// Adding song identities to an empty playlist and reading its song
/// identities back gives them in the order they were added.
pub proof fn lemma_add_songs_round_trip(before: Playlist, after: Playlist, song_ids: Seq<SongId>)
    requires
        before@.len() == 0,
        after@ == appended(before@, before.next_identity(), song_ids),
    ensures
        song_ids_of(after@) == song_ids,
{
    assert(song_ids_of(after@) =~= song_ids);
}

/// Walking forward from any position of a playlist of `len` entries visits
/// position `(i + n) % len` after `n` steps: it returns to the start after
/// exactly `len` steps and not before.
pub proof fn lemma_forward_walk_cycles(len: int, i: int, n: nat)
    requires
        0 <= i < len,
    ensures
        advance(len, i, n) == (i + n) % len,
        n == len ==> advance(len, i, n) == i,
        0 < n < len ==> advance(len, i, n) != i,
    decreases n,
{
    if n == 0 {
        vstd::arithmetic::div_mod::lemma_small_mod(i as nat, len as nat);
    } else {
        lemma_forward_walk_cycles(len, i, (n - 1) as nat);
        let p = (i + n - 1) % len;
        assert(advance(len, i, n) == next_position(len, p));
        assert(0 <= p < len) by (nonlinear_arith)
            requires
                p == (i + n - 1) % len,
                len > 0,
                i >= 0,
                n >= 1,
        ;
        lemma_mod_step(i + n - 1, len);
    }
    if n == len {
        assert((i + len) % len == i) by (nonlinear_arith)
            requires
                0 <= i < len,
        ;
    }
    if 0 < n < len {
        assert((i + n) % len != i) by (nonlinear_arith)
            requires
                0 <= i < len,
                0 < n < len,
        ;
    }
}

/// Walking backward is the exact reverse of walking forward: `n` backward
/// steps from the position that `n` forward steps reached lead back to the
/// start, so from the first entry the walk visits the last, then the one
/// before it, and so on.
pub proof fn lemma_backward_walk_reverses_forward(len: int, i: int, n: nat)
    requires
        0 <= i < len,
    ensures
        retreat(len, advance(len, i, n), n) == i,
        0 <= advance(len, i, n) < len,
    decreases n,
{
    if n > 0 {
        lemma_backward_walk_reverses_forward(len, i, (n - 1) as nat);
        let p = advance(len, i, (n - 1) as nat);
        let q = advance(len, i, n);
        assert(previous_position(len, q) == p);
        lemma_retreat_first_step(len, q, n);
    }
}

proof fn lemma_retreat_first_step(len: int, q: int, n: nat)
    requires
        n > 0,
        0 <= q < len,
    ensures
        retreat(len, q, n) == retreat(len, previous_position(len, q), (n - 1) as nat),
    decreases n,
{
    let pq = previous_position(len, q);
    if n > 1 {
        lemma_retreat_first_step(len, q, (n - 1) as nat);
        assert(retreat(len, q, n) == previous_position(len, retreat(len, q, (n - 1) as nat)));
        assert(retreat(len, pq, (n - 1) as nat) == previous_position(
            len,
            retreat(len, pq, (n - 2) as nat),
        ));
    } else {
        assert(retreat(len, q, 1) == previous_position(len, retreat(len, q, 0)));
        assert(retreat(len, pq, 0) == pq);
    }
}

proof fn lemma_mod_step(a: int, len: int)
    requires
        a >= 0,
        len > 0,
    ensures
        next_position(len, a % len) == (a + 1) % len,
{
    assert(next_position(len, a % len) == (a + 1) % len) by (nonlinear_arith)
        requires
            a >= 0,
            len > 0,
            next_position(len, a % len) == if a % len + 1 < len {
                a % len + 1
            } else {
                0
            },
    ;
}

/// An ordered sequence of entries. Each entry has an identity of its own, so
/// one song may stand in the playlist several times.
#[derive(Debug)]
pub struct Playlist {
    songs: Vec<Entry>,
    /// Next id to use when inserting a new entry.
    next_entry_id: ListEntryId,
}

impl View for Playlist {
    type V = Seq<Entry>;

    closed spec fn view(&self) -> Seq<Entry> {
        self.songs@
    }
}

impl Playlist {
    /// The identity that the next added entry receives.
    pub closed spec fn next_identity(&self) -> nat {
        self.next_entry_id.0 as nat
    }

    pub open spec fn wf(&self) -> bool {
        &&& forall|i: int, j: int|
            0 <= i < j < self@.len() ==> #[trigger] self@[i].0 != #[trigger] self@[j].0
        &&& forall|i: int| 0 <= i < self@.len() ==> (#[trigger] self@[i]).0.0 < self.next_identity()
    }

    pub fn new() -> (r: Playlist)
        ensures
            r.wf(),
            r@ == Seq::<Entry>::empty(),
            r.next_identity() == 0,
    {
        Playlist { songs: Vec::new(), next_entry_id: ListEntryId(0) }
    }

    /// Removes every entry. Identities handed out before are never handed out again.
    pub fn clear(&mut self)
        requires
            old(self).wf(),
        ensures
            final(self).wf(),
            final(self)@ == Seq::<Entry>::empty(),
            final(self).next_identity() == old(self).next_identity(),
    {
        self.songs.clear();
    }

    pub fn song_ids(&self) -> (r: &[Entry])
        ensures
            r@ == self@,
    {
        self.songs.as_slice()
    }

    pub fn length(&self) -> (r: usize)
        ensures
            r == self@.len(),
    {
        self.songs.len()
    }

    pub fn get_at_index(&self, index: usize) -> (r: Option<&Entry>)
        ensures
            index < self@.len() ==> r == Some(&self@[index as int]),
            index >= self@.len() ==> r is None,
    {
        if index < self.songs.len() {
            Some(&self.songs[index])
        } else {
            None
        }
    }

    /// The song identities of the entries, in playlist order.
    pub fn get_song_ids(&self) -> (r: Vec<SongId>)
        ensures
            r@ == song_ids_of(self@),
    {
        let mut r: Vec<SongId> = Vec::new();
        let mut i: usize = 0;
        while i < self.songs.len()
            invariant
                i <= self@.len(),
                r@ == song_ids_of(self@.subrange(0, i as int)),
            decreases self@.len() - i,
        {
            r.push(self.songs[i].1);
            i += 1;
            assert(song_ids_of(self@.subrange(0, i as int)) =~= song_ids_of(
                self@.subrange(0, i - 1 as int),
            ).push(self@[i - 1].1));
        }
        assert(self@.subrange(0, i as int) =~= self@);
        r
    }

    /// Appends an entry for `song_id` under a fresh identity and returns that identity.
    pub fn add_song(&mut self, song_id: SongId) -> (id: ListEntryId)
        requires
            old(self).wf(),
            old(self).next_identity() < usize::MAX,
        ensures
            final(self).wf(),
            id.0 == old(self).next_identity(),
            final(self).next_identity() == old(self).next_identity() + 1,
            final(self)@ == old(self)@.push((id, song_id)),
    {
        let id = self.next_entry_id;
        let ghost before = self@;
        self.songs.push((id, song_id));
        self.next_entry_id = self.next_entry_id.next();
        assert forall|i: int, j: int|
            0 <= i < j < self@.len() implies #[trigger] self@[i].0 != #[trigger] self@[j].0 by {
            if j == self@.len() - 1 {
                assert(before[i].0.0 < id.0);
            } else {
                assert(before[i] == self@[i] && before[j] == self@[j]);
            }
        }
        id
    }

    /// The position of the entry with identity `entry_id`, if it is held.
    pub fn get_song_index(&self, entry_id: ListEntryId) -> (r: Option<usize>)
        ensures
            match r {
                Some(i) => entry_at(self@, entry_id, i as int) && forall|j: int|
                    0 <= j < i ==> self@[j].0 != entry_id,
                None => !holds_entry(self@, entry_id),
            },
    {
        let mut i: usize = 0;
        while i < self.songs.len()
            invariant
                i <= self@.len(),
                forall|j: int| 0 <= j < i ==> self@[j].0 != entry_id,
            decreases self@.len() - i,
        {
            if self.songs[i].0 == entry_id {
                return Some(i);
            }
            i += 1;
        }
        None
    }

    pub fn song_count(&self) -> (r: usize)
        ensures
            r == self@.len(),
    {
        self.songs.len()
    }

    /// Appends an entry for each of `song_ids`, in order.
    pub fn add_songs(&mut self, song_ids: Vec<SongId>)
        requires
            old(self).wf(),
            old(self).next_identity() + song_ids@.len() <= usize::MAX,
        ensures
            final(self).wf(),
            final(self).next_identity() == old(self).next_identity() + song_ids@.len(),
            final(self)@ == appended(old(self)@, old(self).next_identity(), song_ids@),
    {
        let ghost start = *self;
        let mut i: usize = 0;
        while i < song_ids.len()
            invariant
                self.wf(),
                i <= song_ids@.len(),
                start.next_identity() + song_ids@.len() <= usize::MAX,
                self.next_identity() == start.next_identity() + i,
                self@ == appended(start@, start.next_identity(), song_ids@.subrange(0, i as int)),
            decreases song_ids@.len() - i,
        {
            self.add_song(song_ids[i]);
            i += 1;
            assert(self@ =~= appended(start@, start.next_identity(), song_ids@.subrange(0, i as int)));
        }
        assert(song_ids@.subrange(0, i as int) =~= song_ids@);
    }

    /// Removes the entry with identity `entry_id`; does nothing when it is not held.
    pub fn remove_song(&mut self, entry_id: ListEntryId)
        requires
            old(self).wf(),
        ensures
            final(self).wf(),
            final(self).next_identity() == old(self).next_identity(),
            !holds_entry(old(self)@, entry_id) ==> final(self)@ == old(self)@,
            forall|i: int| entry_at(old(self)@, entry_id, i) ==> final(self)@ == old(self)@.remove(i),
    {
        match self.get_song_index(entry_id) {
            Some(idx) => {
                self.songs.remove(idx);
            },
            None => {},
        }
    }

    /// Removes the entry at position `index`; does nothing when there is none.
    pub fn remove_song_by_index(&mut self, index: usize)
        requires
            old(self).wf(),
        ensures
            final(self).wf(),
            final(self).next_identity() == old(self).next_identity(),
            index < old(self)@.len() ==> final(self)@ == old(self)@.remove(index as int),
            index >= old(self)@.len() ==> final(self)@ == old(self)@,
    {
        if index < self.songs.len() {
            self.songs.remove(index);
        }
    }

    /// Takes the entry at `from` out and puts it back at position `target` of
    /// the remaining entries, so that it ends up at `target`. Does nothing when
    /// either position is out of range.
    pub fn move_from_index_to_target_index(&mut self, from: usize, target: usize)
        requires
            old(self).wf(),
        ensures
            final(self).wf(),
            final(self).next_identity() == old(self).next_identity(),
            final(self)@ == moved(old(self)@, from as int, target as int),
    {
        if from >= self.songs.len() || target >= self.songs.len() {
            return;
        }
        let entry = self.songs.remove(from);
        self.songs.insert(target, entry);
    }

    /// The entry after `current_entry`, wrapping from the last entry to the
    /// first; `None` when `current_entry` is not held.
    pub fn get_next_entry(&self, current_entry: ListEntryId) -> (r: Option<PositionedEntry>)
        requires
            self.wf(),
        ensures
            !holds_entry(self@, current_entry) ==> r is None,
            forall|i: int|
                entry_at(self@, current_entry, i) ==> r == Some(
                    positioned(self@, next_position(self@.len() as int, i)),
                ),
    {
        match self.get_song_index(current_entry) {
            Some(idx) => {
                if idx < self.songs.len() - 1 {
                    let next_idx = idx + 1;
                    let (entry_id, song_id) = self.songs[next_idx];
                    Some((entry_id, song_id, next_idx))
                } else {
                    self.get_first_entry()
                }
            },
            None => None,
        }
    }

    /// The entry before `current_entry`, wrapping from the first entry to the
    /// last; `None` when `current_entry` is not held.
    pub fn get_previous_entry(&self, current_entry: ListEntryId) -> (r: Option<PositionedEntry>)
        requires
            self.wf(),
        ensures
            !holds_entry(self@, current_entry) ==> r is None,
            forall|i: int|
                entry_at(self@, current_entry, i) ==> r == Some(
                    positioned(self@, previous_position(self@.len() as int, i)),
                ),
    {
        match self.get_song_index(current_entry) {
            Some(idx) => {
                if idx != 0 {
                    let prev_idx = idx - 1;
                    let (entry_id, song_id) = self.songs[prev_idx];
                    Some((entry_id, song_id, prev_idx))
                } else {
                    self.get_last_entry()
                }
            },
            None => None,
        }
    }

    /// The first entry; `None` when the playlist is empty.
    pub fn get_first_entry(&self) -> (r: Option<PositionedEntry>)
        ensures
            self@.len() == 0 ==> r is None,
            self@.len() > 0 ==> r == Some(positioned(self@, 0)),
    {
        if self.songs.len() == 0 {
            None
        } else {
            let (entry_id, song_id) = self.songs[0];
            Some((entry_id, song_id, 0))
        }
    }

    /// The last entry; `None` when the playlist is empty.
    pub fn get_last_entry(&self) -> (r: Option<PositionedEntry>)
        ensures
            self@.len() == 0 ==> r is None,
            self@.len() > 0 ==> r == Some(positioned(self@, self@.len() - 1)),
    {
        if self.songs.len() == 0 {
            None
        } else {
            let last = self.songs.len() - 1;
            let (entry_id, song_id) = self.songs[last];
            Some((entry_id, song_id, last))
        }
    }
}

impl Default for Playlist {
    fn default() -> (r: Playlist)
        ensures
            r.wf(),
            r@ == Seq::<Entry>::empty(),
            r.next_identity() == 0,
    {
        Playlist::new()
    }
}

} // verus!
