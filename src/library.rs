use std::collections::HashMap;
use std::path::PathBuf;
use vstd::prelude::*;

verus! {

broadcast use vstd::std_specs::hash::group_hash_axioms;

#[verifier::external_type_specification]
#[verifier::external_body]
pub struct ExPathBuf(PathBuf);

/// Stable handle of a song in a [`Library`], handed out in creation order.
#[derive(Clone, Copy, Debug, PartialEq, Eq, Hash, Structural)]
pub struct SongId(pub usize);

impl SongId {
    pub(crate) fn next(&self) -> (r: SongId)
        requires
            self.0 < usize::MAX,
        ensures
            r.0 == self.0 + 1,
    {
        SongId(self.0 + 1)
    }
}

/// Stable handle of one entry of a playlist, independent of its position.
#[derive(Clone, Copy, Debug, PartialEq, Eq, Hash, Structural)]
pub struct ListEntryId(pub usize);

impl ListEntryId {
    pub(crate) fn next(&self) -> (r: ListEntryId)
        requires
            self.0 < usize::MAX,
        ensures
            r.0 == self.0 + 1,
    {
        ListEntryId(self.0 + 1)
    }
}

#[derive(Debug, PartialEq, Eq)]
pub struct Song {
    pub title: String,
    pub path: PathBuf,
}

impl Clone for Song {
    fn clone(&self) -> (r: Song)
        ensures
            r == *self,
    {
        Song { title: self.title.clone(), path: self.path.clone() }
    }
}

/// The set of known songs, each reachable through its [`SongId`].
#[derive(Debug)]
pub struct Library {
    songs: HashMap<usize, Song>,
    /// Identities of the held songs, in creation order.
    order: Vec<SongId>,
    /// Next id to use when inserting a new entry.
    next_id: SongId,
}

impl View for Library {
    type V = Map<SongId, Song>;

    closed spec fn view(&self) -> Map<SongId, Song> {
        Map::new(|id: SongId| self.songs@.contains_key(id.0), |id: SongId| self.songs@[id.0])
    }
}

impl Library {
    /// The identity that the next inserted song receives.
    pub closed spec fn next_identity(&self) -> nat {
        self.next_id.0 as nat
    }

    /// The held identities, in creation order.
    pub closed spec fn identities(&self) -> Seq<SongId> {
        self.order@
    }

    pub closed spec fn wf(&self) -> bool {
        &&& self.songs@.len() == self.order@.len()
        &&& forall|i: int, j: int|
            0 <= i < j < self.order@.len() ==> #[trigger] self.order@[i].0 < #[trigger] self.order@[j].0
        &&& forall|i: int| 0 <= i < self.order@.len() ==> #[trigger] self.order@[i].0 < self.next_id.0
        &&& forall|i: int| 0 <= i < self.order@.len() ==> self.songs@.contains_key(#[trigger] self.order@[i].0)
        &&& forall|k: usize| #[trigger] self.songs@.contains_key(k) ==> self.order@.contains(SongId(k))
    }

    /// The held identities are pairwise distinct and are exactly the keys of
    /// the library's map.
    pub proof fn lemma_identities_match_songs(&self)
        requires
            self.wf(),
        ensures
            self.identities().no_duplicates(),
            forall|id: SongId| #[trigger] self@.contains_key(id) <==> self.identities().contains(id),
    {
        assert forall|i: int, j: int|
            0 <= i < self.order@.len() && 0 <= j < self.order@.len() && i != j implies self.order@[i]
            != self.order@[j] by {
            if i < j {
                assert(self.order@[i].0 < self.order@[j].0);
            } else {
                assert(self.order@[j].0 < self.order@[i].0);
            }
        }
        assert forall|id: SongId| #[trigger] self@.contains_key(id) <==> self.identities().contains(id) by {
            if self.identities().contains(id) {
                let k = choose|k: int| 0 <= k < self.order@.len() && self.order@[k] == id;
                assert(self.songs@.contains_key(self.order@[k].0));
            }
            if self@.contains_key(id) {
                assert(self.order@.contains(SongId(id.0)));
            }
        }
    }

    pub fn new() -> (r: Library)
        ensures
            r.wf(),
            r@ == Map::<SongId, Song>::empty(),
            r.identities() == Seq::<SongId>::empty(),
            r.next_identity() == 0,
    {
        let r = Library { songs: HashMap::new(), order: Vec::new(), next_id: SongId(0) };
        assert(r@ =~= Map::<SongId, Song>::empty());
        r
    }

    /// Removes every song. Identities handed out before are never handed out again.
    pub fn clear(&mut self)
        requires
            old(self).wf(),
        ensures
            final(self).wf(),
            final(self)@ == Map::<SongId, Song>::empty(),
            final(self).identities() == Seq::<SongId>::empty(),
            final(self).next_identity() == old(self).next_identity(),
    {
        self.songs.clear();
        self.order.clear();
        assert(self@ =~= Map::<SongId, Song>::empty());
    }

    /// The held songs with their identities, in creation order.
    pub fn songs(&self) -> (r: Vec<(SongId, &Song)>)
        requires
            self.wf(),
        ensures
            r@.len() == self.identities().len(),
            forall|i: int|
                0 <= i < r@.len() ==> (#[trigger] r@[i]).0 == self.identities()[i] && *r@[i].1
                    == self@[self.identities()[i]],
    {
        let mut r: Vec<(SongId, &Song)> = Vec::new();
        let mut i: usize = 0;
        while i < self.order.len()
            invariant
                self.wf(),
                i <= self.order@.len(),
                r@.len() == i,
                forall|k: int|
                    0 <= k < i ==> (#[trigger] r@[k]).0 == self.order@[k] && *r@[k].1
                        == self@[self.order@[k]],
            decreases self.order@.len() - i,
        {
            let id = self.order[i];
            assert(self.songs@.contains_key(self.order@[i as int].0));
            let song = self.songs.get(&id.0).unwrap();
            r.push((id, song));
            i += 1;
        }
        r
    }

    /// Inserts `song` under a fresh identity and returns that identity.
    pub fn add_song(&mut self, song: Song) -> (id: SongId)
        requires
            old(self).wf(),
            old(self).next_identity() < usize::MAX,
        ensures
            final(self).wf(),
            id.0 == old(self).next_identity(),
            !old(self)@.contains_key(id),
            final(self).next_identity() == old(self).next_identity() + 1,
            final(self)@ == old(self)@.insert(id, song),
            final(self).identities() == old(self).identities().push(id),
    {
        let id = self.next_id;
        assert(!self.songs@.contains_key(id.0)) by {
            if self.songs@.contains_key(id.0) {
                let k = choose|k: int| 0 <= k < self.order@.len() && self.order@[k] == SongId(id.0);
                assert(self.order@[k].0 < self.next_id.0);
            }
        }
        let ghost before = *self;
        self.songs.insert(id.0, song);
        self.order.push(id);
        self.next_id = self.next_id.next();
        assert(self.songs@.dom() == before.songs@.dom().insert(id.0));
        assert forall|k: usize| #[trigger] self.songs@.contains_key(k) implies self.order@.contains(SongId(k)) by {
            if k != id.0 {
                assert(before.order@.contains(SongId(k)));
                let j = choose|j: int| 0 <= j < before.order@.len() && before.order@[j] == SongId(k);
                assert(self.order@[j] == SongId(k));
            } else {
                assert(self.order@[self.order@.len() - 1] == id);
            }
        }
        assert(self@ =~= before@.insert(id, song));
        id
    }

    /// Inserts each song in turn: the first song receives the lowest identity.
    pub fn add_songs(&mut self, songs: Vec<Song>)
        requires
            old(self).wf(),
            old(self).next_identity() + songs@.len() <= usize::MAX,
        ensures
            final(self).wf(),
            final(self).next_identity() == old(self).next_identity() + songs@.len(),
            final(self).identities().len() == old(self).identities().len() + songs@.len(),
            final(self).identities().subrange(0, old(self).identities().len() as int)
                == old(self).identities(),
            forall|i: int|
                0 <= i < songs@.len() ==> {
                    let id = #[trigger] final(self).identities()[old(self).identities().len() + i];
                    &&& id.0 == old(self).next_identity() + i
                    &&& final(self)@[id] == songs@[i]
                },
            forall|id: SongId|
                #[trigger] old(self)@.contains_key(id) ==> final(self)@.contains_key(id)
                    && final(self)@[id] == old(self)@[id],
            final(self)@.dom() == old(self)@.dom().union(
                Set::new(
                    |id: SongId|
                        old(self).next_identity() <= id.0 < old(self).next_identity()
                            + songs@.len(),
                ),
            ),
    {
        let ghost start = *self;
        let ghost all = songs@;
        let mut rest = songs;
        while rest.len() > 0
            invariant
                self.wf(),
                start.wf(),
                0 <= rest@.len() <= all.len(),
                rest@ == all.subrange((all.len() - rest@.len()) as int, all.len() as int),
                self.next_identity() == start.next_identity() + all.len() - rest@.len(),
                start.next_identity() + all.len() <= usize::MAX,
                self.identities().len() == start.identities().len() + all.len() - rest@.len(),
                self.identities().subrange(0, start.identities().len() as int) == start.identities(),
                forall|i: int|
                    0 <= i < all.len() - rest@.len() ==> {
                        let id = #[trigger] self.identities()[start.identities().len() + i];
                        &&& id.0 == start.next_identity() + i
                        &&& self@[id] == all[i]
                    },
                forall|id: SongId|
                    #[trigger] start@.contains_key(id) ==> self@.contains_key(id) && self@[id]
                        == start@[id],
                self@.dom() == start@.dom().union(
                    Set::new(
                        |id: SongId|
                            start.next_identity() <= id.0 < start.next_identity() + all.len()
                                - rest@.len(),
                    ),
                ),
            decreases rest@.len(),
        {
            let song = rest.remove(0);
            let ghost before = *self;
            let ghost done = all.len() - rest@.len() - 1;
            assert(song == all[done]);
            let id = self.add_song(song);
            assert forall|i: int|
                0 <= i < all.len() - rest@.len() implies {
                    let id = #[trigger] self.identities()[start.identities().len() + i];
                    &&& id.0 == start.next_identity() + i
                    &&& self@[id] == all[i]
                } by {
                if i < done {
                    let id2 = before.identities()[start.identities().len() + i];
                    assert(before@.contains_key(id2));
                }
            }
            assert(self.identities().subrange(0, start.identities().len() as int) =~= start.identities());
            assert(self@.dom() =~= start@.dom().union(
                    Set::new(
                        |id: SongId|
                            start.next_identity() <= id.0 < start.next_identity() + all.len()
                                - rest@.len(),
                    ),
                ));
        }
    }

    /// The number of held songs.
    pub fn song_count(&self) -> (r: usize)
        requires
            self.wf(),
        ensures
            r == self.identities().len(),
    {
        self.order.len()
    }

    /// The song held under `id`, if any.
    pub fn get_song(&self, id: &SongId) -> (r: Option<&Song>)
        requires
            self.wf(),
        ensures
            match r {
                Some(s) => self@.contains_key(*id) && *s == self@[*id],
                None => !self@.contains_key(*id),
            },
    {
        self.songs.get(&id.0)
    }

    /// Chooses the held song that `random` designates: the one at position
    /// `random % n` among the `n` held songs in creation order.
    pub fn pick_song_id(&self, random: usize) -> (r: Option<&SongId>)
        requires
            self.wf(),
        ensures
            self.identities().len() == 0 ==> r is None,
            self.identities().len() > 0 ==> r == Some(
                &self.identities()[random as int % self.identities().len() as int],
            ),
    {
        if self.order.len() == 0 {
            None
        } else {
            Some(&self.order[random % self.order.len()])
        }
    }

    /// A song chosen at random among the held ones, or `None` when there are none.
    pub fn get_random_song_id(&self) -> (r: Option<&SongId>)
        requires
            self.wf(),
        ensures
            r is None <==> self.identities().len() == 0,
            r matches Some(id) ==> self@.contains_key(*id) && self.identities().contains(*id),
    {
        let random = rand::random::<usize>();
        let r = self.pick_song_id(random);
        proof {
            if self.identities().len() > 0 {
                let k = random as int % self.identities().len() as int;
                assert(self.songs@.contains_key(self.order@[k].0));
            }
        }
        r
    }
}

impl Default for Library {
    fn default() -> (r: Library)
        ensures
            r.wf(),
            r@ == Map::<SongId, Song>::empty(),
            r.identities() == Seq::<SongId>::empty(),
            r.next_identity() == 0,
    {
        Library::new()
    }
}

/// Identities handed out by a run of `add_song` calls, where call `k` went from
/// `states[k]` to `states[k + 1]` and returned `ids[k]`, are pairwise distinct
/// and strictly increasing in call order.
pub proof fn lemma_song_identities_increase(states: Seq<Library>, ids: Seq<SongId>)
    requires
        states.len() == ids.len() + 1,
        forall|k: int|
            0 <= k < ids.len() ==> (#[trigger] ids[k]).0 == states[k].next_identity()
                && states[k + 1].next_identity() == states[k].next_identity() + 1,
    ensures
        forall|i: int, j: int| 0 <= i < j < ids.len() ==> ids[i].0 < ids[j].0,
{
    assert forall|k: int| 0 <= k <= ids.len() implies #[trigger] states[k].next_identity()
        == states[0].next_identity() + k by {
        lemma_identity_counter(states, ids, k);
    }
    assert forall|i: int, j: int| 0 <= i < j < ids.len() implies ids[i].0 < ids[j].0 by {
        assert(states[i].next_identity() == states[0].next_identity() + i);
        assert(states[j].next_identity() == states[0].next_identity() + j);
    }
}

proof fn lemma_identity_counter(states: Seq<Library>, ids: Seq<SongId>, k: int)
    requires
        states.len() == ids.len() + 1,
        0 <= k <= ids.len(),
        forall|k: int|
            0 <= k < ids.len() ==> (#[trigger] ids[k]).0 == states[k].next_identity()
                && states[k + 1].next_identity() == states[k].next_identity() + 1,
    ensures
        states[k].next_identity() == states[0].next_identity() + k,
    decreases k,
{
    if k > 0 {
        lemma_identity_counter(states, ids, k - 1);
        assert(ids[k - 1].0 == states[k - 1].next_identity());
    }
}

/// After `clear`, no identity that the library held resolves any more, and
/// none of them can be handed out again: each lies below the next identity.
pub proof fn lemma_clear_forgets_songs(before: Library, after: Library, id: SongId)
    requires
        before.wf(),
        before@.contains_key(id),
        after@ == Map::<SongId, Song>::empty(),
        after.next_identity() == before.next_identity(),
    ensures
        !after@.contains_key(id),
        id.0 < after.next_identity(),
{
    assert(before.order@.contains(SongId(id.0)));
}

/// What Path::file_stem gives for `path`, read as text: `None` when the path
/// names no file.
pub uninterp spec fn file_stem_of(path: PathBuf) -> Option<Seq<char>>;

/// Relies on Path::file_stem, with the stem read as text through
/// OsStr::to_string_lossy; the result depends on the path alone.
#[verifier::external_body]
fn file_stem_text(path: &PathBuf) -> (r: Option<String>)
    ensures
        r is None <==> file_stem_of(*path) is None,
        r matches Some(s) ==> file_stem_of(*path) == Some(s@),
{
    path.file_stem().map(|stem| stem.to_string_lossy().to_string())
}

/// The song that the file at `file_path` holds, titled after the file's name
/// without its extension; `None` when the path names no file.
pub fn song_from_file_path(file_path: PathBuf) -> (r: Option<Song>)
    ensures
        file_stem_of(file_path) is None ==> r is None,
        file_stem_of(file_path) matches Some(title) ==> r matches Some(song) && song.title@
            == title && song.path == file_path,
{
    match file_stem_text(&file_path) {
        Some(title) => Some(Song { title, path: file_path }),
        None => None,
    }
}

/// Relies on PathBuf's Clone: the copy equals the path it was made from.
pub assume_specification[ <PathBuf as Clone>::clone ](path: &PathBuf) -> (r: PathBuf)
    ensures
        r == *path,
;

/// Relies on rand::random: it returns a value of the requested type, about
/// which nothing further is promised.
pub assume_specification<T>[ rand::random::<T> ]() -> (r: T)
    where
        rand::distributions::Standard: rand::distributions::Distribution<T>,
;

} // verus!
