use crate::library::{Library, ListEntryId, Song, SongId};
use crate::playlist::{moved, Playlist};
use vstd::prelude::*;

verus! {

/// What the playlist view asks of the player after a frame.
pub enum PlaylistAction {
    NoAction,
    PlaySong((ListEntryId, SongId)),
    RemoveSong(ListEntryId),
}

/// What the playback controls ask of the player after a frame.
#[derive(Clone, Copy)]
pub enum PlaybackCommand {
    Pause,
    Unpause,
    NextSong,
    PreviousSong,
    SetVolume(i64),
}

/// Which volume icon the playback controls show.
#[derive(Clone, Copy, Debug, PartialEq, Eq, Structural)]
pub enum VolumeLevel {
    Low,
    Mid,
    High,
}

/// The icon for `volume`: low up to 33, middle from 34 to 66, high above.
pub fn volume_level(volume: i64) -> (r: VolumeLevel)
    ensures
        volume <= 33 ==> r == VolumeLevel::Low,
        34 <= volume <= 66 ==> r == VolumeLevel::Mid,
        volume > 66 ==> r == VolumeLevel::High,
{
    if volume <= 33 {
        VolumeLevel::Low
    } else if volume <= 66 {
        VolumeLevel::Mid
    } else {
        VolumeLevel::High
    }
}

/// The command that one frame of the playback controls gives, from what was
/// clicked: a volume change wins over the next-song button, which wins over
/// the play/pause button, which wins over the previous-song button.
pub fn playback_command(
    previous_clicked: bool,
    play_pause_clicked: bool,
    paused: bool,
    next_clicked: bool,
    volume: i64,
    new_volume: i64,
) -> (r: Option<PlaybackCommand>)
    ensures
        new_volume != volume ==> r == Some(PlaybackCommand::SetVolume(new_volume)),
        new_volume == volume && next_clicked ==> r == Some(PlaybackCommand::NextSong),
        new_volume == volume && !next_clicked && play_pause_clicked ==> r == Some(
            if paused {
                PlaybackCommand::Unpause
            } else {
                PlaybackCommand::Pause
            },
        ),
        new_volume == volume && !next_clicked && !play_pause_clicked && previous_clicked ==> r
            == Some(PlaybackCommand::PreviousSong),
        new_volume == volume && !next_clicked && !play_pause_clicked && !previous_clicked ==> r
            is None,
{
    let mut command = None;
    if previous_clicked {
        command = Some(PlaybackCommand::PreviousSong);
    }
    if play_pause_clicked {
        if paused {
            command = Some(PlaybackCommand::Unpause);
        } else {
            command = Some(PlaybackCommand::Pause);
        }
    }
    if next_clicked {
        command = Some(PlaybackCommand::NextSong);
    }
    if new_volume != volume {
        command = Some(PlaybackCommand::SetVolume(new_volume));
    }
    command
}

/// Splits a duration in seconds into hours, minutes and seconds.
pub fn time_parts(seconds: u64) -> (r: (u64, u64, u64))
    ensures
        r.1 < 60,
        r.2 < 60,
        r.0 * 3600 + r.1 * 60 + r.2 == seconds,
{
    let hours = seconds / 3600;
    let minutes = (seconds % 3600) / 60;
    let secs = seconds % 60;
    assert(hours * 3600 + minutes * 60 + secs == seconds) by (nonlinear_arith)
        requires
            hours == seconds / 3600,
            minutes == (seconds % 3600) / 60,
            secs == seconds % 60,
    ;
    (hours, minutes, secs)
}

/// State of the configuration window.
pub struct ConfigView {
    window_open: bool,
}

impl ConfigView {
    pub closed spec fn is_open(&self) -> bool {
        self.window_open
    }

    pub fn new() -> (r: ConfigView)
        ensures
            !r.is_open(),
    {
        ConfigView { window_open: false }
    }

    pub fn open_window(&mut self)
        ensures
            final(self).is_open(),
    {
        self.window_open = true;
    }

    pub fn window_open(&self) -> (r: bool)
        ensures
            r == self.is_open(),
    {
        self.window_open
    }
}

/// State of the playlist view: the entry being dragged, with its position.
pub struct PlaylistView {
    dragged_item: Option<(ListEntryId, usize)>,
}

impl PlaylistView {
    pub closed spec fn dragged(&self) -> Option<(ListEntryId, usize)> {
        self.dragged_item
    }

    pub fn new() -> (r: PlaylistView)
        ensures
            r.dragged() is None,
    {
        PlaylistView { dragged_item: None }
    }

    /// Starts dragging the entry `entry_id`, which stands at position `index`.
    pub fn start_drag(&mut self, entry_id: ListEntryId, index: usize)
        ensures
            final(self).dragged() == Some((entry_id, index)),
    {
        self.dragged_item = Some((entry_id, index));
    }

    /// Forgets the dragged entry.
    pub fn stop_drag(&mut self)
        ensures
            final(self).dragged() is None,
    {
        self.dragged_item = None;
    }

    pub fn dragged_item(&self) -> (r: Option<(ListEntryId, usize)>)
        ensures
            r == self.dragged(),
    {
        self.dragged_item
    }

    /// When an entry is being dragged and the pointer stands over position
    /// `target`, moves the dragged entry there and remembers its new position.
    pub fn move_dragged_item(&mut self, playlist: &mut Playlist, target: Option<usize>)
        requires
            old(playlist).wf(),
        ensures
            final(playlist).wf(),
            final(playlist).next_identity() == old(playlist).next_identity(),
            match (old(self).dragged(), target) {
                (Some((id, from)), Some(t)) => final(playlist)@ == moved(
                    old(playlist)@,
                    from as int,
                    t as int,
                ) && final(self).dragged() == Some((id, t)),
                _ => final(playlist)@ == old(playlist)@ && final(self).dragged() == old(
                    self,
                ).dragged(),
            },
    {
        if let (Some((item_id, from_index)), Some(t)) = (self.dragged_item, target) {
            playlist.move_from_index_to_target_index(from_index, t);
            self.dragged_item = Some((item_id, t));
        }
    }
}

/// `a` comes no later than `b` in the order of strings: character by
/// character by code point, a prefix first.
pub open spec fn title_le(a: Seq<char>, b: Seq<char>) -> bool
    decreases a.len(),
{
    if a.len() == 0 {
        true
    } else if b.len() == 0 {
        false
    } else if (a[0] as u32) != (b[0] as u32) {
        (a[0] as u32) < (b[0] as u32)
    } else {
        title_le(a.drop_first(), b.drop_first())
    }
}

/// Of two strings, one comes no later than the other.
pub proof fn lemma_title_le_total(a: Seq<char>, b: Seq<char>)
    ensures
        title_le(a, b) || title_le(b, a),
    decreases a.len(),
{
    if a.len() > 0 && b.len() > 0 && (a[0] as u32) == (b[0] as u32) {
        lemma_title_le_total(a.drop_first(), b.drop_first());
    }
}

/// Coming no later is transitive.
pub proof fn lemma_title_le_transitive(a: Seq<char>, b: Seq<char>, c: Seq<char>)
    requires
        title_le(a, b),
        title_le(b, c),
    ensures
        title_le(a, c),
    decreases a.len(),
{
    if a.len() > 0 && b.len() > 0 && c.len() > 0 && (a[0] as u32) == (b[0] as u32) && (b[0] as u32)
        == (c[0] as u32) {
        lemma_title_le_transitive(a.drop_first(), b.drop_first(), c.drop_first());
    }
}

/// `items` are in order of their songs' titles.
pub open spec fn sorted_by_title(items: Seq<(SongId, Song)>) -> bool {
    forall|i: int, j: int|
        0 <= i < j < items.len() ==> title_le(items[i].1.title@, items[j].1.title@)
}

/// `needle` stands somewhere in `text` as a contiguous run.
pub open spec fn contains_text(text: Seq<char>, needle: Seq<char>) -> bool {
    exists|i: int| 0 <= i <= text.len() - needle.len() && #[trigger] text.subrange(i, i + needle.len()) == needle
}

/// What str::to_lowercase returns for the text `s`.
pub uninterp spec fn lower_of(s: Seq<char>) -> Seq<char>;

/// The songs shown for the filter `filter`: those whose title, in lower case,
/// contains the filter in lower case, in their order.
pub open spec fn shown_for(items: Seq<(SongId, Song)>, filter: Seq<char>) -> Seq<(SongId, Song)> {
    items.filter(|item: (SongId, Song)| contains_text(lower_of(item.1.title@), lower_of(filter)))
}

/// Relies on str::to_lowercase: the result depends on the text alone, and an
/// empty text stays empty.
#[verifier::external_body]
fn lowercase(s: &str) -> (r: String)
    ensures
        r@ == lower_of(s@),
        s@.len() == 0 ==> r@.len() == 0,
{
    s.to_lowercase()
}

/// Relies on str::contains with a `&str` pattern: true exactly when the
/// pattern stands in the text as a contiguous run.
#[verifier::external_body]
fn str_contains(text: &str, needle: &str) -> (r: bool)
    ensures
        r == contains_text(text@, needle@),
{
    text.contains(needle)
}

/// Whether a title already in lower case passes a filter already in lower case.
pub fn matches_folded(folded_filter: &str, folded_title: &str) -> (r: bool)
    ensures
        r == contains_text(folded_title@, folded_filter@),
{
    str_contains(folded_title, folded_filter)
}

/// Whether `a` comes no later than `b` in the order of strings.
pub fn title_less_or_equal(a: &String, b: &String) -> (r: bool)
    ensures
        r == title_le(a@, b@),
{
    let a_len = a.as_str().unicode_len();
    let b_len = b.as_str().unicode_len();
    let mut i: usize = 0;
    assert(a@.skip(0) =~= a@ && b@.skip(0) =~= b@);
    while i < a_len && i < b_len
        invariant
            a_len == a@.len(),
            b_len == b@.len(),
            i <= a_len,
            i <= b_len,
            title_le(a@, b@) == title_le(a@.skip(i as int), b@.skip(i as int)),
        decreases a_len - i,
    {
        let ca = a.as_str().get_char(i);
        let cb = b.as_str().get_char(i);
        assert(a@.skip(i as int)[0] == ca && b@.skip(i as int)[0] == cb);
        if (ca as u32) != (cb as u32) {
            return (ca as u32) < (cb as u32);
        }
        assert(a@.skip(i as int).drop_first() =~= a@.skip(i + 1 as int));
        assert(b@.skip(i as int).drop_first() =~= b@.skip(i + 1 as int));
        i += 1;
    }
    i == a_len
}

spec fn covered(src: Seq<int>, k: int) -> bool {
    exists|m: int| 0 <= m < src.len() && src[m] == k
}

fn copy_items(items: &Vec<(SongId, Song)>) -> (r: Vec<(SongId, Song)>)
    ensures
        r@ == items@,
{
    let mut r: Vec<(SongId, Song)> = Vec::new();
    let mut i: usize = 0;
    while i < items.len()
        invariant
            i <= items@.len(),
            r@ == items@.subrange(0, i as int),
        decreases items@.len() - i,
    {
        let (id, song) = &items[i];
        r.push((*id, song.clone()));
        i += 1;
        assert(r@ =~= items@.subrange(0, i as int));
    }
    assert(items@.subrange(0, i as int) =~= items@);
    r
}

/// State of the library view: the filter text, every song sorted by title,
/// and the songs that pass the filter.
pub struct LibraryView {
    filter_string: String,
    /// Always sorted alphabetically.
    unfiltered_items: Vec<(SongId, Song)>,
    filtered_items: Vec<(SongId, Song)>,
}

impl LibraryView {
    pub closed spec fn filter(&self) -> Seq<char> {
        self.filter_string@
    }

    pub closed spec fn all_items(&self) -> Seq<(SongId, Song)> {
        self.unfiltered_items@
    }

    pub closed spec fn shown_items(&self) -> Seq<(SongId, Song)> {
        self.filtered_items@
    }

    pub fn new() -> (r: LibraryView)
        ensures
            r.filter().len() == 0,
            r.all_items().len() == 0,
            r.shown_items().len() == 0,
    {
        LibraryView { filter_string: String::new(), unfiltered_items: Vec::new(), filtered_items: Vec::new() }
    }

    /// Whether the view wants to be shown: while a filter is typed.
    pub fn should_show_library(&self) -> (r: bool)
        ensures
            r == (self.filter().len() > 0),
    {
        !self.filter_string.as_str().is_empty()
    }

    /// Takes a fresh copy of the library's songs, sorted by title, and shows
    /// them all.
    pub fn update_items(&mut self, library: &Library)
        requires
            library.wf(),
        ensures
            final(self).filter() == old(self).filter(),
            final(self).all_items().len() == library.identities().len(),
            sorted_by_title(final(self).all_items()),
            forall|m: int|
                0 <= m < final(self).all_items().len() ==> library@.contains_key(
                    (#[trigger] final(self).all_items()[m]).0,
                ) && final(self).all_items()[m].1 == library@[final(self).all_items()[m].0],
            forall|id: SongId|
                #[trigger] library@.contains_key(id) ==> exists|m: int|
                    0 <= m < final(self).all_items().len() && final(self).all_items()[m].0 == id,
            forall|i: int, j: int|
                0 <= i < j < final(self).all_items().len() ==> final(self).all_items()[i].0
                    != final(self).all_items()[j].0,
            final(self).shown_items() == final(self).all_items(),
    {
        proof {
            library.lemma_identities_match_songs();
        }
        let songs = library.songs();
        let ghost ids = library.identities();
        let mut items: Vec<(SongId, Song)> = Vec::new();
        let ghost mut src: Seq<int> = Seq::empty();
        let mut i: usize = 0;
        while i < songs.len()
            invariant
                library.wf(),
                ids == library.identities(),
                ids.no_duplicates(),
                songs@.len() == ids.len(),
                forall|k: int|
                    0 <= k < songs@.len() ==> (#[trigger] songs@[k]).0 == ids[k] && *songs@[k].1
                        == library@[ids[k]],
                i <= songs@.len(),
                items@.len() == i,
                src.len() == i,
                sorted_by_title(items@),
                forall|m: int|
                    0 <= m < i ==> 0 <= #[trigger] src[m] < i && items@[m].0 == ids[src[m]]
                        && items@[m].1 == library@[ids[src[m]]],
                forall|m1: int, m2: int| 0 <= m1 < m2 < i ==> #[trigger] src[m1] != #[trigger] src[m2],
                forall|k: int| 0 <= k < i ==> #[trigger] covered(src, k),
            decreases songs@.len() - i,
        {
            let item = (songs[i].0, songs[i].1.clone());
            let mut p: usize = 0;
            while p < items.len() && title_less_or_equal(&items[p].1.title, &item.1.title)
                invariant
                    p <= items@.len(),
                    forall|k: int| 0 <= k < p ==> title_le(#[trigger] items@[k].1.title@, item.1.title@),
                decreases items@.len() - p,
            {
                p += 1;
            }
            let ghost old_items = items@;
            let ghost old_src = src;
            proof {
                if p < old_items.len() {
                    lemma_title_le_total(old_items[p as int].1.title@, item.1.title@);
                }
            }
            items.insert(p, item);
            proof {
                src = old_src.insert(p as int, i as int);
                assert forall|a: int, b: int| 0 <= a < b < items@.len() implies title_le(
                    items@[a].1.title@,
                    items@[b].1.title@,
                ) by {
                    if b < p {
                        assert(old_items[a] == items@[a] && old_items[b] == items@[b]);
                    } else if a < p && b == p {
                    } else if a < p && b > p {
                        assert(old_items[b - 1] == items@[b]);
                    } else if a == p {
                        assert(old_items[b - 1] == items@[b]);
                        if b - 1 > p {
                            lemma_title_le_transitive(
                                item.1.title@,
                                old_items[p as int].1.title@,
                                old_items[b - 1].1.title@,
                            );
                        }
                    } else {
                        assert(old_items[a - 1] == items@[a]);
                        assert(old_items[b - 1] == items@[b]);
                    }
                }
                assert forall|m: int| 0 <= m < i + 1 implies 0 <= #[trigger] src[m] < i + 1
                    && items@[m].0 == ids[src[m]] && items@[m].1 == library@[ids[src[m]]] by {
                    if m > p {
                        assert(old_items[m - 1] == items@[m]);
                    }
                }
                assert forall|m1: int, m2: int| 0 <= m1 < m2 < i + 1 implies #[trigger] src[m1]
                    != #[trigger] src[m2] by {
                    if m1 < p && m2 > p {
                        assert(src[m2] == old_src[m2 - 1]);
                    } else if m1 > p {
                        assert(src[m2] == old_src[m2 - 1]);
                        assert(src[m1] == old_src[m1 - 1]);
                    }
                }
                assert forall|k: int| 0 <= k < i + 1 implies #[trigger] covered(src, k) by {
                    if k == i {
                        assert(src[p as int] == k);
                    } else {
                        assert(covered(old_src, k));
                        let m = choose|m: int| 0 <= m < old_src.len() && #[trigger] old_src[m] == k;
                        if m < p {
                            assert(src[m] == k);
                        } else {
                            assert(src[m + 1] == k);
                        }
                    }
                }
            }
            i += 1;
        }
        proof {
            assert forall|m: int| 0 <= m < items@.len() implies library@.contains_key(
                (#[trigger] items@[m]).0,
            ) && items@[m].1 == library@[items@[m].0] by {
                assert(ids.contains(ids[src[m]]));
            }
            assert forall|id: SongId| #[trigger] library@.contains_key(id) implies exists|m: int|
                0 <= m < items@.len() && items@[m].0 == id by {
                let k = choose|k: int| 0 <= k < ids.len() && ids[k] == id;
                assert(covered(src, k));
                let m = choose|m: int| 0 <= m < src.len() && #[trigger] src[m] == k;
                assert(items@[m].0 == id);
            }
            assert forall|a: int, b: int| 0 <= a < b < items@.len() implies items@[a].0
                != items@[b].0 by {
                assert(src[a] != src[b]);
            }
        }
        self.filtered_items = copy_items(&items);
        self.unfiltered_items = items;
    }

    /// Sets the filter text and keeps, of all songs, those whose title in lower
    /// case contains it in lower case, in their order.
    pub fn update_filter_string(&mut self, new_string: String)
        ensures
            final(self).filter() == new_string@,
            final(self).all_items() == old(self).all_items(),
            final(self).shown_items() == shown_for(old(self).all_items(), new_string@),
    {
        let folded_filter = lowercase(new_string.as_str());
        self.filter_string = new_string;
        let mut shown: Vec<(SongId, Song)> = Vec::new();
        let mut i: usize = 0;
        while i < self.unfiltered_items.len()
            invariant
                i <= self.unfiltered_items@.len(),
                folded_filter@ == lower_of(self.filter_string@),
                shown@ == shown_for(self.unfiltered_items@.subrange(0, i as int), self.filter_string@),
            decreases self.unfiltered_items@.len() - i,
        {
            let folded_title = lowercase(self.unfiltered_items[i].1.title.as_str());
            let ghost before = self.unfiltered_items@.subrange(0, i as int);
            if matches_folded(folded_filter.as_str(), folded_title.as_str()) {
                let (id, song) = &self.unfiltered_items[i];
                shown.push((*id, song.clone()));
            }
            i += 1;
            proof {
                let now = self.unfiltered_items@.subrange(0, i as int);
                assert(now.drop_last() =~= before);
                reveal(Seq::filter);
            }
        }
        assert(self.unfiltered_items@.subrange(0, i as int) =~= self.unfiltered_items@);
        self.filtered_items = shown;
    }

    pub fn filter_string(&self) -> (r: &String)
        ensures
            r@ == self.filter(),
    {
        &self.filter_string
    }

    pub fn filtered_items(&self) -> (r: &Vec<(SongId, Song)>)
        ensures
            r@ == self.shown_items(),
    {
        &self.filtered_items
    }

    pub fn item_count(&self) -> (r: usize)
        ensures
            r == self.all_items().len(),
    {
        self.unfiltered_items.len()
    }
}

} // verus!
