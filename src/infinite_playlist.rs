use crate::library::{Library, ListEntryId};
use crate::playlist::{
    entry_at, holds_entry, next_position, positioned, previous_position, Playlist, PositionedEntry,
};
use vstd::prelude::*;

verus! {

/// How many entries follow position `entry_index` in a playlist of `len` entries.
pub open spec fn entries_ahead(len: nat, entry_index: nat) -> int {
    len - (entry_index + 1)
}

/// How many entries filling leaves ahead of the current one: `desired` when
/// the library can supply songs and fewer are ahead, else as many as there are.
pub open spec fn filled_ahead(ahead: int, desired: nat, library_size: nat) -> int {
    if library_size > 0 && ahead < desired {
        desired as int
    } else {
        ahead
    }
}

/// How many entries trimming takes from the front so that at most `desired`
/// stay behind position `entry_index`.
pub open spec fn trimmed_count(entry_index: nat, desired: nat) -> nat {
    if entry_index > desired {
        (entry_index - desired) as nat
    } else {
        0
    }
}

/// The entry that walking forward from `current` reaches: the one after it
/// (wrapping), or the first entry when nothing is current.
pub open spec fn forward_from(playlist: Playlist, current: Option<ListEntryId>) -> Option<PositionedEntry> {
    match current {
        Some(c) => if holds_entry(playlist@, c) {
            let i = choose|i: int| entry_at(playlist@, c, i);
            Some(positioned(playlist@, next_position(playlist@.len() as int, i)))
        } else {
            None
        },
        None => if playlist@.len() > 0 {
            Some(positioned(playlist@, 0))
        } else {
            None
        },
    }
}

/// The entry that walking backward from `current` reaches: the one before it
/// (wrapping), or the last entry when nothing is current.
pub open spec fn backward_from(playlist: Playlist, current: Option<ListEntryId>) -> Option<PositionedEntry> {
    match current {
        Some(c) => if holds_entry(playlist@, c) {
            let i = choose|i: int| entry_at(playlist@, c, i);
            Some(positioned(playlist@, previous_position(playlist@.len() as int, i)))
        } else {
            None
        },
        None => if playlist@.len() > 0 {
            Some(positioned(playlist@, playlist@.len() - 1))
        } else {
            None
        },
    }
}

/// Appends songs drawn at random from `library` until `desired_buffer`
/// entries follow position `entry_index`. Appends nothing when the library is
/// empty or enough entries follow already.
pub fn fill_buffer(
    playlist: &mut Playlist,
    library: &Library,
    entry_index: usize,
    desired_buffer: usize,
)
    requires
        old(playlist).wf(),
        library.wf(),
        entry_index < old(playlist)@.len(),
        old(playlist).next_identity() + desired_buffer <= usize::MAX,
    ensures
        final(playlist).wf(),
        entries_ahead(final(playlist)@.len(), entry_index as nat) == filled_ahead(
            entries_ahead(old(playlist)@.len(), entry_index as nat),
            desired_buffer as nat,
            library.identities().len(),
        ),
        final(playlist)@.subrange(0, old(playlist)@.len() as int) == old(playlist)@,
        final(playlist).next_identity() == old(playlist).next_identity() + final(playlist)@.len()
            - old(playlist)@.len(),
        forall|k: int|
            old(playlist)@.len() <= k < final(playlist)@.len() ==> {
                &&& (#[trigger] final(playlist)@[k]).0.0 == old(playlist).next_identity() + k
                    - old(playlist)@.len()
                &&& library@.contains_key(final(playlist)@[k].1)
            },
{
    let ghost start = *playlist;
    if library.song_count() == 0 {
        assert(playlist@.subrange(0, playlist@.len() as int) =~= playlist@);
        return;
    }
    let mut in_buffer: usize = playlist.length() - (entry_index + 1);
    let ghost first_ahead = in_buffer;
    while in_buffer < desired_buffer
        invariant
            playlist.wf(),
            library.wf(),
            library.identities().len() > 0,
            first_ahead <= in_buffer,
            first_ahead < desired_buffer ==> in_buffer <= desired_buffer,
            first_ahead >= desired_buffer ==> in_buffer == first_ahead,
            entry_index < start@.len(),
            first_ahead == start@.len() - (entry_index + 1),
            in_buffer == playlist@.len() - (entry_index + 1),
            start.next_identity() + desired_buffer <= usize::MAX,
            playlist@.len() - start@.len() == in_buffer - first_ahead,
            playlist@.subrange(0, start@.len() as int) == start@,
            playlist.next_identity() == start.next_identity() + playlist@.len() - start@.len(),
            forall|k: int|
                start@.len() <= k < playlist@.len() ==> {
                    &&& (#[trigger] playlist@[k]).0.0 == start.next_identity() + k - start@.len()
                    &&& library@.contains_key(playlist@[k].1)
                },
        decreases desired_buffer - in_buffer,
    {
        match library.get_random_song_id() {
            Some(song_id) => {
                let ghost before = playlist@;
                playlist.add_song(*song_id);
                in_buffer += 1;
                assert(playlist@.subrange(0, start@.len() as int) =~= before.subrange(
                    0,
                    start@.len() as int,
                ));
            },
            None => {},
        }
    }
    assert(start@.subrange(0, start@.len() as int) =~= start@);
}

/// Removes entries from the front until at most `desired_rear_buffer` stand
/// before the current one, and returns the current entry's new position.
pub fn trim_rear_buffer(playlist: &mut Playlist, entry_index: usize, desired_rear_buffer: usize) -> (r:
    usize)
    requires
        old(playlist).wf(),
        entry_index < old(playlist)@.len(),
    ensures
        final(playlist).wf(),
        final(playlist).next_identity() == old(playlist).next_identity(),
        final(playlist)@ == old(playlist)@.subrange(
            trimmed_count(entry_index as nat, desired_rear_buffer as nat) as int,
            old(playlist)@.len() as int,
        ),
        r == entry_index - trimmed_count(entry_index as nat, desired_rear_buffer as nat),
        r <= desired_rear_buffer,
{
    let ghost start = *playlist;
    let mut in_rear_buffer: usize = entry_index;
    while in_rear_buffer > desired_rear_buffer
        invariant
            playlist.wf(),
            entry_index < start@.len(),
            in_rear_buffer <= entry_index,
            in_rear_buffer >= desired_rear_buffer || in_rear_buffer == entry_index,
            playlist.next_identity() == start.next_identity(),
            playlist@ == start@.subrange(entry_index - in_rear_buffer, start@.len() as int),
        decreases in_rear_buffer,
    {
        playlist.remove_song_by_index(0);
        in_rear_buffer -= 1;
        assert(playlist@ =~= start@.subrange(entry_index - in_rear_buffer, start@.len() as int));
    }
    in_rear_buffer
}

/// Keeps an infinite playlist topped up around the entry at `entry_index`,
/// which has just become current: random songs of `library` are appended
/// until `desired_buffer` entries follow it, and the oldest entries are
/// removed until at most `desired_rear_buffer` precede it. Returns the
/// current entry's new position.
pub fn apply_infinite_playlist(
    playlist: &mut Playlist,
    library: &Library,
    entry_index: usize,
    desired_buffer: usize,
    desired_rear_buffer: usize,
) -> (r: usize)
    requires
        old(playlist).wf(),
        library.wf(),
        entry_index < old(playlist)@.len(),
        old(playlist).next_identity() + desired_buffer <= usize::MAX,
    ensures
        final(playlist).wf(),
        r == entry_index - trimmed_count(entry_index as nat, desired_rear_buffer as nat),
        r <= desired_rear_buffer,
        r < final(playlist)@.len(),
        entries_ahead(final(playlist)@.len(), r as nat) == filled_ahead(
            entries_ahead(old(playlist)@.len(), entry_index as nat),
            desired_buffer as nat,
            library.identities().len(),
        ),
        library.identities().len() > 0 ==> entries_ahead(final(playlist)@.len(), r as nat)
            >= desired_buffer,
        forall|k: int|
            0 <= k <= r ==> #[trigger] final(playlist)@[k] == old(playlist)@[k + entry_index - r],
        forall|k: int|
            r < k < final(playlist)@.len() && k + entry_index - r < old(playlist)@.len()
                ==> #[trigger] final(playlist)@[k] == old(playlist)@[k + entry_index - r],
        forall|k: int|
            r < k < final(playlist)@.len() && k + entry_index - r >= old(playlist)@.len()
                ==> library@.contains_key((#[trigger] final(playlist)@[k]).1),
{
    let ghost start = *playlist;
    fill_buffer(playlist, library, entry_index, desired_buffer);
    let ghost filled = *playlist;
    let r = trim_rear_buffer(playlist, entry_index, desired_rear_buffer);
    assert forall|k: int| 0 <= k <= r implies #[trigger] playlist@[k] == start@[k + entry_index - r] by {
        assert(filled@.subrange(0, start@.len() as int)[k + entry_index - r] == filled@[k + entry_index - r]);
    }
    assert forall|k: int|
        r < k < playlist@.len() && k + entry_index - r < start@.len() implies #[trigger] playlist@[k]
        == start@[k + entry_index - r] by {
        assert(filled@.subrange(0, start@.len() as int)[k + entry_index - r] == filled@[k + entry_index - r]);
    }
    assert forall|k: int|
        r < k < playlist@.len() && k + entry_index - r >= start@.len() implies library@.contains_key(
        (#[trigger] playlist@[k]).1) by {
        assert(playlist@[k] == filled@[k + entry_index - r]);
    }
    r
}

/// The entry to play after `current`: the next one, wrapping at the end, or
/// the first one when nothing is current. When there is none and the
/// playlist is infinite, one random song of `library` is appended and the
/// walk is tried once more. `None` means that playback stops.
pub fn next_entry_to_play(
    playlist: &mut Playlist,
    library: &Library,
    current: Option<ListEntryId>,
    infinite_playlist: bool,
) -> (r: Option<PositionedEntry>)
    requires
        old(playlist).wf(),
        library.wf(),
        old(playlist).next_identity() < usize::MAX,
    ensures
        final(playlist).wf(),
        final(playlist).next_identity() == old(playlist).next_identity() + final(playlist)@.len()
            - old(playlist)@.len(),
        forward_from(*old(playlist), current) is Some ==> r == forward_from(*old(playlist), current)
            && final(playlist)@ == old(playlist)@,
        forward_from(*old(playlist), current) is None && (!infinite_playlist
            || library.identities().len() == 0) ==> r is None && final(playlist)@ == old(
            playlist,
        )@,
        forward_from(*old(playlist), current) is None && infinite_playlist
            && library.identities().len() > 0 ==> {
            &&& final(playlist)@.len() == old(playlist)@.len() + 1
            &&& final(playlist)@.drop_last() == old(playlist)@
            &&& final(playlist)@.last().0.0 == old(playlist).next_identity()
            &&& library@.contains_key(final(playlist)@.last().1)
            &&& r == forward_from(*final(playlist), current)
        },
{
    let found = step_forward(playlist, current);
    if found.is_some() || !infinite_playlist {
        return found;
    }
    match library.get_random_song_id() {
        Some(song_id) => {
            let ghost before = playlist@;
            playlist.add_song(*song_id);
            assert(playlist@.drop_last() =~= before);
            step_forward(playlist, current)
        },
        None => None,
    }
}

/// The entry to play before `current`: the previous one, wrapping at the
/// start, or the last one when nothing is current.
pub fn previous_entry_to_play(playlist: &Playlist, current: Option<ListEntryId>) -> (r: Option<
    PositionedEntry,
>)
    requires
        playlist.wf(),
    ensures
        r == backward_from(*playlist, current),
{
    match current {
        Some(c) => {
            let r = playlist.get_previous_entry(c);
            proof {
                if holds_entry(playlist@, c) {
                    let i = choose|i: int| entry_at(playlist@, c, i);
                }
            }
            r
        },
        None => playlist.get_last_entry(),
    }
}

fn step_forward(playlist: &Playlist, current: Option<ListEntryId>) -> (r: Option<PositionedEntry>)
    requires
        playlist.wf(),
    ensures
        r == forward_from(*playlist, current),
{
    match current {
        Some(c) => {
            let r = playlist.get_next_entry(c);
            proof {
                if holds_entry(playlist@, c) {
                    let i = choose|i: int| entry_at(playlist@, c, i);
                }
            }
            r
        },
        None => playlist.get_first_entry(),
    }
}

} // verus!
