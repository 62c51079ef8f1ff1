use simple_music_lib::library::{Library, ListEntryId, Song, SongId};
use simple_music_lib::playlist::Playlist;
use std::path::PathBuf;

fn song(title: &str) -> Song {
    Song {
        title: title.to_owned(),
        path: PathBuf::new(),
    }
}

#[test]
fn library_new_library_is_empty() {
    let library = Library::new();
    assert_eq!(library.song_count(), 0);

    assert!(library.get_song(&SongId(0)).is_none());
}

#[test]
fn library_add_song_gives_unique_id() {
    let mut library = Library::new();

    let id1 = library.add_song(Song {
        title: String::new(),
        path: PathBuf::new(),
    });
    let id2 = library.add_song(Song {
        title: String::new(),
        path: PathBuf::new(),
    });

    assert_ne!(id1, id2);
}

#[test]
fn library_get_song() {
    let mut library = Library::new();

    let song_title1 = "title!";
    let song_title2 = "another title";

    let id1 = library.add_song(Song {
        title: song_title1.to_owned(),
        path: PathBuf::new(),
    });
    let id2 = library.add_song(Song {
        title: song_title2.to_owned(),
        path: PathBuf::new(),
    });

    let song1 = library.get_song(&id1).unwrap();
    let song2 = library.get_song(&id2).unwrap();

    assert_eq!(song1.title, song_title1);
    assert_eq!(song2.title, song_title2);
}

#[test]
fn library_identities_increase_in_call_order() {
    let mut library = Library::new();
    let ids: Vec<SongId> = ["a", "b", "c", "d"]
        .iter()
        .map(|t| library.add_song(song(t)))
        .collect();
    assert_eq!(ids, vec![SongId(0), SongId(1), SongId(2), SongId(3)]);
    for pair in ids.windows(2) {
        assert!(pair[0].0 < pair[1].0);
    }
}

#[test]
fn library_add_songs_keeps_input_order() {
    let mut library = Library::new();
    library.add_songs(vec![song("first"), song("second"), song("third")]);
    assert_eq!(library.song_count(), 3);
    assert_eq!(library.get_song(&SongId(0)).unwrap().title, "first");
    assert_eq!(library.get_song(&SongId(1)).unwrap().title, "second");
    assert_eq!(library.get_song(&SongId(2)).unwrap().title, "third");
    assert!(library.get_song(&SongId(3)).is_none());
}

#[test]
fn library_clear_forgets_songs_and_keeps_counter() {
    let mut library = Library::new();
    let id1 = library.add_song(song("one"));
    let id2 = library.add_song(song("two"));
    library.clear();
    assert_eq!(library.song_count(), 0);
    assert!(library.get_song(&id1).is_none());
    assert!(library.get_song(&id2).is_none());

    let id3 = library.add_song(song("three"));
    assert_eq!(id3, SongId(2));
    assert!(library.get_song(&id1).is_none());
    assert_eq!(library.get_song(&id3).unwrap().title, "three");
}

#[test]
fn library_songs_lists_in_creation_order() {
    let mut library = Library::new();
    library.add_songs(vec![song("x"), song("y")]);
    let listed: Vec<(SongId, String)> = library
        .songs()
        .into_iter()
        .map(|(id, s)| (id, s.title.clone()))
        .collect();
    assert_eq!(
        listed,
        vec![(SongId(0), "x".to_string()), (SongId(1), "y".to_string())]
    );
}

#[test]
fn library_random_song_on_empty_library_is_absent() {
    let mut library = Library::new();
    for _ in 0..100 {
        assert!(library.get_random_song_id().is_none());
    }
    library.add_song(song("gone"));
    library.clear();
    assert!(library.get_random_song_id().is_none());
    assert!(library.pick_song_id(5).is_none());
}

#[test]
fn library_random_song_is_held() {
    let mut library = Library::new();
    library.add_songs(vec![song("a"), song("b"), song("c")]);
    for _ in 0..100 {
        let id = *library.get_random_song_id().unwrap();
        assert!(library.get_song(&id).is_some());
    }
}

#[test]
fn library_pick_song_id_wraps_modulo_count() {
    let mut library = Library::new();
    library.add_songs(vec![song("a"), song("b"), song("c")]);
    assert_eq!(library.pick_song_id(0), Some(&SongId(0)));
    assert_eq!(library.pick_song_id(4), Some(&SongId(1)));
    assert_eq!(library.pick_song_id(8), Some(&SongId(2)));
}

#[test]
fn song_from_file_path_takes_stem_as_title() {
    let path = PathBuf::from("music").join("some_folder").join("more_noise.ogg");
    let song = simple_music_lib::library::song_from_file_path(path.clone()).unwrap();
    assert_eq!(song.title, "more_noise");
    assert_eq!(song.path, path);
    assert!(simple_music_lib::library::song_from_file_path(PathBuf::from("/")).is_none());
}

#[test]
fn playlist_adds_songs_to_end() {
    let mut list = Playlist::new();

    assert_eq!(list.song_count(), 0);

    let id1 = SongId(1);
    let id2 = SongId(2);

    list.add_song(id1);
    list.add_song(id2);

    assert_eq!(list.song_count(), 2);

    assert_eq!(list.get_at_index(0).unwrap().1, id1);
    assert_eq!(list.get_at_index(1).unwrap().1, id2);
    assert_eq!(list.get_at_index(2), None);

    let id3 = SongId(3);
    list.add_song(id3);

    assert_eq!(list.get_at_index(2).unwrap().1, id3);
}

#[test]
fn playlist_entry_ids_are_unique() {
    let mut list = Playlist::new();
    let id1 = SongId(1);
    let id2 = SongId(2);

    list.add_song(id1);
    list.add_song(id2);

    assert_ne!(
        list.get_at_index(0).unwrap().0,
        list.get_at_index(1).unwrap().0
    );
}

#[test]
fn playlist_entry_ids_increase_in_call_order() {
    let mut list = Playlist::new();
    let first = list.add_song(SongId(7));
    let second = list.add_song(SongId(7));
    list.clear();
    let third = list.add_song(SongId(7));
    assert_eq!(first, ListEntryId(0));
    assert_eq!(second, ListEntryId(1));
    assert_eq!(third, ListEntryId(2));
}

#[test]
fn playlist_remove_song() {
    let mut list = Playlist::new();

    let id1 = SongId(1);
    let id2 = SongId(2);

    list.add_song(id1);
    list.add_song(id2);

    assert_eq!(list.song_count(), 2);

    list.remove_song(list.get_last_entry().unwrap().0);

    assert_eq!(list.song_count(), 1);

    assert_eq!(list.get_first_entry().unwrap().1, id1);
}

#[test]
fn playlist_remove_unknown_entry_is_no_op() {
    let mut list = Playlist::new();
    list.add_songs(vec![SongId(1), SongId(2)]);
    list.remove_song(ListEntryId(9));
    assert_eq!(list.get_song_ids(), vec![SongId(1), SongId(2)]);
}

#[test]
fn playlist_remove_song_by_index() {
    let mut list = Playlist::new();
    list.add_songs(vec![SongId(1), SongId(2), SongId(3)]);
    list.remove_song_by_index(1);
    assert_eq!(list.get_song_ids(), vec![SongId(1), SongId(3)]);
    list.remove_song_by_index(5);
    assert_eq!(list.get_song_ids(), vec![SongId(1), SongId(3)]);
}

#[test]
fn playlist_get_song_index() {
    let mut list = Playlist::new();
    let a = list.add_song(SongId(1));
    let b = list.add_song(SongId(2));
    assert_eq!(list.get_song_index(a), Some(0));
    assert_eq!(list.get_song_index(b), Some(1));
    list.remove_song(a);
    assert_eq!(list.get_song_index(a), None);
    assert_eq!(list.get_song_index(b), Some(0));
}

#[test]
fn playlist_get_last_entry() {
    let mut list = Playlist::new();

    let id1 = SongId(1);
    let id2 = SongId(2);

    list.add_song(id1);
    list.add_song(id2);

    assert_eq!(list.get_last_entry().unwrap().1, id2);
}

#[test]
fn playlist_first_and_last_of_empty_are_absent() {
    let list = Playlist::new();
    assert_eq!(list.get_first_entry(), None);
    assert_eq!(list.get_last_entry(), None);
    assert_eq!(list.length(), 0);
}

#[test]
fn playlist_add_songs_round_trip() {
    let mut list = Playlist::new();
    let (a, b, c) = (SongId(10), SongId(20), SongId(30));
    list.add_songs(vec![a, b, c]);
    assert_eq!(list.get_song_ids(), vec![a, b, c]);
    let entries: Vec<ListEntryId> = list.song_ids().iter().map(|e| e.0).collect();
    assert_eq!(entries, vec![ListEntryId(0), ListEntryId(1), ListEntryId(2)]);
}

#[test]
fn playlist_move_from_index_to_target_index() {
    let mut list = Playlist::new();

    let id1 = SongId(1);
    let id2 = SongId(2);
    let id3 = SongId(3);
    let id4 = SongId(4);

    list.add_song(id1);
    list.add_song(id2);
    list.add_song(id3);
    list.add_song(id4);

    assert_eq!(list.get_song_ids(), vec![id1, id2, id3, id4]);

    list.move_from_index_to_target_index(3, 1);
    assert_eq!(list.get_song_ids(), vec![id1, id4, id2, id3]);

    list.move_from_index_to_target_index(17, 1);
    assert_eq!(list.get_song_ids(), vec![id1, id4, id2, id3]);

    list.move_from_index_to_target_index(0, 1);
    assert_eq!(list.get_song_ids(), vec![id4, id1, id2, id3]);

    list.move_from_index_to_target_index(0, 2);
    assert_eq!(list.get_song_ids(), vec![id1, id2, id4, id3]);
}

#[test]
fn playlist_move_to_out_of_range_target_is_no_op() {
    let mut list = Playlist::new();
    list.add_songs(vec![SongId(1), SongId(2), SongId(3)]);
    list.move_from_index_to_target_index(0, 3);
    assert_eq!(list.get_song_ids(), vec![SongId(1), SongId(2), SongId(3)]);
    list.move_from_index_to_target_index(0, 2);
    assert_eq!(list.get_song_ids(), vec![SongId(2), SongId(3), SongId(1)]);
}

#[test]
fn playlist_get_next_entry_returns_none_when_no_songs() {
    let list = Playlist::new();

    assert_eq!(list.get_next_entry(ListEntryId(0)), None);
}

#[test]
fn playlist_get_next_entry_returns_next_entry() {
    let mut list = Playlist::new();

    let id1 = SongId(1);
    let id2 = SongId(2);
    let id3 = SongId(3);
    let id4 = SongId(4);

    list.add_song(id1);
    list.add_song(id2);
    list.add_song(id3);
    list.add_song(id4);

    let first = list.get_first_entry().unwrap();
    assert_eq!(first.1, id1);

    let next = list.get_next_entry(first.0).unwrap();
    assert_eq!(next.1, id2);
    let next = list.get_next_entry(next.0).unwrap();
    assert_eq!(next.1, id3);
    let next = list.get_next_entry(next.0).unwrap();
    assert_eq!(next.1, id4);

    // `get_next_entry` wraps when at the end.
    let should_be_first = list.get_next_entry(next.0).unwrap();
    assert_eq!(should_be_first.1, id1);
}

#[test]
fn playlist_get_previous_entry_returns_previous_entry() {
    let mut list = Playlist::new();

    let id1 = SongId(1);
    let id2 = SongId(2);
    let id3 = SongId(3);
    let id4 = SongId(4);

    list.add_song(id1);
    list.add_song(id2);
    list.add_song(id3);
    list.add_song(id4);

    let last = list.get_last_entry().unwrap();
    assert_eq!(last.1, id4);

    let prev = list.get_previous_entry(last.0).unwrap();
    assert_eq!(prev.1, id3);
    let prev = list.get_previous_entry(prev.0).unwrap();
    assert_eq!(prev.1, id2);
    let prev = list.get_previous_entry(prev.0).unwrap();
    assert_eq!(prev.1, id1);

    // `get_previous_entry` wraps when at the start.
    assert_eq!(list.get_previous_entry(prev.0).unwrap().1, id4);
}

#[test]
fn playlist_next_cycle_from_first_returns_after_four_steps() {
    let mut list = Playlist::new();
    list.add_songs(vec![SongId(1), SongId(2), SongId(3), SongId(4)]);
    let start = list.get_first_entry().unwrap();
    let mut seen = Vec::new();
    let mut cur = start.0;
    for _ in 0..4 {
        let next = list.get_next_entry(cur).unwrap();
        seen.push((next.1, next.2));
        cur = next.0;
    }
    assert_eq!(
        seen,
        vec![(SongId(2), 1), (SongId(3), 2), (SongId(4), 3), (SongId(1), 0)]
    );
    assert_eq!(cur, start.0);
}

#[test]
fn playlist_previous_cycle_from_first_is_reverse() {
    let mut list = Playlist::new();
    list.add_songs(vec![SongId(1), SongId(2), SongId(3), SongId(4)]);
    let start = list.get_first_entry().unwrap();
    let mut seen = Vec::new();
    let mut cur = start.0;
    for _ in 0..4 {
        let prev = list.get_previous_entry(cur).unwrap();
        seen.push(prev.1);
        cur = prev.0;
    }
    assert_eq!(seen, vec![SongId(4), SongId(3), SongId(2), SongId(1)]);
}

#[test]
fn playlist_navigation_from_removed_entry_is_absent() {
    let mut list = Playlist::new();
    let a = list.add_song(SongId(1));
    list.add_song(SongId(2));
    list.remove_song(a);
    assert_eq!(list.get_next_entry(a), None);
    assert_eq!(list.get_previous_entry(a), None);
}
