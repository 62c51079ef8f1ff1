use simple_music_lib::config::{default_infinite_buffer, Config};
use simple_music_lib::library::{Library, ListEntryId, Song, SongId};
use simple_music_lib::playlist::Playlist;
use simple_music_lib::views::{
    matches_folded, playback_command, time_parts, title_less_or_equal, volume_level,
    ConfigView, LibraryView, PlaybackCommand, PlaylistView, VolumeLevel,
};
use std::path::PathBuf;

fn library_with(titles: &[&str]) -> Library {
    let mut library = Library::new();
    for t in titles {
        library.add_song(Song {
            title: t.to_string(),
            path: PathBuf::new(),
        });
    }
    library
}

fn titles(items: &[(SongId, Song)]) -> Vec<String> {
    items.iter().map(|(_, s)| s.title.clone()).collect()
}

#[test]
fn library_view_sorts_by_title() {
    let library = library_with(&["noise", "Blaaargh", "more_noise", "Orchestral"]);
    let mut view = LibraryView::new();
    view.update_items(&library);
    assert_eq!(view.item_count(), 4);
    assert_eq!(
        titles(view.filtered_items()),
        vec!["Blaaargh", "Orchestral", "more_noise", "noise"]
    );
    let ids: Vec<SongId> = view.filtered_items().iter().map(|(id, _)| *id).collect();
    assert_eq!(ids, vec![SongId(1), SongId(3), SongId(2), SongId(0)]);
}

#[test]
fn library_view_filters_ignoring_case() {
    let library = library_with(&["Noise", "more NOISE", "Silence"]);
    let mut view = LibraryView::new();
    view.update_items(&library);
    assert!(!view.should_show_library());

    view.update_filter_string("nOiS".to_string());
    assert!(view.should_show_library());
    assert_eq!(view.filter_string(), "nOiS");
    assert_eq!(titles(view.filtered_items()), vec!["Noise", "more NOISE"]);

    view.update_filter_string("xyz".to_string());
    assert!(view.filtered_items().is_empty());

    view.update_filter_string(String::new());
    assert!(!view.should_show_library());
    assert_eq!(view.filtered_items().len(), 3);
}

#[test]
fn matches_folded_finds_runs() {
    assert!(matches_folded("ois", "noise"));
    assert!(matches_folded("", "noise"));
    assert!(!matches_folded("nose", "noise"));
    assert!(!matches_folded("Ois", "noise"));
}

#[test]
fn title_order_is_by_code_point_then_length() {
    assert!(title_less_or_equal(&"B".to_string(), &"a".to_string()));
    assert!(!title_less_or_equal(&"a".to_string(), &"B".to_string()));
    assert!(title_less_or_equal(&"ab".to_string(), &"abc".to_string()));
    assert!(!title_less_or_equal(&"abc".to_string(), &"ab".to_string()));
    assert!(title_less_or_equal(&"same".to_string(), &"same".to_string()));
    assert!(title_less_or_equal(&String::new(), &String::new()));
}

#[test]
fn config_defaults() {
    let config = Config::default();
    assert!(!config.infinite_playlist);
    assert_eq!(config.infinite_playlist_song_buffer, 4);
    assert_eq!(config.infinite_playlist_song_rear_buffer, 4);
    assert_eq!(default_infinite_buffer(), 4);
    assert_eq!(config.library_directory, PathBuf::new());
}

#[test]
fn config_view_opens() {
    let mut view = ConfigView::new();
    assert!(!view.window_open());
    view.open_window();
    assert!(view.window_open());
}

#[test]
fn playlist_view_moves_dragged_entry() {
    let mut list = Playlist::new();
    list.add_songs(vec![SongId(1), SongId(2), SongId(3)]);
    let mut view = PlaylistView::new();

    view.move_dragged_item(&mut list, Some(0));
    assert_eq!(list.get_song_ids(), vec![SongId(1), SongId(2), SongId(3)]);

    view.start_drag(ListEntryId(2), 2);
    view.move_dragged_item(&mut list, None);
    assert_eq!(view.dragged_item(), Some((ListEntryId(2), 2)));

    view.move_dragged_item(&mut list, Some(0));
    assert_eq!(list.get_song_ids(), vec![SongId(3), SongId(1), SongId(2)]);
    assert_eq!(view.dragged_item(), Some((ListEntryId(2), 0)));

    view.stop_drag();
    assert_eq!(view.dragged_item(), None);
}

#[test]
fn volume_level_thresholds() {
    assert_eq!(volume_level(0), VolumeLevel::Low);
    assert_eq!(volume_level(33), VolumeLevel::Low);
    assert_eq!(volume_level(34), VolumeLevel::Mid);
    assert_eq!(volume_level(66), VolumeLevel::Mid);
    assert_eq!(volume_level(67), VolumeLevel::High);
    assert_eq!(volume_level(100), VolumeLevel::High);
}

#[test]
fn playback_command_priorities() {
    assert!(playback_command(false, false, true, false, 50, 50).is_none());
    assert!(matches!(
        playback_command(true, false, true, false, 50, 50),
        Some(PlaybackCommand::PreviousSong)
    ));
    assert!(matches!(
        playback_command(true, true, true, false, 50, 50),
        Some(PlaybackCommand::Unpause)
    ));
    assert!(matches!(
        playback_command(false, true, false, false, 50, 50),
        Some(PlaybackCommand::Pause)
    ));
    assert!(matches!(
        playback_command(true, true, false, true, 50, 50),
        Some(PlaybackCommand::NextSong)
    ));
    assert!(matches!(
        playback_command(true, true, false, true, 50, 20),
        Some(PlaybackCommand::SetVolume(20))
    ));
}

#[test]
fn time_parts_splits_seconds() {
    assert_eq!(time_parts(0), (0, 0, 0));
    assert_eq!(time_parts(59), (0, 0, 59));
    assert_eq!(time_parts(3661), (1, 1, 1));
    assert_eq!(time_parts(7325), (2, 2, 5));
}
