use std::path::PathBuf;
use vstd::prelude::*;

verus! {

/// Buffer size used when the configuration names none.
pub const DEFAULT_INFINITE_BUFFER: u32 = 4;

/// User settings of the player.
pub struct Config {
    pub library_directory: PathBuf,
    /// An infinite playlist automatically adds and removes songs when it reaches near the end.
    pub infinite_playlist: bool,
    /// How many songs an infinite playlist should keep in buffer in front of the current song.
    pub infinite_playlist_song_buffer: u32,
    /// How many songs an infinite playlist should keep behind the currently playing song,
    /// before removing them from the playlist.
    pub infinite_playlist_song_rear_buffer: u32,
}

pub fn default_infinite_buffer() -> (r: u32)
    ensures
        r == DEFAULT_INFINITE_BUFFER,
{
    DEFAULT_INFINITE_BUFFER
}

impl Default for Config {
    fn default() -> (r: Config)
        ensures
            !r.infinite_playlist,
            r.infinite_playlist_song_buffer == DEFAULT_INFINITE_BUFFER,
            r.infinite_playlist_song_rear_buffer == DEFAULT_INFINITE_BUFFER,
    {
        Config {
            library_directory: PathBuf::new(),
            infinite_playlist: false,
            infinite_playlist_song_buffer: default_infinite_buffer(),
            infinite_playlist_song_rear_buffer: default_infinite_buffer(),
        }
    }
}

/// Relies on PathBuf::new: it creates a path, which is empty.
pub assume_specification[ PathBuf::new ]() -> PathBuf;

} // verus!
