use subset_album::client::ClientState;
use subset_album::messages::{ClientMessage, Info};
use subset_album::song_data::Song;

fn song(name: &str, path: &str) -> Song {
    Song { name: name.to_string(), path: path.to_string(), unique: false }
}

fn add_song(artist: &str, album: &str, s: Song) -> ClientMessage {
    ClientMessage::AddSong(artist.to_string(), album.to_string(), s)
}

#[test]
fn fresh_state_is_empty() {
    let s = ClientState::new();
    assert_eq!(s.artist_loading.current, 0);
    assert_eq!(s.artist_loading.total, 0);
    assert_eq!(s.info_loading.current, 0);
    assert_eq!(s.info_loading.total, 0);
    assert!(s.artists.is_empty());
    assert!(s.info.is_empty());
    assert!(s.artist_paths.is_empty());
}

#[test]
fn songs_fold_into_the_tree() {
    let mut s = ClientState::new();
    s.apply_message(ClientMessage::ArtistLoadingAdd);
    s.apply_message(ClientMessage::ArtistLoadingAdd);
    assert_eq!(s.artist_loading.total, 2);
    assert_eq!(s.artist_loading.current, 0);
    s.apply_message(add_song("X", "Hits", song("A", "x/h/a.mp3")));
    s.apply_message(add_song("X", "Hits", song("B", "x/h/b.mp3")));
    assert_eq!(s.artist_loading.current, 2);
    assert_eq!(s.artists.len(), 1);
    assert_eq!(s.artists[0].0, "X");
    assert_eq!(s.artists[0].1.len(), 1);
    assert_eq!(s.artists[0].1[0].0, "Hits");
    assert_eq!(s.artists[0].1[0].1.len(), 2);
    assert_eq!(s.artists[0].1[0].1[0].name, "A");
    assert_eq!(s.artists[0].1[0].1[1].name, "B");
}

#[test]
fn artist_and_album_keys_stay_sorted() {
    let mut s = ClientState::new();
    for _ in 0..4 {
        s.apply_message(ClientMessage::ArtistLoadingAdd);
    }
    s.apply_message(add_song("Zed", "Later", song("A", "p1")));
    s.apply_message(add_song("Ann", "Early", song("B", "p2")));
    s.apply_message(add_song("Zed", "Apart", song("C", "p3")));
    let artists: Vec<&str> = s.artists.iter().map(|a| a.0.as_str()).collect();
    assert_eq!(artists, vec!["Ann", "Zed"]);
    let zed_albums: Vec<&str> = s.artists[1].1.iter().map(|a| a.0.as_str()).collect();
    assert_eq!(zed_albums, vec!["Apart", "Later"]);
}

#[test]
fn stale_song_event_is_dropped_whole() {
    let mut s = ClientState::new();
    s.apply_message(add_song("X", "Hits", song("A", "p")));
    assert_eq!(s.artist_loading.current, 0);
    assert_eq!(s.artist_loading.total, 0);
    assert!(s.artists.is_empty());
}

#[test]
fn counters_never_exceed_their_totals() {
    let mut s = ClientState::new();
    s.apply_message(ClientMessage::InfoLoadingDone);
    assert_eq!(s.info_loading.current, 0);
    s.apply_message(ClientMessage::InfoLoadingAdd);
    s.apply_message(ClientMessage::InfoLoadingDone);
    s.apply_message(ClientMessage::InfoLoadingDone);
    assert_eq!(s.info_loading.current, 1);
    assert_eq!(s.info_loading.total, 1);
    assert!(s.artist_loading.current <= s.artist_loading.total);
    assert!(s.info_loading.current <= s.info_loading.total);
}

#[test]
fn findings_fold_into_the_info_tree() {
    let mut s = ClientState::new();
    s.apply_message(ClientMessage::AddInfo(
        "X".to_string(),
        "Hits".to_string(),
        Info::Empty,
    ));
    s.apply_message(ClientMessage::AddInfo(
        "X".to_string(),
        "Hits".to_string(),
        Info::Subset("Hits".to_string(), "More".to_string()),
    ));
    assert_eq!(s.info.len(), 1);
    assert_eq!(s.info[0].0, "X");
    assert_eq!(s.info[0].1.len(), 1);
    assert_eq!(s.info[0].1[0].0, "Hits");
    assert_eq!(
        s.info[0].1[0].1,
        vec![Info::Empty, Info::Subset("Hits".to_string(), "More".to_string())],
    );
}

#[test]
fn artist_paths_are_recorded_and_replaced() {
    let mut s = ClientState::new();
    s.apply_message(ClientMessage::AddArtistPath("X".to_string(), "/music/X".to_string()));
    s.apply_message(ClientMessage::AddArtistPath("X".to_string(), "/music2/X".to_string()));
    s.apply_message(ClientMessage::AddArtistPath("A".to_string(), "/music/A".to_string()));
    assert_eq!(
        s.artist_paths,
        vec![
            ("A".to_string(), "/music/A".to_string()),
            ("X".to_string(), "/music2/X".to_string()),
        ],
    );
}

#[test]
fn discard_gives_back_exactly_the_discarded_counts() {
    let mut s = ClientState::new();
    for _ in 0..3 {
        s.apply_message(ClientMessage::ArtistLoadingAdd);
    }
    s.apply_message(add_song("X", "Hits", song("A", "p1")));
    s.apply_message(add_song("X", "Hits", song("B", "p2")));
    s.apply_message(add_song("Y", "Solo", song("C", "p3")));
    s.apply_message(ClientMessage::InfoLoadingAdd);
    s.apply_message(ClientMessage::InfoLoadingAdd);
    s.apply_message(ClientMessage::InfoLoadingDone);
    s.apply_message(ClientMessage::AddInfo("X".to_string(), "Hits".to_string(), Info::Empty));

    s.discard_artist("X");
    assert_eq!(s.artist_loading.current, 1);
    assert_eq!(s.artist_loading.total, 1);
    assert_eq!(s.info_loading.current, 0);
    assert_eq!(s.info_loading.total, 1);
    assert_eq!(s.artists.len(), 1);
    assert_eq!(s.artists[0].0, "Y");
    assert!(s.info.is_empty());
    assert!(s.artist_loading.current <= s.artist_loading.total);
    assert!(s.info_loading.current <= s.info_loading.total);
}

#[test]
fn discard_then_rescan_keeps_totals_consistent() {
    let mut s = ClientState::new();
    s.apply_message(ClientMessage::ArtistLoadingAdd);
    s.apply_message(add_song("X", "Hits", song("A", "p1")));
    s.discard_artist("X");
    assert_eq!(s.artist_loading.current, 0);
    assert_eq!(s.artist_loading.total, 0);
    // The re-scan announces and delivers the song again.
    s.apply_message(ClientMessage::ArtistLoadingAdd);
    s.apply_message(add_song("X", "Hits", song("A", "p1")));
    assert_eq!(s.artist_loading.current, 1);
    assert_eq!(s.artist_loading.total, 1);
    assert_eq!(s.artists.len(), 1);
}

#[test]
fn discard_of_unknown_artist_leaves_song_counters_alone() {
    let mut s = ClientState::new();
    s.apply_message(ClientMessage::ArtistLoadingAdd);
    s.apply_message(add_song("X", "Hits", song("A", "p1")));
    s.discard_artist("Nobody");
    assert_eq!(s.artist_loading.current, 1);
    assert_eq!(s.artist_loading.total, 1);
    assert_eq!(s.artists.len(), 1);
    assert_eq!(s.info_loading.current, 0);
    assert_eq!(s.info_loading.total, 0);
}

#[test]
fn discard_of_unknown_artist_gives_no_analysis_unit_back() {
    let mut s = ClientState::new();
    s.apply_message(ClientMessage::ArtistLoadingAdd);
    s.apply_message(add_song("X", "Hits", song("A", "p1")));
    s.apply_message(ClientMessage::InfoLoadingAdd);
    s.apply_message(ClientMessage::InfoLoadingDone);
    s.discard_artist("Nobody");
    assert_eq!(s.info_loading.current, 1);
    assert_eq!(s.info_loading.total, 1);
}

#[test]
fn discard_of_findings_only_artist_gives_unit_back() {
    // An artist whose albums were all empty holds no songs, only findings;
    // discarding it still gives one analysis unit back.
    let mut s = ClientState::new();
    s.apply_message(ClientMessage::InfoLoadingAdd);
    s.apply_message(ClientMessage::InfoLoadingDone);
    s.apply_message(ClientMessage::AddInfo(
        "E".to_string(),
        "Blank".to_string(),
        Info::Empty,
    ));
    s.discard_artist("E");
    assert_eq!(s.info_loading.current, 0);
    assert_eq!(s.info_loading.total, 0);
    assert!(s.info.is_empty());
    assert_eq!(s.artist_loading.current, 0);
    assert_eq!(s.artist_loading.total, 0);
}
