use subset_album::song_data::{is_song, missing, Song};
use std::cmp::Ordering;

fn song(name: &str, path: &str, unique: bool) -> Song {
    Song { name: name.to_string(), path: path.to_string(), unique }
}

#[test]
fn recognizes_common_audio_extensions() {
    assert!(is_song("track.mp3"));
    assert!(is_song("track.flac"));
    assert!(is_song("track.wav"));
    assert!(is_song("track.m4a"));
    assert!(is_song("track.ogg"));
    assert!(is_song("track.opus"));
    assert!(is_song("track.wma"));
    assert!(is_song("track.aac"));
    assert!(is_song("track.8svx"));
    assert!(is_song("track.cda"));
}

#[test]
fn rejects_other_names() {
    assert!(!is_song("track.txt"));
    assert!(!is_song("track"));
    assert!(!is_song(""));
    assert!(!is_song("mp3"));
    assert!(!is_song("track.mp38"));
    assert!(!is_song("track.mp3.bak"));
}

#[test]
fn extension_alone_is_a_match() {
    assert!(is_song(".mp3"));
    assert!(is_song(".opus"));
}

#[test]
fn deep_names_still_match() {
    assert!(is_song("artist/album/disc 1/01 - intro.flac"));
}

#[test]
fn equal_names_make_equal_songs() {
    let a = song("Hello", "p1", false);
    let b = song("Hello", "p2", false);
    assert!(a == b);
}

#[test]
fn different_names_make_unequal_songs() {
    let a = song("Hello", "p1", false);
    let b = song("hello", "p1", false);
    assert!(a != b);
}

#[test]
fn unique_song_equals_no_song() {
    let a = song("Hello", "p1", true);
    let b = song("Hello", "p2", false);
    let c = song("Hello", "p3", true);
    assert!(a != b);
    assert!(b != a);
    assert!(a != c);
}

#[test]
fn ordering_is_by_name() {
    let a = song("Abc", "p1", false);
    let b = song("Bcd", "p2", false);
    assert_eq!(a.cmp(&b), Ordering::Less);
    assert_eq!(b.cmp(&a), Ordering::Greater);
    assert_eq!(a.cmp(&a.clone()), Ordering::Equal);
    assert_eq!(a.partial_cmp(&b), Some(Ordering::Less));
}

#[test]
fn prefix_orders_before_extension() {
    let a = song("Ab", "p1", false);
    let b = song("Abc", "p2", false);
    assert_eq!(a.cmp(&b), Ordering::Less);
}

#[test]
fn unique_compares_equal_as_tie_break() {
    let a = song("Abc", "p1", true);
    let b = song("Bcd", "p2", false);
    assert_eq!(a.cmp(&b), Ordering::Equal);
    assert_eq!(b.cmp(&a), Ordering::Equal);
}

#[test]
fn partial_cmp_agrees_with_cmp_on_unique_songs() {
    let a = song("Abc", "p1", true);
    let b = song("Bcd", "p2", false);
    assert_eq!(a.partial_cmp(&b), Some(Ordering::Equal));
    assert_eq!(b.partial_cmp(&a), Some(Ordering::Equal));
    assert_eq!(a.partial_cmp(&b), Some(a.cmp(&b)));
}

#[test]
fn missing_sentinel_value() {
    assert_eq!(missing(), "-- MISSING TITLE --");
}
