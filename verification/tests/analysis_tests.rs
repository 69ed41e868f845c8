use subset_album::analysis::analyze_artist;
use subset_album::messages::Info;
use subset_album::song_data::{missing, Song};

fn song(name: &str, path: &str) -> Song {
    Song { name: name.to_string(), path: path.to_string(), unique: false }
}

fn unique_song(name: &str, path: &str) -> Song {
    Song { name: name.to_string(), path: path.to_string(), unique: true }
}

fn album(name: &str, songs: Vec<Song>) -> (String, Vec<Song>) {
    (name.to_string(), songs)
}

#[test]
fn singles_is_subset_greatest_hits_is_partial() {
    let albums = vec![
        album("Greatest Hits", vec![song("A", "g/a"), song("B", "g/b"), song("C", "g/c")]),
        album("Singles", vec![song("A", "s/a"), song("B", "s/b")]),
    ];
    let findings = analyze_artist(&albums);
    assert_eq!(
        findings,
        vec![
            (
                "Greatest Hits".to_string(),
                Info::PartialSubset(
                    "Greatest Hits".to_string(),
                    "Singles".to_string(),
                    vec!["A".to_string(), "B".to_string()],
                ),
            ),
            (
                "Singles".to_string(),
                Info::Subset("Singles".to_string(), "Greatest Hits".to_string()),
            ),
        ],
    );
}

#[test]
fn empty_album_yields_exactly_empty() {
    let albums = vec![
        album("Blank", vec![]),
        album("Full", vec![song("A", "f/a")]),
    ];
    let findings = analyze_artist(&albums);
    assert_eq!(findings, vec![("Blank".to_string(), Info::Empty)]);
}

#[test]
fn zero_overlap_yields_nothing() {
    let albums = vec![
        album("One", vec![song("A", "1/a")]),
        album("Two", vec![song("B", "2/b")]),
    ];
    let findings = analyze_artist(&albums);
    assert_eq!(findings, vec![]);
}

#[test]
fn missing_title_lists_paths_not_names() {
    let albums = vec![
        album("Damaged", vec![song(missing(), "d/one.mp3"), song("Fine", "d/two.mp3"), song(missing(), "d/three.mp3")]),
    ];
    let findings = analyze_artist(&albums);
    assert_eq!(
        findings,
        vec![
            (
                "Damaged".to_string(),
                Info::MissingTitle(vec!["d/one.mp3".to_string(), "d/three.mp3".to_string()]),
            ),
        ],
    );
}

#[test]
fn no_missing_title_when_all_names_resolved() {
    let albums = vec![album("Clean", vec![song("A", "c/a"), song("B", "c/b")])];
    let findings = analyze_artist(&albums);
    assert_eq!(findings, vec![]);
}

#[test]
fn unique_songs_never_overlap() {
    let albums = vec![
        album("First", vec![unique_song("A", "1/a")]),
        album("Second", vec![unique_song("A", "2/a"), song("B", "2/b")]),
    ];
    let findings = analyze_artist(&albums);
    assert_eq!(findings, vec![]);
}

#[test]
fn identical_albums_are_mutual_subsets() {
    let albums = vec![
        album("Left", vec![song("A", "l/a"), song("B", "l/b")]),
        album("Right", vec![song("B", "r/b"), song("A", "r/a")]),
    ];
    let findings = analyze_artist(&albums);
    assert_eq!(
        findings,
        vec![
            ("Left".to_string(), Info::Subset("Left".to_string(), "Right".to_string())),
            ("Right".to_string(), Info::Subset("Right".to_string(), "Left".to_string())),
        ],
    );
}

#[test]
fn findings_keep_emission_order_for_one_album() {
    // An empty-ish album with missing titles: Empty and MissingTitle come
    // before any subset finding, and an empty album skips subset checks.
    let albums = vec![
        album("Bad", vec![song(missing(), "b/x.mp3"), song("Hit", "b/y.mp3")]),
        album("Other", vec![song("Hit", "o/y.mp3")]),
    ];
    let findings = analyze_artist(&albums);
    assert_eq!(
        findings,
        vec![
            ("Bad".to_string(), Info::MissingTitle(vec!["b/x.mp3".to_string()])),
            (
                "Bad".to_string(),
                Info::PartialSubset(
                    "Bad".to_string(),
                    "Other".to_string(),
                    vec!["Hit".to_string()],
                ),
            ),
            ("Other".to_string(), Info::Subset("Other".to_string(), "Bad".to_string())),
        ],
    );
}

#[test]
fn missing_titles_can_match_each_other() {
    // Two songs that both degraded to the sentinel count as equal for the
    // subset rule, like any other equal names.
    let albums = vec![
        album("P", vec![song(missing(), "p/a.mp3")]),
        album("Q", vec![song(missing(), "q/a.mp3")]),
    ];
    let findings = analyze_artist(&albums);
    assert_eq!(
        findings,
        vec![
            ("P".to_string(), Info::MissingTitle(vec!["p/a.mp3".to_string()])),
            ("P".to_string(), Info::Subset("P".to_string(), "Q".to_string())),
            ("Q".to_string(), Info::MissingTitle(vec!["q/a.mp3".to_string()])),
            ("Q".to_string(), Info::Subset("Q".to_string(), "P".to_string())),
        ],
    );
}

#[test]
fn analysis_is_idempotent() {
    let albums = vec![
        album("Greatest Hits", vec![song("A", "g/a"), song("B", "g/b"), song("C", "g/c")]),
        album("Singles", vec![song("A", "s/a"), song(missing(), "s/b")]),
        album("Void", vec![]),
    ];
    let first = analyze_artist(&albums);
    let second = analyze_artist(&albums);
    assert_eq!(first, second);
}
