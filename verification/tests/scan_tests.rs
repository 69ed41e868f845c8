use subset_album::scan::{build_albums, collect_songs, resolve_album, resolve_song, FsTree, TagData};
use subset_album::song_data::missing;

fn file(name: &str, path: &str) -> FsTree {
    FsTree::File { name: name.to_string(), path: path.to_string() }
}

fn dir(name: &str, path: &str, entries: Vec<FsTree>) -> FsTree {
    FsTree::Dir { name: name.to_string(), path: path.to_string(), entries }
}

#[test]
fn nested_files_counted_exactly_once() {
    let tree = dir(
        "Album",
        "r/Album",
        vec![
            file("01.mp3", "r/Album/01.mp3"),
            dir(
                "disc2",
                "r/Album/disc2",
                vec![
                    file("02.flac", "r/Album/disc2/02.flac"),
                    dir(
                        "bonus",
                        "r/Album/disc2/bonus",
                        vec![file("03.ogg", "r/Album/disc2/bonus/03.ogg")],
                    ),
                    file("cover.jpg", "r/Album/disc2/cover.jpg"),
                ],
            ),
            file("notes.txt", "r/Album/notes.txt"),
        ],
    );
    let songs = collect_songs(&tree);
    let paths: Vec<&str> = songs.iter().map(|s| s.path.as_str()).collect();
    assert_eq!(
        paths,
        vec!["r/Album/01.mp3", "r/Album/disc2/02.flac", "r/Album/disc2/bonus/03.ogg"],
    );
    for s in &songs {
        assert_eq!(s.name, missing());
        assert!(!s.unique);
    }
}

#[test]
fn empty_directory_collects_nothing() {
    let tree = dir("Album", "r/Album", vec![]);
    let songs = collect_songs(&tree);
    assert!(songs.is_empty());
}

#[test]
fn artist_level_files_are_skipped() {
    let entries = vec![
        file("stray.mp3", "r/stray.mp3"),
        dir("Album", "r/Album", vec![file("a.mp3", "r/Album/a.mp3")]),
    ];
    let albums = build_albums(&entries);
    assert_eq!(albums.len(), 1);
    assert_eq!(albums[0].0, "Album");
    assert_eq!(albums[0].1.len(), 1);
    assert_eq!(albums[0].1[0].path, "r/Album/a.mp3");
}

#[test]
fn album_map_is_sorted_by_name() {
    let entries = vec![
        dir("Zeta", "r/Zeta", vec![file("z.mp3", "r/Zeta/z.mp3")]),
        dir("Alpha", "r/Alpha", vec![]),
        dir("Mid", "r/Mid", vec![file("m.wav", "r/Mid/m.wav")]),
    ];
    let albums = build_albums(&entries);
    let names: Vec<&str> = albums.iter().map(|a| a.0.as_str()).collect();
    assert_eq!(names, vec!["Alpha", "Mid", "Zeta"]);
}

#[test]
fn failed_tag_read_degrades_to_sentinel() {
    let s = resolve_song(&"r/x.mp3".to_string(), &None);
    assert_eq!(s.name, missing());
    assert_eq!(s.path, "r/x.mp3");
    assert!(!s.unique);
}

#[test]
fn title_and_unique_comment_are_taken_from_tag() {
    let tag = Some(TagData {
        title: Some("Real Title".to_string()),
        comment: Some("unique".to_string()),
    });
    let s = resolve_song(&"r/x.mp3".to_string(), &tag);
    assert_eq!(s.name, "Real Title");
    assert!(s.unique);
}

#[test]
fn other_comments_do_not_mark_unique() {
    let tag = Some(TagData { title: None, comment: Some("uniqueish".to_string()) });
    let s = resolve_song(&"r/x.mp3".to_string(), &tag);
    assert_eq!(s.name, missing());
    assert!(!s.unique);
}

#[test]
fn resolve_album_keeps_paths_and_order() {
    let placeholders = vec![
        subset_album::song_data::Song {
            name: missing().to_string(),
            path: "r/a.mp3".to_string(),
            unique: false,
        },
        subset_album::song_data::Song {
            name: missing().to_string(),
            path: "r/b.mp3".to_string(),
            unique: false,
        },
    ];
    let tags = vec![
        Some(TagData { title: Some("First".to_string()), comment: None }),
        None,
    ];
    let resolved = resolve_album(&placeholders, &tags);
    assert_eq!(resolved.len(), 2);
    assert_eq!(resolved[0].name, "First");
    assert_eq!(resolved[0].path, "r/a.mp3");
    assert!(!resolved[0].unique);
    assert_eq!(resolved[1].name, missing());
    assert_eq!(resolved[1].path, "r/b.mp3");
}
