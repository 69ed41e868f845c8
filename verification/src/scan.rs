use vstd::prelude::*;
use crate::song_data::{Song, SongV, is_song, is_song_name, missing, missing_title, str_eq};
use crate::assoc::{assoc_insert, insert_into_assoc, sorted_keys, lemma_assoc_insert_sorted};

verus! {

/// An in-memory picture of a directory subtree, as the walker reads it from
/// disk: the entry's name, its full path, and its children when it is a
/// directory.
pub enum FsTree {
    File { name: String, path: String },
    Dir { name: String, path: String, entries: Vec<FsTree> },
}

/// The paths of the song files under one tree node, in traversal order.
pub open spec fn song_files(t: FsTree) -> Seq<Seq<char>>
    decreases t,
{
    match t {
        FsTree::File { name, path } => if is_song_name(name@) {
            seq![path@]
        } else {
            Seq::empty()
        },
        FsTree::Dir { entries, .. } => song_files_list(entries@),
    }
}

/// The paths of the song files under a list of tree nodes.
pub open spec fn song_files_list(ts: Seq<FsTree>) -> Seq<Seq<char>>
    decreases ts,
{
    if ts.len() == 0 {
        Seq::empty()
    } else {
        song_files_list(ts.drop_last()) + song_files(ts.last())
    }
}

/// The (name, path) of every file under a list of tree nodes, in traversal
/// order, whatever its nesting depth.
pub open spec fn file_entries_list(ts: Seq<FsTree>) -> Seq<(Seq<char>, Seq<char>)>
    decreases ts,
{
    if ts.len() == 0 {
        Seq::empty()
    } else {
        file_entries_list(ts.drop_last()) + file_entries(ts.last())
    }
}

/// The (name, path) of every file under one tree node.
pub open spec fn file_entries(t: FsTree) -> Seq<(Seq<char>, Seq<char>)>
    decreases t,
{
    match t {
        FsTree::File { name, path } => seq![(name@, path@)],
        FsTree::Dir { entries, .. } => file_entries_list(entries@),
    }
}

/// The placeholder song a discovered file starts as: the missing-title
/// sentinel for a name, not opted out of duplicate detection.
pub open spec fn placeholders(paths: Seq<Seq<char>>) -> Seq<SongV> {
    paths.map_values(|p: Seq<char>| SongV { name: missing_title(), path: p, unique: false })
}

/// Collects one placeholder song for every song file under `t`.
#[verifier::loop_isolation(false)]
pub fn collect_songs(t: &FsTree) -> (r: Vec<Song>)
    ensures
        r.deep_view() == placeholders(song_files(*t)),
    decreases *t,
{
    match t {
        FsTree::File { name, path } => {
            let mut out: Vec<Song> = Vec::new();
            if is_song(name.as_str()) {
                out.push(Song { name: missing().to_owned(), path: path.clone(), unique: false });
            }
            proof {
                assert(out.deep_view() =~~= placeholders(song_files(*t)));
            }
            out
        },
        FsTree::Dir { entries, .. } => {
            let mut out: Vec<Song> = Vec::new();
            let mut i: usize = 0;
            proof {
                assert(out.deep_view() =~~= placeholders(song_files_list(entries@.take(0))));
            }
            while i < entries.len()
                invariant
                    i <= entries.len(),
                    out.deep_view() == placeholders(song_files_list(entries@.take(i as int))),
                decreases entries.len() - i,
            {
                let mut sub = collect_songs(&entries[i]);
                let ghost prev = out.deep_view();
                let ghost subv = sub.deep_view();
                out.append(&mut sub);
                proof {
                    assert(entries@.take(i + 1).drop_last() =~= entries@.take(i as int));
                    assert(entries@.take(i + 1).last() == entries@[i as int]);
                    assert forall|k: int|
                        0 <= k < out@.len() implies out.deep_view()[k] == (prev + subv)[k] by {
                        assert(out.deep_view()[k] == out@[k].deep_view());
                    }
                    assert(out.deep_view() =~= prev + subv);
                    assert(prev + subv =~~= placeholders(song_files_list(entries@.take(i + 1))));
                }
                i += 1;
            }
            proof {
                assert(entries@.take(entries@.len() as int) =~= entries@);
            }
            out
        },
    }
}

/// The album map an artist directory starts as: every child directory becomes
/// an album, keyed by its name in sorted order, holding one placeholder song
/// per nested song file; a plain file at artist level is skipped, not an
/// error.
pub open spec fn albums_of(ts: Seq<FsTree>) -> Seq<(Seq<char>, Seq<SongV>)>
    decreases ts,
{
    if ts.len() == 0 {
        Seq::empty()
    } else {
        let rest = albums_of(ts.drop_last());
        match ts.last() {
            FsTree::File { .. } => rest,
            FsTree::Dir { name, entries, .. } => assoc_insert(
                rest,
                name@,
                placeholders(song_files_list(entries@)),
            ),
        }
    }
}

/// Builds the placeholder album map of one artist directory from its entries.
#[verifier::loop_isolation(false)]
pub fn build_albums(entries: &Vec<FsTree>) -> (r: Vec<(String, Vec<Song>)>)
    ensures
        r.deep_view() == albums_of(entries@),
{
    let mut out: Vec<(String, Vec<Song>)> = Vec::new();
    let mut i: usize = 0;
    proof {
        assert(out.deep_view() =~~= albums_of(entries@.take(0)));
    }
    while i < entries.len()
        invariant
            i <= entries.len(),
            out.deep_view() == albums_of(entries@.take(i as int)),
        decreases entries.len() - i,
    {
        match &entries[i] {
            FsTree::File { .. } => {
            },
            FsTree::Dir { name, .. } => {
                let songs = collect_songs(&entries[i]);
                insert_into_assoc(&mut out, name.clone(), songs);
            },
        }
        proof {
            assert(entries@.take(i + 1).drop_last() =~= entries@.take(i as int));
            assert(entries@.take(i + 1).last() == entries@[i as int]);
            assert(out.deep_view() == albums_of(entries@.take(i + 1)));
        }
        i += 1;
    }
    proof {
        assert(entries@.take(entries@.len() as int) =~= entries@);
    }
    out
}

/// The album map of an artist directory keeps its keys in strictly sorted
/// order, so every album name appears once and the analysis walks the albums
/// deterministically.
pub proof fn lemma_albums_of_sorted(ts: Seq<FsTree>)
    ensures
        sorted_keys(albums_of(ts)),
    decreases ts,
{
    if ts.len() > 0 {
        lemma_albums_of_sorted(ts.drop_last());
        match ts.last() {
            FsTree::File { .. } => {
            },
            FsTree::Dir { name, entries, .. } => {
                lemma_assoc_insert_sorted(
                    albums_of(ts.drop_last()),
                    name@,
                    placeholders(song_files_list(entries@)),
                );
            },
        }
    }
}

/// What the tag-reading capability hands back for one file, as plain values:
/// the embedded title and comment, when present.
pub struct TagData {
    pub title: Option<String>,
    pub comment: Option<String>,
}

/// The name a song resolves to: the embedded title when the tag could be read
/// and holds one, the missing-title sentinel otherwise.
pub open spec fn resolved_name(tag: Option<TagData>) -> Seq<char> {
    match tag {
        Some(t) => match t.title {
            Some(ti) => ti@,
            None => missing_title(),
        },
        None => missing_title(),
    }
}

/// A song is marked unique exactly when its tag could be read and its comment
/// is the literal string "unique".
pub open spec fn resolved_unique(tag: Option<TagData>) -> bool {
    match tag {
        Some(t) => match t.comment {
            Some(c) => c@ == "unique"@,
            None => false,
        },
        None => false,
    }
}

/// Resolves one song from its file path and the outcome of reading its tag;
/// a failed or incomplete tag read degrades to the sentinel, never to an
/// error.
pub fn resolve_song(path: &String, tag: &Option<TagData>) -> (s: Song)
    ensures
        s@ == (SongV { name: resolved_name(*tag), path: path@, unique: resolved_unique(*tag) }),
{
    let name: String = match tag {
        Some(t) => match &t.title {
            Some(ti) => ti.clone(),
            None => missing().to_owned(),
        },
        None => missing().to_owned(),
    };
    let unique: bool = match tag {
        Some(t) => match &t.comment {
            Some(c) => str_eq(c.as_str(), "unique"),
            None => false,
        },
        None => false,
    };
    Song { name, path: path.clone(), unique }
}

/// Resolves one album's placeholder songs against the per-song tag read
/// outcomes, in order: paths are kept, names and uniqueness come from the
/// tags.
#[verifier::loop_isolation(false)]
pub fn resolve_album(songs: &Vec<Song>, tags: &Vec<Option<TagData>>) -> (r: Vec<Song>)
    requires
        songs@.len() == tags@.len(),
    ensures
        r.deep_view().len() == songs.deep_view().len(),
        forall|k: int|
            0 <= k < songs.deep_view().len() ==> r.deep_view()[k] == (SongV {
                name: resolved_name(tags@[k]),
                path: songs.deep_view()[k].path,
                unique: resolved_unique(tags@[k]),
            }),
{
    let mut out: Vec<Song> = Vec::new();
    let mut i: usize = 0;
    while i < songs.len()
        invariant
            i <= songs.len(),
            out.deep_view().len() == i,
            forall|k: int|
                0 <= k < i ==> out.deep_view()[k] == (SongV {
                    name: resolved_name(tags@[k]),
                    path: songs.deep_view()[k].path,
                    unique: resolved_unique(tags@[k]),
                }),
        decreases songs.len() - i,
    {
        let ghost prev = out.deep_view();
        let resolved = resolve_song(&songs[i].path, &tags[i]);
        out.push(resolved);
        proof {
            assert(songs.deep_view()[i as int] == songs@[i as int].deep_view());
            assert forall|k: int|
                0 <= k < i + 1 implies out.deep_view()[k] == (SongV {
                    name: resolved_name(tags@[k]),
                    path: songs.deep_view()[k].path,
                    unique: resolved_unique(tags@[k]),
                }) by {
                if k < i {
                    assert(out.deep_view()[k] == prev[k]);
                } else {
                    assert(out.deep_view()[k] == out@[k].deep_view());
                }
            }
        }
        i += 1;
    }
    out
}

/// The paths of the file entries whose name is recognized, one per entry, in
/// order.
pub open spec fn recognized_paths(es: Seq<(Seq<char>, Seq<char>)>) -> Seq<Seq<char>>
    decreases es,
{
    if es.len() == 0 {
        Seq::empty()
    } else {
        recognized_paths(es.drop_last()) + (if is_song_name(es.last().0) {
            seq![es.last().1]
        } else {
            Seq::empty()
        })
    }
}

/// Selecting the recognized paths distributes over concatenation of file
/// lists.
proof fn lemma_recognized_paths_add(a: Seq<(Seq<char>, Seq<char>)>, b: Seq<(Seq<char>, Seq<char>)>)
    ensures
        recognized_paths(a + b) == recognized_paths(a) + recognized_paths(b),
    decreases b.len(),
{
    if b.len() == 0 {
        assert(a + b =~= a);
        assert(recognized_paths(a) + recognized_paths(b) =~= recognized_paths(a));
    } else {
        assert((a + b).drop_last() =~= a + b.drop_last());
        assert((a + b).last() == b.last());
        lemma_recognized_paths_add(a, b.drop_last());
        assert(recognized_paths(a + b) =~= recognized_paths(a) + recognized_paths(b));
    }
}

/// Every file whose name ends in a recognized extension is counted exactly
/// once, whatever its nesting depth: the collected song paths are exactly the
/// recognized entries of the flat file list, one per file entry, in order.
pub proof fn lemma_song_files_exact(ts: Seq<FsTree>)
    ensures
        song_files_list(ts) == recognized_paths(file_entries_list(ts)),
    decreases ts,
{
    if ts.len() > 0 {
        lemma_song_files_exact(ts.drop_last());
        lemma_song_files_exact_node(ts.last());
        lemma_recognized_paths_add(
            file_entries_list(ts.drop_last()),
            file_entries(ts.last()),
        );
    }
}

/// Induction for `lemma_song_files_exact`, over one node.
proof fn lemma_song_files_exact_node(t: FsTree)
    ensures
        song_files(t) == recognized_paths(file_entries(t)),
    decreases t,
{
    match t {
        FsTree::File { name, path } => {
            let es = file_entries(t);
            assert(recognized_paths(Seq::<(Seq<char>, Seq<char>)>::empty())
                == Seq::<Seq<char>>::empty());
            assert(es.drop_last() =~= Seq::<(Seq<char>, Seq<char>)>::empty());
            assert(es.last() == (name@, path@));
            assert(song_files(t) =~= recognized_paths(es));
        },
        FsTree::Dir { entries, .. } => {
            lemma_song_files_exact(entries@);
        },
    }
}

} // verus!
