use vstd::prelude::*;
use core::cmp::Ordering;
use crate::song_data::{Song, SongV, lex_cmp, str_eq};
use crate::messages::{ClientMessage, Info, InfoV};
use crate::assoc::{
    first_geq, assoc_find, assoc_insert, assoc_remove, assoc_push, assoc_position,
    insert_into_assoc, push_into_assoc, lemma_lex_cmp_eq, lemma_first_geq_bounds,
    sorted_keys, lemma_assoc_insert_sorted, lemma_assoc_insert_nested_sorted,
    lemma_assoc_remove_sorted,
};

verus! {

/// A progress pair: how much work is done and how much is known in total.
pub struct Progress {
    pub current: usize,
    pub total: usize,
}

/// One artist's albums, at the model level.
pub type AlbumsTreeV = Seq<(Seq<char>, Seq<SongV>)>;

/// All artists and their albums, at the model level.
pub type ArtistsTreeV = Seq<(Seq<char>, AlbumsTreeV)>;

/// Findings per album of one artist, at the model level.
pub type InfoAlbumsV = Seq<(Seq<char>, Seq<InfoV>)>;

/// Findings per artist and album, at the model level.
pub type InfoTreeV = Seq<(Seq<char>, InfoAlbumsV)>;

/// How many songs one artist's albums hold, all albums together.
pub open spec fn songs_in_albums(albums: AlbumsTreeV) -> nat
    decreases albums.len(),
{
    if albums.len() == 0 {
        0
    } else {
        songs_in_albums(albums.drop_last()) + albums.last().1.len()
    }
}

/// How many songs the whole artist tree holds.
pub open spec fn songs_in_artists(arts: ArtistsTreeV) -> nat
    decreases arts.len(),
{
    if arts.len() == 0 {
        0
    } else {
        songs_in_artists(arts.drop_last()) + songs_in_albums(arts.last().1)
    }
}

proof fn lemma_songs_in_albums_add(a: AlbumsTreeV, b: AlbumsTreeV)
    ensures
        songs_in_albums(a + b) == songs_in_albums(a) + songs_in_albums(b),
    decreases b.len(),
{
    if b.len() == 0 {
        assert(a + b =~= a);
    } else {
        assert((a + b).drop_last() =~= a + b.drop_last());
        assert((a + b).last() == b.last());
        lemma_songs_in_albums_add(a, b.drop_last());
    }
}

proof fn lemma_songs_in_artists_add(a: ArtistsTreeV, b: ArtistsTreeV)
    ensures
        songs_in_artists(a + b) == songs_in_artists(a) + songs_in_artists(b),
    decreases b.len(),
{
    if b.len() == 0 {
        assert(a + b =~= a);
    } else {
        assert((a + b).drop_last() =~= a + b.drop_last());
        assert((a + b).last() == b.last());
        lemma_songs_in_artists_add(a, b.drop_last());
    }
}

proof fn lemma_songs_in_albums_singleton(e: (Seq<char>, Seq<SongV>))
    ensures
        songs_in_albums(seq![e]) == e.1.len(),
{
    assert(seq![e].drop_last() =~= Seq::<(Seq<char>, Seq<SongV>)>::empty());
    assert(songs_in_albums(Seq::<(Seq<char>, Seq<SongV>)>::empty()) == 0);
    assert(seq![e].last() == e);
}

proof fn lemma_songs_in_artists_singleton(e: (Seq<char>, AlbumsTreeV))
    ensures
        songs_in_artists(seq![e]) == songs_in_albums(e.1),
{
    assert(seq![e].drop_last() =~= Seq::<(Seq<char>, AlbumsTreeV)>::empty());
    assert(songs_in_artists(Seq::<(Seq<char>, AlbumsTreeV)>::empty()) == 0);
    assert(seq![e].last() == e);
}

/// A prefix of the albums never holds more songs than all of them.
proof fn lemma_songs_in_albums_take_le(albums: AlbumsTreeV, i: int)
    requires
        0 <= i <= albums.len(),
    ensures
        songs_in_albums(albums.take(i)) <= songs_in_albums(albums),
    decreases albums.len(),
{
    if i == albums.len() {
        assert(albums.take(i) =~= albums);
    } else {
        assert(albums.drop_last().take(i) =~= albums.take(i));
        lemma_songs_in_albums_take_le(albums.drop_last(), i);
    }
}

/// Appending one song to one album grows the artist's song count by one.
proof fn lemma_songs_in_push(albums: AlbumsTreeV, album: Seq<char>, song: SongV)
    ensures
        songs_in_albums(assoc_push(albums, album, song)) == songs_in_albums(albums) + 1,
{
    lemma_first_geq_bounds(albums, album);
    let i = first_geq(albums, album);
    let old_items = match assoc_find(albums, album) {
        Some(items) => items,
        None => Seq::<SongV>::empty(),
    };
    let entry = (album, old_items.push(song));
    if i < albums.len() && lex_cmp(albums[i].0, album) == Ordering::Equal {
        assert(albums =~= albums.take(i) + seq![albums[i]] + albums.skip(i + 1));
        lemma_songs_in_albums_add(albums.take(i) + seq![albums[i]], albums.skip(i + 1));
        lemma_songs_in_albums_add(albums.take(i), seq![albums[i]]);
        lemma_songs_in_albums_singleton(albums[i]);
        lemma_songs_in_albums_add(albums.take(i) + seq![entry], albums.skip(i + 1));
        lemma_songs_in_albums_add(albums.take(i), seq![entry]);
        lemma_songs_in_albums_singleton(entry);
    } else {
        assert(albums =~= albums.take(i) + albums.skip(i));
        lemma_songs_in_albums_add(albums.take(i), albums.skip(i));
        lemma_songs_in_albums_add(albums.take(i) + seq![entry], albums.skip(i));
        lemma_songs_in_albums_add(albums.take(i), seq![entry]);
        lemma_songs_in_albums_singleton(entry);
    }
}

/// Rebinding one artist changes the tree's song count by the difference
/// between the new albums and the albums the key held before.
proof fn lemma_songs_in_artists_insert(arts: ArtistsTreeV, key: Seq<char>, value: AlbumsTreeV)
    ensures
        songs_in_artists(assoc_insert(arts, key, value)) as int == songs_in_artists(arts) as int
            - (match assoc_find(arts, key) {
            Some(a) => songs_in_albums(a) as int,
            None => 0,
        }) + songs_in_albums(value) as int,
{
    lemma_first_geq_bounds(arts, key);
    let i = first_geq(arts, key);
    let entry = (key, value);
    if i < arts.len() && lex_cmp(arts[i].0, key) == Ordering::Equal {
        assert(arts =~= arts.take(i) + seq![arts[i]] + arts.skip(i + 1));
        lemma_songs_in_artists_add(arts.take(i) + seq![arts[i]], arts.skip(i + 1));
        lemma_songs_in_artists_add(arts.take(i), seq![arts[i]]);
        lemma_songs_in_artists_singleton(arts[i]);
        lemma_songs_in_artists_add(arts.take(i) + seq![entry], arts.skip(i + 1));
        lemma_songs_in_artists_add(arts.take(i), seq![entry]);
        lemma_songs_in_artists_singleton(entry);
    } else {
        assert(arts =~= arts.take(i) + arts.skip(i));
        lemma_songs_in_artists_add(arts.take(i), arts.skip(i));
        lemma_songs_in_artists_add(arts.take(i) + seq![entry], arts.skip(i));
        lemma_songs_in_artists_add(arts.take(i), seq![entry]);
        lemma_songs_in_artists_singleton(entry);
    }
}

/// Dropping one artist shrinks the tree's song count by that artist's songs.
proof fn lemma_songs_in_artists_remove(arts: ArtistsTreeV, key: Seq<char>)
    ensures
        songs_in_artists(assoc_remove(arts, key)) as int == songs_in_artists(arts) as int - (
        match assoc_find(arts, key) {
            Some(a) => songs_in_albums(a) as int,
            None => 0,
        }),
{
    lemma_first_geq_bounds(arts, key);
    let i = first_geq(arts, key);
    if i < arts.len() && lex_cmp(arts[i].0, key) == Ordering::Equal {
        assert(arts =~= arts.take(i) + seq![arts[i]] + arts.skip(i + 1));
        lemma_songs_in_artists_add(arts.take(i) + seq![arts[i]], arts.skip(i + 1));
        lemma_songs_in_artists_add(arts.take(i), seq![arts[i]]);
        lemma_songs_in_artists_singleton(arts[i]);
        lemma_songs_in_artists_add(arts.take(i), arts.skip(i + 1));
    }
}

/// Counts the songs one artist's albums hold.
#[verifier::loop_isolation(false)]
fn count_songs(albums: &Vec<(String, Vec<Song>)>) -> (n: usize)
    requires
        songs_in_albums(albums.deep_view()) <= usize::MAX,
    ensures
        n as nat == songs_in_albums(albums.deep_view()),
{
    let ghost dv = albums.deep_view();
    let mut n: usize = 0;
    let mut i: usize = 0;
    proof {
        assert(dv.take(0) =~= Seq::<(Seq<char>, Seq<SongV>)>::empty());
    }
    while i < albums.len()
        invariant
            i <= albums@.len(),
            n as nat == songs_in_albums(dv.take(i as int)),
        decreases albums@.len() - i,
    {
        proof {
            assert(dv.take(i + 1).drop_last() =~= dv.take(i as int));
            assert(dv.take(i + 1).last() == dv[i as int]);
            assert(dv[i as int] == albums@[i as int].deep_view());
            lemma_songs_in_albums_take_le(dv, i + 1);
        }
        let entry = &albums[i];
        n = n + entry.1.len();
        i += 1;
    }
    proof {
        assert(dv.take(albums@.len() as int) =~= dv);
    }
    n
}

/// One more, stopping at the largest value a counter can hold.
pub open spec fn bump(x: usize) -> usize {
    if x < usize::MAX {
        (x + 1) as usize
    } else {
        x
    }
}

/// One less, stopping at zero.
pub open spec fn drop_one(x: usize) -> usize {
    if x > 0 {
        (x - 1) as usize
    } else {
        0
    }
}

/// The artist tree after one resolved song arrives for (artist, album).
pub open spec fn tree_push_song(
    arts: ArtistsTreeV,
    artist: Seq<char>,
    album: Seq<char>,
    song: SongV,
) -> ArtistsTreeV {
    let albums = match assoc_find(arts, artist) {
        Some(a) => a,
        None => Seq::empty(),
    };
    assoc_insert(arts, artist, assoc_push(albums, album, song))
}

/// The finding tree after one finding arrives for (artist, album).
pub open spec fn tree_push_info(
    tree: InfoTreeV,
    artist: Seq<char>,
    album: Seq<char>,
    info: InfoV,
) -> InfoTreeV {
    let albums = match assoc_find(tree, artist) {
        Some(a) => a,
        None => Seq::empty(),
    };
    assoc_insert(tree, artist, assoc_push(albums, album, info))
}

/// The presentation layer's private snapshot of the scan: progress counters
/// and the trees of songs, findings and artist paths, rebuilt by folding the
/// event stream and never shared with the background stages.
pub struct ClientState {
    pub artist_loading: Progress,
    pub info_loading: Progress,
    pub artists: Vec<(String, Vec<(String, Vec<Song>)>)>,
    pub info: Vec<(String, Vec<(String, Vec<Info>)>)>,
    pub artist_paths: Vec<(String, String)>,
}

impl ClientState {
    /// Progress counters never exceed their own total and never go negative,
    /// the song-loading count is exactly the number of songs the tree holds,
    /// and every tree keeps its keys strictly sorted at every level, so keys
    /// stay unique.
    pub open spec fn wf(self) -> bool {
        &&& self.artist_loading.current <= self.artist_loading.total
        &&& self.info_loading.current <= self.info_loading.total
        &&& self.artist_loading.current as nat == songs_in_artists(self.artists.deep_view())
        &&& sorted_keys(self.artists.deep_view())
        &&& forall|m: int|
            0 <= m < self.artists.deep_view().len() ==> sorted_keys(
                #[trigger] self.artists.deep_view()[m].1,
            )
        &&& sorted_keys(self.info.deep_view())
        &&& forall|m: int|
            0 <= m < self.info.deep_view().len() ==> sorted_keys(
                #[trigger] self.info.deep_view()[m].1,
            )
        &&& sorted_keys(self.artist_paths.deep_view())
    }

    /// A fresh snapshot: all counters zero, all trees empty.
    pub fn new() -> (s: ClientState)
        ensures
            s.wf(),
            s.artist_loading.current == 0,
            s.artist_loading.total == 0,
            s.info_loading.current == 0,
            s.info_loading.total == 0,
            s.artists.deep_view() == Seq::<(Seq<char>, AlbumsTreeV)>::empty(),
            s.info.deep_view() == Seq::<(Seq<char>, InfoAlbumsV)>::empty(),
            s.artist_paths.deep_view() == Seq::<(Seq<char>, Seq<char>)>::empty(),
    {
        let s = ClientState {
            artist_loading: Progress { current: 0, total: 0 },
            info_loading: Progress { current: 0, total: 0 },
            artists: Vec::new(),
            info: Vec::new(),
            artist_paths: Vec::new(),
        };
        proof {
            assert(s.artists.deep_view() =~= Seq::<(Seq<char>, AlbumsTreeV)>::empty());
            assert(s.info.deep_view() =~= Seq::<(Seq<char>, InfoAlbumsV)>::empty());
            assert(s.artist_paths.deep_view() =~= Seq::<(Seq<char>, Seq<char>)>::empty());
        }
        s
    }

    /// Folds one event into the snapshot. A song arriving while the loading
    /// counter already equals its total belongs to a discarded scan and is
    /// dropped whole, so counters stay consistent.
    pub fn apply_message(&mut self, m: ClientMessage)
        requires
            old(self).wf(),
        ensures
            final(self).wf(),
            match m {
                ClientMessage::ArtistLoadingAdd => {
                    &&& final(self).artist_loading.total == bump(old(self).artist_loading.total)
                    &&& final(self).artist_loading.current == old(self).artist_loading.current
                    &&& final(self).info_loading == old(self).info_loading
                    &&& final(self).artists == old(self).artists
                    &&& final(self).info == old(self).info
                    &&& final(self).artist_paths == old(self).artist_paths
                },
                ClientMessage::InfoLoadingAdd => {
                    &&& final(self).info_loading.total == bump(old(self).info_loading.total)
                    &&& final(self).info_loading.current == old(self).info_loading.current
                    &&& final(self).artist_loading == old(self).artist_loading
                    &&& final(self).artists == old(self).artists
                    &&& final(self).info == old(self).info
                    &&& final(self).artist_paths == old(self).artist_paths
                },
                ClientMessage::InfoLoadingDone => {
                    &&& final(self).info_loading.current == (
                    if old(self).info_loading.current < old(self).info_loading.total {
                        (old(self).info_loading.current + 1) as usize
                    } else {
                        old(self).info_loading.current
                    })
                    &&& final(self).info_loading.total == old(self).info_loading.total
                    &&& final(self).artist_loading == old(self).artist_loading
                    &&& final(self).artists == old(self).artists
                    &&& final(self).info == old(self).info
                    &&& final(self).artist_paths == old(self).artist_paths
                },
                ClientMessage::AddArtistPath(artist, path) => {
                    &&& final(self).artist_paths.deep_view() == assoc_insert(
                        old(self).artist_paths.deep_view(),
                        artist@,
                        path@,
                    )
                    &&& final(self).artist_loading == old(self).artist_loading
                    &&& final(self).info_loading == old(self).info_loading
                    &&& final(self).artists == old(self).artists
                    &&& final(self).info == old(self).info
                },
                ClientMessage::AddSong(artist, album, song) => {
                    if old(self).artist_loading.current < old(self).artist_loading.total {
                        &&& final(self).artists.deep_view() == tree_push_song(
                            old(self).artists.deep_view(),
                            artist@,
                            album@,
                            song@,
                        )
                        &&& final(self).artist_loading.current == old(
                            self,
                        ).artist_loading.current + 1
                        &&& final(self).artist_loading.total == old(self).artist_loading.total
                        &&& final(self).info_loading == old(self).info_loading
                        &&& final(self).info == old(self).info
                        &&& final(self).artist_paths == old(self).artist_paths
                    } else {
                        *final(self) == *old(self)
                    }
                },
                ClientMessage::AddInfo(artist, album, info) => {
                    &&& final(self).info.deep_view() == tree_push_info(
                        old(self).info.deep_view(),
                        artist@,
                        album@,
                        info.deep_view(),
                    )
                    &&& final(self).artist_loading == old(self).artist_loading
                    &&& final(self).info_loading == old(self).info_loading
                    &&& final(self).artists == old(self).artists
                    &&& final(self).artist_paths == old(self).artist_paths
                },
            },
    {
        match m {
            ClientMessage::ArtistLoadingAdd => {
                if self.artist_loading.total < usize::MAX {
                    self.artist_loading.total = self.artist_loading.total + 1;
                }
            },
            ClientMessage::InfoLoadingAdd => {
                if self.info_loading.total < usize::MAX {
                    self.info_loading.total = self.info_loading.total + 1;
                }
            },
            ClientMessage::InfoLoadingDone => {
                if self.info_loading.current < self.info_loading.total {
                    self.info_loading.current = self.info_loading.current + 1;
                }
            },
            ClientMessage::AddArtistPath(artist, path) => {
                let ghost pdv = self.artist_paths.deep_view();
                let ghost keyv = artist@;
                let ghost pathv = path@;
                insert_into_assoc(&mut self.artist_paths, artist, path);
                proof {
                    lemma_assoc_insert_sorted(pdv, keyv, pathv);
                }
            },
            ClientMessage::AddSong(artist, album, song) => {
                self.add_song(artist, album, song);
            },
            ClientMessage::AddInfo(artist, album, info) => {
                let ghost idv = self.info.deep_view();
                let ghost artistv = artist@;
                let ghost albumv = album@;
                let ghost infov = info.deep_view();
                push_info(&mut self.info, artist, album, info);
                proof {
                    lemma_first_geq_bounds(idv, artistv);
                    let albums0 = match assoc_find(idv, artistv) {
                        Some(a) => a,
                        None => Seq::<(Seq<char>, Seq<InfoV>)>::empty(),
                    };
                    if assoc_find(idv, artistv) is Some {
                        assert(sorted_keys(idv[first_geq(idv, artistv)].1));
                    }
                    let items0 = match assoc_find(albums0, albumv) {
                        Some(items) => items,
                        None => Seq::<InfoV>::empty(),
                    };
                    lemma_assoc_insert_sorted(albums0, albumv, items0.push(infov));
                    lemma_assoc_insert_nested_sorted(
                        idv,
                        artistv,
                        assoc_push(albums0, albumv, infov),
                    );
                }
            },
        }
    }

    /// One resolved song arrives: grow the done-count and file the song under
    /// its artist and album, or drop a stale event whole.
    fn add_song(&mut self, artist: String, album: String, song: Song)
        requires
            old(self).wf(),
        ensures
            final(self).wf(),
            if old(self).artist_loading.current < old(self).artist_loading.total {
                &&& final(self).artists.deep_view() == tree_push_song(
                    old(self).artists.deep_view(),
                    artist@,
                    album@,
                    song@,
                )
                &&& final(self).artist_loading.current == old(self).artist_loading.current + 1
                &&& final(self).artist_loading.total == old(self).artist_loading.total
                &&& final(self).info_loading == old(self).info_loading
                &&& final(self).info == old(self).info
                &&& final(self).artist_paths == old(self).artist_paths
            } else {
                *final(self) == *old(self)
            },
    {
        if self.artist_loading.current >= self.artist_loading.total {
            return ;
        }
        let ghost arts = self.artists.deep_view();
        let ghost artistv = artist@;
        let ghost albumv = album@;
        let ghost songv = song@;
        proof {
            lemma_first_geq_bounds(arts, artistv);
        }
        let pos = assoc_position(&self.artists, artist.as_str());
        let found = pos < self.artists.len() && str_eq(
            self.artists[pos].0.as_str(),
            artist.as_str(),
        );
        proof {
            if pos < self.artists@.len() {
                assert(arts[pos as int] == self.artists@[pos as int].deep_view());
                lemma_lex_cmp_eq(arts[pos as int].0, artistv);
            }
        }
        if found {
            let ghost old_albums = arts[pos as int].1;
            let mut entry = self.artists.remove(pos);
            proof {
                assert(entry.deep_view() == arts[pos as int]);
            }
            push_into_assoc(&mut entry.1, album, song);
            let ghost new_albums = entry.1.deep_view();
            self.artists.insert(pos, entry);
            proof {
                assert(self.artists.deep_view() =~~= tree_push_song(
                    arts,
                    artistv,
                    album@,
                    song@,
                ));
                lemma_songs_in_push(old_albums, album@, song@);
                lemma_songs_in_artists_insert(arts, artistv, new_albums);
            }
        } else {
            let mut albums: Vec<(String, Vec<Song>)> = Vec::new();
            proof {
                assert(albums.deep_view() =~= Seq::<(Seq<char>, Seq<SongV>)>::empty());
            }
            push_into_assoc(&mut albums, album, song);
            let ghost new_albums = albums.deep_view();
            self.artists.insert(pos, (artist, albums));
            proof {
                assert(self.artists.deep_view() =~~= tree_push_song(
                    arts,
                    artistv,
                    album@,
                    song@,
                ));
                lemma_songs_in_push(Seq::<(Seq<char>, Seq<SongV>)>::empty(), album@, song@);
                lemma_songs_in_artists_insert(arts, artistv, new_albums);
            }
        }
        proof {
            let albums0 = match assoc_find(arts, artistv) {
                Some(a) => a,
                None => Seq::<(Seq<char>, Seq<SongV>)>::empty(),
            };
            if assoc_find(arts, artistv) is Some {
                assert(sorted_keys(arts[first_geq(arts, artistv)].1));
            }
            let items0 = match assoc_find(albums0, albumv) {
                Some(items) => items,
                None => Seq::<SongV>::empty(),
            };
            lemma_assoc_insert_sorted(albums0, albumv, items0.push(songv));
            lemma_assoc_insert_nested_sorted(arts, artistv, assoc_push(albums0, albumv, songv));
        }
        self.artist_loading.current = self.artist_loading.current + 1;
    }

    /// The snapshot knows the artist: it holds songs or findings under that
    /// name.
    pub open spec fn knows_artist(self, artist: Seq<char>) -> bool {
        assoc_find(self.artists.deep_view(), artist) is Some || assoc_find(
            self.info.deep_view(),
            artist,
        ) is Some
    }

    /// Forgets one artist for a re-scan: its songs and findings leave the
    /// trees, the loading counters go down by exactly the songs discarded,
    /// and, when the snapshot knew the artist at all, the analysis counters
    /// each give back one unit, never below zero. A discard of an unknown
    /// artist changes nothing.
    pub fn discard_artist(&mut self, artist: &str)
        requires
            old(self).wf(),
        ensures
            final(self).wf(),
            final(self).artists.deep_view() == assoc_remove(
                old(self).artists.deep_view(),
                artist@,
            ),
            final(self).info.deep_view() == assoc_remove(old(self).info.deep_view(), artist@),
            final(self).artist_paths == old(self).artist_paths,
            final(self).artist_loading.current as int == old(self).artist_loading.current
                - discarded_songs(old(self).artists.deep_view(), artist@),
            final(self).artist_loading.total as int == old(self).artist_loading.total
                - discarded_songs(old(self).artists.deep_view(), artist@),
            final(self).info_loading.current == (if old(self).knows_artist(artist@) {
                drop_one(old(self).info_loading.current)
            } else {
                old(self).info_loading.current
            }),
            final(self).info_loading.total == (if old(self).knows_artist(artist@) {
                drop_one(old(self).info_loading.total)
            } else {
                old(self).info_loading.total
            }),
    {
        let ghost arts = self.artists.deep_view();
        let ghost artistv = artist@;
        proof {
            lemma_first_geq_bounds(arts, artistv);
        }
        let pos = assoc_position(&self.artists, artist);
        let found = pos < self.artists.len() && str_eq(
            self.artists[pos].0.as_str(),
            artist,
        );
        proof {
            if pos < self.artists@.len() {
                assert(arts[pos as int] == self.artists@[pos as int].deep_view());
                lemma_lex_cmp_eq(arts[pos as int].0, artistv);
            }
            assert(found == (assoc_find(arts, artistv) is Some));
            lemma_songs_in_artists_remove(arts, artistv);
        }
        if found {
            let entry = self.artists.remove(pos);
            proof {
                assert(entry.deep_view() == arts[pos as int]);
                assert(self.artists.deep_view() =~~= assoc_remove(arts, artistv));
                lemma_assoc_remove_sorted(arts, artistv);
                let r = assoc_remove(arts, artistv);
                assert forall|m: int| 0 <= m < r.len() implies sorted_keys(#[trigger] r[m].1) by {
                    if m < pos {
                        assert(r[m] == arts[m]);
                        assert(sorted_keys(arts[m].1));
                    } else {
                        assert(r[m] == arts[m + 1]);
                        assert(sorted_keys(arts[m + 1].1));
                    }
                }
            }
            let n = count_songs(&entry.1);
            self.artist_loading.current = self.artist_loading.current - n;
            self.artist_loading.total = self.artist_loading.total - n;
        }
        let ghost tree = self.info.deep_view();
        proof {
            lemma_first_geq_bounds(tree, artistv);
        }
        let ipos = assoc_position(&self.info, artist);
        let ifound = ipos < self.info.len() && str_eq(self.info[ipos].0.as_str(), artist);
        proof {
            if ipos < self.info@.len() {
                assert(tree[ipos as int] == self.info@[ipos as int].deep_view());
                lemma_lex_cmp_eq(tree[ipos as int].0, artistv);
            }
            assert(ifound == (assoc_find(tree, artistv) is Some));
        }
        if ifound {
            self.info.remove(ipos);
            proof {
                assert(self.info.deep_view() =~~= assoc_remove(tree, artistv));
                lemma_assoc_remove_sorted(tree, artistv);
                let r = assoc_remove(tree, artistv);
                assert forall|m: int| 0 <= m < r.len() implies sorted_keys(#[trigger] r[m].1) by {
                    if m < ipos {
                        assert(r[m] == tree[m]);
                        assert(sorted_keys(tree[m].1));
                    } else {
                        assert(r[m] == tree[m + 1]);
                        assert(sorted_keys(tree[m + 1].1));
                    }
                }
            }
        }
        if found || ifound {
            if self.info_loading.current > 0 {
                self.info_loading.current = self.info_loading.current - 1;
            }
            if self.info_loading.total > 0 {
                self.info_loading.total = self.info_loading.total - 1;
            }
        }
    }
}

/// How many songs a discard for `artist` lets go: the songs of its albums, or
/// none when the tree does not know the artist.
pub open spec fn discarded_songs(arts: ArtistsTreeV, artist: Seq<char>) -> int {
    match assoc_find(arts, artist) {
        Some(a) => songs_in_albums(a) as int,
        None => 0,
    }
}

/// Appends one finding under (artist, album), creating entries as needed.
#[verifier::loop_isolation(false)]
fn push_info(tree: &mut Vec<(String, Vec<(String, Vec<Info>)>)>, artist: String, album: String, info: Info)
    ensures
        final(tree).deep_view() == tree_push_info(
            old(tree).deep_view(),
            artist@,
            album@,
            info.deep_view(),
        ),
{
    let ghost dv = tree.deep_view();
    let ghost artistv = artist@;
    proof {
        lemma_first_geq_bounds(dv, artistv);
    }
    let pos = assoc_position(tree, artist.as_str());
    let found = pos < tree.len() && str_eq(tree[pos].0.as_str(), artist.as_str());
    proof {
        if pos < tree@.len() {
            assert(dv[pos as int] == tree@[pos as int].deep_view());
            lemma_lex_cmp_eq(dv[pos as int].0, artistv);
        }
    }
    if found {
        let mut entry = tree.remove(pos);
        proof {
            assert(entry.deep_view() == dv[pos as int]);
        }
        push_into_assoc(&mut entry.1, album, info);
        tree.insert(pos, entry);
        proof {
            assert(tree.deep_view() =~~= tree_push_info(dv, artistv, album@, info.deep_view()));
        }
    } else {
        let mut albums: Vec<(String, Vec<Info>)> = Vec::new();
        proof {
            assert(albums.deep_view() =~= Seq::<(Seq<char>, Seq<InfoV>)>::empty());
        }
        push_into_assoc(&mut albums, album, info);
        tree.insert(pos, (artist, albums));
        proof {
            assert(tree.deep_view() =~~= tree_push_info(dv, artistv, album@, info.deep_view()));
        }
    }
}

} // verus!
