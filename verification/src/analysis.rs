use vstd::prelude::*;
use crate::song_data::{Song, SongV, song_eq, missing_title, missing, str_eq};
use crate::messages::{Info, InfoV};

verus! {

/// One artist's albums as the analysis engine sees them: album name and songs.
pub type AlbumsV = Seq<(Seq<char>, Seq<SongV>)>;

/// Findings in emission order, each tagged with the album it belongs to.
pub type FindingsV = Seq<(Seq<char>, InfoV)>;

/// The song `s` is present in the album `b` under song equality.
pub open spec fn in_album(s: SongV, b: Seq<SongV>) -> bool {
    exists|j: int| 0 <= j < b.len() && song_eq(b[j], s)
}

/// The songs of `a`, in order, that are also present in `b`.
pub open spec fn overlap_songs(a: Seq<SongV>, b: Seq<SongV>) -> Seq<SongV>
    decreases a.len(),
{
    if a.len() == 0 {
        Seq::empty()
    } else {
        overlap_songs(a.drop_last(), b) + (if in_album(a.last(), b) {
            seq![a.last()]
        } else {
            Seq::empty()
        })
    }
}

/// The names of the songs of `a` that are also present in `b`.
pub open spec fn overlap_names(a: Seq<SongV>, b: Seq<SongV>) -> Seq<Seq<char>> {
    overlap_songs(a, b).map_values(|s: SongV| s.name)
}

/// How many songs of `a` are also present in `b`.
pub open spec fn overlap_count(a: Seq<SongV>, b: Seq<SongV>) -> nat {
    overlap_songs(a, b).len()
}

/// The paths, in album order, of the songs of `a` whose name is still the
/// missing-title sentinel.
pub open spec fn missing_paths(a: Seq<SongV>) -> Seq<Seq<char>>
    decreases a.len(),
{
    if a.len() == 0 {
        Seq::empty()
    } else {
        missing_paths(a.drop_last()) + (if a.last().name == missing_title() {
            seq![a.last().path]
        } else {
            Seq::empty()
        })
    }
}

/// What the pair (A, B) contributes to A's findings, for a non-empty A:
/// `Subset` when every song of A is found in B, `PartialSubset` when some but
/// not all are, nothing when none is.
pub open spec fn pair_findings(
    a_name: Seq<char>,
    a: Seq<SongV>,
    b_name: Seq<char>,
    b: Seq<SongV>,
) -> Seq<InfoV> {
    if overlap_count(a, b) == a.len() {
        seq![InfoV::Subset(a_name, b_name)]
    } else if overlap_count(a, b) > 0 {
        seq![InfoV::PartialSubset(a_name, b_name, overlap_names(a, b))]
    } else {
        Seq::empty()
    }
}

/// Subset findings of the album at index `i` against the albums before
/// index `k`, in album order, skipping the album itself.
pub open spec fn subset_findings_upto(albums: AlbumsV, i: int, k: int) -> Seq<InfoV>
    decreases k,
{
    if k <= 0 {
        Seq::empty()
    } else {
        subset_findings_upto(albums, i, k - 1) + (if k - 1 == i {
            Seq::empty()
        } else {
            pair_findings(albums[i].0, albums[i].1, albums[k - 1].0, albums[k - 1].1)
        })
    }
}

/// Subset findings of the album at index `i` against every other album.
pub open spec fn subset_findings(albums: AlbumsV, i: int) -> Seq<InfoV> {
    subset_findings_upto(albums, i, albums.len() as int)
}

/// The findings that depend on the album alone: `Empty` for an album with no
/// songs, then `MissingTitle` when some song's title is still the sentinel.
pub open spec fn base_findings(a: Seq<SongV>) -> Seq<InfoV> {
    (if a.len() == 0 {
        seq![InfoV::Empty]
    } else {
        Seq::empty()
    }) + (if missing_paths(a).len() > 0 {
        seq![InfoV::MissingTitle(missing_paths(a))]
    } else {
        Seq::empty()
    })
}

/// All findings of the album at index `i`, in emission order: `Empty` and
/// `MissingTitle` first, then the subset findings; an empty album is never
/// compared against the others.
pub open spec fn album_findings(albums: AlbumsV, i: int) -> Seq<InfoV> {
    base_findings(albums[i].1) + (if albums[i].1.len() == 0 {
        Seq::empty()
    } else {
        subset_findings(albums, i)
    })
}

/// Tags every finding of one album with that album's name.
pub open spec fn with_album(name: Seq<char>, infos: Seq<InfoV>) -> FindingsV {
    infos.map_values(|v: InfoV| (name, v))
}

/// Findings of the albums before index `k`, in album order.
pub open spec fn artist_findings_upto(albums: AlbumsV, k: int) -> FindingsV
    decreases k,
{
    if k <= 0 {
        Seq::empty()
    } else {
        artist_findings_upto(albums, k - 1) + with_album(
            albums[k - 1].0,
            album_findings(albums, k - 1),
        )
    }
}

/// All findings for one artist's albums, in emission order.
pub open spec fn artist_findings(albums: AlbumsV) -> FindingsV {
    artist_findings_upto(albums, albums.len() as int)
}

/// Whether `song` is present in the album `b` under song equality.
#[verifier::loop_isolation(false)]
pub fn album_contains(b: &Vec<Song>, song: &Song) -> (r: bool)
    ensures
        r == in_album(song.deep_view(), b.deep_view()),
{
    let mut j: usize = 0;
    while j < b.len()
        invariant
            j <= b.len(),
            forall|k: int| 0 <= k < j ==> !song_eq(b.deep_view()[k], song.deep_view()),
        decreases b.len() - j,
    {
        if b[j].eq(song) {
            proof {
                assert(b.deep_view()[j as int] == b@[j as int].deep_view());
            }
            return true;
        }
        j += 1;
    }
    false
}

/// The songs of `a`, in order, that are also present in `b`.
#[verifier::loop_isolation(false)]
fn overlapping_songs(a: &Vec<Song>, b: &Vec<Song>) -> (r: Vec<Song>)
    ensures
        r.deep_view() == overlap_songs(a.deep_view(), b.deep_view()),
{
    let mut out: Vec<Song> = Vec::new();
    let mut i: usize = 0;
    proof {
        assert(out.deep_view() =~= overlap_songs(a.deep_view().take(0), b.deep_view()));
    }
    while i < a.len()
        invariant
            i <= a.len(),
            out.deep_view() == overlap_songs(a.deep_view().take(i as int), b.deep_view()),
        decreases a.len() - i,
    {
        if album_contains(b, &a[i]) {
            out.push(a[i].clone());
        }
        proof {
            assert(a.deep_view().take(i + 1).drop_last() =~= a.deep_view().take(i as int));
            assert(a.deep_view().take(i + 1).last() == a.deep_view()[i as int]);
            assert(out.deep_view() =~= overlap_songs(a.deep_view().take(i + 1), b.deep_view()));
        }
        i += 1;
    }
    proof {
        assert(a.deep_view().take(a.len() as int) =~= a.deep_view());
    }
    out
}

/// The paths of the songs of `a` whose name is still the sentinel.
#[verifier::loop_isolation(false)]
fn missing_paths_of(a: &Vec<Song>) -> (r: Vec<String>)
    ensures
        r.deep_view() == missing_paths(a.deep_view()),
{
    let mut out: Vec<String> = Vec::new();
    let mut i: usize = 0;
    proof {
        assert(out.deep_view() =~= missing_paths(a.deep_view().take(0)));
    }
    while i < a.len()
        invariant
            i <= a.len(),
            out.deep_view() == missing_paths(a.deep_view().take(i as int)),
        decreases a.len() - i,
    {
        if str_eq(a[i].name.as_str(), missing()) {
            out.push(a[i].path.clone());
        }
        proof {
            assert(a.deep_view().take(i + 1).drop_last() =~= a.deep_view().take(i as int));
            assert(a.deep_view().take(i + 1).last() == a.deep_view()[i as int]);
            assert(out.deep_view() =~= missing_paths(a.deep_view().take(i + 1)));
        }
        i += 1;
    }
    proof {
        assert(a.deep_view().take(a.len() as int) =~= a.deep_view());
    }
    out
}

/// The names of the given songs, in order.
#[verifier::loop_isolation(false)]
fn names_of(songs: &Vec<Song>) -> (r: Vec<String>)
    ensures
        r.deep_view().len() == songs.deep_view().len(),
        forall|k: int|
            0 <= k < songs.deep_view().len() ==> r.deep_view()[k] == songs.deep_view()[k].name,
{
    let mut out: Vec<String> = Vec::new();
    let mut i: usize = 0;
    while i < songs.len()
        invariant
            i <= songs.len(),
            out.deep_view().len() == i,
            forall|k: int| 0 <= k < i ==> out.deep_view()[k] == songs.deep_view()[k].name,
        decreases songs.len() - i,
    {
        let ghost prev = out.deep_view();
        out.push(songs[i].name.clone());
        proof {
            assert(songs.deep_view()[i as int] == songs@[i as int].deep_view());
            assert forall|k: int|
                0 <= k < i + 1 implies out.deep_view()[k] == songs.deep_view()[k].name by {
                if k < i {
                    assert(out.deep_view()[k] == prev[k]);
                } else {
                    assert(out.deep_view()[k] == out@[k].deep_view());
                }
            }
        }
        i += 1;
    }
    out
}

/// The findings of a singleton step, as a sequence.
pub open spec fn opt_finding(r: Option<Info>) -> Seq<InfoV> {
    match r {
        Some(info) => seq![info.deep_view()],
        None => Seq::empty(),
    }
}

/// What album `a` contributes against album `b`, for a non-empty `a`.
fn pair_info(a_name: &String, a: &Vec<Song>, b_name: &String, b: &Vec<Song>) -> (r: Option<Info>)
    ensures
        opt_finding(r) == pair_findings(a_name@, a.deep_view(), b_name@, b.deep_view()),
{
    let ov = overlapping_songs(a, b);
    if ov.len() == a.len() {
        Some(Info::Subset(a_name.clone(), b_name.clone()))
    } else if ov.len() > 0 {
        let names = names_of(&ov);
        proof {
            assert(names.deep_view() =~~= overlap_names(a.deep_view(), b.deep_view()));
        }
        Some(Info::PartialSubset(a_name.clone(), b_name.clone(), names))
    } else {
        None
    }
}

/// All findings of the album at index `i`, tagged with its name.
#[verifier::loop_isolation(false)]
fn album_entries(albums: &Vec<(String, Vec<Song>)>, i: usize) -> (r: Vec<(String, Info)>)
    requires
        i < albums@.len(),
    ensures
        r.deep_view() == with_album(
            albums.deep_view()[i as int].0,
            album_findings(albums.deep_view(), i as int),
        ),
{
    let ghost adv = albums.deep_view();
    let name = &albums[i].0;
    let a = &albums[i].1;
    proof {
        assert(adv[i as int] == albums@[i as int].deep_view());
    }
    let mut r: Vec<(String, Info)> = Vec::new();
    let a_is_empty = a.len() == 0;
    if a_is_empty {
        r.push((name.clone(), Info::Empty));
    }
    let miss = missing_paths_of(a);
    if miss.len() > 0 {
        r.push((name.clone(), Info::MissingTitle(miss)));
    }
    proof {
        assert(r.deep_view() =~= with_album(name@, base_findings(adv[i as int].1)));
    }
    if !a_is_empty {
        let mut j: usize = 0;
        while j < albums.len()
            invariant
                j <= albums@.len(),
                r.deep_view() == with_album(
                    name@,
                    base_findings(adv[i as int].1) + subset_findings_upto(
                        adv,
                        i as int,
                        j as int,
                    ),
                ),
            decreases albums@.len() - j,
        {
            let ghost prev = r.deep_view();
            let ghost base = base_findings(adv[i as int].1);
            let ghost upto_j = subset_findings_upto(adv, i as int, j as int);
            let ghost step = if j == i {
                Seq::<InfoV>::empty()
            } else {
                pair_findings(
                    adv[i as int].0,
                    adv[i as int].1,
                    adv[j as int].0,
                    adv[j as int].1,
                )
            };
            proof {
                assert(subset_findings_upto(adv, i as int, j + 1) == upto_j + step);
            }
            if j != i {
                proof {
                    assert(adv[j as int] == albums@[j as int].deep_view());
                }
                let pair_b = &albums[j];
                let found = pair_info(name, a, &pair_b.0, &pair_b.1);
                if let Some(info) = found {
                    r.push((name.clone(), info));
                    proof {
                        assert(step[0] == opt_finding(Some(info))[0]);
                        assert(r.deep_view() =~~= prev.push((name@, info.deep_view())));
                        assert(r.deep_view() =~~= with_album(name@, base + (upto_j + step)));
                    }
                } else {
                    proof {
                        assert(step =~= Seq::<InfoV>::empty());
                        assert(base + (upto_j + step) =~= base + upto_j);
                    }
                }
            } else {
                proof {
                    assert(base + (upto_j + step) =~= base + upto_j);
                }
            }
            proof {
                assert(r.deep_view() =~~= with_album(
                    name@,
                    base_findings(adv[i as int].1) + subset_findings_upto(
                        adv,
                        i as int,
                        j + 1,
                    ),
                ));
            }
            j += 1;
        }
    }
    proof {
        assert(r.deep_view() =~= with_album(
            adv[i as int].0,
            album_findings(adv, i as int),
        ));
    }
    r
}

/// The analysis engine: given one artist's fully resolved album map, in album
/// order, produce every finding in emission order, each tagged with the album
/// it is attached to.
#[verifier::loop_isolation(false)]
pub fn analyze_artist(albums: &Vec<(String, Vec<Song>)>) -> (r: Vec<(String, Info)>)
    ensures
        r.deep_view() == artist_findings(albums.deep_view()),
{
    let mut out: Vec<(String, Info)> = Vec::new();
    let mut i: usize = 0;
    while i < albums.len()
        invariant
            i <= albums@.len(),
            out.deep_view() == artist_findings_upto(albums.deep_view(), i as int),
        decreases albums@.len() - i,
    {
        let mut entries = album_entries(albums, i);
        out.append(&mut entries);
        proof {
            assert(out.deep_view() =~= artist_findings_upto(albums.deep_view(), i + 1));
        }
        i += 1;
    }
    out
}

/// No album overlaps `b` in more songs than it has.
pub proof fn lemma_overlap_count_le(a: Seq<SongV>, b: Seq<SongV>)
    ensures
        overlap_count(a, b) <= a.len(),
    decreases a.len(),
{
    if a.len() > 0 {
        lemma_overlap_count_le(a.drop_last(), b);
    }
}

/// The overlap covers all of `a` exactly when every song of `a` is in `b`.
pub proof fn lemma_overlap_full(a: Seq<SongV>, b: Seq<SongV>)
    ensures
        overlap_count(a, b) == a.len() <==> (forall|i: int|
            0 <= i < a.len() ==> in_album(a[i], b)),
    decreases a.len(),
{
    if a.len() > 0 {
        lemma_overlap_full(a.drop_last(), b);
        lemma_overlap_count_le(a.drop_last(), b);
        if overlap_count(a, b) == a.len() {
            assert(overlap_count(a.drop_last(), b) == a.drop_last().len());
            assert forall|i: int| 0 <= i < a.len() implies in_album(a[i], b) by {
                if i < a.len() - 1 {
                    assert(a.drop_last()[i] == a[i]);
                } else {
                    assert(a.last() == a[i]);
                }
            }
        }
        if forall|i: int| 0 <= i < a.len() ==> in_album(a[i], b) {
            assert forall|i: int|
                0 <= i < a.drop_last().len() implies in_album(a.drop_last()[i], b) by {
                assert(a.drop_last()[i] == a[i]);
            }
            assert(in_album(a.last(), b));
        }
    }
}

/// The overlap with an album that has no songs is zero.
pub proof fn lemma_overlap_with_empty(a: Seq<SongV>)
    ensures
        overlap_count(a, Seq::<SongV>::empty()) == 0,
    decreases a.len(),
{
    if a.len() > 0 {
        lemma_overlap_with_empty(a.drop_last());
    }
}

/// Subset rule: for a non-empty album A and another album B, the pair (A, B)
/// contributes `Subset` exactly when every song of A is present in B,
/// `PartialSubset` carrying the overlapping names exactly when the overlap is
/// strictly between zero and |A|, and nothing exactly when the overlap is
/// zero.
pub proof fn lemma_subset_rule(a_name: Seq<char>, a: Seq<SongV>, b_name: Seq<char>, b: Seq<SongV>)
    requires
        a.len() > 0,
    ensures
        pair_findings(a_name, a, b_name, b) == seq![InfoV::Subset(a_name, b_name)] <==> (forall|
            i: int,
        |
            0 <= i < a.len() ==> in_album(a[i], b)),
        pair_findings(a_name, a, b_name, b) == seq![
            InfoV::PartialSubset(a_name, b_name, overlap_names(a, b)),
        ] <==> 0 < overlap_count(a, b) < a.len(),
        pair_findings(a_name, a, b_name, b) == Seq::<InfoV>::empty() <==> overlap_count(a, b)
            == 0,
{
    lemma_overlap_count_le(a, b);
    lemma_overlap_full(a, b);
    let p = pair_findings(a_name, a, b_name, b);
    if overlap_count(a, b) == a.len() {
        assert(p == seq![InfoV::Subset(a_name, b_name)]);
        assert(p[0] == InfoV::Subset(a_name, b_name));
        assert(p != Seq::<InfoV>::empty());
        assert(p != seq![InfoV::PartialSubset(a_name, b_name, overlap_names(a, b))]) by {
            assert(seq![InfoV::PartialSubset(a_name, b_name, overlap_names(a, b))][0]
                == InfoV::PartialSubset(a_name, b_name, overlap_names(a, b)));
        }
    } else if overlap_count(a, b) > 0 {
        assert(p == seq![InfoV::PartialSubset(a_name, b_name, overlap_names(a, b))]);
        assert(p[0] == InfoV::PartialSubset(a_name, b_name, overlap_names(a, b)));
        assert(p != Seq::<InfoV>::empty());
        assert(p != seq![InfoV::Subset(a_name, b_name)]) by {
            assert(seq![InfoV::Subset(a_name, b_name)][0] == InfoV::Subset(a_name, b_name));
        }
    } else {
        assert(p == Seq::<InfoV>::empty());
        assert(p != seq![InfoV::Subset(a_name, b_name)]);
        assert(p != seq![InfoV::PartialSubset(a_name, b_name, overlap_names(a, b))]);
    }
}

/// Empty-album rule: an album with zero songs yields exactly `Empty` and
/// contributes no subset findings of its own.
pub proof fn lemma_empty_album(albums: AlbumsV, i: int)
    requires
        0 <= i < albums.len(),
        albums[i].1.len() == 0,
    ensures
        album_findings(albums, i) == seq![InfoV::Empty],
{
    assert(missing_paths(albums[i].1) == Seq::<Seq<char>>::empty());
    assert(album_findings(albums, i) =~= seq![InfoV::Empty]);
}

/// An album with no songs can still stand on the right of a comparison; the
/// overlap with it is zero, so the pair contributes nothing.
pub proof fn lemma_empty_as_target(a_name: Seq<char>, a: Seq<SongV>, b_name: Seq<char>)
    requires
        a.len() > 0,
    ensures
        pair_findings(a_name, a, b_name, Seq::<SongV>::empty()) == Seq::<InfoV>::empty(),
{
    lemma_overlap_with_empty(a);
}

/// Missing paths are exactly the paths of the songs whose name is still the
/// sentinel, in album order.
pub proof fn lemma_missing_paths_exact(a: Seq<SongV>)
    ensures
        missing_paths(a) == a.filter(|s: SongV| s.name == missing_title()).map_values(
            |s: SongV| s.path,
        ),
    decreases a.len(),
{
    reveal(Seq::filter);
    if a.len() == 0 {
        assert(missing_paths(a) =~= a.filter(|s: SongV| s.name == missing_title()).map_values(
            |s: SongV| s.path,
        ));
    } else {
        lemma_missing_paths_exact(a.drop_last());
        assert(missing_paths(a) =~= a.filter(|s: SongV| s.name == missing_title()).map_values(
            |s: SongV| s.path,
        ));
    }
}

/// Subset checks only ever produce `Subset` or `PartialSubset` findings.
pub proof fn lemma_subset_findings_kinds(albums: AlbumsV, i: int, k: int)
    ensures
        forall|t: int|
            0 <= t < subset_findings_upto(albums, i, k).len() ==> (subset_findings_upto(
                albums,
                i,
                k,
            )[t] is Subset || subset_findings_upto(albums, i, k)[t] is PartialSubset),
    decreases k,
{
    if k > 0 {
        lemma_subset_findings_kinds(albums, i, k - 1);
    }
}

/// Missing-title rule: the album's findings carry `MissingTitle` exactly when
/// some song's name is still the sentinel, and then exactly once, listing
/// exactly the paths of those songs.
pub proof fn lemma_missing_title_rule(albums: AlbumsV, i: int)
    requires
        0 <= i < albums.len(),
    ensures
        (exists|k: int|
            0 <= k < album_findings(albums, i).len() && album_findings(albums, i)[k]
                is MissingTitle) <==> missing_paths(albums[i].1).len() > 0,
        forall|k: int|
            0 <= k < album_findings(albums, i).len() && album_findings(albums, i)[k]
                is MissingTitle ==> album_findings(albums, i)[k] == InfoV::MissingTitle(
                missing_paths(albums[i].1),
            ),
{
    let a = albums[i].1;
    let fs = album_findings(albums, i);
    lemma_subset_findings_kinds(albums, i, albums.len() as int);
    if missing_paths(a).len() > 0 {
        let base = base_findings(a);
        assert(base[base.len() - 1] == InfoV::MissingTitle(missing_paths(a)));
        assert(fs[base.len() - 1] == InfoV::MissingTitle(missing_paths(a)));
    }
}

/// A concatenation holds an element exactly when one of its parts does.
proof fn lemma_add_contains<A>(a: Seq<A>, b: Seq<A>, x: A)
    ensures
        (a + b).contains(x) <==> a.contains(x) || b.contains(x),
{
    if a.contains(x) {
        let t = choose|t: int| 0 <= t < a.len() && a[t] == x;
        assert((a + b)[t] == x);
    }
    if b.contains(x) {
        let t = choose|t: int| 0 <= t < b.len() && b[t] == x;
        assert((a + b)[a.len() + t] == x);
    }
    if (a + b).contains(x) {
        let t = choose|t: int| 0 <= t < (a + b).len() && (a + b)[t] == x;
        if t < a.len() {
            assert(a[t] == x);
        } else {
            assert(b[t - a.len()] == x);
        }
    }
}

/// A tagged segment holds a pair exactly when the tag is the album's name and
/// the segment holds the finding.
proof fn lemma_with_album_contains(name: Seq<char>, infos: Seq<InfoV>, n: Seq<char>, v: InfoV)
    ensures
        with_album(name, infos).contains((n, v)) <==> (n == name && infos.contains(v)),
{
    if with_album(name, infos).contains((n, v)) {
        let t = choose|t: int|
            0 <= t < with_album(name, infos).len() && with_album(name, infos)[t] == (n, v);
        assert(with_album(name, infos)[t] == (name, infos[t]));
        assert(infos[t] == v);
    }
    if n == name && infos.contains(v) {
        let t = choose|t: int| 0 <= t < infos.len() && infos[t] == v;
        assert(with_album(name, infos)[t] == (n, v));
    }
}

/// The findings before index `k` hold a tagged finding exactly when one of
/// those albums carries the tag's name and the finding.
proof fn lemma_artist_upto_contains(albums: AlbumsV, k: int, n: Seq<char>, v: InfoV)
    requires
        0 <= k <= albums.len(),
    ensures
        artist_findings_upto(albums, k).contains((n, v)) <==> exists|m: int|
            0 <= m < k && albums[m].0 == n && album_findings(albums, m).contains(v),
    decreases k,
{
    if k > 0 {
        lemma_artist_upto_contains(albums, k - 1, n, v);
        lemma_add_contains(
            artist_findings_upto(albums, k - 1),
            with_album(albums[k - 1].0, album_findings(albums, k - 1)),
            (n, v),
        );
        lemma_with_album_contains(albums[k - 1].0, album_findings(albums, k - 1), n, v);
        if artist_findings_upto(albums, k).contains((n, v)) {
            if artist_findings_upto(albums, k - 1).contains((n, v)) {
                let m = choose|m: int|
                    0 <= m < k - 1 && albums[m].0 == n && album_findings(albums, m).contains(v);
                assert(0 <= m < k && albums[m].0 == n && album_findings(albums, m).contains(v));
            } else {
                assert(albums[k - 1].0 == n && album_findings(albums, k - 1).contains(v));
            }
        }
        if exists|m: int|
            0 <= m < k && albums[m].0 == n && album_findings(albums, m).contains(v) {
            let m = choose|m: int|
                0 <= m < k && albums[m].0 == n && album_findings(albums, m).contains(v);
            if m < k - 1 {
                assert(exists|t: int|
                    0 <= t < k - 1 && albums[t].0 == n && album_findings(albums, t).contains(v));
            }
        }
    }
}

/// The subset findings of album `i` before index `k` hold a finding exactly
/// when one of the pairs up to `k` contributes it.
proof fn lemma_subset_upto_contains(albums: AlbumsV, i: int, k: int, v: InfoV)
    requires
        0 <= k <= albums.len(),
    ensures
        subset_findings_upto(albums, i, k).contains(v) <==> exists|j: int|
            0 <= j < k && j != i && pair_findings(
                albums[i].0,
                albums[i].1,
                albums[j].0,
                albums[j].1,
            ).contains(v),
    decreases k,
{
    if k > 0 {
        lemma_subset_upto_contains(albums, i, k - 1, v);
        let step = if k - 1 == i {
            Seq::<InfoV>::empty()
        } else {
            pair_findings(albums[i].0, albums[i].1, albums[k - 1].0, albums[k - 1].1)
        };
        lemma_add_contains(subset_findings_upto(albums, i, k - 1), step, v);
        if subset_findings_upto(albums, i, k).contains(v) {
            if subset_findings_upto(albums, i, k - 1).contains(v) {
                let j = choose|j: int|
                    0 <= j < k - 1 && j != i && pair_findings(
                        albums[i].0,
                        albums[i].1,
                        albums[j].0,
                        albums[j].1,
                    ).contains(v);
                assert(0 <= j < k && j != i && pair_findings(
                    albums[i].0,
                    albums[i].1,
                    albums[j].0,
                    albums[j].1,
                ).contains(v));
            } else {
                assert(k - 1 != i && pair_findings(
                    albums[i].0,
                    albums[i].1,
                    albums[k - 1].0,
                    albums[k - 1].1,
                ).contains(v));
            }
        }
        if exists|j: int|
            0 <= j < k && j != i && pair_findings(
                albums[i].0,
                albums[i].1,
                albums[j].0,
                albums[j].1,
            ).contains(v) {
            let j = choose|j: int|
                0 <= j < k && j != i && pair_findings(
                    albums[i].0,
                    albums[i].1,
                    albums[j].0,
                    albums[j].1,
                ).contains(v);
            if j < k - 1 {
                assert(exists|t: int|
                    0 <= t < k - 1 && t != i && pair_findings(
                        albums[i].0,
                        albums[i].1,
                        albums[t].0,
                        albums[t].1,
                    ).contains(v));
            }
        }
    }
}

/// Emission form of the subset rule, for an artist whose album names are
/// strictly sorted: with albums A (non-empty) and B at distinct indices, a
/// `Subset(A, B)` finding is emitted exactly when every song of A is present
/// in B, a `PartialSubset(A, B, names)` finding exactly when the overlap is
/// strictly between zero and |A| and `names` are the overlapping names, and
/// when the overlap is zero the pair emits nothing.
pub proof fn lemma_pair_emission(albums: AlbumsV, i: int, j: int)
    requires
        crate::assoc::sorted_keys(albums),
        0 <= i < albums.len(),
        0 <= j < albums.len(),
        i != j,
        albums[i].1.len() > 0,
    ensures
        artist_findings(albums).contains(
            (albums[i].0, InfoV::Subset(albums[i].0, albums[j].0)),
        ) <==> (forall|k: int|
            0 <= k < albums[i].1.len() ==> in_album(albums[i].1[k], albums[j].1)),
        forall|names: Seq<Seq<char>>|
            #[trigger] artist_findings(albums).contains(
                (albums[i].0, InfoV::PartialSubset(albums[i].0, albums[j].0, names)),
            ) <==> (0 < overlap_count(albums[i].1, albums[j].1) < albums[i].1.len() && names
                == overlap_names(albums[i].1, albums[j].1)),
{
    lemma_overlap_count_le(albums[i].1, albums[j].1);
    lemma_overlap_full(albums[i].1, albums[j].1);
    assert forall|m: int| 0 <= m < albums.len() && albums[m].0 == albums[i].0 implies m == i by {
        if m < i {
            crate::assoc::lemma_sorted_keys_distinct(albums, m, i);
        } else if m > i {
            crate::assoc::lemma_sorted_keys_distinct(albums, i, m);
        }
    }
    assert forall|m: int| 0 <= m < albums.len() && albums[m].0 == albums[j].0 implies m == j by {
        if m < j {
            crate::assoc::lemma_sorted_keys_distinct(albums, m, j);
        } else if m > j {
            crate::assoc::lemma_sorted_keys_distinct(albums, j, m);
        }
    }
    lemma_one_pair_emission_subset(albums, i, j);
    assert forall|names: Seq<Seq<char>>|
        #[trigger] artist_findings(albums).contains(
            (albums[i].0, InfoV::PartialSubset(albums[i].0, albums[j].0, names)),
        ) <==> (0 < overlap_count(albums[i].1, albums[j].1) < albums[i].1.len() && names
            == overlap_names(albums[i].1, albums[j].1)) by {
        lemma_one_pair_emission_partial(albums, i, j, names);
    }
}

/// One finding `v` of album `i` that only a pair with album `j` can produce
/// is emitted exactly when that pair produces it.
proof fn lemma_one_finding_emission(albums: AlbumsV, i: int, j: int, v: InfoV)
    requires
        0 <= i < albums.len(),
        0 <= j < albums.len(),
        i != j,
        albums[i].1.len() > 0,
        forall|m: int| 0 <= m < albums.len() && albums[m].0 == albums[i].0 ==> m == i,
        !(v is Empty),
        !(v is MissingTitle),
        forall|t: int|
            0 <= t < albums.len() && t != i && #[trigger] pair_findings(
                albums[i].0,
                albums[i].1,
                albums[t].0,
                albums[t].1,
            ).contains(v) ==> t == j,
    ensures
        artist_findings(albums).contains((albums[i].0, v)) <==> pair_findings(
            albums[i].0,
            albums[i].1,
            albums[j].0,
            albums[j].1,
        ).contains(v),
{
    let a = albums[i].1;
    lemma_artist_upto_contains(albums, albums.len() as int, albums[i].0, v);
    lemma_add_contains(base_findings(a), subset_findings(albums, i), v);
    lemma_subset_upto_contains(albums, i, albums.len() as int, v);
    assert forall|t: int| 0 <= t < base_findings(a).len() implies !(base_findings(a)[t] == v) by {
        assert(base_findings(a)[t] is Empty || base_findings(a)[t] is MissingTitle);
    }
    if pair_findings(albums[i].0, albums[i].1, albums[j].0, albums[j].1).contains(v) {
        assert(subset_findings_upto(albums, i, albums.len() as int).contains(v));
        assert(album_findings(albums, i).contains(v));
        assert(exists|m: int|
            0 <= m < albums.len() && albums[m].0 == albums[i].0 && album_findings(
                albums,
                m,
            ).contains(v));
    }
    if artist_findings(albums).contains((albums[i].0, v)) {
        let m = choose|m: int|
            0 <= m < albums.len() && albums[m].0 == albums[i].0 && album_findings(
                albums,
                m,
            ).contains(v);
        assert(m == i);
        assert(album_findings(albums, i).contains(v));
        assert(subset_findings(albums, i).contains(v));
        let t = choose|t: int|
            0 <= t < albums.len() && t != i && pair_findings(
                albums[i].0,
                albums[i].1,
                albums[t].0,
                albums[t].1,
            ).contains(v);
        assert(t == j);
    }
}

/// The `Subset` half of the emission rule for the pair (i, j).
proof fn lemma_one_pair_emission_subset(albums: AlbumsV, i: int, j: int)
    requires
        0 <= i < albums.len(),
        0 <= j < albums.len(),
        i != j,
        albums[i].1.len() > 0,
        forall|m: int| 0 <= m < albums.len() && albums[m].0 == albums[i].0 ==> m == i,
        forall|m: int| 0 <= m < albums.len() && albums[m].0 == albums[j].0 ==> m == j,
    ensures
        artist_findings(albums).contains(
            (albums[i].0, InfoV::Subset(albums[i].0, albums[j].0)),
        ) <==> overlap_count(albums[i].1, albums[j].1) == albums[i].1.len(),
{
    let v = InfoV::Subset(albums[i].0, albums[j].0);
    assert forall|t: int|
        0 <= t < albums.len() && t != i && #[trigger] pair_findings(
            albums[i].0,
            albums[i].1,
            albums[t].0,
            albums[t].1,
        ).contains(v) implies t == j by {
        let p = pair_findings(albums[i].0, albums[i].1, albums[t].0, albums[t].1);
        let u = choose|u: int| 0 <= u < p.len() && p[u] == v;
        assert(albums[t].0 == albums[j].0);
    }
    lemma_one_finding_emission(albums, i, j, v);
    let p = pair_findings(albums[i].0, albums[i].1, albums[j].0, albums[j].1);
    if overlap_count(albums[i].1, albums[j].1) == albums[i].1.len() {
        assert(p[0] == v);
    }
    if p.contains(v) {
        let u = choose|u: int| 0 <= u < p.len() && p[u] == v;
    }
}

/// The `PartialSubset` half of the emission rule for the pair (i, j).
proof fn lemma_one_pair_emission_partial(albums: AlbumsV, i: int, j: int, names: Seq<Seq<char>>)
    requires
        0 <= i < albums.len(),
        0 <= j < albums.len(),
        i != j,
        albums[i].1.len() > 0,
        forall|m: int| 0 <= m < albums.len() && albums[m].0 == albums[i].0 ==> m == i,
        forall|m: int| 0 <= m < albums.len() && albums[m].0 == albums[j].0 ==> m == j,
    ensures
        artist_findings(albums).contains(
            (albums[i].0, InfoV::PartialSubset(albums[i].0, albums[j].0, names)),
        ) <==> (0 < overlap_count(albums[i].1, albums[j].1) < albums[i].1.len() && names
            == overlap_names(albums[i].1, albums[j].1)),
{
    lemma_overlap_count_le(albums[i].1, albums[j].1);
    let v = InfoV::PartialSubset(albums[i].0, albums[j].0, names);
    assert forall|t: int|
        0 <= t < albums.len() && t != i && #[trigger] pair_findings(
            albums[i].0,
            albums[i].1,
            albums[t].0,
            albums[t].1,
        ).contains(v) implies t == j by {
        let p = pair_findings(albums[i].0, albums[i].1, albums[t].0, albums[t].1);
        let u = choose|u: int| 0 <= u < p.len() && p[u] == v;
        assert(albums[t].0 == albums[j].0);
    }
    lemma_one_finding_emission(albums, i, j, v);
    let p = pair_findings(albums[i].0, albums[i].1, albums[j].0, albums[j].1);
    if 0 < overlap_count(albums[i].1, albums[j].1) < albums[i].1.len() && names == overlap_names(
        albums[i].1,
        albums[j].1,
    ) {
        assert(p[0] == v);
    }
    if p.contains(v) {
        let u = choose|u: int| 0 <= u < p.len() && p[u] == v;
    }
}

/// Emission form of the empty-album rule, for an artist whose album names
/// are strictly sorted: an `Empty` finding for an album is emitted exactly
/// when the album has no songs, and an empty album gets no other finding, so
/// it never takes part in a comparison as the left-hand album.
pub proof fn lemma_empty_emission(albums: AlbumsV, i: int)
    requires
        crate::assoc::sorted_keys(albums),
        0 <= i < albums.len(),
    ensures
        artist_findings(albums).contains((albums[i].0, InfoV::Empty)) <==> albums[i].1.len()
            == 0,
        albums[i].1.len() == 0 ==> forall|v: InfoV|
            #[trigger] artist_findings(albums).contains((albums[i].0, v)) ==> v == InfoV::Empty,
{
    let a = albums[i].1;
    assert forall|m: int| 0 <= m < albums.len() && albums[m].0 == albums[i].0 implies m == i by {
        if m < i {
            crate::assoc::lemma_sorted_keys_distinct(albums, m, i);
        } else if m > i {
            crate::assoc::lemma_sorted_keys_distinct(albums, i, m);
        }
    }
    if a.len() == 0 {
        lemma_empty_album(albums, i);
        assert(album_findings(albums, i)[0] == InfoV::Empty);
        lemma_artist_upto_contains(albums, albums.len() as int, albums[i].0, InfoV::Empty);
        assert forall|v: InfoV|
            #[trigger] artist_findings(albums).contains((albums[i].0, v)) implies v
            == InfoV::Empty by {
            lemma_artist_upto_contains(albums, albums.len() as int, albums[i].0, v);
            let m = choose|m: int|
                0 <= m < albums.len() && albums[m].0 == albums[i].0 && album_findings(
                    albums,
                    m,
                ).contains(v);
            let t = choose|t: int|
                0 <= t < album_findings(albums, i).len() && album_findings(albums, i)[t] == v;
        }
    } else {
        lemma_artist_upto_contains(albums, albums.len() as int, albums[i].0, InfoV::Empty);
        if artist_findings(albums).contains((albums[i].0, InfoV::Empty)) {
            let m = choose|m: int|
                0 <= m < albums.len() && albums[m].0 == albums[i].0 && album_findings(
                    albums,
                    m,
                ).contains(InfoV::Empty);
            lemma_add_contains(base_findings(a), subset_findings(albums, i), InfoV::Empty);
            lemma_subset_findings_kinds(albums, i, albums.len() as int);
            if base_findings(a).contains(InfoV::Empty) {
                let t = choose|t: int|
                    0 <= t < base_findings(a).len() && base_findings(a)[t] == InfoV::Empty;
            }
            if subset_findings(albums, i).contains(InfoV::Empty) {
                let t = choose|t: int|
                    0 <= t < subset_findings(albums, i).len() && subset_findings(albums, i)[t]
                        == InfoV::Empty;
            }
        }
    }
}

/// Emission form of the missing-title rule, for an artist whose album names
/// are strictly sorted: a `MissingTitle` finding for an album is emitted
/// exactly when some of its songs still carry the sentinel name, and it then
/// lists exactly the paths of those songs.
pub proof fn lemma_missing_title_emission(albums: AlbumsV, i: int)
    requires
        crate::assoc::sorted_keys(albums),
        0 <= i < albums.len(),
    ensures
        forall|ps: Seq<Seq<char>>|
            #[trigger] artist_findings(albums).contains((albums[i].0, InfoV::MissingTitle(ps)))
                <==> (ps == missing_paths(albums[i].1) && ps.len() > 0),
{
    let a = albums[i].1;
    assert forall|m: int| 0 <= m < albums.len() && albums[m].0 == albums[i].0 implies m == i by {
        if m < i {
            crate::assoc::lemma_sorted_keys_distinct(albums, m, i);
        } else if m > i {
            crate::assoc::lemma_sorted_keys_distinct(albums, i, m);
        }
    }
    lemma_subset_findings_kinds(albums, i, albums.len() as int);
    assert forall|ps: Seq<Seq<char>>|
        #[trigger] artist_findings(albums).contains((albums[i].0, InfoV::MissingTitle(ps)))
            <==> (ps == missing_paths(a) && ps.len() > 0) by {
        let v = InfoV::MissingTitle(ps);
        lemma_artist_upto_contains(albums, albums.len() as int, albums[i].0, v);
        if ps == missing_paths(a) && ps.len() > 0 {
            let base = base_findings(a);
            assert(base[base.len() - 1] == v);
            assert(album_findings(albums, i)[base.len() - 1] == v);
            assert(album_findings(albums, i).contains(v));
        }
        if artist_findings(albums).contains((albums[i].0, v)) {
            let m = choose|m: int|
                0 <= m < albums.len() && albums[m].0 == albums[i].0 && album_findings(
                    albums,
                    m,
                ).contains(v);
            lemma_add_contains(
                base_findings(a),
                if a.len() == 0 {
                    Seq::<InfoV>::empty()
                } else {
                    subset_findings(albums, i)
                },
                v,
            );
            if base_findings(a).contains(v) {
                let t = choose|t: int|
                    0 <= t < base_findings(a).len() && base_findings(a)[t] == v;
            }
            if a.len() > 0 && subset_findings(albums, i).contains(v) {
                let t = choose|t: int|
                    0 <= t < subset_findings(albums, i).len() && subset_findings(albums, i)[t]
                        == v;
            }
        }
    }
}

/// Idempotence: the findings are a function of the artist's album data alone,
/// so two runs of the analysis on the same data yield the same list.
pub proof fn lemma_analysis_idempotent(albums: AlbumsV, r1: FindingsV, r2: FindingsV)
    requires
        r1 == artist_findings(albums),
        r2 == artist_findings(albums),
    ensures
        r1 == r2,
{
}


} // verus!
