use vstd::prelude::*;
use vstd::string::StrSliceExecFns;
use core::cmp::Ordering;

verus! {

/// Placeholder title of a song whose tag has not been read yet, or whose tag
/// could not be read.
pub open spec fn missing_title() -> Seq<char> {
    "-- MISSING TITLE --"@
}

/// The missing-title sentinel as an executable string slice.
pub fn missing() -> (r: &'static str)
    ensures
        r@ == missing_title(),
{
    "-- MISSING TITLE --"
}

/// One audio file: its resolved title, the file it came from, and whether it
/// is opted out of equality-based duplicate detection.
#[derive(Debug)]
pub struct Song {
    pub name: String,
    pub path: String,
    pub unique: bool,
}

/// Mathematical model of a `Song`.
pub ghost struct SongV {
    pub name: Seq<char>,
    pub path: Seq<char>,
    pub unique: bool,
}

impl View for Song {
    type V = SongV;

    open spec fn view(&self) -> SongV {
        SongV { name: self.name@, path: self.path@, unique: self.unique }
    }
}

impl DeepView for Song {
    type V = SongV;

    open spec fn deep_view(&self) -> SongV {
        self@
    }
}

impl Clone for Song {
    fn clone(&self) -> (r: Self)
        ensures
            r == *self,
    {
        Song { name: self.name.clone(), path: self.path.clone(), unique: self.unique }
    }
}

/// Song equality: a song marked `unique` never equals any other song;
/// otherwise two songs are equal exactly when their names are equal.
pub open spec fn song_eq(a: SongV, b: SongV) -> bool {
    !a.unique && !b.unique && a.name == b.name
}

impl PartialEq for Song {
    fn eq(&self, other: &Self) -> (r: bool) {
        !self.unique && !other.unique && self.name == other.name
    }
}

impl Eq for Song {

}

impl vstd::std_specs::cmp::PartialEqSpecImpl for Song {
    open spec fn obeys_eq_spec() -> bool {
        true
    }

    open spec fn eq_spec(&self, other: &Self) -> bool {
        song_eq(self@, other@)
    }
}

/// Song equality law: with `unique` false on both sides, two songs are equal
/// exactly when their names are equal, character for character; a song marked
/// `unique` on either side equals no song.
pub proof fn lemma_song_equality(a: SongV, b: SongV)
    ensures
        !a.unique && !b.unique ==> (song_eq(a, b) <==> a.name == b.name),
        a.unique || b.unique ==> !song_eq(a, b),
{
}

/// `s` ends with the suffix `suf`.
pub open spec fn has_suffix(s: Seq<char>, suf: Seq<char>) -> bool {
    s.len() >= suf.len() && s.subrange(s.len() - suf.len(), s.len() as int) == suf
}

/// Whether `s` ends with `suf`, character by character.
pub fn str_has_suffix(s: &str, suf: &str) -> (r: bool)
    ensures
        r == has_suffix(s@, suf@),
{
    let n: usize = s.unicode_len();
    let m: usize = suf.unicode_len();
    if m > n {
        return false;
    }
    let mut i: usize = 0;
    while i < m
        invariant
            m <= n,
            n == s@.len(),
            m == suf@.len(),
            i <= m,
            forall|j: int| 0 <= j < i ==> s@[n - m + j] == suf@[j],
        decreases m - i,
    {
        let cs = s.get_char(n - m + i);
        let cf = suf.get_char(i);
        if cs != cf {
            proof {
                if has_suffix(s@, suf@) {
                    assert(s@.subrange(n - m, n as int)[i as int] == suf@[i as int]);
                }
            }
            return false;
        }
        i += 1;
    }
    proof {
        assert(s@.subrange(n - m, n as int) =~= suf@);
    }
    true
}

/// Whether two string slices hold the same characters.
pub fn str_eq(a: &str, b: &str) -> (r: bool)
    ensures
        r == (a@ == b@),
{
    let n: usize = a.unicode_len();
    if n != b.unicode_len() {
        return false;
    }
    let mut i: usize = 0;
    while i < n
        invariant
            n == a@.len(),
            n == b@.len(),
            i <= n,
            forall|j: int| 0 <= j < i ==> a@[j] == b@[j],
        decreases n - i,
    {
        let ca = a.get_char(i);
        let cb = b.get_char(i);
        if ca != cb {
            return false;
        }
        i += 1;
    }
    proof {
        assert(a@ =~= b@);
    }
    true
}

/// Lexicographic order on character sequences; a proper prefix comes first.
pub open spec fn lex_cmp(a: Seq<char>, b: Seq<char>) -> Ordering
    decreases a.len(),
{
    if a.len() == 0 && b.len() == 0 {
        Ordering::Equal
    } else if a.len() == 0 {
        Ordering::Less
    } else if b.len() == 0 {
        Ordering::Greater
    } else if a[0] == b[0] {
        lex_cmp(a.drop_first(), b.drop_first())
    } else if (a[0] as u32) < (b[0] as u32) {
        Ordering::Less
    } else {
        Ordering::Greater
    }
}

/// Compare two string slices lexicographically by characters.
pub fn str_cmp(a: &str, b: &str) -> (r: Ordering)
    ensures
        r == lex_cmp(a@, b@),
{
    let n: usize = a.unicode_len();
    let m: usize = b.unicode_len();
    let mut i: usize = 0;
    proof {
        assert(a@.skip(0) =~= a@);
        assert(b@.skip(0) =~= b@);
    }
    while i < n && i < m
        invariant
            n == a@.len(),
            m == b@.len(),
            i <= n,
            i <= m,
            lex_cmp(a@, b@) == lex_cmp(a@.skip(i as int), b@.skip(i as int)),
        decreases n - i,
    {
        let ca = a.get_char(i);
        let cb = b.get_char(i);
        if ca != cb {
            if (ca as u32) < (cb as u32) {
                return Ordering::Less;
            } else {
                return Ordering::Greater;
            }
        }
        proof {
            assert(a@.skip(i + 1) =~= a@.skip(i as int).drop_first());
            assert(b@.skip(i + 1) =~= b@.skip(i as int).drop_first());
        }
        i += 1;
    }
    proof {
        if i == n {
            assert(a@.skip(i as int) =~= Seq::<char>::empty());
        }
        if i == m {
            assert(b@.skip(i as int) =~= Seq::<char>::empty());
        }
    }
    if n == m {
        Ordering::Equal
    } else if n < m {
        Ordering::Less
    } else {
        Ordering::Greater
    }
}

/// Swapping the sides of a lexicographic comparison mirrors its outcome.
pub proof fn lemma_lex_cmp_flip(a: Seq<char>, b: Seq<char>)
    ensures
        lex_cmp(a, b) == Ordering::Less <==> lex_cmp(b, a) == Ordering::Greater,
        lex_cmp(a, b) == Ordering::Equal <==> lex_cmp(b, a) == Ordering::Equal,
    decreases a.len(),
{
    if a.len() == 0 && b.len() == 0 {
        assert(lex_cmp(a, b) == Ordering::Equal);
        assert(lex_cmp(b, a) == Ordering::Equal);
    } else if a.len() == 0 {
        assert(lex_cmp(a, b) == Ordering::Less);
        assert(lex_cmp(b, a) == Ordering::Greater);
    } else if b.len() == 0 {
        assert(lex_cmp(a, b) == Ordering::Greater);
        assert(lex_cmp(b, a) == Ordering::Less);
    } else if a[0] == b[0] {
        lemma_lex_cmp_flip(a.drop_first(), b.drop_first());
        assert(lex_cmp(a, b) == lex_cmp(a.drop_first(), b.drop_first()));
        assert(lex_cmp(b, a) == lex_cmp(b.drop_first(), a.drop_first()));
    } else if (a[0] as u32) < (b[0] as u32) {
        assert(lex_cmp(a, b) == Ordering::Less);
        assert(lex_cmp(b, a) == Ordering::Greater);
    } else {
        assert((b[0] as u32) < (a[0] as u32)) by {
            vstd::utf8::char_u32_cast(a[0], a[0] as u32);
            vstd::utf8::char_u32_cast(b[0], b[0] as u32);
        }
        assert(lex_cmp(a, b) == Ordering::Greater);
        assert(lex_cmp(b, a) == Ordering::Less);
    }
}

/// The lexicographic order is transitive.
pub proof fn lemma_lex_cmp_trans(a: Seq<char>, b: Seq<char>, c: Seq<char>)
    requires
        lex_cmp(a, b) == Ordering::Less,
        lex_cmp(b, c) == Ordering::Less,
    ensures
        lex_cmp(a, c) == Ordering::Less,
    decreases a.len(),
{
    if a.len() == 0 {
        assert(b.len() > 0);
        assert(c.len() > 0);
    } else {
        assert(b.len() > 0);
        assert(c.len() > 0);
        if a[0] == b[0] {
            if b[0] == c[0] {
                lemma_lex_cmp_trans(a.drop_first(), b.drop_first(), c.drop_first());
            }
        }
    }
}

/// Song ordering: a song marked `unique` on either side compares equal as a
/// tie-break escape; otherwise songs are ordered by name.
pub open spec fn song_cmp(a: SongV, b: SongV) -> Ordering {
    if a.unique || b.unique {
        Ordering::Equal
    } else {
        lex_cmp(a.name, b.name)
    }
}

impl Song {
    /// Total order on songs, as `song_cmp` describes.
    pub fn cmp(&self, other: &Song) -> (r: Ordering)
        ensures
            r == song_cmp(self@, other@),
    {
        if self.unique || other.unique {
            Ordering::Equal
        } else {
            str_cmp(self.name.as_str(), other.name.as_str())
        }
    }
}

impl PartialOrd for Song {
    fn partial_cmp(&self, other: &Self) -> (r: Option<Ordering>) {
        Some(self.cmp(other))
    }
}

impl vstd::std_specs::cmp::PartialOrdSpecImpl for Song {
    open spec fn obeys_partial_cmp_spec() -> bool {
        true
    }

    open spec fn partial_cmp_spec(&self, other: &Self) -> Option<Ordering> {
        Some(song_cmp(self@, other@))
    }
}

/// A file name ends in one of the recognized audio-file extensions.
pub open spec fn is_song_name(s: Seq<char>) -> bool {
    ||| has_suffix(s, ".3gp"@)
    ||| has_suffix(s, ".aa"@)
    ||| has_suffix(s, ".aac"@)
    ||| has_suffix(s, ".aax"@)
    ||| has_suffix(s, ".act"@)
    ||| has_suffix(s, ".aiff"@)
    ||| has_suffix(s, ".alac"@)
    ||| has_suffix(s, ".amr"@)
    ||| has_suffix(s, ".ape"@)
    ||| has_suffix(s, ".au"@)
    ||| has_suffix(s, ".awb"@)
    ||| has_suffix(s, ".dss"@)
    ||| has_suffix(s, ".dvf"@)
    ||| has_suffix(s, ".flac"@)
    ||| has_suffix(s, ".gsm"@)
    ||| has_suffix(s, ".iklax"@)
    ||| has_suffix(s, ".ivs"@)
    ||| has_suffix(s, ".m4a"@)
    ||| has_suffix(s, ".m4b"@)
    ||| has_suffix(s, ".m4p"@)
    ||| has_suffix(s, ".mmf"@)
    ||| has_suffix(s, ".movpkg"@)
    ||| has_suffix(s, ".mp3"@)
    ||| has_suffix(s, ".mpc"@)
    ||| has_suffix(s, ".msv"@)
    ||| has_suffix(s, ".nmf"@)
    ||| has_suffix(s, ".ogg"@)
    ||| has_suffix(s, ".opus"@)
    ||| has_suffix(s, ".ra"@)
    ||| has_suffix(s, ".rm"@)
    ||| has_suffix(s, ".raw"@)
    ||| has_suffix(s, ".rf64"@)
    ||| has_suffix(s, ".sln"@)
    ||| has_suffix(s, ".tta"@)
    ||| has_suffix(s, ".voc"@)
    ||| has_suffix(s, ".vox"@)
    ||| has_suffix(s, ".wav"@)
    ||| has_suffix(s, ".wma"@)
    ||| has_suffix(s, ".wv"@)
    ||| has_suffix(s, ".webm"@)
    ||| has_suffix(s, ".8svx"@)
    ||| has_suffix(s, ".cda"@)
}

/// Whether a file name ends in a recognized audio-file extension.
pub fn is_song(end: &str) -> (r: bool)
    ensures
        r == is_song_name(end@),
{
    str_has_suffix(end, ".3gp") || str_has_suffix(end, ".aa") || str_has_suffix(end, ".aac")
        || str_has_suffix(end, ".aax") || str_has_suffix(end, ".act") || str_has_suffix(
        end,
        ".aiff",
    ) || str_has_suffix(end, ".alac") || str_has_suffix(end, ".amr") || str_has_suffix(end, ".ape")
        || str_has_suffix(end, ".au") || str_has_suffix(end, ".awb") || str_has_suffix(end, ".dss")
        || str_has_suffix(end, ".dvf") || str_has_suffix(end, ".flac") || str_has_suffix(
        end,
        ".gsm",
    ) || str_has_suffix(end, ".iklax") || str_has_suffix(end, ".ivs") || str_has_suffix(
        end,
        ".m4a",
    ) || str_has_suffix(end, ".m4b") || str_has_suffix(end, ".m4p") || str_has_suffix(end, ".mmf")
        || str_has_suffix(end, ".movpkg") || str_has_suffix(end, ".mp3") || str_has_suffix(
        end,
        ".mpc",
    ) || str_has_suffix(end, ".msv") || str_has_suffix(end, ".nmf") || str_has_suffix(end, ".ogg")
        || str_has_suffix(end, ".opus") || str_has_suffix(end, ".ra") || str_has_suffix(end, ".rm")
        || str_has_suffix(end, ".raw") || str_has_suffix(end, ".rf64") || str_has_suffix(
        end,
        ".sln",
    ) || str_has_suffix(end, ".tta") || str_has_suffix(end, ".voc") || str_has_suffix(end, ".vox")
        || str_has_suffix(end, ".wav") || str_has_suffix(end, ".wma") || str_has_suffix(end, ".wv")
        || str_has_suffix(end, ".webm") || str_has_suffix(end, ".8svx") || str_has_suffix(
        end,
        ".cda",
    )
}

} // verus!
