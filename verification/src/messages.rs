use vstd::prelude::*;
use crate::song_data::Song;

verus! {

/// A data-quality finding attached to one album of an artist.
#[derive(Debug, PartialEq)]
pub enum Info {
    /// The first album overlaps the second in the listed song names, but is
    /// not wholly contained in it.
    PartialSubset(String, String, Vec<String>),
    /// Every song of the first album is also present in the second.
    Subset(String, String),
    /// The album holds no songs at all.
    Empty,
    /// The file paths of the album's songs whose title is still the
    /// missing-title sentinel.
    MissingTitle(Vec<String>),
}

/// Mathematical model of a finding.
pub ghost enum InfoV {
    PartialSubset(Seq<char>, Seq<char>, Seq<Seq<char>>),
    Subset(Seq<char>, Seq<char>),
    Empty,
    MissingTitle(Seq<Seq<char>>),
}

impl Clone for Info {
    /// A clone carries the very same finding.
    fn clone(&self) -> (r: Self)
        ensures
            r.deep_view() == self.deep_view(),
    {
        match self {
            Info::PartialSubset(a, b, names) => {
                let names2 = names.clone();
                proof {
                    assert(names2.deep_view() =~= names.deep_view());
                }
                Info::PartialSubset(a.clone(), b.clone(), names2)
            },
            Info::Subset(a, b) => Info::Subset(a.clone(), b.clone()),
            Info::Empty => Info::Empty,
            Info::MissingTitle(paths) => {
                let paths2 = paths.clone();
                proof {
                    assert(paths2.deep_view() =~= paths.deep_view());
                }
                Info::MissingTitle(paths2)
            },
        }
    }
}

impl DeepView for Info {
    type V = InfoV;

    open spec fn deep_view(&self) -> InfoV {
        match self {
            Info::PartialSubset(a, b, names) => InfoV::PartialSubset(a@, b@, names.deep_view()),
            Info::Subset(a, b) => InfoV::Subset(a@, b@),
            Info::Empty => InfoV::Empty,
            Info::MissingTitle(paths) => InfoV::MissingTitle(paths.deep_view()),
        }
    }
}

/// Events the scan and analysis stages publish towards the presentation
/// layer, in emission order.
#[derive(Debug)]
pub enum ClientMessage {
    /// One more song was discovered during the walk: the song-loading total
    /// grows by one.
    ArtistLoadingAdd,
    /// One artist's analysis finished: the analysis current count grows by one.
    InfoLoadingDone,
    /// One artist was queued for analysis: the analysis total grows by one.
    InfoLoadingAdd,
    /// Registers the directory path an artist was scanned from.
    AddArtistPath(String, String),
    /// A song of (artist, album) finished metadata resolution.
    AddSong(String, String, Song),
    /// A new finding for (artist, album).
    AddInfo(String, String, Info),
}

/// Hand-off of one artist's fully resolved album map to the analysis stage.
pub enum InfoMessage {
    Analyze(String, Vec<(String, Vec<Song>)>),
}

/// Request to scan one artist directory.
pub enum WorkMessage {
    WorkOnFolder(String),
}

} // verus!
