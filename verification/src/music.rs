//! Display-name composition for music file names, favouring em dashes.

use crate::utils::{cap_filename_ext, ext_of, format_name, has_ext, normalize, stem_of};
use vstd::prelude::*;
use vstd::string::*;

verus! {

/// The view of an optional string.
pub open spec fn opt_view(o: Option<String>) -> Option<Seq<char>> {
    match o {
        Some(s) => Some(s@),
        None => None,
    }
}

/// The rendered display string for a song at `path` with the given optional
/// artist and album: artist (or a fixed placeholder), album and title joined
/// by em dashes, each normalized.  The album segment is omitted when absent
/// or when its normalized form equals the title.
pub open spec fn render_of(
    path: Seq<char>,
    artist: Option<Seq<char>>,
    album: Option<Seq<char>>,
) -> Seq<char> {
    let name = normalize(stem_of(path));
    let head = match artist {
        Some(a) => normalize(a),
        None => "Unknown artist"@,
    };
    let mid = match album {
        Some(al) => if normalize(al) != name {
            " — "@ + normalize(al)
        } else {
            Seq::<char>::empty()
        },
        None => Seq::<char>::empty(),
    };
    head + mid + " — "@ + name
}

/// A single song pretty-printed for tagging.
#[derive(Debug, PartialEq, Clone)]
pub struct SingleSong {
    /// Original file path of this song before being formatted.
    pub file_path: String,
    /// Name of the song on its own: the normalized stem.
    pub name: String,
    /// Completed/rendered name, joining artist, album and name with em
    /// dashes.
    pub render: String,
    /// File extension of the song file (if any), stemming from
    /// [`SingleSong::file_path`].
    pub ext: Option<String>,
    /// Optional normalized artist.  When absent, the render falls back to
    /// "Unknown artist"; the field itself stays absent.
    pub artist: Option<String>,
    /// Optional normalized album.  When it equals the name it is left out of
    /// [`SingleSong::render`], but kept here.
    pub album: Option<String>,
}

impl SingleSong {
    /// Creates a new song from a file path and optional artist and album
    /// context.  The artist and album are stored in normalized form.
    pub fn new(file_path: &str, artist: Option<String>, album: Option<String>) -> (r: SingleSong)
        ensures
            r.file_path@ == file_path@,
            r.name@ == normalize(stem_of(file_path@)),
            has_ext(file_path@) ==> (r.ext matches Some(e) && e@ == ext_of(file_path@)),
            !has_ext(file_path@) ==> r.ext is None,
            artist matches Some(a) ==> (r.artist matches Some(ra) && ra@ == normalize(a@)),
            artist is None ==> r.artist is None,
            album matches Some(al) ==> (r.album matches Some(rb) && rb@ == normalize(al@)),
            album is None ==> r.album is None,
            r.render@ == render_of(file_path@, opt_view(artist), opt_view(album)),
    {
        let (filename, ext) = cap_filename_ext(file_path);
        let name = format_name(filename.as_str());
        let artist_norm = match &artist {
            Some(a) => Some(format_name(a.as_str())),
            None => None,
        };
        let album_norm = match &album {
            Some(al) => Some(format_name(al.as_str())),
            None => None,
        };
        let mut render = match &artist_norm {
            Some(a) => a.clone(),
            None => "Unknown artist".to_owned(),
        };
        match &album_norm {
            Some(al) => {
                let formatted = al.clone();
                if !(formatted == name) {
                    render.append(" — ");
                    render.append(formatted.as_str());
                }
            },
            None => {},
        }
        render.append(" — ");
        render.append(name.as_str());
        proof {
            assert(render@ =~= render_of(file_path@, opt_view(artist), opt_view(album)));
        }
        SingleSong {
            file_path: file_path.to_owned(),
            name,
            render,
            ext,
            artist: artist_norm,
            album: album_norm,
        }
    }
}

/// Gives help by providing available endpoints for music tagging.
pub fn help() -> (r: &'static str)
    ensures
        r@ == (
        "ROUTE /music\n\n\nAbout\n    Allows music tagging with a static/strong artist + albumn + song methodoloy\n    of tagging. Formatting uses an em dash to differentiate these layers.\n\nChild routes/endpoints\n    - /song: Tags a single song and allows optional context for artist/album")@,
{
    "ROUTE /music\n\n\nAbout\n    Allows music tagging with a static/strong artist + albumn + song methodoloy\n    of tagging. Formatting uses an em dash to differentiate these layers.\n\nChild routes/endpoints\n    - /song: Tags a single song and allows optional context for artist/album"
}

/// Gives help for how to use the single-song endpoint.
pub fn song_help() -> (r: &'static str)
    ensures
        r@ == (
        "POST /music/song?<name>&<album>&<artist>\n\n\nAbout\n    Tags a single song path into the typical artist + album + song view. Some\n    optional url parameters may be passed like `album` and `artist` in order to\n    give explicit context for tagging the song.")@,
{
    "POST /music/song?<name>&<album>&<artist>\n\n\nAbout\n    Tags a single song path into the typical artist + album + song view. Some\n    optional url parameters may be passed like `album` and `artist` in order to\n    give explicit context for tagging the song."
}

} // verus!
