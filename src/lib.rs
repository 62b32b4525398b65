use vstd::prelude::*;

pub mod error;
pub mod property_list;
pub mod laws;
mod outside;

pub use error::{Expected, ReadError};
use property_list::{lookup, PropertyListDict, PropertyListValue};

verus! {

/// The version of the library file format.
#[derive(Debug, Default, Clone, Copy, PartialEq, Eq, Structural)]
pub struct Version {
    pub major: i32,
    pub minor: i32,
}

/// A media library read from its property list.
#[derive(Debug)]
pub struct ItunesLibrary {
    pub version: Version,
    pub application_version: Option<String>,
    pub date: Option<String>,
    pub music_folder: Option<String>,
    pub tracks: Vec<ItunesTrack>,
    pub playlists: Vec<ItunesPlaylist>,
}

/// One track of a library.
#[derive(Debug)]
pub struct ItunesTrack {
    pub id: i32,
    pub name: String,
    pub artist: Option<String>,
    pub album: Option<String>,
}

/// One playlist of a library.
#[derive(Debug)]
pub struct ItunesPlaylist {
    pub id: i32,
}

pub open spec fn int_of(v: PropertyListValue) -> Option<i32> {
    match v {
        PropertyListValue::Integer(n) => Some(n),
        _ => None,
    }
}

pub open spec fn text_of(v: PropertyListValue) -> Option<Seq<char>> {
    match v {
        PropertyListValue::String(t) => Some(t@),
        PropertyListValue::Date(t) => Some(t@),
        _ => None,
    }
}

pub open spec fn opt_view(o: Option<String>) -> Option<Seq<char>> {
    match o {
        Some(t) => Some(t@),
        None => None,
    }
}

/// The integer under key `k`, if the key is there and holds an integer.
pub open spec fn int_field(d: PropertyListDict, k: Seq<char>) -> Option<i32> {
    match lookup(d.entries@, k) {
        Some(v) => int_of(v),
        None => None,
    }
}

/// The text under key `k`, if the key is there and holds a string or a date.
pub open spec fn text_field(d: PropertyListDict, k: Seq<char>) -> Option<Seq<char>> {
    match lookup(d.entries@, k) {
        Some(v) => text_of(v),
        None => None,
    }
}

pub open spec fn is_schema_error(e: ReadError, field: Seq<char>, expected: Expected) -> bool {
    e matches ReadError::Schema { field: f, expected: x } && f@ == field && x == expected
}

/// The first mandatory field of a track dictionary that is missing or ill-typed.
pub open spec fn track_error(d: PropertyListDict) -> Option<(Seq<char>, Expected)> {
    if int_field(d, "Track ID"@) is None {
        Some(("Track ID"@, Expected::Integer))
    } else if text_field(d, "Name"@) is None {
        Some(("Name"@, Expected::Text))
    } else {
        None
    }
}

/// `t` holds the fields of track dictionary `d`.
pub open spec fn track_matches(t: ItunesTrack, d: PropertyListDict) -> bool {
    &&& int_field(d, "Track ID"@) == Some(t.id)
    &&& text_field(d, "Name"@) == Some(t.name@)
    &&& text_field(d, "Artist"@) == opt_view(t.artist)
    &&& text_field(d, "Album"@) == opt_view(t.album)
}

/// `t` is the record of `Tracks` entry value `v`.
pub open spec fn track_of_entry(t: ItunesTrack, v: PropertyListValue) -> bool {
    v matches PropertyListValue::Dict(td) && track_matches(t, td)
}

/// What is wrong with an entry of the `Tracks` dictionary, if anything.
pub open spec fn entry_error(v: PropertyListValue) -> Option<(Seq<char>, Expected)> {
    match v {
        PropertyListValue::Dict(d) => track_error(d),
        _ => Some(("Tracks"@, Expected::Dict)),
    }
}

/// The first error among the `Tracks` entries from position `i` on.
pub open spec fn tracks_error_from(e: Seq<(String, PropertyListValue)>, i: int) -> Option<(Seq<char>, Expected)>
    decreases e.len() - i,
{
    if i < 0 || i >= e.len() {
        None
    } else if entry_error(e[i].1) is Some {
        entry_error(e[i].1)
    } else {
        tracks_error_from(e, i + 1)
    }
}

/// The first schema violation of a library dictionary, checked in the order
/// minor version, major version, tracks.
pub open spec fn library_error(d: PropertyListDict) -> Option<(Seq<char>, Expected)> {
    if int_field(d, "Minor Version"@) is None {
        Some(("Minor Version"@, Expected::Integer))
    } else if int_field(d, "Major Version"@) is None {
        Some(("Major Version"@, Expected::Integer))
    } else {
        match lookup(d.entries@, "Tracks"@) {
            Some(PropertyListValue::Dict(t)) => tracks_error_from(t.entries@, 0),
            _ => None,
        }
    }
}

/// `tracks` are the records of the `Tracks` dictionary of `d`, in entry order;
/// none where `Tracks` is missing or is not a dictionary.
pub open spec fn tracks_match(tracks: Seq<ItunesTrack>, d: PropertyListDict) -> bool {
    match lookup(d.entries@, "Tracks"@) {
        Some(PropertyListValue::Dict(t)) => {
            &&& tracks.len() == t.entries@.len()
            &&& forall|i: int| 0 <= i < tracks.len() ==> track_of_entry(#[trigger] tracks[i], t.entries@[i].1)
        },
        _ => tracks.len() == 0,
    }
}

/// `r` is what reading library dictionary `d` gives.
pub open spec fn library_result(d: PropertyListDict, r: Result<ItunesLibrary, ReadError>) -> bool {
    match r {
        Ok(lib) => {
            &&& library_error(d) is None
            &&& int_field(d, "Major Version"@) == Some(lib.version.major)
            &&& int_field(d, "Minor Version"@) == Some(lib.version.minor)
            &&& text_field(d, "Application Version"@) == opt_view(lib.application_version)
            &&& text_field(d, "Date"@) == opt_view(lib.date)
            &&& text_field(d, "Music Folder"@) == opt_view(lib.music_folder)
            &&& tracks_match(lib.tracks@, d)
            &&& lib.playlists@.len() == 0
        },
        Err(e) => library_error(d) matches Some((f, x)) && is_schema_error(e, f, x),
    }
}

fn schema_error(field: &str, expected: Expected) -> (e: ReadError)
    ensures
        is_schema_error(e, field@, expected),
{
    ReadError::Schema { field: field.to_owned(), expected }
}

fn int_entry(dict: &PropertyListDict, key: &str) -> (r: Option<i32>)
    ensures
        r == int_field(*dict, key@),
{
    match dict.get(key) {
        Some(v) => property_list::to_i32(v),
        None => None,
    }
}

fn text_entry(dict: &PropertyListDict, key: &str) -> (r: Option<String>)
    ensures
        opt_view(r) == text_field(*dict, key@),
{
    match dict.get(key) {
        Some(v) => property_list::to_string(v),
        None => None,
    }
}

impl ItunesTrack {
    /// Builds a track from its dictionary; `Track ID` (an integer) and `Name`
    /// (a string or date) are mandatory.
    pub fn from_dict(dict: &PropertyListDict) -> (r: Result<ItunesTrack, ReadError>)
        ensures
            match r {
                Ok(t) => track_error(*dict) is None && track_matches(t, *dict),
                Err(e) => track_error(*dict) matches Some((f, x)) && is_schema_error(e, f, x),
            },
    {
        let id = match int_entry(dict, "Track ID") {
            Some(id) => id,
            None => {
                return Err(schema_error("Track ID", Expected::Integer));
            },
        };
        let name = match text_entry(dict, "Name") {
            Some(name) => name,
            None => {
                return Err(schema_error("Name", Expected::Text));
            },
        };
        Ok(ItunesTrack {
            id,
            name,
            album: text_entry(dict, "Album"),
            artist: text_entry(dict, "Artist"),
        })
    }
}

/// The track records of the entries of a `Tracks` dictionary, in entry order.
fn read_tracks(tracks: &PropertyListDict) -> (r: Result<Vec<ItunesTrack>, ReadError>)
    ensures
        match r {
            Ok(v) => {
                &&& tracks_error_from(tracks.entries@, 0) is None
                &&& v@.len() == tracks.entries@.len()
                &&& forall|i: int| 0 <= i < v@.len() ==> track_of_entry(#[trigger] v@[i], tracks.entries@[i].1)
            },
            Err(e) => tracks_error_from(tracks.entries@, 0) matches Some((f, x)) && is_schema_error(e, f, x),
        },
{
    let mut out: Vec<ItunesTrack> = Vec::new();
    let mut i: usize = 0;
    while i < tracks.entries.len()
        invariant
            i <= tracks.entries@.len(),
            out@.len() == i,
            tracks_error_from(tracks.entries@, 0) == tracks_error_from(tracks.entries@, i as int),
            forall|k: int| 0 <= k < i ==> track_of_entry(#[trigger] out@[k], tracks.entries@[k].1),
        decreases tracks.entries@.len() - i,
    {
        match &tracks.entries[i].1 {
            PropertyListValue::Dict(td) => {
                match ItunesTrack::from_dict(td) {
                    Ok(t) => {
                        assert(track_of_entry(t, tracks.entries@[i as int].1));
                        out.push(t);
                    },
                    Err(e) => {
                        return Err(e);
                    },
                }
            },
            _ => {
                return Err(schema_error("Tracks", Expected::Dict));
            },
        }
        i = i + 1;
    }
    Ok(out)
}

impl ItunesLibrary {
    /// Builds a library from its root dictionary. `Minor Version` and
    /// `Major Version` are mandatory integers; each entry of `Tracks` must be
    /// a track dictionary.
    pub fn from_dict(dict: &PropertyListDict) -> (r: Result<ItunesLibrary, ReadError>)
        ensures
            library_result(*dict, r),
    {
        let minor = match int_entry(dict, "Minor Version") {
            Some(v) => v,
            None => {
                return Err(schema_error("Minor Version", Expected::Integer));
            },
        };
        let major = match int_entry(dict, "Major Version") {
            Some(v) => v,
            None => {
                return Err(schema_error("Major Version", Expected::Integer));
            },
        };
        let tracks = match dict.get("Tracks") {
            Some(PropertyListValue::Dict(t)) => match read_tracks(t) {
                Ok(v) => v,
                Err(e) => {
                    return Err(e);
                },
            },
            _ => Vec::new(),
        };
        Ok(ItunesLibrary {
            version: Version { major, minor },
            application_version: text_entry(dict, "Application Version"),
            date: text_entry(dict, "Date"),
            music_folder: text_entry(dict, "Music Folder"),
            tracks,
            playlists: Vec::new(),
        })
    }

    /// Reads a library from the bytes of its XML property list.
    pub fn read(bytes: &[u8]) -> (r: Result<ItunesLibrary, ReadError>)
        ensures
            match property_list::parse_document(property_list::xml_event_stream(bytes@)) {
                Some(m) => exists|d: PropertyListDict| d.model() == m && #[trigger] library_result(d, r),
                None => r matches Err(ReadError::Parse(x)) && property_list::xml_event_stream(bytes@).last()
                    == Err::<property_list::XmlToken, xml::reader::Error>(x),
            },
    {
        match property_list::read_property_list(bytes) {
            Ok(d) => {
                let r = ItunesLibrary::from_dict(&d);
                assert(library_result(d, r));
                r
            },
            Err(e) => Err(e),
        }
    }
}

} // verus!
