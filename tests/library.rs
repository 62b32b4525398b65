use itunes_library::property_list::{PropertyListDict, PropertyListValue};
use itunes_library::{Expected, ItunesLibrary, ItunesTrack, ReadError, Version};

fn library_xml(body: &str) -> Vec<u8> {
    format!(
        "<?xml version=\"1.0\" encoding=\"UTF-8\"?>\n<!DOCTYPE plist PUBLIC \"-//Apple Computer//DTD PLIST 1.0//EN\" \"http://www.apple.com/DTDs/PropertyList-1.0.dtd\">\n<plist version=\"1.0\">\n<dict>\n{}\n</dict>\n</plist>\n",
        body
    )
    .into_bytes()
}

fn schema(r: &Result<ItunesLibrary, ReadError>) -> Option<(String, Expected)> {
    match r {
        Err(ReadError::Schema { field, expected }) => Some((field.clone(), *expected)),
        _ => None,
    }
}

#[test]
fn minimal_library_end_to_end() {
    let xml = library_xml(
        "<key>Major Version</key><integer>1</integer>\n<key>Minor Version</key><integer>1</integer>\n<key>Tracks</key>\n<dict>\n<key>1</key>\n<dict>\n<key>Track ID</key><integer>1</integer>\n<key>Name</key><string>Song</string>\n</dict>\n</dict>",
    );
    let lib = match ItunesLibrary::read(&xml) {
        Ok(lib) => lib,
        Err(_) => panic!("the library should read"),
    };
    assert_eq!(lib.version, Version { major: 1, minor: 1 });
    assert_eq!(lib.tracks.len(), 1);
    assert_eq!(lib.tracks[0].id, 1);
    assert_eq!(lib.tracks[0].name, "Song");
    assert_eq!(lib.tracks[0].artist, None);
    assert_eq!(lib.tracks[0].album, None);
    assert!(lib.playlists.is_empty());
    assert_eq!(lib.application_version, None);
}

#[test]
fn library_metadata_fields() {
    let xml = library_xml(
        "<key>Major Version</key><integer>1</integer><key>Minor Version</key><integer>2</integer><key>Application Version</key><string>12.9</string><key>Date</key><date>2020-05-01T10:00:00Z</date><key>Music Folder</key><string>file:///Music/</string><key>Tracks</key><dict><key>7</key><dict><key>Track ID</key><integer>7</integer><key>Name</key><string>A</string><key>Artist</key><string>B</string><key>Album</key><string>C</string></dict><key>8</key><dict><key>Track ID</key><integer>8</integer><key>Name</key><string>D</string></dict></dict><key>Playlists</key><array><dict><key>Playlist ID</key><integer>3</integer></dict></array>",
    );
    let lib = match ItunesLibrary::read(&xml) {
        Ok(lib) => lib,
        Err(_) => panic!("the library should read"),
    };
    assert_eq!(lib.version, Version { major: 1, minor: 2 });
    assert_eq!(lib.application_version, Some("12.9".to_string()));
    assert_eq!(lib.date, Some("2020-05-01T10:00:00Z".to_string()));
    assert_eq!(lib.music_folder, Some("file:///Music/".to_string()));
    assert_eq!(lib.tracks.len(), 2);
    assert_eq!(lib.tracks[0].artist, Some("B".to_string()));
    assert_eq!(lib.tracks[0].album, Some("C".to_string()));
    assert_eq!(lib.tracks[1].id, 8);
    assert!(lib.playlists.is_empty());
}

#[test]
fn missing_major_version_is_a_schema_error() {
    let xml = library_xml("<key>Minor Version</key><integer>1</integer><key>Tracks</key><dict></dict>");
    let r = ItunesLibrary::read(&xml);
    assert_eq!(schema(&r), Some(("Major Version".to_string(), Expected::Integer)));
}

#[test]
fn minor_version_is_checked_first() {
    let xml = library_xml("<key>Major Version</key><string>1</string>");
    let r = ItunesLibrary::read(&xml);
    assert_eq!(schema(&r), Some(("Minor Version".to_string(), Expected::Integer)));
}

#[test]
fn track_without_name_is_a_schema_error() {
    let xml = library_xml(
        "<key>Major Version</key><integer>1</integer><key>Minor Version</key><integer>1</integer><key>Tracks</key><dict><key>1</key><dict><key>Track ID</key><integer>1</integer></dict></dict>",
    );
    let r = ItunesLibrary::read(&xml);
    assert_eq!(schema(&r), Some(("Name".to_string(), Expected::Text)));
}

#[test]
fn track_entry_that_is_not_a_dict_is_a_schema_error() {
    let xml = library_xml(
        "<key>Major Version</key><integer>1</integer><key>Minor Version</key><integer>1</integer><key>Tracks</key><dict><key>1</key><string>x</string></dict>",
    );
    let r = ItunesLibrary::read(&xml);
    assert_eq!(schema(&r), Some(("Tracks".to_string(), Expected::Dict)));
}

#[test]
fn tracks_that_is_not_a_dict_gives_no_tracks() {
    let xml = library_xml("<key>Major Version</key><integer>1</integer><key>Minor Version</key><integer>1</integer><key>Tracks</key><string>none</string>");
    let lib = match ItunesLibrary::read(&xml) {
        Ok(lib) => lib,
        Err(_) => panic!("the library should read"),
    };
    assert!(lib.tracks.is_empty());
}

#[test]
fn malformed_library_is_a_parse_error() {
    let r = ItunesLibrary::read(b"<plist><dict><key>Major Version</key><integer>1</integer>");
    assert!(matches!(r, Err(ReadError::Parse(_))));
}

#[test]
fn track_from_dict_requires_an_integer_id() {
    let mut d = PropertyListDict::new();
    d.insert("Track ID".to_string(), PropertyListValue::String("1".to_string()));
    d.insert("Name".to_string(), PropertyListValue::String("n".to_string()));
    match ItunesTrack::from_dict(&d) {
        Err(ReadError::Schema { field, expected }) => {
            assert_eq!(field, "Track ID");
            assert_eq!(expected, Expected::Integer);
        }
        _ => panic!("a string id should be refused"),
    }
    d.insert("Track ID".to_string(), PropertyListValue::Integer(4));
    d.insert("Album".to_string(), PropertyListValue::Date("d".to_string()));
    match ItunesTrack::from_dict(&d) {
        Ok(t) => {
            assert_eq!(t.id, 4);
            assert_eq!(t.name, "n");
            assert_eq!(t.album, Some("d".to_string()));
            assert_eq!(t.artist, None);
        }
        Err(_) => panic!("the track should build"),
    }
}
