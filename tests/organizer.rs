use audio_sorter::organizer::{metadata_from_tags, parse_metadata_from_filename};

#[test]
fn test_parse_filename_simple_dash() {
    let (title, artist) = parse_metadata_from_filename("Song Title - Artist Name.mp3");
    assert_eq!(title.as_deref(), Some("Song Title"));
    assert_eq!(artist.as_deref(), Some("Artist Name"));
}

#[test]
fn test_parse_filename_no_spaces_dash() {
    let (title, artist) = parse_metadata_from_filename("SongTitle-ArtistName.mp3");
    assert_eq!(title.as_deref(), Some("SongTitle"));
    assert_eq!(artist.as_deref(), Some("ArtistName"));
}

#[test]
fn test_parse_filename_multiple_dashes() {
    let (title, artist) = parse_metadata_from_filename("Title-With-Dashes-Artist.flac");
    assert_eq!(title.as_deref(), Some("Title-With-Dashes"));
    assert_eq!(artist.as_deref(), Some("Artist"));
}

#[test]
fn test_parse_filename_no_dash() {
    let (title, artist) = parse_metadata_from_filename("JustTitle.wav");
    assert_eq!(title.as_deref(), Some("JustTitle"));
    assert_eq!(artist, None);
}

#[test]
fn test_parse_filename_user_example() {
    let (title, artist) = parse_metadata_from_filename("BANG BANG BANG (뱅뱅뱅)-BIGBANG.flac");
    assert_eq!(title.as_deref(), Some("BANG BANG BANG (뱅뱅뱅)"));
    assert_eq!(artist.as_deref(), Some("BIGBANG"));
}

#[test]
fn parse_filename_two_spaced_dashes_splits_at_last_dash() {
    let (title, artist) = parse_metadata_from_filename("A - B - C.mp3");
    assert_eq!(title.as_deref(), Some("A - B"));
    assert_eq!(artist.as_deref(), Some("C"));
}

#[test]
fn parse_filename_uses_last_path_part() {
    let (title, artist) = parse_metadata_from_filename("/music/x-y/Song - Band.flac");
    assert_eq!(title.as_deref(), Some("Song"));
    assert_eq!(artist.as_deref(), Some("Band"));
    let (title, artist) = parse_metadata_from_filename("back\\slash-Name.mp3");
    assert_eq!(title.as_deref(), Some("back\\slash"));
    assert_eq!(artist.as_deref(), Some("Name"));
    let (title, artist) = parse_metadata_from_filename("..");
    assert_eq!(title.as_deref(), Some(".."));
    assert_eq!(artist, None);
}

#[test]
fn parse_filename_trims_parts() {
    let (title, artist) = parse_metadata_from_filename("  Song -Band  .ogg");
    assert_eq!(title.as_deref(), Some("Song"));
    assert_eq!(artist.as_deref(), Some("Band"));
}

#[test]
fn parse_filename_hidden_file_keeps_name() {
    let (title, artist) = parse_metadata_from_filename(".hidden");
    assert_eq!(title.as_deref(), Some(".hidden"));
    assert_eq!(artist, None);
}

#[test]
fn tags_win_over_file_name() {
    let m = metadata_from_tags("Real".to_string(), "Band".to_string(), Some("LP".to_string()), Some("X - Y.mp3"));
    assert_eq!(m.title, "Real");
    assert_eq!(m.artist, "Band");
    assert_eq!(m.album.as_deref(), Some("LP"));
}

#[test]
fn file_name_fills_missing_tags() {
    let m = metadata_from_tags(String::new(), String::new(), None, Some("Song - Singer.flac"));
    assert_eq!(m.title, "Song");
    assert_eq!(m.artist, "Singer");
}

#[test]
fn unknown_title_is_replaced_but_known_artist_kept() {
    let m = metadata_from_tags("Unknown Title".to_string(), "Band".to_string(), None, Some("Song-Other.mp3"));
    assert_eq!(m.title, "Song");
    assert_eq!(m.artist, "Band");
}

#[test]
fn nothing_known_gives_unknown_names() {
    let m = metadata_from_tags(String::new(), String::new(), None, None);
    assert_eq!(m.title, "Unknown Title");
    assert_eq!(m.artist, "Unknown Artist");
    let m = metadata_from_tags(String::new(), String::new(), None, Some("JustTitle.wav"));
    assert_eq!(m.title, "JustTitle");
    assert_eq!(m.artist, "Unknown Artist");
}
