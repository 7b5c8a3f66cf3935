use media_tagger::music::SingleSong;
use media_tagger::utils::{cap_filename_ext, format_name};

#[test]
fn song_without_context() {
    let song = SingleSong::new("My.Song-Title.mp3", None, None);
    assert_eq!(song.file_path, "My.Song-Title.mp3");
    assert_eq!(song.name, "My Song Title");
    assert_eq!(song.render, "Unknown artist \u{2014} My Song Title");
    assert_eq!(song.ext, Some(".mp3".to_string()));
    assert_eq!(song.artist, None);
    assert_eq!(song.album, None);
}

#[test]
fn song_album_equal_to_title_is_suppressed() {
    let song = SingleSong::new(
        "Track.mp3",
        Some("The Band".to_string()),
        Some("Track".to_string()),
    );
    assert_eq!(song.name, "Track");
    assert_eq!(song.render, "The Band \u{2014} Track");
    // The stored album stays; only the render omits it.
    assert_eq!(song.album, Some("Track".to_string()));
    assert_eq!(song.artist, Some("The Band".to_string()));
}

#[test]
fn song_with_distinct_album() {
    let song = SingleSong::new(
        "Some.Song.flac",
        Some("An-Artist".to_string()),
        Some("The.Album".to_string()),
    );
    assert_eq!(song.name, "Some Song");
    assert_eq!(
        song.render,
        "An Artist \u{2014} The Album \u{2014} Some Song"
    );
    assert_eq!(song.ext, Some(".flac".to_string()));
    // Artist and album are stored in normalized form.
    assert_eq!(song.artist, Some("An Artist".to_string()));
    assert_eq!(song.album, Some("The Album".to_string()));
}

#[test]
fn song_album_compared_after_normalizing() {
    // The album matches the title only once normalized, and is still
    // suppressed from the render.
    let song = SingleSong::new("My.Song.mp3", None, Some("My-Song".to_string()));
    assert_eq!(song.name, "My Song");
    assert_eq!(song.render, "Unknown artist \u{2014} My Song");
    // The suppressed album is kept, in normalized form.
    assert_eq!(song.album, Some("My Song".to_string()));
}

#[test]
fn song_from_empty_path() {
    let song = SingleSong::new("", None, None);
    assert_eq!(song.name, "");
    assert_eq!(song.ext, None);
    assert_eq!(song.render, "Unknown artist \u{2014} ");
}

#[test]
fn song_without_extension() {
    let song = SingleSong::new("Plain", None, None);
    assert_eq!(song.name, "Plain");
    assert_eq!(song.ext, None);
    assert_eq!(song.render, "Unknown artist \u{2014} Plain");
}

#[test]
fn format_name_collapses_separators() {
    assert_eq!(format_name("The.Artist-Name"), "The Artist Name");
    assert_eq!(format_name("a..--  b"), "a b");
    assert_eq!(format_name("  .-. "), "");
    assert_eq!(format_name(""), "");
    assert_eq!(format_name("already clean"), "already clean");
}

#[test]
fn format_name_idempotent_on_samples() {
    for raw in ["The.Artist-Name", "a..--  b", "", "x", "A - B - C", "  dots..everywhere.."] {
        let once = format_name(raw);
        assert_eq!(format_name(&once), once);
    }
}

#[test]
fn split_keeps_last_dot_segment() {
    assert_eq!(
        cap_filename_ext("a.b.c"),
        ("a.b".to_string(), Some(".c".to_string()))
    );
    assert_eq!(
        cap_filename_ext(".bashrc"),
        ("".to_string(), Some(".bashrc".to_string()))
    );
    assert_eq!(cap_filename_ext("noext"), ("noext".to_string(), None));
    assert_eq!(
        cap_filename_ext("trailing."),
        ("trailing".to_string(), Some(".".to_string()))
    );
}

#[test]
fn split_round_trips() {
    for raw in ["a.b.c", ".bashrc", "x.", "many.dots.in.a.row.txt", "s01e02.mkv"] {
        let (stem, ext) = cap_filename_ext(raw);
        let rejoined = format!("{}{}", stem, ext.unwrap());
        assert_eq!(rejoined, raw);
    }
}

#[test]
fn music_help_endpoints() {
    assert!(media_tagger::music::help().starts_with("ROUTE /music\n"));
    assert!(media_tagger::music::song_help().starts_with("POST /music/song"));
}
