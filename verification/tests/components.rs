//! Unit tests for the path, line-filter, and resolution components.

use mpd_shuffle::errors::Error;
use mpd_shuffle::lines::filter_line;
use mpd_shuffle::paths::{is_absolute, is_playlist, join};
use mpd_shuffle::resolve::RootContext;

fn ctx(env_root: Option<&str>, home_found: bool, audio_dir: Option<&str>) -> RootContext {
    RootContext {
        env_root: env_root.map(|s| s.to_string()),
        home_found,
        audio_dir: audio_dir.map(|s| s.to_string()),
    }
}

#[test]
fn absolute_paths_are_recognised() {
    assert!(is_absolute("/music/a.mp3"));
    assert!(!is_absolute("a.mp3"));
    assert!(!is_absolute(""));
}

#[test]
fn join_inserts_a_separator() {
    assert_eq!(join("/music", "a.mp3"), "/music/a.mp3");
    assert_eq!(join("/music/", "a.mp3"), "/music/a.mp3");
    assert_eq!(join("", "a.mp3"), "a.mp3");
}

#[test]
fn playlist_extension_is_detected() {
    assert!(is_playlist("list.m3u8"));
    assert!(is_playlist("/music/a/list.m3u8"));
    assert!(is_playlist("a.b.m3u8"));
    assert!(!is_playlist("song.mp3"));
    assert!(!is_playlist(".m3u8"));
    assert!(!is_playlist("/a/.m3u8"));
    assert!(!is_playlist("/dir.m3u8/song.mp3"));
    assert!(!is_playlist("song.m3u"));
}

#[test]
fn lines_are_trimmed_and_filtered() {
    assert_eq!(filter_line("  a.mp3  "), Some("a.mp3"));
    assert_eq!(filter_line("a.mp3"), Some("a.mp3"));
    assert_eq!(filter_line("# a comment"), None);
    assert_eq!(filter_line("   # indented comment"), None);
    assert_eq!(filter_line(""), None);
    assert_eq!(filter_line("   \t  "), None);
}

#[test]
fn absolute_input_is_returned_unchanged() {
    let c = ctx(None, false, None);
    assert_eq!(c.resolve("/music/a.mp3"), Ok("/music/a.mp3".to_string()));
}

#[test]
fn environment_override_wins() {
    let c = ctx(Some("/override"), true, Some("/home/u/Music"));
    assert_eq!(c.resolve("a.mp3"), Ok("/override/a.mp3".to_string()));
}

#[test]
fn audio_directory_is_the_fallback() {
    let c = ctx(None, true, Some("/home/u/Music"));
    assert_eq!(c.resolve("a.mp3"), Ok("/home/u/Music/a.mp3".to_string()));
}

#[test]
fn missing_home_directory_fails_resolution() {
    let c = ctx(None, false, None);
    assert_eq!(c.resolve("a.mp3"), Err(Error::MissingHomeDir));
}

#[test]
fn missing_music_directory_fails_resolution() {
    let c = ctx(None, true, None);
    assert_eq!(c.resolve("a.mp3"), Err(Error::MissingMusicDir));
}

#[test]
fn error_messages_name_the_kind() {
    assert_eq!(Error::Io.message(), "filesystem error");
    assert_eq!(Error::Queue.message(), "media queue error");
    assert_eq!(Error::Utf8.message(), "invalid encoding in playlist line");
    assert_eq!(Error::MissingHomeDir.message(), "could not determine user folder");
    assert_eq!(Error::MissingMusicDir.message(), "could not determine music folder");
    assert_eq!(Error::NonUtf8TrackPath.message(), "non-UTF-8 track path");
}
