//! Scenario tests driving the expansion machine as a filesystem driver
//! would: the test plays the filesystem and checks what the machine asks
//! for and what it emits.

use mpd_shuffle::errors::Error;
use mpd_shuffle::machine::{Expander, Request};
use mpd_shuffle::resolve::RootContext;
use mpd_shuffle::shuffle::materialize_shuffled;

fn env_ctx(root: &str) -> RootContext {
    RootContext { env_root: Some(root.to_string()), home_found: true, audio_dir: None }
}

fn expect_stat(r: Option<Request>, want: &str) {
    match r {
        Some(Request::Stat(p)) => assert_eq!(p, want),
        other => panic!("expected a metadata query for {want}, got {other:?}"),
    }
}

fn expect_read_dir(r: Option<Request>, want: &str) {
    match r {
        Some(Request::ReadDir(p)) => assert_eq!(p, want),
        other => panic!("expected a directory read for {want}, got {other:?}"),
    }
}

fn expect_read_lines(r: Option<Request>, want: &str) {
    match r {
        Some(Request::ReadLines(p)) => assert_eq!(p, want),
        other => panic!("expected a playlist read for {want}, got {other:?}"),
    }
}

fn strings(v: &[&str]) -> Vec<String> {
    v.iter().map(|s| s.to_string()).collect()
}

#[test]
fn leaf_file_yields_its_resolved_path() {
    let mut m = Expander::new(env_ctx("/music"), "song.mp3".to_string());
    let r = m.poll();
    expect_stat(r, "/music/song.mp3");
    assert!(m.on_meta(false).is_none());
    assert!(m.poll().is_none());
    assert!(m.is_finished());
    assert_eq!(m.finish(), Ok(strings(&["/music/song.mp3"])));
}

#[test]
fn flat_directory_yields_every_entry_in_order() {
    let mut m = Expander::new(env_ctx("/music"), "album".to_string());
    let r = m.poll();
    expect_stat(r, "/music/album");
    let r = m.on_meta(true);
    expect_read_dir(r, "/music/album");
    m.on_entries(strings(&["/music/album/t1.mp3", "/music/album/t2.mp3"]));
    let r = m.poll();
    expect_stat(r, "/music/album/t1.mp3");
    assert!(m.on_meta(false).is_none());
    let r = m.poll();
    expect_stat(r, "/music/album/t2.mp3");
    assert!(m.on_meta(false).is_none());
    assert!(m.poll().is_none());
    assert_eq!(m.finish(), Ok(strings(&["/music/album/t1.mp3", "/music/album/t2.mp3"])));
}

#[test]
fn nested_directories_yield_all_leaves_exactly_once() {
    let mut m = Expander::new(env_ctx("/music"), "/music/top".to_string());
    expect_stat(m.poll(), "/music/top");
    expect_read_dir(m.on_meta(true), "/music/top");
    m.on_entries(strings(&["/music/top/a.mp3", "/music/top/sub"]));
    expect_stat(m.poll(), "/music/top/a.mp3");
    assert!(m.on_meta(false).is_none());
    expect_stat(m.poll(), "/music/top/sub");
    expect_read_dir(m.on_meta(true), "/music/top/sub");
    m.on_entries(strings(&["/music/top/sub/b.mp3", "/music/top/sub/c.mp3"]));
    expect_stat(m.poll(), "/music/top/sub/b.mp3");
    assert!(m.on_meta(false).is_none());
    expect_stat(m.poll(), "/music/top/sub/c.mp3");
    assert!(m.on_meta(false).is_none());
    assert!(m.poll().is_none());
    let mut got = m.finish().unwrap();
    got.sort();
    let mut want = strings(&["/music/top/a.mp3", "/music/top/sub/b.mp3", "/music/top/sub/c.mp3"]);
    want.sort();
    assert_eq!(got, want);
}

#[test]
fn playlist_lines_are_filtered_and_resolved() {
    let mut m = Expander::new(env_ctx("/music"), "list.m3u8".to_string());
    expect_stat(m.poll(), "/music/list.m3u8");
    expect_read_lines(m.on_meta(false), "/music/list.m3u8");
    m.on_lines(strings(&["# comment", "", "a.mp3", "sub/b.mp3"]));
    expect_stat(m.poll(), "/music/a.mp3");
    assert!(m.on_meta(false).is_none());
    expect_stat(m.poll(), "/music/sub/b.mp3");
    assert!(m.on_meta(false).is_none());
    assert!(m.poll().is_none());
    assert_eq!(m.finish(), Ok(strings(&["/music/a.mp3", "/music/sub/b.mp3"])));
}

#[test]
fn encoded_playlist_line_decodes_before_expansion() {
    let mut m = Expander::new(env_ctx("/music"), "list.m3u8".to_string());
    expect_stat(m.poll(), "/music/list.m3u8");
    expect_read_lines(m.on_meta(false), "/music/list.m3u8");
    m.on_lines(strings(&["my%20song%2B.mp3"]));
    expect_stat(m.poll(), "/music/my song+.mp3");
    assert!(m.on_meta(false).is_none());
    assert!(m.poll().is_none());
    assert_eq!(m.finish(), Ok(strings(&["/music/my song+.mp3"])));
}

#[test]
fn undecodable_playlist_line_fails_the_run() {
    let mut m = Expander::new(env_ctx("/music"), "list.m3u8".to_string());
    expect_stat(m.poll(), "/music/list.m3u8");
    expect_read_lines(m.on_meta(false), "/music/list.m3u8");
    // %FF decodes to a lone 0xFF byte, which is not valid UTF-8.
    m.on_lines(strings(&["ok.mp3", "%FF.mp3"]));
    assert!(m.is_finished());
    assert_eq!(m.finish(), Err(Error::Utf8));
}

#[test]
fn failing_sibling_aborts_and_drops_later_siblings() {
    let mut m = Expander::new(env_ctx("/music"), "album".to_string());
    expect_stat(m.poll(), "/music/album");
    expect_read_dir(m.on_meta(true), "/music/album");
    m.on_entries(strings(&[
        "/music/album/ok1.mp3",
        "/music/album/broken",
        "/music/album/ok2.mp3",
    ]));
    expect_stat(m.poll(), "/music/album/ok1.mp3");
    assert!(m.on_meta(false).is_none());
    expect_stat(m.poll(), "/music/album/broken");
    m.on_failure(Error::Io);
    assert!(m.is_finished());
    // The first emitted track is gone too: the run reports the single error.
    assert_eq!(m.finish(), Err(Error::Io));
}

#[test]
fn resolution_failure_inside_a_playlist_aborts() {
    let ctx = RootContext { env_root: None, home_found: false, audio_dir: None };
    let mut m = Expander::new(ctx, "/music/list.m3u8".to_string());
    expect_stat(m.poll(), "/music/list.m3u8");
    expect_read_lines(m.on_meta(false), "/music/list.m3u8");
    m.on_lines(strings(&["relative.mp3"]));
    assert!(m.poll().is_none());
    assert!(m.is_finished());
    assert_eq!(m.finish(), Err(Error::MissingHomeDir));
}

#[test]
fn shuffling_keeps_the_same_tracks() {
    let mut m = Expander::new(env_ctx("/music"), "album".to_string());
    expect_stat(m.poll(), "/music/album");
    expect_read_dir(m.on_meta(true), "/music/album");
    m.on_entries(strings(&["/music/album/a.mp3", "/music/album/b.mp3", "/music/album/c.mp3"]));
    for want in ["/music/album/a.mp3", "/music/album/b.mp3", "/music/album/c.mp3"] {
        expect_stat(m.poll(), want);
        assert!(m.on_meta(false).is_none());
    }
    assert!(m.poll().is_none());
    let mut got = materialize_shuffled(m).unwrap();
    got.sort();
    let mut want = strings(&["/music/album/a.mp3", "/music/album/b.mp3", "/music/album/c.mp3"]);
    want.sort();
    assert_eq!(got, want);
}

#[test]
fn shuffling_one_track_is_a_no_op() {
    let mut m = Expander::new(env_ctx("/music"), "song.mp3".to_string());
    expect_stat(m.poll(), "/music/song.mp3");
    assert!(m.on_meta(false).is_none());
    assert!(m.poll().is_none());
    assert_eq!(materialize_shuffled(m), Ok(strings(&["/music/song.mp3"])));
}

#[test]
fn shuffling_no_tracks_is_a_no_op() {
    let mut m = Expander::new(env_ctx("/music"), "album".to_string());
    expect_stat(m.poll(), "/music/album");
    expect_read_dir(m.on_meta(true), "/music/album");
    m.on_entries(Vec::new());
    assert!(m.poll().is_none());
    assert_eq!(materialize_shuffled(m), Ok(Vec::new()));
}

#[test]
fn album_with_playlist_reaching_outside() {
    let ctx = RootContext {
        env_root: None,
        home_found: true,
        audio_dir: Some("/music".to_string()),
    };
    let mut m = Expander::new(ctx, "album".to_string());
    expect_stat(m.poll(), "/music/album");
    expect_read_dir(m.on_meta(true), "/music/album");
    m.on_entries(strings(&[
        "/music/album/t1.mp3",
        "/music/album/t2.mp3",
        "/music/album/pl.m3u8",
    ]));
    expect_stat(m.poll(), "/music/album/t1.mp3");
    assert!(m.on_meta(false).is_none());
    expect_stat(m.poll(), "/music/album/t2.mp3");
    assert!(m.on_meta(false).is_none());
    expect_stat(m.poll(), "/music/album/pl.m3u8");
    expect_read_lines(m.on_meta(false), "/music/album/pl.m3u8");
    m.on_lines(strings(&["../other/t3.mp3"]));
    // The playlist line is relative and resolves against the audio root;
    // the path is not normalised, so the parent step stays spelled out.
    expect_stat(m.poll(), "/music/../other/t3.mp3");
    assert!(m.on_meta(false).is_none());
    assert!(m.poll().is_none());
    assert_eq!(
        m.finish(),
        Ok(strings(&[
            "/music/album/t1.mp3",
            "/music/album/t2.mp3",
            "/music/../other/t3.mp3",
        ]))
    );
}
