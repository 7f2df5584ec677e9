use cbstream::config::{default_useragent, Config, Settings};
use cbstream::muxer::{round_end, segment_step, MuxStep};
use cbstream::muxer::{
    audio_extension, container_type, extension, ffmpeg_args, memory_too_low, muxed_extension, MuxArg,
    MEMORY_FLOOR,
};
use cbstream::platforms::{Model, Platform};
use cbstream::stream::{
    audio_payload_exec, video_payload_exec, Playlist, PlaylistLoop, Position, Stream, MAX_IDLE_REFRESHES,
};
use cbstream::json::JsonValue;

fn settings(ua: &str) -> Settings {
    Settings { user_agent: ua.to_string() }
}

fn raw(entries: &[(&str, &[&str])]) -> Vec<(String, Vec<String>)> {
    entries
        .iter()
        .map(|(p, ms)| (p.to_string(), ms.iter().map(|m| m.to_string()).collect()))
        .collect()
}

fn chars(s: &str) -> Vec<char> {
    s.chars().collect()
}

fn follows(c: &Config, p: Platform, name: &str) -> bool {
    c.follows(p, &chars(name))
}

fn names(c: &Config, p: Platform) -> Vec<String> {
    let mut v: Vec<String> = c
        .platform
        .iter()
        .filter(|(q, _)| *q == p)
        .flat_map(|(_, ms)| ms.iter().map(|m| m.username.clone()))
        .collect();
    v.sort();
    v
}

fn stream(id: u32) -> Stream {
    Stream::new("f", "https://x/seg.ts", None, id, Platform::SC, "UA".to_string(), None, None)
}

#[test]
fn default_config_lists_every_platform() {
    let c = Config::default();
    assert_eq!(c.config.user_agent, "");
    let platforms: Vec<Platform> = c.platform.iter().map(|(p, _)| *p).collect();
    assert_eq!(platforms, Platform::list());
    assert!(c.platform.iter().all(|(_, ms)| ms.is_empty()));
    assert!(default_useragent().starts_with("Mozilla/5.0 (Windows NT 10.0; Win64; x64)"));
    assert!(default_useragent().ends_with("Edg/146.0.0.0"));
}

#[test]
fn config_from_file_table() {
    let c = Config::from_raw(settings("UA"), raw(&[("SC", &["a", "b", "a"]), ("XX", &["z"]), ("MFC", &[])]));
    assert_eq!(c.config.user_agent, "UA");
    assert_eq!(names(&c, Platform::SC), vec!["a", "b"]);
    assert!(c.find_platform(Platform::MFC).is_some());
    assert!(c.find_platform(Platform::CB).is_none());
    assert_eq!(c.platform.len(), 2);
    assert!(follows(&c, Platform::SC, "a"));
    assert!(!follows(&c, Platform::MFC, "a"));
    // models sit under their own platform
    for (p, ms) in &c.platform {
        assert!(ms.iter().all(|m| m.platform == *p));
    }
}

#[test]
fn config_table_round_trip() {
    let c = Config::from_raw(settings(""), raw(&[("BONGA", &["x", "y"]), ("C4", &["z"])]));
    let written = c.to_raw();
    assert_eq!(written, raw(&[("BONGA", &["x", "y"]), ("C4", &["z"])]));
    let back = Config::from_raw(settings(""), written);
    assert_eq!(names(&back, Platform::BONGA), vec!["x", "y"]);
    assert_eq!(names(&back, Platform::C4), vec!["z"]);
}

#[test]
fn update_follows_the_new_file() {
    let mut cur = Config::from_raw(settings("old"), raw(&[("SC", &["a", "b"])]));
    let new = Config::from_raw(settings("new"), raw(&[("SC", &["b", "c"]), ("MFC", &["d"])]));
    let plan = cur.plan_update(&new);
    assert_eq!(plan.remove, vec![(Platform::SC, "a".to_string())]);
    let mut add = plan.add.clone();
    add.sort_by(|x, y| x.1.cmp(&y.1));
    assert_eq!(add, vec![(Platform::SC, "c".to_string()), (Platform::MFC, "d".to_string())]);
    let done = cur.update_config(new);
    assert_eq!(done.remove, plan.remove);
    assert_eq!(cur.config.user_agent, "new");
    assert!(!follows(&cur, Platform::SC, "a"));
    assert!(follows(&cur, Platform::SC, "b"));
    assert!(follows(&cur, Platform::SC, "c"));
    assert!(follows(&cur, Platform::MFC, "d"));
    let mut pairs = cur.all_pairs();
    pairs.sort_by(|x, y| x.1.cmp(&y.1));
    assert_eq!(pairs.len(), 3);
}

#[test]
fn update_with_same_file_changes_nothing() {
    let mut cur = Config::from_raw(settings("ua"), raw(&[("SC", &["a"])]));
    let plan = cur.update_config(Config::from_raw(settings("ua"), raw(&[("SC", &["a"])])));
    assert!(plan.add.is_empty() && plan.remove.is_empty());
    assert!(follows(&cur, Platform::SC, "a"));
}

#[test]
fn insert_and_remove_models() {
    let mut c = Config::from_raw(settings(""), raw(&[("SC", &["a"])]));
    c.insert_model(Model::new(Platform::MFC, "m"));
    c.insert_model(Model::new(Platform::SC, "b"));
    assert!(follows(&c, Platform::MFC, "m") && follows(&c, Platform::SC, "b"));
    let removed = c.remove_model(Platform::SC, "a").expect("a is followed");
    assert_eq!(removed.username, "a");
    assert!(!follows(&c, Platform::SC, "a"));
    assert!(c.remove_model(Platform::SC, "zzz").is_none());
    // an emptied platform stays present
    let _ = c.remove_model(Platform::MFC, "m");
    assert!(c.find_platform(Platform::MFC).is_some());
}

#[test]
fn download_round_keeps_models() {
    let mut c = Config::from_raw(settings(""), raw(&[("SC", &["a", "b"]), ("MFC", &[]), ("C4", &["z"])]));
    let groups = c.take_platforms();
    assert!(c.platform.is_empty());
    for (_, ms) in groups {
        c.put_back(ms);
    }
    assert_eq!(names(&c, Platform::SC), vec!["a", "b"]);
    assert_eq!(names(&c, Platform::C4), vec!["z"]);
    // a platform with no model is not put back
    assert!(c.find_platform(Platform::MFC).is_none());
}

#[test]
fn playlist_loop_takes_only_newer_segments() {
    let mut l = PlaylistLoop::new();
    assert!(l.current.is_none());
    let a = l.offer(stream(5)).expect("first segment is new");
    assert_eq!(a.index, 1);
    assert!(l.offer(stream(5)).is_none());
    assert!(l.offer(stream(3)).is_none());
    let b = l.offer(stream(6)).expect("6 is newer");
    assert_eq!(b.index, 2);
    assert_eq!(l.current, Some(Position { stream_id: 6, index: 2 }));
    // streams compare by their number
    assert!(stream(3) < stream(5));
    assert!(stream(5) == stream(5));
    assert!(!(stream(6) <= stream(5)));
}

#[test]
fn playlist_loop_gives_up_when_idle() {
    let mut l = PlaylistLoop::new();
    for _ in 0..MAX_IDLE_REFRESHES {
        assert!(l.refreshed(true));
    }
    assert_eq!(l.trys, 20);
    assert!(!l.refreshed(true));
    let mut l = PlaylistLoop::new();
    assert!(l.refreshed(true));
    let _ = l.offer(stream(1));
    assert_eq!(l.trys, 0);
    assert!(!l.refreshed(false));
    assert_eq!(l.trys, 0);
}

#[test]
fn segment_payloads() {
    let mut s = Stream::new("f", "u", Some("a"), 1, Platform::SC, "UA".into(), Some(vec![1, 2]), Some(vec![3]));
    assert!(!s.set_downloaded(vec![0; 9999], Some(vec![5])));
    assert!(s.data.is_none());
    assert!(s.set_downloaded(vec![0; 10000], Some(vec![5, 6])));
    let data = s.data.clone().unwrap();
    assert_eq!(data.len(), 10002);
    assert_eq!(&data[..3], &[1, 2, 0]);
    assert_eq!(s.data_audio, Some(vec![3, 5, 6]));
    assert!(s.set_downloaded(vec![0; 10000], Some(vec![])));
    assert!(s.data_audio.is_none());
    assert_eq!(video_payload_exec(&None, vec![7; 10000]), Some(vec![7; 10000]));
    assert_eq!(video_payload_exec(&None, vec![7; 10]), None);
    assert_eq!(audio_payload_exec(&Some(vec![1]), vec![2]), Some(vec![1, 2]));
    assert_eq!(audio_payload_exec(&Some(vec![1]), vec![]), None);
}

#[test]
fn new_playlist_is_empty() {
    let p = Playlist::new(Platform::MFC, "m".into(), "https://x/p.m3u8".into(), None, settings("UA"));
    assert!(p.playlist.is_none() && p.playlist_audio.is_none());
    assert!(p.mp4_header.is_none() && p.mp4_header_audio.is_none());
    assert_eq!(p.settings.user_agent, "UA");
    let s = Stream::new("name", "url", Some("audio"), 9, Platform::C4, "UA".into(), None, None);
    assert_eq!(s.filename, "name");
    assert_eq!(s.url_audio.as_deref(), Some("audio"));
    assert_eq!(s.stream_id, 9);
    assert_eq!(s.index, 0);
}

#[test]
fn muxing_choices() {
    assert_eq!(container_type(Platform::CB, false), "mpegts");
    assert_eq!(container_type(Platform::MFC, false), "mpegts");
    assert_eq!(container_type(Platform::BONGA, false), "mpegts");
    assert_eq!(container_type(Platform::SC, false), "mp4");
    assert_eq!(container_type(Platform::SODA, false), "mp4");
    assert_eq!(container_type(Platform::F4F, false), "mpegts");
    assert_eq!(container_type(Platform::BONGA, true), "mp4");
    assert_eq!(extension(Platform::MFC, false), "ts");
    assert_eq!(extension(Platform::SCVR, false), "mp4");
    assert_eq!(extension(Platform::CB, true), "mp4");
    assert_eq!(audio_extension(), "m4a");
    assert_eq!(muxed_extension(), "mkv");
    let w = |s: &str| MuxArg::Word(s.to_string());
    assert_eq!(
        ffmpeg_args(Platform::SC, true),
        vec![
            w("-f"), w("mp4"), w("-i"), MuxArg::VideoInput,
            w("-f"), w("mp4"), w("-i"), MuxArg::AudioInput,
            w("-c"), w("copy"), w("-copyts"), w("-avoid_negative_ts"), w("make_zero"), w("-y"), MuxArg::Output,
        ]
    );
    assert_eq!(ffmpeg_args(Platform::MFC, false).len(), 11);
    assert_eq!(ffmpeg_args(Platform::MFC, false)[1], w("mpegts"));
    assert!(memory_too_low(MEMORY_FLOOR - 1));
    assert!(!memory_too_low(200_000_000));
}

#[test]
fn json_access() {
    let j = JsonValue::Object(vec![
        ("a".to_string(), JsonValue::Number(Some(3))),
        ("b".to_string(), JsonValue::Bool(true)),
        ("a".to_string(), JsonValue::Str("later".to_string())),
    ]);
    assert_eq!(j.get("a").and_then(|v| v.as_i64()), Some(3));
    assert_eq!(j.get("b").and_then(|v| v.as_bool()), Some(true));
    assert!(j.get("c").is_none());
    assert!(j.as_array().is_none());
    assert!(JsonValue::Array(vec![]).get("a").is_none());
    assert_eq!(JsonValue::Str("x".into()).as_str().map(|s| s.as_str()), Some("x"));
    assert_eq!(JsonValue::Number(None).as_i64(), None);
}

#[test]
fn muxing_rounds() {
    assert_eq!(segment_step(false, true, true), MuxStep::EndRound);
    assert_eq!(segment_step(true, true, false), MuxStep::Advance);
    assert_eq!(segment_step(true, false, true), MuxStep::Wait);
    assert_eq!(segment_step(true, false, false), MuxStep::EndRound);
    let e = round_end(10, Some(0), false, false);
    assert!(e.mux && !e.keep_audio && e.stop);
    let e = round_end(0, Some(3), true, false);
    assert!(!e.mux && e.keep_audio && !e.stop);
    let e = round_end(1, None, false, true);
    assert!(e.mux && !e.keep_audio && !e.stop);
}

#[test]
fn group_checks() {
    let ok = vec![Model::new(Platform::SC, "a"), Model::new(Platform::SC, "b")];
    assert!(Config::group_valid(&ok));
    let twice = vec![Model::new(Platform::SC, "a"), Model::new(Platform::SC, "a")];
    assert!(!Config::group_valid(&twice));
    let mixed = vec![Model::new(Platform::SC, "a"), Model::new(Platform::MFC, "b")];
    assert!(!Config::group_valid(&mixed));
    assert!(Config::group_valid(&Vec::new()));
}
