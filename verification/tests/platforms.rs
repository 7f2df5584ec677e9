use cbstream::config::Settings;
use cbstream::json::JsonValue;
use cbstream::platforms::scan::{scan, ScanKind, ScanState, ScanStep};
use cbstream::platforms::{bonga, c4, f4f, mfc, sc, scvr, soda};
use cbstream::platforms::{
    pick_variant, variant_lines_ok, LookupError, Model, Platform, PlaylistError,
    VariantAddress,
};
use cbstream::stream::{Playlist, Stream};

use base64::Engine;
use sha2::Digest;

const DATE: &str = "24-01-02_03-04";

fn settings() -> Settings {
    Settings { user_agent: "UA/1".to_string() }
}

fn playlist(pf: Platform, user: &str, url: &str, text: Option<&str>) -> Playlist {
    let mut p = Playlist::new(pf, user.to_string(), url.to_string(), None, settings());
    p.playlist = text.map(|t| t.to_string());
    p
}

fn s(v: &str) -> JsonValue {
    JsonValue::Str(v.to_string())
}

fn n(v: i64) -> JsonValue {
    JsonValue::Number(Some(v))
}

fn obj(members: Vec<(&str, JsonValue)>) -> JsonValue {
    JsonValue::Object(members.into_iter().map(|(k, v)| (k.to_string(), v)).collect())
}

fn arr(items: Vec<JsonValue>) -> JsonValue {
    JsonValue::Array(items)
}

fn done(step: ScanStep) -> Result<Vec<Stream>, PlaylistError> {
    match step {
        ScanStep::Done(r) => r,
        ScanStep::NeedHeader(u, _) => panic!("unexpected request for {}", u),
    }
}

fn err_of(r: Result<Vec<Stream>, PlaylistError>) -> PlaylistError {
    match r {
        Ok(v) => panic!("expected an error, got {} streams", v.len()),
        Err(e) => e,
    }
}

#[test]
fn platform_names_round_trip() {
    let list = Platform::list();
    assert_eq!(
        list,
        vec![
            Platform::CB, Platform::SC, Platform::SCVR, Platform::MFC,
            Platform::BONGA, Platform::SODA, Platform::F4F, Platform::C4,
        ]
    );
    for p in list {
        assert_eq!(Platform::new(p.name()), Some(p));
    }
    assert_eq!(Platform::new("cb"), None);
    assert_eq!(Platform::new("XX"), None);
    assert_eq!(Platform::new(""), None);
}

#[test]
fn platform_referers() {
    assert_eq!(Platform::CB.referer(), "https://chaturbate.com/");
    assert_eq!(Platform::MFC.referer(), "https://www.myfreecams.com/");
    assert_eq!(Platform::SC.referer(), "https://stripchat.com/");
    assert_eq!(Platform::SCVR.referer(), "https://vr.stripchat.com/");
    assert_eq!(Platform::BONGA.referer(), "https://bongacams.com/");
    assert_eq!(Platform::SODA.referer(), "https://www.camsoda.com/");
    assert_eq!(Platform::F4F.referer(), "https://www.flirt4free.com/");
    assert_eq!(Platform::C4.referer(), "https://www.cam4.com/");
}

#[test]
fn model_keys_and_sameness() {
    let a = Model::new(Platform::SC, "alice");
    assert_eq!(a.composite_key(), "SC:alice");
    assert_eq!(Model::new(Platform::SCVR, "bob").composite_key(), "SCVR:bob");
    // models are the same model when their names match
    assert!(a.same_model(&Model::new(Platform::MFC, "alice")));
    assert!(!a.same_model(&Model::new(Platform::SC, "Alice")));
    let c = a.clone_fresh();
    assert_eq!(c.platform, Platform::SC);
    assert_eq!(c.username, "alice");
    assert!(c.playlist_link.is_none());
}

#[test]
fn model_online_check_and_start() {
    let mut m = Model::new(Platform::BONGA, "anna");
    let found = Ok((Some("https://v.example/p.m3u8".to_string()), Some("https://v.example/a.m3u8".to_string())));
    assert!(m.is_online(found));
    assert_eq!(m.playlist_link.as_deref(), Some("https://v.example/p.m3u8"));
    let p = m.start_download(&settings()).expect("a playlist to follow");
    assert_eq!(p.platform, Platform::BONGA);
    assert_eq!(p.username, "anna");
    assert_eq!(p.playlist_url, "https://v.example/p.m3u8");
    assert_eq!(p.playlist_audio_url.as_deref(), Some("https://v.example/a.m3u8"));
    assert!(p.playlist.is_none());
    assert_eq!(p.settings.user_agent, "UA/1");

    assert!(!m.is_online(Ok((None, None))));
    assert!(m.start_download(&settings()).is_none());
    m.playlist_link = Some("x".to_string());
    assert!(!m.is_online(Err(LookupError::UserNotFound)));
    assert!(m.playlist_link.is_none());
    assert!(m.playlist_audio_link.is_none());
}

#[test]
fn bonga_segments() {
    let text = "#EXTM3U\n#EXT-X-TARGETDURATION:2\nseg_anna_b_1234.ts\n\nseg_anna_b_1235.ts\n";
    let p = playlist(Platform::BONGA, "anna", "https://v.example/hls/stream_anna/playlist.m3u8", Some(text));
    let v = bonga::parse_playlist_at(&p, DATE).unwrap();
    assert_eq!(v.len(), 2);
    assert_eq!(v[0].url, "https://v.example/hls/stream_anna/seg_anna_b_1234.ts");
    assert_eq!(v[0].stream_id, 1234);
    assert_eq!(v[1].stream_id, 1235);
    assert_eq!(v[0].filename, "BC_anna_24-01-02_03-04");
    assert_eq!(v[0].platform, Platform::BONGA);
    assert_eq!(v[0].user_agent, "UA/1");
    assert_eq!(v[0].index, 0);
    assert!(v[0].url_audio.is_none() && v[0].mp4_header.is_none() && v[0].data.is_none());
}

#[test]
fn bonga_errors() {
    let url = "https://v.example/hls/stream_anna/playlist.m3u8";
    let e = |t: &str| err_of(bonga::parse_playlist_at(&playlist(Platform::BONGA, "a", url, Some(t)), DATE));
    assert_eq!(e("a_b.ts"), PlaylistError::NoStreamId);
    assert_eq!(e("a_b_c_x.ts"), PlaylistError::BadStreamId);
    assert_eq!(e("a_b_c_99999999999.ts"), PlaylistError::BadStreamId);
    assert_eq!(e("a_b_c_1.ts\na_b.ts"), PlaylistError::NoStreamId);
    let no_slash = playlist(Platform::BONGA, "a", "nourl", Some("a_b_c_1.ts"));
    assert_eq!(err_of(bonga::parse_playlist_at(&no_slash, DATE)), PlaylistError::NoUrlPrefix);
    let none = playlist(Platform::BONGA, "a", url, None);
    assert_eq!(err_of(bonga::parse_playlist_at(&none, DATE)), PlaylistError::NoPlaylist);
    // only tags: nothing to record
    assert_eq!(bonga::parse_playlist_at(&playlist(Platform::BONGA, "a", url, Some("#EXTM3U\n")), DATE).unwrap().len(), 0);
}

#[test]
fn bonga_current_date_name() {
    let p = playlist(Platform::BONGA, "anna", "https://v.example/x/playlist.m3u8", Some("seg_a_b_7.ts"));
    let now = cbstream::util::LocalTime { year: 2031, month: 12, day: 1, hour: 7, minute: 5 };
    let v = bonga::parse_playlist(&p, &now).unwrap();
    assert_eq!(v.len(), 1);
    assert_eq!(v[0].filename, "BC_anna_31-12-01_07-05");
}

#[test]
fn bonga_room_lookup() {
    let (url, body) = bonga::room_request("anna", 1700000000);
    assert_eq!(url, "https://bongacams.com/tools/amf.php?t=1700000000");
    assert_eq!(body, "method=getRoomData&args%5B%5D=anna&args%5B%5D=&args%5B%5D=");
    let room = |online: bool, away: bool| {
        obj(vec![
            ("localData", obj(vec![("videoServerUrl", s("//v1.example"))])),
            ("performerData", obj(vec![("isOnline", JsonValue::Bool(online)), ("isAway", JsonValue::Bool(away)), ("username", s("Anna"))])),
        ])
    };
    assert_eq!(
        bonga::room_playlist_address(&room(true, false)),
        Ok(Some("https://v1.example/hls/stream_Anna/playlist.m3u8".to_string()))
    );
    assert_eq!(bonga::room_playlist_address(&room(false, false)), Ok(None));
    assert_eq!(bonga::room_playlist_address(&room(true, true)), Ok(None));
    let no_server = obj(vec![("localData", obj(vec![("videoServerUrl", JsonValue::Null)]))]);
    assert_eq!(bonga::room_playlist_address(&no_server), Ok(None));
    assert_eq!(bonga::room_playlist_address(&obj(vec![])), Err(LookupError::Missing));
}

#[test]
fn mfc_segments_and_lookup() {
    let p = playlist(Platform::MFC, "mia", "https://edge.example/llhls/x/playlist_sfm4s.m3u8", Some("#EXTM3U\nchunk.567.m4s\n"));
    let v = mfc::parse_playlist_at(&p, DATE).unwrap();
    assert_eq!(v.len(), 1);
    assert_eq!(v[0].url, "https://edge.example/llhls/x/chunk.567.m4s");
    assert_eq!(v[0].stream_id, 567);
    assert_eq!(v[0].filename, "MFC_mia_24-01-02_03-04");
    assert_eq!(v[0].platform, Platform::MFC);
    let bad = playlist(Platform::MFC, "mia", "https://e/x/p.m3u8", Some("nodot"));
    assert_eq!(err_of(mfc::parse_playlist_at(&bad, DATE)), PlaylistError::NoStreamId);

    assert_eq!(mfc::lookup_address("mia"), "https://api-edge.myfreecams.com/usernameLookup/mia");
    let answer = |id: JsonValue, sessions: JsonValue| {
        obj(vec![("result", obj(vec![("user", obj(vec![("id", id), ("sessions", sessions)]))]))])
    };
    let session = |server: &str| obj(vec![("server_name", s(server)), ("phase", s("a")), ("platform_id", n(1))]);
    assert_eq!(
        mfc::playlist_address(&answer(n(123), arr(vec![session("video1234")]))),
        Ok(Some("https://edgevideo.myfreecams.com/llhls/NxServer/1234/ngrp:mfc_a1123.f4v_cmaf/playlist_sfm4s.m3u8".to_string()))
    );
    assert_eq!(mfc::playlist_address(&answer(n(123), arr(vec![]))), Ok(None));
    assert_eq!(mfc::playlist_address(&answer(n(123), arr(vec![session("")]))), Ok(None));
    assert_eq!(mfc::playlist_address(&answer(n(123), JsonValue::Null)), Ok(None));
    assert_eq!(mfc::playlist_address(&answer(s("x"), arr(vec![]))), Err(LookupError::UserNotFound));
    assert_eq!(mfc::playlist_address(&obj(vec![])), Err(LookupError::Missing));
}

#[test]
fn c4_segments() {
    let url = "https://cdn.example.com/a/b/playlist.m3u8";
    let p = playlist(Platform::C4, "cara", url, Some("#EXTM3U\nstream_1700000000123.ts\n"));
    let v = c4::parse_playlist_at(&p, DATE).unwrap();
    assert_eq!(v.len(), 1);
    assert_eq!(v[0].url, "https://cdn.example.com/stream_1700000000123.ts");
    assert_eq!(v[0].stream_id, 1700000000);
    assert_eq!(v[0].filename, "C4_cara_24-01-02_03-04");
    assert_eq!(v[0].platform, Platform::F4F);
    // a playlist that mentions SERVER numbers its segments directly
    let p = playlist(Platform::C4, "cara", url, Some("#EXT-X-SERVER\nseg_77.ts\nseg_4294967297.ts\n"));
    let v = c4::parse_playlist_at(&p, DATE).unwrap();
    assert_eq!(v[0].stream_id, 77);
    assert_eq!(v[1].stream_id, 1);
    let bad = playlist(Platform::C4, "cara", url, Some("noext"));
    assert_eq!(err_of(c4::parse_playlist_at(&bad, DATE)), PlaylistError::NoStreamId);
    let no_host = playlist(Platform::C4, "cara", "cdn.example.com/p.m3u8", Some("s_1.ts"));
    assert_eq!(err_of(c4::parse_playlist_at(&no_host, DATE)), PlaylistError::NoUrlPrefix);
}

#[test]
fn c4_lookups() {
    assert_eq!(c4::stream_info_address("cara"), "https://www.cam4.com/rest/v1.0/profile/cara/streamInfo");
    assert_eq!(
        c4::request_access_address("cara"),
        "https://api.cam4.com/webchat/requestAccess?roomname=cara&chat_history_limit=0"
    );
    assert_eq!(c4::main_playlist_address(&obj(vec![("cdnURL", s("https://x/y.m3u8"))])), Some("https://x/y.m3u8".to_string()));
    assert_eq!(c4::main_playlist_address(&obj(vec![("cdnURL", n(1))])), None);
    let outputs = obj(vec![(
        "output",
        arr(vec![
            obj(vec![("protocol", s("RTMP")), ("uri", s("a"))]),
            obj(vec![("protocol", s("HLS")), ("uri", s("b"))]),
            obj(vec![("protocol", s("HLS")), ("uri", s("c"))]),
        ]),
    )]);
    assert_eq!(c4::alt_playlist_address(&outputs), Some("b".to_string()));
    assert_eq!(c4::alt_playlist_address(&obj(vec![("output", arr(vec![]))])), None);
}

#[test]
fn f4f_segments() {
    let p = playlist(Platform::F4F, "fay", "https://x.example/m.m3u8", Some("#EXTM3U\nhttps://x.example/v_1_99.ts?x=1\n"));
    let v = f4f::parse_playlist_at(&p, DATE).unwrap();
    assert_eq!(v.len(), 1);
    assert_eq!(v[0].url, "https://x.example/v_1_99.ts?x=1");
    assert_eq!(v[0].stream_id, 99);
    assert_eq!(v[0].filename, "F4F_fay_24-01-02_03-04");
    let big = playlist(Platform::F4F, "fay", "u", Some("https://x.example/v_4294967296.ts"));
    assert_eq!(err_of(f4f::parse_playlist_at(&big, DATE)), PlaylistError::NoStreamId);
    let c: Vec<char> = "a_b_12.ts".chars().collect();
    assert_eq!(f4f::ts_number(&c, u32::MAX as u64), Some(12));
}

#[test]
fn f4f_model_list_and_addresses() {
    let page = "var d = {'models': [{\"a\":1},{\"b\":2}], 'favorites': []};";
    assert_eq!(f4f::models_json(page), Some("[{\"a\":1},{\"b\":2}]".to_string()));
    assert_eq!(f4f::models_json("{'models': []}"), None);
    let models = arr(vec![
        obj(vec![("model_seo_name", s("bea")), ("model_id", s("5"))]),
        obj(vec![("model_seo_name", s("anna")), ("model_id", s("77"))]),
        obj(vec![("model_seo_name", s("cleo"))]),
    ]);
    assert_eq!(f4f::model_id(&models, "Anna"), Ok(Some("77".to_string())));
    assert_eq!(f4f::model_id(&models, "dora"), Ok(None));
    assert_eq!(f4f::model_id(&models, "cleo"), Err(LookupError::Missing));
    assert_eq!(
        f4f::room_interface_address("77"),
        "https://www.flirt4free.com/ws/rooms/chat-room-interface.php?a=login_room&model_id=77"
    );
    let login = obj(vec![
        ("token_enc", s("T")),
        ("config", obj(vec![("room", obj(vec![("port_to_be", s("8080")), ("host", s("chat1.example.com"))]))])),
    ]);
    assert_eq!(
        f4f::socket_address(&login, "77"),
        Some("wss://www.flirt4free.com/chat1/chat?token=T&port_to_be=8080&model_id=77".to_string())
    );
    assert_eq!(f4f::socket_address(&obj(vec![("token_enc", s("T"))]), "77"), None);
    let first = obj(vec![(
        "data",
        obj(vec![("video_info", obj(vec![("hls", obj(vec![("providers", arr(vec![obj(vec![("stream_key", s("K"))])]))]))]))]),
    )]);
    assert_eq!(
        f4f::manifest_address(&first, "77"),
        Some("https://hls.vscdns.com/manifest.m3u8?key=K&model_id=77".to_string())
    );
    assert_eq!(f4f::manifest_address(&obj(vec![]), "77"), None);
}

const SC_PLAYLIST: &str = "#EXTM3U\n#EXT-X-MAP:URI=\"https://h.example/init.mp4\"\n#EXT-X-PROGRAM-DATE-TIME:2024-01-02T03:04:05.000Z\nhttps://h.example/seg_123_456.mp4\nhttps://h.example/seg_123_457.mp4\n";

#[test]
fn sc_scan_waits_for_header() {
    let keys = sc::default_mouflon_keys();
    let mut p = playlist(Platform::SC, "sia", "https://h.example/p.m3u8", Some(SC_PLAYLIST));
    let state = match sc::parse_playlist(&p, &keys) {
        ScanStep::NeedHeader(u, st) => {
            assert_eq!(u, "https://h.example/init.mp4");
            assert_eq!(st.line, 1);
            st
        }
        ScanStep::Done(_) => panic!("the header is not known yet"),
    };
    p.mp4_header = Some(vec![9, 9, 9]);
    let v = done(scan(&p, ScanKind::Sc { vr: false }, &keys, state)).unwrap();
    assert_eq!(v.len(), 2);
    assert_eq!(v[0].url, "https://h.example/seg_123_456.mp4");
    assert_eq!(v[0].stream_id, 456);
    assert_eq!(v[1].stream_id, 457);
    assert_eq!(v[0].filename, "SC_sia_24-01-02_03-04");
    assert_eq!(v[0].platform, Platform::SC);
    assert_eq!(v[0].mp4_header, Some(vec![9, 9, 9]));
    // a read that starts with the header known does not stop
    let v = done(sc::parse_playlist(&p, &keys)).unwrap();
    assert_eq!(v.len(), 2);
    let v = done(scvr::parse_playlist(&p, &keys)).unwrap();
    assert_eq!(v[0].filename, "SCVR_sia_24-01-02_03-04");
    assert_eq!(v[0].platform, Platform::SCVR);
}

#[test]
fn sc_scan_errors() {
    let keys = sc::default_mouflon_keys();
    let with_header = |t: &str| {
        let mut p = playlist(Platform::SC, "sia", "https://h.example/p.m3u8", Some(t));
        p.mp4_header = Some(vec![1]);
        done(sc::parse_playlist(&p, &keys))
    };
    assert_eq!(err_of(with_header("https://h.example/seg_1.mp4")), PlaylistError::NoDate);
    assert_eq!(err_of(with_header("#TIME:1")), PlaylistError::ShortDateLine);
    assert_eq!(err_of(with_header("#EXT-X-PROGRAM-DATE-TIME:2024-01-02T03:04\nhttps://h/seg_1")), PlaylistError::NoStreamId);
    assert_eq!(err_of(with_header("#EXT-X-PROGRAM-DATE-TIME:2024-01-02T03:04\nhttps://h/seg_x.mp4")), PlaylistError::BadStreamId);
    assert_eq!(err_of(with_header("#EXT-X-MOUFLON:PSCH:v1")), PlaylistError::NoMouflonKey);
    assert_eq!(err_of(with_header("#EXT-X-MOUFLON:PSCH:v1:unknown")), PlaylistError::UnknownMouflonKey);
    let p = playlist(Platform::SC, "sia", "https://h.example/p.m3u8", Some("#EXT-X-MAP:URI=none"));
    assert_eq!(err_of(done(sc::parse_playlist(&p, &keys))), PlaylistError::BadHeaderLine);
    let none = playlist(Platform::SC, "sia", "u", None);
    assert_eq!(err_of(done(sc::parse_playlist(&none, &keys))), PlaylistError::NoPlaylist);
}

fn encrypt(plain: &str, key: &str) -> String {
    let digest = sha2::Sha256::digest(key.as_bytes());
    let bytes: Vec<u8> = plain.bytes().enumerate().map(|(i, b)| b ^ digest[i % digest.len()]).collect();
    let enc = base64::engine::general_purpose::STANDARD_NO_PAD.encode(bytes);
    enc.chars().rev().collect()
}

#[test]
fn sc_decrypts_names() {
    let enc = encrypt("media", "Quean4cai9boJa5a");
    assert!(!enc.contains('_'));
    let line = format!("#EXT-X-MOUFLON:URI://h.example/b/seg_{}_123.mp4", enc);
    let c: Vec<char> = line.chars().collect();
    let plain: String = sc::decrypt("Quean4cai9boJa5a", &c).unwrap().into_iter().collect();
    assert_eq!(plain, "https://h.example/b/seg_media_123.mp4");
    let no_name: Vec<char> = "#EXT-X-MOUFLON:URI://h.example/plain.mp4".chars().collect();
    assert_eq!(sc::decrypt("k", &no_name), Err(PlaylistError::NoEncryptedName));
    let bad: Vec<char> = "#EXT-X-MOUFLON:URI://h/seg_a*b_1.mp4".chars().collect();
    assert_eq!(sc::decrypt("k", &bad), Err(PlaylistError::BadEncryptedName));

    let text = format!(
        "#EXTM3U\n#EXT-X-MOUFLON:PSCH:v1:Zokee2OhPh9kugh4\n#EXT-X-PROGRAM-DATE-TIME:2024-01-02T03:04:05Z\n{}\nhttps://h.example/b/seg_media_123.mp4\n",
        line
    );
    let mut p = playlist(Platform::SC, "sia", "https://h.example/p.m3u8", Some(&text));
    p.mp4_header = Some(vec![0]);
    let v = done(sc::parse_playlist(&p, &sc::default_mouflon_keys())).unwrap();
    assert_eq!(v.len(), 1);
    assert_eq!(v[0].url, "https://h.example/b/seg_media_123.mp4");
    assert_eq!(v[0].stream_id, 123);
}

#[test]
fn sc_key_tables() {
    let d = sc::default_mouflon_keys();
    assert_eq!(d.pairs.len(), 11);
    let name: Vec<char> = "Zokee2OhPh9kugh4".chars().collect();
    assert_eq!(d.get(&name), Some("Quean4cai9boJa5a".to_string()));
    let other: Vec<char> = "OLzu7QlySkG2fVRn".chars().collect();
    assert_eq!(d.get(&other), Some("CsovScFH9VirSJ4Z".to_string()));
    assert!(!d.contains_key(&['x']));
    let published = obj(vec![("a", s("b"))]);
    let k = sc::MouflonKeys::from_published(Some(&published));
    assert_eq!(k.pairs, vec![("a".to_string(), "b".to_string())]);
    assert_eq!(sc::MouflonKeys::from_published(Some(&obj(vec![("a", n(1))]))).pairs, d.pairs);
    assert_eq!(sc::MouflonKeys::from_published(Some(&arr(vec![]))).pairs, d.pairs);
    assert_eq!(sc::MouflonKeys::from_published(None).pairs, d.pairs);
}

#[test]
fn sc_lookups() {
    assert_eq!(sc::models_address(), "https://stripchat.com/api/front/models?primaryTag=girls");
    assert_eq!(sc::cam_address("sia"), "https://stripchat.com/api/front/v2/models/username/sia/cam");
    let models = obj(vec![("models", arr(vec![obj(vec![("hlsPlaylist", s("https://edge-hls.example.com/hls/1/master/1.m3u8"))])]))]);
    assert_eq!(sc::hls_prefix(&models), Some("https://edge-hls.example.com".to_string()));
    assert_eq!(sc::hls_prefix(&obj(vec![("models", arr(vec![]))])), None);
    let cam = obj(vec![("user", obj(vec![("user", obj(vec![("id", n(42))]))]))]);
    assert_eq!(sc::model_id(&cam), Some(42));
    assert_eq!(sc::model_id(&obj(vec![])), None);
    assert_eq!(sc::master_address("https://e.example", 42, false), "https://e.example/hls/42/master/42.m3u8");
    assert_eq!(sc::master_address("https://e.example", 42, true), "https://e.example/hls/42_vr/master/42_vr.m3u8");
}

#[test]
fn sc_select_playlist() {
    let keys = sc::default_mouflon_keys();
    let body = "#EXT-X-STREAM-INF:BANDWIDTH=1\nhttps://e.example/hls/42/42_480p.m3u8\n#EXT-X-STREAM-INF:BANDWIDTH=2\nhttps://e.example/hls/42/42.m3u8\n";
    let with_key = format!("#EXTM3U\n#EXT-X-MOUFLON:PSCH:v1:Zokee2OhPh9kugh4\n{}", body);
    assert!(sc::master_lines_valid(&with_key));
    assert_eq!(
        sc::select_playlist(&with_key, &keys),
        Ok(Some("https://e.example/hls/42/42.m3u8?&psch=v1&pkey=Zokee2OhPh9kugh4".to_string()))
    );
    let unknown = format!("#EXTM3U\n#EXT-X-MOUFLON:PSCH:v1:nokey\n{}", body);
    assert_eq!(sc::select_playlist(&unknown, &keys), Ok(Some("https://e.example/hls/42/42.m3u8".to_string())));
    assert_eq!(sc::select_playlist(body, &keys), Ok(Some("https://e.example/hls/42/42.m3u8".to_string())));
    assert_eq!(sc::select_playlist("#EXT-X-MOUFLON:PSCH\nhttps://e/x.m3u8", &keys), Err(LookupError::NoMouflonKey));
    assert_eq!(sc::select_playlist("#EXTM3U\n", &keys), Ok(None));
    assert!(!sc::master_lines_valid("éééééé\n"));
}

#[test]
fn soda_scan_and_lookup() {
    let text = "#EXTM3U\n#EXT-X-MAP:URI=\"init.mp4\"\n#EXT-X-PROGRAM-DATE-TIME:2024-05-06T07:08:09.000Z\nhttps://edge.example/seg-42.llhls.mp4\n";
    let mut p = playlist(Platform::SODA, "sol", "https://edge.example/sol_v1/index.ll.m3u8", Some(text));
    let state = match soda::parse_playlist(&p) {
        ScanStep::NeedHeader(u, st) => {
            assert_eq!(u, "https://edge.example/sol_v1/init.mp4");
            st
        }
        ScanStep::Done(_) => panic!("the header is not known yet"),
    };
    p.mp4_header = Some(vec![7]);
    let keys = sc::MouflonKeys { pairs: Vec::new() };
    let v = done(scan(&p, ScanKind::Soda, &keys, state)).unwrap();
    assert_eq!(v.len(), 1);
    assert_eq!(v[0].url, "https://edge.example/seg-42.llhls.mp4");
    assert_eq!(v[0].stream_id, 42);
    assert_eq!(v[0].filename, "CS_sol_24-05-06_07-08");
    assert_eq!(v[0].platform, Platform::SODA);
    let bad = playlist(Platform::SODA, "sol", "https://e/p.m3u8", Some("#TIME-----2024-05-06T07:08\nplain.mp4"));
    let mut bad = bad;
    bad.mp4_header = Some(vec![1]);
    assert_eq!(err_of(done(soda::parse_playlist(&bad))), PlaylistError::NoStreamId);
    let start = ScanState::start();
    assert_eq!(start.line, 0);

    assert_eq!(soda::page_address("sol"), "https://www.camsoda.com/sol");
    let html = "<script>{\"x\":1,\"stream\":{\"edge_servers\":[\"e1.example\"],\"stream_name\":\"sol\",\"token\":\"TK\"},\"y\":2}</script>";
    assert_eq!(
        soda::stream_json_text(html),
        Some("{\"stream\":{\"edge_servers\":[\"e1.example\"],\"stream_name\":\"sol\",\"token\":\"TK\"}}".to_string())
    );
    assert_eq!(soda::stream_json_text("<html></html>"), None);
    let desc = |edges: Vec<JsonValue>| {
        obj(vec![("stream", obj(vec![("edge_servers", arr(edges)), ("stream_name", s("sol")), ("token", s("TK"))]))])
    };
    assert_eq!(
        soda::playlist_address(&desc(vec![s("e1.example")])),
        Ok(Some("https://e1.example/sol_v1/index.ll.m3u8?multitrack=true&filter=tracks:v4v3v2v1a1a2&token=TK".to_string()))
    );
    assert_eq!(soda::playlist_address(&desc(vec![])), Ok(None));
    assert_eq!(soda::playlist_address(&desc(vec![n(1)])), Err(LookupError::Missing));
}

#[test]
fn platform_dispatch() {
    let keys = sc::default_mouflon_keys();
    let p = playlist(Platform::CB, "c", "https://x/p.m3u8", Some("seg_1.ts"));
    assert_eq!(err_of(done(Platform::CB.parse_playlist(&p, &keys, DATE))), PlaylistError::Unsupported);
    let p = playlist(Platform::BONGA, "anna", "https://v.example/h/p.m3u8", Some("seg_a_b_5.ts"));
    let v = done(Platform::BONGA.parse_playlist(&p, &keys, DATE)).unwrap();
    assert_eq!(v[0].stream_id, 5);
    let mut p = playlist(Platform::SC, "sia", "https://h.example/p.m3u8", Some(SC_PLAYLIST));
    assert!(matches!(Platform::SC.parse_playlist(&p, &keys, DATE), ScanStep::NeedHeader(_, _)));
    p.mp4_header = Some(vec![1]);
    assert_eq!(done(Platform::SCVR.parse_playlist(&p, &keys, DATE)).unwrap()[0].filename, "SCVR_sia_24-01-02_03-04");
}

#[test]
fn variant_picking() {
    let master = "#EXTM3U\n#EXT-X-STREAM-INF\nchunklist_low.m3u8\n#EXT-X-STREAM-INF\nchunklist_high.m3u8\nabc\n";
    let url = "https://v.example/hls/stream_a/playlist.m3u8";
    assert!(variant_lines_ok(master, true) && variant_lines_ok(master, false));
    assert_eq!(
        pick_variant(master, url, true, VariantAddress::Relative),
        Ok(Some("https://v.example/hls/stream_a/chunklist_high.m3u8".to_string()))
    );
    assert_eq!(
        pick_variant(master, url, false, VariantAddress::Relative),
        Ok(Some("https://v.example/hls/stream_a/chunklist_low.m3u8".to_string()))
    );
    assert_eq!(
        pick_variant(master, url, true, VariantAddress::HostRoot),
        Ok(Some("https://v.example/chunklist_high.m3u8".to_string()))
    );
    assert_eq!(pick_variant(master, url, false, VariantAddress::AsIs), Ok(Some("chunklist_low.m3u8".to_string())));
    assert_eq!(pick_variant("#EXTM3U\nabc\n", url, false, VariantAddress::AsIs), Ok(None));
    assert_eq!(pick_variant(master, "nourl", true, VariantAddress::Relative), Err(LookupError::NoUrlPrefix));
    assert!(!variant_lines_ok("#x\néééééé\n", false));
    assert!(variant_lines_ok("abcdef\néééééé\n", false));
    assert!(!variant_lines_ok("abcdef\néééééé\n", true));
}

#[test]
fn checked_reading() {
    let keys = sc::default_mouflon_keys();
    let bad = playlist(Platform::BONGA, "anna", "https://v.example/h/p.m3u8", Some("seg_a_b_5.ts\nébc"));
    assert!(Platform::BONGA.parse_playlist_checked(&bad, &keys, DATE).is_none());
    // a line after the first failing entry is never tested
    let late = playlist(Platform::BONGA, "anna", "https://v.example/h/p.m3u8", Some("a_b.ts\nébc"));
    match Platform::BONGA.parse_playlist_checked(&late, &keys, DATE) {
        Some(step) => assert_eq!(err_of(done(step)), PlaylistError::NoStreamId),
        None => panic!("the read stops before the line"),
    }
    let good = playlist(Platform::BONGA, "anna", "https://v.example/h/p.m3u8", Some("seg_a_b_5.ts\n"));
    match Platform::BONGA.parse_playlist_checked(&good, &keys, DATE) {
        Some(step) => assert_eq!(done(step).unwrap()[0].stream_id, 5),
        None => panic!("every line can be tested"),
    }
    let none = playlist(Platform::MFC, "m", "u", None);
    assert!(matches!(
        Platform::MFC.parse_playlist_checked(&none, &keys, DATE),
        Some(ScanStep::Done(Err(PlaylistError::NoPlaylist)))
    ));
    let mut p = playlist(Platform::SC, "sia", "https://h.example/p.m3u8", Some(SC_PLAYLIST));
    let state = match Platform::SC.parse_playlist_checked(&p, &keys, DATE) {
        Some(ScanStep::NeedHeader(_, st)) => st,
        _ => panic!("the header is not known yet"),
    };
    p.mp4_header = Some(vec![1]);
    match cbstream::platforms::scan::resume(&p, ScanKind::Sc { vr: false }, &keys, state) {
        Some(step) => assert_eq!(done(step).unwrap().len(), 2),
        None => panic!("every line can be tested"),
    }
    p.playlist = Some("#EXTM3U\néééé\n".to_string());
    assert!(cbstream::platforms::scan::resume(&p, ScanKind::Sc { vr: false }, &keys, ScanState::start()).is_none());
}

#[test]
fn decryption_pieces() {
    let enc: Vec<char> = "abcde".chars().collect();
    let padded: String = sc::base64_input(&enc).into_iter().collect();
    assert_eq!(padded, "edcba===");
    let data = vec![1u8, 2, 3, 250];
    let key = vec![7u8, 9];
    let masked = sc::unmask(&data, &key);
    assert_eq!(masked, vec![1 ^ 7, 2 ^ 9, 3 ^ 7, 250 ^ 9]);
    assert_eq!(sc::unmask(&masked, &key), data);
    assert_eq!(cbstream::platforms::scan::soda_number(&['4', '2']), Ok(42));
    assert_eq!(cbstream::platforms::scan::soda_number(&[]), Err(PlaylistError::BadStreamId));
}

#[test]
fn bonga_agent_and_error_texts() {
    assert_eq!(bonga::agent_header("Mozilla/5.0 (X11) Chrome"), "mozilla/5.0 (x11) chrome");
    assert_eq!(PlaylistError::ShortDateLine.message(), "error parsing date from playlist");
    assert_eq!(PlaylistError::BadHeaderLine.message(), "can not get mp4 header file");
    assert_eq!(LookupError::UserNotFound.message(), "user not found");
}
