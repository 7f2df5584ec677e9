use cbstream::text;
use cbstream::util;
use cbstream::err::{header_cast, PanicPayload};
use cbstream::json::JsonValue;

fn chars(s: &str) -> Vec<char> {
    s.chars().collect()
}

fn strings(v: Vec<Vec<char>>) -> Vec<String> {
    v.into_iter().map(|l| l.into_iter().collect()).collect()
}

#[test]
fn lines_follow_str_lines() {
    for s in ["a\r\nb\n", "a\n\nb", "a\r", "", "\n", "x\ny\r\n\r\n", "one"] {
        let expected: Vec<String> = s.lines().map(|l| l.to_string()).collect();
        assert_eq!(strings(text::lines(&chars(s))), expected, "input {:?}", s);
    }
}

#[test]
fn split_follows_str_split() {
    for s in ["a_b_c", "_a_", "", "abc", "__"] {
        let expected: Vec<String> = s.split('_').map(|l| l.to_string()).collect();
        assert_eq!(strings(text::split(&chars(s), '_')), expected);
    }
}

#[test]
fn parse_u32_follows_from_str() {
    for s in ["12", "+12", "-1", "4294967295", "4294967296", "", "+", "1a", "007"] {
        assert_eq!(text::parse_u32(&chars(s)), s.parse::<u32>().ok(), "input {:?}", s);
    }
    assert_eq!(text::parse_u64(&chars("18446744073709551615")), Some(u64::MAX));
    assert_eq!(text::parse_u64(&chars("18446744073709551616")), None);
}

#[test]
fn replace_follows_str_replace() {
    let cases = [("a:b:c", ":", "-"), ("aaaa", "aa", "b"), ("ab", "", "x"), ("hello", "zz", "y"), ("", "", "q")];
    for (s, p, r) in cases {
        let got: String = text::replace(&chars(s), &chars(p), &chars(r)).into_iter().collect();
        assert_eq!(got, s.replace(p, r), "input {:?}", (s, p, r));
    }
}

#[test]
fn trim_and_reverse_and_digits() {
    let t: String = text::trim(&chars(" \t x y \u{3000}")).into_iter().collect();
    assert_eq!(t, "x y");
    let r: String = text::reverse(&chars("abc")).into_iter().collect();
    assert_eq!(r, "cba");
    assert_eq!(util::remove_non_num("ab12c3"), "123");
    assert_eq!(util::remove_non_num(""), "");
}

#[test]
fn decimal_forms() {
    let d: String = text::u64_digits(0).into_iter().collect();
    assert_eq!(d, "0");
    let d: String = text::u64_digits(1234567890).into_iter().collect();
    assert_eq!(d, "1234567890");
    let d: String = text::i64_digits(i64::MIN).into_iter().collect();
    assert_eq!(d, i64::MIN.to_string());
    let d: String = text::i64_digits(-42).into_iter().collect();
    assert_eq!(d, "-42");
}

#[test]
fn byte_window_takes_bytes() {
    let line = chars("#EXT-X-PROGRAM-DATE-TIME:2024-01-02T03:04:05.000Z");
    let p = text::find_str(&line, "TIME").unwrap();
    let w: String = text::byte_window(&line, p, 7, 21).unwrap().into_iter().collect();
    assert_eq!(w, "24-01-02T03:04");
    // a window ending inside a two-byte character is refused
    let line = chars("TIMEéééééééééééééé");
    assert!(text::byte_window(&line, 0, 7, 21).is_none());
    assert!(text::byte_len_lt(&chars("é"), 3));
    assert!(!text::byte_len_lt(&chars("éé"), 3));
}

#[test]
fn url_prefix_cases() {
    assert_eq!(util::url_prefix("https://a.com/x/y/pl.m3u8", "seg.ts"), Some("https://a.com/x/y"));
    assert_eq!(util::url_prefix("https://a.com/x/y/pl.m3u8", "/abs/seg.ts"), Some("https://a.com"));
    assert_eq!(util::url_prefix("nohost", "seg.ts"), None);
    assert_eq!(util::url_prefix("https://a.com", "/x"), None);
    assert_eq!(util::url_prefix("a.com/x", "/x"), None);
}

#[test]
fn unique_time_formula() {
    assert_eq!(util::unique_time_at(3661), "11");
    assert_eq!(util::unique_time_at(86400 + 23 * 3600 + 59 * 60 + 59), "2359");
    assert_eq!(util::unique_time_at(0), "00");
    let now = util::unique_time().unwrap();
    assert!(now.len() >= 2 && now.len() <= 4);
}

#[test]
fn date_of_local_time() {
    let t = util::LocalTime { year: 2024, month: 2, day: 29, hour: 23, minute: 12 };
    assert_eq!(util::date(&t), "24-02-29_23-12");
}

#[test]
fn names_of_files() {
    assert_eq!(util::temp_file_name("SC_a_1", true), "SC_a_1_audio");
    assert_eq!(util::temp_file_name("SC_a_1", false), "SC_a_1");
    assert_eq!(util::round_file_name("f", true, "1234"), "f_1234");
    assert_eq!(util::round_file_name("f", false, "1234"), "f");
    assert_eq!(util::free_file_name("video", "mkv"), "video-.mkv");
    assert_eq!(util::temp_base(None, false), Some("/var/tmp".to_string()));
    assert_eq!(util::temp_base(None, true), None);
    assert_eq!(util::temp_base(Some("/t"), true), Some("/t".to_string()));
    assert_eq!(util::temp_subdir(), "cbstream");
    assert!(util::has_room(None));
    assert!(util::has_room(Some(1 << 27)));
    assert!(!util::has_room(Some((1 << 27) - 1)));
}

#[test]
fn disk_with_longest_mount_wins() {
    let disks = vec![
        ("/".to_string(), 1u64),
        ("/var".to_string(), 2u64),
        ("/var/tmp".to_string(), 3u64),
        ("/va".to_string(), 4u64),
    ];
    assert_eq!(util::available_space_for_path("/var/tmp/cbstream/x", &disks), Some(3));
    assert_eq!(util::available_space_for_path("/home/x", &disks), Some(1));
    assert_eq!(util::available_space_for_path("rel/x", &disks), None);
    let ties = vec![("/a".to_string(), 1u64), ("/a".to_string(), 2u64)];
    assert_eq!(util::available_space_for_path("/a/b", &ties), Some(2));
}

#[test]
fn headers_from_json() {
    let j = JsonValue::Object(vec![
        ("user-agent".to_string(), JsonValue::Str("ua".to_string())),
        ("referer".to_string(), JsonValue::Str("r".to_string())),
    ]);
    assert_eq!(
        util::create_headers(&j).unwrap(),
        vec![("user-agent".to_string(), "ua".to_string()), ("referer".to_string(), "r".to_string())]
    );
    let bad = JsonValue::Object(vec![("a".to_string(), JsonValue::Number(Some(1)))]);
    assert!(util::create_headers(&bad).is_err());
    assert!(util::create_headers(&JsonValue::Null).is_err());
}

#[test]
fn panic_messages() {
    assert_eq!(header_cast(PanicPayload::Str("boom".to_string())), "boom");
    assert_eq!(header_cast(PanicPayload::Owned("bang".to_string())), "bang");
    assert_eq!(header_cast(PanicPayload::Other), "unknown panic");
}

#[test]
fn stamps_of_dates() {
    assert_eq!(util::stamp_of(2024, 2, 29, 23, 12), "24-02-29_23-12");
    assert_eq!(util::stamp_of(2005, 1, 9, 0, 5), "05-01-09_00-05");
    assert_eq!(util::stamp_of(2000, 12, 31, 9, 59), "00-12-31_09-59");
    assert_eq!(util::stamp_of(-1, 7, 4, 1, 2), "99-07-04_01-02");
    assert_eq!(util::stamp_of(-100, 7, 4, 1, 2), "00-07-04_01-02");
}

#[test]
fn recording_folders() {
    assert_eq!(util::final_path("anna", "BC_anna_24-01-02_03-04"), "anna/BC_anna_24-01-02_03-04");
    assert_eq!(util::final_path("anna/", "f"), "anna/f");
    assert_eq!(util::final_path("", "f"), "f");
    assert_eq!(util::final_path("anna", "/abs"), "/abs");
    let mut p = std::path::PathBuf::from("anna");
    p.push("f");
    assert_eq!(p.to_string_lossy(), util::final_path("anna", "f"));
}

#[test]
fn request_retries_and_failures() {
    assert!(util::retry_again(0, 5, false));
    assert!(util::retry_again(4, 5, false));
    assert!(!util::retry_again(5, 5, false));
    assert!(!util::retry_again(0, 5, true));
    assert!(!util::retry_again(0, 0, false));
    assert!(!util::retry_again(0, -1, false));
    assert_eq!(util::failure_text("404 Not Found", "gone"), "404 Not Found-gone");
    let long = "x".repeat(150);
    assert_eq!(util::failure_text("500", &long), format!("500-{}", "x".repeat(100)));
    let split = format!("{}é", "x".repeat(99));
    assert!(!util::quotable_exec(&split));
    assert!(util::quotable_exec(&long));
    assert!(util::quotable_exec("short"));
}
