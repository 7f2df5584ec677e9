//! URL and name helpers shared by the platforms.
use vstd::prelude::*;
use crate::text;
use crate::outside;
use crate::json::{JsonValue, json_str};
use crate::platforms::LookupError;

verus! {

broadcast use vstd::string::group_string_axioms;

/// What `url_prefix` returns: when `suffix` holds a `/`, the scheme and host of `url`
/// (everything before the first `/` after `://`); otherwise everything before the last `/`.
pub open spec fn url_prefix_seq(url: Seq<char>, suffix: Seq<char>) -> Option<Seq<char>> {
    if text::contains_seq(suffix, seq!['/']) {
        match text::find_seq(url, seq![':', '/', '/']) {
            None => None,
            Some(p) => match text::find_seq(url.skip(p + 3), seq!['/']) {
                None => None,
                Some(n) => Some(url.take(p + 3 + n)),
            },
        }
    } else {
        match text::rfind_char_seq(url, '/') {
            None => None,
            Some(n) => Some(url.take(n)),
        }
    }
}

/// The prefix against which a playlist entry `suffix` is resolved: a path that holds a
/// `/` is taken from the host root, a bare name from the directory of `url`.
pub fn url_prefix<'a>(url: &'a str, suffix: &str) -> (r: Option<&'a str>)
    ensures
        r matches Some(p) ==> url_prefix_seq(url@, suffix@) == Some(p@),
        r is None ==> url_prefix_seq(url@, suffix@) is None,
{
    let u = text::chars_of(url);
    let sfx = text::chars_of(suffix);
    match url_prefix_len(u.as_slice(), sfx.as_slice()) {
        Some(n) => Some(url.substring_char(0, n)),
        None => None,
    }
}

/// Number of characters of `u` that `url_prefix` keeps.
pub fn url_prefix_len(u: &[char], sfx: &[char]) -> (r: Option<usize>)
    ensures
        r matches Some(n) ==> n <= u@.len() && url_prefix_seq(u@, sfx@) == Some(u@.take(n as int)),
        r is None ==> url_prefix_seq(u@, sfx@) is None,
{
    let slash: [char; 1] = ['/'];
    assert(slash@ =~= seq!['/']);
    if text::contains(sfx, &slash) {
        let sep: [char; 3] = [':', '/', '/'];
        assert(sep@ =~= seq![':', '/', '/']);
        match text::find(u, &sep) {
            None => None,
            Some(p) => {
                proof {
                    text::lemma_find_from_props(u@, sep@, 0);
                    assert(sep@.len() == 3);
                }
                assert(p + 3 <= u.len());
                let start = p + 3;
                let rest = text::slice_chars(u, start, u.len());
                assert(rest@ =~= u@.skip(start as int));
                match text::find(rest.as_slice(), &slash) {
                    None => None,
                    Some(n) => {
                        proof {
                            text::lemma_find_from_props(rest@, slash@, 0);
                        }
                        Some(start + n)
                    },
                }
            },
        }
    } else {
        match text::rfind_char(u, '/') {
            None => None,
            Some(n) => {
                proof {
                    text::lemma_rfind_range(u@, '/');
                }
                Some(n)
            },
        }
    }
}

/// `url_prefix(url, suffix)` followed by `/` and `suffix`: the address of a playlist entry.
pub open spec fn resolve_seq(url: Seq<char>, suffix: Seq<char>) -> Option<Seq<char>> {
    match url_prefix_seq(url, suffix) {
        Some(p) => Some(p + seq!['/'] + suffix),
        None => None,
    }
}

pub fn resolve(u: &[char], sfx: &[char]) -> (r: Option<Vec<char>>)
    ensures
        r matches Some(v) ==> resolve_seq(u@, sfx@) == Some(v@),
        r is None ==> resolve_seq(u@, sfx@) is None,
{
    match url_prefix_len(u, sfx) {
        Some(n) => {
            let mut v = text::slice_chars(u, 0, n);
            v.push('/');
            text::push_all(&mut v, sfx);
            assert(v@ =~= u@.take(n as int) + seq!['/'] + sfx@);
            Some(v)
        },
        None => None,
    }
}

/// The ASCII digits of `url`, in order.
pub fn remove_non_num(url: &str) -> (r: String)
    ensures
        r@ == text::digits_only(url@),
{
    let u = text::chars_of(url);
    let d = text::keep_digits(u.as_slice());
    text::string_of(d.as_slice())
}

/// `n` written with two digits, zero-padded (`n` below 100).
pub open spec fn two_digits(n: int) -> Seq<char> {
    seq![text::digit_char((n / 10) as nat), text::digit_char((n % 10) as nat)]
}

/// `%y-%m-%d_%H-%M`: the year modulo 100 (Euclidean), month, day, hour and minute, each with
/// two digits.
pub open spec fn stamp_seq(year: int, month: int, day: int, hour: int, minute: int) -> Seq<char> {
    two_digits(year % 100) + seq!['-'] + two_digits(month) + seq!['-'] + two_digits(day) + seq!['_']
        + two_digits(hour) + seq!['-'] + two_digits(minute)
}

/// A local calendar date and time, as the clock gives it: month 1–12, day 1–31, hour 0–23,
/// minute 0–59.
pub struct LocalTime {
    pub year: i32,
    pub month: u32,
    pub day: u32,
    pub hour: u32,
    pub minute: u32,
}

/// The fields can be written with two digits each.
pub open spec fn writable(t: LocalTime) -> bool {
    t.month < 100 && t.day < 100 && t.hour < 100 && t.minute < 100
}

/// The `yy-mm-dd_HH-MM` stamp of `t`.
pub open spec fn stamp_of_time(t: LocalTime) -> Seq<char> {
    stamp_seq(t.year as int, t.month as int, t.day as int, t.hour as int, t.minute as int)
}

fn push_two(v: &mut Vec<char>, n: u32)
    requires
        n < 100,
    ensures
        final(v)@ == old(v)@ + two_digits(n as int),
{
    let hi = text::digit_exec((n / 10) as u64);
    let lo = text::digit_exec((n % 10) as u64);
    v.push(hi);
    v.push(lo);
    assert(final(v)@ =~= old(v)@ + two_digits(n as int));
}

/// The year modulo 100, taken as Euclidean remainder.
fn year_mod_100(year: i32) -> (r: u32)
    ensures
        r as int == (year as int) % 100,
        r < 100,
{
    if year >= 0 {
        ((year as i64) % 100) as u32
    } else {
        let p: u64 = (-(year as i64)) as u64;
        let q: u64 = p % 100;
        let r: u32 = if q == 0 { 0 } else { (100 - q) as u32 };
        assert(r as int == (year as int) % 100) by (nonlinear_arith)
            requires
                year < 0,
                p == -(year as int),
                q == p % 100,
                r == (if q == 0 { 0int } else { 100 - q }),
        ;
        r
    }
}

/// The `yy-mm-dd_HH-MM` stamp of a date and time, as `chrono`'s `%y-%m-%d_%H-%M` writes it.
pub fn stamp_of(year: i32, month: u32, day: u32, hour: u32, minute: u32) -> (r: String)
    requires
        month < 100,
        day < 100,
        hour < 100,
        minute < 100,
    ensures
        r@ == stamp_seq(year as int, month as int, day as int, hour as int, minute as int),
{
    let mut v: Vec<char> = Vec::new();
    push_two(&mut v, year_mod_100(year));
    v.push('-');
    push_two(&mut v, month);
    v.push('-');
    push_two(&mut v, day);
    v.push('_');
    push_two(&mut v, hour);
    v.push('-');
    push_two(&mut v, minute);
    assert(v@ =~= stamp_seq(year as int, month as int, day as int, hour as int, minute as int));
    text::string_of(v.as_slice())
}

/// The `yy-mm-dd_HH-MM` stamp of a local date and time.
pub fn date(now: &LocalTime) -> (r: String)
    requires
        writable(*now),
    ensures
        r@ == stamp_of_time(*now),
{
    stamp_of(now.year, now.month, now.day, now.hour, now.minute)
}

/// `hour` and `minute` of the day, written one after the other, for Unix time `secs`.
pub open spec fn unique_time_of(secs: nat) -> Seq<char> {
    let minutes = (secs % 86400) / 60;
    text::dec_string(minutes / 60) + text::dec_string(minutes % 60)
}

pub fn unique_time_at(secs: u64) -> (r: String)
    ensures
        r@ == unique_time_of(secs as nat),
{
    let minutes = (secs % 86400) / 60;
    let mut v = text::u64_digits(minutes / 60);
    let m = text::u64_digits(minutes % 60);
    text::push_all(&mut v, m.as_slice());
    text::string_of(v.as_slice())
}

/// The current hour and minute of the day (UTC) written one after the other; `None` when the
/// clock stands before 1970.
pub fn unique_time() -> (r: Option<String>)
    ensures
        r matches Some(s) ==> exists|t: nat| s@ == #[trigger] unique_time_of(t),
{
    let now = outside::system_now();
    match outside::unix_seconds(&now) {
        None => None,
        Some(secs) => Some(unique_time_at(secs)),
    }
}

/// The directory under which temporary recordings go: the `TEMP` variable, or `/var/tmp`
/// where it is unset, except on Windows, where it must be set.
pub open spec fn temp_base_of(temp: Option<Seq<char>>, windows: bool) -> Option<Seq<char>> {
    match temp {
        Some(t) => Some(t),
        None => if windows { None } else { Some("/var/tmp"@) },
    }
}

pub fn temp_base(temp: Option<&str>, windows: bool) -> (r: Option<String>)
    ensures
        crate::stream::str_opt(r) == temp_base_of(crate::stream::slice_opt(temp), windows),
{
    match temp {
        Some(t) => Some(t.to_owned()),
        None => if windows {
            None
        } else {
            Some("/var/tmp".to_owned())
        },
    }
}

/// The directory made under the temporary base.
pub fn temp_subdir() -> (r: &'static str)
    ensures
        r@ == "cbstream"@,
{
    "cbstream"
}

/// The name of a temporary recording: the audio one carries `_audio`.
pub fn temp_file_name(filename: &str, audio: bool) -> (r: String)
    ensures
        r@ == (if audio { filename@ + "_audio"@ } else { filename@ }),
{
    let mut v = text::chars_of(filename);
    if audio {
        text::push_str(&mut v, "_audio");
    }
    text::string_of(v.as_slice())
}

/// The name of the `n`th recording of a muxing run: the first keeps the segment's name, the
/// later ones carry the run's id.
pub fn round_file_name(filename: &str, repeat: bool, mux_id: &str) -> (r: String)
    ensures
        r@ == (if repeat { filename@ + seq!['_'] + mux_id@ } else { filename@ }),
{
    let mut v = text::chars_of(filename);
    if repeat {
        v.push('_');
        text::push_str(&mut v, mux_id);
    }
    text::string_of(v.as_slice())
}

/// The name a recording takes when its name is already taken: `stem-.ext`.
pub fn free_file_name(stem: &str, ext: &str) -> (r: String)
    ensures
        r@ == stem@ + "-."@ + ext@,
{
    let mut v = text::chars_of(stem);
    text::push_str(&mut v, "-.");
    text::push_str(&mut v, ext);
    text::string_of(v.as_slice())
}

/// Bytes that the temporary directory must have free before a recording starts.
pub const MIN_FREE_SPACE: u64 = 134217728;

/// Whether a recording may start: the free space is unknown or at least `MIN_FREE_SPACE`.
pub fn has_room(available: Option<u64>) -> (r: bool)
    ensures
        r == (match available {
            None => true,
            Some(a) => a >= MIN_FREE_SPACE,
        }),
{
    match available {
        None => true,
        Some(a) => a >= MIN_FREE_SPACE,
    }
}

/// The free space of the disk holding `path`: among the disks mounted at a leading part of
/// it, the one with the longest mount point (the last such when several are as long).
pub open spec fn space_for(path: Seq<char>, disks: Seq<(String, u64)>) -> Option<(nat, u64)>
    decreases disks.len(),
{
    if disks.len() == 0 {
        None
    } else {
        let best = space_for(path, disks.drop_last());
        let d = disks.last();
        if outside::path_has_prefix(path, d.0@) {
            let len = (vstd::utf8::encode_utf8(d.0@).len() as usize) as nat;
            match best {
                Some((l, a)) => if len >= l {
                    Some((len, d.1))
                } else {
                    best
                },
                None => Some((len, d.1)),
            }
        } else {
            best
        }
    }
}

/// The free space of the disk holding `path`, given the mount points and free space of
/// the disks.
pub fn available_space_for_path(path: &str, disks: &Vec<(String, u64)>) -> (r: Option<u64>)
    ensures
        r == (match space_for(path@, disks@) {
            Some((l, a)) => Some(a),
            None => None,
        }),
{
    let mut best: Option<(usize, u64)> = None;
    let mut i: usize = 0;
    while i < disks.len()
        invariant
            i <= disks@.len(),
            (match best {
                Some((l, a)) => Some((l as nat, a)),
                None => None,
            }) == space_for(path@, disks@.take(i as int)),
        decreases disks@.len() - i,
    {
        assert(disks@.take(i + 1).drop_last() =~= disks@.take(i as int));
        let mount = disks[i].0.as_str();
        if outside::path_starts_with(path, mount) {
            let len = mount.len();
            assert(len == (vstd::utf8::encode_utf8(disks@[i as int].0@).len() as usize));
            match best {
                Some((l, _)) => {
                    if len >= l {
                        best = Some((len, disks[i].1));
                    }
                },
                None => {
                    best = Some((len, disks[i].1));
                },
            }
        }
        i = i + 1;
    }
    assert(disks@.take(disks@.len() as int) =~= disks@);
    match best {
        Some((_, a)) => Some(a),
        None => None,
    }
}

/// The request headers that a JSON object of strings gives.
pub open spec fn header_pairs(json: JsonValue) -> Option<Seq<(Seq<char>, Seq<char>)>> {
    match json {
        JsonValue::Object(pairs) => if forall|i: int| 0 <= i < pairs@.len() ==> json_str(#[trigger] pairs@[i].1) is Some {
            Some(Seq::new(pairs@.len(), |i: int| (pairs@[i].0@, json_str(pairs@[i].1)->0)))
        } else {
            None
        },
        _ => None,
    }
}

/// The request headers named by a JSON object whose members are strings.
pub fn create_headers(json: &JsonValue) -> (r: Result<Vec<(String, String)>, LookupError>)
    ensures
        r matches Ok(v) ==> header_pairs(*json) == Some(v@.map_values(|p: (String, String)| (p.0@, p.1@))),
        r is Err ==> header_pairs(*json) is None,
{
    let pairs = match json {
        JsonValue::Object(p) => p,
        _ => return Err(LookupError::Missing),
    };
    let mut out: Vec<(String, String)> = Vec::new();
    let mut i: usize = 0;
    while i < pairs.len()
        invariant
            i <= pairs@.len(),
            *json == JsonValue::Object(*pairs),
            out@.len() == i,
            forall|j: int| 0 <= j < i ==> json_str(#[trigger] pairs@[j].1) is Some,
            forall|j: int| 0 <= j < i ==> (#[trigger] out@[j]).0@ == pairs@[j].0@ && out@[j].1@ == json_str(pairs@[j].1)->0,
        decreases pairs@.len() - i,
    {
        match pairs[i].1.as_str() {
            None => return Err(LookupError::Missing),
            Some(v) => {
                out.push((pairs[i].0.clone(), v.clone()));
            },
        }
        i = i + 1;
    }
    assert(out@.map_values(|p: (String, String)| (p.0@, p.1@)) =~= Seq::new(pairs@.len(), |i: int| (pairs@[i].0@, json_str(pairs@[i].1)->0)));
    Ok(out)
}


/// Where a finished recording named `filename` goes: into the directory named after the
/// model, as `PathBuf::from(username).push(filename)` joins them with `/`.
pub open spec fn final_path_of(username: Seq<char>, filename: Seq<char>) -> Seq<char> {
    if filename.len() > 0 && filename[0] == '/' {
        filename
    } else if username.len() == 0 || username.last() == '/' {
        username + filename
    } else {
        username + seq!['/'] + filename
    }
}

pub fn final_path(username: &str, filename: &str) -> (r: String)
    ensures
        r@ == final_path_of(username@, filename@),
{
    let u = text::chars_of(username);
    let f = text::chars_of(filename);
    if f.len() > 0 && f[0] == '/' {
        return filename.to_owned();
    }
    let mut v = text::slice_chars(u.as_slice(), 0, u.len());
    if !(u.len() == 0 || u[u.len() - 1] == '/') {
        v.push('/');
    }
    text::push_all(&mut v, f.as_slice());
    assert(v@ =~= final_path_of(username@, filename@));
    text::string_of(v.as_slice())
}

/// Whether a request is made again: the last one failed and fewer than `trys` were made.
pub fn retry_again(attempt: u32, trys: i32, ok: bool) -> (r: bool)
    ensures
        r == (!ok && (attempt as int) < (trys as int)),
{
    !ok && (attempt as i64) < (trys as i64)
}

/// The answer text quoted in a failure: at most its first 100 bytes.
pub open spec fn quoted_body(body: Seq<char>) -> Seq<char> {
    if text::byte_len(body) <= 100 {
        body
    } else {
        text::byte_get(body, 0, 100)->0
    }
}

/// Cutting the answer text at 100 bytes does not split a character.
pub open spec fn quotable(body: Seq<char>) -> bool {
    text::byte_len(body) <= 100 || text::byte_get(body, 0, 100) is Some
}

/// The error of a request answered with another status than 200: the status, `-`, and the
/// start of the answer.
pub fn failure_text(status: &str, body: &str) -> (r: String)
    requires
        quotable(body@),
    ensures
        r@ == status@ + "-"@ + quoted_body(body@),
{
    let b = text::chars_of(body);
    let mut v = text::chars_of(status);
    text::push_str(&mut v, "-");
    if text::byte_len_lt(b.as_slice(), 101) {
        text::push_all(&mut v, b.as_slice());
    } else {
        assert(b@.take(0) =~= Seq::<char>::empty());
        match text::byte_window(b.as_slice(), 0, 0, 100) {
            Some(w) => text::push_all(&mut v, w.as_slice()),
            None => {
                assert(false);
            },
        }
    }
    assert(v@ =~= status@ + "-"@ + quoted_body(body@));
    text::string_of(v.as_slice())
}

/// Whether `failure_text` can quote `body`.
pub fn quotable_exec(body: &str) -> (r: bool)
    ensures
        r == quotable(body@),
{
    let b = text::chars_of(body);
    if text::byte_len_lt(b.as_slice(), 101) {
        return true;
    }
    assert(b@.take(0) =~= Seq::<char>::empty());
    text::byte_window(b.as_slice(), 0, 0, 100).is_some()
}

} // verus!
