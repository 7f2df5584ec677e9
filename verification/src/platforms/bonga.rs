//! BongaCams: segment entries are relative names whose fourth `_`-separated field carries
//! the stream number.
use vstd::prelude::*;
use crate::platforms::{Platform, PlaylistError, fold_segments, fold_safe, recording_name, recording_name_exec};
use crate::stream::{Playlist, Stream, StreamView, outcome_is, stream_views};
use crate::text;
use crate::util;
use crate::outside;
use crate::platforms::LookupError;
use crate::json::{JsonValue, json_get, json_str, json_bool};

verus! {

broadcast use vstd::string::group_string_axioms;

/// Address and stream number of one entry line.
pub open spec fn entry(line: Seq<char>, playlist_url: Seq<char>) -> Result<(Seq<char>, u32), PlaylistError> {
    match util::resolve_seq(playlist_url, line) {
        None => Err(PlaylistError::NoUrlPrefix),
        Some(url) => {
            let pieces = text::split_seq(line, '_');
            if pieces.len() < 4 {
                Err(PlaylistError::NoStreamId)
            } else {
                match text::parse_uint_seq(text::digits_only(pieces[3]), u32::MAX as nat) {
                    None => Err(PlaylistError::BadStreamId),
                    Some(v) => Ok((url, v as u32)),
                }
            }
        },
    }
}

/// The segments of a BongaCams playlist, named with the given date.
pub open spec fn segments(
    text: Option<Seq<char>>,
    playlist_url: Seq<char>,
    username: Seq<char>,
    user_agent: Seq<char>,
    date: Seq<char>,
) -> Result<Seq<StreamView>, PlaylistError> {
    match text {
        None => Err(PlaylistError::NoPlaylist),
        Some(t) => fold_segments(
            text::lines_seq(t),
            |l: Seq<char>| entry(l, playlist_url),
            recording_name("BC"@, username, date),
            Platform::BONGA,
            user_agent,
        ),
    }
}

/// A BongaCams playlist gives one segment per entry line, in the order of the lines: when the
/// read succeeds the `i`th segment carries the address and stream number that the `i`th entry
/// line gives, the recording name `BC_username_date`, no audio and no initialisation
/// segment; the read succeeds whenever every entry line reads, and otherwise fails with the
/// error of the first entry line that does not.
pub proof fn lemma_one_segment_per_entry(
    t: Seq<char>,
    playlist_url: Seq<char>,
    username: Seq<char>,
    user_agent: Seq<char>,
    date: Seq<char>,
)
    ensures
        ({
            let es = crate::platforms::entry_lines(text::lines_seq(t));
            &&& segments(Some(t), playlist_url, username, user_agent, date) matches Ok(v) ==> {
                &&& v.len() == es.len()
                &&& forall|i: int| 0 <= i < v.len() ==> entry(#[trigger] es[i], playlist_url) == Ok::<(Seq<char>, u32), PlaylistError>((v[i].url, v[i].stream_id))
                    && v[i].filename == recording_name("BC"@, username, date)
                    && v[i].platform == Platform::BONGA
                    && v[i].user_agent == user_agent
                    && v[i].url_audio is None
                    && v[i].mp4_header is None
                    && v[i].index == 0
                    && v[i].data is None
            }
            &&& (forall|i: int| 0 <= i < es.len() ==> (entry(#[trigger] es[i], playlist_url)) is Ok) ==> segments(Some(t), playlist_url, username, user_agent, date) is Ok
            &&& segments(Some(t), playlist_url, username, user_agent, date) matches Err(e) ==> exists|i: int| 0 <= i < es.len()
                && entry(#[trigger] es[i], playlist_url) == Err::<(Seq<char>, u32), PlaylistError>(e)
                && forall|j: int| 0 <= j < i ==> (entry(#[trigger] es[j], playlist_url)) is Ok
        }),
{
    crate::platforms::lemma_fold_one_per_entry(
        text::lines_seq(t),
        |l: Seq<char>| entry(l, playlist_url),
        recording_name("BC"@, username, date),
        Platform::BONGA,
        user_agent,
    );
}

/// Reading the playlist tests for a leading `#` only lines that can be tested.
pub open spec fn readable(text: Seq<char>, playlist_url: Seq<char>) -> bool {
    fold_safe(text::lines_seq(text), |l: Seq<char>| entry(l, playlist_url))
}

fn entry_exec(line: &[char], playlist_url: &[char]) -> (r: Result<(Vec<char>, u32), PlaylistError>)
    ensures
        r matches Ok((u, id)) ==> entry(line@, playlist_url@) == Ok::<(Seq<char>, u32), PlaylistError>((u@, id)),
        r matches Err(e) ==> entry(line@, playlist_url@) == Err::<(Seq<char>, u32), PlaylistError>(e),
{
    let url = match util::resolve(playlist_url, line) {
        Some(u) => u,
        None => return Err(PlaylistError::NoUrlPrefix),
    };
    let pieces = text::split(line, '_');
    if pieces.len() < 4 {
        return Err(PlaylistError::NoStreamId);
    }
    let digits = text::keep_digits(pieces[3].as_slice());
    match text::parse_u32(digits.as_slice()) {
        None => Err(PlaylistError::BadStreamId),
        Some(v) => Ok((url, v)),
    }
}

/// The segments of the downloaded playlist, their recording named with `date`, where the read
/// tests for a leading `#` only lines that can be tested; `None` where it would test one that
/// cannot.
pub fn read_at(playlist: &Playlist, date: &str) -> (r: Option<Result<Vec<Stream>, PlaylistError>>)
    ensures
        r is None <==> (playlist.playlist matches Some(t) && !readable(t@, playlist.playlist_url@)),
        r matches Some(x) ==> outcome_is(
            x,
            segments(
                crate::stream::str_opt(playlist.playlist),
                playlist.playlist_url@,
                playlist.username@,
                playlist.settings.user_agent@,
                date@,
            ),
        ),
{
    let text = match &playlist.playlist {
        Some(t) => t,
        None => return Some(Err(PlaylistError::NoPlaylist)),
    };
    let t = text::chars_of(text.as_str());
    let lines = text::lines(t.as_slice());
    let url = text::chars_of(playlist.playlist_url.as_str());
    let user = text::chars_of(playlist.username.as_str());
    let d = text::chars_of(date);
    let name = recording_name_exec("BC", user.as_slice(), d.as_slice());
    let name_s = text::string_of(name.as_slice());
    let ghost ls = text::seqs(lines@);
    let ghost f = |l: Seq<char>| entry(l, playlist.playlist_url@);
    let ghost fname = recording_name("BC"@, playlist.username@, date@);
    let ghost ua = playlist.settings.user_agent@;
    let mut out: Vec<Stream> = Vec::new();
    let n = lines.len();
    let mut k: usize = 0;
    assert(ls.take(0) =~= Seq::<Seq<char>>::empty());
    assert(ls.skip(0) =~= ls);
    assert(readable(t@, playlist.playlist_url@) == fold_safe(ls, f));
    assert(stream_views(out@) =~= Seq::<StreamView>::empty());
    while k < n
        invariant
            n == lines@.len() == ls.len(),
            k <= n,
            ls == text::seqs(lines@),
            ls == text::lines_seq(t@),
            crate::stream::str_opt(playlist.playlist) == Some(t@),
            url@ == playlist.playlist_url@,
            name_s@ == fname,
            fname == recording_name("BC"@, playlist.username@, date@),
            fold_segments(ls.take(k as int), f, fname, Platform::BONGA, ua) == Ok::<Seq<StreamView>, PlaylistError>(stream_views(out@)),
            f == (|l: Seq<char>| entry(l, playlist.playlist_url@)),
            ua == playlist.settings.user_agent@,
            fold_safe(ls, f) == fold_safe(ls.skip(k as int), f),
        decreases n - k,
    {
        let line = lines[k].as_slice();
        assert(ls.take(k + 1).drop_last() =~= ls.take(k as int));
        assert(ls.take(k + 1).last() == line@);
        assert(ls.skip(k as int)[0] == line@);
        assert(ls.skip(k as int).drop_first() =~= ls.skip(k + 1));
        if line.len() > 0 && (line[0] as u32) >= 0x80 {
            return None;
        }
        if text::is_blank_or_tag(line) {
            k = k + 1;
            continue;
        }
        match entry_exec(line, url.as_slice()) {
            Err(e) => {
                proof {
                    assert(f(line@) == entry(line@, playlist.playlist_url@));
                    assert(fold_segments(ls.take(k + 1), f, fname, Platform::BONGA, ua) == Err::<Seq<StreamView>, PlaylistError>(e));
                    crate::platforms::lemma_fold_err_stays(ls, k + 1, f, fname, Platform::BONGA, ua);
                    assert(ls.take(n as int) =~= ls);
                    assert(fold_segments(ls, f, fname, Platform::BONGA, ua) == Err::<Seq<StreamView>, PlaylistError>(e));
                    assert(segments(crate::stream::str_opt(playlist.playlist), playlist.playlist_url@, playlist.username@, ua, date@) == fold_segments(ls, f, fname, Platform::BONGA, ua));
                }
                return Some(Err(e));
            },
            Ok((u, id)) => {
                let u_s = text::string_of(u.as_slice());
                let s = Stream::new(
                    name_s.as_str(),
                    u_s.as_str(),
                    None,
                    id,
                    Platform::BONGA,
                    playlist.settings.user_agent.clone(),
                    None,
                    None,
                );
                let ghost before = out@;
                assert(f(line@) == entry(line@, playlist.playlist_url@));
                out.push(s);
                assert(stream_views(out@) =~= stream_views(before).push(s@));
            },
        }
        k = k + 1;
    }
    assert(ls.take(n as int) =~= ls);
    assert(ls.skip(n as int) =~= Seq::<Seq<char>>::empty());
    Some(Ok(out))
}

/// The segments of the downloaded playlist, their recording named with `date`.
pub fn parse_playlist_at(playlist: &Playlist, date: &str) -> (r: Result<Vec<Stream>, PlaylistError>)
    requires
        playlist.playlist matches Some(t) ==> readable(t@, playlist.playlist_url@),
    ensures
        outcome_is(
            r,
            segments(
                crate::stream::str_opt(playlist.playlist),
                playlist.playlist_url@,
                playlist.username@,
                playlist.settings.user_agent@,
                date@,
            ),
        ),
{
    match read_at(playlist, date) {
        Some(r) => r,
        None => {
            assert(false);
            Err(PlaylistError::NoPlaylist)
        },
    }
}

/// The segments of the downloaded playlist, their recording named with the local date and
/// time `now`.
pub fn parse_playlist(playlist: &Playlist, now: &util::LocalTime) -> (r: Result<Vec<Stream>, PlaylistError>)
    requires
        util::writable(*now),
        playlist.playlist matches Some(t) ==> readable(t@, playlist.playlist_url@),
    ensures
        outcome_is(
            r,
            segments(
                crate::stream::str_opt(playlist.playlist),
                playlist.playlist_url@,
                playlist.username@,
                playlist.settings.user_agent@,
                util::stamp_of_time(*now),
            ),
        ),
{
    let date = util::date(now);
    parse_playlist_at(playlist, date.as_str())
}


/// The user agent sent to BongaCams: the configured one in lower case.
pub fn agent_header(user_agent: &str) -> (r: String)
    ensures
        r@ == outside::lowercase(user_agent@),
        (forall|i: int| 0 <= i < user_agent@.len() ==> (user_agent@[i] as u32) < 0x80) ==> r@
            == user_agent@.map_values(|c: char| outside::ascii_lower(c)),
{
    outside::to_lowercase(user_agent)
}

/// The room-data request for `username` at Unix time `secs`: its address and its form body.
pub fn room_request(username: &str, secs: u64) -> (r: (String, String))
    ensures
        r.0@ == "https://bongacams.com/tools/amf.php?t="@ + text::dec_string(secs as nat),
        r.1@ == "method=getRoomData&args%5B%5D="@ + username@ + "&args%5B%5D=&args%5B%5D="@,
{
    let mut u = text::chars_of("https://bongacams.com/tools/amf.php?t=");
    let d = text::u64_digits(secs);
    text::push_all(&mut u, d.as_slice());
    let mut p = text::chars_of("method=getRoomData&args%5B%5D=");
    text::push_str(&mut p, username);
    text::push_str(&mut p, "&args%5B%5D=&args%5B%5D=");
    (text::string_of(u.as_slice()), text::string_of(p.as_slice()))
}

/// The master playlist address that the room data gives: `Ok(None)` when the room has no
/// video server, or the performer is offline or away.
pub open spec fn room_playlist_address_of(json: JsonValue) -> Result<Option<Seq<char>>, LookupError> {
    match json_get(json, "localData"@) {
        None => Err(LookupError::Missing),
        Some(local) => match json_get(local, "videoServerUrl"@) {
            None => Err(LookupError::Missing),
            Some(hv) => match json_str(hv) {
                None => Ok(None),
                Some(hls) => match json_get(json, "performerData"@) {
                    None => Err(LookupError::Missing),
                    Some(pd) => match json_get(pd, "isOnline"@) {
                        None => Err(LookupError::Missing),
                        Some(ov) => match json_bool(ov) {
                            None => Err(LookupError::Missing),
                            Some(online) => if !online {
                                Ok(None)
                            } else {
                                match json_get(pd, "isAway"@) {
                                    None => Err(LookupError::Missing),
                                    Some(av) => match json_bool(av) {
                                        None => Err(LookupError::Missing),
                                        Some(away) => if away {
                                            Ok(None)
                                        } else {
                                            match json_get(pd, "username"@) {
                                                None => Err(LookupError::Missing),
                                                Some(uv) => match json_str(uv) {
                                                    None => Err(LookupError::Missing),
                                                    Some(name) => Ok(
                                                        Some(
                                                            "https:"@ + hls + "/hls/stream_"@ + name
                                                                + "/playlist.m3u8"@,
                                                        ),
                                                    ),
                                                },
                                            }
                                        },
                                    },
                                }
                            },
                        },
                    },
                },
            },
        },
    }
}

pub fn room_playlist_address(json: &JsonValue) -> (r: Result<Option<String>, LookupError>)
    ensures
        r matches Ok(Some(u)) ==> room_playlist_address_of(*json) == Ok::<Option<Seq<char>>, LookupError>(Some(u@)),
        r matches Ok(None) ==> room_playlist_address_of(*json) == Ok::<Option<Seq<char>>, LookupError>(None),
        r matches Err(e) ==> room_playlist_address_of(*json) == Err::<Option<Seq<char>>, LookupError>(e),
{
    let local = match json.get("localData") {
        None => return Err(LookupError::Missing),
        Some(x) => x,
    };
    let hls = match local.get("videoServerUrl") {
        None => return Err(LookupError::Missing),
        Some(v) => match v.as_str() {
            None => return Ok(None),
            Some(x) => x,
        },
    };
    let pd = match json.get("performerData") {
        None => return Err(LookupError::Missing),
        Some(x) => x,
    };
    let online = match pd.get("isOnline") {
        None => return Err(LookupError::Missing),
        Some(v) => match v.as_bool() {
            None => return Err(LookupError::Missing),
            Some(x) => x,
        },
    };
    if !online {
        return Ok(None);
    }
    let away = match pd.get("isAway") {
        None => return Err(LookupError::Missing),
        Some(v) => match v.as_bool() {
            None => return Err(LookupError::Missing),
            Some(x) => x,
        },
    };
    if away {
        return Ok(None);
    }
    let name = match pd.get("username") {
        None => return Err(LookupError::Missing),
        Some(v) => match v.as_str() {
            None => return Err(LookupError::Missing),
            Some(x) => x,
        },
    };
    let mut u = text::chars_of("https:");
    text::push_str(&mut u, hls.as_str());
    text::push_str(&mut u, "/hls/stream_");
    text::push_str(&mut u, name.as_str());
    text::push_str(&mut u, "/playlist.m3u8");
    Ok(Some(text::string_of(u.as_slice())))
}

} // verus!
