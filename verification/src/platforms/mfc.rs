//! MyFreeCams: segment entries are relative names whose second `.`-separated field carries
//! the stream number.
use vstd::prelude::*;
use crate::platforms::{Platform, PlaylistError, fold_segments, fold_safe, recording_name, recording_name_exec};
use crate::stream::{Playlist, Stream, StreamView, outcome_is, stream_views};
use crate::text;
use crate::util;
use crate::outside;
use crate::platforms::LookupError;
use crate::json::{JsonValue, json_get, json_str, json_i64, json_array};

verus! {

broadcast use vstd::string::group_string_axioms;

/// Address and stream number of one entry line.
pub open spec fn entry(line: Seq<char>, playlist_url: Seq<char>) -> Result<(Seq<char>, u32), PlaylistError> {
    match util::resolve_seq(playlist_url, line) {
        None => Err(PlaylistError::NoUrlPrefix),
        Some(url) => {
            let pieces = text::split_seq(line, '.');
            if pieces.len() < 2 {
                Err(PlaylistError::NoStreamId)
            } else {
                match text::parse_uint_seq(text::digits_only(pieces[1]), u32::MAX as nat) {
                    None => Err(PlaylistError::BadStreamId),
                    Some(v) => Ok((url, v as u32)),
                }
            }
        },
    }
}

/// The segments of a MyFreeCams playlist, named with the given date.
pub open spec fn segments(
    text: Option<Seq<char>>,
    playlist_url: Seq<char>,
    username: Seq<char>,
    user_agent: Seq<char>,
    date: Seq<char>,
) -> Result<Seq<StreamView>, PlaylistError> {
    match text {
        None => Err(PlaylistError::NoPlaylist),
        Some(t) => fold_segments(
            text::lines_seq(t),
            |l: Seq<char>| entry(l, playlist_url),
            recording_name("MFC"@, username, date),
            Platform::MFC,
            user_agent,
        ),
    }
}

/// A MyFreeCams playlist gives one segment per entry line, in the order of the lines: when the
/// read succeeds the `i`th segment carries the address and stream number that the `i`th entry
/// line gives, the recording name `MFC_username_date`, no audio and no initialisation
/// segment; the read succeeds whenever every entry line reads, and otherwise fails with the
/// error of the first entry line that does not.
pub proof fn lemma_one_segment_per_entry(
    t: Seq<char>,
    playlist_url: Seq<char>,
    username: Seq<char>,
    user_agent: Seq<char>,
    date: Seq<char>,
)
    ensures
        ({
            let es = crate::platforms::entry_lines(text::lines_seq(t));
            &&& segments(Some(t), playlist_url, username, user_agent, date) matches Ok(v) ==> {
                &&& v.len() == es.len()
                &&& forall|i: int| 0 <= i < v.len() ==> entry(#[trigger] es[i], playlist_url) == Ok::<(Seq<char>, u32), PlaylistError>((v[i].url, v[i].stream_id))
                    && v[i].filename == recording_name("MFC"@, username, date)
                    && v[i].platform == Platform::MFC
                    && v[i].user_agent == user_agent
                    && v[i].url_audio is None
                    && v[i].mp4_header is None
                    && v[i].index == 0
                    && v[i].data is None
            }
            &&& (forall|i: int| 0 <= i < es.len() ==> (entry(#[trigger] es[i], playlist_url)) is Ok) ==> segments(Some(t), playlist_url, username, user_agent, date) is Ok
            &&& segments(Some(t), playlist_url, username, user_agent, date) matches Err(e) ==> exists|i: int| 0 <= i < es.len()
                && entry(#[trigger] es[i], playlist_url) == Err::<(Seq<char>, u32), PlaylistError>(e)
                && forall|j: int| 0 <= j < i ==> (entry(#[trigger] es[j], playlist_url)) is Ok
        }),
{
    crate::platforms::lemma_fold_one_per_entry(
        text::lines_seq(t),
        |l: Seq<char>| entry(l, playlist_url),
        recording_name("MFC"@, username, date),
        Platform::MFC,
        user_agent,
    );
}

/// Reading the playlist tests for a leading `#` only lines that can be tested.
pub open spec fn readable(text: Seq<char>, playlist_url: Seq<char>) -> bool {
    fold_safe(text::lines_seq(text), |l: Seq<char>| entry(l, playlist_url))
}

fn entry_exec(line: &[char], playlist_url: &[char]) -> (r: Result<(Vec<char>, u32), PlaylistError>)
    ensures
        r matches Ok((u, id)) ==> entry(line@, playlist_url@) == Ok::<(Seq<char>, u32), PlaylistError>((u@, id)),
        r matches Err(e) ==> entry(line@, playlist_url@) == Err::<(Seq<char>, u32), PlaylistError>(e),
{
    let url = match util::resolve(playlist_url, line) {
        Some(u) => u,
        None => return Err(PlaylistError::NoUrlPrefix),
    };
    let pieces = text::split(line, '.');
    if pieces.len() < 2 {
        return Err(PlaylistError::NoStreamId);
    }
    let digits = text::keep_digits(pieces[1].as_slice());
    match text::parse_u32(digits.as_slice()) {
        None => Err(PlaylistError::BadStreamId),
        Some(v) => Ok((url, v)),
    }
}

/// The segments of the downloaded playlist, their recording named with `date`, where the read
/// tests for a leading `#` only lines that can be tested; `None` where it would test one that
/// cannot.
pub fn read_at(playlist: &Playlist, date: &str) -> (r: Option<Result<Vec<Stream>, PlaylistError>>)
    ensures
        r is None <==> (playlist.playlist matches Some(t) && !readable(t@, playlist.playlist_url@)),
        r matches Some(x) ==> outcome_is(
            x,
            segments(
                crate::stream::str_opt(playlist.playlist),
                playlist.playlist_url@,
                playlist.username@,
                playlist.settings.user_agent@,
                date@,
            ),
        ),
{
    let text = match &playlist.playlist {
        Some(t) => t,
        None => return Some(Err(PlaylistError::NoPlaylist)),
    };
    let t = text::chars_of(text.as_str());
    let lines = text::lines(t.as_slice());
    let url = text::chars_of(playlist.playlist_url.as_str());
    let user = text::chars_of(playlist.username.as_str());
    let d = text::chars_of(date);
    let name = recording_name_exec("MFC", user.as_slice(), d.as_slice());
    let name_s = text::string_of(name.as_slice());
    let ghost ls = text::seqs(lines@);
    let ghost f = |l: Seq<char>| entry(l, playlist.playlist_url@);
    let ghost fname = recording_name("MFC"@, playlist.username@, date@);
    let ghost ua = playlist.settings.user_agent@;
    let mut out: Vec<Stream> = Vec::new();
    let n = lines.len();
    let mut k: usize = 0;
    assert(ls.take(0) =~= Seq::<Seq<char>>::empty());
    assert(ls.skip(0) =~= ls);
    assert(readable(t@, playlist.playlist_url@) == fold_safe(ls, f));
    assert(stream_views(out@) =~= Seq::<StreamView>::empty());
    while k < n
        invariant
            n == lines@.len() == ls.len(),
            k <= n,
            ls == text::seqs(lines@),
            ls == text::lines_seq(t@),
            crate::stream::str_opt(playlist.playlist) == Some(t@),
            url@ == playlist.playlist_url@,
            name_s@ == fname,
            fname == recording_name("MFC"@, playlist.username@, date@),
            fold_segments(ls.take(k as int), f, fname, Platform::MFC, ua) == Ok::<Seq<StreamView>, PlaylistError>(stream_views(out@)),
            f == (|l: Seq<char>| entry(l, playlist.playlist_url@)),
            ua == playlist.settings.user_agent@,
            fold_safe(ls, f) == fold_safe(ls.skip(k as int), f),
        decreases n - k,
    {
        let line = lines[k].as_slice();
        assert(ls.take(k + 1).drop_last() =~= ls.take(k as int));
        assert(ls.take(k + 1).last() == line@);
        assert(ls.skip(k as int)[0] == line@);
        assert(ls.skip(k as int).drop_first() =~= ls.skip(k + 1));
        if line.len() > 0 && (line[0] as u32) >= 0x80 {
            return None;
        }
        if text::is_blank_or_tag(line) {
            k = k + 1;
            continue;
        }
        match entry_exec(line, url.as_slice()) {
            Err(e) => {
                proof {
                    assert(f(line@) == entry(line@, playlist.playlist_url@));
                    assert(fold_segments(ls.take(k + 1), f, fname, Platform::MFC, ua) == Err::<Seq<StreamView>, PlaylistError>(e));
                    crate::platforms::lemma_fold_err_stays(ls, k + 1, f, fname, Platform::MFC, ua);
                    assert(ls.take(n as int) =~= ls);
                    assert(fold_segments(ls, f, fname, Platform::MFC, ua) == Err::<Seq<StreamView>, PlaylistError>(e));
                    assert(segments(crate::stream::str_opt(playlist.playlist), playlist.playlist_url@, playlist.username@, ua, date@) == fold_segments(ls, f, fname, Platform::MFC, ua));
                }
                return Some(Err(e));
            },
            Ok((u, id)) => {
                let u_s = text::string_of(u.as_slice());
                let s = Stream::new(
                    name_s.as_str(),
                    u_s.as_str(),
                    None,
                    id,
                    Platform::MFC,
                    playlist.settings.user_agent.clone(),
                    None,
                    None,
                );
                let ghost before = out@;
                assert(f(line@) == entry(line@, playlist.playlist_url@));
                out.push(s);
                assert(stream_views(out@) =~= stream_views(before).push(s@));
            },
        }
        k = k + 1;
    }
    assert(ls.take(n as int) =~= ls);
    assert(ls.skip(n as int) =~= Seq::<Seq<char>>::empty());
    Some(Ok(out))
}

/// The segments of the downloaded playlist, their recording named with `date`.
pub fn parse_playlist_at(playlist: &Playlist, date: &str) -> (r: Result<Vec<Stream>, PlaylistError>)
    requires
        playlist.playlist matches Some(t) ==> readable(t@, playlist.playlist_url@),
    ensures
        outcome_is(
            r,
            segments(
                crate::stream::str_opt(playlist.playlist),
                playlist.playlist_url@,
                playlist.username@,
                playlist.settings.user_agent@,
                date@,
            ),
        ),
{
    match read_at(playlist, date) {
        Some(r) => r,
        None => {
            assert(false);
            Err(PlaylistError::NoPlaylist)
        },
    }
}

/// The segments of the downloaded playlist, their recording named with the local date and
/// time `now`.
pub fn parse_playlist(playlist: &Playlist, now: &util::LocalTime) -> (r: Result<Vec<Stream>, PlaylistError>)
    requires
        util::writable(*now),
        playlist.playlist matches Some(t) ==> readable(t@, playlist.playlist_url@),
    ensures
        outcome_is(
            r,
            segments(
                crate::stream::str_opt(playlist.playlist),
                playlist.playlist_url@,
                playlist.username@,
                playlist.settings.user_agent@,
                util::stamp_of_time(*now),
            ),
        ),
{
    let date = util::date(now);
    parse_playlist_at(playlist, date.as_str())
}


/// Where the model's lookup answer `json` says her stream is: `Ok(None)` when she has no
/// session on a server, an error when the answer lacks a field or names no user.
pub open spec fn playlist_address_of(json: JsonValue) -> Result<Option<Seq<char>>, LookupError> {
    match json_get(json, "result"@) {
        None => Err(LookupError::Missing),
        Some(result) => match json_get(result, "user"@) {
            None => Err(LookupError::Missing),
            Some(user) => match json_get(user, "id"@) {
                None => Err(LookupError::Missing),
                Some(idv) => match json_i64(idv) {
                    None => Err(LookupError::UserNotFound),
                    Some(id) => match json_get(user, "sessions"@) {
                        None => Err(LookupError::Missing),
                        Some(sv) => match json_array(sv) {
                            None => Ok(None),
                            Some(sessions) => if sessions.len() == 0 {
                                Ok(None)
                            } else {
                                session_address(sessions[0], id)
                            },
                        },
                    },
                },
            },
        },
    }
}

/// The stream address that the first session of user `id` gives.
pub open spec fn session_address(s0: JsonValue, id: i64) -> Result<Option<Seq<char>>, LookupError> {
    match json_get(s0, "server_name"@) {
        None => Err(LookupError::Missing),
        Some(snv) => match json_str(snv) {
            None => Err(LookupError::Missing),
            Some(server_name) => if server_name.len() == 0 {
                Ok(None)
            } else {
                match json_get(s0, "phase"@) {
                    None => Err(LookupError::Missing),
                    Some(pv) => match json_str(pv) {
                        None => Err(LookupError::Missing),
                        Some(phase) => match json_get(s0, "platform_id"@) {
                            None => Err(LookupError::Missing),
                            Some(plv) => match json_i64(plv) {
                                None => Err(LookupError::Missing),
                                Some(platform_id) => Ok(
                                    Some(
                                        "https://edgevideo.myfreecams.com/llhls/NxServer/"@
                                            + text::digits_only(server_name) + "/ngrp:mfc_"@ + phase
                                            + text::int_string(platform_id as int) + text::int_string(id as int)
                                            + ".f4v_cmaf/playlist_sfm4s.m3u8"@,
                                    ),
                                ),
                            },
                        },
                    },
                }
            },
        },
    }
}

fn session_address_exec(s0: &JsonValue, id: i64) -> (r: Result<Option<String>, LookupError>)
    ensures
        r matches Ok(Some(u)) ==> session_address(*s0, id) == Ok::<Option<Seq<char>>, LookupError>(Some(u@)),
        r matches Ok(None) ==> session_address(*s0, id) == Ok::<Option<Seq<char>>, LookupError>(None),
        r matches Err(e) ==> session_address(*s0, id) == Err::<Option<Seq<char>>, LookupError>(e),
{
    let server_name = match s0.get("server_name") {
        None => return Err(LookupError::Missing),
        Some(v) => match v.as_str() {
            None => return Err(LookupError::Missing),
            Some(x) => x,
        },
    };
    let sn = text::chars_of(server_name.as_str());
    if sn.len() == 0 {
        return Ok(None);
    }
    let phase = match s0.get("phase") {
        None => return Err(LookupError::Missing),
        Some(v) => match v.as_str() {
            None => return Err(LookupError::Missing),
            Some(x) => x,
        },
    };
    let platform_id = match s0.get("platform_id") {
        None => return Err(LookupError::Missing),
        Some(v) => match v.as_i64() {
            None => return Err(LookupError::Missing),
            Some(x) => x,
        },
    };
    let mut u = text::chars_of("https://edgevideo.myfreecams.com/llhls/NxServer/");
    let digits = text::keep_digits(sn.as_slice());
    text::push_all(&mut u, digits.as_slice());
    text::push_str(&mut u, "/ngrp:mfc_");
    text::push_str(&mut u, phase.as_str());
    let pd = text::i64_digits(platform_id);
    text::push_all(&mut u, pd.as_slice());
    let idd = text::i64_digits(id);
    text::push_all(&mut u, idd.as_slice());
    text::push_str(&mut u, ".f4v_cmaf/playlist_sfm4s.m3u8");
    Ok(Some(text::string_of(u.as_slice())))
}

/// Where the model's lookup answer says her stream is.
pub fn playlist_address(json: &JsonValue) -> (r: Result<Option<String>, LookupError>)
    ensures
        r matches Ok(Some(u)) ==> playlist_address_of(*json) == Ok::<Option<Seq<char>>, LookupError>(Some(u@)),
        r matches Ok(None) ==> playlist_address_of(*json) == Ok::<Option<Seq<char>>, LookupError>(None),
        r matches Err(e) ==> playlist_address_of(*json) == Err::<Option<Seq<char>>, LookupError>(e),
{
    let result = match json.get("result") {
        None => return Err(LookupError::Missing),
        Some(x) => x,
    };
    let user = match result.get("user") {
        None => return Err(LookupError::Missing),
        Some(x) => x,
    };
    let id = match user.get("id") {
        None => return Err(LookupError::Missing),
        Some(v) => match v.as_i64() {
            None => return Err(LookupError::UserNotFound),
            Some(x) => x,
        },
    };
    let sessions = match user.get("sessions") {
        None => return Err(LookupError::Missing),
        Some(v) => match v.as_array() {
            None => return Ok(None),
            Some(a) => a,
        },
    };
    if sessions.len() == 0 {
        return Ok(None);
    }
    session_address_exec(&sessions[0], id)
}

/// The address of the user lookup for `username`.
pub fn lookup_address(username: &str) -> (r: String)
    ensures
        r@ == "https://api-edge.myfreecams.com/usernameLookup/"@ + username@,
{
    let mut u = text::chars_of("https://api-edge.myfreecams.com/usernameLookup/");
    text::push_str(&mut u, username);
    text::string_of(u.as_slice())
}

} // verus!
