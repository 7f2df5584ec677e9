//! Cam4: segment entries are names resolved against the host of the playlist; the number
//! before `.ts` is the stream number, in thousandths unless the playlist mentions `SERVER`.
use vstd::prelude::*;
use crate::platforms::{Platform, PlaylistError, fold_segments, fold_safe, recording_name, recording_name_exec};
use crate::stream::{Playlist, Stream, StreamView, outcome_is, stream_views};
use crate::text;
use crate::util;
use crate::outside;
use crate::platforms::LookupError;
use crate::json::{JsonValue, json_get, json_str, json_array};

verus! {

broadcast use vstd::string::group_string_axioms;

/// Address and stream number of one entry line; `server` is whether the playlist mentions
/// `SERVER`. Cam4 segments are downloaded as Flirt4Free ones: they carry that platform.
pub open spec fn entry(line: Seq<char>, playlist_url: Seq<char>, server: bool) -> Result<(Seq<char>, u32), PlaylistError> {
    match crate::platforms::f4f::ts_number_of(line, u64::MAX as nat) {
        None => Err(PlaylistError::NoStreamId),
        Some(v) => {
            let id: u32 = if server { (v as u64) as u32 } else { ((v as u64) / 1000) as u32 };
            match util::url_prefix_seq(playlist_url, seq!['/']) {
                None => Err(PlaylistError::NoUrlPrefix),
                Some(p) => Ok((p + seq!['/'] + line, id)),
            }
        },
    }
}

/// The segments of a Cam4 playlist, named with the given date.
pub open spec fn segments(
    text: Option<Seq<char>>,
    playlist_url: Seq<char>,
    username: Seq<char>,
    user_agent: Seq<char>,
    date: Seq<char>,
) -> Result<Seq<StreamView>, PlaylistError> {
    match text {
        None => Err(PlaylistError::NoPlaylist),
        Some(t) => fold_segments(
            text::lines_seq(t),
            |l: Seq<char>| entry(l, playlist_url, text::contains_seq(t, "SERVER"@)),
            recording_name("C4"@, username, date),
            Platform::F4F,
            user_agent,
        ),
    }
}

/// A Cam4 playlist gives one segment per entry line, in the order of the lines: when the
/// read succeeds the `i`th segment carries the address and stream number that the `i`th entry
/// line gives, the recording name `C4_username_date`, no audio and no initialisation
/// segment; the read succeeds whenever every entry line reads, and otherwise fails with the
/// error of the first entry line that does not.
pub proof fn lemma_one_segment_per_entry(
    t: Seq<char>,
    playlist_url: Seq<char>,
    username: Seq<char>,
    user_agent: Seq<char>,
    date: Seq<char>,
)
    ensures
        ({
            let es = crate::platforms::entry_lines(text::lines_seq(t));
            &&& segments(Some(t), playlist_url, username, user_agent, date) matches Ok(v) ==> {
                &&& v.len() == es.len()
                &&& forall|i: int| 0 <= i < v.len() ==> entry(#[trigger] es[i], playlist_url, text::contains_seq(t, "SERVER"@)) == Ok::<(Seq<char>, u32), PlaylistError>((v[i].url, v[i].stream_id))
                    && v[i].filename == recording_name("C4"@, username, date)
                    && v[i].platform == Platform::F4F
                    && v[i].user_agent == user_agent
                    && v[i].url_audio is None
                    && v[i].mp4_header is None
                    && v[i].index == 0
                    && v[i].data is None
            }
            &&& (forall|i: int| 0 <= i < es.len() ==> (entry(#[trigger] es[i], playlist_url, text::contains_seq(t, "SERVER"@))) is Ok) ==> segments(Some(t), playlist_url, username, user_agent, date) is Ok
            &&& segments(Some(t), playlist_url, username, user_agent, date) matches Err(e) ==> exists|i: int| 0 <= i < es.len()
                && entry(#[trigger] es[i], playlist_url, text::contains_seq(t, "SERVER"@)) == Err::<(Seq<char>, u32), PlaylistError>(e)
                && forall|j: int| 0 <= j < i ==> (entry(#[trigger] es[j], playlist_url, text::contains_seq(t, "SERVER"@))) is Ok
        }),
{
    crate::platforms::lemma_fold_one_per_entry(
        text::lines_seq(t),
        |l: Seq<char>| entry(l, playlist_url, text::contains_seq(t, "SERVER"@)),
        recording_name("C4"@, username, date),
        Platform::F4F,
        user_agent,
    );
}

/// Reading the playlist tests for a leading `#` only lines that can be tested.
pub open spec fn readable(text: Seq<char>, playlist_url: Seq<char>) -> bool {
    fold_safe(text::lines_seq(text), |l: Seq<char>| entry(l, playlist_url, text::contains_seq(text, "SERVER"@)))
}

fn entry_exec(line: &[char], playlist_url: &[char], server: bool) -> (r: Result<(Vec<char>, u32), PlaylistError>)
    ensures
        r matches Ok((u, id)) ==> entry(line@, playlist_url@, server) == Ok::<(Seq<char>, u32), PlaylistError>((u@, id)),
        r matches Err(e) ==> entry(line@, playlist_url@, server) == Err::<(Seq<char>, u32), PlaylistError>(e),
{
    let v = match crate::platforms::f4f::ts_number(line, u64::MAX) {
        None => return Err(PlaylistError::NoStreamId),
        Some(v) => v,
    };
    let id: u32 = if server { v as u32 } else { (v / 1000) as u32 };
    let slash: [char; 1] = ['/'];
    assert(slash@ =~= seq!['/']);
    match util::url_prefix_len(playlist_url, &slash) {
        None => Err(PlaylistError::NoUrlPrefix),
        Some(n) => {
            let mut u = text::slice_chars(playlist_url, 0, n);
            u.push('/');
            text::push_all(&mut u, line);
            assert(u@ =~= playlist_url@.take(n as int) + seq!['/'] + line@);
            Ok((u, id))
        },
    }
}

/// The segments of the downloaded playlist, their recording named with `date`, where the read
/// tests for a leading `#` only lines that can be tested; `None` where it would test one that
/// cannot.
pub fn read_at(playlist: &Playlist, date: &str) -> (r: Option<Result<Vec<Stream>, PlaylistError>>)
    ensures
        r is None <==> (playlist.playlist matches Some(t) && !readable(t@, playlist.playlist_url@)),
        r matches Some(x) ==> outcome_is(
            x,
            segments(
                crate::stream::str_opt(playlist.playlist),
                playlist.playlist_url@,
                playlist.username@,
                playlist.settings.user_agent@,
                date@,
            ),
        ),
{
    let text = match &playlist.playlist {
        Some(t) => t,
        None => return Some(Err(PlaylistError::NoPlaylist)),
    };
    let t = text::chars_of(text.as_str());
    let lines = text::lines(t.as_slice());
    let url = text::chars_of(playlist.playlist_url.as_str());
    let user = text::chars_of(playlist.username.as_str());
    let d = text::chars_of(date);
    let name = recording_name_exec("C4", user.as_slice(), d.as_slice());
    let name_s = text::string_of(name.as_slice());
    let ghost ls = text::seqs(lines@);
    let server = text::contains_str(t.as_slice(), "SERVER");
    let ghost f = |l: Seq<char>| entry(l, playlist.playlist_url@, server);
    let ghost fname = recording_name("C4"@, playlist.username@, date@);
    let ghost ua = playlist.settings.user_agent@;
    let mut out: Vec<Stream> = Vec::new();
    let n = lines.len();
    let mut k: usize = 0;
    assert(ls.take(0) =~= Seq::<Seq<char>>::empty());
    assert(ls.skip(0) =~= ls);
    assert(readable(t@, playlist.playlist_url@) == fold_safe(ls, f));
    assert(stream_views(out@) =~= Seq::<StreamView>::empty());
    while k < n
        invariant
            n == lines@.len() == ls.len(),
            k <= n,
            ls == text::seqs(lines@),
            ls == text::lines_seq(t@),
            crate::stream::str_opt(playlist.playlist) == Some(t@),
            url@ == playlist.playlist_url@,
            name_s@ == fname,
            fname == recording_name("C4"@, playlist.username@, date@),
            fold_segments(ls.take(k as int), f, fname, Platform::F4F, ua) == Ok::<Seq<StreamView>, PlaylistError>(stream_views(out@)),
            f == (|l: Seq<char>| entry(l, playlist.playlist_url@, server)),
            server == text::contains_seq(t@, "SERVER"@),
            ua == playlist.settings.user_agent@,
            fold_safe(ls, f) == fold_safe(ls.skip(k as int), f),
        decreases n - k,
    {
        let line = lines[k].as_slice();
        assert(ls.take(k + 1).drop_last() =~= ls.take(k as int));
        assert(ls.take(k + 1).last() == line@);
        assert(ls.skip(k as int)[0] == line@);
        assert(ls.skip(k as int).drop_first() =~= ls.skip(k + 1));
        if line.len() > 0 && (line[0] as u32) >= 0x80 {
            return None;
        }
        if text::is_blank_or_tag(line) {
            k = k + 1;
            continue;
        }
        match entry_exec(line, url.as_slice(), server) {
            Err(e) => {
                proof {
                    assert(f(line@) == entry(line@, playlist.playlist_url@, server));
                    assert(fold_segments(ls.take(k + 1), f, fname, Platform::F4F, ua) == Err::<Seq<StreamView>, PlaylistError>(e));
                    crate::platforms::lemma_fold_err_stays(ls, k + 1, f, fname, Platform::F4F, ua);
                    assert(ls.take(n as int) =~= ls);
                    assert(fold_segments(ls, f, fname, Platform::F4F, ua) == Err::<Seq<StreamView>, PlaylistError>(e));
                    assert(segments(crate::stream::str_opt(playlist.playlist), playlist.playlist_url@, playlist.username@, ua, date@) == fold_segments(ls, f, fname, Platform::F4F, ua));
                }
                return Some(Err(e));
            },
            Ok((u, id)) => {
                let u_s = text::string_of(u.as_slice());
                let s = Stream::new(
                    name_s.as_str(),
                    u_s.as_str(),
                    None,
                    id,
                    Platform::F4F,
                    playlist.settings.user_agent.clone(),
                    None,
                    None,
                );
                let ghost before = out@;
                assert(f(line@) == entry(line@, playlist.playlist_url@, server));
                out.push(s);
                assert(stream_views(out@) =~= stream_views(before).push(s@));
            },
        }
        k = k + 1;
    }
    assert(ls.take(n as int) =~= ls);
    assert(ls.skip(n as int) =~= Seq::<Seq<char>>::empty());
    Some(Ok(out))
}

/// The segments of the downloaded playlist, their recording named with `date`.
pub fn parse_playlist_at(playlist: &Playlist, date: &str) -> (r: Result<Vec<Stream>, PlaylistError>)
    requires
        playlist.playlist matches Some(t) ==> readable(t@, playlist.playlist_url@),
    ensures
        outcome_is(
            r,
            segments(
                crate::stream::str_opt(playlist.playlist),
                playlist.playlist_url@,
                playlist.username@,
                playlist.settings.user_agent@,
                date@,
            ),
        ),
{
    match read_at(playlist, date) {
        Some(r) => r,
        None => {
            assert(false);
            Err(PlaylistError::NoPlaylist)
        },
    }
}

/// The segments of the downloaded playlist, their recording named with the local date and
/// time `now`.
pub fn parse_playlist(playlist: &Playlist, now: &util::LocalTime) -> (r: Result<Vec<Stream>, PlaylistError>)
    requires
        util::writable(*now),
        playlist.playlist matches Some(t) ==> readable(t@, playlist.playlist_url@),
    ensures
        outcome_is(
            r,
            segments(
                crate::stream::str_opt(playlist.playlist),
                playlist.playlist_url@,
                playlist.username@,
                playlist.settings.user_agent@,
                util::stamp_of_time(*now),
            ),
        ),
{
    let date = util::date(now);
    parse_playlist_at(playlist, date.as_str())
}


/// The stream-information address for `username`.
pub fn stream_info_address(username: &str) -> (r: String)
    ensures
        r@ == "https://www.cam4.com/rest/v1.0/profile/"@ + username@ + "/streamInfo"@,
{
    let mut u = text::chars_of("https://www.cam4.com/rest/v1.0/profile/");
    text::push_str(&mut u, username);
    text::push_str(&mut u, "/streamInfo");
    text::string_of(u.as_slice())
}

/// The room-access address for `username`, which the second way of looking a model up uses.
pub fn request_access_address(username: &str) -> (r: String)
    ensures
        r@ == "https://api.cam4.com/webchat/requestAccess?roomname="@ + username@ + "&chat_history_limit=0"@,
{
    let mut u = text::chars_of("https://api.cam4.com/webchat/requestAccess?roomname=");
    text::push_str(&mut u, username);
    text::push_str(&mut u, "&chat_history_limit=0");
    text::string_of(u.as_slice())
}

/// The master playlist address in a stream-information answer: its `cdnURL`.
pub open spec fn main_playlist_address_of(json: JsonValue) -> Option<Seq<char>> {
    match json_get(json, "cdnURL"@) {
        None => None,
        Some(v) => json_str(v),
    }
}

pub fn main_playlist_address(json: &JsonValue) -> (r: Option<String>)
    ensures
        r matches Some(u) ==> main_playlist_address_of(*json) == Some(u@),
        r is None ==> main_playlist_address_of(*json) is None,
{
    match json.get("cdnURL") {
        None => None,
        Some(v) => match v.as_str() {
            None => None,
            Some(s) => Some(s.clone()),
        },
    }
}

/// Whether an entry of the `output` list is served over HLS.
pub open spec fn is_hls(v: JsonValue) -> bool {
    match json_get(v, "protocol"@) {
        Some(p) => json_str(p) == Some("HLS"@),
        None => false,
    }
}

/// The first entry of `outputs` served over HLS.
pub open spec fn first_hls(outputs: Seq<JsonValue>) -> Option<JsonValue>
    decreases outputs.len(),
{
    if outputs.len() == 0 {
        None
    } else if is_hls(outputs[0]) {
        Some(outputs[0])
    } else {
        first_hls(outputs.drop_first())
    }
}

/// The master playlist address in a room-access answer: the `uri` of its first HLS output.
pub open spec fn alt_playlist_address_of(json: JsonValue) -> Option<Seq<char>> {
    match json_get(json, "output"@) {
        None => None,
        Some(o) => match json_array(o) {
            None => None,
            Some(outputs) => match first_hls(outputs) {
                None => None,
                Some(v) => match json_get(v, "uri"@) {
                    None => None,
                    Some(u) => json_str(u),
                },
            },
        },
    }
}

fn is_hls_exec(v: &JsonValue) -> (r: bool)
    ensures
        r == is_hls(*v),
{

    match v.get("protocol") {
        None => false,
        Some(p) => match p.as_str() {
            None => false,
            Some(s) => {
                let c = text::chars_of(s.as_str());
                let h = text::chars_of("HLS");
                text::chars_eq(c.as_slice(), h.as_slice())
            },
        },
    }
}

pub fn alt_playlist_address(json: &JsonValue) -> (r: Option<String>)
    ensures
        r matches Some(u) ==> alt_playlist_address_of(*json) == Some(u@),
        r is None ==> alt_playlist_address_of(*json) is None,
{
    let outputs = match json.get("output") {
        None => return None,
        Some(o) => match o.as_array() {
            None => return None,
            Some(a) => a,
        },
    };
    let mut i: usize = 0;
    assert(outputs@.skip(0) =~= outputs@);
    while i < outputs.len()
        invariant
            i <= outputs@.len(),
            first_hls(outputs@) == first_hls(outputs@.skip(i as int)),
            (match json_get(*json, "output"@) {
                Some(o) => json_array(o),
                None => None,
            }) == Some(outputs@),
        decreases outputs@.len() - i,
    {
        assert(outputs@.skip(i as int)[0] == outputs@[i as int]);
        if is_hls_exec(&outputs[i]) {
            return match outputs[i].get("uri") {
                None => None,
                Some(u) => match u.as_str() {
                    None => None,
                    Some(s) => Some(s.clone()),
                },
            };
        }
        assert(outputs@.skip(i as int).drop_first() =~= outputs@.skip(i + 1));
        i = i + 1;
    }
    None
}

} // verus!
