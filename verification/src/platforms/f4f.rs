//! Flirt4Free: segment entries are full addresses whose last `_`-separated field before
//! `.ts` is the stream number.
use vstd::prelude::*;
use crate::platforms::{Platform, PlaylistError, fold_segments, fold_safe, recording_name, recording_name_exec};
use crate::stream::{Playlist, Stream, StreamView, outcome_is, stream_views};
use crate::text;
use crate::util;
use crate::outside;
use crate::platforms::LookupError;
use crate::json::{JsonValue, json_get, json_str, json_array};

verus! {

broadcast use vstd::string::group_string_axioms;

/// The number before `.ts`: the last `_`-separated field of what precedes the first `.ts`.
pub open spec fn ts_number_of(line: Seq<char>, max: nat) -> Option<nat> {
    match text::find_seq(line, ".ts"@) {
        None => None,
        Some(n) => text::parse_uint_seq(text::split_seq(line.take(n), '_').last(), max),
    }
}

/// Address and stream number of one entry line.
pub open spec fn entry(line: Seq<char>, playlist_url: Seq<char>) -> Result<(Seq<char>, u32), PlaylistError> {
    match ts_number_of(line, u32::MAX as nat) {
        None => Err(PlaylistError::NoStreamId),
        Some(v) => Ok((line, v as u32)),
    }
}

/// The segments of a Flirt4Free playlist, named with the given date.
pub open spec fn segments(
    text: Option<Seq<char>>,
    playlist_url: Seq<char>,
    username: Seq<char>,
    user_agent: Seq<char>,
    date: Seq<char>,
) -> Result<Seq<StreamView>, PlaylistError> {
    match text {
        None => Err(PlaylistError::NoPlaylist),
        Some(t) => fold_segments(
            text::lines_seq(t),
            |l: Seq<char>| entry(l, playlist_url),
            recording_name("F4F"@, username, date),
            Platform::F4F,
            user_agent,
        ),
    }
}

/// `ts_number` computed.
pub fn ts_number(line: &[char], max: u64) -> (r: Option<u64>)
    requires
        max == u32::MAX || max == u64::MAX,
    ensures
        r matches Some(v) ==> ts_number_of(line@, max as nat) == Some(v as nat),
        r is None ==> ts_number_of(line@, max as nat) is None,
{
    let n = match text::find_str(line, ".ts") {
        Some(n) => n,
        None => return None,
    };
    proof {
        text::lemma_find_from_props(line@, ".ts"@, 0);
    }
    let head = text::slice_chars(line, 0, n);
    assert(head@ =~= line@.take(n as int));
    let pieces = text::split(head.as_slice(), '_');
    let last = pieces[pieces.len() - 1].as_slice();
    if max == u64::MAX {
        text::parse_u64(last)
    } else {
        match text::parse_u32(last) {
            Some(v) => Some(v as u64),
            None => None,
        }
    }
}

/// A Flirt4Free playlist gives one segment per entry line, in the order of the lines: when the
/// read succeeds the `i`th segment carries the address and stream number that the `i`th entry
/// line gives, the recording name `F4F_username_date`, no audio and no initialisation
/// segment; the read succeeds whenever every entry line reads, and otherwise fails with the
/// error of the first entry line that does not.
pub proof fn lemma_one_segment_per_entry(
    t: Seq<char>,
    playlist_url: Seq<char>,
    username: Seq<char>,
    user_agent: Seq<char>,
    date: Seq<char>,
)
    ensures
        ({
            let es = crate::platforms::entry_lines(text::lines_seq(t));
            &&& segments(Some(t), playlist_url, username, user_agent, date) matches Ok(v) ==> {
                &&& v.len() == es.len()
                &&& forall|i: int| 0 <= i < v.len() ==> entry(#[trigger] es[i], playlist_url) == Ok::<(Seq<char>, u32), PlaylistError>((v[i].url, v[i].stream_id))
                    && v[i].filename == recording_name("F4F"@, username, date)
                    && v[i].platform == Platform::F4F
                    && v[i].user_agent == user_agent
                    && v[i].url_audio is None
                    && v[i].mp4_header is None
                    && v[i].index == 0
                    && v[i].data is None
            }
            &&& (forall|i: int| 0 <= i < es.len() ==> (entry(#[trigger] es[i], playlist_url)) is Ok) ==> segments(Some(t), playlist_url, username, user_agent, date) is Ok
            &&& segments(Some(t), playlist_url, username, user_agent, date) matches Err(e) ==> exists|i: int| 0 <= i < es.len()
                && entry(#[trigger] es[i], playlist_url) == Err::<(Seq<char>, u32), PlaylistError>(e)
                && forall|j: int| 0 <= j < i ==> (entry(#[trigger] es[j], playlist_url)) is Ok
        }),
{
    crate::platforms::lemma_fold_one_per_entry(
        text::lines_seq(t),
        |l: Seq<char>| entry(l, playlist_url),
        recording_name("F4F"@, username, date),
        Platform::F4F,
        user_agent,
    );
}

/// Reading the playlist tests for a leading `#` only lines that can be tested.
pub open spec fn readable(text: Seq<char>, playlist_url: Seq<char>) -> bool {
    fold_safe(text::lines_seq(text), |l: Seq<char>| entry(l, playlist_url))
}

fn entry_exec(line: &[char], playlist_url: &[char]) -> (r: Result<(Vec<char>, u32), PlaylistError>)
    ensures
        r matches Ok((u, id)) ==> entry(line@, playlist_url@) == Ok::<(Seq<char>, u32), PlaylistError>((u@, id)),
        r matches Err(e) ==> entry(line@, playlist_url@) == Err::<(Seq<char>, u32), PlaylistError>(e),
{
    match ts_number(line, 0xffff_ffffu64) {
        None => Err(PlaylistError::NoStreamId),
        Some(v) => {
            let c = text::slice_chars(line, 0, line.len());
            assert(c@ =~= line@);
            Ok((c, v as u32))
        },
    }
}

/// The segments of the downloaded playlist, their recording named with `date`, where the read
/// tests for a leading `#` only lines that can be tested; `None` where it would test one that
/// cannot.
pub fn read_at(playlist: &Playlist, date: &str) -> (r: Option<Result<Vec<Stream>, PlaylistError>>)
    ensures
        r is None <==> (playlist.playlist matches Some(t) && !readable(t@, playlist.playlist_url@)),
        r matches Some(x) ==> outcome_is(
            x,
            segments(
                crate::stream::str_opt(playlist.playlist),
                playlist.playlist_url@,
                playlist.username@,
                playlist.settings.user_agent@,
                date@,
            ),
        ),
{
    let text = match &playlist.playlist {
        Some(t) => t,
        None => return Some(Err(PlaylistError::NoPlaylist)),
    };
    let t = text::chars_of(text.as_str());
    let lines = text::lines(t.as_slice());
    let url = text::chars_of(playlist.playlist_url.as_str());
    let user = text::chars_of(playlist.username.as_str());
    let d = text::chars_of(date);
    let name = recording_name_exec("F4F", user.as_slice(), d.as_slice());
    let name_s = text::string_of(name.as_slice());
    let ghost ls = text::seqs(lines@);
    let ghost f = |l: Seq<char>| entry(l, playlist.playlist_url@);
    let ghost fname = recording_name("F4F"@, playlist.username@, date@);
    let ghost ua = playlist.settings.user_agent@;
    let mut out: Vec<Stream> = Vec::new();
    let n = lines.len();
    let mut k: usize = 0;
    assert(ls.take(0) =~= Seq::<Seq<char>>::empty());
    assert(ls.skip(0) =~= ls);
    assert(readable(t@, playlist.playlist_url@) == fold_safe(ls, f));
    assert(stream_views(out@) =~= Seq::<StreamView>::empty());
    while k < n
        invariant
            n == lines@.len() == ls.len(),
            k <= n,
            ls == text::seqs(lines@),
            ls == text::lines_seq(t@),
            crate::stream::str_opt(playlist.playlist) == Some(t@),
            url@ == playlist.playlist_url@,
            name_s@ == fname,
            fname == recording_name("F4F"@, playlist.username@, date@),
            fold_segments(ls.take(k as int), f, fname, Platform::F4F, ua) == Ok::<Seq<StreamView>, PlaylistError>(stream_views(out@)),
            f == (|l: Seq<char>| entry(l, playlist.playlist_url@)),
            ua == playlist.settings.user_agent@,
            fold_safe(ls, f) == fold_safe(ls.skip(k as int), f),
        decreases n - k,
    {
        let line = lines[k].as_slice();
        assert(ls.take(k + 1).drop_last() =~= ls.take(k as int));
        assert(ls.take(k + 1).last() == line@);
        assert(ls.skip(k as int)[0] == line@);
        assert(ls.skip(k as int).drop_first() =~= ls.skip(k + 1));
        if line.len() > 0 && (line[0] as u32) >= 0x80 {
            return None;
        }
        if text::is_blank_or_tag(line) {
            k = k + 1;
            continue;
        }
        match entry_exec(line, url.as_slice()) {
            Err(e) => {
                proof {
                    assert(f(line@) == entry(line@, playlist.playlist_url@));
                    assert(fold_segments(ls.take(k + 1), f, fname, Platform::F4F, ua) == Err::<Seq<StreamView>, PlaylistError>(e));
                    crate::platforms::lemma_fold_err_stays(ls, k + 1, f, fname, Platform::F4F, ua);
                    assert(ls.take(n as int) =~= ls);
                    assert(fold_segments(ls, f, fname, Platform::F4F, ua) == Err::<Seq<StreamView>, PlaylistError>(e));
                    assert(segments(crate::stream::str_opt(playlist.playlist), playlist.playlist_url@, playlist.username@, ua, date@) == fold_segments(ls, f, fname, Platform::F4F, ua));
                }
                return Some(Err(e));
            },
            Ok((u, id)) => {
                let u_s = text::string_of(u.as_slice());
                let s = Stream::new(
                    name_s.as_str(),
                    u_s.as_str(),
                    None,
                    id,
                    Platform::F4F,
                    playlist.settings.user_agent.clone(),
                    None,
                    None,
                );
                let ghost before = out@;
                assert(f(line@) == entry(line@, playlist.playlist_url@));
                out.push(s);
                assert(stream_views(out@) =~= stream_views(before).push(s@));
            },
        }
        k = k + 1;
    }
    assert(ls.take(n as int) =~= ls);
    assert(ls.skip(n as int) =~= Seq::<Seq<char>>::empty());
    Some(Ok(out))
}

/// The segments of the downloaded playlist, their recording named with `date`.
pub fn parse_playlist_at(playlist: &Playlist, date: &str) -> (r: Result<Vec<Stream>, PlaylistError>)
    requires
        playlist.playlist matches Some(t) ==> readable(t@, playlist.playlist_url@),
    ensures
        outcome_is(
            r,
            segments(
                crate::stream::str_opt(playlist.playlist),
                playlist.playlist_url@,
                playlist.username@,
                playlist.settings.user_agent@,
                date@,
            ),
        ),
{
    match read_at(playlist, date) {
        Some(r) => r,
        None => {
            assert(false);
            Err(PlaylistError::NoPlaylist)
        },
    }
}

/// The segments of the downloaded playlist, their recording named with the local date and
/// time `now`.
pub fn parse_playlist(playlist: &Playlist, now: &util::LocalTime) -> (r: Result<Vec<Stream>, PlaylistError>)
    requires
        util::writable(*now),
        playlist.playlist matches Some(t) ==> readable(t@, playlist.playlist_url@),
    ensures
        outcome_is(
            r,
            segments(
                crate::stream::str_opt(playlist.playlist),
                playlist.playlist_url@,
                playlist.username@,
                playlist.settings.user_agent@,
                util::stamp_of_time(*now),
            ),
        ),
{
    let date = util::date(now);
    parse_playlist_at(playlist, date.as_str())
}


/// The model list cut out of the index page: from ten bytes after `'models':` up to and
/// including the last `}` before `'favorites':`, with `]` added; `None` where a marker is
/// missing or a cut falls inside a character.
pub open spec fn models_json_of(raw: Seq<char>) -> Option<Seq<char>> {
    match text::find_seq(raw, "'models':"@) {
        None => None,
        Some(ms) => match text::find_seq(raw, "'favorites':"@) {
            None => None,
            Some(fe) => {
                let start: int = text::byte_len(raw.take(ms)) as int + 10;
                let end: int = text::byte_len(raw.take(fe)) as int;
                let offset: int = match text::byte_get(raw, start, end) {
                    None => 0,
                    Some(s0) => match text::rfind_char_seq(s0, '}') {
                        None => 0,
                        Some(q) => text::byte_len(s0.take(q + 1)) as int,
                    },
                };
                match text::byte_get(raw, start, start + offset) {
                    None => None,
                    Some(body) => Some(body.push(']')),
                }
            },
        },
    }
}

pub fn models_json(raw: &str) -> (r: Option<String>)
    ensures
        r matches Some(j) ==> models_json_of(raw@) == Some(j@),
        r is None ==> models_json_of(raw@) is None,
{
    let c = text::chars_of(raw);
    let s = c.as_slice();
    let ms = match text::find_str(s, "'models':") {
        None => return None,
        Some(m) => m,
    };
    let fe = match text::find_str(s, "'favorites':") {
        None => return None,
        Some(f) => f,
    };
    proof {
        text::lemma_find_from_props(s@, "'models':"@, 0);
        text::lemma_find_from_props(s@, "'favorites':"@, 0);
    }
    let ghost start: int = text::byte_len(s@.take(ms as int)) as int + 10;
    let ghost end: int = text::byte_len(s@.take(fe as int)) as int;
    let i = match text::char_pos_at(s, ms, 10) {
        None => {
            assert(text::byte_get(s@, start, start + 0) is None);
            return None;
        },
        Some(i) => i,
    };
    proof {
        text::lemma_pos_from_props(s@, start, 0);
        text::lemma_pos_exact(s@, i as int);
    }
    let ghost offset: int = match text::byte_get(s@, start, end) {
        None => 0,
        Some(s0) => match text::rfind_char_seq(s0, '}') {
            None => 0,
            Some(q) => text::byte_len(s0.take(q + 1)) as int,
        },
    };
    let jo = text::char_pos_at(s, fe, 0);
    let mut close: usize = i;
    match jo {
        Some(j) => {
            proof {
                text::lemma_pos_from_props(s@, end, 0);
            }
            if i <= j {
                let s0 = text::slice_chars(s, i, j);
                assert(text::byte_get(s@, start, end) == Some(s0@)) by {
                    if i < j {
                        text::lemma_byte_len_strict(s@, i as int, j as int);
                    }
                }
                match text::rfind_char(s0.as_slice(), '}') {
                    None => {
                        assert(offset == 0);
                    },
                    Some(q) => {
                        proof {
                            text::lemma_rfind_range(s0@, '}');
                            assert(s@.take(i + q + 1) =~= s@.take(i as int) + s0@.take(q + 1));
                            text::lemma_byte_len_concat(s@.take(i as int), s0@.take(q + 1));
                            text::lemma_pos_exact(s@, i + q + 1);
                        }
                        close = i + q + 1;
                        assert(offset == text::byte_len(s@.take(close as int)) - start + 10 - 10);
                    },
                }
            } else {
                proof {
                    if start <= end {
                        text::lemma_pos_from_props(s@, end, 0);
                        text::lemma_byte_len_strict(s@, j as int, i as int);
                    }
                }
                assert(offset == 0);
            }
        },
        None => {
            assert(offset == 0);
        },
    }
    assert(text::pos_from(s@, start + offset, 0) == Some(close as int));
    let mut body = text::slice_chars(s, i, close);
    body.push(']');
    Some(text::string_of(body.as_slice()))
}


/// Whether `v` is the model whose search name is `name`.
pub open spec fn is_model(v: JsonValue, name: Seq<char>) -> bool {
    match json_get(v, "model_seo_name"@) {
        Some(n) => json_str(n) == Some(name),
        None => false,
    }
}

/// The first model in `models` whose search name is `name`.
pub open spec fn first_model(models: Seq<JsonValue>, name: Seq<char>) -> Option<JsonValue>
    decreases models.len(),
{
    if models.len() == 0 {
        None
    } else if is_model(models[0], name) {
        Some(models[0])
    } else {
        first_model(models.drop_first(), name)
    }
}

/// The id of the online model `username` (compared in lower case) in the model list:
/// `Ok(None)` when she is not in it.
pub open spec fn model_id_of(json: JsonValue, username: Seq<char>) -> Result<Option<Seq<char>>, LookupError> {
    let found = match json_array(json) {
        None => None,
        Some(models) => first_model(models, outside::lowercase(username)),
    };
    match found {
        None => Ok(None),
        Some(m) => match json_get(m, "model_id"@) {
            None => Err(LookupError::Missing),
            Some(idv) => match json_str(idv) {
                None => Err(LookupError::Missing),
                Some(id) => Ok(Some(id)),
            },
        },
    }
}

fn is_model_exec(v: &JsonValue, name: &[char]) -> (r: bool)
    ensures
        r == is_model(*v, name@),
{
    match v.get("model_seo_name") {
        None => false,
        Some(n) => match n.as_str() {
            None => false,
            Some(s) => {
                let c = text::chars_of(s.as_str());
                text::chars_eq(c.as_slice(), name)
            },
        },
    }
}

pub fn model_id(json: &JsonValue, username: &str) -> (r: Result<Option<String>, LookupError>)
    ensures
        r matches Ok(Some(u)) ==> model_id_of(*json, username@) == Ok::<Option<Seq<char>>, LookupError>(Some(u@)),
        r matches Ok(None) ==> model_id_of(*json, username@) == Ok::<Option<Seq<char>>, LookupError>(None),
        r matches Err(e) ==> model_id_of(*json, username@) == Err::<Option<Seq<char>>, LookupError>(e),
{
    let lower = outside::to_lowercase(username);
    let name = text::chars_of(lower.as_str());
    let models = match json.as_array() {
        None => return Ok(None),
        Some(a) => a,
    };
    let mut i: usize = 0;
    assert(models@.skip(0) =~= models@);
    while i < models.len()
        invariant
            i <= models@.len(),
            name@ == outside::lowercase(username@),
            json_array(*json) == Some(models@),
            first_model(models@, name@) == first_model(models@.skip(i as int), name@),
        decreases models@.len() - i,
    {
        assert(models@.skip(i as int)[0] == models@[i as int]);
        if is_model_exec(&models[i], name.as_slice()) {
            return match models[i].get("model_id") {
                None => Err(LookupError::Missing),
                Some(v) => match v.as_str() {
                    None => Err(LookupError::Missing),
                    Some(id) => Ok(Some(id.clone())),
                },
            };
        }
        assert(models@.skip(i as int).drop_first() =~= models@.skip(i + 1));
        i = i + 1;
    }
    Ok(None)
}

/// The address of the chat-room login for model `model_id`.
pub fn room_interface_address(model_id: &str) -> (r: String)
    ensures
        r@ == "https://www.flirt4free.com/ws/rooms/chat-room-interface.php?a=login_room&model_id="@ + model_id@,
{
    let mut u = text::chars_of("https://www.flirt4free.com/ws/rooms/chat-room-interface.php?a=login_room&model_id=");
    text::push_str(&mut u, model_id);
    text::string_of(u.as_slice())
}

/// `json.get(a)?.get(b)?.get(c)?.as_str()?`
pub open spec fn str_at3(json: JsonValue, a: Seq<char>, b: Seq<char>, c: Seq<char>) -> Option<Seq<char>> {
    match json_get(json, a) {
        None => None,
        Some(x) => match json_get(x, b) {
            None => None,
            Some(y) => match json_get(y, c) {
                None => None,
                Some(z) => json_str(z),
            },
        },
    }
}

fn str_at3_exec(json: &JsonValue, a: &str, b: &str, c: &str) -> (r: Option<String>)
    ensures
        r matches Some(s) ==> str_at3(*json, a@, b@, c@) == Some(s@),
        r is None ==> str_at3(*json, a@, b@, c@) is None,
{
    match json.get(a) {
        None => None,
        Some(x) => match x.get(b) {
            None => None,
            Some(y) => match y.get(c) {
                None => None,
                Some(z) => match z.as_str() {
                    None => None,
                    Some(s) => Some(s.clone()),
                },
            },
        },
    }
}

/// The chat socket address that the room login answer gives for model `model_id`.
pub open spec fn socket_address_of(json: JsonValue, model_id: Seq<char>) -> Option<Seq<char>> {
    match json_get(json, "token_enc"@) {
        None => None,
        Some(tv) => match json_str(tv) {
            None => None,
            Some(token) => match str_at3(json, "config"@, "room"@, "port_to_be"@) {
                None => None,
                Some(port) => match str_at3(json, "config"@, "room"@, "host"@) {
                    None => None,
                    Some(host) => Some(
                        "wss://www.flirt4free.com/"@ + text::split_seq(host, '.')[0] + "/chat?token="@
                            + token + "&port_to_be="@ + port + "&model_id="@ + model_id,
                    ),
                },
            },
        },
    }
}

pub fn socket_address(json: &JsonValue, model_id: &str) -> (r: Option<String>)
    ensures
        r matches Some(s) ==> socket_address_of(*json, model_id@) == Some(s@),
        r is None ==> socket_address_of(*json, model_id@) is None,
{
    let token = match json.get("token_enc") {
        None => return None,
        Some(v) => match v.as_str() {
            None => return None,
            Some(t) => t,
        },
    };
    let port = match str_at3_exec(json, "config", "room", "port_to_be") {
        None => return None,
        Some(p) => p,
    };
    let host = match str_at3_exec(json, "config", "room", "host") {
        None => return None,
        Some(h) => h,
    };
    let hc = text::chars_of(host.as_str());
    let pieces = text::split(hc.as_slice(), '.');
    let mut u = text::chars_of("wss://www.flirt4free.com/");
    text::push_all(&mut u, pieces[0].as_slice());
    text::push_str(&mut u, "/chat?token=");
    text::push_str(&mut u, token.as_str());
    text::push_str(&mut u, "&port_to_be=");
    text::push_str(&mut u, port.as_str());
    text::push_str(&mut u, "&model_id=");
    text::push_str(&mut u, model_id);
    Some(text::string_of(u.as_slice()))
}

/// The manifest address that the socket's first message gives for model `model_id`: the
/// stream key of its first HLS provider.
pub open spec fn manifest_address_of(json: JsonValue, model_id: Seq<char>) -> Option<Seq<char>> {
    let providers = match providers_of(json) {
        None => None,
        Some(p) => json_array(p),
    };
    match providers {
        None => None,
        Some(ps) => if ps.len() == 0 {
            None
        } else {
            match json_get(ps[0], "stream_key"@) {
                None => None,
                Some(kv) => match json_str(kv) {
                    None => None,
                    Some(key) => Some(
                        "https://hls.vscdns.com/manifest.m3u8?key="@ + key + "&model_id="@ + model_id,
                    ),
                },
            }
        },
    }
}

/// `json.data.video_info.hls.providers`.
pub open spec fn providers_of(json: JsonValue) -> Option<JsonValue> {
    match json_get(json, "data"@) {
        None => None,
        Some(d) => match json_get(d, "video_info"@) {
            None => None,
            Some(vi) => match json_get(vi, "hls"@) {
                None => None,
                Some(h) => json_get(h, "providers"@),
            },
        },
    }
}

pub fn manifest_address(json: &JsonValue, model_id: &str) -> (r: Option<String>)
    ensures
        r matches Some(s) ==> manifest_address_of(*json, model_id@) == Some(s@),
        r is None ==> manifest_address_of(*json, model_id@) is None,
{
    let providers = match json.get("data") {
        None => return None,
        Some(d) => match d.get("video_info") {
            None => return None,
            Some(vi) => match vi.get("hls") {
                None => return None,
                Some(h) => match h.get("providers") {
                    None => return None,
                    Some(p) => match p.as_array() {
                        None => return None,
                        Some(a) => a,
                    },
                },
            },
        },
    };
    if providers.len() == 0 {
        return None;
    }
    let key = match providers[0].get("stream_key") {
        None => return None,
        Some(kv) => match kv.as_str() {
            None => return None,
            Some(k) => k,
        },
    };
    let mut u = text::chars_of("https://hls.vscdns.com/manifest.m3u8?key=");
    text::push_str(&mut u, key.as_str());
    text::push_str(&mut u, "&model_id=");
    text::push_str(&mut u, model_id);
    Some(text::string_of(u.as_slice()))
}

} // verus!
