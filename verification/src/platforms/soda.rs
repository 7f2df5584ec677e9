//! CamSoda: entries are full addresses whose number before `.llhls.mp4` is the stream
//! number; the initialisation segment is named relative to the playlist.
use vstd::prelude::*;
use crate::platforms::PlaylistError;
use crate::platforms::sc::MouflonKeys;
use crate::platforms::scan::{ScanKind, ScanState, ScanStep, scan, scan_run, scan_ctx, scan_safe, start_view, step_is};
use crate::stream::Playlist;
use crate::platforms::LookupError;
use crate::json::{JsonValue, json_get, json_str, json_array};
use crate::text;
use crate::outside;

verus! {

/// Reads a CamSoda playlist from its first line; where it names an initialisation segment
/// that `playlist` does not yet hold, the read stops there and is resumed with `scan`.
pub fn parse_playlist(playlist: &Playlist) -> (r: ScanStep)
    requires
        playlist.playlist matches Some(t) ==> scan_safe(scan_ctx(*playlist, ScanKind::Soda, Seq::empty(), t@), start_view()),
    ensures
        playlist.playlist is None ==> r matches ScanStep::Done(Err(PlaylistError::NoPlaylist)),
        playlist.playlist matches Some(t) ==> step_is(
            r,
            scan_run(scan_ctx(*playlist, ScanKind::Soda, Seq::empty(), t@), start_view()),
        ),
{
    let keys = MouflonKeys { pairs: Vec::new() };
    assert(keys.pairs@ =~= Seq::<(String, String)>::empty());
    scan(playlist, ScanKind::Soda, &keys, ScanState::start())
}


/// The pattern that finds the stream description in a model's page.
pub const STREAM_PATTERN: &'static str = "\"stream\":[^\\}]+\\}";

/// The page of model `username`.
pub fn page_address(username: &str) -> (r: String)
    ensures
        r@ == "https://www.camsoda.com/"@ + username@,
{
    let mut u = text::chars_of("https://www.camsoda.com/");
    text::push_str(&mut u, username);
    text::string_of(u.as_slice())
}

/// The stream description found in a page, wrapped in braces to make a JSON object.
pub fn stream_json_text(html: &str) -> (r: Option<String>)
    ensures
        r matches Some(j) ==> exists|m: Seq<char>| outside::regex_match(STREAM_PATTERN@, html@) == Some(m) && j@ == seq!['{'] + m + seq!['}'],
        r is None ==> outside::regex_match(STREAM_PATTERN@, html@) is None,
{
    match outside::regex_find(STREAM_PATTERN, html) {
        None => None,
        Some(m) => {
            let mut v: Vec<char> = vec!['{'];
            text::push_str(&mut v, m.as_str());
            v.push('}');
            assert(v@ =~= seq!['{'] + m@ + seq!['}']);
            Some(text::string_of(v.as_slice()))
        },
    }
}

/// The playlist address that the stream description gives: `Ok(None)` when it lists no
/// edge server.
pub open spec fn playlist_address_of(json: JsonValue) -> Result<Option<Seq<char>>, LookupError> {
    match json_get(json, "stream"@) {
        None => Err(LookupError::Missing),
        Some(st) => match json_get(st, "edge_servers"@) {
            None => Err(LookupError::Missing),
            Some(ev) => match json_array(ev) {
                None => Err(LookupError::Missing),
                Some(edges) => if edges.len() == 0 {
                    Ok(None)
                } else {
                    match json_str(edges[0]) {
                        None => Err(LookupError::Missing),
                        Some(host) => match json_get(st, "stream_name"@) {
                            None => Err(LookupError::Missing),
                            Some(nv) => match json_str(nv) {
                                None => Err(LookupError::Missing),
                                Some(name) => match json_get(st, "token"@) {
                                    None => Err(LookupError::Missing),
                                    Some(tv) => match json_str(tv) {
                                        None => Err(LookupError::Missing),
                                        Some(token) => Ok(
                                            Some(
                                                "https://"@ + host + "/"@ + name
                                                    + "_v1/index.ll.m3u8?multitrack=true&filter=tracks:v4v3v2v1a1a2&token="@
                                                    + token,
                                            ),
                                        ),
                                    },
                                },
                            },
                        },
                    }
                },
            },
        },
    }
}

pub fn playlist_address(json: &JsonValue) -> (r: Result<Option<String>, LookupError>)
    ensures
        r matches Ok(Some(u)) ==> playlist_address_of(*json) == Ok::<Option<Seq<char>>, LookupError>(Some(u@)),
        r matches Ok(None) ==> playlist_address_of(*json) == Ok::<Option<Seq<char>>, LookupError>(None),
        r matches Err(e) ==> playlist_address_of(*json) == Err::<Option<Seq<char>>, LookupError>(e),
{
    let st = match json.get("stream") {
        None => return Err(LookupError::Missing),
        Some(x) => x,
    };
    let edges = match st.get("edge_servers") {
        None => return Err(LookupError::Missing),
        Some(v) => match v.as_array() {
            None => return Err(LookupError::Missing),
            Some(a) => a,
        },
    };
    if edges.len() == 0 {
        return Ok(None);
    }
    let host = match edges[0].as_str() {
        None => return Err(LookupError::Missing),
        Some(h) => h,
    };
    let name = match st.get("stream_name") {
        None => return Err(LookupError::Missing),
        Some(v) => match v.as_str() {
            None => return Err(LookupError::Missing),
            Some(n) => n,
        },
    };
    let token = match st.get("token") {
        None => return Err(LookupError::Missing),
        Some(v) => match v.as_str() {
            None => return Err(LookupError::Missing),
            Some(t) => t,
        },
    };
    let mut u = text::chars_of("https://");
    text::push_str(&mut u, host.as_str());
    text::push_str(&mut u, "/");
    text::push_str(&mut u, name.as_str());
    text::push_str(&mut u, "_v1/index.ll.m3u8?multitrack=true&filter=tracks:v4v3v2v1a1a2&token=");
    text::push_str(&mut u, token.as_str());
    Ok(Some(text::string_of(u.as_slice())))
}

} // verus!
