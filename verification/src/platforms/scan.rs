//! Reading the fragmented-MP4 playlists of Stripchat and CamSoda. These playlists name an
//! initialisation segment that has to be downloaded before the entries after it can be
//! made; reading therefore stops there, hands the address out, and goes on from the same
//! line once the segment is known.
use vstd::prelude::*;
use crate::platforms::{Platform, PlaylistError, recording_name, recording_name_exec};
use crate::platforms::sc::{MouflonKeys, key_lookup, decrypt_seq, decrypt};
use crate::stream::{Playlist, Stream, StreamView, stream_views, new_stream_view, bytes_opt, str_opt, clone_bytes_opt};
use crate::text;
use crate::util;
use crate::outside;

verus! {

broadcast use vstd::string::group_string_axioms;

/// Which site's playlist is read.
#[derive(Debug, Clone, Copy, PartialEq, Eq, Structural)]
pub enum ScanKind {
    Sc { vr: bool },
    Soda,
}

/// The pattern whose group 1 is a CamSoda stream number.
pub const SODA_ID_PATTERN: &'static str = "-(\\d*).llhls.mp4";

/// How far a read has come: the next line, the key and date found so far, and the
/// segments made so far.
pub struct ScanState {
    pub line: usize,
    pub key: Option<String>,
    pub date: Option<String>,
    pub streams: Vec<Stream>,
}

pub struct ScanStateView {
    pub line: int,
    pub key: Option<Seq<char>>,
    pub date: Option<Seq<char>>,
    pub streams: Seq<StreamView>,
}

impl View for ScanState {
    type V = ScanStateView;

    open spec fn view(&self) -> ScanStateView {
        ScanStateView {
            line: self.line as int,
            key: str_opt(self.key),
            date: str_opt(self.date),
            streams: stream_views(self.streams@),
        }
    }
}

impl ScanState {
    /// A read from the first line.
    pub fn start() -> (r: Self)
        ensures
            r@ == start_view(),
    {
        let r = ScanState { line: 0, key: None, date: None, streams: Vec::new() };
        assert(r@.streams =~= Seq::<StreamView>::empty());
        r
    }
}

pub open spec fn start_view() -> ScanStateView {
    ScanStateView { line: 0, key: None, date: None, streams: Seq::empty() }
}

/// Where a read stops.
pub enum ScanStep {
    /// The read is over.
    Done(Result<Vec<Stream>, PlaylistError>),
    /// The initialisation segment at this address is needed; the read resumes from the state.
    NeedHeader(String, ScanState),
}

pub enum ScanOutcome {
    Done(Result<Seq<StreamView>, PlaylistError>),
    Need(Seq<char>, ScanStateView),
}

pub open spec fn step_is(r: ScanStep, o: ScanOutcome) -> bool {
    match r {
        ScanStep::Done(Ok(v)) => o == ScanOutcome::Done(Ok(stream_views(v@))),
        ScanStep::Done(Err(e)) => o == ScanOutcome::Done(Err(e)),
        ScanStep::NeedHeader(u, st) => o == ScanOutcome::Need(u@, st@),
    }
}

/// What stays fixed during a read.
pub struct ScanCtx {
    pub kind: ScanKind,
    pub lines: Seq<Seq<char>>,
    pub playlist_url: Seq<char>,
    pub keys: Seq<(String, String)>,
    pub header: Option<Seq<u8>>,
    pub username: Seq<char>,
    pub user_agent: Seq<char>,
}

pub open spec fn scan_ctx(playlist: Playlist, kind: ScanKind, keys: Seq<(String, String)>, t: Seq<char>) -> ScanCtx {
    ScanCtx {
        kind,
        lines: text::lines_seq(t),
        playlist_url: playlist.playlist_url@,
        keys,
        header: bytes_opt(playlist.mp4_header),
        username: playlist.username@,
        user_agent: playlist.settings.user_agent@,
    }
}

pub open spec fn kind_platform(kind: ScanKind) -> Platform {
    match kind {
        ScanKind::Sc { vr } => if vr { Platform::SCVR } else { Platform::SC },
        ScanKind::Soda => Platform::SODA,
    }
}

pub open spec fn kind_prefix(kind: ScanKind) -> Seq<char> {
    match kind {
        ScanKind::Sc { vr } => if vr { "SCVR"@ } else { "SC"@ },
        ScanKind::Soda => "CS"@,
    }
}

/// A Stripchat key tag, read while no key is known.
pub open spec fn key_step(kind: ScanKind, keys: Seq<(String, String)>, line: Seq<char>, key: Option<Seq<char>>) -> Result<Option<Seq<char>>, PlaylistError> {
    match kind {
        ScanKind::Soda => Ok(key),
        ScanKind::Sc { .. } => if key is None && text::contains_seq(line, "#EXT-X-MOUFLON:PSCH"@) {
            let segs = text::split_seq(line, ':');
            if segs.len() < 4 {
                Err(PlaylistError::NoMouflonKey)
            } else {
                match key_lookup(keys, segs[3]) {
                    None => Err(PlaylistError::UnknownMouflonKey),
                    Some(v) => Ok(Some(v)),
                }
            }
        } else {
            Ok(key)
        },
    }
}

/// An initialisation-segment tag, read while no segment is known: the address needed.
pub open spec fn header_step(kind: ScanKind, header_known: bool, playlist_url: Seq<char>, line: Seq<char>) -> Result<Option<Seq<char>>, PlaylistError> {
    if !header_known && text::contains_seq(line, "EXT-X-MAP:URI"@) {
        let parts = text::split_seq(line, '"');
        if parts.len() < 2 {
            Err(PlaylistError::BadHeaderLine)
        } else {
            match kind {
                ScanKind::Sc { .. } => Ok(Some(parts[1])),
                ScanKind::Soda => match util::resolve_seq(playlist_url, parts[1]) {
                    None => Err(PlaylistError::NoUrlPrefix),
                    Some(u) => Ok(Some(u)),
                },
            }
        }
    } else {
        Ok(None)
    }
}

/// A time tag, read while no date is known: the fourteen bytes from seven bytes after
/// `TIME`, with `:` made `-` and `T` made `_`.
pub open spec fn date_step(line: Seq<char>, date: Option<Seq<char>>) -> Result<Option<Seq<char>>, PlaylistError> {
    if date is None {
        match text::find_seq(line, "TIME"@) {
            None => Ok(date),
            Some(p) => if text::byte_len(line) < 21 {
                Err(PlaylistError::ShortDateLine)
            } else {
                let n: int = text::byte_len(line.take(p)) as int;
                match text::byte_get(line, n + 7, n + 21) {
                    None => Err(PlaylistError::BadDateRange),
                    Some(t) => Ok(
                        Some(text::replace_char_seq(text::replace_char_seq(t, ':', '-'), 'T', '_')),
                    ),
                }
            },
        }
    } else {
        Ok(date)
    }
}

/// The stream number of a Stripchat address: the text of its last `_`-separated field
/// before the first `.`, trimmed.
pub open spec fn sc_id(url: Seq<char>) -> Result<u32, PlaylistError> {
    let last = text::split_seq(url, '_').last();
    match text::find_seq(last, "."@) {
        None => Err(PlaylistError::NoStreamId),
        Some(n) => match text::parse_uint_seq(text::trim_seq(last.take(n)), u32::MAX as nat) {
            None => Err(PlaylistError::BadStreamId),
            Some(v) => Ok(v as u32),
        },
    }
}

/// The segment an entry line gives, `i` being its position.
pub open spec fn entry_step(ctx: ScanCtx, i: int, line: Seq<char>, key: Option<Seq<char>>, date: Option<Seq<char>>) -> Result<StreamView, PlaylistError> {
    let url_id: Result<(Seq<char>, u32), PlaylistError> = match ctx.kind {
        ScanKind::Sc { .. } => {
            let url = match key {
                None => Ok(line),
                Some(k) => decrypt_seq(k, ctx.lines[if i == 0 { 0 } else { i - 1 }]),
            };
            match url {
                Err(e) => Err(e),
                Ok(u) => match sc_id(u) {
                    Err(e) => Err(e),
                    Ok(id) => Ok((u, id)),
                },
            }
        },
        ScanKind::Soda => match outside::regex_group(SODA_ID_PATTERN@, line, 1) {
            None => Err(PlaylistError::NoStreamId),
            Some(g) => match text::parse_uint_seq(g, u32::MAX as nat) {
                None => Err(PlaylistError::BadStreamId),
                Some(v) => Ok((line, v as u32)),
            },
        },
    };
    match url_id {
        Err(e) => Err(e),
        Ok((url, id)) => match date {
            None => Err(PlaylistError::NoDate),
            Some(d) => Ok(
                new_stream_view(
                    recording_name(kind_prefix(ctx.kind), ctx.username, d),
                    url,
                    None,
                    id,
                    kind_platform(ctx.kind),
                    ctx.user_agent,
                    ctx.header,
                    None,
                ),
            ),
        },
    }
}

pub enum LineStep {
    Next(Option<Seq<char>>, Option<Seq<char>>, Seq<StreamView>),
    Stop(ScanOutcome),
}

/// What line `st.line` does to the read.
pub open spec fn scan_line(ctx: ScanCtx, st: ScanStateView) -> LineStep {
    let i = st.line;
    let line = ctx.lines[i];
    match key_step(ctx.kind, ctx.keys, line, st.key) {
        Err(e) => LineStep::Stop(ScanOutcome::Done(Err(e))),
        Ok(key) => match header_step(ctx.kind, ctx.header is Some, ctx.playlist_url, line) {
            Err(e) => LineStep::Stop(ScanOutcome::Done(Err(e))),
            Ok(Some(u)) => LineStep::Stop(
                ScanOutcome::Need(u, ScanStateView { line: i, key, date: st.date, streams: st.streams }),
            ),
            Ok(None) => match date_step(line, st.date) {
                Err(e) => LineStep::Stop(ScanOutcome::Done(Err(e))),
                Ok(date) => if text::blank_or_tag(line) {
                    LineStep::Next(key, date, st.streams)
                } else {
                    match entry_step(ctx, i, line, key, date) {
                        Err(e) => LineStep::Stop(ScanOutcome::Done(Err(e))),
                        Ok(v) => LineStep::Next(key, date, st.streams.push(v)),
                    }
                },
            },
        },
    }
}

/// The whole read from `st` on.
pub open spec fn scan_run(ctx: ScanCtx, st: ScanStateView) -> ScanOutcome
    decreases ctx.lines.len() - st.line,
{
    if st.line < 0 || st.line >= ctx.lines.len() {
        ScanOutcome::Done(Ok(st.streams))
    } else {
        match scan_line(ctx, st) {
            LineStep::Stop(o) => o,
            LineStep::Next(key, date, streams) => scan_run(
                ctx,
                ScanStateView { line: st.line + 1, key, date, streams },
            ),
        }
    }
}


/// Reading line `st.line` gets as far as testing it for a leading `#`: its key, header and
/// date tags, if any, are read without error and it names no segment still needed.
pub open spec fn reaches_tag_test(ctx: ScanCtx, st: ScanStateView) -> bool {
    let line = ctx.lines[st.line];
    match key_step(ctx.kind, ctx.keys, line, st.key) {
        Err(_) => false,
        Ok(_) => match header_step(ctx.kind, ctx.header is Some, ctx.playlist_url, line) {
            Ok(None) => date_step(line, st.date) is Ok,
            _ => false,
        },
    }
}

/// The read from `st` on tests for a leading `#` only lines that can be tested.
pub open spec fn scan_safe(ctx: ScanCtx, st: ScanStateView) -> bool
    decreases ctx.lines.len() - st.line,
{
    if st.line < 0 || st.line >= ctx.lines.len() {
        true
    } else if reaches_tag_test(ctx, st) && !text::first_byte_sliceable(ctx.lines[st.line]) {
        false
    } else {
        match scan_line(ctx, st) {
            LineStep::Stop(_) => true,
            LineStep::Next(key, date, streams) => scan_safe(
                ctx,
                ScanStateView { line: st.line + 1, key, date, streams },
            ),
        }
    }
}

fn key_step_exec(kind: ScanKind, keys: &MouflonKeys, line: &[char], key: Option<String>) -> (r: Result<Option<String>, PlaylistError>)
    ensures
        r matches Ok(k) ==> key_step(kind, keys.pairs@, line@, str_opt(key)) == Ok::<Option<Seq<char>>, PlaylistError>(str_opt(k)),
        r matches Err(e) ==> key_step(kind, keys.pairs@, line@, str_opt(key)) == Err::<Option<Seq<char>>, PlaylistError>(e),
{
    match kind {
        ScanKind::Soda => Ok(key),
        ScanKind::Sc { .. } => {
            if key.is_none() && text::contains_str(line, "#EXT-X-MOUFLON:PSCH") {
                let segs = text::split(line, ':');
                if segs.len() < 4 {
                    return Err(PlaylistError::NoMouflonKey);
                }
                match keys.get(segs[3].as_slice()) {
                    None => Err(PlaylistError::UnknownMouflonKey),
                    Some(v) => Ok(Some(v)),
                }
            } else {
                Ok(key)
            }
        },
    }
}


fn header_step_exec(kind: ScanKind, header_known: bool, playlist_url: &[char], line: &[char]) -> (r: Result<Option<Vec<char>>, PlaylistError>)
    ensures
        r matches Ok(Some(u)) ==> header_step(kind, header_known, playlist_url@, line@) == Ok::<Option<Seq<char>>, PlaylistError>(Some(u@)),
        r matches Ok(None) ==> header_step(kind, header_known, playlist_url@, line@) == Ok::<Option<Seq<char>>, PlaylistError>(None),
        r matches Err(e) ==> header_step(kind, header_known, playlist_url@, line@) == Err::<Option<Seq<char>>, PlaylistError>(e),
{
    if !header_known && text::contains_str(line, "EXT-X-MAP:URI") {
        let parts = text::split(line, '"');
        if parts.len() < 2 {
            return Err(PlaylistError::BadHeaderLine);
        }
        match kind {
            ScanKind::Sc { .. } => {
                let u = text::slice_chars(parts[1].as_slice(), 0, parts[1].len());
                assert(u@ =~= parts[1]@);
                Ok(Some(u))
            },
            ScanKind::Soda => match util::resolve(playlist_url, parts[1].as_slice()) {
                None => Err(PlaylistError::NoUrlPrefix),
                Some(u) => Ok(Some(u)),
            },
        }
    } else {
        Ok(None)
    }
}

fn date_step_exec(line: &[char], date: Option<String>) -> (r: Result<Option<String>, PlaylistError>)
    ensures
        r matches Ok(d) ==> date_step(line@, str_opt(date)) == Ok::<Option<Seq<char>>, PlaylistError>(str_opt(d)),
        r matches Err(e) ==> date_step(line@, str_opt(date)) == Err::<Option<Seq<char>>, PlaylistError>(e),
{
    if date.is_some() {
        return Ok(date);
    }
    match text::find_str(line, "TIME") {
        None => Ok(date),
        Some(p) => {
            proof {
                text::lemma_find_from_props(line@, "TIME"@, 0);
            }
            if text::byte_len_lt(line, 21) {
                return Err(PlaylistError::ShortDateLine);
            }
            match text::byte_window(line, p, 7, 21) {
                None => Err(PlaylistError::BadDateRange),
                Some(t) => {
                    let a = text::replace_char(t.as_slice(), ':', '-');
                    let b = text::replace_char(a.as_slice(), 'T', '_');
                    Ok(Some(text::string_of(b.as_slice())))
                },
            }
        },
    }
}

fn sc_id_exec(url: &[char]) -> (r: Result<u32, PlaylistError>)
    ensures
        r matches Ok(v) ==> sc_id(url@) == Ok::<u32, PlaylistError>(v),
        r matches Err(e) ==> sc_id(url@) == Err::<u32, PlaylistError>(e),
{
    let pieces = text::split(url, '_');
    let last = pieces[pieces.len() - 1].as_slice();
    match text::find_str(last, ".") {
        None => Err(PlaylistError::NoStreamId),
        Some(n) => {
            proof {
                text::lemma_find_from_props(last@, "."@, 0);
            }
            let head = text::slice_chars(last, 0, n);
            assert(head@ =~= last@.take(n as int));
            let trimmed = text::trim(head.as_slice());
            match text::parse_u32(trimmed.as_slice()) {
                None => Err(PlaylistError::BadStreamId),
                Some(v) => Ok(v),
            }
        },
    }
}

/// The stream number of a CamSoda entry from the digits its pattern captured.
pub open spec fn soda_number_of(group: Seq<char>) -> Result<u32, PlaylistError> {
    match text::parse_uint_seq(group, u32::MAX as nat) {
        None => Err(PlaylistError::BadStreamId),
        Some(v) => Ok(v as u32),
    }
}

pub fn soda_number(group: &[char]) -> (r: Result<u32, PlaylistError>)
    ensures
        r == soda_number_of(group@),
{
    match text::parse_u32(group) {
        None => Err(PlaylistError::BadStreamId),
        Some(v) => Ok(v),
    }
}

fn kind_platform_exec(kind: ScanKind) -> (r: Platform)
    ensures
        r == kind_platform(kind),
{
    match kind {
        ScanKind::Sc { vr } => if vr { Platform::SCVR } else { Platform::SC },
        ScanKind::Soda => Platform::SODA,
    }
}

fn kind_prefix_exec(kind: ScanKind) -> (r: &'static str)
    ensures
        r@ == kind_prefix(kind),
{
    match kind {
        ScanKind::Sc { vr } => if vr { "SCVR" } else { "SC" },
        ScanKind::Soda => "CS",
    }
}


fn entry_step_exec(
    Ghost(ctx): Ghost<ScanCtx>,
    kind: ScanKind,
    lines: &Vec<Vec<char>>,
    i: usize,
    key: &Option<String>,
    date: &Option<String>,
    username: &[char],
    user_agent: &String,
    header: &Option<Vec<u8>>,
) -> (r: Result<Stream, PlaylistError>)
    requires
        ctx.kind == kind,
        ctx.lines == text::seqs(lines@),
        ctx.username == username@,
        ctx.user_agent == user_agent@,
        ctx.header == bytes_opt(*header),
        i < lines@.len(),
    ensures
        r matches Ok(v) ==> entry_step(ctx, i as int, lines@[i as int]@, str_opt(*key), str_opt(*date)) == Ok::<StreamView, PlaylistError>(v@),
        r matches Err(e) ==> entry_step(ctx, i as int, lines@[i as int]@, str_opt(*key), str_opt(*date)) == Err::<StreamView, PlaylistError>(e),
{
    let line = lines[i].as_slice();
    let (url, id) = match kind {
        ScanKind::Sc { .. } => {
            let url = match key {
                None => text::slice_chars(line, 0, line.len()),
                Some(k) => {
                    let j = if i == 0 { 0 } else { i - 1 };
                    match decrypt(k.as_str(), lines[j].as_slice()) {
                        Ok(u) => u,
                        Err(e) => return Err(e),
                    }
                },
            };
            proof {
                if key is None {
                    assert(url@ =~= line@);
                }
            }
            match sc_id_exec(url.as_slice()) {
                Err(e) => return Err(e),
                Ok(id) => (url, id),
            }
        },
        ScanKind::Soda => {
            let line_s = text::string_of(line);
            match outside::regex_capture(SODA_ID_PATTERN, line_s.as_str(), 1) {
                None => return Err(PlaylistError::NoStreamId),
                Some(g) => {
                    let gc = text::chars_of(g.as_str());
                    match soda_number(gc.as_slice()) {
                        Err(e) => return Err(e),
                        Ok(v) => {
                            let u = text::slice_chars(line, 0, line.len());
                            assert(u@ =~= line@);
                            (u, v)
                        },
                    }
                },
            }
        },
    };
    let d = match date {
        None => return Err(PlaylistError::NoDate),
        Some(d) => d,
    };
    let dc = text::chars_of(d.as_str());
    let name = recording_name_exec(kind_prefix_exec(kind), username, dc.as_slice());
    let name_s = text::string_of(name.as_slice());
    let url_s = text::string_of(url.as_slice());
    Ok(
        Stream::new(
            name_s.as_str(),
            url_s.as_str(),
            None,
            id,
            kind_platform_exec(kind),
            user_agent.clone(),
            clone_bytes_opt(header),
            None,
        ),
    )
}


/// Reads the downloaded playlist from `state` on, as `scan` does, where the read tests for a
/// leading `#` only lines that can be tested; `None` where it would test one that cannot.
pub fn resume(playlist: &Playlist, kind: ScanKind, keys: &MouflonKeys, state: ScanState) -> (r: Option<ScanStep>)
    ensures
        r is None <==> (playlist.playlist matches Some(t) && !scan_safe(scan_ctx(*playlist, kind, keys.pairs@, t@), state@)),
        r matches Some(s) ==> (playlist.playlist is None ==> s matches ScanStep::Done(Err(PlaylistError::NoPlaylist))),
        r matches Some(s) ==> (playlist.playlist matches Some(t) ==> step_is(s, scan_run(scan_ctx(*playlist, kind, keys.pairs@, t@), state@))),
{
    let text = match &playlist.playlist {
        None => return Some(ScanStep::Done(Err(PlaylistError::NoPlaylist))),
        Some(t) => t,
    };
    let t = text::chars_of(text.as_str());
    let lines = text::lines(t.as_slice());
    let url = text::chars_of(playlist.playlist_url.as_str());
    let user = text::chars_of(playlist.username.as_str());
    let ghost ctx = scan_ctx(*playlist, kind, keys.pairs@, t@);
    let ghost start = state@;
    let header_known = playlist.mp4_header.is_some();
    let ScanState { line: mut i, mut key, mut date, mut streams } = state;
    let n = lines.len();
    loop
        invariant
            n == lines@.len() == ctx.lines.len(),
            ctx == scan_ctx(*playlist, kind, keys.pairs@, t@),
            str_opt(playlist.playlist) == Some(t@),
            start == state@,
            ctx.lines == text::seqs(lines@),
            url@ == playlist.playlist_url@,
            user@ == playlist.username@,
            header_known == (playlist.mp4_header is Some),
            scan_run(ctx, start) == scan_run(
                ctx,
                ScanStateView { line: i as int, key: str_opt(key), date: str_opt(date), streams: stream_views(streams@) },
            ),
            scan_safe(ctx, start) == scan_safe(
                ctx,
                ScanStateView { line: i as int, key: str_opt(key), date: str_opt(date), streams: stream_views(streams@) },
            ),
        decreases n - i,
    {
        let ghost cur = ScanStateView { line: i as int, key: str_opt(key), date: str_opt(date), streams: stream_views(streams@) };
        if i >= n {
            return Some(ScanStep::Done(Ok(streams)));
        }
        let line = lines[i].as_slice();
        assert(ctx.lines[i as int] == line@);
        let key2 = match key_step_exec(kind, keys, line, key) {
            Err(e) => return Some(ScanStep::Done(Err(e))),
            Ok(k) => k,
        };
        match header_step_exec(kind, header_known, url.as_slice(), line) {
            Err(e) => return Some(ScanStep::Done(Err(e))),
            Ok(Some(u)) => {
                let st = ScanState { line: i, key: key2, date, streams };
                return Some(ScanStep::NeedHeader(text::string_of(u.as_slice()), st));
            },
            Ok(None) => {},
        }
        let date2 = match date_step_exec(line, date) {
            Err(e) => return Some(ScanStep::Done(Err(e))),
            Ok(d) => d,
        };
        if line.len() > 0 && (line[0] as u32) >= 0x80 {
            assert(reaches_tag_test(ctx, cur));
            assert(!scan_safe(ctx, cur));
            return None;
        }
        if text::is_blank_or_tag(line) {
            key = key2;
            date = date2;
            i = i + 1;
            continue;
        }
        match entry_step_exec(Ghost(ctx), kind, &lines, i, &key2, &date2, user.as_slice(), &playlist.settings.user_agent, &playlist.mp4_header) {
            Err(e) => return Some(ScanStep::Done(Err(e))),
            Ok(v) => {
                let ghost before = streams@;
                streams.push(v);
                assert(stream_views(streams@) =~= stream_views(before).push(v@));
            },
        }
        key = key2;
        date = date2;
        i = i + 1;
    }
}


/// Reads the downloaded playlist from `state` on, until it ends or an initialisation segment
/// that is not yet known is named.
pub fn scan(playlist: &Playlist, kind: ScanKind, keys: &MouflonKeys, state: ScanState) -> (r: ScanStep)
    requires
        playlist.playlist matches Some(t) ==> scan_safe(scan_ctx(*playlist, kind, keys.pairs@, t@), state@),
    ensures
        playlist.playlist is None ==> r matches ScanStep::Done(Err(PlaylistError::NoPlaylist)),
        playlist.playlist matches Some(t) ==> step_is(r, scan_run(scan_ctx(*playlist, kind, keys.pairs@, t@), state@)),
{
    match resume(playlist, kind, keys, state) {
        Some(s) => s,
        None => {
            assert(false);
            ScanStep::Done(Err(PlaylistError::NoPlaylist))
        },
    }
}

/// Once the initialisation segment is known, a read runs to its end without asking again.
pub proof fn lemma_known_header_never_asks(ctx: ScanCtx, st: ScanStateView)
    requires
        ctx.header is Some,
    ensures
        scan_run(ctx, st) is Done,
    decreases ctx.lines.len() - st.line,
{
    if st.line < 0 || st.line >= ctx.lines.len() {
    } else {
        match scan_line(ctx, st) {
            LineStep::Stop(o) => {},
            LineStep::Next(key, date, streams) => {
                lemma_known_header_never_asks(ctx, ScanStateView { line: st.line + 1, key, date, streams });
            },
        }
    }
}

/// A read that asks for a segment stops at the line naming it, with the segments made
/// from the lines before it.
pub proof fn lemma_ask_stops_in_place(ctx: ScanCtx, st: ScanStateView)
    requires
        0 <= st.line,
    ensures
        scan_run(ctx, st) matches ScanOutcome::Need(u, st2) ==> st.line <= st2.line < ctx.lines.len()
            && header_step(ctx.kind, ctx.header is Some, ctx.playlist_url, ctx.lines[st2.line]) == Ok::<Option<Seq<char>>, PlaylistError>(Some(u)),
    decreases ctx.lines.len() - st.line,
{
    if st.line >= ctx.lines.len() {
    } else {
        match scan_line(ctx, st) {
            LineStep::Stop(o) => {},
            LineStep::Next(key, date, streams) => {
                lemma_ask_stops_in_place(ctx, ScanStateView { line: st.line + 1, key, date, streams });
            },
        }
    }
}


/// `ctx` once the initialisation segment `h` is known.
pub open spec fn with_header(ctx: ScanCtx, h: Seq<u8>) -> ScanCtx {
    ScanCtx { header: Some(h), ..ctx }
}

/// The read from `st` on when a needed initialisation segment is fetched where it is named
/// (`fetch` gives the bytes found at an address) and the read goes on at that line with it.
pub open spec fn scan_fetching(ctx: ScanCtx, fetch: spec_fn(Seq<char>) -> Seq<u8>, st: ScanStateView) -> Result<Seq<StreamView>, PlaylistError>
    decreases ctx.lines.len() - st.line, if ctx.header is None { 1int } else { 0int },
{
    if st.line < 0 || st.line >= ctx.lines.len() {
        Ok(st.streams)
    } else {
        match scan_line(ctx, st) {
            LineStep::Stop(ScanOutcome::Done(r)) => r,
            LineStep::Stop(ScanOutcome::Need(u, st2)) => if ctx.header is None && st2.line == st.line {
                scan_fetching(with_header(ctx, fetch(u)), fetch, st2)
            } else {
                // not reached: a segment is asked for only while none is known, at the line read
                Ok(st.streams)
            },
            LineStep::Next(key, date, streams) => scan_fetching(
                ctx,
                fetch,
                ScanStateView { line: st.line + 1, key, date, streams },
            ),
        }
    }
}

/// Stopping where an initialisation segment is named and resuming, from the state handed
/// out, with the segment known reads the playlist as fetching the segment in place does.
pub proof fn lemma_resume_reads_in_place(ctx: ScanCtx, fetch: spec_fn(Seq<char>) -> Seq<u8>, st: ScanStateView)
    requires
        0 <= st.line,
    ensures
        match scan_run(ctx, st) {
            ScanOutcome::Done(r) => scan_fetching(ctx, fetch, st) == r,
            ScanOutcome::Need(u, st2) => ctx.header is None && scan_run(with_header(ctx, fetch(u)), st2)
                == ScanOutcome::Done(scan_fetching(ctx, fetch, st)),
        },
    decreases ctx.lines.len() - st.line, if ctx.header is None { 1int } else { 0int },
{
    if st.line < ctx.lines.len() {
        match scan_line(ctx, st) {
            LineStep::Stop(ScanOutcome::Done(r)) => {},
            LineStep::Stop(ScanOutcome::Need(u, st2)) => {
                let h = with_header(ctx, fetch(u));
                assert(ctx.header is None && st2.line == st.line);
                lemma_resume_reads_in_place(h, fetch, st2);
            },
            LineStep::Next(key, date, streams) => {
                lemma_resume_reads_in_place(ctx, fetch, ScanStateView { line: st.line + 1, key, date, streams });
            },
        }
    }
}


/// The segments a read holds from `st` on keep those it started with, in front, and each one
/// it adds carries the read's initialisation segment and platform.
pub open spec fn extends_with_header(ctx: ScanCtx, before: Seq<StreamView>, after: Seq<StreamView>) -> bool {
    &&& before.len() <= after.len()
    &&& after.take(before.len() as int) == before
    &&& forall|i: int| before.len() <= i < after.len() ==> (#[trigger] after[i]).mp4_header == ctx.header
        && after[i].platform == kind_platform(ctx.kind)
}

proof fn lemma_extends_trans(ctx: ScanCtx, a: Seq<StreamView>, b: Seq<StreamView>, c: Seq<StreamView>)
    requires
        extends_with_header(ctx, a, b),
        extends_with_header(ctx, b, c),
    ensures
        extends_with_header(ctx, a, c),
{
    assert(c.take(a.len() as int) =~= c.take(b.len() as int).take(a.len() as int));
    assert forall|i: int| a.len() <= i < c.len() implies (#[trigger] c[i]).mp4_header == ctx.header
        && c[i].platform == kind_platform(ctx.kind) by {
        if i < b.len() {
            assert(c[i] == c.take(b.len() as int)[i]);
            assert(b[i].mp4_header == ctx.header);
        }
    }
}

proof fn lemma_run_carries_header(ctx: ScanCtx, st: ScanStateView)
    requires
        0 <= st.line,
    ensures
        match scan_run(ctx, st) {
            ScanOutcome::Done(Ok(v)) => extends_with_header(ctx, st.streams, v),
            ScanOutcome::Need(u, st2) => extends_with_header(ctx, st.streams, st2.streams),
            ScanOutcome::Done(Err(e)) => true,
        },
    decreases ctx.lines.len() - st.line,
{
    assert(st.streams.take(st.streams.len() as int) =~= st.streams);
    if st.line < ctx.lines.len() {
        match scan_line(ctx, st) {
            LineStep::Stop(_) => {},
            LineStep::Next(key, date, streams) => {
                let next = ScanStateView { line: st.line + 1, key, date, streams };
                lemma_run_carries_header(ctx, next);
                assert(extends_with_header(ctx, st.streams, streams)) by {
                    if streams.len() > st.streams.len() {
                        assert(streams.take(st.streams.len() as int) =~= st.streams);
                    } else {
                        assert(streams =~= st.streams);
                    }
                }
                match scan_run(ctx, next) {
                    ScanOutcome::Done(Ok(v)) => {
                        lemma_extends_trans(ctx, st.streams, streams, v);
                    },
                    ScanOutcome::Need(u, st2) => {
                        lemma_extends_trans(ctx, st.streams, streams, st2.streams);
                    },
                    ScanOutcome::Done(Err(e)) => {},
                }
            },
        }
    }
}

/// Every segment that reading a Stripchat or CamSoda playlist makes carries the
/// initialisation segment the playlist holds (`playlist.mp4_header`) and the site's platform;
/// the segments the read was resumed with stay in front, unchanged.
pub proof fn lemma_segments_carry_header(
    playlist: Playlist,
    kind: ScanKind,
    keys: Seq<(String, String)>,
    t: Seq<char>,
    st: ScanStateView,
)
    requires
        0 <= st.line,
    ensures
        match scan_run(scan_ctx(playlist, kind, keys, t), st) {
            ScanOutcome::Done(Ok(v)) => {
                &&& v.len() >= st.streams.len()
                &&& v.take(st.streams.len() as int) == st.streams
                &&& forall|i: int| st.streams.len() <= i < v.len() ==> (#[trigger] v[i]).mp4_header == bytes_opt(playlist.mp4_header)
                    && v[i].platform == kind_platform(kind)
            },
            ScanOutcome::Need(u, st2) => {
                &&& st2.streams.len() >= st.streams.len()
                &&& st2.streams.take(st.streams.len() as int) == st.streams
                &&& forall|i: int| st.streams.len() <= i < st2.streams.len() ==> (#[trigger] st2.streams[i]).mp4_header
                    == bytes_opt(playlist.mp4_header)
            },
            ScanOutcome::Done(Err(e)) => true,
        },
{
    lemma_run_carries_header(scan_ctx(playlist, kind, keys, t), st);
}

} // verus!
