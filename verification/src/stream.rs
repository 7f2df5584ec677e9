//! Playlists being followed and the media segments found in them.
use vstd::prelude::*;
use crate::config::Settings;
use crate::platforms::Platform;

verus! {

broadcast use vstd::string::group_string_axioms;

pub open spec fn str_opt(o: Option<String>) -> Option<Seq<char>> {
    match o {
        Some(s) => Some(s@),
        None => None,
    }
}

pub open spec fn bytes_opt(o: Option<Vec<u8>>) -> Option<Seq<u8>> {
    match o {
        Some(v) => Some(v@),
        None => None,
    }
}

pub open spec fn slice_opt(o: Option<&str>) -> Option<Seq<char>> {
    match o {
        Some(s) => Some(s@),
        None => None,
    }
}

/// A copy of a byte buffer.
pub fn clone_bytes(v: &Vec<u8>) -> (r: Vec<u8>)
    ensures
        r@ == v@,
{
    let r = v.clone();
    assert(r@ =~= v@);
    r
}

/// A copy of an optional byte buffer.
pub fn clone_bytes_opt(v: &Option<Vec<u8>>) -> (r: Option<Vec<u8>>)
    ensures
        bytes_opt(r) == bytes_opt(*v),
{
    match v {
        Some(b) => Some(clone_bytes(b)),
        None => None,
    }
}

/// One media segment of a stream.
pub struct Stream {
    pub filename: String,
    pub url: String,
    pub url_audio: Option<String>,
    pub stream_id: u32,
    pub index: u32,
    pub data: Option<Vec<u8>>,
    pub data_audio: Option<Vec<u8>>,
    pub mp4_header: Option<Vec<u8>>,
    pub mp4_header_audio: Option<Vec<u8>>,
    pub platform: Platform,
    pub user_agent: String,
}

/// The plain values of a segment.
pub struct StreamView {
    pub filename: Seq<char>,
    pub url: Seq<char>,
    pub url_audio: Option<Seq<char>>,
    pub stream_id: u32,
    pub index: u32,
    pub data: Option<Seq<u8>>,
    pub data_audio: Option<Seq<u8>>,
    pub mp4_header: Option<Seq<u8>>,
    pub mp4_header_audio: Option<Seq<u8>>,
    pub platform: Platform,
    pub user_agent: Seq<char>,
}

impl View for Stream {
    type V = StreamView;

    open spec fn view(&self) -> StreamView {
        StreamView {
            filename: self.filename@,
            url: self.url@,
            url_audio: str_opt(self.url_audio),
            stream_id: self.stream_id,
            index: self.index,
            data: bytes_opt(self.data),
            data_audio: bytes_opt(self.data_audio),
            mp4_header: bytes_opt(self.mp4_header),
            mp4_header_audio: bytes_opt(self.mp4_header_audio),
            platform: self.platform,
            user_agent: self.user_agent@,
        }
    }
}

/// A segment as `Stream::new` makes it: not yet numbered and nothing downloaded.
pub open spec fn new_stream_view(
    filename: Seq<char>,
    url: Seq<char>,
    url_audio: Option<Seq<char>>,
    id: u32,
    platform: Platform,
    user_agent: Seq<char>,
    mp4_header: Option<Seq<u8>>,
    mp4_header_audio: Option<Seq<u8>>,
) -> StreamView {
    StreamView {
        filename,
        url,
        url_audio,
        stream_id: id,
        index: 0,
        data: None,
        data_audio: None,
        mp4_header,
        mp4_header_audio,
        platform,
        user_agent,
    }
}

/// The views of a sequence of segments.
pub open spec fn stream_views(v: Seq<Stream>) -> Seq<StreamView> {
    v.map_values(|s: Stream| s@)
}

/// `r` is the outcome `s` states: the same segments, or the same error.
pub open spec fn outcome_is<E>(r: Result<Vec<Stream>, E>, s: Result<Seq<StreamView>, E>) -> bool {
    match r {
        Ok(v) => s == Ok::<Seq<StreamView>, E>(stream_views(v@)),
        Err(e) => s == Err::<Seq<StreamView>, E>(e),
    }
}

impl Stream {
    pub fn new(
        filename: &str,
        url: &str,
        url_audio: Option<&str>,
        id: u32,
        platform: Platform,
        user_agent: String,
        mp4_header: Option<Vec<u8>>,
        mp4_header_audio: Option<Vec<u8>>,
    ) -> (r: Self)
        ensures
            r@ == new_stream_view(
                filename@,
                url@,
                slice_opt(url_audio),
                id,
                platform,
                user_agent@,
                bytes_opt(mp4_header),
                bytes_opt(mp4_header_audio),
            ),
    {
        let url_audio = match url_audio {
            Some(a) => Some(a.to_owned()),
            None => None,
        };
        Stream {
            filename: filename.to_owned(),
            url: url.to_owned(),
            url_audio,
            stream_id: id,
            index: 0,
            data: None,
            data_audio: None,
            mp4_header,
            mp4_header_audio,
            platform,
            user_agent,
        }
    }
}

/// A playlist being followed for one model.
pub struct Playlist {
    pub platform: Platform,
    pub username: String,
    pub playlist_url: String,
    pub playlist_audio_url: Option<String>,
    /// The last text downloaded from `playlist_url`.
    pub playlist: Option<String>,
    /// The last text downloaded from `playlist_audio_url`.
    pub playlist_audio: Option<String>,
    /// Initialisation segment put before each video segment.
    pub mp4_header: Option<Vec<u8>>,
    /// Initialisation segment put before each audio segment.
    pub mp4_header_audio: Option<Vec<u8>>,
    pub settings: Settings,
}

impl Playlist {
    pub fn new(
        platform: Platform,
        username: String,
        playlist_url: String,
        playlist_audio_url: Option<String>,
        settings: Settings,
    ) -> (r: Self)
        ensures
            r.platform == platform,
            r.username@ == username@,
            r.playlist_url@ == playlist_url@,
            str_opt(r.playlist_audio_url) == str_opt(playlist_audio_url),
            r.playlist is None,
            r.playlist_audio is None,
            r.mp4_header is None,
            r.mp4_header_audio is None,
            r.settings.user_agent@ == settings.user_agent@,
    {
        Playlist {
            platform,
            username,
            playlist_url,
            playlist_audio_url,
            playlist: None,
            playlist_audio: None,
            mp4_header: None,
            mp4_header_audio: None,
            settings,
        }
    }
}


/// The newest segment taken: its stream number and its place in the recording.
#[derive(Debug, Clone, Copy, PartialEq, Eq, Structural)]
pub struct Position {
    pub stream_id: u32,
    pub index: u32,
}

/// The most refreshes in a row without a new segment before a playlist is given up.
pub const MAX_IDLE_REFRESHES: u32 = 20;

/// The decisions of the loop that follows a playlist: which parsed segments are new, how
/// they are numbered, and when to stop.
pub struct PlaylistLoop {
    pub current: Option<Position>,
    /// Refreshes since the last new segment.
    pub trys: u32,
    /// The stream numbers offered so far, in order.
    pub offered: Ghost<Seq<u32>>,
}

/// Whether segment `id` is new after `current`.
pub open spec fn is_newer(current: Option<Position>, id: u32) -> bool {
    match current {
        None => true,
        Some(c) => id > c.stream_id,
    }
}

/// The place that a new segment takes after `current`.
pub open spec fn next_index(current: Option<Position>) -> int {
    match current {
        None => 1,
        Some(c) => c.index + 1,
    }
}

impl PlaylistLoop {
    /// The newest segment is the one that offering the numbers offered so far, in order, from
    /// an empty loop leaves.
    pub open spec fn follows_offers(&self) -> bool {
        self.current == offer_all(None, self.offered@).0
    }

    pub fn new() -> (r: Self)
        ensures
            r.current is None,
            r.trys == 0,
            r.offered@ == Seq::<u32>::empty(),
            r.follows_offers(),
    {
        PlaylistLoop { current: None, trys: 0, offered: Ghost(Seq::empty()) }
    }

    /// After a refresh of the playlist: whether to go on. A failed refresh stops; so does
    /// the refresh after `MAX_IDLE_REFRESHES` without a new segment.
    pub fn refreshed(&mut self, ok: bool) -> (go_on: bool)
        requires
            old(self).trys <= MAX_IDLE_REFRESHES,
        ensures
            final(self).current == old(self).current,
            !ok ==> !go_on && final(self).trys == old(self).trys,
            ok ==> final(self).trys == old(self).trys + 1,
            final(self).offered == old(self).offered,
            go_on <==> ok && old(self).trys < MAX_IDLE_REFRESHES,
            go_on ==> final(self).trys <= MAX_IDLE_REFRESHES,
    {
        if !ok {
            return false;
        }
        self.trys = self.trys + 1;
        self.trys <= MAX_IDLE_REFRESHES
    }

    /// Offers a parsed segment: a segment whose number is not above the newest one taken is
    /// passed over; a new one is numbered after it and becomes the newest.
    pub fn offer(&mut self, stream: Stream) -> (r: Option<Stream>)
        requires
            old(self).current matches Some(c) ==> c.index < u32::MAX,
        ensures
            r is Some <==> is_newer(old(self).current, stream.stream_id),
            r matches Some(s) ==> s@ == (StreamView { index: next_index(old(self).current) as u32, ..stream@ })
                && final(self).current == Some(Position { stream_id: stream.stream_id, index: next_index(old(self).current) as u32 })
                && final(self).trys == 0,
            r is None ==> final(self).current == old(self).current && final(self).trys == old(self).trys,
            final(self).offered@ == old(self).offered@.push(stream.stream_id),
            old(self).follows_offers() ==> final(self).follows_offers(),
            old(self).follows_offers() ==> offer_all(None, final(self).offered@).1 == (match r {
                Some(s) => offer_all(None, old(self).offered@).1.push(Position { stream_id: s.stream_id, index: s.index }),
                None => offer_all(None, old(self).offered@).1,
            }),
    {
        proof {
            assert(old(self).offered@.push(stream.stream_id).drop_last() =~= old(self).offered@);
        }
        self.offered = Ghost(self.offered@.push(stream.stream_id));
        let index = match self.current {
            Some(c) => {
                if stream.stream_id <= c.stream_id {
                    return None;
                }
                c.index + 1
            },
            None => 1,
        };
        self.trys = 0;
        let mut s = stream;
        s.index = index;
        self.current = Some(Position { stream_id: s.stream_id, index });
        Some(s)
    }
}

/// What offering the segment numbers `ids` in order does: the position reached and the
/// numbers and places of the segments taken.
pub open spec fn offer_all(current: Option<Position>, ids: Seq<u32>) -> (Option<Position>, Seq<Position>)
    decreases ids.len(),
{
    if ids.len() == 0 {
        (current, Seq::empty())
    } else {
        let (cur, taken) = offer_all(current, ids.drop_last());
        let id = ids.last();
        if is_newer(cur, id) {
            let p = Position { stream_id: id, index: next_index(cur) as u32 };
            (Some(p), taken.push(p))
        } else {
            (cur, taken)
        }
    }
}

/// Over any run of offers, the segments taken have rising numbers, all above the starting
/// one, and (while places fit in a `u32`) consecutive places that follow on from it.
pub proof fn lemma_offers_rise(current: Option<Position>, ids: Seq<u32>)
    ensures
        ({
            let (cur, taken) = offer_all(current, ids);
            &&& forall|a: int, b: int| 0 <= a < b < taken.len() ==> taken[a].stream_id < taken[b].stream_id
            &&& forall|a: int| 0 <= a < taken.len() ==> is_newer(current, #[trigger] taken[a].stream_id)
            &&& next_index(current) + ids.len() <= u32::MAX ==> forall|a: int| 0 <= a < taken.len() ==> #[trigger] taken[a].index == next_index(current) + a
            &&& taken.len() > 0 ==> cur == Some(taken.last())
            &&& taken.len() == 0 ==> cur == current
        }),
    decreases ids.len(),
{
    if ids.len() > 0 {
        lemma_offers_rise(current, ids.drop_last());
        let (cur, taken) = offer_all(current, ids.drop_last());
        assert(taken.len() <= ids.drop_last().len()) by {
            lemma_offers_len(current, ids.drop_last());
        }
    }
}

/// Over a whole run of a playlist loop started with `PlaylistLoop::new`, the segments it took
/// (one for each `Some` that `offer` returned, in order) have rising numbers and the places
/// 1, 2, 3, ... while places fit in a `u32`, and the newest of them is the loop's current one.
pub proof fn lemma_loop_takes_rising(l: PlaylistLoop)
    requires
        l.follows_offers(),
    ensures
        ({
            let taken = offer_all(None, l.offered@).1;
            &&& forall|a: int, b: int| 0 <= a < b < taken.len() ==> taken[a].stream_id < taken[b].stream_id
            &&& 1 + l.offered@.len() <= u32::MAX ==> forall|a: int| 0 <= a < taken.len() ==> #[trigger] taken[a].index == 1 + a
            &&& taken.len() > 0 ==> l.current == Some(taken.last())
            &&& taken.len() == 0 ==> l.current is None
        }),
{
    lemma_offers_rise(None, l.offered@);
}

pub proof fn lemma_offers_len(current: Option<Position>, ids: Seq<u32>)
    ensures
        offer_all(current, ids).1.len() <= ids.len(),
    decreases ids.len(),
{
    if ids.len() > 0 {
        lemma_offers_len(current, ids.drop_last());
    }
}

/// The bytes a video segment holds once downloaded: nothing when fewer than 10000 bytes came
/// back, else the initialisation segment, if any, followed by the bytes.
pub open spec fn video_payload(header: Option<Seq<u8>>, data: Seq<u8>) -> Option<Seq<u8>> {
    if data.len() < 10000 {
        None
    } else {
        match header {
            Some(h) => Some(h + data),
            None => Some(data),
        }
    }
}

/// The bytes an audio segment holds once downloaded: nothing when no byte came back.
pub open spec fn audio_payload(header: Option<Seq<u8>>, data: Seq<u8>) -> Option<Seq<u8>> {
    if data.len() == 0 {
        None
    } else {
        match header {
            Some(h) => Some(h + data),
            None => Some(data),
        }
    }
}

fn prepend(header: &Option<Vec<u8>>, data: Vec<u8>) -> (r: Vec<u8>)
    ensures
        r@ == (match bytes_opt(*header) {
            Some(h) => h + data@,
            None => data@,
        }),
{
    match header {
        Some(h) => {
            let mut v = clone_bytes(h);
            let mut d = data;
            v.append(&mut d);
            v
        },
        None => data,
    }
}

pub fn video_payload_exec(header: &Option<Vec<u8>>, data: Vec<u8>) -> (r: Option<Vec<u8>>)
    ensures
        bytes_opt(r) == video_payload(bytes_opt(*header), data@),
{
    if data.len() < 10000 {
        None
    } else {
        Some(prepend(header, data))
    }
}

pub fn audio_payload_exec(header: &Option<Vec<u8>>, data: Vec<u8>) -> (r: Option<Vec<u8>>)
    ensures
        bytes_opt(r) == audio_payload(bytes_opt(*header), data@),
{
    if data.len() == 0 {
        None
    } else {
        Some(prepend(header, data))
    }
}

impl Stream {
    /// Stores what the download of this segment brought: `video` and, when the segment has an
    /// audio address, `audio` (empty when its download failed).
    pub fn set_downloaded(&mut self, video: Vec<u8>, audio: Option<Vec<u8>>) -> (stored: bool)
        ensures
            stored == (video@.len() >= 10000),
            stored ==> final(self)@ == (StreamView {
                data: video_payload(bytes_opt(old(self).mp4_header), video@),
                data_audio: match audio {
                    Some(a) => audio_payload(bytes_opt(old(self).mp4_header_audio), a@),
                    None => None,
                },
                ..old(self)@
            }),
            !stored ==> final(self)@ == old(self)@,
            final(self).filename == old(self).filename,
            final(self).stream_id == old(self).stream_id,
            final(self).index == old(self).index,
            final(self).mp4_header == old(self).mp4_header,
            final(self).mp4_header_audio == old(self).mp4_header_audio,
    {
        let v = match video_payload_exec(&self.mp4_header, video) {
            None => return false,
            Some(v) => v,
        };
        let a = match audio {
            Some(a) => audio_payload_exec(&self.mp4_header_audio, a),
            None => None,
        };
        self.data = Some(v);
        self.data_audio = a;
        true
    }
}

} // verus!
