//! What the muxing step decides: the container read, the extension kept when no muxer is
//! available, and the arguments given to ffmpeg.
use vstd::prelude::*;
use crate::platforms::Platform;
use crate::platforms::scan::{ScanKind, kind_platform};

verus! {

broadcast use vstd::string::group_string_axioms;

/// The container format of the downloaded segments; separate audio always comes as MP4.
/// Flirt4Free and Cam4 serve `.ts` segments, so they are read as MPEG-TS.
pub open spec fn container_of(pf: Platform, has_audio: bool) -> Seq<char> {
    if has_audio {
        "mp4"@
    } else {
        match pf {
            Platform::CB | Platform::MFC | Platform::BONGA => "mpegts"@,
            Platform::SC | Platform::SCVR | Platform::SODA => "mp4"@,
            Platform::F4F | Platform::C4 => "mpegts"@,
        }
    }
}

/// The extension a recording keeps when it is only moved into place.
pub open spec fn extension_of(pf: Platform, has_audio: bool) -> Seq<char> {
    if has_audio {
        "mp4"@
    } else {
        match pf {
            Platform::CB | Platform::MFC | Platform::BONGA => "ts"@,
            Platform::SC | Platform::SCVR | Platform::SODA => "mp4"@,
            Platform::F4F | Platform::C4 => "ts"@,
        }
    }
}

pub fn container_type(pf: Platform, has_audio: bool) -> (r: &'static str)
    ensures
        r@ == container_of(pf, has_audio),
{
    if has_audio {
        return "mp4";
    }
    match pf {
        Platform::CB => "mpegts",
        Platform::MFC => "mpegts",
        Platform::SC => "mp4",
        Platform::SCVR => "mp4",
        Platform::BONGA => "mpegts",
        Platform::SODA => "mp4",
        Platform::F4F => "mpegts",
        Platform::C4 => "mpegts",
    }
}

pub fn extension(pf: Platform, has_audio: bool) -> (r: &'static str)
    ensures
        r@ == extension_of(pf, has_audio),
{
    if has_audio {
        return "mp4";
    }
    match pf {
        Platform::CB => "ts",
        Platform::MFC => "ts",
        Platform::SC => "mp4",
        Platform::SCVR => "mp4",
        Platform::BONGA => "ts",
        Platform::SODA => "mp4",
        Platform::F4F => "ts",
        Platform::C4 => "ts",
    }
}

/// The extension of a separate audio recording moved into place.
pub fn audio_extension() -> (r: &'static str)
    ensures
        r@ == "m4a"@,
{
    "m4a"
}

/// The extension of a muxed recording.
pub fn muxed_extension() -> (r: &'static str)
    ensures
        r@ == "mkv"@,
{
    "mkv"
}

/// One ffmpeg argument: a fixed word or one of the paths involved.
#[derive(Debug, PartialEq, Eq)]
pub enum MuxArg {
    Word(String),
    VideoInput,
    AudioInput,
    Output,
}

pub enum MuxArgView {
    Word(Seq<char>),
    VideoInput,
    AudioInput,
    Output,
}

impl View for MuxArg {
    type V = MuxArgView;

    open spec fn view(&self) -> MuxArgView {
        match self {
            MuxArg::Word(w) => MuxArgView::Word(w@),
            MuxArg::VideoInput => MuxArgView::VideoInput,
            MuxArg::AudioInput => MuxArgView::AudioInput,
            MuxArg::Output => MuxArgView::Output,
        }
    }
}

pub open spec fn w(s: Seq<char>) -> MuxArgView {
    MuxArgView::Word(s)
}

/// The ffmpeg arguments: each input read in the container format, streams copied with their
/// time stamps, the output overwritten.
pub open spec fn ffmpeg_args_of(pf: Platform, has_audio: bool) -> Seq<MuxArgView> {
    let ct = container_of(pf, has_audio);
    let inputs = seq![w("-f"@), w(ct), w("-i"@), MuxArgView::VideoInput];
    let audio = if has_audio {
        seq![w("-f"@), w(ct), w("-i"@), MuxArgView::AudioInput]
    } else {
        Seq::empty()
    };
    inputs + audio + seq![
        w("-c"@),
        w("copy"@),
        w("-copyts"@),
        w("-avoid_negative_ts"@),
        w("make_zero"@),
        w("-y"@),
        MuxArgView::Output,
    ]
}

fn word(s: &str) -> (r: MuxArg)
    ensures
        r@ == w(s@),
{
    MuxArg::Word(s.to_owned())
}

pub fn ffmpeg_args(pf: Platform, has_audio: bool) -> (r: Vec<MuxArg>)
    ensures
        r@.map_values(|a: MuxArg| a@) == ffmpeg_args_of(pf, has_audio),
{
    let ct = container_type(pf, has_audio);
    let mut r: Vec<MuxArg> = Vec::new();
    r.push(word("-f"));
    r.push(word(ct));
    r.push(word("-i"));
    r.push(MuxArg::VideoInput);
    if has_audio {
        r.push(word("-f"));
        r.push(word(ct));
        r.push(word("-i"));
        r.push(MuxArg::AudioInput);
    }
    r.push(word("-c"));
    r.push(word("copy"));
    r.push(word("-copyts"));
    r.push(word("-avoid_negative_ts"));
    r.push(word("make_zero"));
    r.push(word("-y"));
    r.push(MuxArg::Output);
    assert(r@.map_values(|a: MuxArg| a@) =~= ffmpeg_args_of(pf, has_audio));
    r
}

/// Available memory, in bytes, under which a running ffmpeg is stopped.
pub const MEMORY_FLOOR: u64 = 200000000;

/// Whether ffmpeg must be stopped for want of memory.
pub fn memory_too_low(available: u64) -> (r: bool)
    ensures
        r == (available < MEMORY_FLOOR),
{
    available < MEMORY_FLOOR
}


/// What a muxing round does once a segment has been written into its files.
#[derive(Debug, Clone, Copy, PartialEq, Eq, Structural)]
pub enum MuxStep {
    /// The round ends: a write found the disk full, or no segment follows and none will come.
    EndRound,
    /// The next segment is written.
    Advance,
    /// No segment follows yet but downloading goes on: wait for one.
    Wait,
}

pub open spec fn mux_step_of(write_ok: bool, has_next: bool, downloading: bool) -> MuxStep {
    if !write_ok {
        MuxStep::EndRound
    } else if has_next {
        MuxStep::Advance
    } else if downloading {
        MuxStep::Wait
    } else {
        MuxStep::EndRound
    }
}

/// The step after a segment: `write_ok` is whether its writes all went through, `has_next`
/// whether a later segment is linked, `downloading` whether more may still come.
pub fn segment_step(write_ok: bool, has_next: bool, downloading: bool) -> (r: MuxStep)
    ensures
        r == mux_step_of(write_ok, has_next, downloading),
{
    if !write_ok {
        MuxStep::EndRound
    } else if has_next {
        MuxStep::Advance
    } else if downloading {
        MuxStep::Wait
    } else {
        MuxStep::EndRound
    }
}

/// What is done with a round's temporary files once it ends.
pub struct RoundEnd {
    /// The recording is muxed (or moved into place): its video file holds something.
    pub mux: bool,
    /// The audio file goes with it: one was opened and something was written to it.
    pub keep_audio: bool,
    /// Muxing is over: no segment follows and none will come.
    pub stop: bool,
}

pub fn round_end(video_len: u64, audio_len: Option<u64>, has_next: bool, downloading: bool) -> (r: RoundEnd)
    ensures
        r.mux == (video_len != 0),
        r.keep_audio == (audio_len matches Some(n) && n != 0),
        r.stop == (!has_next && !downloading),
{
    let keep_audio = match audio_len {
        Some(n) => n != 0,
        None => false,
    };
    RoundEnd { mux: video_len != 0, keep_audio, stop: !has_next && !downloading }
}


/// The platform's segments are fragmented MP4: its playlists are read with an initialisation
/// segment (the Stripchat and CamSoda reading).
pub open spec fn reads_fmp4(pf: Platform) -> bool {
    exists|k: ScanKind| kind_platform(k) == pf
}

/// ffmpeg is told the format the segments are in: MP4 exactly for the platforms whose segments
/// are fragmented MP4, and always when audio comes separately; and the format agrees with the
/// extension a recording keeps when it is only moved into place (`mp4` with `mp4`, `mpegts`
/// with `ts`).
pub proof fn lemma_container_matches_segments(pf: Platform, has_audio: bool)
    ensures
        container_of(pf, false) == "mp4"@ <==> reads_fmp4(pf),
        has_audio ==> container_of(pf, has_audio) == "mp4"@,
        container_of(pf, has_audio) == "mp4"@ <==> extension_of(pf, has_audio) == "mp4"@,
        container_of(pf, has_audio) == "mpegts"@ <==> extension_of(pf, has_audio) == "ts"@,
        container_of(pf, has_audio) == "mp4"@ || container_of(pf, has_audio) == "mpegts"@,
{
    reveal_strlit("mp4");
    reveal_strlit("mpegts");
    reveal_strlit("ts");
    assert("mp4"@ =~= seq!['m', 'p', '4']);
    assert("mpegts"@ =~= seq!['m', 'p', 'e', 'g', 't', 's']);
    assert("ts"@ =~= seq!['t', 's']);
    assert("mp4"@.len() != "mpegts"@.len());
    assert("mp4"@.len() != "ts"@.len());
    match pf {
        Platform::SC => {
            assert(kind_platform(ScanKind::Sc { vr: false }) == pf);
        },
        Platform::SCVR => {
            assert(kind_platform(ScanKind::Sc { vr: true }) == pf);
        },
        Platform::SODA => {
            assert(kind_platform(ScanKind::Soda) == pf);
        },
        _ => {
            assert forall|k: ScanKind| kind_platform(k) != pf by {
                match k {
                    ScanKind::Sc { vr } => {},
                    ScanKind::Soda => {},
                }
            }
        },
    }
}


/// After a segment is written, the muxer takes the next one exactly when the write went
/// through and a next segment is linked, whatever the downloading flag; it waits only while
/// no segment is linked and more may come; otherwise the round ends, and a round whose writes
/// went through ends only when no segment follows and none will come (when `round_end` stops
/// the muxing).
pub proof fn lemma_segment_step_advances(write_ok: bool, has_next: bool, downloading: bool)
    ensures
        (mux_step_of(write_ok, has_next, downloading) == MuxStep::Advance) <==> (write_ok && has_next),
        (mux_step_of(write_ok, has_next, downloading) == MuxStep::Wait) <==> (write_ok && !has_next && downloading),
        (mux_step_of(write_ok, has_next, downloading) == MuxStep::EndRound) <==> (!write_ok || (!has_next && !downloading)),
{
}

} // verus!
