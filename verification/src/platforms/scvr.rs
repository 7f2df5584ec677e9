//! Stripchat VR: the Stripchat reading with the VR names.
use vstd::prelude::*;
use crate::platforms::PlaylistError;
use crate::platforms::sc::{MouflonKeys, sc_parse_playlist};
use crate::platforms::scan::{ScanKind, ScanStep, scan_run, scan_ctx, scan_safe, start_view, step_is};
use crate::stream::Playlist;

verus! {

/// Reads a Stripchat VR playlist.
pub fn parse_playlist(playlist: &Playlist, keys: &MouflonKeys) -> (r: ScanStep)
    requires
        playlist.playlist matches Some(t) ==> scan_safe(scan_ctx(*playlist, ScanKind::Sc { vr: true }, keys.pairs@, t@), start_view()),
    ensures
        playlist.playlist is None ==> r matches ScanStep::Done(Err(PlaylistError::NoPlaylist)),
        playlist.playlist matches Some(t) ==> step_is(
            r,
            scan_run(scan_ctx(*playlist, ScanKind::Sc { vr: true }, keys.pairs@, t@), start_view()),
        ),
{
    sc_parse_playlist(playlist, true, keys)
}

} // verus!
