//! Reading what ffprobe reports about the video.
use vstd::prelude::*;

use crate::text::{same_text, trim, trim_spec};

verus! {

/// Width and height of the video stream.
#[derive(Clone, Copy, Debug)]
pub struct VideoGeometry {
    pub width: u32,
    pub height: u32,
}

/// One stream as ffprobe lists it.
pub struct ProbeStream {
    pub codec_type: Option<String>,
    pub width: Option<u32>,
    pub height: Option<u32>,
}

/// Why the video's size is not known.
#[derive(Debug)]
pub enum ProbeError {
    /// The video stream has no width.
    MissingWidth,
    /// The video stream has no height.
    MissingHeight,
    /// No stream is a video stream.
    NoVideoStream,
}

/// Whether the stream is a video stream.
pub open spec fn is_video(s: ProbeStream) -> bool {
    s.codec_type matches Some(t) && t@ == "video"@
}

/// Index of the first video stream from `k` on, if any.
pub open spec fn first_video_from(streams: Seq<ProbeStream>, k: int) -> Option<int>
    decreases streams.len() - k,
{
    if k < 0 || k >= streams.len() {
        None
    } else if is_video(streams[k]) {
        Some(k)
    } else {
        first_video_from(streams, k + 1)
    }
}

/// The size of the first video stream: an error if there is none, or if it
/// lacks its width (first) or its height.
pub open spec fn geometry_spec(streams: Seq<ProbeStream>) -> Result<VideoGeometry, ProbeError> {
    match first_video_from(streams, 0) {
        None => Err(ProbeError::NoVideoStream),
        Some(i) => match (streams[i].width, streams[i].height) {
            (None, _) => Err(ProbeError::MissingWidth),
            (Some(_), None) => Err(ProbeError::MissingHeight),
            (Some(w), Some(h)) => Ok(VideoGeometry { width: w, height: h }),
        },
    }
}

/// Width and height of the first video stream among those ffprobe listed.
pub fn select_video_geometry(streams: &Vec<ProbeStream>) -> (r: Result<VideoGeometry, ProbeError>)
    ensures
        r == geometry_spec(streams@),
{
    let mut k: usize = 0;
    while k < streams.len()
        invariant
            k <= streams@.len(),
            first_video_from(streams@, k as int) == first_video_from(streams@, 0),
        decreases streams@.len() - k,
    {
        let s = &streams[k];
        let video = match &s.codec_type {
            Some(t) => same_text(t.as_str(), "video"),
            None => false,
        };
        if video {
            return match (s.width, s.height) {
                (None, _) => Err(ProbeError::MissingWidth),
                (Some(_), None) => Err(ProbeError::MissingHeight),
                (Some(w), Some(h)) => Ok(VideoGeometry { width: w, height: h }),
            };
        }
        k = k + 1;
    }
    Err(ProbeError::NoVideoStream)
}

/// The duration field of ffprobe's output, trimmed, unless it is empty or `N/A`.
pub open spec fn duration_text_spec(raw: Seq<char>) -> Option<Seq<char>> {
    let t = trim_spec(raw);
    if t.len() == 0 || t == "N/A"@ {
        None
    } else {
        Some(t)
    }
}

/// The duration text of ffprobe's output (trimmed), or `None` when ffprobe
/// gave no duration (nothing, or `N/A`).
pub fn duration_text(raw: &str) -> (r: Option<String>)
    ensures
        match r {
            Some(t) => duration_text_spec(raw@) == Some(t@),
            None => duration_text_spec(raw@) is None,
        },
{
    let t = trim(raw);
    if t.as_str().is_empty() || same_text(t.as_str(), "N/A") {
        None
    } else {
        Some(t)
    }
}

/// Default width of the left panel: 30% of the video's height, kept between
/// 200 and 560 pixels.
pub open spec fn default_panel_width_spec(video_height: int) -> int {
    let raw = video_height * 30 / 100;
    if raw < 200 {
        200
    } else if raw > 560 {
        560
    } else {
        raw
    }
}

/// Default width of the left panel (about 30% of the video's height, within 200 to 560 pixels).
pub fn default_panel_width(video_height: u32) -> (w: u32)
    ensures
        w == default_panel_width_spec(video_height as int),
        200 <= w <= 560,
{
    let raw: u64 = video_height as u64 * 30 / 100;
    let raw = if raw < 200 { 200 } else if raw > 560 { 560 } else { raw };
    raw as u32
}

} // verus!
