//! What ffprobe reports about a source, and how the streams it lists are read.

use vstd::prelude::*;
use crate::text::{contains, contains_str, same_text};

verus! {

/// The facts about a source that the presets and the queue read.
pub struct MediaInfo {
    pub width: u32,
    pub height: u32,
    /// The frame rate rounded to whole frames per second, as the rename
    /// pattern's `{fps}` token shows it.
    pub fps_rounded: u64,
    pub codec: String,
    pub pix_fmt: String,
    pub audio_codec: Option<String>,
    pub color_space: Option<String>,
    pub color_transfer: Option<String>,
    pub color_primaries: Option<String>,
    pub color_range: Option<String>,
}

/// A pixel format with more than eight bits per sample.
pub open spec fn deep_pixels(pix_fmt: Seq<char>) -> bool {
    contains(pix_fmt, "10"@) || contains(pix_fmt, "12"@) || contains(pix_fmt, "16"@)
}

/// The size class shown next to a source: `""` when the height is unknown.
pub open spec fn size_class(height: u32) -> Seq<char> {
    if height == 0 {
        ""@
    } else if height >= 2000 {
        "4K+"@
    } else if height >= 1000 {
        "FullHD"@
    } else if height >= 700 {
        "HD"@
    } else {
        "SD"@
    }
}

pub fn clone_opt(o: &Option<String>) -> (r: Option<String>)
    ensures
        r == *o,
{
    match o {
        Some(s) => Some(s.clone()),
        None => None,
    }
}

impl MediaInfo {
    pub open spec fn ten_bit(&self) -> bool {
        deep_pixels(self.pix_fmt@)
    }

    /// A copy equal to `self`.
    pub fn duplicate(&self) -> (r: MediaInfo)
        ensures
            r == *self,
    {
        MediaInfo {
            width: self.width,
            height: self.height,
            fps_rounded: self.fps_rounded,
            codec: self.codec.clone(),
            pix_fmt: self.pix_fmt.clone(),
            audio_codec: clone_opt(&self.audio_codec),
            color_space: clone_opt(&self.color_space),
            color_transfer: clone_opt(&self.color_transfer),
            color_primaries: clone_opt(&self.color_primaries),
            color_range: clone_opt(&self.color_range),
        }
    }

    /// "4K+", "FullHD", "HD" or "SD" by picture height.
    pub fn class(&self) -> (r: &'static str)
        ensures
            r@ == size_class(self.height),
    {
        if self.height == 0 {
            ""
        } else if self.height >= 2000 {
            "4K+"
        } else if self.height >= 1000 {
            "FullHD"
        } else if self.height >= 700 {
            "HD"
        } else {
            "SD"
        }
    }

    /// Whether the source carries more than eight bits per sample.
    pub fn is_10bit(&self) -> (r: bool)
        ensures
            r == self.ten_bit(),
    {
        let p = crate::text::chars_of(self.pix_fmt.as_str());
        contains_str(p.as_slice(), "10") || contains_str(p.as_slice(), "12") || contains_str(
            p.as_slice(),
            "16",
        )
    }
}

/// One stream as ffprobe lists it.
pub struct Stream {
    pub codec_type: Option<String>,
    pub codec_name: Option<String>,
    pub width: Option<u32>,
    pub height: Option<u32>,
    pub pix_fmt: Option<String>,
    pub color_space: Option<String>,
    pub color_transfer: Option<String>,
    pub color_primaries: Option<String>,
    pub color_range: Option<String>,
}

/// A colour tag worth passing on: ffprobe's empty, `unknown` and `reserved`
/// say nothing.
pub open spec fn meaningful_tag(v: Option<String>) -> Option<String> {
    match v {
        Some(s) => if s@.len() == 0 || s@ == "unknown"@ || s@ == "reserved"@ {
            None
        } else {
            Some(s)
        },
        None => None,
    }
}

pub fn tag(v: &Option<String>) -> (r: Option<String>)
    ensures
        r == meaningful_tag(*v),
{
    match v {
        Some(s) => {
            if s.unicode_len() == 0 || same_text(s.as_str(), "unknown") || same_text(
                s.as_str(),
                "reserved",
            ) {
                None
            } else {
                Some(s.clone())
            }
        },
        None => None,
    }
}

pub open spec fn is_kind(s: Stream, kind: Seq<char>) -> bool {
    s.codec_type matches Some(t) && t@ == kind
}

/// Index of the first video stream, or -1.
pub open spec fn first_video(streams: Seq<Stream>, from: int) -> int
    decreases streams.len() - from,
{
    if from < 0 || from >= streams.len() {
        -1
    } else if is_kind(streams[from], "video"@) {
        from
    } else {
        first_video(streams, from + 1)
    }
}

/// The codec of the first audio stream that names one.
pub open spec fn first_audio_codec(streams: Seq<Stream>, from: int) -> Option<String>
    decreases streams.len() - from,
{
    if from < 0 || from >= streams.len() {
        None
    } else if is_kind(streams[from], "audio"@) && streams[from].codec_name is Some {
        streams[from].codec_name
    } else {
        first_audio_codec(streams, from + 1)
    }
}

pub open spec fn or_empty(v: Option<String>) -> Seq<char> {
    match v {
        Some(s) => s@,
        None => Seq::empty(),
    }
}

/// The facts read off video stream `v`, with the given audio codec.
pub open spec fn info_matches(info: MediaInfo, v: Stream, audio: Option<String>) -> bool {
    &&& info.width == (match v.width {
        Some(w) => w,
        None => 0,
    })
    &&& info.height == (match v.height {
        Some(h) => h,
        None => 0,
    })
    &&& info.fps_rounded == 0
    &&& info.codec@ == or_empty(v.codec_name)
    &&& info.pix_fmt@ == or_empty(v.pix_fmt)
    &&& info.audio_codec == audio
    &&& info.color_space == meaningful_tag(v.color_space)
    &&& info.color_transfer == meaningful_tag(v.color_transfer)
    &&& info.color_primaries == meaningful_tag(v.color_primaries)
    &&& info.color_range == meaningful_tag(v.color_range)
}

fn opt_or_empty(v: &Option<String>) -> (r: String)
    ensures
        r@ == or_empty(*v),
{
    match v {
        Some(s) => s.clone(),
        None => String::new(),
    }
}

fn kind_is(s: &Stream, kind: &str) -> (r: bool)
    ensures
        r == is_kind(*s, kind@),
{
    match &s.codec_type {
        Some(t) => same_text(t.as_str(), kind),
        None => false,
    }
}

/// Reads the streams ffprobe listed: the first video stream gives the picture
/// facts, the first audio stream that names a codec gives the audio codec.
/// Returns the index of the video stream with what was read; a source with no
/// video stream is refused. The frame rate is left at 0 for the caller.
pub fn select_streams(streams: &Vec<Stream>) -> (r: Result<(usize, MediaInfo), String>)
    ensures
        match r {
            Ok((i, info)) => i as int == first_video(streams@, 0) && info_matches(
                info,
                streams@[i as int],
                first_audio_codec(streams@, 0),
            ),
            Err(e) => first_video(streams@, 0) == -1 && e@ == "no video stream found"@,
        },
        r matches Ok((i, info)) ==> {
            &&& streams@[i as int].width matches Some(w) ==> info.width == w
            &&& streams@[i as int].height matches Some(h) ==> info.height == h
            &&& streams@[i as int].codec_name matches Some(c) ==> info.codec@ == c@
            &&& streams@[i as int].pix_fmt matches Some(f) ==> info.pix_fmt@ == f@
            &&& info.color_primaries == meaningful_tag(streams@[i as int].color_primaries)
            &&& info.color_transfer == meaningful_tag(streams@[i as int].color_transfer)
            &&& info.color_space == meaningful_tag(streams@[i as int].color_space)
            &&& info.color_range == meaningful_tag(streams@[i as int].color_range)
        },
{
    let mut video: Option<usize> = None;
    let mut audio: Option<String> = None;
    let mut i: usize = 0;
    while i < streams.len()
        invariant
            i <= streams@.len(),
            match video {
                Some(k) => k as int == first_video(streams@, 0) && k < i,
                None => first_video(streams@, 0) == first_video(streams@, i as int),
            },
            audio is Some ==> audio == first_audio_codec(streams@, 0),
            audio is None ==> first_audio_codec(streams@, 0) == first_audio_codec(streams@, i as int),
        decreases streams.len() - i,
    {
        let s = &streams[i];
        proof {
            reveal_strlit("video");
            reveal_strlit("audio");
            assert("video"@[0] != "audio"@[0]);
            assert(first_audio_codec(streams@, i as int) == if is_kind(streams@[i as int], "audio"@)
                && streams@[i as int].codec_name is Some {
                streams@[i as int].codec_name
            } else {
                first_audio_codec(streams@, i + 1)
            });
        }
        if kind_is(s, "video") {
            if video.is_none() {
                video = Some(i);
            }
        } else if kind_is(s, "audio") && audio.is_none() {
            assert(is_kind(streams@[i as int], "audio"@));
            audio = clone_opt(&s.codec_name);
            assert(audio == streams@[i as int].codec_name);
        }
        i += 1;
    }
    match video {
        None => Err("no video stream found".to_string()),
        Some(k) => {
            let v = &streams[k];
            let info = MediaInfo {
                width: match v.width {
                    Some(w) => w,
                    None => 0,
                },
                height: match v.height {
                    Some(h) => h,
                    None => 0,
                },
                fps_rounded: 0,
                codec: opt_or_empty(&v.codec_name),
                pix_fmt: opt_or_empty(&v.pix_fmt),
                audio_codec: audio,
                color_space: tag(&v.color_space),
                color_transfer: tag(&v.color_transfer),
                color_primaries: tag(&v.color_primaries),
                color_range: tag(&v.color_range),
            };
            Ok((k, info))
        },
    }
}

} // verus!
