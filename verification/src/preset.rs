//! Output targets and the ffmpeg argument lists they stand for.
//!
//! Every preset is built around one rule: never resample, never resize, never
//! change the frame rate. Whatever rate the source carries is passed through.

use vstd::prelude::*;
use crate::media::MediaInfo;
use crate::text::{
    chars_of, contains, contains_str, push_text, push_texts, push_owned, append_all,
    same_text, split_whitespace, starts_with, starts_with_str, views, words,
};

verus! {

#[derive(Debug, Clone, Copy, PartialEq, Eq, Structural)]
pub enum Target {
    DnxhrMov,
    ProresMov,
    Av1Mp4,
    Av1Mkv,
    H264Mp4,
    H265Mp4,
    UtvideoAvi,
    Ffv1Mkv,
}

/// Every output target, in the order the format list offers them.
pub fn targets() -> (r: Vec<Target>)
    ensures
        r@ == seq![
            Target::DnxhrMov,
            Target::ProresMov,
            Target::Av1Mp4,
            Target::Av1Mkv,
            Target::H264Mp4,
            Target::H265Mp4,
            Target::UtvideoAvi,
            Target::Ffv1Mkv,
        ],
{
    let r = vec![
        Target::DnxhrMov,
        Target::ProresMov,
        Target::Av1Mp4,
        Target::Av1Mkv,
        Target::H264Mp4,
        Target::H265Mp4,
        Target::UtvideoAvi,
        Target::Ffv1Mkv,
    ];
    assert(r@ =~= seq![
        Target::DnxhrMov,
        Target::ProresMov,
        Target::Av1Mp4,
        Target::Av1Mkv,
        Target::H264Mp4,
        Target::H265Mp4,
        Target::UtvideoAvi,
        Target::Ffv1Mkv,
    ]);
    r
}

pub open spec fn target_ext(t: Target) -> Seq<char> {
    match t {
        Target::DnxhrMov | Target::ProresMov => "mov"@,
        Target::Av1Mp4 | Target::H264Mp4 | Target::H265Mp4 => "mp4"@,
        Target::Av1Mkv | Target::Ffv1Mkv => "mkv"@,
        Target::UtvideoAvi => "avi"@,
    }
}

pub open spec fn target_label(t: Target) -> Seq<char> {
    match t {
        Target::DnxhrMov => "DNxHR / MOV  —  DaVinci Resolve ready"@,
        Target::ProresMov => "ProRes / MOV  —  editing"@,
        Target::Av1Mp4 => "AV1 / MP4  —  small, modern"@,
        Target::Av1Mkv => "AV1 / MKV  —  small, keeps every track"@,
        Target::H264Mp4 => "H.264 / MP4  —  plays everywhere"@,
        Target::H265Mp4 => "H.265 / MP4  —  efficient"@,
        Target::UtvideoAvi => "Ut Video / AVI  —  lossless AVI"@,
        Target::Ffv1Mkv => "FFV1 / MKV  —  lossless archive"@,
    }
}

pub open spec fn target_hint(t: Target) -> Seq<char> {
    match t {
        Target::DnxhrMov => "Intra-frame DNxHR with PCM audio. This is the one that makes DaVinci Resolve on Linux behave: it accepts any resolution and any frame rate (48, 60, 23.976 …), scrubs instantly and has no H.264/AAC licensing gap."@,
        Target::ProresMov => "Apple ProRes 422 HQ with PCM audio. Same idea as DNxHR, handy when the project also travels to macOS."@,
        Target::Av1Mp4 => "SVT-AV1. Much smaller files at the same visual quality; slower to encode and heavy to scrub in an editor."@,
        Target::Av1Mkv => "SVT-AV1 in Matroska, all audio/subtitle tracks copied through untouched."@,
        Target::H264Mp4 => "x264. The safe delivery format for phones, browsers and social platforms."@,
        Target::H265Mp4 => "x265. Roughly half the size of H.264 at equal quality, keeps 10-bit sources 10-bit."@,
        Target::UtvideoAvi => "Mathematically lossless video in an AVI container with PCM audio. Big files, zero generation loss."@,
        Target::Ffv1Mkv => "Mathematically lossless FFV1, the archival choice. Keeps the source pixel format bit for bit."@,
    }
}

pub open spec fn target_encoder(t: Target) -> Seq<char> {
    match t {
        Target::DnxhrMov => "dnxhd"@,
        Target::ProresMov => "prores_ks"@,
        Target::Av1Mp4 | Target::Av1Mkv => "libsvtav1"@,
        Target::H264Mp4 => "libx264"@,
        Target::H265Mp4 => "libx265"@,
        Target::UtvideoAvi => "utvideo"@,
        Target::Ffv1Mkv => "ffv1"@,
    }
}

/// Intra-frame formats meant for a timeline.
pub open spec fn editing_target(t: Target) -> bool {
    t is DnxhrMov || t is ProresMov || t is UtvideoAvi || t is Ffv1Mkv
}

impl Target {
    pub fn ext(self) -> (r: &'static str)
        ensures
            r@ == target_ext(self),
    {
        match self {
            Target::DnxhrMov | Target::ProresMov => "mov",
            Target::Av1Mp4 | Target::H264Mp4 | Target::H265Mp4 => "mp4",
            Target::Av1Mkv | Target::Ffv1Mkv => "mkv",
            Target::UtvideoAvi => "avi",
        }
    }

    pub fn label(self) -> (r: &'static str)
        ensures
            r@ == target_label(self),
    {
        match self {
            Target::DnxhrMov => "DNxHR / MOV  —  DaVinci Resolve ready",
            Target::ProresMov => "ProRes / MOV  —  editing",
            Target::Av1Mp4 => "AV1 / MP4  —  small, modern",
            Target::Av1Mkv => "AV1 / MKV  —  small, keeps every track",
            Target::H264Mp4 => "H.264 / MP4  —  plays everywhere",
            Target::H265Mp4 => "H.265 / MP4  —  efficient",
            Target::UtvideoAvi => "Ut Video / AVI  —  lossless AVI",
            Target::Ffv1Mkv => "FFV1 / MKV  —  lossless archive",
        }
    }

    pub fn hint(self) -> (r: &'static str)
        ensures
            r@ == target_hint(self),
    {
        match self {
            Target::DnxhrMov => "Intra-frame DNxHR with PCM audio. This is the one that makes DaVinci Resolve on Linux behave: it accepts any resolution and any frame rate (48, 60, 23.976 …), scrubs instantly and has no H.264/AAC licensing gap.",
            Target::ProresMov => "Apple ProRes 422 HQ with PCM audio. Same idea as DNxHR, handy when the project also travels to macOS.",
            Target::Av1Mp4 => "SVT-AV1. Much smaller files at the same visual quality; slower to encode and heavy to scrub in an editor.",
            Target::Av1Mkv => "SVT-AV1 in Matroska, all audio/subtitle tracks copied through untouched.",
            Target::H264Mp4 => "x264. The safe delivery format for phones, browsers and social platforms.",
            Target::H265Mp4 => "x265. Roughly half the size of H.264 at equal quality, keeps 10-bit sources 10-bit.",
            Target::UtvideoAvi => "Mathematically lossless video in an AVI container with PCM audio. Big files, zero generation loss.",
            Target::Ffv1Mkv => "Mathematically lossless FFV1, the archival choice. Keeps the source pixel format bit for bit.",
        }
    }

    /// Intra-frame formats meant for a timeline: these force a constant frame
    /// rate so editors do not choke on variable-frame-rate phone footage.
    pub fn for_editing(self) -> (r: bool)
        ensures
            r == editing_target(self),
    {
        match self {
            Target::DnxhrMov | Target::ProresMov | Target::UtvideoAvi | Target::Ffv1Mkv => true,
            _ => false,
        }
    }

    pub fn is_lossless(self) -> (r: bool)
        ensures
            r == (self is UtvideoAvi || self is Ffv1Mkv),
    {
        match self {
            Target::UtvideoAvi | Target::Ffv1Mkv => true,
            _ => false,
        }
    }

    pub fn uses_quality(self) -> (r: bool)
        ensures
            r == (self is Av1Mp4 || self is Av1Mkv || self is H264Mp4 || self is H265Mp4),
    {
        match self {
            Target::Av1Mp4 | Target::Av1Mkv | Target::H264Mp4 | Target::H265Mp4 => true,
            _ => false,
        }
    }

    pub fn uses_profile(self) -> (r: bool)
        ensures
            r == (self is DnxhrMov || self is ProresMov),
    {
        match self {
            Target::DnxhrMov | Target::ProresMov => true,
            _ => false,
        }
    }

    /// The ffmpeg encoder this target needs, so start-up can tell whether the
    /// local build has it.
    pub fn encoder(self) -> (r: &'static str)
        ensures
            r@ == target_encoder(self),
    {
        match self {
            Target::DnxhrMov => "dnxhd",
            Target::ProresMov => "prores_ks",
            Target::Av1Mp4 | Target::Av1Mkv => "libsvtav1",
            Target::H264Mp4 => "libx264",
            Target::H265Mp4 => "libx265",
            Target::UtvideoAvi => "utvideo",
            Target::Ffv1Mkv => "ffv1",
        }
    }
}

#[derive(Debug, Clone, Copy, PartialEq, Eq, Structural)]
pub enum Quality {
    Lossless,
    VisuallyLossless,
    High,
    Balanced,
}

/// Every quality setting, in the order the list offers them.
pub fn qualities() -> (r: Vec<Quality>)
    ensures
        r@ == seq![Quality::Lossless, Quality::VisuallyLossless, Quality::High, Quality::Balanced],
{
    let r = vec![Quality::Lossless, Quality::VisuallyLossless, Quality::High, Quality::Balanced];
    assert(r@ =~= seq![Quality::Lossless, Quality::VisuallyLossless, Quality::High, Quality::Balanced]);
    r
}

pub open spec fn quality_label(q: Quality) -> Seq<char> {
    match q {
        Quality::Lossless => "Lossless (identical pixels, huge)"@,
        Quality::VisuallyLossless => "Visually lossless (recommended)"@,
        Quality::High => "High"@,
        Quality::Balanced => "Balanced"@,
    }
}

impl Quality {
    pub fn label(self) -> (r: &'static str)
        ensures
            r@ == quality_label(self),
    {
        match self {
            Quality::Lossless => "Lossless (identical pixels, huge)",
            Quality::VisuallyLossless => "Visually lossless (recommended)",
            Quality::High => "High",
            Quality::Balanced => "Balanced",
        }
    }
}

/// DNxHR / ProRes profile: quality tiers, not resolutions.
#[derive(Debug, Clone, Copy, PartialEq, Eq, Structural)]
pub enum Profile {
    Sq,
    Hq,
    Hqx,
    Fourfourfour,
}

/// Every profile, in the order the list offers them.
pub fn profiles() -> (r: Vec<Profile>)
    ensures
        r@ == seq![Profile::Sq, Profile::Hq, Profile::Hqx, Profile::Fourfourfour],
{
    let r = vec![Profile::Sq, Profile::Hq, Profile::Hqx, Profile::Fourfourfour];
    assert(r@ =~= seq![Profile::Sq, Profile::Hq, Profile::Hqx, Profile::Fourfourfour]);
    r
}

pub open spec fn profile_label(p: Profile, t: Target) -> Seq<char> {
    if t is ProresMov {
        match p {
            Profile::Sq => "ProRes 422 (standard)"@,
            Profile::Hq => "ProRes 422 HQ (recommended)"@,
            Profile::Hqx => "ProRes 4444"@,
            Profile::Fourfourfour => "ProRes 4444 XQ"@,
        }
    } else {
        match p {
            Profile::Sq => "DNxHR SQ (8-bit, lighter)"@,
            Profile::Hq => "DNxHR HQ (8-bit, recommended)"@,
            Profile::Hqx => "DNxHR HQX (10-bit, HDR / log)"@,
            Profile::Fourfourfour => "DNxHR 444 (10-bit 4:4:4)"@,
        }
    }
}

impl Profile {
    pub fn label(self, target: Target) -> (r: &'static str)
        ensures
            r@ == profile_label(self, target),
    {
        match (target, self) {
            (Target::ProresMov, Profile::Sq) => "ProRes 422 (standard)",
            (Target::ProresMov, Profile::Hq) => "ProRes 422 HQ (recommended)",
            (Target::ProresMov, Profile::Hqx) => "ProRes 4444",
            (Target::ProresMov, Profile::Fourfourfour) => "ProRes 4444 XQ",
            (_, Profile::Sq) => "DNxHR SQ (8-bit, lighter)",
            (_, Profile::Hq) => "DNxHR HQ (8-bit, recommended)",
            (_, Profile::Hqx) => "DNxHR HQX (10-bit, HDR / log)",
            (_, Profile::Fourfourfour) => "DNxHR 444 (10-bit 4:4:4)",
        }
    }
}

#[derive(Debug, Clone, Copy, PartialEq, Eq, Structural)]
pub enum Audio {
    Auto,
    Copy,
    Pcm16,
    Pcm24,
    Flac,
    Aac320,
    Opus192,
}

/// Every audio setting, in the order the list offers them.
pub fn audios() -> (r: Vec<Audio>)
    ensures
        r@ == seq![
            Audio::Auto,
            Audio::Copy,
            Audio::Pcm16,
            Audio::Pcm24,
            Audio::Flac,
            Audio::Aac320,
            Audio::Opus192,
        ],
{
    let r = vec![
        Audio::Auto,
        Audio::Copy,
        Audio::Pcm16,
        Audio::Pcm24,
        Audio::Flac,
        Audio::Aac320,
        Audio::Opus192,
    ];
    assert(r@ =~= seq![
        Audio::Auto,
        Audio::Copy,
        Audio::Pcm16,
        Audio::Pcm24,
        Audio::Flac,
        Audio::Aac320,
        Audio::Opus192,
    ]);
    r
}

pub open spec fn audio_label(a: Audio) -> Seq<char> {
    match a {
        Audio::Auto => "Auto (copy untouched when the container allows)"@,
        Audio::Copy => "Copy the original stream (no re-encode)"@,
        Audio::Pcm16 => "PCM 16-bit (uncompressed)"@,
        Audio::Pcm24 => "PCM 24-bit (uncompressed)"@,
        Audio::Flac => "FLAC (lossless, compressed)"@,
        Audio::Aac320 => "AAC 320 kbps"@,
        Audio::Opus192 => "Opus 192 kbps"@,
    }
}

impl Audio {
    pub fn label(self) -> (r: &'static str)
        ensures
            r@ == audio_label(self),
    {
        match self {
            Audio::Auto => "Auto (copy untouched when the container allows)",
            Audio::Copy => "Copy the original stream (no re-encode)",
            Audio::Pcm16 => "PCM 16-bit (uncompressed)",
            Audio::Pcm24 => "PCM 24-bit (uncompressed)",
            Audio::Flac => "FLAC (lossless, compressed)",
            Audio::Aac320 => "AAC 320 kbps",
            Audio::Opus192 => "Opus 192 kbps",
        }
    }
}

/// Everything the user picks that shapes the ffmpeg invocation.
#[derive(Debug)]
pub struct Settings {
    pub target: Target,
    pub quality: Quality,
    pub profile: Profile,
    pub audio: Audio,
    pub keep_all_tracks: bool,
    pub overwrite: bool,
    pub concurrency: usize,
    pub extra_args: String,
}

impl Default for Settings {
    fn default() -> (r: Self)
        ensures
            r.target == Target::DnxhrMov,
            r.quality == Quality::VisuallyLossless,
            r.profile == Profile::Hq,
            r.audio == Audio::Auto,
            r.keep_all_tracks,
            !r.overwrite,
            r.concurrency == 1,
            r.extra_args@ == Seq::<char>::empty(),
    {
        Settings {
            target: Target::DnxhrMov,
            quality: Quality::VisuallyLossless,
            profile: Profile::Hq,
            audio: Audio::Auto,
            keep_all_tracks: true,
            overwrite: false,
            concurrency: 1,
            extra_args: String::new(),
        }
    }
}

impl Settings {
    /// A copy equal to `self`.
    pub fn duplicate(&self) -> (r: Settings)
        ensures
            r == *self,
    {
        Settings {
            target: self.target,
            quality: self.quality,
            profile: self.profile,
            audio: self.audio,
            keep_all_tracks: self.keep_all_tracks,
            overwrite: self.overwrite,
            concurrency: self.concurrency,
            extra_args: self.extra_args.clone(),
        }
    }

    /// Profiles are shared between DNxHR and ProRes: when the format has just
    /// been switched to DNxHR, a 4:4:4 profile picked for ProRes falls back
    /// to HQ.
    pub fn settle_profile(&mut self, previous: Target)
        ensures
            final(self).profile == (if old(self).target != previous && old(self).profile
                == Profile::Fourfourfour && old(self).target == Target::DnxhrMov {
                Profile::Hq
            } else {
                old(self).profile
            }),
            final(self).target == old(self).target,
            final(self).quality == old(self).quality,
            final(self).audio == old(self).audio,
            final(self).keep_all_tracks == old(self).keep_all_tracks,
            final(self).overwrite == old(self).overwrite,
            final(self).concurrency == old(self).concurrency,
            final(self).extra_args == old(self).extra_args,
    {
        if self.target != previous && self.profile == Profile::Fourfourfour && self.target
            == Target::DnxhrMov {
            self.profile = Profile::Hq;
        }
    }

    /// How many jobs run side by side: the setting, but at least one.
    pub fn worker_count(&self) -> (r: usize)
        ensures
            r == if self.concurrency < 1 { 1 } else { self.concurrency },
    {
        if self.concurrency < 1 {
            1
        } else {
            self.concurrency
        }
    }
}

// ------------------------------------------------------------ pixel format

/// Source formats x264 and x265 take as they are.
pub open spec fn x26x_formats() -> Seq<Seq<char>> {
    seq!["yuv420p"@, "yuv422p"@, "yuv444p"@, "yuv420p10le"@, "yuv422p10le"@, "yuv444p10le"@]
}

/// Source formats Ut Video takes as they are.
pub open spec fn utvideo_formats() -> Seq<Seq<char>> {
    seq!["yuv420p"@, "yuv422p"@, "yuv444p"@, "gbrp"@]
}

/// The `-pix_fmt` a job asks for; `None` leaves the source's alone.
pub open spec fn chosen_pix_fmt(s: Settings, info: MediaInfo) -> Option<Seq<char>> {
    let ten = info.ten_bit();
    let src = info.pix_fmt@;
    match s.target {
        Target::DnxhrMov => Some(
            match s.profile {
                Profile::Sq | Profile::Hq => "yuv422p"@,
                Profile::Hqx => "yuv422p10le"@,
                Profile::Fourfourfour => "yuv444p10le"@,
            },
        ),
        Target::ProresMov => Some(
            match s.profile {
                Profile::Sq | Profile::Hq => "yuv422p10le"@,
                Profile::Hqx | Profile::Fourfourfour => "yuva444p10le"@,
            },
        ),
        Target::Av1Mp4 | Target::Av1Mkv => Some(
            if ten {
                "yuv420p10le"@
            } else {
                "yuv420p"@
            },
        ),
        Target::H264Mp4 | Target::H265Mp4 => Some(
            if x26x_formats().contains(src) {
                src
            } else if ten {
                "yuv420p10le"@
            } else {
                "yuv420p"@
            },
        ),
        Target::UtvideoAvi => Some(
            if utvideo_formats().contains(src) {
                src
            } else {
                "yuv422p"@
            },
        ),
        Target::Ffv1Mkv => None,
    }
}

fn in_x26x_formats(p: &str) -> (r: bool)
    ensures
        r == x26x_formats().contains(p@),
{
    let r = same_text(p, "yuv420p") || same_text(p, "yuv422p") || same_text(p, "yuv444p")
        || same_text(p, "yuv420p10le") || same_text(p, "yuv422p10le") || same_text(
        p,
        "yuv444p10le",
    );
    proof {
        if x26x_formats().contains(p@) {
            let k = choose|k: int| 0 <= k < x26x_formats().len() && x26x_formats()[k] == p@;
            assert(0 <= k < 6);
        }
        if r {
            if p@ == "yuv420p"@ {
                assert(x26x_formats()[0] == p@);
            } else if p@ == "yuv422p"@ {
                assert(x26x_formats()[1] == p@);
            } else if p@ == "yuv444p"@ {
                assert(x26x_formats()[2] == p@);
            } else if p@ == "yuv420p10le"@ {
                assert(x26x_formats()[3] == p@);
            } else if p@ == "yuv422p10le"@ {
                assert(x26x_formats()[4] == p@);
            } else {
                assert(x26x_formats()[5] == p@);
            }
        }
    }
    r
}

fn in_utvideo_formats(p: &str) -> (r: bool)
    ensures
        r == utvideo_formats().contains(p@),
{
    let r = same_text(p, "yuv420p") || same_text(p, "yuv422p") || same_text(p, "yuv444p")
        || same_text(p, "gbrp");
    proof {
        if utvideo_formats().contains(p@) {
            let k = choose|k: int| 0 <= k < utvideo_formats().len() && utvideo_formats()[k] == p@;
            assert(0 <= k < 4);
        }
        if r {
            if p@ == "yuv420p"@ {
                assert(utvideo_formats()[0] == p@);
            } else if p@ == "yuv422p"@ {
                assert(utvideo_formats()[1] == p@);
            } else if p@ == "yuv444p"@ {
                assert(utvideo_formats()[2] == p@);
            } else {
                assert(utvideo_formats()[3] == p@);
            }
        }
    }
    r
}

fn pix_fmt(s: &Settings, info: &MediaInfo) -> (r: Option<String>)
    ensures
        match r {
            Some(p) => chosen_pix_fmt(*s, *info) == Some(p@),
            None => chosen_pix_fmt(*s, *info) is None,
        },
{
    let ten = info.is_10bit();
    match s.target {
        Target::DnxhrMov => Some(
            match s.profile {
                Profile::Sq | Profile::Hq => "yuv422p",
                Profile::Hqx => "yuv422p10le",
                Profile::Fourfourfour => "yuv444p10le",
            }.to_string(),
        ),
        Target::ProresMov => Some(
            match s.profile {
                Profile::Sq | Profile::Hq => "yuv422p10le",
                Profile::Hqx | Profile::Fourfourfour => "yuva444p10le",
            }.to_string(),
        ),
        Target::Av1Mp4 | Target::Av1Mkv => Some(
            if ten {
                "yuv420p10le"
            } else {
                "yuv420p"
            }.to_string(),
        ),
        Target::H264Mp4 | Target::H265Mp4 => {
            if in_x26x_formats(info.pix_fmt.as_str()) {
                Some(info.pix_fmt.clone())
            } else if ten {
                Some("yuv420p10le".to_string())
            } else {
                Some("yuv420p".to_string())
            }
        },
        Target::UtvideoAvi => {
            if in_utvideo_formats(info.pix_fmt.as_str()) {
                Some(info.pix_fmt.clone())
            } else {
                Some("yuv422p".to_string())
            }
        },
        // FFV1 speaks nearly every pixel format: leave the source alone.
        Target::Ffv1Mkv => None,
    }
}

// ------------------------------------------------------------ arguments

/// `[flag, value]` when the value is known, nothing otherwise.
pub open spec fn opt_pair(flag: Seq<char>, v: Option<String>) -> Seq<Seq<char>> {
    match v {
        Some(x) => seq![flag, x@],
        None => Seq::empty(),
    }
}

/// The source's colour description, carried over unchanged.
pub open spec fn colour_args(info: MediaInfo) -> Seq<Seq<char>> {
    opt_pair("-color_primaries"@, info.color_primaries) + opt_pair("-color_trc"@, info.color_transfer)
        + opt_pair("-colorspace"@, info.color_space) + opt_pair("-color_range"@, info.color_range)
}

/// The encoder and its settings.
pub open spec fn codec_args(s: Settings) -> Seq<Seq<char>> {
    match s.target {
        Target::DnxhrMov => seq![
            "-c:v"@,
            "dnxhd"@,
            "-profile:v"@,
            match s.profile {
                Profile::Sq => "dnxhr_sq"@,
                Profile::Hq => "dnxhr_hq"@,
                Profile::Hqx => "dnxhr_hqx"@,
                Profile::Fourfourfour => "dnxhr_444"@,
            },
        ],
        Target::ProresMov => seq![
            "-c:v"@,
            "prores_ks"@,
            "-profile:v"@,
            match s.profile {
                Profile::Sq => "2"@,
                Profile::Hq => "3"@,
                Profile::Hqx => "4"@,
                Profile::Fourfourfour => "5"@,
            },
            "-vendor"@,
            "apl0"@,
            "-qscale:v"@,
            "4"@,
        ],
        Target::Av1Mp4 | Target::Av1Mkv => seq![
            "-c:v"@,
            "libsvtav1"@,
            "-preset"@,
            "6"@,
            "-crf"@,
            match s.quality {
                Quality::Lossless => "0"@,
                Quality::VisuallyLossless => "18"@,
                Quality::High => "24"@,
                Quality::Balanced => "30"@,
            },
            "-svtav1-params"@,
            "tune=0:film-grain=0"@,
        ],
        Target::H264Mp4 => seq![
            "-c:v"@,
            "libx264"@,
            "-preset"@,
            "slow"@,
            "-crf"@,
            match s.quality {
                Quality::Lossless => "0"@,
                Quality::VisuallyLossless => "16"@,
                Quality::High => "18"@,
                Quality::Balanced => "21"@,
            },
        ],
        Target::H265Mp4 => seq![
            "-c:v"@,
            "libx265"@,
            "-preset"@,
            "slow"@,
            "-crf"@,
            match s.quality {
                Quality::Lossless => "0"@,
                Quality::VisuallyLossless => "18"@,
                Quality::High => "20"@,
                Quality::Balanced => "23"@,
            },
        ] + (if s.quality is Lossless {
            seq!["-x265-params"@, "lossless=1"@]
        } else {
            Seq::empty()
        }) + seq!["-tag:v"@, "hvc1"@],
        Target::UtvideoAvi => seq!["-c:v"@, "utvideo"@, "-pred"@, "median"@],
        Target::Ffv1Mkv => seq![
            "-c:v"@,
            "ffv1"@,
            "-level"@,
            "3"@,
            "-coder"@,
            "1"@,
            "-context"@,
            "1"@,
            "-g"@,
            "1"@,
            "-slices"@,
            "24"@,
            "-slicecrc"@,
            "1"@,
        ],
    }
}

pub open spec fn video_args_of(s: Settings, info: MediaInfo) -> Seq<Seq<char>> {
    codec_args(s) + colour_args(info)
}

fn push_opt_pair(out: &mut Vec<String>, flag: &str, v: &Option<String>)
    ensures
        views(final(out)@) == views(old(out)@) + opt_pair(flag@, *v),
{
    match v {
        Some(x) => {
            push_text(out, flag);
            push_owned(out, x.clone());
            assert(views(old(out)@).push(flag@).push(x@) =~= views(old(out)@) + seq![flag@, x@]);
        },
        None => {
            assert(views(old(out)@) + Seq::<Seq<char>>::empty() =~= views(old(out)@));
        },
    }
}

#[verifier::rlimit(50)]
fn codec_arg_list(s: &Settings) -> (r: Vec<String>)
    ensures
        views(r@) == codec_args(*s),
{
    let mut v: Vec<String> = Vec::new();
    match s.target {
        Target::DnxhrMov => {
            let p = match s.profile {
                Profile::Sq => "dnxhr_sq",
                Profile::Hq => "dnxhr_hq",
                Profile::Hqx => "dnxhr_hqx",
                Profile::Fourfourfour => "dnxhr_444",
            };
            push_texts(&mut v, &["-c:v", "dnxhd", "-profile:v", p]);
        },
        Target::ProresMov => {
            let p = match s.profile {
                Profile::Sq => "2",
                Profile::Hq => "3",
                Profile::Hqx => "4",
                Profile::Fourfourfour => "5",
            };
            push_texts(&mut v, &["-c:v", "prores_ks", "-profile:v", p, "-vendor", "apl0", "-qscale:v", "4"]);
        },
        Target::Av1Mp4 | Target::Av1Mkv => {
            let crf = match s.quality {
                Quality::Lossless => "0",
                Quality::VisuallyLossless => "18",
                Quality::High => "24",
                Quality::Balanced => "30",
            };
            push_texts(&mut v, &["-c:v", "libsvtav1", "-preset", "6", "-crf", crf]);
            push_texts(&mut v, &["-svtav1-params", "tune=0:film-grain=0"]);
        },
        Target::H264Mp4 => {
            let crf = match s.quality {
                Quality::Lossless => "0",
                Quality::VisuallyLossless => "16",
                Quality::High => "18",
                Quality::Balanced => "21",
            };
            push_texts(&mut v, &["-c:v", "libx264", "-preset", "slow", "-crf", crf]);
        },
        Target::H265Mp4 => {
            let crf = match s.quality {
                Quality::Lossless => "0",
                Quality::VisuallyLossless => "18",
                Quality::High => "20",
                Quality::Balanced => "23",
            };
            push_texts(&mut v, &["-c:v", "libx265", "-preset", "slow", "-crf", crf]);
            if s.quality == Quality::Lossless {
                push_texts(&mut v, &["-x265-params", "lossless=1"]);
            }
            push_texts(&mut v, &["-tag:v", "hvc1"]);
        },
        Target::UtvideoAvi => {
            push_texts(&mut v, &["-c:v", "utvideo", "-pred", "median"]);
        },
        Target::Ffv1Mkv => {
            push_texts(
                &mut v,
                &[
                    "-c:v",
                    "ffv1",
                    "-level",
                    "3",
                    "-coder",
                    "1",
                    "-context",
                    "1",
                    "-g",
                    "1",
                    "-slices",
                    "24",
                    "-slicecrc",
                    "1",
                ],
            );
        },
    }
    assert(views(v@) =~= codec_args(*s));
    v
}

fn video_args(s: &Settings, info: &MediaInfo) -> (r: Vec<String>)
    ensures
        views(r@) == video_args_of(*s, *info),
{
    let mut v = codec_arg_list(s);
    // Keep the colour description of the source; a wrong tag is the most
    // common cause of "the colours shifted after converting".
    push_opt_pair(&mut v, "-color_primaries", &info.color_primaries);
    push_opt_pair(&mut v, "-color_trc", &info.color_transfer);
    push_opt_pair(&mut v, "-colorspace", &info.color_space);
    push_opt_pair(&mut v, "-color_range", &info.color_range);
    assert(views(v@) =~= video_args_of(*s, *info));
    v
}

/// Audio codecs an MP4 carries as they are.
pub open spec fn mp4_audio_codecs() -> Seq<Seq<char>> {
    seq!["aac"@, "mp3"@, "ac3"@, "eac3"@, "alac"@, "opus"@]
}

/// What `Auto` means for this target and source audio codec; other choices
/// stand as they are.
pub open spec fn resolved_audio(s: Settings, src: Seq<char>) -> Audio {
    match s.audio {
        Audio::Auto => match s.target {
            Target::DnxhrMov | Target::ProresMov | Target::UtvideoAvi => if starts_with(
                src,
                "pcm_"@,
            ) {
                Audio::Copy
            } else {
                Audio::Pcm24
            },
            Target::Ffv1Mkv => if starts_with(src, "pcm_"@) || src == "flac"@ || src == "alac"@ {
                Audio::Copy
            } else {
                Audio::Flac
            },
            Target::Av1Mkv => Audio::Copy,
            Target::Av1Mp4 | Target::H264Mp4 | Target::H265Mp4 => if mp4_audio_codecs().contains(
                src,
            ) {
                Audio::Copy
            } else {
                Audio::Flac
            },
        },
        other => other,
    }
}

pub open spec fn audio_args_of(s: Settings, info: MediaInfo) -> Seq<Seq<char>> {
    match info.audio_codec {
        None => seq!["-an"@],
        Some(src) => match resolved_audio(s, src@) {
            Audio::Copy | Audio::Auto => seq!["-c:a"@, "copy"@],
            Audio::Pcm16 => seq!["-c:a"@, "pcm_s16le"@],
            Audio::Pcm24 => seq!["-c:a"@, "pcm_s24le"@],
            Audio::Flac => seq!["-c:a"@, "flac"@],
            Audio::Aac320 => seq!["-c:a"@, "aac"@, "-b:a"@, "320k"@],
            Audio::Opus192 => seq!["-c:a"@, "libopus"@, "-b:a"@, "192k"@],
        },
    }
}

fn in_mp4_audio_codecs(p: &str) -> (r: bool)
    ensures
        r == mp4_audio_codecs().contains(p@),
{
    let r = same_text(p, "aac") || same_text(p, "mp3") || same_text(p, "ac3") || same_text(p, "eac3")
        || same_text(p, "alac") || same_text(p, "opus");
    proof {
        if mp4_audio_codecs().contains(p@) {
            let k = choose|k: int| 0 <= k < mp4_audio_codecs().len() && mp4_audio_codecs()[k] == p@;
            assert(0 <= k < 6);
        }
        if r {
            if p@ == "aac"@ {
                assert(mp4_audio_codecs()[0] == p@);
            } else if p@ == "mp3"@ {
                assert(mp4_audio_codecs()[1] == p@);
            } else if p@ == "ac3"@ {
                assert(mp4_audio_codecs()[2] == p@);
            } else if p@ == "eac3"@ {
                assert(mp4_audio_codecs()[3] == p@);
            } else if p@ == "alac"@ {
                assert(mp4_audio_codecs()[4] == p@);
            } else {
                assert(mp4_audio_codecs()[5] == p@);
            }
        }
    }
    r
}

fn resolve_audio(s: &Settings, src: &str) -> (r: Audio)
    ensures
        r == resolved_audio(*s, src@),
{
    match s.audio {
        Audio::Auto => match s.target {
            // Resolve on Linux will not open AAC; uncompressed always works.
            Target::DnxhrMov | Target::ProresMov | Target::UtvideoAvi => {
                let v = chars_of(src);
                if starts_with_str(v.as_slice(), "pcm_") {
                    Audio::Copy
                } else {
                    Audio::Pcm24
                }
            },
            Target::Ffv1Mkv => {
                let v = chars_of(src);
                if starts_with_str(v.as_slice(), "pcm_") || same_text(src, "flac") || same_text(
                    src,
                    "alac",
                ) {
                    Audio::Copy
                } else {
                    Audio::Flac
                }
            },
            Target::Av1Mkv => Audio::Copy,
            Target::Av1Mp4 | Target::H264Mp4 | Target::H265Mp4 => {
                // Lossless when it cannot be copied: MP4 carries FLAC.
                if in_mp4_audio_codecs(src) {
                    Audio::Copy
                } else {
                    Audio::Flac
                }
            },
        },
        other => other,
    }
}

fn audio_args(s: &Settings, info: &MediaInfo) -> (r: Vec<String>)
    ensures
        views(r@) == audio_args_of(*s, *info),
{
    let mut v: Vec<String> = Vec::new();
    match &info.audio_codec {
        None => {
            push_texts(&mut v, &["-an"]);
        },
        Some(src) => {
            match resolve_audio(s, src.as_str()) {
                Audio::Copy | Audio::Auto => push_texts(&mut v, &["-c:a", "copy"]),
                Audio::Pcm16 => push_texts(&mut v, &["-c:a", "pcm_s16le"]),
                Audio::Pcm24 => push_texts(&mut v, &["-c:a", "pcm_s24le"]),
                Audio::Flac => push_texts(&mut v, &["-c:a", "flac"]),
                Audio::Aac320 => push_texts(&mut v, &["-c:a", "aac", "-b:a", "320k"]),
                Audio::Opus192 => push_texts(&mut v, &["-c:a", "libopus", "-b:a", "192k"]),
            }
        },
    }
    assert(views(v@) =~= audio_args_of(*s, *info));
    v
}

/// Containers that can carry the source's subtitle tracks.
pub open spec fn subtitle_target(t: Target) -> bool {
    t is Av1Mkv || t is Ffv1Mkv
}

/// MP4 targets, which get their index moved to the front of the file.
pub open spec fn mp4_target(t: Target) -> bool {
    t is Av1Mp4 || t is H264Mp4 || t is H265Mp4
}

pub open spec fn header_args() -> Seq<Seq<char>> {
    seq!["-hide_banner"@, "-nostdin"@, "-loglevel"@, "error"@, "-progress"@, "pipe:1"@, "-y"@, "-i"@]
}

/// Stream selection: the first video track, every audio track, and subtitles
/// where the container can carry them.
pub open spec fn map_args(s: Settings) -> Seq<Seq<char>> {
    seq!["-map"@, "0:v:0"@] + (if s.keep_all_tracks {
        seq!["-map"@, "0:a?"@] + (if subtitle_target(s.target) {
            seq!["-map"@, "0:s?"@, "-c:s"@, "copy"@]
        } else {
            Seq::empty()
        })
    } else {
        seq!["-map"@, "0:a:0?"@]
    }) + seq!["-map_metadata"@, "0"@]
}

/// Chroma-subsampled formats need even dimensions.
pub open spec fn needs_pad(pf: Seq<char>, info: MediaInfo) -> bool {
    (starts_with(pf, "yuv420"@) && (info.width % 2 == 1 || info.height % 2 == 1)) || (starts_with(
        pf,
        "yuv422"@,
    ) && info.width % 2 == 1)
}

/// The filter that pads odd dimensions up to even ones.
pub open spec fn pad_filter() -> Seq<char> {
    "pad=ceil(iw/2)*2:ceil(ih/2)*2"@
}

pub open spec fn pixel_args(s: Settings, info: MediaInfo) -> Seq<Seq<char>> {
    match chosen_pix_fmt(s, info) {
        None => Seq::empty(),
        Some(pf) => (if needs_pad(pf, info) {
            seq!["-vf"@, pad_filter()]
        } else {
            Seq::empty()
        }) + seq!["-pix_fmt"@, pf],
    }
}

pub open spec fn rate_args(s: Settings) -> Seq<Seq<char>> {
    seq![
        "-fps_mode"@,
        if editing_target(s.target) {
            "cfr"@
        } else {
            "passthrough"@
        },
    ]
}

pub open spec fn container_args(s: Settings) -> Seq<Seq<char>> {
    if mp4_target(s.target) {
        seq!["-movflags"@, "+faststart"@]
    } else {
        Seq::empty()
    }
}

/// The full ffmpeg argument list for converting `input` into `output`.
pub open spec fn build_args(input: Seq<char>, output: Seq<char>, info: MediaInfo, s: Settings) -> Seq<
    Seq<char>,
> {
    header_args() + seq![input] + map_args(s) + video_args_of(s, info) + pixel_args(s, info)
        + rate_args(s) + audio_args_of(s, info) + container_args(s) + words(s.extra_args@) + seq![
        output,
    ]
}

fn map_arg_list(s: &Settings) -> (r: Vec<String>)
    ensures
        views(r@) == map_args(*s),
{
    let mut v: Vec<String> = Vec::new();
    push_texts(&mut v, &["-map", "0:v:0"]);
    if s.keep_all_tracks {
        push_texts(&mut v, &["-map", "0:a?"]);
        if matches!(s.target, Target::Av1Mkv | Target::Ffv1Mkv) {
            push_texts(&mut v, &["-map", "0:s?", "-c:s", "copy"]);
        }
    } else {
        push_texts(&mut v, &["-map", "0:a:0?"]);
    }
    push_texts(&mut v, &["-map_metadata", "0"]);
    assert(views(v@) =~= map_args(*s));
    v
}

fn pixel_arg_list(s: &Settings, info: &MediaInfo) -> (r: Vec<String>)
    ensures
        views(r@) == pixel_args(*s, *info),
{
    let mut v: Vec<String> = Vec::new();
    if let Some(pf) = pix_fmt(s, info) {
        // Pad rather than scale, so not a single pixel is resampled.
        let c = chars_of(pf.as_str());
        let sub420 = starts_with_str(c.as_slice(), "yuv420");
        let sub422 = starts_with_str(c.as_slice(), "yuv422");
        let odd_w = info.width % 2 == 1;
        let odd_h = info.height % 2 == 1;
        if (sub420 && (odd_w || odd_h)) || (sub422 && odd_w) {
            push_texts(&mut v, &["-vf", "pad=ceil(iw/2)*2:ceil(ih/2)*2"]);
        }
        push_text(&mut v, "-pix_fmt");
        push_owned(&mut v, pf);
    }
    assert(views(v@) =~= pixel_args(*s, *info));
    v
}

/// The full ffmpeg invocation for one job.
pub fn build(input: &str, output: &str, info: &MediaInfo, s: &Settings) -> (r: Vec<String>)
    ensures
        views(r@) == build_args(input@, output@, *info, *s),
{
    let mut args: Vec<String> = Vec::new();
    push_texts(&mut args, &["-hide_banner", "-nostdin", "-loglevel", "error", "-progress", "pipe:1", "-y", "-i"]);
    push_text(&mut args, input);
    let m = map_arg_list(s);
    append_all(&mut args, &m);
    let v = video_args(s, info);
    append_all(&mut args, &v);
    let p = pixel_arg_list(s, info);
    append_all(&mut args, &p);
    push_text(&mut args, "-fps_mode");
    push_text(&mut args, if s.target.for_editing() { "cfr" } else { "passthrough" });
    let a = audio_args(s, info);
    append_all(&mut args, &a);
    if matches!(s.target, Target::Av1Mp4 | Target::H264Mp4 | Target::H265Mp4) {
        push_texts(&mut args, &["-movflags", "+faststart"]);
    }
    let extra = chars_of(s.extra_args.as_str());
    let e = split_whitespace(extra.as_slice());
    append_all(&mut args, &e);
    push_text(&mut args, output);
    proof {
        assert(views(args@) =~= build_args(input@, output@, *info, *s));
    }
    args
}

/// An argument as a shell would need it: single-quoted when it holds a space.
pub open spec fn quoted(t: Seq<char>) -> Seq<char> {
    if contains(t, " "@) {
        "'"@ + t + "'"@
    } else {
        t
    }
}

/// The items joined with single spaces.
pub open spec fn joined(v: Seq<Seq<char>>) -> Seq<char>
    decreases v.len(),
{
    if v.len() == 0 {
        Seq::empty()
    } else if v.len() == 1 {
        v[0]
    } else {
        joined(v.drop_last()) + " "@ + v.last()
    }
}

/// The shell command line for an argument list.
pub open spec fn command_line(args: Seq<Seq<char>>) -> Seq<char> {
    "ffmpeg "@ + joined(args.map_values(|a: Seq<char>| quoted(a)))
}

/// Same arguments, rendered as a copy-pasteable shell command.
pub fn preview(input: &str, output: &str, info: &MediaInfo, s: &Settings) -> (r: String)
    ensures
        r@ == command_line(build_args(input@, output@, *info, *s)),
{
    let args = build(input, output, info, s);
    let ghost q = views(args@).map_values(|a: Seq<char>| quoted(a));
    let mut out = String::new();
    let mut i: usize = 0;
    while i < args.len()
        invariant
            i <= args@.len(),
            q == views(args@).map_values(|a: Seq<char>| quoted(a)),
            out@ == joined(q.take(i as int)),
        decreases args.len() - i,
    {
        if i > 0 {
            out.append(" ");
        }
        let t = chars_of(args[i].as_str());
        if contains_str(t.as_slice(), " ") {
            out.append("'");
            out.append(args[i].as_str());
            out.append("'");
        } else {
            out.append(args[i].as_str());
        }
        proof {
            assert(q.take(i + 1).drop_last() =~= q.take(i as int));
            assert(q[i as int] == quoted(args@[i as int]@));
            if i == 0 {
                assert(q.take(1) =~= seq![q[0]]);
            }
        }
        i += 1;
    }
    assert(q.take(args@.len() as int) =~= q);
    let mut r = "ffmpeg ".to_string();
    r.append(out.as_str());
    r
}

} // verus!
