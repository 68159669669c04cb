use vidnux::media::MediaInfo;
use vidnux::preset::{audios, build, preview, profiles, qualities, targets, Audio, Profile, Quality, Settings, Target};

fn info() -> MediaInfo {
    MediaInfo {
        width: 1920,
        height: 1080,
        fps_rounded: 48,
        codec: "h264".to_string(),
        pix_fmt: "yuv420p".to_string(),
        audio_codec: Some("aac".to_string()),
        color_space: Some("bt709".to_string()),
        color_transfer: None,
        color_primaries: None,
        color_range: None,
    }
}

fn args_of(target: Target) -> Vec<String> {
    let mut s = Settings::default();
    s.target = target;
    build("/in/clip.mov", "/out/clip.x", &info(), &s)
}

fn has_pair(args: &[String], a: &str, b: &str) -> bool {
    args.windows(2).any(|w| w[0] == a && w[1] == b)
}

/// Nothing may resize or resample: no -s, no -r, no scale filter, ever.
#[test]
fn never_touches_geometry_or_frame_rate() {
    for t in targets() {
        let args = args_of(t);
        assert!(!args.iter().any(|a| a == "-s" || a == "-r"), "{t:?}");
        assert!(
            !args.iter().any(|a| a.contains("scale=") || a.contains("fps=")),
            "{t:?}"
        );
    }
}

#[test]
fn colour_tags_follow_the_source() {
    let args = args_of(Target::H264Mp4);
    let i = args.iter().position(|a| a == "-colorspace").unwrap();
    assert_eq!(args[i + 1], "bt709");
}

#[test]
fn resolve_preset_uses_dnxhr_and_uncompressed_audio() {
    let args = args_of(Target::DnxhrMov);
    assert!(has_pair(&args, "-c:v", "dnxhd"));
    assert!(has_pair(&args, "-profile:v", "dnxhr_hq"));
    assert!(has_pair(&args, "-c:a", "pcm_s24le"));
    assert!(has_pair(&args, "-fps_mode", "cfr"));
}

#[test]
fn already_compatible_audio_is_copied_not_re_encoded() {
    let args = args_of(Target::H264Mp4);
    assert!(has_pair(&args, "-c:a", "copy"));
}

#[test]
fn odd_dimensions_are_padded_never_scaled() {
    let mut s = Settings::default();
    s.target = Target::H264Mp4;
    let mut i = info();
    i.width = 641;
    i.height = 361;
    let args = build("/in/a.mp4", "/out/a.mp4", &i, &s);
    assert!(args.iter().any(|a| a.starts_with("pad=")));
}

#[test]
fn default_preset_builds_the_whole_invocation() {
    let args = build("/in/clip.mov", "/out/clip.mov", &info(), &Settings::default());
    let expected = [
        "-hide_banner", "-nostdin", "-loglevel", "error", "-progress", "pipe:1", "-y", "-i",
        "/in/clip.mov", "-map", "0:v:0", "-map", "0:a?", "-map_metadata", "0", "-c:v", "dnxhd",
        "-profile:v", "dnxhr_hq", "-colorspace", "bt709", "-pix_fmt", "yuv422p", "-fps_mode",
        "cfr", "-c:a", "pcm_s24le", "/out/clip.mov",
    ];
    assert_eq!(args, expected.iter().map(|a| a.to_string()).collect::<Vec<_>>());
}

#[test]
fn mkv_keeps_subtitles_and_every_audio_track() {
    let args = args_of(Target::Av1Mkv);
    assert!(has_pair(&args, "-map", "0:a?"));
    assert!(has_pair(&args, "-map", "0:s?"));
    assert!(has_pair(&args, "-c:s", "copy"));
    assert!(has_pair(&args, "-map_metadata", "0"));
    // The AV1 MKV carries any audio as it is.
    assert!(has_pair(&args, "-c:a", "copy"));
}

#[test]
fn only_the_first_audio_track_when_not_keeping_all() {
    let mut s = Settings::default();
    s.keep_all_tracks = false;
    let args = build("/in/a.mov", "/out/a.mov", &info(), &s);
    assert!(has_pair(&args, "-map", "0:a:0?"));
    assert!(!args.iter().any(|a| a == "0:a?"));
}

#[test]
fn delivery_formats_pass_the_timing_through() {
    for t in [Target::Av1Mp4, Target::H264Mp4, Target::H265Mp4, Target::Av1Mkv] {
        assert!(has_pair(&args_of(t), "-fps_mode", "passthrough"), "{t:?}");
    }
    for t in [Target::DnxhrMov, Target::ProresMov, Target::UtvideoAvi, Target::Ffv1Mkv] {
        assert!(has_pair(&args_of(t), "-fps_mode", "cfr"), "{t:?}");
    }
}

#[test]
fn ten_bit_sources_stay_ten_bit() {
    let mut i = info();
    i.pix_fmt = "yuv422p10le".to_string();
    let mut s = Settings::default();
    s.target = Target::Av1Mp4;
    let args = build("/in/a.mov", "/out/a.mp4", &i, &s);
    assert!(has_pair(&args, "-pix_fmt", "yuv420p10le"));
    s.target = Target::H265Mp4;
    let args = build("/in/a.mov", "/out/a.mp4", &i, &s);
    assert!(has_pair(&args, "-pix_fmt", "yuv422p10le"));
    s.target = Target::DnxhrMov;
    s.profile = Profile::Hqx;
    let args = build("/in/a.mov", "/out/a.mov", &i, &s);
    assert!(has_pair(&args, "-pix_fmt", "yuv422p10le"));
    assert!(has_pair(&args, "-profile:v", "dnxhr_hqx"));
}

#[test]
fn ffv1_leaves_the_pixel_format_alone() {
    let args = args_of(Target::Ffv1Mkv);
    assert!(!args.iter().any(|a| a == "-pix_fmt"));
    assert!(has_pair(&args, "-c:v", "ffv1"));
    // Lossless archival audio: AAC does not fit, so FLAC.
    assert!(has_pair(&args, "-c:a", "flac"));
}

#[test]
fn quality_and_lossless_h265() {
    let mut s = Settings::default();
    s.target = Target::H265Mp4;
    s.quality = Quality::Lossless;
    let args = build("/in/a.mov", "/out/a.mp4", &info(), &s);
    assert!(has_pair(&args, "-crf", "0"));
    assert!(has_pair(&args, "-x265-params", "lossless=1"));
    assert!(has_pair(&args, "-tag:v", "hvc1"));
    assert!(has_pair(&args, "-movflags", "+faststart"));
}

#[test]
fn chosen_audio_codec_is_used_as_chosen() {
    let mut s = Settings::default();
    s.target = Target::H264Mp4;
    s.audio = Audio::Opus192;
    let args = build("/in/a.mov", "/out/a.mp4", &info(), &s);
    assert!(has_pair(&args, "-c:a", "libopus"));
    assert!(has_pair(&args, "-b:a", "192k"));
}

#[test]
fn silent_sources_get_no_audio_track() {
    let mut i = info();
    i.audio_codec = None;
    let args = build("/in/a.mov", "/out/a.mov", &i, &Settings::default());
    assert!(args.iter().any(|a| a == "-an"));
    assert!(!args.iter().any(|a| a == "-c:a"));
}

#[test]
fn mp4_re_encodes_audio_it_cannot_carry_losslessly() {
    let mut i = info();
    i.audio_codec = Some("pcm_s16le".to_string());
    let mut s = Settings::default();
    s.target = Target::H264Mp4;
    let args = build("/in/a.mov", "/out/a.mp4", &i, &s);
    // Lossless, never a lower bitrate: FLAC, which MP4 carries.
    assert!(has_pair(&args, "-c:a", "flac"));
    assert!(!args.iter().any(|a| a == "aac" || a == "-b:a"));
}

#[test]
fn extra_arguments_come_last_before_the_output() {
    let mut s = Settings::default();
    s.extra_args = "  -threads   4 ".to_string();
    let args = build("/in/a.mov", "/out/a.mov", &info(), &s);
    let n = args.len();
    assert_eq!(args[n - 3], "-threads");
    assert_eq!(args[n - 2], "4");
    assert_eq!(args[n - 1], "/out/a.mov");
}

#[test]
fn preview_quotes_arguments_with_spaces() {
    let p = preview("/in/my clip.mov", "/out/clip.mov", &info(), &Settings::default());
    assert!(p.starts_with("ffmpeg -hide_banner -nostdin"));
    assert!(p.contains(" -i '/in/my clip.mov' "));
    assert!(p.ends_with(" /out/clip.mov"));
}

#[test]
fn option_lists_and_labels() {
    assert_eq!(targets().len(), 8);
    assert_eq!(qualities().len(), 4);
    assert_eq!(profiles().len(), 4);
    assert_eq!(audios().len(), 7);
    assert_eq!(Target::DnxhrMov.label(), "DNxHR / MOV  —  DaVinci Resolve ready");
    assert_eq!(Target::Av1Mkv.ext(), "mkv");
    assert_eq!(Target::UtvideoAvi.ext(), "avi");
    assert_eq!(Target::H265Mp4.encoder(), "libx265");
    assert!(Target::Ffv1Mkv.is_lossless());
    assert!(Target::ProresMov.uses_profile());
    assert!(Target::H264Mp4.uses_quality());
    assert!(!Target::H264Mp4.for_editing());
    assert_eq!(Quality::VisuallyLossless.label(), "Visually lossless (recommended)");
    assert_eq!(Profile::Hq.label(Target::ProresMov), "ProRes 422 HQ (recommended)");
    assert_eq!(Profile::Hqx.label(Target::DnxhrMov), "DNxHR HQX (10-bit, HDR / log)");
    assert_eq!(Audio::Auto.label(), "Auto (copy untouched when the container allows)");
}

#[test]
fn default_settings_and_workers() {
    let s = Settings::default();
    assert_eq!(s.target, Target::DnxhrMov);
    assert_eq!(s.quality, Quality::VisuallyLossless);
    assert_eq!(s.profile, Profile::Hq);
    assert_eq!(s.audio, Audio::Auto);
    assert!(s.keep_all_tracks);
    assert!(!s.overwrite);
    assert_eq!(s.worker_count(), 1);
    let mut t = s.duplicate();
    t.concurrency = 0;
    assert_eq!(t.worker_count(), 1);
    t.concurrency = 6;
    assert_eq!(t.worker_count(), 6);
}

#[test]
fn switching_to_dnxhr_drops_a_prores_only_profile() {
    let mut s = Settings::default();
    s.target = Target::ProresMov;
    s.profile = Profile::Fourfourfour;
    let before = s.target;
    s.target = Target::DnxhrMov;
    s.settle_profile(before);
    assert_eq!(s.profile, Profile::Hq);
    // Staying on DNxHR keeps whatever was picked.
    s.profile = Profile::Fourfourfour;
    s.settle_profile(Target::DnxhrMov);
    assert_eq!(s.profile, Profile::Fourfourfour);
    // Other formats keep it too.
    let mut p = Settings::default();
    p.profile = Profile::Fourfourfour;
    p.target = Target::ProresMov;
    p.settle_profile(Target::DnxhrMov);
    assert_eq!(p.profile, Profile::Fourfourfour);
}

#[test]
fn hints_explain_each_format() {
    assert!(Target::DnxhrMov.hint().starts_with("Intra-frame DNxHR with PCM audio."));
    assert!(Target::Ffv1Mkv.hint().contains("archival"));
    for t in targets() {
        assert!(!t.hint().is_empty());
    }
}
