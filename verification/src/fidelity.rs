//! What every preset promises about the picture: no output ever resizes or
//! resamples it, or changes its frame rate, and what the source says about
//! itself is carried over.

use vstd::prelude::*;
use crate::media::{deep_pixels, info_matches, MediaInfo, Stream};
use crate::preset::{
    audio_args_of, build_args, chosen_pix_fmt, codec_args, colour_args, container_args,
    header_args, map_args, opt_pair, pixel_args, target_encoder, video_args_of, rate_args, pad_filter, needs_pad, resolved_audio,
    x26x_formats, utvideo_formats, mp4_audio_codecs, Settings, Target,
};
use crate::text::{contains, lemma_missing_char, lemma_occurs_contains, starts_with, words};

verus! {

/// An argument that would resize the picture or change its frame rate: an
/// explicit output size or rate, or a scale or fps filter.
pub open spec fn reshapes(a: Seq<char>) -> bool {
    a == "-s"@ || a == "-r"@ || contains(a, "scale="@) || contains(a, "fps="@)
}

/// No argument of `v` reshapes the picture.
pub open spec fn none_reshapes(v: Seq<Seq<char>>) -> bool {
    forall|k: int| 0 <= k < v.len() ==> !reshapes(#[trigger] v[k])
}

/// An argument without `=` that is not a two-letter `-s` / `-r` flag.
proof fn lemma_plain(x: Seq<char>)
    requires
        !x.contains('='),
        x.len() != 2 || (x[1] != 's' && x[1] != 'r'),
    ensures
        !reshapes(x),
{
    reveal_strlit("scale=");
    reveal_strlit("fps=");
    reveal_strlit("-s");
    reveal_strlit("-r");
    assert("scale="@[5] == '=');
    assert("fps="@[3] == '=');
    lemma_missing_char(x, "scale="@, '=');
    lemma_missing_char(x, "fps="@, '=');
    if x == "-s"@ {
        assert(x[1] == "-s"@[1]);
    }
    if x == "-r"@ {
        assert(x[1] == "-r"@[1]);
    }
}

/// A longer argument that lacks one letter of `scale=` and one of `fps=`.
proof fn lemma_plain_lacking(x: Seq<char>, a: char, b: char)
    requires
        x.len() > 2,
        a == 's' || a == 'c',
        b == 'f' || b == 'p',
        !x.contains(a),
        !x.contains(b),
    ensures
        !reshapes(x),
{
    reveal_strlit("scale=");
    reveal_strlit("fps=");
    reveal_strlit("-s");
    reveal_strlit("-r");
    if a == 's' {
        assert("scale="@[0] == a);
    } else {
        assert("scale="@[1] == a);
    }
    if b == 'f' {
        assert("fps="@[0] == b);
    } else {
        assert("fps="@[1] == b);
    }
    lemma_missing_char(x, "scale="@, a);
    lemma_missing_char(x, "fps="@, b);
}

proof fn lemma_header_plain()
    ensures
        none_reshapes(header_args()),
{
    reveal_strlit("-hide_banner");
    lemma_plain("-hide_banner"@);
    reveal_strlit("-nostdin");
    lemma_plain("-nostdin"@);
    reveal_strlit("-loglevel");
    lemma_plain("-loglevel"@);
    reveal_strlit("error");
    lemma_plain("error"@);
    reveal_strlit("-progress");
    lemma_plain("-progress"@);
    reveal_strlit("pipe:1");
    lemma_plain("pipe:1"@);
    reveal_strlit("-y");
    lemma_plain("-y"@);
    reveal_strlit("-i");
    lemma_plain("-i"@);
}

proof fn lemma_map_plain(s: Settings)
    ensures
        none_reshapes(map_args(s)),
{
    reveal_strlit("-map");
    lemma_plain("-map"@);
    reveal_strlit("0:v:0");
    lemma_plain("0:v:0"@);
    reveal_strlit("0:a?");
    lemma_plain("0:a?"@);
    reveal_strlit("0:s?");
    lemma_plain("0:s?"@);
    reveal_strlit("-c:s");
    lemma_plain("-c:s"@);
    reveal_strlit("copy");
    lemma_plain("copy"@);
    reveal_strlit("0:a:0?");
    lemma_plain("0:a:0?"@);
    reveal_strlit("-map_metadata");
    lemma_plain("-map_metadata"@);
    reveal_strlit("0");
    lemma_plain("0"@);
}

proof fn lemma_codec_words_plain()
    ensures
        !reshapes("-c:v"@),
        !reshapes("-profile:v"@),
        !reshapes("-preset"@),
        !reshapes("-crf"@),
        !reshapes("0"@),
        !reshapes("1"@),
        !reshapes("3"@),
{
    reveal_strlit("-c:v");
    lemma_plain("-c:v"@);
    reveal_strlit("-profile:v");
    lemma_plain("-profile:v"@);
    reveal_strlit("-preset");
    lemma_plain("-preset"@);
    reveal_strlit("-crf");
    lemma_plain("-crf"@);
    reveal_strlit("0");
    lemma_plain("0"@);
    reveal_strlit("1");
    lemma_plain("1"@);
    reveal_strlit("3");
    lemma_plain("3"@);
}

proof fn lemma_intra_codecs_plain(s: Settings)
    requires
        s.target is DnxhrMov || s.target is ProresMov || s.target is UtvideoAvi || s.target is Ffv1Mkv,
    ensures
        none_reshapes(codec_args(s)),
{
    lemma_codec_words_plain();
    match s.target {
        Target::DnxhrMov => {
            reveal_strlit("dnxhd");
            lemma_plain("dnxhd"@);
            reveal_strlit("dnxhr_sq");
            lemma_plain("dnxhr_sq"@);
            reveal_strlit("dnxhr_hq");
            lemma_plain("dnxhr_hq"@);
            reveal_strlit("dnxhr_hqx");
            lemma_plain("dnxhr_hqx"@);
            reveal_strlit("dnxhr_444");
            lemma_plain("dnxhr_444"@);
        },
        Target::ProresMov => {
            reveal_strlit("prores_ks");
            lemma_plain("prores_ks"@);
            reveal_strlit("2");
            lemma_plain("2"@);
            reveal_strlit("4");
            lemma_plain("4"@);
            reveal_strlit("5");
            lemma_plain("5"@);
            reveal_strlit("-vendor");
            lemma_plain("-vendor"@);
            reveal_strlit("apl0");
            lemma_plain("apl0"@);
            reveal_strlit("-qscale:v");
            lemma_plain("-qscale:v"@);
        },
        Target::UtvideoAvi => {
            reveal_strlit("utvideo");
            lemma_plain("utvideo"@);
            reveal_strlit("-pred");
            lemma_plain("-pred"@);
            reveal_strlit("median");
            lemma_plain("median"@);
        },
        _ => {
            reveal_strlit("ffv1");
            lemma_plain("ffv1"@);
            reveal_strlit("-level");
            lemma_plain("-level"@);
            reveal_strlit("-coder");
            lemma_plain("-coder"@);
            reveal_strlit("-context");
            lemma_plain("-context"@);
            reveal_strlit("-g");
            lemma_plain("-g"@);
            reveal_strlit("-slices");
            lemma_plain("-slices"@);
            reveal_strlit("24");
            lemma_plain("24"@);
            reveal_strlit("-slicecrc");
            lemma_plain("-slicecrc"@);
        },
    }
}

proof fn lemma_long_gop_codecs_plain(s: Settings)
    requires
        s.target is Av1Mp4 || s.target is Av1Mkv || s.target is H264Mp4 || s.target is H265Mp4,
    ensures
        none_reshapes(codec_args(s)),
{
    lemma_codec_words_plain();
    reveal_strlit("18");
    lemma_plain("18"@);
    match s.target {
        Target::Av1Mp4 | Target::Av1Mkv => {
            reveal_strlit("libsvtav1");
            lemma_plain("libsvtav1"@);
            reveal_strlit("6");
            lemma_plain("6"@);
            reveal_strlit("24");
            lemma_plain("24"@);
            reveal_strlit("30");
            lemma_plain("30"@);
            reveal_strlit("-svtav1-params");
            lemma_plain("-svtav1-params"@);
            reveal_strlit("tune=0:film-grain=0");
            lemma_plain_lacking("tune=0:film-grain=0"@, 's', 'p');
        },
        Target::H264Mp4 => {
            reveal_strlit("libx264");
            lemma_plain("libx264"@);
            reveal_strlit("slow");
            lemma_plain("slow"@);
            reveal_strlit("16");
            lemma_plain("16"@);
            reveal_strlit("21");
            lemma_plain("21"@);
        },
        _ => {
            reveal_strlit("libx265");
            lemma_plain("libx265"@);
            reveal_strlit("slow");
            lemma_plain("slow"@);
            reveal_strlit("20");
            lemma_plain("20"@);
            reveal_strlit("23");
            lemma_plain("23"@);
            reveal_strlit("-x265-params");
            lemma_plain("-x265-params"@);
            reveal_strlit("lossless=1");
            lemma_plain_lacking("lossless=1"@, 'c', 'f');
            reveal_strlit("-tag:v");
            lemma_plain("-tag:v"@);
            reveal_strlit("hvc1");
            lemma_plain("hvc1"@);
            assert(none_reshapes(seq!["-x265-params"@, "lossless=1"@]));
            assert(none_reshapes(seq!["-tag:v"@, "hvc1"@]));
        },
    }
}

proof fn lemma_join(a: Seq<Seq<char>>, b: Seq<Seq<char>>)
    requires
        none_reshapes(a),
        none_reshapes(b),
    ensures
        none_reshapes(a + b),
{
    assert forall|k: int| 0 <= k < (a + b).len() implies !reshapes(#[trigger] (a + b)[k]) by {
        if k < a.len() {
            assert((a + b)[k] == a[k]);
        } else {
            assert((a + b)[k] == b[k - a.len()]);
        }
    }
}

/// A colour tag the source reports, if any, that does not reshape.
pub open spec fn tag_plain(v: Option<String>) -> bool {
    match v {
        Some(x) => !reshapes(x@),
        None => true,
    }
}

proof fn lemma_colour_plain(info: MediaInfo)
    requires
        tag_plain(info.color_primaries),
        tag_plain(info.color_transfer),
        tag_plain(info.color_space),
        tag_plain(info.color_range),
    ensures
        none_reshapes(colour_args(info)),
{
    reveal_strlit("-color_primaries");
    lemma_plain("-color_primaries"@);
    reveal_strlit("-color_trc");
    lemma_plain("-color_trc"@);
    reveal_strlit("-colorspace");
    lemma_plain("-colorspace"@);
    reveal_strlit("-color_range");
    lemma_plain("-color_range"@);
    let a = crate::preset::opt_pair("-color_primaries"@, info.color_primaries);
    let b = crate::preset::opt_pair("-color_trc"@, info.color_transfer);
    let c = crate::preset::opt_pair("-colorspace"@, info.color_space);
    let d = crate::preset::opt_pair("-color_range"@, info.color_range);
    assert(none_reshapes(a));
    assert(none_reshapes(b));
    assert(none_reshapes(c));
    assert(none_reshapes(d));
    lemma_join(a, b);
    lemma_join(a + b, c);
    lemma_join(a + b + c, d);
}

proof fn lemma_formats_plain()
    ensures
        none_reshapes(x26x_formats()),
        none_reshapes(utvideo_formats()),
        !reshapes("yuv422p"@),
        !reshapes("yuv422p10le"@),
        !reshapes("yuv444p10le"@),
        !reshapes("yuva444p10le"@),
        !reshapes("yuv420p10le"@),
        !reshapes("yuv420p"@),
{
    reveal_strlit("yuv420p");
    lemma_plain("yuv420p"@);
    reveal_strlit("yuv422p");
    lemma_plain("yuv422p"@);
    reveal_strlit("yuv444p");
    lemma_plain("yuv444p"@);
    reveal_strlit("yuv420p10le");
    lemma_plain("yuv420p10le"@);
    reveal_strlit("yuv422p10le");
    lemma_plain("yuv422p10le"@);
    reveal_strlit("yuv444p10le");
    lemma_plain("yuv444p10le"@);
    reveal_strlit("yuva444p10le");
    lemma_plain("yuva444p10le"@);
    reveal_strlit("gbrp");
    lemma_plain("gbrp"@);
}

proof fn lemma_pixel_plain(s: Settings, info: MediaInfo)
    ensures
        none_reshapes(pixel_args(s, info)),
{
    lemma_formats_plain();
    reveal_strlit("-vf");
    lemma_plain("-vf"@);
    reveal_strlit("-pix_fmt");
    lemma_plain("-pix_fmt"@);
    reveal_strlit("pad=ceil(iw/2)*2:ceil(ih/2)*2");
    lemma_plain_lacking(pad_filter(), 's', 'f');
    match chosen_pix_fmt(s, info) {
        None => {},
        Some(pf) => {
            if x26x_formats().contains(pf) {
                let k = choose|k: int| 0 <= k < x26x_formats().len() && x26x_formats()[k] == pf;
                assert(!reshapes(x26x_formats()[k]));
            }
            if utvideo_formats().contains(pf) {
                let k = choose|k: int| 0 <= k < utvideo_formats().len() && utvideo_formats()[k] == pf;
                assert(!reshapes(utvideo_formats()[k]));
            }
            assert(!reshapes(pf));
            let pad = if needs_pad(pf, info) {
                seq!["-vf"@, pad_filter()]
            } else {
                Seq::<Seq<char>>::empty()
            };
            assert(none_reshapes(pad));
            assert(none_reshapes(seq!["-pix_fmt"@, pf]));
            lemma_join(pad, seq!["-pix_fmt"@, pf]);
        },
    }
}

proof fn lemma_tail_plain(s: Settings, info: MediaInfo)
    ensures
        none_reshapes(rate_args(s)),
        none_reshapes(audio_args_of(s, info)),
        none_reshapes(container_args(s)),
{
    reveal_strlit("-fps_mode");
    lemma_plain("-fps_mode"@);
    reveal_strlit("cfr");
    lemma_plain("cfr"@);
    reveal_strlit("passthrough");
    lemma_plain("passthrough"@);
    reveal_strlit("-an");
    lemma_plain("-an"@);
    reveal_strlit("-c:a");
    lemma_plain("-c:a"@);
    reveal_strlit("copy");
    lemma_plain("copy"@);
    reveal_strlit("pcm_s16le");
    lemma_plain("pcm_s16le"@);
    reveal_strlit("pcm_s24le");
    lemma_plain("pcm_s24le"@);
    reveal_strlit("flac");
    lemma_plain("flac"@);
    reveal_strlit("aac");
    lemma_plain("aac"@);
    reveal_strlit("-b:a");
    lemma_plain("-b:a"@);
    reveal_strlit("320k");
    lemma_plain("320k"@);
    reveal_strlit("libopus");
    lemma_plain("libopus"@);
    reveal_strlit("192k");
    lemma_plain("192k"@);
    reveal_strlit("-movflags");
    lemma_plain("-movflags"@);
    reveal_strlit("+faststart");
    lemma_plain("+faststart"@);
}

/// Never resize, never resample, never change the frame rate: no argument
/// the library chooses sets an output size or rate (`-s`, `-r`) or names a
/// scale or fps filter. Only the paths, the colour tags copied from the
/// source and the user's own extra arguments are handed through as they are,
/// so whenever none of those asks for it, the whole invocation does not.
pub proof fn lemma_never_reshapes(input: Seq<char>, output: Seq<char>, info: MediaInfo, s: Settings)
    requires
        !reshapes(input),
        !reshapes(output),
        none_reshapes(words(s.extra_args@)),
        tag_plain(info.color_primaries),
        tag_plain(info.color_transfer),
        tag_plain(info.color_space),
        tag_plain(info.color_range),
    ensures
        none_reshapes(build_args(input, output, info, s)),
{
    lemma_header_plain();
    lemma_map_plain(s);
    if s.target is DnxhrMov || s.target is ProresMov || s.target is UtvideoAvi || s.target is Ffv1Mkv {
        lemma_intra_codecs_plain(s);
    } else {
        lemma_long_gop_codecs_plain(s);
    }
    lemma_colour_plain(info);
    lemma_pixel_plain(s, info);
    lemma_tail_plain(s, info);
    assert(none_reshapes(seq![input]));
    assert(none_reshapes(seq![output]));
    let h = header_args() + seq![input];
    lemma_join(header_args(), seq![input]);
    lemma_join(h, map_args(s));
    lemma_join(codec_args(s), colour_args(info));
    lemma_join(h + map_args(s), crate::preset::video_args_of(s, info));
    let v = h + map_args(s) + crate::preset::video_args_of(s, info);
    lemma_join(v, pixel_args(s, info));
    lemma_join(v + pixel_args(s, info), rate_args(s));
    let w = v + pixel_args(s, info) + rate_args(s);
    lemma_join(w, audio_args_of(s, info));
    lemma_join(w + audio_args_of(s, info), container_args(s));
    let x = w + audio_args_of(s, info) + container_args(s);
    lemma_join(x, words(s.extra_args@));
    lemma_join(x + words(s.extra_args@), seq![output]);
}

/// `a` directly followed by `b` somewhere in `args`.
pub open spec fn adjacent(args: Seq<Seq<char>>, a: Seq<char>, b: Seq<char>) -> bool {
    exists|k: int| 0 <= k && k + 1 < args.len() && #[trigger] args[k] == a && args[k + 1] == b
}

proof fn lemma_adjacent_left(pre: Seq<Seq<char>>, v: Seq<Seq<char>>, a: Seq<char>, b: Seq<char>)
    requires
        adjacent(v, a, b),
    ensures
        adjacent(pre + v, a, b),
{
    let k = choose|k: int| 0 <= k && k + 1 < v.len() && #[trigger] v[k] == a && v[k + 1] == b;
    assert((pre + v)[pre.len() + k] == a);
    assert((pre + v)[pre.len() + k + 1] == b);
}

proof fn lemma_adjacent_right(v: Seq<Seq<char>>, post: Seq<Seq<char>>, a: Seq<char>, b: Seq<char>)
    requires
        adjacent(v, a, b),
    ensures
        adjacent(v + post, a, b),
{
    let k = choose|k: int| 0 <= k && k + 1 < v.len() && #[trigger] v[k] == a && v[k + 1] == b;
    assert((v + post)[k] == a);
    assert((v + post)[k + 1] == b);
}

proof fn lemma_adjacent_pair(a: Seq<char>, b: Seq<char>)
    ensures
        adjacent(seq![a, b], a, b),
{
    assert(seq![a, b][0] == a);
}

/// A pair found in the audio part is found in the whole list.
proof fn lemma_in_audio(input: Seq<char>, output: Seq<char>, info: MediaInfo, s: Settings, a: Seq<char>, b: Seq<char>)
    requires
        adjacent(audio_args_of(s, info), a, b),
    ensures
        adjacent(build_args(input, output, info, s), a, b),
{
    let x = header_args() + seq![input] + map_args(s) + crate::preset::video_args_of(s, info)
        + pixel_args(s, info) + rate_args(s);
    lemma_adjacent_left(x, audio_args_of(s, info), a, b);
    lemma_adjacent_right(x + audio_args_of(s, info), container_args(s), a, b);
    lemma_adjacent_right(x + audio_args_of(s, info) + container_args(s), words(s.extra_args@), a, b);
    lemma_adjacent_right(
        x + audio_args_of(s, info) + container_args(s) + words(s.extra_args@),
        seq![output],
        a,
        b,
    );
}

/// A pair found in the frame-rate part is found in the whole list.
proof fn lemma_in_rate(input: Seq<char>, output: Seq<char>, info: MediaInfo, s: Settings, a: Seq<char>, b: Seq<char>)
    requires
        adjacent(rate_args(s), a, b),
    ensures
        adjacent(build_args(input, output, info, s), a, b),
{
    let x = header_args() + seq![input] + map_args(s) + crate::preset::video_args_of(s, info)
        + pixel_args(s, info);
    lemma_adjacent_left(x, rate_args(s), a, b);
    let y = x + rate_args(s);
    lemma_adjacent_right(y, audio_args_of(s, info), a, b);
    lemma_adjacent_right(y + audio_args_of(s, info), container_args(s), a, b);
    lemma_adjacent_right(y + audio_args_of(s, info) + container_args(s), words(s.extra_args@), a, b);
    lemma_adjacent_right(
        y + audio_args_of(s, info) + container_args(s) + words(s.extra_args@),
        seq![output],
        a,
        b,
    );
}

/// A pair found in the pixel part is found in the whole list.
proof fn lemma_in_pixel(input: Seq<char>, output: Seq<char>, info: MediaInfo, s: Settings, a: Seq<char>, b: Seq<char>)
    requires
        adjacent(pixel_args(s, info), a, b),
    ensures
        adjacent(build_args(input, output, info, s), a, b),
{
    let x = header_args() + seq![input] + map_args(s) + crate::preset::video_args_of(s, info);
    lemma_adjacent_left(x, pixel_args(s, info), a, b);
    let y = x + pixel_args(s, info);
    lemma_adjacent_right(y, rate_args(s), a, b);
    lemma_adjacent_right(y + rate_args(s), audio_args_of(s, info), a, b);
    lemma_adjacent_right(y + rate_args(s) + audio_args_of(s, info), container_args(s), a, b);
    lemma_adjacent_right(
        y + rate_args(s) + audio_args_of(s, info) + container_args(s),
        words(s.extra_args@),
        a,
        b,
    );
    lemma_adjacent_right(
        y + rate_args(s) + audio_args_of(s, info) + container_args(s) + words(s.extra_args@),
        seq![output],
        a,
        b,
    );
}

/// A pair found in the video part is found in the whole list.
proof fn lemma_in_video(input: Seq<char>, output: Seq<char>, info: MediaInfo, s: Settings, a: Seq<char>, b: Seq<char>)
    requires
        adjacent(crate::preset::video_args_of(s, info), a, b),
    ensures
        adjacent(build_args(input, output, info, s), a, b),
{
    let x = header_args() + seq![input] + map_args(s);
    let v = crate::preset::video_args_of(s, info);
    lemma_adjacent_left(x, v, a, b);
    let y = x + v;
    lemma_adjacent_right(y, pixel_args(s, info), a, b);
    lemma_adjacent_right(y + pixel_args(s, info), rate_args(s), a, b);
    lemma_adjacent_right(y + pixel_args(s, info) + rate_args(s), audio_args_of(s, info), a, b);
    lemma_adjacent_right(
        y + pixel_args(s, info) + rate_args(s) + audio_args_of(s, info),
        container_args(s),
        a,
        b,
    );
    lemma_adjacent_right(
        y + pixel_args(s, info) + rate_args(s) + audio_args_of(s, info) + container_args(s),
        words(s.extra_args@),
        a,
        b,
    );
    lemma_adjacent_right(
        y + pixel_args(s, info) + rate_args(s) + audio_args_of(s, info) + container_args(s) + words(
            s.extra_args@,
        ),
        seq![output],
        a,
        b,
    );
}

/// A pair found in the stream selection is found in the whole list.
proof fn lemma_in_map(input: Seq<char>, output: Seq<char>, info: MediaInfo, s: Settings, a: Seq<char>, b: Seq<char>)
    requires
        adjacent(map_args(s), a, b),
    ensures
        adjacent(build_args(input, output, info, s), a, b),
{
    let x = header_args() + seq![input];
    lemma_adjacent_left(x, map_args(s), a, b);
    let y = x + map_args(s);
    let v = crate::preset::video_args_of(s, info);
    lemma_adjacent_right(y, v, a, b);
    lemma_adjacent_right(y + v, pixel_args(s, info), a, b);
    lemma_adjacent_right(y + v + pixel_args(s, info), rate_args(s), a, b);
    lemma_adjacent_right(y + v + pixel_args(s, info) + rate_args(s), audio_args_of(s, info), a, b);
    lemma_adjacent_right(
        y + v + pixel_args(s, info) + rate_args(s) + audio_args_of(s, info),
        container_args(s),
        a,
        b,
    );
    lemma_adjacent_right(
        y + v + pixel_args(s, info) + rate_args(s) + audio_args_of(s, info) + container_args(s),
        words(s.extra_args@),
        a,
        b,
    );
    lemma_adjacent_right(
        y + v + pixel_args(s, info) + rate_args(s) + audio_args_of(s, info) + container_args(s)
            + words(s.extra_args@),
        seq![output],
        a,
        b,
    );
}

/// Colour is carried over: each colour tag the source reports (primaries,
/// transfer, matrix, range) is written to the output under its ffmpeg flag.
pub proof fn lemma_colour_tags_follow_source(
    input: Seq<char>,
    output: Seq<char>,
    info: MediaInfo,
    s: Settings,
)
    ensures
        info.color_primaries matches Some(v) ==> adjacent(
            build_args(input, output, info, s),
            "-color_primaries"@,
            v@,
        ),
        info.color_transfer matches Some(v) ==> adjacent(
            build_args(input, output, info, s),
            "-color_trc"@,
            v@,
        ),
        info.color_space matches Some(v) ==> adjacent(
            build_args(input, output, info, s),
            "-colorspace"@,
            v@,
        ),
        info.color_range matches Some(v) ==> adjacent(
            build_args(input, output, info, s),
            "-color_range"@,
            v@,
        ),
{
    let a = crate::preset::opt_pair("-color_primaries"@, info.color_primaries);
    let b = crate::preset::opt_pair("-color_trc"@, info.color_transfer);
    let c = crate::preset::opt_pair("-colorspace"@, info.color_space);
    let d = crate::preset::opt_pair("-color_range"@, info.color_range);
    let code = codec_args(s);
    if let Some(v) = info.color_primaries {
        lemma_adjacent_pair("-color_primaries"@, v@);
        lemma_adjacent_right(a, b, "-color_primaries"@, v@);
        lemma_adjacent_right(a + b, c, "-color_primaries"@, v@);
        lemma_adjacent_right(a + b + c, d, "-color_primaries"@, v@);
        lemma_adjacent_left(code, colour_args(info), "-color_primaries"@, v@);
        lemma_in_video(input, output, info, s, "-color_primaries"@, v@);
    }
    if let Some(v) = info.color_transfer {
        lemma_adjacent_pair("-color_trc"@, v@);
        lemma_adjacent_left(a, b, "-color_trc"@, v@);
        lemma_adjacent_right(a + b, c, "-color_trc"@, v@);
        lemma_adjacent_right(a + b + c, d, "-color_trc"@, v@);
        lemma_adjacent_left(code, colour_args(info), "-color_trc"@, v@);
        lemma_in_video(input, output, info, s, "-color_trc"@, v@);
    }
    if let Some(v) = info.color_space {
        lemma_adjacent_pair("-colorspace"@, v@);
        lemma_adjacent_left(a + b, c, "-colorspace"@, v@);
        lemma_adjacent_right(a + b + c, d, "-colorspace"@, v@);
        lemma_adjacent_left(code, colour_args(info), "-colorspace"@, v@);
        lemma_in_video(input, output, info, s, "-colorspace"@, v@);
    }
    if let Some(v) = info.color_range {
        lemma_adjacent_pair("-color_range"@, v@);
        lemma_adjacent_left(a + b + c, d, "-color_range"@, v@);
        lemma_adjacent_left(code, colour_args(info), "-color_range"@, v@);
        lemma_in_video(input, output, info, s, "-color_range"@, v@);
    }
}

/// The CRF an encoder is given sits right behind `-crf` in its part of the
/// list; that pair is found in the whole invocation.
proof fn lemma_crf_pair(input: Seq<char>, output: Seq<char>, info: MediaInfo, s: Settings, crf: Seq<char>)
    requires
        s.target is Av1Mp4 || s.target is Av1Mkv || s.target is H264Mp4 || s.target is H265Mp4,
        codec_args(s)[4] == "-crf"@,
        codec_args(s)[5] == crf,
        codec_args(s).len() > 5,
    ensures
        adjacent(build_args(input, output, info, s), "-crf"@, crf),
{
    let c = codec_args(s);
    assert(c[4int] == "-crf"@ && c[5int] == crf);
    assert(adjacent(c, "-crf"@, crf));
    lemma_adjacent_right(c, colour_args(info), "-crf"@, crf);
    lemma_in_video(input, output, info, s, "-crf"@, crf);
}

/// Each quality setting gives the encoder its documented constant rate
/// factor: H.264 0 / 16 / 18 / 21, H.265 0 / 18 / 20 / 23 and AV1
/// 0 / 18 / 24 / 30 for lossless, visually lossless, high and balanced; a
/// lossless H.265 encode also switches x265 to its lossless mode.
pub proof fn lemma_quality_sets_crf(input: Seq<char>, output: Seq<char>, info: MediaInfo, s: Settings)
    ensures
        s.target is H264Mp4 ==> adjacent(
            build_args(input, output, info, s),
            "-crf"@,
            if s.quality is Lossless {
                "0"@
            } else if s.quality is VisuallyLossless {
                "16"@
            } else if s.quality is High {
                "18"@
            } else {
                "21"@
            },
        ),
        s.target is H265Mp4 ==> adjacent(
            build_args(input, output, info, s),
            "-crf"@,
            if s.quality is Lossless {
                "0"@
            } else if s.quality is VisuallyLossless {
                "18"@
            } else if s.quality is High {
                "20"@
            } else {
                "23"@
            },
        ),
        s.target is Av1Mp4 || s.target is Av1Mkv ==> adjacent(
            build_args(input, output, info, s),
            "-crf"@,
            if s.quality is Lossless {
                "0"@
            } else if s.quality is VisuallyLossless {
                "18"@
            } else if s.quality is High {
                "24"@
            } else {
                "30"@
            },
        ),
        s.target is H265Mp4 && s.quality is Lossless ==> adjacent(
            build_args(input, output, info, s),
            "-x265-params"@,
            "lossless=1"@,
        ),
{
    let c = codec_args(s);
    if s.target is Av1Mp4 || s.target is Av1Mkv || s.target is H264Mp4 || s.target is H265Mp4 {
        lemma_crf_pair(input, output, info, s, c[5]);
    }
    if s.target is H265Mp4 && s.quality is Lossless {
        let x = seq!["-x265-params"@, "lossless=1"@];
        let a = c.take(6);
        assert(c =~= a + x + seq!["-tag:v"@, "hvc1"@]);
        lemma_adjacent_pair("-x265-params"@, "lossless=1"@);
        lemma_adjacent_left(a, x, "-x265-params"@, "lossless=1"@);
        lemma_adjacent_right(a + x, seq!["-tag:v"@, "hvc1"@], "-x265-params"@, "lossless=1"@);
        lemma_adjacent_right(c, colour_args(info), "-x265-params"@, "lossless=1"@);
        lemma_in_video(input, output, info, s, "-x265-params"@, "lossless=1"@);
    }
}

/// Lossless means lossless: whichever of AV1, H.264 and H.265 encodes it, a
/// lossless choice hands the encoder a CRF of 0.
pub proof fn lemma_lossless_crf_zero(input: Seq<char>, output: Seq<char>, info: MediaInfo, s: Settings)
    requires
        s.target is Av1Mp4 || s.target is Av1Mkv || s.target is H264Mp4 || s.target is H265Mp4,
        s.quality is Lossless,
    ensures
        adjacent(build_args(input, output, info, s), "-crf"@, "0"@),
{
    lemma_quality_sets_crf(input, output, info, s);
}

/// A colour tag that says something: ffprobe's empty, `unknown` and
/// `reserved` do not.
pub open spec fn informative(t: Seq<char>) -> bool {
    t.len() > 0 && t != "unknown"@ && t != "reserved"@
}

/// The colour description read off the source's video stream reaches the
/// output unscrambled: each tag ffprobe reports there that says something is
/// written under the ffmpeg flag of its own field (primaries under
/// `-color_primaries`, transfer under `-color_trc`, matrix under
/// `-colorspace`, range under `-color_range`).
pub proof fn lemma_probed_colours_written(
    v: Stream,
    audio: Option<String>,
    info: MediaInfo,
    input: Seq<char>,
    output: Seq<char>,
    s: Settings,
)
    requires
        info_matches(info, v, audio),
    ensures
        v.color_primaries matches Some(t) ==> informative(t@) ==> adjacent(
            build_args(input, output, info, s),
            "-color_primaries"@,
            t@,
        ),
        v.color_transfer matches Some(t) ==> informative(t@) ==> adjacent(
            build_args(input, output, info, s),
            "-color_trc"@,
            t@,
        ),
        v.color_space matches Some(t) ==> informative(t@) ==> adjacent(
            build_args(input, output, info, s),
            "-colorspace"@,
            t@,
        ),
        v.color_range matches Some(t) ==> informative(t@) ==> adjacent(
            build_args(input, output, info, s),
            "-color_range"@,
            t@,
        ),
{
    lemma_colour_tags_follow_source(input, output, info, s);
}

/// Odd dimensions are padded, never scaled: when the chosen pixel format
/// subsamples chroma in a direction the picture has an odd size in, the
/// output carries the filter that pads it by one pixel to even dimensions.
pub proof fn lemma_odd_dimensions_padded(
    input: Seq<char>,
    output: Seq<char>,
    info: MediaInfo,
    s: Settings,
)
    ensures
        chosen_pix_fmt(s, info) matches Some(pf) && needs_pad(pf, info) ==> adjacent(
            build_args(input, output, info, s),
            "-vf"@,
            pad_filter(),
        ),
{
    if let Some(pf) = chosen_pix_fmt(s, info) {
        if needs_pad(pf, info) {
            lemma_adjacent_pair("-vf"@, pad_filter());
            lemma_adjacent_right(seq!["-vf"@, pad_filter()], seq!["-pix_fmt"@, pf], "-vf"@, pad_filter());
            assert(seq!["-vf"@, pad_filter()] + seq!["-pix_fmt"@, pf] == pixel_args(s, info));
            lemma_in_pixel(input, output, info, s, "-vf"@, pad_filter());
        }
    }
}

/// Editing formats are written at a constant frame rate, so timelines stay in
/// sync with variable-rate recordings; every other format passes the source's
/// timing through as it is.
pub proof fn lemma_frame_rate_mode(input: Seq<char>, output: Seq<char>, info: MediaInfo, s: Settings)
    ensures
        adjacent(
            build_args(input, output, info, s),
            "-fps_mode"@,
            if crate::preset::editing_target(s.target) {
                "cfr"@
            } else {
                "passthrough"@
            },
        ),
{
    let m = if crate::preset::editing_target(s.target) {
        "cfr"@
    } else {
        "passthrough"@
    };
    lemma_adjacent_pair("-fps_mode"@, m);
    lemma_in_rate(input, output, info, s, "-fps_mode"@, m);
}

/// Every track is kept: with "keep all tracks" set, every audio track is
/// mapped, and subtitles too where the container (MKV) can carry them; the
/// file's metadata always is.
pub proof fn lemma_tracks_kept(input: Seq<char>, output: Seq<char>, info: MediaInfo, s: Settings)
    ensures
        s.keep_all_tracks ==> adjacent(build_args(input, output, info, s), "-map"@, "0:a?"@),
        s.keep_all_tracks && crate::preset::subtitle_target(s.target) ==> adjacent(
            build_args(input, output, info, s),
            "-map"@,
            "0:s?"@,
        ),
        adjacent(build_args(input, output, info, s), "-map_metadata"@, "0"@),
{
    let head = seq!["-map"@, "0:v:0"@];
    let tail = seq!["-map_metadata"@, "0"@];
    let subs = if crate::preset::subtitle_target(s.target) {
        seq!["-map"@, "0:s?"@, "-c:s"@, "copy"@]
    } else {
        Seq::<Seq<char>>::empty()
    };
    let audio = if s.keep_all_tracks {
        seq!["-map"@, "0:a?"@] + subs
    } else {
        seq!["-map"@, "0:a:0?"@]
    };
    assert(map_args(s) == head + audio + tail);
    if s.keep_all_tracks {
        lemma_adjacent_pair("-map"@, "0:a?"@);
        lemma_adjacent_right(seq!["-map"@, "0:a?"@], subs, "-map"@, "0:a?"@);
        lemma_adjacent_left(head, audio, "-map"@, "0:a?"@);
        lemma_adjacent_right(head + audio, tail, "-map"@, "0:a?"@);
        lemma_in_map(input, output, info, s, "-map"@, "0:a?"@);
        if crate::preset::subtitle_target(s.target) {
            assert(subs[0] == "-map"@);
            assert(adjacent(subs, "-map"@, "0:s?"@));
            lemma_adjacent_left(seq!["-map"@, "0:a?"@], subs, "-map"@, "0:s?"@);
            lemma_adjacent_left(head, audio, "-map"@, "0:s?"@);
            lemma_adjacent_right(head + audio, tail, "-map"@, "0:s?"@);
            lemma_in_map(input, output, info, s, "-map"@, "0:s?"@);
        }
    }
    lemma_adjacent_pair("-map_metadata"@, "0"@);
    lemma_adjacent_left(head + audio, tail, "-map_metadata"@, "0"@);
    lemma_in_map(input, output, info, s, "-map_metadata"@, "0"@);
}

/// Source audio that a target's container carries as it is: PCM in MOV and
/// AVI; PCM, FLAC and ALAC in the FFV1 MKV; anything in the AV1 MKV; the
/// usual delivery codecs in MP4.
pub open spec fn container_carries(t: Target, codec: Seq<char>) -> bool {
    match t {
        Target::DnxhrMov | Target::ProresMov | Target::UtvideoAvi => starts_with(codec, "pcm_"@),
        Target::Ffv1Mkv => starts_with(codec, "pcm_"@) || codec == "flac"@ || codec == "alac"@,
        Target::Av1Mkv => true,
        Target::Av1Mp4 | Target::H264Mp4 | Target::H265Mp4 => mp4_audio_codecs().contains(codec),
    }
}

/// The source has audio, and its codec meets `p`.
pub open spec fn source_audio(info: MediaInfo, p: spec_fn(Seq<char>) -> bool) -> bool {
    match info.audio_codec {
        Some(c) => p(c@),
        None => false,
    }
}

/// A pixel format is asked for, and it has more than eight bits per sample.
pub open spec fn writes_deep(pf: Option<Seq<char>>) -> bool {
    match pf {
        Some(f) => deep_pixels(f),
        None => false,
    }
}

/// What `Auto` encodes to when the container cannot carry the source audio:
/// always lossless, uncompressed 24-bit PCM for the editing formats, FLAC for
/// the archival MKV and for MP4.
pub open spec fn fallback_audio_codec(t: Target) -> Seq<char> {
    match t {
        Target::Ffv1Mkv | Target::Av1Mp4 | Target::H264Mp4 | Target::H265Mp4 => "flac"@,
        _ => "pcm_s24le"@,
    }
}

/// Audio is copied untouched whenever the container allows it, and otherwise
/// (with `Auto`) encoded losslessly, to PCM or FLAC; a chosen codec is used
/// as chosen.
pub proof fn lemma_audio_copied_when_carried(
    input: Seq<char>,
    output: Seq<char>,
    info: MediaInfo,
    s: Settings,
)
    ensures
        s.audio is Auto && source_audio(info, |c: Seq<char>| container_carries(s.target, c))
            ==> adjacent(build_args(input, output, info, s), "-c:a"@, "copy"@),
        s.audio is Auto && source_audio(info, |c: Seq<char>| !container_carries(s.target, c))
            ==> adjacent(build_args(input, output, info, s), "-c:a"@, fallback_audio_codec(s.target)),
        s.audio is Copy && info.audio_codec is Some ==> adjacent(
            build_args(input, output, info, s),
            "-c:a"@,
            "copy"@,
        ),
{
    if let Some(c) = info.audio_codec {
        let a = audio_args_of(s, info);
        if s.audio is Auto || s.audio is Copy {
            assert(a[0] == "-c:a"@);
            let m = a[1];
            assert(adjacent(a, "-c:a"@, m));
            lemma_in_audio(input, output, info, s, "-c:a"@, m);
            if s.audio is Auto {
                if container_carries(s.target, c@) {
                    assert(resolved_audio(s, c@) is Copy);
                } else {
                    assert(!(resolved_audio(s, c@) is Copy));
                }
            }
        }
    }
}

/// A 10-bit source stays 10-bit wherever the codec can hold it: ProRes
/// always writes 10-bit, AV1, H.264 and H.265 keep a deep source deep, the
/// deep DNxHR profiles are 10-bit, and FFV1 keeps the source's own format.
pub proof fn lemma_bit_depth_kept(s: Settings, info: MediaInfo)
    ensures
        s.target is ProresMov ==> writes_deep(chosen_pix_fmt(s, info)),
        info.ten_bit() && (s.target is Av1Mp4 || s.target is Av1Mkv || s.target is H264Mp4
            || s.target is H265Mp4) ==> writes_deep(chosen_pix_fmt(s, info)),
        s.target is DnxhrMov && (s.profile is Hqx || s.profile is Fourfourfour) ==> writes_deep(
            chosen_pix_fmt(s, info),
        ),
        s.target is Ffv1Mkv ==> chosen_pix_fmt(s, info) is None,
{
    reveal_strlit("10");
    reveal_strlit("yuv420p10le");
    reveal_strlit("yuv422p10le");
    reveal_strlit("yuv444p10le");
    reveal_strlit("yuva444p10le");
    assert("yuv420p10le"@.subrange(7, 9) =~= "10"@);
    lemma_occurs_contains("yuv420p10le"@, "10"@, 7);
    assert("yuv422p10le"@.subrange(7, 9) =~= "10"@);
    lemma_occurs_contains("yuv422p10le"@, "10"@, 7);
    assert("yuv444p10le"@.subrange(7, 9) =~= "10"@);
    lemma_occurs_contains("yuv444p10le"@, "10"@, 7);
    assert("yuva444p10le"@.subrange(8, 10) =~= "10"@);
    lemma_occurs_contains("yuva444p10le"@, "10"@, 8);
}

/// One of the four colour flags.
pub open spec fn colour_flag(x: Seq<char>) -> bool {
    x == "-color_primaries"@ || x == "-color_trc"@ || x == "-colorspace"@ || x == "-color_range"@
}

proof fn lemma_not_colour_flag(x: Seq<char>)
    requires
        (x.len() != 10 && x.len() != 11 && x.len() != 12 && x.len() != 16) || (x.len() >= 2
            && x[1] != 'c'),
    ensures
        !colour_flag(x),
{
    reveal_strlit("-color_primaries");
    reveal_strlit("-color_trc");
    reveal_strlit("-colorspace");
    reveal_strlit("-color_range");
    if colour_flag(x) {
        assert(x[1] == 'c');
    }
}

proof fn lemma_codec_words_not_colour()
    ensures
        !colour_flag("-c:v"@),
        !colour_flag("-coder"@),
        !colour_flag("-context"@),
        !colour_flag("-crf"@),
        !colour_flag("-g"@),
        !colour_flag("-level"@),
        !colour_flag("-pred"@),
        !colour_flag("-preset"@),
        !colour_flag("-profile:v"@),
        !colour_flag("-qscale:v"@),
        !colour_flag("-slicecrc"@),
        !colour_flag("-slices"@),
        !colour_flag("-svtav1-params"@),
        !colour_flag("-tag:v"@),
        !colour_flag("-vendor"@),
        !colour_flag("-x265-params"@),
        !colour_flag("0"@),
        !colour_flag("1"@),
        !colour_flag("16"@),
        !colour_flag("18"@),
        !colour_flag("2"@),
        !colour_flag("20"@),
        !colour_flag("21"@),
        !colour_flag("23"@),
        !colour_flag("24"@),
        !colour_flag("3"@),
        !colour_flag("30"@),
        !colour_flag("4"@),
        !colour_flag("5"@),
        !colour_flag("6"@),
        !colour_flag("apl0"@),
        !colour_flag("dnxhd"@),
        !colour_flag("dnxhr_444"@),
        !colour_flag("dnxhr_hq"@),
        !colour_flag("dnxhr_hqx"@),
        !colour_flag("dnxhr_sq"@),
        !colour_flag("ffv1"@),
        !colour_flag("hvc1"@),
        !colour_flag("libsvtav1"@),
        !colour_flag("libx264"@),
        !colour_flag("libx265"@),
        !colour_flag("lossless=1"@),
        !colour_flag("median"@),
        !colour_flag("prores_ks"@),
        !colour_flag("slow"@),
        !colour_flag("tune=0:film-grain=0"@),
        !colour_flag("utvideo"@),
{
    reveal_strlit("-c:v");
    lemma_not_colour_flag("-c:v"@);
    reveal_strlit("-coder");
    lemma_not_colour_flag("-coder"@);
    reveal_strlit("-context");
    lemma_not_colour_flag("-context"@);
    reveal_strlit("-crf");
    lemma_not_colour_flag("-crf"@);
    reveal_strlit("-g");
    lemma_not_colour_flag("-g"@);
    reveal_strlit("-level");
    lemma_not_colour_flag("-level"@);
    reveal_strlit("-pred");
    lemma_not_colour_flag("-pred"@);
    reveal_strlit("-preset");
    lemma_not_colour_flag("-preset"@);
    reveal_strlit("-profile:v");
    lemma_not_colour_flag("-profile:v"@);
    reveal_strlit("-qscale:v");
    lemma_not_colour_flag("-qscale:v"@);
    reveal_strlit("-slicecrc");
    lemma_not_colour_flag("-slicecrc"@);
    reveal_strlit("-slices");
    lemma_not_colour_flag("-slices"@);
    reveal_strlit("-svtav1-params");
    lemma_not_colour_flag("-svtav1-params"@);
    reveal_strlit("-tag:v");
    lemma_not_colour_flag("-tag:v"@);
    reveal_strlit("-vendor");
    lemma_not_colour_flag("-vendor"@);
    reveal_strlit("-x265-params");
    lemma_not_colour_flag("-x265-params"@);
    reveal_strlit("0");
    lemma_not_colour_flag("0"@);
    reveal_strlit("1");
    lemma_not_colour_flag("1"@);
    reveal_strlit("16");
    lemma_not_colour_flag("16"@);
    reveal_strlit("18");
    lemma_not_colour_flag("18"@);
    reveal_strlit("2");
    lemma_not_colour_flag("2"@);
    reveal_strlit("20");
    lemma_not_colour_flag("20"@);
    reveal_strlit("21");
    lemma_not_colour_flag("21"@);
    reveal_strlit("23");
    lemma_not_colour_flag("23"@);
    reveal_strlit("24");
    lemma_not_colour_flag("24"@);
    reveal_strlit("3");
    lemma_not_colour_flag("3"@);
    reveal_strlit("30");
    lemma_not_colour_flag("30"@);
    reveal_strlit("4");
    lemma_not_colour_flag("4"@);
    reveal_strlit("5");
    lemma_not_colour_flag("5"@);
    reveal_strlit("6");
    lemma_not_colour_flag("6"@);
    reveal_strlit("apl0");
    lemma_not_colour_flag("apl0"@);
    reveal_strlit("dnxhd");
    lemma_not_colour_flag("dnxhd"@);
    reveal_strlit("dnxhr_444");
    lemma_not_colour_flag("dnxhr_444"@);
    reveal_strlit("dnxhr_hq");
    lemma_not_colour_flag("dnxhr_hq"@);
    reveal_strlit("dnxhr_hqx");
    lemma_not_colour_flag("dnxhr_hqx"@);
    reveal_strlit("dnxhr_sq");
    lemma_not_colour_flag("dnxhr_sq"@);
    reveal_strlit("ffv1");
    lemma_not_colour_flag("ffv1"@);
    reveal_strlit("hvc1");
    lemma_not_colour_flag("hvc1"@);
    reveal_strlit("libsvtav1");
    lemma_not_colour_flag("libsvtav1"@);
    reveal_strlit("libx264");
    lemma_not_colour_flag("libx264"@);
    reveal_strlit("libx265");
    lemma_not_colour_flag("libx265"@);
    reveal_strlit("lossless=1");
    lemma_not_colour_flag("lossless=1"@);
    reveal_strlit("median");
    lemma_not_colour_flag("median"@);
    reveal_strlit("prores_ks");
    lemma_not_colour_flag("prores_ks"@);
    reveal_strlit("slow");
    lemma_not_colour_flag("slow"@);
    reveal_strlit("tune=0:film-grain=0");
    lemma_not_colour_flag("tune=0:film-grain=0"@);
    reveal_strlit("utvideo");
    lemma_not_colour_flag("utvideo"@);
}

/// The video part of the invocation: `-c:v` and the target's encoder with its
/// settings, then the source's colour tags, each under its flag, in the order
/// primaries, transfer, matrix, range; no colour flag comes from anywhere
/// else.
pub proof fn lemma_video_layout(s: Settings, info: MediaInfo)
    ensures
        video_args_of(s, info) == codec_args(s) + colour_args(info),
        codec_args(s)[0] == "-c:v"@,
        codec_args(s)[1] == target_encoder(s.target),
        forall|k: int| 0 <= k < codec_args(s).len() ==> !colour_flag(#[trigger] codec_args(s)[k]),
        colour_args(info) == opt_pair("-color_primaries"@, info.color_primaries) + opt_pair(
            "-color_trc"@,
            info.color_transfer,
        ) + opt_pair("-colorspace"@, info.color_space) + opt_pair("-color_range"@, info.color_range),
{
    lemma_codec_words_not_colour();
}

} // verus!
