use vidnux::media::{select_streams, tag, MediaInfo, Stream};

fn stream(kind: &str, codec: &str) -> Stream {
    Stream {
        codec_type: Some(kind.to_string()),
        codec_name: Some(codec.to_string()),
        width: None,
        height: None,
        pix_fmt: None,
        color_space: None,
        color_transfer: None,
        color_primaries: None,
        color_range: None,
    }
}

fn info(height: u32, pix_fmt: &str) -> MediaInfo {
    MediaInfo {
        width: 1920,
        height,
        fps_rounded: 30,
        codec: "h264".to_string(),
        pix_fmt: pix_fmt.to_string(),
        audio_codec: None,
        color_space: None,
        color_transfer: None,
        color_primaries: None,
        color_range: None,
    }
}

#[test]
fn the_first_video_and_audio_streams_are_read() {
    let mut v = stream("video", "hevc");
    v.width = Some(3840);
    v.height = Some(2160);
    v.pix_fmt = Some("yuv420p10le".to_string());
    v.color_space = Some("bt2020nc".to_string());
    v.color_range = Some("unknown".to_string());
    let mut a = stream("audio", "aac");
    a.codec_name = None;
    let streams = vec![
        stream("data", "bin_data"),
        a,
        v,
        stream("audio", "opus"),
        stream("video", "mjpeg"),
        stream("audio", "flac"),
    ];
    let (index, info) = select_streams(&streams).unwrap();
    assert_eq!(index, 2);
    assert_eq!(info.width, 3840);
    assert_eq!(info.height, 2160);
    assert_eq!(info.codec, "hevc");
    assert_eq!(info.pix_fmt, "yuv420p10le");
    assert_eq!(info.audio_codec.as_deref(), Some("opus"));
    assert_eq!(info.color_space.as_deref(), Some("bt2020nc"));
    assert_eq!(info.color_range, None);
    assert!(info.is_10bit());
    assert_eq!(info.class(), "4K+");
}

#[test]
fn a_source_without_video_is_refused() {
    let streams = vec![stream("audio", "mp3")];
    assert_eq!(select_streams(&streams).err().as_deref(), Some("no video stream found"));
    assert_eq!(select_streams(&Vec::new()).err().as_deref(), Some("no video stream found"));
}

#[test]
fn colour_tags_that_say_nothing_are_dropped() {
    assert_eq!(tag(&Some("bt709".to_string())), Some("bt709".to_string()));
    assert_eq!(tag(&Some(String::new())), None);
    assert_eq!(tag(&Some("unknown".to_string())), None);
    assert_eq!(tag(&Some("reserved".to_string())), None);
    assert_eq!(tag(&None), None);
}

#[test]
fn size_classes_and_bit_depth() {
    assert_eq!(info(0, "yuv420p").class(), "");
    assert_eq!(info(1080, "yuv420p").class(), "FullHD");
    assert_eq!(info(720, "yuv420p").class(), "HD");
    assert_eq!(info(480, "yuv420p").class(), "SD");
    assert!(!info(1080, "yuv420p").is_10bit());
    assert!(info(1080, "yuv444p12le").is_10bit());
    assert!(info(1080, "rgb48le").is_10bit() == false);
    assert!(info(1080, "gray16le").is_10bit());
    let copy = info(720, "yuv420p").duplicate();
    assert_eq!(copy.height, 720);
}
