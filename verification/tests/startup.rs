use vidnux::boot::{
    encoder_summary, parse_encoders, supports, version_line, Boot, Reply, Stage, BOOT_STEPS,
};
use vidnux::preset::Target;

const ENCODERS: &str = "Encoders:\n V..... = Video\n ------\n V....D dnxhd                VC3/DNxHD\n V..... libx264              libx264 H.264\n V..... prores_ks            Apple ProRes (iCodec Pro)\n A....D aac                  AAC (Advanced Audio Coding)\n V....D ffv1                 FFmpeg video codec #1\n";

fn owned(v: &[&str]) -> Vec<String> {
    v.iter().map(|s| s.to_string()).collect()
}

#[test]
fn the_version_is_the_first_line_s_first_words() {
    assert_eq!(
        version_line("ffmpeg version 7.1.1 Copyright (c) 2000-2025\nbuilt with gcc\n"),
        "ffmpeg version 7.1.1"
    );
    assert_eq!(version_line(""), "unknown");
    assert_eq!(version_line("ffmpeg  version\n"), "ffmpeg version");
}

#[test]
fn encoders_are_read_off_the_second_column() {
    assert_eq!(parse_encoders(ENCODERS), owned(&["dnxhd", "prores_ks", "libx264", "ffv1"]));
    assert_eq!(parse_encoders(""), Vec::<String>::new());
}

#[test]
fn missing_encoders_grey_out_their_formats() {
    let found = parse_encoders(ENCODERS);
    assert!(supports(&found, Target::DnxhrMov));
    assert!(supports(&found, Target::H264Mp4));
    assert!(!supports(&found, Target::H265Mp4));
    assert!(!supports(&found, Target::Av1Mkv));
    // Until the check has answered, everything is allowed.
    assert!(supports(&Vec::new(), Target::H265Mp4));
}

#[test]
fn the_encoder_line_names_what_is_missing() {
    let found = parse_encoders(ENCODERS);
    assert_eq!(
        encoder_summary(&found),
        "encoders  missing libsvtav1, libsvtav1, libx265, utvideo"
    );
    let all = owned(&["dnxhd", "prores_ks", "libsvtav1", "libx264", "libx265", "utvideo", "ffv1"]);
    assert_eq!(encoder_summary(&all), "encoders  all 8 output formats available");
}

#[test]
fn start_up_walks_every_step_to_ready() {
    let mut b = Boot::new();
    assert_eq!(b.step, "Starting up");
    b.start();
    assert_eq!(b.stage, Stage::Ffmpeg);
    assert_eq!(b.step, "Looking for ffmpeg");
    assert_eq!(b.steps_done(), 0);
    b.advance(Reply::Located(Some("/usr/bin/ffmpeg".to_string())));
    assert_eq!(b.stage, Stage::Ffprobe);
    b.advance(Reply::Located(Some("/usr/bin/ffprobe".to_string())));
    b.advance(Reply::Printed(Some("ffmpeg version 7.1.1 Copyright\n".to_string())));
    assert_eq!(b.step, "Checking which encoders are available");
    b.advance(Reply::Printed(Some(ENCODERS.to_string())));
    assert_eq!(b.stage, Stage::Interface);
    assert_eq!(b.steps_done(), 4);
    assert!(!b.is_ready());
    // A reply that answers nothing asked is ignored.
    b.advance(Reply::Located(None));
    assert_eq!(b.stage, Stage::Interface);
    b.advance(Reply::Waited);
    assert!(b.is_ready());
    assert_eq!(b.step, "Ready");
    assert_eq!(b.error, None);
    assert_eq!(b.steps_done(), BOOT_STEPS);
    assert_eq!(b.log.len(), BOOT_STEPS - 1);
    assert_eq!(
        b.log,
        owned(&[
            "ffmpeg    /usr/bin/ffmpeg",
            "ffprobe   /usr/bin/ffprobe",
            "version   ffmpeg version 7.1.1",
            "encoders  missing libsvtav1, libsvtav1, libx265, utvideo",
        ])
    );
    assert_eq!(b.version, "ffmpeg version 7.1.1");
    assert!(b.encoders.contains(&"dnxhd".to_string()));
}

#[test]
fn a_missing_tool_stops_start_up() {
    let mut b = Boot::new();
    b.start();
    b.advance(Reply::Located(None));
    assert_eq!(b.stage, Stage::Failed);
    assert_eq!(b.step, "Cannot start");
    assert_eq!(b.error.as_deref(), Some("ffmpeg was not found on your PATH"));
    let mut b = Boot::new();
    b.start();
    b.advance(Reply::Located(Some("/bin/ffmpeg".to_string())));
    b.advance(Reply::Located(None));
    assert_eq!(b.error.as_deref(), Some("ffprobe was not found on your PATH"));
    assert_eq!(b.log.len(), 1);
}

#[test]
fn an_ffmpeg_that_will_not_run_reads_as_unknown_with_no_encoders() {
    let mut b = Boot::new();
    b.start();
    b.advance(Reply::Located(Some("/bin/ffmpeg".to_string())));
    b.advance(Reply::Located(Some("/bin/ffprobe".to_string())));
    b.advance(Reply::Printed(None));
    b.advance(Reply::Printed(None));
    assert_eq!(b.version, "unknown");
    assert!(b.encoders.is_empty());
    assert_eq!(
        b.log[3],
        "encoders  missing dnxhd, prores_ks, libsvtav1, libsvtav1, libx264, libx265, utvideo, ffv1"
    );
}
