use vidnux::job::{
    candidate_path, failure_message, is_video, keep_error_line, parse_progress_line, pick_output,
    unique_output,
    video_exts, Job, ProgressLine, Queue, Status, FULL_PROGRESS,
};
use vidnux::media::MediaInfo;
use vidnux::preset::{Settings, Target};

const NOWHERE: &str = "/vidnux-test-nowhere";

fn info(height: u32, fps: u64) -> MediaInfo {
    MediaInfo {
        width: 1920,
        height,
        fps_rounded: fps,
        codec: "h264".to_string(),
        pix_fmt: "yuv420p".to_string(),
        audio_codec: Some("aac".to_string()),
        color_space: None,
        color_transfer: None,
        color_primaries: None,
        color_range: None,
    }
}

fn job(id: u64, path: &str) -> Job {
    Job::new(id, format!("{NOWHERE}/{path}"), Ok(info(1080, 48)))
}

fn queue_of(paths: &[&str]) -> Queue {
    let mut q = Queue::default();
    for (i, p) in paths.iter().enumerate() {
        q.jobs.push(job(i as u64 + 1, p));
    }
    q
}

fn stems(q: &Queue) -> Vec<String> {
    q.jobs.iter().map(|j| j.stem.clone()).collect()
}

#[test]
fn a_new_job_is_queued_under_its_file_stem() {
    let j = job(7, "fileA.mp4");
    assert_eq!(j.id, 7);
    assert_eq!(j.stem, "fileA");
    assert_eq!(j.status, Status::Queued);
    assert_eq!(j.name(), "fileA.mp4");
    assert!(j.info.is_some());
    let broken = Job::new(8, "/".to_string(), Err("no video stream found".to_string()));
    assert_eq!(broken.stem, "output");
    assert_eq!(broken.probe_error.as_deref(), Some("no video stream found"));
    assert!(broken.info.is_none());
}

#[test]
fn target_path_uses_the_trimmed_stem_and_the_format_extension() {
    let mut j = job(1, "fileA.mp4");
    j.stem = "  Interview_take1 ".to_string();
    let s = Settings::default();
    assert_eq!(j.target_path(&None, &s), format!("{NOWHERE}/Interview_take1.mov"));
    assert_eq!(j.target_path(&Some("/out".to_string()), &s), "/out/Interview_take1.mov");
    j.out_dir = Some("/own".to_string());
    assert_eq!(j.target_path(&Some("/out".to_string()), &s), "/own/Interview_take1.mov");
    j.stem = "   ".to_string();
    let mut s = Settings::default();
    s.target = Target::Ffv1Mkv;
    assert_eq!(j.target_path(&None, &s), "/own/output.mkv");
}

#[test]
fn candidates_count_up_next_to_the_base() {
    assert_eq!(candidate_path("/out/Adam-Kun.mov", 1), "/out/Adam-Kun(1).mov");
    assert_eq!(candidate_path("/out/Adam-Kun.mov", 12), "/out/Adam-Kun(12).mov");
}

#[test]
fn the_source_itself_is_never_the_output() {
    let q = Queue::default();
    let src = format!("{NOWHERE}/clip.mov");
    assert_eq!(unique_output(&q, 1, src.clone(), &src, true), format!("{NOWHERE}/clip(1).mov"));
    let other = format!("{NOWHERE}/other.mov");
    assert_eq!(unique_output(&q, 1, other.clone(), &src, false), other);
}

#[test]
fn claimed_outputs_are_skipped() {
    let mut q = queue_of(&["a.mp4", "b.mp4", "c.mp4"]);
    q.jobs[0].status = Status::Running;
    q.jobs[0].output = Some(format!("{NOWHERE}/Adam-Kun.mov"));
    q.jobs[1].status = Status::Done;
    q.jobs[1].output = Some(format!("{NOWHERE}/Adam-Kun(1).mov"));
    let base = format!("{NOWHERE}/Adam-Kun.mov");
    let got = unique_output(&q, 3, base, &format!("{NOWHERE}/c.mp4"), false);
    assert_eq!(got, format!("{NOWHERE}/Adam-Kun(2).mov"));
    // A queued job has not claimed anything yet.
    q.jobs[0].status = Status::Queued;
    q.jobs[1].status = Status::Queued;
    let base = format!("{NOWHERE}/Adam-Kun.mov");
    assert_eq!(unique_output(&q, 3, base.clone(), &format!("{NOWHERE}/c.mp4"), false), base);
}

#[test]
fn identical_names_settle_while_writing() {
    let mut q = queue_of(&["one.mp4", "two.mp4"]);
    q.jobs[0].stem = "Adam-Kun".to_string();
    q.jobs[1].stem = "Adam-Kun".to_string();
    let s = Settings::default();
    let first = q.claim_next(&None, &s).unwrap();
    assert_eq!(first.index, 0);
    assert_eq!(first.output, format!("{NOWHERE}/Adam-Kun.mov"));
    let second = q.claim_next(&None, &s).unwrap();
    assert_eq!(second.index, 1);
    assert_eq!(second.output, format!("{NOWHERE}/Adam-Kun(1).mov"));
    assert_eq!(q.jobs[1].stem, "Adam-Kun(1)");
    assert_eq!(q.jobs[1].status, Status::Running);
    assert!(q.claim_next(&None, &s).is_none());
}

#[test]
fn a_run_ends_done_failed_or_cancelled() {
    let mut q = queue_of(&["a.mp4", "b.mp4", "c.mp4"]);
    let s = Settings::default();
    for _ in 0..3 {
        q.claim_next(&None, &s).unwrap();
    }
    q.jobs[2].pid = Some(4242);
    q.finish(1, Ok(()));
    q.finish(2, Err("Invalid data found".to_string()));
    assert_eq!(q.cancel(3), Some(4242));
    q.finish(3, Ok(()));
    assert_eq!(q.jobs[0].status, Status::Done);
    assert_eq!(q.jobs[0].progress, FULL_PROGRESS);
    assert_eq!(q.jobs[1].status, Status::Failed("Invalid data found".to_string()));
    assert_eq!(q.jobs[2].status, Status::Canceled);
    assert_eq!(q.jobs[2].pid, None);
    assert!(!q.jobs[2].cancel);
    assert_eq!(q.cancel(99), None);
}

#[test]
fn stopping_cancels_every_running_job() {
    let mut q = queue_of(&["a.mp4", "b.mp4", "c.mp4"]);
    q.jobs[0].status = Status::Running;
    q.jobs[0].pid = Some(10);
    q.jobs[1].status = Status::Running;
    q.jobs[2].pid = Some(30);
    assert_eq!(q.cancel_running(), vec![10]);
    assert!(q.jobs[0].cancel);
    assert!(q.jobs[1].cancel);
    assert!(!q.jobs[2].cancel);
}

#[test]
fn requeue_only_takes_finished_jobs() {
    let mut q = queue_of(&["a.mp4", "b.mp4"]);
    q.jobs[0].status = Status::Failed("x".to_string());
    q.jobs[0].progress = 40;
    q.requeue(0);
    assert_eq!(q.jobs[0].status, Status::Queued);
    assert_eq!(q.jobs[0].progress, 0);
    q.jobs[1].status = Status::Running;
    q.requeue(1);
    assert_eq!(q.jobs[1].status, Status::Running);
    q.requeue(5);
    assert_eq!(q.jobs.len(), 2);
}

#[test]
fn rows_swap_with_their_neighbour_and_back() {
    let mut q = queue_of(&["a.mp4", "b.mp4", "c.mp4"]);
    assert_eq!(q.swap_rows(2, 1), Some(3));
    assert_eq!(stems(&q), vec!["a", "c", "b"]);
    assert_eq!(q.swap_rows(1, 2), Some(3));
    assert_eq!(stems(&q), vec!["a", "b", "c"]);
    assert_eq!(q.swap_rows(2, 3), None);
    assert_eq!(stems(&q), vec!["a", "b", "c"]);
}

#[test]
fn the_tally_adds_up() {
    let mut q = queue_of(&["a.mp4", "b.mp4", "c.mp4", "d.mp4", "e.mp4", "f.mp4"]);
    q.jobs[0].status = Status::Running;
    q.jobs[1].status = Status::Done;
    q.jobs[2].status = Status::Canceled;
    q.jobs[3].status = Status::Failed("x".to_string());
    let t = q.tally();
    assert_eq!(t.total, 6);
    assert_eq!(t.running, 1);
    assert_eq!(t.done, 1);
    assert_eq!(t.settled, 2);
    assert_eq!(t.queued, 2);
}

#[test]
fn a_file_already_waiting_is_not_added_twice() {
    let mut q = queue_of(&["a.mp4"]);
    assert!(!q.enqueue(job(2, "a.mp4")));
    assert!(q.enqueue(job(3, "b.mp4")));
    q.jobs[0].status = Status::Done;
    assert!(q.enqueue(job(4, "a.mp4")));
    assert_eq!(q.jobs.len(), 3);
}

#[test]
fn removing_and_clearing() {
    let mut q = queue_of(&["a.mp4", "b.mp4", "c.mp4"]);
    q.remove(2);
    assert_eq!(stems(&q), vec!["a", "c"]);
    q.jobs[0].status = Status::Done;
    q.clear_finished();
    assert_eq!(stems(&q), vec!["c"]);
    assert_eq!(q.position(3), Some(0));
    assert_eq!(q.position(1), None);
    assert!(q.find(3).is_some());
    assert_eq!(q.next_queued(), Some(0));
}

#[test]
fn a_plain_pattern_numbers_repeated_names() {
    let mut q = queue_of(&["a.mp4", "b.mp4", "c.mp4", "d.mp4", "e.mp4"]);
    q.apply_pattern("Adam-Kun");
    assert_eq!(
        stems(&q),
        vec!["Adam-Kun-1", "Adam-Kun-2", "Adam-Kun-3", "Adam-Kun-4", "Adam-Kun-5"]
    );
}

#[test]
fn pattern_tokens_fill_in() {
    let names: Vec<String> = (1..=12).map(|i| format!("file{i}.mp4")).collect();
    let refs: Vec<&str> = names.iter().map(|s| s.as_str()).collect();
    let mut q = queue_of(&refs);
    q.jobs[1].info = Some(info(720, 25));
    q.apply_pattern("{n}_{name}_{res}_{fps}");
    assert_eq!(q.jobs[0].stem, "01_file1_1080p_48fps");
    assert_eq!(q.jobs[1].stem, "02_file2_720p_25fps");
    assert_eq!(q.jobs[11].stem, "12_file12_1080p_48fps");
    q.jobs[2].info = None;
    q.apply_pattern("{name}{res}");
    assert_eq!(q.jobs[2].stem, "file3");
}

#[test]
fn sorting_is_number_aware_and_flips() {
    let mut q = queue_of(&["clip10.mp4", "clip2.mp4", "Clip1.mp4"]);
    q.sort_by_name(false);
    assert_eq!(stems(&q), vec!["Clip1", "clip2", "clip10"]);
    q.sort_by_name(true);
    assert_eq!(stems(&q), vec!["clip10", "clip2", "Clip1"]);
}

#[test]
fn video_files_are_told_by_extension() {
    assert!(is_video("/media/holiday.MKV"));
    assert!(is_video("clip.m2ts"));
    assert!(!is_video("/media/notes.txt"));
    assert!(!is_video("/media/README"));
    assert_eq!(video_exts().len(), 36);
    assert!(video_exts().contains(&"braw"));
}

#[test]
fn progress_lines_are_read() {
    assert_eq!(parse_progress_line("out_time_us=1500000"), ProgressLine::Time("1500000".to_string()));
    assert_eq!(parse_progress_line("out_time_ms= 42 "), ProgressLine::Time("42".to_string()));
    assert_eq!(parse_progress_line("speed=2.5x"), ProgressLine::Speed("2.5x".to_string()));
    assert_eq!(parse_progress_line("frame=10"), ProgressLine::Other);
    assert_eq!(parse_progress_line("progress"), ProgressLine::Other);
}

#[test]
fn a_failure_shows_the_last_error_line() {
    assert_eq!(failure_message("first\nsecond problem\n  \n"), "second problem");
    assert_eq!(failure_message("   "), "ffmpeg exited with an error");
    assert_eq!(failure_message("only"), "only");
}

#[test]
fn only_the_tail_of_the_error_stream_is_kept() {
    let mut buf = String::new();
    keep_error_line(&mut buf, "  Invalid data  ");
    assert_eq!(buf, "Invalid data\n");
    let long = "x".repeat(3000);
    keep_error_line(&mut buf, &long);
    assert_eq!(buf.len(), 3014);
    keep_error_line(&mut buf, &long);
    assert_eq!(buf.chars().count(), 2000);
    assert!(buf.ends_with("xx\n"));
}

#[test]
fn nothing_on_disk_is_overwritten_unless_asked() {
    let q = queue_of(&["a.mp4"]);
    let base = format!("{NOWHERE}/Adam-Kun.mov");
    let src = format!("{NOWHERE}/a.mp4");
    let one = format!("{NOWHERE}/Adam-Kun(1).mov");
    let two = format!("{NOWHERE}/Adam-Kun(2).mov");
    assert_eq!(pick_output(&q, 1, base.clone(), &src, false, &vec![]), base);
    assert_eq!(pick_output(&q, 1, base.clone(), &src, false, &vec![base.clone()]), one);
    assert_eq!(
        pick_output(&q, 1, base.clone(), &src, false, &vec![base.clone(), one.clone()]),
        two
    );
    assert_eq!(pick_output(&q, 1, base.clone(), &src, true, &vec![base.clone(), one]), base);
    // The source is never the output, overwrite or not.
    assert_eq!(pick_output(&q, 1, src.clone(), &src, true, &vec![]), format!("{NOWHERE}/a(1).mp4"));
}

#[test]
fn rows_with_the_same_name_keep_their_order() {
    let mut q = Queue::default();
    q.jobs.push(Job::new(1, "/one/take.mp4".to_string(), Ok(info(1080, 25))));
    q.jobs.push(Job::new(2, "/two/clip.mp4".to_string(), Ok(info(1080, 25))));
    q.jobs.push(Job::new(3, "/three/take.mp4".to_string(), Ok(info(1080, 25))));
    q.sort_by_name(false);
    let ids: Vec<u64> = q.jobs.iter().map(|j| j.id).collect();
    assert_eq!(ids, vec![2, 1, 3]);
    q.sort_by_name(true);
    let ids: Vec<u64> = q.jobs.iter().map(|j| j.id).collect();
    assert_eq!(ids, vec![1, 3, 2]);
}

#[test]
fn positions_have_at_least_two_digits() {
    let mut q = Queue::default();
    q.jobs.push(Job::new(1, "/v/fileA.mp4".to_string(), Ok(info(1080, 30))));
    q.jobs.push(Job::new(2, "/v/fileB.mp4".to_string(), Ok(info(1080, 30))));
    q.apply_pattern("{n}_{name}_{res}");
    assert_eq!(stems(&q), vec!["01_fileA_1080p", "02_fileB_1080p"]);
    let names: Vec<String> = (1..=100).map(|i| format!("f{i}.mp4")).collect();
    let refs: Vec<&str> = names.iter().map(|s| s.as_str()).collect();
    let mut big = queue_of(&refs);
    big.apply_pattern("{n}");
    assert_eq!(big.jobs[0].stem, "001");
    assert_eq!(big.jobs[99].stem, "100");
}

#[test]
fn renamed_rows_never_share_a_name() {
    let mut q = queue_of(&["a.mp4", "a.mov", "a-1.mp4"]);
    q.apply_pattern("{name}");
    assert_eq!(stems(&q), vec!["a-2", "a-3", "a-1"]);
    let mut q = queue_of(&["x.mp4", "y.mp4", "x-1.mp4", "x.mov", "y.mov"]);
    q.apply_pattern("{name}");
    assert_eq!(stems(&q), vec!["x-2", "y-1", "x-1", "x-3", "y-2"]);
    let mut q = queue_of(&["b.mp4", "c.mp4"]);
    q.apply_pattern("{name}");
    assert_eq!(stems(&q), vec!["b", "c"]);
}

#[test]
fn the_error_tail_is_cut_at_a_character_boundary() {
    let mut buf = String::new();
    keep_error_line(&mut buf, &"é".repeat(2500));
    assert_eq!(buf.len(), 1999);
    assert_eq!(buf.chars().count(), 1000);
    assert!(buf.ends_with("é\n"));
}

#[test]
fn stems_and_extensions_follow_the_last_dot() {
    assert_eq!(Job::new(1, "/x/archive.tar.gz".to_string(), Ok(info(1080, 25))).stem, "archive.tar");
    assert_eq!(Job::new(2, "/x/.hidden".to_string(), Ok(info(1080, 25))).stem, ".hidden");
    assert_eq!(Job::new(3, "/x/plain".to_string(), Ok(info(1080, 25))).stem, "plain");
    assert_eq!(Job::new(4, "/x/clip.".to_string(), Ok(info(1080, 25))).stem, "clip");
    assert!(!is_video("/x/.mp4"));
    assert!(is_video("/x/a.b.mp4"));
    assert_eq!(candidate_path("/out/archive.tar.gz", 1), "/out/archive.tar(1).gz");
    assert_eq!(candidate_path("/out/notes", 2), "/out/notes(2).");
}
