use thumb_mosaic::caption::{caption_text, overlay_filter, tile_filter, timestamp_text};
use thumb_mosaic::escape::escape_ffmpeg_drawtext_text;
use thumb_mosaic::fonts::{first_present, font_candidates};
use thumb_mosaic::probe::{parse_duration_us, parse_trimmed_duration_us, reports_black_frame, ProbeError};
use thumb_mosaic::sampler::{frame_timestamp_ms, frame_timestamps_ms, FrameSampler, SampleStep, MAX_ATTEMPTS};
use thumb_mosaic::videos::{is_allowed_extension, is_video_file, select_videos};

fn due(s: &FrameSampler) -> Option<(u64, u64)> {
    match s.next_step() {
        SampleStep::Extract { index, timestamp_ms } => Some((index, timestamp_ms)),
        SampleStep::Finished => None,
    }
}

#[test]
fn escape_marks_special_characters() {
    assert_eq!(escape_ffmpeg_drawtext_text("a:b(c)\\d"), "a\\:b\\(c\\)\\\\d");
}

#[test]
fn escape_keeps_safe_text() {
    assert_eq!(escape_ffmpeg_drawtext_text("plain text 123"), "plain text 123");
    assert_eq!(escape_ffmpeg_drawtext_text(""), "");
}

#[test]
fn escape_distinguishes_inputs() {
    assert_ne!(escape_ffmpeg_drawtext_text("\\:"), escape_ffmpeg_drawtext_text(":"));
    assert_eq!(escape_ffmpeg_drawtext_text("é(ü)"), "é\\(ü\\)");
}

#[test]
fn video_extensions_ignore_case() {
    assert!(is_video_file("movie.MP4"));
    assert!(is_video_file("dir/clip.MkV"));
    assert!(is_video_file("a.b.ts"));
    assert!(is_video_file("x.mpeg"));
    assert!(!is_video_file("notes.txt"));
    assert!(!is_video_file("noextension"));
    assert!(!is_video_file(".mp4"));
    assert!(!is_video_file("movie.mp4.bak"));
}

#[test]
fn allowed_extension_list() {
    for e in ["mp4", "mov", "avi", "mkv", "webm", "m4v", "wmv", "mpg", "mpeg", "ts"] {
        assert!(is_allowed_extension(e));
    }
    assert!(!is_allowed_extension("MP4"));
    assert!(!is_allowed_extension("mp3"));
    assert!(!is_allowed_extension(""));
}

#[test]
fn directory_selection_skips_other_files() {
    let names: Vec<String> = vec!["a.mp4", "b.txt", "c.MOV", "d", "e.webm"]
        .into_iter()
        .map(String::from)
        .collect();
    assert_eq!(select_videos(&names), vec![0, 2, 4]);
    assert_eq!(select_videos(&Vec::new()), Vec::<usize>::new());
}

#[test]
fn nine_second_video_samples_each_second() {
    assert_eq!(
        frame_timestamps_ms(9_000_000, 9),
        vec![0, 1000, 2000, 3000, 4000, 5000, 6000, 7000, 8000]
    );
}

#[test]
fn timestamps_are_ordered_and_inside() {
    let ts = frame_timestamps_ms(10_000_000, 3);
    assert_eq!(ts, vec![0, 3333, 6667]);
    assert_eq!(
        frame_timestamp_ms(u64::MAX, 7, 6),
        ((u64::MAX as u128 * 6 / 7 + 500) / 1000) as u64
    );
    assert_eq!(frame_timestamps_ms(500, 1), vec![0]);
}

#[test]
fn black_frames_retry_two_seconds_later_at_most_five_times() {
    let mut s = FrameSampler::new(9_000_000, 9);
    s.record_check(false);
    assert_eq!(due(&s), Some((1, 1000)));
    let mut seen = vec![];
    loop {
        let (index, t) = due(&s).unwrap();
        if index != 1 {
            break;
        }
        seen.push(t);
        s.record_check(true);
    }
    assert_eq!(seen, vec![1000, 3000, 5000, 7000, 9000, 11000]);
    assert_eq!(seen.len() as u64, MAX_ATTEMPTS + 1);
    assert_eq!(due(&s), Some((2, 2000)));
}

#[test]
fn sampler_finishes_after_last_slot() {
    let mut s = FrameSampler::new(4_000_000, 2);
    s.record_check(true);
    assert_eq!(due(&s), Some((0, 2000)));
    s.record_check(false);
    assert_eq!(due(&s), Some((1, 2000)));
    s.record_check(false);
    assert!(due(&s).is_none());
}

#[test]
fn caption_for_one_megabyte_video() {
    assert_eq!(
        caption_text("video.mp4", 1_000_000, "640x480"),
        "File:video.mp4 Size:1.00 MB Resolution:(640x480)"
    );
}

#[test]
fn caption_size_rounds_to_two_decimals() {
    assert_eq!(caption_text("a", 1_234_567, "1x1"), "File:a Size:1.23 MB Resolution:(1x1)");
    assert_eq!(caption_text("a", 0, ""), "File:a Size:0.00 MB Resolution:()");
    assert_eq!(caption_text("a", 12_345_000_000, "2x2"), "File:a Size:12345.00 MB Resolution:(2x2)");
    assert_eq!(caption_text("a", 5_000, "2x2"), "File:a Size:0.01 MB Resolution:(2x2)");
}

#[test]
fn overlay_filter_escapes_font_and_caption() {
    assert_eq!(
        overlay_filter("C:/Windows/Fonts/arial.ttf", "File:a (1)"),
        "drawtext=fontfile='C\\:/Windows/Fonts/arial.ttf':text='File\\:a \\(1\\)':x=10:y=10:fontsize=96:fontcolor=white:box=1:boxcolor=black@0.5"
    );
}

#[test]
fn tile_and_timestamp_text() {
    assert_eq!(tile_filter(3, 3), "tile=3x3");
    assert_eq!(tile_filter(12, 4), "tile=12x4");
    assert_eq!(timestamp_text(0), "0.000");
    assert_eq!(timestamp_text(1500), "1.500");
    assert_eq!(timestamp_text(123_045), "123.045");
}

#[test]
fn duration_text_in_microseconds() {
    assert_eq!(parse_duration_us("9.000000\n"), Ok(9_000_000));
    assert_eq!(parse_duration_us("  12.5 "), Ok(12_500_000));
    assert_eq!(parse_duration_us("3"), Ok(3_000_000));
    assert_eq!(parse_duration_us(".25"), Ok(250_000));
    assert_eq!(parse_duration_us("7."), Ok(7_000_000));
    assert_eq!(parse_duration_us("1.23456789"), Ok(1_234_567));
    assert_eq!(parse_trimmed_duration_us("0.000001"), Ok(1));
}

#[test]
fn duration_text_rejected() {
    assert_eq!(parse_duration_us("N/A\n"), Err(ProbeError::NotANumber));
    assert_eq!(parse_duration_us(""), Err(ProbeError::NotANumber));
    assert_eq!(parse_duration_us("."), Err(ProbeError::NotANumber));
    assert_eq!(parse_duration_us("1.2.3"), Err(ProbeError::NotANumber));
    assert_eq!(parse_duration_us("-4"), Err(ProbeError::NotANumber));
    assert_eq!(parse_duration_us("1e3"), Err(ProbeError::NotANumber));
    assert_eq!(parse_trimmed_duration_us(" 1"), Err(ProbeError::NotANumber));
    assert_eq!(parse_duration_us("0.0000"), Err(ProbeError::ZeroDuration));
    assert_eq!(parse_duration_us("0"), Err(ProbeError::ZeroDuration));
    assert_eq!(parse_duration_us("18446744073709.551615"), Ok(u64::MAX));
    assert_eq!(parse_duration_us("18446744073709.551616"), Err(ProbeError::OutOfRange));
    assert_eq!(parse_duration_us("99999999999999999999999"), Err(ProbeError::OutOfRange));
}

#[test]
fn first_present_font_wins() {
    assert_eq!(first_present(&vec![false, true, true]), Some(1));
    assert_eq!(first_present(&vec![true, false]), Some(0));
    assert_eq!(first_present(&vec![false, false]), None);
    assert_eq!(first_present(&Vec::new()), None);
    let c = font_candidates();
    assert_eq!(c.len(), 6);
    assert_eq!(c[0], "/usr/share/fonts/truetype/dejavu/DejaVuSans.ttf");
    assert_eq!(c[5], "C:/Windows/Fonts/segoeui.ttf");
}

#[test]
fn timestamps_round_to_nearest_millisecond() {
    let ts = frame_timestamps_ms(10_000_000, 9);
    assert_eq!(ts, vec![0, 1111, 2222, 3333, 4444, 5556, 6667, 7778, 8889]);
    assert_eq!(timestamp_text(ts[5]), "5.556");
    assert_eq!(frame_timestamp_ms(1_500, 3, 1), 1);
    assert_eq!(frame_timestamp_ms(1_497, 3, 1), 0);
}

#[test]
fn retry_of_rounded_slot() {
    let mut s = FrameSampler::new(10_000_000, 3);
    s.record_check(false);
    s.record_check(false);
    assert_eq!(due(&s), Some((2, 6667)));
    s.record_check(true);
    assert_eq!(due(&s), Some((2, 8667)));
}

#[test]
fn duration_text_trims_unicode_white_space() {
    assert_eq!(parse_duration_us("\u{a0}\u{3000}4.5\u{2028}"), Ok(4_500_000));
    assert_eq!(parse_duration_us("\t\r\n2\n"), Ok(2_000_000));
}

#[test]
fn black_frame_marker_in_diagnostics() {
    let report = b"[Parsed_blackframe_0 @ 0x1] frame:0 pblack:100 pts:0".to_vec();
    assert!(reports_black_frame(&report));
    assert!(reports_black_frame(&b"blackframe".to_vec()));
    assert!(!reports_black_frame(&b"blackfram".to_vec()));
    assert!(!reports_black_frame(&b"frame=1 fps=0.0 Black frame".to_vec()));
    assert!(!reports_black_frame(&Vec::new()));
    let mut lossy = vec![0xffu8, 0xc3];
    lossy.extend_from_slice(b"blackframe");
    assert!(reports_black_frame(&lossy));
}
