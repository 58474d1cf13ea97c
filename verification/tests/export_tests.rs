use hlusra::export::{
    audio_export_command, build_srt, export_filename, format_readable_timestamp,
    format_srt_timestamp, pdf_segment_heading, resolve_output_path, video_export_command,
    AudioFormat, ExportError, SaveMode, SrtEntry, TranscriptFormat, VideoFormat,
};

fn secs_to_ms(seconds: f64) -> u64 {
    (seconds * 1000.0).round() as u64
}

fn secs_rounded(seconds: f64) -> u64 {
    seconds.round() as u64
}

#[test]
fn audio_test_resolve_output_save() {
    let path = resolve_output_path("/meetings/abc123", "audio.mp3", &SaveMode::Save);
    assert_eq!(path, "/meetings/abc123/audio.mp3");
}

#[test]
fn audio_test_resolve_output_save_as() {
    let save_as = SaveMode::SaveAs { path: "/home/user/export.wav".to_string() };
    let path = resolve_output_path("/meetings/abc123", "audio.wav", &save_as);
    assert_eq!(path, "/home/user/export.wav");
}

#[test]
fn transcript_test_resolve_output_save() {
    let path = resolve_output_path("/meetings/abc", "transcript.srt", &SaveMode::Save);
    assert_eq!(path, "/meetings/abc/transcript.srt");
}

#[test]
fn transcript_test_resolve_output_save_as() {
    let save_as = SaveMode::SaveAs { path: "/home/user/transcript.pdf".to_string() };
    let path = resolve_output_path("/meetings/abc", "transcript.pdf", &save_as);
    assert_eq!(path, "/home/user/transcript.pdf");
}

#[test]
fn resolve_output_path_handles_trailing_slash_and_absolute_name() {
    assert_eq!(resolve_output_path("/meetings/abc/", "a.txt", &SaveMode::Save), "/meetings/abc/a.txt");
    assert_eq!(resolve_output_path("/meetings/abc", "/abs/a.txt", &SaveMode::Save), "/abs/a.txt");
    assert_eq!(resolve_output_path("", "a.txt", &SaveMode::Save), "a.txt");
}

#[test]
fn test_audio_format_extensions() {
    assert_eq!(AudioFormat::Mp3.extension(), "mp3");
    assert_eq!(AudioFormat::Wav.extension(), "wav");
    assert_eq!(AudioFormat::Opus.extension(), "opus");
    assert_eq!(AudioFormat::Ogg.extension(), "ogg");
}

#[test]
fn test_audio_mixdown_requirements() {
    assert!(AudioFormat::Mp3.requires_mixdown());
    assert!(AudioFormat::Wav.requires_mixdown());
    assert!(AudioFormat::Ogg.requires_mixdown());
    assert!(!AudioFormat::Opus.requires_mixdown());
}

#[test]
fn test_video_format_properties() {
    assert_eq!(VideoFormat::Mp4H264.extension(), "mp4");
    assert_eq!(VideoFormat::Mp4H264.codec_name(), "libx264");
    assert_eq!(VideoFormat::MkvH265.extension(), "mkv");
    assert_eq!(VideoFormat::MkvH265.codec_name(), "libx265");
}

#[test]
fn video_format_av1_properties() {
    assert_eq!(VideoFormat::MkvAv1.extension(), "mkv");
    assert_eq!(VideoFormat::MkvAv1.codec_name(), "libsvtav1");
    assert_eq!(VideoFormat::MkvAv1.container_name(), "matroska");
    assert!(!VideoFormat::MkvAv1.is_mp4());
    assert!(VideoFormat::Mp4H265.is_mp4());
    assert_eq!(VideoFormat::Mp4H265.container_name(), "mp4");
}

#[test]
fn test_transcript_format_extensions() {
    assert_eq!(TranscriptFormat::Txt.extension(), "txt");
    assert_eq!(TranscriptFormat::Json.extension(), "json");
    assert_eq!(TranscriptFormat::Srt.extension(), "srt");
    assert_eq!(TranscriptFormat::Pdf.extension(), "pdf");
}

#[test]
fn export_filename_joins_stem_and_extension() {
    assert_eq!(export_filename("audio", AudioFormat::Ogg.extension()), "audio.ogg");
    assert_eq!(export_filename("transcript", TranscriptFormat::Srt.extension()), "transcript.srt");
}

#[test]
fn test_format_srt_timestamp() {
    assert_eq!(format_srt_timestamp(secs_to_ms(0.0)), "00:00:00,000");
    assert_eq!(format_srt_timestamp(secs_to_ms(1.5)), "00:00:01,500");
    assert_eq!(format_srt_timestamp(secs_to_ms(61.234)), "00:01:01,234");
    assert_eq!(format_srt_timestamp(secs_to_ms(3600.0)), "01:00:00,000");
}

#[test]
fn srt_timestamp_keeps_hours_beyond_two_digits() {
    assert_eq!(format_srt_timestamp(360_000_000), "100:00:00,000");
}

#[test]
fn test_format_readable_timestamp() {
    assert_eq!(format_readable_timestamp(secs_rounded(0.0)), "00:00:00");
    assert_eq!(format_readable_timestamp(secs_rounded(90.0)), "00:01:30");
    assert_eq!(format_readable_timestamp(secs_rounded(3661.0)), "01:01:01");
}

#[test]
fn srt_document_numbers_blocks_and_trims_text() {
    let entries = vec![
        SrtEntry { start_ms: 1500, end_ms: 4200, text: " Hello, welcome to the meeting. ".to_string() },
        SrtEntry { start_ms: 4500, end_ms: 8000, text: "Let's discuss the agenda.".to_string() },
    ];
    assert_eq!(
        build_srt(&entries),
        "1\n00:00:01,500 --> 00:00:04,200\nHello, welcome to the meeting.\n\n2\n00:00:04,500 --> 00:00:08,000\nLet's discuss the agenda.\n\n"
    );
    assert_eq!(build_srt(&Vec::new()), "");
}

#[test]
fn pdf_heading_uses_readable_timestamps() {
    assert_eq!(pdf_segment_heading(90, 3661), "[00:01:30 - 01:01:01]");
}

#[test]
fn export_error_messages() {
    assert_eq!(ExportError::SourceNotFound("/x/recording.mkv".into()).message(), "Source file not found: /x/recording.mkv");
    assert_eq!(ExportError::FfmpegFailed("boom".into()).message(), "FFmpeg failed: boom");
    assert_eq!(ExportError::Library("gone".into()).message(), "Library error: gone");
}

fn video_args(format: VideoFormat, source_codec: &str) -> Vec<String> {
    video_export_command("/fake/recording.mkv", "/fake/video.out", format, source_codec)
}

fn arg_after(args: &[String], flag: &str) -> String {
    let i = args.iter().position(|a| a == flag).unwrap();
    args[i + 1].clone()
}

#[test]
fn test_video_mp4_h264_transcode_from_hevc() {
    let args = video_args(VideoFormat::Mp4H264, "hevc");
    assert_eq!(arg_after(&args, "-codec:v"), "libx264", "should transcode to libx264");
    assert!(args.contains(&"-preset".to_string()));
    assert!(args.contains(&"-crf".to_string()));
    assert_eq!(arg_after(&args, "-codec:a"), "aac");
    assert_eq!(arg_after(&args, "-movflags"), "+faststart");
    assert_eq!(arg_after(&args, "-f"), "mp4");
}

#[test]
fn test_video_mp4_h265_stream_copy_from_hevc() {
    let args = video_args(VideoFormat::Mp4H265, "hevc");
    assert_eq!(arg_after(&args, "-codec:v"), "copy", "matching codec should stream-copy");
    assert!(!args.contains(&"-preset".to_string()), "no preset for stream-copy");
    assert!(!args.contains(&"-crf".to_string()), "no crf for stream-copy");
}

#[test]
fn test_video_mkv_h264_stream_copy_from_h264() {
    let args = video_args(VideoFormat::MkvH264, "h264");
    assert_eq!(arg_after(&args, "-codec:v"), "copy");
    assert_eq!(arg_after(&args, "-codec:a"), "copy");
    assert_eq!(arg_after(&args, "-f"), "matroska");
    assert!(!args.contains(&"-movflags".to_string()));
}

#[test]
fn test_video_mkv_av1_transcode_from_hevc() {
    let args = video_args(VideoFormat::MkvAv1, "hevc");
    assert_eq!(arg_after(&args, "-codec:v"), "libsvtav1");
    assert_eq!(arg_after(&args, "-codec:a"), "copy");
    assert_eq!(arg_after(&args, "-f"), "matroska");
}

#[test]
fn test_video_mkv_h265_transcode_from_h264() {
    let args = video_args(VideoFormat::MkvH265, "h264");
    assert_eq!(arg_after(&args, "-codec:v"), "libx265");
    assert!(args.contains(&"-preset".to_string()));
}

#[test]
fn test_video_common_args_present() {
    let args = video_args(VideoFormat::Mp4H264, "hevc");
    assert_eq!(args[0], "ffmpeg");
    assert_eq!(args[1], "-y");
    assert_eq!(args[2], "-loglevel");
    assert_eq!(args[3], "error");
    assert_eq!(args[4], "-i");
}

#[test]
fn audio_command_mixes_down_except_for_opus() {
    let mp3 = audio_export_command("/m/recording.mkv", "/m/audio.mp3", AudioFormat::Mp3);
    assert_eq!(
        mp3,
        vec![
            "ffmpeg", "-y", "-i", "/m/recording.mkv", "-filter_complex",
            "amix=inputs=1:duration=longest", "-ac", "1", "-vn", "-codec:a", "libmp3lame",
            "-q:a", "2", "/m/audio.mp3",
        ]
    );
    let opus = audio_export_command("/m/recording.mkv", "/m/audio.opus", AudioFormat::Opus);
    assert_eq!(
        opus,
        vec!["ffmpeg", "-y", "-i", "/m/recording.mkv", "-vn", "-codec:a", "libopus", "/m/audio.opus"]
    );
}
