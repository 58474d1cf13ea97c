//! Export of a meeting's audio, video and transcript: the formats, where the
//! output goes, the FFmpeg command lines, and the SRT and PDF text.
use vstd::prelude::*;
use vstd::string::*;
use crate::text::{self, join_path, owned, push_char, push_decimal, push_padded, trim_str};

verus! {

/// Supported audio export formats.
#[derive(Clone, Copy, Debug, PartialEq, Eq, Structural)]
pub enum AudioFormat {
    Mp3,
    Wav,
    Opus,
    Ogg,
}

/// File extension of an audio format.
pub open spec fn audio_extension(f: AudioFormat) -> Seq<char> {
    match f {
        AudioFormat::Mp3 => "mp3"@,
        AudioFormat::Wav => "wav"@,
        AudioFormat::Opus => "opus"@,
        AudioFormat::Ogg => "ogg"@,
    }
}

impl AudioFormat {
    /// File extension (without leading dot).
    pub fn extension(&self) -> (s: &'static str)
        ensures
            s@ == audio_extension(*self),
    {
        match self {
            AudioFormat::Mp3 => "mp3",
            AudioFormat::Wav => "wav",
            AudioFormat::Opus => "opus",
            AudioFormat::Ogg => "ogg",
        }
    }

    /// Whether this format requires mixing the tracks into one stream:
    /// every format but Opus.
    pub fn requires_mixdown(&self) -> (b: bool)
        ensures
            b == !(*self is Opus),
    {
        match self {
            AudioFormat::Mp3 | AudioFormat::Wav | AudioFormat::Ogg => true,
            AudioFormat::Opus => false,
        }
    }
}

/// Supported video export formats (container and codec).
#[derive(Clone, Copy, Debug, PartialEq, Eq, Structural)]
pub enum VideoFormat {
    Mp4H264,
    Mp4H265,
    MkvH264,
    MkvH265,
    MkvAv1,
}

/// Whether the container is MP4.
pub open spec fn video_is_mp4(f: VideoFormat) -> bool {
    f is Mp4H264 || f is Mp4H265
}

/// File extension of a video format.
pub open spec fn video_extension(f: VideoFormat) -> Seq<char> {
    if video_is_mp4(f) {
        "mp4"@
    } else {
        "mkv"@
    }
}

/// FFmpeg encoder of a video format.
pub open spec fn video_codec_name(f: VideoFormat) -> Seq<char> {
    match f {
        VideoFormat::Mp4H264 | VideoFormat::MkvH264 => "libx264"@,
        VideoFormat::Mp4H265 | VideoFormat::MkvH265 => "libx265"@,
        VideoFormat::MkvAv1 => "libsvtav1"@,
    }
}

/// FFmpeg container of a video format.
pub open spec fn video_container_name(f: VideoFormat) -> Seq<char> {
    if video_is_mp4(f) {
        "mp4"@
    } else {
        "matroska"@
    }
}

/// The codec name ffprobe reports for streams of the format's codec.
pub open spec fn video_target_codec(f: VideoFormat) -> Seq<char> {
    match f {
        VideoFormat::Mp4H264 | VideoFormat::MkvH264 => "h264"@,
        VideoFormat::Mp4H265 | VideoFormat::MkvH265 => "hevc"@,
        VideoFormat::MkvAv1 => "av1"@,
    }
}

impl VideoFormat {
    /// File extension (without leading dot).
    pub fn extension(&self) -> (s: &'static str)
        ensures
            s@ == video_extension(*self),
    {
        match self {
            VideoFormat::Mp4H264 | VideoFormat::Mp4H265 => "mp4",
            VideoFormat::MkvH264 | VideoFormat::MkvH265 | VideoFormat::MkvAv1 => "mkv",
        }
    }

    /// FFmpeg codec name.
    pub fn codec_name(&self) -> (s: &'static str)
        ensures
            s@ == video_codec_name(*self),
    {
        match self {
            VideoFormat::Mp4H264 | VideoFormat::MkvH264 => "libx264",
            VideoFormat::Mp4H265 | VideoFormat::MkvH265 => "libx265",
            VideoFormat::MkvAv1 => "libsvtav1",
        }
    }

    /// Container format name for FFmpeg.
    pub fn container_name(&self) -> (s: &'static str)
        ensures
            s@ == video_container_name(*self),
    {
        match self {
            VideoFormat::Mp4H264 | VideoFormat::Mp4H265 => "mp4",
            VideoFormat::MkvH264 | VideoFormat::MkvH265 | VideoFormat::MkvAv1 => "matroska",
        }
    }

    /// Whether the container is MP4.
    pub fn is_mp4(&self) -> (b: bool)
        ensures
            b == video_is_mp4(*self),
    {
        match self {
            VideoFormat::Mp4H264 | VideoFormat::Mp4H265 => true,
            _ => false,
        }
    }

    /// The codec name of the format's video stream as ffprobe reports it.
    pub fn target_codec(&self) -> (s: &'static str)
        ensures
            s@ == video_target_codec(*self),
    {
        match self {
            VideoFormat::Mp4H264 | VideoFormat::MkvH264 => "h264",
            VideoFormat::Mp4H265 | VideoFormat::MkvH265 => "hevc",
            VideoFormat::MkvAv1 => "av1",
        }
    }
}

/// Supported transcript export formats.
#[derive(Clone, Copy, Debug, PartialEq, Eq, Structural)]
pub enum TranscriptFormat {
    Txt,
    Json,
    Srt,
    Pdf,
}

/// File extension of a transcript format.
pub open spec fn transcript_extension(f: TranscriptFormat) -> Seq<char> {
    match f {
        TranscriptFormat::Txt => "txt"@,
        TranscriptFormat::Json => "json"@,
        TranscriptFormat::Srt => "srt"@,
        TranscriptFormat::Pdf => "pdf"@,
    }
}

impl TranscriptFormat {
    /// File extension (without leading dot).
    pub fn extension(&self) -> (s: &'static str)
        ensures
            s@ == transcript_extension(*self),
    {
        match self {
            TranscriptFormat::Txt => "txt",
            TranscriptFormat::Json => "json",
            TranscriptFormat::Srt => "srt",
            TranscriptFormat::Pdf => "pdf",
        }
    }
}

/// Where an exported file is saved.
#[derive(Debug)]
pub enum SaveMode {
    /// Into the meeting directory.
    Save,
    /// To a path the user chose.
    SaveAs { path: String },
}

/// The output path for a save mode.
pub open spec fn output_path_spec(meeting_dir: Seq<char>, filename: Seq<char>, mode: SaveMode) -> Seq<char> {
    match mode {
        SaveMode::Save => text::path_join(meeting_dir, filename),
        SaveMode::SaveAs { path } => path@,
    }
}

/// Resolves the final output path based on the save mode.
pub fn resolve_output_path(meeting_dir: &str, filename: &str, save_mode: &SaveMode) -> (p: String)
    ensures
        p@ == output_path_spec(meeting_dir@, filename@, *save_mode),
{
    match save_mode {
        SaveMode::Save => join_path(meeting_dir, filename),
        SaveMode::SaveAs { path } => path.clone(),
    }
}

/// `stem.ext`.
pub open spec fn file_name(stem: Seq<char>, ext: Seq<char>) -> Seq<char> {
    stem + seq!['.'] + ext
}

/// The default file name of an export: `stem.ext`.
pub fn export_filename(stem: &str, ext: &str) -> (s: String)
    ensures
        s@ == file_name(stem@, ext@),
{
    let mut s = owned(stem);
    push_char(&mut s, '.');
    s.append(ext);
    s
}

/// Errors of the export operations.
#[derive(Debug)]
pub enum ExportError {
    SourceNotFound(String),
    Io(String),
    FfmpegFailed(String),
    InvalidTranscript(String),
    PdfGeneration(String),
    Library(String),
}

/// The message of an export error.
pub open spec fn export_error_text(e: ExportError) -> Seq<char> {
    match e {
        ExportError::SourceNotFound(p) => "Source file not found: "@ + p@,
        ExportError::Io(m) => "IO error: "@ + m@,
        ExportError::FfmpegFailed(m) => "FFmpeg failed: "@ + m@,
        ExportError::InvalidTranscript(m) => "Invalid transcript data: "@ + m@,
        ExportError::PdfGeneration(m) => "PDF generation error: "@ + m@,
        ExportError::Library(m) => "Library error: "@ + m@,
    }
}

impl ExportError {
    /// The human-readable message.
    pub fn message(&self) -> (s: String)
        ensures
            s@ == export_error_text(*self),
    {
        let (mut s, detail) = match self {
            ExportError::SourceNotFound(p) => (owned("Source file not found: "), p),
            ExportError::Io(m) => (owned("IO error: "), m),
            ExportError::FfmpegFailed(m) => (owned("FFmpeg failed: "), m),
            ExportError::InvalidTranscript(m) => (owned("Invalid transcript data: "), m),
            ExportError::PdfGeneration(m) => (owned("PDF generation error: "), m),
            ExportError::Library(m) => (owned("Library error: "), m),
        };
        s.append(detail.as_str());
        s
    }
}

// ---------------------------------------------------------------------------
// FFmpeg command lines (program name first)
// ---------------------------------------------------------------------------

fn push_arg(v: &mut Vec<String>, a: &str)
    ensures
        text::views(final(v)@) == text::views(old(v)@).push(a@),
{
    v.push(owned(a));
    assert(text::views(v@) =~= text::views(old(v)@).push(a@));
}

/// The codec arguments of an audio export.
pub open spec fn audio_codec_args(f: AudioFormat) -> Seq<Seq<char>> {
    match f {
        AudioFormat::Mp3 => seq!["-codec:a"@, "libmp3lame"@, "-q:a"@, "2"@],
        AudioFormat::Wav => seq!["-codec:a"@, "pcm_s16le"@],
        AudioFormat::Opus => seq!["-codec:a"@, "libopus"@],
        AudioFormat::Ogg => seq!["-codec:a"@, "libvorbis"@, "-q:a"@, "4"@],
    }
}

/// The command line of an audio export: overwrite, read the recording, mix the
/// tracks down to one channel when the format needs it, drop video, encode.
pub open spec fn audio_command_spec(source: Seq<char>, output: Seq<char>, f: AudioFormat) -> Seq<Seq<char>> {
    seq!["ffmpeg"@, "-y"@, "-i"@, source] + (if f is Opus {
        Seq::empty()
    } else {
        seq!["-filter_complex"@, "amix=inputs=1:duration=longest"@, "-ac"@, "1"@]
    }) + seq!["-vn"@] + audio_codec_args(f) + seq![output]
}

/// The FFmpeg command line that exports the audio of `source` to `output`.
pub fn audio_export_command(source: &str, output: &str, format: AudioFormat) -> (v: Vec<String>)
    ensures
        text::views(v@) == audio_command_spec(source@, output@, format),
{
    let mut v: Vec<String> = Vec::new();
    push_arg(&mut v, "ffmpeg");
    push_arg(&mut v, "-y");
    push_arg(&mut v, "-i");
    push_arg(&mut v, source);
    if format.requires_mixdown() {
        push_arg(&mut v, "-filter_complex");
        push_arg(&mut v, "amix=inputs=1:duration=longest");
        push_arg(&mut v, "-ac");
        push_arg(&mut v, "1");
    }
    push_arg(&mut v, "-vn");
    match format {
        AudioFormat::Mp3 => {
            push_arg(&mut v, "-codec:a");
            push_arg(&mut v, "libmp3lame");
            push_arg(&mut v, "-q:a");
            push_arg(&mut v, "2");
        },
        AudioFormat::Wav => {
            push_arg(&mut v, "-codec:a");
            push_arg(&mut v, "pcm_s16le");
        },
        AudioFormat::Opus => {
            push_arg(&mut v, "-codec:a");
            push_arg(&mut v, "libopus");
        },
        AudioFormat::Ogg => {
            push_arg(&mut v, "-codec:a");
            push_arg(&mut v, "libvorbis");
            push_arg(&mut v, "-q:a");
            push_arg(&mut v, "4");
        },
    }
    push_arg(&mut v, output);
    assert(text::views(v@) =~= audio_command_spec(source@, output@, format));
    v
}

/// The command line of a video export: the video stream is copied when the
/// source already has the target codec and re-encoded otherwise; audio becomes
/// AAC in MP4 (which cannot hold Opus) and is copied in Matroska; MP4 output
/// gets its index moved to the front.
pub open spec fn video_command_spec(
    source: Seq<char>,
    output: Seq<char>,
    f: VideoFormat,
    source_codec: Seq<char>,
) -> Seq<Seq<char>> {
    seq!["ffmpeg"@, "-y"@, "-loglevel"@, "error"@, "-i"@, source] + (if source_codec
        == video_target_codec(f) {
        seq!["-codec:v"@, "copy"@]
    } else {
        seq!["-codec:v"@, video_codec_name(f), "-preset"@, "medium"@, "-crf"@, "20"@]
    }) + (if video_is_mp4(f) {
        seq!["-codec:a"@, "aac"@, "-b:a"@, "128k"@]
    } else {
        seq!["-codec:a"@, "copy"@]
    }) + seq!["-f"@, video_container_name(f)] + (if video_is_mp4(f) {
        seq!["-movflags"@, "+faststart"@]
    } else {
        Seq::empty()
    }) + seq![output]
}

/// The FFmpeg command line that exports the video of `source` to `output`,
/// given the codec ffprobe found in the source.
pub fn video_export_command(source: &str, output: &str, format: VideoFormat, source_codec: &str) -> (v: Vec<String>)
    ensures
        text::views(v@) == video_command_spec(source@, output@, format, source_codec@),
{
    let mut v: Vec<String> = Vec::new();
    push_arg(&mut v, "ffmpeg");
    push_arg(&mut v, "-y");
    push_arg(&mut v, "-loglevel");
    push_arg(&mut v, "error");
    push_arg(&mut v, "-i");
    push_arg(&mut v, source);
    let can_copy = owned(source_codec) == owned(format.target_codec());
    if can_copy {
        push_arg(&mut v, "-codec:v");
        push_arg(&mut v, "copy");
    } else {
        push_arg(&mut v, "-codec:v");
        push_arg(&mut v, format.codec_name());
        push_arg(&mut v, "-preset");
        push_arg(&mut v, "medium");
        push_arg(&mut v, "-crf");
        push_arg(&mut v, "20");
    }
    if format.is_mp4() {
        push_arg(&mut v, "-codec:a");
        push_arg(&mut v, "aac");
        push_arg(&mut v, "-b:a");
        push_arg(&mut v, "128k");
    } else {
        push_arg(&mut v, "-codec:a");
        push_arg(&mut v, "copy");
    }
    push_arg(&mut v, "-f");
    push_arg(&mut v, format.container_name());
    if format.is_mp4() {
        push_arg(&mut v, "-movflags");
        push_arg(&mut v, "+faststart");
    }
    push_arg(&mut v, output);
    assert(text::views(v@) =~= video_command_spec(source@, output@, format, source_codec@));
    v
}

/// The ffprobe command line that prints the codec of the first video stream.
pub fn probe_codec_command(source: &str) -> (v: Vec<String>)
    ensures
        text::views(v@) == seq![
            "ffprobe"@,
            "-v"@,
            "error"@,
            "-select_streams"@,
            "v:0"@,
            "-show_entries"@,
            "stream=codec_name"@,
            "-of"@,
            "csv=p=0"@,
            source@,
        ],
{
    let mut v: Vec<String> = Vec::new();
    push_arg(&mut v, "ffprobe");
    push_arg(&mut v, "-v");
    push_arg(&mut v, "error");
    push_arg(&mut v, "-select_streams");
    push_arg(&mut v, "v:0");
    push_arg(&mut v, "-show_entries");
    push_arg(&mut v, "stream=codec_name");
    push_arg(&mut v, "-of");
    push_arg(&mut v, "csv=p=0");
    push_arg(&mut v, source);
    v
}

/// The FFmpeg command line that grabs a 320-pixel-wide frame at 10 s as a thumbnail.
pub fn thumbnail_command(video: &str, output: &str) -> (v: Vec<String>)
    ensures
        text::views(v@) == seq![
            "ffmpeg"@,
            "-y"@,
            "-loglevel"@,
            "error"@,
            "-i"@,
            video@,
            "-ss"@,
            "10"@,
            "-vframes"@,
            "1"@,
            "-vf"@,
            "scale=320:-1"@,
            output@,
        ],
{
    let mut v: Vec<String> = Vec::new();
    push_arg(&mut v, "ffmpeg");
    push_arg(&mut v, "-y");
    push_arg(&mut v, "-loglevel");
    push_arg(&mut v, "error");
    push_arg(&mut v, "-i");
    push_arg(&mut v, video);
    push_arg(&mut v, "-ss");
    push_arg(&mut v, "10");
    push_arg(&mut v, "-vframes");
    push_arg(&mut v, "1");
    push_arg(&mut v, "-vf");
    push_arg(&mut v, "scale=320:-1");
    push_arg(&mut v, output);
    v
}

/// The FFmpeg command line that extracts the whole audio as Opus for playback.
pub fn playback_audio_command(recording: &str, output: &str) -> (v: Vec<String>)
    ensures
        text::views(v@) == seq![
            "ffmpeg"@,
            "-y"@,
            "-loglevel"@,
            "error"@,
            "-i"@,
            recording@,
            "-vn"@,
            "-codec:a"@,
            "libopus"@,
            "-b:a"@,
            "128k"@,
            output@,
        ],
{
    let mut v: Vec<String> = Vec::new();
    push_arg(&mut v, "ffmpeg");
    push_arg(&mut v, "-y");
    push_arg(&mut v, "-loglevel");
    push_arg(&mut v, "error");
    push_arg(&mut v, "-i");
    push_arg(&mut v, recording);
    push_arg(&mut v, "-vn");
    push_arg(&mut v, "-codec:a");
    push_arg(&mut v, "libopus");
    push_arg(&mut v, "-b:a");
    push_arg(&mut v, "128k");
    push_arg(&mut v, output);
    v
}

// ---------------------------------------------------------------------------
// Timestamps, SRT and PDF text
// ---------------------------------------------------------------------------

/// `HH:MM:SS,mmm` for a time in whole milliseconds.
pub open spec fn srt_time(ms: nat) -> Seq<char> {
    let secs = ms / 1000;
    let mins = secs / 60;
    text::padded(mins / 60, 2) + seq![':'] + text::padded(mins % 60, 2) + seq![':'] + text::padded(
        secs % 60,
        2,
    ) + seq![','] + text::padded(ms % 1000, 3)
}

/// Formats a time in whole milliseconds as an SRT timestamp `HH:MM:SS,mmm`.
pub fn format_srt_timestamp(total_ms: u64) -> (s: String)
    ensures
        s@ == srt_time(total_ms as nat),
{
    let ms = total_ms % 1000;
    let total_secs = total_ms / 1000;
    let secs = total_secs % 60;
    let total_mins = total_secs / 60;
    let mins = total_mins % 60;
    let hours = total_mins / 60;
    let mut s = String::new();
    push_padded(&mut s, hours, 2);
    push_char(&mut s, ':');
    push_padded(&mut s, mins, 2);
    push_char(&mut s, ':');
    push_padded(&mut s, secs, 2);
    push_char(&mut s, ',');
    push_padded(&mut s, ms, 3);
    assert(s@ =~= srt_time(total_ms as nat));
    s
}

/// `HH:MM:SS` for a time in whole seconds.
pub open spec fn readable_time(secs: nat) -> Seq<char> {
    let mins = secs / 60;
    text::padded(mins / 60, 2) + seq![':'] + text::padded(mins % 60, 2) + seq![':'] + text::padded(
        secs % 60,
        2,
    )
}

/// Formats a time in whole seconds as `HH:MM:SS`.
pub fn format_readable_timestamp(total_secs: u64) -> (s: String)
    ensures
        s@ == readable_time(total_secs as nat),
{
    let secs = total_secs % 60;
    let total_mins = total_secs / 60;
    let mins = total_mins % 60;
    let hours = total_mins / 60;
    let mut s = String::new();
    push_padded(&mut s, hours, 2);
    push_char(&mut s, ':');
    push_padded(&mut s, mins, 2);
    push_char(&mut s, ':');
    push_padded(&mut s, secs, 2);
    assert(s@ =~= readable_time(total_secs as nat));
    s
}

/// A transcript segment for subtitles, with times in whole milliseconds.
#[derive(Debug)]
pub struct SrtEntry {
    pub start_ms: u64,
    pub end_ms: u64,
    pub text: String,
}

/// The subtitle block for entry number `n` (counting from 1).
pub open spec fn srt_block(n: nat, e: SrtEntry) -> Seq<char> {
    text::decimal(n) + seq!['\n'] + srt_time(e.start_ms as nat) + " --> "@ + srt_time(
        e.end_ms as nat,
    ) + seq!['\n'] + text::trim(e.text@) + "\n\n"@
}

/// The SRT document: one numbered block per entry.
pub open spec fn srt_document(es: Seq<SrtEntry>) -> Seq<char>
    decreases es.len(),
{
    if es.len() == 0 {
        Seq::empty()
    } else {
        srt_document(es.drop_last()) + srt_block(es.len(), es.last())
    }
}

/// Builds an SRT subtitle document.
#[verifier::spinoff_prover]
#[verifier::rlimit(30)]
pub fn build_srt(entries: &Vec<SrtEntry>) -> (s: String)
    ensures
        s@ == srt_document(entries@),
{
    let mut s = String::new();
    let n = entries.len();
    let mut i: usize = 0;
    while i < n
        invariant
            n == entries.len(),
            i <= n,
            s@ == srt_document(entries@.take(i as int)),
        decreases n - i,
    {
        let e = &entries[i];
        let ghost before = s@;
        push_decimal(&mut s, i as u64 + 1);
        push_char(&mut s, '\n');
        let a = format_srt_timestamp(e.start_ms);
        s.append(a.as_str());
        s.append(" --> ");
        let b = format_srt_timestamp(e.end_ms);
        s.append(b.as_str());
        push_char(&mut s, '\n');
        let t = trim_str(e.text.as_str());
        s.append(t.as_str());
        s.append("\n\n");
        proof {
            let pre = entries@.take(i + 1);
            assert(pre.drop_last() =~= entries@.take(i as int));
            assert(pre.last() == entries@[i as int]);
            assert(s@ =~= before + srt_block((i + 1) as nat, entries@[i as int]));
        }
        i += 1;
    }
    assert(entries@.take(n as int) =~= entries@);
    s
}

/// The heading of a segment in the PDF: `[HH:MM:SS - HH:MM:SS]`.
pub fn pdf_segment_heading(start_secs: u64, end_secs: u64) -> (s: String)
    ensures
        s@ == seq!['['] + readable_time(start_secs as nat) + " - "@ + readable_time(end_secs as nat)
            + seq![']'],
{
    let mut s = String::new();
    push_char(&mut s, '[');
    let a = format_readable_timestamp(start_secs);
    s.append(a.as_str());
    s.append(" - ");
    let b = format_readable_timestamp(end_secs);
    s.append(b.as_str());
    push_char(&mut s, ']');
    s
}

// ---------------------------------------------------------------------------
// Laws of the export command lines
// ---------------------------------------------------------------------------

/// The audio encoder arguments of an audio export sit just before the output
/// path and depend on the format alone: MP3 is LAME at quality 2, WAV is
/// 16-bit PCM, Opus is libopus and Ogg is Vorbis at quality 4; every format
/// but Opus is mixed down to one channel, and the command is exactly the
/// fixed prefix, the mixdown, `-vn`, the encoder and the output.
pub proof fn lemma_audio_encoder_by_format(source: Seq<char>, output: Seq<char>, f: AudioFormat)
    ensures
        ({
            let v = audio_command_spec(source, output, f);
            let n = v.len() as int;
            &&& v.subrange(0, 4) == seq!["ffmpeg"@, "-y"@, "-i"@, source]
            &&& v[n - 1] == output
            &&& f is Mp3 ==> n == 14 && v.subrange(4, 14) == seq![
                "-filter_complex"@, "amix=inputs=1:duration=longest"@, "-ac"@, "1"@, "-vn"@,
                "-codec:a"@, "libmp3lame"@, "-q:a"@, "2"@, output]
            &&& f is Wav ==> n == 12 && v.subrange(4, 12) == seq![
                "-filter_complex"@, "amix=inputs=1:duration=longest"@, "-ac"@, "1"@, "-vn"@,
                "-codec:a"@, "pcm_s16le"@, output]
            &&& f is Opus ==> n == 8 && v.subrange(4, 8) == seq!["-vn"@, "-codec:a"@, "libopus"@, output]
            &&& f is Ogg ==> n == 14 && v.subrange(4, 14) == seq![
                "-filter_complex"@, "amix=inputs=1:duration=longest"@, "-ac"@, "1"@, "-vn"@,
                "-codec:a"@, "libvorbis"@, "-q:a"@, "4"@, output]
        }),
{
    let v = audio_command_spec(source, output, f);
    reveal_strlit("-filter_complex");
    match f {
        AudioFormat::Mp3 => {
            assert(v.subrange(4, 14) =~= seq![
                "-filter_complex"@, "amix=inputs=1:duration=longest"@, "-ac"@, "1"@, "-vn"@,
                "-codec:a"@, "libmp3lame"@, "-q:a"@, "2"@, output]);
        },
        AudioFormat::Wav => {
            assert(v.subrange(4, 12) =~= seq![
                "-filter_complex"@, "amix=inputs=1:duration=longest"@, "-ac"@, "1"@, "-vn"@,
                "-codec:a"@, "pcm_s16le"@, output]);
        },
        AudioFormat::Opus => {
            assert(v.subrange(4, 8) =~= seq!["-vn"@, "-codec:a"@, "libopus"@, output]);
        },
        AudioFormat::Ogg => {
            assert(v.subrange(4, 14) =~= seq![
                "-filter_complex"@, "amix=inputs=1:duration=longest"@, "-ac"@, "1"@, "-vn"@,
                "-codec:a"@, "libvorbis"@, "-q:a"@, "4"@, output]);
        },
    }
    assert(v.subrange(0, 4) =~= seq!["ffmpeg"@, "-y"@, "-i"@, source]);
}

/// The Ogg and Opus exports use different encoders.
pub proof fn lemma_ogg_is_not_opus(source: Seq<char>, output: Seq<char>)
    ensures
        audio_command_spec(source, output, AudioFormat::Ogg)[10] == "libvorbis"@,
        audio_command_spec(source, output, AudioFormat::Opus)[6] == "libopus"@,
        "libvorbis"@ != "libopus"@,
{
    lemma_audio_encoder_by_format(source, output, AudioFormat::Ogg);
    lemma_audio_encoder_by_format(source, output, AudioFormat::Opus);
    assert(audio_command_spec(source, output, AudioFormat::Ogg).subrange(4, 14)[6]
        == audio_command_spec(source, output, AudioFormat::Ogg)[10]);
    assert(audio_command_spec(source, output, AudioFormat::Opus).subrange(4, 8)[2]
        == audio_command_spec(source, output, AudioFormat::Opus)[6]);
    reveal_strlit("libvorbis");
    reveal_strlit("libopus");
    assert("libvorbis"@[3] != "libopus"@[3]);
}

/// In a video export the audio depends on the container alone: for both MP4
/// formats and every source codec the command ends with AAC at 128 kbit/s,
/// the `mp4` muxer with its index in front and the output; for Matroska it
/// ends with the audio copied, the `matroska` muxer and the output. Before
/// that tail stand the fixed prefix and the video arguments: `-codec:v copy`,
/// or `-codec:v` with an encoder at preset medium and CRF 20.
pub proof fn lemma_video_audio_by_container(
    source: Seq<char>,
    output: Seq<char>,
    f: VideoFormat,
    source_codec: Seq<char>,
)
    ensures
        ({
            let v = video_command_spec(source, output, f, source_codec);
            let n = v.len() as int;
            let mp4 = f is Mp4H264 || f is Mp4H265;
            let t: int = if mp4 { 9 } else { 5 };
            &&& v.subrange(0, 7) == seq!["ffmpeg"@, "-y"@, "-loglevel"@, "error"@, "-i"@, source, "-codec:v"@]
            &&& (n == 8 + t && v[7] == "copy"@) || (n == 12 + t && v.subrange(8, 12) == seq![
                "-preset"@, "medium"@, "-crf"@, "20"@])
            &&& mp4 ==> v.subrange(n - 9, n) == seq![
                "-codec:a"@, "aac"@, "-b:a"@, "128k"@, "-f"@, "mp4"@, "-movflags"@, "+faststart"@, output]
            &&& !mp4 ==> v.subrange(n - 5, n) == seq!["-codec:a"@, "copy"@, "-f"@, "matroska"@, output]
        }),
{
    let v = video_command_spec(source, output, f, source_codec);
    let n = v.len() as int;
    assert(v.subrange(0, 7) =~= seq!["ffmpeg"@, "-y"@, "-loglevel"@, "error"@, "-i"@, source, "-codec:v"@]);
    if source_codec == video_target_codec(f) {
        assert(v[7] == "copy"@);
    } else {
        assert(v.subrange(8, 12) =~= seq!["-preset"@, "medium"@, "-crf"@, "20"@]);
    }
    if f is Mp4H264 || f is Mp4H265 {
        assert(v.subrange(n - 9, n) =~= seq![
            "-codec:a"@, "aac"@, "-b:a"@, "128k"@, "-f"@, "mp4"@, "-movflags"@, "+faststart"@, output]);
    } else {
        assert(v.subrange(n - 5, n) =~= seq!["-codec:a"@, "copy"@, "-f"@, "matroska"@, output]);
    }
}

} // verus!
