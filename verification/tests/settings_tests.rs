use hlusra::settings::{chosen_recordings_dir, home_or_env_fallback, default_recordings_dir, resolve_home_dir, AppSettings, GeneralSettings};

#[test]
fn test_validate_fixes_zero_values() {
    let mut settings = AppSettings::default();
    settings.video.fps = 0;
    settings.rag.chunk_size = 0;
    settings.audio.bitrate = 0;

    let warnings = settings.validate();
    assert!(!warnings.is_empty());
    assert_eq!(settings.video.fps, 15);
    assert_eq!(settings.rag.chunk_size, 500);
    assert_eq!(settings.audio.bitrate, 64000);
}

#[test]
fn validate_reports_each_repair_in_order() {
    let mut settings = AppSettings::default();
    settings.video.bitrate = 0;
    settings.rag.top_k = 0;
    settings.general.recordings_dir = String::new();
    let warnings = settings.validate_with_default_dir("/home/u/Hlusra/recordings");
    assert_eq!(
        warnings,
        vec![
            "rag.top_k was 0, reset to 5".to_string(),
            "video.bitrate was 0, reset to 2000000".to_string(),
            "general.recordings_dir was empty, reset to /home/u/Hlusra/recordings".to_string(),
        ]
    );
    assert_eq!(settings.rag.top_k, 5);
    assert_eq!(settings.video.bitrate, 2_000_000);
    assert_eq!(settings.general.recordings_dir, "/home/u/Hlusra/recordings");
    assert!(settings.validate().is_empty());
}

#[test]
fn test_defaults_are_sensible() {
    let settings = AppSettings::default();
    assert!(settings.general.recordings_dir.contains("Hlusra"));
    assert_eq!(settings.video.codec, "h265");
    assert_eq!(settings.video.backend, "vaapi");
    assert_eq!(settings.video.fps, 15);
    assert_eq!(settings.video.resolution, "720p");
    assert_eq!(settings.video.bitrate, 2_000_000);
    assert_eq!(settings.audio.bitrate, 64000);
    assert_eq!(settings.rag.chunk_size, 500);
    assert_eq!(settings.rag.top_k, 5);
    assert_eq!(settings.transcription.provider, "local");
    assert_eq!(settings.transcription.model, "base");
    assert!(!settings.general.start_minimized);
}

#[test]
fn test_resolve_home_dir_not_empty() {
    let home = resolve_home_dir(None);
    assert!(!home.is_empty());
}

#[test]
fn recordings_dir_is_under_home() {
    assert_eq!(default_recordings_dir("/home/u"), "/home/u/Hlusra/recordings");
    assert_eq!(default_recordings_dir("/home/u/"), "/home/u/Hlusra/recordings");
    let g = GeneralSettings::with_home("/root");
    assert_eq!(g.recordings_dir, "/root/Hlusra/recordings");
    assert_eq!(g.auto_meeting_name, "Reunião {date} {time}");
}

#[test]
fn recordings_dir_prefers_the_configured_one() {
    assert_eq!(chosen_recordings_dir(Some("/data/rec".to_string()), "/home/u"), "/data/rec");
    assert_eq!(chosen_recordings_dir(Some(String::new()), "/home/u"), "/home/u/Hlusra/recordings");
    assert_eq!(chosen_recordings_dir(None, "/home/u"), "/home/u/Hlusra/recordings");
}

#[test]
fn home_falls_back_to_env_then_tmp() {
    let s = |v: &str| Some(v.to_string());
    assert_eq!(home_or_env_fallback(s("/home/ana"), s("/other")), "/home/ana");
    assert_eq!(home_or_env_fallback(None, s("/home/env")), "/home/env");
    assert_eq!(home_or_env_fallback(None, s("")), "");
    assert_eq!(home_or_env_fallback(None, None), "/tmp/hlusra");
}
