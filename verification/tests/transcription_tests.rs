use hlusra::transcription::{mark_downloaded, downloaded_only, 
    all_models, append_samples, append_segment_text, full_text_or_joined, get_downloaded_models,
    is_special_token, list_available_models, provider_kind, select_active_model,
    wav_format_error, LocalProvider, ProviderKind, WhisperModel, build_full_text,
    word_token_indices, status_after_run, catalogue_model, check_selectable_model, active_model_file,
};
use hlusra::library::TranscriptionStatus;

#[test]
fn catalogue_and_urls() {
    let models = all_models();
    let names: Vec<&str> = models.iter().map(|m| m.name.as_str()).collect();
    assert_eq!(names, vec!["tiny", "base", "small", "medium", "large-v3"]);
    assert_eq!(models[4].size_bytes, 3_086_999_552);
    assert_eq!(models[0].filename(), "ggml-tiny.bin");
    assert_eq!(
        models[1].download_url(),
        "https://huggingface.co/ggerganov/whisper.cpp/resolve/main/ggml-base.bin"
    );
    assert_eq!(models[0].part_filename(), "ggml-tiny.bin.part");
}

#[test]
fn models_missing_from_disk_are_not_downloaded() {
    let listed = list_available_models("/nonexistent/models/dir");
    assert_eq!(listed.len(), 5);
    assert!(listed.iter().all(|m| !m.downloaded));
    assert!(get_downloaded_models("/nonexistent/models/dir").is_empty());
}

#[test]
fn active_model_selection() {
    let models = all_models();
    let m = select_active_model(None, &models).unwrap();
    assert_eq!(m.name, "tiny");
    let m = select_active_model(Some(" small\n".to_string()), &models).unwrap();
    assert_eq!(m.name, "small");
    assert_eq!(select_active_model(Some("huge".to_string()), &models).unwrap().name, "tiny");
    let only_base = vec![WhisperModel { name: "base".into(), size_bytes: 1, downloaded: true }];
    assert_eq!(
        select_active_model(Some("huge".to_string()), &only_base).unwrap_err(),
        "Active model 'huge' is not in the catalogue"
    );
    assert_eq!(
        select_active_model(None, &only_base).unwrap_err(),
        "Active model 'tiny' is not in the catalogue"
    );
    let p = LocalProvider::new(WhisperModel { name: "base".into(), size_bytes: 1, downloaded: true });
    assert_eq!(p.model.name, "base");
}

#[test]
fn provider_choice() {
    assert_eq!(provider_kind("api"), ProviderKind::Api);
    assert_eq!(provider_kind("local"), ProviderKind::Local);
    assert_eq!(provider_kind("whatever"), ProviderKind::Local);
}

#[test]
fn special_tokens_and_full_text() {
    assert!(is_special_token(" [_BEG_]"));
    assert!(is_special_token("<|en|>"));
    assert!(is_special_token("   "));
    assert!(!is_special_token(" hello"));
    let mut full = String::new();
    append_segment_text(&mut full, " Hello there. ");
    append_segment_text(&mut full, "General Kenobi.");
    append_segment_text(&mut full, " Indeed.");
    assert_eq!(full, "Hello there. General Kenobi.Indeed.");
    assert_eq!(full_text_or_joined(String::new(), &vec!["a".into(), "b".into()]), "a b");
    assert_eq!(full_text_or_joined("given".into(), &vec!["a".into()]), "given");
}

#[test]
fn wav_checks() {
    assert_eq!(wav_format_error(2, 16000), Some("Expected mono audio, got 2 channels".to_string()));
    assert_eq!(wav_format_error(1, 44100), Some("Expected 16000 Hz sample rate, got 44100".to_string()));
    assert_eq!(wav_format_error(1, 16000), None);
}

#[test]
fn samples_are_little_endian_i16() {
    let mut buf = vec![7i16];
    append_samples(&[0x01, 0x00, 0xff, 0xff, 0x00, 0x80, 0x34], 10, &mut buf);
    assert_eq!(buf, vec![7, 1, -1, i16::MIN]);
    append_samples(&[0x02, 0x00, 0x03, 0x00], 1, &mut buf);
    assert_eq!(buf, vec![7, 1, -1, i16::MIN, 2]);
    append_samples(&[0x02, 0x00], 0, &mut buf);
    assert_eq!(buf.len(), 5);
}

#[test]
fn full_text_joins_segments_with_single_spaces() {
    let segs: Vec<String> = vec![" Hello there.".to_string(), "How are you? ".to_string(), " Fine.".to_string()];
    assert_eq!(build_full_text(&segs), "Hello there. How are you?Fine.");
    assert_eq!(build_full_text(&vec![]), "");
}

#[test]
fn special_tokens_are_not_words() {
    let tokens: Vec<String> = vec!["[_BEG_]".to_string(), " Hello".to_string(), "<|en|>".to_string(), "  ".to_string(), " world".to_string()];
    assert_eq!(word_token_indices(&tokens), vec![1, 4]);
}

#[test]
fn transcription_status_after_a_run() {
    assert_eq!(status_after_run(true), TranscriptionStatus::Done);
    assert_eq!(status_after_run(false), TranscriptionStatus::Failed);
}

#[test]
fn catalogue_lookup_by_name() {
    let m = catalogue_model("medium").unwrap();
    assert_eq!((m.name.as_str(), m.size_bytes, m.downloaded), ("medium", 1_533_000_000, false));
    assert_eq!(catalogue_model("huge").unwrap_err(), "Unknown model: huge");
}

#[test]
fn selecting_a_model_that_is_not_downloaded_fails() {
    assert_eq!(
        check_selectable_model("/nonexistent/models/dir", "base").unwrap_err(),
        "Model 'base' has not been downloaded yet"
    );
    assert_eq!(active_model_file("/data/models"), "/data/models/.active_model");
}

#[test]
fn every_catalogue_name_reads_back_as_written() {
    let models = all_models();
    for m in &models {
        let chosen = select_active_model(Some(m.name.clone()), &models).unwrap();
        assert_eq!(chosen.name, m.name);
    }
}

#[test]
fn downloaded_flags_follow_what_was_found() {
    let present = vec![false, true, false, true, false];
    let marked = mark_downloaded(all_models(), &present);
    let flags: Vec<bool> = marked.iter().map(|m| m.downloaded).collect();
    assert_eq!(flags, present);
    assert_eq!(marked[3].name, "medium");
    let names: Vec<String> = downloaded_only(marked).into_iter().map(|m| m.name).collect();
    assert_eq!(names, vec!["base".to_string(), "medium".to_string()]);
}
