use hlusra::chunker::{chunk_transcript, count_words, estimate_tokens, has_significant_cjk, is_cjk_char};
use hlusra::prompt::{build_context, build_messages, format_timestamp, ContextExcerpt};
use hlusra::rag::{
    api_error_message, endpoint_url, ensure_ready_action, model_status, vector_table_sql,
    ApiErrorBody, ApiErrorDetail, ModelStatus, RagConfig, VectorStoreError,
};
use hlusra::settings::RagSettings;
use hlusra::sse::{classify_line, SseBuffer, SseLine};

struct Seg {
    start: f64,
    end: f64,
    text: &'static str,
}

fn seg(start: f64, end: f64, text: &'static str) -> Seg {
    Seg { start, end, text }
}

fn texts(segs: &[Seg]) -> Vec<String> {
    segs.iter().map(|s| s.text.to_string()).collect()
}

#[test]
fn test_empty_transcript_produces_no_chunks() {
    let segs: Vec<Seg> = vec![];
    let chunks = chunk_transcript("m1", &texts(&segs), 500);
    assert!(chunks.is_empty());
}

#[test]
fn test_single_segment_produces_one_chunk() {
    let segs = vec![seg(0.0, 5.0, "Hello world")];
    let chunks = chunk_transcript("m1", &texts(&segs), 500);
    assert_eq!(chunks.len(), 1);
    assert_eq!(chunks[0].meeting_id, "m1");
    assert_eq!(chunks[0].chunk_index, 0);
    assert!((segs[chunks[0].first_segment].start - 0.0).abs() < f64::EPSILON);
    assert!((segs[chunks[0].last_segment].end - 5.0).abs() < f64::EPSILON);
}

#[test]
fn test_multiple_segments_grouped_by_chunk_size() {
    let segs = vec![
        seg(0.0, 2.0, "one two three"),
        seg(2.0, 4.0, "four five six"),
        seg(4.0, 6.0, "seven eight nine"),
        seg(6.0, 8.0, "ten eleven twelve"),
    ];
    let chunks = chunk_transcript("m1", &texts(&segs), 5);
    assert_eq!(chunks.len(), 4);
    assert_eq!(chunks[0].chunk_index, 0);
    assert_eq!(chunks[3].chunk_index, 3);
}

#[test]
fn test_timestamps_preserved() {
    let segs = vec![seg(10.0, 15.0, "hello"), seg(15.0, 20.0, "world")];
    let chunks = chunk_transcript("m1", &texts(&segs), 500);
    assert_eq!(chunks.len(), 1);
    assert!((segs[chunks[0].first_segment].start - 10.0).abs() < f64::EPSILON);
    assert!((segs[chunks[0].last_segment].end - 20.0).abs() < f64::EPSILON);
}

#[test]
fn test_chunk_ids_are_unique() {
    let segs = vec![seg(0.0, 1.0, "a"), seg(1.0, 2.0, "b"), seg(2.0, 3.0, "c")];
    let chunks = chunk_transcript("m1", &texts(&segs), 1);
    let ids: std::collections::HashSet<&str> = chunks.iter().map(|c| c.id.as_str()).collect();
    assert_eq!(ids.len(), chunks.len());
}

#[test]
fn chunks_skip_blank_segments_and_join_with_spaces() {
    let segs = vec![seg(0.0, 1.0, "  "), seg(1.0, 2.0, " alpha "), seg(2.0, 3.0, ""), seg(3.0, 4.0, "beta")];
    let chunks = chunk_transcript("m9", &texts(&segs), 10);
    assert_eq!(chunks.len(), 1);
    assert_eq!(chunks[0].text, "alpha  beta");
    assert_eq!(chunks[0].first_segment, 1);
    assert_eq!(chunks[0].last_segment, 3);
    assert!(chunk_transcript("m9", &texts(&segs), 0).is_empty());
}

#[test]
fn oversized_segment_stands_alone() {
    let segs = vec![seg(0.0, 1.0, "a b"), seg(1.0, 2.0, "c d e f g h"), seg(2.0, 3.0, "i")];
    let chunks = chunk_transcript("m", &texts(&segs), 3);
    let spans: Vec<(usize, usize)> = chunks.iter().map(|c| (c.first_segment, c.last_segment)).collect();
    assert_eq!(spans, vec![(0, 0), (1, 1), (2, 2)]);
}

#[test]
fn test_estimate_tokens_latin() {
    assert_eq!(estimate_tokens("hello world foo bar"), 4);
    assert_eq!(estimate_tokens("one"), 1);
    assert_eq!(estimate_tokens(""), 0);
}

#[test]
fn test_estimate_tokens_cjk() {
    let cjk = "\u{4F60}\u{597D}\u{4E16}\u{754C}\u{65E9}\u{5B89}";
    assert_eq!(estimate_tokens(cjk), 3);
    assert_eq!(estimate_tokens("\u{4F60}\u{597D}\u{4E16}"), 2);
}

#[test]
fn test_has_significant_cjk() {
    assert!(has_significant_cjk("\u{4F60}\u{597D}\u{4E16}\u{754C}"));
    assert!(!has_significant_cjk("hello world"));
    assert!(!has_significant_cjk("hello world \u{4F60}\u{597D}"));
}

#[test]
fn cjk_threshold_is_more_than_thirty_percent() {
    // 4 of 13 non-whitespace characters (30.8%).
    assert!(has_significant_cjk("\u{4F60}\u{597D}\u{4E16}\u{754C}abcdefghi"));
    // 3 of 10 (exactly 30%).
    assert!(!has_significant_cjk("\u{4F60}\u{597D}\u{4E16}abcdefg"));
    assert!(!has_significant_cjk(""));
    assert_eq!(estimate_tokens("\u{4F60}\u{597D}\u{4E16}\u{754C}abcdefghi"), 7);
}

#[test]
fn cjk_ranges_and_word_counts() {
    assert!(is_cjk_char('\u{3042}'));
    assert!(!is_cjk_char('\u{AC00}'));
    assert!(is_cjk_char('\u{30A2}') && is_cjk_char('\u{F900}') && is_cjk_char('\u{3400}'));
    assert!(!is_cjk_char('a'));
    assert_eq!(count_words("  a\tb\u{3000}c \n"), 3);
    assert_eq!(count_words("   "), 0);
}

#[test]
fn test_format_timestamp() {
    assert_eq!(format_timestamp(0.0f64 as u64), "00:00");
    assert_eq!(format_timestamp(65.0f64 as u64), "01:05");
    assert_eq!(format_timestamp(3661.0f64 as u64), "61:01");
}

fn excerpt(start: f64, end: f64, text: &str) -> ContextExcerpt {
    ContextExcerpt { start_secs: start as u64, end_secs: end as u64, text: text.to_string() }
}

#[test]
fn test_build_messages_with_chunks() {
    let chunks = vec![
        excerpt(0.0, 30.0, "Welcome everyone to the meeting."),
        excerpt(30.0, 60.0, "Let's discuss the roadmap."),
    ];
    let messages = build_messages(&chunks, "What was discussed?");
    assert_eq!(messages.len(), 3);
    assert_eq!(messages[0].role, "system");
    assert!(messages[0].content.contains("AI assistant"));
    assert_eq!(messages[1].role, "system");
    assert!(messages[1].content.contains("Excerpt 1"));
    assert!(messages[1].content.contains("00:00 - 00:30"));
    assert!(messages[1].content.contains("Excerpt 2"));
    assert!(messages[1].content.contains("00:30 - 01:00"));
    assert_eq!(messages[2].role, "user");
    assert_eq!(messages[2].content, "What was discussed?");
}

#[test]
fn test_build_messages_without_chunks() {
    let messages = build_messages(&Vec::new(), "What was discussed?");
    assert_eq!(messages.len(), 2);
    assert_eq!(messages[0].role, "system");
    assert_eq!(messages[1].role, "user");
}

#[test]
fn test_context_includes_timestamps() {
    let chunks = vec![excerpt(125.0, 185.0, "Some discussion")];
    let context = build_context(&chunks);
    assert!(context.contains("02:05 - 03:05"));
    assert!(context.contains("Some discussion"));
}

#[test]
fn context_text_is_exact() {
    let context = build_context(&vec![excerpt(125.0, 185.0, "  Some discussion \n")]);
    assert_eq!(
        context,
        "Here are the most relevant excerpts from the meeting transcript:\n\n[Excerpt 1 | 02:05 - 03:05]\nSome discussion\n\n"
    );
}

#[test]
fn test_rag_config_defaults() {
    let config = RagConfig::default();
    assert_eq!(config.chunk_size, 500);
    assert_eq!(config.top_k, 5);
    assert!(config.embeddings_url.is_empty());
}

#[test]
fn rag_config_from_settings_and_validation() {
    let mut s = RagSettings::default();
    s.embeddings_url = "https://e.example/v1".to_string();
    s.chunk_size = 300;
    s.top_k = 7;
    let c = RagConfig::from_settings(&s);
    assert_eq!(c.chunk_size, 300);
    assert_eq!(c.top_k, 7);
    assert_eq!(c.validate(), Err("Chat URL is not configured".to_string()));
    assert_eq!(RagConfig::default().validate(), Err("Embeddings URL is not configured".to_string()));
    s.chat_url = "https://c.example".to_string();
    assert_eq!(RagConfig::from_settings(&s).validate(), Ok(()));
}

#[test]
fn endpoints_drop_trailing_slashes() {
    assert_eq!(endpoint_url("https://openrouter.ai/api/v1//", "/embeddings"), "https://openrouter.ai/api/v1/embeddings");
    assert_eq!(endpoint_url("http://localhost:8080", "/chat/completions"), "http://localhost:8080/chat/completions");
}

#[test]
fn api_errors_prefer_the_body_message() {
    let body = ApiErrorBody { error: Some(ApiErrorDetail { message: Some("quota exceeded".to_string()) }) };
    assert_eq!(api_error_message(Some(body), 429), "quota exceeded");
    assert_eq!(api_error_message(Some(ApiErrorBody { error: None }), 500), "HTTP 500");
    assert_eq!(api_error_message(None, 404), "HTTP 404");
}

#[test]
fn model_status_drives_table_setup() {
    assert!(matches!(model_status(None, "m"), ModelStatus::Fresh));
    assert!(matches!(model_status(Some("m".into()), "m"), ModelStatus::Match));
    match model_status(Some("old".into()), "new") {
        ModelStatus::Changed { stored } => assert_eq!(stored, "old"),
        other => panic!("unexpected {:?}", other),
    }
    assert!(matches!(ensure_ready_action(ModelStatus::Fresh, "m"), Ok(true)));
    assert!(matches!(ensure_ready_action(ModelStatus::Match, "m"), Ok(false)));
    match ensure_ready_action(ModelStatus::Changed { stored: "old".into() }, "new") {
        Err(VectorStoreError::ModelChanged { stored, configured }) => {
            assert_eq!(stored, "old");
            assert_eq!(configured, "new");
        }
        other => panic!("unexpected {:?}", other),
    }
    assert!(vector_table_sql(1536).contains("embedding float[1536]"));
}

#[test]
fn sse_lines_are_split_and_classified() {
    let mut buf = SseBuffer::new();
    buf.extend(b": keep-alive\ndata: {\"x\":1}\r\nda");
    let l1 = buf.next_line().unwrap();
    assert!(matches!(classify_line(l1), SseLine::Skip));
    let l2 = buf.next_line().unwrap();
    match classify_line(l2) {
        SseLine::Data(d) => assert_eq!(d, "{\"x\":1}"),
        other => panic!("unexpected {:?}", other),
    }
    assert!(buf.next_line().is_none());
    buf.extend(b"ta: [DONE]");
    assert!(buf.next_line().is_none());
    buf.finish();
    let l3 = buf.next_line().unwrap();
    assert!(matches!(classify_line(l3), SseLine::Done));
    assert!(buf.is_empty());
    assert!(matches!(classify_line(vec![0xff, 0xfe]), SseLine::Skip));
    assert!(matches!(classify_line(b"event: ping".to_vec()), SseLine::Skip));
}
