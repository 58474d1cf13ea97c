use hlusra::chat::{delta_contents, first_choice_content, stream_parse_error, ChatError};
use hlusra::chunker::chunk_transcript;
use hlusra::embeddings::{order_embeddings, stable_order_by_index, EmbeddingShape, EmbeddingsError};
use hlusra::rag::{dimension_from_meta, VectorStoreError};

fn shape(index: usize, dimension: usize) -> EmbeddingShape {
    EmbeddingShape { index, dimension }
}

fn owned(v: &[&str]) -> Vec<String> {
    v.iter().map(|s| s.to_string()).collect()
}

#[test]
fn chunks_respect_token_budget() {
    let texts = owned(&["a b", "c", "d e f", "g"]);
    let chunks = chunk_transcript("m", &texts, 3);
    let spans: Vec<(usize, usize)> = chunks.iter().map(|c| (c.first_segment, c.last_segment)).collect();
    assert_eq!(spans, vec![(0, 1), (2, 2), (3, 3)]);
    assert_eq!(chunks[0].text, "a b c");
    let indices: Vec<usize> = chunks.iter().map(|c| c.chunk_index).collect();
    assert_eq!(indices, vec![0, 1, 2]);
}

#[test]
fn embeddings_are_put_back_in_input_order() {
    let shapes = vec![shape(2, 4), shape(0, 4), shape(1, 4)];
    let order = order_embeddings(3, &shapes).unwrap();
    assert_eq!(order, vec![1, 2, 0]);
}

#[test]
fn embeddings_with_equal_index_keep_their_order() {
    let shapes = vec![shape(1, 2), shape(0, 2), shape(1, 2), shape(0, 2)];
    assert_eq!(stable_order_by_index(&shapes), vec![1, 3, 0, 2]);
}

#[test]
fn empty_embedding_response_is_an_error() {
    assert!(matches!(order_embeddings(2, &vec![]), Err(EmbeddingsError::EmptyResponse)));
}

#[test]
fn embedding_count_mismatch_is_reported() {
    match order_embeddings(3, &vec![shape(0, 4), shape(1, 4)]) {
        Err(EmbeddingsError::DimensionMismatch { expected, got }) => {
            assert_eq!((expected, got), (3, 2));
        }
        other => panic!("unexpected {:?}", other),
    }
}

#[test]
fn embedding_dimension_mismatch_is_reported_against_the_first() {
    // Sorted by index the entries are (0, 4), (1, 3), (2, 5).
    match order_embeddings(3, &vec![shape(2, 5), shape(1, 3), shape(0, 4)]) {
        Err(EmbeddingsError::DimensionMismatch { expected, got }) => {
            assert_eq!((expected, got), (4, 3));
        }
        other => panic!("unexpected {:?}", other),
    }
}

#[test]
fn embeddings_error_messages() {
    assert_eq!(EmbeddingsError::EmptyResponse.message(), "No embeddings returned from API");
    assert_eq!(
        EmbeddingsError::DimensionMismatch { expected: 3, got: 2 }.message(),
        "Embedding dimension mismatch: expected 3, got 2"
    );
    assert_eq!(
        EmbeddingsError::Api { status: 401, message: "bad key".to_string() }.message(),
        "API error (401): bad key"
    );
    assert_eq!(EmbeddingsError::Http("timeout".to_string()).message(), "HTTP error: timeout");
}

#[test]
fn streamed_deltas_skip_missing_and_empty_contents() {
    let deltas = vec![Some("Hel".to_string()), None, Some(String::new()), Some("lo".to_string())];
    assert_eq!(delta_contents(deltas), vec!["Hel".to_string(), "lo".to_string()]);
    assert!(delta_contents(vec![]).is_empty());
}

#[test]
fn non_streaming_answer_takes_the_first_choice() {
    assert_eq!(first_choice_content(owned(&["first", "second"])).unwrap(), "first");
    match first_choice_content(vec![]) {
        Err(e) => assert_eq!(e.message(), "Stream error: API returned empty choices"),
        Ok(_) => panic!("expected an error"),
    }
}

#[test]
fn chat_error_messages() {
    assert_eq!(
        stream_parse_error("expected value").message(),
        "Stream error: Failed to parse SSE chunk: expected value"
    );
    assert_eq!(
        ChatError::Api { status: 500, message: "HTTP 500".to_string() }.message(),
        "API error (500): HTTP 500"
    );
    assert_eq!(ChatError::Json("eof".to_string()).message(), "JSON parse error: eof");
    assert_eq!(ChatError::Http("reset".to_string()).message(), "HTTP error: reset");
}

#[test]
fn stored_dimension_is_parsed() {
    assert!(matches!(dimension_from_meta(None), Ok(None)));
    assert!(matches!(dimension_from_meta(Some("1536".to_string())), Ok(Some(1536))));
    assert!(matches!(dimension_from_meta(Some("+8".to_string())), Ok(Some(8))));
    match dimension_from_meta(Some("abc".to_string())) {
        Err(VectorStoreError::Db(m)) => {
            assert!(m.starts_with("Invalid parameter name: invalid embedding_dimension 'abc': "));
        }
        other => panic!("unexpected {:?}", other),
    }
    assert!(dimension_from_meta(Some(" 8".to_string())).is_err());
}

#[test]
fn vector_store_error_messages() {
    assert_eq!(
        VectorStoreError::ModelChanged { stored: "a".to_string(), configured: "b".to_string() }.message(),
        "Model changed: stored=a, configured=b. Reindex required."
    );
    assert_eq!(
        VectorStoreError::NoDimension.message(),
        "No embedding dimension stored \u{2014} database needs initialisation"
    );
    assert_eq!(VectorStoreError::Db("x".to_string()).message(), "Database error: x");
}

fn drain(buf: &mut hlusra::sse::SseBuffer) -> Vec<Vec<u8>> {
    let mut lines = Vec::new();
    while let Some(line) = buf.next_line() {
        lines.push(line);
    }
    lines
}

#[test]
fn stream_lines_do_not_depend_on_how_bytes_arrive() {
    let stream: &[u8] = b"data: {\"a\":1}\n\ndata: [DONE]\npartial";
    let mut whole = hlusra::sse::SseBuffer::new();
    whole.extend(stream);
    let all_at_once = drain(&mut whole);
    let mut pieces = hlusra::sse::SseBuffer::new();
    let mut piecewise = Vec::new();
    for piece in stream.chunks(3) {
        pieces.extend(piece);
        piecewise.extend(drain(&mut pieces));
    }
    assert_eq!(all_at_once, piecewise);
    assert_eq!(all_at_once.len(), 3);
    pieces.finish();
    assert_eq!(drain(&mut pieces), vec![b"partial".to_vec()]);
}
