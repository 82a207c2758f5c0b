use qa_gen::ChunkStrategy;
use qa_gen::GenerationReply;
use qa_gen::GenerationServiceError;
use qa_gen::JsonValue;
use qa_gen::build_prompt;
use qa_gen::collect_pairs;
use qa_gen::decode_input;
use qa_gen::encode_csv;
use qa_gen::prepare_chunks;
use qa_gen::respond_csv;

fn text(s: &str) -> JsonValue {
    JsonValue::Text(s.to_string())
}

fn qa_object(question: &str, answer: &str) -> JsonValue {
    JsonValue::Object(vec![
        ("question".to_string(), text(question)),
        ("answer".to_string(), text(answer)),
    ])
}

fn pairs_reply(raw: &[(&str, &str)]) -> GenerationReply {
    let entries = raw.iter().map(|(q, a)| qa_object(q, a)).collect();
    GenerationReply::Json(JsonValue::Object(vec![(
        "qa_pairs".to_string(),
        JsonValue::Array(entries),
    )]))
}

#[test]
fn end_to_end_two_pairs_exact_csv() {
    // Input text under the word budget: one chunk, one generation
    // call, whose stubbed reply holds two pairs.
    let body = b"a short text under the budget".to_vec();
    let strategy = ChunkStrategy::WordBudget { max_words: 2000, flush_tail: true };
    let chunks = prepare_chunks(body, &strategy).expect("valid utf-8");
    assert_eq!(chunks, vec!["a short text under the budget".to_string()]);

    let outcomes: Vec<Result<GenerationReply, GenerationServiceError>> =
        chunks.iter().map(|_| Ok(pairs_reply(&[("Q1", "A1"), ("Q2", "A2")]))).collect();
    let csv_text = respond_csv(&outcomes);
    assert_eq!(
        csv_text.as_bytes(),
        b"\"Question\",\"Answer\"\r\n\"Q1\",\"A1\"\r\n\"Q2\",\"A2\"\r\n"
    );
}

#[test]
fn failed_middle_chunk_contributes_nothing() {
    // Chunk 2 of 3 fails: the result set holds chunk 1's and chunk 3's
    // pairs, in that order, and nothing of chunk 2.
    let outcomes: Vec<Result<GenerationReply, GenerationServiceError>> = vec![
        Ok(pairs_reply(&[("Q1", "A1")])),
        Err(GenerationServiceError),
        Ok(pairs_reply(&[("Q3", "A3")])),
    ];
    let collected = collect_pairs(&outcomes);
    assert_eq!(
        collected,
        vec![("Q1".to_string(), "A1".to_string()), ("Q3".to_string(), "A3".to_string())]
    );
}

#[test]
fn uninterpretable_middle_reply_contributes_nothing() {
    // A reply that matches no supported shape degrades the same way a
    // failed call does.
    let outcomes: Vec<Result<GenerationReply, GenerationServiceError>> = vec![
        Ok(pairs_reply(&[("Q1", "A1")])),
        Ok(GenerationReply::Json(JsonValue::Null)),
        Ok(pairs_reply(&[("Q3", "A3")])),
    ];
    let collected = collect_pairs(&outcomes);
    assert_eq!(
        collected,
        vec![("Q1".to_string(), "A1".to_string()), ("Q3".to_string(), "A3".to_string())]
    );
}

#[test]
fn invalid_utf8_body_aborts_before_any_chunk() {
    // A body that is not UTF-8 is a hard failure: no text, no chunks,
    // so no generation call can ever be issued for it.
    let body = vec![0xff, 0xfe, 0xfd];
    assert!(decode_input(body.clone()).is_err());
    let strategy = ChunkStrategy::WordBudget { max_words: 2000, flush_tail: true };
    assert!(prepare_chunks(body, &strategy).is_err());
}

#[test]
fn multibyte_utf8_body_decodes() {
    let body = "caf\u{e9}\nth\u{e9}".as_bytes().to_vec();
    assert_eq!(decode_input(body), Ok("caf\u{e9}\nth\u{e9}".to_string()));
}

#[test]
fn csv_quotes_every_field_and_doubles_quotes() {
    let rows = vec![
        ("has \"quotes\"".to_string(), "has, comma".to_string()),
        ("multi\nline".to_string(), "plain".to_string()),
    ];
    let out = encode_csv(&rows);
    assert_eq!(
        out,
        "\"Question\",\"Answer\"\r\n\"has \"\"quotes\"\"\",\"has, comma\"\r\n\"multi\nline\",\"plain\"\r\n"
    );
}

#[test]
fn csv_encoding_matches_reference_encoder() {
    // The always-quote encoding agrees byte for byte with the csv
    // crate configured the same way.
    let rows = vec![
        ("What is \"X\"?".to_string(), "X, or\nso.".to_string()),
        ("".to_string(), "empty question".to_string()),
    ];
    let mut wtr = csv::WriterBuilder::new()
        .delimiter(b',')
        .quote_style(csv::QuoteStyle::Always)
        .terminator(csv::Terminator::CRLF)
        .from_writer(vec![]);
    wtr.write_record(&["Question", "Answer"]).unwrap();
    for (q, a) in &rows {
        wtr.write_record(&[q, a]).unwrap();
    }
    let reference = String::from_utf8(wtr.into_inner().unwrap()).unwrap();
    assert_eq!(encode_csv(&rows), reference);
}

#[test]
fn paragraph_strategy_through_pipeline() {
    let body = b"one section\n\nanother\n\n".to_vec();
    let chunks = prepare_chunks(body, &ChunkStrategy::Paragraphs).expect("valid utf-8");
    assert_eq!(chunks, vec!["one section\n\n".to_string(), "another\n\n".to_string()]);
}

#[test]
fn prompt_embeds_chunk_between_template_parts() {
    let prompt = build_prompt("CHUNK TEXT");
    assert!(prompt.starts_with("\nHere is the user input to work with:\n\n---\nCHUNK TEXT\n---\n"));
    assert!(prompt.contains("\"qa_pairs\""));
    assert!(prompt.ends_with("]\n}"));
}

#[test]
fn empty_outcomes_yield_header_only() {
    let outcomes: Vec<Result<GenerationReply, GenerationServiceError>> = Vec::new();
    assert_eq!(respond_csv(&outcomes), "\"Question\",\"Answer\"\r\n");
}
