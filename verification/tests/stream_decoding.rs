use localmind::providers::{chat_refused, PullLine, PullStatus, ProviderError};
use localmind::stream::{
    completion_token, done_token, ollama_token, pull_step, Frame, LineBuffer, NdjsonDecoder, PullDecoder, SseDecoder,
};
use localmind::text::trim;

/// Stands in for the JSON parse the app performs on each `data:` payload:
/// the first choice's delta content.
fn parse_delta(payload: &str) -> Result<Option<String>, String> {
    let value: serde_json::Value = serde_json::from_str(payload).map_err(|e| e.to_string())?;
    Ok(value["choices"][0]["delta"]["content"].as_str().map(|s| s.to_string()))
}

fn tokens_from(decoder: &mut SseDecoder, part: &str, text: &mut String, saw_done: &mut bool) {
    for frame in decoder.feed(part.as_bytes()) {
        let token = match frame {
            Frame::Done => Some(Ok(done_token())),
            Frame::Data(payload) => completion_token(parse_delta(&payload)),
        };
        if let Some(item) = token {
            let token = item.expect("stream item failed");
            text.push_str(&token.delta);
            if token.done {
                *saw_done = true;
            }
        }
    }
}

#[test]
fn parses_deltas_across_split_frames_and_stops_on_done() {
    let parts = vec![
        "data: {\"choices\":[{\"delta\":{\"content\":\"Olá\"}}]}\n\n",
        "data: {\"choices\":[{\"delta\":{\"cont",
        "ent\":\", mundo\"}}]}\n\ndata: [DONE]\n\n",
    ];
    let mut decoder = SseDecoder::new();
    let mut text = String::new();
    let mut saw_done = false;
    for part in parts {
        if saw_done {
            break;
        }
        tokens_from(&mut decoder, part, &mut text, &mut saw_done);
    }

    assert_eq!(text, "Olá, mundo");
    assert!(saw_done, "[DONE] must surface as a done token");
}

#[test]
fn an_http_error_is_reported_instead_of_an_empty_stream() {
    match chat_refused("404 Not Found", "model missing") {
        ProviderError::RequestFailed(msg) => assert!(msg.contains("404")),
        other => panic!("expected a RequestFailed error, got {other:?}"),
    }
}

#[test]
fn where_a_read_ends_never_changes_the_lines() {
    let whole = "primeira\nsegunda linha\nterceira";
    let mut at_once = LineBuffer::new();
    let expected = at_once.push_text(whole);

    let mut split = LineBuffer::new();
    let mut lines = split.push_text("prim");
    lines.extend(split.push_text("eira\nsegu"));
    lines.extend(split.push_text("nda linha\nterceira"));

    assert_eq!(lines, expected);
    assert_eq!(lines, vec!["primeira".to_string(), "segunda linha".to_string()]);
}

#[test]
fn comments_and_blank_lines_of_the_event_stream_are_ignored() {
    let mut decoder = SseDecoder::new();
    let frames = decoder.feed(b": keep-alive\n\nevent: ping\n  data:   [DONE]  \n");
    assert_eq!(frames.len(), 1);
    assert!(matches!(frames[0], Frame::Done));
}

#[test]
fn a_payload_that_is_not_json_is_a_parse_error() {
    match completion_token(Err("expected value".to_string())) {
        Some(Err(ProviderError::ParseError(m))) => assert_eq!(m, "expected value"),
        other => panic!("expected a parse error, got {other:?}"),
    }
    assert!(completion_token(Ok(Some(String::new()))).is_none());
    assert!(completion_token(Ok(None)).is_none());
}

#[test]
fn ollama_lines_are_cut_whole_and_blank_ones_skipped() {
    let mut decoder = NdjsonDecoder::new();
    let mut lines = decoder.feed(b"{\"message\":{\"content\":\"Ol");
    assert!(lines.is_empty());
    lines.extend(decoder.feed(b"\xc3\xa1\"},\"done\":false}\n\n  \n{\"done\":true}\n"));
    assert_eq!(lines, vec!["{\"message\":{\"content\":\"Olá\"},\"done\":false}".to_string(), "{\"done\":true}".to_string()]);
}

#[test]
fn an_ollama_line_is_a_token_when_it_has_text_or_ends_the_answer() {
    let t = ollama_token(Ok((Some("oi".to_string()), false))).unwrap().unwrap();
    assert_eq!(t.delta, "oi");
    assert!(!t.done);
    let end = ollama_token(Ok((None, true))).unwrap().unwrap();
    assert_eq!(end.delta, "");
    assert!(end.done);
    assert!(ollama_token(Ok((Some(String::new()), false))).is_none());
}

#[test]
fn pull_progress_lines_survive_any_split() {
    let mut decoder = PullDecoder::new();
    let mut lines = decoder.feed(b"{\"status\":\"pulling\"}\n{\"sta");
    lines.extend(decoder.feed(b"tus\":\"success\"}\r\n\n"));
    assert_eq!(lines, vec!["{\"status\":\"pulling\"}".to_string(), "{\"status\":\"success\"}".to_string()]);
}

#[test]
fn an_error_line_ends_the_pull() {
    let (progress, stop) = pull_step(PullLine {
        status: None,
        total: None,
        completed: None,
        error: Some("manifest unknown".to_string()),
    });
    assert_eq!(progress.status, PullStatus::Error);
    assert_eq!(progress.message.as_deref(), Some("manifest unknown"));
    match stop {
        Some(ProviderError::RequestFailed(m)) => assert_eq!(m, "ollama reported an error while pulling"),
        other => panic!("expected the pull to fail, got {other:?}"),
    }

    let (progress, stop) = pull_step(PullLine {
        status: Some("verifying sha256 digest".to_string()),
        total: Some(10),
        completed: Some(10),
        error: None,
    });
    assert_eq!(progress.status, PullStatus::Verifying);
    assert_eq!(progress.downloaded_bytes, Some(10));
    assert!(stop.is_none());
}

#[test]
fn trimming_removes_unicode_whitespace_at_both_ends() {
    assert_eq!(trim("\u{3000}\t texto com espaço \r\n"), "texto com espaço");
    assert_eq!(trim(" \u{a0} "), "");
    assert_eq!(trim("sem"), "sem");
}
