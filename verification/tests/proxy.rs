use llm_monitor::proxy::{EventFields, Protocol, Tap, Usage};

fn no_fields() -> EventFields {
    EventFields {
        kind: None,
        model: None,
        message_model: None,
        choice_content: None,
        choice_reasoning: None,
        delta_text: None,
        delta_thinking: None,
        usage_is_object: false,
        prompt_tokens: None,
        cached_tokens: None,
        prompt_cache_hit_tokens: None,
        completion_tokens: None,
        output_tokens: None,
        message_input_tokens: None,
        message_cache_read_tokens: None,
        message_cache_creation_tokens: None,
    }
}

#[test]
fn protocol_names() {
    assert_eq!(Protocol::from_name("anthropic"), Protocol::Anthropic);
    assert_eq!(Protocol::from_name("openai"), Protocol::OpenAi);
    assert_eq!(Protocol::from_name("Anthropic"), Protocol::OpenAi);
}

#[test]
fn new_tap_is_empty() {
    let t = Tap::new(Protocol::OpenAi);
    assert_eq!(t.request_id, -1);
    assert_eq!(t.usage, Usage::default());
    assert!(t.ttft_ms.is_none() && !t.alerted && !t.finalized && !t.got_usage);
}

#[test]
fn chunks_are_framed_into_payloads() {
    let mut t = Tap::new(Protocol::OpenAi);
    let out = t.take_payloads(b"data: {\"a\":1}\n\ndata: [DONE]\n\n", 5);
    assert_eq!(out, vec!["{\"a\":1}".to_string()]);
    assert_eq!(t.ttft_ms, Some(5));
    assert!(t.sse_buf.is_empty());
    let out = t.take_payloads(b"event: ping\n\n", 9);
    assert!(out.is_empty());
    assert_eq!(t.ttft_ms, Some(5));
}

#[test]
fn partial_events_wait_for_their_blank_line() {
    let mut t = Tap::new(Protocol::OpenAi);
    assert!(t.take_payloads(b"data: x", 1).is_empty());
    assert_eq!(t.sse_buf.iter().collect::<String>(), "data: x");
    let out = t.take_payloads(b"yz\n\ndata: 2", 2);
    assert_eq!(out, vec!["xyz".to_string()]);
    assert_eq!(t.sse_buf.iter().collect::<String>(), "data: 2");
}

#[test]
fn data_lines_are_joined_and_cr_is_dropped() {
    let mut t = Tap::new(Protocol::OpenAi);
    let out = t.take_payloads(b"id: 7\r\ndata: a\r\ndata:b\n\n", 1);
    assert_eq!(out, vec!["ab".to_string()]);
}

#[test]
fn invalid_utf8_is_replaced() {
    let mut t = Tap::new(Protocol::OpenAi);
    let out = t.take_payloads(b"data: \xffok\n\n", 1);
    assert_eq!(out, vec!["\u{FFFD}ok".to_string()]);
}

#[test]
fn oversized_buffer_is_dropped() {
    let mut t = Tap::new(Protocol::OpenAi);
    let big = vec![b'a'; 600 * 1024];
    assert!(t.take_payloads(&big, 1).is_empty());
    assert!(t.sse_buf.is_empty());
    let small = vec![b'a'; 1024];
    t.take_payloads(&small, 1);
    assert_eq!(t.sse_buf.len(), 1024);
}

#[test]
fn openai_usage_and_model() {
    let mut t = Tap::new(Protocol::OpenAi);
    let mut f = no_fields();
    f.model = Some("glm-5".to_string());
    f.choice_content = Some("hello".to_string());
    assert!(t.process_fields(&f).is_none());
    assert_eq!(t.model.as_deref(), Some("glm-5"));
    let mut f = no_fields();
    f.model = Some("other".to_string());
    f.usage_is_object = true;
    f.prompt_tokens = Some(100);
    f.prompt_cache_hit_tokens = Some(30);
    f.completion_tokens = Some(7);
    t.process_fields(&f);
    assert_eq!(t.model.as_deref(), Some("glm-5"));
    assert_eq!(t.usage, Usage { input_uncached: 70, cache_read: 30, cache_write: 0, output_tokens: 7 });
    assert!(t.got_usage);
    assert_eq!(t.text_tail.iter().collect::<String>(), "hello");
}

#[test]
fn openai_cached_tokens_win_and_uncached_never_negative() {
    let mut t = Tap::new(Protocol::OpenAi);
    let mut f = no_fields();
    f.usage_is_object = true;
    f.prompt_tokens = Some(10);
    f.cached_tokens = Some(40);
    f.prompt_cache_hit_tokens = Some(5);
    t.process_fields(&f);
    assert_eq!(t.usage, Usage { input_uncached: 0, cache_read: 40, cache_write: 0, output_tokens: 0 });
}

#[test]
fn anthropic_usage_and_model() {
    let mut t = Tap::new(Protocol::Anthropic);
    let mut f = no_fields();
    f.kind = Some("message_start".to_string());
    f.message_model = Some("sonnet-4".to_string());
    f.message_input_tokens = Some(12);
    f.message_cache_read_tokens = Some(3);
    f.message_cache_creation_tokens = Some(4);
    t.process_fields(&f);
    let mut f = no_fields();
    f.kind = Some("content_block_delta".to_string());
    f.delta_text = Some("hi".to_string());
    f.delta_thinking = Some("!".to_string());
    t.process_fields(&f);
    let mut f = no_fields();
    f.kind = Some("message_delta".to_string());
    f.output_tokens = Some(9);
    t.process_fields(&f);
    assert_eq!(t.model.as_deref(), Some("sonnet-4"));
    assert_eq!(t.usage, Usage { input_uncached: 12, cache_read: 3, cache_write: 4, output_tokens: 9 });
    assert_eq!(t.text_tail.iter().collect::<String>(), "hi!");
}

#[test]
fn anthropic_ignores_openai_fields() {
    let mut t = Tap::new(Protocol::Anthropic);
    let mut f = no_fields();
    f.model = Some("m".to_string());
    f.choice_content = Some("text".to_string());
    f.usage_is_object = true;
    f.prompt_tokens = Some(5);
    t.process_fields(&f);
    assert!(t.model.is_none() && !t.got_usage && t.text_tail.is_empty());
}

#[test]
fn guard_alerts_once() {
    let mut t = Tap::new(Protocol::OpenAi);
    let mut alerts = Vec::new();
    for k in 0..30 {
        if let Some(a) = t.feed_text("zai. ") {
            alerts.push((k, a.unit, a.run));
        }
    }
    assert_eq!(alerts, vec![(11, "zai.".to_string(), 12)]);
    assert!(t.alerted);
}

#[test]
fn empty_text_changes_nothing() {
    let mut t = Tap::new(Protocol::OpenAi);
    assert!(t.feed_text("").is_none());
    assert!(t.text_tail.is_empty());
}

#[test]
fn tail_is_cut_back_at_a_character_boundary() {
    let mut t = Tap::new(Protocol::OpenAi);
    t.feed_text(&"a".repeat(4096));
    assert_eq!(t.text_tail.len(), 4096);
    t.feed_text("b");
    assert_eq!(t.text_tail.len(), 2048);
    assert_eq!(*t.text_tail.last().unwrap(), 'b');
    let mut t = Tap::new(Protocol::OpenAi);
    // 1366 three-byte characters: 4098 bytes; the kept suffix has at most 2048 bytes
    t.feed_text(&"字".repeat(1366));
    assert_eq!(t.text_tail.len(), 682);
}

#[test]
fn finalize_yields_one_record() {
    let mut t = Tap::new(Protocol::OpenAi);
    t.request_id = 42;
    t.http_status = Some(500);
    let rec = t.finalize("ok", None, 1234).expect("first call yields the record");
    assert_eq!(rec.id, 42);
    assert_eq!(rec.status, "error");
    assert_eq!(rec.duration_ms, Some(1234));
    assert_eq!(rec.http_status, Some(500));
    assert!(t.finalized);
    assert!(t.finalize("client_abort", None, 2000).is_none());
}

#[test]
fn finalize_keeps_other_statuses() {
    let mut t = Tap::new(Protocol::OpenAi);
    t.http_status = Some(200);
    let rec = t.finalize("ok", None, 1).unwrap();
    assert_eq!(rec.status, "ok");
    let mut t = Tap::new(Protocol::OpenAi);
    t.http_status = Some(503);
    let rec = t.finalize("client_abort", Some("gone".to_string()), 1).unwrap();
    assert_eq!(rec.status, "client_abort");
    assert_eq!(rec.error.as_deref(), Some("gone"));
}

#[test]
fn chunk_boundaries_do_not_change_payloads() {
    let stream: &[u8] = "data: {\"a\":1}\n\n: ping\n\ndata: 字\ndata: b\n\ndata: tail".as_bytes();
    let mut whole = Tap::new(Protocol::OpenAi);
    let expected = whole.take_payloads(stream, 1);
    assert_eq!(expected, vec!["{\"a\":1}".to_string(), "字b".to_string()]);
    for cut in 0..=stream.len() {
        let (a, b) = stream.split_at(cut);
        if std::str::from_utf8(a).is_err() {
            continue;
        }
        let mut t = Tap::new(Protocol::OpenAi);
        let mut got = t.take_payloads(a, 1);
        got.extend(t.take_payloads(b, 2));
        assert_eq!(got, expected, "cut at {cut}");
        assert_eq!(t.sse_buf, whole.sse_buf);
    }
}

#[test]
fn openai_payloads_are_read() {
    let mut t = Tap::new(Protocol::OpenAi);
    t.process_payload(r#"{"model":"glm-5","choices":[{"delta":{"content":"he","reasoning_content":"llo"}}]}"#);
    t.process_payload(r#"{"model":"x","choices":[],"usage":{"prompt_tokens":100,"prompt_tokens_details":{"cached_tokens":40},"prompt_cache_hit_tokens":5,"completion_tokens":9}}"#);
    assert_eq!(t.model.as_deref(), Some("glm-5"));
    assert_eq!(t.text_tail.iter().collect::<String>(), "hello");
    assert_eq!(t.usage, Usage { input_uncached: 60, cache_read: 40, cache_write: 0, output_tokens: 9 });
    assert!(t.got_usage);
}

#[test]
fn deepseek_cache_hits_are_read() {
    let mut t = Tap::new(Protocol::OpenAi);
    t.process_payload(r#"{"usage":{"prompt_tokens":10,"prompt_cache_hit_tokens":4,"completion_tokens":2}}"#);
    assert_eq!(t.usage, Usage { input_uncached: 6, cache_read: 4, cache_write: 0, output_tokens: 2 });
}

#[test]
fn anthropic_payloads_are_read() {
    let mut t = Tap::new(Protocol::Anthropic);
    t.process_payload(r#"{"type":"message_start","message":{"model":"sonnet-4","usage":{"input_tokens":12,"cache_read_input_tokens":3,"cache_creation_input_tokens":4}}}"#);
    t.process_payload(r#"{"type":"content_block_delta","delta":{"type":"text_delta","text":"hi"}}"#);
    t.process_payload(r#"{"type":"content_block_delta","delta":{"type":"thinking_delta","thinking":"?"}}"#);
    t.process_payload(r#"{"type":"message_delta","usage":{"output_tokens":21}}"#);
    assert_eq!(t.model.as_deref(), Some("sonnet-4"));
    assert_eq!(t.usage, Usage { input_uncached: 12, cache_read: 3, cache_write: 4, output_tokens: 21 });
    assert_eq!(t.text_tail.iter().collect::<String>(), "hi?");
}

#[test]
fn non_json_and_odd_shapes_are_ignored() {
    let mut t = Tap::new(Protocol::OpenAi);
    assert!(t.process_payload("not json").is_none());
    assert!(t.model.is_none() && !t.got_usage && t.text_tail.is_empty());
    // `choices` as an object: its key "0" is not a first element
    t.process_payload(r#"{"choices":{"0":{"delta":{"content":"x"}}},"usage":3,"model":7}"#);
    assert!(t.text_tail.is_empty() && t.model.is_none() && !t.got_usage);
}

#[test]
fn payload_alerts_come_back() {
    let mut t = Tap::new(Protocol::OpenAi);
    let mut alerts = 0;
    for _ in 0..20 {
        if t.process_payload(r#"{"choices":[{"delta":{"content":"zai. "}}]}"#).is_some() {
            alerts += 1;
        }
    }
    assert_eq!(alerts, 1);
}

#[test]
fn chunks_are_read_in_order() {
    let mut t = Tap::new(Protocol::OpenAi);
    let stream = "data: {\"model\":\"m1\",\"choices\":[{\"delta\":{\"content\":\"zai. \"}}]}\n\n".repeat(14)
        + "data: {\"usage\":{\"prompt_tokens\":5,\"completion_tokens\":3}}\n\ndata: [DONE]\n\n";
    let bytes = stream.as_bytes();
    let (a, b) = bytes.split_at(bytes.len() / 2);
    let mut alerts = t.on_chunk(a, 3);
    alerts.extend(t.on_chunk(b, 8));
    assert_eq!(alerts.len(), 1);
    assert_eq!(alerts[0].unit, "zai.");
    assert_eq!(alerts[0].run, 12);
    assert_eq!(t.ttft_ms, Some(3));
    assert_eq!(t.model.as_deref(), Some("m1"));
    assert_eq!(t.usage, Usage { input_uncached: 5, cache_read: 0, cache_write: 0, output_tokens: 3 });
    assert!(t.alerted && t.sse_buf.is_empty());
}
