use hatch::llm::{
    bearer_value, build_messages, choose_provider, http_status_error, missing_api_key,
    ollama_base_url, ollama_chat_url, ollama_reply, openai_reply, provider_setting,
    LlmProviderKind, Message, MessageRole,
};
use hatch::stream::{first_delta, line_text, NdjsonLines, SseBlocks, StreamChoice, StreamDelta, StreamEvent};
use hatch::types::HatchError;

#[test]
fn provider_names_parse_case_insensitively() {
    assert!(matches!(LlmProviderKind::parse("OpenAI"), Ok(LlmProviderKind::Openai)));
    assert!(matches!(LlmProviderKind::parse("ollama"), Ok(LlmProviderKind::Ollama)));
    match LlmProviderKind::parse("Mistral") {
        Err(HatchError::Config(m)) => assert_eq!(m, "unknown LLM provider 'mistral', expected openai|ollama"),
        _ => panic!("expected a config error"),
    }
    assert!(matches!(provider_setting(None), Ok(LlmProviderKind::Openai)));
    assert!(matches!(choose_provider(Some(LlmProviderKind::Ollama), Some("bogus")), Ok(LlmProviderKind::Ollama)));
    assert!(matches!(choose_provider(None, Some("bogus")), Err(HatchError::Config(_))));
}

#[test]
fn wire_messages_put_system_first() {
    let msgs = vec![
        Message { role: MessageRole::User, content: "hi".into() },
        Message { role: MessageRole::Assistant, content: "hello".into() },
    ];
    let w = build_messages(Some("sys"), &msgs);
    let pairs: Vec<(&str, &str)> = w.iter().map(|(a, b)| (a.as_str(), b.as_str())).collect();
    assert_eq!(pairs, vec![("system", "sys"), ("user", "hi"), ("assistant", "hello")]);
    assert_eq!(build_messages(None, &msgs).len(), 2);
}

#[test]
fn endpoints_and_headers() {
    assert_eq!(ollama_base_url("http://host:11434///"), "http://host:11434");
    assert_eq!(ollama_chat_url("http://127.0.0.1:11434"), "http://127.0.0.1:11434/api/chat");
    assert_eq!(bearer_value("k"), "Bearer k");
}

#[test]
fn reply_errors() {
    assert!(matches!(missing_api_key(), HatchError::Config(m) if m == "OPENAI_API_KEY is not set"));
    match http_status_error("OpenAI", "429 Too Many Requests", "slow down") {
        HatchError::Llm(m) => assert_eq!(m, "OpenAI HTTP 429 Too Many Requests: slow down"),
        _ => panic!("expected an llm error"),
    }
    match openai_reply(None, Some("gpt".into())) {
        Err(HatchError::Llm(m)) => assert_eq!(m, "OpenAI missing choices[0].message.content"),
        _ => panic!("expected an llm error"),
    }
    let r = openai_reply(Some("text".into()), Some("gpt-4o".into())).expect("reply");
    assert_eq!(r.content, "text");
    assert_eq!(r.model.as_deref(), Some("gpt-4o"));
    let o = ollama_reply("hey".into(), "llama3".into());
    assert_eq!(o.model.as_deref(), Some("llama3"));
}

#[test]
fn ndjson_lines_across_chunks() {
    let mut d = NdjsonLines::new();
    d.push("{\"a\":1}\n\n  {\"b\"");
    assert_eq!(d.next_line(), Some("{\"a\":1}".to_string()));
    assert_eq!(d.next_line(), None);
    d.push(":2}\n");
    assert_eq!(d.next_line(), Some("{\"b\":2}".to_string()));
    assert_eq!(d.next_line(), None);
    d.push("  {\"c\":3}  ");
    assert_eq!(d.finish(), Some("{\"c\":3}".to_string()));
    assert_eq!(d.finish(), None);
}

#[test]
fn sse_blocks_and_payloads() {
    let mut d = SseBlocks::new();
    d.push("data: {\"x\":1}\n");
    assert_eq!(d.take_block(), None);
    d.push("\ndata: [DONE]\n\n");
    assert_eq!(d.take_block(), Some(vec!["{\"x\":1}".to_string()]));
    assert_eq!(d.take_block(), Some(vec![]));
    assert_eq!(d.take_block(), None);
    d.push(": comment\ndata:\nplain\n\n");
    assert_eq!(d.take_block(), Some(vec![": comment".to_string(), "plain".to_string()]));
}

fn event(content: Option<&str>) -> Option<StreamEvent> {
    Some(StreamEvent {
        choices: Some(vec![StreamChoice { delta: Some(StreamDelta { content: content.map(|c| c.to_string()) }) }]),
    })
}

#[test]
fn first_nonempty_delta_of_a_block() {
    let evs = vec![None, event(Some("")), event(None), event(Some("Hel")), event(Some("lo"))];
    assert_eq!(first_delta(&evs), Some("Hel".to_string()));
    assert_eq!(first_delta(&vec![None, event(Some(""))]), None);
    assert_eq!(first_delta(&vec![Some(StreamEvent { choices: Some(vec![]) })]), None);
    assert_eq!(line_text(Some("tok".into())), Some("tok".to_string()));
    assert_eq!(line_text(Some(String::new())), None);
    assert_eq!(line_text(None), None);
}

fn drain(d: &mut NdjsonLines) -> Vec<String> {
    let mut out = Vec::new();
    while let Some(l) = d.next_line() {
        out.push(l);
    }
    out
}

#[test]
fn ndjson_chunking_does_not_matter() {
    let text = "{\"m\":1}\n\n  \n{\"m\":2}\r\n{\"m\":3}\ntail";
    let mut whole = NdjsonLines::new();
    whole.push(text);
    let expected = drain(&mut whole);
    assert_eq!(expected, vec!["{\"m\":1}", "{\"m\":2}", "{\"m\":3}"]);
    for cut in 0..text.len() {
        if !text.is_char_boundary(cut) {
            continue;
        }
        let mut d = NdjsonLines::new();
        d.push(&text[..cut]);
        let mut got = drain(&mut d);
        d.push(&text[cut..]);
        got.extend(drain(&mut d));
        assert_eq!(got, expected, "cut at {cut}");
        assert_eq!(d.finish(), Some("tail".to_string()));
    }
}

fn blocks(d: &mut SseBlocks) -> Vec<Vec<String>> {
    let mut out = Vec::new();
    while let Some(b) = d.take_block() {
        out.push(b);
    }
    out
}

#[test]
fn sse_chunking_does_not_matter() {
    let text = "data: {\"a\":1}\n\ndata: {\"b\":2}\ndata: {\"c\":3}\n\ndata: [DONE]\n\ndata: partial";
    let mut whole = SseBlocks::new();
    whole.push(text);
    let expected = blocks(&mut whole);
    assert_eq!(expected.len(), 3);
    assert_eq!(expected[1], vec!["{\"b\":2}".to_string(), "{\"c\":3}".to_string()]);
    for cut in 0..=text.len() {
        let mut d = SseBlocks::new();
        d.push(&text[..cut]);
        let mut got = blocks(&mut d);
        d.push(&text[cut..]);
        got.extend(blocks(&mut d));
        assert_eq!(got, expected, "cut at {cut}");
    }
}
