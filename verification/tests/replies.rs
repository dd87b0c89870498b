use bendengine::api::anthropic::parse_anthropic_sse;
use bendengine::api::openai::parse_openai_sse;
use bendengine::api::provider::ProviderResponse;
use bendengine::api::response::{ApiError, ContentBlock};

fn describe(r: &ProviderResponse) -> Vec<String> {
    r.message
        .content
        .iter()
        .map(|b| match b {
            ContentBlock::Text { text } => format!("text {text}"),
            ContentBlock::ToolUse { id, name, input } => format!("tool {id} {name} {input}"),
            ContentBlock::Thinking { thinking, signature } => format!("thinking {thinking} {signature:?}"),
            ContentBlock::Image { source } => format!("image {} {}", source.media_type, source.data),
            ContentBlock::ToolResult { tool_use_id, .. } => format!("result {tool_use_id}"),
        })
        .collect()
}

fn error_text(e: &ApiError) -> String {
    match e {
        ApiError::NetworkError(m) => format!("network {m}"),
        ApiError::StreamError(m) => format!("stream {m}"),
        ApiError::Upstream(m) => format!("upstream {m}"),
        ApiError::Timeout => "timeout".to_string(),
        ApiError::HttpError { status, message } => format!("http {status} {message}"),
    }
}

const SSE: &str = "text/event-stream";

#[test]
fn an_anthropic_stream_is_folded_into_blocks() {
    let body = [
        "event: message_start\n",
        "data: {\"type\":\"message_start\",\"message\":{\"usage\":{\"input_tokens\":12,\"cache_read_input_tokens\":3}}}\n",
        "\n",
        "data: {\"type\":\"content_block_start\",\"index\":0,\"content_block\":{\"type\":\"text\",\"text\":\"\"}}\n",
        "data: {\"type\":\"content_block_delta\",\"index\":0,\"delta\":{\"type\":\"text_delta\",\"text\":\"Hel\"}}\n",
        "data: {\"type\":\"content_block_delta\",\"index\":0,\"delta\":{\"type\":\"text_delta\",\"text\":\"lo\"}}\n",
        "data: {\"type\":\"content_block_stop\",\"index\":0}\n",
        "data: {\"type\":\"content_block_start\",\"index\":1,\"content_block\":{\"type\":\"tool_use\",\"id\":\"t1\",\"name\":\"bash\",\"input\":{}}}\n",
        "data: {\"type\":\"content_block_delta\",\"index\":1,\"delta\":{\"type\":\"input_json_delta\",\"partial_json\":\"{\\\"command\\\":\"}}\n",
        "data: {\"type\":\"content_block_delta\",\"index\":1,\"delta\":{\"type\":\"input_json_delta\",\"partial_json\":\"\\\"ls\\\"}\"}}\n",
        "data: {\"type\":\"content_block_stop\",\"index\":1}\n",
        "data: not json\n",
        "data: {\"type\":\"message_delta\",\"delta\":{\"stop_reason\":\"tool_use\"},\"usage\":{\"output_tokens\":7}}\n",
        "data: [DONE]\n",
        "data: {\"type\":\"content_block_start\",\"index\":2,\"content_block\":{\"type\":\"text\",\"text\":\"ignored\"}}\n",
        "data: {\"type\":\"content_block_stop\",\"index\":2}\n",
    ].concat();
    let r = parse_anthropic_sse(SSE, &body).ok().expect("a reply");
    assert_eq!(describe(&r), vec!["text Hello".to_string(), "tool t1 bash {\"command\":\"ls\"}".to_string()]);
    assert_eq!(r.usage.input_tokens, 12);
    assert_eq!(r.usage.output_tokens, 7);
    assert_eq!(r.usage.cache_read_input_tokens, 3);
    assert_eq!(r.usage.cache_creation_input_tokens, 0);
    assert_eq!(r.stop_reason.as_deref(), Some("tool_use"));
}

#[test]
fn open_anthropic_blocks_are_flushed_by_index() {
    let body = [
        "data: {\"type\":\"content_block_delta\",\"index\":3,\"delta\":{\"type\":\"thinking_delta\",\"thinking\":\"hmm\"}}\n",
        "data: {\"type\":\"content_block_delta\",\"index\":3,\"delta\":{\"type\":\"signature_delta\",\"signature\":\"sig\"}}\n",
        "data: {\"type\":\"content_block_delta\",\"index\":4,\"delta\":{\"type\":\"signature_delta\",\"signature\":\"lost\"}}\n",
        "data: {\"type\":\"content_block_start\",\"index\":1,\"content_block\":{\"type\":\"text\",\"text\":\"a\"}}\n",
        "data: {\"type\":\"content_block_delta\",\"index\":1,\"delta\":{\"type\":\"text_delta\",\"text\":\"b\"}}\n",
    ].concat();
    let r = parse_anthropic_sse("text/event-stream; charset=utf-8", &body).ok().expect("a reply");
    assert_eq!(
        describe(&r),
        vec!["text ab".to_string(), "thinking hmm Some(\"sig\")".to_string()]
    );
    assert_eq!(r.stop_reason, None);
}

#[test]
fn an_anthropic_error_event_fails_the_reply() {
    let body = [
        "data: {\"type\":\"message_start\",\"message\":{}}\n",
        "data: {\"type\":\"error\",\"error\":{\"type\":\"overloaded_error\",\"message\":\"Overloaded\"}}\n",
    ].concat();
    let e = parse_anthropic_sse(SSE, &body).err().expect("an error");
    assert_eq!(error_text(&e), "upstream Overloaded");
}

#[test]
fn a_plain_anthropic_body_is_read_as_json() {
    let body = "{\"content\":[{\"type\":\"text\",\"text\":\"hi\"},{\"type\":\"bogus\"},{\"type\":\"image\",\"source\":{\"type\":\"base64\",\"media_type\":\"image/png\",\"data\":\"AAA\"}}],\"usage\":{\"input_tokens\":5,\"output_tokens\":2},\"stop_reason\":\"end_turn\"}";
    let r = parse_anthropic_sse("application/json", body).ok().expect("a reply");
    assert_eq!(describe(&r), vec!["text hi".to_string(), "image image/png AAA".to_string()]);
    assert_eq!((r.usage.input_tokens, r.usage.output_tokens), (5, 2));
    assert_eq!(r.stop_reason.as_deref(), Some("end_turn"));
    // A stream whose data lines do not parse is read as a body too.
    let e = parse_anthropic_sse(SSE, "data: {broken\n").err().expect("an error");
    assert_eq!(error_text(&e), "stream Anthropic upstream returned a body that is not JSON");
    let e = parse_anthropic_sse("application/json", "{\"id\":1}").err().expect("an error");
    assert_eq!(error_text(&e), "stream Anthropic upstream returned JSON body without content");
    let e = parse_anthropic_sse("application/json", "{\"error\":{\"message\":\"bad key\"}}").err().expect("an error");
    assert_eq!(error_text(&e), "upstream bad key");
}

#[test]
fn an_openai_stream_gathers_text_and_calls_by_index() {
    let body = [
        "data: {\"choices\":[{\"delta\":{\"content\":\"Hi \"}}]}\n",
        "data: {\"choices\":[{\"delta\":{\"content\":\"there\",\"tool_calls\":[{\"index\":1,\"id\":\"c2\",\"function\":{\"name\":\"read\",\"arguments\":\"{\\\"path\\\"\"}}]}}]}\n",
        "data: {\"choices\":[{\"delta\":{\"tool_calls\":[{\"index\":1,\"function\":{\"arguments\":\":\\\"a\\\"}\"}},{\"index\":0,\"function\":{\"name\":\"ls\",\"arguments\":\"oops\"}}]}}]}\n",
        "data: {\"choices\":[{\"finish_reason\":\"tool_calls\",\"delta\":{}}],\"usage\":{\"prompt_tokens\":9,\"completion_tokens\":4}}\n",
        "data: [DONE]\n",
    ].concat();
    let r = parse_openai_sse(SSE, &body).ok().expect("a reply");
    let d = describe(&r);
    assert_eq!(d.len(), 3);
    assert_eq!(d[0], "text Hi there");
    assert!(d[1].starts_with("tool call_"));
    assert!(d[1].ends_with(" ls {}"));
    assert_eq!(d[1].len(), "tool call_".len() + 36 + " ls {}".len());
    assert_eq!(d[2], "tool c2 read {\"path\":\"a\"}");
    assert_eq!((r.usage.input_tokens, r.usage.output_tokens), (9, 4));
    assert_eq!(r.stop_reason.as_deref(), Some("tool_use"));
}

#[test]
fn an_openai_error_chunk_fails_the_reply() {
    let body = "data: {\"error\":{\"message\":\"rate limited\"}}\n";
    let e = parse_openai_sse(SSE, body).err().expect("an error");
    assert_eq!(error_text(&e), "upstream rate limited");
}

#[test]
fn a_plain_openai_body_is_read_as_json() {
    let body = "{\"choices\":[{\"message\":{\"content\":[{\"type\":\"text\",\"text\":\"a\"},{\"text\":\"\"}],\"tool_calls\":[{\"id\":\"x\",\"function\":{\"name\":\"f\",\"arguments\":\"{\\\"k\\\":1}\"}},{\"id\":\"y\"},{\"function\":{\"arguments\":{\"z\":2}}}]},\"finish_reason\":\"length\"}],\"usage\":{\"prompt_tokens\":1}}";
    let r = parse_openai_sse("application/json", body).ok().expect("a reply");
    assert_eq!(
        describe(&r),
        vec!["text a".to_string(), "tool x f {\"k\":1}".to_string(), "tool   {\"z\":2}".to_string()]
    );
    assert_eq!((r.usage.input_tokens, r.usage.output_tokens), (1, 0));
    assert_eq!(r.stop_reason.as_deref(), Some("max_tokens"));
    let e = parse_openai_sse("application/json", "{\"choices\":[]}").err().expect("an error");
    assert_eq!(error_text(&e), "stream OpenAI upstream returned JSON body without choices");
    let e = parse_openai_sse("application/json", "{\"choices\":[{}]}").err().expect("an error");
    assert_eq!(error_text(&e), "stream OpenAI upstream returned JSON body without message");
}
