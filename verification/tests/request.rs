use bendengine::api::anthropic::messages_url;
use bendengine::api::openai::{chat_completions_url, openai_chat_body, OpenAIMessage};
use bendengine::api::request::{ApiToolParam, ProviderRequest, SystemBlock};
use bendengine::api::response::{http_error, ApiError, ApiMessage, ContentBlock, MessageRole, ToolResultContentBlock};

fn text(t: &str) -> ContentBlock {
    ContentBlock::Text { text: t.into() }
}

fn describe(m: &OpenAIMessage) -> String {
    let calls = match &m.tool_calls {
        Some(cs) => cs
            .iter()
            .map(|c| format!("{}:{}:{}:{}", c.id, c.call_type, c.name, c.arguments))
            .collect::<Vec<_>>()
            .join(","),
        None => "-".to_string(),
    };
    format!(
        "{} | {} | {} | {}",
        m.role,
        m.content.clone().unwrap_or_else(|| "-".into()),
        calls,
        m.tool_call_id.clone().unwrap_or_else(|| "-".into())
    )
}

fn request(system: Option<Vec<&str>>, tools: Option<Vec<ApiToolParam>>) -> ProviderRequest {
    ProviderRequest {
        model: "gpt-x".into(),
        max_tokens: 1_000,
        messages: vec![
            ApiMessage {
                role: MessageRole::User,
                content: vec![text("hello"), text("there")],
            },
            ApiMessage {
                role: MessageRole::Assistant,
                content: vec![
                    ContentBlock::ToolUse {
                        id: "c1".into(),
                        name: "read".into(),
                        input: "{\"path\":\"a\"}".into(),
                    },
                    ContentBlock::ToolUse {
                        id: "c2".into(),
                        name: "ls".into(),
                        input: "{}".into(),
                    },
                ],
            },
            ApiMessage {
                role: MessageRole::User,
                content: vec![
                    text("ignored beside results"),
                    ContentBlock::ToolResult {
                        tool_use_id: "c1".into(),
                        content: vec![
                            ToolResultContentBlock::Text { text: "line 1".into() },
                            ToolResultContentBlock::Text { text: "line 2".into() },
                        ],
                        is_error: false,
                    },
                    ContentBlock::ToolResult {
                        tool_use_id: "c2".into(),
                        content: vec![],
                        is_error: true,
                    },
                ],
            },
            ApiMessage {
                role: MessageRole::Assistant,
                content: vec![text("done")],
            },
        ],
        system: system.map(|bs| bs.into_iter().map(|t| SystemBlock { text: t.into() }).collect()),
        tools,
        thinking: None,
    }
}

#[test]
fn a_chat_body_turns_results_into_tool_messages() {
    let r = openai_chat_body(&request(Some(vec!["You are terse.", "Be kind."]), None));
    assert_eq!(r.model, "gpt-x");
    assert_eq!(r.max_tokens, 1_000);
    assert!(r.stream);
    assert!(r.tools.is_none());
    let got: Vec<String> = r.messages.iter().map(describe).collect();
    assert_eq!(
        got,
        vec![
            "system | You are terse.\n\nBe kind. | - | -".to_string(),
            "user | hello\nthere | - | -".to_string(),
            "assistant | - | c1:function:read:{\"path\":\"a\"},c2:function:ls:{} | -".to_string(),
            "tool | line 1\nline 2 | - | c1".to_string(),
            "tool |  | - | c2".to_string(),
            "assistant | done | - | -".to_string(),
        ]
    );
}

#[test]
fn an_empty_system_prompt_and_tool_list_are_left_out() {
    let r = openai_chat_body(&request(Some(vec![""]), Some(vec![])));
    assert_eq!(r.messages.len(), 5);
    assert_eq!(r.messages[0].role, "user");
    assert!(r.tools.is_none());
    let tools = vec![ApiToolParam {
        name: "read".into(),
        description: "Read a file".into(),
        input_schema: "{\"type\":\"object\"}".into(),
    }];
    let r = openai_chat_body(&request(None, Some(tools)));
    let t = r.tools.expect("tools");
    assert_eq!(t.len(), 1);
    assert_eq!(
        (t[0].tool_type.as_str(), t[0].name.as_str(), t[0].description.as_str(), t[0].parameters.as_str()),
        ("function", "read", "Read a file", "{\"type\":\"object\"}")
    );
}

#[test]
fn endpoints_are_built_from_the_base_url() {
    assert_eq!(chat_completions_url("https://api.openai.com"), "https://api.openai.com/v1/chat/completions");
    assert_eq!(chat_completions_url("http://host/v1//"), "http://host/v1/chat/completions");
    assert_eq!(messages_url("https://api.anthropic.com/"), "https://api.anthropic.com/v1/messages");
    assert_eq!(messages_url("http://proxy/v1"), "http://proxy/v1/messages");
}

#[test]
fn an_error_status_carries_the_reported_message() {
    match http_error(429, "{\"error\":{\"message\":\"slow down\"}}") {
        ApiError::HttpError { status, message } => assert_eq!((status, message.as_str()), (429, "slow down")),
        _ => panic!("an http error expected"),
    }
    match http_error(502, "Bad Gateway") {
        ApiError::HttpError { status, message } => assert_eq!((status, message.as_str()), (502, "Bad Gateway")),
        _ => panic!("an http error expected"),
    }
}
