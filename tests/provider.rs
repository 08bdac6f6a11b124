use ruskgpt::json::{array_in, is_json, string_in};
use ruskgpt::provider::{
    claude_outcome, claude_reply, error_report, is_success, process_openai_error_response,
    request_plan, status_failure, AdapterError, ProviderKind, ProviderSettings,
};

fn settings() -> ProviderSettings {
    ProviderSettings {
        base_url: "https://api.example.com/v1".to_string(),
        default_model: "model-x".to_string(),
        token: "tok".to_string(),
        max_tokens: 100,
    }
}

fn pairs(v: &[(&str, &str)]) -> Vec<(String, String)> {
    v.iter().map(|(a, b)| (a.to_string(), b.to_string())).collect()
}

#[test]
fn openai_plan() {
    let plan = request_plan(ProviderKind::OpenAI, &settings(), "why?");
    assert_eq!(plan.url, "https://api.example.com/v1/chat/completions");
    assert_eq!(
        plan.headers,
        pairs(&[("Content-Type", "application/json"), ("Authorization", "Bearer tok")])
    );
    assert_eq!(
        plan.messages,
        pairs(&[("system", "You are a helpful assistant."), ("user", "why?")])
    );
    assert_eq!(plan.model, "model-x");
    assert_eq!(plan.max_tokens, 100);
    assert!(plan.stream && plan.sends_temperature && plan.sends_top_p);
}

#[test]
fn claude_plan() {
    let plan = request_plan(ProviderKind::Claude, &settings(), "why?");
    assert_eq!(plan.url, "https://api.example.com/v1/messages");
    assert_eq!(
        plan.headers,
        pairs(&[
            ("Content-Type", "application/json"),
            ("x-api-key", "tok"),
            ("anthropic-version", "2023-06-01"),
        ])
    );
    assert_eq!(plan.messages, pairs(&[("user", "why?")]));
    assert!(!plan.stream && !plan.sends_temperature && !plan.sends_top_p);
}

#[test]
fn zhipu_plan() {
    let plan = request_plan(ProviderKind::Zhipu, &settings(), "why?");
    assert_eq!(plan.url, "https://open.bigmodel.cn/api/paas/v4/chat/completions");
    assert_eq!(
        plan.headers,
        pairs(&[("Content-Type", "application/json"), ("Authorization", "Bearer tok")])
    );
    assert_eq!(plan.messages, pairs(&[("user", "why?")]));
    assert!(plan.stream && plan.sends_temperature && !plan.sends_top_p);
}

#[test]
fn success_statuses() {
    assert!(is_success(200));
    assert!(is_success(299));
    assert!(!is_success(199));
    assert!(!is_success(300));
    assert!(!is_success(401));
}

#[test]
fn bad_key_error_carries_message() {
    let failure = status_failure(ProviderKind::OpenAI, 401, "{\"error\":{\"message\":\"bad key\"}}");
    match failure {
        Some(AdapterError::Status { status, detail: Some(m) }) => {
            assert_eq!(status, 401);
            assert!(m.contains("bad key"));
        }
        other => panic!("unexpected {:?}", other),
    }
    let described = status_failure(ProviderKind::OpenAI, 401, "{\"error\":{\"message\":\"bad key\"}}")
        .unwrap()
        .describe();
    assert!(described.contains("bad key"));
    assert_eq!(described, "Received error response: 401: Error: bad key");
}

#[test]
fn success_status_is_no_failure() {
    assert_eq!(status_failure(ProviderKind::OpenAI, 200, "whatever"), None);
    assert_eq!(status_failure(ProviderKind::Zhipu, 204, ""), None);
}

#[test]
fn other_providers_fail_with_status_only() {
    assert_eq!(
        status_failure(ProviderKind::Zhipu, 500, "{\"error\":{\"message\":\"x\"}}"),
        Some(AdapterError::Status { status: 500, detail: None })
    );
}

#[test]
fn openai_error_texts() {
    assert_eq!(
        process_openai_error_response("{\"error\":{\"message\":\"bad key\"}}".to_string()),
        "Error: bad key"
    );
    assert_eq!(
        process_openai_error_response("{\"error\":{\"code\":1}}".to_string()),
        "Received an error, but the response format is unexpected."
    );
    assert_eq!(
        process_openai_error_response("{\"error\":{\"message\":3}}".to_string()),
        "Received an error, but the response format is unexpected."
    );
    assert_eq!(
        process_openai_error_response("{\"error\":\"x\"}".to_string()),
        "Received an error, but the response format is unexpected."
    );
    assert_eq!(
        process_openai_error_response("{\"detail\":\"x\"}".to_string()),
        "Received an error, but the response format is unexpected."
    );
    assert_eq!(
        process_openai_error_response("<html>".to_string()),
        "Received an error, but failed to parse the response."
    );
}

#[test]
fn error_report_from_entries() {
    assert_eq!(
        error_report(None),
        "Received an error, but the response format is unexpected."
    );
    assert_eq!(error_report(Some("m".to_string())), "Error: m");
}

#[test]
fn claude_hello() {
    assert_eq!(
        claude_reply(200, "{\"content\":[{\"text\":\"Hello\"}]}"),
        Ok(vec!["Hello".to_string()])
    );
}

#[test]
fn claude_error_document() {
    assert_eq!(
        claude_reply(200, "{\"type\":\"error\",\"error\":{\"message\":\"overloaded\"}}"),
        Err(AdapterError::Api { message: "overloaded".to_string() })
    );
    assert_eq!(
        claude_reply(200, "{\"type\":\"error\"}"),
        Err(AdapterError::Api { message: "Unknown error".to_string() })
    );
}

#[test]
fn claude_failures() {
    assert_eq!(
        claude_reply(529, "{\"content\":[{\"text\":\"Hello\"}]}"),
        Err(AdapterError::Status { status: 529, detail: None })
    );
    assert_eq!(claude_reply(200, "{\"content\":"), Err(AdapterError::MalformedBody));
}

#[test]
fn claude_without_text_gives_no_fragment() {
    assert_eq!(claude_reply(200, "{\"content\":[]}"), Ok(vec![]));
    assert_eq!(claude_reply(200, "{\"content\":[{\"text\":\"\"}]}"), Ok(vec![]));
    assert_eq!(claude_reply(200, "{\"content\":[{\"text\":5}]}"), Ok(vec![]));
    assert_eq!(claude_reply(200, "{\"content\":{\"0\":{\"text\":\"x\"}}}"), Ok(vec![]));
}

#[test]
fn claude_outcome_from_entries() {
    assert_eq!(
        claude_outcome(Some("error".to_string()), None, Some("t".to_string())),
        Err(AdapterError::Api { message: "Unknown error".to_string() })
    );
    assert_eq!(
        claude_outcome(Some("message".to_string()), None, Some("t".to_string())),
        Ok(vec!["t".to_string()])
    );
    assert_eq!(claude_outcome(None, None, None), Ok(vec![]));
}

#[test]
fn json_lookups() {
    let doc = "{\"a\":[{\"b\":\"x\"},{\"c\":null}]}";
    assert!(is_json(doc));
    assert!(!is_json("{"));
    assert_eq!(string_in(doc, "/a/0/b"), Some("x".to_string()));
    assert_eq!(string_in(doc, "/a/1/c"), None);
    assert!(array_in(doc, "/a"));
    assert!(!array_in(doc, "/a/0"));
    assert!(!array_in(doc, "/a/2"));
    assert!(!array_in("{", "/a"));
}

#[test]
fn describe_lines() {
    assert_eq!(
        AdapterError::Status { status: 503, detail: None }.describe(),
        "Received error response: 503"
    );
    assert_eq!(
        AdapterError::Status { status: 7, detail: Some("x".to_string()) }.describe(),
        "Received error response: 7: x"
    );
    assert_eq!(
        claude_reply(401, "{}").unwrap_err().describe(),
        "Received error response: 401"
    );
    assert_eq!(
        status_failure(ProviderKind::Zhipu, 500, "").unwrap().describe(),
        "Received error response: 500"
    );
    assert_eq!(AdapterError::MalformedBody.describe(), "Malformed response body");
    assert_eq!(
        AdapterError::Api { message: "m".to_string() }.describe(),
        "API error: m"
    );
    assert_eq!(
        AdapterError::Transport { message: "down".to_string() }.describe(),
        "Transport error: down"
    );
}
