use dragon_li::agent_http::{
    agent_bad_response, agent_socket_path, agent_unreachable, agent_write_failed, build_get_request,
    build_post_request, health_request, health_response_ok, http_error, is_header_end, is_success_status,
    mcp_test_outcome, serialize_failed, split_words, sse_payload, status_after_line,
};
use dragon_li::chat::{
    chat_error_message, error_to_parts, find_enabled_profile, is_retryable, judge_attempt, provider_name,
    resolve_chat_log_context, retry_backoff, summarize_attempt, validate_prompt, validate_request,
    AttemptVerdict, ChatError, ChatPromptLayer, ChatRequestInput, ChatResult, ChatService, ChatStreamEvent,
};
use dragon_li::chat_flow::{assistant_message_id, chat_config, create_chat_failure_log, create_chat_success_log, create_injection_failure_log};
use dragon_li::config::{ApiProfile, ApiProfilesConfig, ConfigManager, DiskConfig, Provider, ToolsConfig};

fn profile(id: &str, provider: Provider, enabled: bool) -> ApiProfile {
    ApiProfile {
        id: id.to_string(),
        name: "Primary".to_string(),
        provider,
        base_url: "https://api.openai.com/v1".to_string(),
        api_key: "sk-test".to_string(),
        default_model: format!("{id}-model"),
        enabled,
        created_at: "2026-04-05T00:00:00+08:00".to_string(),
        updated_at: "2026-04-05T00:00:00+08:00".to_string(),
    }
}

fn config() -> ApiProfilesConfig {
    ApiProfilesConfig {
        profiles: vec![profile("openai-main", Provider::Openai, true), profile("off", Provider::Anthropic, false)],
        tools: ToolsConfig { brave_search_api_key: None },
    }
}

fn sample_request() -> ChatRequestInput {
    ChatRequestInput {
        profile_id: "openai-main".to_string(),
        request_id: "req_test_1".to_string(),
        session_id: Some("s1".to_string()),
        model: Some("gpt-4o-mini".to_string()),
        prompt: ChatPromptLayer {
            system: "system".to_string(),
            runtime: "runtime".to_string(),
            memory: "memory".to_string(),
            user: "hello".to_string(),
        },
        enable_web_search: false,
        history: vec![],
    }
}

fn invalid_message(r: Result<(), ChatError>) -> String {
    match r {
        Err(ChatError::InvalidRequest(m)) => m,
        _ => panic!("expected an invalid request"),
    }
}

#[test]
fn chat_error_response_contains_request_id() {
    let message = chat_error_message("bad input", "req_abc");
    assert!(message.contains("request_id=req_abc"));
    assert_eq!(message, "bad input [request_id=req_abc]");
}

#[test]
fn create_chat_failure_log_writes_request_log() {
    let request = sample_request();
    let log = create_chat_failure_log(
        &request,
        Some("openai".to_string()),
        Some("gpt-4o-mini".to_string()),
        "CONFIG_NOT_FOUND",
        12,
        77,
        "2026-04-05T10:01:02+08:00".to_string(),
    );
    assert_eq!(log.status, "failed");
    assert_eq!(log.error_code.as_deref(), Some("CONFIG_NOT_FOUND"));
    assert_eq!(log.provider.as_deref(), Some("openai"));
    assert_eq!(log.model.as_deref(), Some("gpt-4o-mini"));
    assert_eq!(log.session_id.as_deref(), Some("s1"));
    assert_eq!(log.latency_ms, Some(12));
    assert_eq!(log.id, "log_req_test_1_err_77");
}

#[test]
fn success_and_injection_logs() {
    let request = sample_request();
    let result = ChatResult {
        request_id: "req_test_1".to_string(),
        provider: "openai".to_string(),
        model: "m".to_string(),
        events: vec![],
        output_text: String::new(),
        reasoning_text: String::new(),
        attempts: 1,
        tokens_in: 3,
        tokens_out: 4,
    };
    let ok = create_chat_success_log(&request, &result, 5, 1, "t".to_string());
    assert_eq!(ok.id, "log_req_test_1_ok_1");
    assert_eq!(ok.status, "ok");
    assert_eq!((ok.tokens_in, ok.tokens_out), (Some(3), Some(4)));
    let inj = create_injection_failure_log(&request, None, None, "DB_READ_FAILED".to_string(), 5, 2, "t".to_string());
    assert_eq!(inj.id, "log_req_test_1_memory_injection_2");
    assert_eq!(inj.status, "memory_injection_failed");
    assert_eq!(assistant_message_id("req_test_1"), "m_ast_req_test_1");
}

#[test]
fn requests_are_checked_in_order() {
    assert!(validate_request(&sample_request()).is_ok());
    let mut r = sample_request();
    r.request_id = "  ".to_string();
    r.profile_id = String::new();
    assert_eq!(invalid_message(validate_request(&r)), "request_id must not be empty");
    let mut r = sample_request();
    r.profile_id = "\t".to_string();
    assert_eq!(invalid_message(validate_request(&r)), "profile_id must not be empty");
    let mut r = sample_request();
    r.session_id = Some(" ".to_string());
    assert_eq!(invalid_message(validate_request(&r)), "session_id must not be empty when provided");
    let mut r = sample_request();
    r.model = Some(String::new());
    assert_eq!(invalid_message(validate_request(&r)), "model must not be empty when provided");
    let mut r = sample_request();
    r.prompt.user = " \n".to_string();
    assert_eq!(invalid_message(validate_request(&r)), "prompt.user must not be empty");
}

#[test]
fn prompt_length_is_counted_in_characters() {
    let mut p = sample_request().prompt;
    p.user = "字".repeat(16000);
    assert!(validate_prompt(&p).is_ok());
    p.user = "字".repeat(16001);
    assert_eq!(invalid_message(validate_prompt(&p)), "prompt.user is too long (max 16000 chars)");
}

#[test]
fn profiles_must_exist_and_be_enabled() {
    let cfg = config();
    assert_eq!(find_enabled_profile(&cfg, "openai-main").map(|p| p.id.clone()).ok(), Some("openai-main".to_string()));
    assert!(matches!(find_enabled_profile(&cfg, "off"), Err(ChatError::ProfileDisabled(m)) if m == "off"));
    assert!(matches!(find_enabled_profile(&cfg, "none"), Err(ChatError::ProfileNotFound(m)) if m == "none"));
    assert_eq!(ChatError::ProfileDisabled("off".to_string()).message(), "CONFIG_PROFILE_NOT_FOUND: profile is disabled: off");
}

#[test]
fn log_context_prefers_request_model() {
    let cfg = config();
    let r = sample_request();
    assert_eq!(resolve_chat_log_context(&cfg, &r), (Some("openai".to_string()), Some("gpt-4o-mini".to_string())));
    let mut r = sample_request();
    r.model = None;
    r.profile_id = "off".to_string();
    assert_eq!(resolve_chat_log_context(&cfg, &r), (Some("anthropic".to_string()), Some("off-model".to_string())));
    r.profile_id = "missing".to_string();
    assert_eq!(resolve_chat_log_context(&cfg, &r), (None, None));
    assert_eq!(provider_name(&Provider::Anthropic), "anthropic");
}

#[test]
fn error_parts_and_retry_marks() {
    let e = ChatError::Provider { code: "AGENT_UNREACHABLE".to_string(), message: "down".to_string(), retryable: true, http_status: None };
    assert!(is_retryable(&e));
    assert_eq!(error_to_parts(e), ("AGENT_UNREACHABLE".to_string(), "down".to_string(), true));
    let e = ChatError::InvalidRequest("x".to_string());
    assert!(!is_retryable(&e));
    assert_eq!(error_to_parts(e), ("INVALID_REQUEST".to_string(), "x".to_string(), false));
    assert_eq!(error_to_parts(ChatError::ProfileNotFound("p".to_string())).0, "CONFIG_PROFILE_NOT_FOUND");
}

#[test]
fn retries_wait_then_give_up() {
    assert_eq!(retry_backoff(1), Some(500));
    assert_eq!(retry_backoff(2), Some(1500));
    assert_eq!(retry_backoff(15), Some(1500));
    assert_eq!(retry_backoff(16), None);
    let busy = || Err(agent_unreachable("refused"));
    assert!(matches!(judge_attempt(0, busy()), AttemptVerdict::RetryAfter(500)));
    assert!(matches!(judge_attempt(14, busy()), AttemptVerdict::RetryAfter(1500)));
    assert!(matches!(judge_attempt(15, busy()), AttemptVerdict::GiveUp(_)));
    let fatal = Err(ChatError::InvalidRequest("bad".to_string()));
    assert!(matches!(judge_attempt(0, fatal), AttemptVerdict::GiveUp(ChatError::InvalidRequest(_))));
    let done = summarize_attempt("r", "openai", "m", vec![]).expect("no events");
    match judge_attempt(2, Ok(done)) {
        AttemptVerdict::Finished(res) => assert_eq!(res.attempts, 3),
        _ => panic!("expected a finished answer"),
    }
}

#[test]
fn attempt_events_are_summed_up() {
    let events = vec![
        ChatStreamEvent::Reasoning { text: "think ".to_string() },
        ChatStreamEvent::Delta { text: "Hel".to_string() },
        ChatStreamEvent::Usage { tokens_in: 3, tokens_out: 1 },
        ChatStreamEvent::Delta { text: "lo".to_string() },
        ChatStreamEvent::Reasoning { text: "more".to_string() },
        ChatStreamEvent::Usage { tokens_in: 2, tokens_out: 5 },
        ChatStreamEvent::Done,
    ];
    let r = summarize_attempt("req", "openai", "gpt", events).expect("answer");
    assert_eq!(r.output_text, "Hello");
    assert_eq!(r.reasoning_text, "think more");
    assert_eq!((r.tokens_in, r.tokens_out), (5, 6));
    assert_eq!(r.attempts, 1);
    assert_eq!(r.events.len(), 7);
    assert_eq!((r.request_id.as_str(), r.provider.as_str(), r.model.as_str()), ("req", "openai", "gpt"));

    let aborted = vec![
        ChatStreamEvent::Aborted { code: "A".to_string(), message: "first".to_string(), retryable: false },
        ChatStreamEvent::Delta { text: "x".to_string() },
        ChatStreamEvent::Aborted { code: "B".to_string(), message: "last".to_string(), retryable: true },
    ];
    match summarize_attempt("req", "openai", "gpt", aborted) {
        Err(ChatError::Provider { code, message, retryable, http_status }) => {
            assert_eq!((code.as_str(), message.as_str(), retryable, http_status), ("B", "last", true, None));
        }
        _ => panic!("expected the last abort"),
    }
}

#[test]
fn chat_config_loads_or_refuses_pending_change() {
    let mut manager = ConfigManager::new("/tmp/chat/config/api_profiles.json".to_string());
    let cfg = chat_config(&mut manager, DiskConfig::Parsed(config(), Ok(1))).expect("first load");
    assert_eq!(cfg.profiles.len(), 2);
    let same = chat_config(&mut manager, DiskConfig::Parsed(config(), Ok(1))).expect("unchanged");
    assert_eq!(same.profiles[0].id, "openai-main");
    let refused = chat_config(&mut manager, DiskConfig::Parsed(config(), Ok(2))).expect_err("changed outside");
    assert_eq!(refused.0, "CONFIG_RELOAD_REJECTED");
    assert_eq!(
        refused.1,
        "external config change detected; confirm via config_apply_external_change(confirm=true)"
    );
    let mut fresh = ConfigManager::new("/tmp/none.json".to_string());
    let missing = chat_config(&mut fresh, DiskConfig::Missing).expect_err("no file");
    assert_eq!(missing.0, "CONFIG_NOT_FOUND");
    assert_eq!(missing.1, "CONFIG_NOT_FOUND: /tmp/none.json");
}

#[test]
fn agent_requests_are_framed() {
    assert_eq!(
        build_post_request("/v1/chat/stream", "{\"a\":\"é\"}"),
        "POST /v1/chat/stream HTTP/1.0\r\nHost: localhost\r\nContent-Type: application/json\r\nContent-Length: 10\r\n\r\n{\"a\":\"é\"}"
    );
    assert_eq!(build_get_request("/v1/mcp/status"), "GET /v1/mcp/status HTTP/1.0\r\nHost: localhost\r\n\r\n");
    assert_eq!(health_request(), "GET /health HTTP/1.0\r\nHost: localhost\r\n\r\n");
    assert_eq!(agent_socket_path("/home/u/.dragon-li"), "/home/u/.dragon-li/run/agent.sock");
    let svc = ChatService::new("/home/u/.dragon-li/run/agent.sock".to_string());
    assert_eq!(svc.uds_path(), "/home/u/.dragon-li/run/agent.sock");
}

#[test]
fn responses_are_read() {
    assert_eq!(split_words("  HTTP/1.0   200 OK\r\n"), vec!["HTTP/1.0", "200", "OK"]);
    assert_eq!(status_after_line(0, "HTTP/1.0 200 OK\r\n"), 200);
    assert_eq!(status_after_line(0, "HTTP/1.1 404 Not Found\r\n"), 404);
    assert_eq!(status_after_line(0, "HTTP/1.1 abc\r\n"), 500);
    assert_eq!(status_after_line(0, "HTTP/1.1 70000\r\n"), 500);
    assert_eq!(status_after_line(201, "Content-Type: text/plain\r\n"), 201);
    assert_eq!(status_after_line(7, "HTTP/1.0\r\n"), 7);
    assert!(is_header_end("\r\n") && is_header_end("\n") && !is_header_end(" \n"));
    assert!(is_success_status(200) && is_success_status(299) && !is_success_status(300) && !is_success_status(0));
    assert!(health_response_ok("HTTP/1.0 200 OK\r\n\r\n{}"));
    assert!(!health_response_ok("HTTP/1.0 500 Internal\r\n"));
}

#[test]
fn stream_lines_carry_payloads() {
    assert_eq!(sse_payload("data: {\"type\":\"done\"}\n"), Some("{\"type\":\"done\"}".to_string()));
    assert_eq!(sse_payload("  data:{\"x\":1}  "), Some("{\"x\":1}".to_string()));
    assert_eq!(sse_payload("data: [DONE]\n"), None);
    assert_eq!(sse_payload("event: ping\n"), None);
    assert_eq!(sse_payload("data:"), Some(String::new()));
}

#[test]
fn agent_errors_are_described() {
    match http_error(502, "bad gateway") {
        ChatError::Provider { code, message, retryable, http_status } => {
            assert_eq!(code, "AGENT_HTTP_ERROR");
            assert_eq!(message, "Agent returned HTTP 502: bad gateway");
            assert!(retryable);
            assert_eq!(http_status, Some(502));
        }
        _ => panic!("expected a provider error"),
    }
    assert_eq!(agent_unreachable("no socket").message(), "AGENT_UNREACHABLE: failed to connect to python agent: no socket");
    assert_eq!(agent_write_failed("pipe").message(), "AGENT_WRITE_FAILED: failed to write to python agent: pipe");
    assert!(!is_retryable(&agent_bad_response("eof")));
    assert_eq!(serialize_failed("x").message(), "INTERNAL_ERROR: serialize failed: x");
    assert_eq!(mcp_test_outcome(Some("ok"), None), Ok(()));
    assert_eq!(mcp_test_outcome(Some("error"), Some("boom")), Err("boom".to_string()));
    assert_eq!(mcp_test_outcome(None, None), Err("Unknown error".to_string()));
}
