use cliproxy_data_plane::types::{AuthExecution, AuthRecord, CodexExecution, ProviderKind};
use cliproxy_data_plane::upstream_runtime::{
    codex_base_url, codex_openai_beta, codex_user_agent, status_is_success, upstream_status_error,
    CodexConfig, HttpCall, OpenAiConfig, UpstreamRequest, UpstreamRuntime, UpstreamRuntimeConfig,
};

fn header<'a>(call: &'a HttpCall, name: &str) -> Option<&'a str> {
    call.headers.iter().find(|(k, _)| k == name).map(|(_, x)| x.as_str())
}

fn openai() -> OpenAiConfig {
    OpenAiConfig { base_url: "https://api.openai.test/v1/".to_string(), api_key: "sk-test".to_string() }
}

fn codex() -> CodexConfig {
    CodexConfig {
        base_url: "https://codex.test/backend".to_string(),
        token: "codex-token".to_string(),
        user_agent: "codex-cli".to_string(),
        openai_beta: Some("responses=v1".to_string()),
    }
}

fn request(model: &str, stream: bool) -> UpstreamRequest {
    UpstreamRequest { model: model.to_string(), body: b"{}".to_vec(), stream }
}

fn codex_auth(base_url: &str, user_agent: &str) -> AuthRecord {
    AuthRecord {
        id: "auth-1".to_string(),
        provider: " Codex ".to_string(),
        execution: AuthExecution {
            codex: Some(CodexExecution {
                access_token: "oauth-token".to_string(),
                account_id: " acct_1 ".to_string(),
                base_url: base_url.to_string(),
                user_agent: user_agent.to_string(),
                openai_beta: String::new(),
            }),
        },
        ..AuthRecord::default()
    }
}

#[test]
fn provider_for_model_prefers_codex_when_model_contains_codex() {
    let both = UpstreamRuntime::new(UpstreamRuntimeConfig { openai: Some(openai()), codex: Some(codex()) });
    assert_eq!(both.provider_for_model(" GPT-5-Codex "), Some(ProviderKind::Codex));
    assert_eq!(both.provider_for_model("gpt-5"), Some(ProviderKind::OpenAi));
    let only_codex = UpstreamRuntime::new(UpstreamRuntimeConfig { openai: None, codex: Some(codex()) });
    assert_eq!(only_codex.provider_for_model("gpt-5"), Some(ProviderKind::Codex));
    let none = UpstreamRuntime::new(UpstreamRuntimeConfig::default());
    assert_eq!(none.provider_for_model("gpt-5"), None);
    assert!(!none.is_enabled());
}

#[test]
fn openai_call_posts_to_responses_with_bearer_key() {
    let runtime = UpstreamRuntime::new(UpstreamRuntimeConfig { openai: Some(openai()), codex: None });
    let call = runtime.responses_call_at(request("gpt-5", false), 0).expect("call");
    assert_eq!(call.provider, ProviderKind::OpenAi);
    assert_eq!(call.url, "https://api.openai.test/v1/responses");
    assert_eq!(header(&call, "authorization"), Some("Bearer sk-test"));
    assert_eq!(header(&call, "accept"), Some("application/json"));
    assert_eq!(header(&call, "connection"), Some("Keep-Alive"));
    assert_eq!(call.body, b"{}".to_vec());
}

#[test]
fn codex_call_adds_codex_headers_and_streams() {
    let runtime = UpstreamRuntime::new(UpstreamRuntimeConfig { openai: None, codex: Some(codex()) });
    let call = runtime.responses_call_at(request("gpt-5-codex", true), 42).expect("call");
    assert_eq!(call.url, "https://codex.test/backend/responses");
    assert_eq!(header(&call, "authorization"), Some("Bearer codex-token"));
    assert_eq!(header(&call, "user-agent"), Some("codex-cli"));
    assert_eq!(header(&call, "openai-beta"), Some("responses=v1"));
    assert_eq!(header(&call, "accept"), Some("text/event-stream"));
    assert_eq!(header(&call, "originator"), Some("codex-tui"));
    assert_eq!(header(&call, "session_id"), None);
    assert!(call.stream);
}

#[test]
fn mac_user_agents_get_a_generated_session_id() {
    let runtime = UpstreamRuntime::new(UpstreamRuntimeConfig::default());
    let auth = codex_auth("https://auth.test/codex/", "codex (Mac OS 14)");
    let call = runtime.responses_call_for_auth_at(&auth, request("gpt-5-codex", false), 1234).expect("call");
    assert_eq!(call.url, "https://auth.test/codex/responses");
    assert_eq!(header(&call, "authorization"), Some("Bearer oauth-token"));
    assert_eq!(header(&call, "chatgpt-account-id"), Some("acct_1"));
    assert_eq!(header(&call, "session_id"), Some("rs-session-1234"));
    assert_eq!(header(&call, "openai-beta"), None);
}

#[test]
fn auth_calls_fall_back_to_the_global_codex_settings() {
    let runtime = UpstreamRuntime::new(UpstreamRuntimeConfig { openai: None, codex: Some(codex()) });
    let auth = codex_auth("  ", "");
    let call = runtime.responses_call_for_auth_at(&auth, request("gpt-5-codex", false), 0).expect("call");
    assert_eq!(call.url, "https://codex.test/backend/responses");
    assert_eq!(header(&call, "user-agent"), Some("codex-cli"));
    assert_eq!(header(&call, "openai-beta"), Some("responses=v1"));
    assert!(runtime.can_execute_for_auth(&auth));

    let bare = UpstreamRuntime::new(UpstreamRuntimeConfig::default());
    assert!(!bare.can_execute_for_auth(&auth));
    assert_eq!(
        bare.responses_call_for_auth_at(&auth, request("gpt-5-codex", false), 0).unwrap_err(),
        "codex base_url is not configured"
    );
    let exec = auth.execution.codex.clone().unwrap();
    assert_eq!(codex_user_agent(&exec, &None), "cliproxy-data-plane/0.1.0");
    assert_eq!(codex_openai_beta(&exec, &Some(codex())), Some("responses=v1".to_string()));
    assert_eq!(codex_base_url(&exec, &None), Err("codex base_url is not configured".to_string()));
}

#[test]
fn unsupported_auth_provider_and_missing_upstream_are_errors() {
    let runtime = UpstreamRuntime::new(UpstreamRuntimeConfig::default());
    let mut auth = codex_auth("https://a", "ua");
    auth.provider = "Gemini".to_string();
    assert_eq!(
        runtime.responses_call_for_auth_at(&auth, request("m", false), 0).unwrap_err(),
        "unsupported auth provider for upstream execution: gemini"
    );
    assert_eq!(
        runtime.responses_call_at(request("gpt-5", false), 0).unwrap_err(),
        "no upstream provider configured for model gpt-5"
    );
    auth.provider = "openai".to_string();
    assert_eq!(
        runtime.responses_call_for_auth_at(&auth, request("m", false), 0).unwrap_err(),
        "openai upstream is not configured"
    );
}

#[test]
fn upstream_status_errors_carry_provider_status_and_body() {
    assert_eq!(upstream_status_error(ProviderKind::Codex, 429, b"slow down"), "upstream codex error 429: slow down");
    assert_eq!(upstream_status_error(ProviderKind::OpenAi, 500, b"x"), "upstream openai error 500: x");
    assert!(status_is_success(204));
    assert!(!status_is_success(302));
}

#[test]
fn auth_calls_carry_the_selected_credential_and_a_session_id() {
    let runtime = UpstreamRuntime::new(UpstreamRuntimeConfig {
        openai: None,
        codex: Some(CodexConfig {
            base_url: "https://codex.test/global".to_string(),
            token: "global-codex-token".to_string(),
            user_agent: "cliproxy-global".to_string(),
            openai_beta: Some("responses=v1".to_string()),
        }),
    });
    let mut auth = codex_auth("https://codex.test/auth", "codex-tui/auth-42");
    if let Some(exec) = auth.execution.codex.as_mut() {
        exec.access_token = "auth-specific-token".to_string();
        exec.account_id = "acct_42".to_string();
        exec.openai_beta = "responses=auth".to_string();
    }
    let call = runtime.responses_call_for_auth_at(&auth, request("gpt-5-codex", false), 77).expect("call");
    assert_eq!(call.url, "https://codex.test/auth/responses");
    assert_eq!(header(&call, "authorization"), Some("Bearer auth-specific-token"));
    assert_eq!(header(&call, "accept"), Some("application/json"));
    assert_eq!(header(&call, "connection"), Some("Keep-Alive"));
    assert_eq!(header(&call, "originator"), Some("codex-tui"));
    assert!(!header(&call, "session_id").unwrap_or_default().is_empty());
    assert_eq!(header(&call, "chatgpt-account-id"), Some("acct_42"));
    assert_eq!(header(&call, "user-agent"), Some("codex-tui/auth-42"));
    assert_eq!(header(&call, "openai-beta"), Some("responses=auth"));
}
