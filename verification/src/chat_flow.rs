//! The decisions of the chat command around a request: which configuration
//! it runs with, and the log rows it leaves.
use vstd::prelude::*;
use vstd::string::*;
use crate::chat::{ChatMessageContext, ChatRequestInput, ChatResult};
use crate::config::{
    after_check, after_load, config_fault_text, ApiProfilesConfig, ConfigFault, ConfigManager, ConfigView,
    DiskConfig, ManagerView,
};
use crate::store::NewRequestLog;
use crate::text::owned;
use crate::utils::{config_error_parts, error_code_of, log_id, next_log_id};
use crate::web::opt_view;

verus! {

/// Asks the agent for a short title of a conversation.
pub struct TitleGenerateRequest<'a> {
    pub profile_id: String,
    pub model: Option<String>,
    pub user_text: String,
    pub cfg: &'a ApiProfilesConfig,
}

/// The title the agent proposes.
#[derive(Clone, Debug)]
pub struct TitleGenerateResponse {
    pub title: String,
}

/// Asks the agent which memories an exchange holds.
pub struct MemoryExtractRequest<'a> {
    pub profile_id: String,
    pub model: Option<String>,
    pub session_id: String,
    pub user_text: String,
    pub assistant_text: String,
    pub history: Vec<ChatMessageContext>,
    pub cfg: &'a ApiProfilesConfig,
}

/// The code and the text of a configuration error, as a failed chat reports them.
pub open spec fn fault_parts(e: ConfigFault) -> (Seq<char>, Seq<char>) {
    (error_code_of(config_fault_text(e), "INTERNAL_ERROR"@), config_fault_text(e))
}

/// The configuration a chat request runs with, and the manager's state after:
/// with none applied yet, the one loaded from disk; otherwise the applied one,
/// unless the file changed outside since it was loaded, which must first be
/// confirmed. A failure gives the code and the message the request fails with.
pub open spec fn chat_config_outcome(s: ManagerView, disk: DiskConfig) -> (
    Result<ConfigView, (Seq<char>, Seq<char>)>,
    ManagerView,
) {
    match s.current {
        None => match after_load(s, disk) {
            (Ok(c), s2) => (Ok(c), s2),
            (Err(e), s2) => (Err(fault_parts(e)), s2),
        },
        Some(_) => match after_check(s, disk) {
            (Ok(true), s2) => (
                Err(
                    (
                        "CONFIG_RELOAD_REJECTED"@,
                        "external config change detected; confirm via config_apply_external_change(confirm=true)"@,
                    ),
                ),
                s2,
            ),
            (Ok(false), s2) => match s2.current {
                Some(c) => (Ok(c), s2),
                None => (
                    Err(("CONFIG_NOT_FOUND"@, "config not loaded; call config_get/config_save first"@)),
                    s2,
                ),
            },
            (Err(e), s2) => (Err(fault_parts(e)), s2),
        },
    }
}

pub open spec fn gate_view(r: Result<ApiProfilesConfig, (String, String)>) -> Result<ConfigView, (Seq<char>, Seq<char>)> {
    match r {
        Ok(c) => Ok(c@),
        Err((a, b)) => Err((a@, b@)),
    }
}

fn failure(code: &str, message: &str) -> (r: Result<ApiProfilesConfig, (String, String)>)
    ensures
        gate_view(r) == Err::<ConfigView, (Seq<char>, Seq<char>)>((code@, message@)),
{
    Err((owned(code), owned(message)))
}

/// Settles the configuration for a chat request; `disk` is what the
/// configuration file holds now.
pub fn chat_config(manager: &mut ConfigManager, disk: DiskConfig) -> (r: Result<ApiProfilesConfig, (String, String)>)
    ensures
        (gate_view(r), final(manager)@) == chat_config_outcome(old(manager)@, disk),
{
    if manager.current().is_none() {
        match manager.load_or_reload(disk) {
            Ok(cfg) => Ok(cfg.duplicate()),
            Err(e) => {
                let (code, message) = config_error_parts(e);
                Err((code, message))
            },
        }
    } else {
        match manager.check_external_change(disk) {
            Ok(true) => failure(
                "CONFIG_RELOAD_REJECTED",
                "external config change detected; confirm via config_apply_external_change(confirm=true)",
            ),
            Ok(false) => match manager.current() {
                Some(cfg) => Ok(cfg.duplicate()),
                None => failure("CONFIG_NOT_FOUND", "config not loaded; call config_get/config_save first"),
            },
            Err(e) => {
                let (code, message) = config_error_parts(e);
                Err((code, message))
            },
        }
    }
}

/// The log row of a chat request that failed with `code`: id
/// `log_<request_id>_err_<nanos>`, status `failed`, no tokens.
pub fn create_chat_failure_log(
    request: &ChatRequestInput,
    provider: Option<String>,
    model: Option<String>,
    code: &str,
    latency_ms: i64,
    nanos: u128,
    created_at: String,
) -> (r: NewRequestLog)
    ensures
        r.id@ == log_id(request.request_id@, "err"@, nanos as nat),
        r.request_id@ == request.request_id@,
        opt_view(r.session_id) == opt_view(request.session_id),
        r.provider == provider,
        r.model == model,
        r.status@ == "failed"@,
        r.latency_ms == Some(latency_ms),
        r.tokens_in is None,
        r.tokens_out is None,
        opt_view(r.error_code) == Some(code@),
        r.created_at == created_at,
{
    NewRequestLog {
        id: next_log_id(request.request_id.as_str(), "err", nanos),
        request_id: request.request_id.clone(),
        session_id: request.session_id.clone(),
        provider,
        model,
        status: owned("failed"),
        latency_ms: Some(latency_ms),
        tokens_in: None,
        tokens_out: None,
        error_code: Some(owned(code)),
        created_at,
    }
}

/// The log row of a chat request that was answered: id
/// `log_<request_id>_ok_<nanos>`, status `ok`, with the provider, model and
/// tokens of the answer.
pub fn create_chat_success_log(
    request: &ChatRequestInput,
    result: &ChatResult,
    latency_ms: i64,
    nanos: u128,
    created_at: String,
) -> (r: NewRequestLog)
    ensures
        r.id@ == log_id(request.request_id@, "ok"@, nanos as nat),
        r.request_id@ == request.request_id@,
        opt_view(r.session_id) == opt_view(request.session_id),
        opt_view(r.provider) == Some(result.provider@),
        opt_view(r.model) == Some(result.model@),
        r.status@ == "ok"@,
        r.latency_ms == Some(latency_ms),
        r.tokens_in == Some(result.tokens_in as i64),
        r.tokens_out == Some(result.tokens_out as i64),
        r.error_code is None,
        r.created_at == created_at,
{
    NewRequestLog {
        id: next_log_id(request.request_id.as_str(), "ok", nanos),
        request_id: request.request_id.clone(),
        session_id: request.session_id.clone(),
        provider: Some(result.provider.clone()),
        model: Some(result.model.clone()),
        status: owned("ok"),
        latency_ms: Some(latency_ms),
        tokens_in: Some(result.tokens_in as i64),
        tokens_out: Some(result.tokens_out as i64),
        error_code: None,
        created_at,
    }
}

/// The log row left when recalling memories for a request failed with `code`:
/// id `log_<request_id>_memory_injection_<nanos>`, status `memory_injection_failed`.
pub fn create_injection_failure_log(
    request: &ChatRequestInput,
    provider: Option<String>,
    model: Option<String>,
    code: String,
    latency_ms: i64,
    nanos: u128,
    created_at: String,
) -> (r: NewRequestLog)
    ensures
        r.id@ == log_id(request.request_id@, "memory_injection"@, nanos as nat),
        r.request_id@ == request.request_id@,
        opt_view(r.session_id) == opt_view(request.session_id),
        r.provider == provider,
        r.model == model,
        r.status@ == "memory_injection_failed"@,
        r.latency_ms == Some(latency_ms),
        r.tokens_in is None,
        r.tokens_out is None,
        r.error_code == Some(code),
        r.created_at == created_at,
{
    NewRequestLog {
        id: next_log_id(request.request_id.as_str(), "memory_injection", nanos),
        request_id: request.request_id.clone(),
        session_id: request.session_id.clone(),
        provider,
        model,
        status: owned("memory_injection_failed"),
        latency_ms: Some(latency_ms),
        tokens_in: None,
        tokens_out: None,
        error_code: Some(code),
        created_at,
    }
}

/// A chat request made after the configuration file was changed outside, and
/// before the change is confirmed, is refused with `CONFIG_RELOAD_REJECTED`, and
/// the change is left pending.
pub proof fn law_chat_refuses_unconfirmed_change(s: ManagerView, disk: DiskConfig)
    requires
        s.current is Some,
        after_check(s, disk).0 == Ok::<bool, ConfigFault>(true),
    ensures
        chat_config_outcome(s, disk).0 == Err::<ConfigView, (Seq<char>, Seq<char>)>(
            (
                "CONFIG_RELOAD_REJECTED"@,
                "external config change detected; confirm via config_apply_external_change(confirm=true)"@,
            ),
        ),
        chat_config_outcome(s, disk).1.pending,
        chat_config_outcome(s, disk).1.current == s.current,
{
}

/// The id of the assistant message a request's answer is stored in: `m_ast_<request_id>`.
pub fn assistant_message_id(request_id: &str) -> (r: String)
    ensures
        r@ == "m_ast_"@ + request_id@,
{
    let mut r = owned("m_ast_");
    r.append(request_id);
    r
}

} // verus!
