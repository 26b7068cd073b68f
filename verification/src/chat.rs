//! Chat requests: their shape and checks, the profile they are sent with, the
//! retry rule for attempts that fail, and what a finished attempt amounts to.
use vstd::prelude::*;
use vstd::string::*;
use crate::config::{profiles_view, ApiProfile, ApiProfilesConfig, ProfileView, Provider};
use crate::text::{blank, chars_of, is_blank, owned, same_text};
use crate::web::opt_view;

verus! {

/// The layers a chat prompt is made of.
#[derive(Clone, Debug)]
pub struct ChatPromptLayer {
    pub system: String,
    pub runtime: String,
    pub memory: String,
    pub user: String,
}

/// One earlier message of the conversation.
#[derive(Clone, Debug)]
pub struct ChatMessageContext {
    pub role: String,
    pub content: String,
}

/// A chat request from the user interface.
#[derive(Clone, Debug)]
pub struct ChatRequestInput {
    pub profile_id: String,
    pub request_id: String,
    pub session_id: Option<String>,
    pub model: Option<String>,
    pub prompt: ChatPromptLayer,
    pub enable_web_search: bool,
    pub history: Vec<ChatMessageContext>,
}

/// What is sent to the local agent: the request, with the configuration beside it.
pub struct PythonChatRequest<'a> {
    pub req: &'a ChatRequestInput,
    pub cfg: &'a ApiProfilesConfig,
}

/// One event of a streamed answer.
#[derive(Clone, Debug)]
pub enum ChatStreamEvent {
    Delta { text: String },
    Reasoning { text: String },
    Usage { tokens_in: u32, tokens_out: u32 },
    Done,
    Aborted { code: String, message: String, retryable: bool },
}

/// A finished chat answer.
#[derive(Clone, Debug)]
pub struct ChatResult {
    pub request_id: String,
    pub provider: String,
    pub model: String,
    pub events: Vec<ChatStreamEvent>,
    pub output_text: String,
    pub reasoning_text: String,
    pub attempts: usize,
    pub tokens_in: u32,
    pub tokens_out: u32,
}

/// Why a chat request failed.
#[derive(Debug)]
pub enum ChatError {
    Provider { code: String, message: String, retryable: bool, http_status: Option<u16> },
    ProfileNotFound(String),
    ProfileDisabled(String),
    InvalidRequest(String),
}

/// The text of a chat error.
pub open spec fn chat_error_text(e: ChatError) -> Seq<char> {
    match e {
        ChatError::Provider { code, message, .. } => code@ + ": "@ + message@,
        ChatError::ProfileNotFound(m) => "CONFIG_PROFILE_NOT_FOUND: "@ + m@,
        ChatError::ProfileDisabled(m) => "CONFIG_PROFILE_NOT_FOUND: profile is disabled: "@ + m@,
        ChatError::InvalidRequest(m) => "INVALID_REQUEST: "@ + m@,
    }
}

impl ChatError {
    /// The text of the error, as it is shown to the user.
    pub fn message(&self) -> (r: String)
        ensures
            r@ == chat_error_text(*self),
    {
        match self {
            ChatError::Provider { code, message, .. } => {
                let mut r = code.clone();
                r.append(": ");
                r.append(message.as_str());
                r
            },
            ChatError::ProfileNotFound(m) => {
                let mut r = owned("CONFIG_PROFILE_NOT_FOUND: ");
                r.append(m.as_str());
                r
            },
            ChatError::ProfileDisabled(m) => {
                let mut r = owned("CONFIG_PROFILE_NOT_FOUND: profile is disabled: ");
                r.append(m.as_str());
                r
            },
            ChatError::InvalidRequest(m) => {
                let mut r = owned("INVALID_REQUEST: ");
                r.append(m.as_str());
                r
            },
        }
    }
}

/// Talks to the local agent over the Unix socket at `uds_path`.
#[derive(Clone, Debug)]
pub struct ChatService {
    uds_path: String,
}

impl ChatService {
    pub fn new(uds_path: String) -> (r: ChatService)
        ensures
            r.socket_view() == uds_path@,
    {
        ChatService { uds_path }
    }

    pub closed spec fn socket_view(&self) -> Seq<char> {
        self.uds_path@
    }

    /// The socket the agent listens on.
    pub fn uds_path(&self) -> (r: &str)
        ensures
            r@ == self.socket_view(),
    {
        self.uds_path.as_str()
    }
}

/// The most characters the user layer of a prompt may hold.
pub const MAX_PROMPT_CHARS: usize = 16000;

/// What is wrong with a prompt, if anything: the user layer must hold more
/// than whitespace, and at most 16000 characters.
pub open spec fn prompt_issue(p: ChatPromptLayer) -> Option<Seq<char>> {
    if is_blank(p.user@) {
        Some("prompt.user must not be empty"@)
    } else if p.user@.len() > MAX_PROMPT_CHARS {
        Some("prompt.user is too long (max 16000 chars)"@)
    } else {
        None
    }
}

/// What is wrong with a request, if anything, by the first rule it breaks.
pub open spec fn request_issue(r: ChatRequestInput) -> Option<Seq<char>> {
    if is_blank(r.request_id@) {
        Some("request_id must not be empty"@)
    } else if is_blank(r.profile_id@) {
        Some("profile_id must not be empty"@)
    } else if r.session_id matches Some(s) && is_blank(s@) {
        Some("session_id must not be empty when provided"@)
    } else if r.model matches Some(m) && is_blank(m@) {
        Some("model must not be empty when provided"@)
    } else {
        prompt_issue(r.prompt)
    }
}

fn invalid(m: &str) -> (r: Result<(), ChatError>)
    ensures
        r matches Err(ChatError::InvalidRequest(x)) && x@ == m@,
{
    Err(ChatError::InvalidRequest(owned(m)))
}

/// Checks the user layer of a prompt.
pub fn validate_prompt(prompt: &ChatPromptLayer) -> (r: Result<(), ChatError>)
    ensures
        match prompt_issue(*prompt) {
            Some(m) => r matches Err(ChatError::InvalidRequest(x)) && x@ == m,
            None => r is Ok,
        },
{
    if blank(prompt.user.as_str()) {
        return invalid("prompt.user must not be empty");
    }
    let cs = chars_of(prompt.user.as_str());
    if cs.len() > MAX_PROMPT_CHARS {
        return invalid("prompt.user is too long (max 16000 chars)");
    }
    Ok(())
}

/// Checks a chat request before anything is sent.
pub fn validate_request(req: &ChatRequestInput) -> (r: Result<(), ChatError>)
    ensures
        match request_issue(*req) {
            Some(m) => r matches Err(ChatError::InvalidRequest(x)) && x@ == m,
            None => r is Ok,
        },
{
    if blank(req.request_id.as_str()) {
        return invalid("request_id must not be empty");
    }
    if blank(req.profile_id.as_str()) {
        return invalid("profile_id must not be empty");
    }
    if let Some(s) = &req.session_id {
        if blank(s.as_str()) {
            return invalid("session_id must not be empty when provided");
        }
    }
    if let Some(m) = &req.model {
        if blank(m.as_str()) {
            return invalid("model must not be empty when provided");
        }
    }
    validate_prompt(&req.prompt)
}

/// Whether a failed attempt may be tried again: only provider errors marked so.
pub open spec fn chat_retryable(e: ChatError) -> bool {
    e matches ChatError::Provider { retryable, .. } && retryable
}

pub fn is_retryable(err: &ChatError) -> (r: bool)
    ensures
        r == chat_retryable(*err),
{
    match err {
        ChatError::Provider { retryable, .. } => *retryable,
        _ => false,
    }
}

/// The first profile with the id, enabled or not.
pub open spec fn find_profile(ps: Seq<ProfileView>, id: Seq<char>) -> Option<ProfileView>
    decreases ps.len(),
{
    if ps.len() == 0 {
        None
    } else if ps[0].id == id {
        Some(ps[0])
    } else {
        find_profile(ps.drop_first(), id)
    }
}

fn find_index(profiles: &Vec<ApiProfile>, id: &str) -> (r: Option<usize>)
    ensures
        match r {
            Some(i) => i < profiles@.len() && find_profile(profiles_view(profiles@), id@) == Some(
                profiles@[i as int]@,
            ),
            None => find_profile(profiles_view(profiles@), id@) is None,
        },
{
    let ghost ps = profiles_view(profiles@);
    let mut i: usize = 0;
    assert(ps.skip(0) == ps);
    while i < profiles.len()
        invariant
            i <= profiles.len(),
            ps == profiles_view(profiles@),
            find_profile(ps, id@) == find_profile(ps.skip(i as int), id@),
        decreases profiles.len() - i,
    {
        let ghost rest = ps.skip(i as int);
        assert(rest[0] == profiles@[i as int]@);
        assert(rest.drop_first() == ps.skip(i + 1));
        if same_text(profiles[i].id.as_str(), id) {
            return Some(i);
        }
        i = i + 1;
    }
    assert(ps.skip(profiles.len() as int).len() == 0);
    None
}

/// The profile a request is sent with: the first with the id, which must be enabled.
pub fn find_enabled_profile<'a>(cfg: &'a ApiProfilesConfig, profile_id: &str) -> (r: Result<&'a ApiProfile, ChatError>)
    ensures
        match find_profile(cfg@.profiles, profile_id@) {
            None => r matches Err(ChatError::ProfileNotFound(m)) && m@ == profile_id@,
            Some(p) => if p.enabled {
                r matches Ok(q) && q@ == p
            } else {
                r matches Err(ChatError::ProfileDisabled(m)) && m@ == profile_id@
            },
        },
{
    match find_index(&cfg.profiles, profile_id) {
        None => Err(ChatError::ProfileNotFound(owned(profile_id))),
        Some(i) => {
            let p = &cfg.profiles[i];
            if !p.enabled {
                Err(ChatError::ProfileDisabled(owned(profile_id)))
            } else {
                Ok(p)
            }
        },
    }
}

/// The name a provider goes by in logs and results.
pub open spec fn provider_label(p: Provider) -> Seq<char> {
    match p {
        Provider::Openai => "openai"@,
        Provider::Anthropic => "anthropic"@,
    }
}

pub fn provider_name(provider: &Provider) -> (r: String)
    ensures
        r@ == provider_label(*provider),
{
    match provider {
        Provider::Openai => owned("openai"),
        Provider::Anthropic => owned("anthropic"),
    }
}

/// The provider and model a request's log names: those of the first profile
/// with its id, the request's own model first.
pub fn resolve_chat_log_context(cfg: &ApiProfilesConfig, request: &ChatRequestInput) -> (r: (
    Option<String>,
    Option<String>,
))
    ensures
        opt_view(r.0) == match find_profile(cfg@.profiles, request.profile_id@) {
            Some(p) => Some(provider_label(p.provider)),
            None => None::<Seq<char>>,
        },
        opt_view(r.1) == match request.model {
            Some(m) => Some(m@),
            None => match find_profile(cfg@.profiles, request.profile_id@) {
                Some(p) => Some(p.default_model),
                None => None::<Seq<char>>,
            },
        },
{
    let found = find_index(&cfg.profiles, request.profile_id.as_str());
    let provider = match found {
        Some(i) => Some(provider_name(&cfg.profiles[i].provider)),
        None => None,
    };
    let model = match &request.model {
        Some(m) => Some(m.clone()),
        None => match found {
            Some(i) => Some(cfg.profiles[i].default_model.clone()),
            None => None,
        },
    };
    (provider, model)
}

/// The code, the message and whether it may be retried, of a chat error.
pub open spec fn chat_error_parts(e: ChatError) -> (Seq<char>, Seq<char>, bool) {
    match e {
        ChatError::Provider { code, message, retryable, .. } => (code@, message@, retryable),
        ChatError::ProfileNotFound(m) => ("CONFIG_PROFILE_NOT_FOUND"@, m@, false),
        ChatError::ProfileDisabled(m) => ("CONFIG_PROFILE_NOT_FOUND"@, m@, false),
        ChatError::InvalidRequest(m) => ("INVALID_REQUEST"@, m@, false),
    }
}

pub fn error_to_parts(err: ChatError) -> (r: (String, String, bool))
    ensures
        (r.0@, r.1@, r.2) == chat_error_parts(err),
{
    match err {
        ChatError::Provider { code, message, retryable, .. } => (code, message, retryable),
        ChatError::ProfileNotFound(m) => (owned("CONFIG_PROFILE_NOT_FOUND"), m, false),
        ChatError::ProfileDisabled(m) => (owned("CONFIG_PROFILE_NOT_FOUND"), m, false),
        ChatError::InvalidRequest(m) => (owned("INVALID_REQUEST"), m, false),
    }
}

/// How many times a failed call to the agent is tried again.
pub const MAX_RETRIES: usize = 15;

/// The wait in milliseconds before trying again after the `failures`-th failure
/// in a row (counted from 1): 500 after the first, 1500 after each later one,
/// and no further try after the fifteenth retry has failed.
pub open spec fn retry_delay(failures: nat) -> Option<nat> {
    if failures > MAX_RETRIES {
        None
    } else if failures <= 1 {
        Some(500)
    } else {
        Some(1500)
    }
}

/// The wait before the next try after `failures` failures in a row, or `None`
/// when there is no next try.
pub fn retry_backoff(failures: usize) -> (r: Option<u64>)
    ensures
        match r {
            Some(d) => retry_delay(failures as nat) == Some(d as nat),
            None => retry_delay(failures as nat) is None,
        },
{
    if failures > MAX_RETRIES {
        None
    } else if failures <= 1 {
        Some(500)
    } else {
        Some(1500)
    }
}

/// What comes of one attempt at a chat request.
#[derive(Debug)]
pub enum AttemptVerdict {
    /// The answer, with the number of attempts it took.
    Finished(ChatResult),
    /// Wait this many milliseconds, then try again.
    RetryAfter(u64),
    /// The request failed for good.
    GiveUp(ChatError),
}

/// Decides on attempt number `attempt` (counted from 0): a finished answer
/// records how many attempts it took; a failure is tried again after the wait
/// `retry_delay` gives, if it may be retried and tries are left.
pub fn judge_attempt(attempt: usize, outcome: Result<ChatResult, ChatError>) -> (r: AttemptVerdict)
    requires
        attempt < usize::MAX,
    ensures
        match outcome {
            Ok(res) => r == AttemptVerdict::Finished(ChatResult { attempts: (attempt + 1) as usize, ..res }),
            Err(e) => if chat_retryable(e) && retry_delay((attempt + 1) as nat) is Some {
                r == AttemptVerdict::RetryAfter(retry_delay((attempt + 1) as nat)->0 as u64)
            } else {
                r == AttemptVerdict::GiveUp(e)
            },
        },
{
    match outcome {
        Ok(res) => AttemptVerdict::Finished(ChatResult { attempts: attempt + 1, ..res }),
        Err(e) => {
            if !is_retryable(&e) {
                return AttemptVerdict::GiveUp(e);
            }
            match retry_backoff(attempt + 1) {
                Some(d) => AttemptVerdict::RetryAfter(d),
                None => AttemptVerdict::GiveUp(e),
            }
        },
    }
}

/// A chat request is tried at most 16 times: the fifteenth retry is the last,
/// the first retry waits 500 ms and each later one 1500 ms.
pub proof fn law_retries_are_bounded(failures: nat)
    ensures
        failures > MAX_RETRIES ==> retry_delay(failures) is None,
        1 <= failures <= MAX_RETRIES ==> retry_delay(failures) is Some,
        retry_delay(1) == Some(500nat),
        2 <= failures <= MAX_RETRIES ==> retry_delay(failures) == Some(1500nat),
{
}

/// The text of the `Delta` events, one after the other.
pub open spec fn delta_text(es: Seq<ChatStreamEvent>) -> Seq<char>
    decreases es.len(),
{
    if es.len() == 0 {
        seq![]
    } else {
        delta_text(es.drop_last()) + match es.last() {
            ChatStreamEvent::Delta { text } => text@,
            _ => seq![],
        }
    }
}

/// The text of the `Reasoning` events, one after the other.
pub open spec fn reasoning_text(es: Seq<ChatStreamEvent>) -> Seq<char>
    decreases es.len(),
{
    if es.len() == 0 {
        seq![]
    } else {
        reasoning_text(es.drop_last()) + match es.last() {
            ChatStreamEvent::Reasoning { text } => text@,
            _ => seq![],
        }
    }
}

/// The input tokens that the `Usage` events report, added up.
pub open spec fn tokens_in_total(es: Seq<ChatStreamEvent>) -> nat
    decreases es.len(),
{
    if es.len() == 0 {
        0
    } else {
        tokens_in_total(es.drop_last()) + match es.last() {
            ChatStreamEvent::Usage { tokens_in, .. } => tokens_in as nat,
            _ => 0nat,
        }
    }
}

/// The output tokens that the `Usage` events report, added up.
pub open spec fn tokens_out_total(es: Seq<ChatStreamEvent>) -> nat
    decreases es.len(),
{
    if es.len() == 0 {
        0
    } else {
        tokens_out_total(es.drop_last()) + match es.last() {
            ChatStreamEvent::Usage { tokens_out, .. } => tokens_out as nat,
            _ => 0nat,
        }
    }
}

/// The code, message and retry mark of the last `Aborted` event, if any.
pub open spec fn last_abort(es: Seq<ChatStreamEvent>) -> Option<(Seq<char>, Seq<char>, bool)>
    decreases es.len(),
{
    if es.len() == 0 {
        None
    } else {
        match es.last() {
            ChatStreamEvent::Aborted { code, message, retryable } => Some((code@, message@, retryable)),
            _ => last_abort(es.drop_last()),
        }
    }
}

proof fn lemma_token_totals_grow(es: Seq<ChatStreamEvent>, i: int)
    requires
        0 <= i <= es.len(),
    ensures
        tokens_in_total(es.take(i)) <= tokens_in_total(es),
        tokens_out_total(es.take(i)) <= tokens_out_total(es),
    decreases es.len() - i,
{
    if i < es.len() {
        assert(es.drop_last().take(i) == es.take(i));
        lemma_token_totals_grow(es.drop_last(), i);
    } else {
        assert(es.take(i) == es);
    }
}

/// What the events of one attempt amount to: the answer, with the text and the
/// reasoning put together and the tokens added up; or, when the agent aborted the
/// stream, the error of its last `Aborted` event.
pub fn summarize_attempt(request_id: &str, provider: &str, model: &str, events: Vec<ChatStreamEvent>) -> (r:
    Result<ChatResult, ChatError>)
    requires
        tokens_in_total(events@) <= u32::MAX,
        tokens_out_total(events@) <= u32::MAX,
    ensures
        match last_abort(events@) {
            Some((c, m, rt)) => r matches Err(ChatError::Provider { code, message, retryable, http_status })
                && code@ == c && message@ == m && retryable == rt && http_status is None,
            None => r matches Ok(res) && res.request_id@ == request_id@ && res.provider@ == provider@
                && res.model@ == model@ && res.events@ == events@ && res.output_text@ == delta_text(events@)
                && res.reasoning_text@ == reasoning_text(events@) && res.attempts == 1 && res.tokens_in
                == tokens_in_total(events@) && res.tokens_out == tokens_out_total(events@),
        },
{
    let ghost es = events@;
    let mut output = String::new();
    let mut reasoning = String::new();
    let mut tin: u32 = 0;
    let mut tout: u32 = 0;
    let mut abort: Option<(String, String, bool)> = None;
    let mut i: usize = 0;
    assert(es.take(0) == Seq::<ChatStreamEvent>::empty());
    while i < events.len()
        invariant
            i <= events.len(),
            es == events@,
            tokens_in_total(es) <= u32::MAX,
            tokens_out_total(es) <= u32::MAX,
            output@ == delta_text(es.take(i as int)),
            reasoning@ == reasoning_text(es.take(i as int)),
            tin == tokens_in_total(es.take(i as int)),
            tout == tokens_out_total(es.take(i as int)),
            match abort {
                Some((c, m, rt)) => last_abort(es.take(i as int)) == Some((c@, m@, rt)),
                None => last_abort(es.take(i as int)) is None,
            },
        decreases events.len() - i,
    {
        let ghost t = es.take(i + 1);
        assert(t.drop_last() == es.take(i as int));
        assert(t.last() == es[i as int]);
        proof {
            lemma_token_totals_grow(es, i + 1);
        }
        match &events[i] {
            ChatStreamEvent::Delta { text } => {
                output.append(text.as_str());
            },
            ChatStreamEvent::Reasoning { text } => {
                reasoning.append(text.as_str());
            },
            ChatStreamEvent::Usage { tokens_in, tokens_out } => {
                tin = tin + *tokens_in;
                tout = tout + *tokens_out;
            },
            ChatStreamEvent::Aborted { code, message, retryable } => {
                abort = Some((code.clone(), message.clone(), *retryable));
            },
            ChatStreamEvent::Done => {},
        }
        i = i + 1;
    }
    assert(es.take(events.len() as int) == es);
    match abort {
        Some((code, message, retryable)) => Err(
            ChatError::Provider { code, message, retryable, http_status: None },
        ),
        None => Ok(
            ChatResult {
                request_id: owned(request_id),
                provider: owned(provider),
                model: owned(model),
                events,
                output_text: output,
                reasoning_text: reasoning,
                attempts: 1,
                tokens_in: tin,
                tokens_out: tout,
            },
        ),
    }
}

/// The message of a failed chat command: the error's message, then the request id.
pub fn chat_error_message(message: &str, request_id: &str) -> (r: String)
    ensures
        r@ == message@ + " [request_id="@ + request_id@ + "]"@,
{
    let mut r = owned(message);
    r.append(" [request_id=");
    r.append(request_id);
    r.append("]");
    r
}

/// A request is valid exactly when its request id and profile id are not
/// blank, a session id or model it gives is not blank (one it leaves out is
/// no issue), and the user layer of its prompt is not blank and holds at most
/// 16000 characters.
pub proof fn law_valid_requests(r: ChatRequestInput)
    ensures
        request_issue(r) is None <==> {
            &&& !is_blank(r.request_id@)
            &&& !is_blank(r.profile_id@)
            &&& (r.session_id matches Some(s) ==> !is_blank(s@))
            &&& (r.model matches Some(m) ==> !is_blank(m@))
            &&& !is_blank(r.prompt.user@)
            &&& r.prompt.user@.len() <= 16000
        },
        r.model is None ==> request_issue(r) != Some("model must not be empty when provided"@),
{
    reveal_strlit("model must not be empty when provided");
    reveal_strlit("prompt.user must not be empty");
    reveal_strlit("prompt.user is too long (max 16000 chars)");
    reveal_strlit("request_id must not be empty");
    reveal_strlit("profile_id must not be empty");
    reveal_strlit("session_id must not be empty when provided");
    let m = "model must not be empty when provided"@;
    assert(m[0] == 'm');
    assert("prompt.user must not be empty"@[0] == 'p');
    assert("prompt.user is too long (max 16000 chars)"@[0] == 'p');
    assert("request_id must not be empty"@[0] == 'r');
    assert("profile_id must not be empty"@[0] == 'p');
    assert("session_id must not be empty when provided"@[0] == 's');
}

/// The profile a request is sent with is the first one with its id; there is
/// none exactly when no profile has that id.
pub proof fn law_profile_lookup(ps: Seq<ProfileView>, id: Seq<char>)
    ensures
        find_profile(ps, id) is None <==> forall|k: int| 0 <= k < ps.len() ==> ps[k].id != id,
        find_profile(ps, id) matches Some(p) ==> p.id == id && exists|i: int|
            0 <= i < ps.len() && ps[i] == p && forall|k: int| 0 <= k < i ==> ps[k].id != id,
    decreases ps.len(),
{
    if ps.len() > 0 {
        let rest = ps.drop_first();
        law_profile_lookup(rest, id);
        assert forall|k: int| 0 <= k < rest.len() implies rest[k] == ps[k + 1] by {}
        if ps[0].id != id {
            if find_profile(rest, id) is None {
                assert forall|k: int| 0 <= k < ps.len() implies ps[k].id != id by {
                    if k > 0 {
                        assert(rest[k - 1] == ps[k]);
                    }
                }
            } else {
                let p = find_profile(rest, id)->0;
                let i = choose|i: int| 0 <= i < rest.len() && rest[i] == p && forall|k: int| 0 <= k < i ==> rest[k].id != id;
                assert(ps[i + 1] == p);
                assert forall|k: int| 0 <= k < i + 1 implies ps[k].id != id by {
                    if k > 0 {
                        assert(rest[k - 1] == ps[k]);
                    }
                }
            }
        }
    }
}

/// What a stream amounts to splits along the stream: the text, the reasoning
/// and the tokens of two parts add up, and an abort in the later part is the
/// one reported.
pub proof fn law_stream_totals_add_up(a: Seq<ChatStreamEvent>, b: Seq<ChatStreamEvent>)
    ensures
        delta_text(a + b) == delta_text(a) + delta_text(b),
        reasoning_text(a + b) == reasoning_text(a) + reasoning_text(b),
        tokens_in_total(a + b) == tokens_in_total(a) + tokens_in_total(b),
        tokens_out_total(a + b) == tokens_out_total(a) + tokens_out_total(b),
        last_abort(a + b) == match last_abort(b) {
            Some(x) => Some(x),
            None => last_abort(a),
        },
    decreases b.len(),
{
    if b.len() == 0 {
        assert(a + b == a);
    } else {
        law_stream_totals_add_up(a, b.drop_last());
        assert((a + b).drop_last() == a + b.drop_last());
        assert((a + b).last() == b.last());
    }
}

/// One event alone: a `Delta` gives its text, a `Usage` its tokens, an
/// `Aborted` its error; nothing else gives any.
pub proof fn law_single_event(e: ChatStreamEvent)
    ensures
        delta_text(seq![e]) == match e {
            ChatStreamEvent::Delta { text } => text@,
            _ => Seq::<char>::empty(),
        },
        reasoning_text(seq![e]) == match e {
            ChatStreamEvent::Reasoning { text } => text@,
            _ => Seq::<char>::empty(),
        },
        tokens_in_total(seq![e]) == match e {
            ChatStreamEvent::Usage { tokens_in, .. } => tokens_in as nat,
            _ => 0nat,
        },
        tokens_out_total(seq![e]) == match e {
            ChatStreamEvent::Usage { tokens_out, .. } => tokens_out as nat,
            _ => 0nat,
        },
        last_abort(seq![e]) == match e {
            ChatStreamEvent::Aborted { code, message, retryable } => Some((code@, message@, retryable)),
            _ => None::<(Seq<char>, Seq<char>, bool)>,
        },
{
    let s = seq![e];
    assert(s.drop_last() == Seq::<ChatStreamEvent>::empty());
    assert(s.last() == e);
    assert(delta_text(s.drop_last()) == Seq::<char>::empty());
    assert(reasoning_text(s.drop_last()) == Seq::<char>::empty());
    assert(tokens_in_total(s.drop_last()) == 0);
    assert(tokens_out_total(s.drop_last()) == 0);
    assert(last_abort(s.drop_last()) == None::<(Seq<char>, Seq<char>, bool)>);
    match e {
        ChatStreamEvent::Delta { text } => {
            assert(Seq::<char>::empty() + text@ =~= text@);
            assert(Seq::<char>::empty() + Seq::<char>::empty() =~= Seq::<char>::empty());
        },
        ChatStreamEvent::Reasoning { text } => {
            assert(Seq::<char>::empty() + text@ =~= text@);
            assert(Seq::<char>::empty() + Seq::<char>::empty() =~= Seq::<char>::empty());
        },
        _ => {
            assert(Seq::<char>::empty() + Seq::<char>::empty() =~= Seq::<char>::empty());
        },
    }
}

} // verus!
