//! The review of memory candidates: what approving, rejecting or merging one
//! makes of it, and the records that come out.
use vstd::prelude::*;
use vstd::string::*;
use crate::memory::{build_markdown, markdown_of, CandidateSnapshot, MemoryError};
use crate::store::NewRequestLog;
use crate::utils::{log_id, next_log_id};
use crate::web::opt_view;
use crate::text::{decimal, decimal_string, lowercase, owned, same_text, to_lowercase};

verus! {

/// What is decided about a memory candidate.
#[derive(Clone, Copy, Debug, PartialEq, Eq, Structural)]
pub enum ReviewAction {
    Approve,
    Reject,
    Merge,
}

/// The action a lower-cased action name stands for.
pub open spec fn review_action_of(lower: Seq<char>) -> Option<ReviewAction> {
    if lower == "approve"@ {
        Some(ReviewAction::Approve)
    } else if lower == "reject"@ {
        Some(ReviewAction::Reject)
    } else if lower == "merge"@ {
        Some(ReviewAction::Merge)
    } else {
        None
    }
}

/// Reads a review action, in any case; any other name is an invalid request.
pub fn parse_review_action(action: &str) -> (r: Result<ReviewAction, MemoryError>)
    ensures
        match review_action_of(lowercase(action@)) {
            Some(a) => r == Ok::<ReviewAction, MemoryError>(a),
            None => r matches Err(MemoryError::InvalidRequest(m)) && m@
                == "action must be approve/reject/merge"@,
        },
{
    let lower = to_lowercase(action);
    if same_text(lower.as_str(), "approve") {
        Ok(ReviewAction::Approve)
    } else if same_text(lower.as_str(), "reject") {
        Ok(ReviewAction::Reject)
    } else if same_text(lower.as_str(), "merge") {
        Ok(ReviewAction::Merge)
    } else {
        Err(MemoryError::InvalidRequest(owned("action must be approve/reject/merge")))
    }
}

/// The two records agree on every field but the status and the update time.
pub open spec fn same_but_status(a: CandidateSnapshot, b: CandidateSnapshot) -> bool {
    &&& a.id@ == b.id@
    &&& a.session_id@ == b.session_id@
    &&& a.source_message_id@ == b.source_message_id@
    &&& a.candidate_type@ == b.candidate_type@
    &&& a.summary@ == b.summary@
    &&& a.evidence == b.evidence
    &&& a.tags@ == b.tags@
    &&& a.created_at@ == b.created_at@
    &&& a.confidence_text@ == b.confidence_text@
}

fn with_status(c: CandidateSnapshot, status: &str, now: &str) -> (r: CandidateSnapshot)
    ensures
        same_but_status(r, c),
        r.status@ == status@,
        r.updated_at@ == now@,
{
    CandidateSnapshot { status: owned(status), updated_at: owned(now), ..c }
}

/// A rejected candidate: status `rejected`, updated now. Its document has no Markdown.
pub fn reject_candidate(c: CandidateSnapshot, now: &str) -> (r: CandidateSnapshot)
    ensures
        same_but_status(r, c),
        r.status@ == "rejected"@,
        r.updated_at@ == now@,
{
    with_status(c, "rejected", now)
}

/// An approved candidate: the Markdown written for it at `version`, made from
/// the candidate as it stood before the review, and the record with status
/// `approved`, updated now.
pub fn approve_candidate(c: CandidateSnapshot, version: usize, now: &str) -> (r: (String, CandidateSnapshot))
    ensures
        r.0@ == markdown_of(c, version as nat),
        same_but_status(r.1, c),
        r.1.status@ == "approved"@,
        r.1.updated_at@ == now@,
{
    let markdown = build_markdown(&c, version);
    (markdown, with_status(c, "approved", now))
}

/// The memory a candidate is merged into: the one named, or the candidate's own
/// memory when none is named.
pub fn merge_target(candidate_id: &str, merge_target_id: Option<String>) -> (r: String)
    ensures
        r@ == match merge_target_id {
            Some(t) => t@,
            None => candidate_id@,
        },
{
    match merge_target_id {
        Some(t) => t,
        None => owned(candidate_id),
    }
}

/// A candidate merged into a target memory: the Markdown of the candidate at
/// `version`, written for the target, and the target record, which takes the
/// candidate's summary, evidence and tags, with status `conflicted`, updated now.
pub fn merge_candidate(source: &CandidateSnapshot, target: CandidateSnapshot, version: usize, now: &str) -> (r: (
    String,
    CandidateSnapshot,
))
    ensures
        r.0@ == markdown_of(*source, version as nat),
        r.1.id@ == target.id@,
        r.1.session_id@ == target.session_id@,
        r.1.source_message_id@ == target.source_message_id@,
        r.1.candidate_type@ == target.candidate_type@,
        r.1.created_at@ == target.created_at@,
        r.1.confidence_text@ == target.confidence_text@,
        r.1.summary@ == source.summary@,
        r.1.evidence == source.evidence,
        r.1.tags@ == source.tags@,
        r.1.status@ == "conflicted"@,
        r.1.updated_at@ == now@,
{
    let markdown = build_markdown(source, version);
    let summary = source.summary.clone();
    let evidence = source.evidence.clone();
    let tags = source.tags.clone();
    (
        markdown,
        CandidateSnapshot {
            summary,
            evidence,
            tags,
            status: owned("conflicted"),
            updated_at: owned(now),
            ..target
        },
    )
}

/// The id a new candidate gets: `mc_<nanos>_<index>`.
pub fn candidate_id(nanos: u128, index: usize) -> (r: String)
    ensures
        r@ == "mc_"@ + decimal(nanos as nat) + "_"@ + decimal(index as nat),
{
    let mut r = owned("mc_");
    let a = decimal_string(nanos);
    r.append(a.as_str());
    r.append("_");
    let b = decimal_string(index as u128);
    r.append(b.as_str());
    r
}

/// The log row of a review: request `memory_review_<candidate_id>`; for a
/// review that went through, status `ok`, id `log_memory_review_ok_<nanos>` and the
/// memory's session (none when it is empty); for one that failed with `error_code`,
/// status `failed`, id `log_memory_review_err_<nanos>` and no session.
pub fn create_review_log(
    candidate_id: &str,
    session_id: &str,
    error_code: Option<String>,
    nanos: u128,
    created_at: String,
) -> (r: NewRequestLog)
    ensures
        r.request_id@ == "memory_review_"@ + candidate_id@,
        r.provider is None,
        r.model is None,
        r.latency_ms is None,
        r.tokens_in is None,
        r.tokens_out is None,
        r.created_at == created_at,
        r.error_code == error_code,
        error_code is None ==> r.id@ == log_id("memory_review"@, "ok"@, nanos as nat) && r.status@ == "ok"@
            && opt_view(r.session_id) == (if session_id@.len() == 0 {
            None::<Seq<char>>
        } else {
            Some(session_id@)
        }),
        error_code is Some ==> r.id@ == log_id("memory_review"@, "err"@, nanos as nat) && r.status@
            == "failed"@ && r.session_id is None,
{
    let mut request_id = owned("memory_review_");
    request_id.append(candidate_id);
    let ok = error_code.is_none();
    let id = if ok {
        next_log_id("memory_review", "ok", nanos)
    } else {
        next_log_id("memory_review", "err", nanos)
    };
    let session = if !ok || session_id.is_empty() {
        None
    } else {
        Some(owned(session_id))
    };
    NewRequestLog {
        id,
        request_id,
        session_id: session,
        provider: None,
        model: None,
        status: if ok {
            owned("ok")
        } else {
            owned("failed")
        },
        latency_ms: None,
        tokens_in: None,
        tokens_out: None,
        error_code,
        created_at,
    }
}

} // verus!
