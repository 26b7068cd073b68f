//! The boundaries the assistant may not cross: files outside its runtime root,
//! blocked capabilities, and hosts that no enabled provider profile names.
use vstd::prelude::*;
use vstd::string::*;
use crate::config::{ApiProfilesConfig, ProfileView};
use crate::paths::{
    components, is_absolute, join_path, normalize, normalized_path, parts_view, path_components,
    path_join, path_starts_with, render, Part, PathPart,
};
use crate::text::{blank, chars_of, is_blank, same_text};
use crate::web::{parse_url, url_parse};

use crate::extraction::contains_text;
use crate::memory::texts_view;

verus! {

/// Why a request crosses a boundary.
#[derive(Debug)]
pub enum GuardrailError {
    InvalidRequest(String),
    PathDenied(String),
    CapabilityDenied(String),
    DomainDenied(String),
}

/// The value of a [`GuardrailError`].
pub ghost enum GuardFault {
    InvalidRequest(Seq<char>),
    PathDenied(Seq<char>),
    CapabilityDenied(Seq<char>),
    DomainDenied(Seq<char>),
}

impl View for GuardrailError {
    type V = GuardFault;

    open spec fn view(&self) -> GuardFault {
        match self {
            GuardrailError::InvalidRequest(m) => GuardFault::InvalidRequest(m@),
            GuardrailError::PathDenied(m) => GuardFault::PathDenied(m@),
            GuardrailError::CapabilityDenied(m) => GuardFault::CapabilityDenied(m@),
            GuardrailError::DomainDenied(m) => GuardFault::DomainDenied(m@),
        }
    }
}

pub open spec fn guard_fault_code(e: GuardFault) -> Seq<char> {
    match e {
        GuardFault::InvalidRequest(_) => "INVALID_REQUEST"@,
        GuardFault::PathDenied(_) => "BOUNDARY_PATH_DENIED"@,
        GuardFault::CapabilityDenied(_) => "BOUNDARY_CAPABILITY_DENIED"@,
        GuardFault::DomainDenied(_) => "BOUNDARY_DOMAIN_DENIED"@,
    }
}

pub open spec fn guard_fault_text(e: GuardFault) -> Seq<char> {
    guard_fault_code(e) + ": "@ + match e {
        GuardFault::InvalidRequest(m) => m,
        GuardFault::PathDenied(m) => m,
        GuardFault::CapabilityDenied(m) => m,
        GuardFault::DomainDenied(m) => m,
    }
}

impl GuardrailError {
    /// The text of the error, as it is shown to the user.
    pub fn message(&self) -> (r: String)
        ensures
            r@ == guard_fault_text(self@),
    {
        let (code, detail) = match self {
            GuardrailError::InvalidRequest(m) => ("INVALID_REQUEST", m),
            GuardrailError::PathDenied(m) => ("BOUNDARY_PATH_DENIED", m),
            GuardrailError::CapabilityDenied(m) => ("BOUNDARY_CAPABILITY_DENIED", m),
            GuardrailError::DomainDenied(m) => ("BOUNDARY_DOMAIN_DENIED", m),
        };
        let mut r = String::from_str(code);
        r.append(": ");
        r.append(detail.as_str());
        r
    }
}

/// The checks, bound to one runtime root.
pub struct Guardrails {
    runtime_root: String,
    runtime_root_canonical: String,
}

/// The roots a [`Guardrails`] works with: the runtime root as given, and as resolved on disk.
pub ghost struct GuardView {
    pub root: Seq<char>,
    pub canonical_root: Seq<char>,
}

impl View for Guardrails {
    type V = GuardView;

    closed spec fn view(&self) -> GuardView {
        GuardView { root: self.runtime_root@, canonical_root: self.runtime_root_canonical@ }
    }
}

pub open spec fn guard_result_view(r: Result<String, GuardrailError>) -> Result<Seq<char>, GuardFault> {
    match r {
        Ok(s) => Ok(s@),
        Err(e) => Err(e@),
    }
}

/// The path a request names once made absolute against the root and normalized
/// lexically, before the file system is asked about it.
pub open spec fn lexical_target_of(root: Seq<char>, input: Seq<char>) -> Result<Seq<char>, GuardFault> {
    if is_blank(input) {
        Err(GuardFault::InvalidRequest("path must not be empty"@))
    } else {
        let target = if is_absolute(input) {
            input
        } else {
            path_join(root, input)
        };
        match normalize(components(target)) {
            None => Err(GuardFault::PathDenied("path traversal is not allowed"@)),
            Some((rooted, names)) => Ok(render(rooted, names)),
        }
    }
}

/// The verdict on a request for the file `input`, given what the file system
/// resolved its lexical target to: the resolved path when it lies under the
/// resolved root.
pub open spec fn file_path_verdict(g: GuardView, input: Seq<char>, resolved: Result<Seq<char>, GuardFault>) -> Result<Seq<char>, GuardFault> {
    match lexical_target_of(g.root, input) {
        Err(e) => Err(e),
        Ok(_) => match resolved {
            Err(e) => Err(e),
            Ok(p) => if path_starts_with(p, g.canonical_root) {
                Ok(p)
            } else {
                Err(GuardFault::PathDenied("path is outside allowed root: "@ + p))
            },
        },
    }
}

pub open spec fn blocked_capability(c: Seq<char>) -> bool {
    c == "shell_exec"@ || c == "skill_execute"@ || c == "mcp_execute"@
}

/// The host a profile lets requests go to: that of its base URL, when the profile
/// is enabled and the URL parses with a host.
pub open spec fn profile_host(p: ProfileView) -> Option<Seq<char>> {
    if p.enabled {
        match url_parse(p.base_url) {
            Ok((_, h)) => h,
            Err(_) => None,
        }
    } else {
        None
    }
}

/// Whether some enabled profile has a base URL whose host is `host`.
pub open spec fn host_allowed(ps: Seq<ProfileView>, host: Seq<char>) -> bool {
    exists|i: int| 0 <= i < ps.len() && profile_host(#[trigger] ps[i]) == Some(host)
}

pub open spec fn network_verdict(ps: Seq<ProfileView>, target: Seq<char>) -> Result<Seq<char>, GuardFault> {
    match url_parse(target) {
        Err(e) => Err(GuardFault::InvalidRequest("invalid url: "@ + e)),
        Ok((_, None)) => Err(GuardFault::InvalidRequest("url host is missing"@)),
        Ok((_, Some(h))) => if host_allowed(ps, h) {
            Ok(h)
        } else {
            Err(GuardFault::DomainDenied(h + " is not in provider whitelist"@))
        },
    }
}

fn same_part(a: &PathPart, b: &PathPart) -> (r: bool)
    ensures
        r == (a@ == b@),
{
    match (a, b) {
        (PathPart::Root, PathPart::Root) => true,
        (PathPart::Here, PathPart::Here) => true,
        (PathPart::Up, PathPart::Up) => true,
        (PathPart::Name(x), PathPart::Name(y)) => same_text(x.as_str(), y.as_str()),
        _ => false,
    }
}

/// Whether the components of `base` lead the components of `p` (`Path::starts_with`).
pub fn path_has_prefix(p: &str, base: &str) -> (r: bool)
    ensures
        r == path_starts_with(p@, base@),
{
    let a = path_components(p);
    let b = path_components(base);
    let ghost av = parts_view(a@);
    let ghost bv = parts_view(b@);
    if b.len() > a.len() {
        return false;
    }
    let mut i: usize = 0;
    while i < b.len()
        invariant
            b.len() <= a.len(),
            av == parts_view(a@),
            bv == parts_view(b@),
            av == components(p@),
            bv == components(base@),
            i <= b.len(),
            forall|k: int| 0 <= k < i ==> av[k] == bv[k],
        decreases b.len() - i,
    {
        if !same_part(&a[i], &b[i]) {
            assert(av.take(bv.len() as int)[i as int] != bv[i as int]);
            return false;
        }
        i = i + 1;
    }
    assert(av.take(bv.len() as int) =~= bv);
    true
}

fn text2(a: &str, b: &str) -> (r: String)
    ensures
        r@ == a@ + b@,
{
    let mut r = String::from_str(a);
    r.append(b);
    r
}

/// The distinct hosts named by the base URLs of the enabled profiles.
pub fn provider_domains(cfg: &ApiProfilesConfig) -> (r: Vec<String>)
    ensures
        forall|h: Seq<char>| (exists|k: int| 0 <= k < r@.len() && (#[trigger] r@[k])@ == h) <==> host_allowed(cfg@.profiles, h),
        forall|a: int, b: int| 0 <= a < b < r@.len() ==> r@[a]@ != r@[b]@,
{
    let ghost ps = cfg@.profiles;
    let mut out: Vec<String> = Vec::new();
    let mut i: usize = 0;
    while i < cfg.profiles.len()
        invariant
            i <= cfg.profiles.len(),
            ps == cfg@.profiles,
            forall|h: Seq<char>| (exists|k: int| 0 <= k < out@.len() && (#[trigger] out@[k])@ == h) <==> host_allowed(ps.take(i as int), h),
            forall|a: int, b: int| 0 <= a < b < out@.len() ==> out@[a]@ != out@[b]@,
        decreases cfg.profiles.len() - i,
    {
        let ghost before = out@;
        let p = &cfg.profiles[i];
        assert(ps[i as int] == p@);
        if p.enabled {
            match parse_url(p.base_url.as_str()) {
                Ok(parts) => {
                    match parts.host {
                        Some(host) => {
                            if !contains_text(&out, host.as_str()) {
                                let ghost hv = host@;
                                proof {
                                    assert forall|k: int| 0 <= k < before.len() implies before[k]@ != hv by {
                                        if before[k]@ == hv {
                                            assert(texts_view(before)[k] == hv);
                                        }
                                    }
                                }
                                out.push(host);
                                assert(out@[before.len() as int]@ == hv);
                            } else {
                                proof {
                                    let k = choose|k: int| 0 <= k < before.len() && texts_view(before)[k] == host@;
                                    assert(before[k]@ == host@);
                                }
                            }
                        },
                        None => {},
                    }
                },
                Err(_) => {},
            }
        }
        proof {
            let pre = ps.take(i as int);
            let post = ps.take(i + 1);
            assert forall|h: Seq<char>| (exists|k: int| 0 <= k < out@.len() && (#[trigger] out@[k])@ == h) <==> host_allowed(post, h) by {
                if exists|k: int| 0 <= k < out@.len() && (#[trigger] out@[k])@ == h {
                    let k = choose|k: int| 0 <= k < out@.len() && (#[trigger] out@[k])@ == h;
                    if k < before.len() {
                        assert(before[k]@ == h);
                        assert(host_allowed(pre, h));
                        let j = choose|j: int| 0 <= j < pre.len() && profile_host(#[trigger] pre[j]) == Some(h);
                        assert(post[j] == pre[j]);
                    } else {
                        assert(post[i as int] == ps[i as int]);
                    }
                }
                if host_allowed(post, h) {
                    let j = choose|j: int| 0 <= j < post.len() && profile_host(#[trigger] post[j]) == Some(h);
                    if j < i {
                        assert(pre[j] == post[j]);
                        assert(host_allowed(pre, h));
                        let k = choose|k: int| 0 <= k < before.len() && (#[trigger] before[k])@ == h;
                        assert(out@[k] == before[k]);
                    } else if out@.len() > before.len() {
                        assert(out@[before.len() as int]@ == h);
                    } else {
                        let k = choose|k: int| 0 <= k < before.len() && texts_view(before)[k] == h;
                        assert(out@[k]@ == h);
                    }
                }
            }
        }
        i = i + 1;
    }
    assert(ps.take(cfg.profiles.len() as int) == ps);
    out
}

impl Guardrails {
    /// Guardrails for `runtime_root`; `resolved_root` is the root as the file
    /// system resolves it, when it could.
    pub fn new(runtime_root: String, resolved_root: Option<String>) -> (r: Guardrails)
        ensures
            r@ == (GuardView {
                root: runtime_root@,
                canonical_root: match resolved_root {
                    Some(c) => c@,
                    None => runtime_root@,
                },
            }),
    {
        let canonical = match resolved_root {
            Some(c) => c,
            None => runtime_root.clone(),
        };
        Guardrails { runtime_root, runtime_root_canonical: canonical }
    }

    /// The runtime root the checks are bound to.
    pub fn runtime_root(&self) -> (r: &str)
        ensures
            r@ == self@.root,
    {
        self.runtime_root.as_str()
    }

    /// The path a request for `input` names, made absolute against the runtime root
    /// and normalized lexically; the file system resolves this one.
    pub fn lexical_target(&self, input: &str) -> (r: Result<String, GuardrailError>)
        ensures
            guard_result_view(r) == lexical_target_of(self@.root, input@),
    {
        if blank(input) {
            return Err(GuardrailError::InvalidRequest(String::from_str("path must not be empty")));
        }
        let iv = chars_of(input);
        let target = if iv.len() > 0 && iv[0] == '/' {
            String::from_str(input)
        } else {
            join_path(self.runtime_root.as_str(), input)
        };
        match normalized_path(target.as_str()) {
            None => Err(GuardrailError::PathDenied(String::from_str("path traversal is not allowed"))),
            Some(t) => Ok(t),
        }
    }

    /// Lets a request for the file `input` through when it stays under the runtime
    /// root. `resolved` is what the file system made of `self.lexical_target(input)`
    /// (symbolic links followed); the resolved path is what is handed back.
    pub fn validate_file_path(&self, input: &str, resolved: Result<String, GuardrailError>) -> (r: Result<String, GuardrailError>)
        ensures
            guard_result_view(r) == file_path_verdict(self@, input@, guard_result_view(resolved)),
            r matches Ok(p) ==> path_starts_with(p@, self@.canonical_root),
    {
        match self.lexical_target(input) {
            Err(e) => return Err(e),
            Ok(_) => {},
        }
        match resolved {
            Err(e) => Err(e),
            Ok(p) => {
                if path_has_prefix(p.as_str(), self.runtime_root_canonical.as_str()) {
                    Ok(p)
                } else {
                    let m = text2("path is outside allowed root: ", p.as_str());
                    Err(GuardrailError::PathDenied(m))
                }
            },
        }
    }

    /// Refuses the capabilities that are blocked: shell execution, skill execution
    /// and MCP execution.
    pub fn validate_capability(&self, capability: &str) -> (r: Result<(), GuardrailError>)
        ensures
            blocked_capability(capability@) <==> r is Err,
            r matches Err(e) ==> e@ == GuardFault::CapabilityDenied(capability@ + " is blocked in MVP"@),
    {
        if same_text(capability, "shell_exec") || same_text(capability, "skill_execute") || same_text(
            capability,
            "mcp_execute",
        ) {
            Err(GuardrailError::CapabilityDenied(text2(capability, " is blocked in MVP")))
        } else {
            Ok(())
        }
    }

    /// Lets a request to `target_url` through when its host is the host of an
    /// enabled provider profile; hands back that host.
    pub fn validate_network_url(&self, target_url: &str, cfg: &ApiProfilesConfig) -> (r: Result<String, GuardrailError>)
        ensures
            guard_result_view(r) == network_verdict(cfg@.profiles, target_url@),
    {
        match parse_url(target_url) {
            Err(e) => Err(GuardrailError::InvalidRequest(text2("invalid url: ", e.as_str()))),
            Ok(parts) => match parts.host {
                None => Err(GuardrailError::InvalidRequest(String::from_str("url host is missing"))),
                Some(host) => {
                    let domains = provider_domains(cfg);
                    let mut i: usize = 0;
                    while i < domains.len()
                        invariant
                            i <= domains.len(),
                            forall|k: int| 0 <= k < i ==> (#[trigger] domains@[k])@ != host@,
                            url_parse(target_url@) matches Ok((_, Some(x))) && x == host@,
                            forall|h: Seq<char>| (exists|k: int| 0 <= k < domains@.len() && (#[trigger] domains@[k])@ == h) <==> host_allowed(cfg@.profiles, h),
                        decreases domains.len() - i,
                    {
                        if same_text(domains[i].as_str(), host.as_str()) {
                            return Ok(host);
                        }
                        i = i + 1;
                    }
                    Err(GuardrailError::DomainDenied(text2(host.as_str(), " is not in provider whitelist")))
                },
            },
        }
    }
}

} // verus!
