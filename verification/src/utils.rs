//! Small helpers shared by the command layer: log identifiers and the error code
//! at the head of an error's text.
use vstd::prelude::*;
use vstd::string::*;
use crate::config::{config_fault_code, config_fault_text, ConfigError, ConfigFault};
use crate::text::{chars_of, decimal, decimal_string, is_ws, string_of_range, trim, trim_bounds, trim_end, trim_start};

verus! {

/// The part of `s` before its first `:` (all of `s` when there is none).
pub open spec fn before_colon(s: Seq<char>) -> Seq<char>
    decreases s.len(),
{
    if s.len() == 0 {
        s
    } else if s[0] == ':' {
        Seq::<char>::empty()
    } else {
        seq![s[0]] + before_colon(s.drop_first())
    }
}

/// The code at the head of an error's text: the part before the first `:`,
/// trimmed; `fallback` when that is empty.
pub open spec fn error_code_of(text: Seq<char>, fallback: Seq<char>) -> Seq<char> {
    let code = trim(before_colon(text));
    if code.len() == 0 {
        fallback
    } else {
        code
    }
}

proof fn lemma_before_colon_at(s: Seq<char>, i: int)
    requires
        0 <= i <= s.len(),
        forall|k: int| 0 <= k < i ==> s[k] != ':',
        i == s.len() || s[i] == ':',
    ensures
        before_colon(s) == s.take(i),
    decreases i,
{
    if i > 0 {
        lemma_before_colon_at(s.drop_first(), i - 1);
        assert(seq![s[0]] + s.drop_first().take(i - 1) == s.take(i));
    } else {
        if s.len() == 0 {
            assert(s.take(0) == s);
        } else {
            assert(s.take(0) == Seq::<char>::empty());
        }
    }
}

/// The code at the head of an error's text, or `fallback`.
pub fn error_code_from_text(text: &str, fallback: &str) -> (r: String)
    ensures
        r@ == error_code_of(text@, fallback@),
{
    let v = chars_of(text);
    let mut i: usize = 0;
    while i < v.len() && v[i] != ':'
        invariant
            i <= v.len(),
            forall|k: int| 0 <= k < i ==> v@[k] != ':',
        decreases v.len() - i,
    {
        i = i + 1;
    }
    proof {
        lemma_before_colon_at(v@, i as int);
        assert(v@.subrange(0, i as int) == v@.take(i as int));
    }
    let (a, b) = trim_bounds(&v, 0, i);
    if a == b {
        String::from_str(fallback)
    } else {
        string_of_range(&v, a, b)
    }
}

/// `log_<request_id>_<suffix>_<nanos>`.
pub open spec fn log_id(request_id: Seq<char>, suffix: Seq<char>, nanos: nat) -> Seq<char> {
    "log_"@ + request_id + "_"@ + suffix + "_"@ + decimal(nanos)
}

/// An identifier for a request log row; `nanos` is the time of day in nanoseconds
/// since the Unix epoch, which keeps identifiers of one request apart.
pub fn next_log_id(request_id: &str, suffix: &str, nanos: u128) -> (r: String)
    ensures
        r@ == log_id(request_id@, suffix@, nanos as nat),
{
    let mut r = String::from_str("log_");
    r.append(request_id);
    r.append("_");
    r.append(suffix);
    r.append("_");
    let n = decimal_string(nanos);
    r.append(n.as_str());
    r
}

/// The code and the text of a configuration error.
pub fn config_error_parts(err: ConfigError) -> (r: (String, String))
    ensures
        r.1@ == config_fault_text(err@),
        r.0@ == error_code_of(config_fault_text(err@), "INTERNAL_ERROR"@),
{
    let message = err.message();
    let code = error_code_from_text(message.as_str(), "INTERNAL_ERROR");
    (code, message)
}

proof fn lemma_code_heads_text(code: Seq<char>, detail: Seq<char>)
    requires
        code.len() > 0,
        forall|k: int| 0 <= k < code.len() ==> code[k] != ':' && !is_ws(#[trigger] code[k]),
    ensures
        error_code_of(code + ": "@ + detail, "INTERNAL_ERROR"@) == code,
{
    reveal_strlit(": ");
    let s = code + ": "@ + detail;
    assert(s[code.len() as int] == ':');
    assert forall|k: int| 0 <= k < code.len() implies s[k] != ':' by {
        assert(s[k] == code[k]);
    }
    lemma_before_colon_at(s, code.len() as int);
    assert(s.take(code.len() as int) == code);
    assert(trim_start(code) == code);
    assert(trim_end(code) == code);
}

/// The code read back from the text of a configuration error is the code of the error.
pub proof fn law_config_error_code_round_trip(err: ConfigFault)
    ensures
        error_code_of(config_fault_text(err), "INTERNAL_ERROR"@) == config_fault_code(err),
{
    reveal_strlit("CONFIG_NOT_FOUND");
    reveal_strlit("CONFIG_INVALID_JSON");
    reveal_strlit("CONFIG_SCHEMA_INVALID");
    reveal_strlit("CONFIG_RELOAD_REJECTED");
    reveal_strlit("IO_ERROR");
    let code = config_fault_code(err);
    let detail = match err {
        ConfigFault::NotFound(m) => m,
        ConfigFault::InvalidJson(m) => m,
        ConfigFault::SchemaInvalid(m) => m,
        ConfigFault::ReloadRejected(m) => m,
        ConfigFault::Io(m) => m,
    };
    assert(forall|k: int| 0 <= k < code.len() ==> code[k] != ':' && !is_ws(#[trigger] code[k]));
    lemma_code_heads_text(code, detail);
}

} // verus!
