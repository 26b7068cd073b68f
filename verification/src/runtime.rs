//! The runtime directory of the application and the envelope of command replies.
use vstd::prelude::*;
use vstd::string::*;
use crate::paths::{join_path, path_join};
use crate::text::owned;

verus! {

/// Why the runtime could not be set up.
#[derive(Debug)]
pub enum RuntimeError {
    HomeDirMissing,
    Io(String),
    AgentScriptMissing(String),
}

/// The text of a runtime error.
pub open spec fn runtime_error_text(e: RuntimeError) -> Seq<char> {
    match e {
        RuntimeError::HomeDirMissing => "home directory not found"@,
        RuntimeError::Io(m) => "io error: "@ + m@,
        RuntimeError::AgentScriptMissing(m) => "agent script is missing: "@ + m@,
    }
}

impl RuntimeError {
    pub fn message(&self) -> (r: String)
        ensures
            r@ == runtime_error_text(*self),
    {
        match self {
            RuntimeError::HomeDirMissing => owned("home directory not found"),
            RuntimeError::Io(m) => {
                let mut r = owned("io error: ");
                r.append(m.as_str());
                r
            },
            RuntimeError::AgentScriptMissing(m) => {
                let mut r = owned("agent script is missing: ");
                r.append(m.as_str());
                r
            },
        }
    }
}

/// The error part of a command reply.
#[derive(Clone, Debug)]
pub struct ApiError {
    pub code: String,
    pub message: String,
}

/// What every command reply carries besides its data.
#[derive(Clone, Copy, Debug)]
pub struct ApiMeta {
    pub timestamp_ms: u128,
}

impl ApiError {
    pub fn new(code: &str, message: String) -> (r: ApiError)
        ensures
            r.code@ == code@,
            r.message == message,
    {
        ApiError { code: owned(code), message }
    }
}

/// The name of the runtime directory, under the home directory.
pub open spec fn runtime_dir_name() -> Seq<char> {
    ".dragon-li"@
}

/// `<home>/.dragon-li`
pub fn runtime_root_in(home: &str) -> (r: String)
    ensures
        r@ == path_join(home@, runtime_dir_name()),
{
    join_path(home, ".dragon-li")
}

/// The subdirectories the runtime directory is made with, in order.
pub open spec fn subdir_names() -> Seq<Seq<char>> {
    seq!["data"@, "memory"@, "config"@, "logs"@, "backups"@, "run"@]
}

/// The names of the runtime subdirectories.
pub fn runtime_subdir_names() -> (r: Vec<&'static str>)
    ensures
        r@.map_values(|s: &'static str| s@) == subdir_names(),
{
    let r = vec!["data", "memory", "config", "logs", "backups", "run"];
    assert(r@.map_values(|s: &'static str| s@) == subdir_names());
    r
}

/// The paths of the runtime subdirectories under `root`.
pub fn runtime_subdirs(root: &str) -> (r: Vec<String>)
    ensures
        r@.map_values(|s: String| s@) == subdir_names().map_values(|n: Seq<char>| path_join(root@, n)),
{
    let names = runtime_subdir_names();
    let ghost nv = names@.map_values(|s: &'static str| s@);
    let mut out: Vec<String> = Vec::new();
    let mut i: usize = 0;
    while i < names.len()
        invariant
            i <= names.len(),
            nv == names@.map_values(|s: &'static str| s@),
            nv == subdir_names(),
            out@.map_values(|s: String| s@) == nv.take(i as int).map_values(|n: Seq<char>| path_join(root@, n)),
        decreases names.len() - i,
    {
        let ghost before = out@;
        let p = join_path(root, names[i]);
        out.push(p);
        assert(out@.map_values(|s: String| s@) == before.map_values(|s: String| s@).push(
            path_join(root@, nv[i as int]),
        ));
        assert(nv.take(i + 1) == nv.take(i as int).push(nv[i as int]));
        assert(nv.take(i + 1).map_values(|n: Seq<char>| path_join(root@, n)) == nv.take(i as int).map_values(
            |n: Seq<char>| path_join(root@, n),
        ).push(path_join(root@, nv[i as int])));
        i = i + 1;
    }
    assert(nv.take(names.len() as int) == nv);
    out
}

} // verus!
