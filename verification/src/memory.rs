//! Long-term memory documents: where they are kept, the Markdown they are
//! written as, their versions, and the review of memory candidates.
use vstd::prelude::*;
use vstd::string::*;
use crate::paths::{join_path, path_join};
use crate::text::{
    chars_of, decimal, decimal_string, ends_with, first_newline, is_blank, is_digit, is_ws,
    lemma_decimal_digits, lemma_first_newline, lemma_first_newline_at, lemma_lines_of_cons,
    lemma_parse_decimal, lines_of, matches_at, contains_at, parse_unsigned, parse_unsigned_range, starts_with,
    strip_cr, trim, trim_bounds, trim_end, trim_start,
};

verus! {

/// Why a memory operation failed.
#[derive(Debug)]
pub enum MemoryError {
    CandidateNotFound(String),
    InvalidRequest(String),
    DbWriteFailed(String),
    DbReadFailed(String),
    FileWriteFailed(String),
    FileReadFailed(String),
    SessionNotFound(String),
    MessageNotFound(String),
}

/// The code and the detail of a memory error.
pub open spec fn memory_error_parts(e: MemoryError) -> (Seq<char>, Seq<char>) {
    match e {
        MemoryError::CandidateNotFound(m) => ("MEMORY_CANDIDATE_NOT_FOUND"@, m@),
        MemoryError::InvalidRequest(m) => ("INVALID_REQUEST"@, m@),
        MemoryError::DbWriteFailed(m) => ("DB_WRITE_FAILED"@, m@),
        MemoryError::DbReadFailed(m) => ("DB_READ_FAILED"@, m@),
        MemoryError::FileWriteFailed(m) => ("MEMORY_FILE_WRITE_FAILED"@, m@),
        MemoryError::FileReadFailed(m) => ("MEMORY_FILE_READ_FAILED"@, m@),
        MemoryError::SessionNotFound(m) => ("SESSION_NOT_FOUND"@, m@),
        MemoryError::MessageNotFound(m) => ("MESSAGE_NOT_FOUND"@, m@),
    }
}

impl MemoryError {
    /// The text of the error: its code, a colon, a space and the detail.
    pub fn message(&self) -> (r: String)
        ensures
            r@ == memory_error_parts(*self).0 + ": "@ + memory_error_parts(*self).1,
    {
        let (code, detail) = match self {
            MemoryError::CandidateNotFound(m) => ("MEMORY_CANDIDATE_NOT_FOUND", m),
            MemoryError::InvalidRequest(m) => ("INVALID_REQUEST", m),
            MemoryError::DbWriteFailed(m) => ("DB_WRITE_FAILED", m),
            MemoryError::DbReadFailed(m) => ("DB_READ_FAILED", m),
            MemoryError::FileWriteFailed(m) => ("MEMORY_FILE_WRITE_FAILED", m),
            MemoryError::FileReadFailed(m) => ("MEMORY_FILE_READ_FAILED", m),
            MemoryError::SessionNotFound(m) => ("SESSION_NOT_FOUND", m),
            MemoryError::MessageNotFound(m) => ("MESSAGE_NOT_FOUND", m),
        };
        let mut r = String::from_str(code);
        r.append(": ");
        r.append(detail.as_str());
        r
    }
}

/// A message to read memory candidates from.
#[derive(Clone, Debug)]
pub struct ExtractCandidatesInput {
    pub session_id: String,
    pub source_message_id: String,
    pub content: String,
}

/// The decision taken on a candidate; a merge may name the memory to merge into.
#[derive(Clone, Debug)]
pub struct ReviewCandidateInput {
    pub candidate_id: String,
    pub action: String,
    pub merge_target_id: Option<String>,
}

/// What a soft delete or a restore of a memory touched.
#[derive(Clone, Debug)]
pub struct MemoryDeleteRestoreResult {
    pub memory_id: String,
    pub deleted_at: Option<String>,
    pub index_docs_affected: usize,
    pub index_terms_affected: usize,
}

/// Where the memory pipeline keeps its files and its database.
#[derive(Clone, Debug)]
pub struct MemoryPipeline {
    runtime_root: String,
    db_path: String,
}

pub open spec fn spec_memory_dir(root: Seq<char>) -> Seq<char> {
    path_join(path_join(root, "memory"@), "long_term"@)
}

/// `<root>/memory/long_term/<memory_id>.md`
pub open spec fn spec_memory_file(root: Seq<char>, memory_id: Seq<char>) -> Seq<char> {
    path_join(spec_memory_dir(root), memory_id + ".md"@)
}

/// `<root>/memory/long_term/versions/<memory_id>.v<version>.md`
pub open spec fn spec_version_file(root: Seq<char>, memory_id: Seq<char>, version: nat) -> Seq<char> {
    path_join(path_join(spec_memory_dir(root), "versions"@), version_file_name(memory_id, version))
}

impl MemoryPipeline {
    pub fn new(runtime_root: String, db_path: String) -> (r: MemoryPipeline)
        ensures
            r.root_view() == runtime_root@,
            r.db_view() == db_path@,
    {
        MemoryPipeline { runtime_root, db_path }
    }

    pub closed spec fn root_view(&self) -> Seq<char> {
        self.runtime_root@
    }

    pub closed spec fn db_view(&self) -> Seq<char> {
        self.db_path@
    }

    pub fn runtime_root(&self) -> (r: &str)
        ensures
            r@ == self.root_view(),
    {
        self.runtime_root.as_str()
    }

    pub fn db_path(&self) -> (r: &str)
        ensures
            r@ == self.db_view(),
    {
        self.db_path.as_str()
    }

    /// The directory that holds the versions of every memory document.
    pub fn versions_dir(&self) -> (r: String)
        ensures
            r@ == path_join(spec_memory_dir(self.root_view()), "versions"@),
    {
        let dir = self.memory_dir();
        join_path(dir.as_str(), "versions")
    }

    fn memory_dir(&self) -> (r: String)
        ensures
            r@ == spec_memory_dir(self.root_view()),
    {
        let m = join_path(self.runtime_root.as_str(), "memory");
        join_path(m.as_str(), "long_term")
    }

    /// The file that holds the current version of a memory document.
    pub fn memory_file_path(&self, memory_id: &str) -> (r: String)
        ensures
            r@ == spec_memory_file(self.root_view(), memory_id@),
    {
        let dir = self.memory_dir();
        let mut name = String::from_str(memory_id);
        name.append(".md");
        join_path(dir.as_str(), name.as_str())
    }

    /// The file that keeps one version of a memory document.
    pub fn memory_version_file_path(&self, memory_id: &str, version: usize) -> (r: String)
        ensures
            r@ == spec_version_file(self.root_view(), memory_id@, version as nat),
    {
        let dir = self.memory_dir();
        let vdir = join_path(dir.as_str(), "versions");
        let mut name = String::from_str(memory_id);
        name.append(".v");
        let n = decimal_string(version as u128);
        name.append(n.as_str());
        name.append(".md");
        join_path(vdir.as_str(), name.as_str())
    }
}

/// The fields of a memory candidate that its Markdown document shows. The
/// confidence comes as the text it is shown with (two decimals).
#[derive(Clone, Debug)]
pub struct CandidateSnapshot {
    pub id: String,
    pub session_id: String,
    pub source_message_id: String,
    pub candidate_type: String,
    pub summary: String,
    pub evidence: Option<String>,
    pub tags: Vec<String>,
    pub status: String,
    pub created_at: String,
    pub updated_at: String,
    pub confidence_text: String,
}

pub open spec fn texts_view(v: Seq<String>) -> Seq<Seq<char>> {
    v.map_values(|s: String| s@)
}

/// `"t"` for a tag `t`, joined with `, `.
pub open spec fn quoted_list(tags: Seq<Seq<char>>) -> Seq<char>
    decreases tags.len(),
{
    if tags.len() == 0 {
        seq![]
    } else if tags.len() == 1 {
        "\""@ + tags[0] + "\""@
    } else {
        quoted_list(tags.drop_last()) + ", "@ + "\""@ + tags.last() + "\""@
    }
}

/// The tags as the front matter lists them.
pub open spec fn tags_text(tags: Seq<Seq<char>>) -> Seq<char> {
    if tags.len() == 0 {
        "[]"@
    } else {
        "["@ + quoted_list(tags) + "]"@
    }
}

pub open spec fn evidence_text(e: Option<String>) -> Seq<char> {
    match e {
        Some(t) => t@,
        None => seq![],
    }
}

/// The opening of the front matter: the fence, the id and the version.
pub open spec fn markdown_front(id: Seq<char>, version: nat) -> Seq<char> {
    "---\nid: "@ + id + "\nversion: "@ + decimal(version)
}

/// The Markdown document of a memory: front matter, then the summary and the evidence.
pub open spec fn markdown_of(c: CandidateSnapshot, version: nat) -> Seq<char> {
    markdown_front(c.id@, version) + markdown_rest(c)
}

/// Everything after the version line's number.
pub open spec fn markdown_rest(c: CandidateSnapshot) -> Seq<char> {
    "\ntype: "@ + c.candidate_type@
        + "\nstatus: "@ + c.status@ + "\nconfidence: "@ + c.confidence_text@ + "\nsession_id: "@
        + c.session_id@ + "\nsource_message_id: "@ + c.source_message_id@ + "\ntags: "@ + tags_text(
        texts_view(c.tags@),
    ) + "\ncreated_at: "@ + c.created_at@ + "\nupdated_at: "@ + c.updated_at@ + "\n---\n\n"@
        + c.summary@ + "\n\n"@ + evidence_text(c.evidence) + "\n"@
}

fn tags_line(tags: &Vec<String>) -> (r: String)
    ensures
        r@ == tags_text(texts_view(tags@)),
{
    if tags.len() == 0 {
        return String::from_str("[]");
    }
    let ghost tv = texts_view(tags@);
    let mut r = String::from_str("[");
    let mut i: usize = 0;
    while i < tags.len()
        invariant
            0 < tags.len(),
            i <= tags.len(),
            tv == texts_view(tags@),
            i == 0 ==> r@ == "["@,
            i > 0 ==> r@ == "["@ + quoted_list(tv.take(i as int)),
        decreases tags.len() - i,
    {
        let ghost before = r@;
        if i > 0 {
            r.append(", ");
        }
        r.append("\"");
        r.append(tags[i].as_str());
        r.append("\"");
        proof {
            let t = tv.take(i + 1);
            assert(t.drop_last() == tv.take(i as int));
            assert(t.last() == tags@[i as int]@);
            if i == 0 {
                assert(t.len() == 1);
                assert(t[0] == tags@[0]@);
            }
        }
        i = i + 1;
    }
    assert(tv.take(tags.len() as int) == tv);
    r.append("]");
    r
}

fn markdown_front_text(id: &str, version: usize) -> (r: String)
    ensures
        r@ == markdown_front(id@, version as nat),
{
    let mut r = String::from_str("---\nid: ");
    r.append(id);
    r.append("\nversion: ");
    let v = decimal_string(version as u128);
    r.append(v.as_str());
    r
}

/// The fields from the type to the source message.
pub open spec fn markdown_middle(c: CandidateSnapshot) -> Seq<char> {
    "\ntype: "@ + c.candidate_type@ + "\nstatus: "@ + c.status@ + "\nconfidence: "@ + c.confidence_text@
        + "\nsession_id: "@ + c.session_id@ + "\nsource_message_id: "@ + c.source_message_id@
}

/// The tags, the timestamps, the closing fence, the summary and the evidence.
pub open spec fn markdown_tail(c: CandidateSnapshot) -> Seq<char> {
    "\ntags: "@ + tags_text(texts_view(c.tags@)) + "\ncreated_at: "@ + c.created_at@ + "\nupdated_at: "@
        + c.updated_at@ + "\n---\n\n"@ + c.summary@ + "\n\n"@ + evidence_text(c.evidence) + "\n"@
}

fn markdown_middle_text(c: &CandidateSnapshot) -> (r: String)
    ensures
        r@ == markdown_middle(*c),
{
    let mut r = String::from_str("\ntype: ");
    r.append(c.candidate_type.as_str());
    r.append("\nstatus: ");
    r.append(c.status.as_str());
    r.append("\nconfidence: ");
    r.append(c.confidence_text.as_str());
    r.append("\nsession_id: ");
    r.append(c.session_id.as_str());
    r.append("\nsource_message_id: ");
    r.append(c.source_message_id.as_str());
    r
}

fn markdown_tail_text(c: &CandidateSnapshot) -> (r: String)
    ensures
        r@ == markdown_tail(*c),
{
    let mut r = String::from_str("\ntags: ");
    let t = tags_line(&c.tags);
    r.append(t.as_str());
    r.append("\ncreated_at: ");
    r.append(c.created_at.as_str());
    r.append("\nupdated_at: ");
    r.append(c.updated_at.as_str());
    r.append("\n---\n\n");
    r.append(c.summary.as_str());
    r.append("\n\n");
    match &c.evidence {
        Some(e) => r.append(e.as_str()),
        None => {
            assert(r@ + evidence_text(c.evidence) == r@);
        },
    }
    r.append("\n");
    r
}

/// Writes the Markdown document of a memory at the given version.
pub fn build_markdown(c: &CandidateSnapshot, version: usize) -> (r: String)
    ensures
        r@ == markdown_of(*c, version as nat),
{
    let mut r = markdown_front_text(c.id.as_str(), version);
    let m = markdown_middle_text(c);
    let t = markdown_tail_text(c);
    r.append(m.as_str());
    r.append(t.as_str());
    assert(markdown_rest(*c) =~= markdown_middle(*c) + markdown_tail(*c));
    r
}

/// The version a line of front matter states: `version:`, then a number.
pub open spec fn version_in_line(l: Seq<char>) -> Option<nat> {
    if starts_with(l, "version:"@) {
        parse_unsigned(trim(l.skip("version:"@.len() as int)), usize::MAX as nat)
    } else {
        None
    }
}

pub open spec fn first_version(ls: Seq<Seq<char>>) -> nat
    decreases ls.len(),
{
    if ls.len() == 0 {
        1
    } else {
        match version_in_line(ls[0]) {
            Some(v) => v,
            None => first_version(ls.drop_first()),
        }
    }
}

/// The version a Markdown document states in its first `version:` line; 1 when none does.
pub open spec fn markdown_version(content: Seq<char>) -> nat {
    first_version(lines_of(content))
}

proof fn lemma_lines_step(s: Seq<char>, pos: int, j: int)
    requires
        0 <= pos < s.len(),
        pos <= j <= s.len(),
        forall|k: int| pos <= k < j ==> s[k] != '\n',
        j == s.len() || s[j] == '\n',
    ensures
        j == s.len() ==> lines_of(s.skip(pos)) == seq![s.subrange(pos, j)],
        j < s.len() ==> lines_of(s.skip(pos)) == seq![strip_cr(s.subrange(pos, j))] + lines_of(s.skip(j + 1)),
{
    let t = s.skip(pos);
    assert forall|k: int| 0 <= k < j - pos implies t[k] != '\n' by {
        assert(t[k] == s[pos + k]);
    }
    lemma_first_newline_at(t, j - pos);
    assert(t.take(j - pos) == s.subrange(pos, j));
    if j < s.len() {
        assert(t.skip(j - pos + 1) == s.skip(j + 1));
    } else {
        assert(t == s.subrange(pos, j));
    }
}

/// Reads the version a Markdown document states; 1 when it states none.
pub fn parse_markdown_version(content: &str) -> (r: usize)
    ensures
        r as nat == markdown_version(content@),
{
    let v = chars_of(content);
    let key = chars_of("version:");
    proof {
        reveal_strlit("version:");
    }
    let n = v.len();
    let mut pos: usize = 0;
    assert(v@.skip(0) == v@);
    while pos < n
        invariant
            n == v.len(),
            v@ == content@,
            key@ == "version:"@,
            key@.len() == 8,
            pos <= n,
            markdown_version(content@) == first_version(lines_of(v@.skip(pos as int))),
        decreases n - pos,
    {
        let mut j: usize = pos;
        while j < n && v[j] != '\n'
            invariant
                pos <= j <= n,
                n == v.len(),
                forall|k: int| pos <= k < j ==> v@[k] != '\n',
            decreases n - j,
        {
            j = j + 1;
        }
        proof {
            lemma_lines_step(v@, pos as int, j as int);
        }
        let mut end: usize = j;
        if j < n && end > pos && v[end - 1] == '\r' {
            end = end - 1;
        }
        let ghost line = if j < n {
            strip_cr(v@.subrange(pos as int, j as int))
        } else {
            v@.subrange(pos as int, j as int)
        };
        assert(line == v@.subrange(pos as int, end as int));
        let ghost rest = if j < n {
            lines_of(v@.skip(j + 1))
        } else {
            Seq::<Seq<char>>::empty()
        };
        assert(lines_of(v@.skip(pos as int)) == seq![line] + rest);
        assert((seq![line] + rest).drop_first() == rest);
        assert((seq![line] + rest)[0] == line);
        if end - pos >= key.len() && matches_at(&v, pos, &key) {
            proof {
                assert(line.take(key@.len() as int) == v@.subrange(pos as int, pos + key@.len()));
                assert(line.skip(key@.len() as int) == v@.subrange(pos + key@.len(), end as int));
                assert(starts_with(line, "version:"@));
            }
            let (a, b) = trim_bounds(&v, pos + key.len(), end);
            match parse_unsigned_range(&v, a, b, usize::MAX as u128) {
                Some(x) => {
                    assert(version_in_line(line) == Some(x as nat));
                    return x as usize;
                },
                None => {
                    assert(version_in_line(line) is None);
                },
            }
        } else {
            proof {
                if starts_with(line, "version:"@) {
                    assert(line.take(key@.len() as int) == v@.subrange(pos as int, pos + key@.len()));
                    assert(contains_at(v@, key@, pos as int));
                }
                assert(version_in_line(line) is None);
            }
        }
        assert(first_version(seq![line] + rest) == first_version(rest));
        if j == n {
            proof {
                assert(rest.len() == 0);
            }
            return 1;
        }
        pos = j + 1;
    }
    proof {
        assert(v@.skip(pos as int).len() == 0);
    }
    1
}

/// The Markdown a memory is written as states, in its front matter, the version
/// it was written at; so the version read back from a written document is the
/// one it was written with.
pub proof fn law_markdown_version_round_trip(c: CandidateSnapshot, version: nat)
    requires
        version <= usize::MAX,
        forall|k: int| 0 <= k < c.id@.len() ==> c.id@[k] != '\n',
    ensures
        markdown_version(markdown_of(c, version)) == version,
{
    reveal_strlit("---\nid: ");
    reveal_strlit("\nversion: ");
    reveal_strlit("\ntype: ");
    reveal_strlit("version:");
    let id = c.id@;
    let d = decimal(version);
    lemma_decimal_digits(version);
    let l1 = seq!['-', '-', '-'];
    let l2 = seq!['i', 'd', ':', ' '] + id;
    let l3 = seq!['v', 'e', 'r', 's', 'i', 'o', 'n', ':', ' '] + d;
    let front = markdown_front(id, version);
    let body = markdown_rest(c);
    assert(front =~= l1 + seq!['\n'] + l2 + seq!['\n'] + l3);
    assert(body[0] == '\n');
    let rest = body.skip(1);
    assert(body =~= seq!['\n'] + rest);
    let m = markdown_of(c, version);
    assert(m =~= l1 + seq!['\n'] + (l2 + seq!['\n'] + (l3 + seq!['\n'] + rest)));
    assert forall|k: int| 0 <= k < l2.len() implies l2[k] != '\n' by {
        if k >= 4 {
            assert(l2[k] == id[k - 4]);
        }
    }
    assert forall|k: int| 0 <= k < l3.len() implies l3[k] != '\n' by {
        if k >= 9 {
            assert(l3[k] == d[k - 9]);
            assert(is_digit(d[k - 9]));
        }
    }
    lemma_lines_of_cons(l1, l2 + seq!['\n'] + (l3 + seq!['\n'] + rest));
    lemma_lines_of_cons(l2, l3 + seq!['\n'] + rest);
    lemma_lines_of_cons(l3, rest);
    let ls = lines_of(m);
    assert(ls == seq![strip_cr(l1)] + (seq![strip_cr(l2)] + (seq![strip_cr(l3)] + lines_of(rest))));
    assert(strip_cr(l1) == l1);
    assert(!starts_with(l1, "version:"@));
    let s2 = strip_cr(l2);
    assert(s2[0] == 'i');
    assert(!starts_with(s2, "version:"@)) by {
        if starts_with(s2, "version:"@) {
            assert(s2.take(8)[0] == s2[0]);
        }
    }
    assert(strip_cr(l3) == l3) by {
        assert(is_digit(l3.last()));
    }
    assert(l3.take(8) =~= "version:"@);
    let after = l3.skip(8);
    assert(after =~= seq![' '] + d);
    assert(trim_start(after) == trim_start(d)) by {
        assert(after.drop_first() =~= d);
    }
    assert(trim_start(d) == d) by {
        assert(is_digit(d[0]));
    }
    assert(trim_end(d) == d) by {
        assert(is_digit(d.last()));
    }
    lemma_parse_decimal(version, usize::MAX as nat);
    assert(version_in_line(l3) == Some(version));
    assert(version_in_line(l1) is None);
    assert(version_in_line(s2) is None);
    let ls1 = ls.drop_first();
    let ls2 = ls1.drop_first();
    assert(ls[0] == l1);
    assert(ls1[0] == s2);
    assert(ls2[0] == l3);
    assert(first_version(ls) == first_version(ls1));
    assert(first_version(ls1) == first_version(ls2));
    assert(first_version(ls2) == version);
}

/// The version a file name of the versions directory gives for a memory:
/// `<memory_id>.v<n>.md`, with `<n>` a number `usize` can hold.
pub open spec fn version_of_name(memory_id: Seq<char>, name: Seq<char>) -> Option<nat> {
    let prefix = memory_id + ".v"@;
    if starts_with(name, prefix) && ends_with(name.skip(prefix.len() as int), ".md"@) {
        parse_unsigned(name.subrange(prefix.len() as int, name.len() - 3), usize::MAX as nat)
    } else {
        None
    }
}

/// The highest version that the names give for a memory, 0 when none gives one.
pub open spec fn max_version(memory_id: Seq<char>, names: Seq<Seq<char>>) -> nat
    decreases names.len(),
{
    if names.len() == 0 {
        0
    } else {
        let m = max_version(memory_id, names.drop_last());
        match version_of_name(memory_id, names.last()) {
            Some(v) => if v > m {
                v
            } else {
                m
            },
            None => m,
        }
    }
}

/// The version the next document of a memory is written at: one past the
/// highest existing version, or 1 when there is none.
pub open spec fn next_version(memory_id: Seq<char>, names: Seq<Seq<char>>) -> nat {
    let m = max_version(memory_id, names);
    if m == 0 {
        1
    } else {
        m + 1
    }
}

/// The version a file name gives for a memory, if it is one of its version files.
pub fn version_in_name(memory_id: &str, name: &str) -> (r: Option<usize>)
    ensures
        match r {
            Some(v) => version_of_name(memory_id@, name@) == Some(v as nat),
            None => version_of_name(memory_id@, name@) is None,
        },
{
    let v = chars_of(name);
    let mut prefix = String::from_str(memory_id);
    prefix.append(".v");
    let p = chars_of(prefix.as_str());
    let suffix = chars_of(".md");
    proof {
        reveal_strlit(".v");
        reveal_strlit(".md");
    }
    let ghost pv = memory_id@ + ".v"@;
    if p.len() > v.len() || !matches_at(&v, 0, &p) {
        proof {
            if starts_with(name@, pv) {
                assert(v@.take(pv.len() as int) == v@.subrange(0, pv.len() as int));
            }
        }
        return None;
    }
    assert(v@.subrange(0, p.len() as int) == v@.take(p.len() as int));
    let ghost rest = v@.skip(p.len() as int);
    if v.len() - p.len() < 3 || !matches_at(&v, v.len() - 3, &suffix) {
        proof {
            if ends_with(rest, ".md"@) {
                assert(rest.skip(rest.len() - 3) == v@.subrange(v.len() - 3, v.len() as int));
            }
        }
        return None;
    }
    assert(rest.skip(rest.len() - 3) == v@.subrange(v.len() - 3, v.len() as int));
    match parse_unsigned_range(&v, p.len(), v.len() - 3, usize::MAX as u128) {
        Some(n) => Some(n as usize),
        None => None,
    }
}

/// The highest version among the names for a memory; 0 when none gives one.
pub fn highest_version(memory_id: &str, names: &Vec<String>) -> (r: usize)
    ensures
        r as nat == max_version(memory_id@, texts_view(names@)),
{
    let ghost nv = texts_view(names@);
    let mut best: usize = 0;
    let mut i: usize = 0;
    assert(nv.take(0) == Seq::<Seq<char>>::empty());
    while i < names.len()
        invariant
            i <= names.len(),
            nv == texts_view(names@),
            best as nat == max_version(memory_id@, nv.take(i as int)),
        decreases names.len() - i,
    {
        proof {
            let t = nv.take(i + 1);
            assert(t.drop_last() == nv.take(i as int));
            assert(t.last() == names@[i as int]@);
        }
        match version_in_name(memory_id, names[i].as_str()) {
            Some(v) => {
                if v > best {
                    best = v;
                }
            },
            None => {},
        }
        i = i + 1;
    }
    assert(nv.take(names.len() as int) == nv);
    best
}

/// The version the next Markdown document of a memory is written at, from the
/// names of the files in the versions directory.
pub fn next_markdown_version(memory_id: &str, names: &Vec<String>) -> (r: usize)
    requires
        max_version(memory_id@, texts_view(names@)) < usize::MAX,
    ensures
        r as nat == next_version(memory_id@, texts_view(names@)),
{
    let m = highest_version(memory_id, names);
    if m == 0 {
        1
    } else {
        m + 1
    }
}

proof fn lemma_max_version_bounds(memory_id: Seq<char>, names: Seq<Seq<char>>, i: int)
    requires
        0 <= i < names.len(),
    ensures
        match version_of_name(memory_id, names[i]) {
            Some(v) => v <= max_version(memory_id, names),
            None => true,
        },
    decreases names.len(),
{
    if i < names.len() - 1 {
        assert(names.drop_last()[i] == names[i]);
        lemma_max_version_bounds(memory_id, names.drop_last(), i);
    }
}

/// The next document of a memory is written at a version above every version
/// that the versions directory holds for it, and at 1 or more.
pub proof fn law_next_version_is_new(memory_id: Seq<char>, names: Seq<Seq<char>>)
    ensures
        next_version(memory_id, names) >= 1,
        forall|i: int|
            0 <= i < names.len() ==> match version_of_name(memory_id, #[trigger] names[i]) {
                Some(v) => v < next_version(memory_id, names),
                None => true,
            },
{
    assert forall|i: int| 0 <= i < names.len() implies match version_of_name(
        memory_id,
        #[trigger] names[i],
    ) {
        Some(v) => v < next_version(memory_id, names),
        None => true,
    } by {
        lemma_max_version_bounds(memory_id, names, i);
    }
}

/// The name a version file of a memory is written under.
pub open spec fn version_file_name(memory_id: Seq<char>, version: nat) -> Seq<char> {
    memory_id + ".v"@ + decimal(version) + ".md"@
}

/// The name a version file of a memory is written under gives back its version,
/// so a version once written counts when the next one is chosen.
pub proof fn law_version_file_name_round_trip(memory_id: Seq<char>, version: nat)
    requires
        version <= usize::MAX,
    ensures
        version_of_name(memory_id, version_file_name(memory_id, version)) == Some(version),
{
    reveal_strlit(".v");
    reveal_strlit(".md");
    let prefix = memory_id + ".v"@;
    let d = decimal(version);
    let name = prefix + d + ".md"@;
    lemma_decimal_digits(version);
    assert(name.take(prefix.len() as int) == prefix);
    let rest = name.skip(prefix.len() as int);
    assert(rest == d + ".md"@);
    assert(rest.skip(rest.len() - 3) == ".md"@);
    assert(name.subrange(prefix.len() as int, name.len() - 3) == d);
    lemma_parse_decimal(version, usize::MAX as nat);
}

/// The Markdown of a memory names the memory, so a document read back names
/// the memory it was written for.
pub proof fn law_markdown_names_memory(c: CandidateSnapshot, version: nat)
    ensures
        contains_at(markdown_of(c, version), c.id@, 8),
{
    reveal_strlit("---\nid: ");
    let m = markdown_of(c, version);
    let head = "---\nid: "@;
    assert(head.len() == 8);
    assert(m == head + c.id@ + ("\nversion: "@ + decimal(version) + markdown_rest(c)));
    assert(m.subrange(8, 8 + c.id@.len() as int) == c.id@);
}

/// Once a version of a memory is written, the next document of that memory is
/// written at a higher version: a merge never overwrites a version.
pub proof fn law_written_version_is_passed(memory_id: Seq<char>, names: Seq<Seq<char>>, version: nat)
    requires
        version <= usize::MAX,
    ensures
        next_version(memory_id, names.push(version_file_name(memory_id, version))) > version,
{
    let all = names.push(version_file_name(memory_id, version));
    law_version_file_name_round_trip(memory_id, version);
    law_next_version_is_new(memory_id, all);
    assert(all[names.len() as int] == version_file_name(memory_id, version));
}

} // verus!
