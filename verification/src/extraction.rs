//! Rule-based reading of chat text for memory: terms, sentences, tags and the
//! kind of memory a sentence suggests.
use vstd::prelude::*;
use vstd::string::*;
use crate::text::{contains, lowercase, str_contains, to_lowercase, chars_of, string_of_range, trim, trim_bounds, utf8_len, utf8_len_at_least};

verus! {

pub open spec fn is_ascii_alnum(c: char) -> bool {
    ||| ('0' <= c && c <= '9')
    ||| ('a' <= c && c <= 'z')
    ||| ('A' <= c && c <= 'Z')
}

/// `char::to_ascii_lowercase`: `A`..`Z` to `a`..`z`, every other character unchanged.
pub open spec fn ascii_lower(c: char) -> char {
    if 'A' <= c && c <= 'Z' {
        ((c as u32) + 32) as char
    } else {
        c
    }
}

/// A CJK unified ideograph, U+4E00 to U+9FFF.
pub open spec fn is_cjk(c: char) -> bool {
    '\u{4E00}' <= c && c <= '\u{9FFF}'
}

/// The terms of `s` when `cur` is the run of letters and digits read just before it.
pub open spec fn terms_from(s: Seq<char>, cur: Seq<char>) -> Seq<Seq<char>>
    decreases s.len(),
{
    if s.len() == 0 {
        if cur.len() > 0 {
            seq![cur]
        } else {
            seq![]
        }
    } else if is_ascii_alnum(s[0]) {
        terms_from(s.drop_first(), cur.push(ascii_lower(s[0])))
    } else {
        let flushed: Seq<Seq<char>> = if cur.len() > 0 {
            seq![cur]
        } else {
            seq![]
        };
        let single: Seq<Seq<char>> = if is_cjk(s[0]) {
            seq![seq![s[0]]]
        } else {
            seq![]
        };
        flushed + single + terms_from(s.drop_first(), seq![])
    }
}

/// The search terms of a text, in order: each maximal run of ASCII letters and
/// digits, lower-cased, and each CJK ideograph on its own; everything else separates.
pub open spec fn terms(s: Seq<char>) -> Seq<Seq<char>> {
    terms_from(s, seq![])
}

pub fn is_cjk_char(c: char) -> (r: bool)
    ensures
        r == is_cjk(c),
{
    '\u{4E00}' <= c && c <= '\u{9FFF}'
}

fn is_ascii_alnum_char(c: char) -> (r: bool)
    ensures
        r == is_ascii_alnum(c),
{
    ('0' <= c && c <= '9') || ('a' <= c && c <= 'z') || ('A' <= c && c <= 'Z')
}

fn ascii_lower_char(c: char) -> (r: char)
    ensures
        r == ascii_lower(c),
{
    if 'A' <= c && c <= 'Z' {
        let b: u8 = (c as u32 + 32) as u8;
        b as char
    } else {
        c
    }
}

/// Splits a text into its search terms.
pub fn tokenize(input: &str) -> (r: Vec<String>)
    ensures
        r@.map_values(|t: String| t@) == terms(input@),
{
    let v = chars_of(input);
    let mut out: Vec<String> = Vec::new();
    let mut cur = String::new();
    let mut i: usize = 0;
    assert(v@.skip(0) == v@);
    while i < v.len()
        invariant
            i <= v.len(),
            v@ == input@,
            out@.map_values(|t: String| t@) + terms_from(v@.skip(i as int), cur@) == terms(input@),
        decreases v.len() - i,
    {
        let c = v[i];
        let ghost rest = v@.skip(i as int);
        let ghost cv = cur@;
        assert(rest[0] == c);
        assert(rest.drop_first() == v@.skip(i + 1));
        let ghost before = out@.map_values(|t: String| t@);
        if is_ascii_alnum_char(c) {
            let l = ascii_lower_char(c);
            cur.push(l);
        } else {
            let ghost flushed: Seq<Seq<char>> = if cv.len() > 0 {
                seq![cv]
            } else {
                seq![]
            };
            let ghost single: Seq<Seq<char>> = if is_cjk(c) {
                seq![seq![c]]
            } else {
                seq![]
            };
            if !cur.as_str().is_empty() {
                let t = cur.clone();
                out.push(t);
                cur = String::new();
            }
            assert(out@.map_values(|t: String| t@) == before + flushed);
            if is_cjk_char(c) {
                let mut one = String::new();
                one.push(c);
                out.push(one);
            }
            assert(out@.map_values(|t: String| t@) == before + flushed + single);
            assert(terms_from(rest, cv) == flushed + single + terms_from(v@.skip(i + 1), seq![]));
            assert(cur@ == Seq::<char>::empty());
        }
        i = i + 1;
    }
    let ghost before = out@.map_values(|t: String| t@);
    if !cur.as_str().is_empty() {
        out.push(cur);
    }
    proof {
        assert(v@.skip(v.len() as int) == Seq::<char>::empty());
    }
    out
}

/// The characters a text is cut into sentences at.
pub open spec fn is_sentence_break(c: char) -> bool {
    ||| c == '\n'
    ||| c == '.'
    ||| c == '\u{3002}'
    ||| c == '!'
    ||| c == '\u{FF01}'
    ||| c == '?'
    ||| c == '\u{FF1F}'
}

/// What one piece between breaks gives: the piece trimmed, when that takes at
/// least 8 bytes; nothing otherwise.
pub open spec fn kept_piece(p: Seq<char>) -> Seq<Seq<char>> {
    if utf8_len(trim(p)) >= 8 {
        seq![trim(p)]
    } else {
        seq![]
    }
}

/// The sentences of `s` when `cur` is the part of the current piece read before it.
pub open spec fn sentences_from(s: Seq<char>, cur: Seq<char>) -> Seq<Seq<char>>
    decreases s.len(),
{
    if s.len() == 0 {
        kept_piece(cur)
    } else if is_sentence_break(s[0]) {
        kept_piece(cur) + sentences_from(s.drop_first(), seq![])
    } else {
        sentences_from(s.drop_first(), cur.push(s[0]))
    }
}

/// The sentences of a text: the pieces between sentence breaks, trimmed, in
/// order, without those under 8 bytes.
pub open spec fn sentences(s: Seq<char>) -> Seq<Seq<char>> {
    sentences_from(s, seq![])
}

fn is_sentence_break_char(c: char) -> (r: bool)
    ensures
        r == is_sentence_break(c),
{
    c == '\n' || c == '.' || c == '\u{3002}' || c == '!' || c == '\u{FF01}' || c == '?' || c == '\u{FF1F}'
}

fn push_kept(out: &mut Vec<String>, v: &Vec<char>, lo: usize, hi: usize)
    requires
        lo <= hi <= v.len(),
    ensures
        final(out)@.map_values(|t: String| t@) == old(out)@.map_values(|t: String| t@) + kept_piece(
            v@.subrange(lo as int, hi as int),
        ),
{
    let ghost before = out@.map_values(|t: String| t@);
    let (a, b) = trim_bounds(v, lo, hi);
    if utf8_len_at_least(v, a, b, 8) {
        let t = string_of_range(v, a, b);
        out.push(t);
    }
    assert(out@.map_values(|t: String| t@) == before + kept_piece(v@.subrange(lo as int, hi as int)));
}

/// Cuts a text into sentences.
pub fn split_sentences(content: &str) -> (r: Vec<String>)
    ensures
        r@.map_values(|t: String| t@) == sentences(content@),
{
    let v = chars_of(content);
    let mut out: Vec<String> = Vec::new();
    let mut start: usize = 0;
    let mut i: usize = 0;
    assert(v@.skip(0) == v@);
    assert(v@.subrange(0, 0) == Seq::<char>::empty());
    while i < v.len()
        invariant
            start <= i <= v.len(),
            v@ == content@,
            out@.map_values(|t: String| t@) + sentences_from(
                v@.skip(i as int),
                v@.subrange(start as int, i as int),
            ) == sentences(content@),
        decreases v.len() - i,
    {
        let ghost rest = v@.skip(i as int);
        assert(rest[0] == v@[i as int]);
        assert(rest.drop_first() == v@.skip(i + 1));
        if is_sentence_break_char(v[i]) {
            let ghost before = out@.map_values(|t: String| t@);
            push_kept(&mut out, &v, start, i);
            assert(v@.subrange(i + 1, i + 1) == Seq::<char>::empty());
            start = i + 1;
        } else {
            assert(v@.subrange(start as int, i as int).push(v@[i as int]) == v@.subrange(start as int, i + 1));
        }
        i = i + 1;
    }
    push_kept(&mut out, &v, start, v.len());
    proof {
        assert(v@.skip(v.len() as int) == Seq::<char>::empty());
    }
    out
}

/// A term short enough, and long enough, to serve as a tag: 2 to 20 bytes.
pub open spec fn tag_sized(t: Seq<char>) -> bool {
    2 <= utf8_len(t) && utf8_len(t) <= 20
}

/// The tags gathered from the terms `ts` when `acc` holds those gathered so far:
/// each term of tag size not yet gathered is added, until there are 6.
pub open spec fn tags_from(ts: Seq<Seq<char>>, acc: Seq<Seq<char>>) -> Seq<Seq<char>>
    decreases ts.len(),
{
    if ts.len() == 0 {
        acc
    } else {
        let next = if tag_sized(ts[0]) && !acc.contains(ts[0]) {
            acc.push(ts[0])
        } else {
            acc
        };
        if next.len() >= 6 {
            next
        } else {
            tags_from(ts.drop_first(), next)
        }
    }
}

/// The tags of a sentence: its distinct terms of tag size, in the order they
/// first occur, at most 6.
pub open spec fn tags_of(sentence: Seq<char>) -> Seq<Seq<char>> {
    tags_from(terms(sentence), seq![])
}

/// Whether one of `v` reads as `t`.
pub fn contains_text(v: &Vec<String>, t: &str) -> (r: bool)
    ensures
        r == v@.map_values(|x: String| x@).contains(t@),
{
    let ghost vv = v@.map_values(|x: String| x@);
    let mut j: usize = 0;
    while j < v.len()
        invariant
            j <= v.len(),
            vv == v@.map_values(|x: String| x@),
            forall|k: int| 0 <= k < j ==> vv[k] != t@,
        decreases v.len() - j,
    {
        if crate::text::same_text(v[j].as_str(), t) {
            assert(vv[j as int] == t@);
            return true;
        }
        j = j + 1;
    }
    false
}

fn is_tag_sized(t: &str) -> (r: bool)
    ensures
        r == tag_sized(t@),
{
    let v = chars_of(t);
    assert(v@.subrange(0, v@.len() as int) == v@);
    utf8_len_at_least(&v, 0, v.len(), 2) && !utf8_len_at_least(&v, 0, v.len(), 21)
}

/// The tags of a sentence, for the memory it may become.
pub fn extract_tags(sentence: &str) -> (r: Vec<String>)
    ensures
        r@.map_values(|t: String| t@) == tags_of(sentence@),
{
    let toks = tokenize(sentence);
    let ghost ts = toks@.map_values(|t: String| t@);
    let mut out: Vec<String> = Vec::new();
    let mut i: usize = 0;
    assert(ts.skip(0) == ts);
    assert(out@.map_values(|t: String| t@) == Seq::<Seq<char>>::empty());
    while i < toks.len()
        invariant
            i <= toks.len(),
            ts == toks@.map_values(|t: String| t@),
            ts == terms(sentence@),
            out@.len() < 6,
            tags_from(ts.skip(i as int), out@.map_values(|t: String| t@)) == tags_of(sentence@),
        decreases toks.len() - i,
    {
        let ghost acc = out@.map_values(|t: String| t@);
        let ghost rest = ts.skip(i as int);
        assert(rest[0] == toks@[i as int]@);
        assert(rest.drop_first() == ts.skip(i + 1));
        let t = &toks[i];
        if is_tag_sized(t.as_str()) && !contains_text(&out, t.as_str()) {
            out.push(t.clone());
        }
        assert(out@.map_values(|t: String| t@) == (if tag_sized(rest[0]) && !acc.contains(rest[0]) {
            acc.push(rest[0])
        } else {
            acc
        }));
        if out.len() >= 6 {
            return out;
        }
        i = i + 1;
    }
    proof {
        assert(ts.skip(toks.len() as int) == Seq::<Seq<char>>::empty());
    }
    out
}

/// The kind of memory a lower-cased sentence suggests, with the confidence given
/// to it in hundredths; the first rule that a phrase of the sentence meets decides.
pub open spec fn classification(lower: Seq<char>) -> Option<(Seq<char>, nat)> {
    if contains(lower, "喜欢"@) || contains(lower, "偏好"@) || contains(lower, "prefer"@) || contains(
        lower,
        "i like"@,
    ) {
        Some(("preference"@, 85))
    } else if contains(lower, "必须"@) || contains(lower, "不要"@) || contains(lower, "must"@)
        || contains(lower, "don't"@) || contains(lower, "cannot"@) {
        Some(("constraint"@, 83))
    } else if contains(lower, "项目"@) || contains(lower, "project"@) {
        Some(("project"@, 78))
    } else if contains(lower, "任务"@) || contains(lower, "todo"@) || contains(lower, "next step"@) {
        Some(("task"@, 76))
    } else if contains(lower, "我是"@) || contains(lower, "i am"@) || contains(lower, "我在"@)
        || contains(lower, "we use"@) {
        Some(("fact"@, 72))
    } else {
        None
    }
}

/// The kind of memory a sentence suggests and the confidence in it, in
/// hundredths; `None` when it suggests none.
pub fn classify_candidate(sentence: &str) -> (r: Option<(&'static str, u32)>)
    ensures
        match r {
            Some((kind, confidence)) => classification(lowercase(sentence@)) == Some(
                (kind@, confidence as nat),
            ),
            None => classification(lowercase(sentence@)) is None,
        },
{
    let lower = to_lowercase(sentence);
    let s = lower.as_str();
    if str_contains(s, "喜欢") || str_contains(s, "偏好") || str_contains(s, "prefer") || str_contains(
        s,
        "i like",
    ) {
        return Some(("preference", 85));
    }
    if str_contains(s, "必须") || str_contains(s, "不要") || str_contains(s, "must") || str_contains(
        s,
        "don't",
    ) || str_contains(s, "cannot") {
        return Some(("constraint", 83));
    }
    if str_contains(s, "项目") || str_contains(s, "project") {
        return Some(("project", 78));
    }
    if str_contains(s, "任务") || str_contains(s, "todo") || str_contains(s, "next step") {
        return Some(("task", 76));
    }
    if str_contains(s, "我是") || str_contains(s, "i am") || str_contains(s, "我在") || str_contains(
        s,
        "we use",
    ) {
        return Some(("fact", 72));
    }
    None
}

/// A sentence that may become a memory candidate: where it stands among the
/// sentences, the sentence, the kind of memory, the confidence in hundredths and
/// its tags.
pub struct CandidateDraft {
    pub index: usize,
    pub sentence: String,
    pub kind: String,
    pub confidence: u32,
    pub tags: Vec<String>,
}

pub ghost struct DraftView {
    pub index: nat,
    pub sentence: Seq<char>,
    pub kind: Seq<char>,
    pub confidence: nat,
    pub tags: Seq<Seq<char>>,
}

impl View for CandidateDraft {
    type V = DraftView;

    open spec fn view(&self) -> DraftView {
        DraftView {
            index: self.index as nat,
            sentence: self.sentence@,
            kind: self.kind@,
            confidence: self.confidence as nat,
            tags: self.tags@.map_values(|t: String| t@),
        }
    }
}

/// The most candidates one message gives.
pub const MAX_DRAFTS: usize = 5;

/// The drafts from the sentences `ss[i..]` when `count` drafts were made before:
/// each sentence that suggests a kind of memory gives one, until there are 5.
pub open spec fn drafts_from(ss: Seq<Seq<char>>, i: nat, count: nat) -> Seq<DraftView>
    decreases ss.len() - i,
{
    if i >= ss.len() || count >= MAX_DRAFTS {
        seq![]
    } else {
        match classification(lowercase(ss[i as int])) {
            Some((kind, confidence)) => seq![
                DraftView {
                    index: i,
                    sentence: ss[i as int],
                    kind,
                    confidence,
                    tags: tags_of(ss[i as int]),
                },
            ] + drafts_from(ss, i + 1, count + 1),
            None => drafts_from(ss, i + 1, count),
        }
    }
}

/// The memory candidates a message suggests, in the order of its sentences.
pub open spec fn drafts(content: Seq<char>) -> Seq<DraftView> {
    drafts_from(sentences(content), 0, 0)
}

/// Reads a message for memory candidates.
pub fn candidate_drafts(content: &str) -> (r: Vec<CandidateDraft>)
    ensures
        r@.map_values(|d: CandidateDraft| d@) == drafts(content@),
{
    let ss = split_sentences(content);
    let ghost sv = ss@.map_values(|t: String| t@);
    let mut out: Vec<CandidateDraft> = Vec::new();
    let mut i: usize = 0;
    assert(out@.map_values(|d: CandidateDraft| d@) == Seq::<DraftView>::empty());
    while i < ss.len()
        invariant
            i <= ss.len(),
            sv == ss@.map_values(|t: String| t@),
            sv == sentences(content@),
            out@.len() < MAX_DRAFTS,
            out@.map_values(|d: CandidateDraft| d@) + drafts_from(sv, i as nat, out@.len() as nat)
                == drafts(content@),
        decreases ss.len() - i,
    {
        let ghost before = out@.map_values(|d: CandidateDraft| d@);
        let sentence = &ss[i];
        assert(sentence@ == sv[i as int]);
        match classify_candidate(sentence.as_str()) {
            Some((kind, confidence)) => {
                let tags = extract_tags(sentence.as_str());
                let d = CandidateDraft {
                    index: i,
                    sentence: sentence.clone(),
                    kind: String::from_str(kind),
                    confidence,
                    tags,
                };
                out.push(d);
                assert(out@.map_values(|d: CandidateDraft| d@) == before + seq![
                    DraftView {
                        index: i as nat,
                        sentence: sv[i as int],
                        kind: kind@,
                        confidence: confidence as nat,
                        tags: tags_of(sv[i as int]),
                    },
                ]);
            },
            None => {},
        }
        if out.len() >= MAX_DRAFTS {
            assert(drafts_from(sv, (i + 1) as nat, out@.len() as nat) =~= Seq::<DraftView>::empty());
            assert(out@.map_values(|d: CandidateDraft| d@) =~= out@.map_values(|d: CandidateDraft| d@)
                + drafts_from(sv, (i + 1) as nat, out@.len() as nat));
            return out;
        }
        i = i + 1;
    }
    out
}

proof fn lemma_tags_from(ts: Seq<Seq<char>>, acc: Seq<Seq<char>>)
    requires
        acc.len() < 6,
        acc.no_duplicates(),
        forall|i: int| 0 <= i < acc.len() ==> tag_sized(#[trigger] acc[i]),
    ensures
        tags_from(ts, acc).len() <= 6,
        tags_from(ts, acc).no_duplicates(),
        forall|i: int| 0 <= i < tags_from(ts, acc).len() ==> tag_sized(#[trigger] tags_from(ts, acc)[i]),
    decreases ts.len(),
{
    if ts.len() > 0 {
        let next = if tag_sized(ts[0]) && !acc.contains(ts[0]) {
            acc.push(ts[0])
        } else {
            acc
        };
        if tag_sized(ts[0]) && !acc.contains(ts[0]) {
            assert forall|i: int, j: int| 0 <= i < next.len() && 0 <= j < next.len() && i != j implies next[i]
                != next[j] by {
                if i < acc.len() && j < acc.len() {
                    assert(next[i] == acc[i] && next[j] == acc[j]);
                } else if i == acc.len() {
                    assert(next[j] == acc[j]);
                } else {
                    assert(next[i] == acc[i]);
                }
            }
            assert forall|i: int| 0 <= i < next.len() implies tag_sized(#[trigger] next[i]) by {
                if i < acc.len() {
                    assert(next[i] == acc[i]);
                }
            }
        }
        if next.len() < 6 {
            lemma_tags_from(ts.drop_first(), next);
        }
    }
}

/// The tags of a sentence are at most 6, no two alike, each of 2 to 20 bytes.
pub proof fn law_tags_are_few_distinct_and_sized(sentence: Seq<char>)
    ensures
        tags_of(sentence).len() <= 6,
        tags_of(sentence).no_duplicates(),
        forall|i: int| 0 <= i < tags_of(sentence).len() ==> tag_sized(#[trigger] tags_of(sentence)[i]),
{
    lemma_tags_from(terms(sentence), seq![]);
}

/// A lower-cased run of ASCII letters and digits.
pub open spec fn is_lower_alnum_run(t: Seq<char>) -> bool {
    forall|i: int| 0 <= i < t.len() ==> is_ascii_alnum(#[trigger] t[i]) && !('A' <= t[i] && t[i] <= 'Z')
}

/// What a search term looks like: a single CJK ideograph, or a non-empty
/// lower-cased run of ASCII letters and digits.
pub open spec fn term_shape(t: Seq<char>) -> bool {
    ||| (t.len() == 1 && is_cjk(t[0]))
    ||| (t.len() > 0 && is_lower_alnum_run(t))
}

proof fn lemma_terms_from_shape(s: Seq<char>, cur: Seq<char>)
    requires
        is_lower_alnum_run(cur),
    ensures
        forall|i: int| 0 <= i < terms_from(s, cur).len() ==> term_shape(#[trigger] terms_from(s, cur)[i]),
    decreases s.len(),
{
    if s.len() == 0 {
        if cur.len() > 0 {
            assert(terms_from(s, cur) == seq![cur]);
            assert(term_shape(cur));
        }
    } else {
        if is_ascii_alnum(s[0]) {
            let c2 = cur.push(ascii_lower(s[0]));
            assert forall|i: int| 0 <= i < c2.len() implies is_ascii_alnum(#[trigger] c2[i]) && !('A' <= c2[i]
                && c2[i] <= 'Z') by {
                if i < cur.len() {
                    assert(c2[i] == cur[i]);
                }
            }
            lemma_terms_from_shape(s.drop_first(), c2);
            assert(terms_from(s, cur) == terms_from(s.drop_first(), c2));
        } else {
            lemma_terms_from_shape(s.drop_first(), seq![]);
            let flushed: Seq<Seq<char>> = if cur.len() > 0 {
                seq![cur]
            } else {
                seq![]
            };
            let single: Seq<Seq<char>> = if is_cjk(s[0]) {
                seq![seq![s[0]]]
            } else {
                seq![]
            };
            let rest = terms_from(s.drop_first(), seq![]);
            let all = flushed + single + rest;
            assert forall|i: int| 0 <= i < all.len() implies term_shape(#[trigger] all[i]) by {
                if i < flushed.len() {
                    assert(all[i] == cur);
                } else if i < flushed.len() + single.len() {
                    assert(all[i] == seq![s[0]]);
                } else {
                    assert(all[i] == rest[i - flushed.len() - single.len()]);
                }
            }
            assert(terms_from(s, cur) == all);
        }
    }
}

/// Every search term is a single CJK ideograph or a non-empty, lower-cased run
/// of ASCII letters and digits.
pub proof fn law_terms_are_words_or_ideographs(s: Seq<char>)
    ensures
        forall|i: int| 0 <= i < terms(s).len() ==> term_shape(#[trigger] terms(s)[i]),
{
    lemma_terms_from_shape(s, seq![]);
}

proof fn lemma_sentences_from_long(s: Seq<char>, cur: Seq<char>)
    ensures
        forall|i: int|
            0 <= i < sentences_from(s, cur).len() ==> utf8_len(#[trigger] sentences_from(s, cur)[i]) >= 8,
    decreases s.len(),
{
    if s.len() > 0 {
        if is_sentence_break(s[0]) {
            lemma_sentences_from_long(s.drop_first(), seq![]);
            let k = kept_piece(cur);
            let rest = sentences_from(s.drop_first(), seq![]);
            assert(sentences_from(s, cur) == k + rest);
            assert forall|i: int| 0 <= i < (k + rest).len() implies utf8_len(#[trigger] (k + rest)[i]) >= 8 by {
                if i >= k.len() {
                    assert((k + rest)[i] == rest[i - k.len()]);
                }
            }
        } else {
            lemma_sentences_from_long(s.drop_first(), cur.push(s[0]));
            assert(sentences_from(s, cur) == sentences_from(s.drop_first(), cur.push(s[0])));
        }
    }
}

/// Every sentence takes at least 8 bytes.
pub proof fn law_sentences_are_long_enough(content: Seq<char>)
    ensures
        forall|i: int| 0 <= i < sentences(content).len() ==> utf8_len(#[trigger] sentences(content)[i]) >= 8,
{
    lemma_sentences_from_long(content, seq![]);
}

proof fn lemma_drafts_from_bound(ss: Seq<Seq<char>>, i: nat, count: nat)
    requires
        count <= MAX_DRAFTS,
    ensures
        count + drafts_from(ss, i, count).len() <= MAX_DRAFTS,
        forall|k: int|
            0 <= k < drafts_from(ss, i, count).len() ==> i <= (#[trigger] drafts_from(ss, i, count)[k]).index
                < ss.len(),
    decreases ss.len() - i,
{
    if i < ss.len() && count < MAX_DRAFTS {
        lemma_drafts_from_bound(ss, i + 1, count + 1);
        lemma_drafts_from_bound(ss, i + 1, count);
        let d = drafts_from(ss, i, count);
        match classification(lowercase(ss[i as int])) {
            Some((kind, confidence)) => {
                let rest = drafts_from(ss, i + 1, count + 1);
                assert forall|k: int| 0 <= k < d.len() implies i <= (#[trigger] d[k]).index < ss.len() by {
                    if k > 0 {
                        assert(d[k] == rest[k - 1]);
                    }
                }
            },
            None => {},
        }
    }
}

/// A message gives at most 5 memory candidates, each from one of its sentences.
pub proof fn law_drafts_are_few(content: Seq<char>)
    ensures
        drafts(content).len() <= MAX_DRAFTS,
        forall|k: int|
            0 <= k < drafts(content).len() ==> (#[trigger] drafts(content)[k]).index < sentences(content).len(),
{
    lemma_drafts_from_bound(sentences(content), 0, 0);
}

/// Phrases that mark a preference.
pub open spec fn preference_phrase(l: Seq<char>) -> bool {
    contains(l, "喜欢"@) || contains(l, "偏好"@) || contains(l, "prefer"@) || contains(l, "i like"@)
}

/// Phrases that mark a constraint.
pub open spec fn constraint_phrase(l: Seq<char>) -> bool {
    contains(l, "必须"@) || contains(l, "不要"@) || contains(l, "must"@) || contains(l, "don't"@) || contains(
        l,
        "cannot"@,
    )
}

/// Phrases that mark a project.
pub open spec fn project_phrase(l: Seq<char>) -> bool {
    contains(l, "项目"@) || contains(l, "project"@)
}

/// Phrases that mark a task.
pub open spec fn task_phrase(l: Seq<char>) -> bool {
    contains(l, "任务"@) || contains(l, "todo"@) || contains(l, "next step"@)
}

/// Phrases that mark a fact.
pub open spec fn fact_phrase(l: Seq<char>) -> bool {
    contains(l, "我是"@) || contains(l, "i am"@) || contains(l, "我在"@) || contains(l, "we use"@)
}

/// The kind of a lower-cased sentence is that of the first rule whose phrase
/// it holds, in the order preference (85), constraint (83), project (78), task
/// (76), fact (72); a sentence that holds none suggests no memory. In
/// particular any sentence holding "i like" is a preference.
pub proof fn law_classification_by_phrases(l: Seq<char>)
    ensures
        contains(l, "i like"@) ==> classification(l) == Some(("preference"@, 85nat)),
        preference_phrase(l) ==> classification(l) == Some(("preference"@, 85nat)),
        !preference_phrase(l) && constraint_phrase(l) ==> classification(l) == Some(("constraint"@, 83nat)),
        !preference_phrase(l) && !constraint_phrase(l) && project_phrase(l) ==> classification(l) == Some(
            ("project"@, 78nat),
        ),
        !preference_phrase(l) && !constraint_phrase(l) && !project_phrase(l) && task_phrase(l)
            ==> classification(l) == Some(("task"@, 76nat)),
        !preference_phrase(l) && !constraint_phrase(l) && !project_phrase(l) && !task_phrase(l) && fact_phrase(
            l,
        ) ==> classification(l) == Some(("fact"@, 72nat)),
        !preference_phrase(l) && !constraint_phrase(l) && !project_phrase(l) && !task_phrase(l)
            && !fact_phrase(l) ==> classification(l) is None,
{
}

/// A sentence suggests a memory exactly when it holds one of the phrases; so a
/// message with such a sentence of at least 8 bytes gives at least one draft.
pub proof fn law_phrase_gives_draft(content: Seq<char>, i: int)
    requires
        0 <= i < sentences(content).len(),
        i < MAX_DRAFTS,
        ({
            let l = lowercase(sentences(content)[i]);
            preference_phrase(l) || constraint_phrase(l) || project_phrase(l) || task_phrase(l) || fact_phrase(l)
        }),
    ensures
        drafts(content).len() > 0,
{
    let ss = sentences(content);
    lemma_drafts_nonempty(ss, 0, 0, i as nat);
}

proof fn lemma_drafts_nonempty(ss: Seq<Seq<char>>, i: nat, count: nat, j: nat)
    requires
        i <= j < ss.len(),
        count < MAX_DRAFTS,
        classification(lowercase(ss[j as int])) is Some,
    ensures
        drafts_from(ss, i, count).len() > 0,
    decreases j - i,
{
    if classification(lowercase(ss[i as int])) is None {
        lemma_drafts_nonempty(ss, i + 1, count, j);
    }
}

/// Some draft was made from sentence `i`.
pub open spec fn has_draft_at(d: Seq<DraftView>, i: nat) -> bool {
    exists|k: int| 0 <= k < d.len() && (#[trigger] d[k]).index == i
}

/// The draft stands for sentence `d.index` of `ss`: that sentence, its kind and
/// confidence as the rules give them, and its tags.
pub open spec fn faithful_draft(ss: Seq<Seq<char>>, d: DraftView) -> bool {
    &&& d.index < ss.len()
    &&& d.sentence == ss[d.index as int]
    &&& classification(lowercase(d.sentence)) == Some((d.kind, d.confidence))
    &&& d.tags == tags_of(d.sentence)
}

proof fn lemma_drafts_from_faithful(ss: Seq<Seq<char>>, i: nat, count: nat)
    requires
        count <= MAX_DRAFTS,
    ensures
        ({
            let d = drafts_from(ss, i, count);
            &&& forall|k: int| 0 <= k < d.len() ==> faithful_draft(ss, #[trigger] d[k]) && d[k].index >= i
            &&& forall|a: int, b: int| 0 <= a < b < d.len() ==> d[a].index < d[b].index
            &&& forall|j: nat|
                i <= j < ss.len() && classification(lowercase(ss[j as int])) is Some && !has_draft_at(d, j)
                    ==> count + d.len() == MAX_DRAFTS && forall|k: int| 0 <= k < d.len() ==> d[k].index < j
        }),
    decreases ss.len() - i,
{
    let d = drafts_from(ss, i, count);
    if i < ss.len() && count < MAX_DRAFTS {
        match classification(lowercase(ss[i as int])) {
            Some((kind, confidence)) => {
                lemma_drafts_from_faithful(ss, i + 1, count + 1);
                lemma_drafts_from_bound(ss, i + 1, count + 1);
                let rest = drafts_from(ss, i + 1, count + 1);
                let first = DraftView { index: i, sentence: ss[i as int], kind, confidence, tags: tags_of(ss[i as int]) };
                assert(d == seq![first] + rest);
                assert forall|k: int| 0 <= k < d.len() implies faithful_draft(ss, #[trigger] d[k]) && d[k].index
                    >= i by {
                    if k > 0 {
                        assert(d[k] == rest[k - 1]);
                    }
                }
                assert forall|a: int, b: int| 0 <= a < b < d.len() implies d[a].index < d[b].index by {
                    assert(d[b] == rest[b - 1]);
                    if a > 0 {
                        assert(d[a] == rest[a - 1]);
                    }
                }
                assert forall|j: nat|
                    i <= j < ss.len() && classification(lowercase(ss[j as int])) is Some && !has_draft_at(d, j)
                        implies count + d.len() == MAX_DRAFTS && forall|k: int| 0 <= k < d.len() ==> d[k].index < j by {
                    if j == i {
                        assert(d[0].index == i);
                    } else {
                        if has_draft_at(rest, j) {
                            let k = choose|k: int| 0 <= k < rest.len() && (#[trigger] rest[k]).index == j;
                            assert(d[k + 1] == rest[k]);
                        }
                        assert forall|k: int| 0 <= k < d.len() implies d[k].index < j by {
                            if k > 0 {
                                assert(d[k] == rest[k - 1]);
                            }
                        }
                    }
                }
            },
            None => {
                lemma_drafts_from_faithful(ss, i + 1, count);
                let rest = drafts_from(ss, i + 1, count);
                assert(d == rest);
            },
        }
    } else {
        lemma_drafts_from_bound(ss, i, count);
        if count >= MAX_DRAFTS {
            assert(d.len() == 0);
        }
    }
}

/// The drafts of a message stand for its sentences in order, each with the
/// kind, confidence and tags the rules give that sentence; and they are the
/// first 5 such sentences: a sentence that suggests a memory and has no draft
/// comes after 5 drafts.
pub proof fn law_drafts_are_the_first_classified_sentences(content: Seq<char>)
    ensures
        ({
            let ss = sentences(content);
            let d = drafts(content);
            &&& forall|k: int| 0 <= k < d.len() ==> faithful_draft(ss, #[trigger] d[k])
            &&& forall|a: int, b: int| 0 <= a < b < d.len() ==> d[a].index < d[b].index
            &&& forall|j: nat|
                j < ss.len() && classification(lowercase(ss[j as int])) is Some && !has_draft_at(d, j) ==> d.len()
                    == MAX_DRAFTS && forall|k: int| 0 <= k < d.len() ==> d[k].index < j
        }),
{
    lemma_drafts_from_faithful(sentences(content), 0, 0);
}

} // verus!
