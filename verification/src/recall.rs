//! Choosing long-term memories by their tags, and putting recalled memories
//! into the memory layer of a chat prompt.
use vstd::prelude::*;
use vstd::string::*;
use crate::memory::texts_view;
use crate::utils::{error_code_from_text, error_code_of};
use crate::text::{chars_of, string_of_range, trim_bounds, blank, first_line, first_line_of, is_blank, lowercase, owned, same_text, to_lowercase, trim, trimmed};

verus! {

/// A query tag as it is compared: trimmed, then lower-cased.
pub open spec fn normal_tag(t: Seq<char>) -> Seq<char> {
    lowercase(trim(t))
}

/// One of the item's tags, lower-cased, is `w`.
pub open spec fn has_tag(item: Seq<Seq<char>>, w: Seq<char>) -> bool {
    exists|k: int| 0 <= k < item.len() && #[trigger] lowercase(item[k]) == w
}

/// An item carries every wanted tag, compared without case.
pub open spec fn has_all_tags(item: Seq<Seq<char>>, wanted: Seq<Seq<char>>) -> bool {
    forall|j: int| 0 <= j < wanted.len() ==> has_tag(item, normal_tag(#[trigger] wanted[j]))
}

/// The positions of the items kept: those that carry every wanted tag, the
/// first `limit` of them, in order.
pub open spec fn tag_matches(items: Seq<Seq<Seq<char>>>, wanted: Seq<Seq<char>>, limit: nat) -> Seq<int>
    decreases items.len(),
{
    if items.len() == 0 {
        seq![]
    } else {
        let prev = tag_matches(items.drop_last(), wanted, limit);
        if prev.len() < limit && has_all_tags(items.last(), wanted) {
            prev.push(items.len() - 1)
        } else {
            prev
        }
    }
}

pub open spec fn tag_lists_view(items: Seq<Vec<String>>) -> Seq<Seq<Seq<char>>> {
    items.map_values(|v: Vec<String>| texts_view(v@))
}

fn lowered(tags: &Vec<String>) -> (r: Vec<String>)
    ensures
        texts_view(r@) == texts_view(tags@).map_values(|t: Seq<char>| lowercase(t)),
{
    let mut out: Vec<String> = Vec::new();
    let mut i: usize = 0;
    while i < tags.len()
        invariant
            i <= tags.len(),
            texts_view(out@) == texts_view(tags@).take(i as int).map_values(|t: Seq<char>| lowercase(t)),
        decreases tags.len() - i,
    {
        let l = to_lowercase(tags[i].as_str());
        let ghost before = out@;
        out.push(l);
        assert(texts_view(out@) == texts_view(before).push(lowercase(tags@[i as int]@)));
        assert(texts_view(tags@).take(i + 1) == texts_view(tags@).take(i as int).push(tags@[i as int]@));
        assert(texts_view(tags@).take(i + 1).map_values(|t: Seq<char>| lowercase(t)) == texts_view(
            tags@,
        ).take(i as int).map_values(|t: Seq<char>| lowercase(t)).push(lowercase(tags@[i as int]@)));
        i = i + 1;
    }
    assert(texts_view(tags@).take(tags.len() as int) == texts_view(tags@));
    out
}

fn normalized(wanted: &Vec<String>) -> (r: Vec<String>)
    ensures
        texts_view(r@) == texts_view(wanted@).map_values(|t: Seq<char>| normal_tag(t)),
{
    let mut out: Vec<String> = Vec::new();
    let mut i: usize = 0;
    while i < wanted.len()
        invariant
            i <= wanted.len(),
            texts_view(out@) == texts_view(wanted@).take(i as int).map_values(
                |t: Seq<char>| normal_tag(t),
            ),
        decreases wanted.len() - i,
    {
        let t = trimmed(wanted[i].as_str());
        let l = to_lowercase(t.as_str());
        let ghost before = out@;
        out.push(l);
        assert(texts_view(out@) == texts_view(before).push(normal_tag(wanted@[i as int]@)));
        assert(texts_view(wanted@).take(i + 1) == texts_view(wanted@).take(i as int).push(
            wanted@[i as int]@,
        ));
        assert(texts_view(wanted@).take(i + 1).map_values(|t: Seq<char>| normal_tag(t)) == texts_view(
            wanted@,
        ).take(i as int).map_values(|t: Seq<char>| normal_tag(t)).push(normal_tag(wanted@[i as int]@)));
        i = i + 1;
    }
    assert(texts_view(wanted@).take(wanted.len() as int) == texts_view(wanted@));
    out
}

fn has_text(v: &Vec<String>, t: &str) -> (r: bool)
    ensures
        r == exists|k: int| 0 <= k < v@.len() && #[trigger] v@[k]@ == t@,
{
    let mut j: usize = 0;
    while j < v.len()
        invariant
            j <= v.len(),
            forall|k: int| 0 <= k < j ==> #[trigger] v@[k]@ != t@,
        decreases v.len() - j,
    {
        if same_text(v[j].as_str(), t) {
            return true;
        }
        j = j + 1;
    }
    false
}

fn carries_all(item: &Vec<String>, norm: &Vec<String>, Ghost(wanted): Ghost<Seq<Seq<char>>>) -> (r: bool)
    requires
        texts_view(norm@) == wanted.map_values(|t: Seq<char>| normal_tag(t)),
    ensures
        r == has_all_tags(texts_view(item@), wanted),
{
    let low = lowered(item);
    let ghost iv = texts_view(item@);
    assert(texts_view(norm@).len() == norm@.len());
    assert(texts_view(low@).len() == low@.len());
    let mut j: usize = 0;
    while j < norm.len()
        invariant
            j <= norm.len(),
            texts_view(norm@) == wanted.map_values(|t: Seq<char>| normal_tag(t)),
            texts_view(low@) == iv.map_values(|t: Seq<char>| lowercase(t)),
            iv == texts_view(item@),
            norm@.len() == wanted.len(),
            low@.len() == iv.len(),
            forall|a: int| 0 <= a < j ==> has_tag(iv, normal_tag(#[trigger] wanted[a])),
        decreases norm.len() - j,
    {
        assert(texts_view(norm@)[j as int] == norm@[j as int]@);
        assert(norm@[j as int]@ == normal_tag(wanted[j as int]));
        if !has_text(&low, norm[j].as_str()) {
            proof {
                if has_tag(iv, normal_tag(wanted[j as int])) {
                    let k = choose|k: int| 0 <= k < iv.len() && #[trigger] lowercase(iv[k]) == normal_tag(wanted[j as int]);
                    assert(texts_view(low@)[k] == low@[k]@);
                    assert(low@[k]@ == lowercase(iv[k]));
                }
            }
            return false;
        }
        proof {
            let k = choose|k: int| 0 <= k < low@.len() && #[trigger] low@[k]@ == norm@[j as int]@;
            assert(texts_view(low@)[k] == low@[k]@);
            assert(low@[k]@ == lowercase(iv[k]));
            assert(lowercase(iv[k]) == normal_tag(wanted[j as int]));
        }
        j = j + 1;
    }
    true
}

/// The positions of the long-term memories kept when a list is narrowed to the
/// wanted tags: those whose tags include every wanted tag, compared without case
/// and with the wanted tags trimmed, at most `limit` of them, in order.
pub fn select_by_tags(item_tags: &Vec<Vec<String>>, wanted: &Vec<String>, limit: usize) -> (r: Vec<usize>)
    ensures
        r@.map_values(|x: usize| x as int) == tag_matches(
            tag_lists_view(item_tags@),
            texts_view(wanted@),
            limit as nat,
        ),
{
    let norm = normalized(wanted);
    let ghost items = tag_lists_view(item_tags@);
    let ghost wv = texts_view(wanted@);
    let mut out: Vec<usize> = Vec::new();
    let mut i: usize = 0;
    assert(items.take(0) == Seq::<Seq<Seq<char>>>::empty());
    assert(out@.map_values(|x: usize| x as int) == Seq::<int>::empty());
    while i < item_tags.len()
        invariant
            i <= item_tags.len(),
            items == tag_lists_view(item_tags@),
            wv == texts_view(wanted@),
            texts_view(norm@) == wv.map_values(|t: Seq<char>| normal_tag(t)),
            out@.map_values(|x: usize| x as int) == tag_matches(items.take(i as int), wv, limit as nat),
        decreases item_tags.len() - i,
    {
        let ghost t = items.take(i + 1);
        assert(t.drop_last() == items.take(i as int));
        assert(t.last() == texts_view(item_tags@[i as int]@));
        let ghost before = out@;
        if out.len() < limit && carries_all(&item_tags[i], &norm, Ghost(wv)) {
            out.push(i);
            assert(out@.map_values(|x: usize| x as int) == before.map_values(|x: usize| x as int).push(
                i as int,
            ));
        }
        i = i + 1;
    }
    assert(items.take(item_tags.len() as int) == items);
    out
}

/// How many recalled memories a chat prompt is given.
pub const MEMORY_INJECTION_TOP_N: usize = 3;

/// The line that stands for a recalled memory: its summary, or, when that is
/// blank, the first line of its Markdown.
pub open spec fn recalled_summary(summary: Seq<char>, markdown: Seq<char>) -> Seq<char> {
    if is_blank(summary) {
        first_line(markdown)
    } else {
        summary
    }
}

pub fn injection_summary(summary: &str, markdown: &str) -> (r: String)
    ensures
        r@ == recalled_summary(summary@, markdown@),
{
    if blank(summary) {
        first_line_of(markdown)
    } else {
        owned(summary)
    }
}

/// `- [<id>] <summary>` for each recalled memory, one per line.
pub open spec fn reference_lines(refs: Seq<(Seq<char>, Seq<char>)>) -> Seq<char>
    decreases refs.len(),
{
    if refs.len() == 0 {
        seq![]
    } else if refs.len() == 1 {
        "- ["@ + refs[0].0 + "] "@ + refs[0].1
    } else {
        reference_lines(refs.drop_last()) + "\n"@ + "- ["@ + refs.last().0 + "] "@ + refs.last().1
    }
}

/// The block that brings recalled memories into a prompt.
pub open spec fn memory_block(refs: Seq<(Seq<char>, Seq<char>)>) -> Seq<char> {
    "Injected memory context (top 3):\n"@ + reference_lines(refs)
}

/// The memory layer of a prompt once memories are recalled into it: unchanged
/// when none is; otherwise the layer trimmed, when it is not blank, and the block
/// of recalled memories, parted by a blank line.
pub open spec fn injected_layer(existing: Seq<char>, refs: Seq<(Seq<char>, Seq<char>)>) -> Seq<char> {
    if refs.len() == 0 {
        existing
    } else if is_blank(existing) {
        memory_block(refs)
    } else {
        trim(existing) + "\n\n"@ + memory_block(refs)
    }
}

pub open spec fn refs_view(refs: Seq<(String, String)>) -> Seq<(Seq<char>, Seq<char>)> {
    refs.map_values(|p: (String, String)| (p.0@, p.1@))
}

/// Puts recalled memories, as pairs of id and summary, into the memory layer of a prompt.
pub fn inject_memory(existing: &str, refs: &Vec<(String, String)>) -> (r: String)
    ensures
        r@ == injected_layer(existing@, refs_view(refs@)),
{
    let ghost rv = refs_view(refs@);
    if refs.len() == 0 {
        return owned(existing);
    }
    let mut lines = String::new();
    let mut i: usize = 0;
    while i < refs.len()
        invariant
            0 < refs.len(),
            i <= refs.len(),
            rv == refs_view(refs@),
            lines@ == reference_lines(rv.take(i as int)),
        decreases refs.len() - i,
    {
        proof {
            let t = rv.take(i + 1);
            assert(t.drop_last() == rv.take(i as int));
            assert(t.last() == (refs@[i as int].0@, refs@[i as int].1@));
            if i == 0 {
                assert(t.len() == 1);
                assert(t[0] == t.last());
                assert(rv.take(0).len() == 0);
            }
        }
        if i > 0 {
            lines.append("\n");
        }
        lines.append("- [");
        lines.append(refs[i].0.as_str());
        lines.append("] ");
        lines.append(refs[i].1.as_str());
        i = i + 1;
    }
    assert(rv.take(refs.len() as int) == rv);
    let mut block = owned("Injected memory context (top 3):\n");
    block.append(lines.as_str());
    if blank(existing) {
        block
    } else {
        let mut r = trimmed(existing);
        r.append("\n\n");
        r.append(block.as_str());
        r
    }
}

/// The tags of a comma-separated list when `cur` is the part of the current
/// piece read before `s`: each piece between commas, trimmed, unless empty.
pub open spec fn csv_tags_from(s: Seq<char>, cur: Seq<char>) -> Seq<Seq<char>>
    decreases s.len(),
{
    let last: Seq<Seq<char>> = if trim(cur).len() > 0 {
        seq![trim(cur)]
    } else {
        seq![]
    };
    if s.len() == 0 {
        last
    } else if s[0] == ',' {
        last + csv_tags_from(s.drop_first(), seq![])
    } else {
        csv_tags_from(s.drop_first(), cur.push(s[0]))
    }
}

/// The tags a comma-separated list names: the pieces between commas, trimmed,
/// without the empty ones.
pub open spec fn csv_tags(s: Seq<char>) -> Seq<Seq<char>> {
    csv_tags_from(s, seq![])
}

fn push_trimmed_piece(out: &mut Vec<String>, v: &Vec<char>, lo: usize, hi: usize)
    requires
        lo <= hi <= v.len(),
    ensures
        texts_view(final(out)@) == texts_view(old(out)@) + (if trim(v@.subrange(lo as int, hi as int)).len() > 0 {
            seq![trim(v@.subrange(lo as int, hi as int))]
        } else {
            Seq::<Seq<char>>::empty()
        }),
{
    let ghost before = texts_view(out@);
    let (a, b) = trim_bounds(v, lo, hi);
    if a < b {
        let t = string_of_range(v, a, b);
        out.push(t);
    }
    assert(texts_view(out@) == before + (if trim(v@.subrange(lo as int, hi as int)).len() > 0 {
        seq![trim(v@.subrange(lo as int, hi as int))]
    } else {
        Seq::<Seq<char>>::empty()
    }));
}

/// Reads the tags of a comma-separated list.
pub fn parse_tags_csv(csv: &str) -> (r: Vec<String>)
    ensures
        texts_view(r@) == csv_tags(csv@),
{
    let v = chars_of(csv);
    let mut out: Vec<String> = Vec::new();
    let mut start: usize = 0;
    let mut i: usize = 0;
    assert(v@.skip(0) == v@);
    assert(v@.subrange(0, 0) == Seq::<char>::empty());
    assert(texts_view(out@) == Seq::<Seq<char>>::empty());
    while i < v.len()
        invariant
            start <= i <= v.len(),
            v@ == csv@,
            texts_view(out@) + csv_tags_from(v@.skip(i as int), v@.subrange(start as int, i as int)) == csv_tags(
                csv@,
            ),
        decreases v.len() - i,
    {
        let ghost rest = v@.skip(i as int);
        assert(rest[0] == v@[i as int]);
        assert(rest.drop_first() == v@.skip(i + 1));
        if v[i] == ',' {
            push_trimmed_piece(&mut out, &v, start, i);
            assert(v@.subrange(i + 1, i + 1) == Seq::<char>::empty());
            start = i + 1;
        } else {
            assert(v@.subrange(start as int, i as int).push(v@[i as int]) == v@.subrange(start as int, i + 1));
        }
        i = i + 1;
    }
    push_trimmed_piece(&mut out, &v, start, v.len());
    assert(v@.skip(v.len() as int) == Seq::<char>::empty());
    out
}

proof fn lemma_tag_matches_bounds(items: Seq<Seq<Seq<char>>>, wanted: Seq<Seq<char>>, limit: nat)
    ensures
        tag_matches(items, wanted, limit).len() <= limit,
        forall|k: int|
            0 <= k < tag_matches(items, wanted, limit).len() ==> 0 <= #[trigger] tag_matches(items, wanted, limit)[k]
                < items.len() && has_all_tags(items[tag_matches(items, wanted, limit)[k]], wanted),
        forall|a: int, b: int|
            0 <= a < b < tag_matches(items, wanted, limit).len() ==> tag_matches(items, wanted, limit)[a]
                < tag_matches(items, wanted, limit)[b],
    decreases items.len(),
{
    if items.len() > 0 {
        let prev = tag_matches(items.drop_last(), wanted, limit);
        lemma_tag_matches_bounds(items.drop_last(), wanted, limit);
        assert forall|k: int| 0 <= k < prev.len() implies items[prev[k]] == items.drop_last()[prev[k]] by {}
    }
}

/// Narrowing by tags keeps at most `limit` items, each carrying every wanted
/// tag, in their order.
pub proof fn law_tag_selection_is_bounded(items: Seq<Seq<Seq<char>>>, wanted: Seq<Seq<char>>, limit: nat)
    ensures
        tag_matches(items, wanted, limit).len() <= limit,
        forall|k: int|
            0 <= k < tag_matches(items, wanted, limit).len() ==> 0 <= #[trigger] tag_matches(items, wanted, limit)[k]
                < items.len() && has_all_tags(items[tag_matches(items, wanted, limit)[k]], wanted),
        forall|a: int, b: int|
            0 <= a < b < tag_matches(items, wanted, limit).len() ==> tag_matches(items, wanted, limit)[a]
                < tag_matches(items, wanted, limit)[b],
{
    lemma_tag_matches_bounds(items, wanted, limit);
}

/// A hit of the memory search, as read back: its memory id, and the summary and
/// Markdown of its document, or the text of the error reading it gave.
pub type HitRead = (String, Result<(String, String), String>);

pub open spec fn hit_view(h: HitRead) -> (Seq<char>, Result<(Seq<char>, Seq<char>), Seq<char>>) {
    (
        h.0@,
        match h.1 {
            Ok((s, m)) => Ok((s@, m@)),
            Err(e) => Err(e@),
        },
    )
}

pub open spec fn hits_view(hs: Seq<HitRead>) -> Seq<(Seq<char>, Result<(Seq<char>, Seq<char>), Seq<char>>)> {
    hs.map_values(|h: HitRead| hit_view(h))
}

/// The hits recalled memories are taken from: the first three.
pub open spec fn top_hits<A>(hs: Seq<A>) -> Seq<A> {
    if hs.len() <= MEMORY_INJECTION_TOP_N {
        hs
    } else {
        hs.take(MEMORY_INJECTION_TOP_N as int)
    }
}

/// The memories recalled from hits whose documents could be read: id and the
/// line that stands for each.
pub open spec fn read_items(hs: Seq<(Seq<char>, Result<(Seq<char>, Seq<char>), Seq<char>>)>) -> Seq<
    (Seq<char>, Seq<char>),
>
    decreases hs.len(),
{
    if hs.len() == 0 {
        seq![]
    } else {
        read_items(hs.drop_last()) + match hs.last().1 {
            Ok((s, m)) => seq![(hs.last().0, recalled_summary(s, m))],
            Err(_) => seq![],
        }
    }
}

/// The positions of the hits whose documents could be read.
pub open spec fn read_positions(hs: Seq<(Seq<char>, Result<(Seq<char>, Seq<char>), Seq<char>>)>) -> Seq<int>
    decreases hs.len(),
{
    if hs.len() == 0 {
        seq![]
    } else {
        read_positions(hs.drop_last()) + match hs.last().1 {
            Ok(_) => seq![hs.len() - 1],
            Err(_) => seq![],
        }
    }
}

/// The first error met reading the documents, if any.
pub open spec fn first_read_error(hs: Seq<(Seq<char>, Result<(Seq<char>, Seq<char>), Seq<char>>)>) -> Option<
    Seq<char>,
>
    decreases hs.len(),
{
    if hs.len() == 0 {
        None
    } else {
        match first_read_error(hs.drop_last()) {
            Some(e) => Some(e),
            None => match hs.last().1 {
                Err(e) => Some(e),
                Ok(_) => None,
            },
        }
    }
}

/// What recalling memories for a prompt came to.
pub struct RecallReport {
    /// The memories recalled, as id and summary, in the order of the hits.
    pub items: Vec<(String, String)>,
    /// The position among the hits of each recalled memory.
    pub read: Vec<usize>,
    /// The code and the text of the error recalling met, if it recalled nothing.
    pub error_code: Option<String>,
    pub error_message: Option<String>,
    /// The memory layer of the prompt, with the recalled memories put in.
    pub memory: String,
}

/// What recalling memories comes to, given the memory layer of the prompt and
/// the outcome of the search (its hits, each read back, or the error's text):
/// a failed search recalls nothing and reports its error; otherwise the first
/// three hits are taken, those whose documents were read are recalled, and when
/// none was, the first error reading them is reported. Recalled memories are put
/// into the memory layer; with none, the layer is left as it was.
pub open spec fn recall_report_spec(
    existing: Seq<char>,
    lookup: Result<Seq<(Seq<char>, Result<(Seq<char>, Seq<char>), Seq<char>>)>, Seq<char>>,
) -> (Seq<(Seq<char>, Seq<char>)>, Seq<int>, Option<(Seq<char>, Seq<char>)>, Seq<char>) {
    match lookup {
        Err(m) => (seq![], seq![], Some((error_code_of(m, "INTERNAL_ERROR"@), m)), existing),
        Ok(hits) => {
            let h = top_hits(hits);
            let items = read_items(h);
            if items.len() == 0 {
                (
                    items,
                    read_positions(h),
                    match first_read_error(h) {
                        Some(e) => Some((error_code_of(e, "INTERNAL_ERROR"@), e)),
                        None => None,
                    },
                    existing,
                )
            } else {
                (items, read_positions(h), None, injected_layer(existing, items))
            }
        },
    }
}

pub open spec fn report_view(r: RecallReport) -> (Seq<(Seq<char>, Seq<char>)>, Seq<int>, Option<(Seq<char>, Seq<char>)>, Seq<char>) {
    (
        refs_view(r.items@),
        r.read@.map_values(|x: usize| x as int),
        match (r.error_code, r.error_message) {
            (Some(c), Some(m)) => Some((c@, m@)),
            _ => None,
        },
        r.memory@,
    )
}

proof fn lemma_read_items_len(hs: Seq<(Seq<char>, Result<(Seq<char>, Seq<char>), Seq<char>>)>)
    ensures
        read_items(hs).len() == read_positions(hs).len(),
        read_items(hs).len() == 0 <==> forall|k: int| 0 <= k < hs.len() ==> hs[k].1 is Err,
        (forall|k: int| 0 <= k < hs.len() ==> hs[k].1 is Err) && hs.len() > 0 ==> first_read_error(hs) is Some,
    decreases hs.len(),
{
    if hs.len() > 0 {
        lemma_read_items_len(hs.drop_last());
        assert forall|k: int| 0 <= k < hs.len() - 1 implies hs.drop_last()[k] == hs[k] by {}
        if hs.len() > 1 {
            assert(hs.drop_last().len() > 0);
        }
    }
}

/// Reads the outcome of the memory search for a prompt into a report and the
/// new memory layer.
pub fn recall_report(existing: &str, lookup: Result<Vec<HitRead>, String>) -> (r: RecallReport)
    ensures
        report_view(r) == recall_report_spec(
            existing@,
            match lookup {
                Ok(hs) => Ok(hits_view(hs@)),
                Err(m) => Err(m@),
            },
        ),
        (r.error_code is Some) == (r.error_message is Some),
{
    let hits = match lookup {
        Err(m) => {
            let code = error_code_from_text(m.as_str(), "INTERNAL_ERROR");
            let r = RecallReport {
                items: Vec::new(),
                read: Vec::new(),
                error_code: Some(code),
                error_message: Some(m),
                memory: owned(existing),
            };
            assert(refs_view(r.items@) == Seq::<(Seq<char>, Seq<char>)>::empty());
            assert(r.read@.map_values(|x: usize| x as int) == Seq::<int>::empty());
            return r;
        },
        Ok(hs) => hs,
    };
    let ghost hv = hits_view(hits@);
    let n: usize = if hits.len() < MEMORY_INJECTION_TOP_N {
        hits.len()
    } else {
        MEMORY_INJECTION_TOP_N
    };
    let ghost h = top_hits(hv);
    assert(h == hv.take(n as int));
    let mut items: Vec<(String, String)> = Vec::new();
    let mut read: Vec<usize> = Vec::new();
    let mut first_error: Option<String> = None;
    let mut i: usize = 0;
    assert(hv.take(0) == Seq::<(Seq<char>, Result<(Seq<char>, Seq<char>), Seq<char>>)>::empty());
    assert(refs_view(items@) == Seq::<(Seq<char>, Seq<char>)>::empty());
    assert(read@.map_values(|x: usize| x as int) == Seq::<int>::empty());
    while i < n
        invariant
            i <= n <= hits.len(),
            hv == hits_view(hits@),
            refs_view(items@) == read_items(hv.take(i as int)),
            read@.map_values(|x: usize| x as int) == read_positions(hv.take(i as int)),
            match first_error {
                Some(e) => first_read_error(hv.take(i as int)) == Some(e@),
                None => first_read_error(hv.take(i as int)) is None,
            },
        decreases n - i,
    {
        let ghost t = hv.take(i + 1);
        assert(t.drop_last() == hv.take(i as int));
        assert(t.last() == hit_view(hits@[i as int]));
        let ghost before_items = items@;
        let ghost before_read = read@;
        match &hits[i].1 {
            Ok((summary, markdown)) => {
                let line = injection_summary(summary.as_str(), markdown.as_str());
                items.push((hits[i].0.clone(), line));
                read.push(i);
                assert(refs_view(items@) == refs_view(before_items).push((hits@[i as int].0@, recalled_summary(summary@, markdown@))));
                assert(read@.map_values(|x: usize| x as int) == before_read.map_values(|x: usize| x as int).push(i as int));
            },
            Err(e) => {
                if first_error.is_none() {
                    first_error = Some(e.clone());
                }
            },
        }
        i = i + 1;
    }
    proof {
        lemma_read_items_len(h);
    }
    if items.len() == 0 {
        let (error_code, error_message) = match first_error {
            Some(e) => (Some(error_code_from_text(e.as_str(), "INTERNAL_ERROR")), Some(e)),
            None => (None, None),
        };
        RecallReport { items, read, error_code, error_message, memory: owned(existing) }
    } else {
        let memory = inject_memory(existing, &items);
        RecallReport { items, read, error_code: None, error_message: None, memory }
    }
}

proof fn lemma_tag_matches_complete(items: Seq<Seq<Seq<char>>>, wanted: Seq<Seq<char>>, limit: nat, i: int)
    requires
        0 <= i < items.len(),
        has_all_tags(items[i], wanted),
        !tag_matches(items, wanted, limit).contains(i),
    ensures
        tag_matches(items, wanted, limit).len() == limit,
        forall|k: int|
            0 <= k < tag_matches(items, wanted, limit).len() ==> tag_matches(items, wanted, limit)[k] < i,
    decreases items.len(),
{
    let kept = tag_matches(items, wanted, limit);
    let prev = tag_matches(items.drop_last(), wanted, limit);
    lemma_tag_matches_bounds(items.drop_last(), wanted, limit);
    lemma_tag_matches_bounds(items, wanted, limit);
    if i < items.len() - 1 {
        assert(items.drop_last()[i] == items[i]);
        if prev.contains(i) {
            let k = choose|k: int| 0 <= k < prev.len() && prev[k] == i;
            assert(kept[k] == i);
        }
        lemma_tag_matches_complete(items.drop_last(), wanted, limit, i);
        assert(kept == prev);
    } else {
        if prev.len() < limit {
            assert(kept == prev.push(i));
            assert(kept[prev.len() as int] == i);
        }
        assert(kept == prev);
    }
}

/// Narrowing by tags keeps the first `limit` of the items that carry every
/// wanted tag: an item that carries them all and is left out comes after
/// `limit` kept items; so with fewer than `limit` kept, every such item is kept.
pub proof fn law_tag_selection_is_complete(items: Seq<Seq<Seq<char>>>, wanted: Seq<Seq<char>>, limit: nat)
    ensures
        forall|i: int|
            0 <= i < items.len() && has_all_tags(items[i], wanted) && !tag_matches(items, wanted, limit).contains(
                i,
            ) ==> tag_matches(items, wanted, limit).len() == limit && forall|k: int|
                0 <= k < tag_matches(items, wanted, limit).len() ==> tag_matches(items, wanted, limit)[k] < i,
        tag_matches(items, wanted, limit).len() < limit ==> forall|i: int|
            0 <= i < items.len() && has_all_tags(items[i], wanted) ==> tag_matches(items, wanted, limit).contains(i),
{
    assert forall|i: int|
        0 <= i < items.len() && has_all_tags(items[i], wanted) && !tag_matches(items, wanted, limit).contains(
            i,
        ) implies tag_matches(items, wanted, limit).len() == limit && forall|k: int|
        0 <= k < tag_matches(items, wanted, limit).len() ==> tag_matches(items, wanted, limit)[k] < i by {
        lemma_tag_matches_complete(items, wanted, limit, i);
    }
}

/// Carrying wanted tags is carrying each of them: no wanted tag is carried
/// trivially, wanting two lists is wanting each, an item with more tags still
/// carries them, and one wanted tag is carried when one of the item's tags,
/// lower-cased, is that tag trimmed and lower-cased.
pub proof fn law_carrying_tags(item: Seq<Seq<char>>, more: Seq<Seq<char>>, w1: Seq<Seq<char>>, w2: Seq<Seq<char>>, w: Seq<char>)
    ensures
        has_all_tags(item, seq![]),
        has_all_tags(item, w1 + w2) <==> has_all_tags(item, w1) && has_all_tags(item, w2),
        has_all_tags(item, w1) ==> has_all_tags(item + more, w1),
        has_all_tags(item, seq![w]) <==> exists|k: int| 0 <= k < item.len() && lowercase(item[k]) == lowercase(trim(w)),
{
    let w12 = w1 + w2;
    if has_all_tags(item, w1) && has_all_tags(item, w2) {
        assert forall|j: int| 0 <= j < w12.len() implies has_tag(item, normal_tag(#[trigger] w12[j])) by {
            if j < w1.len() {
                assert(w12[j] == w1[j]);
            } else {
                assert(w12[j] == w2[j - w1.len()]);
            }
        }
    }
    if has_all_tags(item, w12) {
        assert forall|j: int| 0 <= j < w1.len() implies has_tag(item, normal_tag(#[trigger] w1[j])) by {
            assert(w12[j] == w1[j]);
        }
        assert forall|j: int| 0 <= j < w2.len() implies has_tag(item, normal_tag(#[trigger] w2[j])) by {
            assert(w12[j + w1.len()] == w2[j]);
        }
    }
    if has_all_tags(item, w1) {
        let big = item + more;
        assert forall|j: int| 0 <= j < w1.len() implies has_tag(big, normal_tag(#[trigger] w1[j])) by {
            assert(has_tag(item, normal_tag(w1[j])));
            let k = choose|k: int| 0 <= k < item.len() && #[trigger] lowercase(item[k]) == normal_tag(w1[j]);
            assert(big[k] == item[k]);
        }
    }
    let one = seq![w];
    assert(one[0] == w);
    if has_all_tags(item, one) {
        assert(has_tag(item, normal_tag(one[0])));
    }
}

} // verus!
