//! The search index of long-term memories: which terms a memory is found by,
//! in which of its fields, how often, and with what weight.
use vstd::prelude::*;
use crate::extraction::{law_terms_are_words_or_ideographs, term_shape, terms, tokenize};
use crate::memory::{texts_view, CandidateSnapshot};
use crate::text::same_text;

verus! {

/// The field of a memory a term was read from.
#[derive(Clone, Copy, Debug, PartialEq, Eq, Structural)]
pub enum IndexField {
    Summary,
    Tags,
    Type,
    Evidence,
}

impl IndexField {
    pub open spec fn name(self) -> Seq<char> {
        match self {
            IndexField::Summary => "summary"@,
            IndexField::Tags => "tags"@,
            IndexField::Type => "type"@,
            IndexField::Evidence => "evidence"@,
        }
    }

    /// The weight of a term found in this field, in tenths.
    pub open spec fn weight(self) -> nat {
        match self {
            IndexField::Summary => 13,
            IndexField::Tags => 15,
            IndexField::Type => 10,
            IndexField::Evidence => 8,
        }
    }

    /// The name the index stores for the field.
    pub fn as_str(&self) -> (r: &'static str)
        ensures
            r@ == self.name(),
    {
        match self {
            IndexField::Summary => "summary",
            IndexField::Tags => "tags",
            IndexField::Type => "type",
            IndexField::Evidence => "evidence",
        }
    }

    pub fn weight_tenths(&self) -> (r: u32)
        ensures
            r as nat == self.weight(),
    {
        match self {
            IndexField::Summary => 13,
            IndexField::Tags => 15,
            IndexField::Type => 10,
            IndexField::Evidence => 8,
        }
    }
}

/// The terms `ts`, each paired with the field `f` they were read from.
pub open spec fn in_field(ts: Seq<Seq<char>>, f: IndexField) -> Seq<(Seq<char>, IndexField)> {
    ts.map_values(|t: Seq<char>| (t, f))
}

/// The terms of every tag, one tag after the other.
pub open spec fn tag_terms(tags: Seq<Seq<char>>) -> Seq<Seq<char>>
    decreases tags.len(),
{
    if tags.len() == 0 {
        seq![]
    } else {
        tag_terms(tags.drop_last()) + terms(tags.last())
    }
}

/// Every term of a memory with its field, in the order they are read: the
/// summary, the tags, the type, then the evidence when there is one.
pub open spec fn term_occurrences(
    summary: Seq<char>,
    tags: Seq<Seq<char>>,
    kind: Seq<char>,
    evidence: Option<Seq<char>>,
) -> Seq<(Seq<char>, IndexField)> {
    in_field(terms(summary), IndexField::Summary) + in_field(tag_terms(tags), IndexField::Tags)
        + in_field(terms(kind), IndexField::Type) + match evidence {
        Some(e) => in_field(terms(e), IndexField::Evidence),
        None => seq![],
    }
}

/// The distinct elements of `ps`, in the order they first occur.
pub open spec fn distinct_keys<K>(ps: Seq<K>) -> Seq<K>
    decreases ps.len(),
{
    if ps.len() == 0 {
        seq![]
    } else {
        let k = distinct_keys(ps.drop_last());
        if k.contains(ps.last()) {
            k
        } else {
            k.push(ps.last())
        }
    }
}

/// How many times `k` occurs in `ps`.
pub open spec fn occurrences<K>(ps: Seq<K>, k: K) -> nat
    decreases ps.len(),
{
    if ps.len() == 0 {
        0
    } else {
        occurrences(ps.drop_last(), k) + if ps.last() == k {
            1nat
        } else {
            0nat
        }
    }
}

pub proof fn lemma_distinct_keys_contains<K>(ps: Seq<K>, k: K)
    ensures
        distinct_keys(ps).contains(k) == ps.contains(k),
    decreases ps.len(),
{
    if ps.len() > 0 {
        lemma_distinct_keys_contains(ps.drop_last(), k);
        if ps.contains(k) {
            let i = choose|i: int| 0 <= i < ps.len() && ps[i] == k;
            if i < ps.len() - 1 {
                assert(ps.drop_last()[i] == k);
            }
        }
        if ps.drop_last().contains(k) {
            let i = choose|i: int| 0 <= i < ps.drop_last().len() && ps.drop_last()[i] == k;
            assert(ps[i] == k);
        }
        let d = distinct_keys(ps.drop_last());
        if !d.contains(ps.last()) {
            assert(d.push(ps.last())[d.len() as int] == ps.last());
            if d.push(ps.last()).contains(k) && k != ps.last() {
                let i = choose|i: int| 0 <= i < d.push(ps.last()).len() && d.push(ps.last())[i] == k;
                assert(d[i] == k);
            }
            if d.contains(k) {
                let i = choose|i: int| 0 <= i < d.len() && d[i] == k;
                assert(d.push(ps.last())[i] == k);
            }
        }
    }
}

pub proof fn lemma_occurrences_absent<K>(ps: Seq<K>, k: K)
    requires
        !ps.contains(k),
    ensures
        occurrences(ps, k) == 0,
    decreases ps.len(),
{
    if ps.len() > 0 {
        assert(ps[ps.len() - 1] == ps.last());
        if ps.drop_last().contains(k) {
            let i = choose|i: int| 0 <= i < ps.drop_last().len() && ps.drop_last()[i] == k;
            assert(ps[i] == k);
        }
        lemma_occurrences_absent(ps.drop_last(), k);
    }
}

pub proof fn lemma_occurrences_bound<K>(ps: Seq<K>, k: K)
    ensures
        occurrences(ps, k) <= ps.len(),
    decreases ps.len(),
{
    if ps.len() > 0 {
        lemma_occurrences_bound(ps.drop_last(), k);
    }
}

pub proof fn lemma_distinct_keys_unique<K>(ps: Seq<K>)
    ensures
        distinct_keys(ps).no_duplicates(),
    decreases ps.len(),
{
    if ps.len() > 0 {
        lemma_distinct_keys_unique(ps.drop_last());
        let d = distinct_keys(ps.drop_last());
        if !d.contains(ps.last()) {
            let e = d.push(ps.last());
            assert forall|i: int, j: int| 0 <= i < e.len() && 0 <= j < e.len() && i != j implies e[i]
                != e[j] by {
                if i < d.len() && j < d.len() {
                    assert(e[i] == d[i] && e[j] == d[j]);
                } else if i == d.len() {
                    assert(e[j] == d[j]);
                } else {
                    assert(e[i] == d[i]);
                }
            }
        }
    }
}

/// What the index keeps of one term of a memory: the term, its field, how many
/// times it occurs there, and the field's weight in tenths.
pub struct TermStat {
    pub term: String,
    pub field: IndexField,
    pub tf: usize,
    pub weight_tenths: u32,
}

pub open spec fn occ_view(v: Seq<(String, IndexField)>) -> Seq<(Seq<char>, IndexField)> {
    v.map_values(|p: (String, IndexField)| (p.0@, p.1))
}

pub open spec fn stat_keys(v: Seq<TermStat>) -> Seq<(Seq<char>, IndexField)> {
    v.map_values(|s: TermStat| (s.term@, s.field))
}

fn push_terms(occ: &mut Vec<(String, IndexField)>, text: &str, f: IndexField)
    ensures
        occ_view(final(occ)@) == occ_view(old(occ)@) + in_field(terms(text@), f),
{
    let ts = tokenize(text);
    let ghost tv = ts@.map_values(|t: String| t@);
    let ghost base = occ_view(occ@);
    let mut i: usize = 0;
    while i < ts.len()
        invariant
            i <= ts.len(),
            tv == ts@.map_values(|t: String| t@),
            tv == terms(text@),
            occ_view(occ@) == base + in_field(tv.take(i as int), f),
        decreases ts.len() - i,
    {
        let ghost before = occ@;
        occ.push((ts[i].clone(), f));
        assert(occ_view(occ@) == occ_view(before).push((tv[i as int], f)));
        assert(in_field(tv.take(i + 1), f) == in_field(tv.take(i as int), f).push((tv[i as int], f)));
        i = i + 1;
    }
    assert(tv.take(ts.len() as int) == tv);
}

/// Every term of a memory with the field it was read from.
fn occurrences_of(c: &CandidateSnapshot) -> (r: Vec<(String, IndexField)>)
    ensures
        occ_view(r@) == term_occurrences(
            c.summary@,
            texts_view(c.tags@),
            c.candidate_type@,
            match c.evidence {
                Some(e) => Some(e@),
                None => None,
            },
        ),
{
    let mut occ: Vec<(String, IndexField)> = Vec::new();
    assert(occ_view(occ@) == Seq::<(Seq<char>, IndexField)>::empty());
    push_terms(&mut occ, c.summary.as_str(), IndexField::Summary);
    let ghost base = occ_view(occ@);
    let ghost tags = texts_view(c.tags@);
    let mut j: usize = 0;
    while j < c.tags.len()
        invariant
            j <= c.tags.len(),
            tags == texts_view(c.tags@),
            occ_view(occ@) == base + in_field(tag_terms(tags.take(j as int)), IndexField::Tags),
        decreases c.tags.len() - j,
    {
        let ghost before = occ_view(occ@);
        push_terms(&mut occ, c.tags[j].as_str(), IndexField::Tags);
        proof {
            let t = tags.take(j + 1);
            assert(t.drop_last() == tags.take(j as int));
            assert(t.last() == c.tags@[j as int]@);
            assert(in_field(tag_terms(t), IndexField::Tags) == in_field(
                tag_terms(tags.take(j as int)),
                IndexField::Tags,
            ) + in_field(terms(t.last()), IndexField::Tags));
        }
        j = j + 1;
    }
    assert(tags.take(c.tags.len() as int) == tags);
    push_terms(&mut occ, c.candidate_type.as_str(), IndexField::Type);
    match &c.evidence {
        Some(e) => push_terms(&mut occ, e.as_str(), IndexField::Evidence),
        None => {},
    }
    occ
}

/// The index entries of a memory: one for each distinct term and field, in the
/// order they first occur, with how often the term occurs in that field and
/// the field's weight.
pub fn term_stats(c: &CandidateSnapshot) -> (r: Vec<TermStat>)
    ensures
        ({
            let occ = term_occurrences(
                c.summary@,
                texts_view(c.tags@),
                c.candidate_type@,
                match c.evidence {
                    Some(e) => Some(e@),
                    None => None,
                },
            );
            &&& stat_keys(r@) == distinct_keys(occ)
            &&& forall|i: int|
                0 <= i < r@.len() ==> #[trigger] r@[i].tf == occurrences(
                    occ,
                    (r@[i].term@, r@[i].field),
                )
            &&& forall|i: int|
                0 <= i < r@.len() ==> #[trigger] r@[i].weight_tenths == r@[i].field.weight()
        }),
{
    let occ = occurrences_of(c);
    let ghost ov = occ_view(occ@);
    let mut stats: Vec<TermStat> = Vec::new();
    let mut i: usize = 0;
    assert(ov.take(0) == Seq::<(Seq<char>, IndexField)>::empty());
    assert(stat_keys(stats@) == Seq::<(Seq<char>, IndexField)>::empty());
    while i < occ.len()
        invariant
            i <= occ.len(),
            ov == occ_view(occ@),
            stat_keys(stats@) == distinct_keys(ov.take(i as int)),
            forall|k: int|
                0 <= k < stats@.len() ==> #[trigger] stats@[k].tf == occurrences(
                    ov.take(i as int),
                    (stats@[k].term@, stats@[k].field),
                ),
            forall|k: int|
                0 <= k < stats@.len() ==> #[trigger] stats@[k].weight_tenths == stats@[k].field.weight(),
        decreases occ.len() - i,
    {
        let ghost pre = ov.take(i as int);
        let ghost next = ov.take(i + 1);
        let ghost key = ov[i as int];
        assert(next.drop_last() == pre);
        assert(next.last() == key);
        assert(key == (occ@[i as int].0@, occ@[i as int].1));
        let ghost keys = stat_keys(stats@);
        let mut j: usize = 0;
        let mut found = false;
        while !found && j < stats.len()
            invariant
                j <= stats.len(),
                i < occ.len(),
                keys == stat_keys(stats@),
                key == (occ@[i as int].0@, occ@[i as int].1),
                found ==> j < stats.len() && keys[j as int] == key,
                !found ==> forall|k: int| 0 <= k < j ==> keys[k] != key,
            decreases stats.len() - j + if found { 0int } else { 1int },
        {
            if stats[j].field == occ[i].1 && same_text(stats[j].term.as_str(), occ[i].0.as_str()) {
                found = true;
            } else {
                j = j + 1;
            }
        }
        proof {
            lemma_occurrences_bound(pre, key);
        }
        if found {
            assert(keys[j as int] == key);
            assert(keys.contains(key));
            let mut s = stats.remove(j);
            s.tf = s.tf + 1;
            stats.insert(j, s);
            proof {
                assert(stat_keys(stats@) == keys);
                assert forall|k: int| 0 <= k < stats@.len() implies #[trigger] stats@[k].tf
                    == occurrences(next, (stats@[k].term@, stats@[k].field)) by {
                    if k != j {
                        assert(keys[k] != key) by {
                            lemma_distinct_keys_unique(pre);
                        }
                    }
                }
            }
        } else {
            assert(!keys.contains(key));
            proof {
                lemma_distinct_keys_contains(pre, key);
                lemma_occurrences_absent(pre, key);
            }
            let f = occ[i].1;
            let w = f.weight_tenths();
            stats.push(TermStat { term: occ[i].0.clone(), field: f, tf: 1, weight_tenths: w });
            proof {
                assert(stat_keys(stats@) == keys.push(key));
                assert forall|k: int| 0 <= k < stats@.len() implies #[trigger] stats@[k].tf
                    == occurrences(next, (stats@[k].term@, stats@[k].field)) by {
                    if k < keys.len() {
                        assert(stat_keys(stats@)[k] == keys[k]);
                        assert(keys[k] != key);
                    }
                }
            }
        }
        i = i + 1;
    }
    assert(ov.take(occ.len() as int) == ov);
    stats
}

proof fn lemma_occurrences_present<K>(ps: Seq<K>, k: K)
    requires
        ps.contains(k),
    ensures
        occurrences(ps, k) >= 1,
    decreases ps.len(),
{
    if ps.last() != k {
        let i = choose|i: int| 0 <= i < ps.len() && ps[i] == k;
        assert(ps.drop_last()[i] == k);
        lemma_occurrences_present(ps.drop_last(), k);
    }
}

/// The index entries of a memory name each term and field once, and each
/// counts at least one occurrence of its term in its field.
pub proof fn law_index_entries_distinct_and_counted(occ: Seq<(Seq<char>, IndexField)>)
    ensures
        distinct_keys(occ).no_duplicates(),
        forall|i: int|
            0 <= i < distinct_keys(occ).len() ==> occurrences(occ, #[trigger] distinct_keys(occ)[i]) >= 1,
{
    lemma_distinct_keys_unique(occ);
    assert forall|i: int| 0 <= i < distinct_keys(occ).len() implies occurrences(
        occ,
        #[trigger] distinct_keys(occ)[i],
    ) >= 1 by {
        let k = distinct_keys(occ)[i];
        assert(distinct_keys(occ).contains(k));
        lemma_distinct_keys_contains(occ, k);
        lemma_occurrences_present(occ, k);
    }
}

/// `t` is a term of one of the tags.
pub open spec fn term_of_some_tag(tags: Seq<Seq<char>>, t: Seq<char>) -> bool {
    exists|j: int| 0 <= j < tags.len() && #[trigger] terms(tags[j]).contains(t)
}

proof fn lemma_tag_terms(tags: Seq<Seq<char>>)
    ensures
        forall|i: int| 0 <= i < tag_terms(tags).len() ==> term_shape(#[trigger] tag_terms(tags)[i]),
        forall|j: int, k: int|
            0 <= j < tags.len() && 0 <= k < terms(tags[j]).len() ==> tag_terms(tags).contains(
                #[trigger] terms(tags[j])[k],
            ),
        forall|i: int| 0 <= i < tag_terms(tags).len() ==> term_of_some_tag(tags, #[trigger] tag_terms(tags)[i]),
    decreases tags.len(),
{
    if tags.len() > 0 {
        let pre = tags.drop_last();
        let a = tag_terms(pre);
        let b = terms(tags.last());
        lemma_tag_terms(pre);
        law_terms_are_words_or_ideographs(tags.last());
        assert(tag_terms(tags) == a + b);
        assert forall|i: int| 0 <= i < (a + b).len() implies term_shape(#[trigger] (a + b)[i]) by {
            if i >= a.len() {
                assert((a + b)[i] == b[i - a.len()]);
            }
        }
        assert forall|j: int, k: int|
            0 <= j < tags.len() && 0 <= k < terms(tags[j]).len() implies (a + b).contains(
                #[trigger] terms(tags[j])[k],
            ) by {
            if j < pre.len() {
                assert(pre[j] == tags[j]);
                let x = choose|x: int| 0 <= x < a.len() && a[x] == terms(pre[j])[k];
                assert((a + b)[x] == a[x]);
            } else {
                assert((a + b)[a.len() + k] == b[k]);
            }
        }
        assert forall|i: int| 0 <= i < (a + b).len() implies term_of_some_tag(tags, #[trigger] (a + b)[i]) by {
            if i < a.len() {
                assert((a + b)[i] == a[i]);
                assert(term_of_some_tag(pre, a[i]));
                let j = choose|j: int| 0 <= j < pre.len() && #[trigger] terms(pre[j]).contains(a[i]);
                assert(pre[j] == tags[j]);
            } else {
                assert((a + b)[i] == b[i - a.len()]);
                assert(terms(tags[tags.len() - 1]).contains(b[i - a.len()]));
            }
        }
    }
}

/// The tag entries of a memory are the search terms of its tags: each term of
/// each tag is among them, and each of them is a term of one of the tags.
pub proof fn law_tag_entries_are_tag_terms(tags: Seq<Seq<char>>)
    ensures
        forall|j: int, k: int|
            0 <= j < tags.len() && 0 <= k < terms(tags[j]).len() ==> tag_terms(tags).contains(
                #[trigger] terms(tags[j])[k],
            ),
        forall|i: int| 0 <= i < tag_terms(tags).len() ==> term_of_some_tag(tags, #[trigger] tag_terms(tags)[i]),
{
    lemma_tag_terms(tags);
}

/// Every term a memory is indexed by, in any field, is a search term: a single
/// CJK ideograph or a non-empty lower-cased run of ASCII letters and digits, as
/// a query is split into.
pub proof fn law_index_terms_are_search_terms(
    summary: Seq<char>,
    tags: Seq<Seq<char>>,
    kind: Seq<char>,
    evidence: Option<Seq<char>>,
)
    ensures
        forall|i: int|
            0 <= i < term_occurrences(summary, tags, kind, evidence).len() ==> term_shape(
                #[trigger] term_occurrences(summary, tags, kind, evidence)[i].0,
            ),
{
    law_terms_are_words_or_ideographs(summary);
    law_terms_are_words_or_ideographs(kind);
    lemma_tag_terms(tags);
    let a = in_field(terms(summary), IndexField::Summary);
    let b = in_field(tag_terms(tags), IndexField::Tags);
    let c = in_field(terms(kind), IndexField::Type);
    let d: Seq<(Seq<char>, IndexField)> = match evidence {
        Some(e) => in_field(terms(e), IndexField::Evidence),
        None => seq![],
    };
    match evidence {
        Some(e) => law_terms_are_words_or_ideographs(e),
        None => {},
    }
    let occ = term_occurrences(summary, tags, kind, evidence);
    assert(occ == a + b + c + d);
    assert forall|i: int| 0 <= i < occ.len() implies term_shape(#[trigger] occ[i].0) by {
        if i < a.len() {
            assert(occ[i] == a[i]);
        } else if i < a.len() + b.len() {
            assert(occ[i] == b[i - a.len()]);
        } else if i < a.len() + b.len() + c.len() {
            assert(occ[i] == c[i - a.len() - b.len()]);
        } else {
            assert(occ[i] == d[i - a.len() - b.len() - c.len()]);
        }
    }
}

/// Each entry of a memory's index is a search term with at least one occurrence.
pub proof fn law_index_entries_are_search_terms(
    summary: Seq<char>,
    tags: Seq<Seq<char>>,
    kind: Seq<char>,
    evidence: Option<Seq<char>>,
)
    ensures
        forall|i: int|
            0 <= i < distinct_keys(term_occurrences(summary, tags, kind, evidence)).len() ==> term_shape(
                #[trigger] distinct_keys(term_occurrences(summary, tags, kind, evidence))[i].0,
            ),
{
    let occ = term_occurrences(summary, tags, kind, evidence);
    law_index_terms_are_search_terms(summary, tags, kind, evidence);
    assert forall|i: int| 0 <= i < distinct_keys(occ).len() implies term_shape(
        #[trigger] distinct_keys(occ)[i].0,
    ) by {
        let k = distinct_keys(occ)[i];
        assert(distinct_keys(occ).contains(k));
        lemma_distinct_keys_contains(occ, k);
        let x = choose|x: int| 0 <= x < occ.len() && occ[x] == k;
        assert(term_shape(occ[x].0));
    }
}

/// Tags weigh most, then the summary, then the type (a plain 1.0), then the evidence.
pub proof fn law_field_weights()
    ensures
        IndexField::Tags.weight() > IndexField::Summary.weight(),
        IndexField::Summary.weight() > IndexField::Type.weight(),
        IndexField::Type.weight() > IndexField::Evidence.weight(),
        IndexField::Type.weight() == 10,
        IndexField::Evidence.weight() > 0,
{
}

/// The counts of the distinct keys `ks` in `ps`, added up.
pub open spec fn total_count<K>(ps: Seq<K>, ks: Seq<K>) -> nat
    decreases ks.len(),
{
    if ks.len() == 0 {
        0
    } else {
        total_count(ps, ks.drop_last()) + occurrences(ps, ks.last())
    }
}

proof fn lemma_total_count_step<K>(ps: Seq<K>, ks: Seq<K>)
    requires
        ps.len() > 0,
        ks.no_duplicates(),
    ensures
        total_count(ps, ks) == total_count(ps.drop_last(), ks) + if ks.contains(ps.last()) {
            1nat
        } else {
            0nat
        },
    decreases ks.len(),
{
    if ks.len() > 0 {
        let pre = ks.drop_last();
        assert(pre.no_duplicates()) by {
            assert forall|a: int, b: int| 0 <= a < pre.len() && 0 <= b < pre.len() && a != b implies pre[a]
                != pre[b] by {
                assert(pre[a] == ks[a] && pre[b] == ks[b]);
            }
        }
        lemma_total_count_step(ps, pre);
        if ks.contains(ps.last()) {
            let x = choose|x: int| 0 <= x < ks.len() && ks[x] == ps.last();
            if x < pre.len() {
                assert(pre[x] == ps.last());
                assert(ks.last() != ps.last()) by {
                    assert(ks[ks.len() - 1] == ks.last());
                }
            } else {
                if pre.contains(ps.last()) {
                    let y = choose|y: int| 0 <= y < pre.len() && pre[y] == ps.last();
                    assert(ks[y] == ks[ks.len() - 1]);
                }
            }
        } else {
            if pre.contains(ps.last()) {
                let y = choose|y: int| 0 <= y < pre.len() && pre[y] == ps.last();
                assert(ks[y] == ps.last());
            }
            assert(ks.last() != ps.last()) by {
                assert(ks[ks.len() - 1] == ks.last());
            }
        }
    }
}

proof fn lemma_total_count_push<K>(ps: Seq<K>, ks: Seq<K>, k: K)
    requires
        !ps.contains(k),
    ensures
        total_count(ps, ks.push(k)) == total_count(ps, ks),
{
    assert(ks.push(k).drop_last() == ks);
    lemma_occurrences_absent(ps, k);
}

/// The counts of a memory's index entries add up to the number of term
/// occurrences read from it: every occurrence is counted once.
pub proof fn law_index_counts_add_up<K>(ps: Seq<K>)
    ensures
        total_count(ps, distinct_keys(ps)) == ps.len(),
    decreases ps.len(),
{
    if ps.len() > 0 {
        let pre = ps.drop_last();
        let d = distinct_keys(pre);
        law_index_counts_add_up(pre);
        lemma_distinct_keys_unique(pre);
        lemma_distinct_keys_unique(ps);
        lemma_distinct_keys_contains(pre, ps.last());
        let dk = distinct_keys(ps);
        lemma_total_count_step(ps, dk);
        if d.contains(ps.last()) {
            assert(dk == d);
        } else {
            assert(dk == d.push(ps.last()));
            lemma_total_count_push(pre, d, ps.last());
            assert(dk.contains(ps.last())) by {
                assert(dk[d.len() as int] == ps.last());
            }
        }
    }
}

proof fn lemma_in_field_contains(ts: Seq<Seq<char>>, f: IndexField, t: Seq<char>, g: IndexField)
    ensures
        in_field(ts, f).contains((t, g)) <==> g == f && ts.contains(t),
{
    let v = in_field(ts, f);
    if v.contains((t, g)) {
        let x = choose|x: int| 0 <= x < v.len() && v[x] == (t, g);
        assert(ts[x] == t);
    }
    if g == f && ts.contains(t) {
        let x = choose|x: int| 0 <= x < ts.len() && ts[x] == t;
        assert(v[x] == (t, g));
    }
}

proof fn lemma_concat_contains<A>(a: Seq<A>, b: Seq<A>, x: A)
    ensures
        (a + b).contains(x) <==> a.contains(x) || b.contains(x),
{
    if (a + b).contains(x) {
        let i = choose|i: int| 0 <= i < (a + b).len() && (a + b)[i] == x;
        if i < a.len() {
            assert(a[i] == x);
        } else {
            assert(b[i - a.len()] == x);
        }
    }
    if a.contains(x) {
        let i = choose|i: int| 0 <= i < a.len() && a[i] == x;
        assert((a + b)[i] == x);
    }
    if b.contains(x) {
        let i = choose|i: int| 0 <= i < b.len() && b[i] == x;
        assert((a + b)[i + a.len()] == x);
    }
}

proof fn lemma_occurrence_in_field(
    summary: Seq<char>,
    tags: Seq<Seq<char>>,
    kind: Seq<char>,
    evidence: Option<Seq<char>>,
    t: Seq<char>,
    g: IndexField,
)
    ensures
        term_occurrences(summary, tags, kind, evidence).contains((t, g)) <==> {
            ||| (g == IndexField::Summary && terms(summary).contains(t))
            ||| (g == IndexField::Tags && tag_terms(tags).contains(t))
            ||| (g == IndexField::Type && terms(kind).contains(t))
            ||| (g == IndexField::Evidence && match evidence {
                Some(e) => terms(e).contains(t),
                None => false,
            })
        },
{
    let a = in_field(terms(summary), IndexField::Summary);
    let b = in_field(tag_terms(tags), IndexField::Tags);
    let c = in_field(terms(kind), IndexField::Type);
    let d: Seq<(Seq<char>, IndexField)> = match evidence {
        Some(e) => in_field(terms(e), IndexField::Evidence),
        None => seq![],
    };
    lemma_concat_contains(a + b + c, d, (t, g));
    lemma_concat_contains(a + b, c, (t, g));
    lemma_concat_contains(a, b, (t, g));
    lemma_in_field_contains(terms(summary), IndexField::Summary, t, g);
    lemma_in_field_contains(tag_terms(tags), IndexField::Tags, t, g);
    lemma_in_field_contains(terms(kind), IndexField::Type, t, g);
    match evidence {
        Some(e) => lemma_in_field_contains(terms(e), IndexField::Evidence, t, g),
        None => {
            assert(!d.contains((t, g)));
        },
    }
    assert(term_occurrences(summary, tags, kind, evidence) == a + b + c + d);
}

/// A memory is indexed under a term in a field exactly when the term is a
/// search term of that field's text: of the summary, of one of the tags, of the
/// type, or of the evidence when there is one.
pub proof fn law_index_fields(
    summary: Seq<char>,
    tags: Seq<Seq<char>>,
    kind: Seq<char>,
    evidence: Option<Seq<char>>,
    t: Seq<char>,
)
    ensures
        term_occurrences(summary, tags, kind, evidence).contains((t, IndexField::Summary)) <==> terms(
            summary,
        ).contains(t),
        term_occurrences(summary, tags, kind, evidence).contains((t, IndexField::Tags)) <==> term_of_some_tag(
            tags,
            t,
        ),
        term_occurrences(summary, tags, kind, evidence).contains((t, IndexField::Type)) <==> terms(kind).contains(
            t,
        ),
        term_occurrences(summary, tags, kind, evidence).contains((t, IndexField::Evidence)) <==> match evidence {
            Some(e) => terms(e).contains(t),
            None => false,
        },
{
    lemma_tag_terms(tags);
    if term_of_some_tag(tags, t) {
        let j = choose|j: int| 0 <= j < tags.len() && #[trigger] terms(tags[j]).contains(t);
        let k = choose|k: int| 0 <= k < terms(tags[j]).len() && terms(tags[j])[k] == t;
        assert(tag_terms(tags).contains(terms(tags[j])[k]));
    }
    if tag_terms(tags).contains(t) {
        let i = choose|i: int| 0 <= i < tag_terms(tags).len() && tag_terms(tags)[i] == t;
        assert(term_of_some_tag(tags, tag_terms(tags)[i]));
    }
    lemma_occurrence_in_field(summary, tags, kind, evidence, t, IndexField::Summary);
    lemma_occurrence_in_field(summary, tags, kind, evidence, t, IndexField::Tags);
    lemma_occurrence_in_field(summary, tags, kind, evidence, t, IndexField::Type);
    lemma_occurrence_in_field(summary, tags, kind, evidence, t, IndexField::Evidence);
}

} // verus!
