//! Unix paths as text: their components (as `Path::components` reads them),
//! joining (as `PathBuf::push` does it) and lexical normalization.
use vstd::prelude::*;
use crate::text::{chars_of, concat2, concat3, owned, starts_with, string_of_range};
use vstd::string::*;

verus! {

/// One component of a path.
pub ghost enum Part {
    Root,
    Here,
    Up,
    Name(Seq<char>),
}

/// A component of a path, in executable form.
pub enum PathPart {
    Root,
    Here,
    Up,
    Name(String),
}

impl View for PathPart {
    type V = Part;

    open spec fn view(&self) -> Part {
        match self {
            PathPart::Root => Part::Root,
            PathPart::Here => Part::Here,
            PathPart::Up => Part::Up,
            PathPart::Name(n) => Part::Name(n@),
        }
    }
}

pub open spec fn parts_view(v: Seq<PathPart>) -> Seq<Part> {
    v.map_values(|p: PathPart| p@)
}

/// `s` cut at every `/`, as `str::split('/')` cuts it (empty pieces kept).
pub open spec fn split_slash(s: Seq<char>) -> Seq<Seq<char>>
    decreases s.len(),
{
    if s.len() == 0 {
        seq![Seq::<char>::empty()]
    } else {
        let p = split_slash(s.drop_last());
        if s.last() == '/' {
            p.push(Seq::<char>::empty())
        } else {
            p.update(p.len() - 1, p.last().push(s.last()))
        }
    }
}

pub open spec fn is_absolute(s: Seq<char>) -> bool {
    s.len() > 0 && s[0] == '/'
}

/// The component one piece between slashes stands for: empty pieces and `.` stand for none.
pub open spec fn piece_parts(p: Seq<char>) -> Seq<Part> {
    if p.len() == 0 || p == seq!['.'] {
        seq![]
    } else if p == seq!['.', '.'] {
        seq![Part::Up]
    } else {
        seq![Part::Name(p)]
    }
}

pub open spec fn pieces_parts(ps: Seq<Seq<char>>) -> Seq<Part>
    decreases ps.len(),
{
    if ps.len() == 0 {
        seq![]
    } else {
        pieces_parts(ps.drop_last()) + piece_parts(ps.last())
    }
}

/// The component a path starts with: the root, or `.` when a relative path is `.` or starts with `./`.
pub open spec fn lead_parts(s: Seq<char>) -> Seq<Part> {
    if is_absolute(s) {
        seq![Part::Root]
    } else if s == seq!['.'] || starts_with(s, seq!['.', '/']) {
        seq![Part::Here]
    } else {
        seq![]
    }
}

/// The components of a Unix path, as `Path::components` yields them.
pub open spec fn components(s: Seq<char>) -> Seq<Part> {
    lead_parts(s) + pieces_parts(split_slash(s))
}

/// `base.join(p)` on Unix: an absolute `p` replaces `base`; otherwise a `/` is put
/// between them unless `base` is empty or already ends with one.
pub open spec fn path_join(base: Seq<char>, p: Seq<char>) -> Seq<char> {
    if is_absolute(p) {
        p
    } else if base.len() == 0 || base.last() == '/' {
        base + p
    } else {
        base + seq!['/'] + p
    }
}

/// Lexical normalization of components: whether the result is rooted, and the names
/// left once `.` is dropped and each `..` has taken away the name before it.
/// `None` when a `..` finds no name to take away.
pub open spec fn normalize(cs: Seq<Part>) -> Option<(bool, Seq<Seq<char>>)>
    decreases cs.len(),
{
    if cs.len() == 0 {
        Some((false, seq![]))
    } else {
        match normalize(cs.drop_last()) {
            None => None,
            Some((rooted, names)) => match cs.last() {
                Part::Root => Some((true, seq![])),
                Part::Here => Some((rooted, names)),
                Part::Up => if names.len() == 0 {
                    None
                } else {
                    Some((rooted, names.drop_last()))
                },
                Part::Name(n) => Some((rooted, names.push(n))),
            },
        }
    }
}

/// `names` joined by `/`.
pub open spec fn join_slash(names: Seq<Seq<char>>) -> Seq<char>
    decreases names.len(),
{
    if names.len() == 0 {
        seq![]
    } else if names.len() == 1 {
        names[0]
    } else {
        join_slash(names.drop_last()) + seq!['/'] + names.last()
    }
}

/// The text of a normalized path.
pub open spec fn render(rooted: bool, names: Seq<Seq<char>>) -> Seq<char> {
    if rooted {
        seq!['/'] + join_slash(names)
    } else {
        join_slash(names)
    }
}

/// Whether `base` is a leading run of the components of `p` (`Path::starts_with`).
pub open spec fn path_starts_with(p: Seq<char>, base: Seq<char>) -> bool {
    let a = components(p);
    let b = components(base);
    b.len() <= a.len() && a.take(b.len() as int) == b
}

fn part_of_piece(v: &Vec<char>, lo: usize, hi: usize, out: &mut Vec<PathPart>)
    requires
        lo <= hi <= v.len(),
    ensures
        parts_view(final(out)@) == parts_view(old(out)@) + piece_parts(v@.subrange(lo as int, hi as int)),
{
    let ghost p = v@.subrange(lo as int, hi as int);
    let ghost before = old(out)@;
    if hi == lo {
        assert(parts_view(out@) == parts_view(before) + piece_parts(p));
    } else if hi - lo == 1 && v[lo] == '.' {
        assert(p == seq!['.']);
        assert(parts_view(out@) == parts_view(before) + piece_parts(p));
    } else if hi - lo == 2 && v[lo] == '.' && v[lo + 1] == '.' {
        assert(p == seq!['.', '.']);
        out.push(PathPart::Up);
        assert(parts_view(out@) == parts_view(before).push(Part::Up));
    } else {
        assert(p != seq!['.']) by {
            if p == seq!['.'] {
                assert(p.len() == 1);
                assert(p[0] == v@[lo as int]);
            }
        }
        assert(p != seq!['.', '.']) by {
            if p == seq!['.', '.'] {
                assert(p[0] == v@[lo as int]);
                assert(p[1] == v@[lo + 1]);
            }
        }
        out.push(PathPart::Name(string_of_range(v, lo, hi)));
        assert(parts_view(out@) == parts_view(before).push(Part::Name(p)));
    }
}

proof fn lemma_split_step(s: Seq<char>, i: int)
    requires
        0 <= i < s.len(),
    ensures
        s.take(i + 1).drop_last() == s.take(i),
        s.take(i + 1).last() == s[i],
        split_slash(s.take(i + 1)) == (if s[i] == '/' {
            split_slash(s.take(i)).push(Seq::<char>::empty())
        } else {
            let p = split_slash(s.take(i));
            p.update(p.len() - 1, p.last().push(s[i]))
        }),
{
    assert(s.take(i + 1).drop_last() == s.take(i));
}

proof fn lemma_split_nonempty(s: Seq<char>)
    ensures
        split_slash(s).len() > 0,
    decreases s.len(),
{
    if s.len() > 0 {
        lemma_split_nonempty(s.drop_last());
    }
}

/// The components of the path `s`.
pub fn path_components(s: &str) -> (r: Vec<PathPart>)
    ensures
        parts_view(r@) == components(s@),
{
    let v = chars_of(s);
    let mut out: Vec<PathPart> = Vec::new();
    let n = v.len();
    if n > 0 && v[0] == '/' {
        out.push(PathPart::Root);
    } else if (n == 1 && v[0] == '.') || (n >= 2 && v[0] == '.' && v[1] == '/') {
        out.push(PathPart::Here);
        proof {
            if n >= 2 {
                assert(v@.take(2) == seq!['.', '/']);
            } else {
                assert(v@ == seq!['.']);
            }
        }
    }
    proof {
        if !(n > 0 && v@[0] == '/') && !((n == 1 && v@[0] == '.') || (n >= 2 && v@[0] == '.' && v@[1] == '/')) {
            if v@ == seq!['.'] {
                assert(v@[0] == '.');
            }
            if starts_with(v@, seq!['.', '/']) {
                assert(v@.take(2)[0] == v@[0]);
                assert(v@.take(2)[1] == v@[1]);
            }
        }
        assert(parts_view(out@) == lead_parts(v@));
        assert(v@.take(0) == Seq::<char>::empty());
        assert(pieces_parts(split_slash(v@.take(0)).drop_last()) == Seq::<Part>::empty());
    }
    let ghost lead = lead_parts(v@);
    let mut start: usize = 0;
    let mut i: usize = 0;
    while i < n
        invariant
            n == v.len(),
            v@ == s@,
            start <= i <= n,
            split_slash(v@.take(i as int)).len() > 0,
            split_slash(v@.take(i as int)).last() == v@.subrange(start as int, i as int),
            parts_view(out@) == lead + pieces_parts(split_slash(v@.take(i as int)).drop_last()),
        decreases n - i,
    {
        proof {
            lemma_split_step(v@, i as int);
        }
        let ghost before = split_slash(v@.take(i as int));
        if v[i] == '/' {
            part_of_piece(&v, start, i, &mut out);
            proof {
                let after = split_slash(v@.take(i + 1));
                assert(after == before.push(Seq::<char>::empty()));
                assert(after.drop_last() == before);
                assert(before == before.drop_last().push(before.last()));
                assert(pieces_parts(before) == pieces_parts(before.drop_last()) + piece_parts(before.last()));
                assert(after.last() == v@.subrange(i + 1, i + 1));
            }
            start = i + 1;
        } else {
            proof {
                let after = split_slash(v@.take(i + 1));
                assert(after.drop_last() == before.drop_last());
                assert(after.last() == v@.subrange(start as int, i + 1));
            }
        }
        i = i + 1;
    }
    proof {
        let all = split_slash(v@.take(n as int));
        assert(v@.take(n as int) == v@);
        assert(all == all.drop_last().push(all.last()));
        assert(pieces_parts(all) == pieces_parts(all.drop_last()) + piece_parts(all.last()));
    }
    part_of_piece(&v, start, n, &mut out);
    out
}

/// `base.join(p)`, as text.
pub fn join_path(base: &str, p: &str) -> (r: String)
    ensures
        r@ == path_join(base@, p@),
{
    let pv = chars_of(p);
    if pv.len() > 0 && pv[0] == '/' {
        return owned(p);
    }
    let bv = chars_of(base);
    if bv.len() == 0 || bv[bv.len() - 1] == '/' {
        concat2(base, p)
    } else {
        proof {
            reveal_strlit("/");
        }
        concat3(base, "/", p)
    }
}

pub open spec fn names_view(v: Seq<String>) -> Seq<Seq<char>> {
    v.map_values(|s: String| s@)
}

proof fn lemma_normalize_fails_on(cs: Seq<Part>, k: int)
    requires
        0 <= k <= cs.len(),
        normalize(cs.take(k)) is None,
    ensures
        normalize(cs) is None,
    decreases cs.len() - k,
{
    if k < cs.len() {
        let t = cs.take(k + 1);
        assert(t.drop_last() == cs.take(k));
        lemma_normalize_fails_on(cs, k + 1);
    } else {
        assert(cs.take(k) == cs);
    }
}

/// The text of a path made of `names`, rooted or not.
pub fn render_path(rooted: bool, names: &Vec<String>) -> (r: String)
    ensures
        r@ == render(rooted, names_view(names@)),
{
    let mut out = String::new();
    let mut i: usize = 0;
    while i < names.len()
        invariant
            i <= names.len(),
            out@ == join_slash(names_view(names@).take(i as int)),
        decreases names.len() - i,
    {
        let ghost nv = names_view(names@);
        assert(nv.take(i + 1).drop_last() == nv.take(i as int));
        if i > 0 {
            out.push('/');
        }
        out.append(names[i].as_str());
        i = i + 1;
    }
    assert(names_view(names@).take(names.len() as int) == names_view(names@));
    if rooted {
        let mut r = String::new();
        r.push('/');
        r.append(out.as_str());
        r
    } else {
        out
    }
}

/// Lexical normalization of the path `s`, as text; `None` when a `..` climbs above
/// where the path starts.
pub fn normalized_path(s: &str) -> (r: Option<String>)
    ensures
        match normalize(components(s@)) {
            None => r is None,
            Some((rooted, names)) => r matches Some(t) && t@ == render(rooted, names),
        },
{
    let cs = path_components(s);
    let ghost all = parts_view(cs@);
    let mut rooted = false;
    let mut names: Vec<String> = Vec::new();
    let mut i: usize = 0;
    assert(all.take(0) == Seq::<Part>::empty());
    while i < cs.len()
        invariant
            i <= cs.len(),
            all == parts_view(cs@),
            all == components(s@),
            normalize(all.take(i as int)) == Some((rooted, names_view(names@))),
        decreases cs.len() - i,
    {
        let ghost t = all.take(i + 1);
        assert(t.drop_last() == all.take(i as int));
        assert(t.last() == cs@[i as int]@);
        match &cs[i] {
            PathPart::Root => {
                rooted = true;
                names = Vec::new();
                assert(names_view(names@) == Seq::<Seq<char>>::empty());
            },
            PathPart::Here => {},
            PathPart::Up => {
                if names.len() == 0 {
                    proof {
                        lemma_normalize_fails_on(all, i + 1);
                    }
                    return None;
                }
                let ghost before = names@;
                names.pop();
                assert(names@ == before.drop_last());
                assert(names_view(names@) == names_view(before).drop_last());
            },
            PathPart::Name(n) => {
                let ghost before = names@;
                names.push(n.clone());
                assert(names_view(names@) == names_view(before).push(n@));
            },
        }
        i = i + 1;
    }
    assert(all.take(cs.len() as int) == all);
    Some(render_path(rooted, &names))
}

} // verus!
