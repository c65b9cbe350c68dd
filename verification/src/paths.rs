//! Paths as text. A path is read as its components: a leading `/` is the
//! root, a leading `.` of a relative path is kept, and otherwise the pieces
//! between `/` are taken with empty and `.` pieces dropped. Two paths are the
//! same path when their components are, and one lies under another when the
//! other's components begin it.

use vstd::prelude::*;
use crate::text::{chars_eq, chars_of, extend_chars, split_char, split_on, string_of, views};

verus! {

broadcast use vstd::string::group_string_axioms;

/// `base` joined with the relative path `rel`: a `/` goes between them unless
/// `base` is empty or already ends in one.
pub open spec fn join_spec(base: Seq<char>, rel: Seq<char>) -> Seq<char> {
    if base.len() == 0 {
        rel
    } else if base.last() == '/' {
        base + rel
    } else {
        base + seq!['/'] + rel
    }
}

/// `Path::join` for a relative `rel`.
pub fn join(base: &str, rel: &str) -> (r: String)
    ensures
        r@ == join_spec(base@, rel@),
{
    let mut out = chars_of(base);
    let tail = chars_of(rel);
    let n = out.len();
    if n > 0 && out[n - 1] != '/' {
        out.push('/');
    }
    extend_chars(&mut out, &tail);
    string_of(&out)
}

/// The pieces kept as components: not empty, not `.`.
pub open spec fn kept(segs: Seq<Seq<char>>) -> Seq<Seq<char>> {
    segs.filter(|s: Seq<char>| s.len() > 0 && s != seq!['.'])
}

/// Whether `p` is absolute.
pub open spec fn rooted(p: Seq<char>) -> bool {
    p.len() > 0 && p[0] == '/'
}

/// The components of `p`.
pub open spec fn components(p: Seq<char>) -> Seq<Seq<char>> {
    let segs = split_on(p, '/');
    (if rooted(p) {
        seq![seq!['/']]
    } else if segs.len() > 0 && segs[0] == seq!['.'] {
        seq![seq!['.']]
    } else {
        Seq::empty()
    }) + kept(segs)
}

/// `a` and `b` are the same path.
pub open spec fn same_path(a: Seq<char>, b: Seq<char>) -> bool {
    components(a) == components(b)
}

/// `p` lies at or under `base`.
pub open spec fn under(p: Seq<char>, base: Seq<char>) -> bool {
    let c = components(p);
    let b = components(base);
    b.len() <= c.len() && c.take(b.len() as int) == b
}

/// The components joined with `/`.
pub open spec fn joined(parts: Seq<Seq<char>>) -> Seq<char>
    decreases parts.len(),
{
    if parts.len() == 0 {
        Seq::empty()
    } else if parts.len() == 1 {
        parts[0]
    } else {
        joined(parts.drop_last()) + seq!['/'] + parts.last()
    }
}

/// What is left of `p` below `base`, written out, when `p` lies under it.
pub open spec fn below(p: Seq<char>, base: Seq<char>) -> Seq<char> {
    joined(components(p).skip(components(base).len() as int))
}

proof fn lemma_filter_push(segs: Seq<Seq<char>>, s: Seq<char>)
    ensures
        kept(segs.push(s)) == if s.len() > 0 && s != seq!['.'] {
            kept(segs).push(s)
        } else {
            kept(segs)
        },
{
    reveal(Seq::filter);
    assert(segs.push(s).drop_last() =~= segs);
}

/// The components of a path.
pub fn path_components(p: &str) -> (r: Vec<Vec<char>>)
    ensures
        views(r@) == components(p@),
{
    let pv = chars_of(p);
    let segs = split_char(&pv, '/');
    let ghost sv = views(segs@);
    let mut out: Vec<Vec<char>> = Vec::new();
    let dot: Vec<char> = vec!['.'];
    assert(dot@ =~= seq!['.']);
    let root = pv.len() > 0 && pv[0] == '/';
    if root {
        let slash: Vec<char> = vec!['/'];
        assert(slash@ =~= seq!['/']);
        out.push(slash);
        assert(views(out@) =~= seq![seq!['/']]);
    } else if segs.len() > 0 && chars_eq(&segs[0], &dot) {
        assert(sv[0] == segs@[0]@);
        let d: Vec<char> = vec!['.'];
        assert(d@ =~= seq!['.']);
        out.push(d);
        assert(views(out@) =~= seq![seq!['.']]);
    } else {
        assert(segs.len() > 0 ==> sv[0] == segs@[0]@);
    }
    let ghost head = views(out@);
    assert(head =~= (if rooted(p@) {
        seq![seq!['/']]
    } else if sv.len() > 0 && sv[0] == seq!['.'] {
        seq![seq!['.']]
    } else {
        Seq::<Seq<char>>::empty()
    }));
    let mut i: usize = 0;
    assert(sv.take(0) =~= Seq::<Seq<char>>::empty());
    assert(kept(Seq::<Seq<char>>::empty()) =~= Seq::<Seq<char>>::empty()) by {
        reveal(Seq::filter);
    }
    while i < segs.len()
        invariant
            i <= segs.len(),
            sv == views(segs@),
            sv.len() == segs.len(),
            dot@ == seq!['.'],
            views(out@) == head + kept(sv.take(i as int)),
        decreases segs.len() - i,
    {
        let seg = &segs[i];
        assert(sv[i as int] == seg@);
        proof {
            lemma_filter_push(sv.take(i as int), sv[i as int]);
        }
        assert(sv.take(i + 1) =~= sv.take(i as int).push(sv[i as int]));
        if seg.len() > 0 && !chars_eq(seg, &dot) {
            let ghost before = views(out@);
            out.push(seg.clone());
            assert(views(out@) =~= before.push(sv[i as int]));
        }
        i = i + 1;
    }
    assert(sv.take(segs.len() as int) =~= sv);
    out
}

fn seqs_eq(a: &Vec<Vec<char>>, b: &Vec<Vec<char>>, n: usize) -> (r: bool)
    requires
        n <= a.len(),
        n <= b.len(),
    ensures
        r == (views(a@).take(n as int) == views(b@).take(n as int)),
{
    let mut i: usize = 0;
    while i < n
        invariant
            n <= a.len(),
            n <= b.len(),
            i <= n,
            forall|j: int| 0 <= j < i ==> a@[j]@ == b@[j]@,
        decreases n - i,
    {
        if !chars_eq(&a[i], &b[i]) {
            assert(views(a@).take(n as int)[i as int] != views(b@).take(n as int)[i as int]);
            return false;
        }
        i = i + 1;
    }
    assert(views(a@).take(n as int) =~= views(b@).take(n as int));
    true
}

/// Whether `a` and `b` are the same path.
pub fn is_same_path(a: &str, b: &str) -> (r: bool)
    ensures
        r == same_path(a@, b@),
{
    let ca = path_components(a);
    let cb = path_components(b);
    if ca.len() != cb.len() {
        return false;
    }
    let r = seqs_eq(&ca, &cb, ca.len());
    assert(views(ca@).take(ca.len() as int) =~= views(ca@));
    assert(views(cb@).take(cb.len() as int) =~= views(cb@));
    r
}

/// Whether `p` lies at or under `base`: `Path::starts_with`.
pub fn is_under(p: &str, base: &str) -> (r: bool)
    ensures
        r == under(p@, base@),
{
    let c = path_components(p);
    let b = path_components(base);
    if b.len() > c.len() {
        return false;
    }
    let r = seqs_eq(&c, &b, b.len());
    assert(views(b@).take(b.len() as int) =~= views(b@));
    r
}

/// What is left of `p` below `base`, written out: `Path::strip_prefix`, for a
/// `p` that lies under `base`.
pub fn relative_below(p: &str, base: &str) -> (r: String)
    requires
        under(p@, base@),
    ensures
        r@ == below(p@, base@),
{
    let c = path_components(p);
    let b = path_components(base);
    let ghost rest = views(c@).skip(b.len() as int);
    let mut out: Vec<char> = Vec::new();
    let mut i: usize = b.len();
    assert(rest.take(0) =~= Seq::<Seq<char>>::empty());
    while i < c.len()
        invariant
            b.len() <= i <= c.len(),
            rest == views(c@).skip(b.len() as int),
            out@ == joined(rest.take(i - b.len())),
        decreases c.len() - i,
    {
        let ghost k = i - b.len();
        assert(rest.take(k + 1).drop_last() =~= rest.take(k));
        assert(rest.take(k + 1).last() == c@[i as int]@);
        if i > b.len() {
            out.push('/');
        }
        extend_chars(&mut out, &c[i]);
        i = i + 1;
    }
    assert(rest.take(c.len() - b.len()) =~= rest);
    string_of(&out)
}

} // verus!
