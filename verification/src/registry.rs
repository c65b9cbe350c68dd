//! The cross-repository registry `-g`/`--global` reads from: one repository
//! root per line, kept sorted in path order with each repository once.
//!
//! Reading the file, checking which roots are still live repositories, and
//! writing it back are the caller's; this module decides what the file holds.

use vstd::prelude::*;
use crate::paths::{components, is_same_path, join, join_spec, path_components, same_path};
use crate::text::{
    chars_eq, chars_of, extend_str, is_ws, lines, lines_from, split_lines, string_of, strip_cr, trim,
    trim_end, trim_start, trimmed, views,
};

verus! {

broadcast use vstd::string::group_string_axioms;

// ---------------------------------------------------------------------------
// Path order
// ---------------------------------------------------------------------------

/// Where a component sorts among the kinds of component: the root, then a
/// leading `.`, then `..`, then every ordinary name.
pub open spec fn component_rank(c: Seq<char>) -> int {
    if c == seq!['/'] {
        1
    } else if c == seq!['.'] {
        2
    } else if c == seq!['.', '.'] {
        3
    } else {
        4
    }
}

/// Text order by character code (which is also UTF-8 byte order).
pub open spec fn text_lt(a: Seq<char>, b: Seq<char>) -> bool
    decreases a.len(),
{
    if a.len() == 0 {
        b.len() > 0
    } else if b.len() == 0 {
        false
    } else if a[0] != b[0] {
        (a[0] as u32) < (b[0] as u32)
    } else {
        text_lt(a.drop_first(), b.drop_first())
    }
}

/// Component order: by kind, then ordinary names by their text.
pub open spec fn component_lt(a: Seq<char>, b: Seq<char>) -> bool {
    component_rank(a) < component_rank(b) || (component_rank(a) == component_rank(b)
        && component_rank(a) == 4 && text_lt(a, b))
}

/// Lexicographic order of component lists.
pub open spec fn components_lt(a: Seq<Seq<char>>, b: Seq<Seq<char>>) -> bool
    decreases a.len(),
{
    if a.len() == 0 {
        b.len() > 0
    } else if b.len() == 0 {
        false
    } else if a[0] != b[0] {
        component_lt(a[0], b[0])
    } else {
        components_lt(a.drop_first(), b.drop_first())
    }
}

/// `a` sorts before `b` in path order: `Path`'s `Ord`, which compares
/// components.
pub open spec fn path_lt(a: Seq<char>, b: Seq<char>) -> bool {
    components_lt(components(a), components(b))
}

fn text_lt_exec(a: &Vec<char>, b: &Vec<char>) -> (r: bool)
    ensures
        r == text_lt(a@, b@),
{
    let mut i: usize = 0;
    assert(a@.skip(0) =~= a@);
    assert(b@.skip(0) =~= b@);
    while i < a.len() && i < b.len() && a[i] == b[i]
        invariant
            i <= a.len(),
            i <= b.len(),
            text_lt(a@, b@) == text_lt(a@.skip(i as int), b@.skip(i as int)),
        decreases a.len() - i,
    {
        assert(a@.skip(i as int).drop_first() =~= a@.skip(i + 1));
        assert(b@.skip(i as int).drop_first() =~= b@.skip(i + 1));
        i = i + 1;
    }
    if i == a.len() {
        return i < b.len();
    }
    if i == b.len() {
        return false;
    }
    (a[i] as u32) < (b[i] as u32)
}

fn rank_exec(c: &Vec<char>) -> (r: u8)
    ensures
        r as int == component_rank(c@),
{
    if c.len() == 1 && c[0] == '/' {
        assert(c@ =~= seq!['/']);
        1
    } else if c.len() == 1 && c[0] == '.' {
        assert(c@ =~= seq!['.']);
        2
    } else if c.len() == 2 && c[0] == '.' && c[1] == '.' {
        assert(c@ =~= seq!['.', '.']);
        3
    } else {
        assert(c@ != seq!['/']);
        assert(c@ != seq!['.']);
        assert(c@ != seq!['.', '.']);
        4
    }
}

/// Whether `a` sorts before `b` in path order.
pub fn path_before(a: &str, b: &str) -> (r: bool)
    ensures
        r == path_lt(a@, b@),
{
    let ca = path_components(a);
    let cb = path_components(b);
    let ghost va = views(ca@);
    let ghost vb = views(cb@);
    let mut i: usize = 0;
    assert(va.skip(0) =~= va);
    assert(vb.skip(0) =~= vb);
    loop
        invariant
            i <= ca.len(),
            i <= cb.len(),
            va == views(ca@),
            vb == views(cb@),
            va == components(a@),
            vb == components(b@),
            path_lt(a@, b@) == components_lt(va.skip(i as int), vb.skip(i as int)),
        decreases ca.len() - i,
    {
        if i == ca.len() {
            return i < cb.len();
        }
        if i == cb.len() {
            return false;
        }
        assert(va.skip(i as int)[0] == ca@[i as int]@);
        assert(vb.skip(i as int)[0] == cb@[i as int]@);
        if !chars_eq(&ca[i], &cb[i]) {
            let ra = rank_exec(&ca[i]);
            let rb = rank_exec(&cb[i]);
            if ra < rb {
                return true;
            }
            if ra == rb && ra == 4 {
                return text_lt_exec(&ca[i], &cb[i]);
            }
            return false;
        }
        assert(va.skip(i as int).drop_first() =~= va.skip(i + 1));
        assert(vb.skip(i as int).drop_first() =~= vb.skip(i + 1));
        i = i + 1;
    }
}

// ---------------------------------------------------------------------------
// Sorting and deduplicating
// ---------------------------------------------------------------------------

/// `x` placed into `s` after every entry it does not sort before: how a
/// stable sort places a later entry among earlier, already sorted ones.
pub open spec fn insert_sorted(s: Seq<Seq<char>>, x: Seq<char>) -> Seq<Seq<char>>
    decreases s.len(),
{
    if s.len() == 0 {
        seq![x]
    } else if path_lt(x, s.last()) {
        insert_sorted(s.drop_last(), x).push(s.last())
    } else {
        s.push(x)
    }
}

/// `s` stably sorted in path order: `slice::sort`, entries that compare
/// equal keeping their order.
pub open spec fn sorted_paths(s: Seq<Seq<char>>) -> Seq<Seq<char>>
    decreases s.len(),
{
    if s.len() == 0 {
        Seq::empty()
    } else {
        insert_sorted(sorted_paths(s.drop_last()), s.last())
    }
}

/// `s` with each run of consecutive entries naming the same path reduced to
/// its first: `Vec::dedup`.
pub open spec fn deduped(s: Seq<Seq<char>>) -> Seq<Seq<char>>
    decreases s.len(),
{
    if s.len() <= 1 {
        s
    } else if same_path(s.last(), s[s.len() - 2]) {
        deduped(s.drop_last())
    } else {
        deduped(s.drop_last()).push(s.last())
    }
}

proof fn lemma_insert_sorted_len(s: Seq<Seq<char>>, x: Seq<char>)
    ensures
        insert_sorted(s, x).len() == s.len() + 1,
    decreases s.len(),
{
    if s.len() > 0 && path_lt(x, s.last()) {
        lemma_insert_sorted_len(s.drop_last(), x);
    }
}

/// Inserts `x` into the sorted `v` where a stable sort puts it.
fn insert_path(v: &mut Vec<String>, x: String)
    ensures
        final(v).deep_view() == insert_sorted(old(v).deep_view(), x@),
{
    let ghost s = v.deep_view();
    let mut k: usize = v.len();
    // Entries from `k` on are those `x` sorts before, scanning from the end.
    assert(s.take(k as int) =~= s);
    assert(s.skip(k as int) =~= Seq::<Seq<char>>::empty());
    while k > 0 && path_before(x.as_str(), v[k - 1].as_str())
        invariant
            k <= v.len(),
            s == v.deep_view(),
            insert_sorted(s, x@) == insert_sorted(s.take(k as int), x@) + s.skip(k as int),
        decreases k,
    {
        let ghost t = s.take(k as int);
        assert(t.last() == v@[k - 1]@);
        assert(t.drop_last() =~= s.take(k - 1));
        assert(insert_sorted(t, x@) == insert_sorted(s.take(k - 1), x@).push(t.last()));
        assert(insert_sorted(s.take(k - 1), x@).push(t.last()) + s.skip(k as int) =~= insert_sorted(
            s.take(k - 1),
            x@,
        ) + s.skip(k - 1));
        k = k - 1;
    }
    proof {
        let t = s.take(k as int);
        if k > 0 {
            assert(t.last() == v@[k - 1]@);
            assert(!path_lt(x@, t.last()));
            assert(insert_sorted(t, x@) == t.push(x@));
        } else {
            assert(insert_sorted(t, x@) == seq![x@]);
        }
        assert(insert_sorted(t, x@) =~= t.push(x@));
    }
    let ghost xv = x@;
    v.insert(k, x);
    assert(v.deep_view() =~= s.take(k as int).push(xv) + s.skip(k as int));
}

/// `v` stably sorted in path order.
pub fn sort_paths(v: Vec<String>) -> (r: Vec<String>)
    ensures
        r.deep_view() == sorted_paths(v.deep_view()),
{
    let ghost s = v.deep_view();
    let mut out: Vec<String> = Vec::new();
    let mut i: usize = 0;
    assert(s.take(0) =~= Seq::<Seq<char>>::empty());
    while i < v.len()
        invariant
            i <= v.len(),
            s == v.deep_view(),
            out.deep_view() == sorted_paths(s.take(i as int)),
        decreases v.len() - i,
    {
        assert(s.take(i + 1).drop_last() =~= s.take(i as int));
        assert(s.take(i + 1).last() == v@[i as int]@);
        insert_path(&mut out, v[i].clone());
        i = i + 1;
    }
    assert(s.take(v.len() as int) =~= s);
    out
}

/// `v` with each run of entries naming the same path reduced to its first.
pub fn dedup_paths(v: &Vec<String>) -> (r: Vec<String>)
    ensures
        r.deep_view() == deduped(v.deep_view()),
{
    let ghost s = v.deep_view();
    let mut out: Vec<String> = Vec::new();
    let mut i: usize = 0;
    assert(s.take(0) =~= Seq::<Seq<char>>::empty());
    while i < v.len()
        invariant
            i <= v.len(),
            s == v.deep_view(),
            out.deep_view() == deduped(s.take(i as int)),
        decreases v.len() - i,
    {
        let ghost t = s.take(i + 1);
        assert(t.drop_last() =~= s.take(i as int));
        assert(t.last() == v@[i as int]@);
        let ghost before = out.deep_view();
        if i == 0 {
            out.push(v[0].clone());
            assert(out.deep_view() =~= t);
        } else {
            assert(t[t.len() - 2] == v@[i - 1]@);
            if !is_same_path(v[i].as_str(), v[i - 1].as_str()) {
                out.push(v[i].clone());
                assert(out.deep_view() =~= before.push(v@[i as int]@));
            }
        }
        i = i + 1;
    }
    assert(s.take(v.len() as int) =~= s);
    out
}

proof fn lemma_insert_sorted_contains(s: Seq<Seq<char>>, x: Seq<char>, y: Seq<char>)
    ensures
        insert_sorted(s, x).contains(y) <==> (y == x || s.contains(y)),
    decreases s.len(),
{
    if s.len() == 0 {
        assert(seq![x][0] == x);
    } else if path_lt(x, s.last()) {
        lemma_insert_sorted_contains(s.drop_last(), x, y);
        let t = insert_sorted(s.drop_last(), x);
        assert(t.push(s.last()).contains(y) <==> (t.contains(y) || y == s.last())) by {
            if t.push(s.last()).contains(y) {
                let j = choose|j: int| 0 <= j < t.push(s.last()).len() && t.push(s.last())[j] == y;
                if j < t.len() {
                    assert(t[j] == y);
                }
            }
            if t.contains(y) {
                let j = choose|j: int| 0 <= j < t.len() && t[j] == y;
                assert(t.push(s.last())[j] == y);
            }
            if y == s.last() {
                assert(t.push(s.last())[t.len() as int] == y);
            }
        }
        assert(s.contains(y) <==> (s.drop_last().contains(y) || y == s.last())) by {
            if s.contains(y) {
                let j = choose|j: int| 0 <= j < s.len() && s[j] == y;
                if j < s.len() - 1 {
                    assert(s.drop_last()[j] == y);
                }
            }
            if s.drop_last().contains(y) {
                let j = choose|j: int| 0 <= j < s.drop_last().len() && s.drop_last()[j] == y;
                assert(s[j] == y);
            }
            if y == s.last() {
                assert(s[s.len() - 1] == y);
            }
        }
    } else {
        assert(s.push(x).contains(y) <==> (s.contains(y) || y == x)) by {
            if s.push(x).contains(y) {
                let j = choose|j: int| 0 <= j < s.push(x).len() && s.push(x)[j] == y;
                if j < s.len() {
                    assert(s[j] == y);
                }
            }
            if s.contains(y) {
                let j = choose|j: int| 0 <= j < s.len() && s[j] == y;
                assert(s.push(x)[j] == y);
            }
            if y == x {
                assert(s.push(x)[s.len() as int] == y);
            }
        }
    }
}

/// Sorting keeps every entry.
pub proof fn sorting_keeps_every_entry(s: Seq<Seq<char>>, y: Seq<char>)
    ensures
        sorted_paths(s).contains(y) <==> s.contains(y),
    decreases s.len(),
{
    if s.len() > 0 {
        sorting_keeps_every_entry(s.drop_last(), y);
        lemma_insert_sorted_contains(sorted_paths(s.drop_last()), s.last(), y);
        assert(s.contains(y) <==> (s.drop_last().contains(y) || y == s.last())) by {
            if s.contains(y) {
                let j = choose|j: int| 0 <= j < s.len() && s[j] == y;
                if j < s.len() - 1 {
                    assert(s.drop_last()[j] == y);
                }
            }
            if s.drop_last().contains(y) {
                let j = choose|j: int| 0 <= j < s.drop_last().len() && s.drop_last()[j] == y;
                assert(s[j] == y);
            }
            if y == s.last() {
                assert(s[s.len() - 1] == y);
            }
        }
    }
}

/// Deduplicating keeps a path for every entry: each one names the same path
/// as some entry that stays.
pub proof fn deduping_keeps_every_path(s: Seq<Seq<char>>, y: Seq<char>)
    requires
        s.contains(y),
    ensures
        exists|j: int| 0 <= j < deduped(s).len() && same_path(#[trigger] deduped(s)[j], y),
    decreases s.len(),
{
    if s.len() <= 1 {
        let j = choose|j: int| 0 <= j < s.len() && s[j] == y;
        assert(same_path(deduped(s)[j], y));
    } else {
        let d = deduped(s.drop_last());
        if y == s.last() {
            if same_path(s.last(), s[s.len() - 2]) {
                assert(s.drop_last().contains(s[s.len() - 2])) by {
                    assert(s.drop_last()[s.len() - 2] == s[s.len() - 2]);
                }
                deduping_keeps_every_path(s.drop_last(), s[s.len() - 2]);
                let j = choose|j: int| 0 <= j < d.len() && same_path(#[trigger] d[j], s[s.len() - 2]);
                assert(same_path(deduped(s)[j], y));
            } else {
                assert(same_path(deduped(s)[d.len() as int], y));
            }
        } else {
            let j0 = choose|j: int| 0 <= j < s.len() && s[j] == y;
            assert(s.drop_last()[j0] == y);
            deduping_keeps_every_path(s.drop_last(), y);
            let j = choose|j: int| 0 <= j < d.len() && same_path(#[trigger] d[j], y);
            assert(deduped(s)[j] == d[j]);
        }
    }
}

// ---------------------------------------------------------------------------
// The file
// ---------------------------------------------------------------------------

// ---------------------------------------------------------------------------
// Path order is a total order
// ---------------------------------------------------------------------------

proof fn lemma_text_lt_irreflexive(a: Seq<char>)
    ensures
        !text_lt(a, a),
    decreases a.len(),
{
    if a.len() > 0 {
        lemma_text_lt_irreflexive(a.drop_first());
    }
}

proof fn lemma_text_lt_asymmetric(a: Seq<char>, b: Seq<char>)
    ensures
        text_lt(a, b) ==> !text_lt(b, a),
    decreases a.len(),
{
    if a.len() > 0 && b.len() > 0 && a[0] == b[0] {
        lemma_text_lt_asymmetric(a.drop_first(), b.drop_first());
    }
}

proof fn lemma_text_lt_total(a: Seq<char>, b: Seq<char>)
    ensures
        a != b ==> text_lt(a, b) || text_lt(b, a),
    decreases a.len(),
{
    if a.len() == 0 && b.len() == 0 {
        assert(a =~= b);
    }
    if a.len() > 0 && b.len() > 0 && a[0] != b[0] {
        vstd::utf8::char_u32_cast(a[0], a[0] as u32);
        vstd::utf8::char_u32_cast(b[0], b[0] as u32);
    }
    if a.len() > 0 && b.len() > 0 && a[0] == b[0] {
        lemma_text_lt_total(a.drop_first(), b.drop_first());
        if a.drop_first() == b.drop_first() {
            assert(a =~= seq![a[0]] + a.drop_first());
            assert(b =~= seq![b[0]] + b.drop_first());
        }
    }
}

proof fn lemma_text_lt_transitive(a: Seq<char>, b: Seq<char>, c: Seq<char>)
    ensures
        text_lt(a, b) && text_lt(b, c) ==> text_lt(a, c),
    decreases a.len(),
{
    if a.len() > 0 && b.len() > 0 && c.len() > 0 && a[0] == b[0] && b[0] == c[0] {
        lemma_text_lt_transitive(a.drop_first(), b.drop_first(), c.drop_first());
    }
}

/// Only an ordinary name ranks 4; each other rank belongs to one component.
proof fn lemma_rank_names_one(a: Seq<char>, b: Seq<char>)
    requires
        component_rank(a) == component_rank(b),
        component_rank(a) < 4,
    ensures
        a == b,
{
}

proof fn lemma_component_lt_order(a: Seq<char>, b: Seq<char>, c: Seq<char>)
    ensures
        !component_lt(a, a),
        component_lt(a, b) ==> !component_lt(b, a),
        a != b ==> component_lt(a, b) || component_lt(b, a),
        component_lt(a, b) && component_lt(b, c) ==> component_lt(a, c),
{
    lemma_text_lt_irreflexive(a);
    lemma_text_lt_asymmetric(a, b);
    lemma_text_lt_total(a, b);
    lemma_text_lt_transitive(a, b, c);
    if a != b && component_rank(a) == component_rank(b) && component_rank(a) < 4 {
        lemma_rank_names_one(a, b);
    }
}

proof fn lemma_components_lt_irreflexive(a: Seq<Seq<char>>)
    ensures
        !components_lt(a, a),
    decreases a.len(),
{
    if a.len() > 0 {
        lemma_components_lt_irreflexive(a.drop_first());
    }
}

proof fn lemma_components_lt_asymmetric(a: Seq<Seq<char>>, b: Seq<Seq<char>>)
    ensures
        components_lt(a, b) ==> !components_lt(b, a),
    decreases a.len(),
{
    if a.len() > 0 && b.len() > 0 {
        if a[0] == b[0] {
            lemma_components_lt_asymmetric(a.drop_first(), b.drop_first());
        } else {
            lemma_component_lt_order(a[0], b[0], b[0]);
        }
    }
}

proof fn lemma_components_lt_total(a: Seq<Seq<char>>, b: Seq<Seq<char>>)
    ensures
        a != b ==> components_lt(a, b) || components_lt(b, a),
    decreases a.len(),
{
    if a.len() == 0 && b.len() == 0 {
        assert(a =~= b);
    }
    if a.len() > 0 && b.len() > 0 {
        if a[0] == b[0] {
            lemma_components_lt_total(a.drop_first(), b.drop_first());
            if a.drop_first() == b.drop_first() {
                assert(a =~= seq![a[0]] + a.drop_first());
                assert(b =~= seq![b[0]] + b.drop_first());
            }
        } else {
            lemma_component_lt_order(a[0], b[0], b[0]);
        }
    }
}

proof fn lemma_components_lt_transitive(a: Seq<Seq<char>>, b: Seq<Seq<char>>, c: Seq<Seq<char>>)
    ensures
        components_lt(a, b) && components_lt(b, c) ==> components_lt(a, c),
    decreases a.len(),
{
    if a.len() > 0 && b.len() > 0 && c.len() > 0 {
        lemma_component_lt_order(a[0], b[0], c[0]);
        lemma_component_lt_order(a[0], c[0], c[0]);
        if a[0] == b[0] && b[0] == c[0] {
            lemma_components_lt_transitive(a.drop_first(), b.drop_first(), c.drop_first());
        }
    }
}

/// Path order is a strict total order on paths up to `same_path`.
proof fn lemma_path_order(a: Seq<char>, b: Seq<char>, c: Seq<char>)
    ensures
        !path_lt(a, a),
        path_lt(a, b) ==> !path_lt(b, a),
        !same_path(a, b) ==> path_lt(a, b) || path_lt(b, a),
        path_lt(a, b) && path_lt(b, c) ==> path_lt(a, c),
        same_path(a, b) ==> (path_lt(a, c) == path_lt(b, c) && path_lt(c, a) == path_lt(c, b)),
{
    lemma_components_lt_irreflexive(components(a));
    lemma_components_lt_asymmetric(components(a), components(b));
    lemma_components_lt_total(components(a), components(b));
    lemma_components_lt_transitive(components(a), components(b), components(c));
}

/// Entries in path order: none sorts before one listed ahead of it.
pub open spec fn in_path_order(s: Seq<Seq<char>>) -> bool {
    forall|i: int, j: int| 0 <= i < j < s.len() ==> !path_lt(#[trigger] s[j], #[trigger] s[i])
}

/// No two entries name the same path.
pub open spec fn each_path_once(s: Seq<Seq<char>>) -> bool {
    forall|i: int, j: int| 0 <= i < j < s.len() ==> !same_path(#[trigger] s[i], #[trigger] s[j])
}

proof fn lemma_insert_sorted_in_order(s: Seq<Seq<char>>, x: Seq<char>)
    requires
        in_path_order(s),
    ensures
        in_path_order(insert_sorted(s, x)),
    decreases s.len(),
{
    if s.len() == 0 {
    } else if path_lt(x, s.last()) {
        let d = s.drop_last();
        assert(in_path_order(d));
        lemma_insert_sorted_in_order(d, x);
        let t = insert_sorted(d, x);
        let r = t.push(s.last());
        assert forall|i: int, j: int| 0 <= i < j < r.len() implies !path_lt(
            #[trigger] r[j],
            #[trigger] r[i],
        ) by {
            if j == r.len() - 1 {
                let y = t[i];
                assert(t.contains(y));
                lemma_insert_sorted_contains(d, x, y);
                if y == x {
                    lemma_path_order(x, s.last(), s.last());
                } else {
                    let k = choose|k: int| 0 <= k < d.len() && d[k] == y;
                    assert(s[k] == y);
                    assert(!path_lt(s[s.len() - 1], s[k]));
                }
            } else {
                assert(r[i] == t[i] && r[j] == t[j]);
            }
        }
    } else {
        let r = s.push(x);
        assert forall|i: int, j: int| 0 <= i < j < r.len() implies !path_lt(
            #[trigger] r[j],
            #[trigger] r[i],
        ) by {
            if j == r.len() - 1 {
                let last = s.last();
                if i < s.len() - 1 {
                    assert(!path_lt(s[s.len() - 1], s[i]));
                    lemma_path_order(s[i], last, x);
                    lemma_path_order(x, s[i], last);
                    lemma_path_order(last, s[i], x);
                }
            } else {
                assert(r[i] == s[i] && r[j] == s[j]);
            }
        }
    }
}

proof fn lemma_sorted_paths_in_order(s: Seq<Seq<char>>)
    ensures
        in_path_order(sorted_paths(s)),
    decreases s.len(),
{
    if s.len() > 0 {
        lemma_sorted_paths_in_order(s.drop_last());
        lemma_insert_sorted_in_order(sorted_paths(s.drop_last()), s.last());
    }
}

/// What deduplicating keeps comes from the entries, in their order, and its
/// last entry names the same path as the last of them.
proof fn lemma_deduped_shape(s: Seq<Seq<char>>)
    ensures
        forall|i: int| 0 <= i < deduped(s).len() ==> exists|k: int| 0 <= k < s.len() && #[trigger] deduped(s)[i] == s[k],
        s.len() > 0 ==> deduped(s).len() > 0 && same_path(deduped(s).last(), s.last()),
        forall|i: int| 0 <= i < deduped(s).len() - 1 ==> exists|k: int| 0 <= k < s.len() - 1 && #[trigger] deduped(s)[i] == s[k],
    decreases s.len(),
{
    if s.len() > 1 {
        let d = s.drop_last();
        lemma_deduped_shape(d);
        assert forall|i: int| 0 <= i < deduped(d).len() implies exists|k: int| 0 <= k < s.len() - 1 && #[trigger] deduped(d)[i] == s[k] by {
            let k = choose|k: int| 0 <= k < d.len() && deduped(d)[i] == d[k];
            assert(s[k] == d[k]);
        }
        if same_path(s.last(), s[s.len() - 2]) {
            assert(d.last() == s[s.len() - 2]);
        } else {
            let r = deduped(d).push(s.last());
            assert forall|i: int| 0 <= i < r.len() implies exists|k: int| 0 <= k < s.len() && #[trigger] r[i] == s[k] by {
                if i == r.len() - 1 {
                    assert(r[i] == s[s.len() - 1]);
                } else {
                    let k = choose|k: int| 0 <= k < s.len() - 1 && deduped(d)[i] == s[k];
                    assert(r[i] == s[k]);
                }
            }
            assert forall|i: int| 0 <= i < r.len() - 1 implies exists|k: int| 0 <= k < s.len() - 1 && #[trigger] r[i] == s[k] by {
                let k = choose|k: int| 0 <= k < s.len() - 1 && deduped(d)[i] == s[k];
                assert(r[i] == s[k]);
            }
        }
    } else if s.len() == 1 {
        assert(deduped(s)[0] == s[0]);
    }
}

proof fn lemma_deduped_sorted(s: Seq<Seq<char>>)
    requires
        in_path_order(s),
    ensures
        in_path_order(deduped(s)),
        each_path_once(deduped(s)),
    decreases s.len(),
{
    if s.len() > 1 {
        let d = s.drop_last();
        assert(in_path_order(d));
        lemma_deduped_sorted(d);
        lemma_deduped_shape(d);
        if !same_path(s.last(), s[s.len() - 2]) {
            let dd = deduped(d);
            let r = dd.push(s.last());
            let last = s.last();
            let prev = s[s.len() - 2];
            assert forall|i: int| 0 <= i < dd.len() implies !path_lt(last, #[trigger] dd[i])
                && !same_path(dd[i], last) by {
                let k = choose|k: int| 0 <= k < d.len() && dd[i] == d[k];
                assert(dd[i] == s[k]);
                assert(!path_lt(s[s.len() - 1], s[k]));
                if k < s.len() - 2 {
                    assert(!path_lt(s[s.len() - 2], s[k]));
                }
                lemma_path_order(s[k], prev, last);
                lemma_path_order(prev, s[k], last);
                lemma_path_order(s[k], last, prev);
                lemma_path_order(last, s[k], prev);
            }
            assert forall|i: int, j: int| 0 <= i < j < r.len() implies !path_lt(
                #[trigger] r[j],
                #[trigger] r[i],
            ) && !same_path(r[i], r[j]) by {
                if j == r.len() - 1 {
                    assert(r[i] == dd[i]);
                } else {
                    assert(r[i] == dd[i] && r[j] == dd[j]);
                }
            }
        }
    }
}

/// The registry lists each repository once, in path order: whatever the
/// entries were, sorting and deduplicating them leaves no two naming the same
/// path and none sorting before one listed ahead of it.
pub proof fn the_registry_lists_each_repository_once_in_order(entries: Seq<Seq<char>>)
    ensures
        in_path_order(deduped(sorted_paths(entries))),
        each_path_once(deduped(sorted_paths(entries))),
{
    lemma_sorted_paths_in_order(entries);
    lemma_deduped_sorted(sorted_paths(entries));
}

/// The entries a registry file lists: each line trimmed, blank ones skipped.
pub open spec fn listed_spec(ls: Seq<Seq<char>>) -> Seq<Seq<char>>
    decreases ls.len(),
{
    if ls.len() == 0 {
        Seq::empty()
    } else {
        listed_spec(ls.drop_last()) + if trim(ls.last()).len() > 0 {
            seq![trim(ls.last())]
        } else {
            Seq::empty()
        }
    }
}

/// The entries a registry file lists.
pub fn listed_entries(contents: &str) -> (r: Vec<String>)
    ensures
        r.deep_view() == listed_spec(lines(contents@)),
{
    let v = chars_of(contents);
    let ls = split_lines(&v);
    let ghost all = views(ls@);
    let mut out: Vec<String> = Vec::new();
    let mut i: usize = 0;
    assert(all.take(0) =~= Seq::<Seq<char>>::empty());
    while i < ls.len()
        invariant
            i <= ls.len(),
            all == views(ls@),
            out.deep_view() == listed_spec(all.take(i as int)),
        decreases ls.len() - i,
    {
        assert(all.take(i + 1).drop_last() =~= all.take(i as int));
        assert(all.take(i + 1).last() == ls@[i as int]@);
        let t = trimmed(&ls[i]);
        let ghost before = out.deep_view();
        if t.len() > 0 {
            out.push(string_of(&t));
            assert(out.deep_view() =~= before.push(t@));
        }
        i = i + 1;
    }
    assert(all.take(ls.len() as int) =~= all);
    out
}

/// The entries still live (`live[i]` answers for `entries[i]`).
pub open spec fn live_entries(entries: Seq<Seq<char>>, live: Seq<bool>) -> Seq<Seq<char>>
    decreases entries.len(),
{
    if entries.len() == 0 {
        Seq::empty()
    } else {
        let i = entries.len() - 1;
        live_entries(entries.drop_last(), live) + if i < live.len() && live[i] {
            seq![entries.last()]
        } else {
            Seq::empty()
        }
    }
}

/// The live entries are listed entries that answered live.
proof fn lemma_live_entries_from(entries: Seq<Seq<char>>, live: Seq<bool>)
    ensures
        forall|x: Seq<char>|
            live_entries(entries, live).contains(x) ==> exists|i: int|
                0 <= i < entries.len() && i < live.len() && live[i] && #[trigger] entries[i] == x,
    decreases entries.len(),
{
    if entries.len() > 0 {
        let d = entries.drop_last();
        lemma_live_entries_from(d, live);
        let r = live_entries(entries, live);
        let t = live_entries(d, live);
        assert forall|x: Seq<char>| r.contains(x) implies exists|i: int|
            0 <= i < entries.len() && i < live.len() && live[i] && #[trigger] entries[i] == x by {
            let j = choose|j: int| 0 <= j < r.len() && r[j] == x;
            if j < t.len() {
                assert(r[j] == t[j]);
                assert(t.contains(x));
                let i = choose|i: int| 0 <= i < d.len() && i < live.len() && live[i] && #[trigger] d[i] == x;
                assert(entries[i] == d[i]);
            } else {
                assert(entries[entries.len() - 1] == x);
            }
        }
    }
}

/// A read keeps only what the file listed and what answered live: never a
/// deleted repository, a lane, or anything that is not a repository's main
/// worktree (`live[i]` answers for `entries[i]`).
pub proof fn a_read_keeps_only_listed_live_repositories(
    entries: Seq<Seq<char>>,
    live: Seq<bool>,
    x: Seq<char>,
)
    requires
        deduped(sorted_paths(live_entries(entries, live))).contains(x),
    ensures
        exists|i: int| 0 <= i < entries.len() && i < live.len() && live[i] && #[trigger] entries[i] == x,
{
    let l = live_entries(entries, live);
    let s = sorted_paths(l);
    lemma_deduped_shape(s);
    let j = choose|j: int| 0 <= j < deduped(s).len() && deduped(s)[j] == x;
    let k = choose|k: int| 0 <= k < s.len() && deduped(s)[j] == s[k];
    assert(s.contains(x));
    sorting_keeps_every_entry(l, x);
    lemma_live_entries_from(entries, live);
}

/// A listed entry that answered live is among the live entries.
proof fn lemma_live_entries_keep(entries: Seq<Seq<char>>, live: Seq<bool>, i: int)
    requires
        0 <= i < entries.len(),
        i < live.len(),
        live[i],
    ensures
        live_entries(entries, live).contains(entries[i]),
    decreases entries.len(),
{
    let r = live_entries(entries, live);
    if i == entries.len() - 1 {
        assert(r[r.len() - 1] == entries[i]);
    } else {
        let d = entries.drop_last();
        assert(d[i] == entries[i]);
        lemma_live_entries_keep(d, live, i);
        let t = live_entries(d, live);
        let j = choose|j: int| 0 <= j < t.len() && t[j] == entries[i];
        assert(r[j] == t[j]);
    }
}

/// What a read of the registry keeps, given the file's text and which listed
/// entries answered live (`live[i]` for the `i`th listed entry).
pub open spec fn read_spec(contents: Seq<char>, live: Seq<bool>) -> Seq<Seq<char>> {
    deduped(sorted_paths(live_entries(listed_spec(lines(contents)), live)))
}

/// A read of the registry keeps exactly the listed paths that answered live,
/// each once, strictly increasing in path order: nothing deleted, moved or
/// not a repository's main worktree survives, and every live one does.
pub proof fn a_read_keeps_exactly_the_listed_live_paths_in_order(contents: Seq<char>, live: Seq<bool>)
    requires
        live.len() == listed_spec(lines(contents)).len(),
    ensures
        forall|i: int, j: int|
            0 <= i < j < read_spec(contents, live).len() ==> path_lt(
                #[trigger] read_spec(contents, live)[i],
                #[trigger] read_spec(contents, live)[j],
            ),
        forall|x: Seq<char>|
            read_spec(contents, live).contains(x) ==> exists|i: int|
                0 <= i < live.len() && live[i] && #[trigger] listed_spec(lines(contents))[i] == x,
        forall|i: int|
            0 <= i < live.len() && live[i] ==> exists|j: int|
                0 <= j < read_spec(contents, live).len() && same_path(
                    #[trigger] read_spec(contents, live)[j],
                    listed_spec(lines(contents))[i],
                ),
{
    let listed = listed_spec(lines(contents));
    let l = live_entries(listed, live);
    let r = read_spec(contents, live);
    the_registry_lists_each_repository_once_in_order(l);
    assert forall|i: int, j: int| 0 <= i < j < r.len() implies path_lt(#[trigger] r[i], #[trigger] r[j]) by {
        lemma_path_order(r[i], r[j], r[j]);
    }
    assert forall|x: Seq<char>| r.contains(x) implies exists|i: int|
        0 <= i < live.len() && live[i] && #[trigger] listed[i] == x by {
        a_read_keeps_only_listed_live_repositories(listed, live, x);
    }
    assert forall|i: int| 0 <= i < live.len() && live[i] implies exists|j: int|
        0 <= j < r.len() && same_path(#[trigger] r[j], listed[i]) by {
        lemma_live_entries_keep(listed, live, i);
        sorting_keeps_every_entry(l, listed[i]);
        deduping_keeps_every_path(sorted_paths(l), listed[i]);
    }
}

/// What a read keeps of the listed entries: those that are still the main
/// worktree of a repository (`live[i]` answers for `entries[i]`), sorted in
/// path order with each repository once; and whether any was dropped, in
/// which case the file is rewritten so a moved or deleted repository is
/// never a hard error, just one fewer repository.
pub fn kept_entries(entries: &Vec<String>, live: &Vec<bool>) -> (r: (Vec<String>, bool))
    requires
        live.len() == entries.len(),
    ensures
        r.0.deep_view() == deduped(sorted_paths(live_entries(entries.deep_view(), live@))),
        r.1 == exists|i: int| 0 <= i < live.len() && !(#[trigger] live@[i]),
{
    let ghost s = entries.deep_view();
    let mut kept: Vec<String> = Vec::new();
    let mut dropped = false;
    let mut i: usize = 0;
    assert(s.take(0) =~= Seq::<Seq<char>>::empty());
    while i < entries.len()
        invariant
            i <= entries.len(),
            live.len() == entries.len(),
            s == entries.deep_view(),
            kept.deep_view() == live_entries(s.take(i as int), live@),
            dropped == exists|j: int| 0 <= j < i && !(#[trigger] live@[j]),
        decreases entries.len() - i,
    {
        let ghost t = s.take(i + 1);
        assert(t.drop_last() =~= s.take(i as int));
        assert(t.last() == entries@[i as int]@);
        let ghost before = kept.deep_view();
        if live[i] {
            kept.push(entries[i].clone());
            assert(kept.deep_view() =~= before.push(entries@[i as int]@));
        } else {
            dropped = true;
        }
        i = i + 1;
    }
    assert(s.take(entries.len() as int) =~= s);
    let sorted = sort_paths(kept);
    (dedup_paths(&sorted), dropped)
}

/// What registering `repo` writes: nothing when a listed entry already names
/// it (idempotent), otherwise the entries with it added, sorted in path
/// order with each repository once.
pub open spec fn register_spec(current: Seq<Seq<char>>, repo: Seq<char>) -> Option<Seq<Seq<char>>> {
    if exists|i: int| 0 <= i < current.len() && same_path(#[trigger] current[i], repo) {
        None
    } else {
        Some(deduped(sorted_paths(current.push(repo))))
    }
}

/// What registering `repo` (its canonical path) writes, if anything.
pub fn register_entries(current: &Vec<String>, repo: &str) -> (r: Option<Vec<String>>)
    ensures
        match register_spec(current.deep_view(), repo@) {
            None => r is None,
            Some(v) => r matches Some(x) && x.deep_view() == v,
        },
{
    let ghost s = current.deep_view();
    let mut i: usize = 0;
    while i < current.len()
        invariant
            i <= current.len(),
            s == current.deep_view(),
            forall|j: int| 0 <= j < i ==> !same_path(#[trigger] s[j], repo@),
        decreases current.len() - i,
    {
        assert(s[i as int] == current@[i as int]@);
        if is_same_path(current[i].as_str(), repo) {
            return None;
        }
        i = i + 1;
    }
    let mut next: Vec<String> = Vec::new();
    let mut k: usize = 0;
    while k < current.len()
        invariant
            k <= current.len(),
            s == current.deep_view(),
            next.deep_view() == s.take(k as int),
        decreases current.len() - k,
    {
        let ghost before = next.deep_view();
        next.push(current[k].clone());
        assert(next.deep_view() =~= before.push(s[k as int]));
        assert(s.take(k + 1) =~= s.take(k as int).push(s[k as int]));
        k = k + 1;
    }
    assert(s.take(current.len() as int) =~= s);
    let ghost before = next.deep_view();
    next.push(repo.to_owned());
    assert(next.deep_view() =~= before.push(repo@));
    let sorted = sort_paths(next);
    Some(dedup_paths(&sorted))
}

/// Registering a repository twice writes once: after the first registration
/// the repository is listed, so the second finds nothing to write.
pub proof fn registering_twice_writes_once(current: Seq<Seq<char>>, repo: Seq<char>)
    ensures
        register_spec(current, repo) matches Some(next) ==> register_spec(next, repo) is None,
{
    if let Some(next) = register_spec(current, repo) {
        let added = current.push(repo);
        assert(added.contains(repo)) by {
            assert(added[current.len() as int] == repo);
        }
        sorting_keeps_every_entry(added, repo);
        deduping_keeps_every_path(sorted_paths(added), repo);
        let j = choose|j: int| 0 <= j < next.len() && same_path(#[trigger] next[j], repo);
        assert(same_path(next[j], repo));
    }
}

/// The registry file: one entry per line.
pub open spec fn registry_text_spec(entries: Seq<Seq<char>>) -> Seq<char>
    decreases entries.len(),
{
    if entries.len() == 0 {
        Seq::empty()
    } else {
        registry_text_spec(entries.drop_last()) + entries.last() + seq!['\n']
    }
}

/// Reading up to and through a line break closes the line read so far.
proof fn lemma_lines_through(a: Seq<char>, rest: Seq<char>, cur: Seq<char>)
    requires
        forall|i: int| 0 <= i < a.len() ==> a[i] != '\n',
    ensures
        lines_from(a + seq!['\n'] + rest, cur) == seq![strip_cr(cur + a)] + lines_from(rest, seq![]),
    decreases a.len(),
{
    let s = a + seq!['\n'] + rest;
    if a.len() == 0 {
        assert(s[0] == '\n');
        assert(s.drop_first() =~= rest);
        assert(cur + a =~= cur);
    } else {
        assert(s[0] == a[0]);
        assert(s.drop_first() =~= a.drop_first() + seq!['\n'] + rest);
        lemma_lines_through(a.drop_first(), rest, cur.push(a[0]));
        assert(cur.push(a[0]) + a.drop_first() =~= cur + a);
    }
}

/// The file's text, read from the front: the first entry's line, then the rest.
proof fn lemma_text_front(s: Seq<Seq<char>>)
    requires
        s.len() > 0,
    ensures
        registry_text_spec(s) == s[0] + seq!['\n'] + registry_text_spec(s.drop_first()),
    decreases s.len(),
{
    if s.len() == 1 {
        assert(s.drop_first() =~= Seq::<Seq<char>>::empty());
        assert(s.drop_last() =~= Seq::<Seq<char>>::empty());
        assert(registry_text_spec(s.drop_last()) =~= Seq::<char>::empty());
        assert(registry_text_spec(s.drop_first()) =~= Seq::<char>::empty());
        assert(s.last() == s[0]);
        assert(registry_text_spec(s) =~= s[0] + seq!['\n'] + registry_text_spec(s.drop_first()));
    } else {
        let d = s.drop_last();
        lemma_text_front(d);
        assert(d.drop_first() =~= s.drop_first().drop_last());
        assert(s.drop_first().last() == s.last());
        assert(d[0] == s[0]);
        assert(registry_text_spec(s) =~= s[0] + seq!['\n'] + registry_text_spec(s.drop_first()));
    }
}

/// One line per entry: the lines of the file are the entries themselves.
proof fn lemma_text_lines(s: Seq<Seq<char>>)
    requires
        forall|i: int| 0 <= i < s.len() ==> #[trigger] s[i].len() > 0 && !is_ws(s[i].last()),
        forall|i: int, j: int| 0 <= i < s.len() && 0 <= j < s[i].len() ==> #[trigger] s[i][j] != '\n',
    ensures
        lines(registry_text_spec(s)) == s,
    decreases s.len(),
{
    if s.len() == 0 {
        assert(registry_text_spec(s) =~= Seq::<char>::empty());
        assert(lines(registry_text_spec(s)) =~= Seq::<Seq<char>>::empty());
    } else {
        let rest = s.drop_first();
        lemma_text_front(s);
        assert forall|j: int| 0 <= j < s[0].len() implies s[0][j] != '\n' by {
            assert(s[0][j] != '\n');
        }
        lemma_lines_through(s[0], registry_text_spec(rest), seq![]);
        assert(seq![] + s[0] =~= s[0]);
        assert(s[0].last() != '\r') by {
            assert(is_ws('\r'));
        }
        assert forall|i: int| 0 <= i < rest.len() implies #[trigger] rest[i].len() > 0 && !is_ws(rest[i].last()) by {
            assert(rest[i] == s[i + 1]);
        }
        assert forall|i: int, j: int| 0 <= i < rest.len() && 0 <= j < rest[i].len() implies #[trigger] rest[i][j] != '\n' by {
            assert(rest[i] == s[i + 1]);
            assert(s[i + 1][j] != '\n');
        }
        lemma_text_lines(rest);
        assert(seq![s[0]] + rest =~= s);
    }
}

/// Lines that are already trimmed and not empty are listed as they are.
proof fn lemma_listed_keeps(ls: Seq<Seq<char>>)
    requires
        forall|i: int| 0 <= i < ls.len() ==> #[trigger] ls[i].len() > 0 && !is_ws(ls[i][0]) && !is_ws(ls[i].last()),
    ensures
        listed_spec(ls) == ls,
    decreases ls.len(),
{
    if ls.len() > 0 {
        let d = ls.drop_last();
        assert forall|i: int| 0 <= i < d.len() implies #[trigger] d[i].len() > 0 && !is_ws(d[i][0]) && !is_ws(d[i].last()) by {
            assert(d[i] == ls[i]);
        }
        lemma_listed_keeps(d);
        let e = ls.last();
        assert(ls[ls.len() - 1] == e);
        assert(trim_start(e) == e);
        assert(trim_end(e) == e);
        assert(trim(e) == e);
        assert(listed_spec(ls) =~= d.push(e));
        assert(d.push(e) =~= ls);
    }
}

/// A registry reads back as written: entries with no line break and no
/// surrounding whitespace (as canonical paths are) come back from the file's
/// text the same, in the same order, none lost and none added.
pub proof fn a_written_registry_reads_back(entries: Seq<Seq<char>>)
    requires
        forall|i: int|
            0 <= i < entries.len() ==> #[trigger] entries[i].len() > 0 && !is_ws(entries[i][0])
                && !is_ws(entries[i].last()),
        forall|i: int, j: int|
            0 <= i < entries.len() && 0 <= j < entries[i].len() ==> #[trigger] entries[i][j] != '\n',
    ensures
        listed_spec(lines(registry_text_spec(entries))) == entries,
{
    lemma_text_lines(entries);
    lemma_listed_keeps(entries);
}

/// The registry file's text.
pub fn registry_text(entries: &Vec<String>) -> (r: String)
    ensures
        r@ == registry_text_spec(entries.deep_view()),
{
    let ghost s = entries.deep_view();
    let mut out: Vec<char> = Vec::new();
    let mut i: usize = 0;
    assert(s.take(0) =~= Seq::<Seq<char>>::empty());
    while i < entries.len()
        invariant
            i <= entries.len(),
            s == entries.deep_view(),
            out@ == registry_text_spec(s.take(i as int)),
        decreases entries.len() - i,
    {
        assert(s.take(i + 1).drop_last() =~= s.take(i as int));
        assert(s.take(i + 1).last() == entries@[i as int]@);
        extend_str(&mut out, entries[i].as_str());
        out.push('\n');
        i = i + 1;
    }
    assert(s.take(entries.len() as int) =~= s);
    string_of(&out)
}


/// Where lane keeps its state: `$XDG_STATE_HOME/lane` when that is set and
/// not empty, else `$HOME/.local/state/lane` (`.` standing in for an unset
/// home).
pub open spec fn state_dir_spec(xdg_state_home: Option<Seq<char>>, home: Option<Seq<char>>) -> Seq<char> {
    match xdg_state_home {
        Some(x) if x.len() > 0 => join_spec(x, "lane"@),
        _ => join_spec(
            match home {
                Some(h) => h,
                None => "."@,
            },
            ".local/state/lane"@,
        ),
    }
}

/// Where lane keeps its state.
pub fn state_dir(xdg_state_home: &Option<String>, home: &Option<String>) -> (r: String)
    ensures
        r@ == state_dir_spec(xdg_state_home.deep_view(), home.deep_view()),
{
    if let Some(x) = xdg_state_home {
        if !x.as_str().is_empty() {
            return join(x.as_str(), "lane");
        }
    }
    match home {
        Some(h) => join(h.as_str(), ".local/state/lane"),
        None => join(".", ".local/state/lane"),
    }
}

/// Whether a listed path is still the main worktree of a repository: git
/// finds one there, and its main root is the path's canonical spelling.
pub fn is_live_main_worktree(main_root: &Option<String>, canonical: &str) -> (r: bool)
    ensures
        r == match main_root.deep_view() {
            Some(m) => same_path(m, canonical@),
            None => false,
        },
{
    match main_root {
        Some(m) => is_same_path(m.as_str(), canonical),
        None => false,
    }
}

} // verus!
