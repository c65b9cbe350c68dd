//! `-i`/`--info`: everything there is to know about one lane, as the text
//! rows it prints and the git reports it reads them from.

use vstd::prelude::*;
use crate::global::{age_spec, commits_spec, format_age, format_commits};
use crate::paths::{is_same_path, same_path};
use crate::text::{
    chars_of, decimal, decimal_chars, extend_chars, extend_str, lines, pad_right, parse_i64,
    parse_i64_spec, push_padded, split_lines, string_of, views,
};
use crate::worktree::{name_of, name_of_spec, Lane};

verus! {

broadcast use vstd::string::group_string_axioms;

/// The widest key among the first `n` rows.
pub open spec fn key_width(keys: Seq<Seq<char>>) -> nat
    decreases keys.len(),
{
    if keys.len() == 0 {
        0
    } else {
        let w = key_width(keys.drop_last());
        if keys.last().len() > w {
            keys.last().len()
        } else {
            w
        }
    }
}

/// One row: the key padded to the widest key, two spaces, the value.
pub open spec fn info_line(key: Seq<char>, value: Seq<char>, width: nat) -> Seq<char> {
    pad_right(key, width) + "  "@ + value
}

/// The widest key is at least as wide as every key.
proof fn lemma_key_width_covers(keys: Seq<Seq<char>>)
    ensures
        forall|i: int| 0 <= i < keys.len() ==> (#[trigger] keys[i]).len() <= key_width(keys),
    decreases keys.len(),
{
    if keys.len() > 0 {
        let d = keys.drop_last();
        lemma_key_width_covers(d);
        assert forall|i: int| 0 <= i < keys.len() implies (#[trigger] keys[i]).len() <= key_width(keys) by {
            if i < d.len() {
                assert(keys[i] == d[i]);
            }
        }
    }
}

/// The values of `-i` line up in one column: every key is padded to the
/// widest, so each value begins two columns past it, whatever keys are added.
pub proof fn info_values_share_one_column(keys: Seq<Seq<char>>)
    ensures
        forall|i: int|
            0 <= i < keys.len() ==> (#[trigger] pad_right(keys[i], key_width(keys))).len()
                == key_width(keys),
{
    lemma_key_width_covers(keys);
    assert forall|i: int| 0 <= i < keys.len() implies (#[trigger] pad_right(keys[i], key_width(keys))).len()
        == key_width(keys) by {
        assert(keys[i].len() <= key_width(keys));
    }
}

/// The keys of the rows.
pub open spec fn row_keys(rows: Seq<(String, String)>) -> Seq<Seq<char>> {
    rows.map_values(|r: (String, String)| r.0@)
}

/// Keys left, values in one column: the key width is computed from the
/// widest key rather than fixed, so a row added later cannot misalign the rest.
pub fn render_rows(rows: &Vec<(String, String)>) -> (r: Vec<String>)
    ensures
        r.len() == rows.len(),
        forall|i: int|
            0 <= i < rows.len() ==> (#[trigger] r@[i])@ == info_line(
                rows@[i].0@,
                rows@[i].1@,
                key_width(row_keys(rows@)),
            ),
{
    let ghost keys = row_keys(rows@);
    let mut width: usize = 0;
    let mut i: usize = 0;
    assert(keys.take(0) =~= Seq::<Seq<char>>::empty());
    while i < rows.len()
        invariant
            i <= rows.len(),
            keys == row_keys(rows@),
            width as nat == key_width(keys.take(i as int)),
        decreases rows.len() - i,
    {
        assert(keys.take(i + 1).drop_last() =~= keys.take(i as int));
        assert(keys.take(i + 1).last() == rows@[i as int].0@);
        let k = chars_of(rows[i].0.as_str());
        if k.len() > width {
            width = k.len();
        }
        i = i + 1;
    }
    assert(keys.take(rows.len() as int) =~= keys);
    let mut out: Vec<String> = Vec::new();
    let mut j: usize = 0;
    while j < rows.len()
        invariant
            j <= rows.len(),
            width as nat == key_width(row_keys(rows@)),
            out.len() == j,
            forall|k: int|
                0 <= k < j ==> (#[trigger] out@[k])@ == info_line(
                    rows@[k].0@,
                    rows@[k].1@,
                    key_width(row_keys(rows@)),
                ),
        decreases rows.len() - j,
    {
        let key = chars_of(rows[j].0.as_str());
        let mut line: Vec<char> = Vec::new();
        push_padded(&mut line, &key, width);
        extend_str(&mut line, "  ");
        extend_str(&mut line, rows[j].1.as_str());
        assert(line@ =~= info_line(rows@[j as int].0@, rows@[j as int].1@, width as nat));
        out.push(string_of(&line));
        j = j + 1;
    }
    out
}

/// `clean`, `1 file`, or `<n> files`.
pub open spec fn uncommitted_spec(count: u32) -> Seq<char> {
    if count == 0 {
        "clean"@
    } else if count == 1 {
        "1 file"@
    } else {
        decimal(count as nat) + " files"@
    }
}

/// How many files a lane holds uncommitted, in words.
pub fn format_uncommitted(count: u32) -> (r: String)
    ensures
        r@ == uncommitted_spec(count),
{
    if count == 0 {
        return "clean".to_owned();
    }
    if count == 1 {
        return "1 file".to_owned();
    }
    let mut out = decimal_chars(count as u64);
    extend_str(&mut out, " files");
    string_of(&out)
}

/// `main`, or `main +3 -2` when the lane and its counterpart have diverged.
pub open spec fn divergence_spec(label: Seq<char>, ahead: u32, behind: u32) -> Seq<char> {
    if commits_spec(ahead, behind).len() == 0 {
        label
    } else {
        label + seq![' '] + commits_spec(ahead, behind)
    }
}

/// `main`, or `main +3 -2` when the lane and its counterpart have diverged.
pub fn format_divergence(label: &str, ahead: u32, behind: u32) -> (r: String)
    ensures
        r@ == divergence_spec(label@, ahead, behind),
{
    let commits = format_commits(ahead, behind);
    if commits.as_str().is_empty() {
        return label.to_owned();
    }
    let mut out = chars_of(label);
    out.push(' ');
    extend_str(&mut out, commits.as_str());
    string_of(&out)
}

/// `<sha> <subject> (<age> ago)`.
pub open spec fn commit_summary_spec(sha: Seq<char>, subject: Seq<char>, committed_at: i64, now: i64) -> Seq<char> {
    sha + seq![' '] + subject + " ("@ + age_spec(now - committed_at) + " ago)"@
}

/// One commit in a line: short sha, subject, and how long ago it was made.
pub fn commit_summary(sha: &str, subject: &str, committed_at: i64, now: i64) -> (r: String)
    requires
        i64::MIN <= now - committed_at <= i64::MAX,
    ensures
        r@ == commit_summary_spec(sha@, subject@, committed_at, now),
{
    let mut out = chars_of(sha);
    out.push(' ');
    extend_str(&mut out, subject);
    extend_str(&mut out, " (");
    let age = format_age(now - committed_at);
    extend_str(&mut out, age.as_str());
    extend_str(&mut out, " ago)");
    string_of(&out)
}

/// What `git log -1 --format=%h%n%s%n%ct <rev>` printed, read back: short
/// sha, subject and commit time, each on its own line; nothing when a line is
/// missing or the time is not a number.
pub open spec fn commit_info_spec(out: Seq<char>) -> Option<(Seq<char>, Seq<char>, i64)> {
    let ls = lines(out);
    if ls.len() >= 3 && parse_i64_spec(ls[2]) is Some {
        Some((ls[0], ls[1], parse_i64_spec(ls[2])->0))
    } else {
        None
    }
}

/// The `disk` row of `-i`: the estimate, already written as a size, and what
/// it measures.
pub fn format_disk(size: &str) -> (r: String)
    ensures
        r@ == size@ + " (estimate: unshared vs the main checkout)"@,
{
    let mut out = chars_of(size);
    extend_str(&mut out, " (estimate: unshared vs the main checkout)");
    string_of(&out)
}

/// What `-i` learned about one lane, as plain values.
pub struct InfoFacts {
    pub name: String,
    pub branch: String,
    pub path: String,
    pub state: String,
    /// When the lane's directory was made, as a Unix time.
    pub created_at: i64,
    /// The fork point's short sha, subject and commit time, when recorded.
    pub fork: Option<(String, String, i64)>,
    pub trunk: String,
    pub trunk_ahead: u32,
    pub trunk_behind: u32,
    /// The branch's last commit, as for `fork`.
    pub last: Option<(String, String, i64)>,
    /// The branch's upstream, if it has one.
    pub upstream: Option<String>,
    /// How far the upstream is behind and ahead of the branch, in that order.
    pub upstream_counts: Option<(u32, u32)>,
    /// Files with uncommitted changes.
    pub uncommitted: u32,
    /// The disk estimate, already written as a size.
    pub disk: String,
}

/// A commit in a row, or `fallback` when there is none.
pub open spec fn commit_cell(c: Option<(String, String, i64)>, now: i64, fallback: Seq<char>) -> Seq<char> {
    match c {
        Some((sha, subject, at)) => commit_summary_spec(sha@, subject@, at, now),
        None => fallback,
    }
}

/// The rows `-i` prints, in order: lane, branch, path, state, how long ago it
/// was created, the fork point (`(not recorded)` when there is none), trunk
/// and the divergence from it, the last commit, the upstream and the
/// divergence from it (`none` without one), uncommitted files, and disk.
pub open spec fn info_rows_spec(f: InfoFacts, now: i64) -> Seq<(Seq<char>, Seq<char>)> {
    seq![
        ("lane"@, f.name@),
        ("branch"@, f.branch@),
        ("path"@, f.path@),
        ("state"@, f.state@),
        ("created"@, age_spec(now - f.created_at) + " ago"@),
        ("forked from"@, commit_cell(f.fork, now, "(not recorded)"@)),
        ("trunk"@, divergence_spec(f.trunk@, f.trunk_ahead, f.trunk_behind)),
        ("last commit"@, commit_cell(f.last, now, Seq::empty())),
        ("upstream"@, match (f.upstream, f.upstream_counts) {
            (Some(u), Some((behind, ahead))) => divergence_spec(u@, ahead, behind),
            _ => "none"@,
        }),
        ("uncommitted"@, uncommitted_spec(f.uncommitted)),
        ("disk"@, f.disk@ + " (estimate: unshared vs the main checkout)"@),
    ]
}

/// One commit as a row's value.
fn commit_value(c: &Option<(String, String, i64)>, now: i64, fallback: &str) -> (r: String)
    requires
        *c matches Some((_, _, at)) ==> i64::MIN <= now - at <= i64::MAX,
    ensures
        r@ == commit_cell(*c, now, fallback@),
{
    match c {
        Some((sha, subject, at)) => commit_summary(sha.as_str(), subject.as_str(), *at, now),
        None => fallback.to_owned(),
    }
}

/// The rows `-i` prints about one lane, given what was learned of it and the
/// current Unix time.
pub fn info_rows(f: &InfoFacts, now: i64) -> (r: Vec<(String, String)>)
    requires
        i64::MIN <= now - f.created_at <= i64::MAX,
        f.fork matches Some((_, _, at)) ==> i64::MIN <= now - at <= i64::MAX,
        f.last matches Some((_, _, at)) ==> i64::MIN <= now - at <= i64::MAX,
    ensures
        r@.map_values(|p: (String, String)| (p.0@, p.1@)) == info_rows_spec(*f, now),
{
    proof {
        reveal_strlit("");
    }
    let mut created = chars_of(format_age(now - f.created_at).as_str());
    extend_str(&mut created, " ago");
    let upstream = match (&f.upstream, &f.upstream_counts) {
        (Some(u), Some((behind, ahead))) => format_divergence(u.as_str(), *ahead, *behind),
        _ => "none".to_owned(),
    };
    let mut out: Vec<(String, String)> = Vec::new();
    out.push(("lane".to_owned(), f.name.clone()));
    out.push(("branch".to_owned(), f.branch.clone()));
    out.push(("path".to_owned(), f.path.clone()));
    out.push(("state".to_owned(), f.state.clone()));
    out.push(("created".to_owned(), string_of(&created)));
    out.push(("forked from".to_owned(), commit_value(&f.fork, now, "(not recorded)")));
    out.push(("trunk".to_owned(), format_divergence(f.trunk.as_str(), f.trunk_ahead, f.trunk_behind)));
    out.push(("last commit".to_owned(), commit_value(&f.last, now, "")));
    out.push(("upstream".to_owned(), upstream));
    out.push(("uncommitted".to_owned(), format_uncommitted(f.uncommitted)));
    out.push(("disk".to_owned(), format_disk(f.disk.as_str())));
    let ghost want = info_rows_spec(*f, now);
    let ghost got = out@.map_values(|p: (String, String)| (p.0@, p.1@));
    assert(got[0] == want[0]);
    assert(got[1] == want[1]);
    assert(got[2] == want[2]);
    assert(got[3] == want[3]);
    assert(got[4] == want[4]);
    assert(got[5] == want[5]);
    assert(got[6] == want[6]);
    assert(got[7] == want[7]);
    assert(got[8] == want[8]);
    assert(got[9] == want[9]);
    assert(got[10] == want[10]);
    assert(got =~= want);
    out
}

/// Short sha, subject, and commit time for one revision.
pub fn commit_info(log_out: &str) -> (r: Option<(String, String, i64)>)
    ensures
        match commit_info_spec(log_out@) {
            Some((sha, subject, at)) => r matches Some((rs, rsub, rat)) && rs@ == sha && rsub@
                == subject && rat == at,
            None => r is None,
        },
{
    let v = chars_of(log_out);
    let ls = split_lines(&v);
    assert(views(ls@) == lines(log_out@));
    if ls.len() < 3 {
        return None;
    }
    assert(views(ls@)[2] == ls@[2]@);
    assert(views(ls@)[1] == ls@[1]@);
    assert(views(ls@)[0] == ls@[0]@);
    match parse_i64(&ls[2]) {
        None => None,
        Some(at) => Some((string_of(&ls[0]), string_of(&ls[1]), at)),
    }
}

/// The upstream `git for-each-ref --format=%(upstream:short)` names: none
/// when it printed nothing.
pub fn upstream_of(for_each_ref_out: &str) -> (r: Option<String>)
    ensures
        r.deep_view() == if for_each_ref_out@.len() == 0 {
            None
        } else {
            Some(for_each_ref_out@)
        },
{
    if for_each_ref_out.is_empty() {
        None
    } else {
        Some(for_each_ref_out.to_owned())
    }
}

/// The lane `-i` describes: the one named, or, with no name, the lane the
/// caller stands in (its worktree root `repo_root`, named as [`name_of`]
/// names it); standing in the main worktree with no name is an error.
pub open spec fn info_name_spec(
    name: Option<Seq<char>>,
    main_root: Seq<char>,
    repo_root: Seq<char>,
    canonical_repo_root: Seq<char>,
    canonical_lanes_dir: Seq<char>,
) -> Result<Seq<char>, Seq<char>> {
    match name {
        Some(n) => Ok(n),
        None => if same_path(repo_root, main_root) {
            Err("not inside a lane; name one: `lane -i <name>`"@)
        } else {
            Ok(name_of_spec(main_root, repo_root, canonical_repo_root, canonical_lanes_dir))
        },
    }
}

/// The lane `-i` describes.
pub fn info_name(
    name: Option<String>,
    main_root: &str,
    repo_root: &str,
    canonical_repo_root: &str,
    canonical_lanes_dir: &str,
) -> (r: Result<String, String>)
    ensures
        match info_name_spec(
            name.deep_view(),
            main_root@,
            repo_root@,
            canonical_repo_root@,
            canonical_lanes_dir@,
        ) {
            Ok(n) => r matches Ok(x) && x@ == n,
            Err(m) => r matches Err(x) && x@ == m,
        },
{
    match name {
        Some(n) => Ok(n),
        None => {
            if is_same_path(repo_root, main_root) {
                Err("not inside a lane; name one: `lane -i <name>`".to_owned())
            } else {
                Ok(name_of(main_root, repo_root, canonical_repo_root, canonical_lanes_dir))
            }
        },
    }
}

/// The branch of the listed lane called `name`, or `name` itself when none
/// is listed under it.
pub open spec fn branch_of_spec(lanes: Seq<Lane>, name: Seq<char>, i: int) -> Seq<char>
    decreases lanes.len() - i,
{
    if i < 0 || i >= lanes.len() {
        name
    } else if lanes[i].name@ == name {
        lanes[i].branch@
    } else {
        branch_of_spec(lanes, name, i + 1)
    }
}

/// The branch of the first listed lane called `name`, or `name` itself.
pub fn branch_of(lanes: &Vec<Lane>, name: &str) -> (r: String)
    ensures
        r@ == branch_of_spec(lanes@, name@, 0),
{
    let mut i: usize = 0;
    while i < lanes.len()
        invariant
            i <= lanes.len(),
            branch_of_spec(lanes@, name@, 0) == branch_of_spec(lanes@, name@, i as int),
        decreases lanes.len() - i,
    {
        if crate::text::str_eq(lanes[i].name.as_str(), name) {
            return lanes[i].branch.clone();
        }
        i = i + 1;
    }
    name.to_owned()
}

} // verus!
