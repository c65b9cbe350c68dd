//! Lane lifecycle: what a lane is, where it lives, what git's reports say
//! about it, and the decisions `create`, `list`, `remove` and landing
//! detection make from them.
//!
//! Every question here is put to git by the caller, which hands this module
//! git's output as text; the functions below decide from that text alone.

use vstd::prelude::*;
use crate::paths::{
    below, is_same_path, is_under, join, join_spec, relative_below, same_path, under,
};
use crate::text::{
    blank, chars_eq, chars_eq_str, join_with, joined_with, chars_of, contains_str, count_nonblank_lines, decimal,
    decimal_chars, extend_chars, extend_str, has_infix, has_prefix, is_blank, lines,
    nonblank_count, split_char, split_lines, split_on, starts_with_str, str_eq, string_of,
    suffix_from, trim, trimmed, views,
};

verus! {

broadcast use vstd::string::group_string_axioms;

/// The directory every lane-related path lives under, in a repository root.
pub const LANE_DIR: &'static str = ".lane";

/// Where lanes are kept below [`LANE_DIR`].
pub const TREES_DIRNAME: &'static str = "trees";

/// The lanes directory, relative to the repository root.
pub const TREES_PATH: &'static str = ".lane/trees";

/// The lanes directory of the repository rooted at `root`.
pub open spec fn lanes_dir_spec(root: Seq<char>) -> Seq<char> {
    join_spec(join_spec(root, LANE_DIR@), TREES_DIRNAME@)
}

/// The lanes directory: `<root>/.lane/trees`.
pub fn lanes_dir(root: &str) -> (r: String)
    ensures
        r@ == lanes_dir_spec(root@),
{
    let lane = join(root, LANE_DIR);
    join(lane.as_str(), TREES_DIRNAME)
}

/// Where removed lanes' ignored bulk is parked until it is unlinked.
pub fn trash_dir(root: &str) -> (r: String)
    ensures
        r@ == join_spec(lanes_dir_spec(root@), ".trash"@),
{
    let dir = lanes_dir(root);
    join(dir.as_str(), ".trash")
}

/// Where a lane's fork commit is kept: `refs/lane/<branch>`.
///
/// A ref, not a config string, so the commit stays reachable: a base branch
/// that is later reset or rewritten cannot leave it collectable.
pub fn fork_ref(branch: &str) -> (r: String)
    ensures
        r@ == "refs/lane/"@ + branch@,
{
    let mut out = chars_of("refs/lane/");
    extend_str(&mut out, branch);
    string_of(&out)
}

/// The fork point `git rev-parse --verify --quiet refs/lane/<branch>` reported:
/// none when it printed nothing.
pub fn fork_point(rev_parse_out: &str) -> (r: Option<String>)
    ensures
        r.deep_view() == if rev_parse_out@.len() == 0 {
            None
        } else {
            Some(rev_parse_out@)
        },
{
    if rev_parse_out.is_empty() {
        None
    } else {
        Some(rev_parse_out.to_owned())
    }
}

// ---------------------------------------------------------------------------
// Listing: `git worktree list --porcelain`
// ---------------------------------------------------------------------------

/// One worktree as the porcelain listing names it. `canonical` is the
/// path's canonical spelling, which the caller fills in from the filesystem
/// (it starts out as `path` itself).
#[derive(Debug, Clone)]
pub struct WorktreeRecord {
    pub path: String,
    pub branch: String,
    pub canonical: String,
}

/// A lane: a worktree under the lanes directory, with its branch.
#[derive(Debug, Clone, PartialEq, Eq)]
pub struct Lane {
    pub path: String,
    pub branch: String,
    /// The name that addresses this lane on the command line.
    pub name: String,
}

/// A lane as plain values.
pub struct LaneV {
    pub path: Seq<char>,
    pub branch: Seq<char>,
    pub name: Seq<char>,
}

impl Lane {
    pub open spec fn view_spec(&self) -> LaneV {
        LaneV { path: self.path@, branch: self.branch@, name: self.name@ }
    }
}

/// The lanes as plain values.
pub open spec fn lane_views(v: Seq<Lane>) -> Seq<LaneV> {
    v.map_values(|l: Lane| l.view_spec())
}

/// The records as `(path, branch)` pairs.
pub open spec fn record_pairs(v: Seq<WorktreeRecord>) -> Seq<(Seq<char>, Seq<char>)> {
    v.map_values(|r: WorktreeRecord| (r.path@, r.branch@))
}

/// `s` with every leading `refs/heads/` removed: `trim_start_matches`.
pub open spec fn strip_heads(s: Seq<char>) -> Seq<char>
    decreases s.len(),
{
    if "refs/heads/"@.len() > 0 && has_prefix(s, "refs/heads/"@) {
        strip_heads(s.skip("refs/heads/"@.len() as int))
    } else {
        s
    }
}

/// The worktree read so far, when it names a path.
pub open spec fn flush_record(path: Seq<char>, branch: Seq<char>) -> Seq<(Seq<char>, Seq<char>)> {
    if path.len() > 0 {
        seq![(path, branch)]
    } else {
        Seq::empty()
    }
}

/// The worktrees described by the porcelain lines `ls`, given the path and
/// branch of the block being read: a blank line ends a block, `worktree <p>`
/// names its path, `branch <ref>` its branch.
pub open spec fn records_from(ls: Seq<Seq<char>>, path: Seq<char>, branch: Seq<char>) -> Seq<
    (Seq<char>, Seq<char>),
>
    decreases ls.len(),
{
    if ls.len() == 0 {
        flush_record(path, branch)
    } else {
        let l = ls[0];
        let rest = ls.drop_first();
        if is_blank(l) {
            flush_record(path, branch) + records_from(rest, Seq::empty(), Seq::empty())
        } else if has_prefix(l, "worktree "@) {
            records_from(rest, l.skip("worktree "@.len() as int), branch)
        } else if has_prefix(l, "branch "@) {
            records_from(rest, path, strip_heads(l.skip("branch "@.len() as int)))
        } else {
            records_from(rest, path, branch)
        }
    }
}

fn strip_heads_exec(s: Vec<char>) -> (r: Vec<char>)
    ensures
        r@ == strip_heads(s@),
    decreases s.len(),
{
    proof {
        reveal_strlit("refs/heads/");
    }
    if starts_with_str(&s, "refs/heads/") {
        let rest = suffix_from(&s, 11);
        strip_heads_exec(rest)
    } else {
        s
    }
}

/// The worktrees `git worktree list --porcelain` printed, each with the path
/// it was listed under (and `canonical` equal to it) and its branch with
/// `refs/heads/` removed (empty for a detached one).
pub fn worktree_records(porcelain: &str) -> (r: Vec<WorktreeRecord>)
    ensures
        record_pairs(r@) == records_from(lines(porcelain@), Seq::empty(), Seq::empty()),
        forall|i: int| 0 <= i < r.len() ==> (#[trigger] r@[i]).canonical@ == r@[i].path@,
{
    proof {
        reveal_strlit("worktree ");
        reveal_strlit("branch ");
    }
    let text = chars_of(porcelain);
    let ls = split_lines(&text);
    let ghost all = views(ls@);
    let mut out: Vec<WorktreeRecord> = Vec::new();
    let mut path: Vec<char> = Vec::new();
    let mut branch: Vec<char> = Vec::new();
    let mut i: usize = 0;
    assert(all.skip(0) =~= all);
    assert(record_pairs(out@) + records_from(all, path@, branch@) =~= records_from(
        all,
        Seq::empty(),
        Seq::empty(),
    ));
    while i < ls.len()
        invariant
            i <= ls.len(),
            all == views(ls@),
            all == lines(porcelain@),
            all.len() == ls.len(),
            "worktree "@.len() == 9,
            "branch "@.len() == 7,
            record_pairs(out@) + records_from(all.skip(i as int), path@, branch@) == records_from(
                all,
                Seq::empty(),
                Seq::empty(),
            ),
            forall|j: int| 0 <= j < out.len() ==> (#[trigger] out@[j]).canonical@ == out@[j].path@,
        decreases ls.len() - i,
    {
        let line = &ls[i];
        let ghost rest = all.skip(i as int);
        assert(rest[0] == line@);
        assert(rest.drop_first() =~= all.skip(i + 1));
        let ghost before = record_pairs(out@);
        if blank(line) {
            if path.len() > 0 {
                let rec = WorktreeRecord {
                    path: string_of(&path),
                    branch: string_of(&branch),
                    canonical: string_of(&path),
                };
                out.push(rec);
                assert(record_pairs(out@) =~= before + flush_record(path@, branch@));
            } else {
                assert(record_pairs(out@) =~= before + flush_record(path@, branch@));
            }
            path = Vec::new();
            branch = Vec::new();
            assert(path@ =~= Seq::<char>::empty());
            assert(branch@ =~= Seq::<char>::empty());
        } else if starts_with_str(line, "worktree ") {
            path = suffix_from(line, 9);
        } else if starts_with_str(line, "branch ") {
            let b = suffix_from(line, 7);
            branch = strip_heads_exec(b);
        }
        i = i + 1;
    }
    let ghost before = record_pairs(out@);
    if path.len() > 0 {
        let rec = WorktreeRecord {
            path: string_of(&path),
            branch: string_of(&branch),
            canonical: string_of(&path),
        };
        out.push(rec);
    }
    assert(record_pairs(out@) =~= before + flush_record(path@, branch@));
    out
}

/// Whether a worktree path is a lane: whether it lives under the lanes
/// directory, read as written or, failing that, canonically.
pub open spec fn is_lane_spec(
    root: Seq<char>,
    path: Seq<char>,
    canonical_path: Seq<char>,
    canonical_dir: Seq<char>,
) -> bool {
    under(path, lanes_dir_spec(root)) || under(canonical_path, canonical_dir)
}

/// A lane's name: its path below the lanes directory, read as written or,
/// failing that, canonically; the path itself when neither lies under it.
pub open spec fn name_of_spec(
    root: Seq<char>,
    path: Seq<char>,
    canonical_path: Seq<char>,
    canonical_dir: Seq<char>,
) -> Seq<char> {
    if under(path, lanes_dir_spec(root)) {
        below(path, lanes_dir_spec(root))
    } else if under(canonical_path, canonical_dir) {
        below(canonical_path, canonical_dir)
    } else {
        path
    }
}

/// Whether a worktree path is a lane, i.e. lives under `.lane/trees/`.
///
/// A repository can hold worktrees lane did not create; those are someone
/// else's checkouts. Membership is by location, the same rule that decides
/// where a lane is created. The canonical spellings (the caller's
/// `canonicalize`, or the path itself when that fails) cover a root reported
/// under another spelling of the same directory.
pub fn is_lane(root: &str, path: &str, canonical_path: &str, canonical_dir: &str) -> (r: bool)
    ensures
        r == is_lane_spec(root@, path@, canonical_path@, canonical_dir@),
{
    let dir = lanes_dir(root);
    if is_under(path, dir.as_str()) {
        return true;
    }
    is_under(canonical_path, canonical_dir)
}

/// A lane's name is its path below `.lane/trees/`, not the last segment of
/// it: a lane on `feat/login` lives two directories deep.
pub fn name_of(root: &str, path: &str, canonical_path: &str, canonical_dir: &str) -> (r: String)
    ensures
        r@ == name_of_spec(root@, path@, canonical_path@, canonical_dir@),
{
    let dir = lanes_dir(root);
    if is_under(path, dir.as_str()) {
        return relative_below(path, dir.as_str());
    }
    if is_under(canonical_path, canonical_dir) {
        return relative_below(canonical_path, canonical_dir);
    }
    path.to_owned()
}

/// The lane a worktree record stands for, if it is one: not the main
/// worktree, and under the lanes directory. A detached one is on `detached`.
pub open spec fn lane_of(root: Seq<char>, canonical_dir: Seq<char>, rec: WorktreeRecord) -> Option<
    LaneV,
> {
    if rec.path@.len() > 0 && !same_path(rec.path@, root) && is_lane_spec(
        root,
        rec.path@,
        rec.canonical@,
        canonical_dir,
    ) {
        Some(
            LaneV {
                name: name_of_spec(root, rec.path@, rec.canonical@, canonical_dir),
                path: rec.path@,
                branch: if rec.branch@.len() == 0 {
                    "detached"@
                } else {
                    rec.branch@
                },
            },
        )
    } else {
        None
    }
}

/// The lanes among the records, in listing order.
pub open spec fn lanes_spec(root: Seq<char>, canonical_dir: Seq<char>, recs: Seq<WorktreeRecord>) -> Seq<
    LaneV,
>
    decreases recs.len(),
{
    if recs.len() == 0 {
        Seq::empty()
    } else {
        lanes_spec(root, canonical_dir, recs.drop_last()) + match lane_of(
            root,
            canonical_dir,
            recs.last(),
        ) {
            Some(l) => seq![l],
            None => Seq::empty(),
        }
    }
}

/// The lanes among the worktrees git listed: every record that is not the
/// main worktree and lives under the lanes directory (`canonical_dir` is
/// that directory's canonical spelling).
pub fn list_lanes(root: &str, canonical_dir: &str, records: &Vec<WorktreeRecord>) -> (r: Vec<Lane>)
    ensures
        lane_views(r@) == lanes_spec(root@, canonical_dir@, records@),
{
    let mut out: Vec<Lane> = Vec::new();
    let mut i: usize = 0;
    assert(records@.take(0) =~= Seq::<WorktreeRecord>::empty());
    assert(lane_views(out@) =~= Seq::<LaneV>::empty());
    while i < records.len()
        invariant
            i <= records.len(),
            lane_views(out@) == lanes_spec(root@, canonical_dir@, records@.take(i as int)),
        decreases records.len() - i,
    {
        let rec = &records[i];
        assert(records@.take(i + 1).drop_last() =~= records@.take(i as int));
        assert(records@.take(i + 1).last() == *rec);
        let ghost before = lane_views(out@);
        if !rec.path.as_str().is_empty() && !is_same_path(rec.path.as_str(), root) && is_lane(
            root,
            rec.path.as_str(),
            rec.canonical.as_str(),
            canonical_dir,
        ) {
            let name = name_of(root, rec.path.as_str(), rec.canonical.as_str(), canonical_dir);
            let branch = if rec.branch.as_str().is_empty() {
                "detached".to_owned()
            } else {
                rec.branch.clone()
            };
            let lane = Lane { path: rec.path.clone(), branch, name };
            out.push(lane);
            assert(lane_views(out@) =~= before.push(lane_of(root@, canonical_dir@, *rec)->0));
        } else {
            assert(lane_of(root@, canonical_dir@, *rec) is None);
        }
        i = i + 1;
    }
    assert(records@.take(records.len() as int) =~= records@);
    out
}

/// No main worktree, and nothing outside the lanes directory, is ever listed
/// as a lane.
pub proof fn listed_lanes_live_under_the_lanes_dir(
    root: Seq<char>,
    canonical_dir: Seq<char>,
    recs: Seq<WorktreeRecord>,
    k: int,
)
    requires
        0 <= k < lanes_spec(root, canonical_dir, recs).len(),
    ensures
        exists|i: int|
            0 <= i < recs.len() && (#[trigger] recs[i]).path@ == lanes_spec(root, canonical_dir, recs)[k].path
                && !same_path(recs[i].path@, root) && is_lane_spec(
                root,
                recs[i].path@,
                recs[i].canonical@,
                canonical_dir,
            ),
    decreases recs.len(),
{
    let prefix = lanes_spec(root, canonical_dir, recs.drop_last());
    if k < prefix.len() {
        listed_lanes_live_under_the_lanes_dir(root, canonical_dir, recs.drop_last(), k);
        let i = choose|i: int|
            0 <= i < recs.drop_last().len() && (#[trigger] recs.drop_last()[i]).path@ == prefix[k].path
                && !same_path(recs.drop_last()[i].path@, root) && is_lane_spec(
                root,
                recs.drop_last()[i].path@,
                recs.drop_last()[i].canonical@,
                canonical_dir,
            );
        assert(recs[i] == recs.drop_last()[i]);
    } else {
        let i = recs.len() - 1;
        assert(recs[i] == recs.last());
    }
}


/// Every worktree git lists that is a lane is listed: each record that is not
/// the main worktree and lives under the lanes directory appears, as the lane
/// it stands for, and the listing keeps git's order.
pub proof fn every_lane_git_lists_is_listed(
    root: Seq<char>,
    canonical_dir: Seq<char>,
    recs: Seq<WorktreeRecord>,
    i: int,
)
    requires
        0 <= i < recs.len(),
        lane_of(root, canonical_dir, recs[i]) is Some,
    ensures
        lanes_spec(root, canonical_dir, recs).contains(lane_of(root, canonical_dir, recs[i])->0),
        lanes_spec(root, canonical_dir, recs.take(i)) + seq![lane_of(root, canonical_dir, recs[i])->0]
            == lanes_spec(root, canonical_dir, recs.take(i + 1)),
    decreases recs.len(),
{
    let l = lane_of(root, canonical_dir, recs[i])->0;
    assert(recs.take(i + 1).drop_last() =~= recs.take(i));
    assert(recs.take(i + 1).last() == recs[i]);
    if i == recs.len() - 1 {
        assert(recs.drop_last() =~= recs.take(i));
        let t = lanes_spec(root, canonical_dir, recs);
        assert(t.last() == l);
        assert(t[t.len() - 1] == l);
    } else {
        let d = recs.drop_last();
        assert(d[i] == recs[i]);
        every_lane_git_lists_is_listed(root, canonical_dir, d, i);
        let p = lanes_spec(root, canonical_dir, d);
        let k = choose|k: int| 0 <= k < p.len() && p[k] == l;
        let t = lanes_spec(root, canonical_dir, recs);
        assert(t[k] == p[k]);
        assert(d.take(i) =~= recs.take(i));
        assert(d.take(i + 1) =~= recs.take(i + 1));
    }
}

// ---------------------------------------------------------------------------
// What git's reports say about one lane
// ---------------------------------------------------------------------------

/// Tracked changes only (`git status --porcelain --untracked-files=no`):
/// untracked files do not block a rebase.
pub fn is_dirty(status_out: &str) -> (r: bool)
    ensures
        r == !is_blank(status_out@),
{
    let v = chars_of(status_out);
    !blank(&v)
}

/// Git's own name for a branch its remote retired: upstream configured, ref
/// no longer there (`%(upstream:track)` reads `[gone]`).
pub fn upstream_gone(track_out: &str) -> (r: bool)
    ensures
        r == (trim(track_out@) == "[gone]"@),
{
    let v = chars_of(track_out);
    let t = trimmed(&v);
    chars_eq_str(&t, "[gone]")
}

/// Whether a branch holds any commit of its own beyond where it forked: its
/// tip is not its recorded fork point. An unrecorded fork answers yes: a lane
/// this tool did not create is judged on its refs alone.
pub fn started(fork: &Option<String>, tip: &str) -> (r: bool)
    ensures
        r == match fork.deep_view() {
            None => true,
            Some(f) => tip@ != f,
        },
{
    match fork {
        None => true,
        Some(f) => !str_eq(tip, f.as_str()),
    }
}

/// Whether a lane's work has reached trunk. A lane that has committed nothing
/// never has; otherwise a retired upstream and containment in trunk are two
/// proofs of arrival, either one sufficient. (The caller asks for the later
/// proofs only when the earlier answers leave the question open.)
pub fn landed(started: bool, upstream_gone: bool, contained: bool) -> (r: bool)
    ensures
        r == (started && (upstream_gone || contained)),
{
    if !started {
        return false;
    }
    upstream_gone || contained
}

/// A lane's state in a listing.
pub open spec fn lane_state_spec(landed: bool, upstream: Seq<char>, head: Seq<char>) -> Seq<char> {
    if landed {
        "landed"@
    } else if upstream.len() > 0 && head == upstream {
        "pushed"@
    } else {
        "open"@
    }
}

/// A lane's `open`/`pushed`/`landed` state: landed first, else pushed when its
/// `HEAD` is what `@{upstream}` resolves to, else open.
pub fn lane_state(landed: bool, upstream: &str, head: &str) -> (r: &'static str)
    ensures
        r@ == lane_state_spec(landed, upstream@, head@),
        landed ==> r@ == "landed"@,
{
    if landed {
        return "landed";
    }
    if !upstream.is_empty() && str_eq(head, upstream) {
        return "pushed";
    }
    "open"
}

/// What removing a lane destroys for good: uncommitted changes (counted from
/// `git status --porcelain` in the lane, when its directory exists) and, for a
/// branch that exists, has commits of its own and has not landed, commits
/// trunk does not have.
pub open spec fn losses_spec(
    status: Option<Seq<char>>,
    branch_exists: bool,
    started: bool,
    landed: bool,
    trunk: Seq<char>,
) -> Seq<Seq<char>> {
    (match status {
        Some(s) => if nonblank_count(lines(s)) > 0 {
            seq![decimal(nonblank_count(lines(s))) + " uncommitted change(s)"@]
        } else {
            Seq::empty()
        },
        None => Seq::empty(),
    }) + (if branch_exists && started && !landed {
        seq!["commits "@ + trunk + " does not have"@]
    } else {
        Seq::empty()
    })
}

/// What removing this lane destroys for good. Empty means nothing is at
/// stake. No commit count: a squash merge leaves commits whose patches landed
/// inside one of trunk's, so a count would overstate what is at risk.
pub fn losses(status: Option<&str>, branch_exists: bool, started: bool, landed: bool, trunk: &str) -> (r:
    Vec<String>)
    ensures
        r.deep_view() == losses_spec(
            match status {
                Some(s) => Some(s@),
                None => None,
            },
            branch_exists,
            started,
            landed,
            trunk@,
        ),
        forall|s: &str|
            status == Some(s) && nonblank_count(lines(s@)) > 0 ==> r.deep_view().contains(
                decimal(nonblank_count(lines(s@))) + " uncommitted change(s)"@,
            ),
{
    proof {
        if let Some(s) = status {
            if nonblank_count(lines(s@)) > 0 {
                uncommitted_work_is_always_a_loss(s@, branch_exists, started, landed, trunk@);
            }
        }
    }
    let mut out: Vec<String> = Vec::new();
    if let Some(s) = status {
        let changed = count_nonblank_lines(s);
        if changed > 0 {
            let mut m = decimal_chars(changed as u64);
            extend_str(&mut m, " uncommitted change(s)");
            out.push(string_of(&m));
        }
    }
    let ghost first = out.deep_view();
    if branch_exists && started && !landed {
        let mut m = chars_of("commits ");
        extend_str(&mut m, trunk);
        extend_str(&mut m, " does not have");
        out.push(string_of(&m));
    }
    assert(out.deep_view() =~= losses_spec(
        match status {
            Some(s) => Some(s@),
            None => None,
        },
        branch_exists,
        started,
        landed,
        trunk@,
    ));
    out
}

/// A lane whose work has landed and whose tree holds no uncommitted change
/// loses nothing when removed: this is the guard `--prune` relies on.
pub proof fn a_clean_landed_lane_loses_nothing(
    status: Option<Seq<char>>,
    branch_exists: bool,
    started: bool,
    trunk: Seq<char>,
)
    requires
        status matches Some(s) ==> nonblank_count(lines(s)) == 0,
    ensures
        losses_spec(status, branch_exists, started, true, trunk).len() == 0,
{
}

/// A lane with commits of its own that have not landed always reports that
/// loss, so a plain delete refuses it.
pub proof fn unlanded_commits_are_a_loss(
    status: Option<Seq<char>>,
    trunk: Seq<char>,
)
    ensures
        losses_spec(status, true, true, false, trunk).contains(
            "commits "@ + trunk + " does not have"@,
        ),
{
    let l = losses_spec(status, true, true, false, trunk);
    assert(l[l.len() - 1] == "commits "@ + trunk + " does not have"@);
}

// ---------------------------------------------------------------------------
// Containment in trunk, one git question at a time
// ---------------------------------------------------------------------------

/// Every commit `git cherry` listed already has an equivalent in trunk: the
/// report is not empty and each of its lines starts with `-`.
pub open spec fn all_landed_spec(cherry: Seq<char>) -> bool {
    cherry.len() > 0 && forall|i: int|
        0 <= i < lines(cherry).len() ==> has_prefix(#[trigger] lines(cherry)[i], seq!['-'])
}

/// Whether a `git cherry` report says every commit already landed.
pub fn all_landed(cherry: &str) -> (r: bool)
    ensures
        r == all_landed_spec(cherry@),
{
    let v = chars_of(cherry);
    if v.len() == 0 {
        return false;
    }
    let ls = split_lines(&v);
    let ghost lv = views(ls@);
    let dash: Vec<char> = vec!['-'];
    assert(dash@ =~= seq!['-']);
    let mut i: usize = 0;
    while i < ls.len()
        invariant
            i <= ls.len(),
            lv == views(ls@),
            lv == lines(cherry@),
            dash@ == seq!['-'],
            forall|j: int| 0 <= j < i ==> has_prefix(#[trigger] lv[j], seq!['-']),
        decreases ls.len() - i,
    {
        if !crate::text::starts_with(&ls[i], &dash) {
            assert(!has_prefix(lv[i as int], seq!['-']));
            return false;
        }
        i = i + 1;
    }
    true
}

/// The next git question containment needs answered.
#[derive(Debug, Clone, Copy, PartialEq, Eq)]
pub enum ContainmentQuestion {
    /// `git merge-base --is-ancestor <branch> <trunk>` succeeded?
    IsAncestor,
    /// `git cherry <trunk> <branch>`.
    Cherry,
    /// `git merge-base <trunk> <branch>`.
    MergeBase,
    /// `git rev-parse <branch>^{tree}`.
    BranchTree,
    /// `git rev-parse <merge-base>^{tree}`.
    BaseTree,
    /// `git commit-tree <tree> -p <merge-base> -m "lane: containment probe"`.
    Probe,
    /// `git cherry <trunk> <probe>`.
    ProbeCherry,
}

/// The answers gathered so far; `None` is a question not asked yet, and an
/// inner `None` a git command that failed.
#[derive(Debug, Clone)]
pub struct ContainmentEvidence {
    pub is_ancestor: Option<bool>,
    pub cherry: Option<String>,
    pub merge_base: Option<Option<String>>,
    pub branch_tree: Option<Option<String>>,
    pub base_tree: Option<Option<String>>,
    pub probe: Option<Option<String>>,
    pub probe_cherry: Option<String>,
}

/// Either the next question, or the answer.
#[derive(Debug, Clone, Copy, PartialEq, Eq)]
pub enum Containment {
    Ask(ContainmentQuestion),
    Contained(bool),
}

/// Is everything on a branch already represented in trunk? Three answers for
/// the three ways a branch merges. A merge commit leaves the branch an
/// ancestor. A rebase merge replays each commit, so `git cherry` finds each
/// patch in trunk. A squash merge matches none of them one by one, so the
/// branch's whole diff is rebuilt as one probe commit on the merge base and
/// `git cherry` looks for that patch; a branch whose tree equals the merge
/// base's has no patch at all and is contained outright. A failed git command
/// on the squash path answers no.
pub open spec fn containment_spec(e: ContainmentEvidence) -> Containment {
    match e.is_ancestor {
        None => Containment::Ask(ContainmentQuestion::IsAncestor),
        Some(true) => Containment::Contained(true),
        Some(false) => match e.cherry {
            None => Containment::Ask(ContainmentQuestion::Cherry),
            Some(c) => if all_landed_spec(c@) {
                Containment::Contained(true)
            } else {
                match e.merge_base {
                    None => Containment::Ask(ContainmentQuestion::MergeBase),
                    Some(None) => Containment::Contained(false),
                    Some(Some(_)) => match e.branch_tree {
                        None => Containment::Ask(ContainmentQuestion::BranchTree),
                        Some(None) => Containment::Contained(false),
                        Some(Some(tree)) => match e.base_tree {
                            None => Containment::Ask(ContainmentQuestion::BaseTree),
                            Some(bt) => if bt matches Some(b) && b@ == tree@ {
                                Containment::Contained(true)
                            } else {
                                match e.probe {
                                    None => Containment::Ask(ContainmentQuestion::Probe),
                                    Some(None) => Containment::Contained(false),
                                    Some(Some(_)) => match e.probe_cherry {
                                        None => Containment::Ask(ContainmentQuestion::ProbeCherry),
                                        Some(pc) => Containment::Contained(all_landed_spec(pc@)),
                                    },
                                }
                            },
                        },
                    },
                }
            },
        },
    }
}

/// The next step of the containment check, given the answers so far.
pub fn contained_in(e: &ContainmentEvidence) -> (r: Containment)
    ensures
        r == containment_spec(*e),
{
    match e.is_ancestor {
        None => { return Containment::Ask(ContainmentQuestion::IsAncestor); },
        Some(true) => { return Containment::Contained(true); },
        Some(false) => {},
    }
    let cherry = match &e.cherry {
        None => { return Containment::Ask(ContainmentQuestion::Cherry); },
        Some(c) => c,
    };
    if all_landed(cherry.as_str()) {
        return Containment::Contained(true);
    }
    match &e.merge_base {
        None => { return Containment::Ask(ContainmentQuestion::MergeBase); },
        Some(None) => { return Containment::Contained(false); },
        Some(Some(_)) => {},
    }
    let tree = match &e.branch_tree {
        None => { return Containment::Ask(ContainmentQuestion::BranchTree); },
        Some(None) => { return Containment::Contained(false); },
        Some(Some(t)) => t,
    };
    match &e.base_tree {
        None => { return Containment::Ask(ContainmentQuestion::BaseTree); },
        Some(Some(b)) => {
            if str_eq(b.as_str(), tree.as_str()) {
                return Containment::Contained(true);
            }
        },
        Some(None) => {},
    }
    match &e.probe {
        None => { return Containment::Ask(ContainmentQuestion::Probe); },
        Some(None) => { return Containment::Contained(false); },
        Some(Some(_)) => {},
    }
    match &e.probe_cherry {
        None => Containment::Ask(ContainmentQuestion::ProbeCherry),
        Some(pc) => Containment::Contained(all_landed(pc.as_str())),
    }
}

/// A branch that is an ancestor of trunk is contained, whatever else is known.
pub proof fn an_ancestor_is_contained(e: ContainmentEvidence)
    requires
        e.is_ancestor == Some(true),
    ensures
        containment_spec(e) == Containment::Contained(true),
{
}


/// Proof of a merge commit or fast-forward: the branch is an ancestor.
pub open spec fn merged_as_ancestor(e: ContainmentEvidence) -> bool {
    e.is_ancestor == Some(true)
}

/// Proof of a rebase merge: `git cherry trunk branch` finds every commit's
/// patch in trunk.
pub open spec fn merged_by_rebase(e: ContainmentEvidence) -> bool {
    e.cherry matches Some(c) && all_landed_spec(c@)
}

/// Proof of an empty diff: the branch's tree is its merge base's.
pub open spec fn merged_with_no_diff(e: ContainmentEvidence) -> bool {
    &&& e.merge_base matches Some(Some(_))
    &&& e.branch_tree matches Some(Some(t))
    &&& e.base_tree matches Some(Some(b))
    &&& b@ == t@
}

/// Proof of a squash merge: the probe commit (the branch's tree on the merge
/// base) has its patch in trunk.
pub open spec fn merged_by_squash(e: ContainmentEvidence) -> bool {
    &&& e.merge_base matches Some(Some(_))
    &&& e.branch_tree matches Some(Some(_))
    &&& e.probe matches Some(Some(_))
    &&& e.probe_cherry matches Some(pc)
    &&& all_landed_spec(pc@)
}

/// Once the containment check answers, its answer is exactly whether one of
/// the four proofs holds among the answers git gave: ancestry, a rebase
/// merge, an empty diff, or a squash merge.
pub proof fn containment_is_one_of_four_proofs(e: ContainmentEvidence)
    requires
        containment_spec(e) is Contained,
    ensures
        containment_spec(e) == Containment::Contained(
            merged_as_ancestor(e) || merged_by_rebase(e) || merged_with_no_diff(e)
                || merged_by_squash(e),
        ),
{
}

// ---------------------------------------------------------------------------
// Trunk and base
// ---------------------------------------------------------------------------

/// The names tried for trunk, in order: the branch `origin/HEAD` points at
/// (from `git symbolic-ref --short refs/remotes/origin/HEAD`, without its
/// `origin/`), then `main`, `master` and `trunk`.
pub open spec fn trunk_candidates_spec(origin_head: Seq<char>) -> Seq<Seq<char>> {
    (if has_prefix(origin_head, "origin/"@) {
        seq![origin_head.skip("origin/"@.len() as int)]
    } else {
        Seq::empty()
    }) + seq!["main"@, "master"@, "trunk"@]
}

/// The names tried for trunk, in order.
pub fn trunk_candidates(origin_head: &str) -> (r: Vec<String>)
    ensures
        r.deep_view() == trunk_candidates_spec(origin_head@),
{
    proof {
        reveal_strlit("origin/");
    }
    let v = chars_of(origin_head);
    let mut out: Vec<String> = Vec::new();
    if starts_with_str(&v, "origin/") {
        let rest = suffix_from(&v, 7);
        out.push(string_of(&rest));
    }
    out.push("main".to_owned());
    out.push("master".to_owned());
    out.push("trunk".to_owned());
    assert(out.deep_view() =~= trunk_candidates_spec(origin_head@));
    out
}

/// The first candidate at or after `i` that git verified, if any.
pub open spec fn first_verified(c: Seq<Seq<char>>, verified: Seq<bool>, i: int) -> Option<Seq<char>>
    decreases c.len() - i,
{
    if i < 0 || i >= c.len() || i >= verified.len() {
        None
    } else if verified[i] {
        Some(c[i])
    } else {
        first_verified(c, verified, i + 1)
    }
}

/// The repository's trunk (its default branch, used to decide whether a
/// lane's branch has landed): the first candidate `git rev-parse --verify` knows
/// (`verified[i]` answers for `candidates[i]`; the caller may stop asking at
/// the first yes), else whatever `HEAD` is on.
pub fn trunk_name(candidates: &Vec<String>, verified: &Vec<bool>, head: &str) -> (r: String)
    ensures
        r@ == match first_verified(candidates.deep_view(), verified@, 0) {
            Some(t) => t,
            None => head@,
        },
{
    let ghost c = candidates.deep_view();
    let mut i: usize = 0;
    while i < candidates.len() && i < verified.len()
        invariant
            i <= candidates.len(),
            c == candidates.deep_view(),
            first_verified(c, verified@, 0) == first_verified(c, verified@, i as int),
        decreases candidates.len() - i,
    {
        if verified[i] {
            return candidates[i].clone();
        }
        i = i + 1;
    }
    head.to_owned()
}

/// A new lane's default base: the branch the main worktree is on, unless it is
/// detached (`HEAD`) or unknown, in which case trunk.
pub fn new_base(head_branch: &str, trunk: &str) -> (r: String)
    ensures
        r@ == if head_branch@.len() > 0 && head_branch@ != "HEAD"@ {
            head_branch@
        } else {
            trunk@
        },
{
    if !head_branch.is_empty() && !str_eq(head_branch, "HEAD") {
        head_branch.to_owned()
    } else {
        trunk.to_owned()
    }
}

// ---------------------------------------------------------------------------
// Creating a lane
// ---------------------------------------------------------------------------

/// How a new lane's working tree is filled.
#[derive(Debug, Clone, Copy, PartialEq, Eq)]
pub enum Materialization {
    /// A plain worktree: tracked files only.
    Plain,
    /// Tracked files, and the ignored entries cloned by reference.
    Ignored,
    /// The whole parent tree cloned by reference, uncommitted work included.
    Dirty,
    /// Explicit --dirty without reflink: the caches are not worth a byte copy,
    /// the handful of edited files is.
    DirtyPlain,
}

/// How a new lane is filled, given `--dirty` and whether the filesystem can
/// clone by reference.
pub fn materialization(dirty: bool, reflink: bool) -> (r: Materialization)
    ensures
        r == if dirty {
            if reflink {
                Materialization::Dirty
            } else {
                Materialization::DirtyPlain
            }
        } else if reflink {
            Materialization::Ignored
        } else {
            Materialization::Plain
        },
{
    if dirty {
        if reflink {
            Materialization::Dirty
        } else {
            Materialization::DirtyPlain
        }
    } else if reflink {
        Materialization::Ignored
    } else {
        Materialization::Plain
    }
}

/// The tail of `git worktree add`: an existing branch is checked out as is,
/// a new one is created from the base.
pub fn branch_args(adopt: bool, name: &str, dest: &str, base: &str) -> (r: Vec<String>)
    ensures
        r.deep_view() == if adopt {
            seq![dest@, name@]
        } else {
            seq!["-b"@, name@, dest@, base@]
        },
{
    let mut out: Vec<String> = Vec::new();
    if adopt {
        out.push(dest.to_owned());
        out.push(name.to_owned());
    } else {
        out.push("-b".to_owned());
        out.push(name.to_owned());
        out.push(dest.to_owned());
        out.push(base.to_owned());
    }
    assert(out.deep_view() =~= if adopt {
        seq![dest@, name@]
    } else {
        seq!["-b"@, name@, dest@, base@]
    });
    out
}

/// The arguments of `git worktree add` for a new lane: `--no-checkout` when the
/// whole tree is about to be cloned in, `--track` when the lane continues a
/// remote branch, then [`branch_args`].
pub fn worktree_add_args(mode: Materialization, track: bool, adopt: bool, name: &str, dest: &str, base: &str) -> (r: Vec<String>)
    ensures
        r.deep_view() == (if mode == Materialization::Dirty {
            seq!["--no-checkout"@]
        } else {
            Seq::empty()
        }) + (if track {
            seq!["--track"@]
        } else {
            Seq::empty()
        }) + (if adopt {
            seq![dest@, name@]
        } else {
            seq!["-b"@, name@, dest@, base@]
        }),
{
    let mut out: Vec<String> = Vec::new();
    if matches!(mode, Materialization::Dirty) {
        out.push("--no-checkout".to_owned());
    }
    if track {
        out.push("--track".to_owned());
    }
    let tail = branch_args(adopt, name, dest, base);
    let ghost head = out.deep_view();
    let mut i: usize = 0;
    while i < tail.len()
        invariant
            i <= tail.len(),
            out.deep_view() == head + tail.deep_view().take(i as int),
        decreases tail.len() - i,
    {
        let ghost before = out.deep_view();
        out.push(tail[i].clone());
        assert(out.deep_view() =~= before.push(tail.deep_view()[i as int]));
        assert(tail.deep_view().take(i + 1) =~= tail.deep_view().take(i as int).push(
            tail.deep_view()[i as int],
        ));
        i = i + 1;
    }
    assert(tail.deep_view().take(tail.len() as int) =~= tail.deep_view());
    assert(head =~= (if mode == Materialization::Dirty {
        seq!["--no-checkout"@]
    } else {
        Seq::empty()
    }) + (if track {
        seq!["--track"@]
    } else {
        Seq::empty()
    }));
    out
}

/// Where a new lane branches from, and whether it tracks a remote branch.
pub open spec fn creation_base_spec(
    name: Seq<char>,
    adopt: bool,
    base: Option<Seq<char>>,
    upstream: Seq<Seq<char>>,
    default_base: Seq<char>,
) -> Result<(Seq<char>, bool), Seq<char>> {
    if adopt && base is Some {
        Err("branch "@ + name + " already exists; --base applies only to a new branch"@)
    } else if !adopt && base is None && upstream.len() > 1 {
        Err(name + " exists on more than one remote ("@ + joined_with(upstream, ", "@)
            + "); name one with --base"@)
    } else {
        let track = !adopt && base is None && upstream.len() == 1;
        match base {
            Some(b) => Ok((b, track)),
            None => if !adopt && upstream.len() > 0 {
                Ok((upstream[0], track))
            } else {
                Ok((default_base, track))
            },
        }
    }
}

/// Where a new lane branches from. An existing branch is adopted, not
/// recreated, and then `--base` is refused. A lane named after a branch that
/// exists on exactly one remote (`upstream` lists the fetched
/// `<remote>/<name>` refs) continues that work and tracks it; more than one is
/// ambiguous and refused. Otherwise the explicit base, else the default.
pub fn creation_base(name: &str, adopt: bool, base: &Option<String>, upstream: &Vec<String>, default_base: &str) -> (r: Result<(String, bool), String>)
    ensures
        match creation_base_spec(name@, adopt, base.deep_view(), upstream.deep_view(), default_base@) {
            Ok((b, t)) => r matches Ok((rb, rt)) && rb@ == b && rt == t,
            Err(m) => r matches Err(rm) && rm@ == m,
        },
{
    if adopt && base.is_some() {
        let mut m = chars_of("branch ");
        extend_str(&mut m, name);
        extend_str(&mut m, " already exists; --base applies only to a new branch");
        return Err(string_of(&m));
    }
    if !adopt && base.is_none() && upstream.len() > 1 {
        let mut m = chars_of(name);
        extend_str(&mut m, " exists on more than one remote (");
        let list = join_with(upstream, ", ");
        extend_str(&mut m, list.as_str());
        extend_str(&mut m, "); name one with --base");
        return Err(string_of(&m));
    }
    let track = !adopt && base.is_none() && upstream.len() == 1;
    match base {
        Some(b) => Ok((b.clone(), track)),
        None => {
            if !adopt && upstream.len() > 0 {
                Ok((upstream[0].clone(), track))
            } else {
                Ok((default_base.to_owned(), track))
            }
        },
    }
}

/// The notes a new lane prints before its path: reflink support, what a
/// missing reflink means, the branch it tracks, and uncommitted work left
/// behind (`carried` tracked changes in the parent tree) when `--dirty` was
/// not given.
pub open spec fn creation_notes_spec(
    name: Seq<char>,
    reflink: bool,
    detail: Seq<char>,
    track: bool,
    base: Seq<char>,
    dirty: bool,
    carried: nat,
) -> Seq<Seq<char>> {
    seq!["reflink: "@ + (if reflink { "yes"@ } else { "no"@ }) + " ("@ + detail + ")"@] + (if !reflink {
        seq!["no reflink here; leaving a plain worktree"@]
    } else {
        Seq::empty()
    }) + (if track {
        seq!["branched from "@ + base + " and tracking it"@]
    } else {
        Seq::empty()
    }) + (if !dirty && carried > 0 {
        seq![
            "warning: "@ + decimal(carried)
                + " uncommitted change(s) were not carried\n    lane -D "@ + name + " && lane "@
                + name + " --dirty   to start over with them"@,
        ]
    } else {
        Seq::empty()
    })
}

/// The notes a new lane prints before its path.
pub fn creation_notes(name: &str, reflink: bool, detail: &str, track: bool, base: &str, dirty: bool, carried: usize) -> (r: Vec<String>)
    ensures
        r.deep_view() == creation_notes_spec(name@, reflink, detail@, track, base@, dirty, carried as nat),
{
    let mut out: Vec<String> = Vec::new();
    let mut first = chars_of("reflink: ");
    if reflink {
        extend_str(&mut first, "yes");
    } else {
        extend_str(&mut first, "no");
    }
    extend_str(&mut first, " (");
    extend_str(&mut first, detail);
    extend_str(&mut first, ")");
    out.push(string_of(&first));
    if !reflink {
        out.push("no reflink here; leaving a plain worktree".to_owned());
    }
    if track {
        let mut m = chars_of("branched from ");
        extend_str(&mut m, base);
        extend_str(&mut m, " and tracking it");
        out.push(string_of(&m));
    }
    if !dirty && carried > 0 {
        let mut m = chars_of("warning: ");
        let n = decimal_chars(carried as u64);
        extend_chars(&mut m, &n);
        extend_str(&mut m, " uncommitted change(s) were not carried\n    lane -D ");
        extend_str(&mut m, name);
        extend_str(&mut m, " && lane ");
        extend_str(&mut m, name);
        extend_str(&mut m, " --dirty   to start over with them");
        out.push(string_of(&m));
    }
    assert(out.deep_view() =~= creation_notes_spec(name@, reflink, detail@, track, base@, dirty, carried as nat));
    out
}


// ---------------------------------------------------------------------------
// Reading `git status` and friends
// ---------------------------------------------------------------------------

/// How many bytes UTF-8 spends on `c`.
pub open spec fn char_bytes(c: char) -> nat {
    if (c as u32) < 0x80 {
        1
    } else if (c as u32) < 0x800 {
        2
    } else if (c as u32) < 0x10000 {
        3
    } else {
        4
    }
}

fn char_bytes_exec(c: char) -> (r: usize)
    ensures
        r == char_bytes(c),
{
    let u = c as u32;
    if u < 0x80 {
        1
    } else if u < 0x800 {
        2
    } else if u < 0x10000 {
        3
    } else {
        4
    }
}

/// What follows the first `n` bytes of `s`: `str::get(n..)`, which is
/// nothing when `s` is shorter or byte `n` falls inside a character.
pub open spec fn after_bytes(s: Seq<char>, n: nat) -> Option<Seq<char>>
    decreases s.len(),
{
    if n == 0 {
        Some(s)
    } else if s.len() == 0 {
        None
    } else if char_bytes(s[0]) > n {
        None
    } else {
        after_bytes(s.drop_first(), (n - char_bytes(s[0])) as nat)
    }
}

fn after_bytes_exec(s: &Vec<char>, n: usize) -> (r: Option<Vec<char>>)
    ensures
        match after_bytes(s@, n as nat) {
            Some(t) => r matches Some(v) && v@ == t,
            None => r is None,
        },
{
    let mut left: usize = n;
    let mut i: usize = 0;
    assert(s@.skip(0) =~= s@);
    while left > 0
        invariant
            i <= s.len(),
            left <= n,
            after_bytes(s@, n as nat) == after_bytes(s@.skip(i as int), left as nat),
        decreases left,
    {
        if i >= s.len() {
            return None;
        }
        let b = char_bytes_exec(s[i]);
        assert(s@.skip(i as int)[0] == s@[i as int]);
        assert(s@.skip(i as int).drop_first() =~= s@.skip(i + 1));
        if b > left {
            return None;
        }
        left = left - b;
        i = i + 1;
    }
    Some(suffix_from(s, i))
}

/// Whether the first two bytes of a status entry hold an `R` or a `C`: a
/// rename or copy, whose source path follows as the next entry.
pub open spec fn renamed_or_copied(e: Seq<char>) -> bool {
    (e.len() > 0 && (e[0] == 'R' || e[0] == 'C')) || (e.len() > 1 && char_bytes(e[0]) == 1 && (
    e[1] == 'R' || e[1] == 'C'))
}

/// The paths the `-z` status entries `es` name: the `## ` branch header is
/// skipped, each entry's path follows its three-byte status, and a rename or
/// copy also names its source, the entry after it.
pub open spec fn tracked_from(es: Seq<Seq<char>>) -> Seq<Seq<char>>
    decreases es.len(),
{
    if es.len() == 0 {
        Seq::empty()
    } else {
        let e = es[0];
        let rest = es.drop_first();
        if has_prefix(e, "## "@) {
            tracked_from(rest)
        } else {
            match after_bytes(e, 3) {
                None => tracked_from(rest),
                Some(path) => if renamed_or_copied(e) && rest.len() > 0 {
                    seq![path, rest[0]] + tracked_from(rest.drop_first())
                } else {
                    seq![path] + tracked_from(rest)
                },
            }
        }
    }
}

/// The paths `git status --porcelain -z --branch` reports as changed, both
/// sides of a rename included.
pub fn tracked_changes(status: &str) -> (r: Vec<String>)
    ensures
        r.deep_view() == tracked_from(split_on(status@, '\0')),
{
    let v = chars_of(status);
    let es = split_char(&v, '\0');
    let ghost all = views(es@);
    let mut out: Vec<String> = Vec::new();
    let mut i: usize = 0;
    assert(all.skip(0) =~= all);
    assert(out.deep_view() + tracked_from(all) =~= tracked_from(all));
    while i < es.len()
        invariant
            i <= es.len(),
            all == views(es@),
            all == split_on(status@, '\0'),
            out.deep_view() + tracked_from(all.skip(i as int)) == tracked_from(all),
        decreases es.len() - i,
    {
        let e = &es[i];
        let ghost rest = all.skip(i as int);
        assert(rest[0] == e@);
        assert(rest.drop_first() =~= all.skip(i + 1));
        let ghost before = out.deep_view();
        if starts_with_str(e, "## ") {
            i = i + 1;
        } else {
            match after_bytes_exec(e, 3) {
                None => {
                    i = i + 1;
                },
                Some(path) => {
                    out.push(string_of(&path));
                    let rc = (e.len() > 0 && (e[0] == 'R' || e[0] == 'C')) || (e.len() > 1
                        && char_bytes_exec(e[0]) == 1 && (e[1] == 'R' || e[1] == 'C'));
                    if rc && i + 1 < es.len() {
                        out.push(string_of(&es[i + 1]));
                        assert(rest.drop_first()[0] == es@[i + 1]@);
                        assert(rest.drop_first().drop_first() =~= all.skip(i + 2));
                        assert(out.deep_view() =~= before + seq![path@, rest.drop_first()[0]]);
                        i = i + 2;
                    } else {
                        assert(out.deep_view() =~= before + seq![path@]);
                        i = i + 1;
                    }
                },
            }
        }
    }
    assert(all.skip(i as int).len() == 0);
    assert(out.deep_view() =~= tracked_from(all));
    out
}

/// The paths in `ps` that are also among `incoming`.
pub open spec fn among(ps: Seq<Seq<char>>, incoming: Seq<Seq<char>>) -> Seq<Seq<char>>
    decreases ps.len(),
{
    if ps.len() == 0 {
        Seq::empty()
    } else {
        among(ps.drop_last(), incoming) + if incoming.contains(ps.last()) {
            seq![ps.last()]
        } else {
            Seq::empty()
        }
    }
}

/// The non-empty pieces of a `-z` listing.
pub open spec fn nonempty(ps: Seq<Seq<char>>) -> Seq<Seq<char>>
    decreases ps.len(),
{
    if ps.len() == 0 {
        Seq::empty()
    } else {
        nonempty(ps.drop_last()) + if ps.last().len() > 0 {
            seq![ps.last()]
        } else {
            Seq::empty()
        }
    }
}

fn nonempty_pieces(text: &str) -> (r: Vec<Vec<char>>)
    ensures
        views(r@) == nonempty(split_on(text@, '\0')),
{
    let v = chars_of(text);
    let ps = split_char(&v, '\0');
    let ghost all = views(ps@);
    let mut out: Vec<Vec<char>> = Vec::new();
    let mut i: usize = 0;
    assert(all.take(0) =~= Seq::<Seq<char>>::empty());
    assert(views(out@) =~= Seq::<Seq<char>>::empty());
    while i < ps.len()
        invariant
            i <= ps.len(),
            all == views(ps@),
            views(out@) == nonempty(all.take(i as int)),
        decreases ps.len() - i,
    {
        assert(all.take(i + 1).drop_last() =~= all.take(i as int));
        assert(all.take(i + 1).last() == ps@[i as int]@);
        let ghost before = views(out@);
        if ps[i].len() > 0 {
            out.push(ps[i].clone());
            assert(views(out@) =~= before.push(ps@[i as int]@));
        }
        i = i + 1;
    }
    assert(all.take(ps.len() as int) =~= all);
    out
}

fn contains_chars(hay: &Vec<Vec<char>>, x: &Vec<char>) -> (r: bool)
    ensures
        r == views(hay@).contains(x@),
{
    let mut i: usize = 0;
    while i < hay.len()
        invariant
            i <= hay.len(),
            forall|j: int| 0 <= j < i ==> hay@[j]@ != x@,
        decreases hay.len() - i,
    {
        if chars_eq(&hay[i], x) {
            assert(views(hay@)[i as int] == x@);
            return true;
        }
        i = i + 1;
    }
    assert forall|j: int| 0 <= j < views(hay@).len() implies views(hay@)[j] != x@ by {
        assert(views(hay@)[j] == hay@[j]@);
    }
    false
}

/// Files a fast-forward would overwrite in the main worktree: empty unless
/// the main worktree is on trunk, else the changed tracked paths
/// (`git status --porcelain -z --branch --untracked-files=no`) that the
/// branch also changes (`git diff --name-only --no-renames -z trunk..branch`).
pub open spec fn blocking_spec(head: Seq<char>, trunk: Seq<char>, incoming: Seq<char>, status: Seq<char>) -> Seq<Seq<char>> {
    if head != trunk {
        Seq::empty()
    } else {
        among(tracked_from(split_on(status, '\0')), nonempty(split_on(incoming, '\0')))
    }
}

/// Files a fast-forward would overwrite in the main worktree. Empty means the
/// branch can land.
pub fn blocking_changes(head: &str, trunk: &str, incoming: &str, status: &str) -> (r: Vec<String>)
    ensures
        r.deep_view() == blocking_spec(head@, trunk@, incoming@, status@),
{
    if !str_eq(head, trunk) {
        return Vec::new();
    }
    let inc = nonempty_pieces(incoming);
    let changed = tracked_changes(status);
    let ghost c = changed.deep_view();
    let mut out: Vec<String> = Vec::new();
    let mut i: usize = 0;
    assert(c.take(0) =~= Seq::<Seq<char>>::empty());
    while i < changed.len()
        invariant
            i <= changed.len(),
            c == changed.deep_view(),
            out.deep_view() == among(c.take(i as int), views(inc@)),
        decreases changed.len() - i,
    {
        assert(c.take(i + 1).drop_last() =~= c.take(i as int));
        assert(c.take(i + 1).last() == changed@[i as int]@);
        let p = chars_of(changed[i].as_str());
        let ghost before = out.deep_view();
        if contains_chars(&inc, &p) {
            out.push(changed[i].clone());
            assert(out.deep_view() =~= before.push(changed@[i as int]@));
        } else {
            assert(out.deep_view() =~= before + Seq::<Seq<char>>::empty());
        }
        i = i + 1;
    }
    assert(c.take(changed.len() as int) =~= c);
    out
}

/// `s` without its trailing `/`s: `trim_end_matches('/')`.
pub open spec fn strip_slashes(s: Seq<char>) -> Seq<char>
    decreases s.len(),
{
    if s.len() > 0 && s.last() == '/' {
        strip_slashes(s.drop_last())
    } else {
        s
    }
}

fn strip_slashes_exec(s: &Vec<char>) -> (r: Vec<char>)
    ensures
        r@ == strip_slashes(s@),
{
    let mut n: usize = s.len();
    assert(s@.take(n as int) =~= s@);
    while n > 0 && s[n - 1] == '/'
        invariant
            n <= s.len(),
            strip_slashes(s@) == strip_slashes(s@.take(n as int)),
        decreases n,
    {
        assert(s@.take(n as int).drop_last() =~= s@.take(n - 1));
        n = n - 1;
    }
    let r = crate::text::prefix_to(s, n);
    assert(r@.len() == 0 || r@.last() != '/');
    r
}

/// The entries `git status --porcelain -z --ignored` reports as ignored
/// (`!! <path>`), each without a trailing `/`, leaving out empty ones and
/// `.git`.
pub open spec fn ignored_spec(es: Seq<Seq<char>>) -> Seq<Seq<char>>
    decreases es.len(),
{
    if es.len() == 0 {
        Seq::empty()
    } else {
        let e = es.last();
        let p = strip_slashes(e.skip("!! "@.len() as int));
        ignored_spec(es.drop_last()) + if has_prefix(e, "!! "@) && p.len() > 0 && p != ".git"@ {
            seq![p]
        } else {
            Seq::empty()
        }
    }
}

/// Entries git will not materialize: exactly what a fresh worktree is
/// missing, already collapsed to directory roots. (The caller drops those
/// that hold a checkout, see [`holds_a_checkout`].)
pub fn ignored_candidates(status_z: &str) -> (r: Vec<String>)
    ensures
        r.deep_view() == ignored_spec(split_on(status_z@, '\0')),
{
    proof {
        reveal_strlit("!! ");
    }
    let v = chars_of(status_z);
    let es = split_char(&v, '\0');
    let ghost all = views(es@);
    let mut out: Vec<String> = Vec::new();
    let mut i: usize = 0;
    assert(all.take(0) =~= Seq::<Seq<char>>::empty());
    while i < es.len()
        invariant
            i <= es.len(),
            all == views(es@),
            "!! "@.len() == 3,
            out.deep_view() == ignored_spec(all.take(i as int)),
        decreases es.len() - i,
    {
        assert(all.take(i + 1).drop_last() =~= all.take(i as int));
        assert(all.take(i + 1).last() == es@[i as int]@);
        let e = &es[i];
        let ghost before = out.deep_view();
        if starts_with_str(e, "!! ") {
            let rest = suffix_from(e, 3);
            let p = strip_slashes_exec(&rest);
            if p.len() > 0 && !chars_eq_str(&p, ".git") {
                out.push(string_of(&p));
                assert(out.deep_view() =~= before.push(p@));
            }
        }
        i = i + 1;
    }
    assert(all.take(es.len() as int) =~= all);
    out
}

/// Whether an ignored entry holds a checkout rather than a build cache: it is
/// the lanes directory or one of its ancestors, or another checkout of this
/// repository lies strictly inside it (`canonical_entry` is the entry's
/// canonical path, `checkouts` those of every checkout).
pub open spec fn holds_a_checkout_spec(
    base: Seq<char>,
    entry: Seq<char>,
    canonical_entry: Seq<char>,
    checkouts: Seq<Seq<char>>,
) -> bool {
    let path = join_spec(base, entry);
    same_path(path, lanes_dir_spec(base)) || under(lanes_dir_spec(base), path) || exists|i: int|
        0 <= i < checkouts.len() && !same_path(#[trigger] checkouts[i], canonical_entry) && under(
            checkouts[i],
            canonical_entry,
        )
}

/// Whether an ignored entry holds a checkout rather than a build cache. git
/// collapses an ignored directory to its shallowest root, so an entry can be
/// an ancestor of the lanes directory; and a directory holding another tool's
/// worktrees is a checkout too. Neither is a cache worth carrying.
pub fn holds_a_checkout(base: &str, entry: &str, canonical_entry: &str, checkouts: &Vec<String>) -> (r: bool)
    ensures
        r == holds_a_checkout_spec(base@, entry@, canonical_entry@, checkouts.deep_view()),
{
    let path = join(base, entry);
    let dir = lanes_dir(base);
    if is_same_path(path.as_str(), dir.as_str()) || is_under(dir.as_str(), path.as_str()) {
        return true;
    }
    let ghost c = checkouts.deep_view();
    let mut i: usize = 0;
    while i < checkouts.len()
        invariant
            i <= checkouts.len(),
            c == checkouts.deep_view(),
            forall|j: int|
                0 <= j < i ==> !(!same_path(#[trigger] c[j], canonical_entry@) && under(
                    c[j],
                    canonical_entry@,
                )),
        decreases checkouts.len() - i,
    {
        let ch = checkouts[i].as_str();
        assert(c[i as int] == ch@);
        if !is_same_path(ch, canonical_entry) && is_under(ch, canonical_entry) {
            return true;
        }
        i = i + 1;
    }
    false
}

/// The paths of every checkout `git worktree list --porcelain` names.
pub open spec fn checkout_paths_spec(ls: Seq<Seq<char>>) -> Seq<Seq<char>>
    decreases ls.len(),
{
    if ls.len() == 0 {
        Seq::empty()
    } else {
        checkout_paths_spec(ls.drop_last()) + if has_prefix(ls.last(), "worktree "@) {
            seq![ls.last().skip("worktree "@.len() as int)]
        } else {
            Seq::empty()
        }
    }
}

/// Every checkout of this repository, as listed (the caller canonicalizes
/// them so a path can be compared to one).
pub fn checkout_paths(porcelain: &str) -> (r: Vec<String>)
    ensures
        r.deep_view() == checkout_paths_spec(lines(porcelain@)),
{
    proof {
        reveal_strlit("worktree ");
    }
    let v = chars_of(porcelain);
    let ls = split_lines(&v);
    let ghost all = views(ls@);
    let mut out: Vec<String> = Vec::new();
    let mut i: usize = 0;
    assert(all.take(0) =~= Seq::<Seq<char>>::empty());
    while i < ls.len()
        invariant
            i <= ls.len(),
            all == views(ls@),
            "worktree "@.len() == 9,
            out.deep_view() == checkout_paths_spec(all.take(i as int)),
        decreases ls.len() - i,
    {
        assert(all.take(i + 1).drop_last() =~= all.take(i as int));
        assert(all.take(i + 1).last() == ls@[i as int]@);
        let ghost before = out.deep_view();
        if starts_with_str(&ls[i], "worktree ") {
            let p = suffix_from(&ls[i], 9);
            out.push(string_of(&p));
            assert(out.deep_view() =~= before.push(p@));
        }
        i = i + 1;
    }
    assert(all.take(ls.len() as int) =~= all);
    out
}

/// Uncommitted work: tracked files that differ from `HEAD`
/// (`git diff --name-only -z HEAD`), then untracked non-ignored ones
/// (`git ls-files --others --exclude-standard -z`), empty pieces dropped.
pub fn uncommitted(diff_z: &str, others_z: &str) -> (r: Vec<String>)
    ensures
        r.deep_view() == nonempty(split_on(diff_z@, '\0')) + nonempty(split_on(others_z@, '\0')),
{
    let a = nonempty_pieces(diff_z);
    let b = nonempty_pieces(others_z);
    let mut out: Vec<String> = Vec::new();
    let mut i: usize = 0;
    while i < a.len()
        invariant
            i <= a.len(),
            out.deep_view() == views(a@).take(i as int),
        decreases a.len() - i,
    {
        let x = string_of(&a[i]);
        assert(x@ == views(a@)[i as int]);
        let ghost before = out.deep_view();
        out.push(x);
        assert(out.deep_view() =~= before.push(views(a@)[i as int]));
        assert(views(a@).take(i + 1) =~= views(a@).take(i as int).push(views(a@)[i as int]));
        i = i + 1;
    }
    assert(views(a@).take(a.len() as int) =~= views(a@));
    let mut j: usize = 0;
    while j < b.len()
        invariant
            j <= b.len(),
            out.deep_view() == views(a@) + views(b@).take(j as int),
        decreases b.len() - j,
    {
        let x = string_of(&b[j]);
        assert(x@ == views(b@)[j as int]);
        let ghost before = out.deep_view();
        out.push(x);
        assert(out.deep_view() =~= before.push(views(b@)[j as int]));
        assert(views(b@).take(j + 1) =~= views(b@).take(j as int).push(views(b@)[j as int]));
        assert(out.deep_view() =~= views(a@) + views(b@).take(j + 1));
        j = j + 1;
    }
    assert(views(b@).take(b.len() as int) =~= views(b@));
    out
}

/// The remote-tracking names a lane called `name` could continue: one
/// `<remote>/<name>` per remote `git remote` lists (trimmed, blank lines
/// skipped). The caller keeps those `git rev-parse --verify` knows: only refs
/// already fetched count.
pub open spec fn upstream_candidates_spec(ls: Seq<Seq<char>>, name: Seq<char>) -> Seq<Seq<char>>
    decreases ls.len(),
{
    if ls.len() == 0 {
        Seq::empty()
    } else {
        upstream_candidates_spec(ls.drop_last(), name) + if trim(ls.last()).len() > 0 {
            seq![trim(ls.last()) + seq!['/'] + name]
        } else {
            Seq::empty()
        }
    }
}

/// One `<remote>/<name>` per remote.
pub fn upstream_candidates(remotes: &str, name: &str) -> (r: Vec<String>)
    ensures
        r.deep_view() == upstream_candidates_spec(lines(remotes@), name@),
{
    let v = chars_of(remotes);
    let ls = split_lines(&v);
    let ghost all = views(ls@);
    let mut out: Vec<String> = Vec::new();
    let mut i: usize = 0;
    assert(all.take(0) =~= Seq::<Seq<char>>::empty());
    while i < ls.len()
        invariant
            i <= ls.len(),
            all == views(ls@),
            out.deep_view() == upstream_candidates_spec(all.take(i as int), name@),
        decreases ls.len() - i,
    {
        assert(all.take(i + 1).drop_last() =~= all.take(i as int));
        assert(all.take(i + 1).last() == ls@[i as int]@);
        let t = trimmed(&ls[i]);
        let ghost before = out.deep_view();
        if t.len() > 0 {
            let ghost tv = t@;
            let mut m = t;
            m.push('/');
            extend_str(&mut m, name);
            assert(m@ =~= tv + seq!['/'] + name@);
            let x = string_of(&m);
            out.push(x);
            assert(out.deep_view() =~= before.push(trim(ls@[i as int]@) + seq!['/'] + name@));
        }
        i = i + 1;
    }
    assert(all.take(ls.len() as int) =~= all);
    out
}

/// Whether `git worktree add --relative-paths` failed only because this git
/// predates the option (git 2.48 added it): its message names the option
/// as unknown or unrecognized. Then the add is retried without it.
pub fn rejects_relative_paths(message: &str) -> (r: bool)
    ensures
        r == (has_infix(message@, "relative-paths"@) && (has_infix(message@, "unknown option"@)
            || has_infix(message@, "unrecognized option"@))),
{
    let v = chars_of(message);
    contains_str(&v, "relative-paths") && (contains_str(&v, "unknown option") || contains_str(
        &v,
        "unrecognized option",
    ))
}

/// The entries `git config --get-all lane.exclude` names, trailing `/`s
/// removed and empty ones dropped: ignored entries never to clone.
pub open spec fn excluded_spec(ls: Seq<Seq<char>>) -> Seq<Seq<char>>
    decreases ls.len(),
{
    if ls.len() == 0 {
        Seq::empty()
    } else {
        excluded_spec(ls.drop_last()) + if strip_slashes(ls.last()).len() > 0 {
            seq![strip_slashes(ls.last())]
        } else {
            Seq::empty()
        }
    }
}

/// Ignored entries the repository asks never to clone.
pub fn excluded(config_out: &str) -> (r: Vec<String>)
    ensures
        r.deep_view() == excluded_spec(lines(config_out@)),
{
    let v = chars_of(config_out);
    let ls = split_lines(&v);
    let ghost all = views(ls@);
    let mut out: Vec<String> = Vec::new();
    let mut i: usize = 0;
    assert(all.take(0) =~= Seq::<Seq<char>>::empty());
    while i < ls.len()
        invariant
            i <= ls.len(),
            all == views(ls@),
            out.deep_view() == excluded_spec(all.take(i as int)),
        decreases ls.len() - i,
    {
        assert(all.take(i + 1).drop_last() =~= all.take(i as int));
        assert(all.take(i + 1).last() == ls@[i as int]@);
        let p = strip_slashes_exec(&ls[i]);
        let ghost before = out.deep_view();
        if p.len() > 0 {
            out.push(string_of(&p));
            assert(out.deep_view() =~= before.push(p@));
        }
        i = i + 1;
    }
    assert(all.take(ls.len() as int) =~= all);
    out
}

// ---------------------------------------------------------------------------
// Removing and landing
// ---------------------------------------------------------------------------

/// True while git still has a worktree registered at `dest`: some listed
/// lane's path is `dest`, or, when `dest` has a canonical spelling, some
/// lane's canonical path is that (`canonical_lane_paths[i]` answers for
/// `lane_paths[i]`, `None` where canonicalizing failed).
pub open spec fn registered_spec(
    lane_paths: Seq<Seq<char>>,
    canonical_lane_paths: Seq<Option<Seq<char>>>,
    dest: Seq<char>,
    canonical_dest: Option<Seq<char>>,
) -> bool {
    exists|i: int|
        0 <= i < lane_paths.len() && registered_at(
            #[trigger] lane_paths[i],
            if i < canonical_lane_paths.len() {
                canonical_lane_paths[i]
            } else {
                None
            },
            dest,
            canonical_dest,
        )
}

/// One listed lane is registered at `dest`.
pub open spec fn registered_at(
    path: Seq<char>,
    canonical_path: Option<Seq<char>>,
    dest: Seq<char>,
    canonical_dest: Option<Seq<char>>,
) -> bool {
    same_path(path, dest) || match (canonical_path, canonical_dest) {
        (Some(c), Some(t)) => same_path(c, t),
        _ => false,
    }
}

/// Whether git still has a worktree registered at `dest`, prunable ones
/// included.
pub fn registered(lane_paths: &Vec<String>, canonical_lane_paths: &Vec<Option<String>>, dest: &str, canonical_dest: &Option<String>) -> (r: bool)
    ensures
        r == registered_spec(
            lane_paths.deep_view(),
            canonical_lane_paths.deep_view(),
            dest@,
            canonical_dest.deep_view(),
        ),
{
    let ghost lp = lane_paths.deep_view();
    let ghost cp = canonical_lane_paths.deep_view();
    let mut i: usize = 0;
    while i < lane_paths.len()
        invariant
            i <= lane_paths.len(),
            lp == lane_paths.deep_view(),
            cp == canonical_lane_paths.deep_view(),
            forall|j: int|
                0 <= j < i ==> !registered_at(
                    #[trigger] lp[j],
                    if j < cp.len() {
                        cp[j]
                    } else {
                        None
                    },
                    dest@,
                    canonical_dest.deep_view(),
                ),
        decreases lane_paths.len() - i,
    {
        assert(lp[i as int] == lane_paths@[i as int]@);
        if is_same_path(lane_paths[i].as_str(), dest) {
            return true;
        }
        if let Some(t) = canonical_dest {
            if i < canonical_lane_paths.len() {
                assert(cp[i as int] == canonical_lane_paths@[i as int].deep_view());
                if let Some(c) = &canonical_lane_paths[i] {
                    if is_same_path(c.as_str(), t.as_str()) {
                        return true;
                    }
                }
            }
        }
        i = i + 1;
    }
    false
}

/// What removing a lane does: its worktree goes when git still registers one,
/// its branch when one exists; with neither there is no such lane. A lane
/// deleted by hand leaves a branch and no worktree, and skipping the absent
/// worktree is what lets removal clean up after that.
pub fn removal(name: &str, branch_exists: bool, worktree_registered: bool) -> (r: Result<(bool, bool), String>)
    ensures
        branch_exists || worktree_registered ==> r == Ok::<(bool, bool), String>((worktree_registered, branch_exists)),
        !branch_exists && !worktree_registered ==> (r matches Err(m) && m@ == "no lane "@ + name@),
{
    if !branch_exists && !worktree_registered {
        let mut m = chars_of("no lane ");
        extend_str(&mut m, name);
        return Err(string_of(&m));
    }
    Ok((worktree_registered, branch_exists))
}

/// How trunk is advanced to a branch.
#[derive(Debug, Clone, Copy, PartialEq, Eq)]
pub enum FastForward {
    /// Trunk is checked out in the main worktree: `git merge --ff-only`.
    Merge,
    /// Trunk is not checked out: `git update-ref refs/heads/<trunk>`.
    UpdateRef,
}

/// Advance trunk to branch: merge when trunk is checked out (`head` is what
/// the main worktree is on), update the ref when it is not, and refuse when
/// trunk has moved past the merge base (`merge_base` and `trunk_tip` are the
/// commits git resolves; they are read only when trunk is not checked out).
pub fn fast_forward(head: &str, trunk: &str, branch: &str, merge_base: &str, trunk_tip: &str) -> (r: Result<FastForward, String>)
    ensures
        head@ == trunk@ ==> r == Ok::<FastForward, String>(FastForward::Merge),
        head@ != trunk@ && merge_base@ == trunk_tip@ ==> r == Ok::<FastForward, String>(FastForward::UpdateRef),
        head@ != trunk@ && merge_base@ != trunk_tip@ ==> (r matches Err(m) && m@ == "trunk "@ + trunk@
            + " has diverged from "@ + branch@ + "; rebase first"@),
{
    if str_eq(head, trunk) {
        return Ok(FastForward::Merge);
    }
    if !str_eq(merge_base, trunk_tip) {
        let mut m = chars_of("trunk ");
        extend_str(&mut m, trunk);
        extend_str(&mut m, " has diverged from ");
        extend_str(&mut m, branch);
        extend_str(&mut m, "; rebase first");
        return Err(string_of(&m));
    }
    Ok(FastForward::UpdateRef)
}


/// Whether the caller's working directory (canonical) lies in the lane being
/// removed (canonical): then the process moves to the main root first, and
/// says so.
pub fn standing_inside(cwd: &str, dest: &str) -> (r: bool)
    ensures
        r == under(cwd@, dest@),
{
    is_under(cwd, dest)
}

/// What the disk walk never enters, given a path relative to the lane: git's
/// own directory and the lanes directory (the walk's own root, the empty
/// path, is not skipped).
pub fn walk_skips(rel: &str) -> (r: bool)
    ensures
        r == (under(rel@, ".git"@) || under(rel@, ".lane"@)),
{
    is_under(rel, ".git") || is_under(rel, ".lane")
}

/// The line `.git/info/exclude` gets so the lanes directory is never
/// committed: `.lane/trees/`.
pub fn exclude_line() -> (r: String)
    ensures
        r@ == TREES_PATH@ + seq!['/'],
{
    let mut v = chars_of(TREES_PATH);
    v.push('/');
    string_of(&v)
}

/// What appending `line` to a file holding `existing` writes: nothing when
/// the line is already there, otherwise the line and a newline, after a
/// newline of its own when the file does not end in one.
pub open spec fn appended_spec(existing: Seq<char>, line: Seq<char>) -> Option<Seq<char>> {
    if has_infix(existing, line) {
        None
    } else if existing.len() > 0 && existing.last() != '\n' {
        Some(seq!['\n'] + line + seq!['\n'])
    } else {
        Some(line + seq!['\n'])
    }
}

/// What appending `line` to a file holding `existing` writes, if anything.
pub fn appended(existing: &str, line: &str) -> (r: Option<String>)
    ensures
        r.deep_view() == appended_spec(existing@, line@),
{
    let e = chars_of(existing);
    let l = chars_of(line);
    if crate::text::contains_seq(&e, &l) {
        return None;
    }
    let mut out: Vec<char> = Vec::new();
    if e.len() > 0 && e[e.len() - 1] != '\n' {
        out.push('\n');
    }
    extend_chars(&mut out, &l);
    out.push('\n');
    assert(out@ =~= appended_spec(existing@, line@)->0);
    Some(string_of(&out))
}


/// Appending a line is idempotent: once written, appending the same line
/// again writes nothing, so the exclude file names the lanes directory once
/// however often lanes are created.
pub proof fn appending_a_line_twice_writes_once(existing: Seq<char>, line: Seq<char>)
    requires
        appended_spec(existing, line) is Some,
    ensures
        appended_spec(existing + appended_spec(existing, line)->0, line) is None,
{
    let added = appended_spec(existing, line)->0;
    let after = existing + added;
    let at: int = if existing.len() > 0 && existing.last() != '\n' {
        existing.len() + 1int
    } else {
        existing.len() as int
    };
    assert(after.subrange(at, at + line.len()) =~= line);
}


// ---------------------------------------------------------------------------
// Filling a new lane
// ---------------------------------------------------------------------------

/// The ignored entries a new lane clones: those the repository does not
/// exclude, in the order git listed them.
pub open spec fn clone_entries_spec(ignored: Seq<Seq<char>>, excluded: Seq<Seq<char>>) -> Seq<Seq<char>>
    decreases ignored.len(),
{
    if ignored.len() == 0 {
        Seq::empty()
    } else {
        clone_entries_spec(ignored.drop_last(), excluded) + if excluded.contains(ignored.last()) {
            Seq::empty()
        } else {
            seq![ignored.last()]
        }
    }
}

/// Whether `excluded` holds `entry`.
fn holds_entry(excluded: &Vec<String>, entry: &String) -> (r: bool)
    ensures
        r == excluded.deep_view().contains(entry@),
{
    let mut i: usize = 0;
    while i < excluded.len()
        invariant
            i <= excluded.len(),
            forall|j: int| 0 <= j < i ==> excluded.deep_view()[j] != entry@,
        decreases excluded.len() - i,
    {
        assert(excluded.deep_view()[i as int] == excluded@[i as int]@);
        if str_eq(excluded[i].as_str(), entry.as_str()) {
            return true;
        }
        i = i + 1;
    }
    false
}

/// The ignored entries a new lane clones: those `lane.exclude` does not name.
pub fn clone_entries(ignored: &Vec<String>, excluded: &Vec<String>) -> (r: Vec<String>)
    ensures
        r.deep_view() == clone_entries_spec(ignored.deep_view(), excluded.deep_view()),
        forall|x: Seq<char>|
            #![trigger r.deep_view().contains(x)]
            r.deep_view().contains(x) <==> ignored.deep_view().contains(x)
                && !excluded.deep_view().contains(x),
{
    proof {
        assert forall|x: Seq<char>|
            #![trigger clone_entries_spec(ignored.deep_view(), excluded.deep_view()).contains(x)]
            clone_entries_spec(ignored.deep_view(), excluded.deep_view()).contains(x)
                <==> ignored.deep_view().contains(x) && !excluded.deep_view().contains(x) by {
            an_entry_is_cloned_exactly_when_not_excluded(ignored.deep_view(), excluded.deep_view(), x);
        }
    }
    let ghost all = ignored.deep_view();
    let mut out: Vec<String> = Vec::new();
    let mut i: usize = 0;
    assert(all.take(0) =~= Seq::<Seq<char>>::empty());
    while i < ignored.len()
        invariant
            i <= ignored.len(),
            all == ignored.deep_view(),
            out.deep_view() == clone_entries_spec(all.take(i as int), excluded.deep_view()),
        decreases ignored.len() - i,
    {
        assert(all.take(i + 1).drop_last() =~= all.take(i as int));
        assert(all.take(i + 1).last() == ignored@[i as int]@);
        let ghost before = out.deep_view();
        if !holds_entry(excluded, &ignored[i]) {
            out.push(ignored[i].clone());
            assert(out.deep_view() =~= before.push(ignored@[i as int]@));
        } else {
            assert(out.deep_view() =~= before);
        }
        i = i + 1;
    }
    assert(all.take(ignored.len() as int) =~= all);
    out
}

/// Whether a `--dirty` clone of the main tree skips an entry (its path
/// relative to the root): git's own directory, and a directory that holds
/// another checkout (`holds_checkout`, asked of the filesystem), which is a
/// working tree and not a cache worth carrying.
pub fn clone_skips(rel: &str, is_dir: bool, holds_checkout: bool) -> (r: bool)
    ensures
        r == (rel@ == ".git"@ || has_prefix(rel@, ".git/"@) || (is_dir && holds_checkout)),
{
    let v = chars_of(rel);
    str_eq(rel, ".git") || starts_with_str(&v, ".git/") || (is_dir && holds_checkout)
}

/// The note a `--dirty` lane cloned from the main tree prints: how many
/// uncommitted changes came along, when any did.
pub fn carried_from_parent_note(carried: usize) -> (r: Option<String>)
    ensures
        carried == 0 ==> r is None,
        carried > 0 ==> (r matches Some(m) && m@ == "carried "@ + decimal(carried as nat)
            + " uncommitted change(s) from the parent tree"@),
{
    if carried == 0 {
        return None;
    }
    let mut out = chars_of("carried ");
    let n = decimal_chars(carried as u64);
    extend_chars(&mut out, &n);
    extend_str(&mut out, " uncommitted change(s) from the parent tree");
    Some(string_of(&out))
}

/// The note a `--dirty` lane filled by copying prints: how many uncommitted
/// files were copied, when any were.
pub fn carried_by_copy_note(carried: usize) -> (r: Option<String>)
    ensures
        carried == 0 ==> r is None,
        carried > 0 ==> (r matches Some(m) && m@ == "carried "@ + decimal(carried as nat)
            + " uncommitted change(s) by copy; no reflink here"@),
{
    if carried == 0 {
        return None;
    }
    let mut out = chars_of("carried ");
    let n = decimal_chars(carried as u64);
    extend_chars(&mut out, &n);
    extend_str(&mut out, " uncommitted change(s) by copy; no reflink here");
    Some(string_of(&out))
}

/// What is among both lists is what `among` keeps.
proof fn lemma_among(ps: Seq<Seq<char>>, incoming: Seq<Seq<char>>, x: Seq<char>)
    ensures
        among(ps, incoming).contains(x) <==> ps.contains(x) && incoming.contains(x),
    decreases ps.len(),
{
    if ps.len() > 0 {
        let d = ps.drop_last();
        lemma_among(d, incoming, x);
        let t = among(d, incoming);
        let r = among(ps, incoming);
        if r.contains(x) {
            let j = choose|j: int| 0 <= j < r.len() && r[j] == x;
            if j < t.len() {
                assert(r[j] == t[j]);
                assert(t.contains(x));
                let k = choose|k: int| 0 <= k < d.len() && d[k] == x;
                assert(ps[k] == d[k]);
            } else {
                assert(ps[ps.len() - 1] == x);
            }
        }
        if ps.contains(x) && incoming.contains(x) {
            let k = choose|k: int| 0 <= k < ps.len() && ps[k] == x;
            if k < d.len() {
                assert(d[k] == x);
                let j = choose|j: int| 0 <= j < t.len() && t[j] == x;
                assert(r[j] == t[j]);
            } else {
                assert(r[r.len() - 1] == x);
            }
        }
    }
}

/// A file blocks landing exactly when trunk is checked out, the main tree
/// holds a tracked change to it, and the branch changes it too; so an empty
/// answer means a fast-forward overwrites no local edit.
pub proof fn a_file_blocks_exactly_when_both_sides_change_it(
    head: Seq<char>,
    trunk: Seq<char>,
    incoming: Seq<char>,
    status: Seq<char>,
    x: Seq<char>,
)
    ensures
        blocking_spec(head, trunk, incoming, status).contains(x) <==> head == trunk && tracked_from(
            split_on(status, '\0'),
        ).contains(x) && nonempty(split_on(incoming, '\0')).contains(x),
{
    lemma_among(tracked_from(split_on(status, '\0')), nonempty(split_on(incoming, '\0')), x);
}


// ---------------------------------------------------------------------------
// What the lifecycle promises
// ---------------------------------------------------------------------------

/// A landed lane reads `landed`, whatever its upstream and `HEAD` are (the
/// caller does not even look them up); a lane that has not landed never
/// does, and reads `pushed` only when it has an upstream its `HEAD` matches.
pub proof fn a_landed_lane_reads_landed(landed: bool, upstream: Seq<char>, head: Seq<char>)
    ensures
        landed ==> lane_state_spec(landed, upstream, head) == "landed"@,
        !landed ==> lane_state_spec(landed, upstream, head) != "landed"@,
        !landed ==> (lane_state_spec(landed, upstream, head) == "pushed"@ <==> (upstream.len() > 0
            && head == upstream)),
        lane_state_spec(landed, upstream, head) == "landed"@ || lane_state_spec(landed, upstream, head)
            == "pushed"@ || lane_state_spec(landed, upstream, head) == "open"@,
{
    reveal_strlit("landed");
    reveal_strlit("pushed");
    reveal_strlit("open");
    assert("pushed"@ != "landed"@) by {
        assert("pushed"@[0] != "landed"@[0]);
    }
    assert("open"@ != "landed"@) by {
        assert("open"@.len() != "landed"@.len());
    }
    assert("open"@ != "pushed"@) by {
        assert("open"@.len() != "pushed"@.len());
    }
}

/// Uncommitted work is always a loss: whenever the lane's tree holds `n > 0`
/// changed files, the losses name them, landed or not, started or not,
/// branch or not. So neither `--prune` nor a plain `-d` destroys an edit.
pub proof fn uncommitted_work_is_always_a_loss(
    s: Seq<char>,
    branch_exists: bool,
    started: bool,
    landed: bool,
    trunk: Seq<char>,
)
    requires
        nonblank_count(lines(s)) > 0,
    ensures
        losses_spec(Some(s), branch_exists, started, landed, trunk).contains(
            decimal(nonblank_count(lines(s))) + " uncommitted change(s)"@,
        ),
        losses_spec(Some(s), branch_exists, started, landed, trunk).len() > 0,
{
    let l = losses_spec(Some(s), branch_exists, started, landed, trunk);
    assert(l[0] == decimal(nonblank_count(lines(s))) + " uncommitted change(s)"@);
}

/// An ignored entry is cloned exactly when no `lane.exclude` value names it,
/// however many values there are.
pub proof fn an_entry_is_cloned_exactly_when_not_excluded(
    ignored: Seq<Seq<char>>,
    excluded: Seq<Seq<char>>,
    x: Seq<char>,
)
    ensures
        clone_entries_spec(ignored, excluded).contains(x) <==> ignored.contains(x) && !excluded.contains(x),
    decreases ignored.len(),
{
    if ignored.len() > 0 {
        let d = ignored.drop_last();
        an_entry_is_cloned_exactly_when_not_excluded(d, excluded, x);
        let t = clone_entries_spec(d, excluded);
        let r = clone_entries_spec(ignored, excluded);
        if r.contains(x) {
            let j = choose|j: int| 0 <= j < r.len() && r[j] == x;
            if j < t.len() {
                assert(r[j] == t[j]);
                assert(t.contains(x));
                let k = choose|k: int| 0 <= k < d.len() && d[k] == x;
                assert(ignored[k] == d[k]);
            } else {
                assert(ignored[ignored.len() - 1] == x);
            }
        }
        if ignored.contains(x) && !excluded.contains(x) {
            let k = choose|k: int| 0 <= k < ignored.len() && ignored[k] == x;
            if k < d.len() {
                assert(d[k] == x);
                assert(d.contains(x));
                let j = choose|j: int| 0 <= j < t.len() && t[j] == x;
                assert(r[j] == t[j]);
            } else {
                assert(r[r.len() - 1] == x);
            }
        }
    }
}

} // verus!
