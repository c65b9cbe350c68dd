//! The command surface's own decisions and text: the lane listing, what a
//! `lane <name>` that finds its branch elsewhere says, what `-d` and
//! `--prune` report and exit with.

use vstd::prelude::*;
use crate::paths::{below, is_same_path, is_under, relative_below, same_path, under};
use crate::text::{
    chars_of, decimal, extend_chars, extend_str, join_with, joined_with, pad_right, parse_u32,
    parse_u32_spec, push_padded, string_of,
};
use crate::worktree::{lanes_dir, lanes_dir_spec};

verus! {

broadcast use vstd::string::group_string_axioms;

/// `text` in bold for a terminal, plain otherwise: a captured path must not
/// carry escapes.
pub fn bold(text: &str, tty: bool) -> (r: String)
    ensures
        r@ == if tty {
            "\x1b[1m"@ + text@ + "\x1b[0m"@
        } else {
            text@
        },
{
    if tty {
        let mut out = chars_of("\x1b[1m");
        extend_str(&mut out, text);
        extend_str(&mut out, "\x1b[0m");
        string_of(&out)
    } else {
        text.to_owned()
    }
}

/// One lane in the plain listing.
#[derive(Debug, Clone)]
pub struct LaneRow {
    pub name: String,
    pub path: String,
    pub branch: String,
    pub state: String,
    pub dirty: bool,
}

/// The widest name, and never under 20.
pub open spec fn name_width(names: Seq<Seq<char>>) -> nat
    decreases names.len(),
{
    if names.len() == 0 {
        20
    } else {
        let w = name_width(names.drop_last());
        if names.last().len() > w {
            names.last().len()
        } else {
            w
        }
    }
}

/// One listing line: the name and state padded, then `dirty` or `clean`.
pub open spec fn lane_line(name: Seq<char>, state: Seq<char>, dirty: bool, width: nat) -> Seq<char> {
    pad_right(name, width) + seq![' '] + pad_right(state, 7) + seq![' '] + if dirty {
        "dirty"@
    } else {
        "clean"@
    }
}

/// The widest name is at least as wide as every name.
proof fn lemma_name_width_covers(names: Seq<Seq<char>>)
    ensures
        name_width(names) >= 20,
        forall|i: int| 0 <= i < names.len() ==> (#[trigger] names[i]).len() <= name_width(names),
    decreases names.len(),
{
    if names.len() > 0 {
        let d = names.drop_last();
        lemma_name_width_covers(d);
        assert forall|i: int| 0 <= i < names.len() implies (#[trigger] names[i]).len() <= name_width(names) by {
            if i < d.len() {
                assert(names[i] == d[i]);
            }
        }
    }
}

/// Long lane names keep the following columns aligned: in every line of a
/// listing the name is padded to one width, so each state begins at the same
/// column.
pub proof fn listing_columns_line_up(names: Seq<Seq<char>>)
    ensures
        forall|i: int|
            0 <= i < names.len() ==> (#[trigger] pad_right(names[i], name_width(names))).len()
                == name_width(names),
{
    lemma_name_width_covers(names);
    assert forall|i: int| 0 <= i < names.len() implies (#[trigger] pad_right(names[i], name_width(names))).len()
        == name_width(names) by {
        assert(names[i].len() <= name_width(names));
    }
}

/// The names of the rows.
pub open spec fn row_names(rows: Seq<LaneRow>) -> Seq<Seq<char>> {
    rows.map_values(|r: LaneRow| r.name@)
}

/// The plain listing: every name padded to the widest (at least 20), so long
/// names keep the following columns aligned.
pub fn format_lane_rows(rows: &Vec<LaneRow>) -> (r: Vec<String>)
    ensures
        r.len() == rows.len(),
        forall|i: int|
            0 <= i < rows.len() ==> (#[trigger] r@[i])@ == lane_line(
                rows@[i].name@,
                rows@[i].state@,
                rows@[i].dirty,
                name_width(row_names(rows@)),
            ),
{
    let ghost names = row_names(rows@);
    let mut width: usize = 20;
    let mut i: usize = 0;
    assert(names.take(0) =~= Seq::<Seq<char>>::empty());
    while i < rows.len()
        invariant
            i <= rows.len(),
            names == row_names(rows@),
            width as nat == name_width(names.take(i as int)),
        decreases rows.len() - i,
    {
        assert(names.take(i + 1).drop_last() =~= names.take(i as int));
        assert(names.take(i + 1).last() == rows@[i as int].name@);
        let n = chars_of(rows[i].name.as_str());
        if n.len() > width {
            width = n.len();
        }
        i = i + 1;
    }
    assert(names.take(rows.len() as int) =~= names);
    let mut out: Vec<String> = Vec::new();
    let mut j: usize = 0;
    while j < rows.len()
        invariant
            j <= rows.len(),
            width as nat == name_width(row_names(rows@)),
            out.len() == j,
            forall|k: int|
                0 <= k < j ==> (#[trigger] out@[k])@ == lane_line(
                    rows@[k].name@,
                    rows@[k].state@,
                    rows@[k].dirty,
                    name_width(row_names(rows@)),
                ),
        decreases rows.len() - j,
    {
        let row = &rows[j];
        let name = chars_of(row.name.as_str());
        let state = chars_of(row.state.as_str());
        let mut line: Vec<char> = Vec::new();
        push_padded(&mut line, &name, width);
        line.push(' ');
        push_padded(&mut line, &state, 7);
        line.push(' ');
        if row.dirty {
            extend_str(&mut line, "dirty");
        } else {
            extend_str(&mut line, "clean");
        }
        assert(line@ =~= lane_line(row.name@, row.state@, row.dirty, width as nat));
        out.push(string_of(&line));
        j = j + 1;
    }
    out
}

/// The refusal for flags that only make sense while a lane is being created,
/// given the reason no lane is being created this time.
pub open spec fn create_flags_spec(reason: Seq<char>, base: bool, dirty: bool) -> Option<Seq<char>> {
    if !base && !dirty {
        None
    } else {
        let flags = if base && dirty {
            "--base and --dirty"@
        } else if base {
            "--base"@
        } else {
            "--dirty"@
        };
        let verb = if base && dirty {
            "apply"@
        } else {
            "applies"@
        };
        Some(reason + "; "@ + flags + " only "@ + verb + " when creating a lane"@)
    }
}

/// Flags that only make sense while a lane is being created, given the
/// reason no lane is being created this time: an error naming them, when
/// any was given.
pub fn reject_create_flags(reason: &str, base: bool, dirty: bool) -> (r: Result<(), String>)
    ensures
        match create_flags_spec(reason@, base, dirty) {
            None => r is Ok,
            Some(m) => r matches Err(e) && e@ == m,
        },
{
    let mut conflicts: Vec<String> = Vec::new();
    if base {
        conflicts.push("--base".to_owned());
    }
    if dirty {
        conflicts.push("--dirty".to_owned());
    }
    if conflicts.len() == 0 {
        return Ok(());
    }
    let verb = if conflicts.len() == 1 {
        "applies"
    } else {
        "apply"
    };
    let list = join_with(&conflicts, " and ");
    proof {
        let c = conflicts.deep_view();
        assert(c.len() == 2 ==> c.drop_last().len() == 1);
        if base && dirty {
            assert(joined_with(c, " and "@) == joined_with(c.drop_last(), " and "@) + " and "@
                + c.last());
            assert(joined_with(c.drop_last(), " and "@) == "--base"@);
            assert(list@ =~= "--base and --dirty"@) by {
                reveal_strlit("--base and --dirty");
                reveal_strlit("--base");
                reveal_strlit(" and ");
                reveal_strlit("--dirty");
            }
        }
    }
    let mut out = chars_of(reason);
    extend_str(&mut out, "; ");
    extend_str(&mut out, list.as_str());
    extend_str(&mut out, " only ");
    extend_str(&mut out, verb);
    extend_str(&mut out, " when creating a lane");
    Err(string_of(&out))
}

/// Where a branch that is checked out already lives, in words: the main
/// worktree (compared canonically), a lane (by its name), or any other
/// worktree (by its path).
pub open spec fn checkout_place_spec(
    root: Seq<char>,
    path: Seq<char>,
    canonical_path: Seq<char>,
    canonical_root: Seq<char>,
) -> Seq<char> {
    if same_path(canonical_path, canonical_root) {
        "the main worktree"@
    } else if under(path, lanes_dir_spec(root)) {
        "lane "@ + below(path, lanes_dir_spec(root))
    } else {
        "the worktree at "@ + path
    }
}

/// Where a branch that is checked out already lives, in words.
pub fn checkout_place(root: &str, path: &str, canonical_path: &str, canonical_root: &str) -> (r: String)
    ensures
        r@ == checkout_place_spec(root@, path@, canonical_path@, canonical_root@),
{
    if is_same_path(canonical_path, canonical_root) {
        return "the main worktree".to_owned();
    }
    let dir = lanes_dir(root);
    if is_under(path, dir.as_str()) {
        let rel = relative_below(path, dir.as_str());
        let mut out = chars_of("lane ");
        extend_str(&mut out, rel.as_str());
        return string_of(&out);
    }
    let mut out = chars_of("the worktree at ");
    extend_str(&mut out, path);
    string_of(&out)
}

/// What `--prune` does with one lane.
#[derive(Debug, Clone, PartialEq, Eq)]
pub enum PruneAction {
    /// Not landed: left alone, silently.
    Keep,
    /// Landed, but removing it would lose something: reported and kept.
    Skip(String),
    /// Landed and safe, under `--dry-run`: reported, nothing removed.
    WouldRemove(String),
    /// Landed and safe: removed.
    Remove,
}

/// What `--prune` does with the lane `name`: nothing unless it landed;
/// a landed lane with something at stake is skipped with its losses named;
/// otherwise it goes, or under `--dry-run` is only named.
pub fn prune_action(name: &str, landed: bool, losses: &Vec<String>, dry_run: bool) -> (r: PruneAction)
    ensures
        !landed ==> r == PruneAction::Keep,
        landed && losses.len() > 0 ==> (r matches PruneAction::Skip(m) && m@ == "skipped "@ + name@
            + ": "@ + joined_with(losses.deep_view(), ", "@)),
        landed && losses.len() == 0 && dry_run ==> (r matches PruneAction::WouldRemove(m) && m@
            == "would remove "@ + name@),
        landed && losses.len() == 0 && !dry_run ==> r == PruneAction::Remove,
{
    if !landed {
        return PruneAction::Keep;
    }
    if losses.len() > 0 {
        let mut m = chars_of("skipped ");
        extend_str(&mut m, name);
        extend_str(&mut m, ": ");
        let l = join_with(losses, ", ");
        extend_str(&mut m, l.as_str());
        return PruneAction::Skip(string_of(&m));
    }
    if dry_run {
        let mut m = chars_of("would remove ");
        extend_str(&mut m, name);
        return PruneAction::WouldRemove(string_of(&m));
    }
    PruneAction::Remove
}

/// What `--prune` prints once nothing was removed or skipped: that no lane
/// landed, and, when `git rev-list --count trunk..origin/trunk` reports
/// `origin` ahead, that it needs fetching and merging first.
pub open spec fn prune_tail_spec(removed: nat, skipped: nat, trunk: Seq<char>, behind: Seq<char>) -> Seq<Seq<char>> {
    if removed == 0 && skipped == 0 {
        seq!["no landed lanes"@] + if parse_u32_spec(behind) matches Some(n) && n > 0 {
            seq![
                "  origin/"@ + trunk + " is "@ + behind + " commit(s) ahead; fetch and merge it first"@,
            ]
        } else {
            Seq::empty()
        }
    } else {
        Seq::empty()
    }
}

/// What `--prune` prints at the end.
pub fn prune_tail(removed: usize, skipped: usize, trunk: &str, behind: &str) -> (r: Vec<String>)
    ensures
        r.deep_view() == prune_tail_spec(removed as nat, skipped as nat, trunk@, behind@),
{
    let mut out: Vec<String> = Vec::new();
    if removed == 0 && skipped == 0 {
        out.push("no landed lanes".to_owned());
        let b = chars_of(behind);
        let ahead = match parse_u32(&b) {
            Some(n) => n,
            None => 0,
        };
        if ahead > 0 {
            let mut m = chars_of("  origin/");
            extend_str(&mut m, trunk);
            extend_str(&mut m, " is ");
            extend_str(&mut m, behind);
            extend_str(&mut m, " commit(s) ahead; fetch and merge it first");
            out.push(string_of(&m));
        }
    }
    assert(out.deep_view() =~= prune_tail_spec(removed as nat, skipped as nat, trunk@, behind@));
    out
}

/// What `-d` reports for a lane it keeps because removing it would lose
/// something, and how to discard it anyway.
pub open spec fn kept_report_spec(name: Seq<char>, losses: Seq<Seq<char>>) -> Seq<Seq<char>> {
    seq![
        "kept lane "@ + name + ": "@ + joined_with(losses, ", "@),
        "  lane -D "@ + name + "   to discard it anyway"@,
    ]
}

/// What `-d` reports for a lane it keeps.
pub fn kept_report(name: &str, losses: &Vec<String>) -> (r: Vec<String>)
    ensures
        r.deep_view() == kept_report_spec(name@, losses.deep_view()),
{
    let mut a = chars_of("kept lane ");
    extend_str(&mut a, name);
    extend_str(&mut a, ": ");
    let l = join_with(losses, ", ");
    extend_str(&mut a, l.as_str());
    let mut b = chars_of("  lane -D ");
    extend_str(&mut b, name);
    extend_str(&mut b, "   to discard it anyway");
    let mut out: Vec<String> = Vec::new();
    out.push(string_of(&a));
    out.push(string_of(&b));
    assert(out.deep_view() =~= kept_report_spec(name@, losses.deep_view()));
    out
}

/// The exit code of a command that processed several lanes: non-zero when
/// any was kept or skipped.
pub fn exit_code(any_kept: bool) -> (r: i32)
    ensures
        r == if any_kept {
            1i32
        } else {
            0i32
        },
{
    if any_kept {
        1
    } else {
        0
    }
}

} // verus!
