//! What a lane is, and what git's reports say about one.

use lane::worktree::{
    all_landed, appended, blocking_changes, carried_by_copy_note, carried_from_parent_note,
    clone_entries, clone_skips, branch_args, checkout_paths, contained_in,
    creation_base, creation_notes, exclude_line, excluded, fast_forward, fork_point, fork_ref,
    holds_a_checkout, ignored_candidates, is_dirty, is_lane, landed, lane_state, lanes_dir,
    list_lanes, losses, materialization, name_of, new_base, registered, rejects_relative_paths,
    removal, standing_inside, started, tracked_changes, trash_dir, trunk_candidates, trunk_name,
    uncommitted, upstream_candidates, upstream_gone, walk_skips, worktree_add_args,
    worktree_records, Containment, ContainmentEvidence, ContainmentQuestion, FastForward,
    Materialization,
};

#[test]
fn lanes_live_inside_the_repository() {
    let root = "/repo";

    assert_eq!(lanes_dir(root), "/repo/.lane/trees");
}

#[test]
fn no_reflink_skips_the_caches_but_still_honours_dirty() {
    assert_eq!(materialization(false, false), Materialization::Plain);
    assert_eq!(materialization(true, false), Materialization::DirtyPlain);
}

#[test]
fn reflink_selects_the_requested_mode() {
    assert_eq!(materialization(false, true), Materialization::Ignored);
    assert_eq!(materialization(true, true), Materialization::Dirty);
}

#[test]
fn tracked_changes_keeps_spaces() {
    assert_eq!(
        tracked_changes("## main\0 M src/auth flow.rs\0"),
        vec!["src/auth flow.rs"]
    );
}

#[test]
fn tracked_changes_includes_both_sides_of_a_rename() {
    assert_eq!(
        tracked_changes("## main\0R  src/new.rs\0src/old.rs\0"),
        vec!["src/new.rs", "src/old.rs"]
    );
}

#[test]
fn a_lanes_dir_joins_without_doubling_the_separator() {
    assert_eq!(lanes_dir("/repo/"), "/repo/.lane/trees");
    assert_eq!(lanes_dir(""), ".lane/trees");
    assert_eq!(trash_dir("/repo"), "/repo/.lane/trees/.trash");
    assert_eq!(fork_ref("feat/login"), "refs/lane/feat/login");
    assert_eq!(exclude_line(), ".lane/trees/");
}

const PORCELAIN: &str = "worktree /repo\nHEAD abc\nbranch refs/heads/main\n\nworktree /repo/.lane/trees/feat/login\nHEAD def\nbranch refs/heads/feat/login\n\nworktree /repo/.wt/side\nHEAD 123\nbranch refs/heads/side\n\nworktree /repo/.lane/trees/detached\nHEAD 456\ndetached\n";

#[test]
fn only_worktrees_under_the_lanes_dir_are_lanes() {
    let records = worktree_records(PORCELAIN);
    assert_eq!(records.len(), 4);
    let lanes = list_lanes("/repo", "/nowhere", &records);
    let names: Vec<&str> = lanes.iter().map(|l| l.name.as_str()).collect();
    assert_eq!(names, vec!["feat/login", "detached"]);
    assert_eq!(lanes[0].branch, "feat/login");
    assert_eq!(lanes[1].branch, "detached");
    assert_eq!(lanes[0].path, "/repo/.lane/trees/feat/login");
}

#[test]
fn a_lane_reported_under_another_spelling_is_found_canonically() {
    let mut records = worktree_records("worktree /private/repo/.lane/trees/x\nbranch refs/heads/x\n");
    records[0].canonical = "/private/repo/.lane/trees/x".to_string();
    let lanes = list_lanes("/repo", "/private/repo/.lane/trees", &records);
    assert_eq!(lanes.len(), 1);
    assert_eq!(lanes[0].name, "x");
    assert!(is_lane("/repo", "/private/repo/.lane/trees/x", "/private/repo/.lane/trees/x", "/private/repo/.lane/trees"));
    assert_eq!(
        name_of("/repo", "/elsewhere/x", "/elsewhere/x", "/private/repo/.lane/trees"),
        "/elsewhere/x"
    );
}

#[test]
fn a_directory_sharing_a_prefix_is_not_under_the_lanes_dir() {
    assert!(!is_lane("/repo", "/repo/.lane/treesX/a", "/repo/.lane/treesX/a", "/c"));
}

#[test]
fn dirty_means_any_tracked_change() {
    assert!(!is_dirty(""));
    assert!(!is_dirty("  \n"));
    assert!(is_dirty(" M src/a.rs"));
}

#[test]
fn gone_upstream_is_read_from_the_track_field() {
    assert!(upstream_gone("[gone]"));
    assert!(upstream_gone(" [gone] \n"));
    assert!(!upstream_gone("[ahead 1]"));
    assert!(!upstream_gone(""));
}

#[test]
fn an_untouched_lane_has_not_started_and_never_lands() {
    let fork = fork_point("abc123");
    assert_eq!(fork, Some("abc123".to_string()));
    assert!(!started(&fork, "abc123"));
    assert!(started(&fork, "def456"));
    assert!(started(&fork_point(""), "abc123"));
    assert!(!landed(false, true, true));
    assert!(landed(true, true, false));
    assert!(landed(true, false, true));
    assert!(!landed(true, false, false));
}

#[test]
fn a_lane_state_is_landed_pushed_or_open() {
    assert_eq!(lane_state(true, "abc", "abc"), "landed");
    assert_eq!(lane_state(false, "abc", "abc"), "pushed");
    assert_eq!(lane_state(false, "", ""), "open");
    assert_eq!(lane_state(false, "abc", "def"), "open");
}

#[test]
fn losses_name_uncommitted_work_and_unlanded_commits() {
    assert_eq!(
        losses(Some(" M a\n?? b\n"), true, true, false, "main"),
        vec!["2 uncommitted change(s)", "commits main does not have"]
    );
    assert!(losses(Some(""), true, true, true, "main").is_empty());
    assert!(losses(None, false, true, false, "main").is_empty());
    assert!(losses(Some("\n"), true, false, false, "main").is_empty());
}

#[test]
fn containment_asks_one_question_at_a_time() {
    let mut e = ContainmentEvidence {
        is_ancestor: None,
        cherry: None,
        merge_base: None,
        branch_tree: None,
        base_tree: None,
        probe: None,
        probe_cherry: None,
    };
    assert_eq!(contained_in(&e), Containment::Ask(ContainmentQuestion::IsAncestor));
    e.is_ancestor = Some(true);
    assert_eq!(contained_in(&e), Containment::Contained(true));
    e.is_ancestor = Some(false);
    assert_eq!(contained_in(&e), Containment::Ask(ContainmentQuestion::Cherry));
    e.cherry = Some("- abc\n- def".to_string());
    assert_eq!(contained_in(&e), Containment::Contained(true));
    e.cherry = Some("+ abc\n- def".to_string());
    assert_eq!(contained_in(&e), Containment::Ask(ContainmentQuestion::MergeBase));
    e.merge_base = Some(None);
    assert_eq!(contained_in(&e), Containment::Contained(false));
    e.merge_base = Some(Some("base".to_string()));
    assert_eq!(contained_in(&e), Containment::Ask(ContainmentQuestion::BranchTree));
    e.branch_tree = Some(Some("tree1".to_string()));
    assert_eq!(contained_in(&e), Containment::Ask(ContainmentQuestion::BaseTree));
    e.base_tree = Some(Some("tree1".to_string()));
    assert_eq!(contained_in(&e), Containment::Contained(true));
    e.base_tree = Some(Some("tree0".to_string()));
    assert_eq!(contained_in(&e), Containment::Ask(ContainmentQuestion::Probe));
    e.probe = Some(Some("probe".to_string()));
    assert_eq!(contained_in(&e), Containment::Ask(ContainmentQuestion::ProbeCherry));
    e.probe_cherry = Some("- probe".to_string());
    assert_eq!(contained_in(&e), Containment::Contained(true));
    e.probe_cherry = Some(String::new());
    assert_eq!(contained_in(&e), Containment::Contained(false));
}

#[test]
fn an_empty_cherry_report_proves_nothing() {
    assert!(!all_landed(""));
    assert!(all_landed("- a"));
    assert!(!all_landed("- a\n+ b"));
}

#[test]
fn trunk_prefers_origin_head_then_the_usual_names() {
    let c = trunk_candidates("origin/develop");
    assert_eq!(c, vec!["develop", "main", "master", "trunk"]);
    assert_eq!(trunk_candidates(""), vec!["main", "master", "trunk"]);
    assert_eq!(trunk_name(&c, &vec![false, true], "feature"), "main");
    assert_eq!(trunk_name(&c, &vec![true], "feature"), "develop");
    assert_eq!(trunk_name(&c, &vec![false, false, false, false], "feature"), "feature");
}

#[test]
fn new_base_prefers_the_main_worktree_branch_unless_detached() {
    assert_eq!(new_base("develop", "main"), "develop");
    assert_eq!(new_base("HEAD", "main"), "main");
    assert_eq!(new_base("", "main"), "main");
}

#[test]
fn an_existing_branch_is_adopted_and_a_new_one_created() {
    assert_eq!(branch_args(true, "x", "/d", "main"), vec!["/d", "x"]);
    assert_eq!(branch_args(false, "x", "/d", "main"), vec!["-b", "x", "/d", "main"]);
    assert_eq!(
        worktree_add_args(Materialization::Dirty, true, false, "x", "/d", "main"),
        vec!["--no-checkout", "--track", "-b", "x", "/d", "main"]
    );
    assert_eq!(
        worktree_add_args(Materialization::Plain, false, true, "x", "/d", "main"),
        vec!["/d", "x"]
    );
}

#[test]
fn a_lane_name_adopts_a_single_matching_upstream() {
    assert_eq!(
        creation_base("feature", false, &None, &vec!["origin/feature".to_string()], "main"),
        Ok(("origin/feature".to_string(), true))
    );
    assert_eq!(
        creation_base("feature", false, &None, &vec![], "main"),
        Ok(("main".to_string(), false))
    );
    assert_eq!(
        creation_base("feature", false, &Some("v1".to_string()), &vec![], "main"),
        Ok(("v1".to_string(), false))
    );
    assert_eq!(
        creation_base("feature", true, &Some("v1".to_string()), &vec![], "main"),
        Err("branch feature already exists; --base applies only to a new branch".to_string())
    );
    assert_eq!(
        creation_base(
            "feature",
            false,
            &None,
            &vec!["origin/feature".to_string(), "fork/feature".to_string()],
            "main"
        ),
        Err("feature exists on more than one remote (origin/feature, fork/feature); name one with --base".to_string())
    );
}

#[test]
fn creation_notes_say_what_was_left_behind() {
    assert_eq!(
        creation_notes("x", false, "EOPNOTSUPP", true, "origin/x", false, 2),
        vec![
            "reflink: no (EOPNOTSUPP)",
            "no reflink here; leaving a plain worktree",
            "branched from origin/x and tracking it",
            "warning: 2 uncommitted change(s) were not carried\n    lane -D x && lane x --dirty   to start over with them",
        ]
    );
    assert_eq!(creation_notes("x", true, "ok", false, "main", true, 5), vec!["reflink: yes (ok)"]);
}

#[test]
fn blocking_changes_only_when_trunk_is_checked_out() {
    let status = "## main\0 M a.rs\0 M b.rs\0";
    let incoming = "b.rs\0c.rs\0";
    assert_eq!(blocking_changes("main", "main", incoming, status), vec!["b.rs"]);
    assert!(blocking_changes("other", "main", incoming, status).is_empty());
}

#[test]
fn ignored_entries_are_read_and_collapsed() {
    assert_eq!(
        ignored_candidates("!! target/\0!! .env\0?? new\0!! .git/\0!! \0"),
        vec!["target", ".env"]
    );
}

#[test]
fn a_checkout_is_not_a_cache() {
    let checkouts = vec!["/repo".to_string(), "/repo/.wt/side".to_string()];
    assert!(holds_a_checkout("/repo", ".lane", "/repo/.lane", &checkouts));
    assert!(holds_a_checkout("/repo", ".lane/trees", "/repo/.lane/trees", &checkouts));
    assert!(holds_a_checkout("/repo", ".wt", "/repo/.wt", &checkouts));
    assert!(!holds_a_checkout("/repo", "target", "/repo/target", &checkouts));
    assert_eq!(checkout_paths("worktree /repo\nHEAD a\n\nworktree /repo/.wt/side\n"), checkouts);
}

#[test]
fn uncommitted_work_is_both_lists() {
    assert_eq!(uncommitted("src/a.rs\0", "scratch.txt\0"), vec!["src/a.rs", "scratch.txt"]);
    assert!(uncommitted("", "").is_empty());
}

#[test]
fn upstream_candidates_name_each_remote() {
    assert_eq!(
        upstream_candidates("origin\n fork \n\n", "feature"),
        vec!["origin/feature", "fork/feature"]
    );
}

#[test]
fn an_old_git_without_relative_paths_is_recognized() {
    assert!(rejects_relative_paths("error: unknown option `relative-paths'"));
    assert!(rejects_relative_paths("unrecognized option: --relative-paths"));
    assert!(!rejects_relative_paths("fatal: invalid reference: nope"));
}

#[test]
fn excluded_entries_lose_trailing_slashes() {
    assert_eq!(excluded("node_modules/\n\ntarget//\n/\n"), vec!["node_modules", "target"]);
}

#[test]
fn a_worktree_is_registered_by_path_or_canonically() {
    let paths = vec!["/repo/.lane/trees/a".to_string()];
    let canon = vec![Some("/private/repo/.lane/trees/a".to_string())];
    assert!(registered(&paths, &canon, "/repo/.lane/trees/a/", &None));
    assert!(registered(&paths, &canon, "/x", &Some("/private/repo/.lane/trees/a".to_string())));
    assert!(!registered(&paths, &canon, "/x", &None));
}

#[test]
fn removing_needs_a_branch_or_a_worktree() {
    assert_eq!(removal("x", true, false), Ok((false, true)));
    assert_eq!(removal("x", false, false), Err("no lane x".to_string()));
    assert!(standing_inside("/repo/.lane/trees/x/src", "/repo/.lane/trees/x"));
    assert!(!standing_inside("/repo", "/repo/.lane/trees/x"));
}

#[test]
fn fast_forward_merges_updates_or_refuses() {
    assert_eq!(fast_forward("main", "main", "x", "", ""), Ok(FastForward::Merge));
    assert_eq!(fast_forward("other", "main", "x", "abc", "abc"), Ok(FastForward::UpdateRef));
    assert_eq!(
        fast_forward("other", "main", "x", "abc", "def"),
        Err("trunk main has diverged from x; rebase first".to_string())
    );
}

#[test]
fn the_disk_walk_skips_git_and_lanes() {
    assert!(walk_skips(".git"));
    assert!(walk_skips(".lane/trees/inner"));
    assert!(!walk_skips(""));
    assert!(!walk_skips(".gitignore"));
    assert!(!walk_skips("target/x"));
}

#[test]
fn appending_a_line_is_idempotent() {
    assert_eq!(appended("", ".lane/trees/"), Some(".lane/trees/\n".to_string()));
    assert_eq!(appended("a", ".lane/trees/"), Some("\n.lane/trees/\n".to_string()));
    assert_eq!(appended("x\n.lane/trees/\n", ".lane/trees/"), None);
}

#[test]
fn excluded_entries_are_not_cloned() {
    let ignored = vec!["target".to_string(), "node_modules".to_string(), ".env".to_string()];
    let excluded = vec!["node_modules".to_string()];
    assert_eq!(clone_entries(&ignored, &excluded), vec!["target", ".env"]);
    assert_eq!(clone_entries(&ignored, &vec![]), ignored);
}

#[test]
fn a_dirty_clone_skips_git_and_other_checkouts() {
    assert!(clone_skips(".git", true, false));
    assert!(clone_skips(".git/objects", true, false));
    assert!(!clone_skips(".github", true, false));
    assert!(clone_skips(".wt", true, true));
    assert!(!clone_skips("notes.txt", false, true));
}

#[test]
fn carried_notes_count_what_came_along() {
    assert_eq!(carried_from_parent_note(0), None);
    assert_eq!(
        carried_from_parent_note(3).unwrap(),
        "carried 3 uncommitted change(s) from the parent tree"
    );
    assert_eq!(carried_by_copy_note(0), None);
    assert_eq!(
        carried_by_copy_note(1).unwrap(),
        "carried 1 uncommitted change(s) by copy; no reflink here"
    );
}
