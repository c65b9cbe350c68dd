//! The listing, the reports of `-d` and `--prune`, and the registry file.

use lane::cli::{
    bold, checkout_place, exit_code, format_lane_rows, kept_report, prune_action, prune_tail,
    reject_create_flags, LaneRow, PruneAction,
};
use lane::registry::{
    is_live_main_worktree, kept_entries, listed_entries, path_before, register_entries,
    registry_text, state_dir,
};

#[test]
fn long_lane_names_keep_following_columns_aligned() {
    let row = |name: &str, state: &str| LaneRow {
        name: name.into(),
        path: String::new(),
        branch: name.into(),
        state: state.into(),
        dirty: false,
    };
    let rows = [
        row("agent-runtime-config", "pushed"),
        row("inline-agent-instructions", "open"),
    ];

    assert_eq!(
        format_lane_rows(&rows.to_vec()),
        [
            "agent-runtime-config      pushed  clean",
            "inline-agent-instructions open    clean",
        ]
    );
}

#[test]
fn short_names_pad_to_twenty() {
    let rows = vec![LaneRow {
        name: "x".into(),
        path: String::new(),
        branch: "x".into(),
        state: "landed".into(),
        dirty: true,
    }];
    assert_eq!(format_lane_rows(&rows), ["x                    landed  dirty"]);
}

#[test]
fn bold_only_for_a_terminal() {
    assert_eq!(bold("/p", true), "\x1b[1m/p\x1b[0m");
    assert_eq!(bold("/p", false), "/p");
}

#[test]
fn create_flags_are_refused_by_name() {
    assert_eq!(reject_create_flags("lane x already exists", false, false), Ok(()));
    assert_eq!(
        reject_create_flags("lane x already exists", true, false),
        Err("lane x already exists; --base only applies when creating a lane".to_string())
    );
    assert_eq!(
        reject_create_flags("lane x already exists", true, true),
        Err("lane x already exists; --base and --dirty only apply when creating a lane".to_string())
    );
}

#[test]
fn a_checked_out_branch_is_placed_in_words() {
    assert_eq!(checkout_place("/repo", "/repo", "/r", "/r"), "the main worktree");
    assert_eq!(
        checkout_place("/repo", "/repo/.lane/trees/feat/x", "/a", "/b"),
        "lane feat/x"
    );
    assert_eq!(checkout_place("/repo", "/repo/.wt/x", "/a", "/b"), "the worktree at /repo/.wt/x");
}

#[test]
fn prune_keeps_skips_or_removes() {
    let none: Vec<String> = vec![];
    let some = vec!["1 uncommitted change(s)".to_string()];
    assert_eq!(prune_action("x", false, &some, false), PruneAction::Keep);
    assert_eq!(
        prune_action("x", true, &some, false),
        PruneAction::Skip("skipped x: 1 uncommitted change(s)".to_string())
    );
    assert_eq!(
        prune_action("x", true, &none, true),
        PruneAction::WouldRemove("would remove x".to_string())
    );
    assert_eq!(prune_action("x", true, &none, false), PruneAction::Remove);
    assert_eq!(
        prune_tail(0, 0, "main", "3"),
        vec![
            "no landed lanes",
            "  origin/main is 3 commit(s) ahead; fetch and merge it first"
        ]
    );
    assert_eq!(prune_tail(0, 0, "main", ""), vec!["no landed lanes"]);
    assert!(prune_tail(1, 0, "main", "3").is_empty());
}

#[test]
fn a_kept_lane_says_how_to_discard_it() {
    assert_eq!(
        kept_report("x", &vec!["commits main does not have".to_string()]),
        vec![
            "kept lane x: commits main does not have",
            "  lane -D x   to discard it anyway",
        ]
    );
    assert_eq!(exit_code(true), 1);
    assert_eq!(exit_code(false), 0);
}

#[test]
fn registering_twice_writes_once() {
    let first = register_entries(&vec![], "/b").unwrap();
    assert_eq!(first, vec!["/b"]);
    let second = register_entries(&first, "/a").unwrap();
    assert_eq!(second, vec!["/a", "/b"]);
    assert_eq!(register_entries(&second, "/a"), None);
    assert_eq!(register_entries(&second, "/a/"), None);
}

#[test]
fn the_registry_file_reads_sorted_and_deduplicated() {
    let listed = listed_entries(" /z \n\n/a\n/a-b\n/a/b\n/a\n");
    assert_eq!(listed, vec!["/z", "/a", "/a-b", "/a/b", "/a"]);
    let (kept, dropped) = kept_entries(&listed, &vec![true, true, true, true, true]);
    assert_eq!(kept, vec!["/a", "/a/b", "/a-b", "/z"]);
    assert!(!dropped);
    let (kept, dropped) = kept_entries(&listed, &vec![false, true, true, true, true]);
    assert_eq!(kept, vec!["/a", "/a/b", "/a-b"]);
    assert!(dropped);
    assert_eq!(registry_text(&kept), "/a\n/a/b\n/a-b\n");
}

#[test]
fn path_order_compares_components() {
    assert!(path_before("/a/b", "/a-b"));
    assert!(!path_before("/a-b", "/a/b"));
    assert!(path_before("/", "/a"));
    assert!(!path_before("/a", "/a/"));
}

#[test]
fn state_lives_under_xdg_or_home() {
    assert_eq!(state_dir(&Some("/x".into()), &Some("/h".into())), "/x/lane");
    assert_eq!(state_dir(&Some("".into()), &Some("/h".into())), "/h/.local/state/lane");
    assert_eq!(state_dir(&None, &None), "./.local/state/lane");
    assert!(is_live_main_worktree(&Some("/repo".into()), "/repo/"));
    assert!(!is_live_main_worktree(&None, "/repo"));
    assert!(!is_live_main_worktree(&Some("/repo".into()), "/repo/.lane/trees/x"));
}

#[test]
fn registering_the_same_repo_from_two_spellings_deduplicates() {
    let first = register_entries(&vec![], "/work/repo").unwrap();
    assert_eq!(first, vec!["/work/repo"]);
    assert_eq!(register_entries(&first, "/work/./repo/"), None);
    let (kept, dropped) = kept_entries(
        &vec!["/work/repo".to_string(), "/work/repo/".to_string()],
        &vec![true, true],
    );
    assert_eq!(kept, vec!["/work/repo"]);
    assert!(!dropped);
}

#[test]
fn a_written_registry_reads_back_the_same_entries() {
    let entries = vec!["/a".to_string(), "/a/b".to_string(), "/work/repo".to_string()];
    assert_eq!(listed_entries(&registry_text(&entries)), entries);
    // Surrounding whitespace is not part of an entry: it does not survive.
    assert_eq!(listed_entries(&registry_text(&vec!["/a ".to_string()])), vec!["/a"]);
}
