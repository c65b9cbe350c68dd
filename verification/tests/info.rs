//! `-i`'s rows and the git reports they are read from.

use lane::info::{
    branch_of, commit_info, commit_summary, format_divergence, format_uncommitted, info_name,
    info_rows, render_rows, upstream_of, InfoFacts,
};
use lane::worktree::Lane;

#[test]
fn rows_align_on_the_widest_key() {
    let rows: Vec<(String, String)> = vec![
        ("lane".to_string(), "feat/login".to_string()),
        (
            "forked from".to_string(),
            "a1b2c3d Add the parser (3d ago)".to_string(),
        ),
    ];

    assert_eq!(
        render_rows(&rows),
        [
            "lane         feat/login",
            "forked from  a1b2c3d Add the parser (3d ago)",
        ]
    );
}

#[test]
fn uncommitted_counts_pluralize() {
    assert_eq!(format_uncommitted(0), "clean");
    assert_eq!(format_uncommitted(1), "1 file");
    assert_eq!(format_uncommitted(2), "2 files");
}

#[test]
fn divergence_omits_the_count_when_in_sync() {
    assert_eq!(format_divergence("main", 0, 0), "main");
    assert_eq!(format_divergence("main", 3, 2), "main +3 -2");
    assert_eq!(
        format_divergence("origin/feat/login", 1, 0),
        "origin/feat/login +1"
    );
}

#[test]
fn commit_summary_reads_sha_subject_and_age() {
    let now = 10_000;
    let hour = 3_600;
    assert_eq!(
        commit_summary("4e5f6a7", "Fix the lexer", now - 2 * hour, now),
        "4e5f6a7 Fix the lexer (2h ago)"
    );
}

#[test]
fn commit_info_reads_three_lines() {
    assert_eq!(
        commit_info("4e5f6a7\nFix the lexer\n1700000000"),
        Some(("4e5f6a7".to_string(), "Fix the lexer".to_string(), 1700000000))
    );
    assert_eq!(commit_info("4e5f6a7\nFix the lexer"), None);
    assert_eq!(commit_info("4e5f6a7\nFix\nsoon"), None);
}

#[test]
fn no_upstream_is_none() {
    assert_eq!(upstream_of(""), None);
    assert_eq!(upstream_of("origin/feat"), Some("origin/feat".to_string()));
}

#[test]
fn info_needs_a_name_in_the_main_worktree() {
    assert_eq!(
        info_name(None, "/repo", "/repo/", "/repo", "/repo/.lane/trees"),
        Err("not inside a lane; name one: `lane -i <name>`".to_string())
    );
    assert_eq!(
        info_name(
            None,
            "/repo",
            "/repo/.lane/trees/feat/login",
            "/x",
            "/y"
        ),
        Ok("feat/login".to_string())
    );
    assert_eq!(
        info_name(Some("spike".to_string()), "/repo", "/repo", "/repo", "/y"),
        Ok("spike".to_string())
    );
}

#[test]
fn a_lane_is_found_by_name_or_falls_back_to_it() {
    let lanes = vec![Lane {
        path: "/repo/.lane/trees/spike".to_string(),
        branch: "feat/spike".to_string(),
        name: "spike".to_string(),
    }];
    assert_eq!(branch_of(&lanes, "spike"), "feat/spike");
    assert_eq!(branch_of(&lanes, "other"), "other");
}

#[test]
fn the_disk_row_says_what_it_estimates() {
    assert_eq!(
        lane::info::format_disk("12 MB"),
        "12 MB (estimate: unshared vs the main checkout)"
    );
}

#[test]
fn the_info_rows_come_in_order_with_their_fallbacks() {
    let hour = 3_600;
    let now = 100 * hour;
    let facts = InfoFacts {
        name: "feat/login".into(),
        branch: "feat/login".into(),
        path: "/repo/.lane/trees/feat/login".into(),
        state: "open".into(),
        created_at: now - 3 * 24 * hour,
        fork: None,
        trunk: "main".into(),
        trunk_ahead: 3,
        trunk_behind: 2,
        last: Some(("4e5f6a7".into(), "Fix the lexer".into(), now - 2 * hour)),
        upstream: None,
        upstream_counts: None,
        uncommitted: 1,
        disk: "12 MB".into(),
    };
    let rows = info_rows(&facts, now);
    let want: Vec<(String, String)> = [
        ("lane", "feat/login"),
        ("branch", "feat/login"),
        ("path", "/repo/.lane/trees/feat/login"),
        ("state", "open"),
        ("created", "3d ago"),
        ("forked from", "(not recorded)"),
        ("trunk", "main +3 -2"),
        ("last commit", "4e5f6a7 Fix the lexer (2h ago)"),
        ("upstream", "none"),
        ("uncommitted", "1 file"),
        ("disk", "12 MB (estimate: unshared vs the main checkout)"),
    ]
    .iter()
    .map(|(k, v)| (k.to_string(), v.to_string()))
    .collect();
    assert_eq!(rows, want);

    let followed = InfoFacts {
        upstream: Some("origin/feat/login".into()),
        upstream_counts: Some((0, 1)),
        last: None,
        ..facts
    };
    let rows = info_rows(&followed, now);
    assert_eq!(rows[7].1, "");
    assert_eq!(rows[8].1, "origin/feat/login +1");
}
