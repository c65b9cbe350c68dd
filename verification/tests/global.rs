//! The `-g` columns, the table they make, and the cache's rules.

use lane::global::{
    cached_rows, commit_time, format_age, format_commits, format_global_rows, is_fresh,
    newest_first, no_rows_message, parse_left_right, without_unasked_disk, GlobalRow, TTL_SECS,
};

#[test]
fn age_formats_across_every_boundary() {
    assert_eq!(format_age(0), "0m");
    assert_eq!(format_age(59 * 60), "59m");
    assert_eq!(format_age(60 * 60), "1h");
    assert_eq!(format_age(23 * 3600 + 59 * 60), "23h");
    assert_eq!(format_age(24 * 3600), "1d");
    assert_eq!(format_age(6 * 86400), "6d");
    assert_eq!(format_age(7 * 86400), "1w");
    assert_eq!(format_age(29 * 86400), "4w");
    assert_eq!(format_age(30 * 86400), "1mo");
    assert_eq!(format_age(364 * 86400), "12mo");
    assert_eq!(format_age(365 * 86400), "1y");
    assert_eq!(format_age(2 * 365 * 86400), "2y");
}

#[test]
fn commits_formats_ahead_behind_and_in_sync() {
    assert_eq!(format_commits(3, 0), "+3");
    assert_eq!(format_commits(1, 12), "+1 -12");
    assert_eq!(format_commits(0, 5), "-5");
    assert_eq!(format_commits(0, 0), "");
}

#[test]
fn left_right_counts_are_read_as_behind_then_ahead() {
    assert_eq!(parse_left_right("12\t1\n"), (12, 1));
    assert_eq!(parse_left_right(""), (0, 0));
}

#[test]
fn a_negative_age_reads_as_zero_minutes() {
    assert_eq!(format_age(-5), "0m");
    assert_eq!(format_age(119), "1m");
}

#[test]
fn left_right_counts_tolerate_noise() {
    assert_eq!(parse_left_right("  7 \n"), (7, 0));
    assert_eq!(parse_left_right("x 4"), (0, 4));
    assert_eq!(parse_left_right("+3 99999999999"), (3, 0));
}

fn row(lane: &str, repo_path: &str, committed_at: i64, disk: Option<u64>) -> GlobalRow {
    GlobalRow {
        repo: "repo".to_string(),
        repo_path: repo_path.to_string(),
        lane: lane.to_string(),
        path: format!("{repo_path}/.lane/trees/{lane}"),
        committed_at,
        disk_estimate_bytes: disk,
        ahead: 1,
        behind: 0,
        state: "open".to_string(),
    }
}

#[test]
fn the_global_table_widens_each_column_to_its_longest_entry() {
    let rows = vec![row("a-long-lane", "/repo", 1000, None), row("b", "/repo", 1000, None)];
    let lines = format_global_rows(&rows, &None, 1000 + 3 * 3600);
    assert_eq!(
        lines,
        vec![
            "REPO LANE        AGE COMMITS STATE",
            "repo a-long-lane 3h  +1      open",
            "repo b           3h  +1      open",
        ]
    );
}

#[test]
fn the_disk_column_appears_only_when_asked_for() {
    let rows = vec![row("a", "/repo", 0, Some(2048))];
    let lines = format_global_rows(&rows, &Some(vec!["2 KB".to_string()]), 60);
    assert_eq!(lines[0], "REPO LANE AGE DISK COMMITS STATE");
    assert_eq!(lines[1], "repo a    1m  2 KB +1      open");
}

#[test]
fn just_inside_the_ttl_is_fresh_one_second_past_is_not() {
    assert!(is_fresh(1000, 1000 + TTL_SECS));
    assert!(!is_fresh(1000, 1000 + TTL_SECS + 1));
    assert!(is_fresh(i64::MAX, i64::MIN));
}

#[test]
fn refresh_bypasses_the_cache() {
    let cached = Some(vec![row("a", "/repo", 1, Some(1))]);
    assert!(cached_rows(cached, true, false, &vec!["/repo".to_string()]).is_none());
}

#[test]
fn a_cache_without_estimates_cannot_answer_disk() {
    let cached = Some(vec![row("a", "/repo", 1, None)]);
    assert!(cached_rows(cached.clone(), false, true, &vec!["/repo".to_string()]).is_none());
    assert_eq!(
        cached_rows(cached, false, false, &vec!["/repo".to_string()]).map(|r| r.len()),
        Some(1)
    );
}

#[test]
fn cached_rows_of_unregistered_repositories_are_dropped() {
    let cached = Some(vec![row("a", "/gone", 1, None), row("b", "/repo", 1, None)]);
    let kept = cached_rows(cached, false, false, &vec!["/repo".to_string()]).unwrap();
    assert_eq!(kept.len(), 1);
    assert_eq!(kept[0].lane, "b");
}

#[test]
fn output_follows_the_flags_not_the_cache() {
    let rows = vec![row("a", "/repo", 1, Some(5))];
    let cleared = without_unasked_disk(rows.clone(), false);
    assert_eq!(cleared[0].disk_estimate_bytes, None);
    let kept = without_unasked_disk(rows, true);
    assert_eq!(kept[0].disk_estimate_bytes, Some(5));
}

#[test]
fn rows_come_newest_first_and_ties_keep_their_order() {
    let rows = vec![
        row("old", "/r", 10, None),
        row("new", "/r", 30, None),
        row("tie-a", "/r", 20, None),
        row("tie-b", "/r", 20, None),
    ];
    let sorted: Vec<String> = newest_first(rows).into_iter().map(|r| r.lane).collect();
    assert_eq!(sorted, vec!["new", "tie-a", "tie-b", "old"]);
}

#[test]
fn an_empty_listing_says_why() {
    assert_eq!(
        no_rows_message(0),
        vec![
            "no repositories registered",
            "  lane registers one when you run `lane --init` or create a lane in it",
        ]
    );
    assert_eq!(no_rows_message(1), vec!["no lanes in the 1 registered repository"]);
    assert_eq!(
        no_rows_message(3),
        vec!["no lanes in any of the 3 registered repositories"]
    );
}

#[test]
fn a_commit_time_that_is_not_a_number_is_zero() {
    assert_eq!(commit_time("1725029869"), 1725029869);
    assert_eq!(commit_time("-12"), -12);
    assert_eq!(commit_time(""), 0);
    assert_eq!(commit_time("12x"), 0);
}

#[test]
fn the_header_splits_into_the_column_names() {
    let rows = vec![row("a-very-long-lane-name", "/repo", 0, Some(1))];
    let plain = format_global_rows(&rows, &None, 60);
    let words: Vec<&str> = plain[0].split_whitespace().collect();
    assert_eq!(words, ["REPO", "LANE", "AGE", "COMMITS", "STATE"]);
    let disk = format_global_rows(&rows, &Some(vec!["1 KB".to_string()]), 60);
    let words: Vec<&str> = disk[0].split_whitespace().collect();
    assert_eq!(words, ["REPO", "LANE", "AGE", "DISK", "COMMITS", "STATE"]);
}
