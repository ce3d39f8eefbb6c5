use dnsmasq_cli_rs::report::{info_lines, prune_done_text, prune_dry_run_text};

#[test]
fn info_with_rows() {
    let breakdown = vec![("reply".to_string(), 10), ("cached-stale".to_string(), 2)];
    let lines = info_lines("/x.db", 12, Some((0, 86_400_000)), &breakdown, 0);
    assert_eq!(
        lines,
        vec![
            "db:      /x.db",
            "rows:    12",
            "range:   1970-01-01 00:00:00 .. 1970-01-02 00:00:00",
            "outcomes:",
            "  reply        10",
            "  cached-stale 2",
        ]
    );
}

#[test]
fn info_of_an_empty_database() {
    let lines = info_lines("db", 0, None, &Vec::new(), 0);
    assert_eq!(lines, vec!["db:      db", "rows:    0", "range:   (empty)", "outcomes: (empty)"]);
}

#[test]
fn info_range_in_local_time() {
    let lines = info_lines("db", 1, Some((0, 0)), &Vec::new(), 9 * 3_600_000);
    assert_eq!(lines[2], "range:   1970-01-01 09:00:00 .. 1970-01-01 09:00:00");
}

#[test]
fn prune_messages() {
    assert_eq!(
        prune_dry_run_text(5, 0, 0),
        "[dry-run] 5 rows with ts < 1970-01-01 00:00:00 would be deleted (use --apply)"
    );
    assert_eq!(prune_done_text(3, 86_400_000, 0), "deleted 3 rows with ts < 1970-01-02 00:00:00");
}
