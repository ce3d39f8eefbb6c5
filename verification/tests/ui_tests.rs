use dnsmasq_cli_rs::model::Outcome;
use dnsmasq_cli_rs::store::{map_row, CountRow, DayRow};
use dnsmasq_cli_rs::tui::ui::{
    blocked_note, confirm_message, counts_max, day_blocked_cells, day_query_cells,
    days_newest_first, live_cells, live_title, live_window, outcome_color, outcome_style,
    selected_offset, stacked_rows, summary_title, tab_index, tab_titles, total_count, truncate,
    unblocked_total, Tint,
};
use dnsmasq_cli_rs::tui::{Action, Period, Tab};

fn count(key: &str, count: i64, blocked: i64) -> CountRow {
    CountRow { key: key.to_string(), count, blocked }
}

#[test]
fn truncation() {
    assert_eq!(truncate("short", 20), "short");
    assert_eq!(truncate("abcdefghij", 5), "abcd…");
    assert_eq!(truncate("日本語ドメイン", 4), "日本語…");
    assert_eq!(truncate("abc", 0), "…");
    assert_eq!(truncate("abcde", 5), "abcde");
}

#[test]
fn colours() {
    assert_eq!(outcome_style(&Outcome::Blocked), Tint::Red);
    assert_eq!(outcome_style(&Outcome::Cached), Tint::Yellow);
    assert_eq!(outcome_style(&Outcome::Other("config".to_string())), Tint::Cyan);
    assert_eq!(outcome_color("forwarded"), Tint::Green);
    assert_eq!(outcome_color("hosts"), Tint::Magenta);
    assert_eq!(outcome_color("unknown"), Tint::DarkGray);
    assert_eq!(outcome_color("nameserver"), Tint::Cyan);
}

#[test]
fn titles() {
    assert_eq!(tab_titles(42, Period::D7), vec![" Live (42) ", " Stats [7d] ", " Daily "]);
    assert_eq!(tab_index(Tab::Daily), 2);
    assert_eq!(live_title(true, "/x.db"), " queries  follow:on  /x.db ");
    assert_eq!(live_title(false, "db"), " queries  follow:off  db ");
    assert_eq!(summary_title(Period::H1), " summary (1h window) ");
}

#[test]
fn confirmation_texts() {
    assert_eq!(
        confirm_message(&Action::Whitelist("a.com".to_string())),
        "whitelist \"a.com\" and reload dnsmasq?  (y/n)"
    );
    assert_eq!(confirm_message(&Action::Reload), "reload dnsmasq?  (y/n)");
}

#[test]
fn live_window_and_selection() {
    assert_eq!(live_window(10, 2, 5), (2, 7));
    assert_eq!(live_window(10, 8, 5), (8, 10));
    assert_eq!(live_window(3, 8, 5), (3, 3));
    assert_eq!(selected_offset(10, 4, 2), Some(2));
    assert_eq!(selected_offset(10, 1, 2), Some(0));
    assert_eq!(selected_offset(0, 4, 2), None);
}

#[test]
fn live_row_cells() {
    let r = map_row(
        1,
        3_600_000,
        None,
        None,
        "10.0.0.1".to_string(),
        "x.com".to_string(),
        None,
        "reply",
        Some("1.2.3.4".to_string()),
        String::new(),
    );
    assert_eq!(
        live_cells(&r, 0),
        vec!["01:00:00", "10.0.0.1", "x.com", "", "reply", "1.2.3.4"]
    );
    assert_eq!(live_cells(&r, 9 * 3_600_000)[0], "10:00:00");
}

#[test]
fn daily_cells_newest_first() {
    let day = 86_400_000;
    let days = vec![
        DayRow { day_ms: 0, cached: 1, reply: 2, forwarded: 3, blocked: 4 },
        DayRow { day_ms: day, cached: 0, reply: 0, forwarded: 0, blocked: 0 },
    ];
    let rev = days_newest_first(&days);
    assert_eq!(rev[0].day_ms, day);
    assert_eq!(rev[1].day_ms, 0);
    assert_eq!(day_query_cells(&days[0], 0), vec!["1970-01-01", "1", "2", "3", "6"]);
    assert_eq!(day_blocked_cells(&days[1], 0), vec!["1970-01-02", "0"]);
}

#[test]
fn count_blocks() {
    let rows = vec![count("a", 3, 0), count("blocked", 9, 9), count("b", 5, 1)];
    assert_eq!(counts_max(&rows), 9);
    assert_eq!(counts_max(&Vec::new()), 1);
    let kept = stacked_rows(&rows);
    assert_eq!(kept.iter().map(|r| r.key.as_str()).collect::<Vec<_>>(), vec!["a", "b"]);
    assert_eq!(total_count(&kept), Some(8));
    assert_eq!(total_count(&vec![count("x", i64::MAX, 0), count("y", 1, 0)]), None);
    assert_eq!(blocked_note(3, true), " (3 blk)");
    assert_eq!(blocked_note(0, true), "");
    assert_eq!(blocked_note(3, false), "");
}

#[test]
fn confirmation_box_is_centred() {
    let (x, y, w, h) = dnsmasq_cli_rs::tui::ui::centered((0, 0, 100, 30), 60, 3);
    assert_eq!((w, h), (60, 3));
    assert!(x >= 19 && x <= 21);
    assert!(y >= 13 && y <= 14);
}

#[test]
fn row_colour_matches_its_stored_name() {
    for o in [
        Outcome::Blocked,
        Outcome::Forwarded,
        Outcome::Cached,
        Outcome::CachedStale,
        Outcome::Reply,
        Outcome::Hosts,
        Outcome::Unknown,
        Outcome::Other("config".to_string()),
    ] {
        assert_eq!(outcome_style(&o), outcome_color(o.as_str()));
    }
}

#[test]
fn unblocked_total_is_never_negative() {
    assert_eq!(unblocked_total(10, 3), 7);
    assert_eq!(unblocked_total(3, 3), 0);
    assert_eq!(unblocked_total(3, 5), 0);
}
