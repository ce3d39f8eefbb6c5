use dnsmasq_cli_rs::cli::Config;
use dnsmasq_cli_rs::store::{map_row, DayRow, DbRow, Summary};
use dnsmasq_cli_rs::tui::{
    daily_in_range, poll_due, stats_timer_due, Action, App, BlockFilter, InputMode, Key, KeyCode, Period, Tab, MAX_BUFFER,
};

fn row(id: i64, domain: &str, client: &str, outcome: &str) -> DbRow {
    map_row(
        id,
        id * 1000,
        None,
        Some(id),
        client.to_string(),
        domain.to_string(),
        Some("A".to_string()),
        outcome,
        None,
        String::new(),
    )
}

fn press(app: &mut App, code: KeyCode) -> dnsmasq_cli_rs::tui::KeyOutcome {
    app.handle_key(Key { code, release: false })
}

fn type_text(app: &mut App, s: &str) {
    for c in s.chars() {
        press(app, KeyCode::Char(c));
    }
}

fn loaded() -> App {
    let mut app = App::new(Config::default());
    app.bootstrap(vec![
        row(1, "Example.com", "10.0.0.1", "reply"),
        row(2, "ads.tracker.net", "10.0.0.2", "blocked"),
        row(3, "mail.example.com", "10.0.0.1", "cached"),
        row(4, "cdn.other.org", "10.0.0.3", "forwarded"),
    ]);
    app
}

#[test]
fn new_state() {
    let app = App::new(Config::default());
    assert_eq!(app.tab, Tab::Live);
    assert_eq!(app.period, Period::H24);
    assert!(app.follow && !app.paused && !app.should_quit);
    assert_eq!(app.view_height, 1);
    assert!(app.events.is_empty());
}

#[test]
fn bootstrap_loads_rows_and_starts_jobs() {
    let mut app = App::new(Config::default());
    let started = app.bootstrap(vec![row(5, "a", "c", "reply"), row(9, "b", "c", "reply")]);
    assert_eq!(started, (true, true));
    assert_eq!(app.last_id, 9);
    assert_eq!(app.events.len(), 2);
    assert!(app.summary_loading && app.daily_loading);
    let mut empty = App::new(Config::default());
    empty.bootstrap(Vec::new());
    assert_eq!(empty.last_id, 0);
}

#[test]
fn search_is_a_case_insensitive_substring() {
    let mut app = loaded();
    press(&mut app, KeyCode::Char('/'));
    assert_eq!(app.input, Some(InputMode::Search));
    type_text(&mut app, "EXAMPLE");
    assert_eq!(app.visible_indices(), vec![0, 2]);
    press(&mut app, KeyCode::Enter);
    assert_eq!(app.input, None);
    assert_eq!(app.status, "filter: \"EXAMPLE\"");
    assert_eq!(app.filtered_len(), 2);
}

#[test]
fn client_filter_and_block_filter() {
    let mut app = loaded();
    press(&mut app, KeyCode::Char('c'));
    type_text(&mut app, "10.0.0.1");
    press(&mut app, KeyCode::Esc);
    assert_eq!(app.visible_indices(), vec![0, 2]);
    press(&mut app, KeyCode::Esc);
    assert_eq!(app.visible_indices(), vec![0, 1, 2, 3]);

    press(&mut app, KeyCode::Char('b'));
    assert_eq!(app.block_filter, BlockFilter::Only);
    assert_eq!(app.status, "blocked-only");
    assert_eq!(app.visible_indices(), vec![1]);
    press(&mut app, KeyCode::Char('b'));
    assert_eq!(app.block_filter, BlockFilter::Exclude);
    assert_eq!(app.visible_indices(), vec![0, 2, 3]);
    press(&mut app, KeyCode::Char('b'));
    assert_eq!(app.block_filter, BlockFilter::Default);
}

#[test]
fn backspace_erases_the_last_character() {
    let mut app = loaded();
    press(&mut app, KeyCode::Char('/'));
    type_text(&mut app, "ab");
    press(&mut app, KeyCode::Backspace);
    assert_eq!(app.search, "a");
    press(&mut app, KeyCode::Backspace);
    press(&mut app, KeyCode::Backspace);
    assert_eq!(app.search, "");
}

#[test]
fn key_release_is_ignored() {
    let mut app = loaded();
    let out = app.handle_key(Key { code: KeyCode::Char('q'), release: true });
    assert!(!app.should_quit);
    assert!(out.run.is_none() && !out.refresh_summary && !out.refresh_daily);
    press(&mut app, KeyCode::Char('q'));
    assert!(app.should_quit);
}

#[test]
fn cursor_keys() {
    let mut app = loaded();
    app.view_height = 2;
    press(&mut app, KeyCode::Down);
    press(&mut app, KeyCode::Char('j'));
    assert_eq!(app.cursor, 2);
    assert!(!app.follow);
    press(&mut app, KeyCode::Up);
    assert_eq!(app.cursor, 1);
    press(&mut app, KeyCode::PageUp);
    assert_eq!(app.cursor, 0);
    press(&mut app, KeyCode::PageDown);
    assert_eq!(app.cursor, 2);
    press(&mut app, KeyCode::Home);
    assert_eq!(app.cursor, 0);
    press(&mut app, KeyCode::End);
    assert_eq!(app.cursor, 3);
    assert!(app.follow);
    press(&mut app, KeyCode::Char('k'));
    press(&mut app, KeyCode::Char('g'));
    assert_eq!(app.cursor, 0);
}

#[test]
fn clamping_keeps_the_selection_in_view() {
    let mut app = loaded();
    app.cursor = 100;
    app.scroll = 50;
    app.view_height = 2;
    assert!(!app.clamp_would_overflow(4));
    app.clamp_view(4);
    assert_eq!(app.cursor, 3);
    assert_eq!(app.scroll, 2);
    app.cursor = 0;
    app.clamp_view(4);
    assert_eq!(app.scroll, 0);
    app.clamp_view(0);
    assert_eq!((app.cursor, app.scroll), (0, 0));
    app.scroll = usize::MAX;
    app.cursor = usize::MAX;
    app.view_height = 5;
    assert!(app.clamp_would_overflow(usize::MAX));
}

#[test]
fn whitelist_asks_first() {
    let mut app = loaded();
    app.cursor = 1;
    press(&mut app, KeyCode::Char('w'));
    assert_eq!(app.status, "whitelist ads.tracker.net? (y/n)");
    assert!(matches!(&app.confirm, Some(Action::Whitelist(d)) if d == "ads.tracker.net"));
    let out = press(&mut app, KeyCode::Char('y'));
    assert!(matches!(out.run, Some(Action::Whitelist(d)) if d == "ads.tracker.net"));
    assert!(app.confirm.is_none());
}

#[test]
fn any_other_key_cancels() {
    let mut app = loaded();
    press(&mut app, KeyCode::Char('R'));
    assert_eq!(app.status, "reload dnsmasq? (y/n)");
    let out = press(&mut app, KeyCode::Char('n'));
    assert!(out.run.is_none());
    assert!(app.confirm.is_none());
    assert_eq!(app.status, "cancelled");
}

#[test]
fn whitelist_without_rows() {
    let mut app = App::new(Config::default());
    press(&mut app, KeyCode::Char('w'));
    assert_eq!(app.status, "no row selected");
    assert!(app.confirm.is_none());
}

#[test]
fn tabs_and_windows_refresh_what_is_shown() {
    let mut app = App::new(Config::default());
    let out = press(&mut app, KeyCode::Tab);
    assert_eq!(app.tab, Tab::Stats);
    assert!(out.refresh_summary);
    assert!(app.summary_loading);
    // Already running: not started twice.
    let out = press(&mut app, KeyCode::Char('1'));
    assert_eq!(app.period, Period::H1);
    assert!(!out.refresh_summary);
    let out = press(&mut app, KeyCode::Tab);
    assert_eq!(app.tab, Tab::Daily);
    assert!(out.refresh_daily);
    press(&mut app, KeyCode::Tab);
    assert_eq!(app.tab, Tab::Live);
    press(&mut app, KeyCode::Char('T'));
    assert_eq!(app.period, Period::H24);
    press(&mut app, KeyCode::Char('3'));
    assert_eq!(app.period, Period::D7);
}

#[test]
fn pause_toggles() {
    let mut app = loaded();
    press(&mut app, KeyCode::Char('p'));
    assert!(app.paused);
    assert_eq!(app.status, "paused: true");
    assert_eq!(app.poll_request(), None);
    press(&mut app, KeyCode::Char('p'));
    assert_eq!(app.status, "paused: false");
    assert_eq!(app.poll_request(), Some((4, 2000)));
}

#[test]
fn polling_appends_and_bounds_the_buffer() {
    let mut app = loaded();
    app.poll_rows(Ok(vec![row(5, "new.com", "c", "reply")]));
    assert_eq!(app.events.len(), 5);
    assert_eq!(app.last_id, 5);
    assert!(app.poll_error.is_none());

    let many: Vec<DbRow> = (6..(MAX_BUFFER as i64 + 10)).map(|i| row(i, "d", "c", "reply")).collect();
    app.poll_rows(Ok(many));
    assert_eq!(app.events.len(), MAX_BUFFER);
    assert_eq!(app.events.back().unwrap().id, MAX_BUFFER as i64 + 9);
    assert_eq!(app.last_id, MAX_BUFFER as i64 + 9);

    app.poll_rows(Err("disk I/O error".to_string()));
    assert_eq!(app.poll_error.as_deref(), Some("db error: disk I/O error"));
    app.poll_rows(Ok(Vec::new()));
    assert!(app.poll_error.is_none());
}

#[test]
fn summary_results() {
    let mut app = App::new(Config::default());
    assert!(app.trigger_refresh_summary());
    assert!(!app.trigger_refresh_summary());
    let s = Summary { total: 10, blocked: 3, ..Summary::default() };
    assert!(!app.apply_summary(Period::H24, Ok(s)));
    assert_eq!(app.summary.total, 10);
    assert_eq!(app.summary_period, Some(Period::H24));
    assert!(!app.summary_loading);

    app.trigger_refresh_summary();
    let stale = Summary { total: 99, ..Summary::default() };
    assert!(app.apply_summary(Period::D7, Ok(stale)));
    assert_eq!(app.summary.total, 10);
    assert!(app.summary_loading);

    app.apply_summary(Period::H24, Err("locked".to_string()));
    assert_eq!(app.stats_error.as_deref(), Some("summary error: locked"));
}

#[test]
fn summary_job_window() {
    let mut app = App::new(Config::default());
    app.period = Period::H1;
    let job = app.summary_job(10_000_000);
    assert_eq!(job.from_ms, 10_000_000 - 3_600_000);
    assert_eq!(job.top, 10);
    assert_eq!(job.period, Period::H1);
}

#[test]
fn daily_table_has_one_entry_per_day() {
    let mut cfg = Config::default();
    cfg.tz_offset_ms = 9 * 3_600_000;
    let mut app = App::new(cfg);
    let day: i64 = 86_400_000;
    let now = 20_000 * day + 3_600_000;
    assert!(daily_in_range(now, app.cfg.tz_offset_ms));
    let job = app.daily_job(now);
    assert_eq!(job.start_day, 20_000 - 6);
    assert_eq!(job.days, 7);
    let off = app.cfg.tz_offset_ms;
    let known = DayRow { day_ms: 19_998 * day - off, cached: 1, reply: 2, forwarded: 3, blocked: 4 };
    app.daily_loading = true;
    app.apply_daily(Ok(vec![known]), now);
    assert!(!app.daily_loading);
    assert_eq!(app.daily.len(), 7);
    for (i, d) in app.daily.iter().enumerate() {
        assert_eq!(d.day_ms, (19_994 + i as i64) * day - off);
    }
    assert_eq!(app.daily[4].reply, 2);
    assert_eq!(app.daily[0].reply, 0);
    app.apply_daily(Err("busy".to_string()), now);
    assert_eq!(app.stats_error.as_deref(), Some("daily error: busy"));
    assert!(!daily_in_range(i64::MAX, 1));
}

#[test]
fn statistics_clock_refreshes_the_tab_on_screen() {
    let mut app = App::new(Config::default());
    let r = app.stats_due();
    assert!(!r.reset_timer && !r.summary && !r.daily);
    app.tab = Tab::Stats;
    let r = app.stats_due();
    assert!(r.reset_timer && r.summary && !r.daily);
    app.tab = Tab::Daily;
    let r = app.stats_due();
    assert!(r.reset_timer && !r.summary && r.daily);
}

#[test]
fn management_result_restarts_jobs() {
    let mut app = App::new(Config::default());
    let started = app.action_done("dnsmasq reloaded".to_string());
    assert_eq!(started, (true, true));
    assert_eq!(app.status, "dnsmasq reloaded");
}

#[test]
fn status_and_error_lines() {
    let mut app = loaded();
    assert_eq!(app.status_line(), "1/4");
    app.search = "ex".to_string();
    app.client_filter = "10.0".to_string();
    app.block_filter = BlockFilter::Exclude;
    app.paused = true;
    app.status = "hello".to_string();
    assert_eq!(
        app.status_line(),
        "1/2  search:\"ex\"  client:\"10.0\"  blocked excluded  PAUSED  hello"
    );
    assert_eq!(app.error_line(), None);
    app.poll_error = Some("p".to_string());
    assert_eq!(app.error_line().as_deref(), Some("p"));
    app.stats_error = Some("s".to_string());
    assert_eq!(app.error_line().as_deref(), Some("p  s"));
}

#[test]
fn selection() {
    let mut app = loaded();
    app.cursor = 3;
    assert_eq!(app.selected().map(|r| r.id), Some(4));
    app.cursor = 4;
    assert!(app.selected().is_none());
}

#[test]
fn cycles() {
    assert_eq!(Tab::Live.next().next().next(), Tab::Live);
    assert_eq!(Period::H1.cycle(), Period::H24);
    assert_eq!(Period::D7.cycle(), Period::H1);
    assert_eq!(Period::D7.ms(), 604_800_000);
    assert_eq!(Period::H24.label(), "24h");
    assert!(BlockFilter::Only.allows(true) && !BlockFilter::Only.allows(false));
    assert!(BlockFilter::Exclude.allows(false) && !BlockFilter::Exclude.allows(true));
    assert_eq!(BlockFilter::Default.label(), "blocked: all");
}

#[test]
fn clamping_twice_changes_nothing() {
    let mut app = loaded();
    app.cursor = 7;
    app.scroll = 1;
    app.view_height = 3;
    app.clamp_view(4);
    let once = (app.cursor, app.scroll);
    app.clamp_view(4);
    assert_eq!((app.cursor, app.scroll), once);
    assert!(app.scroll <= app.cursor && app.cursor < app.scroll + 3);
}

#[test]
fn refresh_timers() {
    assert!(!poll_due(499));
    assert!(poll_due(500));
    assert!(!stats_timer_due(9_999));
    assert!(stats_timer_due(10_000));
}
