//! TUI state and key handling.
//!
//! The terminal, the database and the background jobs belong to the application;
//! this module decides what a key, a finished job or new rows do to the state, and
//! which jobs to start.

pub mod manage;
pub mod ui;

use vstd::prelude::*;

use std::collections::VecDeque;

use crate::cli::{Config, ConfigV};
use crate::model::OutcomeV;
use crate::store::{fits_i64, rows_view, DayRow, DbRow, DbRowV, Summary};
use crate::util::DAY_MS;
use crate::text::{
    contains_seq, debug_quoted, debug_str, decimal, lowercase, push_char, push_decimal, push_str,
    str_contains, string_of, to_chars, to_lowercase,
};

verus! {

/// Rows kept in memory.
pub const MAX_BUFFER: usize = 20_000;

/// Rows fetched per poll.
pub const POLL_BATCH: i64 = 2000;

/// Days shown by the Daily tab.
pub const DAILY_DAYS: i64 = 7;

/// How often new rows are fetched, in milliseconds.
pub const POLL_INTERVAL_MS: u64 = 500;

/// How often the statistics are recomputed, in milliseconds.
pub const STATS_INTERVAL_MS: u64 = 10_000;

/// Whether new rows are due to be fetched, `elapsed_ms` after the last fetch.
pub fn poll_due(elapsed_ms: u128) -> (b: bool)
    ensures
        b == (elapsed_ms >= POLL_INTERVAL_MS),
{
    elapsed_ms >= POLL_INTERVAL_MS as u128
}

/// Whether the statistics are due to be recomputed, `elapsed_ms` after the last time.
pub fn stats_timer_due(elapsed_ms: u128) -> (b: bool)
    ensures
        b == (elapsed_ms >= STATS_INTERVAL_MS),
{
    elapsed_ms >= STATS_INTERVAL_MS as u128
}

#[derive(Clone, Copy, PartialEq, Eq, Structural, Debug)]
pub enum Tab {
    Live,
    Stats,
    Daily,
}

pub open spec fn tab_next(t: Tab) -> Tab {
    match t {
        Tab::Live => Tab::Stats,
        Tab::Stats => Tab::Daily,
        Tab::Daily => Tab::Live,
    }
}

impl Tab {
    /// The next tab: Live, Stats, Daily, then Live again.
    pub fn next(self) -> (r: Tab)
        ensures
            r == tab_next(self),
    {
        match self {
            Tab::Live => Tab::Stats,
            Tab::Stats => Tab::Daily,
            Tab::Daily => Tab::Live,
        }
    }
}

#[derive(Clone, Copy, PartialEq, Eq, Structural, Debug)]
pub enum Period {
    H1,
    H24,
    D7,
}

pub open spec fn period_ms(p: Period) -> i64 {
    match p {
        Period::H1 => 3_600_000,
        Period::H24 => 86_400_000,
        Period::D7 => 604_800_000,
    }
}

pub open spec fn period_label(p: Period) -> Seq<char> {
    match p {
        Period::H1 => "1h"@,
        Period::H24 => "24h"@,
        Period::D7 => "7d"@,
    }
}

pub open spec fn period_cycle(p: Period) -> Period {
    match p {
        Period::H1 => Period::H24,
        Period::H24 => Period::D7,
        Period::D7 => Period::H1,
    }
}

impl Period {
    /// Length of the window in milliseconds.
    pub fn ms(self) -> (r: i64)
        ensures
            r == period_ms(self),
    {
        match self {
            Period::H1 => 3_600_000,
            Period::H24 => 86_400_000,
            Period::D7 => 604_800_000,
        }
    }

    pub fn label(self) -> (r: &'static str)
        ensures
            r@ == period_label(self),
    {
        match self {
            Period::H1 => "1h",
            Period::H24 => "24h",
            Period::D7 => "7d",
        }
    }

    /// The next window: 1 h, 24 h, 7 d, then 1 h again.
    pub fn cycle(self) -> (r: Period)
        ensures
            r == period_cycle(self),
    {
        match self {
            Period::H1 => Period::H24,
            Period::H24 => Period::D7,
            Period::D7 => Period::H1,
        }
    }
}

/// Which rows the block filter lets through (`b` cycles it).
#[derive(Clone, Copy, PartialEq, Eq, Structural, Debug)]
pub enum BlockFilter {
    /// Every row.
    Default,
    /// Blocked rows only.
    Only,
    /// Rows that were not blocked.
    Exclude,
}

pub open spec fn block_filter_next(b: BlockFilter) -> BlockFilter {
    match b {
        BlockFilter::Default => BlockFilter::Only,
        BlockFilter::Only => BlockFilter::Exclude,
        BlockFilter::Exclude => BlockFilter::Default,
    }
}

pub open spec fn block_filter_label(b: BlockFilter) -> Seq<char> {
    match b {
        BlockFilter::Default => "blocked: all"@,
        BlockFilter::Only => "blocked-only"@,
        BlockFilter::Exclude => "blocked excluded"@,
    }
}

pub open spec fn block_filter_allows(b: BlockFilter, blocked: bool) -> bool {
    match b {
        BlockFilter::Default => true,
        BlockFilter::Only => blocked,
        BlockFilter::Exclude => !blocked,
    }
}

impl BlockFilter {
    pub fn next(self) -> (r: Self)
        ensures
            r == block_filter_next(self),
    {
        match self {
            BlockFilter::Default => BlockFilter::Only,
            BlockFilter::Only => BlockFilter::Exclude,
            BlockFilter::Exclude => BlockFilter::Default,
        }
    }

    pub fn label(self) -> (r: &'static str)
        ensures
            r@ == block_filter_label(self),
    {
        match self {
            BlockFilter::Default => "blocked: all",
            BlockFilter::Only => "blocked-only",
            BlockFilter::Exclude => "blocked excluded",
        }
    }

    pub fn allows(self, blocked: bool) -> (r: bool)
        ensures
            r == block_filter_allows(self, blocked),
    {
        match self {
            BlockFilter::Default => true,
            BlockFilter::Only => blocked,
            BlockFilter::Exclude => !blocked,
        }
    }
}

#[derive(Clone, Copy, PartialEq, Eq, Structural, Debug)]
pub enum InputMode {
    Search,
    Client,
}

/// A management action waiting for confirmation.
#[derive(Clone, Debug)]
pub enum Action {
    Whitelist(String),
    Reload,
}

pub enum ActionV {
    Whitelist(Seq<char>),
    Reload,
}

impl View for Action {
    type V = ActionV;

    open spec fn view(&self) -> ActionV {
        match self {
            Action::Whitelist(d) => ActionV::Whitelist(d@),
            Action::Reload => ActionV::Reload,
        }
    }
}

pub open spec fn opt_action(a: Option<Action>) -> Option<ActionV> {
    match a {
        Some(a) => Some(a@),
        None => None,
    }
}

pub open spec fn opt_string(s: Option<String>) -> Option<Seq<char>> {
    match s {
        Some(s) => Some(s@),
        None => None,
    }
}

/// A key press, as far as the TUI reads it.
#[derive(Clone, Copy, PartialEq, Eq, Structural, Debug)]
pub enum KeyCode {
    Char(char),
    Esc,
    Enter,
    Backspace,
    Tab,
    Up,
    Down,
    PageUp,
    PageDown,
    Home,
    End,
    Other,
}

#[derive(Clone, Copy, PartialEq, Eq, Structural, Debug)]
pub struct Key {
    pub code: KeyCode,
    /// A key release (ignored).
    pub release: bool,
}

/// What the application does after a key: run a management action, start the
/// summary job, start the daily job.
pub struct KeyOutcome {
    pub run: Option<Action>,
    pub refresh_summary: bool,
    pub refresh_daily: bool,
}

pub struct KeyOutcomeV {
    pub run: Option<ActionV>,
    pub refresh_summary: bool,
    pub refresh_daily: bool,
}

impl View for KeyOutcome {
    type V = KeyOutcomeV;

    open spec fn view(&self) -> KeyOutcomeV {
        KeyOutcomeV {
            run: opt_action(self.run),
            refresh_summary: self.refresh_summary,
            refresh_daily: self.refresh_daily,
        }
    }
}

pub open spec fn no_effect() -> KeyOutcomeV {
    KeyOutcomeV { run: None, refresh_summary: false, refresh_daily: false }
}

/// The TUI's state.
pub struct App {
    pub cfg: Config,
    pub events: VecDeque<DbRow>,
    pub last_id: i64,
    pub tab: Tab,
    pub period: Period,
    pub summary: Summary,
    /// The window `summary` was computed for; not final while it differs from `period`.
    pub summary_period: Option<Period>,
    pub daily: Vec<DayRow>,
    pub summary_loading: bool,
    pub daily_loading: bool,
    /// The latest error of a background job (summary or daily).
    pub stats_error: Option<String>,
    /// The latest error of row polling.
    pub poll_error: Option<String>,
    pub search: String,
    pub client_filter: String,
    pub block_filter: BlockFilter,
    pub paused: bool,
    /// First shown position in the filtered rows.
    pub scroll: usize,
    /// Selected position in the filtered rows.
    pub cursor: usize,
    /// Rows that fit on screen (from the latest draw).
    pub view_height: usize,
    pub follow: bool,
    pub input: Option<InputMode>,
    pub confirm: Option<Action>,
    pub status: String,
    pub should_quit: bool,
}

pub struct AppV {
    pub cfg: ConfigV,
    pub events: Seq<DbRowV>,
    pub last_id: i64,
    pub tab: Tab,
    pub period: Period,
    pub summary: Summary,
    pub summary_period: Option<Period>,
    pub daily: Seq<DayRow>,
    pub summary_loading: bool,
    pub daily_loading: bool,
    pub stats_error: Option<Seq<char>>,
    pub poll_error: Option<Seq<char>>,
    pub search: Seq<char>,
    pub client_filter: Seq<char>,
    pub block_filter: BlockFilter,
    pub paused: bool,
    pub scroll: usize,
    pub cursor: usize,
    pub view_height: usize,
    pub follow: bool,
    pub input: Option<InputMode>,
    pub confirm: Option<ActionV>,
    pub status: Seq<char>,
    pub should_quit: bool,
}

impl View for App {
    type V = AppV;

    open spec fn view(&self) -> AppV {
        AppV {
            cfg: self.cfg@,
            events: rows_view(self.events@),
            last_id: self.last_id,
            tab: self.tab,
            period: self.period,
            summary: self.summary,
            summary_period: self.summary_period,
            daily: self.daily@,
            summary_loading: self.summary_loading,
            daily_loading: self.daily_loading,
            stats_error: opt_string(self.stats_error),
            poll_error: opt_string(self.poll_error),
            search: self.search@,
            client_filter: self.client_filter@,
            block_filter: self.block_filter,
            paused: self.paused,
            scroll: self.scroll,
            cursor: self.cursor,
            view_height: self.view_height,
            follow: self.follow,
            input: self.input,
            confirm: opt_action(self.confirm),
            status: self.status@,
            should_quit: self.should_quit,
        }
    }
}

// ---------------------------------------------------------------------------
// Filtering
// ---------------------------------------------------------------------------

/// A row passes the block filter, the domain search and the client filter (`q`, `c`
/// are the lower-cased search texts; an empty text matches everything).
pub open spec fn row_visible(r: DbRowV, q: Seq<char>, c: Seq<char>, bf: BlockFilter) -> bool {
    &&& block_filter_allows(bf, r.ev.outcome is Blocked)
    &&& (q.len() == 0 || contains_seq(lowercase(r.ev.domain), q))
    &&& (c.len() == 0 || contains_seq(lowercase(r.ev.client), c))
}

/// Positions of the visible rows among the first `n`, in order.
pub open spec fn visible_upto(
    rows: Seq<DbRowV>,
    q: Seq<char>,
    c: Seq<char>,
    bf: BlockFilter,
    n: int,
) -> Seq<usize>
    decreases n,
{
    if n <= 0 {
        Seq::empty()
    } else if row_visible(rows[n - 1], q, c, bf) {
        visible_upto(rows, q, c, bf, n - 1).push((n - 1) as usize)
    } else {
        visible_upto(rows, q, c, bf, n - 1)
    }
}

/// Positions of the rows shown under the current filters.
pub open spec fn visible(a: AppV) -> Seq<usize> {
    visible_upto(
        a.events,
        lowercase(a.search),
        lowercase(a.client_filter),
        a.block_filter,
        a.events.len() as int,
    )
}

/// `x - y`, but not below zero.
pub open spec fn sat_sub(x: usize, y: usize) -> usize {
    if x >= y {
        (x - y) as usize
    } else {
        0
    }
}

/// `x + y`, but not above `usize::MAX`.
pub open spec fn sat_add(x: usize, y: usize) -> usize {
    if x + y <= usize::MAX {
        (x + y) as usize
    } else {
        usize::MAX
    }
}

pub open spec fn max1(x: usize) -> usize {
    if x >= 1 {
        x
    } else {
        1
    }
}

// ---------------------------------------------------------------------------
// Key handling, as a function of the state
// ---------------------------------------------------------------------------

/// Marks the summary job as running; it starts only when it was not running.
pub open spec fn refresh_summary_spec(a: AppV) -> (AppV, bool) {
    if a.summary_loading {
        (a, false)
    } else {
        (AppV { summary_loading: true, ..a }, true)
    }
}

/// Marks the daily job as running; it starts only when it was not running.
pub open spec fn refresh_daily_spec(a: AppV) -> (AppV, bool) {
    if a.daily_loading {
        (a, false)
    } else {
        (AppV { daily_loading: true, ..a }, true)
    }
}

/// Sets the window; the summary is refreshed when the Stats tab shows it.
pub open spec fn set_period_spec(a: AppV, p: Period) -> (AppV, KeyOutcomeV) {
    let a1 = AppV { period: p, ..a };
    if a1.tab == Tab::Stats {
        let (a2, s) = refresh_summary_spec(a1);
        (a2, KeyOutcomeV { refresh_summary: s, ..no_effect() })
    } else {
        (a1, no_effect())
    }
}

pub open spec fn bool_text(b: bool) -> Seq<char> {
    if b {
        "true"@
    } else {
        "false"@
    }
}

/// A key while a confirmation is asked: `y`/`Y` runs the action, anything else cancels.
pub open spec fn confirm_key_spec(a: AppV, code: KeyCode) -> (AppV, KeyOutcomeV) {
    if code == KeyCode::Char('y') || code == KeyCode::Char('Y') {
        (AppV { confirm: None, ..a }, KeyOutcomeV { run: a.confirm, ..no_effect() })
    } else {
        (AppV { confirm: None, status: "cancelled"@, ..a }, no_effect())
    }
}

/// The text being typed, without its last character.
pub open spec fn drop_last_char(s: Seq<char>) -> Seq<char> {
    if s.len() > 0 {
        s.drop_last()
    } else {
        s
    }
}

/// A key while a filter text is typed.
pub open spec fn input_key_spec(a: AppV, mode: InputMode, code: KeyCode) -> AppV {
    match code {
        KeyCode::Esc => AppV { input: None, ..a },
        KeyCode::Enter => {
            let target = if mode == InputMode::Search {
                a.search
            } else {
                a.client_filter
            };
            AppV { status: "filter: "@ + debug_quoted(target), input: None, follow: true, ..a }
        },
        KeyCode::Backspace => if mode == InputMode::Search {
            AppV { search: drop_last_char(a.search), ..a }
        } else {
            AppV { client_filter: drop_last_char(a.client_filter), ..a }
        },
        KeyCode::Char(c) => if mode == InputMode::Search {
            AppV { search: a.search.push(c), ..a }
        } else {
            AppV { client_filter: a.client_filter.push(c), ..a }
        },
        _ => a,
    }
}

/// A key in normal mode.
pub open spec fn normal_key_spec(a: AppV, code: KeyCode) -> (AppV, KeyOutcomeV) {
    match code {
        KeyCode::Char('q') => (AppV { should_quit: true, ..a }, no_effect()),
        KeyCode::Esc => (
            AppV {
                search: Seq::empty(),
                client_filter: Seq::empty(),
                block_filter: BlockFilter::Default,
                ..a
            },
            no_effect(),
        ),
        KeyCode::Tab => {
            let a1 = AppV { tab: tab_next(a.tab), ..a };
            if a1.tab == Tab::Stats && a1.summary_period != Some(a1.period) {
                let (a2, s) = refresh_summary_spec(a1);
                (a2, KeyOutcomeV { refresh_summary: s, ..no_effect() })
            } else if a1.tab == Tab::Daily && a1.daily.len() == 0 {
                let (a2, d) = refresh_daily_spec(a1);
                (a2, KeyOutcomeV { refresh_daily: d, ..no_effect() })
            } else {
                (a1, no_effect())
            }
        },
        KeyCode::Char('1') => set_period_spec(a, Period::H1),
        KeyCode::Char('2') => set_period_spec(a, Period::H24),
        KeyCode::Char('3') => set_period_spec(a, Period::D7),
        KeyCode::Char('T') => set_period_spec(a, period_cycle(a.period)),
        KeyCode::Char('b') => {
            let bf = block_filter_next(a.block_filter);
            (AppV { block_filter: bf, status: block_filter_label(bf), follow: true, ..a }, no_effect())
        },
        KeyCode::Char('p') => (
            AppV { paused: !a.paused, status: "paused: "@ + bool_text(!a.paused), ..a },
            no_effect(),
        ),
        KeyCode::Char('/') => (
            AppV { input: Some(InputMode::Search), status: "search domain:"@, ..a },
            no_effect(),
        ),
        KeyCode::Char('c') => (
            AppV { input: Some(InputMode::Client), status: "filter client:"@, ..a },
            no_effect(),
        ),
        KeyCode::Up | KeyCode::Char('k') => (
            AppV { follow: false, cursor: sat_sub(a.cursor, 1), ..a },
            no_effect(),
        ),
        KeyCode::Down | KeyCode::Char('j') => (
            AppV { follow: false, cursor: sat_add(a.cursor, 1), ..a },
            no_effect(),
        ),
        KeyCode::PageUp => (
            AppV { follow: false, cursor: sat_sub(a.cursor, max1(a.view_height)), ..a },
            no_effect(),
        ),
        KeyCode::PageDown => (
            AppV { follow: false, cursor: sat_add(a.cursor, max1(a.view_height)), ..a },
            no_effect(),
        ),
        KeyCode::Home | KeyCode::Char('g') => (AppV { follow: false, cursor: 0, ..a }, no_effect()),
        KeyCode::End | KeyCode::Char('G') => (
            AppV { cursor: sat_sub(visible(a).len() as usize, 1), follow: true, ..a },
            no_effect(),
        ),
        KeyCode::Char('w') => {
            let vis = visible(a);
            if a.cursor < vis.len() {
                let d = a.events[vis[a.cursor as int] as int].ev.domain;
                (
                    AppV {
                        confirm: Some(ActionV::Whitelist(d)),
                        status: "whitelist "@ + d + "? (y/n)"@,
                        ..a
                    },
                    no_effect(),
                )
            } else {
                (AppV { status: "no row selected"@, ..a }, no_effect())
            }
        },
        KeyCode::Char('R') => (
            AppV { confirm: Some(ActionV::Reload), status: "reload dnsmasq? (y/n)"@, ..a },
            no_effect(),
        ),
        _ => (a, no_effect()),
    }
}

/// What a key does.
pub open spec fn key_spec(a: AppV, k: Key) -> (AppV, KeyOutcomeV) {
    if k.release {
        (a, no_effect())
    } else if a.confirm is Some {
        confirm_key_spec(a, k.code)
    } else if a.input is Some {
        (input_key_spec(a, a.input.unwrap(), k.code), no_effect())
    } else {
        normal_key_spec(a, k.code)
    }
}

// ---------------------------------------------------------------------------
// Implementation
// ---------------------------------------------------------------------------

/// `s` without its last character.
fn without_last_char(s: &String) -> (r: String)
    ensures
        r@ == drop_last_char(s@),
{
    let v = to_chars(s.as_str());
    if v.len() == 0 {
        String::new()
    } else {
        let r = string_of(&v, 0, v.len() - 1);
        proof {
            assert(v@.subrange(0, v@.len() - 1) =~= s@.drop_last());
        }
        r
    }
}

/// `a` followed by `b`.
fn concat(a: &str, b: &str) -> (r: String)
    ensures
        r@ == a@ + b@,
{
    let mut s = String::from_str(a);
    push_str(&mut s, b);
    s
}

impl App {
    /// A fresh state for the given configuration: Live tab, 24 h window, following.
    pub fn new(cfg: Config) -> (app: Self)
        ensures
            app@.cfg == cfg@,
            app@.events.len() == 0,
            app@.last_id == 0,
            app@.tab == Tab::Live,
            app@.period == Period::H24,
            app@.summary.total == 0,
            app@.summary.blocked == 0,
            app@.summary.domains@.len() == 0,
            app@.summary.blocked_domains@.len() == 0,
            app@.summary.clients@.len() == 0,
            app@.summary.qtypes@.len() == 0,
            app@.summary.outcomes@.len() == 0,
            app@.summary_period is None,
            app@.daily.len() == 0,
            !app@.summary_loading,
            !app@.daily_loading,
            app@.stats_error is None,
            app@.poll_error is None,
            app@.search.len() == 0,
            app@.client_filter.len() == 0,
            app@.block_filter == BlockFilter::Default,
            !app@.paused,
            app@.scroll == 0,
            app@.cursor == 0,
            app@.view_height == 1,
            app@.follow,
            app@.input is None,
            app@.confirm is None,
            app@.status.len() == 0,
            !app@.should_quit,
    {
        App {
            cfg,
            events: VecDeque::new(),
            last_id: 0,
            tab: Tab::Live,
            period: Period::H24,
            summary: Summary::default(),
            summary_period: None,
            daily: Vec::new(),
            summary_loading: false,
            daily_loading: false,
            stats_error: None,
            poll_error: None,
            search: String::new(),
            client_filter: String::new(),
            block_filter: BlockFilter::Default,
            paused: false,
            scroll: 0,
            cursor: 0,
            view_height: 1,
            follow: true,
            input: None,
            confirm: None,
            status: String::new(),
            should_quit: false,
        }
    }

    /// Positions (in `events`) of the rows shown under the current filters.
    pub fn visible_indices(&self) -> (r: Vec<usize>)
        ensures
            r@ == visible(self@),
    {
        let q = to_lowercase(self.search.as_str());
        let c = to_lowercase(self.client_filter.as_str());
        let ghost rows = rows_view(self.events@);
        let mut out: Vec<usize> = Vec::new();
        let mut i: usize = 0;
        while i < self.events.len()
            invariant
                i <= self.events@.len(),
                rows == rows_view(self.events@),
                q@ == lowercase(self.search@),
                c@ == lowercase(self.client_filter@),
                out@ == visible_upto(rows, q@, c@, self.block_filter, i as int),
            decreases self.events@.len() - i,
        {
            let r = &self.events[i];
            proof {
                assert(rows[i as int] == r@);
            }
            let ok = self.block_filter.allows(r.ev.outcome.is_blocked()) && (q.as_str().is_empty()
                || str_contains(to_lowercase(r.ev.domain.as_str()).as_str(), q.as_str())) && (
            c.as_str().is_empty() || str_contains(
                to_lowercase(r.ev.client.as_str()).as_str(),
                c.as_str(),
            ));
            if ok {
                out.push(i);
            }
            i = i + 1;
        }
        out
    }
}


// ---------------------------------------------------------------------------
// Selection and scrolling
// ---------------------------------------------------------------------------

/// The selected row: the visible row at `cursor`, if there is one.
pub open spec fn selected_row(a: AppV) -> Option<DbRowV> {
    let vis = visible(a);
    if a.cursor < vis.len() {
        Some(a.events[vis[a.cursor as int] as int])
    } else {
        None
    }
}

/// Every position listed by `visible_upto(.., n)` is below `n`, and they increase.
pub proof fn lemma_visible_upto_bounds(
    rows: Seq<DbRowV>,
    q: Seq<char>,
    c: Seq<char>,
    bf: BlockFilter,
    n: int,
)
    requires
        0 <= n <= usize::MAX,
    ensures
        visible_upto(rows, q, c, bf, n).len() <= n,
        forall|i: int|
            0 <= i < visible_upto(rows, q, c, bf, n).len() ==> #[trigger] visible_upto(
                rows,
                q,
                c,
                bf,
                n,
            )[i] < n,
        forall|i: int, j: int|
            0 <= i < j < visible_upto(rows, q, c, bf, n).len() ==> #[trigger] visible_upto(
                rows,
                q,
                c,
                bf,
                n,
            )[i] < #[trigger] visible_upto(rows, q, c, bf, n)[j],
    decreases n,
{
    if n > 0 {
        lemma_visible_upto_bounds(rows, q, c, bf, n - 1);
    }
}

/// The rows shown are rows of the buffer, in the buffer's order, each once.
pub proof fn lemma_visible_in_order(a: AppV)
    requires
        a.events.len() <= usize::MAX,
    ensures
        visible(a).len() <= a.events.len(),
        forall|i: int| 0 <= i < visible(a).len() ==> #[trigger] visible(a)[i] < a.events.len(),
        forall|i: int, j: int|
            0 <= i < j < visible(a).len() ==> #[trigger] visible(a)[i] < #[trigger] visible(a)[j],
{
    lemma_visible_upto_bounds(
        a.events,
        lowercase(a.search),
        lowercase(a.client_filter),
        a.block_filter,
        a.events.len() as int,
    );
}

/// `cursor` and `scroll` brought into a list of `len` rows with a view of
/// `max1(view_height)` rows.
pub open spec fn clamp_spec(a: AppV, len: usize) -> AppV {
    if len == 0 {
        AppV { scroll: 0, cursor: 0, ..a }
    } else {
        let c: int = if a.cursor >= len {
            len - 1
        } else {
            a.cursor as int
        };
        let h: int = max1(a.view_height) as int;
        let s1: int = if c < a.scroll {
            c
        } else {
            a.scroll as int
        };
        let s2: int = if c >= s1 + h {
            c + 1 - h
        } else {
            s1
        };
        let m: int = sat_sub(len, max1(a.view_height)) as int;
        let s3: int = if s2 > m {
            m
        } else {
            s2
        };
        AppV { scroll: s3 as usize, cursor: c as usize, ..a }
    }
}

/// Where `scroll + view height` would not fit in a `usize` during clamping.
pub open spec fn clamp_overflows(a: AppV, len: usize) -> bool {
    len > 0 && {
        let c: int = if a.cursor >= len {
            len - 1
        } else {
            a.cursor as int
        };
        let s1: int = if c < a.scroll {
            c
        } else {
            a.scroll as int
        };
        s1 + max1(a.view_height) > usize::MAX
    }
}

/// After clamping, the selection is a row of the list and lies inside the view,
/// and the view does not start past the last full screen.
pub proof fn lemma_clamp_in_view(a: AppV, len: usize)
    requires
        len > 0,
    ensures
        clamp_spec(a, len).cursor < len,
        clamp_spec(a, len).scroll <= clamp_spec(a, len).cursor,
        clamp_spec(a, len).cursor < clamp_spec(a, len).scroll + max1(a.view_height),
        clamp_spec(a, len).scroll <= sat_sub(len, max1(a.view_height)),
{
}

/// Clamping a view that was just clamped changes nothing.
pub proof fn lemma_clamp_idempotent(a: AppV, len: usize)
    ensures
        clamp_spec(clamp_spec(a, len), len) == clamp_spec(a, len),
{
}


impl App {
    /// How many rows the filters let through.
    pub fn filtered_len(&self) -> (n: usize)
        ensures
            n == visible(self@).len(),
    {
        self.visible_indices().len()
    }

    /// The selected row (the visible row at `cursor`).
    pub fn selected(&self) -> (r: Option<&DbRow>)
        ensures
            match r {
                Some(row) => selected_row(self@) == Some(row@),
                None => selected_row(self@) is None,
            },
    {
        let idx = self.visible_indices();
        let _n = self.events.len();
        proof {
            assert(self@.events.len() == self.events@.len());
            lemma_visible_in_order(self@);
        }
        if self.cursor < idx.len() {
            let i = idx[self.cursor];
            Some(&self.events[i])
        } else {
            None
        }
    }

    /// Whether `clamp_view(len)` may not be called: `scroll + view height` would
    /// leave `usize` while clamping.
    pub fn clamp_would_overflow(&self, len: usize) -> (b: bool)
        ensures
            b == clamp_overflows(self@, len),
    {
        if len == 0 {
            return false;
        }
        let c = if self.cursor >= len {
            len - 1
        } else {
            self.cursor
        };
        let s1 = if c < self.scroll {
            c
        } else {
            self.scroll
        };
        let h = if self.view_height >= 1 {
            self.view_height
        } else {
            1
        };
        s1 > usize::MAX - h
    }

    /// Brings `cursor` into a list of `len` rows and `scroll` around it.
    pub fn clamp_view(&mut self, len: usize)
        requires
            !clamp_overflows(old(self)@, len),
        ensures
            final(self)@ == clamp_spec(old(self)@, len),
    {
        let ghost a = self@;
        if len == 0 {
            self.scroll = 0;
            self.cursor = 0;
            proof {
                assert(self@ == clamp_spec(a, len));
            }
            return;
        }
        let c = if self.cursor >= len {
            len - 1
        } else {
            self.cursor
        };
        let h = if self.view_height >= 1 {
            self.view_height
        } else {
            1
        };
        let mut sc = if c < self.scroll {
            c
        } else {
            self.scroll
        };
        if c >= sc + h {
            sc = c + 1 - h;
        }
        let max_scroll = if len >= h {
            len - h
        } else {
            0
        };
        if sc > max_scroll {
            sc = max_scroll;
        }
        self.cursor = c;
        self.scroll = sc;
        proof {
            assert(self@ == clamp_spec(a, len));
        }
    }
}


// ---------------------------------------------------------------------------
// Background jobs and polling
// ---------------------------------------------------------------------------

/// A summary job: aggregates over `ts >= from_ms`, `top` lines per table, for `period`.
#[derive(Clone, Copy, PartialEq, Eq, Structural, Debug)]
pub struct SummaryJob {
    pub period: Period,
    pub from_ms: i64,
    pub top: i64,
}

/// A daily job: counts of `days` local days, from local day number `start_day`.
#[derive(Clone, Copy, PartialEq, Eq, Structural, Debug)]
pub struct DailyJob {
    pub start_day: i64,
    pub days: i64,
}

/// What a due statistics refresh does: whether the refresh clock restarts, and
/// which job starts.
#[derive(Clone, Copy, PartialEq, Eq, Structural, Debug)]
pub struct StatsRefresh {
    pub reset_timer: bool,
    pub summary: bool,
    pub daily: bool,
}

/// Integer division rounding toward zero (Rust's `/` on integers).
pub open spec fn trunc_div(a: int, b: int) -> int {
    if a >= 0 {
        a / b
    } else {
        -((-a) / b)
    }
}

/// The first local day shown by the Daily tab at `now` (local day numbers count
/// from the epoch, shifted by `off`).
pub open spec fn daily_start(now: int, off: int) -> int {
    trunc_div(now + off, DAY_MS as int) - (DAILY_DAYS - 1)
}

/// UTC millis of the local midnight that starts day `start + i`.
pub open spec fn day_start_ms(start: int, i: int, off: int) -> int {
    (start + i) * DAY_MS - off
}

/// The start of day `start + i` stays within `i64`, before and after the offset.
pub open spec fn day_fits(start: int, i: int, off: int) -> bool {
    fits_i64((start + i) * DAY_MS) && fits_i64(day_start_ms(start, i, off))
}

/// The day starts of the Daily table from day `start` stay within `i64`.
pub open spec fn days_fit(start: int, off: int) -> bool {
    forall|i: int| 0 <= i < DAILY_DAYS ==> #[trigger] day_fits(start, i, off)
}

/// The Daily computations at `now` with offset `off` stay within `i64`.
pub open spec fn daily_fits(now: i64, off: i64) -> bool {
    &&& fits_i64(now + off)
    &&& days_fit(daily_start(now as int, off as int), off as int)
}

/// The counts of the day starting at `ms`: the first row for it, or zeros.
pub open spec fn find_day(rows: Seq<DayRow>, ms: i64) -> DayRow
    decreases rows.len(),
{
    if rows.len() == 0 {
        DayRow { day_ms: ms, cached: 0, reply: 0, forwarded: 0, blocked: 0 }
    } else if rows[0].day_ms == ms {
        rows[0]
    } else {
        find_day(rows.drop_first(), ms)
    }
}

/// The Daily table: one entry per day from `start`, each from `rows` or zeros.
pub open spec fn daily_days(rows: Seq<DayRow>, start: int, off: int) -> Seq<DayRow> {
    Seq::new(DAILY_DAYS as nat, |i: int| find_day(rows, day_start_ms(start, i, off) as i64))
}

/// A finished summary job: its result is taken when it is for the current window;
/// a result for another window starts the job again.
pub open spec fn apply_summary_spec(a: AppV, period: Period, r: Result<Summary, String>) -> (
    AppV,
    bool,
) {
    let a1 = AppV { summary_loading: false, ..a };
    match r {
        Ok(s) => if period == a1.period {
            (AppV { summary: s, summary_period: Some(period), stats_error: None, ..a1 }, false)
        } else {
            refresh_summary_spec(a1)
        },
        Err(e) => (AppV { stats_error: Some("summary error: "@ + e@), ..a1 }, false),
    }
}

/// A finished daily job, taken at `now`.
pub open spec fn apply_daily_spec(a: AppV, r: Result<Vec<DayRow>, String>, now: i64) -> AppV {
    let a1 = AppV { daily_loading: false, ..a };
    match r {
        Ok(rows) => AppV {
            daily: daily_days(
                rows@,
                daily_start(now as int, a.cfg.tz_offset_ms as int),
                a.cfg.tz_offset_ms as int,
            ),
            stats_error: None,
            ..a1
        },
        Err(e) => AppV { stats_error: Some("daily error: "@ + e@), ..a1 },
    }
}

/// After a management action: its message is shown and both jobs are started.
pub open spec fn action_done_spec(a: AppV, msg: Seq<char>) -> (AppV, bool, bool) {
    let (a2, s) = refresh_summary_spec(AppV { status: msg, ..a });
    let (a3, d) = refresh_daily_spec(a2);
    (a3, s, d)
}

/// A due statistics refresh: only the tab on screen is refreshed; on the Live tab
/// nothing happens and the clock keeps running.
pub open spec fn stats_due_spec(a: AppV) -> (AppV, StatsRefresh) {
    match a.tab {
        Tab::Live => (a, StatsRefresh { reset_timer: false, summary: false, daily: false }),
        Tab::Stats => {
            let (a1, s) = refresh_summary_spec(a);
            (a1, StatsRefresh { reset_timer: true, summary: s, daily: false })
        },
        Tab::Daily => {
            let (a1, d) = refresh_daily_spec(a);
            (a1, StatsRefresh { reset_timer: true, summary: false, daily: d })
        },
    }
}

impl App {
    /// Starts the summary job unless it is running; says whether it started.
    pub fn trigger_refresh_summary(&mut self) -> (started: bool)
        ensures
            (final(self)@, started) == refresh_summary_spec(old(self)@),
    {
        if self.summary_loading {
            return false;
        }
        self.summary_loading = true;
        true
    }

    /// Starts the daily job unless it is running; says whether it started.
    pub fn trigger_refresh_daily(&mut self) -> (started: bool)
        ensures
            (final(self)@, started) == refresh_daily_spec(old(self)@),
    {
        if self.daily_loading {
            return false;
        }
        self.daily_loading = true;
        true
    }

    /// The summary job for the current window, started at `now_ms`.
    pub fn summary_job(&self, now_ms: i64) -> (job: SummaryJob)
        requires
            fits_i64(now_ms - period_ms(self.period)),
        ensures
            job == (SummaryJob {
                period: self.period,
                from_ms: (now_ms - period_ms(self.period)) as i64,
                top: self.cfg.top,
            }),
    {
        SummaryJob { period: self.period, from_ms: now_ms - self.period.ms(), top: self.cfg.top }
    }

    /// Takes the result of a summary job; says whether the job starts again.
    pub fn apply_summary(&mut self, period: Period, result: Result<Summary, String>) -> (restarted:
        bool)
        ensures
            (final(self)@, restarted) == apply_summary_spec(old(self)@, period, result),
    {
        self.summary_loading = false;
        match result {
            Ok(s) => {
                if period == self.period {
                    self.summary = s;
                    self.summary_period = Some(period);
                    self.stats_error = None;
                    false
                } else {
                    self.trigger_refresh_summary()
                }
            },
            Err(e) => {
                let mut m = String::from_str("summary error: ");
                push_str(&mut m, e.as_str());
                self.stats_error = Some(m);
                false
            },
        }
    }

    /// Shows the message of a finished management action and starts both jobs.
    pub fn action_done(&mut self, msg: String) -> (started: (bool, bool))
        ensures
            (final(self)@, started.0, started.1) == action_done_spec(old(self)@, msg@),
    {
        self.status = msg;
        let s = self.trigger_refresh_summary();
        let d = self.trigger_refresh_daily();
        (s, d)
    }

    /// The refresh due on the statistics clock.
    pub fn stats_due(&mut self) -> (r: StatsRefresh)
        ensures
            (final(self)@, r) == stats_due_spec(old(self)@),
    {
        match self.tab {
            Tab::Live => StatsRefresh { reset_timer: false, summary: false, daily: false },
            Tab::Stats => {
                let s = self.trigger_refresh_summary();
                StatsRefresh { reset_timer: true, summary: s, daily: false }
            },
            Tab::Daily => {
                let d = self.trigger_refresh_daily();
                StatsRefresh { reset_timer: true, summary: false, daily: d }
            },
        }
    }
}


/// The counts of the day starting at `ms` among `rows` (zeros when it has none).
fn find_day_in(rows: &Vec<DayRow>, ms: i64) -> (r: DayRow)
    ensures
        r == find_day(rows@, ms),
{
    let mut i: usize = 0;
    proof {
        assert(rows@.skip(0) =~= rows@);
    }
    while i < rows.len()
        invariant
            i <= rows@.len(),
            find_day(rows@, ms) == find_day(rows@.skip(i as int), ms),
        decreases rows@.len() - i,
    {
        if rows[i].day_ms == ms {
            return rows[i];
        }
        proof {
            assert(rows@.skip(i as int).drop_first() =~= rows@.skip(i + 1));
        }
        i = i + 1;
    }
    DayRow::zeros(ms)
}

/// The Daily table from the rows of a daily job that started at day `start`.
fn fill_days(rows: &Vec<DayRow>, start: i64, off: i64) -> (r: Vec<DayRow>)
    requires
        days_fit(start as int, off as int),
    ensures
        r@ == daily_days(rows@, start as int, off as int),
{
    let mut out: Vec<DayRow> = Vec::new();
    let mut i: i64 = 0;
    while i < DAILY_DAYS
        invariant
            0 <= i <= DAILY_DAYS,
            out@.len() == i,
            days_fit(start as int, off as int),
            forall|j: int|
                0 <= j < i ==> #[trigger] out@[j] == find_day(
                    rows@,
                    day_start_ms(start as int, j, off as int) as i64,
                ),
        decreases DAILY_DAYS - i,
    {
        proof {
            assert(day_fits(start as int, i as int, off as int));
        }
        let ms = (start + i) * DAY_MS - off;
        out.push(find_day_in(rows, ms));
        i = i + 1;
    }
    proof {
        assert(out@ =~= daily_days(rows@, start as int, off as int));
    }
    out
}

/// Whether the Daily computations at `now_ms` with offset `off` stay within `i64`
/// (`daily_job` and `apply_daily` need it).
pub fn daily_in_range(now_ms: i64, off: i64) -> (b: bool)
    ensures
        b == daily_fits(now_ms, off),
{
    let lo: i128 = -9_223_372_036_854_775_808;
    let hi: i128 = 9_223_372_036_854_775_807;
    let t: i128 = now_ms as i128 + off as i128;
    if t < lo || t > hi {
        return false;
    }
    let today: i128 = t / (DAY_MS as i128);
    assert(today == trunc_div(now_ms + off, DAY_MS as int));
    let start: i128 = today - (DAILY_DAYS as i128 - 1);
    let mut i: i128 = 0;
    while i < DAILY_DAYS as i128
        invariant
            0 <= i <= DAILY_DAYS,
            lo == i64::MIN,
            hi == i64::MAX,
            start == daily_start(now_ms as int, off as int),
            -1_000_000_000_000 < start < 1_000_000_000_000,
            forall|j: int| 0 <= j < i ==> #[trigger] day_fits(start as int, j, off as int),
        decreases DAILY_DAYS - i,
    {
        let d: i128 = DAY_MS as i128;
        let a: i128 = (start + i) * d;
        let b: i128 = a - off as i128;
        proof {
            assert(d == DAY_MS);
            assert(a == (start + i) * DAY_MS);
            assert(b == day_start_ms(start as int, i as int, off as int));
        }
        if a < lo || a > hi || b < lo || b > hi {
            proof {
                assert(!day_fits(start as int, i as int, off as int));
            }
            return false;
        }
        proof {
            assert(day_fits(start as int, i as int, off as int));
        }
        i = i + 1;
    }
    proof {
        assert(days_fit(start as int, off as int));
    }
    true
}

impl App {
    /// The daily job at `now_ms` (the last `DAILY_DAYS` local days up to today).
    pub fn daily_job(&self, now_ms: i64) -> (job: DailyJob)
        requires
            daily_fits(now_ms, self.cfg.tz_offset_ms),
        ensures
            job == (DailyJob {
                start_day: daily_start(now_ms as int, self.cfg.tz_offset_ms as int) as i64,
                days: DAILY_DAYS,
            }),
    {
        let today = (now_ms + self.cfg.tz_offset_ms) / DAY_MS;
        DailyJob { start_day: today - (DAILY_DAYS - 1), days: DAILY_DAYS }
    }

    /// Takes the result of a daily job at `now_ms`: one entry per shown day.
    pub fn apply_daily(&mut self, result: Result<Vec<DayRow>, String>, now_ms: i64)
        requires
            result is Ok ==> daily_fits(now_ms, old(self).cfg.tz_offset_ms),
        ensures
            final(self)@ == apply_daily_spec(old(self)@, result, now_ms),
    {
        self.daily_loading = false;
        match result {
            Ok(rows) => {
                let off = self.cfg.tz_offset_ms;
                let today = (now_ms + off) / DAY_MS;
                assert(today == trunc_div(now_ms + off, DAY_MS as int));
                let start = today - (DAILY_DAYS - 1);
                self.daily = fill_days(&rows, start, off);
                self.stats_error = None;
            },
            Err(e) => {
                let mut m = String::from_str("daily error: ");
                push_str(&mut m, e.as_str());
                self.stats_error = Some(m);
            },
        }
    }
}


/// New rows appended to the buffer, the oldest dropped beyond `MAX_BUFFER`; the last
/// id seen moves to the last new row. Nothing changes without new rows.
pub open spec fn append_rows_spec(a: AppV, rows: Seq<DbRowV>) -> AppV {
    if rows.len() == 0 {
        a
    } else {
        let all = a.events + rows;
        let kept = if all.len() > MAX_BUFFER {
            all.skip(all.len() - MAX_BUFFER)
        } else {
            all
        };
        AppV { events: kept, last_id: rows.last().id, ..a }
    }
}

/// A finished poll: its rows are appended, or its error is shown.
pub open spec fn poll_rows_spec(a: AppV, r: Result<Vec<DbRow>, String>) -> AppV {
    match r {
        Ok(rows) => AppV { poll_error: None, ..append_rows_spec(a, rows_view(rows@)) },
        Err(e) => AppV { poll_error: Some("db error: "@ + e@), ..a },
    }
}

/// The first load: the rows become the buffer's tail, the last id is that of the last
/// row (0 without rows), both jobs start and the view follows new rows.
pub open spec fn bootstrap_spec(a: AppV, rows: Seq<DbRowV>) -> (AppV, bool, bool) {
    let a1 = AppV {
        events: a.events + rows,
        last_id: if rows.len() > 0 {
            rows.last().id
        } else {
            0
        },
        ..a
    };
    let (a2, s) = refresh_summary_spec(a1);
    let (a3, d) = refresh_daily_spec(a2);
    (AppV { follow: true, ..a3 }, s, d)
}

/// Appends `rows` to the back of `q`, in order.
fn push_all(q: &mut VecDeque<DbRow>, rows: Vec<DbRow>)
    ensures
        final(q)@ == old(q)@ + rows@,
{
    let ghost start = q@;
    let ghost all = rows@;
    for r in it: rows.into_iter()
        invariant
            it.seq() == all,
            q@ == start + all.take(it.index() as int),
    {
        q.push_back(r);
        proof {
            assert(all.take(it.index() as int + 1) =~= all.take(it.index() as int).push(r));
        }
    }
    proof {
        assert(all.take(all.len() as int) =~= all);
    }
}


/// Views of rows commute with concatenation and with dropping a prefix.
proof fn lemma_rows_view(a: Seq<DbRow>, b: Seq<DbRow>, k: int)
    requires
        0 <= k <= a.len() + b.len(),
    ensures
        rows_view(a + b) == rows_view(a) + rows_view(b),
        rows_view((a + b).skip(k)) == (rows_view(a) + rows_view(b)).skip(k),
{
    assert(rows_view(a + b) =~= rows_view(a) + rows_view(b));
    assert(rows_view((a + b).skip(k)) =~= rows_view(a + b).skip(k));
}

/// Drops the oldest entries of `q` until at most `max` are left.
fn trim_front(q: &mut VecDeque<DbRow>, max: usize)
    ensures
        final(q)@ == (if old(q)@.len() > max {
            old(q)@.skip(old(q)@.len() - max)
        } else {
            old(q)@
        }),
{
    let ghost all = q@;
    while q.len() > max
        invariant
            q@.len() <= all.len(),
            q@ == all.skip(all.len() - q@.len()),
            all.len() > max ==> q@.len() >= max,
            all.len() <= max ==> q@ == all,
        decreases q@.len(),
    {
        let _ = q.pop_front();
        proof {
            assert(all.skip(all.len() - q@.len()) =~= all.skip(all.len() - (q@.len() + 1)).subrange(
                1,
                q@.len() as int + 1,
            ));
        }
    }
    proof {
        if all.len() <= max {
            assert(all.skip(0) =~= all);
        }
    }
}

impl App {
    /// What to fetch next: rows after `last_id`, at most `POLL_BATCH` of them; nothing
    /// while paused.
    pub fn poll_request(&self) -> (r: Option<(i64, i64)>)
        ensures
            r == (if self.paused {
                None
            } else {
                Some((self.last_id, POLL_BATCH))
            }),
    {
        if self.paused {
            None
        } else {
            Some((self.last_id, POLL_BATCH))
        }
    }

    /// Takes the result of a poll.
    pub fn poll_rows(&mut self, result: Result<Vec<DbRow>, String>)
        ensures
            final(self)@ == poll_rows_spec(old(self)@, result),
    {
        let ghost a = self@;
        match result {
            Ok(rows) => {
                if rows.len() > 0 {
                    let ghost old_events = self.events@;
                    let ghost new_rows = rows@;
                    self.last_id = rows[rows.len() - 1].id;
                    push_all(&mut self.events, rows);
                    let ghost all = self.events@;
                    trim_front(&mut self.events, MAX_BUFFER);
                    proof {
                        let k = all.len() - self.events@.len();
                        lemma_rows_view(old_events, new_rows, k);
                        if all.len() <= MAX_BUFFER {
                            assert(all.skip(0) =~= all);
                            lemma_rows_view(old_events, new_rows, 0);
                        }
                        assert(rows_view(new_rows).last().id == new_rows.last().id);
                    }
                }
                self.poll_error = None;
                proof {
                    assert(self@ == poll_rows_spec(a, Ok(rows)));
                }
            },
            Err(e) => {
                let mut m = String::from_str("db error: ");
                push_str(&mut m, e.as_str());
                self.poll_error = Some(m);
            },
        }
    }

    /// The first load, with the most recent rows (oldest first). Says which jobs started.
    pub fn bootstrap(&mut self, rows: Vec<DbRow>) -> (started: (bool, bool))
        ensures
            (final(self)@, started.0, started.1) == bootstrap_spec(old(self)@, rows_view(rows@)),
    {
        let ghost old_events = self.events@;
        let ghost new_rows = rows@;
        self.last_id = if rows.len() > 0 {
            rows[rows.len() - 1].id
        } else {
            0
        };
        push_all(&mut self.events, rows);
        proof {
            lemma_rows_view(old_events, new_rows, 0);
            if new_rows.len() > 0 {
                assert(rows_view(new_rows).last().id == new_rows.last().id);
            }
        }
        let s = self.trigger_refresh_summary();
        let d = self.trigger_refresh_daily();
        self.follow = true;
        (s, d)
    }
}


impl KeyOutcome {
    /// Nothing for the application to do.
    pub fn none() -> (r: KeyOutcome)
        ensures
            r@ == no_effect(),
    {
        KeyOutcome { run: None, refresh_summary: false, refresh_daily: false }
    }
}

impl App {
    /// Handles a key: changes the state and says what the application does next.
    pub fn handle_key(&mut self, key: Key) -> (out: KeyOutcome)
        ensures
            (final(self)@, out@) == key_spec(old(self)@, key),
    {
        if key.release {
            return KeyOutcome::none();
        }
        if self.confirm.is_some() {
            return self.confirm_key(key.code);
        }
        match self.input {
            Some(mode) => {
                self.input_key(mode, key.code);
                KeyOutcome::none()
            },
            None => self.normal_key(key.code),
        }
    }

    fn confirm_key(&mut self, code: KeyCode) -> (out: KeyOutcome)
        ensures
            (final(self)@, out@) == confirm_key_spec(old(self)@, code),
    {
        if code == KeyCode::Char('y') || code == KeyCode::Char('Y') {
            let act = self.confirm.take();
            KeyOutcome { run: act, refresh_summary: false, refresh_daily: false }
        } else {
            self.confirm = None;
            self.status = String::from_str("cancelled");
            KeyOutcome::none()
        }
    }

    fn input_key(&mut self, mode: InputMode, code: KeyCode)
        ensures
            final(self)@ == input_key_spec(old(self)@, mode, code),
    {
        match code {
            KeyCode::Esc => {
                self.input = None;
            },
            KeyCode::Enter => {
                let target = match mode {
                    InputMode::Search => debug_str(self.search.as_str()),
                    InputMode::Client => debug_str(self.client_filter.as_str()),
                };
                self.status = concat("filter: ", target.as_str());
                self.input = None;
                self.follow = true;
            },
            KeyCode::Backspace => match mode {
                InputMode::Search => {
                    self.search = without_last_char(&self.search);
                },
                InputMode::Client => {
                    self.client_filter = without_last_char(&self.client_filter);
                },
            },
            KeyCode::Char(c) => match mode {
                InputMode::Search => push_char(&mut self.search, c),
                InputMode::Client => push_char(&mut self.client_filter, c),
            },
            _ => {},
        }
    }

    fn set_period(&mut self, p: Period) -> (out: KeyOutcome)
        ensures
            (final(self)@, out@) == set_period_spec(old(self)@, p),
    {
        self.period = p;
        if self.tab == Tab::Stats {
            let s = self.trigger_refresh_summary();
            KeyOutcome { run: None, refresh_summary: s, refresh_daily: false }
        } else {
            KeyOutcome::none()
        }
    }

    fn next_tab(&mut self) -> (out: KeyOutcome)
        ensures
            (final(self)@, out@) == normal_key_spec(old(self)@, KeyCode::Tab),
    {
        self.tab = self.tab.next();
        match self.tab {
            Tab::Live => KeyOutcome::none(),
            Tab::Stats => {
                let stale = match self.summary_period {
                    Some(p) => p != self.period,
                    None => true,
                };
                if stale {
                    let s = self.trigger_refresh_summary();
                    KeyOutcome { run: None, refresh_summary: s, refresh_daily: false }
                } else {
                    KeyOutcome::none()
                }
            },
            Tab::Daily => {
                if self.daily.len() == 0 {
                    let d = self.trigger_refresh_daily();
                    KeyOutcome { run: None, refresh_summary: false, refresh_daily: d }
                } else {
                    KeyOutcome::none()
                }
            },
        }
    }

    fn ask_whitelist(&mut self)
        ensures
            (final(self)@, no_effect()) == normal_key_spec(old(self)@, KeyCode::Char('w')),
    {
        let found = match self.selected() {
            Some(row) => Some(String::from_str(row.ev.domain.as_str())),
            None => None,
        };
        match found {
            Some(d) => {
                let mut m = String::from_str("whitelist ");
                push_str(&mut m, d.as_str());
                push_str(&mut m, "? (y/n)");
                self.confirm = Some(Action::Whitelist(d));
                self.status = m;
            },
            None => {
                self.status = String::from_str("no row selected");
            },
        }
    }

    fn normal_key(&mut self, code: KeyCode) -> (out: KeyOutcome)
        ensures
            (final(self)@, out@) == normal_key_spec(old(self)@, code),
    {
        match code {
            KeyCode::Tab => self.next_tab(),
            KeyCode::Char('1') => self.set_period(Period::H1),
            KeyCode::Char('2') => self.set_period(Period::H24),
            KeyCode::Char('3') => self.set_period(Period::D7),
            KeyCode::Char('T') => {
                let p = self.period.cycle();
                self.set_period(p)
            },
            KeyCode::Up | KeyCode::Char('k') | KeyCode::Down | KeyCode::Char('j')
            | KeyCode::PageUp | KeyCode::PageDown | KeyCode::Home | KeyCode::Char('g')
            | KeyCode::End | KeyCode::Char('G') => {
                self.move_key(code);
                KeyOutcome::none()
            },
            _ => {
                self.mode_key(code);
                KeyOutcome::none()
            },
        }
    }

    /// Keys that move the selection.
    fn move_key(&mut self, code: KeyCode)
        requires
            code == KeyCode::Up || code == KeyCode::Char('k') || code == KeyCode::Down || code
                == KeyCode::Char('j') || code == KeyCode::PageUp || code == KeyCode::PageDown
                || code == KeyCode::Home || code == KeyCode::Char('g') || code == KeyCode::End
                || code == KeyCode::Char('G'),
        ensures
            (final(self)@, no_effect()) == normal_key_spec(old(self)@, code),
    {
        let h = if self.view_height >= 1 {
            self.view_height
        } else {
            1
        };
        match code {
            KeyCode::Up | KeyCode::Char('k') => {
                self.follow = false;
                self.cursor = if self.cursor >= 1 {
                    self.cursor - 1
                } else {
                    0
                };
            },
            KeyCode::Down | KeyCode::Char('j') => {
                self.follow = false;
                self.cursor = if self.cursor < usize::MAX {
                    self.cursor + 1
                } else {
                    usize::MAX
                };
            },
            KeyCode::PageUp => {
                self.follow = false;
                self.cursor = if self.cursor >= h {
                    self.cursor - h
                } else {
                    0
                };
            },
            KeyCode::PageDown => {
                self.follow = false;
                self.cursor = if self.cursor <= usize::MAX - h {
                    self.cursor + h
                } else {
                    usize::MAX
                };
            },
            KeyCode::Home | KeyCode::Char('g') => {
                self.follow = false;
                self.cursor = 0;
            },
            _ => {
                let len = self.filtered_len();
                self.cursor = if len >= 1 {
                    len - 1
                } else {
                    0
                };
                self.follow = true;
            },
        }
    }

    /// The other keys of normal mode: quitting, filters, pausing, input modes and
    /// management actions.
    fn mode_key(&mut self, code: KeyCode)
        requires
            !(code == KeyCode::Tab || code == KeyCode::Char('1') || code == KeyCode::Char('2')
                || code == KeyCode::Char('3') || code == KeyCode::Char('T')),
            !(code == KeyCode::Up || code == KeyCode::Char('k') || code == KeyCode::Down || code
                == KeyCode::Char('j') || code == KeyCode::PageUp || code == KeyCode::PageDown
                || code == KeyCode::Home || code == KeyCode::Char('g') || code == KeyCode::End
                || code == KeyCode::Char('G')),
        ensures
            (final(self)@, no_effect()) == normal_key_spec(old(self)@, code),
    {
        match code {
            KeyCode::Char('q') => {
                self.should_quit = true;
            },
            KeyCode::Esc => {
                self.search = String::new();
                self.client_filter = String::new();
                self.block_filter = BlockFilter::Default;
            },
            KeyCode::Char('b') => {
                self.block_filter = self.block_filter.next();
                self.status = String::from_str(self.block_filter.label());
                self.follow = true;
            },
            KeyCode::Char('p') => {
                self.paused = !self.paused;
                let mut m = String::from_str("paused: ");
                push_str(
                    &mut m,
                    if self.paused {
                        "true"
                    } else {
                        "false"
                    },
                );
                self.status = m;
            },
            KeyCode::Char('/') => {
                self.input = Some(InputMode::Search);
                self.status = String::from_str("search domain:");
            },
            KeyCode::Char('c') => {
                self.input = Some(InputMode::Client);
                self.status = String::from_str("filter client:");
            },
            KeyCode::Char('w') => {
                self.ask_whitelist();
            },
            KeyCode::Char('R') => {
                self.confirm = Some(Action::Reload);
                self.status = String::from_str("reload dnsmasq? (y/n)");
            },
            _ => {},
        }
    }
}


/// `"  " + t` when `present`, nothing otherwise.
pub open spec fn part(present: bool, t: Seq<char>) -> Seq<char> {
    if present {
        "  "@ + t
    } else {
        Seq::empty()
    }
}

/// The status line from its pieces: `pos/count`, then the active filters, the pause
/// flag and the latest message, separated by two spaces.
pub open spec fn status_parts(
    pos: nat,
    count: nat,
    search: Seq<char>,
    client: Seq<char>,
    bf: BlockFilter,
    paused: bool,
    status: Seq<char>,
) -> Seq<char> {
    decimal(pos) + "/"@ + decimal(count) + part(search.len() > 0, "search:"@ + debug_quoted(search))
        + part(client.len() > 0, "client:"@ + debug_quoted(client)) + part(
        bf != BlockFilter::Default,
        block_filter_label(bf),
    ) + part(paused, "PAUSED"@) + part(status.len() > 0, status)
}

/// The status line: position of the selection (from 1) and number of shown rows,
/// then the filters, the pause flag and the latest message.
pub open spec fn status_text(a: AppV) -> Seq<char> {
    status_parts(
        (a.cursor + 1) as nat,
        visible(a).len(),
        a.search,
        a.client_filter,
        a.block_filter,
        a.paused,
        a.status,
    )
}

/// The background errors (polling first), separated by two spaces; none without any.
pub open spec fn error_text(a: AppV) -> Option<Seq<char>> {
    match (a.poll_error, a.stats_error) {
        (None, None) => None,
        (Some(p), None) => Some(p),
        (None, Some(e)) => Some(e),
        (Some(p), Some(e)) => Some(p + "  "@ + e),
    }
}

fn status_string(
    pos: u64,
    count: u64,
    search: &str,
    client: &str,
    bf: BlockFilter,
    paused: bool,
    status: &str,
) -> (s: String)
    ensures
        s@ == status_parts(pos as nat, count as nat, search@, client@, bf, paused, status@),
{
    let mut s = String::new();
    push_decimal(&mut s, pos);
    push_str(&mut s, "/");
    push_decimal(&mut s, count);
    let ghost mut want = decimal(pos as nat) + "/"@ + decimal(count as nat);
    assert(s@ =~= want);
    if !search.is_empty() {
        push_str(&mut s, "  ");
        push_str(&mut s, "search:");
        push_str(&mut s, debug_str(search).as_str());
    }
    proof {
        want = want + part(search@.len() > 0, "search:"@ + debug_quoted(search@));
        assert(s@ =~= want);
    }
    if !client.is_empty() {
        push_str(&mut s, "  ");
        push_str(&mut s, "client:");
        push_str(&mut s, debug_str(client).as_str());
    }
    proof {
        want = want + part(client@.len() > 0, "client:"@ + debug_quoted(client@));
        assert(s@ =~= want);
    }
    if bf != BlockFilter::Default {
        push_str(&mut s, "  ");
        push_str(&mut s, bf.label());
    }
    proof {
        want = want + part(bf != BlockFilter::Default, block_filter_label(bf));
        assert(s@ =~= want);
    }
    if paused {
        push_str(&mut s, "  ");
        push_str(&mut s, "PAUSED");
    }
    proof {
        want = want + part(paused, "PAUSED"@);
        assert(s@ =~= want);
    }
    if !status.is_empty() {
        push_str(&mut s, "  ");
        push_str(&mut s, status);
    }
    proof {
        want = want + part(status@.len() > 0, status@);
        assert(s@ =~= want);
    }
    s
}

impl App {
    /// The status line shown under the tabs' content.
    pub fn status_line(&self) -> (r: String)
        requires
            self.cursor < usize::MAX,
        ensures
            r@ == status_text(self@),
    {
        let n = self.filtered_len();
        status_string(
            (self.cursor + 1) as u64,
            n as u64,
            self.search.as_str(),
            self.client_filter.as_str(),
            self.block_filter,
            self.paused,
            self.status.as_str(),
        )
    }

    /// The latest background errors (polling, then statistics), shown apart from the
    /// status line.
    pub fn error_line(&self) -> (r: Option<String>)
        ensures
            opt_string(r) == error_text(self@),
    {
        match (&self.poll_error, &self.stats_error) {
            (None, None) => None,
            (Some(p), None) => Some(String::from_str(p.as_str())),
            (None, Some(e)) => Some(String::from_str(e.as_str())),
            (Some(p), Some(e)) => {
                let mut s = String::from_str(p.as_str());
                push_str(&mut s, "  ");
                push_str(&mut s, e.as_str());
                Some(s)
            },
        }
    }
}


// ---------------------------------------------------------------------------
// Laws
// ---------------------------------------------------------------------------

/// Tabs, windows and block filters each come back to where they started after three
/// presses of their key.
pub proof fn lemma_cycles(t: Tab, p: Period, b: BlockFilter)
    ensures
        tab_next(tab_next(tab_next(t))) == t,
        period_cycle(period_cycle(period_cycle(p))) == p,
        block_filter_next(block_filter_next(block_filter_next(b))) == b,
{
}

/// A position is listed by `visible_upto(.., n)` exactly when its row passes the
/// filters.
pub proof fn lemma_visible_upto_exact(
    rows: Seq<DbRowV>,
    q: Seq<char>,
    c: Seq<char>,
    bf: BlockFilter,
    n: int,
    i: int,
)
    requires
        0 <= n <= usize::MAX,
        0 <= i < n,
    ensures
        visible_upto(rows, q, c, bf, n).contains(i as usize) <==> row_visible(rows[i], q, c, bf),
    decreases n,
{
    lemma_visible_upto_bounds(rows, q, c, bf, n - 1);
    let prev = visible_upto(rows, q, c, bf, n - 1);
    if i < n - 1 {
        lemma_visible_upto_exact(rows, q, c, bf, n - 1, i);
        if row_visible(rows[n - 1], q, c, bf) {
            let cur = prev.push((n - 1) as usize);
            if prev.contains(i as usize) {
                let j = choose|j: int| 0 <= j < prev.len() && prev[j] == i as usize;
                assert(cur[j] == i as usize);
            }
            if cur.contains(i as usize) {
                let j = choose|j: int| 0 <= j < cur.len() && cur[j] == i as usize;
                if j < prev.len() {
                    assert(prev[j] == i as usize);
                }
            }
        }
    } else {
        if row_visible(rows[n - 1], q, c, bf) {
            let cur = prev.push((n - 1) as usize);
            assert(cur[prev.len() as int] == (n - 1) as usize);
        } else {
            if prev.contains(i as usize) {
                let j = choose|j: int| 0 <= j < prev.len() && prev[j] == i as usize;
                assert(prev[j] < n - 1);
            }
        }
    }
}

/// The Live tab shows exactly the rows that pass the block filter, the domain search
/// and the client filter (both case-insensitive substrings), in buffer order.
pub proof fn lemma_filters_exact(a: AppV, i: int)
    requires
        a.events.len() <= usize::MAX,
        0 <= i < a.events.len(),
    ensures
        visible(a).contains(i as usize) <==> {
            &&& block_filter_allows(a.block_filter, a.events[i].ev.outcome is Blocked)
            &&& (lowercase(a.search).len() == 0 || contains_seq(
                lowercase(a.events[i].ev.domain),
                lowercase(a.search),
            ))
            &&& (lowercase(a.client_filter).len() == 0 || contains_seq(
                lowercase(a.events[i].ev.client),
                lowercase(a.client_filter),
            ))
        },
{
    lemma_visible_upto_exact(
        a.events,
        lowercase(a.search),
        lowercase(a.client_filter),
        a.block_filter,
        a.events.len() as int,
        i,
    );
}

/// A background job never starts while it is running: of two triggers in a row, the
/// second starts nothing and changes nothing.
pub proof fn lemma_no_double_start(a: AppV)
    ensures
        refresh_summary_spec(refresh_summary_spec(a).0).1 == false,
        refresh_summary_spec(refresh_summary_spec(a).0).0 == refresh_summary_spec(a).0,
        refresh_daily_spec(refresh_daily_spec(a).0).1 == false,
        refresh_daily_spec(refresh_daily_spec(a).0).0 == refresh_daily_spec(a).0,
{
}

/// The buffer never holds more than `MAX_BUFFER` rows once a poll brought rows, and the
/// newest row fetched is the last one kept.
pub proof fn lemma_poll_bounded(a: AppV, rows: Seq<DbRowV>)
    requires
        rows.len() > 0,
    ensures
        append_rows_spec(a, rows).events.len() <= MAX_BUFFER,
        append_rows_spec(a, rows).events.last() == rows.last(),
        append_rows_spec(a, rows).last_id == rows.last().id,
{
    let all = a.events + rows;
    assert(all.last() == rows.last());
    if all.len() > MAX_BUFFER {
        let kept = all.skip(all.len() - MAX_BUFFER);
        assert(kept.last() == all.last());
    }
}

/// A key release changes nothing.
pub proof fn lemma_release_ignored(a: AppV, code: KeyCode)
    ensures
        key_spec(a, Key { code, release: true }) == (a, no_effect()),
{
}

/// While a confirmation is asked, the next key settles it: `y`/`Y` hands the pending
/// action over (once), any other key cancels it.
pub proof fn lemma_confirm_settles(a: AppV, code: KeyCode)
    requires
        a.confirm is Some,
    ensures
        key_spec(a, Key { code, release: false }).0.confirm is None,
        key_spec(a, Key { code, release: false }).1.run == (if code == KeyCode::Char('y') || code
            == KeyCode::Char('Y') {
            a.confirm
        } else {
            None
        }),
{
}

/// Typing a character and erasing it leaves the text being typed as it was.
pub proof fn lemma_type_then_erase(a: AppV, mode: InputMode, c: char)
    ensures
        ({
            let a2 = input_key_spec(input_key_spec(a, mode, KeyCode::Char(c)), mode, KeyCode::Backspace);
            a2.search == a.search && a2.client_filter == a.client_filter
        }),
{
    assert(a.search.push(c).drop_last() =~= a.search);
    assert(a.client_filter.push(c).drop_last() =~= a.client_filter);
}

/// `Esc` outside a dialog and outside typing resets every filter.
pub proof fn lemma_esc_resets_filters(a: AppV)
    requires
        a.confirm is None,
        a.input is None,
    ensures
        ({
            let a2 = key_spec(a, Key { code: KeyCode::Esc, release: false }).0;
            &&& a2.search.len() == 0
            &&& a2.client_filter.len() == 0
            &&& a2.block_filter == BlockFilter::Default
            &&& a2.events == a.events
        }),
{
}

/// A summary computed for a window that is no longer selected is not shown; the job
/// starts again for the current window.
pub proof fn lemma_stale_summary_restarts(a: AppV, p: Period, s: Summary)
    requires
        p != a.period,
    ensures
        apply_summary_spec(a, p, Ok(s)).0.summary == a.summary,
        apply_summary_spec(a, p, Ok(s)).0.summary_period == a.summary_period,
        apply_summary_spec(a, p, Ok(s)).1,
        apply_summary_spec(a, p, Ok(s)).0.summary_loading,
{
}

/// The `w` key asks to whitelist the domain of the selected row: the `cursor`-th of the
/// rows shown (those passing the filters, in buffer order), which is on screen. Nothing
/// runs before the answer; with no row under the cursor nothing is asked.
pub proof fn lemma_w_asks_for_selected_row(a: AppV)
    requires
        a.confirm is None,
        a.input is None,
        a.events.len() <= usize::MAX,
    ensures
        ({
            let (a2, out) = key_spec(a, Key { code: KeyCode::Char('w'), release: false });
            let vis = visible(a);
            &&& out.run is None
            &&& a2.events == a.events
            &&& a.cursor < vis.len() ==> {
                let j = vis[a.cursor as int] as int;
                &&& 0 <= j < a.events.len()
                &&& row_visible(
                    a.events[j],
                    lowercase(a.search),
                    lowercase(a.client_filter),
                    a.block_filter,
                )
                &&& a2.confirm == Some(ActionV::Whitelist(a.events[j].ev.domain))
                &&& selected_row(a) == Some(a.events[j])
            }
            &&& a.cursor >= vis.len() ==> a2.confirm is None && selected_row(a) is None
        }),
{
    lemma_visible_in_order(a);
    let vis = visible(a);
    if a.cursor < vis.len() {
        let j = vis[a.cursor as int] as int;
        assert(vis.contains(j as usize));
        lemma_visible_upto_exact(
            a.events,
            lowercase(a.search),
            lowercase(a.client_filter),
            a.block_filter,
            a.events.len() as int,
            j,
        );
    }
}

/// A day's counts are those of the row for that day, wherever it stands among the rows
/// (the first such row), and zeros only when no row is for that day.
pub proof fn lemma_find_day(rows: Seq<DayRow>, ms: i64)
    ensures
        forall|j: int|
            0 <= j < rows.len() && rows[j].day_ms == ms && (forall|k: int|
                0 <= k < j ==> rows[k].day_ms != ms) ==> find_day(rows, ms) == #[trigger] rows[j],
        (forall|k: int| 0 <= k < rows.len() ==> rows[k].day_ms != ms) ==> find_day(rows, ms)
            == (DayRow { day_ms: ms, cached: 0, reply: 0, forwarded: 0, blocked: 0 }),
        find_day(rows, ms).day_ms == ms || exists|k: int|
            0 <= k < rows.len() && rows[k] == find_day(rows, ms),
    decreases rows.len(),
{
    if rows.len() > 0 {
        let rest = rows.drop_first();
        lemma_find_day(rest, ms);
        assert forall|j: int|
            0 <= j < rows.len() && rows[j].day_ms == ms && (forall|k: int|
                0 <= k < j ==> rows[k].day_ms != ms) implies find_day(rows, ms) == #[trigger] rows[j] by {
            if j > 0 {
                assert(rows[0].day_ms != ms);
                assert(rest[j - 1] == rows[j]);
                assert forall|k: int| 0 <= k < j - 1 implies rest[k].day_ms != ms by {
                    assert(rest[k] == rows[k + 1]);
                }
            }
        }
        if forall|k: int| 0 <= k < rows.len() ==> rows[k].day_ms != ms {
            assert(rows[0].day_ms != ms);
            assert forall|k: int| 0 <= k < rest.len() implies rest[k].day_ms != ms by {
                assert(rest[k] == rows[k + 1]);
            }
        }
        if rows[0].day_ms != ms && find_day(rest, ms).day_ms != ms {
            let k = choose|k: int| 0 <= k < rest.len() && rest[k] == find_day(rest, ms);
            assert(rows[k + 1] == rest[k]);
        }
    }
}

/// The Daily table from a daily job's rows: entry `i` is the day `i` days after the
/// first, with the counts of the row for that day wherever the job returned it, and
/// zeros for a day without a row.
pub proof fn lemma_daily_rows_by_day(a: AppV, rows: Vec<DayRow>, now: i64, i: int)
    requires
        0 <= i < DAILY_DAYS,
    ensures
        ({
            let ms = day_start_ms(
                daily_start(now as int, a.cfg.tz_offset_ms as int),
                i,
                a.cfg.tz_offset_ms as int,
            ) as i64;
            let d = apply_daily_spec(a, Ok(rows), now).daily;
            &&& d.len() == DAILY_DAYS
            &&& forall|j: int|
                0 <= j < rows@.len() && rows@[j].day_ms == ms && (forall|k: int|
                    0 <= k < j ==> rows@[k].day_ms != ms) ==> d[i] == #[trigger] rows@[j]
            &&& (forall|k: int| 0 <= k < rows@.len() ==> rows@[k].day_ms != ms) ==> d[i] == (
            DayRow { day_ms: ms, cached: 0, reply: 0, forwarded: 0, blocked: 0 })
        }),
{
    let ms = day_start_ms(
        daily_start(now as int, a.cfg.tz_offset_ms as int),
        i,
        a.cfg.tz_offset_ms as int,
    ) as i64;
    lemma_find_day(rows@, ms);
}

/// A poll drops only the oldest rows: the buffer becomes the newest
/// `min(MAX_BUFFER, old + new)` rows of the old buffer followed by the new rows, in
/// order.
pub proof fn lemma_poll_keeps_newest(a: AppV, rows: Seq<DbRowV>)
    requires
        rows.len() > 0,
    ensures
        ({
            let all = a.events + rows;
            let kept = append_rows_spec(a, rows).events;
            &&& kept.len() == if all.len() > MAX_BUFFER {
                MAX_BUFFER as int
            } else {
                all.len() as int
            }
            &&& forall|i: int|
                0 <= i < kept.len() ==> #[trigger] kept[i] == all[all.len() - kept.len() + i]
            &&& forall|i: int|
                0 <= i < rows.len() && i + MAX_BUFFER >= rows.len() ==> kept[kept.len() - rows.len()
                    + i] == #[trigger] rows[i]
        }),
{
    let all = a.events + rows;
    let kept = append_rows_spec(a, rows).events;
    assert forall|i: int|
        0 <= i < rows.len() && i + MAX_BUFFER >= rows.len() implies kept[kept.len() - rows.len()
        + i] == #[trigger] rows[i] by {
        assert(all[a.events.len() + i] == rows[i]);
    }
}

} // verus!
