//! Command-line arguments, parsed by hand.

use vstd::prelude::*;

use crate::text::{
    decimal, push_decimal, parse_i64_range, parse_i64_spec, parse_u64_range, parse_u64_spec, push_str, str_eq,
    strip_prefix, to_chars,
};
use crate::util::{duration_panics, duration_spec, duration_would_panic, parse_duration_ms,
    parse_tz_offset, tz_offset_overflows, tz_offset_spec, tz_offset_would_overflow, DAY_MS,
};

verus! {

pub const DEFAULT_LOG: &'static str = "/var/log/dnsmasq.log";

pub const DEFAULT_DB: &'static str = "/var/lib/dnsmasq-cli-rs/logs.db";

pub const DEFAULT_RETENTION_DAYS: i64 = 30;

pub const DEFAULT_POLL_MS: u64 = 1000;

pub const DEFAULT_TOP: i64 = 10;

/// Environment variable that sets the display offset when `--tz-offset` is absent.
pub const ENV_TZ_OFFSET: &'static str = "DNSMASQ_CLI_RS_TZ_OFFSET";

#[derive(Clone, Debug)]
pub struct Config {
    pub log: String,
    pub db: String,
    pub retention_days: i64,
    pub poll_ms: u64,
    pub top: i64,
    /// Local offset (millis) added for display and daily buckets; 0 is UTC.
    pub tz_offset_ms: i64,
}

pub struct ConfigV {
    pub log: Seq<char>,
    pub db: Seq<char>,
    pub retention_days: i64,
    pub poll_ms: u64,
    pub top: i64,
    pub tz_offset_ms: i64,
}

impl View for Config {
    type V = ConfigV;

    open spec fn view(&self) -> ConfigV {
        ConfigV {
            log: self.log@,
            db: self.db@,
            retention_days: self.retention_days,
            poll_ms: self.poll_ms,
            top: self.top,
            tz_offset_ms: self.tz_offset_ms,
        }
    }
}

pub open spec fn default_config() -> ConfigV {
    ConfigV {
        log: DEFAULT_LOG@,
        db: DEFAULT_DB@,
        retention_days: DEFAULT_RETENTION_DAYS,
        poll_ms: DEFAULT_POLL_MS,
        top: DEFAULT_TOP,
        tz_offset_ms: 0,
    }
}

impl Default for Config {
    fn default() -> (c: Self)
        ensures
            c@ == default_config(),
    {
        Config {
            log: String::from_str(DEFAULT_LOG),
            db: String::from_str(DEFAULT_DB),
            retention_days: DEFAULT_RETENTION_DAYS,
            poll_ms: DEFAULT_POLL_MS,
            top: DEFAULT_TOP,
            tz_offset_ms: 0,
        }
    }
}

#[derive(Clone, Debug)]
pub enum Cmd {
    Tui(Config),
    Ingest(Config),
    Info(Config),
    Prune { config: Config, older_ms: i64, apply: bool, vacuum: bool },
    Help,
    Version,
}

pub enum CmdV {
    Tui(ConfigV),
    Ingest(ConfigV),
    Info(ConfigV),
    Prune { config: ConfigV, older_ms: i64, apply: bool, vacuum: bool },
    Help,
    Version,
}

impl View for Cmd {
    type V = CmdV;

    open spec fn view(&self) -> CmdV {
        match self {
            Cmd::Tui(c) => CmdV::Tui(c@),
            Cmd::Ingest(c) => CmdV::Ingest(c@),
            Cmd::Info(c) => CmdV::Info(c@),
            Cmd::Prune { config, older_ms, apply, vacuum } => CmdV::Prune {
                config: config@,
                older_ms: *older_ms,
                apply: *apply,
                vacuum: *vacuum,
            },
            Cmd::Help => CmdV::Help,
            Cmd::Version => CmdV::Version,
        }
    }
}

pub open spec fn cmd_tz_offset(c: CmdV) -> i64 {
    match c {
        CmdV::Tui(c) => c.tz_offset_ms,
        CmdV::Ingest(c) => c.tz_offset_ms,
        CmdV::Info(c) => c.tz_offset_ms,
        CmdV::Prune { config, .. } => config.tz_offset_ms,
        CmdV::Help | CmdV::Version => 0,
    }
}

impl Cmd {
    /// The display offset (millis) of the command's configuration; 0 without one.
    pub fn tz_offset_ms(&self) -> (r: i64)
        ensures
            r == cmd_tz_offset(self@),
    {
        match self {
            Cmd::Tui(c) | Cmd::Ingest(c) | Cmd::Info(c) => c.tz_offset_ms,
            Cmd::Prune { config, .. } => config.tz_offset_ms,
            Cmd::Help | Cmd::Version => 0,
        }
    }
}

/// Why the arguments were refused.
#[derive(Clone, Debug)]
pub enum CliError {
    /// A flag that takes a value came last.
    MissingValue(String),
    /// A numeric flag's value is not a number of the flag's type (`i64`, or `u64` for
    /// `--poll-ms`).
    InvalidNumber { flag: String, value: String },
    /// `--tz-offset` names no valid offset.
    InvalidTzOffset(String),
    /// The offset environment variable names no valid offset.
    InvalidEnvTzOffset(String),
    /// `--older-than` names no valid duration.
    InvalidDuration(String),
    UnknownOption(String),
    /// A second positional argument.
    UnexpectedArgument(String),
    UnknownSubcommand(String),
}

pub enum CliErrorV {
    MissingValue(Seq<char>),
    InvalidNumber { flag: Seq<char>, value: Seq<char> },
    InvalidTzOffset(Seq<char>),
    InvalidEnvTzOffset(Seq<char>),
    InvalidDuration(Seq<char>),
    UnknownOption(Seq<char>),
    UnexpectedArgument(Seq<char>),
    UnknownSubcommand(Seq<char>),
}

impl View for CliError {
    type V = CliErrorV;

    open spec fn view(&self) -> CliErrorV {
        match self {
            CliError::MissingValue(s) => CliErrorV::MissingValue(s@),
            CliError::InvalidNumber { flag, value } => CliErrorV::InvalidNumber {
                flag: flag@,
                value: value@,
            },
            CliError::InvalidTzOffset(s) => CliErrorV::InvalidTzOffset(s@),
            CliError::InvalidEnvTzOffset(s) => CliErrorV::InvalidEnvTzOffset(s@),
            CliError::InvalidDuration(s) => CliErrorV::InvalidDuration(s@),
            CliError::UnknownOption(s) => CliErrorV::UnknownOption(s@),
            CliError::UnexpectedArgument(s) => CliErrorV::UnexpectedArgument(s@),
            CliError::UnknownSubcommand(s) => CliErrorV::UnknownSubcommand(s@),
        }
    }
}

/// The text of the error `str::parse::<i64>` gives for `v` (`ParseIntError` as
/// `Display` writes it).
pub uninterp spec fn i64_parse_error(v: Seq<char>) -> Seq<char>;

/// The text of the error `str::parse::<u64>` gives for `v`.
pub uninterp spec fn u64_parse_error(v: Seq<char>) -> Seq<char>;

#[verifier::external_body]
/// Calls `str::parse::<i64>` and gives its error as `Display` writes it (empty where
/// `v` parses). The text depends on `v` alone; it is named, not described.
fn i64_error_text(v: &str) -> (r: String)
    ensures
        r@ == i64_parse_error(v@),
{
    match v.parse::<i64>() {
        Ok(_) => String::new(),
        Err(e) => e.to_string(),
    }
}

#[verifier::external_body]
/// Calls `str::parse::<u64>` and gives its error as `Display` writes it (empty where
/// `v` parses). The text depends on `v` alone; it is named, not described.
fn u64_error_text(v: &str) -> (r: String)
    ensures
        r@ == u64_parse_error(v@),
{
    match v.parse::<u64>() {
        Ok(_) => String::new(),
        Err(e) => e.to_string(),
    }
}

/// The message of an invalid offset value.
pub open spec fn tz_error_text(v: Seq<char>) -> Seq<char> {
    "invalid tz offset: "@ + v + " (use utc / +9 / -5 / +05:30)"@
}

/// The message shown for a refused argument list.
pub open spec fn error_message(e: CliErrorV) -> Seq<char> {
    match e {
        CliErrorV::MissingValue(f) => f + " requires a value"@,
        CliErrorV::InvalidNumber { flag, value } => if flag == "--poll-ms"@ {
            u64_parse_error(value)
        } else {
            i64_parse_error(value)
        },
        CliErrorV::InvalidTzOffset(v) => tz_error_text(v),
        CliErrorV::InvalidEnvTzOffset(v) => ENV_TZ_OFFSET@ + ": "@ + tz_error_text(v),
        CliErrorV::InvalidDuration(v) => "invalid duration: "@ + v,
        CliErrorV::UnknownOption(o) => "unknown option: "@ + o,
        CliErrorV::UnexpectedArgument(a) => "unexpected argument: "@ + a,
        CliErrorV::UnknownSubcommand(c) => "unknown subcommand: "@ + c,
    }
}

fn joined(a: &str, b: &str) -> (r: String)
    ensures
        r@ == a@ + b@,
{
    let mut s = String::from_str(a);
    push_str(&mut s, b);
    s
}

fn tz_error(v: &str) -> (r: String)
    ensures
        r@ == tz_error_text(v@),
{
    let mut s = String::from_str("invalid tz offset: ");
    push_str(&mut s, v);
    push_str(&mut s, " (use utc / +9 / -5 / +05:30)");
    s
}

impl CliError {
    /// The message shown for this error.
    pub fn message(&self) -> (r: String)
        ensures
            r@ == error_message(self@),
    {
        match self {
            CliError::MissingValue(f) => joined(f.as_str(), " requires a value"),
            CliError::InvalidNumber { flag, value } => {
                if str_eq(flag.as_str(), "--poll-ms") {
                    u64_error_text(value.as_str())
                } else {
                    i64_error_text(value.as_str())
                }
            },
            CliError::InvalidTzOffset(v) => tz_error(v.as_str()),
            CliError::InvalidEnvTzOffset(v) => {
                let mut s = String::from_str(ENV_TZ_OFFSET);
                push_str(&mut s, ": ");
                push_str(&mut s, tz_error(v.as_str()).as_str());
                s
            },
            CliError::InvalidDuration(v) => joined("invalid duration: ", v.as_str()),
            CliError::UnknownOption(o) => joined("unknown option: ", o.as_str()),
            CliError::UnexpectedArgument(a) => joined("unexpected argument: ", a.as_str()),
            CliError::UnknownSubcommand(c) => joined("unknown subcommand: ", c.as_str()),
        }
    }
}

// ---------------------------------------------------------------------------
// The meaning of an argument list
// ---------------------------------------------------------------------------

/// What the arguments read so far have set.
pub struct ScanV {
    pub cfg: ConfigV,
    pub sub: Option<Seq<char>>,
    pub older_ms: Option<i64>,
    pub tz_offset: Option<i64>,
    pub apply: bool,
    pub vacuum: bool,
}

pub open spec fn initial_scan() -> ScanV {
    ScanV {
        cfg: default_config(),
        sub: None,
        older_ms: None,
        tz_offset: None,
        apply: false,
        vacuum: false,
    }
}

/// How reading the arguments ends.
pub enum ScanEnd {
    Finished(ScanV),
    Help,
    Version,
    Failed(CliErrorV),
    /// The arithmetic on an offset or duration value overflows.
    Panics,
}

/// One argument (and the value it takes) read: where reading goes on, or how it ends.
pub enum StepV {
    Next(int, ScanV),
    Stop(ScanEnd),
}

/// Reads the value of a flag at `i` (the value sits at `i + 1`).
pub open spec fn flag_value(args: Seq<Seq<char>>, i: int) -> Option<Seq<char>> {
    if i + 1 < args.len() {
        Some(args[i + 1])
    } else {
        None
    }
}

/// Applies a time-zone offset value.
pub open spec fn with_tz(st: ScanV, v: Seq<char>, next: int) -> StepV {
    if tz_offset_overflows(v) {
        StepV::Stop(ScanEnd::Panics)
    } else {
        match tz_offset_spec(v) {
            Some(t) => StepV::Next(next, ScanV { tz_offset: Some(t), ..st }),
            None => StepV::Stop(ScanEnd::Failed(CliErrorV::InvalidTzOffset(v))),
        }
    }
}

pub open spec fn step_spec(args: Seq<Seq<char>>, i: int, st: ScanV) -> StepV {
    let a = args[i];
    if a == "-h"@ || a == "--help"@ {
        StepV::Stop(ScanEnd::Help)
    } else if a == "-V"@ || a == "--version"@ {
        StepV::Stop(ScanEnd::Version)
    } else if a == "--log"@ || a == "--db"@ || a == "--retention-days"@ || a == "--poll-ms"@ || a
        == "--top"@ || a == "--tz-offset"@ || a == "--older-than"@ {
        match flag_value(args, i) {
            None => StepV::Stop(ScanEnd::Failed(CliErrorV::MissingValue(a))),
            Some(v) => if a == "--log"@ {
                StepV::Next(i + 2, ScanV { cfg: ConfigV { log: v, ..st.cfg }, ..st })
            } else if a == "--db"@ {
                StepV::Next(i + 2, ScanV { cfg: ConfigV { db: v, ..st.cfg }, ..st })
            } else if a == "--retention-days"@ || a == "--top"@ {
                match parse_i64_spec(v) {
                    Some(n) => if a == "--top"@ {
                        StepV::Next(i + 2, ScanV { cfg: ConfigV { top: n, ..st.cfg }, ..st })
                    } else {
                        StepV::Next(
                            i + 2,
                            ScanV { cfg: ConfigV { retention_days: n, ..st.cfg }, ..st },
                        )
                    },
                    None => StepV::Stop(
                        ScanEnd::Failed(CliErrorV::InvalidNumber { flag: a, value: v }),
                    ),
                }
            } else if a == "--poll-ms"@ {
                match parse_u64_spec(v) {
                    Some(n) => StepV::Next(
                        i + 2,
                        ScanV { cfg: ConfigV { poll_ms: n, ..st.cfg }, ..st },
                    ),
                    None => StepV::Stop(
                        ScanEnd::Failed(CliErrorV::InvalidNumber { flag: a, value: v }),
                    ),
                }
            } else if a == "--tz-offset"@ {
                with_tz(st, v, i + 2)
            } else {
                if duration_panics(v) {
                    StepV::Stop(ScanEnd::Panics)
                } else {
                    match duration_spec(v) {
                        Some(d) => StepV::Next(i + 2, ScanV { older_ms: Some(d), ..st }),
                        None => StepV::Stop(ScanEnd::Failed(CliErrorV::InvalidDuration(v))),
                    }
                }
            },
        }
    } else if a == "--apply"@ {
        StepV::Next(i + 1, ScanV { apply: true, ..st })
    } else if a == "--vacuum"@ {
        StepV::Next(i + 1, ScanV { vacuum: true, ..st })
    } else if has_prefix(a, "--log="@) {
        StepV::Next(i + 1, ScanV { cfg: ConfigV { log: a.skip(6), ..st.cfg }, ..st })
    } else if has_prefix(a, "--db="@) {
        StepV::Next(i + 1, ScanV { cfg: ConfigV { db: a.skip(5), ..st.cfg }, ..st })
    } else if has_prefix(a, "--tz-offset="@) {
        with_tz(st, a.skip(12), i + 1)
    } else if a.len() > 0 && a[0] == '-' {
        StepV::Stop(ScanEnd::Failed(CliErrorV::UnknownOption(a)))
    } else if st.sub is None {
        StepV::Next(i + 1, ScanV { sub: Some(a), ..st })
    } else {
        StepV::Stop(ScanEnd::Failed(CliErrorV::UnexpectedArgument(a)))
    }
}

pub open spec fn has_prefix(a: Seq<char>, p: Seq<char>) -> bool {
    p.len() <= a.len() && a.take(p.len() as int) == p
}

/// Reads the arguments from position `i` on.
pub open spec fn scan_from(args: Seq<Seq<char>>, i: int, st: ScanV) -> ScanEnd
    decreases args.len() - i,
{
    if i < 0 || i >= args.len() {
        ScanEnd::Finished(st)
    } else {
        match step_spec(args, i, st) {
            StepV::Next(j, st2) => if j > i {
                scan_from(args, j, st2)
            } else {
                ScanEnd::Finished(st)
            },
            StepV::Stop(e) => e,
        }
    }
}

/// The offset: `--tz-offset` first, then the environment variable, then UTC.
pub open spec fn resolved_tz(st: ScanV, env_tz: Option<Seq<char>>) -> Result<i64, CliErrorV> {
    match st.tz_offset {
        Some(t) => Ok(t),
        None => match env_tz {
            Some(v) => match tz_offset_spec(v) {
                Some(t) => Ok(t),
                None => Err(CliErrorV::InvalidEnvTzOffset(v)),
            },
            None => Ok(0),
        },
    }
}

pub open spec fn command_of(st: ScanV, tz: i64) -> Result<CmdV, CliErrorV> {
    let cfg = ConfigV { tz_offset_ms: tz, ..st.cfg };
    match st.sub {
        None => Ok(CmdV::Tui(cfg)),
        Some(s) => if s == "tui"@ {
            Ok(CmdV::Tui(cfg))
        } else if s == "ingest"@ {
            Ok(CmdV::Ingest(cfg))
        } else if s == "info"@ {
            Ok(CmdV::Info(cfg))
        } else if s == "prune"@ {
            Ok(
                CmdV::Prune {
                    config: cfg,
                    older_ms: match st.older_ms {
                        Some(d) => d,
                        None => (DEFAULT_RETENTION_DAYS * DAY_MS) as i64,
                    },
                    apply: st.apply,
                    vacuum: st.vacuum,
                },
            )
        } else {
            Err(CliErrorV::UnknownSubcommand(s))
        },
    }
}

/// An offset or duration value among the arguments overflows its arithmetic.
pub open spec fn args_panic(args: Seq<Seq<char>>, env_tz: Option<Seq<char>>) -> bool {
    match scan_from(args, 0, initial_scan()) {
        ScanEnd::Panics => true,
        ScanEnd::Finished(st) => st.tz_offset is None && match env_tz {
            Some(v) => tz_offset_overflows(v),
            None => false,
        },
        _ => false,
    }
}

/// The command the arguments ask for (the environment variable is consulted only
/// when `--tz-offset` is absent).
pub open spec fn parse_args_spec(args: Seq<Seq<char>>, env_tz: Option<Seq<char>>) -> Result<
    CmdV,
    CliErrorV,
> {
    match scan_from(args, 0, initial_scan()) {
        ScanEnd::Finished(st) => match resolved_tz(st, env_tz) {
            Ok(t) => command_of(st, t),
            Err(e) => Err(e),
        },
        ScanEnd::Help => Ok(CmdV::Help),
        ScanEnd::Version => Ok(CmdV::Version),
        ScanEnd::Failed(e) => Err(e),
        ScanEnd::Panics => Err(CliErrorV::UnknownOption(Seq::empty())),
    }
}

pub open spec fn args_view(args: Seq<String>) -> Seq<Seq<char>> {
    args.map_values(|a: String| a@)
}

pub open spec fn opt_view(o: Option<String>) -> Option<Seq<char>> {
    match o {
        Some(s) => Some(s@),
        None => None,
    }
}

// ---------------------------------------------------------------------------
// Implementation
// ---------------------------------------------------------------------------

struct Scan {
    cfg: Config,
    sub: Option<String>,
    older_ms: Option<i64>,
    tz_offset: Option<i64>,
    apply: bool,
    vacuum: bool,
}

impl View for Scan {
    type V = ScanV;

    closed spec fn view(&self) -> ScanV {
        ScanV {
            cfg: self.cfg@,
            sub: opt_view(self.sub),
            older_ms: self.older_ms,
            tz_offset: self.tz_offset,
            apply: self.apply,
            vacuum: self.vacuum,
        }
    }
}

enum Step {
    Next(usize),
    Stop(Result<Cmd, CliError>),
    /// The arithmetic on the value would overflow.
    Panic,
}

fn parse_i64_str(s: &str) -> (r: Option<i64>)
    ensures
        r == parse_i64_spec(s@),
{
    let v = to_chars(s);
    proof {
        assert(v@.subrange(0, v@.len() as int) =~= s@);
    }
    parse_i64_range(&v, 0, v.len())
}

fn parse_u64_str(s: &str) -> (r: Option<u64>)
    ensures
        r == parse_u64_spec(s@),
{
    let v = to_chars(s);
    proof {
        assert(v@.subrange(0, v@.len() as int) =~= s@);
    }
    parse_u64_range(&v, 0, v.len())
}

/// Applies an offset value: sets it, or stops with the error.
fn apply_tz(st: &mut Scan, v: &str, next: usize) -> (r: Step)
    requires
        !tz_offset_overflows(v@),
    ensures
        match with_tz(old(st)@, v@, next as int) {
            StepV::Next(j, s2) => r == Step::Next(next) && j == next && final(st)@ == s2,
            StepV::Stop(ScanEnd::Failed(e)) => r matches Step::Stop(Err(e2)) && e2@ == e,
            _ => false,
        },
{
    match parse_tz_offset(v) {
        Some(t) => {
            st.tz_offset = Some(t);
            Step::Next(next)
        },
        None => Step::Stop(Err(CliError::InvalidTzOffset(String::from_str(v)))),
    }
}

/// Reads the argument at `i`.
fn step(args: &[String], i: usize, st: &mut Scan) -> (r: Step)
    requires
        i < args@.len(),
    ensures
        match step_spec(args_view(args@), i as int, old(st)@) {
            StepV::Next(j, s2) => r matches Step::Next(k) && k == j && final(st)@ == s2,
            StepV::Stop(ScanEnd::Help) => r matches Step::Stop(Ok(c)) && c@ == CmdV::Help,
            StepV::Stop(ScanEnd::Version) => r matches Step::Stop(Ok(c)) && c@ == CmdV::Version,
            StepV::Stop(ScanEnd::Failed(e)) => r matches Step::Stop(Err(e2)) && e2@ == e,
            StepV::Stop(ScanEnd::Panics) => r matches Step::Panic,
            _ => false,
        },
{
    let ghost av = args_view(args@);
    let a = args[i].as_str();
    proof {
        assert(av[i as int] == a@);
    }
    if str_eq(a, "-h") || str_eq(a, "--help") {
        return Step::Stop(Ok(Cmd::Help));
    }
    if str_eq(a, "-V") || str_eq(a, "--version") {
        return Step::Stop(Ok(Cmd::Version));
    }
    let is_log = str_eq(a, "--log");
    let is_db = str_eq(a, "--db");
    let is_ret = str_eq(a, "--retention-days");
    let is_poll = str_eq(a, "--poll-ms");
    let is_top = str_eq(a, "--top");
    let is_tz = str_eq(a, "--tz-offset");
    let is_older = str_eq(a, "--older-than");
    if is_log || is_db || is_ret || is_poll || is_top || is_tz || is_older {
        if i + 1 >= args.len() {
            return Step::Stop(Err(CliError::MissingValue(String::from_str(a))));
        }
        let v = args[i + 1].as_str();
        proof {
            assert(av[i + 1] == v@);
        }
        if is_log {
            st.cfg.log = String::from_str(v);
            return Step::Next(i + 2);
        }
        if is_db {
            st.cfg.db = String::from_str(v);
            return Step::Next(i + 2);
        }
        if is_ret || is_top {
            match parse_i64_str(v) {
                Some(n) => {
                    if is_top {
                        st.cfg.top = n;
                    } else {
                        st.cfg.retention_days = n;
                    }
                    return Step::Next(i + 2);
                },
                None => {
                    return Step::Stop(
                        Err(
                            CliError::InvalidNumber {
                                flag: String::from_str(a),
                                value: String::from_str(v),
                            },
                        ),
                    );
                },
            }
        }
        if is_poll {
            match parse_u64_str(v) {
                Some(n) => {
                    st.cfg.poll_ms = n;
                    return Step::Next(i + 2);
                },
                None => {
                    return Step::Stop(
                        Err(
                            CliError::InvalidNumber {
                                flag: String::from_str(a),
                                value: String::from_str(v),
                            },
                        ),
                    );
                },
            }
        }
        if is_tz {
            if tz_offset_would_overflow(v) {
                return Step::Panic;
            }
            return apply_tz(st, v, i + 2);
        }
        if duration_would_panic(v) {
            return Step::Panic;
        }
        match parse_duration_ms(v) {
            Some(d) => {
                st.older_ms = Some(d);
                return Step::Next(i + 2);
            },
            None => {
                return Step::Stop(Err(CliError::InvalidDuration(String::from_str(v))));
            },
        }
    }
    if str_eq(a, "--apply") {
        st.apply = true;
        return Step::Next(i + 1);
    }
    if str_eq(a, "--vacuum") {
        st.vacuum = true;
        return Step::Next(i + 1);
    }
    proof {
        reveal_strlit("--log=");
        reveal_strlit("--db=");
        reveal_strlit("--tz-offset=");
    }
    match strip_prefix(a, "--log=") {
        Some(rest) => {
            st.cfg.log = rest;
            return Step::Next(i + 1);
        },
        None => {},
    }
    match strip_prefix(a, "--db=") {
        Some(rest) => {
            st.cfg.db = rest;
            return Step::Next(i + 1);
        },
        None => {},
    }
    match strip_prefix(a, "--tz-offset=") {
        Some(rest) => {
            if tz_offset_would_overflow(rest.as_str()) {
                return Step::Panic;
            }
            return apply_tz(st, rest.as_str(), i + 1);
        },
        None => {},
    }
    let v = to_chars(a);
    if v.len() > 0 && v[0] == '-' {
        return Step::Stop(Err(CliError::UnknownOption(String::from_str(a))));
    }
    if st.sub.is_none() {
        st.sub = Some(String::from_str(a));
        return Step::Next(i + 1);
    }
    Step::Stop(Err(CliError::UnexpectedArgument(String::from_str(a))))
}

/// Parses the arguments (without the program name). `env_tz` is the value of the
/// offset environment variable, if it is set.
pub fn parse(args: &[String], env_tz: Option<String>) -> (r: Result<Cmd, CliError>)
    requires
        !args_panic(args_view(args@), opt_view(env_tz)),
    ensures
        match (r, parse_args_spec(args_view(args@), opt_view(env_tz))) {
            (Ok(c), Ok(cs)) => c@ == cs,
            (Err(e), Err(es)) => e@ == es,
            _ => false,
        },
{
    let ghost av = args_view(args@);
    let mut st = Scan {
        cfg: Config::default(),
        sub: None,
        older_ms: None,
        tz_offset: None,
        apply: false,
        vacuum: false,
    };
    let mut i: usize = 0;
    while i < args.len()
        invariant
            i <= args@.len(),
            av == args_view(args@),
            scan_from(av, 0, initial_scan()) == scan_from(av, i as int, st@),
            !(scan_from(av, 0, initial_scan()) matches ScanEnd::Panics),
        decreases args@.len() - i,
    {
        match step(args, i, &mut st) {
            Step::Next(j) => {
                i = j;
            },
            Step::Stop(r) => {
                return r;
            },
            Step::Panic => {
                proof {
                    assert(false);
                }
                return Err(CliError::UnknownOption(String::new()));
            },
        }
    }
    let tz = match st.tz_offset {
        Some(t) => t,
        None => match &env_tz {
            Some(v) => match parse_tz_offset(v.as_str()) {
                Some(t) => t,
                None => {
                    return Err(CliError::InvalidEnvTzOffset(v.clone()));
                },
            },
            None => 0,
        },
    };
    st.cfg.tz_offset_ms = tz;
    let cfg = st.cfg;
    match st.sub {
        None => Ok(Cmd::Tui(cfg)),
        Some(s) => {
            if str_eq(s.as_str(), "tui") {
                Ok(Cmd::Tui(cfg))
            } else if str_eq(s.as_str(), "ingest") {
                Ok(Cmd::Ingest(cfg))
            } else if str_eq(s.as_str(), "info") {
                Ok(Cmd::Info(cfg))
            } else if str_eq(s.as_str(), "prune") {
                let older_ms = match st.older_ms {
                    Some(d) => d,
                    None => DEFAULT_RETENTION_DAYS * 86_400_000,
                };
                Ok(Cmd::Prune { config: cfg, older_ms, apply: st.apply, vacuum: st.vacuum })
            } else {
                Err(CliError::UnknownSubcommand(s))
            }
        },
    }
}

/// Whether `parse` may not be called on these arguments: a value of
/// `--tz-offset` or `--older-than` (or the offset environment variable, when it is
/// used) is one on which the offset or duration arithmetic overflows.
pub fn args_would_panic(args: &[String], env_tz: &Option<String>) -> (b: bool)
    ensures
        b == args_panic(args_view(args@), opt_view(*env_tz)),
{
    let ghost av = args_view(args@);
    let mut st = Scan {
        cfg: Config::default(),
        sub: None,
        older_ms: None,
        tz_offset: None,
        apply: false,
        vacuum: false,
    };
    let mut i: usize = 0;
    while i < args.len()
        invariant
            i <= args@.len(),
            av == args_view(args@),
            scan_from(av, 0, initial_scan()) == scan_from(av, i as int, st@),
        decreases args@.len() - i,
    {
        match step(args, i, &mut st) {
            Step::Next(j) => {
                i = j;
            },
            Step::Stop(_) => {
                return false;
            },
            Step::Panic => {
                return true;
            },
        }
    }
    match st.tz_offset {
        Some(_) => false,
        None => match env_tz {
            Some(v) => tz_offset_would_overflow(v.as_str()),
            None => false,
        },
    }
}

/// The usage text.
pub open spec fn usage_text() -> Seq<char> {
    USAGE_HEAD@ + DEFAULT_LOG@ + USAGE_DB@ + DEFAULT_DB@ + USAGE_RETENTION@ + decimal(
        DEFAULT_RETENTION_DAYS as nat,
    ) + USAGE_POLL@ + decimal(DEFAULT_POLL_MS as nat) + USAGE_TAIL_1@ + ENV_TZ_OFFSET@ + USAGE_TAIL_2@
}

pub const USAGE_HEAD: &'static str =
    "dnsmasq-cli-rs — dnsmasq クエリログの取り込み + TUI モニタ

USAGE:
    dnsmasq-cli-rs [SUBCOMMAND] [OPTIONS]

SUBCOMMANDS:
    tui       ライブ表示・統計・検索・管理の TUI (既定)
    ingest    dnsmasq ログを tail して SQLite に取り込む (常駐サービス用)
    info      DB の概要 (件数/期間/outcome 内訳) を表示
    prune     保持期間を超えた行を削除 (既定は dry-run)

OPTIONS:
    --log <PATH>             dnsmasq ログ (既定: ";

pub const USAGE_DB: &'static str = ")
    --db <PATH>              SQLite DB   (既定: ";

pub const USAGE_RETENTION: &'static str = ")
    --retention-days <N>     保持日数 (既定: ";

pub const USAGE_POLL: &'static str = ")
    --poll-ms <MS>           ingest のポーリング間隔 (既定: ";

pub const USAGE_TAIL_1: &'static str =
    ")
    --top <N>                統計/TUI の上位件数 (既定: 10)
    --tz-offset <OFFSET>     表示のローカル時刻オフセット (utc / +9 / -5 / +05:30)
                             (既定: utc。環境変数 ";

pub const USAGE_TAIL_2: &'static str =
    " でも指定可)
    --older-than <DUR>       prune 対象 (例 30d / 12h / 90m)
    --apply                  prune を実行 (無指定は dry-run)
    --vacuum                 prune 後に VACUUM
    -h, --help               ヘルプ
    -V, --version            バージョン
";

pub fn usage() -> (s: String)
    ensures
        s@ == usage_text(),
{
    let mut s = String::from_str(USAGE_HEAD);
    push_str(&mut s, DEFAULT_LOG);
    push_str(&mut s, USAGE_DB);
    push_str(&mut s, DEFAULT_DB);
    push_str(&mut s, USAGE_RETENTION);
    push_decimal(&mut s, DEFAULT_RETENTION_DAYS as u64);
    push_str(&mut s, USAGE_POLL);
    push_decimal(&mut s, DEFAULT_POLL_MS);
    push_str(&mut s, USAGE_TAIL_1);
    push_str(&mut s, ENV_TZ_OFFSET);
    push_str(&mut s, USAGE_TAIL_2);
    s
}

// ---------------------------------------------------------------------------
// Laws of the command line
// ---------------------------------------------------------------------------

/// The path options set their path and nothing else: `--log=P` and `--log P` set the
/// log path to `P`, `--db=P` and `--db P` the database path, wherever they stand and
/// whatever was read before.
pub proof fn lemma_path_options(args: Seq<Seq<char>>, i: int, st: ScanV, p: Seq<char>)
    requires
        0 <= i < args.len(),
    ensures
        args[i] == "--log="@ + p ==> step_spec(args, i, st) == StepV::Next(
            i + 1,
            ScanV { cfg: ConfigV { log: p, ..st.cfg }, ..st },
        ),
        args[i] == "--db="@ + p ==> step_spec(args, i, st) == StepV::Next(
            i + 1,
            ScanV { cfg: ConfigV { db: p, ..st.cfg }, ..st },
        ),
        args[i] == "--log"@ && i + 1 < args.len() ==> step_spec(args, i, st) == StepV::Next(
            i + 2,
            ScanV { cfg: ConfigV { log: args[i + 1], ..st.cfg }, ..st },
        ),
        args[i] == "--db"@ && i + 1 < args.len() ==> step_spec(args, i, st) == StepV::Next(
            i + 2,
            ScanV { cfg: ConfigV { db: args[i + 1], ..st.cfg }, ..st },
        ),
{

    reveal_strlit("-h");
    reveal_strlit("--help");
    reveal_strlit("-V");
    reveal_strlit("--version");
    reveal_strlit("--log");
    reveal_strlit("--db");
    reveal_strlit("--retention-days");
    reveal_strlit("--poll-ms");
    reveal_strlit("--top");
    reveal_strlit("--tz-offset");
    reveal_strlit("--older-than");
    reveal_strlit("--apply");
    reveal_strlit("--vacuum");
    reveal_strlit("--log=");
    reveal_strlit("--db=");
    reveal_strlit("--tz-offset=");
    let a = args[i];
    if a == "--log="@ + p {
        assert(a.len() >= 6 && a[2] == 'l' && a[5] == '=');
        assert(a.take(6) =~= "--log="@);
        assert(has_prefix(a, "--log="@));
        assert(a.skip(6) =~= p);
    }
    if a == "--db="@ + p {
        assert(a.len() >= 5 && a[2] == 'd' && a[4] == '=');
        assert(a.take(5) =~= "--db="@);
        assert(!has_prefix(a, "--log="@)) by {
            if has_prefix(a, "--log="@) {
                assert(a.take(6)[2] == a[2]);
            }
        }
        assert(a.skip(5) =~= p);
    }
}

/// `ingest --log=P` and `ingest --log P` run the ingest service on the log file `P`,
/// with the default database and every other setting at its default.
pub proof fn lemma_ingest_with_log(p: Seq<char>)
    ensures
        parse_args_spec(seq!["ingest"@, "--log="@ + p], None) == Ok::<CmdV, CliErrorV>(
            CmdV::Ingest(ConfigV { log: p, ..default_config() }),
        ),
        parse_args_spec(seq!["ingest"@, "--log"@, p], None) == Ok::<CmdV, CliErrorV>(
            CmdV::Ingest(ConfigV { log: p, ..default_config() }),
        ),
{

    reveal_strlit("-h");
    reveal_strlit("--help");
    reveal_strlit("-V");
    reveal_strlit("--version");
    reveal_strlit("--log");
    reveal_strlit("--db");
    reveal_strlit("--retention-days");
    reveal_strlit("--poll-ms");
    reveal_strlit("--top");
    reveal_strlit("--tz-offset");
    reveal_strlit("--older-than");
    reveal_strlit("--apply");
    reveal_strlit("--vacuum");
    reveal_strlit("--log=");
    reveal_strlit("--db=");
    reveal_strlit("--tz-offset=");
    reveal_strlit("ingest");
    reveal_strlit("tui");
    let sub = "ingest"@;
    assert(!has_prefix(sub, "--log="@)) by {
        if has_prefix(sub, "--log="@) {
            assert(sub.take(6)[0] == sub[0]);
        }
    }
    assert(!has_prefix(sub, "--db="@)) by {
        if has_prefix(sub, "--db="@) {
            assert(sub.take(5)[0] == sub[0]);
        }
    }
    assert(!has_prefix(sub, "--tz-offset="@));
    let st1 = ScanV { sub: Some(sub), ..initial_scan() };
    let want = ScanV { cfg: ConfigV { log: p, ..default_config() }, ..st1 };
    let a1 = seq!["ingest"@, "--log="@ + p];
    assert(sub[0] == 'i' && sub.len() == 6);
    assert(sub != "--help"@ && sub != "--log"@ && sub != "--db"@ && sub != "--top"@ && sub
        != "--apply"@);
    assert(a1[0] == sub);
    assert(step_spec(a1, 0, initial_scan()) == StepV::Next(1, st1));
    lemma_path_options(a1, 1, st1, p);
    assert(scan_from(a1, 2, want) == ScanEnd::Finished(want));
    assert(scan_from(a1, 1, st1) == ScanEnd::Finished(want));
    assert(scan_from(a1, 0, initial_scan()) == ScanEnd::Finished(want));
    let a2 = seq!["ingest"@, "--log"@, p];
    assert(a2[0] == sub && a2[1] == "--log"@ && a2[2] == p);
    assert(step_spec(a2, 0, initial_scan()) == StepV::Next(1, st1));
    lemma_path_options(a2, 1, st1, p);
    assert(scan_from(a2, 3, want) == ScanEnd::Finished(want));
    assert(scan_from(a2, 1, st1) == ScanEnd::Finished(want));
    assert(scan_from(a2, 0, initial_scan()) == ScanEnd::Finished(want));
    assert(sub != "tui"@);
}

} // verus!
