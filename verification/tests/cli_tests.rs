use dnsmasq_cli_rs::cli::{args_would_panic, parse as parse_cmd, usage, CliError, Cmd, Config};

fn args(v: &[&str]) -> Vec<String> {
    v.iter().map(|s| s.to_string()).collect()
}

fn parse(v: &[&str]) -> Result<Cmd, CliError> {
    parse_cmd(&args(v), None)
}

fn config_of(c: Cmd) -> Config {
    match c {
        Cmd::Tui(c) | Cmd::Ingest(c) | Cmd::Info(c) => c,
        Cmd::Prune { config, .. } => config,
        other => panic!("no config in {other:?}"),
    }
}

#[test]
fn no_arguments_is_the_tui_with_defaults() {
    let c = config_of(parse(&[]).unwrap());
    assert_eq!(c.log, "/var/log/dnsmasq.log");
    assert_eq!(c.db, "/var/lib/dnsmasq-cli-rs/logs.db");
    assert_eq!(c.retention_days, 30);
    assert_eq!(c.poll_ms, 1000);
    assert_eq!(c.top, 10);
    assert_eq!(c.tz_offset_ms, 0);
    assert!(matches!(parse(&["tui"]).unwrap(), Cmd::Tui(_)));
}

#[test]
fn subcommands() {
    assert!(matches!(parse(&["ingest"]).unwrap(), Cmd::Ingest(_)));
    assert!(matches!(parse(&["info"]).unwrap(), Cmd::Info(_)));
    assert!(matches!(parse(&["-h"]).unwrap(), Cmd::Help));
    assert!(matches!(parse(&["info", "--help"]).unwrap(), Cmd::Help));
    assert!(matches!(parse(&["--version"]).unwrap(), Cmd::Version));
}

#[test]
fn options_are_read() {
    let c = config_of(
        parse(&[
            "ingest", "--log", "./d.log", "--db=./x.db", "--retention-days", "7", "--poll-ms",
            "250", "--top", "5",
        ])
        .unwrap(),
    );
    assert_eq!(c.log, "./d.log");
    assert_eq!(c.db, "./x.db");
    assert_eq!(c.retention_days, 7);
    assert_eq!(c.poll_ms, 250);
    assert_eq!(c.top, 5);
}

#[test]
fn tz_offset_option_and_environment() {
    assert_eq!(config_of(parse(&["--tz-offset", "+9"]).unwrap()).tz_offset_ms, 32_400_000);
    assert_eq!(config_of(parse(&["--tz-offset=-05:30"]).unwrap()).tz_offset_ms, -19_800_000);
    let env = Some("+9".to_string());
    assert_eq!(config_of(parse_cmd(&args(&[]), env.clone()).unwrap()).tz_offset_ms, 32_400_000);
    // The flag wins over the environment.
    let c = parse_cmd(&args(&["--tz-offset", "utc"]), env).unwrap();
    assert_eq!(config_of(c).tz_offset_ms, 0);
    assert_eq!(Cmd::Help.tz_offset_ms(), 0);
}

#[test]
fn prune_defaults_and_flags() {
    match parse(&["prune"]).unwrap() {
        Cmd::Prune { older_ms, apply, vacuum, .. } => {
            assert_eq!(older_ms, 30 * 86_400_000);
            assert!(!apply);
            assert!(!vacuum);
        }
        other => panic!("{other:?}"),
    }
    match parse(&["prune", "--older-than", "90d", "--apply", "--vacuum"]).unwrap() {
        Cmd::Prune { older_ms, apply, vacuum, .. } => {
            assert_eq!(older_ms, 90 * 86_400_000);
            assert!(apply);
            assert!(vacuum);
        }
        other => panic!("{other:?}"),
    }
}

#[test]
fn refused_arguments() {
    assert!(matches!(parse(&["--db"]), Err(CliError::MissingValue(f)) if f == "--db"));
    assert!(matches!(
        parse(&["--top", "ten"]),
        Err(CliError::InvalidNumber { flag, value }) if flag == "--top" && value == "ten"
    ));
    assert!(matches!(parse(&["--poll-ms", "-1"]), Err(CliError::InvalidNumber { .. })));
    assert!(matches!(parse(&["--tz-offset", "+20"]), Err(CliError::InvalidTzOffset(v)) if v == "+20"));
    assert!(matches!(parse(&["--older-than", "soon"]), Err(CliError::InvalidDuration(v)) if v == "soon"));
    assert!(matches!(parse(&["--nope"]), Err(CliError::UnknownOption(o)) if o == "--nope"));
    assert!(matches!(parse(&["info", "extra"]), Err(CliError::UnexpectedArgument(a)) if a == "extra"));
    assert!(matches!(parse(&["frobnicate"]), Err(CliError::UnknownSubcommand(s)) if s == "frobnicate"));
    assert!(matches!(
        parse_cmd(&args(&[]), Some("bogus".to_string())),
        Err(CliError::InvalidEnvTzOffset(v)) if v == "bogus"
    ));
}

#[test]
fn overflowing_values_are_detected_before_parsing() {
    assert!(args_would_panic(&args(&["--tz-offset", "99999999999999"]), &None));
    assert!(args_would_panic(&args(&["--older-than", "9223372036854775807w"]), &None));
    assert!(args_would_panic(&args(&[]), &Some("99999999999999".to_string())));
    assert!(!args_would_panic(&args(&["--tz-offset", "+1", "prune"]), &Some("99999999999999".to_string())));
    assert!(!args_would_panic(&args(&["prune", "--older-than", "30d"]), &None));
}

#[test]
fn usage_mentions_the_defaults() {
    let u = usage();
    assert!(u.starts_with("dnsmasq-cli-rs"));
    assert!(u.contains("/var/log/dnsmasq.log"));
    assert!(u.contains("/var/lib/dnsmasq-cli-rs/logs.db"));
    assert!(u.contains("DNSMASQ_CLI_RS_TZ_OFFSET"));
    assert!(u.contains("(既定: 30)"));
    assert!(u.contains("(既定: 1000)"));
}

#[test]
fn error_messages() {
    let msg = |v: &[&str]| parse_cmd(&args(v), None).unwrap_err().message();
    assert_eq!(msg(&["--foo"]), "unknown option: --foo");
    assert_eq!(msg(&["info", "extra"]), "unexpected argument: extra");
    assert_eq!(msg(&["--db"]), "--db requires a value");
    assert_eq!(msg(&["bogus", "--tz-offset", "utc"]), "unknown subcommand: bogus");
    assert_eq!(msg(&["--tz-offset", "+15"]), "invalid tz offset: +15 (use utc / +9 / -5 / +05:30)");
    assert_eq!(msg(&["prune", "--older-than", "abc"]), "invalid duration: abc");
    assert_eq!(msg(&["--top", "ten"]), "invalid digit found in string");
    assert_eq!(msg(&["--poll-ms", ""]), "cannot parse integer from empty string");
    assert_eq!(
        parse_cmd(&args(&[]), Some("bogus".to_string())).unwrap_err().message(),
        "DNSMASQ_CLI_RS_TZ_OFFSET: invalid tz offset: bogus (use utc / +9 / -5 / +05:30)"
    );
}
