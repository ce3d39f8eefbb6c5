use dnsmasq_cli_rs::tui::manage::{
    adblock_sed_script, execute, is_valid_domain, CmdResult, Command, Stage, Step, ADBLOCK,
    RC_SERVICE, WHITELIST,
};
use dnsmasq_cli_rs::tui::Action;

fn ok() -> CmdResult {
    CmdResult::Exited { success: true, status: "exit status: 0".to_string() }
}

fn failed() -> CmdResult {
    CmdResult::Exited { success: false, status: "exit status: 1".to_string() }
}

fn run_of(step: &Step) -> &Command {
    match step {
        Step::Run(c) => c,
        Step::Done(m) => panic!("finished early: {m}"),
    }
}

fn done_of(step: Step) -> String {
    match step {
        Step::Done(m) => m,
        Step::Run(c) => panic!("still running {c:?}"),
    }
}

#[test]
fn domain_validation() {
    assert!(is_valid_domain("ads.example.com"));
    assert!(is_valid_domain("a_b-c.d9"));
    assert!(!is_valid_domain(""));
    assert!(!is_valid_domain("-bad.com"));
    assert!(!is_valid_domain("spa ce.com"));
    assert!(!is_valid_domain("x;rm -rf"));
    assert!(!is_valid_domain("ünicode.de"));
    assert!(is_valid_domain(&"a".repeat(253)));
    assert!(!is_valid_domain(&"a".repeat(254)));
}

#[test]
fn sed_script_escapes_dots() {
    assert_eq!(adblock_sed_script("ads.example.com"), "\\|address=/ads\\.example\\.com/|d");
    assert_eq!(adblock_sed_script("nodots"), "\\|address=/nodots/|d");
}

#[test]
fn command_arguments() {
    assert_eq!(
        Command::InWhitelist("x.com".to_string()).args(),
        vec!["-n", "grep", "-qxF", "--", "x.com", WHITELIST]
    );
    assert_eq!(Command::AppendWhitelist("x.com".to_string()).args(), vec!["-n", "tee", "-a", WHITELIST]);
    assert_eq!(
        Command::AppendWhitelist("x.com".to_string()).input(),
        Some("x.com\n".to_string())
    );
    assert_eq!(
        Command::RemoveAdblock("s".to_string()).args(),
        vec!["-n", "sed", "-i", "-E", "s", ADBLOCK]
    );
    assert_eq!(Command::Restart.args(), vec!["-n", RC_SERVICE, "dnsmasq", "restart"]);
    assert_eq!(Command::Restart.input(), None);
}

#[test]
fn reload_action() {
    let (mut ex, step) = execute(&Action::Reload);
    assert!(matches!(run_of(&step), Command::Restart));
    assert_eq!(done_of(ex.resume(ok())), "dnsmasq reloaded");
    assert_eq!(ex.stage, Stage::Finished);

    let (mut ex, _) = execute(&Action::Reload);
    assert_eq!(done_of(ex.resume(failed())), "reload failed: exit status exit status: 1");
    let (mut ex, _) = execute(&Action::Reload);
    assert_eq!(
        done_of(ex.resume(CmdResult::SpawnFailed("no sudo".to_string()))),
        "reload failed: spawn: no sudo"
    );
}

#[test]
fn whitelist_new_domain_runs_every_step() {
    let (mut ex, step) = execute(&Action::Whitelist("ads.x.com".to_string()));
    assert!(matches!(run_of(&step), Command::InWhitelist(d) if d == "ads.x.com"));
    let step = ex.resume(failed());
    assert!(matches!(run_of(&step), Command::AppendWhitelist(d) if d == "ads.x.com"));
    let step = ex.resume(ok());
    assert!(matches!(run_of(&step), Command::RemoveAdblock(s) if s == "\\|address=/ads\\.x\\.com/|d"));
    let step = ex.resume(ok());
    assert!(matches!(run_of(&step), Command::Restart));
    assert_eq!(done_of(ex.resume(ok())), "whitelisted ads.x.com + reloaded dnsmasq");
}

#[test]
fn whitelist_listed_domain_is_not_appended() {
    let (mut ex, _) = execute(&Action::Whitelist("ads.x.com".to_string()));
    let step = ex.resume(ok());
    assert!(matches!(run_of(&step), Command::RemoveAdblock(_)));
}

#[test]
fn whitelist_failures() {
    let (ex, step) = execute(&Action::Whitelist("bad domain".to_string()));
    assert_eq!(ex.stage, Stage::Finished);
    assert_eq!(done_of(step), "whitelist failed: invalid domain: bad domain");

    let (mut ex, _) = execute(&Action::Whitelist("a.com".to_string()));
    assert_eq!(
        done_of(ex.resume(CmdResult::SpawnFailed("denied".to_string()))),
        "whitelist failed: grep spawn: denied"
    );

    let (mut ex, _) = execute(&Action::Whitelist("a.com".to_string()));
    ex.resume(failed());
    assert_eq!(
        done_of(ex.resume(CmdResult::WriteFailed("pipe".to_string()))),
        "whitelist failed: tee write: pipe"
    );

    let (mut ex, _) = execute(&Action::Whitelist("a.com".to_string()));
    ex.resume(failed());
    assert_eq!(done_of(ex.resume(failed())), "whitelist failed: tee failed");

    let (mut ex, _) = execute(&Action::Whitelist("a.com".to_string()));
    ex.resume(ok());
    assert_eq!(
        done_of(ex.resume(failed())),
        "whitelist failed: exit status exit status: 1"
    );
}
