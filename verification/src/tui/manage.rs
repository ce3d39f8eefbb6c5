//! Management actions: adding a domain to the whitelist and reloading dnsmasq.
//!
//! Every command runs through `sudo -n` (non-interactive): where a password would be
//! needed the command fails at once and the failure is shown on the status line.
//! This module decides which command comes next and what the status line says; the
//! application runs the commands.

use vstd::prelude::*;

use crate::text::{push_char, push_str, to_chars};
use crate::tui::{Action, ActionV};

verus! {

pub const WHITELIST: &'static str = "/etc/dnsmasq-cli-rs/whitelist.txt";

pub const ADBLOCK: &'static str = "/etc/dnsmasq.d/adblock.conf";

pub const RC_SERVICE: &'static str = "/sbin/rc-service";

/// The program every command goes through.
pub const SUDO: &'static str = "sudo";

// ---------------------------------------------------------------------------
// Domains
// ---------------------------------------------------------------------------

/// A character allowed in a domain: ASCII letter or digit, `.`, `-` or `_`.
pub open spec fn domain_char(c: char) -> bool {
    ('a' <= c && c <= 'z') || ('A' <= c && c <= 'Z') || ('0' <= c && c <= '9') || c == '.' || c
        == '-' || c == '_'
}

/// A domain the whitelist accepts: 1 to 253 allowed characters, not starting with `-`.
pub open spec fn valid_domain(d: Seq<char>) -> bool {
    &&& d.len() > 0
    &&& d.len() <= 253
    &&& d[0] != '-'
    &&& forall|i: int| 0 <= i < d.len() ==> domain_char(#[trigger] d[i])
}

/// Whether `d` may be whitelisted.
pub fn is_valid_domain(d: &str) -> (b: bool)
    ensures
        b == valid_domain(d@),
{
    let v = to_chars(d);
    if v.len() == 0 || v.len() > 253 || v[0] == '-' {
        return false;
    }
    let mut i: usize = 0;
    while i < v.len()
        invariant
            i <= v@.len(),
            v@ == d@,
            forall|j: int| 0 <= j < i ==> domain_char(#[trigger] v@[j]),
        decreases v@.len() - i,
    {
        let c = v[i];
        let ok = ('a' <= c && c <= 'z') || ('A' <= c && c <= 'Z') || ('0' <= c && c <= '9') || c
            == '.' || c == '-' || c == '_';
        if !ok {
            return false;
        }
        i = i + 1;
    }
    true
}

/// `d` with each `.` written `\.` (a literal dot in a regular expression).
pub open spec fn escape_dots(d: Seq<char>) -> Seq<char>
    decreases d.len(),
{
    if d.len() == 0 {
        Seq::empty()
    } else {
        escape_dots(d.drop_last()) + if d.last() == '.' {
            seq!['\\', '.']
        } else {
            seq![d.last()]
        }
    }
}

/// The `sed` script that deletes the adblock line of `d`: `\|address=/<d>/|d`.
pub open spec fn adblock_script(d: Seq<char>) -> Seq<char> {
    "\\|address=/"@ + escape_dots(d) + "/|d"@
}

/// The `sed` script that deletes the adblock entry of `domain`.
pub fn adblock_sed_script(domain: &str) -> (s: String)
    ensures
        s@ == adblock_script(domain@),
{
    let v = to_chars(domain);
    let mut s = String::from_str("\\|address=/");
    let ghost head = s@;
    let mut i: usize = 0;
    while i < v.len()
        invariant
            i <= v@.len(),
            v@ == domain@,
            s@ == head + escape_dots(v@.take(i as int)),
        decreases v@.len() - i,
    {
        proof {
            assert(v@.take(i + 1).drop_last() =~= v@.take(i as int));
        }
        if v[i] == '.' {
            push_char(&mut s, '\\');
            push_char(&mut s, '.');
            proof {
                assert(s@ =~= head + escape_dots(v@.take(i + 1)));
            }
        } else {
            push_char(&mut s, v[i]);
            proof {
                assert(s@ =~= head + escape_dots(v@.take(i + 1)));
            }
        }
        i = i + 1;
    }
    proof {
        assert(v@.take(v@.len() as int) =~= domain@);
    }
    push_str(&mut s, "/|d");
    s
}

// ---------------------------------------------------------------------------
// Commands
// ---------------------------------------------------------------------------

/// A command run through `sudo -n`.
#[derive(Clone, Debug)]
pub enum Command {
    /// `grep -qxF -- <domain> WHITELIST`: whether the domain is listed.
    InWhitelist(String),
    /// `tee -a WHITELIST`, with `<domain>` and a newline on its input.
    AppendWhitelist(String),
    /// `sed -i -E <script> ADBLOCK`.
    RemoveAdblock(String),
    /// `rc-service dnsmasq restart`.
    Restart,
}

pub enum CommandV {
    InWhitelist(Seq<char>),
    AppendWhitelist(Seq<char>),
    RemoveAdblock(Seq<char>),
    Restart,
}

impl View for Command {
    type V = CommandV;

    open spec fn view(&self) -> CommandV {
        match self {
            Command::InWhitelist(d) => CommandV::InWhitelist(d@),
            Command::AppendWhitelist(d) => CommandV::AppendWhitelist(d@),
            Command::RemoveAdblock(s) => CommandV::RemoveAdblock(s@),
            Command::Restart => CommandV::Restart,
        }
    }
}

/// The arguments given to `sudo`.
pub open spec fn command_args(c: CommandV) -> Seq<Seq<char>> {
    match c {
        CommandV::InWhitelist(d) => seq!["-n"@, "grep"@, "-qxF"@, "--"@, d, WHITELIST@],
        CommandV::AppendWhitelist(_) => seq!["-n"@, "tee"@, "-a"@, WHITELIST@],
        CommandV::RemoveAdblock(s) => seq!["-n"@, "sed"@, "-i"@, "-E"@, s, ADBLOCK@],
        CommandV::Restart => seq!["-n"@, RC_SERVICE@, "dnsmasq"@, "restart"@],
    }
}

/// What the command reads on its input, if anything.
pub open spec fn command_input(c: CommandV) -> Option<Seq<char>> {
    match c {
        CommandV::AppendWhitelist(d) => Some(d.push('\n')),
        _ => None,
    }
}

pub open spec fn strings_view(v: Seq<String>) -> Seq<Seq<char>> {
    v.map_values(|s: String| s@)
}

fn push_arg(v: &mut Vec<String>, a: &str)
    ensures
        strings_view(final(v)@) == strings_view(old(v)@).push(a@),
{
    v.push(String::from_str(a));
    proof {
        assert(strings_view(v@) =~= strings_view(old(v)@).push(a@));
    }
}

impl Command {
    /// The arguments given to `sudo`.
    pub fn args(&self) -> (r: Vec<String>)
        ensures
            strings_view(r@) == command_args(self@),
    {
        let mut v: Vec<String> = Vec::new();
        push_arg(&mut v, "-n");
        match self {
            Command::InWhitelist(d) => {
                push_arg(&mut v, "grep");
                push_arg(&mut v, "-qxF");
                push_arg(&mut v, "--");
                push_arg(&mut v, d.as_str());
                push_arg(&mut v, WHITELIST);
            },
            Command::AppendWhitelist(_) => {
                push_arg(&mut v, "tee");
                push_arg(&mut v, "-a");
                push_arg(&mut v, WHITELIST);
            },
            Command::RemoveAdblock(s) => {
                push_arg(&mut v, "sed");
                push_arg(&mut v, "-i");
                push_arg(&mut v, "-E");
                push_arg(&mut v, s.as_str());
                push_arg(&mut v, ADBLOCK);
            },
            Command::Restart => {
                push_arg(&mut v, RC_SERVICE);
                push_arg(&mut v, "dnsmasq");
                push_arg(&mut v, "restart");
            },
        }
        proof {
            assert(strings_view(v@) =~= command_args(self@));
        }
        v
    }

    /// What the command reads on its input, if anything.
    pub fn input(&self) -> (r: Option<String>)
        ensures
            match r {
                Some(t) => command_input(self@) == Some(t@),
                None => command_input(self@) is None,
            },
    {
        match self {
            Command::AppendWhitelist(d) => {
                let mut t = String::from_str(d.as_str());
                push_char(&mut t, '\n');
                Some(t)
            },
            _ => None,
        }
    }
}

/// How a command went.
#[derive(Clone, Debug)]
pub enum CmdResult {
    /// The process could not be started.
    SpawnFailed(String),
    /// Writing its input failed.
    WriteFailed(String),
    /// Waiting for it failed.
    WaitFailed(String),
    /// It exited; `status` is how the exit status reads.
    Exited { success: bool, status: String },
}

pub enum CmdResultV {
    SpawnFailed(Seq<char>),
    WriteFailed(Seq<char>),
    WaitFailed(Seq<char>),
    Exited { success: bool, status: Seq<char> },
}

impl View for CmdResult {
    type V = CmdResultV;

    open spec fn view(&self) -> CmdResultV {
        match self {
            CmdResult::SpawnFailed(e) => CmdResultV::SpawnFailed(e@),
            CmdResult::WriteFailed(e) => CmdResultV::WriteFailed(e@),
            CmdResult::WaitFailed(e) => CmdResultV::WaitFailed(e@),
            CmdResult::Exited { success, status } => CmdResultV::Exited {
                success: *success,
                status: status@,
            },
        }
    }
}

/// The error of a command that must exit successfully: `spawn: <e>` when it could
/// not be run, `exit status <status>` when it failed.
pub open spec fn run_error(r: CmdResultV) -> Option<Seq<char>> {
    match r {
        CmdResultV::SpawnFailed(e) => Some("spawn: "@ + e),
        CmdResultV::WriteFailed(e) => Some("spawn: "@ + e),
        CmdResultV::WaitFailed(e) => Some("spawn: "@ + e),
        CmdResultV::Exited { success, status } => if success {
            None
        } else {
            Some("exit status "@ + status)
        },
    }
}

/// The error of the append through `tee`.
pub open spec fn append_error(r: CmdResultV) -> Option<Seq<char>> {
    match r {
        CmdResultV::SpawnFailed(e) => Some("tee spawn: "@ + e),
        CmdResultV::WriteFailed(e) => Some("tee write: "@ + e),
        CmdResultV::WaitFailed(e) => Some("tee wait: "@ + e),
        CmdResultV::Exited { success, .. } => if success {
            None
        } else {
            Some("tee failed"@)
        },
    }
}

// ---------------------------------------------------------------------------
// The sequence of commands of an action
// ---------------------------------------------------------------------------

/// Where an action stands.
#[derive(Clone, Copy, PartialEq, Eq, Structural, Debug)]
pub enum Stage {
    /// Reload: waiting for the restart.
    Reload,
    /// Whitelist: waiting for the `grep`.
    Check,
    /// Whitelist: waiting for the `tee`.
    Append,
    /// Whitelist: waiting for the `sed`.
    Unblock,
    /// Whitelist: waiting for the restart.
    Restart,
    /// Done.
    Finished,
}

/// What to do next: run a command and report how it went, or show the message.
#[derive(Clone, Debug)]
pub enum Step {
    Run(Command),
    Done(String),
}

pub enum StepV {
    Run(CommandV),
    Done(Seq<char>),
}

impl View for Step {
    type V = StepV;

    open spec fn view(&self) -> StepV {
        match self {
            Step::Run(c) => StepV::Run(c@),
            Step::Done(m) => StepV::Done(m@),
        }
    }
}

/// A management action under way.
pub struct Execution {
    /// The domain being whitelisted (empty for a reload).
    pub domain: String,
    pub stage: Stage,
}

pub struct ExecutionV {
    pub domain: Seq<char>,
    pub stage: Stage,
}

impl View for Execution {
    type V = ExecutionV;

    open spec fn view(&self) -> ExecutionV {
        ExecutionV { domain: self.domain@, stage: self.stage }
    }
}

pub open spec fn reload_failed(e: Seq<char>) -> Seq<char> {
    "reload failed: "@ + e
}

pub open spec fn whitelist_failed(e: Seq<char>) -> Seq<char> {
    "whitelist failed: "@ + e
}

pub open spec fn finished(d: Seq<char>, msg: Seq<char>) -> (ExecutionV, StepV) {
    (ExecutionV { domain: d, stage: Stage::Finished }, StepV::Done(msg))
}

pub open spec fn waiting(d: Seq<char>, stage: Stage, c: CommandV) -> (ExecutionV, StepV) {
    (ExecutionV { domain: d, stage }, StepV::Run(c))
}

/// The first step of an action. A reload restarts dnsmasq; a whitelist first checks
/// the domain (no command runs for an invalid one), then asks whether it is listed.
pub open spec fn start_spec(a: ActionV) -> (ExecutionV, StepV) {
    match a {
        ActionV::Reload => waiting(Seq::empty(), Stage::Reload, CommandV::Restart),
        ActionV::Whitelist(d) => if valid_domain(d) {
            waiting(d, Stage::Check, CommandV::InWhitelist(d))
        } else {
            finished(d, whitelist_failed("invalid domain: "@ + d))
        },
    }
}

/// The step after a command. A whitelist appends the domain only when it is not
/// listed yet, then removes its adblock entry and restarts dnsmasq; the first
/// failure ends the action.
pub open spec fn resume_spec(x: ExecutionV, r: CmdResultV) -> (ExecutionV, StepV) {
    let d = x.domain;
    match x.stage {
        Stage::Reload => match run_error(r) {
            None => finished(d, "dnsmasq reloaded"@),
            Some(e) => finished(d, reload_failed(e)),
        },
        Stage::Check => match r {
            CmdResultV::SpawnFailed(e) => finished(d, whitelist_failed("grep spawn: "@ + e)),
            CmdResultV::WriteFailed(e) => finished(d, whitelist_failed("grep spawn: "@ + e)),
            CmdResultV::WaitFailed(e) => finished(d, whitelist_failed("grep spawn: "@ + e)),
            CmdResultV::Exited { success, .. } => if success {
                waiting(d, Stage::Unblock, CommandV::RemoveAdblock(adblock_script(d)))
            } else {
                waiting(d, Stage::Append, CommandV::AppendWhitelist(d))
            },
        },
        Stage::Append => match append_error(r) {
            None => waiting(d, Stage::Unblock, CommandV::RemoveAdblock(adblock_script(d))),
            Some(e) => finished(d, whitelist_failed(e)),
        },
        Stage::Unblock => match run_error(r) {
            None => waiting(d, Stage::Restart, CommandV::Restart),
            Some(e) => finished(d, whitelist_failed(e)),
        },
        Stage::Restart => match run_error(r) {
            None => finished(d, "whitelisted "@ + d + " + reloaded dnsmasq"@),
            Some(e) => finished(d, whitelist_failed(e)),
        },
        Stage::Finished => (x, StepV::Done(Seq::empty())),
    }
}

fn concat2(a: &str, b: &str) -> (r: String)
    ensures
        r@ == a@ + b@,
{
    let mut s = String::from_str(a);
    push_str(&mut s, b);
    s
}

/// The error of a command that must exit successfully (see `run_error`).
fn run_error_of(r: &CmdResult) -> (e: Option<String>)
    ensures
        match e {
            Some(t) => run_error(r@) == Some(t@),
            None => run_error(r@) is None,
        },
{
    match r {
        CmdResult::SpawnFailed(e) => Some(concat2("spawn: ", e.as_str())),
        CmdResult::WriteFailed(e) => Some(concat2("spawn: ", e.as_str())),
        CmdResult::WaitFailed(e) => Some(concat2("spawn: ", e.as_str())),
        CmdResult::Exited { success, status } => if *success {
            None
        } else {
            Some(concat2("exit status ", status.as_str()))
        },
    }
}

/// The error of the append (see `append_error`).
fn append_error_of(r: &CmdResult) -> (e: Option<String>)
    ensures
        match e {
            Some(t) => append_error(r@) == Some(t@),
            None => append_error(r@) is None,
        },
{
    match r {
        CmdResult::SpawnFailed(e) => Some(concat2("tee spawn: ", e.as_str())),
        CmdResult::WriteFailed(e) => Some(concat2("tee write: ", e.as_str())),
        CmdResult::WaitFailed(e) => Some(concat2("tee wait: ", e.as_str())),
        CmdResult::Exited { success, .. } => if *success {
            None
        } else {
            Some(String::from_str("tee failed"))
        },
    }
}

/// Starts an action: its state and its first step.
pub fn execute(action: &Action) -> (r: (Execution, Step))
    ensures
        (r.0@, r.1@) == start_spec(action@),
{
    match action {
        Action::Reload => (
            Execution { domain: String::new(), stage: Stage::Reload },
            Step::Run(Command::Restart),
        ),
        Action::Whitelist(d) => {
            if is_valid_domain(d.as_str()) {
                (
                    Execution { domain: String::from_str(d.as_str()), stage: Stage::Check },
                    Step::Run(Command::InWhitelist(String::from_str(d.as_str()))),
                )
            } else {
                let msg = concat2("whitelist failed: ", concat2("invalid domain: ", d.as_str()).as_str());
                (
                    Execution { domain: String::from_str(d.as_str()), stage: Stage::Finished },
                    Step::Done(msg),
                )
            }
        },
    }
}

impl Execution {
    /// Takes how the last command went; gives the next step.
    pub fn resume(&mut self, result: CmdResult) -> (step: Step)
        ensures
            (final(self)@, step@) == resume_spec(old(self)@, result@),
    {
        let d = self.domain.as_str();
        match self.stage {
            Stage::Reload => match run_error_of(&result) {
                None => {
                    self.stage = Stage::Finished;
                    Step::Done(String::from_str("dnsmasq reloaded"))
                },
                Some(e) => {
                    self.stage = Stage::Finished;
                    Step::Done(concat2("reload failed: ", e.as_str()))
                },
            },
            Stage::Check => match result {
                CmdResult::SpawnFailed(e) | CmdResult::WriteFailed(e) | CmdResult::WaitFailed(
                    e,
                ) => {
                    let msg = concat2("whitelist failed: ", concat2("grep spawn: ", e.as_str()).as_str());
                    self.stage = Stage::Finished;
                    Step::Done(msg)
                },
                CmdResult::Exited { success, .. } => if success {
                    let script = adblock_sed_script(d);
                    self.stage = Stage::Unblock;
                    Step::Run(Command::RemoveAdblock(script))
                } else {
                    let c = Command::AppendWhitelist(String::from_str(d));
                    self.stage = Stage::Append;
                    Step::Run(c)
                },
            },
            Stage::Append => match append_error_of(&result) {
                None => {
                    let script = adblock_sed_script(d);
                    self.stage = Stage::Unblock;
                    Step::Run(Command::RemoveAdblock(script))
                },
                Some(e) => {
                    self.stage = Stage::Finished;
                    Step::Done(concat2("whitelist failed: ", e.as_str()))
                },
            },
            Stage::Unblock => match run_error_of(&result) {
                None => {
                    self.stage = Stage::Restart;
                    Step::Run(Command::Restart)
                },
                Some(e) => {
                    self.stage = Stage::Finished;
                    Step::Done(concat2("whitelist failed: ", e.as_str()))
                },
            },
            Stage::Restart => match run_error_of(&result) {
                None => {
                    let mut m = String::from_str("whitelisted ");
                    push_str(&mut m, d);
                    push_str(&mut m, " + reloaded dnsmasq");
                    self.stage = Stage::Finished;
                    Step::Done(m)
                },
                Some(e) => {
                    self.stage = Stage::Finished;
                    Step::Done(concat2("whitelist failed: ", e.as_str()))
                },
            },
            Stage::Finished => Step::Done(String::new()),
        }
    }
}


// ---------------------------------------------------------------------------
// Laws
// ---------------------------------------------------------------------------

/// How far an action has come; every step moves it forward.
pub open spec fn stage_rank(s: Stage) -> int {
    match s {
        Stage::Reload => 3,
        Stage::Check => 0,
        Stage::Append => 1,
        Stage::Unblock => 2,
        Stage::Restart => 3,
        Stage::Finished => 4,
    }
}

/// Each command moves an action forward, and an action ends after at most four
/// commands: a step either finishes or waits at a later stage.
pub proof fn lemma_resume_advances(x: ExecutionV, r: CmdResultV)
    requires
        x.stage != Stage::Finished,
    ensures
        stage_rank(resume_spec(x, r).0.stage) > stage_rank(x.stage),
        resume_spec(x, r).1 is Done <==> resume_spec(x, r).0.stage == Stage::Finished,
        resume_spec(x, r).0.domain == x.domain,
{
}

/// No command runs for a domain the whitelist does not accept.
pub proof fn lemma_invalid_domain_runs_nothing(d: Seq<char>)
    requires
        !valid_domain(d),
    ensures
        start_spec(ActionV::Whitelist(d)) == finished(d, whitelist_failed("invalid domain: "@ + d)),
{
}

/// Whitelisting a domain that is not listed yet, when every command succeeds: the
/// check, the append, the adblock removal and the restart run in this order, and the
/// action reports success.
pub proof fn lemma_whitelist_new_domain(d: Seq<char>, status: Seq<char>)
    requires
        valid_domain(d),
    ensures
        ({
            let ok = CmdResultV::Exited { success: true, status };
            let not_listed = CmdResultV::Exited { success: false, status };
            let (x0, s0) = start_spec(ActionV::Whitelist(d));
            let (x1, s1) = resume_spec(x0, not_listed);
            let (x2, s2) = resume_spec(x1, ok);
            let (x3, s3) = resume_spec(x2, ok);
            let (x4, s4) = resume_spec(x3, ok);
            &&& s0 == StepV::Run(CommandV::InWhitelist(d))
            &&& s1 == StepV::Run(CommandV::AppendWhitelist(d))
            &&& s2 == StepV::Run(CommandV::RemoveAdblock(adblock_script(d)))
            &&& s3 == StepV::Run(CommandV::Restart)
            &&& s4 == StepV::Done("whitelisted "@ + d + " + reloaded dnsmasq"@)
            &&& x4.stage == Stage::Finished
        }),
{
}

/// A domain that is already listed is not appended again.
pub proof fn lemma_whitelist_listed_domain(d: Seq<char>, status: Seq<char>)
    requires
        valid_domain(d),
    ensures
        ({
            let ok = CmdResultV::Exited { success: true, status };
            let (x0, s0) = start_spec(ActionV::Whitelist(d));
            let (x1, s1) = resume_spec(x0, ok);
            let (x2, s2) = resume_spec(x1, ok);
            let (x3, s3) = resume_spec(x2, ok);
            &&& s1 == StepV::Run(CommandV::RemoveAdblock(adblock_script(d)))
            &&& s2 == StepV::Run(CommandV::Restart)
            &&& s3 == StepV::Done("whitelisted "@ + d + " + reloaded dnsmasq"@)
        }),
{
}

/// A command that cannot be started ends the action with a failure message that
/// names the action.
pub proof fn lemma_spawn_failure_ends(x: ExecutionV, e: Seq<char>)
    requires
        x.stage != Stage::Finished,
    ensures
        ({
            let (x1, s1) = resume_spec(x, CmdResultV::SpawnFailed(e));
            &&& x1.stage == Stage::Finished
            &&& s1 matches StepV::Done(m) && (if x.stage == Stage::Reload {
                m == reload_failed("spawn: "@ + e)
            } else if x.stage == Stage::Check {
                m == whitelist_failed("grep spawn: "@ + e)
            } else if x.stage == Stage::Append {
                m == whitelist_failed("tee spawn: "@ + e)
            } else {
                m == whitelist_failed("spawn: "@ + e)
            })
        }),
{
}

} // verus!
