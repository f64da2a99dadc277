//! Course of an SSH session.
//!
//! Whoever runs a session performs one step after the other and asks here what comes
//! next: connect, authenticate, open a channel with a terminal and a shell, and then pass
//! bytes on until either side ends it. Host keys are verified trust-on-first-use against
//! the known hosts (see [`crate::known_hosts`]).

use vstd::prelude::*;

use crate::known_hosts;
use crate::known_hosts::{Check, Entries, KeyCheck, KnownHosts};
use crate::text;
use crate::types;
use crate::types::{AuthMethod, Host, HostConfig};

verus! {

/// What the user interface is told of a session.
#[derive(Debug)]
pub enum SessionEvent {
    Connecting,
    Connected,
    Error(String),
    Ended,
}

impl Clone for SessionEvent {
    fn clone(&self) -> (r: Self)
        ensures
            r == *self,
    {
        match self {
            SessionEvent::Connecting => SessionEvent::Connecting,
            SessionEvent::Connected => SessionEvent::Connected,
            SessionEvent::Error(m) => SessionEvent::Error(m.clone()),
            SessionEvent::Ended => SessionEvent::Ended,
        }
    }
}

/// A `SessionEvent`, as specifications see it.
pub enum Report {
    Connecting,
    Connected,
    Error(Seq<char>),
    Ended,
}

impl View for SessionEvent {
    type V = Report;

    open spec fn view(&self) -> Report {
        match self {
            SessionEvent::Connecting => Report::Connecting,
            SessionEvent::Connected => Report::Connected,
            SessionEvent::Error(m) => Report::Error(m@),
            SessionEvent::Ended => Report::Ended,
        }
    }
}

// ---------------------------------------------------------------------------
// Host keys
// ---------------------------------------------------------------------------

/// What is done about the key of a host.
#[derive(Debug)]
pub enum Decision {
    /// The key is the recorded one.
    Accept,
    /// The key is recorded and accepted.
    Trust,
    /// The key is refused, for this reason.
    Reject(String),
}

/// A `Decision`, as specifications see it.
pub enum Verdict {
    Accept,
    Trust,
    Reject(Seq<char>),
}

impl View for Decision {
    type V = Verdict;

    open spec fn view(&self) -> Verdict {
        match self {
            Decision::Accept => Verdict::Accept,
            Decision::Trust => Verdict::Trust,
            Decision::Reject(m) => Verdict::Reject(m@),
        }
    }
}

/// Why a key is refused.
pub open spec fn mismatch_reason(
    host: Seq<char>,
    port: u16,
    expected: Seq<char>,
    received: Seq<char>,
) -> Seq<char> {
    "host key mismatch for "@ + host + ":"@ + text::decimal(port as nat) + "\n  expected: "@
        + expected + "\n  received: "@ + received
        + "\nrefusing to connect (delete the known_hosts entry to forget the old key)"@
}

/// What is done about a key, by its comparison with the recorded one.
pub open spec fn verdict(host: Seq<char>, port: u16, check: Check) -> Verdict {
    match check {
        Check::Trusted => Verdict::Accept,
        Check::New => Verdict::Trust,
        Check::Mismatch { expected, received } => Verdict::Reject(
            mismatch_reason(host, port, expected, received),
        ),
    }
}

/// The known hosts after a key was presented: a new key is recorded, nothing else
/// changes.
pub open spec fn known_after(
    e: Entries,
    host: Seq<char>,
    port: u16,
    fingerprint: Seq<char>,
) -> Entries {
    match known_hosts::checked(e, host, port, fingerprint) {
        Check::New => known_hosts::recording(e, known_hosts::key_of(host, port), fingerprint),
        _ => e,
    }
}

/// Decides about the key that a host presents, and records a new one.
pub fn check_server_key(
    known: &mut KnownHosts,
    host: &str,
    port: u16,
    fingerprint: &str,
) -> (r: Decision)
    requires
        old(known).valid(),
    ensures
        final(known).valid(),
        final(known)@ == known_after(old(known)@, host@, port, fingerprint@),
        r@ == verdict(
            host@,
            port,
            known_hosts::checked(old(known)@, host@, port, fingerprint@),
        ),
{
    match known.check(host, port, fingerprint) {
        KeyCheck::Trusted => Decision::Accept,
        KeyCheck::New => {
            known.add(host, port, fingerprint);
            Decision::Trust
        },
        KeyCheck::Mismatch { expected, received } => {
            let mut s = text::concat("host key mismatch for ", host);
            s.push_str(":");
            s.push_str(text::decimal_text(port as u64).as_str());
            s.push_str("\n  expected: ");
            s.push_str(expected.as_str());
            s.push_str("\n  received: ");
            s.push_str(received.as_str());
            s.push_str(
                "\nrefusing to connect (delete the known_hosts entry to forget the old key)",
            );
            Decision::Reject(s)
        },
    }
}

// ---------------------------------------------------------------------------
// Steps
// ---------------------------------------------------------------------------

/// What to do next in a session.
#[derive(Debug)]
pub enum SessionStep {
    /// Connect to an address; once connected, the known hosts are saved.
    Connect { addr: String },
    /// Authenticate with a password.
    AuthenticatePassword { username: String, password: String },
    /// Load a private key.
    LoadKey { path: String, passphrase: Option<String> },
    /// Authenticate with the key that was loaded.
    AuthenticateKey { username: String },
    /// Open a channel.
    OpenChannel,
    /// Request a terminal of this size.
    RequestPty { cols: u32, rows: u32 },
    /// Request a shell.
    RequestShell,
    /// Pass bytes on until either side ends the session.
    Run,
    /// The session failed.
    Fail(String),
    /// The session ended.
    End,
}

/// A `SessionStep`, as specifications see it.
pub enum Step {
    Connect { addr: Seq<char> },
    AuthenticatePassword { username: Seq<char>, password: Seq<char> },
    LoadKey { path: Seq<char>, passphrase: Option<Seq<char>> },
    AuthenticateKey { username: Seq<char> },
    OpenChannel,
    RequestPty { cols: u32, rows: u32 },
    RequestShell,
    Run,
    Fail(Seq<char>),
    End,
}

impl View for SessionStep {
    type V = Step;

    open spec fn view(&self) -> Step {
        match self {
            SessionStep::Connect { addr } => Step::Connect { addr: addr@ },
            SessionStep::AuthenticatePassword {
                username,
                password,
            } => Step::AuthenticatePassword { username: username@, password: password@ },
            SessionStep::LoadKey { path, passphrase } => Step::LoadKey {
                path: path@,
                passphrase: types::opt_text(*passphrase),
            },
            SessionStep::AuthenticateKey { username } => Step::AuthenticateKey {
                username: username@,
            },
            SessionStep::OpenChannel => Step::OpenChannel,
            SessionStep::RequestPty { cols, rows } => Step::RequestPty { cols: *cols, rows: *rows },
            SessionStep::RequestShell => Step::RequestShell,
            SessionStep::Run => Step::Run,
            SessionStep::Fail(m) => Step::Fail(m@),
            SessionStep::End => Step::End,
        }
    }
}

/// How a step went.
#[derive(Debug)]
pub enum Outcome {
    Done,
    /// The server said no, without an error.
    Refused,
    /// An error, in these words.
    Failed(String),
}

/// An `Outcome`, as specifications see it.
pub enum Ending {
    Done,
    Refused,
    Failed(Seq<char>),
}

impl View for Outcome {
    type V = Ending;

    open spec fn view(&self) -> Ending {
        match self {
            Outcome::Done => Ending::Done,
            Outcome::Refused => Ending::Refused,
            Outcome::Failed(m) => Ending::Failed(m@),
        }
    }
}

/// What a session is to connect to, and how.
#[derive(Debug)]
pub struct SessionPlan {
    pub host: HostConfig,
    /// The passphrase of the private key.
    pub passphrase: Option<String>,
    pub cols: u32,
    pub rows: u32,
}

/// A `SessionPlan`, as specifications see it.
pub struct Plan {
    pub host: Host,
    pub passphrase: Option<Seq<char>>,
    pub cols: u32,
    pub rows: u32,
}

impl View for SessionPlan {
    type V = Plan;

    open spec fn view(&self) -> Plan {
        Plan {
            host: self.host@,
            passphrase: types::opt_text(self.passphrase),
            cols: self.cols,
            rows: self.rows,
        }
    }
}

impl Plan {
    /// The address of the host.
    pub open spec fn addr(self) -> Seq<char> {
        self.host.host + ":"@ + text::decimal(self.host.port as nat)
    }

    /// How the user authenticates.
    pub open spec fn authentication(self) -> Step {
        match self.host.auth_method {
            AuthMethod::Password => Step::AuthenticatePassword {
                username: self.host.username,
                password: match self.host.password {
                    Some(pw) => pw,
                    None => Seq::empty(),
                },
            },
            AuthMethod::Key => match self.host.key_path {
                Some(path) => Step::LoadKey { path, passphrase: self.passphrase },
                None => Step::Fail("key auth selected but no key_path set"@),
            },
        }
    }

    /// The step that follows a step. `rejected` is the reason for which the key of the
    /// host was refused.
    pub open spec fn after(self, step: Step, outcome: Ending, rejected: Option<Seq<char>>) -> Step {
        match step {
            Step::Connect { addr } => match outcome {
                Ending::Done => self.authentication(),
                Ending::Refused => match rejected {
                    Some(reason) => Step::Fail(reason),
                    None => Step::Fail("connect to "@ + addr + " failed: "@),
                },
                Ending::Failed(e) => match rejected {
                    Some(reason) => Step::Fail(reason),
                    None => Step::Fail("connect to "@ + addr + " failed: "@ + e),
                },
            },
            Step::AuthenticatePassword { .. } => match outcome {
                Ending::Done => Step::OpenChannel,
                Ending::Refused => Step::Fail("authentication rejected by server"@),
                Ending::Failed(e) => Step::Fail("password auth failed: "@ + e),
            },
            Step::LoadKey { path, .. } => match outcome {
                Ending::Done => Step::AuthenticateKey { username: self.host.username },
                _ => Step::Fail("load key "@ + path),
            },
            Step::AuthenticateKey { .. } => match outcome {
                Ending::Done => Step::OpenChannel,
                Ending::Refused => Step::Fail("authentication rejected by server"@),
                Ending::Failed(e) => Step::Fail("publickey auth failed: "@ + e),
            },
            Step::OpenChannel => match outcome {
                Ending::Done => Step::RequestPty { cols: self.cols, rows: self.rows },
                Ending::Refused => Step::Fail("channel_open_session: "@),
                Ending::Failed(e) => Step::Fail("channel_open_session: "@ + e),
            },
            Step::RequestPty { .. } => match outcome {
                Ending::Done => Step::RequestShell,
                Ending::Refused => Step::Fail("request_pty: "@),
                Ending::Failed(e) => Step::Fail("request_pty: "@ + e),
            },
            Step::RequestShell => match outcome {
                Ending::Done => Step::Run,
                Ending::Refused => Step::Fail("request_shell: "@),
                Ending::Failed(e) => Step::Fail("request_shell: "@ + e),
            },
            Step::Run => Step::End,
            Step::Fail(m) => Step::Fail(m),
            Step::End => Step::End,
        }
    }
}

/// What the user interface is told when a step is taken.
pub open spec fn reports(step: Step) -> Seq<Report> {
    match step {
        Step::Connect { .. } => seq![Report::Connecting],
        Step::Run => seq![Report::Connected],
        Step::Fail(m) => seq![Report::Error(m), Report::Ended],
        Step::End => seq![Report::Ended],
        _ => Seq::empty(),
    }
}

/// The texts of some events.
pub open spec fn event_views(v: Seq<SessionEvent>) -> Seq<Report> {
    v.map_values(|e: SessionEvent| e@)
}

fn failed(prefix: &str, outcome: &Outcome) -> (r: SessionStep)
    requires
        !(outcome is Done),
    ensures
        r@ == Step::Fail(
            match outcome@ {
                Ending::Failed(e) => prefix@ + e,
                _ => prefix@,
            },
        ),
{
    match outcome {
        Outcome::Failed(e) => SessionStep::Fail(text::concat(prefix, e.as_str())),
        _ => SessionStep::Fail(prefix.to_owned()),
    }
}

impl SessionPlan {
    /// The first step.
    pub fn start(&self) -> (r: SessionStep)
        ensures
            r@ == (Step::Connect { addr: self@.addr() }),
    {
        let mut addr = text::concat(self.host.host.as_str(), ":");
        addr.push_str(text::decimal_text(self.host.port as u64).as_str());
        SessionStep::Connect { addr }
    }

    fn authentication(&self) -> (r: SessionStep)
        ensures
            r@ == self@.authentication(),
    {
        match self.host.auth_method {
            AuthMethod::Password => {
                let password = match &self.host.password {
                    Some(pw) => pw.clone(),
                    None => String::new(),
                };
                SessionStep::AuthenticatePassword { username: self.host.username.clone(), password }
            },
            AuthMethod::Key => match &self.host.key_path {
                Some(path) => SessionStep::LoadKey {
                    path: path.clone(),
                    passphrase: types::clone_opt(&self.passphrase),
                },
                None => SessionStep::Fail("key auth selected but no key_path set".to_owned()),
            },
        }
    }

    /// The step that follows a step, by how that went. `rejected` is the reason for which
    /// the key of the host was refused.
    pub fn next(&self, step: &SessionStep, outcome: &Outcome, rejected: Option<String>) -> (r:
        SessionStep)
        ensures
            r@ == self@.after(step@, outcome@, types::opt_text(rejected)),
    {
        match step {
            SessionStep::Connect { addr } => match outcome {
                Outcome::Done => self.authentication(),
                _ => match rejected {
                    Some(reason) => SessionStep::Fail(reason),
                    None => {
                        let mut s = text::concat("connect to ", addr.as_str());
                        s.push_str(" failed: ");
                        failed(s.as_str(), outcome)
                    },
                },
            },
            SessionStep::AuthenticatePassword { .. } => match outcome {
                Outcome::Done => SessionStep::OpenChannel,
                Outcome::Refused => SessionStep::Fail(
                    "authentication rejected by server".to_owned(),
                ),
                _ => failed("password auth failed: ", outcome),
            },
            SessionStep::LoadKey { path, .. } => match outcome {
                Outcome::Done => SessionStep::AuthenticateKey {
                    username: self.host.username.clone(),
                },
                _ => SessionStep::Fail(text::concat("load key ", path.as_str())),
            },
            SessionStep::AuthenticateKey { .. } => match outcome {
                Outcome::Done => SessionStep::OpenChannel,
                Outcome::Refused => SessionStep::Fail(
                    "authentication rejected by server".to_owned(),
                ),
                _ => failed("publickey auth failed: ", outcome),
            },
            SessionStep::OpenChannel => match outcome {
                Outcome::Done => SessionStep::RequestPty { cols: self.cols, rows: self.rows },
                _ => failed("channel_open_session: ", outcome),
            },
            SessionStep::RequestPty { .. } => match outcome {
                Outcome::Done => SessionStep::RequestShell,
                _ => failed("request_pty: ", outcome),
            },
            SessionStep::RequestShell => match outcome {
                Outcome::Done => SessionStep::Run,
                _ => failed("request_shell: ", outcome),
            },
            SessionStep::Run => SessionStep::End,
            SessionStep::Fail(m) => SessionStep::Fail(m.clone()),
            SessionStep::End => SessionStep::End,
        }
    }
}

/// What the user interface is told when a step is taken.
pub fn events_of(step: &SessionStep) -> (r: Vec<SessionEvent>)
    ensures
        event_views(r@) == reports(step@),
{
    let mut out: Vec<SessionEvent> = Vec::new();
    match step {
        SessionStep::Connect { .. } => out.push(SessionEvent::Connecting),
        SessionStep::Run => out.push(SessionEvent::Connected),
        SessionStep::Fail(m) => {
            out.push(SessionEvent::Error(m.clone()));
            out.push(SessionEvent::Ended);
        },
        SessionStep::End => out.push(SessionEvent::Ended),
        _ => {},
    }
    assert(event_views(out@) =~= reports(step@));
    out
}

// ---------------------------------------------------------------------------
// The running session
// ---------------------------------------------------------------------------

/// What arrives while a session runs.
#[derive(Debug, Clone, Copy, PartialEq, Eq, Structural)]
pub enum Incoming {
    /// Bytes for the terminal, of either stream.
    Output,
    /// The end of the channel.
    Ended,
    /// A message that nothing is done about.
    Other,
    /// A new size of the terminal.
    Resize(u32, u32),
    /// No more sizes will come.
    NoResize,
}

/// What is done about it.
#[derive(Debug, Clone, Copy, PartialEq, Eq)]
pub enum Reaction {
    /// Hand the bytes to the terminal, and stop where nobody takes them.
    Forward,
    /// Stop.
    Stop,
    /// Wait for the next message, after telling the remote side of a size.
    Wait(Option<(u32, u32)>),
}

/// What is done about what arrived.
pub fn react(incoming: Incoming) -> (r: Reaction)
    ensures
        r == match incoming {
            Incoming::Output => Reaction::Forward,
            Incoming::Ended => Reaction::Stop,
            Incoming::Resize(cols, rows) => Reaction::Wait(Some((cols, rows))),
            Incoming::Other | Incoming::NoResize => Reaction::Wait(None),
        },
{
    match incoming {
        Incoming::Output => Reaction::Forward,
        Incoming::Ended => Reaction::Stop,
        Incoming::Resize(cols, rows) => Reaction::Wait(Some((cols, rows))),
        Incoming::Other | Incoming::NoResize => Reaction::Wait(None),
    }
}

// ---------------------------------------------------------------------------
// Laws
// ---------------------------------------------------------------------------

/// A host whose key differs from the recorded one is refused, and its key is not
/// recorded.
pub proof fn law_changed_key_is_refused(
    e: Entries,
    host: Seq<char>,
    port: u16,
    first: Seq<char>,
    later: Seq<char>,
)
    requires
        first != later,
    ensures
        ({
            let known = known_hosts::recording(e, known_hosts::key_of(host, port), first);
            &&& verdict(host, port, known_hosts::checked(known, host, port, later))
                == Verdict::Reject(mismatch_reason(host, port, first, later))
            &&& known_after(known, host, port, later) == known
        }),
{
    known_hosts::law_trust_on_first_use(e, host, port, first, later);
}

/// A host that was accepted once is accepted again with the same key.
pub proof fn law_accepted_key_stays_accepted(
    e: Entries,
    host: Seq<char>,
    port: u16,
    fingerprint: Seq<char>,
)
    requires
        !(verdict(host, port, known_hosts::checked(e, host, port, fingerprint)) is Reject),
    ensures
        verdict(
            host,
            port,
            known_hosts::checked(
                known_after(e, host, port, fingerprint),
                host,
                port,
                fingerprint,
            ),
        ) == Verdict::Accept,
{
    known_hosts::law_trust_on_first_use(e, host, port, fingerprint, fingerprint);
}

/// How far a step is along the way.
pub open spec fn progress(step: Step) -> int {
    match step {
        Step::Connect { .. } => 0,
        Step::AuthenticatePassword { .. } => 1,
        Step::LoadKey { .. } => 1,
        Step::AuthenticateKey { .. } => 2,
        Step::OpenChannel => 3,
        Step::RequestPty { .. } => 4,
        Step::RequestShell => 5,
        Step::Run => 6,
        Step::Fail(_) => 7,
        Step::End => 7,
    }
}

/// Whatever happens, a session comes to its end: each step leads on, and the end is told
/// once, when it is reached.
pub proof fn law_sessions_end(p: Plan, step: Step, outcome: Ending, rejected: Option<Seq<char>>)
    ensures
        progress(step) < 7 ==> progress(p.after(step, outcome, rejected)) > progress(step),
        progress(step) == 7 ==> p.after(step, outcome, rejected) == step,
        reports(step).contains(Report::Ended) <==> progress(step) == 7,
{
    if progress(step) == 7 {
        assert(reports(step).last() == Report::Ended);
    }
}

/// A channel is opened only for a user that the server has authenticated, and a session
/// runs only in a channel with a terminal and a shell.
pub proof fn law_no_shell_without_authentication(
    p: Plan,
    step: Step,
    outcome: Ending,
    rejected: Option<Seq<char>>,
)
    ensures
        p.after(step, outcome, rejected) is OpenChannel ==> outcome is Done && (
        step is AuthenticatePassword || step is AuthenticateKey),
        p.after(step, outcome, rejected) is AuthenticateKey ==> outcome is Done && step is LoadKey,
        p.after(step, outcome, rejected) is RequestPty ==> outcome is Done && step is OpenChannel,
        p.after(step, outcome, rejected) is RequestShell ==> outcome is Done && step is RequestPty,
        p.after(step, outcome, rejected) is Run ==> outcome is Done && step is RequestShell,
        p.after(step, outcome, rejected) is End ==> step is Run || step is End,
{
}

/// A session goes to the host that was asked for: its first step connects to the address and
/// the port of the host.
pub proof fn law_sessions_connect_to_their_host(p: Plan)
    ensures
        p.addr() == p.host.host + seq![':'] + text::decimal(p.host.port as nat),
{
    reveal_strlit(":");
    assert(":"@ =~= seq![':']);
}

/// The user that a session authenticates is that of the host, with the credentials of the
/// host and no others: its password, or the private key at its path with the passphrase of
/// the session.
pub proof fn law_sessions_use_the_credentials_of_their_host(
    p: Plan,
    step: Step,
    outcome: Ending,
    rejected: Option<Seq<char>>,
)
    ensures
        p.after(step, outcome, rejected) matches Step::AuthenticatePassword { username, password }
            ==> {
            &&& username == p.host.username
            &&& p.host.auth_method == AuthMethod::Password
            &&& p.host.password is Some ==> password == p.host.password->0
            &&& p.host.password is None ==> password.len() == 0
        },
        p.after(step, outcome, rejected) matches Step::LoadKey { path, passphrase } ==> {
            &&& p.host.auth_method == AuthMethod::Key
            &&& p.host.key_path == Some(path)
            &&& passphrase == p.passphrase
        },
        p.after(step, outcome, rejected) matches Step::AuthenticateKey { username } ==> username
            == p.host.username,
        p.after(step, outcome, rejected) matches Step::RequestPty { cols, rows } ==> cols == p.cols
            && rows == p.rows,
{
}

/// The step that is reached from a step where every step goes well.
pub open spec fn going_well(p: Plan, step: Step, steps: nat) -> Step
    decreases steps,
{
    if steps == 0 {
        step
    } else {
        going_well(p, p.after(step, Ending::Done, None), (steps - 1) as nat)
    }
}

/// Where every step goes well, a session with a password connects, authenticates, opens a
/// channel, asks for a terminal and a shell, and runs; one with a key loads it first.
pub proof fn law_sessions_reach_the_shell(p: Plan)
    ensures
        ({
            let start = Step::Connect { addr: p.addr() };
            &&& p.host.auth_method == AuthMethod::Password ==> {
                &&& going_well(p, start, 1) is AuthenticatePassword
                &&& going_well(p, start, 2) is OpenChannel
                &&& going_well(p, start, 3) == (Step::RequestPty { cols: p.cols, rows: p.rows })
                &&& going_well(p, start, 4) is RequestShell
                &&& going_well(p, start, 5) is Run
                &&& going_well(p, start, 6) is End
            }
            &&& p.host.auth_method == AuthMethod::Key && p.host.key_path is Some ==> {
                &&& going_well(p, start, 1) is LoadKey
                &&& going_well(p, start, 2) is AuthenticateKey
                &&& going_well(p, start, 3) is OpenChannel
                &&& going_well(p, start, 4) == (Step::RequestPty { cols: p.cols, rows: p.rows })
                &&& going_well(p, start, 5) is RequestShell
                &&& going_well(p, start, 6) is Run
                &&& going_well(p, start, 7) is End
            }
            &&& p.host.auth_method == AuthMethod::Key && p.host.key_path is None ==> going_well(
                p,
                start,
                1,
            ) is Fail
        }),
{
    reveal_with_fuel(going_well, 8);
}

/// A step that does not go well ends the session with an error: with the reason for which
/// the key of the host was refused where there is one, and otherwise in words that end in
/// those of the error. A key that cannot be loaded is named.
pub proof fn law_failures_are_told(p: Plan, step: Step, outcome: Ending, rejected: Option<Seq<char>>)
    requires
        !(outcome is Done),
        progress(step) < 6,
    ensures
        p.after(step, outcome, rejected) matches Step::Fail(m) && {
            &&& step is Connect && rejected is Some ==> m == rejected->0
            &&& !(step is LoadKey) && !(step is Connect && rejected is Some) ==> (
            outcome matches Ending::Failed(e) ==> m.len() > e.len() && m.skip(m.len() - e.len())
                == e)
            &&& step matches Step::LoadKey { path, .. } ==> m.len() > path.len() && m.skip(
                m.len() - path.len(),
            ) == path
            &&& (step is AuthenticatePassword || step is AuthenticateKey) && outcome is Refused
                ==> m == "authentication rejected by server"@
        },
{
    reveal_strlit("connect to ");
    reveal_strlit(" failed: ");
    reveal_strlit("password auth failed: ");
    reveal_strlit("publickey auth failed: ");
    reveal_strlit("load key ");
    reveal_strlit("channel_open_session: ");
    reveal_strlit("request_pty: ");
    reveal_strlit("request_shell: ");
    let m = p.after(step, outcome, rejected)->Fail_0;
    if let Step::LoadKey { path, .. } = step {
        assert(m.skip(m.len() - path.len()) =~= path);
    } else if let Ending::Failed(e) = outcome {
        if !(step is Connect && rejected is Some) {
            assert(m.skip(m.len() - e.len()) =~= e);
        }
    }
}

/// The user is told that a session connects when it does, that it is connected when its
/// shell runs and not before, and that it ended once it is over; an error is told with the
/// end that it brought about.
pub proof fn law_reports_follow_the_steps(step: Step)
    ensures
        reports(step).contains(Report::Connecting) <==> step is Connect,
        reports(step).contains(Report::Connected) <==> step is Run,
        forall|m: Seq<char>| reports(step).contains(Report::Error(m)) <==> step == Step::Fail(m),
        step is Fail || step is End ==> reports(step).last() is Ended,
        !(step is Fail || step is End) ==> !reports(step).contains(Report::Ended),
{
    match step {
        Step::Connect { .. } => {
            assert(reports(step)[0] == Report::Connecting);
        },
        Step::Run => {
            assert(reports(step)[0] == Report::Connected);
        },
        Step::Fail(m) => {
            assert(reports(step)[0] == Report::Error(m));
        },
        _ => {},
    }
}

/// Why a key is refused names the host, its port, and both keys.
pub proof fn law_refusals_name_both_keys(
    host: Seq<char>,
    port: u16,
    expected: Seq<char>,
    received: Seq<char>,
)
    ensures
        verdict(host, port, Check::Mismatch { expected, received }) matches Verdict::Reject(m) && m
            == "host key mismatch for "@ + host + seq![':'] + text::decimal(port as nat)
            + "\n  expected: "@ + expected + "\n  received: "@ + received
            + "\nrefusing to connect (delete the known_hosts entry to forget the old key)"@,
{
    reveal_strlit(":");
    assert(":"@ =~= seq![':']);
}

/// The key of a host is decided by what is known of that host alone: recorded and accepted
/// where nothing is, accepted where it is the same, and otherwise refused.
pub proof fn law_server_keys_are_decided_by_what_is_known(
    e: Entries,
    host: Seq<char>,
    port: u16,
    fingerprint: Seq<char>,
)
    ensures
        ({
            let v = verdict(host, port, known_hosts::checked(e, host, port, fingerprint));
            match known_hosts::recorded(e, known_hosts::key_of(host, port)) {
                None => v is Trust && known_hosts::recorded(
                    known_after(e, host, port, fingerprint),
                    known_hosts::key_of(host, port),
                ) == Some(fingerprint),
                Some(known) => {
                    &&& known == fingerprint ==> v is Accept
                    &&& known != fingerprint ==> v is Reject
                    &&& known_after(e, host, port, fingerprint) == e
                },
            }
        }),
{
    let k = known_hosts::key_of(host, port);
    known_hosts::law_recorded_is_found(e, k, fingerprint, k);
}

} // verus!
