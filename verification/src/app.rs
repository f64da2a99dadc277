//! The client: its state, and what each thing that happens does to it.
//!
//! All state lives in an [`AppController`]. Whoever runs the client hands in what
//! happens - clicks, keys, output of sessions, results of work in the background - and
//! performs what comes back: saving the local state, and work in the background.
//! Multiple SSH sessions can run at once and are surfaced as tabs; `active` tracks the
//! visible one.

use vstd::prelude::*;

use crate::api::AuthResponse;
use crate::i18n;
use crate::i18n::Strings;
use crate::keys;
use crate::model;
use crate::model::{App, Arrived, Job, News, Shown, Tab, Todo, MAX_COLS, MAX_LINES};
use crate::screen;
use crate::ssh;
use crate::ssh::{SessionEvent, SessionPlan};
use crate::store;
use crate::store::{LocalState, LocalVaultEntry};
use crate::sync;
use crate::sync::{PulledState, SyncClient};
use crate::terminal::TerminalBuffer;
use crate::text;
use crate::types;
use crate::types::{AuthMethod, HostConfig};
use crate::ui;
use crate::ui::{HostForm, HostRow, TabRow, TermPane};

verus! {

// ---------------------------------------------------------------------------
// State
// ---------------------------------------------------------------------------

/// What the user interface shows, and what the user entered there.
#[derive(Debug)]
pub struct Ui {
    /// The login screen is 0, the main screen 1.
    pub screen: i32,
    pub server_url: String,
    pub username: String,
    pub password: String,
    pub status: String,
    pub busy: bool,
    pub search: String,
    pub form: HostForm,
    pub term: TermPane,
    pub host_list: Vec<HostRow>,
    pub tabs: Vec<TabRow>,
    pub active_tab: Option<usize>,
    pub terminal_font: String,
    pub locale: String,
    /// Counts the changes of language.
    pub version: i32,
    pub dark_mode: bool,
}

/// The number in an optional index.
pub open spec fn opt_int(i: Option<usize>) -> Option<int> {
    match i {
        Some(n) => Some(n as int),
        None => None,
    }
}

impl View for Ui {
    type V = Shown;

    open spec fn view(&self) -> Shown {
        Shown {
            screen: self.screen as int,
            server_url: self.server_url@,
            username: self.username@,
            password: self.password@,
            status: self.status@,
            busy: self.busy,
            search: self.search@,
            form: self.form@,
            term: self.term@,
            host_list: ui::row_views(self.host_list@),
            tabs: ui::tab_views(self.tabs@),
            active_tab: opt_int(self.active_tab),
            terminal_font: self.terminal_font@,
            locale: self.locale@,
            version: self.version as int,
            dark_mode: self.dark_mode,
        }
    }
}

/// A session.
pub struct Session {
    pub id: String,
    pub label: String,
    pub buffer: TerminalBuffer,
    pub connected: bool,
    pub ended_msg: Option<String>,
    /// Whether the terminal changed since it was rendered.
    pub dirty: bool,
    /// Last PTY size sent to the remote shell, so we only resend on change.
    pub pty_size: Option<(u32, u32)>,
}

impl View for Session {
    type V = Tab;

    open spec fn view(&self) -> Tab {
        Tab {
            id: self.id@,
            label: self.label@,
            screen: self.buffer@,
            connected: self.connected,
            ended: types::opt_text(self.ended_msg),
            dirty: self.dirty,
            size: self.pty_size,
        }
    }
}

/// The views of some sessions.
pub open spec fn session_views(v: Seq<Session>) -> Seq<Tab> {
    v.map_values(|s: Session| s@)
}

/// The client.
pub struct AppController {
    pub ui: Ui,
    pub local: LocalState,
    pub sync: Option<SyncClient>,
    pub sessions: Vec<Session>,
    pub active: Option<usize>,
    /// Ids of the hosts currently shown in the list, in display order, so that list
    /// indices survive search filtering.
    pub displayed_host_ids: Vec<String>,
    /// Set when the tab bar / active-session chrome needs rebuilding.
    pub tabs_dirty: bool,
    pub strings: Strings,
}

/// The account of an optional client.
pub open spec fn opt_account(c: Option<SyncClient>) -> Option<sync::Account> {
    match c {
        Some(s) => Some(s@),
        None => None,
    }
}

impl View for AppController {
    type V = App;

    open spec fn view(&self) -> App {
        App {
            ui: self.ui@,
            local: self.local@,
            sync: opt_account(self.sync),
            sessions: session_views(self.sessions@),
            active: opt_int(self.active),
            shown_ids: i18n::texts(self.displayed_host_ids@),
            tabs_dirty: self.tabs_dirty,
            strings: self.strings@,
        }
    }
}

/// What came of work done in the background.
pub enum UiEvent {
    /// A login or a registration succeeded.
    SignedIn(SyncClient, AuthResponse),
    /// A login or a registration failed.
    SignInFailed(String),
    Synced(PulledState),
    SyncFailed(String),
    Deleted,
    DeleteFailed(String),
}

impl View for UiEvent {
    type V = News;

    open spec fn view(&self) -> News {
        match self {
            UiEvent::SignedIn(c, a) => News::SignedIn(c@, a.username@),
            UiEvent::SignInFailed(e) => News::SignInFailed(e@),
            UiEvent::Synced(p) => News::Synced(
                types::host_views(p.hosts@),
                store::secret_views(p.vault@),
            ),
            UiEvent::SyncFailed(e) => News::SyncFailed(e@),
            UiEvent::Deleted => News::Deleted,
            UiEvent::DeleteFailed(e) => News::DeleteFailed(e@),
        }
    }
}

/// Work to be done in the background.
pub enum Task {
    Register { client: SyncClient, username: String, password: String },
    Login { client: SyncClient, username: String, password: String },
    /// Push everything, then pull.
    Sync { client: SyncClient, hosts: Vec<HostConfig>, vault: Vec<LocalVaultEntry> },
    /// Delete a host at the server, and then the vault entry it used, as far as that
    /// succeeds.
    Delete { client: SyncClient, id: String, vault_id: Option<String> },
    /// Run a session.
    Connect { session: String, plan: SessionPlan },
}

impl View for Task {
    type V = Job;

    open spec fn view(&self) -> Job {
        match self {
            Task::Register { client, username, password } => Job::Register {
                account: client@,
                username: username@,
                password: password@,
            },
            Task::Login { client, username, password } => Job::Login {
                account: client@,
                username: username@,
                password: password@,
            },
            Task::Sync { client, hosts, vault } => Job::Sync {
                account: client@,
                hosts: types::host_views(hosts@),
                vault: store::secret_views(vault@),
            },
            Task::Delete { client, id, vault_id } => Job::Delete {
                account: client@,
                id: id@,
                vault_id: types::opt_text(*vault_id),
            },
            Task::Connect { session, plan } => Job::Connect { session: session@, plan: plan@ },
        }
    }
}

/// What is to be done outside.
pub struct Effect {
    /// The local state is to be saved.
    pub save: bool,
    /// Work to be done in the background.
    pub task: Option<Task>,
}

impl View for Effect {
    type V = Todo;

    open spec fn view(&self) -> Todo {
        Todo {
            save: self.save,
            job: match self.task {
                Some(t) => Some(t@),
                None => None,
            },
        }
    }
}

/// What arrived for a session.
pub struct SessionInput {
    pub output: Vec<u8>,
    pub events: Vec<SessionEvent>,
}

impl View for SessionInput {
    type V = Arrived;

    open spec fn view(&self) -> Arrived {
        Arrived { output: self.output@, events: ssh::event_views(self.events@) }
    }
}

/// The views of what arrived.
pub open spec fn arrived_views(v: Seq<SessionInput>) -> Seq<Arrived> {
    v.map_values(|a: SessionInput| a@)
}

fn nothing() -> (r: Effect)
    ensures
        r@ == model::nothing(),
{
    Effect { save: false, task: None }
}

// ---------------------------------------------------------------------------
// Ids and times
// ---------------------------------------------------------------------------

/// `chrono::Utc::now` in milliseconds since 1970: nothing is promised of the time.
#[verifier::external_body]
fn now_millis() -> (r: i64) {
    chrono::Utc::now().timestamp_millis()
}

/// `chrono::Utc::now` in seconds since 1970: nothing is promised of the time but that it
/// lies in the years that a `chrono::DateTime` can hold.
#[verifier::external_body]
pub(crate) fn now_seconds() -> (r: i64)
    ensures
        -8_334_601_228_800 <= r <= 8_210_266_876_799,
{
    chrono::Utc::now().timestamp()
}

/// `rand::Rng::gen` of `rand::thread_rng`: nothing is promised of the number.
#[verifier::external_body]
fn random_u64() -> (r: u64) {
    rand::Rng::gen(&mut rand::thread_rng())
}

/// A numeral with zeros before it, up to sixteen digits.
pub open spec fn padded(s: Seq<char>) -> Seq<char> {
    Seq::new(screen::most(16 - s.len(), 0) as nat, |i: int| '0') + s
}

/// The id for a time and a random number: both in hexadecimal, the second with all of its
/// digits.
pub open spec fn id_text(now: i64, r: u64) -> Seq<char> {
    text::hexadecimal((now as u64) as nat) + "-"@ + padded(text::hexadecimal(r as nat))
}

/// The id for a time and a random number.
pub fn id_of(now: i64, r: u64) -> (s: String)
    ensures
        s@ == id_text(now, r),
{
    let mut s = text::hexadecimal_text(now as u64);
    s.push_str("-");
    let ghost front = s@;
    let digits = text::hexadecimal_text(r);
    let n: usize = text::chars_of(digits.as_str()).len();
    let mut i: usize = n;
    while i < 16
        invariant
            n == digits@.len(),
            n <= i,
            i <= 16 || i == n,
            s@ == front + Seq::new((i - n) as nat, |k: int| '0'),
        decreases 16 - i,
    {
        s.push('0');
        i += 1;
        assert(s@ =~= front + Seq::new((i - n) as nat, |k: int| '0'));
    }
    s.push_str(digits.as_str());
    assert(s@ =~= id_text(now, r));
    s
}

/// A new id. Nothing is promised of the time and the random number in it.
pub fn new_id() -> (s: String)
    ensures
        exists|now: i64, r: u64| s@ == #[trigger] id_text(now, r),
{
    let now = now_millis();
    let r = random_u64();
    id_of(now, r)
}

// ---------------------------------------------------------------------------
// Sizes and places
// ---------------------------------------------------------------------------

/// A size that a terminal can have.
pub fn pty_size(cols: u32, rows: u32) -> (r: (u32, u32))
    ensures
        r == model::pty_size_of(cols, rows),
{
    let c: u32 = if cols < 20 {
        20
    } else if cols > MAX_COLS {
        MAX_COLS
    } else {
        cols
    };
    let l: u32 = if rows < 8 {
        8
    } else if rows > MAX_LINES {
        MAX_LINES
    } else {
        rows
    };
    (c, l)
}

fn active_after(prev: Option<usize>, removed: usize, len: usize) -> (r: Option<usize>)
    ensures
        opt_int(r) == model::active_after(opt_int(prev), removed as int, len as int),
{
    if len == 0 {
        return None;
    }
    match prev {
        None => Some(len - 1),
        Some(a) => {
            let n: usize = if a > removed {
                a - removed
            } else {
                0
            };
            if n < len {
                Some(n)
            } else {
                Some(len - 1)
            }
        },
    }
}

/// After removing `removed_before` sessions ahead of it, recompute the active index for a
/// session vector of length `len`. Falls back to the last session.
pub fn recompute_active(prev: Option<usize>, removed_before: isize, len: usize) -> (r: Option<
    usize,
>)
    ensures
        opt_int(r) == model::active_after(opt_int(prev), removed_before as int, len as int),
{
    if removed_before >= 0 {
        return active_after(prev, removed_before as usize, len);
    }
    if len == 0 {
        return None;
    }
    match prev {
        None => Some(len - 1),
        Some(a) => {
            // Fewer than none were removed: the index grows.
            if a < len && removed_before > isize::MIN {
                let more: usize = (-removed_before) as usize;
                if more < len - a {
                    return Some(a + more);
                }
            } else if a < len {
                let more: usize = isize::MAX as usize;
                if more < len - a - 1 {
                    return Some(a + more + 1);
                }
            }
            Some(len - 1)
        },
    }
}

// ---------------------------------------------------------------------------
// What is shown
// ---------------------------------------------------------------------------

/// Whether one of three lower-case texts holds a lower-case query; an empty query is held
/// by every text.
pub fn matches_query(q: &str, name: &str, host: &str, username: &str) -> (r: bool)
    ensures
        r == model::query_matches(q@, name@, host@, username@),
{
    q.is_empty() || text::contains(name, q) || text::contains(host, q) || text::contains(
        username,
        q,
    )
}

fn detail(h: &HostConfig) -> (r: String)
    ensures
        r@ == model::detail_of(h@),
{
    let mut s = text::concat(h.username.as_str(), "@");
    s.push_str(h.host.as_str());
    s.push_str(":");
    s.push_str(text::decimal_text(h.port as u64).as_str());
    s
}

fn host_row(h: &HostConfig) -> (r: HostRow)
    ensures
        r@ == model::row_of(h@),
{
    HostRow {
        id: h.id.clone(),
        name: h.name.clone(),
        detail: detail(h),
        auth: h.auth_method.name().to_owned(),
    }
}

impl AppController {
    fn tell(&mut self, key: &str)
        ensures
            final(self)@ == old(self)@.says(key@, Seq::empty()),
    {
        let ghost before = self@;
        let args: Vec<String> = Vec::new();
        self.ui.status = i18n::tr(&self.strings, key, args.as_slice());
        proof {
            assert(i18n::texts(args@) =~= Seq::empty());
            assert(self@ =~= before.says(key@, Seq::empty()));
        }
    }

    fn tell_of(&mut self, key: &str, arg: String)
        ensures
            final(self)@ == old(self)@.says(key@, seq![arg@]),
    {
        let ghost before = self@;
        let args: Vec<String> = vec![arg];
        self.ui.status = i18n::tr(&self.strings, key, args.as_slice());
        proof {
            assert(i18n::texts(args@) =~= seq![arg@]);
            assert(self@ =~= before.says(key@, seq![arg@]));
        }
    }

    fn show_text(&mut self, s: String)
        requires
            screen::line_count(s@) <= i32::MAX,
        ensures
            final(self)@ == old(self)@.shows(s@),
    {
        let ghost before = self@;
        self.ui.term.set_terminal_text(s);
        assert(self@ =~= before.shows(s@));
    }

    fn set_header(&mut self, label: String, connected: bool)
        ensures
            final(self)@ == old(self)@.heads(label@, connected),
    {
        let ghost before = self@;
        self.ui.term.host_label = label;
        self.ui.term.connected = connected;
        assert(self@ =~= before.heads(label@, connected));
    }

    /// Show the hosts that the search finds. Also for a changed search text.
    pub fn refresh_host_list(&mut self)
        ensures
            final(self)@ == old(self)@.lists(),
    {
        let ghost before = self@;
        let q = text::to_lowercase(self.ui.search.as_str());
        let ghost keeps = |h: types::Host| model::found_by(q@, h);
        let ghost all = before.local.hosts;
        let mut rows: Vec<HostRow> = Vec::new();
        let mut ids: Vec<String> = Vec::new();
        let mut i: usize = 0;
        proof {
            reveal(Seq::filter);
            assert(all.take(0) =~= Seq::empty());
            let none = all.take(0).filter(keeps);
            assert(ui::row_views(rows@) =~= none.map_values(|h: types::Host| model::row_of(h)));
            assert(i18n::texts(ids@) =~= none.map_values(|h: types::Host| h.id));
        }
        while i < self.local.hosts.len()
            invariant
                i <= self.local.hosts@.len(),
                before == self@,
                all == before.local.hosts,
                keeps == (|h: types::Host| model::found_by(q@, h)),
                ui::row_views(rows@) == all.take(i as int).filter(keeps).map_values(
                    |h: types::Host| model::row_of(h),
                ),
                i18n::texts(ids@) == all.take(i as int).filter(keeps).map_values(
                    |h: types::Host| h.id,
                ),
            decreases self.local.hosts@.len() - i,
        {
            let ghost (rows0, ids0) = (rows@, ids@);
            let h = &self.local.hosts[i];
            let ghost found = all.take(i as int).filter(keeps);
            proof {
                reveal(Seq::filter);
                assert(all.take(i + 1).drop_last() =~= all.take(i as int));
                assert(all.take(i + 1).last() == h@);
            }
            let name = text::to_lowercase(h.name.as_str());
            let host = text::to_lowercase(h.host.as_str());
            let username = text::to_lowercase(h.username.as_str());
            if matches_query(q.as_str(), name.as_str(), host.as_str(), username.as_str()) {
                ids.push(h.id.clone());
                rows.push(host_row(h));
                proof {
                    assert(all.take(i + 1).filter(keeps) == found.push(h@));
                    assert(ui::row_views(rows@) =~= ui::row_views(rows0).push(model::row_of(h@)));
                    assert(i18n::texts(ids@) =~= i18n::texts(ids0).push(h@.id));
                    assert(ui::row_views(rows@) =~= found.push(h@).map_values(
                        |h: types::Host| model::row_of(h),
                    ));
                    assert(i18n::texts(ids@) =~= found.push(h@).map_values(
                        |h: types::Host| h.id,
                    ));
                }
            }
            i += 1;
        }
        assert(all.take(all.len() as int) =~= all);
        self.displayed_host_ids = ids;
        self.ui.host_list = rows;
        assert(self@ =~= before.lists());
    }

    /// Show the sessions in the tab bar.
    pub fn refresh_tabs(&mut self)
        ensures
            final(self)@ == old(self)@.shows_tabs(),
    {
        let ghost before = self@;
        let mut rows: Vec<TabRow> = Vec::new();
        let mut i: usize = 0;
        while i < self.sessions.len()
            invariant
                i <= self.sessions@.len(),
                before == self@,
                rows@.len() == i,
                forall|k: int|
                    0 <= k < i ==> (#[trigger] rows@[k])@ == model::tab_line(before.sessions[k]),
            decreases self.sessions@.len() - i,
        {
            let s = &self.sessions[i];
            assert(before.sessions[i as int] == s@);
            rows.push(
                TabRow { id: s.id.clone(), label: s.label.clone(), connected: s.connected },
            );
            i += 1;
        }
        self.ui.tabs = rows;
        self.ui.active_tab = self.active;
        proof {
            assert(self@.ui.tabs =~= before.sessions.map_values(|t: Tab| model::tab_line(t)));
            assert(self@ =~= before.shows_tabs());
        }
    }

    /// The client at its start, by the saved state. `ui` is the user interface with its
    /// own defaults, which stay where nothing is saved yet.
    pub fn new(local: LocalState, ui: Ui) -> (r: AppController)
        requires
            ui.term@.countable(),
        ensures
            r@ == App::start(ui@, local@),
            r@.valid(),
    {
        let mut ui = ui;
        let ghost first = ui@;
        if !local.server_url.as_str().is_empty() {
            ui.server_url = local.server_url.clone();
        }
        if !local.username.as_str().is_empty() {
            ui.username = local.username.clone();
        }
        ui.terminal_font = local.terminal_font_or_default();
        let lang = local.lang_or_default();
        let theme = local.theme_or_default();
        let mut strings = Strings::new();
        i18n::set_lang(&mut strings, lang.as_str());
        ui.locale = lang;
        ui.version = 1;
        ui.dark_mode = !text::same_text(theme.as_str(), "light");
        proof {
            reveal_strlit("light");
            reveal_strlit("dark");
            assert("light"@.len() != "dark"@.len());
        }
        let mut r = AppController {
            ui,
            local,
            sync: None,
            sessions: Vec::new(),
            active: None,
            displayed_host_ids: Vec::new(),
            tabs_dirty: true,
            strings,
        };
        proof {
            assert(r@.sessions =~= Seq::empty());
            assert(r@.shown_ids =~= Seq::empty());
        }
        r.refresh_host_list();
        r.refresh_tabs();
        assert(r@ =~= App::start(first, local@));
        r
    }

    // ---- account ----

    /// The user wants to sign in, or to register.
    pub fn handle_auth(&mut self, register: bool) -> (r: Effect)
        ensures
            (final(self)@, r@) == old(self)@.signs_in(
                register,
                sync::is_url(sync::normal_url(old(self)@.ui.server_url)),
            ),
            old(self)@.valid() ==> final(self)@.valid(),
    {
        let ghost before = self@;
        if self.ui.username.as_str().is_empty() || self.ui.password.as_str().is_empty() {
            self.tell("status.enter-creds");
            return nothing();
        }
        let client = match SyncClient::new(self.ui.server_url.as_str()) {
            Ok(c) => c,
            Err(e) => {
                self.tell_of("status.invalid-url", e.message());
                return nothing();
            },
        };
        let username = self.ui.username.clone();
        let password = self.ui.password.clone();
        self.tell(
            if register {
                "status.registering"
            } else {
                "status.signing-in"
            },
        );
        self.ui.busy = true;
        let task = if register {
            Task::Register { client, username, password }
        } else {
            Task::Login { client, username, password }
        };
        let r = Effect { save: false, task: Some(task) };
        proof {
            let key = if register {
                "status.registering"@
            } else {
                "status.signing-in"@
            };
            let t = before.says(key, Seq::empty());
            assert(self@ =~= App { ui: Shown { busy: true, ..t.ui }, ..t });
        }
        r
    }

    /// The user signs out. All sessions end.
    pub fn handle_logout(&mut self)
        ensures
            final(self)@ == old(self)@.signs_out(),
            final(self)@.valid(),
    {
        let ghost before = self@;
        self.sync = None;
        self.sessions = Vec::new();
        self.active = None;
        self.tabs_dirty = true;
        self.local.username = String::new();
        self.ui.screen = 0;
        self.ui.password = String::new();
        self.ui.status = String::new();
        self.set_header("not connected".to_owned(), false);
        self.show_text(String::new());
        self.refresh_tabs();
        assert(self@.sessions =~= Seq::empty());
        assert(self@ =~= before.signs_out());
    }

    /// Local and remote hosts are to be synchronised.
    pub fn spawn_pull(&mut self) -> (r: Effect)
        ensures
            (final(self)@, r@) == old(self)@.syncs(),
            old(self)@.valid() ==> final(self)@.valid(),
    {
        let ghost before = self@;
        let client = match &self.sync {
            Some(c) => c.clone(),
            None => {
                self.tell("status.not-signed-in");
                return nothing();
            },
        };
        let hosts = store::clone_hosts(self.local.hosts.as_slice());
        let vault = store::clone_vault(self.local.vault.as_slice());
        self.ui.busy = true;
        self.tell("status.syncing");
        proof {
            let t = before.says("status.syncing"@, Seq::empty());
            assert(self@ =~= App { ui: Shown { busy: true, ..t.ui }, ..t });
        }
        Effect { save: false, task: Some(Task::Sync { client, hosts, vault }) }
    }

    /// Something came of work in the background.
    pub fn handle_event(&mut self, ev: UiEvent) -> (r: Effect)
        ensures
            (final(self)@, r@) == old(self)@.hears(ev@),
            old(self)@.valid() ==> final(self)@.valid(),
    {
        let ghost before = self@;
        match ev {
            UiEvent::SignedIn(client, auth) => {
                self.sync = Some(client);
                self.local.server_url = self.ui.server_url.clone();
                self.local.username = auth.username.clone();
                self.ui.username = auth.username;
                self.ui.busy = false;
                self.ui.screen = 1;
                proof {
                    let username = auth.username@;
                    assert(self@ =~= App {
                        ui: Shown { username, screen: 1, busy: false, ..before.ui },
                        local: store::Local {
                            server_url: before.ui.server_url,
                            username,
                            ..before.local
                        },
                        sync: Some(client@),
                        ..before
                    });
                }
                self.tell("status.signed-in");
                self.refresh_host_list();
                // Auto-pull so hosts from other devices appear immediately.
                let mut r = self.spawn_pull();
                r.save = true;
                r
            },
            UiEvent::SignInFailed(e) => {
                self.ui.busy = false;
                assert(self@ =~= before.rests());
                self.tell_of("status.login-failed", e);
                nothing()
            },
            UiEvent::Synced(pulled) => {
                self.local.merge_remote(pulled.hosts.as_slice(), pulled.vault.as_slice());
                self.ui.busy = false;
                proof {
                    let merged = before.local.merged(
                        types::host_views(pulled.hosts@),
                        store::secret_views(pulled.vault@),
                    );
                    assert(self@ =~= App { local: merged, ..before }.rests());
                }
                self.refresh_host_list();
                self.tell("status.sync-complete");
                Effect { save: true, task: None }
            },
            UiEvent::SyncFailed(e) => {
                self.ui.busy = false;
                assert(self@ =~= before.rests());
                self.tell_of("status.sync-failed", e);
                nothing()
            },
            UiEvent::Deleted => {
                self.ui.busy = false;
                assert(self@ =~= before.rests());
                self.refresh_host_list();
                self.tell("status.deleted");
                nothing()
            },
            UiEvent::DeleteFailed(e) => {
                self.ui.busy = false;
                assert(self@ =~= before.rests());
                self.tell_of("status.error", text::concat("delete failed: ", e.as_str()));
                nothing()
            },
        }
    }

    // ---- hosts ----

    /// The user saves the host in the form, for a time and ids for a new host and a new
    /// vault entry; see [`AppController::handle_add_host`].
    pub fn add_host(&mut self, now: i64, host_id: String, vault_id: String) -> (r: Effect)
        ensures
            (final(self)@, r@) == old(self)@.saves_host(now, host_id@, vault_id@),
            old(self)@.valid() ==> final(self)@.valid(),
    {
        let ghost before = self@;
        let ghost f = before.ui.form;
        if self.ui.form.name.as_str().is_empty() || self.ui.form.host.as_str().is_empty()
            || self.ui.form.user.as_str().is_empty() {
            self.tell("status.name-required");
            return nothing();
        }
        let editing = !self.ui.form.editing_id.as_str().is_empty();
        let port: u16 = match text::parse_u16(self.ui.form.port_text.as_str()) {
            Some(p) => p,
            None => 22,
        };
        let auth = AuthMethod::from_name(self.ui.form.auth.as_str());
        let id = if editing {
            self.ui.form.editing_id.clone()
        } else {
            host_id
        };
        // Preserve an existing vault link when editing a key-auth host.
        let existing_vid = if editing {
            self.linked_secret()
        } else {
            None
        };
        let mut password: Option<String> = None;
        let mut key_path: Option<String> = None;
        let mut key_password_id: Option<String> = None;
        let mut secret: Option<LocalVaultEntry> = None;
        match auth {
            AuthMethod::Password => {
                if !self.ui.form.password.as_str().is_empty() {
                    password = Some(self.ui.form.password.clone());
                }
            },
            AuthMethod::Key => {
                key_path = Some(self.ui.form.keypath.clone());
                if self.ui.form.passphrase.as_str().is_empty() {
                    key_password_id = existing_vid;
                } else {
                    let vid = match existing_vid {
                        Some(v) => v,
                        None => vault_id,
                    };
                    secret = Some(
                        LocalVaultEntry {
                            id: vid.clone(),
                            label: self.ui.form.name.clone(),
                            passphrase: self.ui.form.passphrase.clone(),
                            updated_at: now,
                        },
                    );
                    key_password_id = Some(vid);
                }
            },
        }
        let host = HostConfig {
            id,
            name: self.ui.form.name.clone(),
            host: self.ui.form.host.clone(),
            port,
            username: self.ui.form.user.clone(),
            auth_method: auth,
            password,
            key_path,
            key_password_id,
            group: String::new(),
            updated_at: now,
        };
        proof {
            assert(host@ =~= model::host_of(before.local, f, now, host_id@, vault_id@));
        }
        match secret {
            Some(entry) => self.local.upsert_vault(entry),
            None => {},
        }
        self.local.upsert_host(host);
        self.ui.form.editing_id = String::new();
        self.ui.form.name = String::new();
        self.ui.form.host = String::new();
        self.ui.form.user = String::new();
        self.ui.form.password = String::new();
        self.ui.form.keypath = String::new();
        self.ui.form.passphrase = String::new();
        proof {
            assert(self@.ui.form =~= f.saved());
            assert(self@.local =~= model::entered(before.local, f, now, host_id@, vault_id@));
            assert(self@ =~= App {
                ui: Shown { form: f.saved(), ..before.ui },
                local: model::entered(before.local, f, now, host_id@, vault_id@),
                ..before
            });
        }
        self.refresh_host_list();
        self.tell(
            if editing {
                "status.host-updated"
            } else {
                "status.host-saved"
            },
        );
        Effect { save: true, task: None }
    }

    /// The vault entry that the edited host used so far.
    fn linked_secret(&self) -> (r: Option<String>)
        requires
            self@.ui.form.editing_id.len() > 0,
        ensures
            types::opt_text(r) == model::linked_secret(self@.local, self@.ui.form),
    {
        match store::find_host(self.local.hosts.as_slice(), self.ui.form.editing_id.as_str()) {
            Some(i) => {
                assert(self@.local.hosts[i as int] == self.local.hosts@[i as int]@);
                types::clone_opt(&self.local.hosts[i].key_password_id)
            },
            None => None,
        }
    }

    /// The user saves the host in the form.
    pub fn handle_add_host(&mut self) -> (r: Effect)
        ensures
            exists|now: i64, t1: i64, r1: u64, t2: i64, r2: u64|
                (final(self)@, r@) == #[trigger] old(self)@.saves_host(
                    now,
                    id_text(t1, r1),
                    id_text(t2, r2),
                ),
            old(self)@.valid() ==> final(self)@.valid(),
    {
        let now = now_seconds();
        let host_id = new_id();
        let vault_id = new_id();
        self.add_host(now, host_id, vault_id)
    }

    /// The user wants to enter a new host.
    pub fn handle_new_host(&mut self)
        ensures
            final(self)@ == old(self)@.clears_form(),
            old(self)@.valid() ==> final(self)@.valid(),
    {
        let ghost before = self@;
        self.ui.form = HostForm::blank();
        assert(self@ =~= App {
            ui: Shown { form: ui::Form::blank(), ..before.ui },
            ..before
        });
        self.tell("status.adding-host");
    }

    /// The place of the host in the list at an index.
    fn listed(&self, index: usize) -> (r: Option<usize>)
        ensures
            match r {
                Some(i) => {
                    &&& i < self.local.hosts@.len()
                    &&& self@.listed(index as int) == Some(self.local.hosts@[i as int]@)
                },
                None => self@.listed(index as int) is None,
            },
    {
        if index < self.displayed_host_ids.len() {
            assert(self@.shown_ids[index as int] == self.displayed_host_ids@[index as int]@);
            let r = store::find_host(
                self.local.hosts.as_slice(),
                self.displayed_host_ids[index].as_str(),
            );
            if let Some(i) = r {
                assert(self@.local.hosts[i as int] == self.local.hosts@[i as int]@);
            }
            r
        } else {
            None
        }
    }

    /// The user wants to edit a host in the list.
    pub fn handle_edit(&mut self, index: usize)
        ensures
            final(self)@ == old(self)@.edits(index as int),
            old(self)@.valid() ==> final(self)@.valid(),
    {
        let ghost before = self@;
        let h = match self.listed(index) {
            Some(i) => self.local.hosts[i].clone(),
            None => return,
        };
        let passphrase = match self.local.passphrase_for(&h) {
            Some(s) => s.to_owned(),
            None => String::new(),
        };
        let port_text = text::decimal_text(h.port as u64);
        let auth = h.auth_method.name().to_owned();
        self.ui.form = HostForm {
            editing_id: h.id,
            name: h.name,
            host: h.host,
            port_text,
            user: h.username,
            auth,
            password: match h.password {
                Some(s) => s,
                None => String::new(),
            },
            keypath: match h.key_path {
                Some(s) => s,
                None => String::new(),
            },
            passphrase,
        };
        proof {
            let form = model::form_of(before.local, h@);
            assert(self@.ui.form =~= form);
            assert(self@ =~= App { ui: Shown { form, ..before.ui }, ..before });
        }
        self.tell("status.editing");
    }

    /// The user deletes a host in the list.
    pub fn handle_delete(&mut self, index: usize) -> (r: Effect)
        ensures
            (final(self)@, r@) == old(self)@.deletes(index as int),
            old(self)@.valid() ==> final(self)@.valid(),
    {
        let ghost before = self@;
        if index >= self.displayed_host_ids.len() {
            return nothing();
        }
        assert(before.shown_ids[index as int] == self.displayed_host_ids@[index as int]@);
        let id = self.displayed_host_ids[index].clone();
        let vault_id = match self.listed(index) {
            Some(i) => types::clone_opt(&self.local.hosts[i].key_password_id),
            None => None,
        };
        self.local.delete_host(id.as_str());
        let client = match &self.sync {
            Some(c) => Some(c.clone()),
            None => None,
        };
        assert(self@ =~= App { local: before.local.without_host(id@), ..before });
        match client {
            Some(client) => {
                let ghost t = self@;
                self.ui.busy = true;
                assert(self@ =~= App { ui: Shown { busy: true, ..t.ui }, ..t });
                Effect { save: true, task: Some(Task::Delete { client, id, vault_id }) }
            },
            None => {
                self.refresh_host_list();
                self.tell("status.deleted-local");
                Effect { save: true, task: None }
            },
        }
    }

    // ---- sessions ----

    /// The user connects to a host in the list, in a terminal of a size. A session with
    /// the given id begins.
    pub fn connect(&mut self, index: usize, cols: u32, rows: u32, session: String) -> (r: Effect)
        requires
            old(self)@.valid(),
        ensures
            (final(self)@, r@) == old(self)@.connects(index as int, cols, rows, session@),
            final(self)@.valid(),
    {
        let ghost before = self@;
        let host = match self.listed(index) {
            Some(i) => self.local.hosts[i].clone(),
            None => {
                self.tell("status.no-host");
                return nothing();
            },
        };
        let passphrase = match self.local.passphrase_for(&host) {
            Some(s) => Some(s.to_owned()),
            None => None,
        };
        let mut label = text::concat(host.name.as_str(), " · ");
        label.push_str(detail(&host).as_str());
        let (cols, rows) = pty_size(cols, rows);
        let buffer = TerminalBuffer::new(cols as usize, rows as usize);
        let ghost tab = Tab {
            id: session@,
            label: label@,
            screen: screen::Screen::blank(cols as int, rows as int),
            connected: false,
            ended: None,
            dirty: false,
            size: Some((cols, rows)),
        };
        self.sessions.push(
            Session {
                id: session.clone(),
                label: label.clone(),
                buffer,
                connected: false,
                ended_msg: None,
                dirty: false,
                pty_size: Some((cols, rows)),
            },
        );
        self.active = Some(self.sessions.len() - 1);
        self.tabs_dirty = true;
        proof {
            assert(self@.sessions =~= before.sessions.push(tab));
            assert(self@ =~= App {
                sessions: before.sessions.push(tab),
                active: Some(before.sessions.len() as int),
                tabs_dirty: true,
                ..before
            });
            assert(model::tab_valid(tab));
        }
        let host_name = host.host.clone();
        self.show_text(String::new());
        self.set_header(label, false);
        let ghost t = self@;
        let args: Vec<String> = vec![
            host_name,
            text::decimal_text(cols as u64),
            text::decimal_text(rows as u64),
        ];
        self.ui.status = i18n::tr(&self.strings, "status.connecting", args.as_slice());
        proof {
            let told = seq![
                host@.host,
                text::decimal(cols as nat),
                text::decimal(rows as nat),
            ];
            assert(i18n::texts(args@) =~= told);
            assert(self@ =~= t.says("status.connecting"@, told));
            assert forall|i: int| 0 <= i < self@.sessions.len() implies model::tab_valid(
                #[trigger] self@.sessions[i],
            ) by {
                if i < before.sessions.len() {
                    assert(model::tab_valid(before.sessions[i]));
                }
            }
        }
        Effect {
            save: false,
            task: Some(
                Task::Connect { session, plan: SessionPlan { host, passphrase, cols, rows } },
            ),
        }
    }

    /// The user connects to a host in the list, in a terminal of a size.
    pub fn handle_connect(&mut self, index: usize, cols: u32, rows: u32) -> (r: Effect)
        requires
            old(self)@.valid(),
        ensures
            exists|t: i64, n: u64|
                (final(self)@, r@) == old(self)@.connects(
                    index as int,
                    cols,
                    rows,
                    #[trigger] id_text(t, n),
                ),
            final(self)@.valid(),
    {
        let session = new_id();
        self.connect(index, cols, rows, session)
    }

    /// The user selects a tab. Says whether there is such a tab.
    pub fn select_tab(&mut self, i: usize) -> (r: bool)
        requires
            old(self)@.valid(),
        ensures
            final(self)@ == old(self)@.selects(i as int),
            final(self)@.valid(),
            r == (i < old(self)@.sessions.len()),
    {
        let ghost before = self@;
        if i >= self.sessions.len() {
            return false;
        }
        self.active = Some(i);
        self.tabs_dirty = true;
        assert(self@ =~= before.selects(i as int));
        true
    }

    /// The user closes a tab. Says whether there is such a tab.
    pub fn close_tab(&mut self, i: usize) -> (r: bool)
        requires
            old(self)@.valid(),
        ensures
            final(self)@ == old(self)@.closes(i as int),
            final(self)@.valid(),
            r == (i < old(self)@.sessions.len()),
    {
        let ghost before = self@;
        if i >= self.sessions.len() {
            return false;
        }
        self.sessions.remove(i);
        self.active = match self.active {
            None => None,
            Some(a) => {
                let removed_before: isize = if i < a {
                    1
                } else {
                    0
                };
                recompute_active(Some(a), removed_before, self.sessions.len())
            },
        };
        self.tabs_dirty = true;
        proof {
            assert(self@.sessions =~= before.sessions.remove(i as int));
            assert(self@ =~= before.closes(i as int));
            assert forall|k: int| 0 <= k < self@.sessions.len() implies model::tab_valid(
                #[trigger] self@.sessions[k],
            ) by {
                if k < i {
                    assert(model::tab_valid(before.sessions[k]));
                } else {
                    assert(model::tab_valid(before.sessions[k + 1]));
                }
            }
        }
        true
    }

    /// Which session gets what the user types.
    pub fn typing_into(&self) -> (r: Option<usize>)
        requires
            self@.valid(),
        ensures
            opt_int(r) == self@.active,
            r matches Some(i) ==> i < self@.sessions.len(),
    {
        self.active
    }

    /// What a key press sends, and to which session.
    pub fn term_key(&self, key: &str, ctrl: bool, shift: bool, alt: bool) -> (r: Option<
        (usize, Vec<u8>),
    >)
        requires
            self@.valid(),
        ensures
            match (self@.active, keys::key_bytes(key@, ctrl, shift)) {
                (Some(a), Some(bytes)) => r matches Some((i, v)) && i == a && v@ == bytes,
                _ => r is None,
            },
    {
        match (self.typing_into(), keys::key_to_bytes(key, ctrl, shift, alt)) {
            (Some(i), Some(v)) => Some((i, v)),
            _ => None,
        }
    }

    /// What a toolbar button sends, and to which session.
    pub fn send_button(&self, name: &str) -> (r: Option<(usize, Vec<u8>)>)
        requires
            self@.valid(),
        ensures
            match (self@.active, keys::button_bytes(name@)) {
                (Some(a), Some(bytes)) => r matches Some((i, v)) && i == a && v@ == bytes,
                _ => r is None,
            },
    {
        match (self.typing_into(), keys::button_to_bytes(name)) {
            (Some(i), Some(v)) => Some((i, v)),
            _ => None,
        }
    }

    /// What a pasted text sends, and to which session.
    pub fn paste(&self, clipboard: &str) -> (r: Option<(usize, Vec<u8>)>)
        requires
            self@.valid(),
        ensures
            match self@.active {
                Some(a) => if clipboard@.len() > 0 {
                    r matches Some((i, v)) && i == a && v@ == vstd::utf8::encode_utf8(
                        keys::pasted(clipboard@),
                    )
                } else {
                    r is None
                },
                None => r is None,
            },
    {
        match (self.typing_into(), keys::paste_to_bytes(clipboard)) {
            (Some(i), Some(v)) => Some((i, v)),
            _ => None,
        }
    }

    /// The user clears the terminal.
    pub fn clear_terminal(&mut self)
        requires
            old(self)@.valid(),
        ensures
            final(self)@ == old(self)@.clears_terminal(),
            final(self)@.valid(),
    {
        let ghost before = self@;
        if let Some(i) = self.active {
            assert(before.sessions[i as int] == self.sessions@[i as int]@);
            assert(model::tab_valid(before.sessions[i as int]));
            let s = &mut self.sessions[i];
            s.buffer.reset();
            s.dirty = true;
            proof {
                let t = before.sessions[i as int];
                let tab = Tab { screen: t.screen.reset(), dirty: true, ..t };
                assert(model::tab_valid(tab));
                assert(self@.sessions =~= before.sessions.update(i as int, tab));
                assert(self@ =~= App {
                    sessions: before.sessions.update(i as int, tab),
                    ..before
                });
            }
        }
        proof {
            assert forall|k: int| 0 <= k < self@.sessions.len() implies model::tab_valid(
                #[trigger] self@.sessions[k],
            ) by {
                assert(model::tab_valid(before.sessions[k]));
            }
        }
        self.show_text(String::new());
    }

    // ---- settings ----

    /// The user chose the font in the user interface.
    pub fn font_changed(&mut self) -> (r: Effect)
        ensures
            final(self)@ == (App {
                local: store::Local {
                    terminal_font: old(self)@.ui.terminal_font,
                    ..old(self)@.local
                },
                ..old(self)@
            }),
            r@ == (Todo { save: true, job: None }),
            old(self)@.valid() ==> final(self)@.valid(),
    {
        self.local.terminal_font = self.ui.terminal_font.clone();
        Effect { save: true, task: None }
    }

    /// The choice of the font could not be saved.
    pub fn font_save_failed(&mut self, error: String)
        ensures
            final(self)@ == old(self)@.says("status.font-saved-error"@, seq![error@]),
            old(self)@.valid() ==> final(self)@.valid(),
    {
        self.tell_of("status.font-saved-error", error);
    }

    /// The user chose the theme in the user interface.
    pub fn theme_changed(&mut self) -> (r: Effect)
        ensures
            final(self)@ == (App {
                local: store::Local {
                    theme: if old(self)@.ui.dark_mode {
                        "dark"@
                    } else {
                        "light"@
                    },
                    ..old(self)@.local
                },
                ..old(self)@
            }),
            r@ == (Todo { save: true, job: None }),
            old(self)@.valid() ==> final(self)@.valid(),
    {
        self.local.theme = if self.ui.dark_mode {
            "dark".to_owned()
        } else {
            "light".to_owned()
        };
        Effect { save: true, task: None }
    }

    /// The user switches to the other language.
    pub fn toggle_lang(&mut self) -> (r: Effect)
        requires
            old(self)@.ui.version < i32::MAX,
        ensures
            final(self)@ == old(self)@.toggles_lang(),
            r@ == (Todo { save: true, job: None }),
            old(self)@.valid() ==> final(self)@.valid(),
    {
        let ghost before = self@;
        let lang = if text::same_text(self.ui.locale.as_str(), "zh") {
            "en"
        } else {
            "zh"
        };
        i18n::set_lang(&mut self.strings, lang);
        self.ui.locale = lang.to_owned();
        self.ui.version = self.ui.version + 1;
        self.local.lang = lang.to_owned();
        assert(self@ =~= before.toggles_lang());
        Effect { save: true, task: None }
    }

    // ---- selection ----

    /// Grid columns of the active session (used for full-width selection bars).
    fn active_cols(&self) -> (r: i32)
        requires
            self@.valid(),
        ensures
            r == self@.cols(),
    {
        match self.active {
            Some(i) => {
                assert(self@.sessions[i as int] == self.sessions@[i as int]@);
                assert(model::tab_valid(self@.sessions[i as int]));
                self.sessions[i].buffer.cols() as i32
            },
            None => 80,
        }
    }

    fn mark(&mut self, sl: i32, sc: i32, el: i32, ec: i32)
        requires
            old(self)@.valid(),
        ensures
            final(self)@ == old(self)@.marks(sl as int, sc as int, el as int, ec as int),
            final(self)@.valid(),
    {
        let ghost before = self@;
        let cols = self.active_cols();
        self.ui.term.sel_start_line = sl;
        self.ui.term.sel_start_col = sc;
        self.ui.term.sel_end_line = el;
        self.ui.term.sel_end_col = ec;
        self.ui.term.recompute_selection(cols);
        assert(self@ =~= before.marks(sl as int, sc as int, el as int, ec as int));
    }

    /// The user begins to select at a column and line.
    pub fn selection_start(&mut self, col: i32, line: i32)
        requires
            old(self)@.valid(),
        ensures
            final(self)@ == old(self)@.marks(line as int, col as int, line as int, col as int),
            final(self)@.valid(),
    {
        self.mark(line, col, line, col);
    }

    /// The user goes on selecting up to a column and line.
    pub fn selection_move(&mut self, col: i32, line: i32)
        requires
            old(self)@.valid(),
        ensures
            final(self)@ == if old(self)@.ui.term.start_line < 0 {
                old(self)@
            } else {
                old(self)@.marks(
                    old(self)@.ui.term.start_line,
                    old(self)@.ui.term.start_col,
                    line as int,
                    col as int,
                )
            },
            final(self)@.valid(),
    {
        if self.ui.term.sel_start_line < 0 {
            return;
        }
        let (sl, sc) = (self.ui.term.sel_start_line, self.ui.term.sel_start_col);
        self.mark(sl, sc, line, col);
    }

    /// The user selects everything.
    pub fn select_all(&mut self)
        requires
            old(self)@.valid(),
        ensures
            final(self)@ == old(self)@.marks(
                0,
                0,
                screen::most(old(self)@.ui.term.line_count, 1) - 1,
                old(self)@.cols(),
            ),
            final(self)@.valid(),
    {
        let cols = self.active_cols();
        let lines: i32 = if self.ui.term.line_count > 1 {
            self.ui.term.line_count
        } else {
            1
        };
        self.mark(0, 0, lines - 1, cols);
    }

    /// What was copied to the clipboard.
    pub fn copied(&mut self, copied: &str)
        ensures
            final(self)@ == old(self)@.says(
                "status.copied"@,
                seq![text::decimal(copied@.len())],
            ),
            old(self)@.valid() ==> final(self)@.valid(),
    {
        let n: usize = text::chars_of(copied).len();
        self.tell_of("status.copied", text::decimal_text(n as u64));
    }

    /// Nothing could be copied to the clipboard.
    pub fn copy_failed(&mut self, error: &str)
        ensures
            final(self)@ == old(self)@.says("status.error"@, seq!["copy failed: "@ + error@]),
            old(self)@.valid() ==> final(self)@.valid(),
    {
        self.tell_of("status.error", text::concat("copy failed: ", error));
    }
}

// ---------------------------------------------------------------------------
// The pump
// ---------------------------------------------------------------------------

/// How a session ended, as specifications see it.
pub open spec fn end_view(e: Option<Option<String>>) -> Option<Option<Seq<char>>> {
    match e {
        Some(m) => Some(types::opt_text(m)),
        None => None,
    }
}

/// How sessions ended, as specifications see it.
pub open spec fn end_views(v: Seq<Option<Option<String>>>) -> Seq<Option<Option<Seq<char>>>> {
    v.map_values(|e: Option<Option<String>>| end_view(e))
}

proof fn lemma_told_all_keeps_screen(t: Tab, events: Seq<ssh::Report>)
    ensures
        model::told_all(t, events).screen == t.screen,
    decreases events.len(),
{
    if events.len() > 0 {
        lemma_told_all_keeps_screen(t, events.drop_last());
    }
}

proof fn lemma_fed_valid(t: Tab, a: Arrived)
    requires
        model::tab_valid(t),
    ensures
        model::tab_valid(model::fed(t, a)),
{
    lemma_told_all_keeps_screen(model::with_output(t, a.output), a.events);
    screen::law_feed_keeps_the_screen_sound(t.screen, a.output);
    screen::law_feed_keeps_rows_one_line(t.screen, a.output);
}

fn feed_one(s: &mut Session, input: &SessionInput) -> (r: Option<Option<String>>)
    requires
        model::tab_valid(old(s)@),
    ensures
        final(s)@ == model::fed(old(s)@, input@),
        end_view(r) == model::end_of(
            model::with_output(old(s)@, input@.output),
            input@.events,
        ),
{
    if input.output.len() > 0 {
        s.buffer.feed(input.output.as_slice());
        s.dirty = true;
    }
    let ghost start = s@;
    let ghost all = input@.events;
    let mut end: Option<Option<String>> = None;
    let mut j: usize = 0;
    proof {
        assert(start =~= model::with_output(old(s)@, input@.output));
        assert(all.take(0) =~= Seq::empty());
    }
    while j < input.events.len()
        invariant
            j <= input.events@.len(),
            all == ssh::event_views(input.events@),
            s@ == model::told_all(start, all.take(j as int)),
            end_view(end) == model::end_of(start, all.take(j as int)),
        decreases input.events@.len() - j,
    {
        let ghost before = s@;
        proof {
            assert(all.take(j + 1).drop_last() =~= all.take(j as int));
            assert(all.take(j + 1).last() == input.events@[j as int]@);
        }
        match &input.events[j] {
            SessionEvent::Connecting => {},
            SessionEvent::Connected => {
                s.connected = true;
            },
            SessionEvent::Error(m) => {
                s.ended_msg = Some(m.clone());
            },
            SessionEvent::Ended => {
                if end.is_none() {
                    end = Some(types::clone_opt(&s.ended_msg));
                }
            },
        }
        proof {
            assert(s@ =~= model::told_of(before, all[j as int]));
        }
        j += 1;
    }
    assert(all.take(all.len() as int) =~= all);
    end
}

fn has_connected(input: &SessionInput) -> (r: bool)
    ensures
        r == input@.events.contains(ssh::Report::Connected),
{
    let ghost all = input@.events;
    let mut j: usize = 0;
    while j < input.events.len()
        invariant
            j <= input.events@.len(),
            all == ssh::event_views(input.events@),
            forall|k: int| 0 <= k < j ==> !((#[trigger] all[k]) is Connected),
        decreases input.events@.len() - j,
    {
        assert(all[j as int] == input.events@[j as int]@);
        if let SessionEvent::Connected = &input.events[j] {
            assert(all.contains(ssh::Report::Connected));
            return true;
        }
        j += 1;
    }
    false
}

proof fn lemma_first_ended(ends: Seq<Option<Option<Seq<char>>>>)
    ensures
        match model::first_ended(ends) {
            Some(i) => {
                &&& 0 <= i < ends.len()
                &&& ends[i] is Some
                &&& forall|j: int| 0 <= j < i ==> (#[trigger] ends[j]) is None
            },
            None => forall|j: int| 0 <= j < ends.len() ==> (#[trigger] ends[j]) is None,
        },
    decreases ends.len(),
{
    if ends.len() > 0 {
        let front = ends.drop_last();
        lemma_first_ended(front);
        assert forall|j: int| 0 <= j < front.len() implies front[j] == ends[j] by {}
    }
}

proof fn lemma_first_ended_at(ends: Seq<Option<Option<Seq<char>>>>, i: int)
    requires
        0 <= i < ends.len(),
        ends[i] is Some,
        forall|j: int| 0 <= j < i ==> (#[trigger] ends[j]) is None,
    ensures
        model::first_ended(ends) == Some(i),
{
    lemma_first_ended(ends);
    match model::first_ended(ends) {
        Some(k) => {
            if k < i {
                assert(ends[k] is None);
            } else if k > i {
                assert(ends[i] is None);
            }
        },
        None => {
            assert(ends[i] is None);
        },
    }
}

proof fn lemma_kept_valid(sessions: Seq<Tab>, ends: Seq<Option<Option<Seq<char>>>>)
    requires
        sessions.len() == ends.len(),
        forall|i: int| 0 <= i < sessions.len() ==> model::tab_valid(#[trigger] sessions[i]),
    ensures
        model::kept(sessions, ends).len() == sessions.len() - model::count_ended(ends),
        0 <= model::count_ended(ends) <= ends.len(),
        forall|i: int|
            0 <= i < model::kept(sessions, ends).len() ==> model::tab_valid(
                #[trigger] model::kept(sessions, ends)[i],
            ),
    decreases sessions.len(),
{
    if sessions.len() > 0 {
        let front = sessions.drop_last();
        assert forall|i: int| 0 <= i < front.len() implies model::tab_valid(
            #[trigger] front[i],
        ) by {
            assert(model::tab_valid(sessions[i]));
        }
        lemma_kept_valid(front, ends.drop_last());
        assert(model::tab_valid(sessions[sessions.len() - 1]));
    }
}

/// The numbers in a list of indices.
pub open spec fn ints(v: Seq<usize>) -> Seq<int> {
    v.map_values(|i: usize| i as int)
}

impl AppController {
    fn feed_sessions(&mut self, inputs: &[SessionInput]) -> (r: Vec<Option<Option<String>>>)
        requires
            old(self)@.valid(),
            inputs@.len() == old(self)@.sessions.len(),
        ensures
            final(self)@ == old(self)@.feeds(arrived_views(inputs@)),
            final(self)@.valid(),
            end_views(r@) == model::ends_of(
                old(self)@.fed_output(arrived_views(inputs@)),
                arrived_views(inputs@),
            ),
    {
        let ghost before = self@;
        let ghost arrived = arrived_views(inputs@);
        let ghost outputs = before.fed_output(arrived);
        let mut ends: Vec<Option<Option<String>>> = Vec::new();
        let mut any_connected = false;
        let mut i: usize = 0;
        while i < self.sessions.len()
            invariant
                i <= self.sessions@.len() == before.sessions.len(),
                inputs@.len() == before.sessions.len(),
                before.valid(),
                arrived == arrived_views(inputs@),
                outputs == before.fed_output(arrived),
                self@ == (App { sessions: self@.sessions, ..before }),
                forall|k: int|
                    0 <= k < i ==> (#[trigger] self@.sessions[k]) == model::fed(
                        before.sessions[k],
                        arrived[k],
                    ),
                forall|k: int|
                    i <= k < before.sessions.len() ==> (#[trigger] self@.sessions[k])
                        == before.sessions[k],
                ends@.len() == i,
                forall|k: int|
                    0 <= k < i ==> end_view(#[trigger] ends@[k]) == model::end_of(
                        outputs[k],
                        arrived[k].events,
                    ),
                any_connected == exists|k: int|
                    0 <= k < i && (#[trigger] arrived[k]).events.contains(
                        ssh::Report::Connected,
                    ),
            decreases before.sessions.len() - i,
        {
            let ghost step = self@;
            assert(step.sessions[i as int] == self.sessions@[i as int]@);
            assert(step.sessions[i as int] == before.sessions[i as int]);
            assert(model::tab_valid(before.sessions[i as int]));
            assert(arrived[i as int] == inputs@[i as int]@);
            if has_connected(&inputs[i]) {
                any_connected = true;
            }
            let end = feed_one(&mut self.sessions[i], &inputs[i]);
            ends.push(end);
            proof {
                let t = model::fed(before.sessions[i as int], arrived[i as int]);
                assert(self@.sessions =~= step.sessions.update(i as int, t));
            }
            i += 1;
        }
        if any_connected {
            self.tabs_dirty = true;
        }
        proof {
            assert(self@.sessions =~= before.feeds(arrived).sessions);
            assert(self@ =~= before.feeds(arrived));
            assert(end_views(ends@) =~= model::ends_of(outputs, arrived));
            assert forall|k: int| 0 <= k < self@.sessions.len() implies model::tab_valid(
                #[trigger] self@.sessions[k],
            ) by {
                assert(model::tab_valid(before.sessions[k]));
                lemma_fed_valid(before.sessions[k], arrived[k]);
            }
        }
        ends
    }

    /// Drops the sessions that ended and keeps the others in their order. Gives how many of
    /// those before the shown one ended.
    fn drop_ended(&mut self, ends: &[Option<Option<String>>]) -> (removed: usize)
        requires
            ends@.len() == old(self)@.sessions.len(),
            old(self)@.active matches Some(a) ==> 0 <= a < ends@.len(),
        ensures
            final(self)@ == (App {
                sessions: model::kept(old(self)@.sessions, end_views(ends@)),
                ..old(self)@
            }),
            removed == match old(self)@.active {
                Some(a) => model::count_ended(end_views(ends@).take(a)),
                None => 0,
            },
            removed <= ends@.len(),
    {
        let ghost before = self@;
        let ghost marks = end_views(ends@);
        let n: usize = ends.len();
        let prev = self.active;
        // Walk over the sessions; `at` is where the next one stands.
        let mut removed: usize = 0;
        let mut at: usize = 0;
        let mut i: usize = 0;
        proof {
            assert(before.sessions.take(0) =~= Seq::empty());
            assert(marks.take(0) =~= Seq::empty());
            assert(Seq::<Tab>::empty() + before.sessions.skip(0) =~= self@.sessions);
        }
        while i < n
            invariant
                i <= n == ends@.len(),
                n == before.sessions.len(),
                marks == end_views(ends@),
                at == model::kept(before.sessions.take(i as int), marks.take(i as int)).len(),
                at <= i,
                self@ == (App {
                    sessions: model::kept(before.sessions.take(i as int), marks.take(i as int))
                        + before.sessions.skip(i as int),
                    ..before
                }),
                prev == self.active,
                removed <= i,
                removed == ended_before(marks, prev, i as int),
            decreases n - i,
        {
            let ghost step = self@;
            let ghost front = model::kept(before.sessions.take(i as int), marks.take(i as int));
            proof {
                assert(marks[i as int] == end_view(ends@[i as int]));
                assert(step.sessions[at as int] == before.sessions[i as int]);
                lemma_kept_one_more(before.sessions, marks, i as int);
                lemma_ended_one_more(marks, prev, i as int);
            }
            if ends[i].is_some() {
                if let Some(a) = prev {
                    if i < a {
                        removed += 1;
                    }
                }
                assert(step.sessions.len() == self.sessions@.len());
                self.sessions.remove(at);
                proof {
                    assert(self@.sessions =~= step.sessions.remove(at as int));
                    assert(self@.sessions =~= front + before.sessions.skip(i + 1));
                }
            } else {
                at += 1;
                assert(self@.sessions =~= front.push(before.sessions[i as int])
                    + before.sessions.skip(i + 1));
            }
            i += 1;
        }
        proof {
            assert(before.sessions.take(n as int) =~= before.sessions);
            assert(marks.take(n as int) =~= marks);
            assert(before.sessions.skip(n as int) =~= Seq::empty());
            assert(self@.sessions =~= model::kept(before.sessions, marks));
        }
        removed
    }

    /// Remove ended sessions, adjusting the active index.
    fn remove_ended(&mut self, ends: &[Option<Option<String>>])
        requires
            old(self)@.valid(),
            ends@.len() == old(self)@.sessions.len(),
        ensures
            final(self)@ == old(self)@.removes(end_views(ends@)),
            final(self)@.valid(),
    {
        let ghost before = self@;
        let ghost marks = end_views(ends@);
        let first = first_ended_at(ends);
        if first == ends.len() {
            proof {
                lemma_first_ended(marks);
            }
            return;
        }
        proof {
            lemma_first_ended_at(marks, first as int);
            lemma_kept_valid(before.sessions, marks);
            assert(before.sessions[first as int] == self.sessions@[first as int]@);
        }
        let label = self.sessions[first].label.clone();
        let prev = self.active;
        let removed = self.drop_ended(ends);
        self.active = active_after(prev, removed, self.sessions.len());
        self.tabs_dirty = true;
        let ghost t = self@;
        proof {
            let left = model::kept(before.sessions, marks);
            let gone = match before.active {
                Some(a) => model::count_ended(marks.take(a)),
                None => 0,
            };
            assert(t =~= App {
                sessions: left,
                active: model::active_after(before.active, gone, left.len() as int),
                tabs_dirty: true,
                ..before
            });
        }
        match prev {
            Some(a) if ends[a].is_some() => {
                assert(marks[a as int] == end_view(ends@[a as int]));
                match &ends[a] {
                    Some(Some(m)) => {
                        self.ui.status = m.clone();
                        assert(self@ =~= App { ui: Shown { status: m@, ..t.ui }, ..t });
                    },
                    _ => self.tell("status.session-ended"),
                }
            },
            _ => {
                proof {
                    if let Some(a) = prev {
                        assert(marks[a as int] == end_view(ends@[a as int]));
                    }
                }
                self.tell_of("status.session-ended-label", label);
            },
        }
        if self.sessions.len() == 0 {
            self.show_text(String::new());
        }
    }

    /// Keep every connected session's PTY size in sync with the terminal. Gives the
    /// sessions whose remote shell is to be told.
    fn size_sessions(&mut self, size: (u32, u32)) -> (r: Vec<usize>)
        requires
            old(self)@.valid(),
            size.0 <= MAX_COLS,
            size.1 <= MAX_LINES,
        ensures
            final(self)@ == old(self)@.sizes(size),
            final(self)@.valid(),
            ints(r@) == model::to_resize(
                old(self)@.sessions,
                size,
                old(self)@.sessions.len() as int,
            ),
    {
        let ghost before = self@;
        let mut out: Vec<usize> = Vec::new();
        let mut i: usize = 0;
        assert(ints(out@) =~= Seq::empty());
        while i < self.sessions.len()
            invariant
                i <= self.sessions@.len() == before.sessions.len(),
                before.valid(),
                size.0 <= MAX_COLS,
                size.1 <= MAX_LINES,
                self@ == (App { sessions: self@.sessions, ..before }),
                forall|k: int|
                    0 <= k < i ==> (#[trigger] self@.sessions[k]) == model::sized(
                        before.sessions[k],
                        size,
                    ),
                forall|k: int|
                    0 <= k < i ==> model::tab_valid(#[trigger] self@.sessions[k]),
                forall|k: int|
                    i <= k < before.sessions.len() ==> (#[trigger] self@.sessions[k])
                        == before.sessions[k],
                ints(out@) == model::to_resize(before.sessions, size, i as int),
            decreases before.sessions.len() - i,
        {
            let ghost step = self@;
            let ghost tab = before.sessions[i as int];
            assert(step.sessions[i as int] == self.sessions@[i as int]@);
            assert(step.sessions[i as int] == tab);
            assert(model::tab_valid(tab));
            let changed = match self.sessions[i].pty_size {
                Some((c, l)) => c != size.0 || l != size.1,
                None => true,
            };
            let ghost told = out@;
            if self.sessions[i].connected && changed {
                let s = &mut self.sessions[i];
                s.buffer.resize(size.0 as usize, size.1 as usize);
                s.pty_size = Some(size);
                s.dirty = true;
                out.push(i);
                proof {
                    screen::law_resize_keeps_rows_one_line(
                        tab.screen,
                        size.0 as int,
                        size.1 as int,
                    );
                    assert(ints(out@) =~= ints(told).push(i as int));
                    assert(self@.sessions =~= step.sessions.update(
                        i as int,
                        model::sized(tab, size),
                    ));
                }
            } else {
                assert(model::sized(tab, size) == tab);
                assert(self@.sessions =~= step.sessions.update(
                    i as int,
                    model::sized(tab, size),
                ));
            }
            i += 1;
        }
        proof {
            assert(self@.sessions =~= before.sessions.map_values(
                |t: Tab| model::sized(t, size),
            ));
            assert(self@ =~= before.sizes(size));
        }
        out
    }

    /// Re-render the active session's buffer when it changed.
    fn render_active(&mut self)
        requires
            old(self)@.valid(),
        ensures
            final(self)@ == old(self)@.renders(),
            final(self)@.valid(),
    {
        let ghost before = self@;
        if let Some(i) = self.active {
            assert(before.sessions[i as int] == self.sessions@[i as int]@);
            assert(model::tab_valid(before.sessions[i as int]));
            if self.sessions[i].dirty {
                let s = &mut self.sessions[i];
                s.dirty = false;
                let shown = s.buffer.render();
                proof {
                    let tab = Tab { dirty: false, ..before.sessions[i as int] };
                    screen::law_rendering_is_bounded(tab.screen);
                    assert(self@.sessions =~= before.sessions.update(i as int, tab));
                    assert(self@ =~= App {
                        sessions: before.sessions.update(i as int, tab),
                        ..before
                    });
                    assert forall|k: int| 0 <= k < self@.sessions.len() implies model::tab_valid(
                        #[trigger] self@.sessions[k],
                    ) by {
                        assert(model::tab_valid(before.sessions[k]));
                    }
                }
                self.show_text(shown);
            }
        }
    }

    /// Rebuild the tab bar + active-session chrome when the set/active changed.
    fn rebuild_tabs(&mut self)
        requires
            old(self)@.valid(),
        ensures
            final(self)@ == old(self)@.rebuilds(),
            final(self)@.valid(),
    {
        let ghost before = self@;
        if !self.tabs_dirty {
            return;
        }
        self.tabs_dirty = false;
        assert(self@ =~= App { tabs_dirty: false, ..before });
        self.refresh_tabs();
        match self.active {
            Some(i) => {
                assert(before.sessions[i as int] == self.sessions@[i as int]@);
                assert(model::tab_valid(before.sessions[i as int]));
                let label = self.sessions[i].label.clone();
                let connected = self.sessions[i].connected;
                let shown = self.sessions[i].buffer.render();
                proof {
                    screen::law_rendering_is_bounded(before.sessions[i as int].screen);
                }
                self.set_header(label, connected);
                self.show_text(shown);
            },
            None => {
                self.set_header("not connected".to_owned(), false);
                self.show_text(String::new());
            },
        }
    }

    /// Periodic pump: feed every session's output into its terminal buffer, drop ended
    /// sessions, and re-render the active one. `inputs` holds what arrived for each of the
    /// sessions; `cols` and `rows` are the size of the terminal pane. Gives the sessions,
    /// by their places afterwards, whose remote shell is to be told of that size.
    pub fn pump(&mut self, inputs: &[SessionInput], cols: u32, rows: u32) -> (r: Vec<usize>)
        requires
            old(self)@.valid(),
            inputs@.len() == old(self)@.sessions.len(),
        ensures
            final(self)@ == old(self)@.pumps(
                arrived_views(inputs@),
                model::pty_size_of(cols, rows),
            ),
            final(self)@.valid(),
            ({
                let left = old(self)@.drained(arrived_views(inputs@)).sessions;
                ints(r@) == model::to_resize(
                    left,
                    model::pty_size_of(cols, rows),
                    left.len() as int,
                )
            }),
    {
        let ends = self.feed_sessions(inputs);
        proof {
            assert(end_views(ends@).len() == ends@.len());
        }
        self.remove_ended(ends.as_slice());
        let size = pty_size(cols, rows);
        let resized = self.size_sessions(size);
        self.render_active();
        self.rebuild_tabs();
        resized
    }
}

/// The first session that ended, or how many there are.
fn first_ended_at(ends: &[Option<Option<String>>]) -> (first: usize)
    ensures
        first <= ends@.len(),
        forall|j: int| 0 <= j < first ==> (#[trigger] end_views(ends@)[j]) is None,
        first < ends@.len() ==> end_views(ends@)[first as int] is Some,
{
    let ghost marks = end_views(ends@);
    let mut first: usize = 0;
    while first < ends.len() && ends[first].is_none()
        invariant
            first <= ends@.len(),
            marks == end_views(ends@),
            forall|j: int| 0 <= j < first ==> (#[trigger] marks[j]) is None,
        decreases ends@.len() - first,
    {
        assert(marks[first as int] == end_view(ends@[first as int]));
        first += 1;
    }
    assert(first < ends@.len() ==> marks[first as int] == end_view(ends@[first as int]));
    first
}

/// How many of the first `i` sessions ended that stand before the shown one.
spec fn ended_before(marks: Seq<Option<Option<Seq<char>>>>, shown: Option<usize>, i: int) -> int {
    match shown {
        Some(a) => model::count_ended(marks.take(screen::least(a as int, i))),
        None => 0,
    }
}

proof fn lemma_ended_one_more(marks: Seq<Option<Option<Seq<char>>>>, shown: Option<usize>, i: int)
    requires
        0 <= i < marks.len(),
    ensures
        ended_before(marks, shown, i + 1) == ended_before(marks, shown, i) + if marks[i] is Some
            && shown is Some && i < shown->0 {
            1int
        } else {
            0
        },
{
    if let Some(a) = shown {
        if i < a {
            assert(marks.take(i + 1).drop_last() =~= marks.take(i));
            assert(marks.take(i + 1).last() == marks[i]);
        }
    }
}

proof fn lemma_kept_one_more(sessions: Seq<Tab>, marks: Seq<Option<Option<Seq<char>>>>, i: int)
    requires
        0 <= i < marks.len(),
        sessions.len() == marks.len(),
    ensures
        model::kept(sessions.take(i + 1), marks.take(i + 1)) == if marks[i] is Some {
            model::kept(sessions.take(i), marks.take(i))
        } else {
            model::kept(sessions.take(i), marks.take(i)).push(sessions[i])
        },
{
    assert(sessions.take(i + 1).drop_last() =~= sessions.take(i));
    assert(marks.take(i + 1).drop_last() =~= marks.take(i));
    assert(marks.take(i + 1).last() == marks[i]);
    assert(sessions.take(i + 1).last() == sessions[i]);
}

// ---------------------------------------------------------------------------
// Laws
// ---------------------------------------------------------------------------

proof fn lemma_padded_unique(m: nat, n: nat)
    requires
        text::hexadecimal(m).len() < text::hexadecimal(n).len() <= 16,
    ensures
        padded(text::hexadecimal(m)) != padded(text::hexadecimal(n)),
{
    let (a, b) = (text::hexadecimal(m), text::hexadecimal(n));
    text::lemma_hexadecimal_digits(m);
    text::lemma_hexadecimal_digits(n);
    let k = 16 - b.len();
    assert(padded(b)[k] == b[0]);
    assert(padded(a)[k] == '0');
    if n > 0 {
        text::lemma_hexadecimal_first(n);
    } else {
        assert(b.len() == 1);
    }
}

spec fn pow16(k: nat) -> nat
    decreases k,
{
    if k == 0 {
        1
    } else {
        16 * pow16((k - 1) as nat)
    }
}

proof fn lemma_hexadecimal_len(n: nat, k: nat)
    requires
        n < pow16(k),
        k > 0,
    ensures
        text::hexadecimal(n).len() <= k,
    decreases k,
{
    if n >= 16 {
        assert(n / 16 < pow16((k - 1) as nat));
        if k == 1 {
            assert(pow16(0) == 1);
        }
        lemma_hexadecimal_len(n / 16, (k - 1) as nat);
    }
}

/// An id is the time in hexadecimal, a hyphen, and the random number in sixteen hexadecimal
/// digits.
pub proof fn law_ids(now: i64, r: u64)
    ensures
        id_text(now, r).len() == text::hexadecimal((now as u64) as nat).len() + 17,
        id_text(now, r).take(text::hexadecimal((now as u64) as nat).len() as int)
            == text::hexadecimal((now as u64) as nat),
        id_text(now, r)[text::hexadecimal((now as u64) as nat).len() as int] == '-',
        id_text(now, r).skip(id_text(now, r).len() - text::hexadecimal(r as nat).len())
            == text::hexadecimal(r as nat),
{
    reveal_strlit("-");
    reveal_with_fuel(pow16, 17);
    lemma_hexadecimal_len(r as nat, 16);
    let (a, b) = (text::hexadecimal((now as u64) as nat), text::hexadecimal(r as nat));
    let s = id_text(now, r);
    assert(padded(b).len() == 16);
    assert(s.take(a.len() as int) =~= a);
    assert(s.skip(s.len() - b.len()) =~= b);
}

/// Ids of another time, or with another random number, are different.
pub proof fn law_ids_are_unique(t1: i64, r1: u64, t2: i64, r2: u64)
    requires
        id_text(t1, r1) == id_text(t2, r2),
    ensures
        t1 as u64 == t2 as u64,
        r1 == r2,
{
    reveal_strlit("-");
    reveal_with_fuel(pow16, 17);
    lemma_hexadecimal_len(r1 as nat, 16);
    lemma_hexadecimal_len(r2 as nat, 16);
    let (a1, a2) = (text::hexadecimal((t1 as u64) as nat), text::hexadecimal((t2 as u64) as nat));
    let (b1, b2) = (text::hexadecimal(r1 as nat), text::hexadecimal(r2 as nat));
    law_ids(t1, r1);
    law_ids(t2, r2);
    assert(a1.len() == a2.len());
    text::law_hexadecimal_is_unique((t1 as u64) as nat, (t2 as u64) as nat);
    let n = a1.len() as int + 1;
    assert(id_text(t1, r1).skip(n) =~= padded(b1));
    assert(id_text(t2, r2).skip(n) =~= padded(b2));
    if b1.len() < b2.len() {
        lemma_padded_unique(r1 as nat, r2 as nat);
    } else if b2.len() < b1.len() {
        lemma_padded_unique(r2 as nat, r1 as nat);
    }
    text::law_hexadecimal_is_unique(r1 as nat, r2 as nat);
}

} // verus!
