//! The mathematical model of the client: what its state is, and what each thing that
//! happens does to it.

use vstd::prelude::*;

use crate::i18n;
use crate::i18n::Catalogue;
use crate::screen;
use crate::screen::Screen;
use crate::ssh::{Plan, Report};
use crate::store;
use crate::store::{Local, Secret};
use crate::sync;
use crate::sync::Account;
use crate::text;
use crate::types;
use crate::types::{AuthMethod, Host};
use crate::ui::{Form, Pane, Row, TabLine};

verus! {

/// The most columns a terminal gets.
pub const MAX_COLS: u32 = 400;

/// The most rows a terminal gets.
pub const MAX_LINES: u32 = 120;

/// What the user interface shows.
#[verifier::ext_equal]
pub struct Shown {
    pub screen: int,
    pub server_url: Seq<char>,
    pub username: Seq<char>,
    pub password: Seq<char>,
    pub status: Seq<char>,
    pub busy: bool,
    pub search: Seq<char>,
    pub form: Form,
    pub term: Pane,
    pub host_list: Seq<Row>,
    pub tabs: Seq<TabLine>,
    pub active_tab: Option<int>,
    pub terminal_font: Seq<char>,
    pub locale: Seq<char>,
    pub version: int,
    pub dark_mode: bool,
}

/// A session, as specifications see it.
#[verifier::ext_equal]
pub struct Tab {
    pub id: Seq<char>,
    pub label: Seq<char>,
    pub screen: Screen,
    pub connected: bool,
    pub ended: Option<Seq<char>>,
    pub dirty: bool,
    pub size: Option<(u32, u32)>,
}

/// What arrived for a session: bytes of output, and what became of the session.
pub struct Arrived {
    pub output: Seq<u8>,
    pub events: Seq<Report>,
}

/// What came of work done in the background.
pub enum News {
    SignedIn(Account, Seq<char>),
    SignInFailed(Seq<char>),
    Synced(Seq<Host>, Seq<Secret>),
    SyncFailed(Seq<char>),
    Deleted,
    DeleteFailed(Seq<char>),
}

/// Work to be done in the background.
pub enum Job {
    Register { account: Account, username: Seq<char>, password: Seq<char> },
    Login { account: Account, username: Seq<char>, password: Seq<char> },
    Sync { account: Account, hosts: Seq<Host>, vault: Seq<Secret> },
    Delete { account: Account, id: Seq<char>, vault_id: Option<Seq<char>> },
    Connect { session: Seq<char>, plan: Plan },
}

/// What is to be done outside: whether the local state is to be saved, and work in the
/// background.
pub struct Todo {
    pub save: bool,
    pub job: Option<Job>,
}

/// Nothing is to be done outside.
pub open spec fn nothing() -> Todo {
    Todo { save: false, job: None }
}

/// The state of the client.
#[verifier::ext_equal]
pub struct App {
    pub ui: Shown,
    pub local: Local,
    pub sync: Option<Account>,
    pub sessions: Seq<Tab>,
    pub active: Option<int>,
    pub shown_ids: Seq<Seq<char>>,
    pub tabs_dirty: bool,
    pub strings: Catalogue,
}

// ---------------------------------------------------------------------------
// Hosts in the list
// ---------------------------------------------------------------------------

/// The address of a host with its user.
pub open spec fn detail_of(h: Host) -> Seq<char> {
    h.username + "@"@ + h.host + ":"@ + text::decimal(h.port as nat)
}

/// A host in the list.
pub open spec fn row_of(h: Host) -> Row {
    Row {
        id: h.id,
        name: h.name,
        detail: detail_of(h),
        auth: types::auth_name(h.auth_method),
    }
}

/// Whether one of three texts holds a query; an empty query is held by every text.
pub open spec fn query_matches(
    q: Seq<char>,
    name: Seq<char>,
    host: Seq<char>,
    username: Seq<char>,
) -> bool {
    ||| q.len() == 0
    ||| text::contains_text(name, q)
    ||| text::contains_text(host, q)
    ||| text::contains_text(username, q)
}

/// Whether a host is found by a lower-case query, in its name, address or user, whatever
/// their case.
pub open spec fn found_by(q: Seq<char>, h: Host) -> bool {
    query_matches(q, text::lowercase(h.name), text::lowercase(h.host), text::lowercase(h.username))
}

/// The hosts that a query finds.
pub open spec fn hosts_found(q: Seq<char>, hosts: Seq<Host>) -> Seq<Host> {
    hosts.filter(|h: Host| found_by(q, h))
}

/// The name under which a session runs.
pub open spec fn label_of(h: Host) -> Seq<char> {
    h.name + " · "@ + detail_of(h)
}

// ---------------------------------------------------------------------------
// Hosts from the form
// ---------------------------------------------------------------------------

/// The port in the form; 22 where there is none.
pub open spec fn port_of(s: Seq<char>) -> u16 {
    match text::parsed_int(s, 0, u16::MAX as int) {
        Some(n) => n as u16,
        None => 22,
    }
}

/// Whether the form lacks what a host must have.
pub open spec fn incomplete(f: Form) -> bool {
    f.name.len() == 0 || f.host.len() == 0 || f.user.len() == 0
}

/// The vault entry that the host in the form used so far.
pub open spec fn linked_secret(l: Local, f: Form) -> Option<Seq<char>> {
    if f.editing_id.len() == 0 {
        None
    } else {
        match l.host(f.editing_id) {
            Some(h) => h.key_password_id,
            None => None,
        }
    }
}

/// The id of the vault entry for the passphrase in the form.
pub open spec fn secret_id(l: Local, f: Form, vault_id: Seq<char>) -> Seq<char> {
    match linked_secret(l, f) {
        Some(id) => id,
        None => vault_id,
    }
}

/// The host in the form. An edited host keeps its id.
pub open spec fn host_of(
    l: Local,
    f: Form,
    now: i64,
    host_id: Seq<char>,
    vault_id: Seq<char>,
) -> Host {
    let auth = types::auth_named(f.auth);
    Host {
        id: if f.editing_id.len() == 0 {
            host_id
        } else {
            f.editing_id
        },
        name: f.name,
        host: f.host,
        port: port_of(f.port_text),
        username: f.user,
        auth_method: auth,
        password: if auth == AuthMethod::Password && f.password.len() > 0 {
            Some(f.password)
        } else {
            None
        },
        key_path: if auth == AuthMethod::Key {
            Some(f.keypath)
        } else {
            None
        },
        key_password_id: if auth == AuthMethod::Password {
            None
        } else if f.passphrase.len() > 0 {
            Some(secret_id(l, f, vault_id))
        } else {
            linked_secret(l, f)
        },
        group: Seq::empty(),
        updated_at: now,
    }
}

/// The local state with the host in the form, and its passphrase where it has one.
pub open spec fn entered(
    l: Local,
    f: Form,
    now: i64,
    host_id: Seq<char>,
    vault_id: Seq<char>,
) -> Local {
    let host = host_of(l, f, now, host_id, vault_id);
    Local {
        hosts: store::hosts_with(l.hosts, host),
        vault: if types::auth_named(f.auth) == AuthMethod::Key && f.passphrase.len() > 0 {
            store::vault_with(
                l.vault,
                Secret {
                    id: secret_id(l, f, vault_id),
                    label: f.name,
                    passphrase: f.passphrase,
                    updated_at: now,
                },
            )
        } else {
            l.vault
        },
        ..l
    }
}

/// The form for editing a host.
pub open spec fn form_of(l: Local, h: Host) -> Form {
    Form {
        editing_id: h.id,
        name: h.name,
        host: h.host,
        port_text: text::decimal(h.port as nat),
        user: h.username,
        auth: types::auth_name(h.auth_method),
        password: match h.password {
            Some(s) => s,
            None => Seq::empty(),
        },
        keypath: match h.key_path {
            Some(s) => s,
            None => Seq::empty(),
        },
        passphrase: match l.passphrase(h) {
            Some(s) => s,
            None => Seq::empty(),
        },
    }
}

// ---------------------------------------------------------------------------
// Sessions
// ---------------------------------------------------------------------------

/// A size that a terminal can have.
pub open spec fn pty_size_of(cols: u32, rows: u32) -> (u32, u32) {
    (
        if cols < 20 {
            20
        } else if cols > MAX_COLS {
            MAX_COLS
        } else {
            cols
        },
        if rows < 8 {
            8
        } else if rows > MAX_LINES {
            MAX_LINES
        } else {
            rows
        },
    )
}

/// Which session is shown after `removed` sessions ahead of it were removed and `len`
/// are left; the last one where it was removed itself.
pub open spec fn active_after(prev: Option<int>, removed: int, len: int) -> Option<int> {
    if len == 0 {
        None
    } else {
        match prev {
            None => Some(len - 1),
            Some(a) => {
                let n = screen::most(a - removed, 0);
                if n < len {
                    Some(n)
                } else {
                    Some(len - 1)
                }
            },
        }
    }
}

/// A session after one thing became of it.
pub open spec fn told_of(t: Tab, e: Report) -> Tab {
    match e {
        Report::Connected => Tab { connected: true, ..t },
        Report::Error(m) => Tab { ended: Some(m), ..t },
        _ => t,
    }
}

/// A session after several things became of it.
pub open spec fn told_all(t: Tab, events: Seq<Report>) -> Tab
    decreases events.len(),
{
    if events.len() == 0 {
        t
    } else {
        told_of(told_all(t, events.drop_last()), events.last())
    }
}

/// The session with its output.
pub open spec fn with_output(t: Tab, output: Seq<u8>) -> Tab {
    if output.len() == 0 {
        t
    } else {
        Tab { screen: t.screen.feed(output), dirty: true, ..t }
    }
}

/// A session after what arrived for it.
pub open spec fn fed(t: Tab, a: Arrived) -> Tab {
    told_all(with_output(t, a.output), a.events)
}

/// Whether a session ended, and with which error.
pub open spec fn end_of(t: Tab, events: Seq<Report>) -> Option<Option<Seq<char>>>
    decreases events.len(),
{
    if events.len() == 0 {
        None
    } else {
        match end_of(t, events.drop_last()) {
            Some(m) => Some(m),
            None => if events.last() is Ended {
                Some(told_all(t, events.drop_last()).ended)
            } else {
                None
            },
        }
    }
}

/// Whether one of some sessions became connected.
pub open spec fn any_connected(arrived: Seq<Arrived>) -> bool {
    exists|i: int|
        0 <= i < arrived.len() && (#[trigger] arrived[i]).events.contains(Report::Connected)
}

/// How the sessions ended, each by its place.
pub open spec fn ends_of(sessions: Seq<Tab>, arrived: Seq<Arrived>) -> Seq<
    Option<Option<Seq<char>>>,
> {
    Seq::new(sessions.len(), |i: int| end_of(sessions[i], arrived[i].events))
}

/// The sessions that did not end.
pub open spec fn kept(sessions: Seq<Tab>, ends: Seq<Option<Option<Seq<char>>>>) -> Seq<Tab>
    decreases sessions.len(),
{
    if sessions.len() == 0 {
        Seq::empty()
    } else {
        let front = kept(sessions.drop_last(), ends.drop_last());
        if ends.last() is Some {
            front
        } else {
            front.push(sessions.last())
        }
    }
}

/// How many sessions ended.
pub open spec fn count_ended(ends: Seq<Option<Option<Seq<char>>>>) -> int
    decreases ends.len(),
{
    if ends.len() == 0 {
        0
    } else {
        count_ended(ends.drop_last()) + if ends.last() is Some {
            1int
        } else {
            0
        }
    }
}

/// The place of the first session that ended.
pub open spec fn first_ended(ends: Seq<Option<Option<Seq<char>>>>) -> Option<int>
    decreases ends.len(),
{
    if ends.len() == 0 {
        None
    } else {
        match first_ended(ends.drop_last()) {
            Some(i) => Some(i),
            None => if ends.last() is Some {
                Some(ends.len() - 1)
            } else {
                None
            },
        }
    }
}

/// A session whose terminal got a size.
pub open spec fn sized(t: Tab, size: (u32, u32)) -> Tab {
    if t.connected && t.size != Some(size) {
        Tab {
            screen: t.screen.resize(size.0 as int, size.1 as int),
            size: Some(size),
            dirty: true,
            ..t
        }
    } else {
        t
    }
}

/// The sessions whose terminals get another size, by their places among the first `n`.
pub open spec fn to_resize(sessions: Seq<Tab>, size: (u32, u32), n: int) -> Seq<int>
    decreases n,
{
    if n <= 0 {
        Seq::empty()
    } else {
        let front = to_resize(sessions, size, n - 1);
        if sessions[n - 1].connected && sessions[n - 1].size != Some(size) {
            front.push(n - 1)
        } else {
            front
        }
    }
}

/// A session in the tab bar.
pub open spec fn tab_line(t: Tab) -> TabLine {
    TabLine { id: t.id, label: t.label, connected: t.connected }
}

/// Whether a session keeps its terminal in order.
pub open spec fn tab_valid(t: Tab) -> bool {
    &&& t.screen.valid()
    &&& t.screen.clean()
    &&& t.screen.cols <= MAX_COLS
}

// ---------------------------------------------------------------------------
// What happens
// ---------------------------------------------------------------------------

impl App {
    /// What holds of every state: the shown session is one of those that run, and there
    /// is one whenever any runs; every terminal is in order.
    pub open spec fn valid(self) -> bool {
        &&& match self.active {
            Some(i) => 0 <= i < self.sessions.len(),
            None => self.sessions.len() == 0,
        }
        &&& forall|i: int| 0 <= i < self.sessions.len() ==> tab_valid(#[trigger] self.sessions[i])
        &&& self.ui.term.countable()
    }

    /// The status line tells something.
    pub open spec fn says(self, key: Seq<char>, args: Seq<Seq<char>>) -> App {
        App { ui: Shown { status: i18n::told(self.strings, key, args), ..self.ui }, ..self }
    }

    /// The terminal shows a text.
    pub open spec fn shows(self, s: Seq<char>) -> App {
        App { ui: Shown { term: self.ui.term.with_text(s), ..self.ui }, ..self }
    }

    /// The name and state of the session over the terminal.
    pub open spec fn heads(self, label: Seq<char>, connected: bool) -> App {
        App {
            ui: Shown {
                term: Pane { host_label: label, connected, ..self.ui.term },
                ..self.ui
            },
            ..self
        }
    }

    /// The list shows the hosts that the search finds.
    pub open spec fn lists(self) -> App {
        let found = hosts_found(text::lowercase(self.ui.search), self.local.hosts);
        App {
            ui: Shown { host_list: found.map_values(|h: Host| row_of(h)), ..self.ui },
            shown_ids: found.map_values(|h: Host| h.id),
            ..self
        }
    }

    /// The tab bar shows the sessions.
    pub open spec fn shows_tabs(self) -> App {
        App {
            ui: Shown {
                tabs: self.sessions.map_values(|t: Tab| tab_line(t)),
                active_tab: self.active,
                ..self.ui
            },
            ..self
        }
    }

    /// The user interface at the start, by the saved state.
    pub open spec fn start(ui: Shown, local: Local) -> App {
        let lang = if text::trimmed(local.lang).len() == 0 {
            "en"@
        } else {
            local.lang
        };
        App {
            ui: Shown {
                server_url: if local.server_url.len() == 0 {
                    ui.server_url
                } else {
                    local.server_url
                },
                username: if local.username.len() == 0 {
                    ui.username
                } else {
                    local.username
                },
                terminal_font: if text::trimmed(local.terminal_font).len() == 0 {
                    "Menlo"@
                } else {
                    local.terminal_font
                },
                locale: lang,
                version: 1,
                dark_mode: text::trimmed(local.theme) != "light"@,
                ..ui
            },
            local,
            sync: None,
            sessions: Seq::empty(),
            active: None,
            shown_ids: Seq::empty(),
            tabs_dirty: true,
            strings: i18n::catalogue(i18n::normal_lang(lang)),
        }.lists().shows_tabs()
    }

    /// The user wants to sign in, or to register. `parses` says whether the server URL is
    /// a URL at all.
    pub open spec fn signs_in(self, register: bool, parses: bool) -> (App, Todo) {
        let url = sync::normal_url(self.ui.server_url);
        if self.ui.username.len() == 0 || self.ui.password.len() == 0 {
            (self.says("status.enter-creds"@, Seq::empty()), nothing())
        } else {
            match sync::url_verdict(url, parses) {
                Some(f) => (self.says("status.invalid-url"@, seq![f.message()]), nothing()),
                None => {
                    let key = if register {
                        "status.registering"@
                    } else {
                        "status.signing-in"@
                    };
                    let account = Account::fresh(url);
                    let (username, password) = (self.ui.username, self.ui.password);
                    let t = self.says(key, Seq::empty());
                    (
                        App { ui: Shown { busy: true, ..t.ui }, ..t },
                        Todo {
                            save: false,
                            job: Some(
                                if register {
                                    Job::Register { account, username, password }
                                } else {
                                    Job::Login { account, username, password }
                                },
                            ),
                        },
                    )
                },
            }
        }
    }

    /// The user signs out: all sessions end.
    pub open spec fn signs_out(self) -> App {
        let t = App {
            ui: Shown { screen: 0, password: Seq::empty(), status: Seq::empty(), ..self.ui },
            local: Local { username: Seq::empty(), ..self.local },
            sync: None,
            sessions: Seq::empty(),
            active: None,
            tabs_dirty: true,
            ..self
        };
        t.heads("not connected"@, false).shows(Seq::empty()).shows_tabs()
    }

    /// Local and remote hosts are to be synchronised.
    pub open spec fn syncs(self) -> (App, Todo) {
        match self.sync {
            None => (self.says("status.not-signed-in"@, Seq::empty()), nothing()),
            Some(account) => {
                let t = self.says("status.syncing"@, Seq::empty());
                (
                    App { ui: Shown { busy: true, ..t.ui }, ..t },
                    Todo {
                        save: false,
                        job: Some(
                            Job::Sync {
                                account,
                                hosts: self.local.hosts,
                                vault: self.local.vault,
                            },
                        ),
                    },
                )
            },
        }
    }

    /// Background work is over.
    pub open spec fn rests(self) -> App {
        App { ui: Shown { busy: false, ..self.ui }, ..self }
    }

    /// Something came of work in the background.
    pub open spec fn hears(self, news: News) -> (App, Todo) {
        match news {
            News::SignedIn(account, username) => {
                let t = App {
                    ui: Shown { username, screen: 1, busy: false, ..self.ui },
                    local: Local { server_url: self.ui.server_url, username, ..self.local },
                    sync: Some(account),
                    ..self
                };
                // Hosts from other devices appear immediately.
                let (u, todo) = t.says("status.signed-in"@, Seq::empty()).lists().syncs();
                (u, Todo { save: true, ..todo })
            },
            News::SignInFailed(e) => (
                self.rests().says("status.login-failed"@, seq![e]),
                nothing(),
            ),
            News::Synced(hosts, vault) => (
                App { local: self.local.merged(hosts, vault), ..self }.rests().lists().says(
                    "status.sync-complete"@,
                    Seq::empty(),
                ),
                Todo { save: true, job: None },
            ),
            News::SyncFailed(e) => (self.rests().says("status.sync-failed"@, seq![e]), nothing()),
            News::Deleted => (
                self.rests().lists().says("status.deleted"@, Seq::empty()),
                nothing(),
            ),
            News::DeleteFailed(e) => (
                self.rests().says("status.error"@, seq!["delete failed: "@ + e]),
                nothing(),
            ),
        }
    }

    /// The user saves the host in the form.
    pub open spec fn saves_host(self, now: i64, host_id: Seq<char>, vault_id: Seq<char>) -> (
        App,
        Todo,
    ) {
        let f = self.ui.form;
        if incomplete(f) {
            (self.says("status.name-required"@, Seq::empty()), nothing())
        } else {
            let key = if f.editing_id.len() == 0 {
                "status.host-saved"@
            } else {
                "status.host-updated"@
            };
            (
                App {
                    ui: Shown { form: f.saved(), ..self.ui },
                    local: entered(self.local, f, now, host_id, vault_id),
                    ..self
                }.lists().says(key, Seq::empty()),
                Todo { save: true, job: None },
            )
        }
    }

    /// The user wants to enter a new host.
    pub open spec fn clears_form(self) -> App {
        App { ui: Shown { form: Form::blank(), ..self.ui }, ..self }.says(
            "status.adding-host"@,
            Seq::empty(),
        )
    }

    /// The host in the list at an index.
    pub open spec fn listed(self, index: int) -> Option<Host> {
        if 0 <= index < self.shown_ids.len() {
            self.local.host(self.shown_ids[index])
        } else {
            None
        }
    }

    /// The user wants to edit a host in the list.
    pub open spec fn edits(self, index: int) -> App {
        match self.listed(index) {
            None => self,
            Some(h) => App {
                ui: Shown { form: form_of(self.local, h), ..self.ui },
                ..self
            }.says("status.editing"@, Seq::empty()),
        }
    }

    /// The user deletes a host in the list.
    pub open spec fn deletes(self, index: int) -> (App, Todo) {
        if !(0 <= index < self.shown_ids.len()) {
            (self, nothing())
        } else {
            let id = self.shown_ids[index];
            let vault_id = match self.local.host(id) {
                Some(h) => h.key_password_id,
                None => None,
            };
            let t = App { local: self.local.without_host(id), ..self };
            match self.sync {
                Some(account) => (
                    App { ui: Shown { busy: true, ..t.ui }, ..t },
                    Todo { save: true, job: Some(Job::Delete { account, id, vault_id }) },
                ),
                None => (
                    t.lists().says("status.deleted-local"@, Seq::empty()),
                    Todo { save: true, job: None },
                ),
            }
        }
    }

    /// The user connects to a host in the list.
    pub open spec fn connects(self, index: int, cols: u32, rows: u32, session: Seq<char>) -> (
        App,
        Todo,
    ) {
        match self.listed(index) {
            None => (self.says("status.no-host"@, Seq::empty()), nothing()),
            Some(h) => {
                let size = pty_size_of(cols, rows);
                let label = label_of(h);
                let tab = Tab {
                    id: session,
                    label,
                    screen: Screen::blank(size.0 as int, size.1 as int),
                    connected: false,
                    ended: None,
                    dirty: false,
                    size: Some(size),
                };
                let t = App {
                    sessions: self.sessions.push(tab),
                    active: Some(self.sessions.len() as int),
                    tabs_dirty: true,
                    ..self
                };
                (
                    t.shows(Seq::empty()).heads(label, false).says(
                        "status.connecting"@,
                        seq![h.host, text::decimal(size.0 as nat), text::decimal(size.1 as nat)],
                    ),
                    Todo {
                        save: false,
                        job: Some(
                            Job::Connect {
                                session,
                                plan: Plan {
                                    host: h,
                                    passphrase: self.local.passphrase(h),
                                    cols: size.0,
                                    rows: size.1,
                                },
                            },
                        ),
                    },
                )
            },
        }
    }

    /// The user selects a tab.
    pub open spec fn selects(self, i: int) -> App {
        if 0 <= i < self.sessions.len() {
            App { active: Some(i), tabs_dirty: true, ..self }
        } else {
            self
        }
    }

    /// The user closes a tab.
    pub open spec fn closes(self, i: int) -> App {
        if 0 <= i < self.sessions.len() {
            App {
                sessions: self.sessions.remove(i),
                active: match self.active {
                    None => None,
                    Some(a) => active_after(
                        Some(a),
                        if i < a {
                            1
                        } else {
                            0
                        },
                        self.sessions.len() - 1,
                    ),
                },
                tabs_dirty: true,
                ..self
            }
        } else {
            self
        }
    }

    /// The user clears the terminal.
    pub open spec fn clears_terminal(self) -> App {
        match self.active {
            Some(i) => App {
                sessions: self.sessions.update(
                    i,
                    Tab { screen: self.sessions[i].screen.reset(), dirty: true, ..self.sessions[i] },
                ),
                ..self
            },
            None => self,
        }.shows(Seq::empty())
    }

    /// The user switches to the other language.
    pub open spec fn toggles_lang(self) -> App {
        let lang = if self.ui.locale == "zh"@ {
            "en"@
        } else {
            "zh"@
        };
        App {
            ui: Shown { locale: lang, version: self.ui.version + 1, ..self.ui },
            local: Local { lang, ..self.local },
            strings: i18n::catalogue(i18n::normal_lang(lang)),
            ..self
        }
    }

    /// How many columns the shown session has.
    pub open spec fn cols(self) -> int {
        match self.active {
            Some(i) => self.sessions[i].screen.cols,
            None => 80,
        }
    }

    /// A selection between two points.
    pub open spec fn marks(self, sl: int, sc: int, el: int, ec: int) -> App {
        let p = Pane { start_line: sl, start_col: sc, end_line: el, end_col: ec, ..self.ui.term };
        App { ui: Shown { term: p.selected(self.cols()), ..self.ui }, ..self }
    }

    // ---- the pump ----

    /// Every session gets what arrived for it.
    pub open spec fn feeds(self, arrived: Seq<Arrived>) -> App {
        App {
            sessions: Seq::new(self.sessions.len(), |i: int| fed(self.sessions[i], arrived[i])),
            tabs_dirty: self.tabs_dirty || any_connected(arrived),
            ..self
        }
    }

    /// The sessions that ended are removed, and the user is told of one of them: of the
    /// shown one where it ended, with its error, otherwise of the first.
    pub open spec fn removes(self, ends: Seq<Option<Option<Seq<char>>>>) -> App {
        match first_ended(ends) {
            None => self,
            Some(first) => {
                let left = kept(self.sessions, ends);
                let before = match self.active {
                    Some(a) => count_ended(ends.take(a)),
                    None => 0,
                };
                let t = App {
                    sessions: left,
                    active: active_after(self.active, before, left.len() as int),
                    tabs_dirty: true,
                    ..self
                };
                let u = match self.active {
                    Some(a) if ends[a] is Some => match ends[a]->0 {
                        Some(m) => App { ui: Shown { status: m, ..t.ui }, ..t },
                        None => t.says("status.session-ended"@, Seq::empty()),
                    },
                    _ => t.says(
                        "status.session-ended-label"@,
                        seq![self.sessions[first].label],
                    ),
                };
                if left.len() == 0 {
                    u.shows(Seq::empty())
                } else {
                    u
                }
            },
        }
    }

    /// Every connected session gets the size of the terminal.
    pub open spec fn sizes(self, size: (u32, u32)) -> App {
        App { sessions: self.sessions.map_values(|t: Tab| sized(t, size)), ..self }
    }

    /// The shown session is rendered where it changed.
    pub open spec fn renders(self) -> App {
        match self.active {
            Some(i) if self.sessions[i].dirty => App {
                sessions: self.sessions.update(i, Tab { dirty: false, ..self.sessions[i] }),
                ..self
            }.shows(self.sessions[i].screen.render()),
            _ => self,
        }
    }

    /// The tab bar and what stands around the terminal are rebuilt where the sessions, or
    /// the shown one, changed.
    pub open spec fn rebuilds(self) -> App {
        if !self.tabs_dirty {
            self
        } else {
            let t = App { tabs_dirty: false, ..self }.shows_tabs();
            match self.active {
                Some(i) => t.heads(self.sessions[i].label, self.sessions[i].connected).shows(
                    self.sessions[i].screen.render(),
                ),
                None => t.heads("not connected"@, false).shows(Seq::empty()),
            }
        }
    }

    /// The state after sessions were fed and the ended ones removed.
    pub open spec fn drained(self, arrived: Seq<Arrived>) -> App {
        self.feeds(arrived).removes(ends_of(self.fed_output(arrived), arrived))
    }

    /// The sessions with their output only.
    pub open spec fn fed_output(self, arrived: Seq<Arrived>) -> Seq<Tab> {
        Seq::new(self.sessions.len(), |i: int| with_output(self.sessions[i], arrived[i].output))
    }

    /// Everything that happens from time to time: the sessions are fed, those that ended
    /// are removed, terminals get their sizes, and what changed is shown.
    pub open spec fn pumps(self, arrived: Seq<Arrived>, size: (u32, u32)) -> App {
        self.drained(arrived).sizes(size).renders().rebuilds()
    }
}

// ---------------------------------------------------------------------------
// Laws
// ---------------------------------------------------------------------------

/// An empty search finds every host.
pub proof fn law_empty_search_finds_all(hosts: Seq<Host>)
    ensures
        hosts_found(Seq::empty(), hosts) == hosts,
    decreases hosts.len(),
{
    reveal(Seq::filter);
    if hosts.len() > 0 {
        law_empty_search_finds_all(hosts.drop_last());
        assert(found_by(Seq::empty(), hosts.last()));
        assert(hosts.drop_last().push(hosts.last()) =~= hosts);
    } else {
        assert(hosts_found(Seq::empty(), hosts) =~= hosts);
    }
}

/// A row of the list stands for the host that the user gets there, where no two hosts
/// have the same id: a search does not mix them up.
pub proof fn law_rows_lead_to_their_hosts(a: App, i: int)
    requires
        store::distinct_ids(a.local.hosts),
        0 <= i < a.lists().ui.host_list.len(),
    ensures
        a.lists().listed(i) matches Some(h) && row_of(h) == a.lists().ui.host_list[i] && found_by(
            text::lowercase(a.ui.search),
            h,
        ),
{
    let q = text::lowercase(a.ui.search);
    let keeps = |h: Host| found_by(q, h);
    let found = hosts_found(q, a.local.hosts);
    let h = found[i];
    a.local.hosts.lemma_filter_pred(keeps, i);
    assert(found.contains(h));
    a.local.hosts.lemma_filter_contains_rev(keeps, h);
    let k = choose|k: int| 0 <= k < a.local.hosts.len() && a.local.hosts[k] == h;
    assert forall|j: int| 0 <= j < k implies (#[trigger] a.local.hosts[j]).id != h.id by {
        assert(a.local.hosts[j].id != a.local.hosts[k].id);
    }
    store::lemma_host_place_at(a.local.hosts, h.id, k);
}

/// A host that was saved is found under its id, with what was entered.
pub proof fn law_saved_host_is_found(
    l: Local,
    f: Form,
    now: i64,
    host_id: Seq<char>,
    vault_id: Seq<char>,
)
    ensures
        ({
            let h = host_of(l, f, now, host_id, vault_id);
            entered(l, f, now, host_id, vault_id).host(h.id) == Some(h)
        }),
{
    let h = host_of(l, f, now, host_id, vault_id);
    store::law_upsert_is_found(l, h, h.id);
}

/// Editing a saved host shows what was entered: its name, address, port and user, and the
/// secret that belongs to its method.
pub proof fn law_editing_shows_what_was_saved(
    l: Local,
    f: Form,
    now: i64,
    host_id: Seq<char>,
    vault_id: Seq<char>,
)
    ensures
        ({
            let after = entered(l, f, now, host_id, vault_id);
            let h = host_of(l, f, now, host_id, vault_id);
            let shown = form_of(after, h);
            &&& shown.editing_id == h.id
            &&& shown.name == f.name
            &&& shown.host == f.host
            &&& port_of(shown.port_text) == port_of(f.port_text)
            &&& shown.user == f.user
            &&& types::auth_named(shown.auth) == types::auth_named(f.auth)
            &&& types::auth_named(f.auth) == AuthMethod::Password ==> shown.password == f.password
            &&& types::auth_named(f.auth) == AuthMethod::Key ==> shown.keypath == f.keypath
            &&& types::auth_named(f.auth) == AuthMethod::Key && f.passphrase.len() > 0
                ==> shown.passphrase == f.passphrase
        }),
{
    let h = host_of(l, f, now, host_id, vault_id);
    let after = entered(l, f, now, host_id, vault_id);
    types::law_auth_name_roundtrip(h.auth_method);
    text::lemma_decimal_parses(h.port as nat, u16::MAX as int);
    if f.password.len() == 0 {
        assert(f.password =~= Seq::empty());
    }
    if types::auth_named(f.auth) == AuthMethod::Key && f.passphrase.len() > 0 {
        let e = Secret {
            id: secret_id(l, f, vault_id),
            label: f.name,
            passphrase: f.passphrase,
            updated_at: now,
        };
        let mid = Local { vault: store::vault_with(l.vault, e), ..l };
        store::law_upserted_passphrase_is_found(l, e, h);
        assert(mid.vault == after.vault);
    }
}

/// Saving an edited host affects no other host, and adds none where it was there.
pub proof fn law_editing_replaces_one_host(
    l: Local,
    f: Form,
    now: i64,
    host_id: Seq<char>,
    vault_id: Seq<char>,
    other: Seq<char>,
)
    requires
        f.editing_id.len() > 0,
        other != f.editing_id,
    ensures
        entered(l, f, now, host_id, vault_id).host(other) == l.host(other),
        l.host(f.editing_id) is Some ==> entered(l, f, now, host_id, vault_id).hosts.len()
            == l.hosts.len(),
{
    let h = host_of(l, f, now, host_id, vault_id);
    store::law_upsert_is_found(l, h, other);
    store::lemma_host_place(l.hosts, h.id);
}

/// Where a session that did not end stands among those that are left.
pub proof fn lemma_kept_at(sessions: Seq<Tab>, ends: Seq<Option<Option<Seq<char>>>>, a: int)
    requires
        sessions.len() == ends.len(),
        0 <= a < sessions.len(),
        ends[a] is None,
    ensures
        0 <= count_ended(ends.take(a)) <= a,
        a - count_ended(ends.take(a)) < kept(sessions, ends).len(),
        kept(sessions, ends)[a - count_ended(ends.take(a))] == sessions[a],
    decreases sessions.len(),
{
    lemma_kept_len(sessions.take(a), ends.take(a));
    if a == sessions.len() - 1 {
        assert(sessions.drop_last() =~= sessions.take(a));
        assert(ends.drop_last() =~= ends.take(a));
    } else {
        lemma_kept_at(sessions.drop_last(), ends.drop_last(), a);
        assert(ends.drop_last().take(a) =~= ends.take(a));
    }
}

/// How many sessions are left.
pub proof fn lemma_kept_len(sessions: Seq<Tab>, ends: Seq<Option<Option<Seq<char>>>>)
    requires
        sessions.len() == ends.len(),
    ensures
        0 <= count_ended(ends) <= ends.len(),
        kept(sessions, ends).len() == sessions.len() - count_ended(ends),
    decreases sessions.len(),
{
    if sessions.len() > 0 {
        lemma_kept_len(sessions.drop_last(), ends.drop_last());
    }
}

/// When other sessions end, the shown session stays shown.
pub proof fn law_shown_session_stays_when_others_end(
    a: App,
    ends: Seq<Option<Option<Seq<char>>>>,
)
    requires
        a.valid(),
        ends.len() == a.sessions.len(),
        a.active matches Some(i) && ends[i] is None,
    ensures
        a.removes(ends).active matches Some(i) && 0 <= i < a.removes(ends).sessions.len()
            && a.removes(ends).sessions[i] == a.sessions[a.active->0],
{
    let i = a.active->0;
    lemma_kept_at(a.sessions, ends, i);
}

/// When another tab is closed, the shown session stays shown.
pub proof fn law_shown_session_stays_when_others_close(a: App, k: int)
    requires
        a.valid(),
        0 <= k < a.sessions.len(),
        a.active matches Some(i) && i != k,
    ensures
        a.closes(k).active matches Some(i) && 0 <= i < a.closes(k).sessions.len() && a.closes(
            k,
        ).sessions[i] == a.sessions[a.active->0],
{
}

/// A session is shown whenever any runs.
pub proof fn law_some_session_is_shown(prev: Option<int>, removed: int, len: int)
    requires
        len > 0,
    ensures
        active_after(prev, removed, len) matches Some(i) && 0 <= i < len,
{
}

/// Signing out leaves no session, no account and no password behind.
pub proof fn law_signing_out_forgets(a: App)
    ensures
        a.signs_out().sessions.len() == 0,
        a.signs_out().sync is None,
        a.signs_out().ui.password.len() == 0,
        a.signs_out().ui.term.text.len() == 0,
        a.signs_out().local.hosts == a.local.hosts,
        a.signs_out().local.vault == a.local.vault,
{
}

} // verus!
