//! What the client does for its user: searching, entering and deleting hosts, signing in and
//! synchronising, and the sessions in their tabs.

use vstd::prelude::*;

use crate::i18n;
use crate::model;
use crate::model::{App, Arrived, Job, News, Shown, Tab};
use crate::screen;
use crate::ssh::{Plan, Report};
use crate::store;
use crate::store::{Local, Secret};
use crate::sync;
use crate::sync::{Account, Uploaded};
use crate::text;
use crate::types::{AuthMethod, Host, Sealed};
use crate::ui::Pane;

verus! {

// ---------------------------------------------------------------------------
// Searching
// ---------------------------------------------------------------------------

/// Whether a text is made of another one with something before it and something behind it.
pub open spec fn within(q: Seq<char>, s: Seq<char>) -> bool {
    exists|a: Seq<char>, b: Seq<char>| s == #[trigger] (a + q + b)
}

/// Whether a query stands somewhere in the name, the address or the user of a host, whatever
/// their case.
pub open spec fn names(q: Seq<char>, h: Host) -> bool {
    ||| within(q, text::lowercase(h.name))
    ||| within(q, text::lowercase(h.host))
    ||| within(q, text::lowercase(h.username))
}

/// A query is found in a name, an address and a user wherever it stands in them.
pub proof fn law_queries_are_found_anywhere(
    q: Seq<char>,
    name: Seq<char>,
    host: Seq<char>,
    username: Seq<char>,
)
    ensures
        model::query_matches(q, name, host, username) <==> within(q, name) || within(q, host)
            || within(q, username),
{
    text::law_contains_is_a_split(name, q);
    text::law_contains_is_a_split(host, q);
    text::law_contains_is_a_split(username, q);
    if q.len() == 0 {
        assert(name =~= Seq::<char>::empty() + q + name);
    }
}

/// Whether the list shows the hosts at some places: those that the search names and no
/// others, in the order of the hosts, each with its name, its user and address, and its
/// method.
pub open spec fn lists_places(a: App, p: Seq<int>) -> bool {
    let u = a.lists();
    let q = text::lowercase(a.ui.search);
    let hosts = a.local.hosts;
    &&& u == (App {
        ui: Shown { host_list: u.ui.host_list, ..a.ui },
        shown_ids: u.shown_ids,
        ..a
    })
    &&& u.ui.host_list.len() == p.len()
    &&& u.shown_ids.len() == p.len()
    &&& forall|i: int, j: int| 0 <= i < j < p.len() ==> #[trigger] p[i] < #[trigger] p[j]
    &&& forall|k: int| 0 <= k < hosts.len() ==> (p.contains(k) <==> names(q, #[trigger] hosts[k]))
    &&& forall|i: int|
        0 <= i < p.len() ==> 0 <= #[trigger] p[i] < hosts.len() && {
            let h = hosts[p[i]];
            let row = u.ui.host_list[i];
            &&& u.shown_ids[i] == h.id
            &&& row.id == h.id
            &&& row.name == h.name
            &&& row.detail == h.username + seq!['@'] + h.host + seq![':'] + text::decimal(
                h.port as nat,
            )
            &&& row.auth == match h.auth_method {
                AuthMethod::Password => "password"@,
                AuthMethod::Key => "key"@,
            }
        }
}

spec fn places(q: Seq<char>, hosts: Seq<Host>) -> Seq<int>
    decreases hosts.len(),
{
    if hosts.len() == 0 {
        Seq::empty()
    } else {
        let front = places(q, hosts.drop_last());
        if names(q, hosts.last()) {
            front.push(hosts.len() - 1)
        } else {
            front
        }
    }
}

proof fn lemma_places(q: Seq<char>, hosts: Seq<Host>)
    ensures
        ({
            let p = places(q, hosts);
            let found = model::hosts_found(q, hosts);
            &&& found.len() == p.len()
            &&& forall|i: int, j: int| 0 <= i < j < p.len() ==> #[trigger] p[i] < #[trigger] p[j]
            &&& forall|i: int|
                0 <= i < p.len() ==> 0 <= #[trigger] p[i] < hosts.len() && found[i] == hosts[p[i]]
            &&& forall|k: int|
                0 <= k < hosts.len() ==> (p.contains(k) <==> names(q, #[trigger] hosts[k]))
        }),
    decreases hosts.len(),
{
    reveal(Seq::filter);
    let p = places(q, hosts);
    let found = model::hosts_found(q, hosts);
    if hosts.len() > 0 {
        let f = hosts.drop_last();
        let last = hosts.last();
        lemma_places(q, f);
        let pf = places(q, f);
        law_queries_are_found_anywhere(
            q,
            text::lowercase(last.name),
            text::lowercase(last.host),
            text::lowercase(last.username),
        );
        assert(model::found_by(q, last) == names(q, last));
        assert forall|i: int| 0 <= i < p.len() implies 0 <= #[trigger] p[i] < hosts.len()
            && found[i] == hosts[p[i]] by {
            if i < pf.len() {
                assert(p[i] == pf[i]);
                assert(f[pf[i]] == hosts[pf[i]]);
            }
        }
        assert forall|k: int| 0 <= k < hosts.len() implies (p.contains(k) <==> names(
            q,
            #[trigger] hosts[k],
        )) by {
            if k < f.len() {
                assert(f[k] == hosts[k]);
                if pf.contains(k) {
                    let i = choose|i: int| 0 <= i < pf.len() && pf[i] == k;
                    assert(p[i] == k);
                }
                if p.contains(k) {
                    let i = choose|i: int| 0 <= i < p.len() && p[i] == k;
                    assert(i < pf.len());
                    assert(pf[i] == k);
                }
            } else {
                if names(q, last) {
                    assert(p[pf.len() as int] == k);
                } else if p.contains(k) {
                    let i = choose|i: int| 0 <= i < p.len() && p[i] == k;
                    assert(pf[i] < f.len());
                }
            }
        }
    }
}

/// The list shows exactly the hosts that the search names.
pub proof fn law_search_lists_what_it_names(a: App)
    ensures
        exists|p: Seq<int>| #[trigger] lists_places(a, p),
{
    let q = text::lowercase(a.ui.search);
    let p = places(q, a.local.hosts);
    lemma_places(q, a.local.hosts);
    reveal_strlit("@");
    reveal_strlit(":");
    assert("@"@ =~= seq!['@']);
    assert(":"@ =~= seq![':']);
    let u = a.lists();
    assert(u =~= (App {
        ui: Shown { host_list: u.ui.host_list, ..a.ui },
        shown_ids: u.shown_ids,
        ..a
    }));
    assert(lists_places(a, p));
}

// ---------------------------------------------------------------------------
// Signing in and synchronising
// ---------------------------------------------------------------------------

/// Whether two lists are the same, item by item.
pub open spec fn same<T>(a: Seq<T>, b: Seq<T>) -> bool {
    &&& a.len() == b.len()
    &&& forall|i: int| 0 <= i < a.len() ==> #[trigger] a[i] == b[i]
}

/// Whether work is a synchronisation of everything that is on the device, with an account.
pub open spec fn syncs_all(l: Local, account: Account, job: Option<Job>) -> bool {
    &&& job matches Some(Job::Sync { account: with, hosts, vault })
    &&& with == account
    &&& same(hosts, l.hosts)
    &&& same(vault, l.vault)
}

/// A client that is signed in synchronises every host and every vault entry that it has, with
/// its own account; one that is not signed in does nothing. The hosts and the sessions stay
/// as they are meanwhile.
pub proof fn law_syncing_takes_everything(a: App)
    ensures
        ({
            let (u, t) = a.syncs();
            &&& u == (App { ui: Shown { status: u.ui.status, busy: u.ui.busy, ..a.ui }, ..a })
            &&& !t.save
            &&& match a.sync {
                Some(account) => syncs_all(a.local, account, t.job) && u.ui.busy,
                None => t.job is None && u.ui.busy == a.ui.busy,
            }
        }),
{
    let (u, t) = a.syncs();
    assert(u =~= (App { ui: Shown { status: u.ui.status, busy: u.ui.busy, ..a.ui }, ..a }));
}

/// Signing in keeps the account, the name and the server, shows the hosts, and begins to
/// synchronise everything that is on the device with that account.
pub proof fn law_signing_in_begins_to_sync(a: App, account: Account, username: Seq<char>)
    ensures
        ({
            let (u, t) = a.hears(News::SignedIn(account, username));
            &&& u.sync == Some(account)
            &&& u.local == (Local { server_url: a.ui.server_url, username, ..a.local })
            &&& u.ui.username == username
            &&& u.ui.screen == 1
            &&& u.ui.host_list == (App { local: u.local, ..a }).lists().ui.host_list
            &&& u.sessions == a.sessions && u.active == a.active
            &&& t.save
            &&& syncs_all(a.local, account, t.job)
        }),
{
}

/// What came from the server is merged into what is on the device, shown and saved, and the
/// work is over.
pub proof fn law_synced_hosts_are_merged(a: App, hosts: Seq<Host>, vault: Seq<Secret>)
    ensures
        ({
            let (u, t) = a.hears(News::Synced(hosts, vault));
            &&& u.local == (Local {
                hosts: store::hosts_merged(a.local.hosts, hosts),
                vault: store::vault_merged(a.local.vault, vault),
                ..a.local
            })
            &&& u.ui.host_list == (App { local: u.local, ..a }).lists().ui.host_list
            &&& !u.ui.busy
            &&& u.sync == a.sync && u.sessions == a.sessions && u.active == a.active
            &&& t.save && t.job is None
            &&& forall|k: int|
                0 <= k < hosts.len() ==> (u.local.host((#[trigger] hosts[k]).id) matches Some(h)
                    && h.updated_at >= hosts[k].updated_at)
            &&& forall|k: int|
                0 <= k < a.local.hosts.len() ==> u.local.hosts.len() >= a.local.hosts.len()
                    && u.local.hosts[k].id == (#[trigger] a.local.hosts[k]).id
        }),
{
    let (u, t) = a.hears(News::Synced(hosts, vault));
    assert forall|k: int| 0 <= k < hosts.len() implies (u.local.host(
        (#[trigger] hosts[k]).id,
    ) matches Some(h) && h.updated_at >= hosts[k].updated_at) by {
        store::law_merge_takes_everything(a.local.hosts, hosts, k);
    }
    assert forall|k: int| 0 <= k < a.local.hosts.len() implies u.local.hosts.len()
        >= a.local.hosts.len() && u.local.hosts[k].id == (#[trigger] a.local.hosts[k]).id by {
        store::law_merge_never_goes_back(a.local.hosts, hosts, k);
    }
}

/// Work that failed changes nothing but the status line, and is over; so is a deletion at the
/// server.
pub proof fn law_failed_work_changes_nothing(a: App, e: Seq<char>)
    ensures
        forall|news: News|
            news == News::SignInFailed(e) || news == News::SyncFailed(e) || news
                == News::DeleteFailed(e) ==> {
                let (u, t) = #[trigger] a.hears(news);
                &&& u == (App { ui: Shown { status: u.ui.status, busy: false, ..a.ui }, ..a })
                &&& !t.save && t.job is None
            },
        ({
            let (u, t) = a.hears(News::Deleted);
            &&& u.local == a.local && u.sync == a.sync && u.sessions == a.sessions
            &&& !u.ui.busy
            &&& u.ui.host_list == a.lists().ui.host_list
            &&& !t.save && t.job is None
        }),
{
    assert forall|news: News|
        news == News::SignInFailed(e) || news == News::SyncFailed(e) || news
            == News::DeleteFailed(e) implies {
        let (u, t) = #[trigger] a.hears(news);
        &&& u == (App { ui: Shown { status: u.ui.status, busy: false, ..a.ui }, ..a })
        &&& !t.save && t.job is None
    } by {
        let (u, t) = a.hears(news);
        assert(u =~= (App { ui: Shown { status: u.ui.status, busy: false, ..a.ui }, ..a }));
    }
}

/// Every passphrase and every host of a device reaches another one: where each upload of a
/// synchronisation is stored and can be decrypted again, a device without any finds the same
/// passphrase for every host after it has taken in what is stored, and the same hosts but for
/// the passwords of those that use a key.
pub proof fn law_secrets_reach_another_device(
    a: App,
    b: App,
    account: Account,
    stored_hosts: Seq<Host>,
    stored_entries: Seq<Sealed>,
    h: Host,
)
    requires
        a.sync == Some(account),
        account.key is Some,
        store::distinct_ids(a.local.hosts),
        store::distinct_secret_ids(a.local.vault),
        b.local.hosts.len() == 0,
        b.local.vault.len() == 0,
        ({
            let job = a.syncs().1.job->0;
            &&& stored_hosts.len() == job->Sync_hosts.len()
            &&& stored_entries.len() == job->Sync_vault.len()
            &&& forall|i: int|
                0 <= i < stored_entries.len() ==> sync::comes_back(
                    account.key->0,
                    job->Sync_hosts,
                    job->Sync_vault,
                    i,
                    Uploaded::Vault(#[trigger] stored_entries[i]),
                )
            &&& forall|i: int|
                0 <= i < stored_hosts.len() ==> sync::comes_back(
                    account.key->0,
                    job->Sync_hosts,
                    job->Sync_vault,
                    job->Sync_vault.len() + i,
                    Uploaded::Host(#[trigger] stored_hosts[i]),
                )
        }),
    ensures
        sync::pulled(account.key->0, stored_hosts, stored_entries) matches Ok((hosts, vault)) && {
            let u = b.hears(News::Synced(hosts, vault)).0;
            &&& u.local.passphrase(h) == a.local.passphrase(h)
            &&& u.local.vault == a.local.vault
            &&& u.local.hosts.len() == a.local.hosts.len()
            &&& forall|i: int|
                0 <= i < a.local.hosts.len() ==> #[trigger] u.local.hosts[i] == (Host {
                    password: if a.local.hosts[i].auth_method == AuthMethod::Key {
                        None
                    } else {
                        a.local.hosts[i].password
                    },
                    ..a.local.hosts[i]
                })
        },
{
    let key = account.key->0;
    let (hosts, vault) = (a.local.hosts, a.local.vault);
    let ho = Seq::new(hosts.len(), |i: int| i);
    let eo = Seq::new(vault.len(), |i: int| i);
    assert forall|i: int| 0 <= i < stored_hosts.len() implies sync::comes_back(
        key,
        hosts,
        vault,
        vault.len() + ho[i],
        Uploaded::Host(#[trigger] stored_hosts[i]),
    ) by {}
    sync::law_pull_gives_back_what_was_pushed(
        key,
        hosts,
        vault,
        stored_hosts,
        ho,
        stored_entries,
        eo,
    );
    let got = ho.map_values(|i: int| sync::shared_host(hosts[i]));
    let secrets = eo.map_values(|i: int| vault[i]);
    assert(secrets =~= vault);
    assert(store::distinct_ids(got)) by {
        assert forall|i: int, j: int| 0 <= i < j < got.len() implies (#[trigger] got[i]).id != (
        #[trigger] got[j]).id by {
            assert(hosts[i].id != hosts[j].id);
        }
    }
    store::law_first_merge_takes_the_servers_state(b.local, got, secrets);
}

/// A user who signs in, or registers, does so at the server in the form with the name and the
/// password there, where none of them is missing and the server has an address of the web.
pub proof fn law_signing_in_uses_the_form(a: App, register: bool, parses: bool)
    ensures
        ({
            let (u, t) = a.signs_in(register, parses);
            let url = sync::normal_url(a.ui.server_url);
            let well = a.ui.username.len() > 0 && a.ui.password.len() > 0 && sync::url_verdict(
                url,
                parses,
            ) is None;
            let account = Account { base_url: url, token: None, key: None };
            &&& u == (App { ui: Shown { status: u.ui.status, busy: u.ui.busy, ..a.ui }, ..a })
            &&& !t.save
            &&& !well ==> t.job is None && u.ui.busy == a.ui.busy
            &&& well ==> u.ui.busy && t.job == Some(
                if register {
                    Job::Register {
                        account,
                        username: a.ui.username,
                        password: a.ui.password,
                    }
                } else {
                    Job::Login { account, username: a.ui.username, password: a.ui.password }
                },
            )
        }),
{
    let (u, t) = a.signs_in(register, parses);
    assert(u =~= (App { ui: Shown { status: u.ui.status, busy: u.ui.busy, ..a.ui }, ..a }));
}

/// Signing out ends all sessions, forgets the account, the name and the password, and goes
/// back to the first page; hosts, passphrases and settings stay.
pub proof fn law_signing_out(a: App)
    ensures
        ({
            let u = a.signs_out();
            &&& u.ui.screen == 0
            &&& u.ui.password.len() == 0 && u.ui.status.len() == 0
            &&& u.ui.tabs.len() == 0 && u.ui.active_tab is None
            &&& u.ui.term.text.len() == 0 && !u.ui.term.connected
            &&& u.sync is None
            &&& u.sessions.len() == 0 && u.active is None
            &&& u.local == (Local { username: Seq::empty(), ..a.local })
            &&& u.strings == a.strings && u.shown_ids == a.shown_ids
            &&& u.ui.server_url == a.ui.server_url && u.ui.host_list == a.ui.host_list
        }),
{
}

// ---------------------------------------------------------------------------
// Entering hosts
// ---------------------------------------------------------------------------

/// A form without a name, an address or a user saves nothing.
pub proof fn law_incomplete_forms_save_nothing(
    a: App,
    now: i64,
    host_id: Seq<char>,
    vault_id: Seq<char>,
)
    requires
        a.ui.form.name.len() == 0 || a.ui.form.host.len() == 0 || a.ui.form.user.len() == 0,
    ensures
        ({
            let (u, t) = a.saves_host(now, host_id, vault_id);
            &&& u == (App { ui: Shown { status: u.ui.status, ..a.ui }, ..a })
            &&& !t.save && t.job is None
        }),
{
    let (u, t) = a.saves_host(now, host_id, vault_id);
    assert(u =~= (App { ui: Shown { status: u.ui.status, ..a.ui }, ..a }));
}

/// A complete form saves a host with what was entered, and nothing else: under the id of the
/// host that is edited, or the new one, with its name, address and user as they stand there
/// and with the present time. Other hosts stay, and so do other settings. The form is empty
/// then, but for the port and the method.
pub proof fn law_saving_keeps_what_was_entered(
    a: App,
    now: i64,
    host_id: Seq<char>,
    vault_id: Seq<char>,
    other: Seq<char>,
)
    requires
        a.ui.form.name.len() > 0,
        a.ui.form.host.len() > 0,
        a.ui.form.user.len() > 0,
    ensures
        ({
            let (u, t) = a.saves_host(now, host_id, vault_id);
            let f = a.ui.form;
            let id = if f.editing_id.len() == 0 {
                host_id
            } else {
                f.editing_id
            };
            &&& t.save && t.job is None
            &&& u.local.host(id) matches Some(h)
            &&& h.id == id && h.name == f.name && h.host == f.host && h.username == f.user
            &&& h.updated_at == now && h.group.len() == 0
            &&& other != id ==> u.local.host(other) == a.local.host(other)
            &&& u.local == (Local { hosts: u.local.hosts, vault: u.local.vault, ..a.local })
            &&& u.sync == a.sync && u.sessions == a.sessions && u.active == a.active
            &&& u.ui.host_list == (App { local: u.local, ..a }).lists().ui.host_list
            &&& u.ui.form.editing_id.len() == 0 && u.ui.form.name.len() == 0
                && u.ui.form.host.len() == 0 && u.ui.form.user.len() == 0
                && u.ui.form.password.len() == 0 && u.ui.form.keypath.len() == 0
                && u.ui.form.passphrase.len() == 0
            &&& u.ui.form.port_text == f.port_text && u.ui.form.auth == f.auth
        }),
{
    let f = a.ui.form;
    let h = model::host_of(a.local, f, now, host_id, vault_id);
    store::law_upsert_is_found(a.local, h, h.id);
    store::law_upsert_is_found(a.local, h, other);
}

/// The port of a saved host is the number in the form, and the one of SSH where there is none
/// that a port can have.
pub proof fn law_saved_ports(a: App, now: i64, host_id: Seq<char>, vault_id: Seq<char>, n: nat)
    requires
        a.ui.form.name.len() > 0,
        a.ui.form.host.len() > 0,
        a.ui.form.user.len() > 0,
    ensures
        ({
            let f = a.ui.form;
            let id = if f.editing_id.len() == 0 {
                host_id
            } else {
                f.editing_id
            };
            let h = a.saves_host(now, host_id, vault_id).0.local.host(id)->0;
            &&& f.port_text == text::decimal(n) && n <= 65535 ==> h.port == n
            &&& f.port_text == text::decimal(n) && n > 65535 ==> h.port == 22
            &&& f.port_text.len() == 0 ==> h.port == 22
            &&& (exists|i: int|
                0 <= i < f.port_text.len() && !('0' <= #[trigger] f.port_text[i]
                    && f.port_text[i] <= '9') && f.port_text[i] != '+') ==> h.port == 22
        }),
{
    let f = a.ui.form;
    let h = model::host_of(a.local, f, now, host_id, vault_id);
    store::law_upsert_is_found(a.local, h, h.id);
    text::law_numbers_are_read(n, 0, 65535);
    if f.port_text.len() == 0 {
        text::law_other_texts_are_no_numbers(f.port_text, 0, 65535, 0);
    }
    if exists|i: int|
        0 <= i < f.port_text.len() && !('0' <= #[trigger] f.port_text[i] && f.port_text[i] <= '9')
            && f.port_text[i] != '+' {
        let i = choose|i: int|
            0 <= i < f.port_text.len() && !('0' <= #[trigger] f.port_text[i] && f.port_text[i]
                <= '9') && f.port_text[i] != '+';
        let t = f.port_text;
        if i == 0 {
            assert(t[0] != '+');
            assert(!text::all_digits(t));
        } else if t[0] == '+' {
            assert(t.skip(1)[i - 1] == t[i]);
            assert(!text::all_digits(t.skip(1)));
        } else {
            assert(!text::all_digits(t));
        }
    }
}

/// A host that uses a password is saved with it where there is one, without a key. One that
/// uses a key is saved with the path of the key, without a password.
pub proof fn law_saved_credentials(a: App, now: i64, host_id: Seq<char>, vault_id: Seq<char>)
    requires
        a.ui.form.name.len() > 0,
        a.ui.form.host.len() > 0,
        a.ui.form.user.len() > 0,
    ensures
        ({
            let f = a.ui.form;
            let id = if f.editing_id.len() == 0 {
                host_id
            } else {
                f.editing_id
            };
            let u = a.saves_host(now, host_id, vault_id).0;
            let h = u.local.host(id)->0;
            &&& f.auth == "key"@ ==> {
                &&& h.auth_method == AuthMethod::Key
                &&& h.password is None
                &&& h.key_path == Some(f.keypath)
            }
            &&& f.auth != "key"@ ==> {
                &&& h.auth_method == AuthMethod::Password
                &&& f.password.len() > 0 ==> h.password == Some(f.password)
                &&& f.password.len() == 0 ==> h.password is None
                &&& h.key_path is None
                &&& h.key_password_id is None
                &&& u.local.vault == a.local.vault
            }
        }),
{
    let f = a.ui.form;
    let h = model::host_of(a.local, f, now, host_id, vault_id);
    store::law_upsert_is_found(a.local, h, h.id);
}

/// A passphrase that was entered for a key is found for the host. It takes the place of the
/// one that the edited host had, or a new one, under the name of the host, and no other host
/// gets another passphrase. Where none was entered, the host keeps the one that it had.
pub proof fn law_saved_passphrases(
    a: App,
    now: i64,
    host_id: Seq<char>,
    vault_id: Seq<char>,
    other: Host,
)
    requires
        a.ui.form.name.len() > 0,
        a.ui.form.host.len() > 0,
        a.ui.form.user.len() > 0,
        a.ui.form.auth == "key"@,
    ensures
        ({
            let f = a.ui.form;
            let id = if f.editing_id.len() == 0 {
                host_id
            } else {
                f.editing_id
            };
            let had = if f.editing_id.len() == 0 {
                None
            } else {
                match a.local.host(f.editing_id) {
                    Some(h) => h.key_password_id,
                    None => None,
                }
            };
            let entry = match had {
                Some(v) => v,
                None => vault_id,
            };
            let u = a.saves_host(now, host_id, vault_id).0;
            let h = u.local.host(id)->0;
            &&& f.passphrase.len() > 0 ==> {
                &&& u.local.passphrase(h) == Some(f.passphrase)
                &&& h.key_password_id == Some(entry)
                &&& other.key_password_id != Some(entry) ==> u.local.passphrase(other)
                    == a.local.passphrase(other)
                &&& u.local.vault.contains(
                    Secret { id: entry, label: f.name, passphrase: f.passphrase, updated_at: now },
                )
            }
            &&& f.passphrase.len() == 0 ==> h.key_password_id == had && u.local.vault
                == a.local.vault
        }),
{
    let f = a.ui.form;
    let h = model::host_of(a.local, f, now, host_id, vault_id);
    store::law_upsert_is_found(a.local, h, h.id);
    if f.passphrase.len() > 0 {
        let e = Secret {
            id: model::secret_id(a.local, f, vault_id),
            label: f.name,
            passphrase: f.passphrase,
            updated_at: now,
        };
        let mid = Local { vault: store::vault_with(a.local.vault, e), ..a.local };
        let u = a.saves_host(now, host_id, vault_id).0;
        assert(u.local.vault == mid.vault);
        store::law_upserted_passphrase_is_found(a.local, e, h);
        store::law_upserted_passphrase_is_found(a.local, e, other);
        assert(u.local.passphrase(h) == mid.passphrase(h));
        assert(u.local.passphrase(other) == mid.passphrase(other));
        store::lemma_secret_place(a.local.vault, e.id);
        match store::secret_place(a.local.vault, e.id) {
            Some(i) => {
                assert(mid.vault[i] == e);
            },
            None => {
                assert(mid.vault[a.local.vault.len() as int] == e);
            },
        }
    }
}

/// A host that is to be edited is shown in the form as it is, with its passphrase.
pub proof fn law_editing_shows_the_host(a: App, index: int)
    ensures
        ({
            let u = a.edits(index);
            match a.listed(index) {
                None => u == a,
                Some(h) => {
                    let f = u.ui.form;
                    &&& u == (App { ui: Shown { form: f, status: u.ui.status, ..a.ui }, ..a })
                    &&& f.editing_id == h.id && f.name == h.name && f.host == h.host && f.user
                        == h.username
                    &&& f.port_text == text::decimal(h.port as nat)
                    &&& f.auth == match h.auth_method {
                        AuthMethod::Password => "password"@,
                        AuthMethod::Key => "key"@,
                    }
                    &&& match h.password {
                        Some(pw) => f.password == pw,
                        None => f.password.len() == 0,
                    }
                    &&& match h.key_path {
                        Some(path) => f.keypath == path,
                        None => f.keypath.len() == 0,
                    }
                    &&& match a.local.passphrase(h) {
                        Some(pp) => f.passphrase == pp,
                        None => f.passphrase.len() == 0,
                    }
                },
            }
        }),
{
    let u = a.edits(index);
    if a.listed(index) is Some {
        assert(u =~= (App { ui: Shown { form: u.ui.form, status: u.ui.status, ..a.ui }, ..a }));
    }
}

/// A host in the list is the one with the id that is listed there.
pub proof fn law_listed_hosts(a: App, index: int)
    ensures
        a.listed(index) matches Some(h) ==> {
            &&& 0 <= index < a.shown_ids.len()
            &&& h.id == a.shown_ids[index]
            &&& a.local.hosts.contains(h)
        },
        0 <= index < a.shown_ids.len() && (exists|k: int|
            0 <= k < a.local.hosts.len() && (#[trigger] a.local.hosts[k]).id
                == a.shown_ids[index]) ==> a.listed(index) is Some,
{
    if 0 <= index < a.shown_ids.len() {
        store::lemma_host_place(a.local.hosts, a.shown_ids[index]);
    }
}

/// A new host is entered in an empty form, for the port of SSH and a password.
pub proof fn law_new_hosts_begin_with_an_empty_form(a: App)
    ensures
        ({
            let u = a.clears_form();
            let f = u.ui.form;
            &&& u == (App { ui: Shown { form: f, status: u.ui.status, ..a.ui }, ..a })
            &&& f.editing_id.len() == 0 && f.name.len() == 0 && f.host.len() == 0 && f.user.len()
                == 0 && f.password.len() == 0 && f.keypath.len() == 0 && f.passphrase.len() == 0
            &&& f.port_text == seq!['2', '2']
            &&& f.auth == "password"@
        }),
{
    reveal_strlit("22");
    assert("22"@ =~= seq!['2', '2']);
    let u = a.clears_form();
    assert(u =~= (App { ui: Shown { form: u.ui.form, status: u.ui.status, ..a.ui }, ..a }));
}

/// Deleting takes the host at its place in the list off the device, at once, with the
/// passphrases that no other host uses; other hosts and passphrases stay. Where the client is
/// signed in, the server is asked to delete the host and its passphrase, too.
pub proof fn law_deleting(a: App, index: int, other: Seq<char>, e: Secret)
    requires
        0 <= index < a.shown_ids.len(),
    ensures
        ({
            let (u, t) = a.deletes(index);
            let id = a.shown_ids[index];
            &&& t.save
            &&& u.local.host(id) is None
            &&& other != id ==> u.local.host(other) == a.local.host(other)
            &&& u.local.vault.contains(e) <==> a.local.vault.contains(e) && exists|k: int|
                0 <= k < u.local.hosts.len() && (#[trigger] u.local.hosts[k]).key_password_id
                    == Some(e.id)
            &&& u.local == (Local { hosts: u.local.hosts, vault: u.local.vault, ..a.local })
            &&& u.sync == a.sync && u.sessions == a.sessions && u.active == a.active
            &&& match a.sync {
                None => t.job is None && u.ui.host_list == (App { local: u.local, ..a }).lists().ui.host_list,
                Some(account) => u.ui.busy && t.job == Some(
                    Job::Delete {
                        account,
                        id,
                        vault_id: match a.local.host(id) {
                            Some(h) => h.key_password_id,
                            None => None,
                        },
                    },
                ),
            }
        }),
{
    let id = a.shown_ids[index];
    let u = a.deletes(index).0;
    store::law_delete_removes_one_id(a.local, id, other);
    store::law_delete_removes_one_id(a.local, id, id);
    store::law_delete_drops_orphans_only(a.local, id, e);
    let hosts = u.local.hosts;
    assert(store::is_used(hosts, e.id) <==> exists|k: int|
        0 <= k < hosts.len() && (#[trigger] hosts[k]).key_password_id == Some(e.id)) by {
        if store::is_used(hosts, e.id) {
            let k = choose|k: int|
                0 <= k < hosts.len() && store::uses_secret(#[trigger] hosts[k], e.id);
            assert(hosts[k].key_password_id == Some(e.id));
        }
        if exists|k: int| 0 <= k < hosts.len() && (#[trigger] hosts[k]).key_password_id == Some(
            e.id,
        ) {
            let k = choose|k: int|
                0 <= k < hosts.len() && (#[trigger] hosts[k]).key_password_id == Some(e.id);
            assert(store::uses_secret(hosts[k], e.id));
        }
    }
}

/// Deleting where no host is listed does nothing.
pub proof fn law_deleting_nothing(a: App, index: int)
    requires
        !(0 <= index < a.shown_ids.len()),
    ensures
        a.deletes(index).0 == a,
        !a.deletes(index).1.save,
        a.deletes(index).1.job is None,
{
}

// ---------------------------------------------------------------------------
// Sessions
// ---------------------------------------------------------------------------

/// Connecting opens a new tab behind the others and shows it: an empty terminal of the size
/// of the window, within its limits, for the host in the list. The session that is begun for
/// it has that host, the passphrase of its key, and that size.
pub proof fn law_connecting(a: App, index: int, cols: u32, rows: u32, session: Seq<char>)
    requires
        a.listed(index) is Some,
    ensures
        ({
            let (u, t) = a.connects(index, cols, rows, session);
            let h = a.listed(index)->0;
            let w: u32 = if cols < 20 {
                20
            } else if cols > 400 {
                400
            } else {
                cols
            };
            let l: u32 = if rows < 8 {
                8
            } else if rows > 120 {
                120
            } else {
                rows
            };
            let tab = u.sessions[a.sessions.len() as int];
            &&& !t.save
            &&& t.job == Some(
                Job::Connect {
                    session,
                    plan: Plan { host: h, passphrase: a.local.passphrase(h), cols: w, rows: l },
                },
            )
            &&& u.sessions.len() == a.sessions.len() + 1
            &&& forall|i: int| 0 <= i < a.sessions.len() ==> #[trigger] u.sessions[i] == a.sessions[i]
            &&& u.active == Some(a.sessions.len() as int)
            &&& u.tabs_dirty
            &&& tab.id == session && !tab.connected && tab.ended is None
            &&& tab.label == h.name + " · "@ + h.username + seq!['@'] + h.host + seq![':']
                + text::decimal(h.port as nat)
            &&& tab.screen.cols == w && tab.screen.height == l && tab.screen.rows.len() == l
            &&& tab.screen.scrollback.len() == 0
            &&& forall|i: int| 0 <= i < l ==> (#[trigger] tab.screen.rows[i]).len() == 0
            &&& tab.screen.row == 0 && tab.screen.col == 0
            &&& tab.size == Some((w, l))
            &&& u.ui.term.text.len() == 0 && u.ui.term.host_label == tab.label
                && !u.ui.term.connected
            &&& u.local == a.local && u.sync == a.sync
        }),
{
    reveal_strlit("@");
    reveal_strlit(":");
    assert("@"@ =~= seq!['@']);
    assert(":"@ =~= seq![':']);
    let (u, t) = a.connects(index, cols, rows, session);
    let h = a.listed(index)->0;
    let tab = u.sessions[a.sessions.len() as int];
    assert(tab.label =~= h.name + " · "@ + h.username + seq!['@'] + h.host + seq![':']
        + text::decimal(h.port as nat));
}

/// Connecting where no host is listed opens no tab.
pub proof fn law_connecting_to_nothing(a: App, index: int, cols: u32, rows: u32, session: Seq<char>)
    requires
        a.listed(index) is None,
    ensures
        ({
            let (u, t) = a.connects(index, cols, rows, session);
            &&& u == (App { ui: Shown { status: u.ui.status, ..a.ui }, ..a })
            &&& !t.save && t.job is None
        }),
{
    let (u, t) = a.connects(index, cols, rows, session);
    assert(u =~= (App { ui: Shown { status: u.ui.status, ..a.ui }, ..a }));
}

/// Selecting a tab shows it and changes no session; there is nothing to select behind the
/// last.
pub proof fn law_selecting(a: App, i: int)
    ensures
        0 <= i < a.sessions.len() ==> a.selects(i) == (App {
            active: Some(i),
            tabs_dirty: true,
            ..a
        }),
        !(0 <= i < a.sessions.len()) ==> a.selects(i) == a,
{
}

/// Closing a tab takes that one away and leaves the others in their order. The shown one stays
/// shown; where it is the closed one, the next is shown, or the last where there is no next.
pub proof fn law_closing(a: App, k: int)
    requires
        a.valid(),
        0 <= k < a.sessions.len(),
    ensures
        ({
            let u = a.closes(k);
            let shown = a.active->0;
            &&& u == (App { sessions: u.sessions, active: u.active, tabs_dirty: true, ..a })
            &&& u.sessions.len() == a.sessions.len() - 1
            &&& forall|i: int| 0 <= i < k ==> #[trigger] u.sessions[i] == a.sessions[i]
            &&& forall|i: int| k <= i < u.sessions.len() ==> #[trigger] u.sessions[i]
                == a.sessions[i + 1]
            &&& u.active == if u.sessions.len() == 0 {
                None
            } else if k < shown {
                Some(shown - 1)
            } else if shown < u.sessions.len() {
                Some(shown)
            } else {
                Some(u.sessions.len() - 1)
            }
        }),
{
    let u = a.closes(k);
    assert(u =~= (App { sessions: u.sessions, active: u.active, tabs_dirty: true, ..a }));
}

/// Closing a tab that is not there does nothing.
pub proof fn law_closing_nothing(a: App, k: int)
    requires
        !(0 <= k < a.sessions.len()),
    ensures
        a.closes(k) == a,
{
}

/// Clearing empties the shown terminal, with its scrollback, and no other.
pub proof fn law_clearing(a: App)
    requires
        a.valid(),
        a.active is Some,
    ensures
        ({
            let u = a.clears_terminal();
            let i = a.active->0;
            &&& u.sessions.len() == a.sessions.len()
            &&& forall|k: int|
                0 <= k < a.sessions.len() && k != i ==> #[trigger] u.sessions[k] == a.sessions[k]
            &&& u.sessions[i].screen.render().len() == 0
            &&& u.sessions[i].screen.row == 0 && u.sessions[i].screen.col == 0
            &&& u.sessions[i].screen.height == a.sessions[i].screen.height
            &&& u.sessions[i].screen.cols == a.sessions[i].screen.cols
            &&& u.sessions[i].label == a.sessions[i].label && u.sessions[i].connected
                == a.sessions[i].connected && u.sessions[i].id == a.sessions[i].id
            &&& u.sessions[i].dirty
            &&& u.ui.term.text.len() == 0
            &&& u.active == a.active && u.local == a.local
        }),
{
    let i = a.active->0;
    assert(model::tab_valid(a.sessions[i]));
    screen::law_reset_shows_nothing(a.sessions[i].screen);
}

/// Every session gets the output that arrived for it, and no other. It is connected once that
/// was told, and keeps the last error that was told.
pub proof fn law_feeding(a: App, arrived: Seq<Arrived>, k: int)
    requires
        a.valid(),
        arrived.len() == a.sessions.len(),
        0 <= k < a.sessions.len(),
    ensures
        ({
            let u = a.feeds(arrived);
            let (old, new) = (a.sessions[k], u.sessions[k]);
            &&& u == (App { sessions: u.sessions, tabs_dirty: u.tabs_dirty, ..a })
            &&& u.sessions.len() == a.sessions.len()
            &&& new.screen == old.screen.feed(arrived[k].output)
            &&& new.dirty == (old.dirty || arrived[k].output.len() > 0)
            &&& new.connected == (old.connected || arrived[k].events.contains(Report::Connected))
            &&& new.id == old.id && new.label == old.label && new.size == old.size
            &&& arrived[k].events.contains(Report::Connected) ==> u.tabs_dirty
            &&& a.tabs_dirty ==> u.tabs_dirty
        }),
{
    let u = a.feeds(arrived);
    assert(model::tab_valid(a.sessions[k]));
    screen::law_feed_of_nothing_changes_nothing(a.sessions[k].screen);
    let t = model::with_output(a.sessions[k], arrived[k].output);
    if arrived[k].output.len() == 0 {
        assert(arrived[k].output =~= Seq::empty());
    }
    lemma_told(t, arrived[k].events);
    assert(u =~= (App { sessions: u.sessions, tabs_dirty: u.tabs_dirty, ..a }));
}

proof fn lemma_told(t: Tab, events: Seq<Report>)
    ensures
        ({
            let u = model::told_all(t, events);
            &&& u == (Tab { connected: u.connected, ended: u.ended, ..t })
            &&& u.connected == (t.connected || events.contains(Report::Connected))
        }),
    decreases events.len(),
{
    if events.len() > 0 {
        let f = events.drop_last();
        lemma_told(t, f);
        let u = model::told_all(t, events);
        assert(u =~= (Tab { connected: u.connected, ended: u.ended, ..t }));
        if events.contains(Report::Connected) {
            let i = choose|i: int| 0 <= i < events.len() && events[i] == Report::Connected;
            if i < f.len() {
                assert(f[i] == Report::Connected);
            }
        }
        if f.contains(Report::Connected) {
            let i = choose|i: int| 0 <= i < f.len() && f[i] == Report::Connected;
            assert(events[i] == Report::Connected);
        }
        if events.last() == Report::Connected {
            assert(events[events.len() - 1] == Report::Connected);
        }
    } else {
        assert(model::told_all(t, events) =~= (Tab { connected: t.connected, ended: t.ended, ..t }));
    }
}

/// A session ended exactly where its end was told: with the error that was told last before
/// that, where there was one.
pub proof fn law_ends_are_told(t: Tab, before: Seq<Report>, m: Seq<char>, rest: Seq<Report>)
    requires
        !before.contains(Report::Ended),
    ensures
        model::end_of(t, before) is None,
        model::end_of(t, before + seq![Report::Error(m), Report::Ended] + rest) == Some(Some(m)),
        (forall|i: int| 0 <= i < before.len() ==> !(#[trigger] before[i] is Error))
            ==> model::end_of(t, before + seq![Report::Ended] + rest) == Some(t.ended),
{
    lemma_not_ended(t, before);
    let e = before.push(Report::Error(m));
    assert(!e.contains(Report::Ended)) by {
        if e.contains(Report::Ended) {
            let i = choose|i: int| 0 <= i < e.len() && e[i] == Report::Ended;
            assert(before[i] == Report::Ended);
        }
    }
    lemma_not_ended(t, e);
    assert(e.drop_last() =~= before);
    let x = e.push(Report::Ended);
    assert(x.drop_last() =~= e);
    assert(model::end_of(t, x) == Some(Some(m)));
    lemma_ended_stays(t, x, rest);
    assert(before + seq![Report::Error(m), Report::Ended] + rest =~= x + rest);
    let y = before.push(Report::Ended);
    assert(y.drop_last() =~= before);
    if forall|i: int| 0 <= i < before.len() ==> !(#[trigger] before[i] is Error) {
        lemma_no_error_told(t, before);
        lemma_ended_stays(t, y, rest);
        assert(before + seq![Report::Ended] + rest =~= y + rest);
    }
}

proof fn lemma_not_ended(t: Tab, events: Seq<Report>)
    requires
        !events.contains(Report::Ended),
    ensures
        model::end_of(t, events) is None,
    decreases events.len(),
{
    if events.len() > 0 {
        let f = events.drop_last();
        assert forall|e: Report| f.contains(e) implies events.contains(e) by {
            let i = choose|i: int| 0 <= i < f.len() && f[i] == e;
            assert(events[i] == e);
        }
        assert(events.contains(events.last()));
        lemma_not_ended(t, f);
    }
}

proof fn lemma_no_error_told(t: Tab, events: Seq<Report>)
    requires
        forall|i: int| 0 <= i < events.len() ==> !(#[trigger] events[i] is Error),
    ensures
        model::told_all(t, events).ended == t.ended,
    decreases events.len(),
{
    if events.len() > 0 {
        let f = events.drop_last();
        assert forall|i: int| 0 <= i < f.len() implies !(#[trigger] f[i] is Error) by {
            assert(f[i] == events[i]);
        }
        lemma_no_error_told(t, f);
        assert(!(events[events.len() - 1] is Error));
    }
}

proof fn lemma_ended_stays(t: Tab, events: Seq<Report>, rest: Seq<Report>)
    requires
        model::end_of(t, events) is Some,
    ensures
        model::end_of(t, events + rest) == model::end_of(t, events),
    decreases rest.len(),
{
    if rest.len() == 0 {
        assert(events + rest =~= events);
    } else {
        lemma_ended_stays(t, events, rest.drop_last());
        assert((events + rest).drop_last() =~= events + rest.drop_last());
    }
}

/// Whether the sessions at some places are left: those that did not end, in their order.
pub open spec fn leaves(a: App, ends: Seq<Option<Option<Seq<char>>>>, p: Seq<int>) -> bool {
    let u = a.removes(ends);
    &&& u.sessions.len() == p.len()
    &&& forall|i: int, j: int| 0 <= i < j < p.len() ==> #[trigger] p[i] < #[trigger] p[j]
    &&& forall|i: int|
        0 <= i < p.len() ==> 0 <= #[trigger] p[i] < a.sessions.len() && u.sessions[i]
            == a.sessions[p[i]]
    &&& forall|k: int| 0 <= k < a.sessions.len() ==> (p.contains(k) <==> (#[trigger] ends[k]) is None)
}

spec fn left_at(ends: Seq<Option<Option<Seq<char>>>>) -> Seq<int>
    decreases ends.len(),
{
    if ends.len() == 0 {
        Seq::empty()
    } else if ends.last() is None {
        left_at(ends.drop_last()).push(ends.len() - 1)
    } else {
        left_at(ends.drop_last())
    }
}

proof fn lemma_left(sessions: Seq<Tab>, ends: Seq<Option<Option<Seq<char>>>>)
    requires
        sessions.len() == ends.len(),
    ensures
        ({
            let p = left_at(ends);
            let left = model::kept(sessions, ends);
            &&& left.len() == p.len()
            &&& forall|i: int, j: int| 0 <= i < j < p.len() ==> #[trigger] p[i] < #[trigger] p[j]
            &&& forall|i: int|
                0 <= i < p.len() ==> 0 <= #[trigger] p[i] < sessions.len() && left[i]
                    == sessions[p[i]]
            &&& forall|k: int|
                0 <= k < ends.len() ==> (p.contains(k) <==> (#[trigger] ends[k]) is None)
        }),
    decreases ends.len(),
{
    if ends.len() > 0 {
        let (sf, ef) = (sessions.drop_last(), ends.drop_last());
        lemma_left(sf, ef);
        let (p, pf) = (left_at(ends), left_at(ef));
        let left = model::kept(sessions, ends);
        assert forall|i: int| 0 <= i < p.len() implies 0 <= #[trigger] p[i] < sessions.len()
            && left[i] == sessions[p[i]] by {
            if i < pf.len() {
                assert(p[i] == pf[i]);
                assert(sf[pf[i]] == sessions[pf[i]]);
            }
        }
        assert forall|k: int| 0 <= k < ends.len() implies (p.contains(k) <==> (
        #[trigger] ends[k]) is None) by {
            if k < ef.len() {
                assert(ef[k] == ends[k]);
                if pf.contains(k) {
                    let i = choose|i: int| 0 <= i < pf.len() && pf[i] == k;
                    assert(p[i] == k);
                }
                if p.contains(k) {
                    let i = choose|i: int| 0 <= i < p.len() && p[i] == k;
                    assert(i < pf.len());
                    assert(pf[i] == k);
                }
            } else if ends.last() is None {
                assert(p[pf.len() as int] == k);
            } else if p.contains(k) {
                let i = choose|i: int| 0 <= i < p.len() && p[i] == k;
                assert(pf[i] < ef.len());
            }
        }
    }
}

proof fn lemma_first(ends: Seq<Option<Option<Seq<char>>>>)
    ensures
        match model::first_ended(ends) {
            Some(i) => 0 <= i < ends.len() && ends[i] is Some && forall|j: int|
                0 <= j < i ==> (#[trigger] ends[j]) is None,
            None => forall|j: int| 0 <= j < ends.len() ==> (#[trigger] ends[j]) is None,
        },
    decreases ends.len(),
{
    if ends.len() > 0 {
        let f = ends.drop_last();
        lemma_first(f);
        match model::first_ended(f) {
            Some(i) => {
                assert(f[i] == ends[i]);
                assert forall|j: int| 0 <= j < i implies (#[trigger] ends[j]) is None by {
                    assert(f[j] == ends[j]);
                }
            },
            None => {
                assert forall|j: int| 0 <= j < f.len() implies (#[trigger] ends[j]) is None by {
                    assert(f[j] == ends[j]);
                }
            },
        }
    }
}

/// The sessions that ended are taken away and the others stay. Where the shown one ended with
/// an error, the status line tells it. Where none ended, nothing happens.
pub proof fn law_ended_sessions_are_removed(a: App, ends: Seq<Option<Option<Seq<char>>>>)
    requires
        a.valid(),
        ends.len() == a.sessions.len(),
    ensures
        exists|p: Seq<int>| #[trigger] leaves(a, ends, p),
        (forall|k: int| 0 <= k < ends.len() ==> (#[trigger] ends[k]) is None) ==> a.removes(ends) == a,
        a.active is Some ==> (ends[a.active->0] matches Some(Some(m)) ==> a.removes(
            ends,
        ).ui.status == m),
        a.removes(ends).local == a.local && a.removes(ends).sync == a.sync,
        a.removes(ends).sessions.len() == 0 && a.sessions.len() > 0 ==> a.removes(ends).active is None
            && a.removes(ends).ui.term.text.len() == 0,
{
    lemma_left(a.sessions, ends);
    lemma_first(ends);
    let p = left_at(ends);
    if model::first_ended(ends) is None {
        lemma_all_left(a.sessions, ends);
        assert(a.removes(ends) == a);
    }
    assert(leaves(a, ends, p));
    if a.removes(ends).sessions.len() == 0 && a.sessions.len() > 0 {
        assert(model::first_ended(ends) is Some);
    }
}

proof fn lemma_all_left(sessions: Seq<Tab>, ends: Seq<Option<Option<Seq<char>>>>)
    requires
        sessions.len() == ends.len(),
        forall|j: int| 0 <= j < ends.len() ==> (#[trigger] ends[j]) is None,
    ensures
        model::kept(sessions, ends) == sessions,
    decreases ends.len(),
{
    if ends.len() > 0 {
        let f = ends.drop_last();
        assert forall|j: int| 0 <= j < f.len() implies (#[trigger] f[j]) is None by {
            assert(f[j] == ends[j]);
        }
        lemma_all_left(sessions.drop_last(), f);
        assert(ends[ends.len() - 1] is None);
        assert(sessions.drop_last().push(sessions.last()) =~= sessions);
    } else {
        assert(sessions =~= Seq::empty());
    }
}

/// Where another session than the shown one ended, the user is told the name of the first that
/// did.
pub proof fn law_ends_of_other_sessions_are_told(
    a: App,
    ends: Seq<Option<Option<Seq<char>>>>,
    first: int,
)
    requires
        a.valid(),
        ends.len() == a.sessions.len(),
        0 <= first < ends.len(),
        ends[first] is Some,
        forall|j: int| 0 <= j < first ==> (#[trigger] ends[j]) is None,
        ends[a.active->0] is None,
    ensures
        a.removes(ends).ui.status == i18n::told(
            a.strings,
            "status.session-ended-label"@,
            seq![a.sessions[first].label],
        ),
{
    lemma_first(ends);
    let k = model::first_ended(ends)->0;
    assert(k == first) by {
        if k < first {
            assert(ends[k] is None);
        } else if first < k {
            assert(ends[first] is None);
        }
    }
}

/// Where the shown session ended, the next one behind it is shown that is left, and the last
/// one where there is none behind it.
pub proof fn law_what_is_shown_after_an_end(
    a: App,
    ends: Seq<Option<Option<Seq<char>>>>,
    next: int,
)
    requires
        a.valid(),
        ends.len() == a.sessions.len(),
        a.active is Some,
        ends[a.active->0] is Some,
        a.active->0 < next <= ends.len(),
        forall|j: int| a.active->0 <= j < next ==> (#[trigger] ends[j]) is Some,
        next < ends.len() ==> ends[next] is None,
    ensures
        ({
            let u = a.removes(ends);
            &&& next < ends.len() ==> (u.active matches Some(i) && 0 <= i < u.sessions.len()
                && u.sessions[i] == a.sessions[next])
            &&& next == ends.len() && u.sessions.len() > 0 ==> u.active == Some(
                u.sessions.len() - 1,
            )
            &&& u.sessions.len() == 0 ==> u.active is None
            &&& ends[a.active->0] == Some(None::<Seq<char>>) ==> u.ui.status == i18n::told(
                a.strings,
                "status.session-ended"@,
                Seq::empty(),
            )
        }),
{
    let shown = a.active->0;
    lemma_first(ends);
    lemma_ended_run(ends, shown, next);
    if next < ends.len() {
        model::lemma_kept_at(a.sessions, ends, next);
    } else {
        assert(ends.take(next) =~= ends);
        model::lemma_kept_len(a.sessions, ends);
    }
}

proof fn lemma_ended_run(ends: Seq<Option<Option<Seq<char>>>>, from: int, to: int)
    requires
        0 <= from <= to <= ends.len(),
        forall|j: int| from <= j < to ==> (#[trigger] ends[j]) is Some,
    ensures
        model::count_ended(ends.take(to)) == model::count_ended(ends.take(from)) + (to - from),
    decreases to,
{
    if from < to {
        lemma_ended_run(ends, from, to - 1);
        assert(ends.take(to).drop_last() =~= ends.take(to - 1));
        assert(ends.take(to).last() == ends[to - 1]);
    }
}

/// Every connected session that has another size gets the size of the window, and its remote
/// shell is told; the others stay as they are.
pub proof fn law_sizing(a: App, size: (u32, u32), k: int)
    requires
        0 <= k < a.sessions.len(),
    ensures
        ({
            let u = a.sizes(size);
            let (old, new) = (a.sessions[k], u.sessions[k]);
            let told = model::to_resize(a.sessions, size, a.sessions.len() as int);
            &&& u == (App { sessions: u.sessions, ..a })
            &&& u.sessions.len() == a.sessions.len()
            &&& told.contains(k) <==> old.connected && old.size != Some(size)
            &&& told.contains(k) ==> new == (Tab {
                screen: old.screen.resize(size.0 as int, size.1 as int),
                size: Some(size),
                dirty: true,
                ..old
            })
            &&& !told.contains(k) ==> new == old
        }),
{
    lemma_to_resize(a.sessions, size, a.sessions.len() as int, k);
}

proof fn lemma_to_resize(sessions: Seq<Tab>, size: (u32, u32), n: int, k: int)
    requires
        0 <= n <= sessions.len(),
        0 <= k < sessions.len(),
    ensures
        model::to_resize(sessions, size, n).contains(k) <==> k < n && sessions[k].connected
            && sessions[k].size != Some(size),
    decreases n,
{
    if n > 0 {
        lemma_to_resize(sessions, size, n - 1, k);
        let front = model::to_resize(sessions, size, n - 1);
        let all = model::to_resize(sessions, size, n);
        if front.contains(k) {
            let i = choose|i: int| 0 <= i < front.len() && front[i] == k;
            assert(all[i] == k);
        }
        if all.contains(k) {
            let i = choose|i: int| 0 <= i < all.len() && all[i] == k;
            if i < front.len() {
                assert(front[i] == k);
            }
        }
        if k == n - 1 && sessions[k].connected && sessions[k].size != Some(size) {
            assert(all[front.len() as int] == k);
        }
    }
}

/// The terminal shows what the shown session holds once that changed, and everything around
/// it once the tabs did: their names in the bar, and the name and state of the shown one.
pub proof fn law_what_changed_is_shown(a: App)
    requires
        a.valid(),
    ensures
        a.active matches Some(i) ==> a.sessions[i].dirty ==> a.renders().ui.term.text
            == a.sessions[i].screen.render() && !a.renders().sessions[i].dirty,
        !(a.active matches Some(i) && a.sessions[i].dirty) ==> a.renders() == a,
        !a.tabs_dirty ==> a.rebuilds() == a,
        a.tabs_dirty ==> {
            let u = a.rebuilds();
            &&& !u.tabs_dirty
            &&& u.sessions == a.sessions && u.active == a.active
            &&& u.ui.active_tab == a.active
            &&& u.ui.tabs.len() == a.sessions.len()
            &&& forall|k: int|
                0 <= k < a.sessions.len() ==> (#[trigger] u.ui.tabs[k]).label == a.sessions[k].label
                    && u.ui.tabs[k].id == a.sessions[k].id && u.ui.tabs[k].connected
                    == a.sessions[k].connected
            &&& a.active matches Some(i) ==> u.ui.term.text == a.sessions[i].screen.render()
                && u.ui.term.host_label == a.sessions[i].label && u.ui.term.connected
                == a.sessions[i].connected
            &&& a.active is None ==> u.ui.term.text.len() == 0 && !u.ui.term.connected
                && u.ui.term.host_label == "not connected"@
        },
{
}

/// From time to time all of this happens, in this order: sessions are fed, those that ended
/// are removed, terminals get their sizes, and what changed is shown.
pub proof fn law_pumping(a: App, arrived: Seq<Arrived>, size: (u32, u32))
    ensures
        ({
            let fed = a.feeds(arrived);
            let outputs = Seq::new(
                a.sessions.len(),
                |i: int|
                    if arrived[i].output.len() == 0 {
                        a.sessions[i]
                    } else {
                        Tab {
                            screen: a.sessions[i].screen.feed(arrived[i].output),
                            dirty: true,
                            ..a.sessions[i]
                        }
                    },
            );
            let ends = Seq::new(
                a.sessions.len(),
                |i: int| model::end_of(outputs[i], arrived[i].events),
            );
            a.pumps(arrived, size) == fed.removes(ends).sizes(size).renders().rebuilds()
        }),
{
    let outputs = Seq::new(
        a.sessions.len(),
        |i: int|
            if arrived[i].output.len() == 0 {
                a.sessions[i]
            } else {
                Tab {
                    screen: a.sessions[i].screen.feed(arrived[i].output),
                    dirty: true,
                    ..a.sessions[i]
                }
            },
    );
    let ends = Seq::new(a.sessions.len(), |i: int| model::end_of(outputs[i], arrived[i].events));
    assert(outputs =~= a.fed_output(arrived));
    assert(ends =~= model::ends_of(a.fed_output(arrived), arrived));
}

// ---------------------------------------------------------------------------
// Settings
// ---------------------------------------------------------------------------

/// The client begins with what was saved: the server and the name in the form, the font, the
/// theme and the language, and all hosts in the list; nobody is signed in and no session runs.
/// Where nothing was saved, the font is Menlo, the theme dark and the language English.
pub proof fn law_starting(ui: Shown, local: Local)
    ensures
        ({
            let a = App::start(ui, local);
            &&& a.local == local
            &&& a.sync is None && a.sessions.len() == 0 && a.active is None
            &&& a.ui.tabs.len() == 0 && a.ui.active_tab is None
            &&& local.server_url.len() > 0 ==> a.ui.server_url == local.server_url
            &&& local.server_url.len() == 0 ==> a.ui.server_url == ui.server_url
            &&& local.username.len() > 0 ==> a.ui.username == local.username
            &&& local.username.len() == 0 ==> a.ui.username == ui.username
            &&& a.ui.host_list == (App { local, ..a }).lists().ui.host_list
            &&& text::trimmed(local.terminal_font).len() > 0 ==> a.ui.terminal_font
                == local.terminal_font
            &&& text::trimmed(local.terminal_font).len() == 0 ==> a.ui.terminal_font == "Menlo"@
            &&& a.ui.dark_mode <==> text::trimmed(local.theme) != "light"@
            &&& text::trimmed(local.lang).len() > 0 ==> a.ui.locale == local.lang
            &&& text::trimmed(local.lang).len() == 0 ==> a.ui.locale == "en"@
            &&& a.strings == i18n::catalogue(i18n::normal_lang(a.ui.locale))
        }),
{
}

/// The language switches between Chinese and English, for the texts as well as for what is
/// saved; everything else stays.
pub proof fn law_switching_languages(a: App)
    ensures
        ({
            let u = a.toggles_lang();
            &&& a.ui.locale == "zh"@ ==> u.ui.locale == "en"@
            &&& a.ui.locale != "zh"@ ==> u.ui.locale == "zh"@
            &&& u.local == (Local { lang: u.ui.locale, ..a.local })
            &&& u.strings == i18n::catalogue(i18n::normal_lang(u.ui.locale))
            &&& u.ui == (Shown { locale: u.ui.locale, version: a.ui.version + 1, ..a.ui })
            &&& u.sessions == a.sessions && u.active == a.active && u.sync == a.sync
        }),
        a.ui.locale == "zh"@ || a.ui.locale == "en"@ ==> a.toggles_lang().toggles_lang().ui.locale
            == a.ui.locale,
{
    reveal_strlit("zh");
    reveal_strlit("en");
    assert("zh"@[0] == 'z' && "en"@[0] == 'e');
}

// ---------------------------------------------------------------------------
// The status line
// ---------------------------------------------------------------------------

/// What the user is told of signing in and of the work in the background.
pub proof fn law_the_user_is_told_of_work(
    a: App,
    register: bool,
    parses: bool,
    account: Account,
    hosts: Seq<Host>,
    vault: Seq<Secret>,
    m: Seq<char>,
)
    ensures
        ({
            let url = sync::normal_url(a.ui.server_url);
            let u = a.signs_in(register, parses).0;
            let named = a.ui.username.len() > 0 && a.ui.password.len() > 0;
            &&& !named ==> u.ui.status == i18n::told(a.strings, "status.enter-creds"@, Seq::empty())
            &&& named ==> match sync::url_verdict(url, parses) {
                Some(f) => u.ui.status == i18n::told(
                    a.strings,
                    "status.invalid-url"@,
                    seq![f.message()],
                ),
                None => u.ui.status == i18n::told(
                    a.strings,
                    if register {
                        "status.registering"@
                    } else {
                        "status.signing-in"@
                    },
                    Seq::empty(),
                ),
            }
        }),
        a.syncs().0.ui.status == i18n::told(
            a.strings,
            if a.sync is Some {
                "status.syncing"@
            } else {
                "status.not-signed-in"@
            },
            Seq::empty(),
        ),
        a.hears(News::SignedIn(account, m)).0.ui.status == i18n::told(
            a.strings,
            "status.syncing"@,
            Seq::empty(),
        ),
        a.hears(News::SignInFailed(m)).0.ui.status == i18n::told(
            a.strings,
            "status.login-failed"@,
            seq![m],
        ),
        a.hears(News::Synced(hosts, vault)).0.ui.status == i18n::told(
            a.strings,
            "status.sync-complete"@,
            Seq::empty(),
        ),
        a.hears(News::SyncFailed(m)).0.ui.status == i18n::told(
            a.strings,
            "status.sync-failed"@,
            seq![m],
        ),
        a.hears(News::Deleted).0.ui.status == i18n::told(
            a.strings,
            "status.deleted"@,
            Seq::empty(),
        ),
        a.hears(News::DeleteFailed(m)).0.ui.status == i18n::told(
            a.strings,
            "status.error"@,
            seq!["delete failed: "@ + m],
        ),
{
}

/// What the user is told of hosts: that one was saved or changed, what it lacks, and what is
/// done with it.
pub proof fn law_the_user_is_told_of_hosts(
    a: App,
    now: i64,
    host_id: Seq<char>,
    vault_id: Seq<char>,
    index: int,
    cols: u32,
    rows: u32,
    session: Seq<char>,
)
    ensures
        a.saves_host(now, host_id, vault_id).0.ui.status == i18n::told(
            a.strings,
            if a.ui.form.name.len() == 0 || a.ui.form.host.len() == 0 || a.ui.form.user.len() == 0 {
                "status.name-required"@
            } else if a.ui.form.editing_id.len() == 0 {
                "status.host-saved"@
            } else {
                "status.host-updated"@
            },
            Seq::empty(),
        ),
        a.clears_form().ui.status == i18n::told(a.strings, "status.adding-host"@, Seq::empty()),
        a.listed(index) is Some ==> a.edits(index).ui.status == i18n::told(
            a.strings,
            "status.editing"@,
            Seq::empty(),
        ),
        0 <= index < a.shown_ids.len() && a.sync is None ==> a.deletes(index).0.ui.status
            == i18n::told(a.strings, "status.deleted-local"@, Seq::empty()),
        a.listed(index) is None ==> a.connects(index, cols, rows, session).0.ui.status
            == i18n::told(a.strings, "status.no-host"@, Seq::empty()),
        a.listed(index) is Some && 20 <= cols <= 400 && 8 <= rows <= 120 ==> a.connects(
            index,
            cols,
            rows,
            session,
        ).0.ui.status == i18n::told(
            a.strings,
            "status.connecting"@,
            seq![
                (a.listed(index)->0).host,
                text::decimal(cols as nat),
                text::decimal(rows as nat),
            ],
        ),
{
}

/// A selection with the mouse is between the two points where it began and where it is, in the
/// text that is shown, for the width of the shown session.
pub proof fn law_selecting_text(a: App, sl: int, sc: int, el: int, ec: int)
    ensures
        ({
            let u = a.marks(sl, sc, el, ec);
            let cols = match a.active {
                Some(i) => a.sessions[i].screen.cols,
                None => 80,
            };
            &&& u == (App { ui: Shown { term: u.ui.term, ..a.ui }, ..a })
            &&& u.ui.term == (Pane {
                start_line: sl,
                start_col: sc,
                end_line: el,
                end_col: ec,
                ..a.ui.term
            }).selected(cols)
        }),
{
    let u = a.marks(sl, sc, el, ec);
    assert(u =~= (App { ui: Shown { term: u.ui.term, ..a.ui }, ..a }));
}

// ---------------------------------------------------------------------------
// Sizes and places
// ---------------------------------------------------------------------------

/// A terminal has the size of its window, but between 20 and 400 columns and between 8 and 120
/// rows.
pub proof fn law_terminal_sizes(cols: u32, rows: u32)
    ensures
        ({
            let (w, l) = model::pty_size_of(cols, rows);
            &&& 20 <= w <= 400
            &&& 8 <= l <= 120
            &&& 20 <= cols <= 400 ==> w == cols
            &&& 8 <= rows <= 120 ==> l == rows
            &&& cols < 20 ==> w == 20
            &&& cols > 400 ==> w == 400
            &&& rows < 8 ==> l == 8
            &&& rows > 120 ==> l == 120
        }),
{
}

/// The shown session moves forward by as many places as sessions before it are removed. Where
/// it is behind the last one then, or none was shown, the last one is.
pub proof fn law_shown_place(prev: Option<int>, removed: int, len: int)
    requires
        len >= 0,
    ensures
        len == 0 ==> model::active_after(prev, removed, len) is None,
        len > 0 && prev is None ==> model::active_after(prev, removed, len) == Some(len - 1),
        prev matches Some(a) ==> len > 0 ==> {
            &&& 0 <= a - removed < len ==> model::active_after(prev, removed, len) == Some(
                a - removed,
            )
            &&& a - removed >= len ==> model::active_after(prev, removed, len) == Some(len - 1)
            &&& a - removed < 0 ==> model::active_after(prev, removed, len) == Some(0int)
        },
{
}

/// Clearing where no session runs empties what is shown and nothing else.
pub proof fn law_clearing_nothing(a: App)
    requires
        a.active is None,
    ensures
        a.clears_terminal().sessions == a.sessions,
        a.clears_terminal().ui.term.text.len() == 0,
        a.clears_terminal().local == a.local,
{
}

/// The tabs are rebuilt only where a session became connected, or had to be anyway.
pub proof fn law_tabs_stay_where_nothing_connected(a: App, arrived: Seq<Arrived>)
    requires
        !a.tabs_dirty,
        forall|k: int|
            0 <= k < arrived.len() ==> !(#[trigger] arrived[k]).events.contains(Report::Connected),
    ensures
        !a.feeds(arrived).tabs_dirty,
{
}

/// The sessions whose remote shells are told of a size are named once each, in their order.
pub proof fn law_sessions_are_told_once(sessions: Seq<Tab>, size: (u32, u32), n: int)
    requires
        0 <= n <= sessions.len(),
    ensures
        ({
            let p = model::to_resize(sessions, size, n);
            &&& forall|i: int| 0 <= i < p.len() ==> 0 <= #[trigger] p[i] < n
            &&& forall|i: int, j: int| 0 <= i < j < p.len() ==> #[trigger] p[i] < #[trigger] p[j]
        }),
    decreases n,
{
    if n > 0 {
        law_sessions_are_told_once(sessions, size, n - 1);
        let f = model::to_resize(sessions, size, n - 1);
        let p = model::to_resize(sessions, size, n);
        assert forall|i: int| 0 <= i < p.len() implies 0 <= #[trigger] p[i] < n by {
            if i < f.len() {
                assert(p[i] == f[i]);
            }
        }
        assert forall|i: int, j: int| 0 <= i < j < p.len() implies #[trigger] p[i]
            < #[trigger] p[j] by {
            assert(p[i] == f[i]);
            if j < f.len() {
                assert(p[j] == f[j]);
            }
        }
    }
}

/// A device on which nothing was saved has no hosts, no passphrases and no settings.
pub proof fn law_nothing_saved()
    ensures
        ({
            let l = Local::empty();
            &&& l.hosts.len() == 0 && l.vault.len() == 0
            &&& l.server_url.len() == 0 && l.username.len() == 0
            &&& l.terminal_font.len() == 0 && l.theme.len() == 0 && l.lang.len() == 0
        }),
{
}

} // verus!
