//! Local state of the client.
//!
//! The working copy keeps passwords and key passphrases in *plaintext* on the user's own
//! machine (so SSH can use them). Everything that leaves the device is encrypted first by
//! [`crate::sync::SyncClient`]; see that module for the end-to-end encryption story.

use vstd::prelude::*;

use crate::text;
use crate::types;
use crate::types::{Host, HostConfig};

verus! {

/// A key passphrase in the vault of the local device.
#[derive(Debug)]
pub struct LocalVaultEntry {
    pub id: String,
    pub label: String,
    /// Plaintext passphrase, local only.
    pub passphrase: String,
    pub updated_at: i64,
}

/// A `LocalVaultEntry`, as specifications see it.
#[verifier::ext_equal]
pub struct Secret {
    pub id: Seq<char>,
    pub label: Seq<char>,
    pub passphrase: Seq<char>,
    pub updated_at: i64,
}

impl View for LocalVaultEntry {
    type V = Secret;

    open spec fn view(&self) -> Secret {
        Secret {
            id: self.id@,
            label: self.label@,
            passphrase: self.passphrase@,
            updated_at: self.updated_at,
        }
    }
}

impl Clone for LocalVaultEntry {
    fn clone(&self) -> (r: Self)
        ensures
            r == *self,
    {
        LocalVaultEntry {
            id: self.id.clone(),
            label: self.label.clone(),
            passphrase: self.passphrase.clone(),
            updated_at: self.updated_at,
        }
    }
}

impl Default for LocalVaultEntry {
    fn default() -> (r: Self)
        ensures
            r@ == (Secret {
                id: Seq::empty(),
                label: Seq::empty(),
                passphrase: Seq::empty(),
                updated_at: 0,
            }),
    {
        LocalVaultEntry {
            id: String::new(),
            label: String::new(),
            passphrase: String::new(),
            updated_at: 0,
        }
    }
}

/// What the client keeps on the local device.
#[derive(Debug)]
pub struct LocalState {
    pub server_url: String,
    pub username: String,
    pub hosts: Vec<HostConfig>,
    pub vault: Vec<LocalVaultEntry>,
    /// Monospace font family for the terminal (e.g. "JetBrainsMono Nerd Font").
    pub terminal_font: String,
    /// UI theme: "dark" or "light".
    pub theme: String,
    /// UI language code, e.g. "en" or "zh".
    pub lang: String,
}

/// A `LocalState`, as specifications see it.
#[verifier::ext_equal]
pub struct Local {
    pub server_url: Seq<char>,
    pub username: Seq<char>,
    pub hosts: Seq<Host>,
    pub vault: Seq<Secret>,
    pub terminal_font: Seq<char>,
    pub theme: Seq<char>,
    pub lang: Seq<char>,
}

/// The views of a list of vault entries.
pub open spec fn secret_views(v: Seq<LocalVaultEntry>) -> Seq<Secret> {
    v.map_values(|e: LocalVaultEntry| e@)
}

impl View for LocalState {
    type V = Local;

    open spec fn view(&self) -> Local {
        Local {
            server_url: self.server_url@,
            username: self.username@,
            hosts: types::host_views(self.hosts@),
            vault: secret_views(self.vault@),
            terminal_font: self.terminal_font@,
            theme: self.theme@,
            lang: self.lang@,
        }
    }
}

/// The place of the first host with an id.
pub open spec fn host_place(hosts: Seq<Host>, id: Seq<char>) -> Option<int>
    decreases hosts.len(),
{
    if hosts.len() == 0 {
        None
    } else {
        match host_place(hosts.drop_last(), id) {
            Some(i) => Some(i),
            None => if hosts.last().id == id {
                Some(hosts.len() - 1)
            } else {
                None
            },
        }
    }
}

/// The place of the first vault entry with an id.
pub open spec fn secret_place(vault: Seq<Secret>, id: Seq<char>) -> Option<int>
    decreases vault.len(),
{
    if vault.len() == 0 {
        None
    } else {
        match secret_place(vault.drop_last(), id) {
            Some(i) => Some(i),
            None => if vault.last().id == id {
                Some(vault.len() - 1)
            } else {
                None
            },
        }
    }
}

/// A list of hosts with one of them replaced, or added at the end.
pub open spec fn hosts_with(hosts: Seq<Host>, h: Host) -> Seq<Host> {
    match host_place(hosts, h.id) {
        Some(i) => hosts.update(i, h),
        None => hosts.push(h),
    }
}

/// A vault with one entry replaced, or added at the end.
pub open spec fn vault_with(vault: Seq<Secret>, e: Secret) -> Seq<Secret> {
    match secret_place(vault, e.id) {
        Some(i) => vault.update(i, e),
        None => vault.push(e),
    }
}

/// A list of hosts with one from the server merged in: of two versions the newer one
/// stays, and the local one where they are equally old.
pub open spec fn host_merged(hosts: Seq<Host>, r: Host) -> Seq<Host> {
    match host_place(hosts, r.id) {
        Some(i) => if r.updated_at > hosts[i].updated_at {
            hosts.update(i, r)
        } else {
            hosts
        },
        None => hosts.push(r),
    }
}

/// A list of hosts with those from the server merged in.
pub open spec fn hosts_merged(hosts: Seq<Host>, remote: Seq<Host>) -> Seq<Host>
    decreases remote.len(),
{
    if remote.len() == 0 {
        hosts
    } else {
        host_merged(hosts_merged(hosts, remote.drop_last()), remote.last())
    }
}

/// A vault with an entry from the server merged in: of two versions the newer one stays,
/// and that of the server where they are equally old.
pub open spec fn secret_merged(vault: Seq<Secret>, e: Secret) -> Seq<Secret> {
    match secret_place(vault, e.id) {
        Some(i) => if e.updated_at >= vault[i].updated_at {
            vault.update(i, e)
        } else {
            vault
        },
        None => vault.push(e),
    }
}

/// A vault with the entries from the server merged in.
pub open spec fn vault_merged(vault: Seq<Secret>, remote: Seq<Secret>) -> Seq<Secret>
    decreases remote.len(),
{
    if remote.len() == 0 {
        vault
    } else {
        secret_merged(vault_merged(vault, remote.drop_last()), remote.last())
    }
}

/// Whether a host uses a vault entry.
pub open spec fn uses_secret(h: Host, id: Seq<char>) -> bool {
    h.key_password_id == Some(id)
}

/// Whether one of the hosts uses a vault entry.
pub open spec fn is_used(hosts: Seq<Host>, id: Seq<char>) -> bool {
    exists|i: int| 0 <= i < hosts.len() && uses_secret(#[trigger] hosts[i], id)
}

impl Local {
    /// The first host with an id.
    pub open spec fn host(self, id: Seq<char>) -> Option<Host> {
        match host_place(self.hosts, id) {
            Some(i) => Some(self.hosts[i]),
            None => None,
        }
    }

    /// The state with what came from the server merged in.
    pub open spec fn merged(self, hosts: Seq<Host>, vault: Seq<Secret>) -> Local {
        Local {
            hosts: hosts_merged(self.hosts, hosts),
            vault: vault_merged(self.vault, vault),
            ..self
        }
    }

    /// The state without the hosts of an id, and without the vault entries that no host
    /// uses then.
    pub open spec fn without_host(self, id: Seq<char>) -> Local {
        let hosts = self.hosts.filter(|h: Host| h.id != id);
        Local { hosts, vault: self.vault.filter(|e: Secret| is_used(hosts, e.id)), ..self }
    }

    /// The passphrase of the vault entry that a host uses.
    pub open spec fn passphrase(self, h: Host) -> Option<Seq<char>> {
        match h.key_password_id {
            None => None,
            Some(id) => match secret_place(self.vault, id) {
                Some(i) => Some(self.vault[i].passphrase),
                None => None,
            },
        }
    }

    pub open spec fn empty() -> Local {
        Local {
            server_url: Seq::empty(),
            username: Seq::empty(),
            hosts: Seq::empty(),
            vault: Seq::empty(),
            terminal_font: Seq::empty(),
            theme: Seq::empty(),
            lang: Seq::empty(),
        }
    }
}

/// What `host_place` finds.
pub proof fn lemma_host_place(hosts: Seq<Host>, id: Seq<char>)
    ensures
        match host_place(hosts, id) {
            Some(i) => {
                &&& 0 <= i < hosts.len()
                &&& hosts[i].id == id
                &&& forall|j: int| 0 <= j < i ==> (#[trigger] hosts[j]).id != id
            },
            None => forall|j: int| 0 <= j < hosts.len() ==> (#[trigger] hosts[j]).id != id,
        },
    decreases hosts.len(),
{
    if hosts.len() > 0 {
        let front = hosts.drop_last();
        lemma_host_place(front, id);
        match host_place(front, id) {
            Some(i) => {
                assert forall|j: int| 0 <= j < i implies (#[trigger] hosts[j]).id != id by {
                    assert(front[j].id != id);
                }
            },
            None => {
                assert forall|j: int| 0 <= j < front.len() implies (#[trigger] hosts[j]).id
                    != id by {
                    assert(front[j].id != id);
                }
            },
        }
    }
}

/// A host is found where the first host with its id stands.
pub proof fn lemma_host_place_at(hosts: Seq<Host>, id: Seq<char>, i: int)
    requires
        0 <= i < hosts.len(),
        hosts[i].id == id,
        forall|j: int| 0 <= j < i ==> (#[trigger] hosts[j]).id != id,
    ensures
        host_place(hosts, id) == Some(i),
{
    lemma_host_place(hosts, id);
    match host_place(hosts, id) {
        Some(k) => {
            if k < i {
                assert(hosts[k].id != id);
            } else if k > i {
                assert(hosts[i].id != id);
            }
        },
        None => {
            assert(hosts[i].id != id);
        },
    }
}

/// What `secret_place` finds.
pub proof fn lemma_secret_place(vault: Seq<Secret>, id: Seq<char>)
    ensures
        match secret_place(vault, id) {
            Some(i) => {
                &&& 0 <= i < vault.len()
                &&& vault[i].id == id
                &&& forall|j: int| 0 <= j < i ==> (#[trigger] vault[j]).id != id
            },
            None => forall|j: int| 0 <= j < vault.len() ==> (#[trigger] vault[j]).id != id,
        },
    decreases vault.len(),
{
    if vault.len() > 0 {
        let front = vault.drop_last();
        lemma_secret_place(front, id);
        match secret_place(front, id) {
            Some(i) => {
                assert forall|j: int| 0 <= j < i implies (#[trigger] vault[j]).id != id by {
                    assert(front[j].id != id);
                }
            },
            None => {
                assert forall|j: int| 0 <= j < front.len() implies (#[trigger] vault[j]).id
                    != id by {
                    assert(front[j].id != id);
                }
            },
        }
    }
}

/// An entry is found where the first entry with its id stands.
pub proof fn lemma_secret_place_at(vault: Seq<Secret>, id: Seq<char>, i: int)
    requires
        0 <= i < vault.len(),
        vault[i].id == id,
        forall|j: int| 0 <= j < i ==> (#[trigger] vault[j]).id != id,
    ensures
        secret_place(vault, id) == Some(i),
{
    lemma_secret_place(vault, id);
    match secret_place(vault, id) {
        Some(k) => {
            if k < i {
                assert(vault[k].id != id);
            } else if k > i {
                assert(vault[i].id != id);
            }
        },
        None => {
            assert(vault[i].id != id);
        },
    }
}

/// The index of the first host with an id.
pub fn find_host(hosts: &[HostConfig], id: &str) -> (r: Option<usize>)
    ensures
        match r {
            Some(i) => host_place(types::host_views(hosts@), id@) == Some(i as int) && i
                < hosts@.len(),
            None => host_place(types::host_views(hosts@), id@) is None,
        },
{
    let ghost views = types::host_views(hosts@);
    let mut i: usize = 0;
    while i < hosts.len()
        invariant
            i <= hosts@.len(),
            views == types::host_views(hosts@),
            forall|j: int| 0 <= j < i ==> (#[trigger] views[j]).id != id@,
        decreases hosts@.len() - i,
    {
        assert(views[i as int] == hosts@[i as int]@);
        if text::same_text(hosts[i].id.as_str(), id) {
            proof {
                lemma_host_place_at(views, id@, i as int);
            }
            return Some(i);
        }
        i += 1;
    }
    proof {
        lemma_host_place(views, id@);
    }
    None
}

/// The index of the first vault entry with an id.
pub fn find_secret(vault: &[LocalVaultEntry], id: &str) -> (r: Option<usize>)
    ensures
        match r {
            Some(i) => secret_place(secret_views(vault@), id@) == Some(i as int) && i < vault@.len(),
            None => secret_place(secret_views(vault@), id@) is None,
        },
{
    let ghost views = secret_views(vault@);
    let mut i: usize = 0;
    while i < vault.len()
        invariant
            i <= vault@.len(),
            views == secret_views(vault@),
            forall|j: int| 0 <= j < i ==> (#[trigger] views[j]).id != id@,
        decreases vault@.len() - i,
    {
        assert(views[i as int] == vault@[i as int]@);
        if text::same_text(vault[i].id.as_str(), id) {
            proof {
                lemma_secret_place_at(views, id@, i as int);
            }
            return Some(i);
        }
        i += 1;
    }
    proof {
        lemma_secret_place(views, id@);
    }
    None
}

/// A copy of a list of hosts.
pub fn clone_hosts(hosts: &[HostConfig]) -> (r: Vec<HostConfig>)
    ensures
        r@ == hosts@,
{
    let mut out: Vec<HostConfig> = Vec::new();
    let mut i: usize = 0;
    while i < hosts.len()
        invariant
            i <= hosts@.len(),
            out@ == hosts@.take(i as int),
        decreases hosts@.len() - i,
    {
        out.push(hosts[i].clone());
        assert(out@ =~= hosts@.take(i + 1));
        i += 1;
    }
    assert(out@ =~= hosts@);
    out
}

/// A copy of a vault.
pub fn clone_vault(vault: &[LocalVaultEntry]) -> (r: Vec<LocalVaultEntry>)
    ensures
        r@ == vault@,
{
    let mut out: Vec<LocalVaultEntry> = Vec::new();
    let mut i: usize = 0;
    while i < vault.len()
        invariant
            i <= vault@.len(),
            out@ == vault@.take(i as int),
        decreases vault@.len() - i,
    {
        out.push(vault[i].clone());
        assert(out@ =~= vault@.take(i + 1));
        i += 1;
    }
    assert(out@ =~= vault@);
    out
}

impl Default for LocalState {
    fn default() -> (r: Self)
        ensures
            r@ == Local::empty(),
    {
        let r = LocalState {
            server_url: String::new(),
            username: String::new(),
            hosts: Vec::new(),
            vault: Vec::new(),
            terminal_font: String::new(),
            theme: String::new(),
            lang: String::new(),
        };
        assert(r@ =~= Local::empty());
        r
    }
}

impl LocalState {
    /// The font of the terminal.
    pub fn terminal_font_or_default(&self) -> (r: String)
        ensures
            r@ == if text::trimmed(self@.terminal_font).len() == 0 {
                "Menlo"@
            } else {
                self@.terminal_font
            },
    {
        if text::trim(self.terminal_font.as_str()).as_str().is_empty() {
            "Menlo".to_owned()
        } else {
            self.terminal_font.clone()
        }
    }

    /// The theme, which is dark unless it was set to light.
    pub fn theme_or_default(&self) -> (r: String)
        ensures
            r@ == if text::trimmed(self@.theme) == "light"@ {
                "light"@
            } else {
                "dark"@
            },
    {
        let theme = text::trim(self.theme.as_str());
        if text::same_text(theme.as_str(), "light") {
            "light".to_owned()
        } else {
            "dark".to_owned()
        }
    }

    /// The language of the user interface.
    pub fn lang_or_default(&self) -> (r: String)
        ensures
            r@ == if text::trimmed(self@.lang).len() == 0 {
                "en"@
            } else {
                self@.lang
            },
    {
        if text::trim(self.lang.as_str()).as_str().is_empty() {
            "en".to_owned()
        } else {
            self.lang.clone()
        }
    }

    /// Replaces the first host with the same id, or adds the host.
    pub fn upsert_host(&mut self, host: HostConfig)
        ensures
            final(self)@ == (Local { hosts: hosts_with(old(self)@.hosts, host@), ..old(self)@ }),
    {
        let ghost before = self@;
        match find_host(self.hosts.as_slice(), host.id.as_str()) {
            Some(i) => {
                self.hosts[i] = host;
                assert(self@.hosts =~= before.hosts.update(i as int, host@));
            },
            None => {
                self.hosts.push(host);
                assert(self@.hosts =~= before.hosts.push(host@));
            },
        }
        assert(self@ =~= (Local { hosts: hosts_with(before.hosts, host@), ..before }));
    }

    /// Replaces the first vault entry with the same id, or adds the entry.
    pub fn upsert_vault(&mut self, entry: LocalVaultEntry)
        ensures
            final(self)@ == (Local { vault: vault_with(old(self)@.vault, entry@), ..old(self)@ }),
    {
        let ghost before = self@;
        match find_secret(self.vault.as_slice(), entry.id.as_str()) {
            Some(i) => {
                self.vault[i] = entry;
                assert(self@.vault =~= before.vault.update(i as int, entry@));
            },
            None => {
                self.vault.push(entry);
                assert(self@.vault =~= before.vault.push(entry@));
            },
        }
        assert(self@ =~= (Local { vault: vault_with(before.vault, entry@), ..before }));
    }

    /// Removes the hosts with an id, and the vault entries that no host uses then.
    pub fn delete_host(&mut self, id: &str)
        ensures
            final(self)@ == old(self)@.without_host(id@),
    {
        let ghost before = self@;
        let ghost keeps = |h: Host| h.id != id@;
        let mut hosts: Vec<HostConfig> = Vec::new();
        let mut i: usize = 0;
        assert(before.hosts.take(0) =~= Seq::empty());
        proof {
            reveal(Seq::filter);
        }
        assert(types::host_views(hosts@) =~= before.hosts.take(0).filter(keeps));
        while i < self.hosts.len()
            invariant
                i <= self.hosts@.len(),
                before == self@,
                keeps == (|h: Host| h.id != id@),
                types::host_views(hosts@) == before.hosts.take(i as int).filter(keeps),
            decreases self.hosts@.len() - i,
        {
            let ghost kept = hosts@;
            let h = &self.hosts[i];
            proof {
                reveal(Seq::filter);
                assert(before.hosts.take(i + 1).drop_last() =~= before.hosts.take(i as int));
                assert(before.hosts.take(i + 1).last() == h@);
            }
            if !text::same_text(h.id.as_str(), id) {
                hosts.push(h.clone());
                assert(types::host_views(hosts@) =~= types::host_views(kept).push(h@));
            }
            i += 1;
        }
        assert(before.hosts.take(before.hosts.len() as int) =~= before.hosts);
        let ghost left = types::host_views(hosts@);
        let ghost used = |e: Secret| is_used(left, e.id);
        let mut vault: Vec<LocalVaultEntry> = Vec::new();
        let mut j: usize = 0;
        assert(before.vault.take(0) =~= Seq::empty());
        assert(secret_views(vault@) =~= before.vault.take(0).filter(used));
        while j < self.vault.len()
            invariant
                j <= self.vault@.len(),
                before == self@,
                left == types::host_views(hosts@),
                used == (|e: Secret| is_used(left, e.id)),
                secret_views(vault@) == before.vault.take(j as int).filter(used),
            decreases self.vault@.len() - j,
        {
            let ghost kept = vault@;
            let e = &self.vault[j];
            proof {
                reveal(Seq::filter);
                assert(before.vault.take(j + 1).drop_last() =~= before.vault.take(j as int));
                assert(before.vault.take(j + 1).last() == e@);
            }
            if any_uses(hosts.as_slice(), e.id.as_str()) {
                vault.push(e.clone());
                assert(secret_views(vault@) =~= secret_views(kept).push(e@));
            }
            j += 1;
        }
        assert(before.vault.take(before.vault.len() as int) =~= before.vault);
        self.hosts = hosts;
        self.vault = vault;
        assert(self@ =~= before.without_host(id@));
    }

    /// Merges what came from the server: of two versions of a host or a vault entry the
    /// newer one stays. Where they are equally old, the local host stays, and the vault
    /// entry of the server.
    pub fn merge_remote(&mut self, hosts: &[HostConfig], vault: &[LocalVaultEntry])
        ensures
            final(self)@ == old(self)@.merged(
                types::host_views(hosts@),
                secret_views(vault@),
            ),
    {
        let ghost before = self@;
        let ghost remote = types::host_views(hosts@);
        let mut i: usize = 0;
        assert(remote.take(0) =~= Seq::empty());
        while i < hosts.len()
            invariant
                i <= hosts@.len(),
                remote == types::host_views(hosts@),
                self@ == (Local {
                    hosts: hosts_merged(before.hosts, remote.take(i as int)),
                    ..before
                }),
            decreases hosts@.len() - i,
        {
            let ghost m = self@;
            let r = &hosts[i];
            proof {
                assert(remote.take(i + 1).drop_last() =~= remote.take(i as int));
                assert(remote.take(i + 1).last() == r@);
            }
            match find_host(self.hosts.as_slice(), r.id.as_str()) {
                Some(k) => {
                    assert(m.hosts[k as int] == self.hosts@[k as int]@);
                    if r.updated_at > self.hosts[k].updated_at {
                        self.hosts[k] = r.clone();
                        assert(self@.hosts =~= m.hosts.update(k as int, r@));
                    }
                },
                None => {
                    self.hosts.push(r.clone());
                    assert(self@.hosts =~= m.hosts.push(r@));
                },
            }
            i += 1;
        }
        assert(remote.take(remote.len() as int) =~= remote);
        let ghost merged = self@.hosts;
        let ghost secrets = secret_views(vault@);
        let mut j: usize = 0;
        assert(secrets.take(0) =~= Seq::empty());
        while j < vault.len()
            invariant
                j <= vault@.len(),
                secrets == secret_views(vault@),
                self@ == (Local {
                    hosts: merged,
                    vault: vault_merged(before.vault, secrets.take(j as int)),
                    ..before
                }),
            decreases vault@.len() - j,
        {
            let ghost m = self@;
            let e = &vault[j];
            proof {
                assert(secrets.take(j + 1).drop_last() =~= secrets.take(j as int));
                assert(secrets.take(j + 1).last() == e@);
            }
            match find_secret(self.vault.as_slice(), e.id.as_str()) {
                Some(k) => {
                    assert(m.vault[k as int] == self.vault@[k as int]@);
                    if e.updated_at >= self.vault[k].updated_at {
                        self.vault[k] = e.clone();
                        assert(self@.vault =~= m.vault.update(k as int, e@));
                    }
                },
                None => {
                    self.vault.push(e.clone());
                    assert(self@.vault =~= m.vault.push(e@));
                },
            }
            j += 1;
        }
        assert(secrets.take(secrets.len() as int) =~= secrets);
    }

    /// The passphrase of the vault entry that a host uses.
    pub fn passphrase_for(&self, host: &HostConfig) -> (r: Option<&str>)
        ensures
            match r {
                Some(s) => self@.passphrase(host@) == Some(s@),
                None => self@.passphrase(host@) is None,
            },
    {
        match &host.key_password_id {
            None => None,
            Some(id) => match find_secret(self.vault.as_slice(), id.as_str()) {
                Some(i) => {
                    assert(self@.vault[i as int] == self.vault@[i as int]@);
                    Some(self.vault[i].passphrase.as_str())
                },
                None => None,
            },
        }
    }
}

fn any_uses(hosts: &[HostConfig], id: &str) -> (r: bool)
    ensures
        r == is_used(types::host_views(hosts@), id@),
{
    let ghost views = types::host_views(hosts@);
    let mut i: usize = 0;
    while i < hosts.len()
        invariant
            i <= hosts@.len(),
            views == types::host_views(hosts@),
            forall|j: int| 0 <= j < i ==> !uses_secret(#[trigger] views[j], id@),
        decreases hosts@.len() - i,
    {
        assert(views[i as int] == hosts@[i as int]@);
        if let Some(k) = &hosts[i].key_password_id {
            if text::same_text(k.as_str(), id) {
                assert(uses_secret(views[i as int], id@));
                return true;
            }
        }
        i += 1;
    }
    false
}

// ---------------------------------------------------------------------------
// Laws
// ---------------------------------------------------------------------------

/// Whether no two hosts have the same id.
pub open spec fn distinct_ids(hosts: Seq<Host>) -> bool {
    forall|i: int, j: int|
        0 <= i < j < hosts.len() ==> (#[trigger] hosts[i]).id != (#[trigger] hosts[j]).id
}

/// A host that was stored is found again under its id, and no other id is affected.
pub proof fn law_upsert_is_found(l: Local, h: Host, id: Seq<char>)
    ensures
        (Local { hosts: hosts_with(l.hosts, h), ..l }).host(id) == if id == h.id {
            Some(h)
        } else {
            l.host(id)
        },
{
    let after = hosts_with(l.hosts, h);
    lemma_host_place(l.hosts, h.id);
    lemma_host_place(l.hosts, id);
    lemma_host_place(after, id);
    let place = match host_place(l.hosts, h.id) {
        Some(i) => i,
        None => l.hosts.len() as int,
    };
    if id == h.id {
        lemma_host_place_at(after, id, place);
    } else {
        match host_place(l.hosts, id) {
            Some(i) => {
                lemma_host_place_at(after, id, i);
            },
            None => {
                match host_place(after, id) {
                    Some(i) => {
                        assert(after[i].id == id);
                    },
                    None => {},
                }
            },
        }
    }
}

/// Storing a host keeps the ids of the hosts distinct.
pub proof fn law_upsert_keeps_ids_distinct(hosts: Seq<Host>, h: Host)
    requires
        distinct_ids(hosts),
    ensures
        distinct_ids(hosts_with(hosts, h)),
{
    lemma_host_place(hosts, h.id);
}

/// A passphrase that was stored is found again through the hosts that use it, and no
/// other passphrase is affected.
pub proof fn law_upserted_passphrase_is_found(l: Local, e: Secret, h: Host)
    ensures
        (Local { vault: vault_with(l.vault, e), ..l }).passphrase(h) == if uses_secret(h, e.id) {
            Some(e.passphrase)
        } else {
            l.passphrase(h)
        },
{
    let after = vault_with(l.vault, e);
    lemma_secret_place(l.vault, e.id);
    if let Some(id) = h.key_password_id {
        lemma_secret_place(l.vault, id);
        lemma_secret_place(after, id);
        let place = match secret_place(l.vault, e.id) {
            Some(i) => i,
            None => l.vault.len() as int,
        };
        if id == e.id {
            lemma_secret_place_at(after, id, place);
        } else {
            match secret_place(l.vault, id) {
                Some(i) => {
                    lemma_secret_place_at(after, id, i);
                },
                None => {
                    match secret_place(after, id) {
                        Some(i) => {
                            assert(after[i].id == id);
                        },
                        None => {},
                    }
                },
            }
        }
    }
}

/// A deleted host is gone, and every other host is still there.
pub proof fn law_delete_removes_one_id(l: Local, id: Seq<char>, other: Seq<char>)
    ensures
        l.without_host(id).host(id) is None,
        other != id ==> l.without_host(id).host(other) == l.host(other),
{
    let keeps = |h: Host| h.id != id;
    let after = l.hosts.filter(keeps);
    lemma_host_place(after, id);
    match host_place(after, id) {
        Some(i) => {
            l.hosts.lemma_filter_pred(keeps, i);
        },
        None => {},
    }
    if other != id {
        lemma_filtered_host(l.hosts, id, other);
    }
}

proof fn lemma_filtered_host(hosts: Seq<Host>, id: Seq<char>, other: Seq<char>)
    requires
        other != id,
    ensures
        ({
            let after = hosts.filter(|h: Host| h.id != id);
            match host_place(hosts, other) {
                Some(i) => host_place(after, other) matches Some(k) && 0 <= k < after.len()
                    && after[k] == hosts[i],
                None => host_place(after, other) is None,
            }
        }),
    decreases hosts.len(),
{
    reveal(Seq::filter);
    if hosts.len() > 0 {
        let keeps = |h: Host| h.id != id;
        let front = hosts.drop_last();
        lemma_filtered_host(front, id, other);
        lemma_host_place(front, other);
        if hosts.last().id != id {
            assert(hosts.filter(keeps).drop_last() =~= front.filter(keeps));
        }
    }
}

/// After a host was deleted every passphrase that is left is used by a host, and no
/// passphrase that a host uses was lost.
pub proof fn law_delete_drops_orphans_only(l: Local, id: Seq<char>, e: Secret)
    ensures
        l.without_host(id).vault.contains(e) <==> l.vault.contains(e) && is_used(
            l.without_host(id).hosts,
            e.id,
        ),
{
    let hosts = l.without_host(id).hosts;
    let used = |e: Secret| is_used(hosts, e.id);
    let after = l.vault.filter(used);
    if after.contains(e) {
        let i = choose|i: int| 0 <= i < after.len() && after[i] == e;
        l.vault.lemma_filter_pred(used, i);
        l.vault.lemma_filter_contains_rev(used, e);
    }
    if l.vault.contains(e) && used(e) {
        let i = choose|i: int| 0 <= i < l.vault.len() && l.vault[i] == e;
        l.vault.lemma_filter_contains(used, i);
    }
}

/// Last write wins: after one host from the server was merged, the newest version of it
/// is there, the local one where both are equally old, and no other id is affected.
pub proof fn law_merge_keeps_the_newer(l: Local, r: Host, id: Seq<char>)
    ensures
        (Local { hosts: host_merged(l.hosts, r), ..l }).host(id) == if id == r.id {
            match l.host(id) {
                Some(h) => if r.updated_at > h.updated_at {
                    Some(r)
                } else {
                    Some(h)
                },
                None => Some(r),
            }
        } else {
            l.host(id)
        },
{
    lemma_host_place(l.hosts, r.id);
    law_upsert_is_found(l, r, id);
}

/// A merge never loses a host, and never replaces one by an older one: a host is either
/// as it was or newer.
pub proof fn law_merge_never_goes_back(hosts: Seq<Host>, remote: Seq<Host>, i: int)
    requires
        0 <= i < hosts.len(),
    ensures
        hosts_merged(hosts, remote).len() >= hosts.len(),
        hosts_merged(hosts, remote)[i].id == hosts[i].id,
        hosts_merged(hosts, remote)[i] == hosts[i] || hosts_merged(hosts, remote)[i].updated_at
            > hosts[i].updated_at,
    decreases remote.len(),
{
    if remote.len() > 0 {
        let front = hosts_merged(hosts, remote.drop_last());
        law_merge_never_goes_back(hosts, remote.drop_last(), i);
        lemma_host_place(front, remote.last().id);
    }
}

/// After a merge every host of the server is there, in a version that is no older.
pub proof fn law_merge_takes_everything(hosts: Seq<Host>, remote: Seq<Host>, k: int)
    requires
        0 <= k < remote.len(),
    ensures
        host_place(hosts_merged(hosts, remote), remote[k].id) matches Some(i) && hosts_merged(
            hosts,
            remote,
        )[i].updated_at >= remote[k].updated_at,
    decreases remote.len(),
{
    let front = hosts_merged(hosts, remote.drop_last());
    let r = remote.last();
    let all = hosts_merged(hosts, remote);
    let id = remote[k].id;
    lemma_host_place(front, r.id);
    lemma_host_place(front, id);
    lemma_host_place(all, id);
    if k < remote.len() - 1 {
        assert(remote.drop_last()[k] == remote[k]);
        law_merge_takes_everything(hosts, remote.drop_last(), k);
        let i = host_place(front, id)->0;
        assert(all[i].id == id);
        assert forall|j: int| 0 <= j < i implies (#[trigger] all[j]).id != id by {
            assert(front[j].id != id);
        }
        lemma_host_place_at(all, id, i);
    } else {
        let i = match host_place(front, r.id) {
            Some(i) => i,
            None => front.len() as int,
        };
        assert(all[i].id == id);
        assert forall|j: int| 0 <= j < i implies (#[trigger] all[j]).id != id by {
            assert(front[j].id != id);
        }
        lemma_host_place_at(all, id, i);
    }
}

/// Last write wins for vault entries, too: after one entry from the server was merged, the
/// newest version of it is what the hosts find, that of the server where both are equally
/// old, and no other entry is affected.
pub proof fn law_merge_keeps_the_newer_secret(l: Local, e: Secret, h: Host)
    ensures
        (Local { vault: secret_merged(l.vault, e), ..l }).passphrase(h) == match secret_place(
            l.vault,
            e.id,
        ) {
            Some(i) if e.updated_at < l.vault[i].updated_at => l.passphrase(h),
            _ => if uses_secret(h, e.id) {
                Some(e.passphrase)
            } else {
                l.passphrase(h)
            },
        },
{
    law_upserted_passphrase_is_found(l, e, h);
}

/// A merge never loses a vault entry, and never replaces one by an older one: an entry is
/// either as it was, or one of the server that is no older.
pub proof fn law_merge_never_takes_an_older_secret(
    vault: Seq<Secret>,
    remote: Seq<Secret>,
    i: int,
)
    requires
        0 <= i < vault.len(),
    ensures
        vault_merged(vault, remote).len() >= vault.len(),
        vault_merged(vault, remote)[i].id == vault[i].id,
        vault_merged(vault, remote)[i].updated_at >= vault[i].updated_at,
        vault_merged(vault, remote)[i] == vault[i] || remote.contains(
            vault_merged(vault, remote)[i],
        ),
    decreases remote.len(),
{
    if remote.len() > 0 {
        let front = vault_merged(vault, remote.drop_last());
        law_merge_never_takes_an_older_secret(vault, remote.drop_last(), i);
        lemma_secret_place(front, remote.last().id);
        assert(remote.contains(remote[remote.len() - 1]));
        assert forall|e: Secret| remote.drop_last().contains(e) implies remote.contains(e) by {
            let k = choose|k: int| 0 <= k < remote.len() - 1 && remote.drop_last()[k] == e;
            assert(remote[k] == e);
        }
    }
}

/// After a merge every vault entry of the server is there, in a version that is no older.
pub proof fn law_merge_takes_every_secret(vault: Seq<Secret>, remote: Seq<Secret>, k: int)
    requires
        0 <= k < remote.len(),
    ensures
        secret_place(vault_merged(vault, remote), remote[k].id) matches Some(i) && vault_merged(
            vault,
            remote,
        )[i].updated_at >= remote[k].updated_at,
    decreases remote.len(),
{
    let front = vault_merged(vault, remote.drop_last());
    let r = remote.last();
    let all = vault_merged(vault, remote);
    let id = remote[k].id;
    lemma_secret_place(front, r.id);
    lemma_secret_place(front, id);
    lemma_secret_place(all, id);
    let i = if k < remote.len() - 1 {
        assert(remote.drop_last()[k] == remote[k]);
        law_merge_takes_every_secret(vault, remote.drop_last(), k);
        secret_place(front, id)->0
    } else {
        match secret_place(front, r.id) {
            Some(i) => i,
            None => front.len() as int,
        }
    };
    assert(all[i].id == id);
    assert forall|j: int| 0 <= j < i implies (#[trigger] all[j]).id != id by {
        assert(front[j].id != id);
    }
    lemma_secret_place_at(all, id, i);
}

/// A merge keeps the ids of the hosts distinct.
pub proof fn law_merge_keeps_ids_distinct(hosts: Seq<Host>, remote: Seq<Host>)
    requires
        distinct_ids(hosts),
    ensures
        distinct_ids(hosts_merged(hosts, remote)),
    decreases remote.len(),
{
    if remote.len() > 0 {
        law_merge_keeps_ids_distinct(hosts, remote.drop_last());
        law_upsert_keeps_ids_distinct(hosts_merged(hosts, remote.drop_last()), remote.last());
    }
}

/// Whether no two vault entries have the same id.
pub open spec fn distinct_secret_ids(vault: Seq<Secret>) -> bool {
    forall|i: int, j: int|
        0 <= i < j < vault.len() ==> (#[trigger] vault[i]).id != (#[trigger] vault[j]).id
}

/// A device without hosts and passphrases has those of the server after a merge, and no
/// others.
pub proof fn law_first_merge_takes_the_servers_state(
    l: Local,
    hosts: Seq<Host>,
    vault: Seq<Secret>,
)
    requires
        l.hosts.len() == 0,
        l.vault.len() == 0,
        distinct_ids(hosts),
        distinct_secret_ids(vault),
    ensures
        l.merged(hosts, vault) == (Local { hosts, vault, ..l }),
{
    lemma_merged_into_no_hosts(l.hosts, hosts);
    lemma_merged_into_no_vault(l.vault, vault);
}

proof fn lemma_merged_into_no_hosts(none: Seq<Host>, remote: Seq<Host>)
    requires
        none.len() == 0,
        distinct_ids(remote),
    ensures
        hosts_merged(none, remote) == remote,
    decreases remote.len(),
{
    if remote.len() == 0 {
        assert(none =~= remote);
    } else {
        let front = remote.drop_last();
        lemma_merged_into_no_hosts(none, front);
        lemma_host_place(front, remote.last().id);
        if let Some(i) = host_place(front, remote.last().id) {
            assert(remote[i].id != remote[remote.len() - 1].id);
        }
        assert(front.push(remote.last()) =~= remote);
    }
}

proof fn lemma_merged_into_no_vault(none: Seq<Secret>, remote: Seq<Secret>)
    requires
        none.len() == 0,
        distinct_secret_ids(remote),
    ensures
        vault_merged(none, remote) == remote,
    decreases remote.len(),
{
    if remote.len() == 0 {
        assert(none =~= remote);
    } else {
        let front = remote.drop_last();
        lemma_merged_into_no_vault(none, front);
        lemma_secret_place(front, remote.last().id);
        if let Some(i) = secret_place(front, remote.last().id) {
            assert(remote[i].id != remote[remote.len() - 1].id);
        }
        assert(front.push(remote.last()) =~= remote);
    }
}

/// A merge of what is known changes nothing: hosts in versions that are no newer, and vault
/// entries that are older or the same.
pub proof fn law_merge_of_nothing_new_changes_nothing(
    l: Local,
    hosts: Seq<Host>,
    vault: Seq<Secret>,
)
    requires
        forall|k: int|
            0 <= k < hosts.len() ==> (host_place(l.hosts, (#[trigger] hosts[k]).id) matches Some(i)
                && hosts[k].updated_at <= l.hosts[i].updated_at),
        forall|k: int|
            0 <= k < vault.len() ==> (secret_place(l.vault, (#[trigger] vault[k]).id) matches Some(
                i,
            ) && (vault[k].updated_at < l.vault[i].updated_at || vault[k] == l.vault[i])),
    ensures
        l.merged(hosts, vault) == l,
{
    lemma_no_new_hosts(l.hosts, hosts);
    lemma_no_new_secrets(l.vault, vault);
}

proof fn lemma_no_new_hosts(hosts: Seq<Host>, remote: Seq<Host>)
    requires
        forall|k: int|
            0 <= k < remote.len() ==> (host_place(hosts, (#[trigger] remote[k]).id) matches Some(i)
                && remote[k].updated_at <= hosts[i].updated_at),
    ensures
        hosts_merged(hosts, remote) == hosts,
    decreases remote.len(),
{
    if remote.len() > 0 {
        let front = remote.drop_last();
        assert forall|k: int| 0 <= k < front.len() implies (host_place(
            hosts,
            (#[trigger] front[k]).id,
        ) matches Some(i) && front[k].updated_at <= hosts[i].updated_at) by {
            assert(front[k] == remote[k]);
        }
        lemma_no_new_hosts(hosts, front);
        assert(host_place(hosts, remote[remote.len() - 1].id) is Some);
    }
}

proof fn lemma_no_new_secrets(vault: Seq<Secret>, remote: Seq<Secret>)
    requires
        forall|k: int|
            0 <= k < remote.len() ==> (secret_place(vault, (#[trigger] remote[k]).id) matches Some(
                i,
            ) && (remote[k].updated_at < vault[i].updated_at || remote[k] == vault[i])),
    ensures
        vault_merged(vault, remote) == vault,
    decreases remote.len(),
{
    if remote.len() > 0 {
        let front = remote.drop_last();
        assert forall|k: int| 0 <= k < front.len() implies (secret_place(
            vault,
            (#[trigger] front[k]).id,
        ) matches Some(i) && (front[k].updated_at < vault[i].updated_at || front[k] == vault[i])) by {
            assert(front[k] == remote[k]);
        }
        lemma_no_new_secrets(vault, front);
        let last = remote[remote.len() - 1];
        lemma_secret_place(vault, last.id);
        let i = secret_place(vault, last.id)->0;
        assert(vault.update(i, vault[i]) =~= vault);
    }
}

/// A host is found under its id, and a passphrase for the host that uses its entry, exactly
/// where there is one, as long as no two have the same id.
pub proof fn law_lookups(l: Local, h: Host, e: Secret, user: Host)
    requires
        distinct_ids(l.hosts),
        distinct_secret_ids(l.vault),
    ensures
        l.host(h.id) == Some(h) <==> l.hosts.contains(h),
        l.host(h.id) is None <==> forall|i: int|
            0 <= i < l.hosts.len() ==> (#[trigger] l.hosts[i]).id != h.id,
        l.vault.contains(e) && user.key_password_id == Some(e.id) ==> l.passphrase(user) == Some(
            e.passphrase,
        ),
        user.key_password_id is None ==> l.passphrase(user) is None,
        user.key_password_id == Some(e.id) && (forall|i: int|
            0 <= i < l.vault.len() ==> (#[trigger] l.vault[i]).id != e.id) ==> l.passphrase(user)
            is None,
{
    lemma_host_place(l.hosts, h.id);
    lemma_secret_place(l.vault, e.id);
    if l.hosts.contains(h) {
        let k = choose|k: int| 0 <= k < l.hosts.len() && l.hosts[k] == h;
        assert(l.hosts[k].id == h.id);
        let i = host_place(l.hosts, h.id)->0;
        if i < k {
            assert(l.hosts[i].id != l.hosts[k].id);
        } else if k < i {
            assert(l.hosts[k].id != l.hosts[i].id);
        }
    }
    if l.vault.contains(e) {
        let k = choose|k: int| 0 <= k < l.vault.len() && l.vault[k] == e;
        assert(l.vault[k].id == e.id);
        let i = secret_place(l.vault, e.id)->0;
        if i < k {
            assert(l.vault[i].id != l.vault[k].id);
        } else if k < i {
            assert(l.vault[k].id != l.vault[i].id);
        }
    }
}

/// A host that is there is replaced where it stands, and another one comes behind the others;
/// so it is with vault entries.
pub proof fn law_upserts_in_place(hosts: Seq<Host>, h: Host, vault: Seq<Secret>, e: Secret, k: int)
    ensures
        (forall|i: int| 0 <= i < hosts.len() ==> (#[trigger] hosts[i]).id != h.id) ==> hosts_with(
            hosts,
            h,
        ) == hosts.push(h),
        distinct_ids(hosts) && 0 <= k < hosts.len() && hosts[k].id == h.id ==> hosts_with(hosts, h)
            == hosts.update(k, h),
        (forall|i: int| 0 <= i < vault.len() ==> (#[trigger] vault[i]).id != e.id) ==> vault_with(
            vault,
            e,
        ) == vault.push(e),
        distinct_secret_ids(vault) && 0 <= k < vault.len() && vault[k].id == e.id ==> vault_with(
            vault,
            e,
        ) == vault.update(k, e),
{
    lemma_host_place(hosts, h.id);
    lemma_secret_place(vault, e.id);
    if distinct_ids(hosts) && 0 <= k < hosts.len() && hosts[k].id == h.id {
        let i = host_place(hosts, h.id)->0;
        if i < k {
            assert(hosts[i].id != hosts[k].id);
        } else if k < i {
            assert(hosts[k].id != hosts[i].id);
        }
    }
    if distinct_secret_ids(vault) && 0 <= k < vault.len() && vault[k].id == e.id {
        let i = secret_place(vault, e.id)->0;
        if i < k {
            assert(vault[i].id != vault[k].id);
        } else if k < i {
            assert(vault[k].id != vault[i].id);
        }
    }
}

/// Deleting a host leaves the hosts of other ids as they are and in their order.
pub proof fn law_delete_keeps_the_others(l: Local, id: Seq<char>)
    ensures
        l.without_host(id).hosts.len() <= l.hosts.len(),
        forall|h: Host| #[trigger]
            l.without_host(id).hosts.contains(h) <==> l.hosts.contains(h) && h.id != id,
        (forall|i: int| 0 <= i < l.hosts.len() ==> (#[trigger] l.hosts[i]).id != id)
            ==> l.without_host(id).hosts == l.hosts,
        l.without_host(id) == (Local {
            hosts: l.without_host(id).hosts,
            vault: l.without_host(id).vault,
            ..l
        }),
{
    let keeps = |h: Host| h.id != id;
    let left = l.without_host(id).hosts;
    l.hosts.lemma_filter_len(keeps);
    assert forall|h: Host| #[trigger] left.contains(h) <==> l.hosts.contains(h) && h.id != id by {
        if left.contains(h) {
            let i = choose|i: int| 0 <= i < left.len() && left[i] == h;
            l.hosts.lemma_filter_pred(keeps, i);
            l.hosts.lemma_filter_contains_rev(keeps, h);
        }
        if l.hosts.contains(h) && h.id != id {
            let i = choose|i: int| 0 <= i < l.hosts.len() && l.hosts[i] == h;
            l.hosts.lemma_filter_contains(keeps, i);
        }
    }
    if forall|i: int| 0 <= i < l.hosts.len() ==> (#[trigger] l.hosts[i]).id != id {
        lemma_filter_all(l.hosts, id);
    }
}

proof fn lemma_filter_all(hosts: Seq<Host>, id: Seq<char>)
    requires
        forall|i: int| 0 <= i < hosts.len() ==> (#[trigger] hosts[i]).id != id,
    ensures
        hosts.filter(|h: Host| h.id != id) == hosts,
    decreases hosts.len(),
{
    reveal(Seq::filter);
    if hosts.len() > 0 {
        let f = hosts.drop_last();
        assert forall|i: int| 0 <= i < f.len() implies (#[trigger] f[i]).id != id by {
            assert(f[i] == hosts[i]);
        }
        lemma_filter_all(f, id);
        assert(hosts[hosts.len() - 1].id != id);
        assert(f.push(hosts.last()) =~= hosts);
    } else {
        assert(hosts.filter(|h: Host| h.id != id) =~= hosts);
    }
}

/// The vault entry under an id.
pub open spec fn secret_of(vault: Seq<Secret>, id: Seq<char>) -> Option<Secret> {
    match secret_place(vault, id) {
        Some(i) => Some(vault[i]),
        None => None,
    }
}

proof fn lemma_secret_upserted(vault: Seq<Secret>, e: Secret, id: Seq<char>)
    ensures
        secret_of(vault_with(vault, e), id) == if id == e.id {
            Some(e)
        } else {
            secret_of(vault, id)
        },
{
    let after = vault_with(vault, e);
    lemma_secret_place(vault, e.id);
    lemma_secret_place(vault, id);
    lemma_secret_place(after, id);
    let place = match secret_place(vault, e.id) {
        Some(i) => i,
        None => vault.len() as int,
    };
    if id == e.id {
        lemma_secret_place_at(after, id, place);
    } else {
        match secret_place(vault, id) {
            Some(i) => {
                lemma_secret_place_at(after, id, i);
            },
            None => {
                match secret_place(after, id) {
                    Some(i) => {
                        assert(after[i].id == id);
                    },
                    None => {},
                }
            },
        }
    }
}

/// After a merge every host is the newer of its two versions, as it stands on the device or at
/// the server, and hosts that the server does not have stay as they are. The server has each
/// host once.
pub proof fn law_merge_takes_each_newer_host(l: Local, remote: Seq<Host>, id: Seq<char>)
    requires
        distinct_ids(remote),
    ensures
        (forall|k: int| 0 <= k < remote.len() ==> (#[trigger] remote[k]).id != id) ==> (Local {
            hosts: hosts_merged(l.hosts, remote),
            ..l
        }).host(id) == l.host(id),
        forall|k: int|
            0 <= k < remote.len() && (#[trigger] remote[k]).id == id ==> (Local {
                hosts: hosts_merged(l.hosts, remote),
                ..l
            }).host(id) == match l.host(id) {
                Some(h) => if remote[k].updated_at > h.updated_at {
                    Some(remote[k])
                } else {
                    Some(h)
                },
                None => Some(remote[k]),
            },
    decreases remote.len(),
{
    if remote.len() > 0 {
        let f = remote.drop_last();
        let last = remote.last();
        assert(distinct_ids(f)) by {
            assert forall|i: int, j: int| 0 <= i < j < f.len() implies (#[trigger] f[i]).id != (
            #[trigger] f[j]).id by {
                assert(remote[i].id != remote[j].id);
            }
        }
        law_merge_takes_each_newer_host(l, f, id);
        let mid = Local { hosts: hosts_merged(l.hosts, f), ..l };
        law_merge_keeps_the_newer(mid, last, id);
        let all = Local { hosts: hosts_merged(l.hosts, remote), ..l };
        assert(all.hosts == host_merged(mid.hosts, last));
        assert(all.host(id) == (Local { hosts: host_merged(mid.hosts, last), ..mid }).host(id));
        if forall|k: int| 0 <= k < remote.len() ==> (#[trigger] remote[k]).id != id {
            assert(remote[remote.len() - 1].id != id);
            assert forall|k: int| 0 <= k < f.len() implies (#[trigger] f[k]).id != id by {
                assert(f[k] == remote[k]);
            }
        }
        assert forall|k: int| 0 <= k < remote.len() && (#[trigger] remote[k]).id
            == id implies all.host(id) == match l.host(id) {
            Some(h) => if remote[k].updated_at > h.updated_at {
                Some(remote[k])
            } else {
                Some(h)
            },
            None => Some(remote[k]),
        } by {
            if k < f.len() {
                assert(f[k] == remote[k]);
                assert(remote[k].id != remote[remote.len() - 1].id);
            } else {
                assert forall|j: int| 0 <= j < f.len() implies (#[trigger] f[j]).id != id by {
                    assert(remote[j].id != remote[remote.len() - 1].id);
                }
            }
        }
    }
}

/// So it is with vault entries, but that the version of the server is taken where both are
/// equally old.
pub proof fn law_merge_takes_each_newer_secret(
    vault: Seq<Secret>,
    remote: Seq<Secret>,
    id: Seq<char>,
)
    requires
        distinct_secret_ids(remote),
    ensures
        (forall|k: int| 0 <= k < remote.len() ==> (#[trigger] remote[k]).id != id) ==> secret_of(
            vault_merged(vault, remote),
            id,
        ) == secret_of(vault, id),
        forall|k: int|
            0 <= k < remote.len() && (#[trigger] remote[k]).id == id ==> secret_of(
                vault_merged(vault, remote),
                id,
            ) == match secret_of(vault, id) {
                Some(e) => if remote[k].updated_at >= e.updated_at {
                    Some(remote[k])
                } else {
                    Some(e)
                },
                None => Some(remote[k]),
            },
    decreases remote.len(),
{
    if remote.len() > 0 {
        let f = remote.drop_last();
        let last = remote.last();
        assert(distinct_secret_ids(f)) by {
            assert forall|i: int, j: int| 0 <= i < j < f.len() implies (#[trigger] f[i]).id != (
            #[trigger] f[j]).id by {
                assert(remote[i].id != remote[j].id);
            }
        }
        law_merge_takes_each_newer_secret(vault, f, id);
        let mid = vault_merged(vault, f);
        lemma_secret_upserted(mid, last, id);
        let all = vault_merged(vault, remote);
        assert(all == secret_merged(mid, last));
        if forall|k: int| 0 <= k < remote.len() ==> (#[trigger] remote[k]).id != id {
            assert(remote[remote.len() - 1].id != id);
            assert forall|k: int| 0 <= k < f.len() implies (#[trigger] f[k]).id != id by {
                assert(f[k] == remote[k]);
            }
        }
        assert forall|k: int| 0 <= k < remote.len() && (#[trigger] remote[k]).id
            == id implies secret_of(all, id) == match secret_of(vault, id) {
            Some(e) => if remote[k].updated_at >= e.updated_at {
                Some(remote[k])
            } else {
                Some(e)
            },
            None => Some(remote[k]),
        } by {
            if k < f.len() {
                assert(f[k] == remote[k]);
                assert(remote[k].id != remote[remote.len() - 1].id);
            } else {
                assert forall|j: int| 0 <= j < f.len() implies (#[trigger] f[j]).id != id by {
                    assert(remote[j].id != remote[remote.len() - 1].id);
                }
            }
        }
    }
}

/// The passphrase of a host is that of the vault entry that it uses.
pub proof fn law_passphrases_are_those_of_entries(l: Local, h: Host)
    ensures
        l.passphrase(h) == match h.key_password_id {
            Some(id) => match secret_of(l.vault, id) {
                Some(e) => Some(e.passphrase),
                None => None,
            },
            None => None,
        },
{
}

} // verus!
