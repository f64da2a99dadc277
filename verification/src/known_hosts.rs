//! Trust-on-first-use (TOFU) host-key verification.
//!
//! On first connect to a host the server key fingerprint is recorded; on later connects
//! the fingerprint must match or the connection is refused. The entries have a plain-text
//! form, one line for each.

use vstd::prelude::*;

use crate::text;

verus! {

/// Result of comparing a presented key against the stored entry.
#[derive(Debug)]
pub enum KeyCheck {
    /// No entry yet -> caller should record the key (TOFU).
    New,
    /// Matches the recorded fingerprint.
    Trusted,
    /// Recorded fingerprint differs -> refuse to connect.
    Mismatch { expected: String, received: String },
}

/// A `KeyCheck`, as specifications see it.
pub enum Check {
    New,
    Trusted,
    Mismatch { expected: Seq<char>, received: Seq<char> },
}

impl View for KeyCheck {
    type V = Check;

    open spec fn view(&self) -> Check {
        match self {
            KeyCheck::New => Check::New,
            KeyCheck::Trusted => Check::Trusted,
            KeyCheck::Mismatch { expected, received } => Check::Mismatch {
                expected: expected@,
                received: received@,
            },
        }
    }
}

/// The key of an entry with its fingerprint.
#[derive(Debug)]
pub struct Entry {
    key: String,
    fingerprint: String,
}

impl View for Entry {
    type V = (Seq<char>, Seq<char>);

    closed spec fn view(&self) -> (Seq<char>, Seq<char>) {
        (self.key@, self.fingerprint@)
    }
}

impl Clone for Entry {
    fn clone(&self) -> (r: Self)
        ensures
            r == *self,
    {
        Entry { key: self.key.clone(), fingerprint: self.fingerprint.clone() }
    }
}

/// The fingerprints of the hosts that were connected to.
#[derive(Debug)]
pub struct KnownHosts {
    entries: Vec<Entry>,
}

/// Keys with their fingerprints.
pub type Entries = Seq<(Seq<char>, Seq<char>)>;

impl View for KnownHosts {
    type V = Entries;

    closed spec fn view(&self) -> Entries {
        self.entries@.map_values(|e: Entry| e@)
    }
}

/// The key of a host and port.
pub open spec fn key_of(host: Seq<char>, port: u16) -> Seq<char> {
    host + ":"@ + text::decimal(port as nat)
}

/// The fingerprint of the first entry with a key.
pub open spec fn recorded(e: Entries, key: Seq<char>) -> Option<Seq<char>>
    decreases e.len(),
{
    if e.len() == 0 {
        None
    } else if e[0].0 == key {
        Some(e[0].1)
    } else {
        recorded(e.skip(1), key)
    }
}

/// The entries with one more fingerprint, which replaces an earlier one of its key.
pub open spec fn recording(e: Entries, key: Seq<char>, fingerprint: Seq<char>) -> Entries
    decreases e.len(),
{
    if e.len() == 0 {
        seq![(key, fingerprint)]
    } else if e[0].0 == key {
        e.update(0, (key, fingerprint))
    } else {
        seq![e[0]] + recording(e.skip(1), key, fingerprint)
    }
}

/// Whether no key has two entries.
pub open spec fn keys_distinct(e: Entries) -> bool {
    forall|i: int, j: int| 0 <= i < j < e.len() ==> (#[trigger] e[i]).0 != (#[trigger] e[j]).0
}

/// How a presented fingerprint compares with the recorded one.
pub open spec fn checked(e: Entries, host: Seq<char>, port: u16, fingerprint: Seq<char>) -> Check {
    match recorded(e, key_of(host, port)) {
        None => Check::New,
        Some(stored) => if stored == fingerprint {
            Check::Trusted
        } else {
            Check::Mismatch { expected: stored, received: fingerprint }
        },
    }
}

/// The entry on a line: a key and a fingerprint with white space between them. Empty
/// lines, comments and lines without a fingerprint have none.
pub open spec fn entry_on(line: Seq<char>) -> Option<(Seq<char>, Seq<char>)> {
    let l = text::trimmed(line);
    if l.len() == 0 || l[0] == '#' {
        None
    } else {
        match text::split_at_white(l) {
            Some((k, v)) => Some((text::trimmed(k), text::trimmed(v))),
            None => None,
        }
    }
}

/// The entries on some lines; a later one replaces an earlier one of its key.
pub open spec fn entries_on(lines: Seq<Seq<char>>) -> Entries
    decreases lines.len(),
{
    if lines.len() == 0 {
        Seq::empty()
    } else {
        let front = entries_on(lines.drop_last());
        match entry_on(lines.last()) {
            Some((k, v)) => recording(front, k, v),
            None => front,
        }
    }
}

/// The entries of a text.
pub open spec fn parsed(s: Seq<char>) -> Entries {
    entries_on(text::split_parts(s, '\n', '\n'))
}

/// The text of some entries: a line for each.
pub open spec fn text_of(e: Entries) -> Seq<char>
    decreases e.len(),
{
    if e.len() == 0 {
        Seq::empty()
    } else {
        text_of(e.drop_last()) + e.last().0 + " "@ + e.last().1 + "\n"@
    }
}

proof fn lemma_recording_at(e: Entries, key: Seq<char>, fingerprint: Seq<char>, i: int)
    requires
        0 <= i < e.len(),
        e[i].0 == key,
        forall|j: int| 0 <= j < i ==> (#[trigger] e[j]).0 != key,
    ensures
        recording(e, key, fingerprint) == e.update(i, (key, fingerprint)),
        recorded(e, key) == Some(e[i].1),
    decreases i,
{
    if i > 0 {
        let rest = e.skip(1);
        assert(rest[i - 1] == e[i]);
        assert forall|j: int| 0 <= j < i - 1 implies (#[trigger] rest[j]).0 != key by {
            assert(e[j + 1].0 != key);
        }
        lemma_recording_at(rest, key, fingerprint, i - 1);
        assert(e[0].0 != key);
        assert(seq![e[0]] + rest.update(i - 1, (key, fingerprint)) =~= e.update(
            i,
            (key, fingerprint),
        ));
    }
}

proof fn lemma_recording_new(e: Entries, key: Seq<char>, fingerprint: Seq<char>)
    requires
        forall|j: int| 0 <= j < e.len() ==> (#[trigger] e[j]).0 != key,
    ensures
        recording(e, key, fingerprint) == e.push((key, fingerprint)),
        recorded(e, key) is None,
    decreases e.len(),
{
    if e.len() == 0 {
        assert(e.push((key, fingerprint)) =~= seq![(key, fingerprint)]);
    } else {
        let rest = e.skip(1);
        assert forall|j: int| 0 <= j < rest.len() implies (#[trigger] rest[j]).0 != key by {
            assert(e[j + 1].0 != key);
        }
        assert(e[0].0 != key);
        lemma_recording_new(rest, key, fingerprint);
        assert(seq![e[0]] + rest.push((key, fingerprint)) =~= e.push((key, fingerprint)));
    }
}

proof fn lemma_recording_distinct(e: Entries, key: Seq<char>, fingerprint: Seq<char>)
    requires
        keys_distinct(e),
    ensures
        keys_distinct(recording(e, key, fingerprint)),
{
    if exists|i: int| 0 <= i < e.len() && (#[trigger] e[i]).0 == key {
        let i = choose|i: int| 0 <= i < e.len() && (#[trigger] e[i]).0 == key;
        assert forall|j: int| 0 <= j < i implies (#[trigger] e[j]).0 != key by {
            assert(e[j].0 != e[i].0);
        }
        lemma_recording_at(e, key, fingerprint, i);
    } else {
        lemma_recording_new(e, key, fingerprint);
    }
}

impl Clone for KnownHosts {
    fn clone(&self) -> (r: Self)
        ensures
            r@ == self@,
    {
        let mut entries: Vec<Entry> = Vec::new();
        let mut i: usize = 0;
        while i < self.entries.len()
            invariant
                i <= self.entries@.len(),
                entries@ == self.entries@.take(i as int),
            decreases self.entries@.len() - i,
        {
            entries.push(self.entries[i].clone());
            assert(entries@ =~= self.entries@.take(i + 1));
            i += 1;
        }
        assert(entries@ =~= self.entries@);
        KnownHosts { entries }
    }
}

impl KnownHosts {
    /// What holds of every list: no key has two entries.
    pub open spec fn valid(self) -> bool {
        keys_distinct(self@)
    }

    /// No entries.
    pub fn empty() -> (r: KnownHosts)
        ensures
            r.valid(),
            r@ == Entries::empty(),
    {
        let r = KnownHosts { entries: Vec::new() };
        assert(r@ =~= Entries::empty());
        r
    }

    /// The entries of a text.
    pub fn parse(s: &str) -> (r: KnownHosts)
        ensures
            r.valid(),
            r@ == parsed(s@),
    {
        let chars = text::chars_of(s);
        let lines = text::split_chars(chars.as_slice(), '\n', '\n');
        let ghost all = text::views(lines@);
        let mut hosts = KnownHosts::empty();
        let mut i: usize = 0;
        assert(all.take(0) =~= Seq::empty());
        while i < lines.len()
            invariant
                i <= lines@.len(),
                all == text::views(lines@),
                hosts.valid(),
                hosts@ == entries_on(all.take(i as int)),
            decreases lines@.len() - i,
        {
            proof {
                assert(all.take(i + 1).drop_last() =~= all.take(i as int));
                assert(all.take(i + 1).last() == lines@[i as int]@);
            }
            let line = text::trim_chars(lines[i].as_slice());
            if line.len() > 0 && line[0] != '#' {
                if let Some((k, v)) = text::split_white(line.as_slice()) {
                    let k = text::trim_chars(k.as_slice());
                    let v = text::trim_chars(v.as_slice());
                    hosts.insert(text::string_of(k.as_slice()), text::string_of(v.as_slice()));
                }
            }
            i += 1;
        }
        assert(all.take(all.len() as int) =~= all);
        hosts
    }

    /// The text of the entries.
    pub fn to_text(&self) -> (r: String)
        ensures
            r@ == text_of(self@),
    {
        let mut s = String::new();
        let ghost all = self@;
        let mut i: usize = 0;
        assert(all.take(0) =~= Seq::empty());
        while i < self.entries.len()
            invariant
                i <= self.entries@.len(),
                all == self@,
                s@ == text_of(all.take(i as int)),
            decreases self.entries@.len() - i,
        {
            proof {
                assert(all.take(i + 1).drop_last() =~= all.take(i as int));
                assert(all.take(i + 1).last() == self.entries@[i as int]@);
            }
            let e = &self.entries[i];
            s.push_str(e.key.as_str());
            s.push_str(" ");
            s.push_str(e.fingerprint.as_str());
            s.push_str("\n");
            i += 1;
        }
        assert(all.take(all.len() as int) =~= all);
        s
    }

    fn key(host: &str, port: u16) -> (r: String)
        ensures
            r@ == key_of(host@, port),
    {
        let mut s = text::concat(host, ":");
        s.push_str(text::decimal_text(port as u64).as_str());
        s
    }

    fn find(&self, key: &str) -> (r: Option<usize>)
        ensures
            match r {
                Some(i) => {
                    &&& i < self@.len()
                    &&& self@[i as int].0 == key@
                    &&& forall|j: int| 0 <= j < i ==> (#[trigger] self@[j]).0 != key@
                },
                None => forall|j: int| 0 <= j < self@.len() ==> (#[trigger] self@[j]).0 != key@,
            },
    {
        let mut i: usize = 0;
        while i < self.entries.len()
            invariant
                i <= self.entries@.len(),
                forall|j: int| 0 <= j < i ==> (#[trigger] self@[j]).0 != key@,
            decreases self.entries@.len() - i,
        {
            assert(self@[i as int] == self.entries@[i as int]@);
            if text::same_text(self.entries[i].key.as_str(), key) {
                return Some(i);
            }
            i += 1;
        }
        None
    }

    fn insert(&mut self, key: String, fingerprint: String)
        requires
            old(self).valid(),
        ensures
            final(self).valid(),
            final(self)@ == recording(old(self)@, key@, fingerprint@),
    {
        let ghost before = self@;
        proof {
            lemma_recording_distinct(before, key@, fingerprint@);
        }
        match self.find(key.as_str()) {
            Some(i) => {
                proof {
                    lemma_recording_at(before, key@, fingerprint@, i as int);
                }
                self.entries[i] = Entry { key, fingerprint };
                assert(self@ =~= before.update(i as int, (key@, fingerprint@)));
            },
            None => {
                proof {
                    lemma_recording_new(before, key@, fingerprint@);
                }
                self.entries.push(Entry { key, fingerprint });
                assert(self@ =~= before.push((key@, fingerprint@)));
            },
        }
    }

    /// Compares a presented fingerprint with the recorded one.
    pub fn check(&self, host: &str, port: u16, fingerprint: &str) -> (r: KeyCheck)
        ensures
            r@ == checked(self@, host@, port, fingerprint@),
    {
        let key = Self::key(host, port);
        match self.find(key.as_str()) {
            None => {
                proof {
                    lemma_recording_new(self@, key@, fingerprint@);
                }
                KeyCheck::New
            },
            Some(i) => {
                proof {
                    lemma_recording_at(self@, key@, fingerprint@, i as int);
                    assert(self@[i as int] == self.entries@[i as int]@);
                }
                let stored = &self.entries[i].fingerprint;
                if text::same_text(stored.as_str(), fingerprint) {
                    KeyCheck::Trusted
                } else {
                    KeyCheck::Mismatch {
                        expected: stored.clone(),
                        received: fingerprint.to_owned(),
                    }
                }
            },
        }
    }

    /// Records a fingerprint.
    pub fn add(&mut self, host: &str, port: u16, fingerprint: &str)
        requires
            old(self).valid(),
        ensures
            final(self).valid(),
            final(self)@ == recording(old(self)@, key_of(host@, port), fingerprint@),
    {
        let key = Self::key(host, port);
        self.insert(key, fingerprint.to_owned());
    }
}

// ---------------------------------------------------------------------------
// Laws
// ---------------------------------------------------------------------------

/// A fingerprint is found again under its key, and no other key is affected.
pub proof fn law_recorded_is_found(e: Entries, k: Seq<char>, v: Seq<char>, other: Seq<char>)
    ensures
        recorded(recording(e, k, v), other) == if other == k {
            Some(v)
        } else {
            recorded(e, other)
        },
    decreases e.len(),
{
    if e.len() == 0 {
        let one = seq![(k, v)];
        assert(one.skip(1) =~= Entries::empty());
        assert(recorded(one.skip(1), other) is None);
    } else if e[0].0 == k {
        assert(e.update(0, (k, v)).skip(1) =~= e.skip(1));
    } else {
        law_recorded_is_found(e.skip(1), k, v, other);
        let after = seq![e[0]] + recording(e.skip(1), k, v);
        assert(after.skip(1) =~= recording(e.skip(1), k, v));
    }
}

/// Different hosts, and different ports of one host, have different keys.
pub proof fn law_keys_are_unique(h1: Seq<char>, p1: u16, h2: Seq<char>, p2: u16)
    requires
        key_of(h1, p1) == key_of(h2, p2),
    ensures
        h1 == h2,
        p1 == p2,
{
    reveal_strlit(":");
    let a = text::decimal(p1 as nat);
    let b = text::decimal(p2 as nat);
    let k = key_of(h1, p1);
    text::lemma_decimal_digits(p1 as nat);
    text::lemma_decimal_digits(p2 as nat);
    assert(k.len() == h1.len() + 1 + a.len());
    assert(k.len() == h2.len() + 1 + b.len());
    assert(k[h1.len() as int] == ':');
    assert(key_of(h2, p2)[h2.len() as int] == ':');
    if h1.len() < h2.len() {
        assert(k[h2.len() as int] == a[h2.len() - h1.len() - 1]);
    } else if h2.len() < h1.len() {
        assert(key_of(h2, p2)[h1.len() as int] == b[h1.len() - h2.len() - 1]);
    }
    assert(k.take(h1.len() as int) =~= h1);
    assert(key_of(h2, p2).take(h2.len() as int) =~= h2);
    assert(k.skip(h1.len() as int + 1) =~= a);
    assert(key_of(h2, p2).skip(h2.len() as int + 1) =~= b);
    text::lemma_decimal_injective(p1 as nat, p2 as nat);
}

/// Trust on first use: once a fingerprint is recorded for a host, that fingerprint is
/// trusted there and every other one refused.
pub proof fn law_trust_on_first_use(
    e: Entries,
    host: Seq<char>,
    port: u16,
    first: Seq<char>,
    later: Seq<char>,
)
    ensures
        checked(recording(e, key_of(host, port), first), host, port, later) == if later == first {
            Check::Trusted
        } else {
            Check::Mismatch { expected: first, received: later }
        },
{
    law_recorded_is_found(e, key_of(host, port), first, key_of(host, port));
}

/// What is recorded for one host changes nothing for another.
pub proof fn law_other_hosts_are_unaffected(
    e: Entries,
    host: Seq<char>,
    port: u16,
    fingerprint: Seq<char>,
    other_host: Seq<char>,
    other_port: u16,
    presented: Seq<char>,
)
    requires
        other_host != host || other_port != port,
    ensures
        checked(recording(e, key_of(host, port), fingerprint), other_host, other_port, presented)
            == checked(e, other_host, other_port, presented),
{
    if key_of(host, port) == key_of(other_host, other_port) {
        law_keys_are_unique(host, port, other_host, other_port);
    }
    law_recorded_is_found(e, key_of(host, port), fingerprint, key_of(other_host, other_port));
}

/// Whether an entry survives on a line of its own: its key is one word and no comment,
/// and its fingerprint has no white space around it and no line break in it.
pub open spec fn storable(e: (Seq<char>, Seq<char>)) -> bool {
    &&& e.0.len() > 0
    &&& e.0[0] != '#'
    &&& text::no_white(e.0)
    &&& e.1.len() > 0
    &&& !text::whitespace(e.1.first())
    &&& !text::whitespace(e.1.last())
    &&& !e.1.contains('\n')
}

proof fn lemma_split_line(s: Seq<char>, line: Seq<char>)
    requires
        text::split_parts(s, '\n', '\n').len() > 0,
        text::split_parts(s, '\n', '\n').last().len() == 0,
        !line.contains('\n'),
    ensures
        text::split_parts(s + line, '\n', '\n') == text::split_parts(
            s,
            '\n',
            '\n',
        ).drop_last().push(line),
    decreases line.len(),
{
    let parts = text::split_parts(s, '\n', '\n');
    if line.len() == 0 {
        assert(s + line =~= s);
        assert(parts.last() =~= line);
        assert(parts =~= parts.drop_last().push(line));
    } else {
        let front = line.drop_last();
        assert forall|c: char| front.contains(c) implies line.contains(c) by {
            let i = choose|i: int| 0 <= i < front.len() && front[i] == c;
            assert(line[i] == c);
        }
        assert(line.contains(line.last()));
        lemma_split_line(s, front);
        assert((s + line).drop_last() =~= s + front);
        let before = parts.drop_last().push(front);
        assert(before.drop_last() =~= parts.drop_last());
        assert(front.push(line.last()) =~= line);
    }
}

proof fn lemma_entry_on_line(k: Seq<char>, v: Seq<char>)
    requires
        storable((k, v)),
    ensures
        entry_on(k + " "@ + v) == Some((k, v)),
        !(k + " "@ + v).contains('\n'),
{
    reveal_strlit(" ");
    let l = k + " "@ + v;
    assert(" "@ =~= seq![' ']);
    assert(l.first() == k[0]);
    assert(l.last() == v.last());
    assert(text::trimmed(l) == l);
    text::lemma_split_at_white(k, ' ', v);
    assert(!text::whitespace(k.last()));
    assert forall|i: int| 0 <= i < l.len() implies l[i] != '\n' by {
        if i > k.len() {
            assert(l[i] == v[i - k.len() - 1]);
            assert(v.contains(v[i - k.len() - 1]));
        }
    }
}

proof fn lemma_recording_last(e: Entries, k: Seq<char>, v: Seq<char>)
    requires
        keys_distinct(e.push((k, v))),
    ensures
        recording(e, k, v) == e.push((k, v)),
{
    let all = e.push((k, v));
    assert forall|j: int| 0 <= j < e.len() implies (#[trigger] e[j]).0 != k by {
        assert(all[j].0 != all[e.len() as int].0);
    }
    lemma_recording_new(e, k, v);
}

proof fn lemma_text_parts(e: Entries)
    requires
        keys_distinct(e),
        forall|i: int| 0 <= i < e.len() ==> storable(#[trigger] e[i]),
    ensures
        ({
            let parts = text::split_parts(text_of(e), '\n', '\n');
            &&& parts.len() > 0
            &&& parts.last().len() == 0
            &&& entries_on(parts.drop_last()) == e
        }),
    decreases e.len(),
{
    let parts = text::split_parts(text_of(e), '\n', '\n');
    if e.len() == 0 {
        assert(parts.drop_last() =~= Seq::empty());
        assert(e =~= Entries::empty());
    } else {
        let front = e.drop_last();
        let (k, v) = e.last();
        assert(storable(e[e.len() - 1]));
        assert forall|i: int| 0 <= i < front.len() implies storable(#[trigger] front[i]) by {
            assert(storable(e[i]));
        }
        assert(keys_distinct(front)) by {
            assert forall|i: int, j: int| 0 <= i < j < front.len() implies (#[trigger] front[i]).0
                != (#[trigger] front[j]).0 by {
                assert(e[i].0 != e[j].0);
            }
        }
        lemma_text_parts(front);
        lemma_entry_on_line(k, v);
        reveal_strlit("\n");
        let line = k + " "@ + v;
        let before = text::split_parts(text_of(front), '\n', '\n');
        lemma_split_line(text_of(front), line);
        let s = text_of(front) + line;
        assert(text_of(e) =~= s.push('\n'));
        assert(s.push('\n').drop_last() =~= s);
        assert(parts == before.drop_last().push(line).push(Seq::empty()));
        let lines = parts.drop_last();
        assert(lines =~= before.drop_last().push(line));
        assert(lines.drop_last() =~= before.drop_last());
        assert(e =~= front.push((k, v)));
        lemma_recording_last(front, k, v);
    }
}

/// What was written is read again.
pub proof fn law_text_roundtrip(e: Entries)
    requires
        keys_distinct(e),
        forall|i: int| 0 <= i < e.len() ==> storable(#[trigger] e[i]),
    ensures
        parsed(text_of(e)) == e,
{
    lemma_text_parts(e);
    let parts = text::split_parts(text_of(e), '\n', '\n');
    let last = parts.last();
    assert(text::trimmed(last).len() == 0);
    assert(entry_on(last) is None);
}

/// The entry of a host whose name is one word and no comment survives on its line.
pub proof fn law_host_keys_are_storable(host: Seq<char>, port: u16, fingerprint: Seq<char>)
    requires
        text::no_white(host),
        host.len() > 0 ==> host[0] != '#',
        fingerprint.len() > 0,
        text::no_white(fingerprint),
    ensures
        storable((key_of(host, port), fingerprint)),
{
    reveal_strlit(":");
    let k = key_of(host, port);
    let d = text::decimal(port as nat);
    text::lemma_decimal_digits(port as nat);
    assert forall|i: int| 0 <= i < k.len() implies !text::whitespace(#[trigger] k[i]) by {
        if i < host.len() {
            assert(k[i] == host[i]);
        } else if i > host.len() {
            assert(k[i] == d[i - host.len() - 1]);
        }
    }
    if host.len() > 0 {
        assert(k[0] == host[0]);
    }
    if fingerprint.contains('\n') {
        let i = choose|i: int| 0 <= i < fingerprint.len() && fingerprint[i] == '\n';
        assert(text::whitespace(fingerprint[i]));
    }
    assert(!text::whitespace(fingerprint[fingerprint.len() - 1]));
}

/// A host is known by its name and its port, with a colon between them.
pub proof fn law_key_of_a_host(host: Seq<char>, port: u16)
    ensures
        key_of(host, port) == host + seq![':'] + text::decimal(port as nat),
{
    reveal_strlit(":");
    assert(":"@ =~= seq![':']);
}

/// A fingerprint is recorded for a key exactly where there is an entry with both.
pub proof fn law_recorded_entries(e: Entries, key: Seq<char>, fingerprint: Seq<char>)
    requires
        keys_distinct(e),
    ensures
        recorded(e, key) == Some(fingerprint) <==> e.contains((key, fingerprint)),
        recorded(e, key) is None <==> forall|i: int| 0 <= i < e.len() ==> (#[trigger] e[i]).0 != key,
{
    if exists|i: int| 0 <= i < e.len() && (#[trigger] e[i]).0 == key {
        let i = choose|i: int| 0 <= i < e.len() && (#[trigger] e[i]).0 == key;
        assert forall|j: int| 0 <= j < i implies (#[trigger] e[j]).0 != key by {
            assert(e[j].0 != e[i].0);
        }
        lemma_recording_at(e, key, fingerprint, i);
        if e.contains((key, fingerprint)) {
            let k = choose|k: int| 0 <= k < e.len() && e[k] == (key, fingerprint);
            if k < i {
                assert(e[k].0 != e[i].0);
            } else if i < k {
                assert(e[i].0 != e[k].0);
            }
        }
    } else {
        lemma_recording_new(e, key, fingerprint);
        if e.contains((key, fingerprint)) {
            let k = choose|k: int| 0 <= k < e.len() && e[k] == (key, fingerprint);
            assert(e[k].0 == key);
        }
    }
}

/// Recording a key of a host that is known replaces the fingerprint where it stands; that of
/// another host comes behind the others.
pub proof fn law_recording_in_place(e: Entries, key: Seq<char>, fingerprint: Seq<char>, i: int)
    requires
        keys_distinct(e),
    ensures
        0 <= i < e.len() && e[i].0 == key ==> recording(e, key, fingerprint) == e.update(
            i,
            (key, fingerprint),
        ),
        (forall|j: int| 0 <= j < e.len() ==> (#[trigger] e[j]).0 != key) ==> recording(
            e,
            key,
            fingerprint,
        ) == e.push((key, fingerprint)),
{
    if 0 <= i < e.len() && e[i].0 == key {
        assert forall|j: int| 0 <= j < i implies (#[trigger] e[j]).0 != key by {
            assert(e[j].0 != e[i].0);
        }
        lemma_recording_at(e, key, fingerprint, i);
    }
    if forall|j: int| 0 <= j < e.len() ==> (#[trigger] e[j]).0 != key {
        lemma_recording_new(e, key, fingerprint);
    }
}

/// The file is read line by line: what stands on one more line at its end is recorded as well,
/// also for a host that stands further up, and a line without an entry adds nothing.
pub proof fn law_lines_are_read_one_by_one(s: Seq<char>, line: Seq<char>)
    requires
        !line.contains('\n'),
    ensures
        parsed(s + seq!['\n'] + line) == match entry_on(line) {
            Some((k, v)) => recording(parsed(s), k, v),
            None => parsed(s),
        },
{
    text::law_parts_around_a_separator(s, '\n', line, '\n', '\n');
    text::law_one_part(line, '\n', '\n');
    let parts = text::split_parts(s, '\n', '\n');
    let all = parts + seq![line];
    assert(all.drop_last() =~= parts);
    assert(all.last() == line);
}

/// Blank lines and comments hold no entry, nor does a line with one word.
pub proof fn law_lines_without_an_entry(line: Seq<char>, rest: Seq<char>)
    ensures
        (forall|i: int| 0 <= i < line.len() ==> text::whitespace(#[trigger] line[i])) ==> entry_on(
            line,
        ) is None,
        entry_on(seq!['#'] + rest) is None,
        text::no_white(line) ==> entry_on(line) is None,
{
    if forall|i: int| 0 <= i < line.len() ==> text::whitespace(#[trigger] line[i]) {
        text::lemma_trimmed_start(line);
        let t = text::trimmed_start(line);
        if t.len() > 0 {
            assert(t.first() == line[line.len() - t.len()]);
        }
        text::lemma_trimmed_end(t);
    }
    let c = seq!['#'] + rest;
    assert(c[0] == '#');
    assert(text::trimmed_start(c) == c);
    text::lemma_trimmed_end(c);
    let t = text::trimmed(c);
    if t.len() > 0 {
        assert(t[0] == c[0]);
    }
    if text::no_white(line) {
        assert(text::trimmed_start(line) == line);
        assert(text::trimmed(line) == line);
        text::lemma_split_at_white_none(line);
    }
}

/// An entry may stand on its line with white space before it, behind it, and in any amount
/// between its parts.
pub proof fn law_white_space_around_entries(
    a: Seq<char>,
    k: Seq<char>,
    w: char,
    b: Seq<char>,
    v: Seq<char>,
    c: Seq<char>,
)
    requires
        storable((k, v)),
        text::whitespace(w),
        forall|i: int| 0 <= i < a.len() ==> text::whitespace(#[trigger] a[i]),
        forall|i: int| 0 <= i < b.len() ==> text::whitespace(#[trigger] b[i]),
        forall|i: int| 0 <= i < c.len() ==> text::whitespace(#[trigger] c[i]),
    ensures
        entry_on(a + k + seq![w] + b + v + c) == Some((k, v)),
{
    let line = a + k + seq![w] + b + v + c;
    let mid = k + seq![w] + (b + v);
    assert(line =~= a + mid + c);
    assert(mid.first() == k[0]);
    assert(mid.last() == v.last());
    lemma_trimmed_around(a, mid, c);
    text::lemma_split_at_white(k, w, b + v);
    lemma_trimmed_around(b, v, Seq::empty());
    assert(b + v + Seq::<char>::empty() =~= b + v);
    lemma_trimmed_around(Seq::empty(), k, Seq::empty());
    assert(Seq::<char>::empty() + k + Seq::<char>::empty() =~= k);
}

proof fn lemma_trimmed_around(a: Seq<char>, s: Seq<char>, c: Seq<char>)
    requires
        s.len() > 0,
        !text::whitespace(s.first()),
        !text::whitespace(s.last()),
        forall|i: int| 0 <= i < a.len() ==> text::whitespace(#[trigger] a[i]),
        forall|i: int| 0 <= i < c.len() ==> text::whitespace(#[trigger] c[i]),
    ensures
        text::trimmed(a + s + c) == s,
{
    let all = a + s + c;
    let t = text::trimmed_start(all);
    text::lemma_trimmed_start(all);
    let gone = all.len() - t.len();
    if gone > a.len() {
        assert(all[a.len() as int] == s.first());
    } else if gone < a.len() {
        assert(t.first() == all[gone]);
        assert(all[gone] == a[gone]);
    }
    assert(t =~= s + c);
    let e = text::trimmed_end(t);
    text::lemma_trimmed_end(t);
    if e.len() < s.len() {
        assert(t[s.len() - 1] == s.last());
    } else if e.len() > s.len() {
        assert(e.last() == t[e.len() - 1]);
        assert(t[e.len() - 1] == c[e.len() - 1 - s.len()]);
    }
    assert(e =~= s);
}

} // verus!
