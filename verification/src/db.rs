//! Rules of the server's tables.

use vstd::prelude::*;

use crate::types::{Host, Sealed};

verus! {

/// A user, as stored.
#[derive(Debug)]
pub struct UserRow {
    pub id: i64,
    pub username: String,
    pub password_hash: String,
    pub vault_salt: String,
}

/// Whether a row replaces the stored one: only when its `updated_at` is newer than (or
/// equal to) what is stored.
pub open spec fn replaces(stored: Option<i64>, incoming: i64) -> bool {
    match stored {
        Some(t) => t <= incoming,
        None => true,
    }
}

/// Last-write-wins upsert: whether a row with this `updated_at` is stored, given that of
/// the row with its id that is stored already.
pub fn accepts(stored: Option<i64>, incoming: i64) -> (r: bool)
    ensures
        r == replaces(stored, incoming),
{
    match stored {
        Some(t) => t <= incoming,
        None => true,
    }
}

// ---------------------------------------------------------------------------
// Laws
// ---------------------------------------------------------------------------

/// The host that is stored under an id after an upload.
pub open spec fn host_after(stored: Option<Host>, incoming: Host) -> Host {
    match stored {
        Some(h) => if replaces(Some(h.updated_at), incoming.updated_at) {
            incoming
        } else {
            h
        },
        None => incoming,
    }
}

/// The vault entry that is stored under an id after an upload.
pub open spec fn entry_after(stored: Option<Sealed>, incoming: Sealed) -> Sealed {
    match stored {
        Some(e) => if replaces(Some(e.updated_at), incoming.updated_at) {
            incoming
        } else {
            e
        },
        None => incoming,
    }
}

/// The last write wins, and an older one never overwrites a newer one: what is stored
/// after an upload is as new as both of what was stored and what was uploaded.
pub proof fn law_last_write_wins(stored: Option<Host>, incoming: Host)
    ensures
        host_after(stored, incoming).updated_at >= incoming.updated_at,
        stored matches Some(h) ==> host_after(stored, incoming).updated_at >= h.updated_at,
        stored matches Some(h) ==> host_after(stored, incoming) == if h.updated_at
            > incoming.updated_at {
            h
        } else {
            incoming
        },
        stored is None ==> host_after(stored, incoming) == incoming,
{
}

/// The last write wins for vault entries, too.
pub proof fn law_last_secret_wins(stored: Option<Sealed>, incoming: Sealed)
    ensures
        entry_after(stored, incoming).updated_at >= incoming.updated_at,
        stored matches Some(e) ==> entry_after(stored, incoming).updated_at >= e.updated_at,
        stored matches Some(e) ==> entry_after(stored, incoming) == if e.updated_at
            > incoming.updated_at {
            e
        } else {
            incoming
        },
        stored is None ==> entry_after(stored, incoming) == incoming,
{
}

/// Uploads of different age give the same in either order.
pub proof fn law_order_of_uploads_does_not_matter(stored: Option<Host>, a: Host, b: Host)
    requires
        a.updated_at != b.updated_at,
    ensures
        host_after(Some(host_after(stored, a)), b) == host_after(Some(host_after(stored, b)), a),
{
}

} // verus!
