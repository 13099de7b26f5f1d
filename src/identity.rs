//! Owner, group and date labels of an entry, from the system's databases.

use vstd::prelude::*;
use crate::text::{decimal, decimal_string};
use crate::tree::EntryMeta;

verus! {

/// Relies on `users::get_user_by_uid`: the account name of `uid` in the
/// system's user database, if it has one. The answer depends on the machine.
#[verifier::external_body]
fn lookup_user(uid: u32) -> Option<String> {
    match users::get_user_by_uid(uid) {
        Some(u) => Some(u.name().to_string_lossy().into_owned()),
        None => None,
    }
}

/// Relies on `users::get_group_by_gid`: the name of group `gid` in the
/// system's group database, if it has one. The answer depends on the machine.
#[verifier::external_body]
fn lookup_group(gid: u32) -> Option<String> {
    match users::get_group_by_gid(gid) {
        Some(g) => Some(g.name().to_string_lossy().into_owned()),
        None => None,
    }
}

/// Relies on chrono's `Local` time zone and `DateTime::format`: the instant
/// `secs` seconds (and `nanos`) after the epoch, as local time in the form
/// "%b %d %H:%M"; none where that local time does not exist or is ambiguous.
/// The answer depends on the machine's time zone.
#[verifier::external_body]
fn local_time_text(secs: i64, nanos: u32) -> Option<String> {
    match chrono::TimeZone::timestamp_opt(&chrono::Local, secs, nanos).single() {
        Some(t) => Some(t.format("%b %d %H:%M").to_string()),
        None => None,
    }
}

/// The text shown for an owner or group id: its name when one is known,
/// else the id in decimal.
pub fn id_label(id: u32, name: Option<String>) -> (r: String)
    ensures
        r@ == match name {
            Some(n) => n@,
            None => decimal(id as nat),
        },
{
    match name {
        Some(n) => n,
        None => decimal_string(id as u64),
    }
}

impl EntryMeta {
    /// The metadata of an entry of `len` bytes and permission bits `mode`,
    /// owned by `uid` and `gid`, last modified at `modified` (seconds and
    /// nanoseconds after the epoch) where the platform tells.
    pub fn new(len: u64, mode: u32, uid: u32, gid: u32, modified: Option<(i64, u32)>) -> (r: EntryMeta)
        ensures
            r.len == len,
            r.mode == mode,
            modified is None ==> r.modified is None,
    {
        let owner = id_label(uid, lookup_user(uid));
        let group = id_label(gid, lookup_group(gid));
        let modified = match modified {
            Some((secs, nanos)) => local_time_text(secs, nanos),
            None => None,
        };
        EntryMeta { len, mode, owner, group, modified }
    }
}

} // verus!
