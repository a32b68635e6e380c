//! The names under which copies of the datastore are kept.

use crate::text::{decimal, push_decimal};
use vstd::prelude::*;
use vstd::string::*;

verus! {

/// A request to restore the datastore from a backup.
#[derive(Debug)]
pub struct RestoreFromBackupPayload {
    pub backup_path: String,
}

/// Where a restore read from and wrote to.
#[derive(Debug)]
pub struct RestoreFromBackupResult {
    pub restored_db_path: String,
    pub used_backup_path: String,
    pub safety_backup_path: String,
}

/// The stamp of a backup: the seconds since the Unix epoch, in decimal.
pub fn now_stamp(seconds: u64) -> (r: String)
    ensures
        r@ == decimal(seconds as nat),
{
    let mut out = String::new();
    push_decimal(&mut out, seconds);
    assert(out@ =~= decimal(seconds as nat));
    out
}

/// The text form of the stamp of a group identifier: the milliseconds since
/// the Unix epoch, in decimal.
pub fn chrono_like_id(millis: u64) -> (r: String)
    ensures
        r@ == decimal(millis as nat),
{
    let mut out = String::new();
    push_decimal(&mut out, millis);
    assert(out@ =~= decimal(millis as nat));
    out
}

/// The file name of a backup taken at `seconds`.
pub fn backup_file_name(seconds: u64) -> (r: String)
    ensures
        r@ == "ciel_pos_"@ + decimal(seconds as nat) + ".sqlite"@,
{
    let mut out = String::from_str("ciel_pos_");
    push_decimal(&mut out, seconds);
    out.append(".sqlite");
    out
}

/// The file name of the copy that is kept of the datastore before a restore
/// at `seconds` replaces it.
pub fn safety_file_name(seconds: u64) -> (r: String)
    ensures
        r@ == "ciel_pos_BEFORE_RESTORE_"@ + decimal(seconds as nat) + ".sqlite"@,
{
    let mut out = String::from_str("ciel_pos_BEFORE_RESTORE_");
    push_decimal(&mut out, seconds);
    out.append(".sqlite");
    out
}

/// Whether a restore request names a backup at all.
pub fn names_backup(payload: &RestoreFromBackupPayload) -> (r: bool)
    ensures
        r == (crate::text::trimmed(payload.backup_path@).len() > 0),
{
    crate::text::trim(payload.backup_path.as_str()).unicode_len() > 0
}

} // verus!
