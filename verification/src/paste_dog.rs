//! Rules of the sweeper that deletes pastes and short URLs once they have lived their time.

use vstd::prelude::*;

use crate::info::DankInfo;
use crate::text::{extension_dot, split_extension};

verus! {

/// Largest lifetime an item may ask for, in seconds (three days).
pub const MAX_AGE: u64 = 259200;

/// Lifetime given when none, or too long a one, was asked for (one day).
pub const DEFAULT_AGE: u64 = 86400;

/// Seconds the sweeper waits between two passes.
pub const INTERVAL: u64 = 10;

/// How long an item may live, in seconds: its own expiry, or `MAX_AGE` when that is 0
/// (0 marks a paste that is deleted once read).
pub open spec fn lifetime(expire: u64) -> u64 {
    if expire == 0 {
        MAX_AGE
    } else {
        expire
    }
}

/// Whether an item of the given age, in seconds, is past its lifetime and is to be deleted.
pub fn should_delete<T: DankInfo>(info: &T, age: u64) -> (r: bool)
    ensures
        r == (age > lifetime(info.expire_of())),
        info.expire_of() != 0 ==> r == (age > info.expire_of()),
        info.expire_of() == 0 ==> r == (age > MAX_AGE),
{
    let expire = info.expire();
    if expire == 0 {
        age > MAX_AGE
    } else {
        age > expire
    }
}

/// An item lives exactly as long as its expiry says, except that expiry 0 (read once) lives
/// `MAX_AGE`.
pub proof fn lemma_lifetime_is_expiry(expire: u64)
    ensures
        expire != 0 ==> lifetime(expire) == expire,
        expire == 0 ==> lifetime(expire) == MAX_AGE,
{
}

/// Once an item is past its lifetime it stays so: deletion does not depend on when the
/// sweeper happens to look, only on whether the age has passed the lifetime.
pub proof fn lemma_expiry_is_monotone(expire: u64, age: u64, later: u64)
    requires
        age > lifetime(expire),
        later >= age,
    ensures
        later > lifetime(expire),
{
}

/// No item lives longer than `MAX_AGE` unless it asked for more, which requests cannot do.
pub proof fn lemma_lifetime_bounded(expire: u64)
    requires
        expire <= MAX_AGE,
    ensures
        0 < lifetime(expire) <= MAX_AGE,
{
}

/// What the sweeper does with an entry of the paste directory.
pub enum SweepAction {
    /// Not a marker nor a description: left alone.
    Skip,
    /// A deletion marker: the paste of this identifier is deleted.
    Delete(String),
    /// A description: the paste of this identifier is deleted if it has expired.
    CheckExpiry(String),
}

/// The extension of deletion markers.
pub open spec fn del_ext() -> Seq<char> {
    seq!['d', 'e', 'l']
}

/// The extension of descriptions.
pub open spec fn json_ext() -> Seq<char> {
    seq!['j', 's', 'o', 'n']
}

/// Decides what the sweeper does with the entry `name` of the paste directory: entries with
/// extension `del` are deletion markers, entries with extension `json` are descriptions, and
/// everything else is skipped.
pub fn classify_upload(name: &str) -> (r: SweepAction)
    ensures
        match extension_dot(name@) {
            None => r is Skip,
            Some(i) => {
                let stem = name@.subrange(0, i);
                let ext = name@.subrange(i + 1, name@.len() as int);
                if ext == del_ext() {
                    r matches SweepAction::Delete(id) && id@ == stem
                } else if ext == json_ext() {
                    r matches SweepAction::CheckExpiry(id) && id@ == stem
                } else {
                    r is Skip
                }
            },
        },
{
    match split_extension(name) {
        None => SweepAction::Skip,
        Some((stem, ext)) => {
            let del = String::from_str("del");
            let json = String::from_str("json");
            proof {
                reveal_strlit("del");
                reveal_strlit("json");
                assert(del@ =~= del_ext());
                assert(json@ =~= json_ext());
            }
            if ext == del {
                SweepAction::Delete(stem)
            } else if ext == json {
                SweepAction::CheckExpiry(stem)
            } else {
                SweepAction::Skip
            }
        },
    }
}

} // verus!
