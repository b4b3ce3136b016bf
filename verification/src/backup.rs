//! The automatic-backup decision.
//!
//! Whether a backup is due is a pure function of the settings table and
//! today's date: the feature must be switched on, a backup directory must be
//! set, and no backup may have been taken today yet.  The clock itself comes
//! from outside through two trusted wrappers; everything decided from its
//! value is verified.  Copying the database file and deleting old backups is
//! I/O and stays outside the crate; [`prune_selection`] picks what to delete.

use vstd::prelude::*;
use vstd::string::StrSliceExecFns;
use crate::admin::{find_setting, find_setting_from};
use crate::models::{BackupInfo, Setting};
use crate::reports::lemma_insert_multiset;
use crate::store::Store;
use crate::text::{lemma_lex_total, lemma_lex_trans, lex_le, str_ends_with, str_lex_le, suffix_of};

verus! {

/// The stored value of a settings key, if the key exists.
pub open spec fn setting_value(s: Seq<Setting>, key: Seq<char>) -> Option<String> {
    let i = find_setting_from(s, key, 0);
    if i >= 0 {
        Some(s[i].value)
    } else {
        None
    }
}

/// The automatic backup is switched on.
pub open spec fn auto_backup_enabled(s: Seq<Setting>) -> bool {
    setting_value(s, "auto_backup"@) matches Some(v) && v@ == "true"@
}

/// The configured backup directory, when one is set and not empty.
pub open spec fn backup_dir_of(s: Seq<Setting>) -> Option<String> {
    match setting_value(s, "backup_dir"@) {
        Some(v) => if v@.len() > 0 {
            Some(v)
        } else {
            None
        },
        None => None,
    }
}

/// A decimal numeral's value over the first `n` characters; `None` when a
/// character is no digit or there are none.
pub open spec fn dec_value(s: Seq<char>, n: int) -> Option<int>
    decreases n,
{
    if n <= 0 {
        Some(0)
    } else {
        match dec_value(s, n - 1) {
            None => None,
            Some(v) => if '0' <= s[n - 1] <= '9' {
                Some(v * 10 + (s[n - 1] as int - '0' as int))
            } else {
                None
            },
        }
    }
}

pub open spec fn parsed_dec(s: Seq<char>) -> Option<int> {
    if s.len() == 0 {
        None
    } else {
        dec_value(s, s.len() as int)
    }
}

proof fn lemma_dec_value_stall(s: Seq<char>, m: int, n: int)
    requires
        0 <= m <= n,
        dec_value(s, m) is None,
    ensures
        dec_value(s, n) is None,
    decreases n - m,
{
    if m < n {
        lemma_dec_value_stall(s, m + 1, n);
    }
}

/// Parse a decimal numeral; `None` on empty input, a non-digit, or a value
/// over `u64::MAX`.
#[verifier::loop_isolation(false)]
pub fn parse_dec(s: &str) -> (r: Option<u64>)
    ensures
        match parsed_dec(s@) {
            None => r is None,
            Some(x) => if x <= u64::MAX {
                r == Some(x as u64)
            } else {
                r is None
            },
        },
{
    let n = s.unicode_len();
    if n == 0 {
        return None;
    }
    let mut v: u64 = 0;
    let mut k: usize = 0;
    while k < n
        invariant
            k <= n,
            n == s@.len(),
            dec_value(s@, k as int) == Some(v as int),
        decreases n - k,
    {
        let c = s.get_char(k);
        if c < '0' || c > '9' {
            proof {
                lemma_dec_value_stall(s@, k as int + 1, n as int);
            }
            return None;
        }
        let d: u64 = ((c as u32) - 48) as u64;
        proof {
            assert('0' as u32 == 48);
            assert(d as int == c as int - '0' as int);
        }
        let shifted = match v.checked_mul(10) {
            Some(x) => x,
            None => {
                proof {
                    lemma_dec_overflow(s@, k as int + 1, n as int);
                }
                return None;
            },
        };
        v = match shifted.checked_add(d) {
            Some(x) => x,
            None => {
                proof {
                    lemma_dec_overflow(s@, k as int + 1, n as int);
                }
                return None;
            },
        };
        k += 1;
    }
    Some(v)
}

/// Once a prefix's value exceeds `u64::MAX`, the numeral's value does too.
proof fn lemma_dec_overflow(s: Seq<char>, m: int, n: int)
    requires
        0 <= m <= n,
        dec_value(s, m) matches Some(v) && v > u64::MAX,
    ensures
        dec_value(s, n) matches Some(v) ==> v > u64::MAX,
    decreases n - m,
{
    if m < n {
        if dec_value(s, m + 1) is Some {
            let v = dec_value(s, m)->Some_0;
            let w = dec_value(s, m + 1)->Some_0;
            let d = s[m] as int - '0' as int;
            assert(w == v * 10 + d && d >= 0);
            assert(w > 0xffff_ffff_ffff_ffff) by (nonlinear_arith)
                requires
                    v > 0xffff_ffff_ffff_ffff,
                    w == v * 10 + d,
                    d >= 0,
            ;
            lemma_dec_overflow(s, m + 1, n);
        } else {
            lemma_dec_value_stall(s, m + 1, n);
        }
    }
}

/// A numeral's value is never negative.
proof fn lemma_dec_value_nonneg(s: Seq<char>, n: int)
    ensures
        dec_value(s, n) matches Some(v) ==> v >= 0,
    decreases n,
{
    if n > 0 {
        lemma_dec_value_nonneg(s, n - 1);
        if dec_value(s, n) is Some {
            let v = dec_value(s, n - 1)->Some_0;
            let d = s[n - 1] as int - '0' as int;
            assert(v * 10 + d >= 0) by (nonlinear_arith)
                requires
                    v >= 0,
                    d >= 0,
            ;
        }
    }
}

/// How many backups to keep: the stored count, or five when the key is
/// absent or unreadable.
pub open spec fn keep_count(s: Seq<Setting>) -> int {
    match setting_value(s, "keep_backups"@) {
        None => 5,
        Some(v) => match parsed_dec(v@) {
            Some(x) => if 0 <= x <= u64::MAX {
                x
            } else {
                5
            },
            None => 5,
        },
    }
}

/// A backup is due: none was recorded yet, or the recorded one is not from
/// today.
pub open spec fn backup_due(s: Seq<Setting>, today: Seq<char>) -> bool {
    match setting_value(s, "last_auto_backup_date"@) {
        None => true,
        Some(d) => d@ != today,
    }
}

/// Everything the boundary needs to take one automatic backup.
pub struct BackupPlan {
    /// Directory the backup file goes to.
    pub dir: String,
    /// Timestamp for the backup's file name.
    pub file_timestamp: String,
    /// Today's date, to be recorded as the last backup date.
    pub today: String,
    /// How many backup files to keep when pruning.
    pub keep: u64,
}

/// Decide whether an automatic backup is due for the given date, and with
/// what directory, file timestamp and retention count.  `Some` exactly when
/// the feature is on, a directory is set, and none was taken today.
#[verifier::loop_isolation(false)]
pub fn plan_auto_backup(settings: &Vec<Setting>, today: String, timestamp: String) -> (r: Option<
    BackupPlan,
>)
    ensures
        r is Some <==> auto_backup_enabled(settings@) && backup_dir_of(settings@) is Some
            && backup_due(settings@, today@),
        r matches Some(p) ==> {
            &&& p.dir == backup_dir_of(settings@)->Some_0
            &&& p.keep as int == keep_count(settings@)
            &&& p.today == today
            &&& p.file_timestamp == timestamp
        },
{
    let enabled = match find_setting(settings, &"auto_backup".to_owned()) {
        None => false,
        Some(i) => settings[i].value == "true".to_owned(),
    };
    if !enabled {
        return None;
    }
    let dir = match find_setting(settings, &"backup_dir".to_owned()) {
        None => return None,
        Some(i) => {
            if settings[i].value.as_str().unicode_len() == 0 {
                return None;
            }
            settings[i].value.clone()
        },
    };
    let keep: u64 = match find_setting(settings, &"keep_backups".to_owned()) {
        None => 5,
        Some(i) => {
            proof {
                lemma_dec_value_nonneg(settings@[i as int].value@, settings@[i as int].value@.len() as int);
            }
            match parse_dec(settings[i].value.as_str()) {
                Some(x) => x,
                None => 5,
            }
        },
    };
    let due = match find_setting(settings, &"last_auto_backup_date".to_owned()) {
        None => true,
        Some(i) => !(settings[i].value == today),
    };
    if !due {
        return None;
    }
    Some(BackupPlan { dir, file_timestamp: timestamp, today, keep })
}

/// Relies on chrono's `Local::now`: the current civil date in the machine's
/// time zone, formatted `YYYY-MM-DD`.  Nothing is promised of the value.
#[verifier::external_body]
fn local_date_string() -> String {
    chrono::Local::now().format("%Y-%m-%d").to_string()
}

/// Relies on chrono's `Local::now`: the current civil time in the machine's
/// time zone, formatted `YYYY-MM-DD-HH-MM-SS`.  Nothing is promised of the
/// value.
#[verifier::external_body]
fn local_timestamp_string() -> String {
    chrono::Local::now().format("%Y-%m-%d-%H-%M-%S").to_string()
}

/// Read the clock and decide whether an automatic backup is due now.
/// Whatever date the clock returned, a plan is handed out only when the
/// feature is on, a directory is set, and the recorded last-backup date is
/// not the plan's own date.
pub fn check_and_auto_backup(store: &Store) -> (r: Option<BackupPlan>)
    ensures
        !auto_backup_enabled(store.settings@) ==> r is None,
        backup_dir_of(store.settings@) is None ==> r is None,
        r matches Some(p) ==> {
            &&& auto_backup_enabled(store.settings@)
            &&& backup_dir_of(store.settings@) is Some
            &&& p.dir == backup_dir_of(store.settings@)->Some_0
            &&& p.keep as int == keep_count(store.settings@)
            &&& backup_due(store.settings@, p.today@)
        },
{
    let today = local_date_string();
    let timestamp = local_timestamp_string();
    plan_auto_backup(&store.settings, today, timestamp)
}

/// Split a backup listing, newest first, into the files to keep and the
/// files to delete: the first `keep` stay, the rest go.
#[verifier::loop_isolation(false)]
pub fn prune_selection(backups: &Vec<BackupInfo>, keep: usize) -> (r: (
    Vec<BackupInfo>,
    Vec<BackupInfo>,
))
    ensures
        r.0@ == backups@.take(vstd::math::min(keep as int, backups@.len() as int)),
        r.1@ == backups@.skip(vstd::math::min(keep as int, backups@.len() as int)),
{
    let n = backups.len();
    let mut kept: Vec<BackupInfo> = Vec::new();
    let mut removed: Vec<BackupInfo> = Vec::new();
    let mut i: usize = 0;
    while i < n
        invariant
            i <= n,
            n == backups@.len(),
            kept@ == backups@.take(vstd::math::min(keep as int, i as int)),
            removed@ == if i > keep {
                backups@.subrange(keep as int, i as int)
            } else {
                Seq::<BackupInfo>::empty()
            },
        decreases n - i,
    {
        let b = &backups[i];
        let row = BackupInfo {
            name: b.name.clone(),
            path: b.path.clone(),
            size: b.size,
            created_at: b.created_at.clone(),
        };
        proof {
            assert(row == backups@[i as int]);
        }
        if i < keep {
            kept.push(row);
            proof {
                assert(backups@.take(vstd::math::min(keep as int, i as int)).push(
                    backups@[i as int],
                ) =~= backups@.take(vstd::math::min(keep as int, i as int + 1)));
            }
        } else {
            removed.push(row);
            proof {
                if i > keep {
                    assert(backups@.subrange(keep as int, i as int).push(backups@[i as int])
                        =~= backups@.subrange(keep as int, i as int + 1));
                } else {
                    assert(Seq::<BackupInfo>::empty().push(backups@[i as int]) =~= backups@
                        .subrange(keep as int, i as int + 1));
                }
            }
        }
        i += 1;
    }
    proof {
        assert(kept@ =~= backups@.take(vstd::math::min(keep as int, n as int)));
        assert(removed@ =~= backups@.skip(vstd::math::min(keep as int, n as int)));
    }
    (kept, removed)
}


/// A file name that counts as a backup file.
pub open spec fn is_backup_name(s: Seq<char>) -> bool {
    suffix_of(".db"@, s) || suffix_of(".bak"@, s)
}

/// The backup files among the first `n` directory entries, in listed order.
pub open spec fn backup_rows(s: Seq<BackupInfo>, n: int) -> Seq<BackupInfo>
    decreases n,
{
    if n <= 0 {
        Seq::<BackupInfo>::empty()
    } else {
        let rest = backup_rows(s, n - 1);
        if is_backup_name(s[n - 1].name@) {
            rest.push(s[n - 1])
        } else {
            rest
        }
    }
}

/// Descending by file name, so that date-stamped names come newest first.
pub open spec fn backups_sorted(s: Seq<BackupInfo>) -> bool {
    forall|i: int, j: int|
        0 <= i < j < s.len() ==> lex_le((#[trigger] s[j]).name@, (#[trigger] s[i]).name@)
}

/// Insert a backup entry at its place in the name-descending listing.
#[verifier::loop_isolation(false)]
fn insert_backup_row(out: &mut Vec<BackupInfo>, row: BackupInfo)
    requires
        backups_sorted(old(out)@),
    ensures
        final(out)@.to_multiset() == old(out)@.to_multiset().insert(row),
        backups_sorted(final(out)@),
        final(out)@.len() == old(out)@.len() + 1,
{
    let mut pos: usize = 0;
    while pos < out.len() && str_lex_le(row.name.as_str(), out[pos].name.as_str())
        invariant
            pos <= out@.len(),
            out@ == old(out)@,
            forall|i: int| 0 <= i < pos ==> lex_le(row.name@, (#[trigger] out@[i]).name@),
        decreases out@.len() - pos,
    {
        pos += 1;
    }
    let ghost out0 = out@;
    proof {
        if (pos as int) < out0.len() {
            lemma_lex_total(row.name@, out0[pos as int].name@);
        }
    }
    out.insert(pos, row);
    proof {
        let p0 = pos as int;
        lemma_insert_multiset(out0, p0, row);
        assert forall|i: int, j: int| 0 <= i < j < out@.len() implies lex_le(
            (#[trigger] out@[j]).name@,
            (#[trigger] out@[i]).name@,
        ) by {
            if i < p0 && j == p0 {
            } else if i == p0 && j > p0 {
                if p0 < j - 1 {
                    lemma_lex_trans(out0[j - 1].name@, out0[p0].name@, row.name@);
                }
            }
        }
    }
}

/// Filter a directory listing down to backup files (`.db` or `.bak`) and
/// sort them newest first by their date-stamped names.
#[verifier::loop_isolation(false)]
pub fn sorted_backups(entries: &Vec<BackupInfo>) -> (r: Vec<BackupInfo>)
    ensures
        r@.to_multiset() == backup_rows(entries@, entries@.len() as int).to_multiset(),
        backups_sorted(r@),
{
    broadcast use vstd::seq_lib::group_to_multiset_ensures;

    let n = entries.len();
    let mut out: Vec<BackupInfo> = Vec::new();
    let ghost mut rows: Seq<BackupInfo> = Seq::empty();
    let mut k: usize = 0;
    while k < n
        invariant
            k <= n,
            rows == backup_rows(entries@, k as int),
            out@.to_multiset() == rows.to_multiset(),
            backups_sorted(out@),
        decreases n - k,
    {
        let b = &entries[k];
        if str_ends_with(b.name.as_str(), ".db") || str_ends_with(b.name.as_str(), ".bak") {
            let row = BackupInfo {
                name: b.name.clone(),
                path: b.path.clone(),
                size: b.size,
                created_at: b.created_at.clone(),
            };
            proof {
                assert(row == entries@[k as int]);
            }
            insert_backup_row(&mut out, row);
            proof {
                rows = rows.push(row);
            }
        }
        k += 1;
    }
    out
}

} // verus!
