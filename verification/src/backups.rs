//! Database backups: the names of backup files and the list of backups
//! shown to the user, newest first.

use vstd::prelude::*;
use crate::tables::{Record, newest_first_order, order_newest_first, positions, reorder, stamps};
use crate::text::{
    append_str, chars_of, eq_ignore_ascii_case, eq_ignore_ascii_case_str, string_from_chars, sub_chars,
};

verus! {

/// A backup file of the database.
pub struct BackupInfo {
    pub path: String,
    pub filename: String,
    pub created_at: String,
}

pub struct BackupView {
    pub path: Seq<char>,
    pub filename: Seq<char>,
    pub created_at: Seq<char>,
}

impl View for BackupInfo {
    type V = BackupView;

    open spec fn view(&self) -> BackupView {
        BackupView { path: self.path@, filename: self.filename@, created_at: self.created_at@ }
    }
}

impl Record for BackupInfo {
    open spec fn key(&self) -> Seq<char> {
        self.path@
    }

    open spec fn stamp(&self) -> Seq<char> {
        self.created_at@
    }

    fn key_str(&self) -> (out: &str) {
        self.path.as_str()
    }

    fn stamp_str(&self) -> (out: &str) {
        self.created_at.as_str()
    }
}

impl BackupInfo {
    pub fn duplicate(&self) -> (out: BackupInfo)
        ensures
            out@ == self@,
    {
        BackupInfo {
            path: self.path.clone(),
            filename: self.filename.clone(),
            created_at: self.created_at.clone(),
        }
    }
}

pub open spec fn backup_views(s: Seq<BackupInfo>) -> Seq<BackupView> {
    s.map_values(|b: BackupInfo| b@)
}

/// The position of the last `.` in a file name, `-1` when there is none.
pub open spec fn last_dot(name: Seq<char>) -> int
    decreases name.len(),
{
    if name.len() == 0 {
        -1
    } else if name.last() == '.' {
        name.len() - 1
    } else {
        last_dot(name.drop_last())
    }
}

/// `Path::extension` of a file name: what follows the last `.`, unless that
/// `.` starts the name.
pub open spec fn extension_of(name: Seq<char>) -> Option<Seq<char>> {
    let k = last_dot(name);
    if k <= 0 {
        None
    } else {
        Some(name.subrange(k + 1, name.len() as int))
    }
}

/// The file name has the extension `sqlite`, ASCII case ignored.
pub open spec fn has_sqlite_extension(name: Seq<char>) -> bool {
    match extension_of(name) {
        Some(e) => eq_ignore_ascii_case(e, "sqlite"@),
        None => false,
    }
}

/// The entries whose file name has the extension `sqlite`, in order.
pub open spec fn sqlite_files(entries: Seq<BackupView>) -> Seq<BackupView>
    decreases entries.len(),
{
    if entries.len() == 0 {
        entries
    } else {
        let rest = sqlite_files(entries.drop_last());
        if has_sqlite_extension(entries.last().filename) {
            rest.push(entries.last())
        } else {
            rest
        }
    }
}

/// The backups among the entries of the backup folder, newest first.
pub open spec fn backups_newest_first(entries: Seq<BackupView>) -> Seq<BackupView> {
    let kept = sqlite_files(entries);
    reorder(kept, newest_first_order(kept.map_values(|b: BackupView| b.created_at), kept.len()))
}

/// Whether a file name has the extension `sqlite`, ASCII case ignored.
pub fn is_sqlite_file_name(name: &str) -> (out: bool)
    ensures
        out == has_sqlite_extension(name@),
{
    let chars = chars_of(name);
    let ghost s = chars@;
    let mut last: usize = 0;
    let mut found = false;
    let mut i: usize = 0;
    assert(s.take(0) =~= Seq::<char>::empty());
    while i < chars.len()
        invariant
            i <= chars.len(),
            s == chars@,
            found ==> last < i,
            last_dot(s.take(i as int)) == (if found {
                last as int
            } else {
                -1
            }),
        decreases chars.len() - i,
    {
        assert(s.take(i + 1).drop_last() =~= s.take(i as int));
        assert(s.take(i + 1).last() == s[i as int]);
        if chars[i] == '.' {
            last = i;
            found = true;
        }
        i += 1;
    }
    assert(s.take(chars.len() as int) =~= s);
    if !found || last == 0 {
        return false;
    }
    let ext = sub_chars(&chars, last + 1, chars.len());
    let text = string_from_chars(&ext);
    eq_ignore_ascii_case_str(text.as_str(), "sqlite")
}

/// The backups among the entries of the backup folder, newest first: the
/// files whose name has the extension `sqlite`, ordered by their time,
/// files of the same time in the order given.
pub fn list_backups(entries: Vec<BackupInfo>) -> (out: Vec<BackupInfo>)
    ensures
        backup_views(out@) == backups_newest_first(backup_views(entries@)),
{
    let ghost ev = backup_views(entries@);
    let mut kept: Vec<BackupInfo> = Vec::new();
    let mut i: usize = 0;
    assert(ev.take(0) =~= Seq::<BackupView>::empty());
    while i < entries.len()
        invariant
            i <= entries.len(),
            ev == backup_views(entries@),
            backup_views(kept@) == sqlite_files(ev.take(i as int)),
        decreases entries.len() - i,
    {
        assert(ev.take(i + 1).drop_last() =~= ev.take(i as int));
        assert(ev.take(i + 1).last() == entries@[i as int]@);
        if is_sqlite_file_name(entries[i].filename.as_str()) {
            let ghost before = backup_views(kept@);
            kept.push(entries[i].duplicate());
            assert(backup_views(kept@) =~= before.push(entries@[i as int]@));
        }
        i += 1;
    }
    assert(ev.take(entries.len() as int) =~= ev);
    let ghost kv = backup_views(kept@);
    assert(stamps(kept@) =~= kv.map_values(|b: BackupView| b.created_at));
    let order = order_newest_first(&kept);
    let ghost ord = positions(order@);
    let ghost target = backups_newest_first(ev);
    let mut out: Vec<BackupInfo> = Vec::new();
    let mut k: usize = 0;
    while k < order.len()
        invariant
            k <= order.len() == kept.len(),
            ord == positions(order@),
            kv == backup_views(kept@),
            forall|m: int| 0 <= m < order.len() ==> #[trigger] order@[m] < kept.len(),
            target == reorder(kv, ord),
            backup_views(out@) =~= target.take(k as int),
        decreases order.len() - k,
    {
        let b = kept[order[k]].duplicate();
        let ghost before = backup_views(out@);
        out.push(b);
        assert(backup_views(out@) =~= before.push(target[k as int]));
        assert(target.take(k + 1) =~= target.take(k as int).push(target[k as int]));
        k += 1;
    }
    assert(target.take(order.len() as int) =~= target);
    out
}

/// The name of a backup file made at the given time stamp.
pub fn backup_file_name(stamp: &str) -> (out: String)
    ensures
        out@ == "cardmind-backup-"@ + stamp@ + ".sqlite"@,
{
    let mut name = chars_of("cardmind-backup-");
    append_str(&mut name, stamp);
    append_str(&mut name, ".sqlite");
    string_from_chars(&name)
}

/// The name of the copy of the database made before a restore.
pub fn restore_safety_file_name(stamp: &str) -> (out: String)
    ensures
        out@ == "cardmind-before-restore-"@ + stamp@ + ".sqlite"@,
{
    let mut name = chars_of("cardmind-before-restore-");
    append_str(&mut name, stamp);
    append_str(&mut name, ".sqlite");
    string_from_chars(&name)
}

} // verus!
