use vstd::prelude::*;
use vstd::string::StringExecFns;
use crate::filters::lemma_filter_push;
use crate::models::opt_text;
use crate::order::{is_stable_sort, key_le, sort_by_key_stable, Keyed};
use crate::text::same_text;

verus! {

/// True for a text without a slash, a backslash or a colon: the name of one
/// file, not a path.
pub open spec fn is_single_name(name: Seq<char>) -> bool {
    forall|i: int|
        0 <= i < name.len() ==> #[trigger] name[i] != '/' && name[i] != '\\' && name[i] != ':'
}

/// The position of the last dot of a name, or -1 where it has none.
pub open spec fn last_dot(name: Seq<char>) -> int
    decreases name.len(),
{
    if name.len() == 0 {
        -1
    } else if name.last() == '.' {
        name.len() - 1
    } else {
        last_dot(name.drop_last())
    }
}

/// The extension of a file name: what follows its last dot. A name without
/// a dot has none, nor has a name whose only dot is its first character,
/// nor the name of the parent directory, `..`.
pub open spec fn name_extension(name: Seq<char>) -> Option<Seq<char>> {
    if last_dot(name) <= 0 || name == ".."@ {
        None
    } else {
        Some(name.subrange(last_dot(name) + 1, name.len() as int))
    }
}

/// `std::path::Path::extension` of the path that the text spells, as an
/// owned string. For the name of a single file the contract states the
/// result; of a path with separators it claims nothing, since what
/// separates the parts of a path differs between platforms.
#[verifier::external_body]
pub(crate) fn path_extension(path: &str) -> (r: Option<String>)
    ensures
        is_single_name(path@) ==> opt_text(r) == name_extension(path@),
{
    std::path::Path::new(path).extension().and_then(|e| e.to_str()).map(|e| e.to_owned())
}

/// A file found in the backups directory: its name, the extension of the
/// name, and the instant of its last modification in nanoseconds since the
/// epoch, where that is known.
pub struct BackupEntry {
    pub name: String,
    pub extension: Option<String>,
    pub modified: Option<i128>,
}

impl Keyed for BackupEntry {
    /// Entries without a known modification instant come first, the others
    /// follow by that instant.
    open spec fn key_of(&self) -> (int, int) {
        match self.modified {
            None => (0, 0),
            Some(t) => (1, t as int),
        }
    }

    fn key(&self) -> (k: (i128, i128)) {
        match self.modified {
            None => (0, 0),
            Some(t) => (1, t),
        }
    }
}

/// Selects the entries with the extension `json`.
pub open spec fn is_snapshot_file() -> spec_fn(BackupEntry) -> bool {
    |e: BackupEntry| opt_text(e.extension) == Some("json"@)
}

/// The name of the backup that is written at the local time which `stamp`
/// spells: `flashmaster-`, the stamp, `.json`.
pub open spec fn backup_name(stamp: Seq<char>) -> Seq<char> {
    "flashmaster-"@ + stamp + ".json"@
}

/// Reads the local time with `chrono::Local::now` and writes it with
/// `DateTime::format` as year, month, day, a hyphen, hour, minute and
/// second. Nothing is claimed of the text: it depends on the clock and on
/// the time zone of the machine.
#[verifier::external_body]
pub(crate) fn local_stamp() -> (r: String) {
    chrono::Local::now().format("%Y%m%d-%H%M%S").to_string()
}

/// The name of the backup for the given stamp.
pub fn backup_file_name_at(stamp: &str) -> (r: String)
    ensures
        r@ == backup_name(stamp@),
{
    let mut name = String::new();
    name.append("flashmaster-");
    name.append(stamp);
    name.append(".json");
    proof {
        assert(name@ =~= backup_name(stamp@));
    }
    name
}

/// The name of the backup that is written now: that of the stamp of the
/// local time, to the second.
pub fn backup_file_name() -> (r: String)
    ensures
        exists|stamp: Seq<char>| r@ == #[trigger] backup_name(stamp),
{
    let stamp = local_stamp();
    backup_file_name_at(stamp.as_str())
}

/// A backup that is named after a stamp has the extension `json`, so that
/// a rotation counts it.
pub proof fn lemma_backup_name_is_snapshot(stamp: Seq<char>)
    ensures
        name_extension(backup_name(stamp)) == Some("json"@),
{
    reveal_strlit("flashmaster-");
    reveal_strlit(".json");
    reveal_strlit("json");
    reveal_strlit("..");
    let name = backup_name(stamp);
    let n = name.len() as int;
    assert(name[n - 1] == 'n');
    assert(name[n - 2] == 'o');
    assert(name[n - 3] == 's');
    assert(name[n - 4] == 'j');
    assert(name[n - 5] == '.');
    let a = name.drop_last();
    let b = a.drop_last();
    let c = b.drop_last();
    let d = c.drop_last();
    assert(a.last() == 'o');
    assert(b.last() == 's');
    assert(c.last() == 'j');
    assert(d.last() == '.');
    assert(last_dot(d) == d.len() - 1);
    assert(last_dot(c) == last_dot(d));
    assert(last_dot(b) == last_dot(c));
    assert(last_dot(a) == last_dot(b));
    assert(last_dot(name) == last_dot(a));
    assert(last_dot(name) == n - 5);
    assert(name.subrange(n - 4, n) =~= "json"@);
    assert(name != ".."@);
}

/// What a rotation decides: the entries to delete, oldest first, and the
/// entries that stay, oldest first.
pub struct RotationPlan {
    pub remove: Vec<BackupEntry>,
    pub keep: Vec<BackupEntry>,
}

impl BackupEntry {
    /// The entry for a file with the given name and modification instant.
    /// The extension is that of the name.
    pub fn new(name: &str, modified: Option<i128>) -> (e: BackupEntry)
        ensures
            e.name@ == name@,
            e.modified == modified,
            is_single_name(name@) ==> opt_text(e.extension) == name_extension(name@),
    {
        BackupEntry { name: name.to_owned(), extension: path_extension(name), modified }
    }

    /// True for an entry with the extension `json`.
    pub fn is_snapshot(&self) -> (b: bool)
        ensures
            b == is_snapshot_file()(*self),
    {
        match &self.extension {
            Some(ext) => same_text(ext.as_str(), "json"),
            None => false,
        }
    }
}

impl Clone for BackupEntry {
    fn clone(&self) -> (r: Self)
        ensures
            r == *self,
    {
        BackupEntry {
            name: self.name.clone(),
            extension: match &self.extension {
                Some(x) => Some(x.clone()),
                None => None,
            },
            modified: self.modified,
        }
    }
}

/// Decides which backups a rotation deletes. Of the entries with the
/// extension `json`, ordered by modification instant with ties left in
/// the order given, the last `keep` stay and all before them go. Entries
/// with another extension are left alone.
#[verifier::loop_isolation(false)]
pub fn plan_rotation(entries: &[BackupEntry], keep: usize) -> (plan: RotationPlan)
    ensures
        is_stable_sort(plan.remove@ + plan.keep@, entries@.filter(is_snapshot_file())),
        plan.keep@.len() == if entries@.filter(is_snapshot_file()).len() <= keep {
            entries@.filter(is_snapshot_file()).len()
        } else {
            keep as nat
        },
{
    let mut pool: Vec<BackupEntry> = Vec::new();
    proof {
        reveal(Seq::filter);
        assert(entries@.subrange(0, 0).filter(is_snapshot_file()) =~= Seq::<BackupEntry>::empty());
    }
    let mut i: usize = 0;
    while i < entries.len()
        invariant
            i <= entries.len(),
            pool@ == entries@.subrange(0, i as int).filter(is_snapshot_file()),
        decreases entries.len() - i,
    {
        proof {
            assert(entries@.subrange(0, i as int + 1) =~= entries@.subrange(0, i as int).push(
                entries@[i as int],
            ));
            lemma_filter_push(
                entries@.subrange(0, i as int),
                entries@[i as int],
                is_snapshot_file(),
            );
        }
        if entries[i].is_snapshot() {
            pool.push(entries[i].clone());
        }
        i += 1;
    }
    proof {
        assert(entries@.subrange(0, i as int) =~= entries@);
    }
    let ghost unsorted = pool@;
    sort_by_key_stable(&mut pool);
    let cut: usize = if pool.len() > keep {
        pool.len() - keep
    } else {
        0
    };
    let mut remove: Vec<BackupEntry> = Vec::new();
    let mut kept: Vec<BackupEntry> = Vec::new();
    let mut j: usize = 0;
    while j < pool.len()
        invariant
            j <= pool.len(),
            cut <= pool.len(),
            remove@ == pool@.subrange(0, if j < cut { j as int } else { cut as int }),
            kept@ == pool@.subrange(cut as int, if j < cut { cut as int } else { j as int }),
        decreases pool.len() - j,
    {
        if j < cut {
            remove.push(pool[j].clone());
        } else {
            kept.push(pool[j].clone());
        }
        j += 1;
    }
    proof {
        assert(remove@ + kept@ =~= pool@);
    }
    RotationPlan { remove, keep: kept }
}

/// A rotation keeps the newest entries: no entry that goes was modified
/// later than one that stays.
pub proof fn lemma_rotation_keeps_newest(
    remove: Seq<BackupEntry>,
    keep: Seq<BackupEntry>,
    pool: Seq<BackupEntry>,
)
    requires
        is_stable_sort(remove + keep, pool),
    ensures
        forall|i: int, j: int|
            0 <= i < remove.len() && 0 <= j < keep.len() ==> key_le(
                (#[trigger] remove[i]).key_of(),
                (#[trigger] keep[j]).key_of(),
            ),
        remove.len() + keep.len() == pool.len(),
{
    let all = remove + keep;
    assert forall|i: int, j: int| 0 <= i < remove.len() && 0 <= j < keep.len() implies key_le(
        (#[trigger] remove[i]).key_of(),
        (#[trigger] keep[j]).key_of(),
    ) by {
        assert(all[i] == remove[i]);
        assert(all[remove.len() + j] == keep[j]);
        assert(key_le(all[i].key_of(), all[remove.len() + j].key_of()));
    }
}

/// The number of backups after `writes` writes, each of which adds one new
/// backup and then rotates with a retention of `keep`, starting from
/// `start` backups.
pub open spec fn backups_after(start: nat, writes: nat, keep: nat) -> nat
    decreases writes,
{
    if writes == 0 {
        start
    } else {
        let grown = backups_after(start, (writes - 1) as nat, keep) + 1;
        if grown <= keep {
            grown
        } else {
            keep
        }
    }
}

/// One write followed by a rotation: where every file in the directory is a
/// backup and one more is added, what the rotation keeps is as many as the
/// count of `backups_after` says for one write.
pub proof fn lemma_write_and_rotate(
    files: Seq<BackupEntry>,
    added: BackupEntry,
    keep: nat,
    removed: Seq<BackupEntry>,
    kept: Seq<BackupEntry>,
)
    requires
        forall|i: int| 0 <= i < files.len() ==> is_snapshot_file()(#[trigger] files[i]),
        is_snapshot_file()(added),
        is_stable_sort(removed + kept, files.push(added).filter(is_snapshot_file())),
        kept.len() == if files.push(added).filter(is_snapshot_file()).len() <= keep {
            files.push(added).filter(is_snapshot_file()).len()
        } else {
            keep
        },
    ensures
        kept.len() == backups_after(files.len(), 1, keep),
        removed.len() + kept.len() == files.len() + 1,
{
    crate::index::lemma_filter_all(files.push(added), is_snapshot_file());
    assert(backups_after(files.len(), 0, keep) == files.len());
}

/// After at least as many writes as the retention, exactly as many backups
/// remain as the retention says.
pub proof fn lemma_backups_settle(start: nat, writes: nat, keep: nat)
    requires
        keep >= 1,
        writes >= keep,
    ensures
        backups_after(start, writes, keep) == keep,
{
    lemma_backups_grow(start, writes, keep);
}

/// After at least one write there are as many backups as at the start plus
/// the writes, but no more than the retention.
pub proof fn lemma_backups_grow(start: nat, writes: nat, keep: nat)
    requires
        keep >= 1,
        writes >= 1,
    ensures
        backups_after(start, writes, keep) == if start + writes <= keep {
            start + writes
        } else {
            keep
        },
    decreases writes,
{
    if writes > 1 {
        lemma_backups_grow(start, (writes - 1) as nat, keep);
    } else {
        assert(backups_after(start, 0, keep) == start);
    }
}

} // verus!
