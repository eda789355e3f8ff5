//! The journal of an import: what it created and what it replaced, so that a
//! failed or unwanted import can be rolled back.
use crate::model::{BackupEntry, TransactionRecord};
use crate::path_mapper::{join_path, join_spec};
use crate::sqlite_adapter::{decimal, push_decimal};
use crate::text::{chars_of, contains_seq, ends_with, extend_str, str_contains, str_equal, string_of};
use vstd::prelude::*;

verus! {

/// An import in progress: its folder and its journal.
#[derive(Debug, Clone)]
pub struct ImportTransaction {
    pub root: String,
    pub record: TransactionRecord,
}

/// Why a transaction could not be found.
#[derive(Debug, Clone, PartialEq, Eq)]
pub enum TransactionError {
    /// The id is not a plain folder name.
    InvalidId,
}

impl TransactionError {
    /// The message shown to the user.
    pub fn message(&self) -> (s: String)
        ensures
            s@ == "invalid transaction id"@,
    {
        "invalid transaction id".to_owned()
    }
}

/// One step of a rollback, in the order they are taken.
#[derive(Debug, Clone)]
pub enum RollbackStep {
    /// Remove this file that the import created, if it is a file.
    RemoveIfFile(String),
    /// Copy the backup over the original (failing when the backup is gone).
    Restore(BackupEntry),
    /// Fold the write-ahead log of this restored database back into it.
    Checkpoint(String),
}

/// The folder of a transaction in a Codex home.
pub open spec fn transaction_root(codex_home: Seq<char>, id: Seq<char>) -> Seq<char> {
    join_spec(join_spec(codex_home, "migration_transactions"@), id)
}

fn text(s: &str) -> (r: String)
    ensures
        r@ == s@,
{
    s.to_owned()
}

/// `"{n}-{name}"`, the name of the `n`th backup of a file.
pub open spec fn numbered(n: nat, name: Seq<char>) -> Seq<char> {
    decimal(n).push('-') + name
}

fn numbered_name(n: usize, name: &str) -> (r: String)
    ensures
        r@ == numbered(n as nat, name@),
{
    let mut out: Vec<char> = Vec::new();
    push_decimal(&mut out, n);
    out.push('-');
    extend_str(&mut out, name);
    assert(out@ =~= numbered(n as nat, name@));
    string_of(out.as_slice())
}

/// The name of a file, or `fallback` when the path has none.
pub open spec fn name_or(file_name: Option<&str>, fallback: Seq<char>) -> Seq<char> {
    match file_name {
        Some(n) => n@,
        None => fallback,
    }
}

/// Whether the last component of a path (after its last `/` or `\`) has the
/// extension `sqlite`.
pub open spec fn has_sqlite_extension(path: Seq<char>) -> bool {
    &&& ends_with(path, ".sqlite"@)
    &&& path.len() > 7
    &&& path[path.len() - 8] != '/'
    &&& path[path.len() - 8] != '\\'
}

fn sqlite_extension(path: &str) -> (r: bool)
    ensures
        r == has_sqlite_extension(path@),
{
    let v = chars_of(path);
    let suffix = chars_of(".sqlite");
    proof {
        reveal_strlit(".sqlite");
    }
    if v.len() <= 7 || !crate::text::ends_with_chars(v.as_slice(), suffix.as_slice()) {
        return false;
    }
    let c = v[v.len() - 8];
    c != '/' && c != '\\'
}

/// The steps that undo an import: the files it created are removed, newest
/// first; the replaced files and then the databases are restored from their
/// backups, newest first; then each restored database (a `.sqlite` file) has
/// its write-ahead log folded back, in journal order.
pub open spec fn rollback_spec(record: TransactionRecord) -> Seq<RollbackStep> {
    let created = record.created_files@;
    let replaced = record.replaced_files@;
    let backups = record.backups@;
    Seq::new(created.len(), |i: int| RollbackStep::RemoveIfFile(created[created.len() - 1 - i]))
        + Seq::new(replaced.len(), |i: int| RollbackStep::Restore(replaced[replaced.len() - 1 - i]))
        + Seq::new(backups.len(), |i: int| RollbackStep::Restore(backups[backups.len() - 1 - i]))
        + checkpoints(backups)
}

/// A checkpoint for each database among the backups, in order.
pub open spec fn checkpoints(backups: Seq<BackupEntry>) -> Seq<RollbackStep>
    decreases backups.len(),
{
    if backups.len() == 0 {
        seq![]
    } else {
        let rest = checkpoints(backups.drop_last());
        if has_sqlite_extension(backups.last().original@) {
            rest.push(RollbackStep::Checkpoint(backups.last().original))
        } else {
            rest
        }
    }
}

/// The folder of transaction `id` in a Codex home, when `id` is a plain
/// folder name: not empty, not `.` or `..`, without `/` or `\`, and one
/// path component (`components` is the number of components of `id` as a
/// path).
pub fn transaction_directory(codex_home: &str, id: &str, components: usize) -> (r: Result<
    String,
    TransactionError,
>)
    ensures
        match r {
            Ok(dir) => id@.len() > 0 && id@ != "."@ && id@ != ".."@ && !id@.contains('/')
                && !id@.contains('\\') && components == 1 && dir@ == transaction_root(
                codex_home@,
                id@,
            ),
            Err(_) => !(id@.len() > 0 && id@ != "."@ && id@ != ".."@ && !id@.contains('/')
                && !id@.contains('\\') && components == 1),
        },
{
    let v = chars_of(id);
    let mut i: usize = 0;
    while i < v.len()
        invariant
            i <= v@.len(),
            v@ == id@,
            forall|k: int| 0 <= k < i ==> v@[k] != '/' && v@[k] != '\\',
        decreases v@.len() - i,
    {
        if v[i] == '/' || v[i] == '\\' {
            assert(id@.contains(v@[i as int]));
            return Err(TransactionError::InvalidId);
        }
        i += 1;
    }
    if v.len() == 0 || str_equal(id, ".") || str_equal(id, "..") || components != 1 {
        return Err(TransactionError::InvalidId);
    }
    let base = join_path(codex_home, "migration_transactions");
    Ok(join_path(base.as_str(), id))
}

impl ImportTransaction {
    /// A new transaction of an import from `source_codex_home` into
    /// `codex_home`, with the id `{stamp}-{unique}`, in its folder under the
    /// home's `migration_transactions`, with an empty journal.
    ///
    /// `stamp` is the start time (`%Y%m%dT%H%M%SZ`), `unique` a fresh
    /// identifier, and `created_at` the start time in RFC 3339.
    pub fn begin(
        codex_home: &str,
        sqlite_home: &str,
        source_codex_home: &str,
        stamp: &str,
        unique: &str,
        created_at: &str,
    ) -> (t: ImportTransaction)
        ensures
            t.record.id@ == stamp@.push('-') + unique@,
            t.root@ == transaction_root(codex_home@, t.record.id@),
            t.record.created_at@ == created_at@,
            t.record.codex_home@ == codex_home@,
            t.record.sqlite_home@ == sqlite_home@,
            t.record.source_codex_home@ == source_codex_home@,
            t.record.backups@.len() == 0,
            t.record.created_files@.len() == 0,
            t.record.replaced_files@.len() == 0,
            !t.record.completed,
    {
        let mut id = chars_of(stamp);
        id.push('-');
        extend_str(&mut id, unique);
        let id = string_of(id.as_slice());
        let base = join_path(codex_home, "migration_transactions");
        let root = join_path(base.as_str(), id.as_str());
        ImportTransaction {
            root,
            record: TransactionRecord {
                id,
                created_at: text(created_at),
                codex_home: text(codex_home),
                sqlite_home: text(sqlite_home),
                source_codex_home: text(source_codex_home),
                backups: Vec::new(),
                created_files: Vec::new(),
                replaced_files: Vec::new(),
                completed: false,
            },
        }
    }

    /// Notes that the import created a file.
    pub fn note_created(&mut self, path: &str)
        ensures
            final(self).root == old(self).root,
            final(self).record.created_files@.len() == old(self).record.created_files@.len() + 1,
            final(self).record.created_files@.drop_last() == old(self).record.created_files@,
            final(self).record.created_files@.last()@ == path@,
            final(self).record.backups == old(self).record.backups,
            final(self).record.replaced_files == old(self).record.replaced_files,
            final(self).record.id == old(self).record.id,
            final(self).record.created_at == old(self).record.created_at,
            final(self).record.codex_home == old(self).record.codex_home,
            final(self).record.sqlite_home == old(self).record.sqlite_home,
            final(self).record.source_codex_home == old(self).record.source_codex_home,
            final(self).record.completed == old(self).record.completed,
    {
        self.record.created_files.push(text(path));
        assert(self.record.created_files@.drop_last() =~= old(self).record.created_files@);
    }

    /// Where the next backup of a replaced file goes: in the transaction's
    /// `backups` folder, named by the number of backups so far and the
    /// file's name (`backup` when it has none).
    pub fn backup_path(&self, file_name: Option<&str>) -> (p: String)
        requires
            self.record.backups@.len() + self.record.replaced_files@.len() <= usize::MAX,
        ensures
            p@ == join_spec(
                join_spec(self.root@, "backups"@),
                numbered(
                    (self.record.backups@.len() + self.record.replaced_files@.len()) as nat,
                    name_or(file_name, "backup"@),
                ),
            ),
    {
        let n = self.record.backups.len() + self.record.replaced_files.len();
        let name = match file_name {
            Some(name) => numbered_name(n, name),
            None => numbered_name(n, "backup"),
        };
        let dir = join_path(self.root.as_str(), "backups");
        join_path(dir.as_str(), name.as_str())
    }

    /// Notes that a file the import replaces was copied to `backup`.
    pub fn backup_replaced(&mut self, original: &str, backup: &str)
        ensures
            final(self).root == old(self).root,
            final(self).record.replaced_files@.len() == old(self).record.replaced_files@.len() + 1,
            final(self).record.replaced_files@.drop_last() == old(self).record.replaced_files@,
            final(self).record.replaced_files@.last().original@ == original@,
            final(self).record.replaced_files@.last().backup@ == backup@,
            final(self).record.backups == old(self).record.backups,
            final(self).record.created_files == old(self).record.created_files,
            final(self).record.id == old(self).record.id,
            final(self).record.completed == old(self).record.completed,
    {
        self.record.replaced_files.push(BackupEntry { original: text(original), backup: text(backup) });
        assert(self.record.replaced_files@.drop_last() =~= old(self).record.replaced_files@);
    }

    /// Where the backup of the state database goes: in the `backups`
    /// folder, named by the number of database backups so far and the
    /// database's file name (`state.sqlite` when it has none).
    pub fn sqlite_backup_path(&self, file_name: Option<&str>) -> (p: String)
        ensures
            p@ == join_spec(
                join_spec(self.root@, "backups"@),
                numbered(self.record.backups@.len() as nat, name_or(file_name, "state.sqlite"@)),
            ),
    {
        let n = self.record.backups.len();
        let name = match file_name {
            Some(name) => numbered_name(n, name),
            None => numbered_name(n, "state.sqlite"),
        };
        let dir = join_path(self.root.as_str(), "backups");
        join_path(dir.as_str(), name.as_str())
    }

    /// Notes that the state database was copied to `backup`; its `-wal` and
    /// `-shm` companions count as created, so that a rollback removes the
    /// ones the import left.
    pub fn backup_sqlite_family(&mut self, state_db: &str, backup: &str)
        ensures
            final(self).root == old(self).root,
            final(self).record.backups@.len() == old(self).record.backups@.len() + 1,
            final(self).record.backups@.drop_last() == old(self).record.backups@,
            final(self).record.backups@.last().original@ == state_db@,
            final(self).record.backups@.last().backup@ == backup@,
            final(self).record.created_files@ == old(self).record.created_files@ + seq![
                final(self).record.created_files@[old(self).record.created_files@.len() as int],
                final(self).record.created_files@[(old(self).record.created_files@.len() + 1) as int],
            ],
            final(self).record.created_files@[old(self).record.created_files@.len() as int]@
                == state_db@ + "-wal"@,
            final(self).record.created_files@[(old(self).record.created_files@.len() + 1) as int]@
                == state_db@ + "-shm"@,
            final(self).record.replaced_files == old(self).record.replaced_files,
            final(self).record.id == old(self).record.id,
            final(self).record.completed == old(self).record.completed,
    {
        self.record.backups.push(BackupEntry { original: text(state_db), backup: text(backup) });
        let mut wal = chars_of(state_db);
        extend_str(&mut wal, "-wal");
        let mut shm = chars_of(state_db);
        extend_str(&mut shm, "-shm");
        self.record.created_files.push(string_of(wal.as_slice()));
        self.record.created_files.push(string_of(shm.as_slice()));
        assert(self.record.backups@.drop_last() =~= old(self).record.backups@);
        assert(self.record.created_files@ =~= old(self).record.created_files@ + seq![
            self.record.created_files@[old(self).record.created_files@.len() as int],
            self.record.created_files@[(old(self).record.created_files@.len() + 1) as int],
        ]);
    }

    /// Marks the import as completed.
    pub fn complete(&mut self)
        ensures
            final(self).record.completed,
            final(self).root == old(self).root,
            final(self).record.id == old(self).record.id,
            final(self).record.created_at == old(self).record.created_at,
            final(self).record.codex_home == old(self).record.codex_home,
            final(self).record.sqlite_home == old(self).record.sqlite_home,
            final(self).record.source_codex_home == old(self).record.source_codex_home,
            final(self).record.backups == old(self).record.backups,
            final(self).record.created_files == old(self).record.created_files,
            final(self).record.replaced_files == old(self).record.replaced_files,
    {
        self.record.completed = true;
    }

    /// The steps that undo the import (see [`rollback_spec`]).
    pub fn rollback(&self) -> (steps: Vec<RollbackStep>)
        ensures
            steps@ == rollback_spec(self.record),
    {
        rollback_record(&self.record)
    }
}

/// The steps that undo the import that a journal records (see
/// [`rollback_spec`]).
pub fn rollback_record(record: &TransactionRecord) -> (steps: Vec<RollbackStep>)
    ensures
        steps@ == rollback_spec(*record),
{
    let created = &record.created_files;
    let replaced = &record.replaced_files;
    let backups = &record.backups;
    let mut steps: Vec<RollbackStep> = Vec::new();
    let mut i: usize = 0;
    while i < created.len()
        invariant
            i <= created@.len(),
            created == &record.created_files,
            steps@ == Seq::new(
                i as nat,
                |k: int| RollbackStep::RemoveIfFile(created@[created@.len() - 1 - k]),
            ),
        decreases created@.len() - i,
    {
        steps.push(RollbackStep::RemoveIfFile(created[created.len() - 1 - i].clone()));
        assert(steps@ =~= Seq::new(
            (i + 1) as nat,
            |k: int| RollbackStep::RemoveIfFile(created@[created@.len() - 1 - k]),
        ));
        i += 1;
    }
    let ghost first = steps@;
    let mut i: usize = 0;
    while i < replaced.len()
        invariant
            i <= replaced@.len(),
            replaced == &record.replaced_files,
            steps@ == first + Seq::new(
                i as nat,
                |k: int| RollbackStep::Restore(replaced@[replaced@.len() - 1 - k]),
            ),
        decreases replaced@.len() - i,
    {
        let e = &replaced[replaced.len() - 1 - i];
        steps.push(
            RollbackStep::Restore(BackupEntry { original: e.original.clone(), backup: e.backup.clone() }),
        );
        assert(steps@ =~= first + Seq::new(
            (i + 1) as nat,
            |k: int| RollbackStep::Restore(replaced@[replaced@.len() - 1 - k]),
        ));
        i += 1;
    }
    let ghost second = steps@;
    let mut i: usize = 0;
    while i < backups.len()
        invariant
            i <= backups@.len(),
            backups == &record.backups,
            steps@ == second + Seq::new(
                i as nat,
                |k: int| RollbackStep::Restore(backups@[backups@.len() - 1 - k]),
            ),
        decreases backups@.len() - i,
    {
        let e = &backups[backups.len() - 1 - i];
        steps.push(
            RollbackStep::Restore(BackupEntry { original: e.original.clone(), backup: e.backup.clone() }),
        );
        assert(steps@ =~= second + Seq::new(
            (i + 1) as nat,
            |k: int| RollbackStep::Restore(backups@[backups@.len() - 1 - k]),
        ));
        i += 1;
    }
    let ghost third = steps@;
    let mut i: usize = 0;
    while i < backups.len()
        invariant
            i <= backups@.len(),
            backups == &record.backups,
            steps@ == third + checkpoints(backups@.take(i as int)),
        decreases backups@.len() - i,
    {
        assert(backups@.take(i + 1).drop_last() =~= backups@.take(i as int));
        assert(backups@.take(i + 1).last() == backups@[i as int]);
        if sqlite_extension(backups[i].original.as_str()) {
            steps.push(RollbackStep::Checkpoint(backups[i].original.clone()));
        }
        assert(steps@ =~= third + checkpoints(backups@.take(i + 1)));
        i += 1;
    }
    assert(backups@.take(i as int) =~= backups@);
    assert(steps@ =~= rollback_spec(*record));
    steps
}

/// A rollback undoes everything the journal records: every file the import
/// created is removed, and every replaced file and every database is
/// restored from its backup; all removals come before any restore.
pub proof fn law_rollback_covers_journal(record: TransactionRecord)
    ensures
        ({
            let steps = rollback_spec(record);
            &&& forall|i: int|
                0 <= i < record.created_files@.len() ==> exists|s: int|
                    0 <= s < steps.len() && steps[s] == RollbackStep::RemoveIfFile(
                        #[trigger] record.created_files@[i],
                    )
            &&& forall|i: int|
                0 <= i < record.replaced_files@.len() ==> exists|s: int|
                    0 <= s < steps.len() && steps[s] == RollbackStep::Restore(
                        #[trigger] record.replaced_files@[i],
                    )
            &&& forall|i: int|
                0 <= i < record.backups@.len() ==> exists|s: int|
                    0 <= s < steps.len() && steps[s] == RollbackStep::Restore(
                        #[trigger] record.backups@[i],
                    )
            &&& forall|a: int, b: int|
                0 <= a < steps.len() && 0 <= b < steps.len() && (#[trigger] steps[a]) is Restore
                    && (#[trigger] steps[b]) is RemoveIfFile ==> b < a
        }),
{
    let steps = rollback_spec(record);
    let created = record.created_files@;
    let replaced = record.replaced_files@;
    let backups = record.backups@;
    let c = created.len() as int;
    let r = replaced.len() as int;
    let b = backups.len() as int;
    assert forall|i: int| 0 <= i < c implies exists|s: int|
        0 <= s < steps.len() && steps[s] == RollbackStep::RemoveIfFile(#[trigger] created[i]) by {
        assert(steps[c - 1 - i] == RollbackStep::RemoveIfFile(created[i]));
    }
    assert forall|i: int| 0 <= i < r implies exists|s: int|
        0 <= s < steps.len() && steps[s] == RollbackStep::Restore(#[trigger] replaced[i]) by {
        assert(steps[c + r - 1 - i] == RollbackStep::Restore(replaced[i]));
    }
    assert forall|i: int| 0 <= i < b implies exists|s: int|
        0 <= s < steps.len() && steps[s] == RollbackStep::Restore(#[trigger] backups[i]) by {
        assert(steps[c + r + b - 1 - i] == RollbackStep::Restore(backups[i]));
    }
    lemma_checkpoints_only(backups);
    assert forall|x: int, y: int|
        0 <= x < steps.len() && 0 <= y < steps.len() && (#[trigger] steps[x]) is Restore
            && (#[trigger] steps[y]) is RemoveIfFile implies y < x by {
        if x < c {
            assert(steps[x] is RemoveIfFile);
        }
        if y >= c {
            if y < c + r + b {
                assert(steps[y] is Restore);
            } else {
                assert(checkpoints(backups)[y - c - r - b] is Checkpoint);
            }
        }
    }
}

proof fn lemma_checkpoints_only(backups: Seq<BackupEntry>)
    ensures
        forall|i: int| 0 <= i < checkpoints(backups).len() ==> (#[trigger] checkpoints(backups)[i]) is Checkpoint,
    decreases backups.len(),
{
    if backups.len() > 0 {
        lemma_checkpoints_only(backups.drop_last());
    }
}

} // verus!
