use codex_migrate::keyed::{get, put, take};
use codex_migrate::transaction::{ImportTransaction, RollbackStep};

#[test]
fn rollback_undoes_the_journal_newest_first() {
    let mut t = ImportTransaction::begin(
        "/home/.codex",
        "/home/.codex",
        "/backup/.codex",
        "20260619T040000Z",
        "abc",
        "2026-06-19T04:00:00+00:00",
    );
    assert_eq!(t.record.id, "20260619T040000Z-abc");
    assert_eq!(t.root, "/home/.codex/migration_transactions/20260619T040000Z-abc");
    let db_backup = t.sqlite_backup_path(Some("state_5.sqlite"));
    assert_eq!(
        db_backup,
        "/home/.codex/migration_transactions/20260619T040000Z-abc/backups/0-state_5.sqlite"
    );
    t.backup_sqlite_family("/home/.codex/state_5.sqlite", &db_backup);
    let index_backup = t.backup_path(Some("session_index.jsonl"));
    assert_eq!(
        index_backup,
        "/home/.codex/migration_transactions/20260619T040000Z-abc/backups/1-session_index.jsonl"
    );
    t.backup_replaced("/home/.codex/session_index.jsonl", &index_backup);
    t.note_created("/home/.codex/sessions/new.jsonl");
    assert!(!t.record.completed);
    t.complete();
    assert!(t.record.completed);

    let steps = t.rollback();
    let described: Vec<String> = steps
        .iter()
        .map(|step| match step {
            RollbackStep::RemoveIfFile(p) => format!("remove {p}"),
            RollbackStep::Restore(e) => format!("restore {} from {}", e.original, e.backup),
            RollbackStep::Checkpoint(p) => format!("checkpoint {p}"),
        })
        .collect();
    assert_eq!(
        described,
        vec![
            "remove /home/.codex/sessions/new.jsonl".to_owned(),
            "remove /home/.codex/state_5.sqlite-shm".to_owned(),
            "remove /home/.codex/state_5.sqlite-wal".to_owned(),
            format!("restore /home/.codex/session_index.jsonl from {index_backup}"),
            format!("restore /home/.codex/state_5.sqlite from {db_backup}"),
            "checkpoint /home/.codex/state_5.sqlite".to_owned(),
        ]
    );
}

#[test]
fn keyed_list_reads_back_what_was_stored() {
    let mut v: Vec<(String, u64)> = Vec::new();
    put(&mut v, "b".to_owned(), 2);
    put(&mut v, "a".to_owned(), 1);
    put(&mut v, "b".to_owned(), 3);
    assert_eq!(v, vec![("a".to_owned(), 1), ("b".to_owned(), 3)]);
    assert_eq!(get(&v, "b"), Some(&3));
    assert_eq!(take(&mut v, "a"), Some(1));
    assert_eq!(get(&v, "a"), None);
    assert_eq!(take(&mut v, "zz"), None);
}
