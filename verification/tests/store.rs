use italiansuperwhisper::clock::{epoch_millis, now_millis};
use italiansuperwhisper::ids::RecordingId;
use italiansuperwhisper::store::audio::{
    is_bare_file, AudioFile, PathPart, WipeStep, MILLIS_PER_DAY,
};
use italiansuperwhisper::store::schema::{
    migrate, Column, Migration, SchemaStep, CREATE_MIGRATIONS, SELECT_COLUMNS, SELECT_MIGRATIONS,
};
use italiansuperwhisper::store::search::{matching, page_of};
use italiansuperwhisper::store::{
    raw_to_recording, read_rows, RawRow, Recording, RecordingStatus, RecordingsStore, SqlValue,
    Statement, StoreError,
};

type Stmt = Statement<f64, f32>;
type Rec = Recording<f64, f32>;

/// A database in memory, with the files of the recordings directory.
struct Database {
    conn: rusqlite::Connection,
    plan: RecordingsStore,
    audio: Vec<String>,
}

fn value(v: &SqlValue<f64, f32>) -> rusqlite::types::Value {
    match v {
        SqlValue::Text(s) => rusqlite::types::Value::Text(s.clone()),
        SqlValue::Integer(n) => rusqlite::types::Value::Integer(*n),
        SqlValue::Duration(d) => rusqlite::types::Value::Real(*d),
        SqlValue::Progress(p) => rusqlite::types::Value::Real(*p as f64),
        SqlValue::Null => rusqlite::types::Value::Null,
    }
}

fn params(s: &Stmt) -> Vec<rusqlite::types::Value> {
    s.params.iter().map(value).collect()
}

fn texts(conn: &rusqlite::Connection, sql: &str, column: usize) -> Vec<String> {
    let mut stmt = conn.prepare(sql).unwrap();
    let rows = stmt.query_map([], |row| row.get::<_, String>(column)).unwrap();
    rows.map(|r| r.unwrap()).collect()
}

/// Brings a database up to date. Says how many statements that took.
fn bring_up_to_date(conn: &rusqlite::Connection) -> usize {
    conn.execute_batch(CREATE_MIGRATIONS).unwrap();
    let applied = texts(conn, SELECT_MIGRATIONS, 0);
    let columns = texts(conn, SELECT_COLUMNS, 1);
    let steps = migrate(&applied, &columns);
    for step in &steps {
        conn.execute_batch(step.sql()).unwrap();
    }
    steps.len()
}

impl Database {
    fn new() -> Self {
        Database::with(rusqlite::Connection::open_in_memory().unwrap())
    }

    fn with(conn: rusqlite::Connection) -> Self {
        bring_up_to_date(&conn);
        Database {
            conn,
            plan: RecordingsStore::new("/data/recordings"),
            audio: Vec::new(),
        }
    }

    fn run(&self, s: Stmt) -> rusqlite::Result<usize> {
        self.conn.execute(&s.sql, rusqlite::params_from_iter(params(&s)))
    }

    fn rows(&self, s: Stmt) -> Vec<RawRow<f64, f32>> {
        let mut stmt = self.conn.prepare(&s.sql).unwrap();
        let rows = stmt
            .query_map(rusqlite::params_from_iter(params(&s)), |row| {
                Ok(RawRow {
                    id: row.get(0)?,
                    timestamp: row.get(1)?,
                    file_name: row.get(2)?,
                    transcription: row.get(3)?,
                    duration: row.get::<_, f64>(4)?,
                    status: row.get(5)?,
                    progress: row.get::<_, f64>(6)? as f32,
                    source_file_url: row.get(7)?,
                    raw_transcription: row.get(8)?,
                })
            })
            .unwrap();
        rows.map(|r| r.unwrap()).collect()
    }

    fn query(&self, s: Stmt) -> Result<Vec<Rec>, StoreError> {
        read_rows(self.rows(s))
    }

    fn search(&self, query: &str, limit: i64, offset: i64) -> Vec<Rec> {
        let rows = self.rows(self.plan.get_all());
        self.plan.search_recordings(rows, query, limit, offset).unwrap()
    }

    fn all(&self) -> Vec<Rec> {
        self.query(self.plan.get_all()).unwrap()
    }

    fn get(&self, id: RecordingId) -> Option<Rec> {
        self.query(self.plan.get_recording(id)).unwrap().into_iter().next()
    }

    fn add(&self, r: &Rec) {
        self.run(self.plan.add_recording(r)).unwrap();
    }

    fn remove_audio(&mut self, file: Option<AudioFile>) {
        if let Some(file) = file {
            assert_eq!(file.dir, "/data/recordings");
            self.audio.retain(|name| *name != file.name);
        }
    }

    fn delete(&mut self, id: RecordingId) -> bool {
        let find: Stmt = self.plan.find_file_name(id);
        let found = {
            let mut stmt = self.conn.prepare(&find.sql).unwrap();
            let mut rows = stmt.query(rusqlite::params_from_iter(params(&find))).unwrap();
            rows.next().unwrap().map(|row| row.get::<_, String>(0).unwrap())
        };
        let deletion = self.plan.delete_recording::<f64, f32>(id, found);
        if let Some(row) = deletion.row {
            self.run(row).unwrap();
        }
        self.remove_audio(deletion.audio);
        deletion.deleted
    }

    fn delete_older_than(&mut self, days: i64) -> usize {
        let find: Stmt = match self.plan.delete_recordings_older_than(days, now_millis()) {
            Some(find) => find,
            None => return 0,
        };
        let outdated: Vec<(String, String)> = {
            let mut stmt = self.conn.prepare(&find.sql).unwrap();
            let rows = stmt
                .query_map(rusqlite::params_from_iter(params(&find)), |row| {
                    Ok((row.get(0)?, row.get(1)?))
                })
                .unwrap();
            rows.map(|r| r.unwrap()).collect()
        };
        for (id, _) in &outdated {
            self.run(self.plan.delete_outdated(id)).unwrap();
        }
        let names: Vec<String> = outdated.iter().map(|(_, name)| name.clone()).collect();
        for file in self.plan.audio_files(&names) {
            self.remove_audio(Some(file));
        }
        outdated.len()
    }
}

fn sample(timestamp: i64, status: RecordingStatus) -> Rec {
    let id = RecordingId::new();
    Recording {
        id,
        timestamp,
        file_name: format!("{}.wav", id.to_text()),
        transcription: "ciao mondo".to_string(),
        duration: 2.5,
        status,
        progress: if status == RecordingStatus::Completed {
            1.0
        } else {
            0.0
        },
        source_file_url: None,
        raw_transcription: None,
        is_regeneration: false,
    }
}

#[test]
fn crud_round_trip() {
    let mut db = Database::new();

    let mut rec = sample(now_millis(), RecordingStatus::Pending);
    rec.source_file_url = Some("/tmp/original.m4a".to_string());
    db.add(&rec);

    let all = db.all();
    assert_eq!(all.len(), 1);
    assert_eq!(all[0], rec);

    // Duplicate id must fail (primary key), proving errors surface.
    assert!(db.run(db.plan.add_recording(&rec)).is_err());

    db.run(db.plan.update_transcription(rec.id, "testo finale", 1.0, RecordingStatus::Completed))
        .unwrap();
    db.run(db.plan.update_raw_transcription(rec.id, "testo grezzo")).unwrap();
    db.run(db.plan.update_source_file_url(rec.id, "/tmp/other.m4a")).unwrap();

    let got = db.get(rec.id).unwrap();
    assert_eq!(got.transcription, "testo finale");
    assert_eq!(got.raw_transcription.as_deref(), Some("testo grezzo"));
    assert_eq!(got.source_file_url.as_deref(), Some("/tmp/other.m4a"));
    assert_eq!(got.status, RecordingStatus::Completed);
    assert_eq!(got.progress, 1.0);

    db.run(db.plan.update_status(rec.id, 0.5, RecordingStatus::Transcribing)).unwrap();
    let got = db.get(rec.id).unwrap();
    assert_eq!(got.status, RecordingStatus::Transcribing);
    assert_eq!(got.progress, 0.5);

    // Full-row update.
    let mut updated = got.clone();
    updated.duration = 9.75;
    updated.status = RecordingStatus::Failed;
    db.run(db.plan.update_recording(&updated)).unwrap();
    let got = db.get(rec.id).unwrap();
    assert_eq!(got.duration, 9.75);
    assert_eq!(got.status, RecordingStatus::Failed);

    assert!(db.delete(rec.id));
    assert!(!db.delete(rec.id));
    assert!(db.all().is_empty());
}

#[test]
fn delete_removes_audio_file_and_tolerates_missing() {
    let mut db = Database::new();

    let with_file = sample(now_millis(), RecordingStatus::Completed);
    let without_file = sample(now_millis(), RecordingStatus::Completed);
    db.add(&with_file);
    db.add(&without_file);
    db.audio.push(with_file.file_name.clone());

    assert!(db.delete(with_file.id));
    assert!(db.audio.is_empty(), "audio file must be deleted with the row");
    // No file on disk for this one: still succeeds.
    assert!(db.delete(without_file.id));
    assert_eq!(db.plan.delete_recordings(&vec![true, false, true]), 2);
}

#[test]
fn migration_is_idempotent_across_reopens() {
    let db = Database::new();
    let rec = sample(now_millis(), RecordingStatus::Completed);
    db.add(&rec);

    // Open the same database again: migrations must re-run without error or
    // loss.
    assert_eq!(bring_up_to_date(&db.conn), 0);
    let all = db.all();
    assert_eq!(all.len(), 1);
    assert_eq!(all[0], rec);
}

#[test]
fn v1_schema_migrates_to_v3_without_data_loss() {
    let id_a = RecordingId::new();
    let id_b = RecordingId::new();

    // Hand-build a raw v1 database, as an old app version would have left it.
    let conn = rusqlite::Connection::open_in_memory().unwrap();
    conn.execute_batch(
        "CREATE TABLE recordings (
            id TEXT PRIMARY KEY NOT NULL,
            timestamp INTEGER NOT NULL,
            fileName TEXT NOT NULL,
            transcription TEXT NOT NULL COLLATE NOCASE,
            duration REAL NOT NULL
        );",
    )
    .unwrap();
    conn.execute(
        "INSERT INTO recordings (id, timestamp, fileName, transcription, duration)
         VALUES (?1, 1000, 'a.wav', 'vecchia trascrizione', 1.5),
                (?2, 2000, 'b.wav', 'altra trascrizione', 3.0)",
        [id_a.to_text(), id_b.to_text()],
    )
    .unwrap();

    let db = Database::with(conn);
    let all = db.all();
    assert_eq!(all.len(), 2, "v1 rows must survive migration");

    // Newest first: b (2000) then a (1000).
    assert_eq!(all[0].id, id_b);
    assert_eq!(all[1].id, id_a);
    assert_eq!(all[1].transcription, "vecchia trascrizione");
    assert_eq!(all[1].duration, 1.5);
    // v2 defaults: completed / 1.0 / NULL, v3 default: NULL.
    for rec in &all {
        assert_eq!(rec.status, RecordingStatus::Completed);
        assert_eq!(rec.progress, 1.0);
        assert_eq!(rec.source_file_url, None);
        assert_eq!(rec.raw_transcription, None);
    }

    // And the migrated DB is fully writable with the new columns.
    db.run(db.plan.update_transcription(id_a, "nuova", 1.0, RecordingStatus::Completed)).unwrap();
    // Open once more: idempotent even after the guarded ALTERs ran.
    assert_eq!(bring_up_to_date(&db.conn), 0);
    assert_eq!(db.all().len(), 2);
}

#[test]
fn a_migration_that_broke_off_is_finished() {
    let names = |names: &[&str]| names.iter().map(|n| n.to_string()).collect::<Vec<String>>();
    let base = ["id", "timestamp", "fileName", "transcription", "duration", "status"];
    assert_eq!(
        migrate(&names(&["v1"]), &names(&base)),
        [
            SchemaStep::AddColumn(Column::Progress),
            SchemaStep::AddColumn(Column::SourceFileUrl),
            SchemaStep::Record(Migration::V2AddStatus),
            SchemaStep::AddColumn(Column::RawTranscription),
            SchemaStep::Record(Migration::V3AddRawTranscription),
        ]
    );
    assert_eq!(migrate(&names(&[]), &names(&[])).len(), 8);
    assert_eq!(
        migrate(&names(&["v1", "v2_add_status"]), &names(&["rawTranscription"])),
        [SchemaStep::Record(Migration::V3AddRawTranscription)]
    );
}

#[test]
fn pending_filter_and_next_pending() {
    let db = Database::new();

    let completed = sample(1000, RecordingStatus::Completed);
    let failed = sample(2000, RecordingStatus::Failed);
    let transcribing = sample(3000, RecordingStatus::Transcribing);
    let pending_old = sample(500, RecordingStatus::Pending);
    let converting = sample(4000, RecordingStatus::Converting);
    for r in [&completed, &failed, &transcribing, &pending_old, &converting] {
        db.add(r);
    }

    let pending = db.query(db.plan.get_pending_recordings()).unwrap();
    // pending/converting/transcribing only, oldest first.
    assert_eq!(
        pending.iter().map(|r| r.id).collect::<Vec<_>>(),
        vec![pending_old.id, transcribing.id, converting.id]
    );
    assert!(pending.iter().all(|r| r.status.is_pending()));

    let next = db.query(db.plan.get_next_pending_recording()).unwrap();
    assert_eq!(next.len(), 1);
    assert_eq!(next[0].id, pending_old.id);
}

#[test]
fn delete_older_than_removes_rows_and_files_but_keeps_pending() {
    let mut db = Database::new();

    let now = now_millis();
    let old = now - 40 * MILLIS_PER_DAY;

    let old_completed = sample(old, RecordingStatus::Completed);
    let old_failed = sample(old, RecordingStatus::Failed); // no audio file on disk
    let old_pending = sample(old, RecordingStatus::Pending);
    let recent_completed = sample(now, RecordingStatus::Completed);
    for r in [&old_completed, &old_failed, &old_pending, &recent_completed] {
        db.add(r);
    }
    db.audio.push(old_completed.file_name.clone());
    db.audio.push(recent_completed.file_name.clone());

    let deleted = db.delete_older_than(30);
    assert_eq!(deleted, 2, "old completed + old failed");

    let remaining: Vec<RecordingId> = db.all().iter().map(|r| r.id).collect();
    assert!(remaining.contains(&old_pending.id), "pending rows are kept");
    assert!(remaining.contains(&recent_completed.id));
    assert_eq!(remaining.len(), 2);
    assert!(!db.audio.contains(&old_completed.file_name), "old audio file removed");
    assert!(db.audio.contains(&recent_completed.file_name), "recent audio file kept");

    // days <= 0 is a no-op.
    assert_eq!(db.delete_older_than(0), 0);
    assert_eq!(db.all().len(), 2);
}

#[test]
fn the_cutoff_is_a_number_of_days_ago() {
    let plan = RecordingsStore::new("r");
    let find: Stmt = plan.delete_recordings_older_than(2, 1_000_000_000).unwrap();
    assert_eq!(find.params, [SqlValue::Integer(1_000_000_000 - 172_800_000)]);
    assert!(find.sql.ends_with("status NOT IN ('pending', 'converting', 'transcribing')"));
}

#[test]
fn get_all_is_ordered_newest_first() {
    let db = Database::new();

    let a = sample(100, RecordingStatus::Completed);
    let b = sample(300, RecordingStatus::Completed);
    let c = sample(200, RecordingStatus::Completed);
    for r in [&a, &b, &c] {
        db.add(r);
    }

    let ids: Vec<RecordingId> = db.all().iter().map(|r| r.id).collect();
    assert_eq!(ids, vec![b.id, c.id, a.id]);

    // Pagination follows the same ordering.
    let page: Vec<RecordingId> = db
        .query(db.plan.get_recordings(2, 1))
        .unwrap()
        .iter()
        .map(|r| r.id)
        .collect();
    assert_eq!(page, vec![c.id, a.id]);
}

#[test]
fn search_matches_case_insensitively() {
    let db = Database::new();

    let mut a = sample(100, RecordingStatus::Completed);
    a.transcription = "Buongiorno Mondo".to_string();
    let mut b = sample(200, RecordingStatus::Completed);
    b.transcription = "altro testo".to_string();
    db.add(&a);
    db.add(&b);

    let hits = db.search("mondo", 100, 0);
    assert_eq!(hits.len(), 1);
    assert_eq!(hits[0].id, a.id);

    // LIKE wildcards in the query are treated literally.
    assert!(db.search("%", 100, 0).is_empty());
    assert!(db.search("m_ndo", 100, 0).is_empty());
    assert_eq!(db.search("", 100, 0).len(), 2);
}

#[test]
fn wildcards_stand_for_themselves() {
    let db = Database::new();
    let mut a = sample(100, RecordingStatus::Completed);
    a.transcription = "sconto del 50% \\o/ a_b".to_string();
    db.add(&a);
    for query in ["50%", "\\O", "A_B"] {
        assert_eq!(db.search(query, 10, 0).len(), 1);
    }
    for query in ["5%%", "a%b", "s_onto"] {
        assert!(db.search(query, 10, 0).is_empty());
    }
}

#[test]
fn search_matches_accented_letters_in_any_case() {
    let db = Database::new();
    for (at, text) in [(1, "perché no"), (2, "PERCHÉ SÌ"), (3, "perche forse"), (4, "ΟΔΟΣΑ 2×3")] {
        let mut rec = sample(at, RecordingStatus::Completed);
        rec.transcription = text.to_string();
        db.add(&rec);
    }
    let found = |query: &str| -> Vec<i64> {
        db.search(query, -1, 0).iter().map(|r| r.timestamp).collect()
    };
    assert_eq!(found("PERCHÉ"), [2, 1]);
    assert_eq!(found("perché"), [2, 1]);
    assert_eq!(found("sì"), [2]);
    assert_eq!(found("perche"), [3]);
    assert_eq!(found("ΟΔΟΣ"), [4]);
    assert_eq!(found("οδοσα"), [4]);
    assert_eq!(found("2×3"), [4]);
    assert!(found("2÷3").is_empty());
    assert!(found("perché no, grazie").is_empty());
    assert_eq!(found(""), [4, 3, 2, 1]);
}

#[test]
fn a_search_comes_by_pages() {
    let db = Database::new();
    for at in 1..=5 {
        let mut rec = sample(at, RecordingStatus::Completed);
        rec.transcription = format!("{} {at}", if at == 3 { "altro" } else { "Nota" });
        db.add(&rec);
    }
    let found = |limit: i64, offset: i64| -> Vec<i64> {
        db.search("nota", limit, offset).iter().map(|r| r.timestamp).collect()
    };
    assert_eq!(found(100, 0), [5, 4, 2, 1]);
    assert_eq!(found(2, 0), [5, 4]);
    assert_eq!(found(2, 2), [2, 1]);
    assert_eq!(found(2, 3), [1]);
    assert_eq!(found(-1, 1), [4, 2, 1]);
    assert_eq!(found(1, -7), [5]);
    assert!(found(0, 0).is_empty());
    assert!(found(2, 4).is_empty());
    assert!(found(i64::MAX, i64::MAX).is_empty());
    assert_eq!(page_of(vec!['a', 'b', 'c'], i64::MAX, 1), ['b', 'c']);

    // A page is what the database cuts out with the same numbers.
    for (limit, offset) in [(2, 1), (-1, 2), (3, -1), (0, 0), (9, 9)] {
        assert_eq!(
            db.search("", limit, offset),
            db.query(db.plan.get_recordings(limit, offset)).unwrap()
        );
    }
}

#[test]
fn only_what_a_search_finds_is_read() {
    let mut bad = raw("nope", "pending");
    bad.transcription = "altro".to_string();
    let id = "936da01f-9abd-4d9d-80c7-02af85c822a8";
    let plan = RecordingsStore::new("r");
    let rows = || vec![raw(id, "pending"), raw("nope", "pending")];
    assert!(matches!(
        plan.search_recordings(rows(), "CIAO", 10, 0),
        Err(StoreError::InvalidUuid(s)) if s == "nope"
    ));
    assert_eq!(plan.search_recordings(rows(), "CIAO", 1, 0).unwrap().len(), 1);
    assert_eq!(matching(vec![bad, raw(id, "pending")], "Ciao")[0].id, id);
}

#[test]
fn all_that_was_added_comes_back_newest_first() {
    let db = Database::new();
    let mut added: Vec<Rec> = Vec::new();
    for (k, at) in [30, 10, 20, 10].iter().enumerate() {
        let mut rec = sample(*at, RecordingStatus::Failed);
        rec.transcription = format!("nota {k}");
        rec.is_regeneration = k % 2 == 0;
        rec.raw_transcription = Some(format!("grezza {k}"));
        db.add(&rec);
        added.push(rec);
    }
    let all = db.all();
    assert_eq!(all.iter().map(|r| r.timestamp).collect::<Vec<_>>(), [30, 20, 10, 10]);
    for mut rec in added {
        rec.is_regeneration = false;
        assert_eq!(all.iter().filter(|r| **r == rec).count(), 1);
    }
}

#[test]
fn audio_path_rejects_escaping_names() {
    let plan = RecordingsStore::new("/data/recordings");
    assert!(plan.audio_path("ok.wav").is_some());
    assert!(plan.audio_path("").is_none());
    assert!(plan.audio_path("../evil.wav").is_none());
    assert!(plan.audio_path("a/b.wav").is_none());
    assert!(plan.audio_path("/etc/passwd").is_none());
    assert!(plan.audio_path("..").is_none());
    assert!(plan.audio_path(".").is_none());
    for name in ["a/../../etc/passwd", "a/..", "a/b/c", "a//b", "a/./..", "./a", "a/..."] {
        assert!(plan.audio_path(name).is_none(), "{name}");
    }
    // Nothing is left below these.
    for name in ["a.wav/", "a.wav/.", "...", "..a", "a..b", "12:30.wav", ":a", "è:b"] {
        assert!(plan.audio_path(name).is_some(), "{name}");
    }
    let file = plan.audio_path("ok.wav").unwrap();
    assert_eq!(file.dir, plan.recordings_dir());
    assert_eq!(file.name, "ok.wav");
    assert!(is_bare_file(Some(PathPart::Normal), None));
    assert!(!is_bare_file(Some(PathPart::Normal), Some(PathPart::Normal)));
    assert!(!is_bare_file(Some(PathPart::Parent), None));
    assert!(!is_bare_file(None, None));
}

#[test]
fn delete_all_removes_rows_and_files() {
    let mut db = Database::new();

    let a = sample(100, RecordingStatus::Completed);
    let b = sample(200, RecordingStatus::Failed);
    db.add(&a);
    db.add(&b);
    db.audio.push(a.file_name.clone());

    let find: Stmt = db.plan.find_all_file_names();
    let names = texts(&db.conn, &find.sql, 0);
    let wipe = db.plan.delete_all_recordings::<f64, f32>(&names);
    for step in wipe.steps {
        match step {
            WipeStep::RemoveAudio(file) => {
                assert_eq!(db.all().len(), 2, "the rows go after the files");
                db.remove_audio(Some(file));
            }
            WipeStep::DeleteRows(rows) => {
                assert!(db.audio.is_empty(), "the files go before the rows");
                assert_eq!(db.run(rows).unwrap(), 2);
            }
        }
    }
    assert_eq!(wipe.deleted, 2);
    assert!(db.all().is_empty());
    assert!(db.audio.is_empty());
}

#[test]
fn names_that_escape_are_left_out_of_what_is_removed() {
    let plan = RecordingsStore::new("r");
    let names: Vec<String> =
        ["a.wav", "../b.wav", "", "c.wav"].iter().map(|s| s.to_string()).collect();
    let files: Vec<String> = plan.audio_files(&names).into_iter().map(|f| f.name).collect();
    assert_eq!(files, ["a.wav", "c.wav"]);

    let wipe = plan.delete_all_recordings::<f64, f32>(&names);
    assert_eq!(wipe.deleted, 4);
    assert_eq!(wipe.steps.len(), 3);
    assert!(matches!(&wipe.steps[1], WipeStep::RemoveAudio(f) if f.name == "c.wav"));
    assert!(matches!(&wipe.steps[2], WipeStep::DeleteRows(s) if s.params.is_empty()));

    let id = RecordingId(7);
    for name in ["../b.wav", "", "/etc/passwd", "a/../../etc/passwd", "a/.."] {
        let deletion = plan.delete_recording::<f64, f32>(id, Some(name.to_string()));
        assert!(deletion.deleted && deletion.row.is_some(), "{name}");
        assert!(deletion.audio.is_none(), "{name}");
    }
}

// Rows

fn raw(id: &str, status: &str) -> RawRow<f64, f32> {
    RawRow {
        id: id.to_string(),
        timestamp: 7,
        file_name: "a.wav".to_string(),
        transcription: "ciao".to_string(),
        duration: 1.5,
        status: status.to_string(),
        progress: 0.5,
        source_file_url: None,
        raw_transcription: Some("ciau".to_string()),
    }
}

#[test]
fn rows_that_cannot_be_read_are_errors() {
    let id = "936da01f-9abd-4d9d-80c7-02af85c822a8";
    let rec = raw_to_recording(raw(id, "failed")).unwrap();
    assert_eq!(rec.id.to_text(), id);
    assert_eq!(rec.status, RecordingStatus::Failed);
    assert_eq!(rec.raw_transcription.as_deref(), Some("ciau"));
    assert!(!rec.is_regeneration);

    let err = raw_to_recording(raw("nope", "nope")).unwrap_err();
    assert_eq!(err.message(), "invalid uuid in database: nope");
    let err = raw_to_recording(raw(id, "nope")).unwrap_err();
    assert_eq!(err.message(), "invalid status in database: nope");

    let rows = vec![raw(id, "pending"), raw(id, "bad"), raw("worse", "pending")];
    assert!(matches!(read_rows(rows), Err(StoreError::InvalidStatus(s)) if s == "bad"));
}

#[test]
fn statuses_round_trip_through_their_words() {
    for status in [
        RecordingStatus::Pending,
        RecordingStatus::Converting,
        RecordingStatus::Transcribing,
        RecordingStatus::Completed,
        RecordingStatus::Failed,
    ] {
        assert_eq!(status.as_str().parse::<RecordingStatus>().unwrap(), status);
    }
    assert!("Pending".parse::<RecordingStatus>().is_err());
    assert!(!RecordingStatus::Failed.is_pending());
    assert_eq!(StoreError::Database("x".to_string()).message(), "database error: x");
    assert_eq!(StoreError::Io("x".to_string()).message(), "io error: x");
}

// Identifiers

#[test]
fn identifiers_round_trip_through_their_text() {
    let id = RecordingId(0x936da01f_9abd_4d9d_80c7_02af85c822a8);
    assert_eq!(id.to_text(), "936da01f-9abd-4d9d-80c7-02af85c822a8");
    for text in [
        "936da01f-9abd-4d9d-80c7-02af85c822a8",
        "936DA01F-9ABD-4D9D-80C7-02AF85C822A8",
        "936da01f9abd4d9d80c702af85c822a8",
        "{936da01f-9abd-4d9d-80c7-02af85c822a8}",
        "URN:uuid:936da01f-9abd-4d9d-80c7-02af85c822a8",
    ] {
        assert_eq!(RecordingId::parse(text), Some(id), "{text}");
    }
    for text in [
        "",
        "936da01f-9abd-4d9d-80c7-02af85c822a",
        "936da01f-9abd-4d9d-80c7-02af85c822ag",
        "936da01f9-abd-4d9d-80c7-02af85c822a8",
        "{936da01f9abd4d9d80c702af85c822a8}",
        "è36da01f-9abd-4d9d-80c7-02af85c822a8",
    ] {
        assert_eq!(RecordingId::parse(text), None, "{text}");
    }
    assert_eq!(RecordingId(0).to_text(), "00000000-0000-0000-0000-000000000000");
}

#[test]
fn new_identifiers_are_random_ones() {
    let a = RecordingId::new();
    let b = RecordingId::new();
    assert_ne!(a, b);
    let text = a.to_text();
    assert_eq!(text.as_bytes()[14], b'4');
    assert!(matches!(text.as_bytes()[19], b'8' | b'9' | b'a' | b'b'));
    assert_eq!(RecordingId::parse(&text), Some(a));
}

// Time

#[test]
fn the_clock_counts_from_the_epoch() {
    assert_eq!(epoch_millis(Some(1234)), 1234);
    assert_eq!(epoch_millis(None), 0);
    // Some time after 2020.
    assert!(now_millis() > 1_577_836_800_000);
}
