//! The recordings store: what is kept of a dictation, and the statements that
//! write, find and delete it.
//!
//! - `id` is stored as a TEXT UUID string.
//! - `timestamp` is stored as INTEGER unix-epoch milliseconds: integer millis
//!   sort correctly, are unambiguous, and cross the IPC boundary as a plain
//!   number.
//! - `status` is stored as lowercase TEXT (`pending`, `converting`,
//!   `transcribing`, `completed`, `failed`).
//!
//! Audio files live in a `recordings/` directory and are deleted in lockstep
//! with their rows.

pub mod audio;
pub mod schema;
pub mod search;
pub mod table;

use crate::ids::{id_number, id_text, law_id_text_round_trip, RecordingId};
use crate::store::search::{hits, matching, page, page_of};
use crate::text::{joined, same_text, text_or_none};
use vstd::prelude::*;

verus! {

/// What went wrong with the store.
#[derive(Debug)]
pub enum StoreError {
    Database(String),
    Io(String),
    InvalidUuid(String),
    InvalidStatus(String),
}

/// What is said of an error.
pub open spec fn message_of(e: StoreError) -> Seq<char> {
    match e {
        StoreError::Database(why) => "database error: "@ + why@,
        StoreError::Io(why) => "io error: "@ + why@,
        StoreError::InvalidUuid(id) => "invalid uuid in database: "@ + id@,
        StoreError::InvalidStatus(status) => "invalid status in database: "@ + status@,
    }
}

impl StoreError {
    /// The error in words.
    pub fn message(&self) -> (s: String)
        ensures
            s@ == message_of(*self),
    {
        match self {
            StoreError::Database(why) => joined("database error: ", why.as_str()),
            StoreError::Io(why) => joined("io error: ", why.as_str()),
            StoreError::InvalidUuid(id) => joined("invalid uuid in database: ", id.as_str()),
            StoreError::InvalidStatus(status) => joined(
                "invalid status in database: ",
                status.as_str(),
            ),
        }
    }
}

/// How far the work on a recording is.
#[derive(Debug, Clone, Copy, PartialEq, Eq, Structural)]
pub enum RecordingStatus {
    Pending,
    Converting,
    Transcribing,
    Completed,
    Failed,
}

/// The word that a status is stored as.
pub open spec fn status_text(s: RecordingStatus) -> Seq<char> {
    match s {
        RecordingStatus::Pending => "pending"@,
        RecordingStatus::Converting => "converting"@,
        RecordingStatus::Transcribing => "transcribing"@,
        RecordingStatus::Completed => "completed"@,
        RecordingStatus::Failed => "failed"@,
    }
}

/// Whether a status is eligible for (re)processing.
pub open spec fn is_unfinished(s: RecordingStatus) -> bool {
    s is Pending || s is Converting || s is Transcribing
}

/// The status that a word stands for.
pub open spec fn status_of(t: Seq<char>) -> Option<RecordingStatus> {
    if t == "pending"@ {
        Some(RecordingStatus::Pending)
    } else if t == "converting"@ {
        Some(RecordingStatus::Converting)
    } else if t == "transcribing"@ {
        Some(RecordingStatus::Transcribing)
    } else if t == "completed"@ {
        Some(RecordingStatus::Completed)
    } else if t == "failed"@ {
        Some(RecordingStatus::Failed)
    } else {
        None
    }
}

impl RecordingStatus {
    /// The word that the status is stored as.
    pub fn as_str(self) -> (s: &'static str)
        ensures
            s@ == status_text(self),
    {
        match self {
            RecordingStatus::Pending => "pending",
            RecordingStatus::Converting => "converting",
            RecordingStatus::Transcribing => "transcribing",
            RecordingStatus::Completed => "completed",
            RecordingStatus::Failed => "failed",
        }
    }

    /// Whether a recording with this status is eligible for (re)processing.
    pub fn is_pending(self) -> (r: bool)
        ensures
            r == is_unfinished(self),
    {
        match self {
            RecordingStatus::Pending => true,
            RecordingStatus::Converting => true,
            RecordingStatus::Transcribing => true,
            RecordingStatus::Completed => false,
            RecordingStatus::Failed => false,
        }
    }

    /// The status that a stored word stands for.
    pub fn parse(s: &str) -> (r: Result<RecordingStatus, StoreError>)
        ensures
            match r {
                Ok(status) => status_of(s@) == Some(status),
                Err(StoreError::InvalidStatus(t)) => status_of(s@) is None && t@ == s@,
                Err(_) => false,
            },
    {
        if same_text(s, "pending") {
            Ok(RecordingStatus::Pending)
        } else if same_text(s, "converting") {
            Ok(RecordingStatus::Converting)
        } else if same_text(s, "transcribing") {
            Ok(RecordingStatus::Transcribing)
        } else if same_text(s, "completed") {
            Ok(RecordingStatus::Completed)
        } else if same_text(s, "failed") {
            Ok(RecordingStatus::Failed)
        } else {
            Err(StoreError::InvalidStatus(s.to_owned()))
        }
    }
}

impl std::str::FromStr for RecordingStatus {
    type Err = StoreError;

    fn from_str(s: &str) -> (r: Result<RecordingStatus, StoreError>)
        ensures
            match r {
                Ok(status) => status_of(s@) == Some(status),
                Err(StoreError::InvalidStatus(t)) => status_of(s@) is None && t@ == s@,
                Err(_) => false,
            },
    {
        RecordingStatus::parse(s)
    }
}

/// A status is found again in its word, and no two share one.
pub proof fn law_status_round_trip(s: RecordingStatus)
    ensures
        status_of(status_text(s)) == Some(s),
        forall|t: RecordingStatus| #[trigger] status_text(t) == status_text(s) ==> t == s,
{
    reveal_strlit("pending");
    reveal_strlit("converting");
    reveal_strlit("transcribing");
    reveal_strlit("completed");
    reveal_strlit("failed");
    assert("pending"@.len() == 7 && "converting"@.len() == 10 && "transcribing"@.len() == 12
        && "completed"@.len() == 9 && "failed"@.len() == 6);
}

/// One dictation. `D` is the type of the duration, in seconds, and `P` that of
/// the progress, from 0 to 1.
#[derive(Debug, PartialEq)]
pub struct Recording<D, P> {
    pub id: RecordingId,
    /// Unix epoch milliseconds.
    pub timestamp: i64,
    pub file_name: String,
    pub transcription: String,
    pub duration: D,
    pub status: RecordingStatus,
    pub progress: P,
    pub source_file_url: Option<String>,
    /// The transcription exactly as the engine produced it, before any
    /// reformulation. A rewrite must never be the only surviving copy of what
    /// the user actually dictated.
    pub raw_transcription: Option<String>,
    /// Not persisted; always `false` when loaded from the database.
    pub is_regeneration: bool,
}

/// What the database holds of a recording.
pub struct Row<D, P> {
    pub id: Seq<char>,
    pub timestamp: i64,
    pub file_name: Seq<char>,
    pub transcription: Seq<char>,
    pub duration: D,
    pub status: Seq<char>,
    pub progress: P,
    pub source_file_url: Option<Seq<char>>,
    pub raw_transcription: Option<Seq<char>>,
}

/// The row of a recording.
pub open spec fn row_of<D, P>(r: Recording<D, P>) -> Row<D, P> {
    Row {
        id: id_text(r.id),
        timestamp: r.timestamp,
        file_name: r.file_name@,
        transcription: r.transcription@,
        duration: r.duration,
        status: status_text(r.status),
        progress: r.progress,
        source_file_url: text_or_none(r.source_file_url),
        raw_transcription: text_or_none(r.raw_transcription),
    }
}

/// A row as it comes out of the database, so that UUID and status errors
/// surface as [`StoreError`].
pub struct RawRow<D, P> {
    pub id: String,
    pub timestamp: i64,
    pub file_name: String,
    pub transcription: String,
    pub duration: D,
    pub status: String,
    pub progress: P,
    pub source_file_url: Option<String>,
    pub raw_transcription: Option<String>,
}

impl<D, P> View for RawRow<D, P> {
    type V = Row<D, P>;

    open spec fn view(&self) -> Row<D, P> {
        Row {
            id: self.id@,
            timestamp: self.timestamp,
            file_name: self.file_name@,
            transcription: self.transcription@,
            duration: self.duration,
            status: self.status@,
            progress: self.progress,
            source_file_url: text_or_none(self.source_file_url),
            raw_transcription: text_or_none(self.raw_transcription),
        }
    }
}

/// Whether two recordings hold the same, but for what is not persisted.
pub open spec fn is_same_recording<D, P>(a: Recording<D, P>, b: Recording<D, P>) -> bool {
    &&& a.id == b.id
    &&& a.timestamp == b.timestamp
    &&& a.file_name@ == b.file_name@
    &&& a.transcription@ == b.transcription@
    &&& a.duration == b.duration
    &&& a.status == b.status
    &&& a.progress == b.progress
    &&& text_or_none(a.source_file_url) == text_or_none(b.source_file_url)
    &&& text_or_none(a.raw_transcription) == text_or_none(b.raw_transcription)
}

impl<D: Copy, P: Copy> Clone for Recording<D, P> {
    fn clone(&self) -> (r: Recording<D, P>)
        ensures
            is_same_recording(r, *self),
            r.is_regeneration == self.is_regeneration,
    {
        Recording {
            id: self.id,
            timestamp: self.timestamp,
            file_name: self.file_name.clone(),
            transcription: self.transcription.clone(),
            duration: self.duration,
            status: self.status,
            progress: self.progress,
            source_file_url: copy_of(&self.source_file_url),
            raw_transcription: copy_of(&self.raw_transcription),
            is_regeneration: self.is_regeneration,
        }
    }
}

fn copy_of(t: &Option<String>) -> (r: Option<String>)
    ensures
        text_or_none(r) == text_or_none(*t),
{
    match t {
        Some(s) => Some(s.clone()),
        None => None,
    }
}

/// What a row reads as: a recording if its identifier and its status can be
/// read. Of a row with neither, the identifier is what is complained of.
pub open spec fn reads_as<D, P>(raw: Row<D, P>, r: Result<Recording<D, P>, StoreError>) -> bool {
    match r {
        Ok(rec) => {
            &&& id_number(raw.id) == Some(rec.id.0 as int)
            &&& status_of(raw.status) == Some(rec.status)
            &&& rec.timestamp == raw.timestamp
            &&& rec.file_name@ == raw.file_name
            &&& rec.transcription@ == raw.transcription
            &&& rec.duration == raw.duration
            &&& rec.progress == raw.progress
            &&& text_or_none(rec.source_file_url) == raw.source_file_url
            &&& text_or_none(rec.raw_transcription) == raw.raw_transcription
            &&& !rec.is_regeneration
        },
        Err(StoreError::InvalidUuid(id)) => id_number(raw.id) is None && id@ == raw.id,
        Err(StoreError::InvalidStatus(s)) => id_number(raw.id) is Some && status_of(raw.status)
            is None && s@ == raw.status,
        Err(_) => false,
    }
}

/// Reads a row.
pub fn raw_to_recording<D, P>(raw: RawRow<D, P>) -> (r: Result<Recording<D, P>, StoreError>)
    ensures
        reads_as(raw@, r),
{
    let id: RecordingId = match RecordingId::parse(raw.id.as_str()) {
        Some(id) => id,
        None => {
            return Err(StoreError::InvalidUuid(raw.id));
        },
    };
    let status: RecordingStatus = match RecordingStatus::parse(raw.status.as_str()) {
        Ok(status) => status,
        Err(e) => {
            return Err(e);
        },
    };
    Ok(
        Recording {
            id,
            timestamp: raw.timestamp,
            file_name: raw.file_name,
            transcription: raw.transcription,
            duration: raw.duration,
            status,
            progress: raw.progress,
            source_file_url: raw.source_file_url,
            raw_transcription: raw.raw_transcription,
            is_regeneration: false,
        },
    )
}

/// What rows read as: recordings, in order, or what is wrong with the first
/// that cannot be read.
pub open spec fn read_as<D, P>(
    rows: Seq<RawRow<D, P>>,
    r: Result<Vec<Recording<D, P>>, StoreError>,
) -> bool {
    match r {
        Ok(recordings) => {
            &&& recordings@.len() == rows.len()
            &&& forall|k: int|
                0 <= k < rows.len() ==> reads_as(
                    rows[k]@,
                    Ok::<Recording<D, P>, StoreError>(#[trigger] recordings@[k]),
                )
        },
        Err(e) => exists|k: int|
            0 <= k < rows.len() && reads_as(
                (#[trigger] rows[k])@,
                Err::<Recording<D, P>, StoreError>(e),
            ) && forall|j: int|
                0 <= j < k ==> id_number((#[trigger] rows[j]).id@) is Some && status_of(
                    rows[j].status@,
                ) is Some,
    }
}

/// Reads rows, in order. The first that cannot be read is an error.
pub fn read_rows<D, P>(rows: Vec<RawRow<D, P>>) -> (r: Result<Vec<Recording<D, P>>, StoreError>)
    ensures
        read_as(rows@, r),
{
    let mut recordings: Vec<Recording<D, P>> = Vec::new();
    let ghost all = rows@;
    let ghost mut done: int = 0;
    for row in it: rows
        invariant
            it.seq() == all,
            done == it.index(),
            recordings@.len() == done,
            forall|k: int|
                0 <= k < done ==> reads_as(
                    all[k]@,
                    Ok::<Recording<D, P>, StoreError>(#[trigger] recordings@[k]),
                ),
            forall|j: int|
                0 <= j < done ==> id_number((#[trigger] all[j]).id@) is Some && status_of(
                    all[j].status@,
                ) is Some,
    {
        assert(row == all[done]);
        match raw_to_recording(row) {
            Ok(recording) => {
                recordings.push(recording);
            },
            Err(e) => {
                return Err(e);
            },
        }
        proof {
            done = done + 1;
        }
    }
    Ok(recordings)
}

/// What is written of a recording is read back as it was.
pub proof fn law_row_round_trip<D, P>(
    written: Recording<D, P>,
    read: Result<Recording<D, P>, StoreError>,
)
    requires
        reads_as(row_of(written), read),
    ensures
        read is Ok,
        is_same_recording(read->Ok_0, written),
        !read->Ok_0.is_regeneration,
{
    law_id_text_round_trip(written.id);
    law_status_round_trip(written.status);
}

/// What a statement is run with.
#[derive(Debug, PartialEq)]
pub enum SqlValue<D, P> {
    Text(String),
    Integer(i64),
    Duration(D),
    Progress(P),
    Null,
}

/// What a [`SqlValue`] stands for.
pub enum SqlTerm<D, P> {
    Text(Seq<char>),
    Integer(i64),
    Duration(D),
    Progress(P),
    Null,
}

impl<D, P> View for SqlValue<D, P> {
    type V = SqlTerm<D, P>;

    open spec fn view(&self) -> SqlTerm<D, P> {
        match *self {
            SqlValue::Text(s) => SqlTerm::Text(s@),
            SqlValue::Integer(n) => SqlTerm::Integer(n),
            SqlValue::Duration(d) => SqlTerm::Duration(d),
            SqlValue::Progress(p) => SqlTerm::Progress(p),
            SqlValue::Null => SqlTerm::Null,
        }
    }
}

/// A statement and what it is run with.
pub struct Statement<D, P> {
    pub sql: String,
    pub params: Vec<SqlValue<D, P>>,
}

/// Whether `s` is the statement `sql` run with `params`.
pub open spec fn is_statement<D, P>(
    s: Statement<D, P>,
    sql: Seq<char>,
    params: Seq<SqlTerm<D, P>>,
) -> bool {
    &&& s.sql@ == sql
    &&& s.params@.len() == params.len()
    &&& forall|k: int| 0 <= k < params.len() ==> (#[trigger] s.params@[k])@ == params[k]
}

/// A text that may be missing, as a term.
pub open spec fn text_term<D, P>(t: Option<Seq<char>>) -> SqlTerm<D, P> {
    match t {
        Some(s) => SqlTerm::Text(s),
        None => SqlTerm::Null,
    }
}

fn text_value<D, P>(t: &Option<String>) -> (v: SqlValue<D, P>)
    ensures
        v@ == text_term::<D, P>(text_or_none(*t)),
{
    match t {
        Some(s) => SqlValue::Text(s.clone()),
        None => SqlValue::Null,
    }
}

/// The columns of a row, in the order that the statements name them.
pub open spec fn columns_of<D, P>(row: Row<D, P>) -> Seq<SqlTerm<D, P>> {
    seq![
        SqlTerm::Text(row.id),
        SqlTerm::Integer(row.timestamp),
        SqlTerm::Text(row.file_name),
        SqlTerm::Text(row.transcription),
        SqlTerm::Duration(row.duration),
        SqlTerm::Text(row.status),
        SqlTerm::Progress(row.progress),
        text_term(row.source_file_url),
        text_term(row.raw_transcription),
    ]
}

/// Inserts a recording.
pub const INSERT_RECORDING: &'static str = "INSERT INTO recordings
                (id, timestamp, fileName, transcription, duration, status, progress, sourceFileURL, rawTranscription)
             VALUES (?1, ?2, ?3, ?4, ?5, ?6, ?7, ?8, ?9)";

/// Replaces all of a recording but its identifier.
pub const UPDATE_RECORDING: &'static str = "UPDATE recordings SET
                timestamp = ?2, fileName = ?3, transcription = ?4, duration = ?5,
                status = ?6, progress = ?7, sourceFileURL = ?8, rawTranscription = ?9
             WHERE id = ?1";

/// Replaces the transcription, the progress and the status.
pub const UPDATE_TRANSCRIPTION: &'static str =
    "UPDATE recordings SET transcription = ?2, progress = ?3, status = ?4 WHERE id = ?1";

/// Replaces the progress and the status.
pub const UPDATE_STATUS: &'static str =
    "UPDATE recordings SET progress = ?2, status = ?3 WHERE id = ?1";

/// Replaces the raw transcription.
pub const UPDATE_RAW_TRANSCRIPTION: &'static str =
    "UPDATE recordings SET rawTranscription = ?2 WHERE id = ?1";

/// Replaces the source file.
pub const UPDATE_SOURCE_FILE_URL: &'static str =
    "UPDATE recordings SET sourceFileURL = ?2 WHERE id = ?1";

/// Finds the audio file of a recording.
pub const SELECT_FILE_NAME: &'static str = "SELECT fileName FROM recordings WHERE id = ?1";

/// Deletes a recording.
pub const DELETE_RECORDING: &'static str = "DELETE FROM recordings WHERE id = ?1";

/// Finds the audio files of all recordings.
pub const SELECT_ALL_FILE_NAMES: &'static str = "SELECT fileName FROM recordings";

/// Deletes all recordings.
pub const DELETE_ALL_RECORDINGS: &'static str = "DELETE FROM recordings";

/// The statuses that [`RecordingStatus::is_pending`] holds of.
pub const PENDING_STATUSES_SQL: &'static str = "('pending', 'converting', 'transcribing')";

/// What the queries for recordings start with.
pub const SELECT_RECORDINGS: &'static str =
    "SELECT id, timestamp, fileName, transcription, duration, status, progress,
                    sourceFileURL, rawTranscription
             FROM recordings ";

/// What the query for outdated recordings starts with.
pub const SELECT_OUTDATED: &'static str = "SELECT id, fileName FROM recordings
                 WHERE timestamp < ?1 AND status NOT IN ";

fn text_of_status(status: RecordingStatus) -> (s: String)
    ensures
        s@ == status_text(status),
{
    status.as_str().to_owned()
}

pub(crate) fn statement<D, P>(sql: &str, params: Vec<SqlValue<D, P>>) -> (s: Statement<D, P>)
    ensures
        s.sql@ == sql@,
        s.params == params,
{
    Statement { sql: sql.to_owned(), params }
}

impl<D: Copy, P: Copy> Recording<D, P> {
    fn columns(&self) -> (v: Vec<SqlValue<D, P>>)
        ensures
            v@.len() == 9,
            forall|k: int| 0 <= k < 9 ==> (#[trigger] v@[k])@ == columns_of(row_of(*self))[k],
    {
        let v: Vec<SqlValue<D, P>> = vec![
            SqlValue::Text(self.id.to_text()),
            SqlValue::Integer(self.timestamp),
            SqlValue::Text(self.file_name.clone()),
            SqlValue::Text(self.transcription.clone()),
            SqlValue::Duration(self.duration),
            SqlValue::Text(text_of_status(self.status)),
            SqlValue::Progress(self.progress),
            text_value(&self.source_file_url),
            text_value(&self.raw_transcription),
        ];
        v
    }
}

/// The recordings store. It says which statements are run and which audio
/// files go with them.
pub struct RecordingsStore {
    recordings_dir: String,
}

impl View for RecordingsStore {
    type V = Seq<char>;

    closed spec fn view(&self) -> Seq<char> {
        self.recordings_dir@
    }
}

impl RecordingsStore {
    /// A store whose audio files, named by `Recording::file_name`, live in
    /// `recordings_dir`.
    pub fn new(recordings_dir: &str) -> (s: RecordingsStore)
        ensures
            s@ == recordings_dir@,
    {
        RecordingsStore { recordings_dir: recordings_dir.to_owned() }
    }

    /// Where the audio files live.
    pub fn recordings_dir(&self) -> (dir: &str)
        ensures
            dir@ == self@,
    {
        self.recordings_dir.as_str()
    }

    /// Inserts a recording. The caller must see a failure: the save is
    /// awaited.
    pub fn add_recording<D: Copy, P: Copy>(&self, recording: &Recording<D, P>) -> (s: Statement<
        D,
        P,
    >)
        ensures
            is_statement(s, INSERT_RECORDING@, columns_of(row_of(*recording))),
    {
        statement(INSERT_RECORDING, recording.columns())
    }

    /// Writes the whole row of a recording.
    pub fn update_recording<D: Copy, P: Copy>(&self, recording: &Recording<D, P>) -> (s: Statement<
        D,
        P,
    >)
        ensures
            is_statement(s, UPDATE_RECORDING@, columns_of(row_of(*recording))),
    {
        statement(UPDATE_RECORDING, recording.columns())
    }

    /// Writes transcription, progress and status in one statement.
    pub fn update_transcription<D, P>(
        &self,
        id: RecordingId,
        transcription: &str,
        progress: P,
        status: RecordingStatus,
    ) -> (s: Statement<D, P>)
        ensures
            is_statement(
                s,
                UPDATE_TRANSCRIPTION@,
                seq![
                    SqlTerm::Text(id_text(id)),
                    SqlTerm::Text(transcription@),
                    SqlTerm::Progress(progress),
                    SqlTerm::Text(status_text(status)),
                ],
            ),
    {
        statement(
            UPDATE_TRANSCRIPTION,
            vec![
                SqlValue::Text(id.to_text()),
                SqlValue::Text(transcription.to_owned()),
                SqlValue::Progress(progress),
                SqlValue::Text(text_of_status(status)),
            ],
        )
    }

    /// Writes progress and status.
    pub fn update_status<D, P>(
        &self,
        id: RecordingId,
        progress: P,
        status: RecordingStatus,
    ) -> (s: Statement<D, P>)
        ensures
            is_statement(
                s,
                UPDATE_STATUS@,
                seq![
                    SqlTerm::Text(id_text(id)),
                    SqlTerm::Progress(progress),
                    SqlTerm::Text(status_text(status)),
                ],
            ),
    {
        statement(
            UPDATE_STATUS,
            vec![
                SqlValue::Text(id.to_text()),
                SqlValue::Progress(progress),
                SqlValue::Text(text_of_status(status)),
            ],
        )
    }

    /// Writes the raw transcription of a recording.
    pub fn update_raw_transcription<D, P>(
        &self,
        id: RecordingId,
        raw_transcription: &str,
    ) -> (s: Statement<D, P>)
        ensures
            is_statement(
                s,
                UPDATE_RAW_TRANSCRIPTION@,
                seq![SqlTerm::Text(id_text(id)), SqlTerm::Text(raw_transcription@)],
            ),
    {
        statement(
            UPDATE_RAW_TRANSCRIPTION,
            vec![SqlValue::Text(id.to_text()), SqlValue::Text(raw_transcription.to_owned())],
        )
    }

    /// Writes the source file of a recording.
    pub fn update_source_file_url<D, P>(&self, id: RecordingId, source_url: &str) -> (s: Statement<
        D,
        P,
    >)
        ensures
            is_statement(
                s,
                UPDATE_SOURCE_FILE_URL@,
                seq![SqlTerm::Text(id_text(id)), SqlTerm::Text(source_url@)],
            ),
    {
        statement(
            UPDATE_SOURCE_FILE_URL,
            vec![SqlValue::Text(id.to_text()), SqlValue::Text(source_url.to_owned())],
        )
    }

    /// Finds all recordings, newest first.
    pub fn get_all<D, P>(&self) -> (s: Statement<D, P>)
        ensures
            is_statement(
                s,
                SELECT_RECORDINGS@ + "ORDER BY timestamp DESC"@,
                Seq::<SqlTerm<D, P>>::empty(),
            ),
    {
        query("ORDER BY timestamp DESC", Vec::new())
    }

    /// Finds a page of the recordings, newest first.
    pub fn get_recordings<D, P>(&self, limit: i64, offset: i64) -> (s: Statement<D, P>)
        ensures
            is_statement(
                s,
                SELECT_RECORDINGS@ + "ORDER BY timestamp DESC LIMIT ?1 OFFSET ?2"@,
                seq![SqlTerm::Integer(limit), SqlTerm::Integer(offset)],
            ),
    {
        query(
            "ORDER BY timestamp DESC LIMIT ?1 OFFSET ?2",
            vec![SqlValue::Integer(limit), SqlValue::Integer(offset)],
        )
    }

    /// Finds a recording.
    pub fn get_recording<D, P>(&self, id: RecordingId) -> (s: Statement<D, P>)
        ensures
            is_statement(
                s,
                SELECT_RECORDINGS@ + "WHERE id = ?1 LIMIT 1"@,
                seq![SqlTerm::Text(id_text(id))],
            ),
    {
        query("WHERE id = ?1 LIMIT 1", vec![SqlValue::Text(id.to_text())])
    }

    /// Finds the recordings whose status is pending, converting, or
    /// transcribing, so that interrupted transcriptions can be resumed, oldest
    /// first.
    pub fn get_pending_recordings<D, P>(&self) -> (s: Statement<D, P>)
        ensures
            is_statement(
                s,
                SELECT_RECORDINGS@ + ("WHERE status IN "@ + PENDING_STATUSES_SQL@
                    + " ORDER BY timestamp ASC"@),
                Seq::<SqlTerm<D, P>>::empty(),
            ),
    {
        let filter: String = joined("WHERE status IN ", PENDING_STATUSES_SQL);
        query(joined(filter.as_str(), " ORDER BY timestamp ASC").as_str(), Vec::new())
    }

    /// Finds the oldest of them.
    pub fn get_next_pending_recording<D, P>(&self) -> (s: Statement<D, P>)
        ensures
            is_statement(
                s,
                SELECT_RECORDINGS@ + ("WHERE status IN "@ + PENDING_STATUSES_SQL@
                    + " ORDER BY timestamp ASC LIMIT 1"@),
                Seq::<SqlTerm<D, P>>::empty(),
            ),
    {
        let filter: String = joined("WHERE status IN ", PENDING_STATUSES_SQL);
        query(joined(filter.as_str(), " ORDER BY timestamp ASC LIMIT 1").as_str(), Vec::new())
    }

    /// The recordings whose transcription holds `query`, in any case, newest
    /// first, among `rows`: those that [`RecordingsStore::get_all`] finds. They
    /// come by pages, where a negative limit is none and a negative offset is
    /// 0.
    pub fn search_recordings<D, P>(
        &self,
        rows: Vec<RawRow<D, P>>,
        query: &str,
        limit: i64,
        offset: i64,
    ) -> (r: Result<Vec<Recording<D, P>>, StoreError>)
        ensures
            read_as(page(hits(rows@, query@), limit as int, offset as int), r),
    {
        let found: Vec<RawRow<D, P>> = matching(rows, query);
        read_rows(page_of(found, limit, offset))
    }
}

/// A query for recordings.
fn query<D, P>(tail: &str, params: Vec<SqlValue<D, P>>) -> (s: Statement<D, P>)
    ensures
        s.sql@ == SELECT_RECORDINGS@ + tail@,
        s.params == params,
{
    statement(joined(SELECT_RECORDINGS, tail).as_str(), params)
}

/// The list of statuses in the queries is that of the statuses eligible for
/// (re)processing.
pub proof fn law_pending_list(s: RecordingStatus)
    ensures
        PENDING_STATUSES_SQL@ == "('"@ + status_text(RecordingStatus::Pending) + "', '"@
            + status_text(RecordingStatus::Converting) + "', '"@ + status_text(
            RecordingStatus::Transcribing,
        ) + "')"@,
        is_unfinished(s) <==> status_text(s) == status_text(RecordingStatus::Pending)
            || status_text(s) == status_text(RecordingStatus::Converting) || status_text(s)
            == status_text(RecordingStatus::Transcribing),
{
    reveal_strlit("('pending', 'converting', 'transcribing')");
    reveal_strlit("('");
    reveal_strlit("', '");
    reveal_strlit("')");
    law_status_round_trip(s);
    reveal_strlit("pending");
    reveal_strlit("converting");
    reveal_strlit("transcribing");
    reveal_strlit("completed");
    reveal_strlit("failed");
}

/// A status is stored as its name in lower case, and only the three that come
/// before the end of the work are eligible for (re)processing.
pub proof fn law_statuses_go_by_their_names()
    ensures
        status_text(RecordingStatus::Pending) == "pending"@,
        status_text(RecordingStatus::Converting) == "converting"@,
        status_text(RecordingStatus::Transcribing) == "transcribing"@,
        status_text(RecordingStatus::Completed) == "completed"@,
        status_text(RecordingStatus::Failed) == "failed"@,
        forall|s: RecordingStatus|
            is_unfinished(s) <==> s != RecordingStatus::Completed && s != RecordingStatus::Failed,
{
}

/// No word but the names of the statuses stands for one.
pub proof fn law_other_words_are_no_status(t: Seq<char>)
    ensures
        status_of(t) is Some ==> t == status_text(status_of(t)->0),
        status_of(t) is None ==> forall|s: RecordingStatus| #[trigger] status_text(s) != t,
{
    assert forall|s: RecordingStatus| status_of(t) is None implies #[trigger] status_text(s)
        != t by {
        law_status_round_trip(s);
    }
}

/// A row holds each part of its recording in the column that the statements
/// name for it.
pub proof fn law_columns_hold_the_recording<D, P>(r: Recording<D, P>)
    ensures
        ({
            let c = columns_of(row_of(r));
            &&& c.len() == 9
            &&& c[0] == SqlTerm::<D, P>::Text(id_text(r.id))
            &&& c[1] == SqlTerm::<D, P>::Integer(r.timestamp)
            &&& c[2] == SqlTerm::<D, P>::Text(r.file_name@)
            &&& c[3] == SqlTerm::<D, P>::Text(r.transcription@)
            &&& c[4] == SqlTerm::<D, P>::Duration(r.duration)
            &&& c[5] == SqlTerm::<D, P>::Text(status_text(r.status))
            &&& c[6] == SqlTerm::<D, P>::Progress(r.progress)
            &&& match r.source_file_url {
                Some(url) => c[7] == SqlTerm::<D, P>::Text(url@),
                None => c[7] == SqlTerm::<D, P>::Null,
            }
            &&& match r.raw_transcription {
                Some(raw) => c[8] == SqlTerm::<D, P>::Text(raw@),
                None => c[8] == SqlTerm::<D, P>::Null,
            }
        }),
{
}

/// A row is read if its identifier and its status can be, and only then. What is
/// complained of is the identifier, or the status of a row whose identifier is
/// in order.
pub proof fn law_unreadable_rows_are_told_apart<D, P>(
    raw: Row<D, P>,
    r: Result<Recording<D, P>, StoreError>,
)
    requires
        reads_as(raw, r),
    ensures
        r is Ok <==> id_number(raw.id) is Some && status_of(raw.status) is Some,
        id_number(raw.id) is None ==> r is Err && r->Err_0 is InvalidUuid
            && r->Err_0->InvalidUuid_0@ == raw.id,
        id_number(raw.id) is Some && status_of(raw.status) is None ==> r is Err && r->Err_0
            is InvalidStatus && r->Err_0->InvalidStatus_0@ == raw.status,
        r is Ok ==> r->Ok_0.transcription@ == raw.transcription && r->Ok_0.timestamp
            == raw.timestamp && r->Ok_0.file_name@ == raw.file_name,
{
}

/// Rows are read if each of them can be, and then there is a recording for each,
/// in order. Otherwise the first that cannot be read is complained of.
pub proof fn law_rows_are_read_in_order<D, P>(
    rows: Seq<RawRow<D, P>>,
    r: Result<Vec<Recording<D, P>>, StoreError>,
)
    requires
        read_as(rows, r),
    ensures
        r is Ok <==> forall|k: int|
            0 <= k < rows.len() ==> id_number((#[trigger] rows[k]).id@) is Some && status_of(
                rows[k].status@,
            ) is Some,
        r matches Ok(v) ==> v@.len() == rows.len() && forall|k: int|
            0 <= k < rows.len() ==> (#[trigger] v@[k]).transcription@ == rows[k].transcription@
                && v@[k].timestamp == rows[k].timestamp && v@[k].file_name@ == rows[k].file_name@,
{
    if let Ok(v) = r {
        assert forall|k: int| 0 <= k < rows.len() implies id_number((#[trigger] rows[k]).id@)
            is Some && status_of(rows[k].status@) is Some by {
            let rec = v@[k];
            assert(reads_as(rows[k]@, Ok::<Recording<D, P>, StoreError>(rec)));
        }
    }
}

/// A statement is run with the text and the values that it was made with, one by
/// one.
pub proof fn law_statement_is_what_it_says<D, P>(
    s: Statement<D, P>,
    sql: Seq<char>,
    params: Seq<SqlTerm<D, P>>,
)
    requires
        is_statement(s, sql, params),
    ensures
        s.sql@ == sql,
        s.params@.len() == params.len(),
        forall|k: int| 0 <= k < params.len() ==> (#[trigger] s.params@[k])@ == params[k],
{
}

/// Values stand for themselves, and so does what comes out of the database.
pub proof fn law_values_stand_for_themselves<D, P>(
    text: String,
    n: i64,
    duration: D,
    progress: P,
    raw: RawRow<D, P>,
)
    ensures
        SqlValue::<D, P>::Text(text)@ == SqlTerm::<D, P>::Text(text@),
        SqlValue::<D, P>::Integer(n)@ == SqlTerm::<D, P>::Integer(n),
        SqlValue::<D, P>::Duration(duration)@ == SqlTerm::<D, P>::Duration(duration),
        SqlValue::<D, P>::Progress(progress)@ == SqlTerm::<D, P>::Progress(progress),
        SqlValue::<D, P>::Null@ == SqlTerm::<D, P>::Null,
        raw@.id == raw.id@ && raw@.timestamp == raw.timestamp && raw@.file_name == raw.file_name@,
        raw@.transcription == raw.transcription@ && raw@.duration == raw.duration,
        raw@.status == raw.status@ && raw@.progress == raw.progress,
        raw@.source_file_url == text_or_none(raw.source_file_url),
        raw@.raw_transcription == text_or_none(raw.raw_transcription),
{
}

/// Every error tells why it came.
pub proof fn law_errors_tell_why(why: String)
    ensures
        message_of(StoreError::Database(why)) == "database error: "@ + why@,
        message_of(StoreError::Io(why)) == "io error: "@ + why@,
        message_of(StoreError::InvalidUuid(why)) == "invalid uuid in database: "@ + why@,
        message_of(StoreError::InvalidStatus(why)) == "invalid status in database: "@ + why@,
{
}

/// What the statements ask of the database, word for word: which columns each
/// of them writes, and which rows it is about.
pub proof fn law_statements_ask_for_this()
    ensures
        INSERT_RECORDING@
            == "INSERT INTO recordings
                (id, timestamp, fileName, transcription, duration, status, progress, sourceFileURL, rawTranscription)
             VALUES (?1, ?2, ?3, ?4, ?5, ?6, ?7, ?8, ?9)"@,
        UPDATE_RECORDING@
            == "UPDATE recordings SET
                timestamp = ?2, fileName = ?3, transcription = ?4, duration = ?5,
                status = ?6, progress = ?7, sourceFileURL = ?8, rawTranscription = ?9
             WHERE id = ?1"@,
        UPDATE_TRANSCRIPTION@
            == "UPDATE recordings SET transcription = ?2, progress = ?3, status = ?4 WHERE id = ?1"@,
        UPDATE_STATUS@
            == "UPDATE recordings SET progress = ?2, status = ?3 WHERE id = ?1"@,
        UPDATE_RAW_TRANSCRIPTION@
            == "UPDATE recordings SET rawTranscription = ?2 WHERE id = ?1"@,
        UPDATE_SOURCE_FILE_URL@
            == "UPDATE recordings SET sourceFileURL = ?2 WHERE id = ?1"@,
        SELECT_FILE_NAME@
            == "SELECT fileName FROM recordings WHERE id = ?1"@,
        DELETE_RECORDING@
            == "DELETE FROM recordings WHERE id = ?1"@,
        SELECT_ALL_FILE_NAMES@
            == "SELECT fileName FROM recordings"@,
        DELETE_ALL_RECORDINGS@
            == "DELETE FROM recordings"@,
        PENDING_STATUSES_SQL@
            == "('pending', 'converting', 'transcribing')"@,
        SELECT_RECORDINGS@
            == "SELECT id, timestamp, fileName, transcription, duration, status, progress,
                    sourceFileURL, rawTranscription
             FROM recordings "@,
        SELECT_OUTDATED@
            == "SELECT id, fileName FROM recordings
                 WHERE timestamp < ?1 AND status NOT IN "@,
{
}

} // verus!
