//! The schema of the recordings database and how an older one is brought up to
//! date.
//!
//! Migrations are additive. Applied migrations are recorded in a `migrations`
//! table, and each `ALTER TABLE` is additionally guarded by a column-existence
//! check, so that running them again against any prior schema state does
//! nothing.

use crate::text::same_text;
use vstd::prelude::*;

verus! {

/// Makes the table of applied migrations. This comes before anything else.
pub const CREATE_MIGRATIONS: &'static str =
    "CREATE TABLE IF NOT EXISTS migrations (identifier TEXT PRIMARY KEY NOT NULL)";

/// Finds the applied migrations.
pub const SELECT_MIGRATIONS: &'static str = "SELECT identifier FROM migrations";

/// Finds the columns of the recordings table, whose names are the second value
/// of each row; there are none where there is no such table.
pub const SELECT_COLUMNS: &'static str = "PRAGMA table_info(recordings)";

/// The columns that are added to the base table.
#[derive(Debug, Clone, Copy, PartialEq, Eq, Structural)]
pub enum Column {
    Status,
    Progress,
    SourceFileUrl,
    RawTranscription,
}

/// The migrations, oldest first.
#[derive(Debug, Clone, Copy, PartialEq, Eq, Structural)]
pub enum Migration {
    /// The base table.
    V1,
    /// Status, progress and source file.
    V2AddStatus,
    /// The transcription before any reformulation.
    V3AddRawTranscription,
}

/// One statement of a migration.
#[derive(Debug, Clone, Copy, PartialEq, Eq, Structural)]
pub enum SchemaStep {
    /// Make the base table, unless it is there.
    CreateTable,
    /// Add a column.
    AddColumn(Column),
    /// Record a migration as applied.
    Record(Migration),
}

/// The name of a column.
pub open spec fn column_name(c: Column) -> Seq<char> {
    match c {
        Column::Status => "status"@,
        Column::Progress => "progress"@,
        Column::SourceFileUrl => "sourceFileURL"@,
        Column::RawTranscription => "rawTranscription"@,
    }
}

/// The identifier of a migration.
pub open spec fn migration_name(m: Migration) -> Seq<char> {
    match m {
        Migration::V1 => "v1"@,
        Migration::V2AddStatus => "v2_add_status"@,
        Migration::V3AddRawTranscription => "v3_add_raw_transcription"@,
    }
}

impl Column {
    /// The name of the column.
    pub fn name(self) -> (s: &'static str)
        ensures
            s@ == column_name(self),
    {
        match self {
            Column::Status => "status",
            Column::Progress => "progress",
            Column::SourceFileUrl => "sourceFileURL",
            Column::RawTranscription => "rawTranscription",
        }
    }
}

impl Migration {
    /// The identifier of the migration.
    pub fn name(self) -> (s: &'static str)
        ensures
            s@ == migration_name(self),
    {
        match self {
            Migration::V1 => "v1",
            Migration::V2AddStatus => "v2_add_status",
            Migration::V3AddRawTranscription => "v3_add_raw_transcription",
        }
    }
}

/// The statement of a step.
pub open spec fn step_sql(step: SchemaStep) -> Seq<char> {
    match step {
        SchemaStep::CreateTable => "CREATE TABLE IF NOT EXISTS recordings (
                id TEXT PRIMARY KEY NOT NULL,
                timestamp INTEGER NOT NULL,
                fileName TEXT NOT NULL,
                transcription TEXT NOT NULL COLLATE NOCASE,
                duration REAL NOT NULL
            );
            CREATE INDEX IF NOT EXISTS recordings_on_timestamp ON recordings(timestamp);
            CREATE INDEX IF NOT EXISTS recordings_on_transcription ON recordings(transcription);"@,
        SchemaStep::AddColumn(Column::Status) =>
            "ALTER TABLE recordings ADD COLUMN status TEXT NOT NULL DEFAULT 'completed'"@,
        SchemaStep::AddColumn(Column::Progress) =>
            "ALTER TABLE recordings ADD COLUMN progress REAL NOT NULL DEFAULT 1.0"@,
        SchemaStep::AddColumn(Column::SourceFileUrl) =>
            "ALTER TABLE recordings ADD COLUMN sourceFileURL TEXT"@,
        SchemaStep::AddColumn(Column::RawTranscription) =>
            "ALTER TABLE recordings ADD COLUMN rawTranscription TEXT"@,
        SchemaStep::Record(Migration::V1) => "INSERT INTO migrations (identifier) VALUES ('v1')"@,
        SchemaStep::Record(Migration::V2AddStatus) =>
            "INSERT INTO migrations (identifier) VALUES ('v2_add_status')"@,
        SchemaStep::Record(Migration::V3AddRawTranscription) =>
            "INSERT INTO migrations (identifier) VALUES ('v3_add_raw_transcription')"@,
    }
}

impl SchemaStep {
    /// The statement of the step.
    pub fn sql(self) -> (s: &'static str)
        ensures
            s@ == step_sql(self),
    {
        match self {
            SchemaStep::CreateTable => "CREATE TABLE IF NOT EXISTS recordings (
                id TEXT PRIMARY KEY NOT NULL,
                timestamp INTEGER NOT NULL,
                fileName TEXT NOT NULL,
                transcription TEXT NOT NULL COLLATE NOCASE,
                duration REAL NOT NULL
            );
            CREATE INDEX IF NOT EXISTS recordings_on_timestamp ON recordings(timestamp);
            CREATE INDEX IF NOT EXISTS recordings_on_transcription ON recordings(transcription);",
            SchemaStep::AddColumn(c) => match c {
                Column::Status =>
                    "ALTER TABLE recordings ADD COLUMN status TEXT NOT NULL DEFAULT 'completed'",
                Column::Progress =>
                    "ALTER TABLE recordings ADD COLUMN progress REAL NOT NULL DEFAULT 1.0",
                Column::SourceFileUrl => "ALTER TABLE recordings ADD COLUMN sourceFileURL TEXT",
                Column::RawTranscription =>
                    "ALTER TABLE recordings ADD COLUMN rawTranscription TEXT",
            },
            SchemaStep::Record(m) => match m {
                Migration::V1 => "INSERT INTO migrations (identifier) VALUES ('v1')",
                Migration::V2AddStatus =>
                    "INSERT INTO migrations (identifier) VALUES ('v2_add_status')",
                Migration::V3AddRawTranscription =>
                    "INSERT INTO migrations (identifier) VALUES ('v3_add_raw_transcription')",
            },
        }
    }
}

/// What a database has: which migrations it records as applied, and which
/// columns its recordings table has, if it has one.
pub struct Schema {
    pub applied: Set<Seq<char>>,
    pub columns: Set<Seq<char>>,
}

/// The columns of the base table.
pub open spec fn base_columns() -> Set<Seq<char>> {
    set!["id"@, "timestamp"@, "fileName"@, "transcription"@, "duration"@]
}

/// What adds a column where it is missing.
pub open spec fn add_missing(schema: Schema, c: Column) -> Seq<SchemaStep> {
    if schema.columns.contains(column_name(c)) {
        Seq::empty()
    } else {
        seq![SchemaStep::AddColumn(c)]
    }
}

/// The steps of a migration where it has not been applied.
pub open spec fn steps_of(schema: Schema, m: Migration) -> Seq<SchemaStep> {
    if schema.applied.contains(migration_name(m)) {
        Seq::empty()
    } else {
        match m {
            Migration::V1 => seq![SchemaStep::CreateTable, SchemaStep::Record(m)],
            Migration::V2AddStatus => (add_missing(schema, Column::Status) + add_missing(
                schema,
                Column::Progress,
            ) + add_missing(schema, Column::SourceFileUrl)).push(SchemaStep::Record(m)),
            Migration::V3AddRawTranscription => add_missing(schema, Column::RawTranscription).push(
                SchemaStep::Record(m),
            ),
        }
    }
}

/// The steps that bring a database up to date.
pub open spec fn migration_steps(schema: Schema) -> Seq<SchemaStep> {
    steps_of(schema, Migration::V1) + steps_of(schema, Migration::V2AddStatus) + steps_of(
        schema,
        Migration::V3AddRawTranscription,
    )
}

/// The names as a set.
pub open spec fn name_set(names: Seq<String>) -> Set<Seq<char>> {
    Set::new(|n: Seq<char>| exists|k: int| 0 <= k < names.len() && #[trigger] names[k]@ == n)
}

fn has_name(names: &Vec<String>, name: &str) -> (r: bool)
    ensures
        r == name_set(names@).contains(name@),
{
    let mut i: usize = 0;
    while i < names.len()
        invariant
            i <= names@.len(),
            forall|k: int| 0 <= k < i ==> #[trigger] names@[k]@ != name@,
        decreases names@.len() - i,
    {
        if same_text(names[i].as_str(), name) {
            assert(names@[i as int]@ == name@);
            return true;
        }
        i = i + 1;
    }
    false
}

fn push_missing(steps: &mut Vec<SchemaStep>, columns: &Vec<String>, c: Column)
    ensures
        final(steps)@ == old(steps)@ + add_missing(
            Schema { applied: Set::empty(), columns: name_set(columns@) },
            c,
        ),
{
    if !has_name(columns, c.name()) {
        steps.push(SchemaStep::AddColumn(c));
    }
}

/// The steps that bring a database up to date that has these migrations
/// applied and these columns in its recordings table.
pub fn migrate(applied: &Vec<String>, columns: &Vec<String>) -> (steps: Vec<SchemaStep>)
    ensures
        steps@ == migration_steps(
            Schema { applied: name_set(applied@), columns: name_set(columns@) },
        ),
{
    let ghost schema = Schema { applied: name_set(applied@), columns: name_set(columns@) };
    let mut steps: Vec<SchemaStep> = Vec::new();
    if !has_name(applied, Migration::V1.name()) {
        steps.push(SchemaStep::CreateTable);
        steps.push(SchemaStep::Record(Migration::V1));
    }
    assert(steps@ == steps_of(schema, Migration::V1));
    if !has_name(applied, Migration::V2AddStatus.name()) {
        push_missing(&mut steps, columns, Column::Status);
        push_missing(&mut steps, columns, Column::Progress);
        push_missing(&mut steps, columns, Column::SourceFileUrl);
        steps.push(SchemaStep::Record(Migration::V2AddStatus));
    }
    assert(steps@ == steps_of(schema, Migration::V1) + steps_of(schema, Migration::V2AddStatus));
    if !has_name(applied, Migration::V3AddRawTranscription.name()) {
        push_missing(&mut steps, columns, Column::RawTranscription);
        steps.push(SchemaStep::Record(Migration::V3AddRawTranscription));
    }
    steps
}

/// Whether a database takes a step: no column is added twice, and no migration
/// is recorded twice.
pub open spec fn takes(schema: Schema, step: SchemaStep) -> bool {
    match step {
        SchemaStep::CreateTable => true,
        SchemaStep::AddColumn(c) => schema.columns.contains("id"@) && !schema.columns.contains(
            column_name(c),
        ),
        SchemaStep::Record(m) => !schema.applied.contains(migration_name(m)),
    }
}

/// What a database has after a step. Making a table that is there does nothing.
pub open spec fn taken(schema: Schema, step: SchemaStep) -> Schema {
    match step {
        SchemaStep::CreateTable => if schema.columns.contains("id"@) {
            schema
        } else {
            Schema { applied: schema.applied, columns: base_columns() }
        },
        SchemaStep::AddColumn(c) => Schema {
            applied: schema.applied,
            columns: schema.columns.insert(column_name(c)),
        },
        SchemaStep::Record(m) => Schema {
            applied: schema.applied.insert(migration_name(m)),
            columns: schema.columns,
        },
    }
}

/// Whether a database takes all of `steps`, in order.
pub open spec fn takes_all(schema: Schema, steps: Seq<SchemaStep>) -> bool
    decreases steps.len(),
{
    steps.len() == 0 || (takes(schema, steps[0]) && takes_all(
        taken(schema, steps[0]),
        steps.drop_first(),
    ))
}

/// What a database has after `steps`.
pub open spec fn taken_all(schema: Schema, steps: Seq<SchemaStep>) -> Schema
    decreases steps.len(),
{
    if steps.len() == 0 {
        schema
    } else {
        taken_all(taken(schema, steps[0]), steps.drop_first())
    }
}

/// Whether a database is one that earlier versions can have left: without a
/// recordings table it has no columns and no migration is recorded, a table
/// has the base columns, and what a recorded migration adds is there. A
/// migration that broke off before it was recorded may have added any part.
pub open spec fn is_sound(schema: Schema) -> bool {
    &&& (schema.columns == Set::<Seq<char>>::empty() || base_columns().subset_of(schema.columns))
    &&& (schema.columns == Set::<Seq<char>>::empty() ==> forall|m: Migration|
        !schema.applied.contains(#[trigger] migration_name(m)))
    &&& (schema.applied.contains(migration_name(Migration::V2AddStatus))
        ==> schema.columns.contains(column_name(Column::Status)) && schema.columns.contains(
        column_name(Column::Progress),
    ) && schema.columns.contains(column_name(Column::SourceFileUrl)))
    &&& (schema.applied.contains(migration_name(Migration::V3AddRawTranscription))
        ==> schema.columns.contains(column_name(Column::RawTranscription)))
}

/// Whether a database is up to date.
pub open spec fn is_current(schema: Schema) -> bool {
    &&& forall|m: Migration| schema.applied.contains(#[trigger] migration_name(m))
    &&& forall|c: Column| schema.columns.contains(#[trigger] column_name(c))
    &&& base_columns().subset_of(schema.columns)
}

proof fn lemma_names()
    ensures
        forall|a: Migration, b: Migration|
            #[trigger] migration_name(a) == #[trigger] migration_name(b) ==> a == b,
        forall|a: Column, b: Column|
            #[trigger] column_name(a) == #[trigger] column_name(b) ==> a == b,
        forall|c: Column| !base_columns().contains(#[trigger] column_name(c)),
{
    reveal_strlit("v1");
    reveal_strlit("v2_add_status");
    reveal_strlit("v3_add_raw_transcription");
    assert("v1"@.len() == 2 && "v2_add_status"@.len() == 13 && "v3_add_raw_transcription"@.len()
        == 24);
    reveal_strlit("status");
    reveal_strlit("progress");
    reveal_strlit("sourceFileURL");
    reveal_strlit("rawTranscription");
    reveal_strlit("id");
    reveal_strlit("timestamp");
    reveal_strlit("fileName");
    reveal_strlit("transcription");
    reveal_strlit("duration");
    assert("status"@.len() == 6 && "progress"@.len() == 8 && "sourceFileURL"@.len() == 13
        && "rawTranscription"@.len() == 16);
    assert("id"@.len() == 2 && "timestamp"@.len() == 9 && "fileName"@.len() == 8
        && "transcription"@.len() == 13 && "duration"@.len() == 8);
    assert("progress"@[0] == 'p' && "fileName"@[0] == 'f' && "duration"@[0] == 'd');
    assert("sourceFileURL"@[0] == 's' && "transcription"@[0] == 't');
}

proof fn lemma_steps_split(schema: Schema, a: Seq<SchemaStep>, b: Seq<SchemaStep>)
    ensures
        taken_all(schema, a + b) == taken_all(taken_all(schema, a), b),
        takes_all(schema, a + b) <==> takes_all(schema, a) && takes_all(taken_all(schema, a), b),
    decreases a.len(),
{
    if a.len() == 0 {
        assert(a + b == b);
    } else {
        assert((a + b)[0] == a[0]);
        assert((a + b).drop_first() == a.drop_first() + b);
        lemma_steps_split(taken(schema, a[0]), a.drop_first(), b);
    }
}

proof fn lemma_one_step(schema: Schema, step: SchemaStep)
    ensures
        taken_all(schema, seq![step]) == taken(schema, step),
        takes_all(schema, seq![step]) <==> takes(schema, step),
{
    let s = seq![step];
    assert(s.drop_first() == Seq::<SchemaStep>::empty());
    assert(taken_all(taken(schema, step), s.drop_first()) == taken(schema, step));
    assert(takes_all(taken(schema, step), s.drop_first()));
}

/// Adding a column where it is missing leaves it there, and is taken.
proof fn lemma_add_missing(schema: Schema, plan: Schema, c: Column)
    requires
        schema.columns.contains("id"@),
        plan.columns.contains(column_name(c)) == schema.columns.contains(column_name(c)),
    ensures
        takes_all(schema, add_missing(plan, c)),
        taken_all(schema, add_missing(plan, c)) == (Schema {
            applied: schema.applied,
            columns: schema.columns.insert(column_name(c)),
        }),
{
    if schema.columns.contains(column_name(c)) {
        assert(schema.columns.insert(column_name(c)) == schema.columns);
    } else {
        lemma_one_step(schema, SchemaStep::AddColumn(c));
    }
}

/// What a database has after the base table was made.
spec fn after_v1(schema: Schema) -> Schema {
    Schema {
        applied: schema.applied.insert(migration_name(Migration::V1)),
        columns: if schema.columns == Set::<Seq<char>>::empty() {
            base_columns()
        } else {
            schema.columns
        },
    }
}

proof fn lemma_v1(schema: Schema)
    requires
        is_sound(schema),
    ensures
        takes_all(schema, steps_of(schema, Migration::V1)),
        taken_all(schema, steps_of(schema, Migration::V1)) == after_v1(schema),
        after_v1(schema).columns.contains("id"@),
{
    let m = Migration::V1;
    assert(base_columns().contains("id"@));
    if schema.applied.contains(migration_name(m)) {
        assert(schema.applied.insert(migration_name(m)) == schema.applied);
    } else {
        let record = SchemaStep::Record(m);
        lemma_one_step(schema, SchemaStep::CreateTable);
        let then = taken(schema, SchemaStep::CreateTable);
        lemma_one_step(then, record);
        lemma_steps_split(schema, seq![SchemaStep::CreateTable], seq![record]);
        assert(steps_of(schema, m) == seq![SchemaStep::CreateTable] + seq![record]);
        if schema.columns == Set::<Seq<char>>::empty() {
            assert(!schema.columns.contains("id"@));
        }
    }
}

proof fn lemma_record(schema: Schema, steps: Seq<SchemaStep>, m: Migration)
    requires
        takes_all(schema, steps),
        !taken_all(schema, steps).applied.contains(migration_name(m)),
    ensures
        takes_all(schema, steps.push(SchemaStep::Record(m))),
        taken_all(schema, steps.push(SchemaStep::Record(m))) == (Schema {
            applied: taken_all(schema, steps).applied.insert(migration_name(m)),
            columns: taken_all(schema, steps).columns,
        }),
{
    let record = SchemaStep::Record(m);
    lemma_one_step(taken_all(schema, steps), record);
    lemma_steps_split(schema, steps, seq![record]);
    assert(steps.push(record) == steps + seq![record]);
}

proof fn lemma_v2(schema: Schema, plan: Schema)
    requires
        schema.columns.contains("id"@),
        forall|c: Column|
            plan.columns.contains(#[trigger] column_name(c)) == schema.columns.contains(
                column_name(c),
            ),
        forall|m: Migration|
            m != Migration::V1 ==> plan.applied.contains(#[trigger] migration_name(m))
                == schema.applied.contains(migration_name(m)),
        plan.applied.contains(migration_name(Migration::V2AddStatus)) ==> schema.columns.contains(
            column_name(Column::Status),
        ) && schema.columns.contains(column_name(Column::Progress)) && schema.columns.contains(
            column_name(Column::SourceFileUrl),
        ),
    ensures
        takes_all(schema, steps_of(plan, Migration::V2AddStatus)),
        taken_all(schema, steps_of(plan, Migration::V2AddStatus)) == (Schema {
            applied: schema.applied.insert(migration_name(Migration::V2AddStatus)),
            columns: schema.columns.insert(column_name(Column::Status)).insert(
                column_name(Column::Progress),
            ).insert(column_name(Column::SourceFileUrl)),
        }),
{
    let m = Migration::V2AddStatus;
    lemma_names();
    if plan.applied.contains(migration_name(m)) {
        assert(schema.applied.insert(migration_name(m)) == schema.applied);
        assert(schema.columns.insert(column_name(Column::Status)).insert(
            column_name(Column::Progress),
        ).insert(column_name(Column::SourceFileUrl)) == schema.columns);
    } else {
        let a = add_missing(plan, Column::Status);
        let b = add_missing(plan, Column::Progress);
        let c = add_missing(plan, Column::SourceFileUrl);
        lemma_add_missing(schema, plan, Column::Status);
        let s1 = taken_all(schema, a);
        lemma_add_missing(s1, plan, Column::Progress);
        let s2 = taken_all(s1, b);
        lemma_add_missing(s2, plan, Column::SourceFileUrl);
        lemma_steps_split(schema, a, b);
        lemma_steps_split(schema, a + b, c);
        lemma_record(schema, a + b + c, m);
    }
}

proof fn lemma_v3(schema: Schema, plan: Schema)
    requires
        schema.columns.contains("id"@),
        forall|m: Migration|
            m == Migration::V3AddRawTranscription ==> plan.applied.contains(
                #[trigger] migration_name(m),
            ) == schema.applied.contains(migration_name(m)),
        plan.columns.contains(column_name(Column::RawTranscription)) == schema.columns.contains(
            column_name(Column::RawTranscription),
        ),
        plan.applied.contains(migration_name(Migration::V3AddRawTranscription))
            ==> schema.columns.contains(column_name(Column::RawTranscription)),
    ensures
        takes_all(schema, steps_of(plan, Migration::V3AddRawTranscription)),
        taken_all(schema, steps_of(plan, Migration::V3AddRawTranscription)) == (Schema {
            applied: schema.applied.insert(migration_name(Migration::V3AddRawTranscription)),
            columns: schema.columns.insert(column_name(Column::RawTranscription)),
        }),
{
    let m = Migration::V3AddRawTranscription;
    assert(plan.applied.contains(migration_name(m)) == schema.applied.contains(migration_name(m)));
    if plan.applied.contains(migration_name(m)) {
        assert(schema.applied.insert(migration_name(m)) == schema.applied);
        assert(schema.columns.insert(column_name(Column::RawTranscription)) == schema.columns);
    } else {
        lemma_add_missing(schema, plan, Column::RawTranscription);
        lemma_record(schema, add_missing(plan, Column::RawTranscription), m);
    }
}

/// The migrations succeed on any database that an earlier version can have
/// left, lose no column and no record of a migration, and leave it up to date.
pub proof fn law_migrations_bring_up_to_date(schema: Schema)
    requires
        is_sound(schema),
    ensures
        takes_all(schema, migration_steps(schema)),
        is_current(taken_all(schema, migration_steps(schema))),
        schema.columns.subset_of(taken_all(schema, migration_steps(schema)).columns),
        schema.applied.subset_of(taken_all(schema, migration_steps(schema)).applied),
{
    lemma_names();
    let v1 = steps_of(schema, Migration::V1);
    let v2 = steps_of(schema, Migration::V2AddStatus);
    let v3 = steps_of(schema, Migration::V3AddRawTranscription);
    lemma_v1(schema);
    let s1 = after_v1(schema);
    lemma_v2(s1, schema);
    let s2 = taken_all(s1, v2);
    lemma_v3(s2, schema);
    lemma_steps_split(schema, v1, v2);
    lemma_steps_split(schema, v1 + v2, v3);
    let end = taken_all(schema, migration_steps(schema));
    assert forall|m: Migration| end.applied.contains(#[trigger] migration_name(m)) by {
        match m {
            Migration::V1 => {},
            Migration::V2AddStatus => {},
            Migration::V3AddRawTranscription => {},
        }
    }
    assert forall|c: Column| end.columns.contains(#[trigger] column_name(c)) by {
        match c {
            Column::Status => {},
            Column::Progress => {},
            Column::SourceFileUrl => {},
            Column::RawTranscription => {},
        }
    }
}

/// A database that is up to date is left alone: migrating twice is migrating
/// once.
pub proof fn law_current_database_stays(schema: Schema)
    requires
        is_current(schema),
    ensures
        migration_steps(schema) == Seq::<SchemaStep>::empty(),
{
    assert(schema.applied.contains(migration_name(Migration::V1)));
    assert(schema.applied.contains(migration_name(Migration::V2AddStatus)));
    assert(schema.applied.contains(migration_name(Migration::V3AddRawTranscription)));
    assert(migration_steps(schema) == Seq::<SchemaStep>::empty());
}

/// A column is added under its name, and a migration recorded under its
/// identifier.
pub proof fn law_statements_name_what_they_do(c: Column, m: Migration)
    ensures
        ({
            let start = "ALTER TABLE recordings ADD COLUMN "@;
            let sql = step_sql(SchemaStep::AddColumn(c));
            let n = (start.len() + column_name(c).len()) as int;
            &&& sql.take(n) == start + column_name(c)
            &&& sql[n] == ' '
            &&& step_sql(SchemaStep::Record(m)) == "INSERT INTO migrations (identifier) VALUES ('"@
                + migration_name(m) + "')"@
        }),
{
    reveal_strlit("ALTER TABLE recordings ADD COLUMN ");
    reveal_strlit("status");
    reveal_strlit("progress");
    reveal_strlit("sourceFileURL");
    reveal_strlit("rawTranscription");
    reveal_strlit("ALTER TABLE recordings ADD COLUMN status TEXT NOT NULL DEFAULT 'completed'");
    reveal_strlit("ALTER TABLE recordings ADD COLUMN progress REAL NOT NULL DEFAULT 1.0");
    reveal_strlit("ALTER TABLE recordings ADD COLUMN sourceFileURL TEXT");
    reveal_strlit("ALTER TABLE recordings ADD COLUMN rawTranscription TEXT");
    reveal_strlit("INSERT INTO migrations (identifier) VALUES ('");
    reveal_strlit("')");
    reveal_strlit("v1");
    reveal_strlit("v2_add_status");
    reveal_strlit("v3_add_raw_transcription");
    reveal_strlit("INSERT INTO migrations (identifier) VALUES ('v1')");
    reveal_strlit("INSERT INTO migrations (identifier) VALUES ('v2_add_status')");
    reveal_strlit("INSERT INTO migrations (identifier) VALUES ('v3_add_raw_transcription')");
    let start = "ALTER TABLE recordings ADD COLUMN "@;
    let sql = step_sql(SchemaStep::AddColumn(c));
    let n = (start.len() + column_name(c).len()) as int;
    assert(sql.take(n) =~= start + column_name(c));
    assert(step_sql(SchemaStep::Record(m)) =~= "INSERT INTO migrations (identifier) VALUES ('"@
        + migration_name(m) + "')"@);
}

/// A column is added exactly where it is missing and the migration that brings
/// it has not been applied, and a migration is recorded exactly where it has
/// not been. The table is made exactly where the first has not been.
pub proof fn law_only_what_is_missing_is_done(schema: Schema, c: Column, m: Migration)
    ensures
        ({
            let steps = migration_steps(schema);
            let brings = if c == Column::RawTranscription {
                "v3_add_raw_transcription"@
            } else {
                "v2_add_status"@
            };
            &&& steps.contains(SchemaStep::AddColumn(c)) <==> !schema.columns.contains(
                column_name(c),
            ) && !schema.applied.contains(brings)
            &&& steps.contains(SchemaStep::Record(m)) <==> !schema.applied.contains(
                migration_name(m),
            )
            &&& steps.contains(SchemaStep::CreateTable) <==> !schema.applied.contains("v1"@)
        }),
{
    let steps = migration_steps(schema);
    let v1 = steps_of(schema, Migration::V1);
    let v2 = steps_of(schema, Migration::V2AddStatus);
    let v3 = steps_of(schema, Migration::V3AddRawTranscription);
    assert forall|x: SchemaStep| #[trigger] steps.contains(x) <==> v1.contains(x) || v2.contains(
        x,
    ) || v3.contains(x) by {
        lemma_contains(v1, v2, x);
        lemma_contains(v1 + v2, v3, x);
    }
    lemma_steps_of(schema, SchemaStep::AddColumn(c));
    lemma_steps_of(schema, SchemaStep::Record(m));
    lemma_steps_of(schema, SchemaStep::CreateTable);
}

proof fn lemma_contains(a: Seq<SchemaStep>, b: Seq<SchemaStep>, x: SchemaStep)
    ensures
        (a + b).contains(x) <==> a.contains(x) || b.contains(x),
{
    if a.contains(x) {
        let i = choose|i: int| 0 <= i < a.len() && a[i] == x;
        assert((a + b)[i] == x);
    }
    if b.contains(x) {
        let i = choose|i: int| 0 <= i < b.len() && b[i] == x;
        assert((a + b)[a.len() + i] == x);
    }
}

proof fn lemma_only_step(x: SchemaStep, y: SchemaStep)
    ensures
        seq![x].contains(y) <==> x == y,
        !Seq::<SchemaStep>::empty().contains(y),
{
    assert(seq![x][0] == x);
}

proof fn lemma_steps_of(schema: Schema, x: SchemaStep)
    ensures
        steps_of(schema, Migration::V1).contains(x) <==> !schema.applied.contains("v1"@) && (x
            == SchemaStep::CreateTable || x == SchemaStep::Record(Migration::V1)),
        steps_of(schema, Migration::V2AddStatus).contains(x) <==> !schema.applied.contains(
            "v2_add_status"@,
        ) && (x == SchemaStep::Record(Migration::V2AddStatus) || (x == SchemaStep::AddColumn(
            Column::Status,
        ) && !schema.columns.contains("status"@)) || (x == SchemaStep::AddColumn(Column::Progress)
            && !schema.columns.contains("progress"@)) || (x == SchemaStep::AddColumn(
            Column::SourceFileUrl,
        ) && !schema.columns.contains("sourceFileURL"@))),
        steps_of(schema, Migration::V3AddRawTranscription).contains(x) <==> !schema.applied.contains(
            "v3_add_raw_transcription"@,
        ) && (x == SchemaStep::Record(Migration::V3AddRawTranscription) || (x
            == SchemaStep::AddColumn(Column::RawTranscription) && !schema.columns.contains(
            "rawTranscription"@,
        ))),
{
    let first = seq![SchemaStep::CreateTable, SchemaStep::Record(Migration::V1)];
    assert(first[0] == SchemaStep::CreateTable && first[1] == SchemaStep::Record(Migration::V1));
    let a = add_missing(schema, Column::Status);
    let b = add_missing(schema, Column::Progress);
    let c = add_missing(schema, Column::SourceFileUrl);
    let d = add_missing(schema, Column::RawTranscription);
    let r2 = SchemaStep::Record(Migration::V2AddStatus);
    let r3 = SchemaStep::Record(Migration::V3AddRawTranscription);
    lemma_only_step(SchemaStep::AddColumn(Column::Status), x);
    lemma_only_step(SchemaStep::AddColumn(Column::Progress), x);
    lemma_only_step(SchemaStep::AddColumn(Column::SourceFileUrl), x);
    lemma_only_step(SchemaStep::AddColumn(Column::RawTranscription), x);
    lemma_only_step(r2, x);
    lemma_only_step(r3, x);
    lemma_contains(a, b, x);
    lemma_contains(a + b, c, x);
    lemma_contains(a + b + c, seq![r2], x);
    lemma_contains(d, seq![r3], x);
    assert((a + b + c).push(r2) =~= a + b + c + seq![r2]);
    assert(d.push(r3) =~= d + seq![r3]);
}

/// A database has a name if it is among those that were found.
pub proof fn law_names_found_are_had(names: Seq<String>, k: int, n: Seq<char>)
    requires
        0 <= k < names.len(),
    ensures
        name_set(names).contains(names[k]@),
        (forall|j: int| 0 <= j < names.len() ==> #[trigger] names[j]@ != n) ==> !name_set(
            names,
        ).contains(n),
{
}

/// What is asked of a database before it is brought up to date, word for word.
pub proof fn law_schema_is_asked_for_like_this()
    ensures
        CREATE_MIGRATIONS@ == "CREATE TABLE IF NOT EXISTS migrations (identifier TEXT PRIMARY KEY NOT NULL)"@,
        SELECT_MIGRATIONS@ == "SELECT identifier FROM migrations"@,
        SELECT_COLUMNS@ == "PRAGMA table_info(recordings)"@,
{
}

} // verus!
