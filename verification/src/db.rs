//! The record of the comics that were seen, one JSON text for each, in a database table that is
//! keyed by the comics' numbers.
use redb::ReadableTable;
use vstd::prelude::*;

use crate::http::Comic;
use crate::text::{self, decimal_text, parse_u32, signed_text, split_list, NumberFault};

verus! {

/// The name of the table.
pub const COMICS_TABLE: &'static str = "comics";

/// What is known of a comic that was seen.
#[derive(Debug, Clone, Copy, PartialEq, Eq, Structural)]
pub struct ComicRecord {
    pub num: u32,
    /// Unix timestamp (seconds). 0 means migrated from legacy file, timestamp unknown.
    pub first_seen_utc: i64,
    pub image_downloaded: bool,
    pub email_sent: bool,
    /// Unix timestamp of successful email send, if any.
    pub email_sent_utc: Option<i64>,
}

// ---- records as JSON ----

/// A truth value in JSON.
pub open spec fn bool_json(b: bool) -> Seq<char> {
    if b {
        "true"@
    } else {
        "false"@
    }
}

/// A timestamp, or its absence, in JSON.
pub open spec fn time_json(t: Option<i64>) -> Seq<char> {
    match t {
        Some(t) => text::signed_decimal(t as int),
        None => "null"@,
    }
}

/// A record in JSON: an object with its fields in order, without white space.
pub open spec fn record_json(record: ComicRecord) -> Seq<char> {
    "{\"num\":"@ + text::decimal(record.num as nat) + ",\"first_seen_utc\":"@
        + text::signed_decimal(record.first_seen_utc as int) + ",\"image_downloaded\":"@
        + bool_json(record.image_downloaded) + ",\"email_sent\":"@ + bool_json(record.email_sent)
        + ",\"email_sent_utc\":"@ + time_json(record.email_sent_utc) + "}"@
}

fn push_bool(out: &mut String, b: bool)
    ensures
        final(out)@ == old(out)@ + bool_json(b),
{
    if b {
        out.append("true");
    } else {
        out.append("false");
    }
}

/// `record` in JSON.
pub fn to_json(record: &ComicRecord) -> (json: String)
    ensures
        json@ == record_json(*record),
{
    let mut out: String = String::from_str("{\"num\":");
    out.append(decimal_text(record.num as u64).as_str());
    out.append(",\"first_seen_utc\":");
    out.append(signed_text(record.first_seen_utc).as_str());
    out.append(",\"image_downloaded\":");
    push_bool(&mut out, record.image_downloaded);
    out.append(",\"email_sent\":");
    push_bool(&mut out, record.email_sent);
    out.append(",\"email_sent_utc\":");
    match record.email_sent_utc {
        Some(t) => out.append(signed_text(t).as_str()),
        None => out.append("null"),
    }
    out.append("}");
    out
}

// ---- what becomes of a record ----

/// The record of a comic that was seen just now.
pub open spec fn first_seen_record(num: u32, now: i64) -> ComicRecord {
    ComicRecord {
        num,
        first_seen_utc: now,
        image_downloaded: false,
        email_sent: false,
        email_sent_utc: None,
    }
}

/// The record of a comic out of the legacy history file: mailed long ago, nobody knows when.
pub open spec fn migrated_record(num: u32) -> ComicRecord {
    ComicRecord {
        num,
        first_seen_utc: 0,
        image_downloaded: false,
        email_sent: true,
        email_sent_utc: None,
    }
}

/// What happened to a comic that was seen before.
#[derive(Debug, Clone, Copy, PartialEq, Eq, Structural)]
pub enum Progress {
    /// Its image was downloaded.
    Downloaded,
    /// It was mailed, at that Unix timestamp.
    Mailed(i64),
}

impl Progress {
    /// `record` after this has happened.
    pub open spec fn applied_to(self, record: ComicRecord) -> ComicRecord {
        match self {
            Progress::Downloaded => ComicRecord { image_downloaded: true, ..record },
            Progress::Mailed(now) => ComicRecord {
                email_sent: true,
                email_sent_utc: Some(now),
                ..record
            },
        }
    }

    /// `record` after this has happened.
    pub fn apply(self, record: ComicRecord) -> (r: ComicRecord)
        ensures
            r == self.applied_to(record),
    {
        match self {
            Progress::Downloaded => ComicRecord {
                num: record.num,
                first_seen_utc: record.first_seen_utc,
                image_downloaded: true,
                email_sent: record.email_sent,
                email_sent_utc: record.email_sent_utc,
            },
            Progress::Mailed(now) => ComicRecord {
                num: record.num,
                first_seen_utc: record.first_seen_utc,
                image_downloaded: record.image_downloaded,
                email_sent: true,
                email_sent_utc: Some(now),
            },
        }
    }
}

// ---- errors ----

/// `redb::StorageError`, carried through.
#[verifier::external_type_specification]
#[verifier::external_body]
pub struct ExStorageError(redb::StorageError);

/// `redb::TableError`, carried through.
#[verifier::external_type_specification]
#[verifier::external_body]
pub struct ExTableError(redb::TableError);

/// `redb::TransactionError`, carried through.
#[verifier::external_type_specification]
#[verifier::external_body]
pub struct ExTransactionError(redb::TransactionError);

/// `redb::CommitError`, carried through.
#[verifier::external_type_specification]
#[verifier::external_body]
pub struct ExCommitError(redb::CommitError);

/// `redb::DatabaseError`, carried through.
#[verifier::external_type_specification]
#[verifier::external_body]
pub struct ExDatabaseError(redb::DatabaseError);

/// Why the database could not be used.
#[derive(Debug)]
pub enum DbError {
    /// The file of this name could not be opened.
    Create(String, redb::DatabaseError),
    BeginRead(redb::TransactionError),
    BeginWrite(redb::TransactionError),
    BeginMigration(redb::TransactionError),
    Open(redb::TableError),
    OpenForMigration(redb::TableError),
    Query(redb::StorageError),
    InsertMigrated(redb::StorageError),
    InsertRecord(redb::StorageError),
    UpdateRecord(redb::StorageError),
    CommitMigration(redb::CommitError),
    CommitRecord(redb::CommitError),
    CommitUpdate(redb::CommitError),
    Last(redb::StorageError),
    Iterate(redb::StorageError),
    Entry(redb::StorageError),
    /// There is no record of this comic to be updated.
    NotFound(u32),
    /// A record could not be read.
    Decode(String),
    /// A line of the legacy history file is no comic number.
    InvalidHistory(NumberFault),
}

impl DbError {
    /// What the reader is told, apart from the cause.
    pub open spec fn text(self) -> Seq<char> {
        match self {
            DbError::Create(path, _) => "failed to open database at "@ + path@,
            DbError::BeginRead(_) => "failed to begin read transaction"@,
            DbError::BeginWrite(_) => "failed to begin write transaction"@,
            DbError::BeginMigration(_) => "failed to begin migration write transaction"@,
            DbError::Open(_) => "failed to open comics table"@,
            DbError::OpenForMigration(_) => "failed to open comics table for migration"@,
            DbError::Query(_) => "failed to query comics table"@,
            DbError::InsertMigrated(_) => "failed to insert migrated record"@,
            DbError::InsertRecord(_) => "failed to insert comic record"@,
            DbError::UpdateRecord(_) => "failed to update comic record"@,
            DbError::CommitMigration(_) => "failed to commit migration transaction"@,
            DbError::CommitRecord(_) => "failed to commit comic record"@,
            DbError::CommitUpdate(_) => "failed to commit comic record update"@,
            DbError::Last(_) => "failed to read last entry from comics table"@,
            DbError::Iterate(_) => "failed to iterate comics table"@,
            DbError::Entry(_) => "failed to read comics table entry"@,
            DbError::NotFound(num) => "comic #"@ + text::decimal(num as nat)
                + " not found in database for update"@,
            DbError::Decode(_) => "failed to deserialize comic record"@,
            DbError::InvalidHistory(_) => "invalid comic number in legacy history file"@,
        }
    }

    /// What the reader is told, apart from the cause.
    pub fn message(&self) -> (s: String)
        ensures
            s@ == self.text(),
    {
        let fixed: &'static str = match self {
            DbError::Create(path, _) => {
                let mut s: String = String::from_str("failed to open database at ");
                s.append(path.as_str());
                return s;
            },
            DbError::NotFound(num) => {
                let mut s: String = String::from_str("comic #");
                s.append(decimal_text(*num as u64).as_str());
                s.append(" not found in database for update");
                return s;
            },
            DbError::BeginRead(_) => "failed to begin read transaction",
            DbError::BeginWrite(_) => "failed to begin write transaction",
            DbError::BeginMigration(_) => "failed to begin migration write transaction",
            DbError::Open(_) => "failed to open comics table",
            DbError::OpenForMigration(_) => "failed to open comics table for migration",
            DbError::Query(_) => "failed to query comics table",
            DbError::InsertMigrated(_) => "failed to insert migrated record",
            DbError::InsertRecord(_) => "failed to insert comic record",
            DbError::UpdateRecord(_) => "failed to update comic record",
            DbError::CommitMigration(_) => "failed to commit migration transaction",
            DbError::CommitRecord(_) => "failed to commit comic record",
            DbError::CommitUpdate(_) => "failed to commit comic record update",
            DbError::Last(_) => "failed to read last entry from comics table",
            DbError::Iterate(_) => "failed to iterate comics table",
            DbError::Entry(_) => "failed to read comics table entry",
            DbError::Decode(_) => "failed to deserialize comic record",
            DbError::InvalidHistory(_) => "invalid comic number in legacy history file",
        };
        String::from_str(fixed)
    }
}

// ---- the database ----

/// `redb::Database`, which nobody else can have open at the same time.
#[verifier::external_type_specification]
#[verifier::external_body]
pub struct ExDatabase(redb::Database);

/// `redb::WriteTransaction`.
#[verifier::external_type_specification]
#[verifier::external_body]
pub struct ExWriteTransaction(redb::WriteTransaction);

/// What was committed to a `redb::Database`: the mappings in the table from numbers to texts of
/// that name, none if it has no such table.
pub uninterp spec fn committed(db: redb::Database, table: Seq<char>) -> Map<u32, Seq<char>>;

/// The name of the file that a `redb::Database` was opened by.
pub uninterp spec fn opened_by(db: redb::Database) -> Seq<char>;

/// What a `redb::WriteTransaction` holds: the mappings in the table from numbers to texts of that
/// name, none if it has no such table.
pub uninterp spec fn staged(txn: redb::WriteTransaction, table: Seq<char>) -> Map<u32, Seq<char>>;

/// A database file that the program has open, with the write transaction that is under way on
/// it, if one is.
pub struct Store {
    txn: Option<redb::WriteTransaction>,
    inner: redb::Database,
}

impl Store {
    /// No write transaction is under way.
    pub closed spec fn idle(self) -> bool {
        self.txn is None
    }

    /// The name of the file that the database is in.
    pub closed spec fn file(self) -> Seq<char> {
        opened_by(self.inner)
    }

    /// The records of the comics.
    pub closed spec fn comics(self) -> Map<u32, Seq<char>> {
        committed(self.inner, COMICS_TABLE@)
    }

    /// The records of the comics as the write transaction has them.
    spec fn staged_comics(self) -> Map<u32, Seq<char>> {
        staged(self.txn->0, COMICS_TABLE@)
    }
}

/// `redb::Database::create`: the database in the file of that name, which is made if there is
/// none. What the database holds, and whether it can be opened, is left unsaid, since that depends
/// on the file.
#[verifier::external_body]
fn create(path: &str) -> (r: Result<redb::Database, redb::DatabaseError>)
    ensures
        r matches Ok(db) ==> opened_by(db) == path@,
{
    redb::Database::create(path)
}

/// The database in the file of that name, with no write transaction under way, out of what came
/// of opening it: it is there exactly if the file could be opened.
fn opened(result: Result<redb::Database, redb::DatabaseError>, path: &str) -> (r: Result<
    Store,
    DbError,
>)
    ensures
        match result {
            Ok(db) => r matches Ok(store) && store.idle() && store.inner == db,
            Err(cause) => r matches Err(DbError::Create(p, c)) && p@ == path@ && c == cause,
        },
{
    match result {
        Ok(inner) => Ok(Store { txn: None, inner }),
        Err(cause) => Err(DbError::Create(String::from_str(path), cause)),
    }
}

/// Opens the database in the file of that name, which is made if there is none. What an existing
/// file holds, and whether it can be opened, is up to the file.
pub fn open_db(path: &str) -> (r: Result<Store, DbError>)
    ensures
        r matches Ok(store) ==> store.idle() && store.file() == path@,
        r matches Err(e) ==> e matches DbError::Create(p, _) && p@ == path@,
{
    opened(create(path), path)
}

// ---- writing ----

/// Why a table could not be used in a write transaction.
#[derive(Debug)]
pub enum TableFault {
    Open(redb::TableError),
    Storage(redb::StorageError),
}

/// `redb::Database::begin_write`: a write transaction, which starts from what was committed. It
/// would wait for any other write transaction to end, so there must be none.
#[verifier::external_body]
fn begin_write(store: &mut Store) -> (r: Result<(), redb::TransactionError>)
    requires
        old(store).txn is None,
    ensures
        r is Ok == (final(store).txn is Some),
        r is Ok ==> forall|table: Seq<char>| #[trigger]
            staged(final(store).txn->0, table) == committed(old(store).inner, table),
        final(store).inner == old(store).inner,
{
    store.txn = Some(store.inner.begin_write()?);
    Ok(())
}

/// `redb::WriteTransaction::open_table`: the table of that name can be used, and is made, empty,
/// if there is none. Of what the transaction holds after an error nothing is said.
#[verifier::external_body]
fn make_table(store: &mut Store, table: &str) -> (r: Result<(), redb::TableError>)
    requires
        old(store).txn is Some,
        table@.len() > 0,
    ensures
        final(store).txn is Some,
        r is Ok ==> forall|any: Seq<char>| #[trigger]
            staged(final(store).txn->0, any) == staged(old(store).txn->0, any),
        final(store).inner == old(store).inner,
{
    let txn = store.txn.as_ref().unwrap();
    txn.open_table(redb::TableDefinition::<u32, &'static str>::new(table))?;
    Ok(())
}

/// `ReadableTable::get` of `redb::Table`, on the table of that name as
/// `redb::WriteTransaction::open_table` opens it: the value that the key is mapped to, if there
/// is one.
#[verifier::external_body]
fn staged_get(store: &Store, table: &str, key: u32) -> (r: Result<Option<String>, TableFault>)
    requires
        store.txn is Some,
        table@.len() > 0,
    ensures
        r matches Ok(None) ==> !staged(store.txn->0, table@).contains_key(key),
        r matches Ok(Some(value)) ==> staged(store.txn->0, table@).contains_key(key) && staged(
            store.txn->0,
            table@,
        )[key] == value@,
{
    let txn = store.txn.as_ref().unwrap();
    let definition = redb::TableDefinition::<u32, &'static str>::new(table);
    let opened = txn.open_table(definition).map_err(|e| TableFault::Open(e))?;
    let value = opened.get(key).map_err(|e| TableFault::Storage(e))?;
    Ok(value.map(|value| value.value().to_owned()))
}

/// `redb::Table::insert`, on the table of that name as `redb::WriteTransaction::open_table` opens
/// it: the key is mapped to the value from now on, whatever it was mapped to before, and nothing
/// else is touched. Of what the transaction holds after an error nothing is said.
#[verifier::external_body]
fn staged_insert(store: &mut Store, table: &str, key: u32, value: &str) -> (r: Result<
    (),
    TableFault,
>)
    requires
        old(store).txn is Some,
        table@.len() > 0,
    ensures
        final(store).txn is Some,
        r is Ok ==> staged(final(store).txn->0, table@) == staged(
            old(store).txn->0,
            table@,
        ).insert(key, value@),
        r is Ok ==> forall|other: Seq<char>|
            other != table@ ==> #[trigger] staged(final(store).txn->0, other) == staged(
                old(store).txn->0,
                other,
            ),
        final(store).inner == old(store).inner,
{
    let txn = store.txn.as_ref().unwrap();
    let definition = redb::TableDefinition::<u32, &'static str>::new(table);
    let mut opened = txn.open_table(definition).map_err(|e| TableFault::Open(e))?;
    opened.insert(key, value).map_err(|e| TableFault::Storage(e))?;
    Ok(())
}

/// `redb::WriteTransaction::commit`: what the transaction holds is what was committed to the
/// database that it was begun on, from now on. The database stays in its file. A transaction is
/// atomic: after an error, either all that was committed before is still what was committed, or
/// all that the transaction holds is.
#[verifier::external_body]
fn commit(store: &mut Store) -> (r: Result<(), redb::CommitError>)
    requires
        old(store).txn is Some,
    ensures
        final(store).txn is None,
        opened_by(final(store).inner) == opened_by(old(store).inner),
        r is Ok ==> forall|table: Seq<char>| #[trigger]
            committed(final(store).inner, table) == staged(old(store).txn->0, table),
        r is Err ==> (forall|table: Seq<char>| #[trigger]
            committed(final(store).inner, table) == committed(old(store).inner, table)) || (forall|
            table: Seq<char>,
        | #[trigger]
            committed(final(store).inner, table) == staged(old(store).txn->0, table)),
{
    store.txn.take().unwrap().commit()
}

/// Ends the write transaction without committing it: what was committed before stays.
fn abandon(store: &mut Store)
    ensures
        final(store).txn is None,
        final(store).inner == old(store).inner,
{
    store.txn = None;
}

/// What putting a comic on record may come to: nothing is changed until the transaction is
/// committed, and if that fails, all or nothing is.
pub open spec fn record_outcome(
    before: Map<u32, Seq<char>>,
    after: Map<u32, Seq<char>>,
    num: u32,
    now: i64,
    r: Result<(), DbError>,
) -> bool {
    let recorded = before.insert(num, record_json(first_seen_record(num, now)));
    match r {
        Ok(()) => after == recorded,
        Err(DbError::CommitRecord(_)) => after == before || after == recorded,
        Err(e) => (e is BeginWrite || e is Open || e is InsertRecord) && after == before,
    }
}

/// Records a comic as seen, before its image is downloaded or it is mailed: if the program fails
/// later on and is run again, the comic is not mailed a second time.
pub fn record_first_seen(db: &mut Store, comic: &Comic, now: i64) -> (r: Result<(), DbError>)
    requires
        old(db).idle(),
    ensures
        final(db).idle(),
        final(db).file() == old(db).file(),
        record_outcome(old(db).comics(), final(db).comics(), comic.num, now, r),
{
    proof {
        reveal_strlit("comics");
    }
    let record: ComicRecord = ComicRecord {
        num: comic.num,
        first_seen_utc: now,
        image_downloaded: false,
        email_sent: false,
        email_sent_utc: None,
    };
    let json: String = to_json(&record);
    match begin_write(db) {
        Ok(()) => {},
        Err(e) => {
            return Err(DbError::BeginWrite(e));
        },
    }
    match staged_insert(db, COMICS_TABLE, comic.num, json.as_str()) {
        Ok(()) => {},
        Err(TableFault::Open(e)) => {
            abandon(db);
            return Err(DbError::Open(e));
        },
        Err(TableFault::Storage(e)) => {
            abandon(db);
            return Err(DbError::InsertRecord(e));
        },
    }
    match commit(db) {
        Ok(()) => Ok(()),
        Err(e) => Err(DbError::CommitRecord(e)),
    }
}

/// The text of the record of comic `num`, out of what the table gave for it.
pub fn found(stored: Result<Option<String>, TableFault>, num: u32) -> (r: Result<String, DbError>)
    ensures
        r == match stored {
            Ok(Some(json)) => Ok(json),
            Ok(None) => Err(DbError::NotFound(num)),
            Err(TableFault::Open(e)) => Err(DbError::Open(e)),
            Err(TableFault::Storage(e)) => Err(DbError::Query(e)),
        },
{
    match stored {
        Ok(Some(json)) => Ok(json),
        Ok(None) => Err(DbError::NotFound(num)),
        Err(TableFault::Open(e)) => Err(DbError::Open(e)),
        Err(TableFault::Storage(e)) => Err(DbError::Query(e)),
    }
}

/// The text to be stored once `progress` has happened to a record, out of what came of reading
/// it.
pub fn rewritten(decoded: Result<ComicRecord, String>, progress: Progress) -> (r: Result<
    String,
    DbError,
>)
    ensures
        match decoded {
            Ok(record) => r matches Ok(json) && json@ == record_json(progress.applied_to(record)),
            Err(e) => r == Err::<String, _>(DbError::Decode(e)),
        },
{
    match decoded {
        Ok(record) => Ok(to_json(&progress.apply(record))),
        Err(e) => Err(DbError::Decode(e)),
    }
}

/// Reads the record of comic `num` with `decode`, lets `progress` happen to it and stores it
/// again. All other records stay as they are.
pub fn update_record<D: Fn(&str) -> Result<ComicRecord, String>>(
    db: &mut Store,
    num: u32,
    decode: D,
    progress: Progress,
) -> (r: Result<(), DbError>)
    requires
        old(db).idle(),
        forall|json: &str| #[trigger] call_requires(decode, (json,)),
    ensures
        final(db).idle(),
        final(db).file() == old(db).file(),
        update_outcome(old(db).comics(), final(db).comics(), num, decode, progress, r),
{
    match begin_write(db) {
        Ok(()) => {},
        Err(e) => {
            return Err(DbError::BeginWrite(e));
        },
    }
    match stage_update(db, num, decode, progress) {
        Ok(()) => {},
        Err(e) => {
            abandon(db);
            return Err(e);
        },
    }
    match commit(db) {
        Ok(()) => Ok(()),
        Err(e) => Err(DbError::CommitUpdate(e)),
    }
}

/// The part of an update that takes place in the transaction.
fn stage_update<D: Fn(&str) -> Result<ComicRecord, String>>(
    db: &mut Store,
    num: u32,
    decode: D,
    progress: Progress,
) -> (r: Result<(), DbError>)
    requires
        old(db).txn is Some,
        forall|json: &str| #[trigger] call_requires(decode, (json,)),
    ensures
        final(db).txn is Some,
        final(db).inner == old(db).inner,
        ({
            let before = old(db).staged_comics();
            match r {
                Ok(()) => updated(before, final(db).staged_comics(), num, decode, progress),
                Err(e) => update_fault(before, num, decode, e),
            }
        }),
{
    proof {
        reveal_strlit("comics");
    }
    let json: String = match found(staged_get(db, COMICS_TABLE, num), num) {
        Ok(json) => json,
        Err(e) => {
            return Err(e);
        },
    };
    let stored: &str = json.as_str();
    let decoded: Result<ComicRecord, String> = decode(stored);
    assert(may_decode(decode, db.staged_comics()[num], decoded));
    let updated: String = match rewritten(decoded, progress) {
        Ok(updated) => updated,
        Err(e) => {
            return Err(e);
        },
    };
    match staged_insert(db, COMICS_TABLE, num, updated.as_str()) {
        Ok(()) => Ok(()),
        Err(TableFault::Open(e)) => Err(DbError::Open(e)),
        Err(TableFault::Storage(e)) => Err(DbError::UpdateRecord(e)),
    }
}

/// May `decode` make `decoded` of a stored text?
pub open spec fn may_decode<D: Fn(&str) -> Result<ComicRecord, String>>(
    decode: D,
    stored: Seq<char>,
    decoded: Result<ComicRecord, String>,
) -> bool {
    exists|json: &str| json@ == stored && #[trigger] call_ensures(decode, (json,), decoded)
}

/// Is there a record of comic `num` that `decode` may be able to read?
pub open spec fn readable<D: Fn(&str) -> Result<ComicRecord, String>>(
    rows: Map<u32, Seq<char>>,
    num: u32,
    decode: D,
) -> bool {
    &&& rows.contains_key(num)
    &&& exists|record: ComicRecord| #[trigger] may_decode(decode, rows[num], Ok(record))
}

/// Is `after` what `before` becomes when `progress` happens to the record of comic `num`, as
/// `decode` reads it?
pub open spec fn updated<D: Fn(&str) -> Result<ComicRecord, String>>(
    before: Map<u32, Seq<char>>,
    after: Map<u32, Seq<char>>,
    num: u32,
    decode: D,
    progress: Progress,
) -> bool {
    &&& before.contains_key(num)
    &&& exists|record: ComicRecord|
        {
            &&& #[trigger] may_decode(decode, before[num], Ok(record))
            &&& after == before.insert(num, record_json(progress.applied_to(record)))
        }
}

/// Can this be why a record is not updated, as far as it does not come from beginning or
/// committing the transaction?
pub open spec fn update_fault<D: Fn(&str) -> Result<ComicRecord, String>>(
    before: Map<u32, Seq<char>>,
    num: u32,
    decode: D,
    e: DbError,
) -> bool {
    match e {
        DbError::NotFound(n) => n == num && !before.contains_key(num),
        DbError::Decode(cause) => before.contains_key(num) && may_decode(
            decode,
            before[num],
            Err(cause),
        ),
        DbError::UpdateRecord(_) => readable(before, num, decode),
        _ => e is Open || e is Query,
    }
}

/// What an update may come to: it succeeds only if there is a record that `decode` can read.
/// Nothing is changed until the transaction is committed, and if that fails, all or nothing is.
pub open spec fn update_outcome<D: Fn(&str) -> Result<ComicRecord, String>>(
    before: Map<u32, Seq<char>>,
    after: Map<u32, Seq<char>>,
    num: u32,
    decode: D,
    progress: Progress,
    r: Result<(), DbError>,
) -> bool {
    match r {
        Ok(()) => updated(before, after, num, decode, progress),
        Err(DbError::CommitUpdate(_)) => (readable(before, num, decode) && after == before)
            || updated(before, after, num, decode, progress),
        Err(e) => (e is BeginWrite || update_fault(before, num, decode, e)) && after == before,
    }
}

/// Records that the image of comic `num` was downloaded.
pub fn record_download_success<D: Fn(&str) -> Result<ComicRecord, String>>(
    db: &mut Store,
    num: u32,
    decode: D,
) -> (r: Result<(), DbError>)
    requires
        old(db).idle(),
        forall|json: &str| #[trigger] call_requires(decode, (json,)),
    ensures
        final(db).idle(),
        final(db).file() == old(db).file(),
        update_outcome(old(db).comics(), final(db).comics(), num, decode, Progress::Downloaded, r),
{
    update_record(db, num, decode, Progress::Downloaded)
}

/// Records that comic `num` was mailed.
pub fn record_email_success<D: Fn(&str) -> Result<ComicRecord, String>>(
    db: &mut Store,
    num: u32,
    now: i64,
    decode: D,
) -> (r: Result<(), DbError>)
    requires
        old(db).idle(),
        forall|json: &str| #[trigger] call_requires(decode, (json,)),
    ensures
        final(db).idle(),
        final(db).file() == old(db).file(),
        update_outcome(old(db).comics(), final(db).comics(), num, decode, Progress::Mailed(now), r),
{
    update_record(db, num, decode, Progress::Mailed(now))
}

// ---- the legacy history file ----

/// The comic number that a line of a history file stands for, or what is wrong with it.
pub open spec fn line_number(line: Seq<char>) -> Result<nat, NumberFault> {
    text::parsed_unsigned(line, u32::MAX as nat)
}

/// The comic numbers that the lines stand for, or what is wrong with the first that stands for
/// none.
pub open spec fn line_numbers(lines: Seq<Seq<char>>) -> Result<Seq<u32>, NumberFault>
    decreases lines.len(),
{
    if lines.len() == 0 {
        Ok(Seq::empty())
    } else {
        match (line_numbers(lines.drop_last()), line_number(lines.last())) {
            (Ok(nums), Ok(num)) => Ok(nums.push(num as u32)),
            (Ok(_), Err(fault)) => Err(fault),
            (Err(fault), _) => Err(fault),
        }
    }
}

/// The comic numbers in a history file, one on each line that is not blank, or what is wrong with
/// the first of those lines that is no comic number.
pub open spec fn history_numbers(contents: Seq<char>) -> Result<Seq<u32>, NumberFault> {
    line_numbers(text::list_items(contents, '\n'))
}

proof fn lemma_first_bad_line(lines: Seq<Seq<char>>, i: int)
    requires
        0 <= i <= lines.len(),
        line_numbers(lines.take(i)) is Err,
    ensures
        line_numbers(lines) == line_numbers(lines.take(i)),
    decreases lines.len() - i,
{
    if i == lines.len() {
        assert(lines.take(i) == lines);
    } else {
        assert(lines.take(i + 1).drop_last() == lines.take(i));
        lemma_first_bad_line(lines, i + 1);
    }
}

/// The comic numbers in a history file that holds `contents`, if there is such a file. Without
/// one there is nothing to be taken over.
pub fn parse_history(contents: Option<&str>) -> (r: Result<Option<Vec<u32>>, DbError>)
    ensures
        match contents {
            Some(contents) => match history_numbers(contents@) {
                Ok(nums) => r matches Ok(Some(v)) && v@ == nums,
                Err(fault) => r == Err::<Option<Vec<u32>>, _>(DbError::InvalidHistory(fault)),
            },
            None => r matches Ok(v) && v is None,
        },
{
    let written: &str = match contents {
        Some(written) => written,
        None => {
            return Ok(None);
        },
    };
    let lines: Vec<String> = split_list(written, '\n');
    let ghost items = text::list_items(written@, '\n');
    let mut nums: Vec<u32> = Vec::new();
    let mut i: usize = 0;
    assert(items.take(0) == Seq::<Seq<char>>::empty());
    while i < lines.len()
        invariant
            contents == Some(written),
            items == text::list_items(written@, '\n'),
            text::texts(lines@) == items,
            i <= lines@.len(),
            line_numbers(items.take(i as int)) == Ok::<_, NumberFault>(nums@),
        decreases lines@.len() - i,
    {
        assert(items[i as int] == lines@[i as int]@);
        assert(items.take(i + 1).drop_last() == items.take(i as int));
        match parse_u32(lines[i].as_str()) {
            Ok(num) => nums.push(num),
            Err(fault) => {
                proof {
                    lemma_first_bad_line(items, i + 1);
                }
                return Err(DbError::InvalidHistory(fault));
            },
        }
        i = i + 1;
    }
    assert(items.take(i as int) == items);
    Ok(Some(nums))
}

/// `rows` with a record for each of `nums` that has none yet.
pub open spec fn migrated(rows: Map<u32, Seq<char>>, nums: Seq<u32>) -> Map<u32, Seq<char>> {
    Map::new(
        |num: u32| rows.contains_key(num) || nums.contains(num),
        |num: u32|
            if rows.contains_key(num) {
                rows[num]
            } else {
                record_json(migrated_record(num))
            },
    )
}

/// What taking a history file over may come to: nothing is changed until the transaction is
/// committed, and if that fails, all or nothing is.
pub open spec fn migration_outcome(
    before: Map<u32, Seq<char>>,
    after: Map<u32, Seq<char>>,
    nums: Seq<u32>,
    r: Result<(), DbError>,
) -> bool {
    match r {
        Ok(()) => after == migrated(before, nums),
        Err(DbError::CommitMigration(_)) => after == before || after == migrated(before, nums),
        Err(e) => (e is BeginMigration || e is OpenForMigration || ((e is Query
            || e is InsertMigrated) && nums.len() > 0)) && after == before,
    }
}

/// Takes the comic numbers of the history file over. Records that are there already stay as they
/// are.
pub fn migrate_history_file(db: &mut Store, nums: &Vec<u32>) -> (r: Result<(), DbError>)
    requires
        old(db).idle(),
    ensures
        final(db).idle(),
        final(db).file() == old(db).file(),
        migration_outcome(old(db).comics(), final(db).comics(), nums@, r),
{
    match begin_write(db) {
        Ok(()) => {},
        Err(e) => {
            return Err(DbError::BeginMigration(e));
        },
    }
    match stage_migration(db, nums) {
        Ok(()) => {},
        Err(e) => {
            abandon(db);
            return Err(e);
        },
    }
    match commit(db) {
        Ok(()) => Ok(()),
        Err(e) => Err(DbError::CommitMigration(e)),
    }
}

/// The part of a migration that takes place in the transaction.
fn stage_migration(db: &mut Store, nums: &Vec<u32>) -> (r: Result<(), DbError>)
    requires
        old(db).txn is Some,
    ensures
        final(db).txn is Some,
        final(db).inner == old(db).inner,
        match r {
            Ok(()) => final(db).staged_comics() == migrated(old(db).staged_comics(), nums@),
            Err(e) => e is OpenForMigration || ((e is Query || e is InsertMigrated) && nums@.len()
                > 0),
        },
{
    proof {
        reveal_strlit("comics");
    }
    match make_table(db, COMICS_TABLE) {
        Ok(()) => {},
        Err(e) => {
            return Err(DbError::OpenForMigration(e));
        },
    }
    let mut i: usize = 0;
    let ghost rows = db.staged_comics();
    assert(migrated(rows, nums@.take(0)) == rows);
    while i < nums.len()
        invariant
            i <= nums@.len(),
            COMICS_TABLE@.len() > 0,
            db.txn is Some,
            db.inner == old(db).inner,
            db.staged_comics() == migrated(rows, nums@.take(i as int)),
        decreases nums@.len() - i,
    {
        let num: u32 = nums[i];
        let ghost seen = nums@.take(i as int);
        let ghost next = nums@.take(i + 1);
        proof {
            assert(next == seen.push(num));
            assert forall|n: u32| next.contains(n) == (seen.contains(n) || n == num) by {
                if seen.contains(n) {
                    let k = choose|k: int| 0 <= k < seen.len() && seen[k] == n;
                    assert(next[k] == n);
                }
                assert(next[seen.len() as int] == num);
            }
        }
        match staged_get(db, COMICS_TABLE, num) {
            Err(TableFault::Open(e)) => {
                return Err(DbError::OpenForMigration(e));
            },
            Err(TableFault::Storage(e)) => {
                return Err(DbError::Query(e));
            },
            Ok(Some(_)) => {},
            Ok(None) => {
                let record: ComicRecord = ComicRecord {
                    num,
                    first_seen_utc: 0,
                    image_downloaded: false,
                    email_sent: true,
                    email_sent_utc: None,
                };
                let json: String = to_json(&record);
                match staged_insert(db, COMICS_TABLE, num, json.as_str()) {
                    Ok(()) => {},
                    Err(TableFault::Open(e)) => {
                        return Err(DbError::OpenForMigration(e));
                    },
                    Err(TableFault::Storage(e)) => {
                        return Err(DbError::InsertMigrated(e));
                    },
                }
            },
        }
        assert(db.staged_comics() =~= migrated(rows, next));
        i = i + 1;
    }
    assert(nums@.take(i as int) == nums@);
    Ok(())
}

/// Takes a history file that holds `contents` over, if there is such a file, and tells how many
/// numbers it holds. If any of its lines is no comic number, nothing is taken over.
pub fn take_over_history(db: &mut Store, contents: Option<&str>) -> (r: Result<
    Option<usize>,
    DbError,
>)
    requires
        old(db).idle(),
    ensures
        final(db).idle(),
        final(db).file() == old(db).file(),
        match contents {
            None => r matches Ok(None) && final(db).comics() == old(db).comics(),
            Some(contents) => match history_numbers(contents@) {
                Err(fault) => r == Err::<Option<usize>, _>(DbError::InvalidHistory(fault))
                    && final(db).comics() == old(db).comics(),
                Ok(nums) => match r {
                    Ok(count) => count matches Some(n) && n == nums.len() && migration_outcome(
                        old(db).comics(),
                        final(db).comics(),
                        nums,
                        Ok(()),
                    ),
                    Err(e) => migration_outcome(
                        old(db).comics(),
                        final(db).comics(),
                        nums,
                        Err(e),
                    ),
                },
            },
        },
{
    let nums: Vec<u32> = match parse_history(contents) {
        Ok(Some(nums)) => nums,
        Ok(None) => {
            return Ok(None);
        },
        Err(e) => {
            return Err(e);
        },
    };
    match migrate_history_file(db, &nums) {
        Ok(()) => Ok(Some(nums.len())),
        Err(e) => Err(e),
    }
}

/// The name under which the history file is kept once it was taken over.
pub fn migrated_path(path: &str) -> (r: String)
    ensures
        r@ == path@ + ".migrated"@,
{
    let mut r: String = String::from_str(path);
    r.append(".migrated");
    r
}

// ---- reading ----

/// `redb::ReadTransaction`, which holds the tables as they were when it began.
#[verifier::external_type_specification]
#[verifier::external_body]
pub struct ExReadTransaction(redb::ReadTransaction);

/// The tables from numbers to texts that a `redb::ReadTransaction` holds, by their names.
pub uninterp spec fn snapshot(txn: redb::ReadTransaction) -> Map<Seq<char>, Map<u32, Seq<char>>>;

/// The mappings in the table of that name, none if there is no such table.
pub open spec fn rows(tables: Map<Seq<char>, Map<u32, Seq<char>>>, table: Seq<char>) -> Map<
    u32,
    Seq<char>,
> {
    if tables.contains_key(table) {
        tables[table]
    } else {
        Map::empty()
    }
}

/// `redb::Database::begin_read`: a read transaction, which holds what was committed before it
/// began.
#[verifier::external_body]
fn begin_read(db: &redb::Database) -> (r: Result<redb::ReadTransaction, redb::TransactionError>)
    ensures
        r matches Ok(txn) ==> forall|table: Seq<char>| #[trigger]
            rows(snapshot(txn), table) == committed(*db, table),
{
    db.begin_read()
}

/// A table that a read transaction has open: a `redb::ReadOnlyTable` from numbers to texts.
#[verifier::external_body]
pub struct ReadTable {
    inner: redb::ReadOnlyTable<u32, &'static str>,
}

/// The mappings that a `redb::ReadOnlyTable` contains.
pub uninterp spec fn kept(table: ReadTable) -> Map<u32, Seq<char>>;

/// A walk through a table, from a number to the next one: a `redb::Range`.
#[verifier::external_body]
pub struct ReadRange<'a> {
    inner: redb::Range<'a, u32, &'static str>,
}

/// The entries that a `redb::Range` has still to give.
pub uninterp spec fn ahead(range: ReadRange<'_>) -> Seq<(u32, Seq<char>)>;

/// Why a table could not be opened.
enum OpenError {
    /// There is no table of that name.
    Missing,
    Failed(redb::TableError),
}

/// Are `entries` all the mappings of `rows`, in the order of the numbers?
pub open spec fn lists(entries: Seq<(u32, Seq<char>)>, rows: Map<u32, Seq<char>>) -> bool {
    &&& forall|i: int, j: int|
        0 <= i < j < entries.len() ==> (#[trigger] entries[i]).0 < (#[trigger] entries[j]).0
    &&& forall|i: int|
        0 <= i < entries.len() ==> rows.contains_key((#[trigger] entries[i]).0)
            && rows[entries[i].0] == entries[i].1
    &&& forall|num: u32| #[trigger]
        rows.contains_key(num) ==> exists|i: int|
            0 <= i < entries.len() && (#[trigger] entries[i]).0 == num
}

/// `redb::ReadTransaction::open_table`: the table of that name as the transaction holds it. The
/// error tells a table that does not exist from any other failure.
#[verifier::external_body]
fn open_snapshot(txn: &redb::ReadTransaction, name: &str) -> (r: Result<ReadTable, OpenError>)
    requires
        name@.len() > 0,
    ensures
        r matches Ok(table) ==> snapshot(*txn).contains_key(name@) && kept(table) == snapshot(
            *txn,
        )[name@],
        r matches Err(e) && e is Missing ==> !snapshot(*txn).contains_key(name@),
{
    match txn.open_table(redb::TableDefinition::<u32, &'static str>::new(name)) {
        Ok(inner) => Ok(ReadTable { inner }),
        Err(redb::TableError::TableDoesNotExist(_)) => Err(OpenError::Missing),
        Err(e) => Err(OpenError::Failed(e)),
    }
}

/// `redb::ReadOnlyTable::get`: the value that the key is mapped to, if there is one.
#[verifier::external_body]
fn snapshot_get(table: &ReadTable, key: u32) -> (r: Result<Option<String>, redb::StorageError>)
    ensures
        r matches Ok(None) ==> !kept(*table).contains_key(key),
        r matches Ok(Some(value)) ==> kept(*table).contains_key(key) && kept(*table)[key]
            == value@,
{
    Ok(table.inner.get(key)?.map(|value| value.value().to_owned()))
}

/// `ReadableTable::last` of `redb::ReadOnlyTable`: the greatest key with its value, if the table
/// has any. The value is left out.
#[verifier::external_body]
fn snapshot_last(table: &ReadTable) -> (r: Result<Option<u32>, redb::StorageError>)
    ensures
        r matches Ok(None) ==> forall|k: u32| !(#[trigger] kept(*table).contains_key(k)),
        r matches Ok(Some(key)) ==> kept(*table).contains_key(key) && forall|k: u32| #[trigger]
            kept(*table).contains_key(k) ==> k <= key,
{
    Ok(table.inner.last()?.map(|(key, _)| key.value()))
}

/// `ReadableTable::iter` of `redb::ReadOnlyTable`: all mappings, in the order of the keys.
#[verifier::external_body]
fn snapshot_iter<'a>(table: &'a ReadTable) -> (r: Result<ReadRange<'a>, redb::StorageError>)
    ensures
        r matches Ok(range) ==> lists(ahead(range), kept(*table)),
{
    Ok(ReadRange { inner: table.inner.iter()? })
}

/// `Iterator::next` of `redb::Range`: the next entry, or none if there is none left. Nothing is
/// said of the range after an error.
#[verifier::external_body]
fn range_next(range: &mut ReadRange<'_>) -> (r: Option<
    Result<(u32, String), redb::StorageError>,
>)
    ensures
        r is None ==> ahead(*old(range)).len() == 0,
        r matches Some(Ok(entry)) ==> ahead(*old(range)).len() > 0 && ahead(*old(range))[0] == (
            entry.0,
            entry.1@,
        ) && ahead(*final(range)) == ahead(*old(range)).drop_first(),
{
    let entry = range.inner.next()?;
    Some(entry.map(|(key, value)| (key.value(), value.value().to_owned())))
}

/// The table, out of what came of opening it: that there is no such table is no failure.
fn if_there(result: Result<ReadTable, OpenError>) -> (r: Result<Option<ReadTable>, DbError>)
    ensures
        r == match result {
            Ok(table) => Ok(Some(table)),
            Err(OpenError::Missing) => Ok(None),
            Err(OpenError::Failed(e)) => Err(DbError::Open(e)),
        },
{
    match result {
        Ok(table) => Ok(Some(table)),
        Err(OpenError::Missing) => Ok(None),
        Err(OpenError::Failed(e)) => Err(DbError::Open(e)),
    }
}

/// Opens the table of comics as it was committed last, if there is one.
fn open_seen(db: &Store) -> (r: Result<Option<ReadTable>, DbError>)
    ensures
        r matches Ok(Some(table)) ==> kept(table) == db.comics(),
        r matches Ok(None) ==> db.comics() == Map::<u32, Seq<char>>::empty(),
        r matches Err(e) ==> e is BeginRead || e is Open,
{
    proof {
        reveal_strlit("comics");
    }
    let txn: redb::ReadTransaction = match begin_read(&db.inner) {
        Ok(txn) => txn,
        Err(e) => {
            return Err(DbError::BeginRead(e));
        },
    };
    assert(rows(snapshot(txn), COMICS_TABLE@) == db.comics());
    if_there(open_snapshot(&txn, COMICS_TABLE))
}

/// Was a comic seen before, by what the table gave for its number?
pub fn seen_in(stored: Result<Option<String>, redb::StorageError>) -> (r: Result<bool, DbError>)
    ensures
        r == match stored {
            Ok(json) => Ok(json is Some),
            Err(e) => Err(DbError::Query(e)),
        },
{
    match stored {
        Ok(json) => Ok(json.is_some()),
        Err(e) => Err(DbError::Query(e)),
    }
}

/// Was the comic seen before?
pub fn is_seen(db: &Store, comic: &Comic) -> (r: Result<bool, DbError>)
    ensures
        r matches Ok(seen) ==> seen == db.comics().contains_key(comic.num),
        r matches Err(e) ==> e is BeginRead || e is Open || e is Query,
{
    match open_seen(db)? {
        Some(table) => seen_in(snapshot_get(&table, comic.num)),
        None => Ok(false),
    }
}

/// The greatest number of a recorded comic, or `None` if there is none.
pub fn last_seen_num(db: &Store) -> (r: Result<Option<u32>, DbError>)
    ensures
        r matches Ok(None) ==> db.comics() == Map::<u32, Seq<char>>::empty(),
        r matches Ok(Some(last)) ==> db.comics().contains_key(last) && forall|num: u32|
         #[trigger]
            db.comics().contains_key(num) ==> num <= last,
        r matches Err(e) ==> e is BeginRead || e is Open || e is Last,
{
    match open_seen(db)? {
        Some(table) => match snapshot_last(&table) {
            Ok(last) => Ok(last),
            Err(e) => Err(DbError::Last(e)),
        },
        None => Ok(None),
    }
}

/// The texts of `entries`, each on a line.
pub open spec fn dump_text(entries: Seq<(u32, Seq<char>)>) -> Seq<char>
    decreases entries.len(),
{
    if entries.len() == 0 {
        Seq::empty()
    } else {
        dump_text(entries.drop_last()) + entries.last().1 + "\n"@
    }
}

/// Adds all records to `out` as newline-delimited JSON, in the order of the comics' numbers. If
/// reading fails on the way, what was read until then is there.
pub fn cmd_dump(db: &Store, out: &mut String) -> (r: Result<(), DbError>)
    ensures
        r is Ok ==> exists|entries: Seq<(u32, Seq<char>)>| #[trigger]
            lists(entries, db.comics()) && final(out)@ == old(out)@ + dump_text(
                entries,
            ),
        r matches Err(e) ==> match e {
            DbError::BeginRead(_) => final(out)@ == old(out)@,
            DbError::Open(_) => final(out)@ == old(out)@,
            DbError::Iterate(_) => final(out)@ == old(out)@,
            DbError::Entry(_) => exists|entries: Seq<(u32, Seq<char>)>, n: int|
                {
                    &&& #[trigger] lists(entries, db.comics())
                    &&& 0 <= n <= entries.len()
                    &&& final(out)@ == old(out)@ + dump_text(#[trigger] entries.take(n))
                },
            _ => false,
        },
{
    let table: ReadTable = match open_seen(db)? {
        Some(table) => table,
        None => {
            assert(lists(Seq::empty(), db.comics()));
            assert(out@ == old(out)@ + dump_text(Seq::empty()));
            return Ok(());
        },
    };
    let mut range: ReadRange<'_> = match snapshot_iter(&table) {
        Ok(range) => range,
        Err(e) => {
            return Err(DbError::Iterate(e));
        },
    };
    let ghost entries = ahead(range);
    let ghost mut n: int = 0;
    assert(entries.skip(0) == entries);
    assert(entries.take(0) == Seq::<(u32, Seq<char>)>::empty());
    assert(out@ == old(out)@ + dump_text(entries.take(0)));
    loop
        invariant
            lists(entries, db.comics()),
            0 <= n <= entries.len(),
            ahead(range) == entries.skip(n),
            out@ == old(out)@ + dump_text(entries.take(n)),
        decreases entries.len() - n,
    {
        match range_next(&mut range) {
            None => {
                assert(n == entries.len());
                assert(entries.take(n) == entries);
                return Ok(());
            },
            Some(Err(e)) => {
                return Err(DbError::Entry(e));
            },
            Some(Ok((_, json))) => {
                out.append(json.as_str());
                out.append("\n");
                proof {
                    assert(entries.take(n + 1).drop_last() == entries.take(n));
                    assert(entries.take(n + 1).last().1 == json@);
                    assert(entries.skip(n).drop_first() == entries.skip(n + 1));
                    n = n + 1;
                }
            },
        }
    }
}

// ---- laws ----

/// A comic that was recorded is seen from then on, and recording it changes nothing about any
/// other comic.
pub proof fn law_recorded_is_seen(
    before: Map<u32, Seq<char>>,
    after: Map<u32, Seq<char>>,
    num: u32,
    now: i64,
)
    requires
        record_outcome(before, after, num, now, Ok(())),
    ensures
        after.contains_key(num),
        after.dom() == before.dom().insert(num),
        forall|other: u32|
            other != num ==> #[trigger] after.contains_key(other) == before.contains_key(other)
                && after[other] == before[other],
{
}

/// An update makes no comic seen that was not, and touches the record of no other comic.
pub proof fn law_update_adds_no_comic<D: Fn(&str) -> Result<ComicRecord, String>>(
    before: Map<u32, Seq<char>>,
    after: Map<u32, Seq<char>>,
    num: u32,
    decode: D,
    progress: Progress,
)
    requires
        update_outcome(before, after, num, decode, progress, Ok(())),
    ensures
        after.dom() == before.dom(),
        forall|other: u32| other != num ==> #[trigger] after[other] == before[other],
{
    assert(after.dom() =~= before.dom());
}

/// A call of one of the functions that change the records.
pub enum Call<D> {
    /// `record_first_seen`.
    Record { num: u32, now: i64 },
    /// `update_record`, be it by `record_download_success` or by `record_email_success`.
    Update { num: u32, decode: D, progress: Progress },
    /// `migrate_history_file`.
    Migrate { nums: Seq<u32> },
}

/// What a call may come to.
pub open spec fn call_outcome<D: Fn(&str) -> Result<ComicRecord, String>>(
    call: Call<D>,
    before: Map<u32, Seq<char>>,
    after: Map<u32, Seq<char>>,
    r: Result<(), DbError>,
) -> bool {
    match call {
        Call::Record { num, now } => record_outcome(before, after, num, now, r),
        Call::Update { num, decode, progress } => update_outcome(
            before,
            after,
            num,
            decode,
            progress,
            r,
        ),
        Call::Migrate { nums } => migration_outcome(before, after, nums, r),
    }
}

/// Are `states` what the records may be before, between and after a series of calls with these
/// results? The calls may succeed or fail.
pub open spec fn series<D: Fn(&str) -> Result<ComicRecord, String>>(
    states: Seq<Map<u32, Seq<char>>>,
    calls: Seq<Call<D>>,
    results: Seq<Result<(), DbError>>,
) -> bool {
    &&& states.len() == calls.len() + 1
    &&& results.len() == calls.len()
    &&& forall|i: int|
        0 <= i < calls.len() ==> call_outcome(
            #[trigger] calls[i],
            states[i],
            states[i + 1],
            results[i],
        )
}

/// A comic that was seen stays seen, however many calls follow, whether they succeed or fail.
pub proof fn law_seen_stays_seen<D: Fn(&str) -> Result<ComicRecord, String>>(
    states: Seq<Map<u32, Seq<char>>>,
    calls: Seq<Call<D>>,
    results: Seq<Result<(), DbError>>,
    i: int,
    j: int,
    seen: u32,
)
    requires
        series(states, calls, results),
        0 <= i <= j < states.len(),
        states[i].contains_key(seen),
    ensures
        states[j].contains_key(seen),
    decreases j - i,
{
    if i < j {
        law_seen_stays_seen(states, calls, results, i, j - 1, seen);
        assert(call_outcome(calls[j - 1], states[j - 1], states[j], results[j - 1]));
    }
}

/// Once a comic was recorded it is seen, however many calls follow, whether they succeed or
/// fail.
pub proof fn law_recorded_stays_seen<D: Fn(&str) -> Result<ComicRecord, String>>(
    states: Seq<Map<u32, Seq<char>>>,
    calls: Seq<Call<D>>,
    results: Seq<Result<(), DbError>>,
    i: int,
    j: int,
    num: u32,
    now: i64,
)
    requires
        series(states, calls, results),
        0 <= i < j < states.len(),
        calls[i] == (Call::<D>::Record { num, now }),
        results[i] is Ok,
    ensures
        states[j].contains_key(num),
{
    assert(call_outcome(calls[i], states[i], states[i + 1], results[i]));
    law_seen_stays_seen(states, calls, results, i + 1, j, num);
}

/// Can this be the record of comic `num`? It bears that number. A mail time comes with a mail,
/// and a mail without a time comes from the history file only, where no time is known.
pub open spec fn in_order(num: u32, record: ComicRecord) -> bool {
    &&& record.num == num
    &&& record.email_sent_utc is Some ==> record.email_sent
    &&& record.email_sent && record.email_sent_utc is None ==> record.first_seen_utc == 0
}

/// Is the text that of a record which can be the record of comic `num`?
pub open spec fn is_record(json: Seq<char>, num: u32) -> bool {
    exists|record: ComicRecord| json == #[trigger] record_json(record) && in_order(num, record)
}

/// Is each stored text that of a record which can be the record of the comic it is stored for?
pub open spec fn well_kept(rows: Map<u32, Seq<char>>) -> bool {
    forall|num: u32| #[trigger] rows.contains_key(num) ==> is_record(rows[num], num)
}

/// Does `decode` read back what `to_json` writes?
pub open spec fn reads_back<D: Fn(&str) -> Result<ComicRecord, String>>(decode: D) -> bool {
    forall|record: ComicRecord, decoded: Result<ComicRecord, String>| #[trigger]
        may_decode(decode, record_json(record), decoded) ==> decoded == Ok::<_, String>(record)
}

/// Does `decode` make the same of the same text each time?
pub open spec fn is_steady<D: Fn(&str) -> Result<ComicRecord, String>>(decode: D) -> bool {
    forall|
        stored: Seq<char>,
        a: Result<ComicRecord, String>,
        b: Result<ComicRecord, String>,
    | #[trigger]
        may_decode(decode, stored, a) && #[trigger] may_decode(decode, stored, b) ==> a == b
}

/// A call keeps the records well, whether it succeeds or fails, provided that `decode` reads back
/// what `to_json` writes.
pub proof fn law_call_keeps_records_well<D: Fn(&str) -> Result<ComicRecord, String>>(
    call: Call<D>,
    before: Map<u32, Seq<char>>,
    after: Map<u32, Seq<char>>,
    r: Result<(), DbError>,
)
    requires
        well_kept(before),
        call matches Call::Update { decode, .. } ==> reads_back(decode),
        call_outcome(call, before, after, r),
    ensures
        well_kept(after),
{
    assert forall|num: u32| #[trigger] after.contains_key(num) implies is_record(
        after[num],
        num,
    ) by {
        assert(before.contains_key(num) ==> is_record(before[num], num));
        match call {
            Call::Record { num: n, now } => {
                assert(in_order(n, first_seen_record(n, now)));
                assert(is_record(record_json(first_seen_record(n, now)), n));
            },
            Call::Migrate { nums } => {
                assert(in_order(num, migrated_record(num)));
                assert(is_record(record_json(migrated_record(num)), num));
            },
            Call::Update { num: n, decode, progress } => {
                if after != before {
                    assert(updated(before, after, n, decode, progress));
                    let read = choose|record: ComicRecord|
                        {
                            &&& #[trigger] may_decode(decode, before[n], Ok(record))
                            &&& after == before.insert(
                                n,
                                record_json(progress.applied_to(record)),
                            )
                        };
                    assert(is_record(before[n], n));
                    let kept = choose|record: ComicRecord|
                        before[n] == #[trigger] record_json(record) && in_order(n, record);
                    assert(may_decode(decode, record_json(kept), Ok(read)));
                    assert(read == kept);
                    assert(in_order(n, progress.applied_to(kept)));
                    assert(is_record(record_json(progress.applied_to(kept)), n));
                }
            },
        }
    }
}

/// In a database that was empty once, each stored text is that of a record which bears the number
/// it is stored for; a mail time comes with a mail, and a mail without a time comes from the
/// history file only. This holds after any series of calls, whether they succeed or fail, provided
/// that `decode` reads back what `to_json` writes.
pub proof fn law_records_are_well_kept<D: Fn(&str) -> Result<ComicRecord, String>>(
    states: Seq<Map<u32, Seq<char>>>,
    calls: Seq<Call<D>>,
    results: Seq<Result<(), DbError>>,
    j: int,
)
    requires
        series(states, calls, results),
        states[0] == Map::<u32, Seq<char>>::empty() || well_kept(states[0]),
        forall|i: int|
            0 <= i < calls.len() ==> (#[trigger] calls[i] matches Call::Update { decode, .. }
                ==> reads_back(decode)),
        0 <= j < states.len(),
    ensures
        well_kept(states[j]),
    decreases j,
{
    if j > 0 {
        law_records_are_well_kept(states, calls, results, j - 1);
        law_call_keeps_records_well(calls[j - 1], states[j - 1], states[j], results[j - 1]);
    }
}

/// Taking a history file over records each comic in it, leaves the records that were there as
/// they were, and adds no others.
pub proof fn law_migration_keeps_records(rows: Map<u32, Seq<char>>, nums: Seq<u32>)
    ensures
        forall|num: u32| #[trigger]
            rows.contains_key(num) ==> migrated(rows, nums).contains_key(num) && migrated(
                rows,
                nums,
            )[num] == rows[num],
        forall|num: u32| #[trigger]
            nums.contains(num) ==> migrated(rows, nums).contains_key(num),
        forall|num: u32| #[trigger]
            migrated(rows, nums).contains_key(num) ==> rows.contains_key(num) || nums.contains(
                num,
            ),
{
}

/// Taking the same history file over again changes nothing.
pub proof fn law_migration_is_idempotent(rows: Map<u32, Seq<char>>, nums: Seq<u32>)
    ensures
        migrated(migrated(rows, nums), nums) == migrated(rows, nums),
{
    assert(migrated(migrated(rows, nums), nums) =~= migrated(rows, nums));
}

/// Progress never takes anything back: which comic it is and when it was seen first stay, and
/// what was done stays done.
pub proof fn law_progress_keeps(record: ComicRecord, progress: Progress)
    ensures
        ({
            let after = progress.applied_to(record);
            &&& after.num == record.num
            &&& after.first_seen_utc == record.first_seen_utc
            &&& record.image_downloaded ==> after.image_downloaded
            &&& record.email_sent ==> after.email_sent
            &&& record.email_sent_utc is Some ==> after.email_sent_utc is Some
        }),
{
}

/// An update of a record that was stored as `to_json` writes it stores that record with the
/// progress made, provided that `decode` reads back what `to_json` writes.
pub proof fn law_update_keeps_what_was_stored<D: Fn(&str) -> Result<ComicRecord, String>>(
    before: Map<u32, Seq<char>>,
    after: Map<u32, Seq<char>>,
    num: u32,
    decode: D,
    progress: Progress,
    record: ComicRecord,
)
    requires
        before.contains_key(num),
        before[num] == record_json(record),
        reads_back(decode),
        update_outcome(before, after, num, decode, progress, Ok(())),
    ensures
        after == before.insert(num, record_json(progress.applied_to(record))),
{
}

/// Whether a download or a mailing is recorded first makes no difference to a record.
pub proof fn law_progress_commutes(record: ComicRecord, now: i64)
    ensures
        Progress::Mailed(now).applied_to(Progress::Downloaded.applied_to(record))
            == Progress::Downloaded.applied_to(Progress::Mailed(now).applied_to(record)),
{
}

/// Whether the download of comic `n` or the mailing of comic `m` is recorded first makes no
/// difference to the database. If it is the same comic, both are on record in the end, and when it
/// was seen first stays. This holds of a `decode` that reads back what `to_json` writes; where the
/// records are not well kept, it must also make the same of the same text each time.
pub proof fn law_updates_commute<D: Fn(&str) -> Result<ComicRecord, String>>(
    start: Map<u32, Seq<char>>,
    downloaded: Map<u32, Seq<char>>,
    downloaded_first: Map<u32, Seq<char>>,
    mailed: Map<u32, Seq<char>>,
    mailed_first: Map<u32, Seq<char>>,
    n: u32,
    m: u32,
    decode: D,
    now: i64,
)
    requires
        reads_back(decode),
        is_steady(decode) || well_kept(start),
        update_outcome(start, downloaded, n, decode, Progress::Downloaded, Ok(())),
        update_outcome(downloaded, downloaded_first, m, decode, Progress::Mailed(now), Ok(())),
        update_outcome(start, mailed, m, decode, Progress::Mailed(now), Ok(())),
        update_outcome(mailed, mailed_first, n, decode, Progress::Downloaded, Ok(())),
    ensures
        downloaded_first == mailed_first,
        n == m ==> exists|before: ComicRecord|
            {
                let after = Progress::Mailed(now).applied_to(
                    Progress::Downloaded.applied_to(before),
                );
                &&& #[trigger] may_decode(decode, start[n], Ok(before))
                &&& downloaded_first[n] == record_json(after)
                &&& after.image_downloaded && after.email_sent
                &&& after.first_seen_utc == before.first_seen_utc
            },
{
    let first = choose|record: ComicRecord|
        {
            &&& #[trigger] may_decode(decode, start[n], Ok(record))
            &&& downloaded == start.insert(
                n,
                record_json(Progress::Downloaded.applied_to(record)),
            )
        };
    let second = choose|record: ComicRecord|
        {
            &&& #[trigger] may_decode(decode, start[m], Ok(record))
            &&& mailed == start.insert(m, record_json(Progress::Mailed(now).applied_to(record)))
        };
    if !is_steady(decode) {
        assert(is_record(start[n], n) && is_record(start[m], m));
    }
    if n == m {
        assert(first == second);
        law_update_keeps_what_was_stored(
            downloaded,
            downloaded_first,
            m,
            decode,
            Progress::Mailed(now),
            Progress::Downloaded.applied_to(first),
        );
        law_update_keeps_what_was_stored(
            mailed,
            mailed_first,
            n,
            decode,
            Progress::Downloaded,
            Progress::Mailed(now).applied_to(first),
        );
        law_progress_commutes(first, now);
    } else {
        assert(downloaded[m] == start[m] && mailed[n] == start[n]);
    }
    assert(downloaded_first =~= mailed_first);
}

proof fn lemma_same_prefix(
    a: Seq<(u32, Seq<char>)>,
    b: Seq<(u32, Seq<char>)>,
    rows: Map<u32, Seq<char>>,
    n: int,
)
    requires
        lists(a, rows),
        lists(b, rows),
        0 <= n <= a.len(),
    ensures
        n <= b.len(),
        forall|i: int| 0 <= i < n ==> #[trigger] a[i] == b[i],
    decreases n,
{
    if n > 0 {
        let i = n - 1;
        lemma_same_prefix(a, b, rows, i);
        assert(rows.contains_key(a[i].0));
        let k = choose|k: int| 0 <= k < b.len() && (#[trigger] b[k]).0 == a[i].0;
        if k < i {
            assert(a[k] == b[k]);
            assert(a[k].0 < a[i].0);
        }
        assert(rows.contains_key(b[i].0));
        let m = choose|m: int| 0 <= m < a.len() && (#[trigger] a[m]).0 == b[i].0;
        if m < i {
            assert(a[m] == b[m]);
            assert(b[m].0 < b[i].0);
        }
        assert(b[i].0 <= b[k].0);
        assert(a[i].0 <= a[m].0);
    }
}

/// There is one way only to list records in the order of their numbers, so a dump is determined
/// by the records alone.
pub proof fn law_listing_is_unique(
    a: Seq<(u32, Seq<char>)>,
    b: Seq<(u32, Seq<char>)>,
    rows: Map<u32, Seq<char>>,
)
    requires
        lists(a, rows),
        lists(b, rows),
    ensures
        a == b,
        dump_text(a) == dump_text(b),
{
    lemma_same_prefix(a, b, rows, a.len() as int);
    lemma_same_prefix(b, a, rows, b.len() as int);
    assert(a =~= b);
}

/// Where the first `c` stands decides what comes before it and after it.
proof fn lemma_cut(x: Seq<char>, y: Seq<char>, c: char, s: Seq<char>, t: Seq<char>)
    requires
        !x.contains(c),
        !y.contains(c),
        s.len() > 0,
        t.len() > 0,
        s[0] == c,
        t[0] == c,
        x + s == y + t,
    ensures
        x == y,
        s == t,
{
    let whole = x + s;
    assert(whole[x.len() as int] == c);
    assert(whole == y + t);
    if x.len() < y.len() {
        assert((y + t)[x.len() as int] == y[x.len() as int]);
        assert(y.contains(c));
    }
    if y.len() < x.len() {
        assert((y + t)[y.len() as int] == c);
        assert(whole[y.len() as int] == x[y.len() as int]);
        assert(x.contains(c));
    }
    assert forall|i: int| 0 <= i < x.len() implies x[i] == y[i] by {
        assert(whole[i] == x[i]);
        assert((y + t)[i] == y[i]);
    }
    assert(x =~= y);
    assert(s.len() == whole.len() - x.len() && t.len() == (y + t).len() - y.len());
    assert forall|i: int| 0 <= i < s.len() implies s[i] == t[i] by {
        assert(whole[x.len() + i] == s[i]);
        assert((y + t)[x.len() + i] == t[i]);
    }
    assert(s =~= t);
}

/// What follows the same start is the same.
proof fn lemma_after_start(start: Seq<char>, s: Seq<char>, t: Seq<char>)
    requires
        start + s == start + t,
    ensures
        s == t,
{
    assert((start + s).skip(start.len() as int) =~= s);
    assert((start + t).skip(start.len() as int) =~= t);
}

/// The characters of numbers, truth values and timestamps.
proof fn lemma_value_chars(n: u32, i: i64, b: bool, t: Option<i64>)
    ensures
        !text::decimal(n as nat).contains(','),
        !text::signed_decimal(i as int).contains(','),
        !bool_json(b).contains(','),
        !time_json(t).contains('}'),
        text::signed_decimal(i as int).len() > 0,
        text::signed_decimal(i as int)[0] != 'n',
{
    lemma_signed_chars(i as int);
    text::lemma_decimal_digits(n as nat);
    assert forall|k: int| 0 <= k < text::decimal(n as nat).len() implies text::decimal(
        n as nat,
    )[k] != ',' by {
        assert(text::is_digit(text::decimal(n as nat)[k]));
    }
    reveal_strlit("true");
    reveal_strlit("false");
    reveal_strlit("null");
    match t {
        Some(t) => lemma_signed_chars(t as int),
        None => {},
    }
}

proof fn lemma_signed_chars(i: int)
    ensures
        text::signed_decimal(i).len() > 0,
        forall|k: int|
            0 <= k < text::signed_decimal(i).len() ==> text::is_digit(
                #[trigger] text::signed_decimal(i)[k],
            ) || text::signed_decimal(i)[k] == '-',
{
    let size = if i < 0 {
        (-i) as nat
    } else {
        i as nat
    };
    text::lemma_decimal_digits(size);
    assert forall|k: int| 0 <= k < text::signed_decimal(i).len() implies text::is_digit(
        #[trigger] text::signed_decimal(i)[k],
    ) || text::signed_decimal(i)[k] == '-' by {
        if i < 0 {
            if k > 0 {
                assert(text::signed_decimal(i)[k] == text::decimal(size)[k - 1]);
            }
        } else {
            assert(text::is_digit(text::decimal(size)[k]));
        }
    }
}

/// Six texts with five values between them, the first four of which end where a comma follows
/// and the last of which ends where a closing brace follows: the whole tells the values.
proof fn lemma_fields(
    l: Seq<Seq<char>>,
    v: Seq<Seq<char>>,
    w: Seq<Seq<char>>,
)
    requires
        l.len() == 6,
        v.len() == 5,
        w.len() == 5,
        forall|i: int| 1 <= i < 5 ==> (#[trigger] l[i]).len() > 0 && l[i][0] == ',',
        l[5].len() > 0,
        l[5][0] == '}',
        forall|i: int| 0 <= i < 4 ==> !(#[trigger] v[i]).contains(','),
        forall|i: int| 0 <= i < 4 ==> !(#[trigger] w[i]).contains(','),
        !v[4].contains('}'),
        !w[4].contains('}'),
        fields(l, v) == fields(l, w),
    ensures
        v == w,
{
    lemma_nested(l, v);
    lemma_nested(l, w);
    let v4 = v[4] + l[5];
    let w4 = w[4] + l[5];
    let v3 = v[3] + (l[4] + v4);
    let w3 = w[3] + (l[4] + w4);
    let v2 = v[2] + (l[3] + v3);
    let w2 = w[2] + (l[3] + w3);
    let v1 = v[1] + (l[2] + v2);
    let w1 = w[1] + (l[2] + w2);
    let v0 = v[0] + (l[1] + v1);
    let w0 = w[0] + (l[1] + w1);
    lemma_after_start(l[0], v0, w0);
    lemma_cut(v[0], w[0], ',', l[1] + v1, l[1] + w1);
    lemma_after_start(l[1], v1, w1);
    lemma_cut(v[1], w[1], ',', l[2] + v2, l[2] + w2);
    lemma_after_start(l[2], v2, w2);
    lemma_cut(v[2], w[2], ',', l[3] + v3, l[3] + w3);
    lemma_after_start(l[3], v3, w3);
    lemma_cut(v[3], w[3], ',', l[4] + v4, l[4] + w4);
    lemma_after_start(l[4], v4, w4);
    lemma_cut(v[4], w[4], '}', l[5], l[5]);
    assert(v =~= w);
}

spec fn fields(l: Seq<Seq<char>>, v: Seq<Seq<char>>) -> Seq<char> {
    l[0] + v[0] + l[1] + v[1] + l[2] + v[2] + l[3] + v[3] + l[4] + v[4] + l[5]
}

proof fn lemma_assoc(x: Seq<char>, y: Seq<char>, z: Seq<char>)
    ensures
        x + y + z == x + (y + z),
{
    assert(x + y + z =~= x + (y + z));
}

proof fn lemma_nested(l: Seq<Seq<char>>, v: Seq<Seq<char>>)
    ensures
        fields(l, v) == l[0] + (v[0] + (l[1] + (v[1] + (l[2] + (v[2] + (l[3] + (v[3] + (l[4] + (
        v[4] + l[5]))))))))),
{
    let p1 = l[0] + v[0];
    let p2 = p1 + l[1];
    let p3 = p2 + v[1];
    let p4 = p3 + l[2];
    let p5 = p4 + v[2];
    let p6 = p5 + l[3];
    let p7 = p6 + v[3];
    let p8 = p7 + l[4];
    let s8 = v[4] + l[5];
    let s7 = l[4] + s8;
    let s6 = v[3] + s7;
    let s5 = l[3] + s6;
    let s4 = v[2] + s5;
    let s3 = l[2] + s4;
    let s2 = v[1] + s3;
    let s1 = l[1] + s2;
    lemma_assoc(p8, v[4], l[5]);
    lemma_assoc(p7, l[4], s8);
    lemma_assoc(p6, v[3], s7);
    lemma_assoc(p5, l[3], s6);
    lemma_assoc(p4, v[2], s5);
    lemma_assoc(p3, l[2], s4);
    lemma_assoc(p2, v[1], s3);
    lemma_assoc(p1, l[1], s2);
    lemma_assoc(l[0], v[0], s1);
}

/// How the texts between the values of a record start.
proof fn lemma_labels()
    ensures
        ",\"first_seen_utc\":"@.len() > 0 && ",\"first_seen_utc\":"@[0] == ',',
        ",\"image_downloaded\":"@.len() > 0 && ",\"image_downloaded\":"@[0] == ',',
        ",\"email_sent\":"@.len() > 0 && ",\"email_sent\":"@[0] == ',',
        ",\"email_sent_utc\":"@.len() > 0 && ",\"email_sent_utc\":"@[0] == ',',
        "}"@.len() > 0 && "}"@[0] == '}',
        "true"@ != "false"@,
        "null"@.len() > 0 && "null"@[0] == 'n',
{
    reveal_strlit(",\"first_seen_utc\":");
    reveal_strlit(",\"image_downloaded\":");
    reveal_strlit(",\"email_sent\":");
    reveal_strlit(",\"email_sent_utc\":");
    reveal_strlit("}");
    reveal_strlit("true");
    reveal_strlit("false");
    reveal_strlit("null");
    assert("true"@[0] == 't' && "false"@[0] == 'f');
}

/// The values of a record, each as it stands in its JSON.
spec fn values(r: ComicRecord) -> Seq<Seq<char>> {
    seq![
        text::decimal(r.num as nat),
        text::signed_decimal(r.first_seen_utc as int),
        bool_json(r.image_downloaded),
        bool_json(r.email_sent),
        time_json(r.email_sent_utc),
    ]
}

/// Two records that are stored as the same text are the same: the text tells everything.
pub proof fn law_record_json_is_unambiguous(a: ComicRecord, b: ComicRecord)
    requires
        record_json(a) == record_json(b),
    ensures
        a == b,
{
    let l = seq![
        "{\"num\":"@,
        ",\"first_seen_utc\":"@,
        ",\"image_downloaded\":"@,
        ",\"email_sent\":"@,
        ",\"email_sent_utc\":"@,
        "}"@,
    ];
    lemma_labels();
    lemma_value_chars(a.num, a.first_seen_utc, a.image_downloaded, a.email_sent_utc);
    lemma_value_chars(b.num, b.first_seen_utc, b.image_downloaded, b.email_sent_utc);
    lemma_value_chars(a.num, a.first_seen_utc, a.email_sent, a.email_sent_utc);
    lemma_value_chars(b.num, b.first_seen_utc, b.email_sent, b.email_sent_utc);
    assert(fields(l, values(a)) == record_json(a));
    assert(fields(l, values(b)) == record_json(b));
    lemma_fields(l, values(a), values(b));
    assert(values(a)[0] == values(b)[0]);
    assert(values(a)[1] == values(b)[1]);
    assert(values(a)[2] == values(b)[2]);
    assert(values(a)[3] == values(b)[3]);
    assert(values(a)[4] == values(b)[4]);
    text::law_decimal_is_unambiguous(a.num as int, b.num as int);
    text::law_decimal_is_unambiguous(a.first_seen_utc as int, b.first_seen_utc as int);
    match (a.email_sent_utc, b.email_sent_utc) {
        (Some(x), Some(y)) => {
            text::law_decimal_is_unambiguous(x as int, y as int);
        },
        (Some(x), None) => {
            lemma_value_chars(a.num, x, a.email_sent, None);
        },
        (None, Some(y)) => {
            lemma_value_chars(a.num, y, a.email_sent, None);
        },
        (None, None) => {},
    }
}

// ---- laws on what the functions are for ----

/// Are these the numbers of a history file? One for each line that is not blank, all of them and
/// in order, and each is what its line stands for.
pub open spec fn read_from(nums: Seq<u32>, contents: Seq<char>) -> bool {
    exists|spots: Seq<int>, items: Seq<Seq<char>>|
        {
            &&& #[trigger] text::are_spots(spots, items, contents, '\n')
            &&& nums.len() == items.len()
            &&& forall|i: int|
                0 <= i < items.len() ==> text::parsed_unsigned(#[trigger] items[i], 4294967295)
                    == Ok::<_, NumberFault>(nums[i] as nat)
        }
}

proof fn lemma_line_numbers(lines: Seq<Seq<char>>)
    ensures
        match line_numbers(lines) {
            Ok(nums) => {
                &&& nums.len() == lines.len()
                &&& forall|i: int|
                    0 <= i < lines.len() ==> text::parsed_unsigned(#[trigger] lines[i], 4294967295)
                        == Ok::<_, NumberFault>(nums[i] as nat)
            },
            Err(fault) => exists|i: int|
                {
                    &&& 0 <= i < lines.len()
                    &&& text::parsed_unsigned(#[trigger] lines[i], 4294967295) == Err::<nat, _>(
                        fault,
                    )
                    &&& forall|j: int|
                        0 <= j < i ==> text::parsed_unsigned(#[trigger] lines[j], 4294967295) is Ok
                },
        },
    decreases lines.len(),
{
    if lines.len() > 0 {
        let before = lines.drop_last();
        let last = lines.len() - 1;
        lemma_line_numbers(before);
        assert(lines.last() == lines[last]);
        assert forall|i: int| 0 <= i < last implies #[trigger] lines[i] == before[i] by {}
        lemma_within(lines[last], 4294967295);
        match line_numbers(before) {
            Ok(nums) => {
                assert forall|i: int| 0 <= i < last implies text::parsed_unsigned(
                    #[trigger] lines[i],
                    4294967295,
                ) == Ok::<_, NumberFault>(nums[i] as nat) by {
                    assert(lines[i] == before[i]);
                }
                if line_numbers(lines) is Err {
                    assert(text::parsed_unsigned(lines[last], 4294967295) is Err);
                }
            },
            Err(fault) => {
                let i = choose|i: int|
                    {
                        &&& 0 <= i < before.len()
                        &&& text::parsed_unsigned(#[trigger] before[i], 4294967295) == Err::<
                            nat,
                            _,
                        >(fault)
                        &&& forall|j: int|
                            0 <= j < i ==> text::parsed_unsigned(#[trigger] before[j], 4294967295)
                                is Ok
                    };
                assert(lines[i] == before[i]);
                assert forall|j: int| 0 <= j < i implies text::parsed_unsigned(
                    #[trigger] lines[j],
                    4294967295,
                ) is Ok by {
                    assert(lines[j] == before[j]);
                }
            },
        }
    }
}

/// A number that is read is within the limit.
proof fn lemma_within(s: Seq<char>, max: nat)
    ensures
        text::parsed_unsigned(s, max) matches Ok(n) ==> n <= max,
{
    text::law_faultless_is_a_number(text::without_plus(s), max, NumberFault::TooLarge);
}

/// Every line of a history file that is not blank is read, and no other: there are exactly as many
/// numbers as there are such lines, each what its line, trimmed, stands for. If a line stands for
/// no number, what is wrong with the first such line is told.
pub proof fn law_every_line_is_read(contents: &str, r: Result<Option<Vec<u32>>, DbError>)
    requires
        call_ensures(parse_history, (Some(contents),), r),
    ensures
        match r {
            Ok(nums) => nums is Some && read_from(nums->0@, contents@),
            Err(e) => e matches DbError::InvalidHistory(fault) && exists|
                spots: Seq<int>,
                items: Seq<Seq<char>>,
                i: int,
            |
                {
                    &&& #[trigger] text::are_spots(spots, items, contents@, '\n')
                    &&& 0 <= i < items.len()
                    &&& text::parsed_unsigned(#[trigger] items[i], 4294967295) == Err::<nat, _>(
                        fault,
                    )
                    &&& forall|j: int|
                        0 <= j < i ==> text::parsed_unsigned(#[trigger] items[j], 4294967295) is Ok
                },
        },
{
    let items = text::list_items(contents@, '\n');
    text::law_items_are_the_pieces_that_are_not_blank(contents@, '\n');
    lemma_line_numbers(items);
    let spots = choose|spots: Seq<int>| #[trigger]
        text::are_spots(spots, items, contents@, '\n');
    assert(text::are_spots(spots, items, contents@, '\n'));
    if r is Ok {
        assert(read_from(r->Ok_0->0@, contents@));
    }
}

/// Numbers that are written one to a line are read back, however many they are.
pub proof fn law_history_reads_back(
    nums: Seq<u32>,
    contents: &str,
    r: Result<Option<Vec<u32>>, DbError>,
)
    requires
        nums.len() > 0,
        contents@ == text::joined(
            Seq::new(nums.len(), |i: int| text::decimal(nums[i] as nat)),
            '\n',
        ),
        call_ensures(parse_history, (Some(contents),), r),
    ensures
        r matches Ok(Some(v)) && v@ == nums,
{
    let lines = Seq::new(nums.len(), |i: int| text::decimal(nums[i] as nat));
    assert forall|i: int| 0 <= i < lines.len() implies (#[trigger] lines[i]).len() > 0
        && !lines[i].contains('\n') && !text::is_white_space(lines[i][0])
        && !text::is_white_space(lines[i].last()) by {
        let line = text::decimal(nums[i] as nat);
        text::lemma_decimal_digits(nums[i] as nat);
        assert(text::is_digit(line[0]));
        assert(text::is_digit(line[line.len() - 1]));
        assert forall|k: int| 0 <= k < line.len() implies line[k] != '\n' by {
            assert(text::is_digit(line[k]));
        }
    }
    text::law_list_reads_back(lines, '\n');
    lemma_line_numbers(lines);
    assert forall|i: int| 0 <= i < lines.len() implies text::parsed_unsigned(
        #[trigger] lines[i],
        4294967295,
    ) == Ok::<_, NumberFault>(nums[i] as nat) by {
        text::law_decimal_reads_back(nums[i] as nat);
    }
    let read = line_numbers(lines);
    if read is Err {
        let i = choose|i: int|
            {
                &&& 0 <= i < lines.len()
                &&& text::parsed_unsigned(#[trigger] lines[i], 4294967295) == Err::<nat, _>(
                    read->Err_0,
                )
                &&& forall|j: int|
                    0 <= j < i ==> text::parsed_unsigned(#[trigger] lines[j], 4294967295) is Ok
            };
        assert(text::parsed_unsigned(lines[i], 4294967295) is Ok);
    }
    assert forall|i: int| 0 <= i < nums.len() implies read->Ok_0[i] == nums[i] by {
        assert(text::parsed_unsigned(lines[i], 4294967295) == Ok::<_, NumberFault>(
            nums[i] as nat,
        ));
    }
    assert(read->Ok_0 =~= nums);
}

/// Taking a history file over puts every number in it on record, as mailed at a time that nobody
/// knows, and touches no record that was there. The count is that of the numbers. Where there is no
/// file, or where it cannot be read, nothing changes.
pub proof fn law_history_is_taken_over_whole(
    db: &mut Store,
    contents: Option<&str>,
    r: Result<Option<usize>, DbError>,
)
    requires
        call_ensures(take_over_history, (db, contents), r),
    ensures
        contents is None ==> r == Ok::<_, DbError>(None::<usize>) && final(db).comics()
            == old(db).comics(),
        contents is Some ==> match r {
            Ok(count) => count is Some && exists|nums: Seq<u32>|
                {
                    &&& #[trigger] read_from(nums, contents->0@)
                    &&& nums.len() == count->0
                    &&& forall|n: u32|
                        final(db).comics().contains_key(n) <==> old(db).comics().contains_key(n)
                            || #[trigger] nums.contains(n)
                },
            Err(e) => e is InvalidHistory ==> final(db).comics() == old(db).comics(),
        },
        r is Ok ==> forall|n: u32| #[trigger]
            old(db).comics().contains_key(n) ==> final(db).comics()[n] == old(db).comics()[n],
        r is Ok ==> forall|n: u32| #[trigger]
            final(db).comics().contains_key(n) && !old(db).comics().contains_key(n)
                ==> final(db).comics()[n] == record_json(
                (ComicRecord {
                    num: n,
                    first_seen_utc: 0,
                    image_downloaded: false,
                    email_sent: true,
                    email_sent_utc: None,
                }),
            ),
{
    if contents is Some {
        let items = text::list_items(contents->0@, '\n');
        text::law_items_are_the_pieces_that_are_not_blank(contents->0@, '\n');
        lemma_line_numbers(items);
        let spots = choose|spots: Seq<int>| #[trigger]
            text::are_spots(spots, items, contents->0@, '\n');
        assert(text::are_spots(spots, items, contents->0@, '\n'));
        if r is Ok {
            let nums = line_numbers(items)->Ok_0;
            assert(read_from(nums, contents->0@));
        }
    }
}

/// Numbers that are handed over are put on record like those of a file, all of them.
pub proof fn law_migration_takes_all_over(db: &mut Store, nums: &Vec<u32>, r: Result<(), DbError>)
    requires
        call_ensures(migrate_history_file, (db, nums), r),
    ensures
        r is Ok ==> forall|n: u32|
            final(db).comics().contains_key(n) <==> old(db).comics().contains_key(n)
                || #[trigger] nums@.contains(n),
        r is Ok ==> forall|n: u32| #[trigger]
            old(db).comics().contains_key(n) ==> final(db).comics()[n] == old(db).comics()[n],
        r is Ok ==> forall|n: u32| #[trigger]
            final(db).comics().contains_key(n) && !old(db).comics().contains_key(n)
                ==> final(db).comics()[n] == record_json(
                (ComicRecord {
                    num: n,
                    first_seen_utc: 0,
                    image_downloaded: false,
                    email_sent: true,
                    email_sent_utc: None,
                }),
            ),
        r matches Err(e) && !(e is CommitMigration) ==> final(db).comics() == old(db).comics(),
{
}

/// Recording a comic puts its number on record, with the time and with nothing done about it yet,
/// and changes nothing about other comics. If it fails before the end, nothing changes.
pub proof fn law_comic_is_put_on_record(
    db: &mut Store,
    comic: &Comic,
    now: i64,
    r: Result<(), DbError>,
)
    requires
        call_ensures(record_first_seen, (db, comic, now), r),
    ensures
        r is Ok ==> {
            &&& final(db).comics().contains_key(comic.num)
            &&& final(db).comics()[comic.num] == record_json(
                (ComicRecord {
                    num: comic.num,
                    first_seen_utc: now,
                    image_downloaded: false,
                    email_sent: false,
                    email_sent_utc: None,
                }),
            )
            &&& forall|n: u32|
                n != comic.num ==> {
                    &&& #[trigger] final(db).comics().contains_key(n)
                        <==> old(db).comics().contains_key(n)
                    &&& final(db).comics()[n] == old(db).comics()[n]
                }
        },
        r matches Err(e) && !(e is CommitRecord) ==> final(db).comics() == old(db).comics(),
        final(db).file() == old(db).file(),
{
}

/// A comic that was recorded is found, and one that was neither there before nor recorded is not.
pub proof fn law_what_was_recorded_is_found(
    db: &mut Store,
    comic: &Comic,
    now: i64,
    after: &Store,
    other: &Comic,
    seen: bool,
    last: Option<u32>,
)
    requires
        call_ensures(record_first_seen, (db, comic, now), Ok(())),
        *after == *final(db),
        call_ensures(is_seen, (after, other), Ok(seen)),
        call_ensures(last_seen_num, (after,), Ok(last)),
    ensures
        seen <==> other.num == comic.num || old(db).comics().contains_key(other.num),
        last matches Some(n) && n >= comic.num,
{
    assert(after.comics().contains_key(comic.num));
    if last is None {
        assert(after.comics() == Map::<u32, Seq<char>>::empty());
    }
}

/// The last number is that of a comic on record which no other comic on record exceeds, and there
/// is none exactly if nothing is on record.
pub proof fn law_last_is_the_greatest(db: &Store, last: Option<u32>, n: u32)
    requires
        call_ensures(last_seen_num, (db,), Ok(last)),
    ensures
        last matches Some(m) ==> db.comics().contains_key(m),
        db.comics().contains_key(n) ==> (last matches Some(m) && n <= m),
{
}

/// Recording a download or a mailing of a comic whose record is stored as `to_json` writes it
/// changes what it says about that, and nothing else, neither in the record nor about other
/// comics. The decoder is one that reads back what `to_json` writes.
pub proof fn law_progress_is_put_on_record<D: Fn(&str) -> Result<ComicRecord, String>>(
    db: &mut Store,
    other_db: &mut Store,
    num: u32,
    now: i64,
    decode: D,
    record: ComicRecord,
)
    requires
        reads_back(decode),
        old(db).comics().contains_key(num),
        old(db).comics()[num] == record_json(record),
        old(other_db).comics() == old(db).comics(),
        call_ensures(record_download_success::<D>, (db, num, decode), Ok(())),
        call_ensures(record_email_success::<D>, (other_db, num, now, decode), Ok(())),
    ensures
        final(db).comics() == old(db).comics().insert(
            num,
            record_json(
                (ComicRecord {
                    num: record.num,
                    first_seen_utc: record.first_seen_utc,
                    image_downloaded: true,
                    email_sent: record.email_sent,
                    email_sent_utc: record.email_sent_utc,
                }),
            ),
        ),
        final(other_db).comics() == old(db).comics().insert(
            num,
            record_json(
                (ComicRecord {
                    num: record.num,
                    first_seen_utc: record.first_seen_utc,
                    image_downloaded: record.image_downloaded,
                    email_sent: true,
                    email_sent_utc: Some(now),
                }),
            ),
        ),
{
    law_update_keeps_what_was_stored(
        old(db).comics(),
        final(db).comics(),
        num,
        decode,
        Progress::Downloaded,
        record,
    );
    law_update_keeps_what_was_stored(
        old(other_db).comics(),
        final(other_db).comics(),
        num,
        decode,
        Progress::Mailed(now),
        record,
    );
}

/// An update that fails before the end changes nothing. It fails for want of a record exactly
/// where there is none, and it never succeeds there.
pub proof fn law_failed_update_changes_nothing<D: Fn(&str) -> Result<ComicRecord, String>>(
    db: &mut Store,
    num: u32,
    decode: D,
    progress: Progress,
    r: Result<(), DbError>,
)
    requires
        call_ensures(update_record::<D>, (db, num, decode, progress), r),
    ensures
        r matches Err(e) && !(e is CommitUpdate) ==> final(db).comics() == old(db).comics(),
        r matches Err(DbError::NotFound(n)) ==> n == num && !old(db).comics().contains_key(num),
        r is Ok ==> old(db).comics().contains_key(num),
        forall|n: u32| #[trigger]
            final(db).comics().contains_key(n) <==> old(db).comics().contains_key(n),
        forall|n: u32|
            n != num && #[trigger] old(db).comics().contains_key(n) ==> final(db).comics()[n]
                == old(db).comics()[n],
{
}

/// The JSON of a record tells each of its fields under its own name, and starts and ends as an
/// object does.
pub proof fn law_json_tells_each_field(record: &ComicRecord, json: String)
    requires
        call_ensures(to_json, (record,), json),
    ensures
        text::holds(json@, "{\"num\":"@ + text::decimal(record.num as nat)),
        text::holds(
            json@,
            ",\"first_seen_utc\":"@ + text::signed_decimal(record.first_seen_utc as int),
        ),
        text::holds(
            json@,
            ",\"image_downloaded\":"@ + if record.image_downloaded {
                "true"@
            } else {
                "false"@
            },
        ),
        text::holds(
            json@,
            ",\"email_sent\":"@ + if record.email_sent {
                "true"@
            } else {
                "false"@
            },
        ),
        text::holds(
            json@,
            ",\"email_sent_utc\":"@ + match record.email_sent_utc {
                Some(t) => text::signed_decimal(t as int),
                None => "null"@,
            },
        ),
        json@.len() > 0 && json@[0] == '{' && json@.last() == '}',
{
    lemma_five_fields(
        "{\"num\":"@,
        text::decimal(record.num as nat),
        ",\"first_seen_utc\":"@,
        text::signed_decimal(record.first_seen_utc as int),
        ",\"image_downloaded\":"@,
        bool_json(record.image_downloaded),
        ",\"email_sent\":"@,
        bool_json(record.email_sent),
        ",\"email_sent_utc\":"@,
        time_json(record.email_sent_utc),
        "}"@,
    );
    reveal_strlit("{\"num\":");
    reveal_strlit("}");
}

/// Labels and values in a row hold each label with its value.
proof fn lemma_five_fields(
    l0: Seq<char>,
    v0: Seq<char>,
    l1: Seq<char>,
    v1: Seq<char>,
    l2: Seq<char>,
    v2: Seq<char>,
    l3: Seq<char>,
    v3: Seq<char>,
    l4: Seq<char>,
    v4: Seq<char>,
    end: Seq<char>,
)
    ensures
        ({
            let whole = l0 + v0 + l1 + v1 + l2 + v2 + l3 + v3 + l4 + v4 + end;
            &&& text::holds(whole, l0 + v0)
            &&& text::holds(whole, l1 + v1)
            &&& text::holds(whole, l2 + v2)
            &&& text::holds(whole, l3 + v3)
            &&& text::holds(whole, l4 + v4)
            &&& l0.len() > 0 ==> whole[0] == l0[0]
            &&& end.len() > 0 ==> whole.last() == end.last()
        }),
{
    let p0 = l0 + v0;
    let p1 = p0 + l1 + v1;
    let p2 = p1 + l2 + v2;
    let p3 = p2 + l3 + v3;
    let p4 = p3 + l4 + v4;
    assert(text::holds(p0, l0 + v0)) by {
        text::lemma_holds_end(Seq::empty(), l0, v0);
        assert(Seq::<char>::empty() + l0 =~= l0);
    }
    text::lemma_holds_end(p0, l1, v1);
    text::lemma_holds_end(p1, l2, v2);
    text::lemma_holds_end(p2, l3, v3);
    text::lemma_holds_end(p3, l4, v4);
    lemma_holds_rest(p0, l0 + v0, l1, v1);
    lemma_holds_rest(p1, l0 + v0, l2, v2);
    lemma_holds_rest(p2, l0 + v0, l3, v3);
    lemma_holds_rest(p3, l0 + v0, l4, v4);
    lemma_holds_rest(p1, l1 + v1, l2, v2);
    lemma_holds_rest(p2, l1 + v1, l3, v3);
    lemma_holds_rest(p3, l1 + v1, l4, v4);
    lemma_holds_rest(p2, l2 + v2, l3, v3);
    lemma_holds_rest(p3, l2 + v2, l4, v4);
    lemma_holds_rest(p3, l3 + v3, l4, v4);
    text::lemma_holds_more(p4, l0 + v0, end);
    text::lemma_holds_more(p4, l1 + v1, end);
    text::lemma_holds_more(p4, l2 + v2, end);
    text::lemma_holds_more(p4, l3 + v3, end);
    text::lemma_holds_more(p4, l4 + v4, end);
    if l0.len() > 0 {
        assert(p0[0] == l0[0]);
        assert(p1[0] == l0[0]);
        assert(p2[0] == l0[0]);
        assert(p3[0] == l0[0]);
        assert(p4[0] == l0[0]);
    }
}

proof fn lemma_holds_rest(whole: Seq<char>, part: Seq<char>, label: Seq<char>, value: Seq<char>)
    requires
        text::holds(whole, part),
    ensures
        text::holds(whole + label + value, part),
{
    text::lemma_holds_more(whole, part, label);
    text::lemma_holds_more(whole + label, part, value);
}

/// A dump adds one line for each record to what was there, all of them and in the order of the
/// numbers: taken apart at the ends of lines it is the stored texts, if these are of one line each.
pub proof fn law_dump_is_a_line_for_each_record(
    db: &Store,
    out: &mut String,
    order: Seq<u32>,
)
    requires
        call_ensures(cmd_dump, (db, out), Ok(())),
        forall|i: int, j: int| 0 <= i < j < order.len() ==> order[i] < order[j],
        forall|n: u32| #[trigger] order.contains(n) <==> db.comics().contains_key(n),
        forall|n: u32| #[trigger] db.comics().contains_key(n) ==> !db.comics()[n].contains('\n'),
    ensures
        exists|added: Seq<char>|
            {
                &&& final(out)@ == #[trigger] (old(out)@ + added)
                &&& text::pieces(added, '\n') == Seq::new(
                    order.len(),
                    |i: int| db.comics()[order[i]],
                ).push(Seq::<char>::empty())
            },
{
    let entries = choose|entries: Seq<(u32, Seq<char>)>| #[trigger]
        lists(entries, db.comics()) && final(out)@ == old(out)@ + dump_text(entries);
    let expected = Seq::new(order.len(), |i: int| (order[i], db.comics()[order[i]]));
    assert(lists(expected, db.comics())) by {
        assert forall|i: int, j: int| 0 <= i < j < expected.len() implies (
        #[trigger] expected[i]).0 < (#[trigger] expected[j]).0 by {
            assert(order[i] < order[j]);
        }
        assert forall|i: int| 0 <= i < expected.len() implies db.comics().contains_key(
            (#[trigger] expected[i]).0,
        ) && db.comics()[expected[i].0] == expected[i].1 by {
            assert(order.contains(order[i]));
        }
        assert forall|n: u32| #[trigger] db.comics().contains_key(n) implies exists|i: int|
            0 <= i < expected.len() && (#[trigger] expected[i]).0 == n by {
            assert(order.contains(n));
            let i = choose|i: int| 0 <= i < order.len() && order[i] == n;
            assert(expected[i].0 == n);
        }
    }
    law_listing_is_unique(entries, expected, db.comics());
    let texts = Seq::new(order.len(), |i: int| db.comics()[order[i]]);
    assert forall|i: int| 0 <= i < expected.len() implies !(#[trigger] expected[i]).1.contains(
        '\n',
    ) by {
        assert(db.comics().contains_key(expected[i].0));
    }
    lemma_dump_comes_apart(expected);
    assert(Seq::new(expected.len(), |i: int| expected[i].1) =~= texts);
    let added = dump_text(expected);
    assert(final(out)@ == old(out)@ + added);
}

proof fn lemma_dump_comes_apart(entries: Seq<(u32, Seq<char>)>)
    requires
        forall|i: int| 0 <= i < entries.len() ==> !(#[trigger] entries[i]).1.contains('\n'),
    ensures
        dump_text(entries) == text::joined(
            Seq::new(entries.len(), |i: int| entries[i].1).push(Seq::<char>::empty()),
            '\n',
        ),
        text::pieces(dump_text(entries), '\n') == Seq::new(
            entries.len(),
            |i: int| entries[i].1,
        ).push(Seq::<char>::empty()),
    decreases entries.len(),
{
    let lines = Seq::new(entries.len(), |i: int| entries[i].1);
    let parts = lines.push(Seq::<char>::empty());
    assert(parts.drop_last() =~= lines);
    reveal_strlit("\n");
    if entries.len() == 0 {
        assert(dump_text(entries) =~= text::joined(parts, '\n'));
    } else {
        let before = entries.drop_last();
        assert forall|i: int| 0 <= i < before.len() implies !(#[trigger] before[i]).1.contains(
            '\n',
        ) by {
            assert(before[i] == entries[i]);
        }
        lemma_dump_comes_apart(before);
        let old_lines = Seq::new(before.len(), |i: int| before[i].1);
        assert(lines.drop_last() =~= old_lines);
        let old_parts = old_lines.push(Seq::<char>::empty());
        assert(old_parts.drop_last() =~= old_lines);
        assert(dump_text(before) == text::joined(old_parts, '\n'));
        lemma_joined_push(old_lines, entries.last().1);
        assert(lines =~= old_lines.push(entries.last().1));
        assert(text::joined(lines, '\n') =~= dump_text(before) + entries.last().1);
        assert(text::joined(parts, '\n') =~= text::joined(lines, '\n').push('\n'));
        assert(dump_text(entries) =~= text::joined(parts, '\n'));
    }
    assert forall|i: int| 0 <= i < parts.len() implies !(#[trigger] parts[i]).contains('\n') by {
        if i < entries.len() {
            assert(parts[i] == entries[i].1);
        }
    }
    text::law_joined_comes_apart(parts, '\n');
}

/// A line behind others stands where the empty line behind them stood.
proof fn lemma_joined_push(lines: Seq<Seq<char>>, line: Seq<char>)
    ensures
        text::joined(lines.push(line), '\n') == text::joined(
            lines.push(Seq::<char>::empty()),
            '\n',
        ) + line,
{
    let a = lines.push(line);
    let b = lines.push(Seq::<char>::empty());
    assert(a.drop_last() =~= lines);
    assert(b.drop_last() =~= lines);
    assert(text::joined(a, '\n') =~= text::joined(b, '\n') + line);
}

/// What a query gave is taken as it is: a text, the want of one, or why there is none.
pub proof fn law_query_is_taken_as_it_is(
    json: String,
    num: u32,
    open: redb::TableError,
    storage: redb::StorageError,
    texts: (Result<String, DbError>, Result<String, DbError>),
    faults: (Result<String, DbError>, Result<String, DbError>),
    answers: (Result<bool, DbError>, Result<bool, DbError>, Result<bool, DbError>),
)
    requires
        call_ensures(found, (Ok(Some(json)), num), texts.0),
        call_ensures(found, (Ok(None), num), texts.1),
        call_ensures(found, (Err(TableFault::Open(open)), num), faults.0),
        call_ensures(found, (Err(TableFault::Storage(storage)), num), faults.1),
        call_ensures(seen_in, (Ok(Some(json)),), answers.0),
        call_ensures(seen_in, (Ok(None),), answers.1),
        call_ensures(seen_in, (Err(storage),), answers.2),
    ensures
        texts.0 == Ok::<_, DbError>(json),
        texts.1 == Err::<String, _>(DbError::NotFound(num)),
        faults.0 == Err::<String, _>(DbError::Open(open)),
        faults.1 == Err::<String, _>(DbError::Query(storage)),
        answers.0 == Ok::<_, DbError>(true),
        answers.1 == Ok::<_, DbError>(false),
        answers.2 == Err::<bool, _>(DbError::Query(storage)),
{
}

/// A record is stored again as `to_json` writes it with the progress made, and what could not be
/// read is not stored.
pub proof fn law_record_is_rewritten(
    record: ComicRecord,
    now: i64,
    cause: String,
    progress: Progress,
    downloaded: Result<String, DbError>,
    mailed: Result<String, DbError>,
    failed: Result<String, DbError>,
)
    requires
        call_ensures(rewritten, (Ok(record), Progress::Downloaded), downloaded),
        call_ensures(rewritten, (Ok(record), Progress::Mailed(now)), mailed),
        call_ensures(rewritten, (Err(cause), progress), failed),
    ensures
        downloaded matches Ok(json) && json@ == record_json(
            (ComicRecord { image_downloaded: true, ..record }),
        ),
        mailed matches Ok(json) && json@ == record_json(
            (ComicRecord { email_sent: true, email_sent_utc: Some(now), ..record }),
        ),
        failed == Err::<String, _>(DbError::Decode(cause)),
{
}

/// A history file keeps its name once it was taken over, with an ending behind it.
pub proof fn law_backup_keeps_the_name(path: &str, backup: String)
    requires
        call_ensures(migrated_path, (path,), backup),
    ensures
        backup@.len() == path@.len() + 9,
        backup@.take(path@.len() as int) == path@,
        backup@.skip(path@.len() as int) == seq!['.', 'm', 'i', 'g', 'r', 'a', 't', 'e', 'd'],
{
    reveal_strlit(".migrated");
    assert(".migrated"@ =~= seq!['.', 'm', 'i', 'g', 'r', 'a', 't', 'e', 'd']);
    assert(backup@.take(path@.len() as int) =~= path@);
    assert(backup@.skip(path@.len() as int) =~= ".migrated"@);
}

/// What the reader is told names the comic and the file that it is about.
pub proof fn law_messages_name_what_they_are_about(
    num: u32,
    path: String,
    cause: redb::DatabaseError,
)
    ensures
        text::holds(DbError::NotFound(num).text(), text::decimal(num as nat)),
        text::holds(DbError::Create(path, cause).text(), path@),
{
    let number = text::decimal(num as nat);
    text::lemma_holds_end("comic #"@, number, Seq::empty());
    text::lemma_holds_more("comic #"@ + number, number, " not found in database for update"@);
    text::lemma_holds_end("failed to open database at "@, path@, Seq::empty());
}

/// Each failure is told in its own words.
pub proof fn law_database_failures_have_their_words(error: &DbError, s: String)
    requires
        call_ensures(DbError::message, (error,), s),
    ensures
        error matches DbError::Create(path, _) ==> s@ == "failed to open database at "@ + path@,
        error is BeginRead ==> s@ == "failed to begin read transaction"@,
        error is BeginWrite ==> s@ == "failed to begin write transaction"@,
        error is BeginMigration ==> s@ == "failed to begin migration write transaction"@,
        error is Open ==> s@ == "failed to open comics table"@,
        error is OpenForMigration ==> s@ == "failed to open comics table for migration"@,
        error is Query ==> s@ == "failed to query comics table"@,
        error is InsertMigrated ==> s@ == "failed to insert migrated record"@,
        error is InsertRecord ==> s@ == "failed to insert comic record"@,
        error is UpdateRecord ==> s@ == "failed to update comic record"@,
        error is CommitMigration ==> s@ == "failed to commit migration transaction"@,
        error is CommitRecord ==> s@ == "failed to commit comic record"@,
        error is CommitUpdate ==> s@ == "failed to commit comic record update"@,
        error is Last ==> s@ == "failed to read last entry from comics table"@,
        error is Iterate ==> s@ == "failed to iterate comics table"@,
        error is Entry ==> s@ == "failed to read comics table entry"@,
        error matches DbError::NotFound(num) ==> s@ == "comic #"@ + text::decimal(num as nat)
            + " not found in database for update"@,
        error is Decode ==> s@ == "failed to deserialize comic record"@,
        error is InvalidHistory ==> s@ == "invalid comic number in legacy history file"@,
{
}

/// Progress changes what it is about and nothing else, to happen twice is to happen once, and it
/// makes no difference whether a comic is downloaded or mailed first.
pub proof fn law_progress_is_about_its_own(
    record: ComicRecord,
    now: i64,
    downloaded: ComicRecord,
    mailed: ComicRecord,
    again: ComicRecord,
    both: ComicRecord,
    other_way: ComicRecord,
)
    requires
        call_ensures(Progress::apply, (Progress::Downloaded, record), downloaded),
        call_ensures(Progress::apply, (Progress::Downloaded, downloaded), again),
        call_ensures(Progress::apply, (Progress::Mailed(now), record), mailed),
        call_ensures(Progress::apply, (Progress::Mailed(now), downloaded), both),
        call_ensures(Progress::apply, (Progress::Downloaded, mailed), other_way),
    ensures
        downloaded.image_downloaded,
        downloaded.num == record.num,
        downloaded.first_seen_utc == record.first_seen_utc,
        downloaded.email_sent == record.email_sent,
        downloaded.email_sent_utc == record.email_sent_utc,
        again == downloaded,
        mailed.email_sent,
        mailed.email_sent_utc == Some(now),
        mailed.num == record.num,
        mailed.first_seen_utc == record.first_seen_utc,
        mailed.image_downloaded == record.image_downloaded,
        both == other_way,
{
}

impl Store {
    /// What was committed to the table of that name.
    pub closed spec fn table(self, name: Seq<char>) -> Map<u32, Seq<char>> {
        committed(self.inner, name)
    }
}

/// The records of the comics are in the table `comics`, and the database that was opened is the
/// one in that file, with nothing under way on it.
pub proof fn law_comics_are_in_their_table(path: &str, r: Result<Store, DbError>)
    requires
        call_ensures(open_db, (path,), r),
    ensures
        match r {
            Ok(store) => store.comics() == store.table("comics"@) && store.file() == path@
                && store.idle(),
            Err(error) => error matches DbError::Create(p, _) && p@ == path@,
        },
{
}

} // verus!
