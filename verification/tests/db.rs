use ferrous_comics::db::{
    cmd_dump, found, is_seen, last_seen_num, migrate_history_file, migrated_path, open_db,
    parse_history, record_download_success, record_email_success, record_first_seen, rewritten,
    seen_in, take_over_history, to_json, update_record, ComicRecord, DbError, Progress, Store, TableFault,
    COMICS_TABLE,
};
use ferrous_comics::http::Comic;
use ferrous_comics::text::NumberFault;
use redb::{CommitError, Database, StorageError, TableDefinition, TableError, TransactionError};

const NOW: i64 = 1_742_000_000;

fn make_comic(num: u32) -> Comic {
    Comic {
        num,
        safe_title: "Test Comic".to_string(),
        img: "https://imgs.xkcd.com/comics/test.png".to_string(),
        alt: "Alt text here".to_string(),
        year: "2025".to_string(),
        month: "3".to_string(),
        day: "15".to_string(),
    }
}

fn make_db() -> (tempfile::TempDir, Store) {
    let dir = tempfile::TempDir::new().unwrap();
    let db = open_db(&file_in(&dir)).unwrap();
    (dir, db)
}

fn file_in(dir: &tempfile::TempDir) -> String {
    dir.path().join("test.db").to_str().unwrap().to_string()
}

fn record(db: &mut Store, comic: &Comic) -> Result<(), DbError> {
    record_first_seen(db, comic, NOW)
}

fn migrate(db: &mut Store, contents: &str) -> Result<(), DbError> {
    take_over_history(db, Some(contents)).map(|_| ())
}

/// All records, each on a line.
fn dumped(db: &Store) -> String {
    let mut out = String::new();
    cmd_dump(db, &mut out).unwrap();
    out
}

/// What is stored about a comic.
fn stored(db: &Store, num: u32) -> String {
    let text = dumped(db);
    let line = text.lines().find(|line| decode(line).unwrap().num == num).unwrap();
    line.to_string()
}

fn decode(json: &str) -> Result<ComicRecord, String> {
    let value: serde_json::Value = serde_json::from_str(json).map_err(|e| e.to_string())?;
    let field = |key: &str| value.get(key).ok_or_else(|| format!("missing field `{key}`"));
    let wrong = |key: &str| format!("invalid field `{key}`");
    Ok(ComicRecord {
        num: field("num")?
            .as_u64()
            .and_then(|n| u32::try_from(n).ok())
            .ok_or_else(|| wrong("num"))?,
        first_seen_utc: field("first_seen_utc")?
            .as_i64()
            .ok_or_else(|| wrong("first_seen_utc"))?,
        image_downloaded: field("image_downloaded")?
            .as_bool()
            .ok_or_else(|| wrong("image_downloaded"))?,
        email_sent: field("email_sent")?.as_bool().ok_or_else(|| wrong("email_sent"))?,
        email_sent_utc: match value.get("email_sent_utc") {
            None | Some(serde_json::Value::Null) => None,
            Some(t) => Some(t.as_i64().ok_or_else(|| wrong("email_sent_utc"))?),
        },
    })
}

fn storage_error() -> StorageError {
    StorageError::Corrupted("bad page".to_string())
}

#[test]
fn is_seen_empty_db() {
    let (_dir, mut db) = make_db();
    let comic = make_comic(42);
    assert!(!is_seen(&db, &comic).unwrap());
}

#[test]
fn is_seen_after_record() {
    let (_dir, mut db) = make_db();
    let comic = make_comic(42);
    record(&mut db, &comic).unwrap();
    assert!(is_seen(&db, &comic).unwrap());
}

#[test]
fn record_first_seen_fields() {
    let (_dir, mut db) = make_db();
    let comic = make_comic(100);
    record(&mut db, &comic).unwrap();

    let rec = decode(&stored(&db, 100)).unwrap();

    assert_eq!(rec.num, 100);
    assert!(!rec.email_sent);
    assert!(!rec.image_downloaded);
}

#[test]
fn record_download_success_sets_flag() {
    let (_dir, mut db) = make_db();
    let comic = make_comic(7);
    record(&mut db, &comic).unwrap();
    record_download_success(&mut db, 7, decode).unwrap();

    let rec = decode(&stored(&db, 7)).unwrap();
    assert!(rec.image_downloaded);
}

#[test]
fn record_email_success_sets_flag() {
    let (_dir, mut db) = make_db();
    let comic = make_comic(8);
    record(&mut db, &comic).unwrap();
    record_email_success(&mut db, 8, NOW, decode).unwrap();

    let rec = decode(&stored(&db, 8)).unwrap();
    assert!(rec.email_sent);
    assert!(rec.email_sent_utc.is_some());
}

#[test]
fn cmd_dump_output() {
    let (_dir, mut db) = make_db();
    // Insert in descending order to prove dump outputs in ascending key order, not insertion order
    let c2 = make_comic(2);
    let c1 = make_comic(1);
    record(&mut db, &c2).unwrap();
    record(&mut db, &c1).unwrap();

    let mut text = String::new();
    cmd_dump(&db, &mut text).unwrap();
    let lines: Vec<&str> = text.lines().collect();
    assert_eq!(lines.len(), 2);
    assert!(lines[0].contains("\"num\":1"), "expected num:1 first (ascending order)");
    assert!(lines[1].contains("\"num\":2"), "expected num:2 second (ascending order)");
}

#[test]
fn cmd_dump_empty_db() {
    let (_dir, mut db) = make_db();
    let mut out = String::new();
    cmd_dump(&db, &mut out).unwrap();
    assert!(out.is_empty());
}

#[test]
fn migrate_noop_if_no_file() {
    let (_dir, mut db) = make_db();
    let path = std::path::Path::new("/nonexistent/path/history.txt");
    let result = take_over_history(&mut db, if path.exists() { Some("7") } else { None });
    assert!(result.is_ok());
    assert_eq!(result.unwrap(), None);
    assert!(dumped(&db).is_empty());
}

#[test]
fn migrate_imports_records() {
    let (_dbdir, mut db) = make_db();
    migrate(&mut db, "100\n200\n300\n").unwrap();
    assert_eq!(migrated_path("xkcd_history.txt"), "xkcd_history.txt.migrated");

    for num in [100u32, 200, 300] {
        let rec = decode(&stored(&db, num)).unwrap();
        assert_eq!(rec.num, num);
        assert!(rec.email_sent, "migrated record should have email_sent=true");
        assert_eq!(rec.first_seen_utc, 0, "migrated record should have first_seen_utc=0");
    }
}

#[test]
fn migrate_skips_duplicates() {
    let (_dbdir, mut db) = make_db();

    // Pre-insert comic 100 with email_sent=false
    let comic = make_comic(100);
    record(&mut db, &comic).unwrap();

    migrate(&mut db, "100\n").unwrap();

    // The existing record should NOT be overwritten (email_sent stays false)
    let rec = decode(&stored(&db, 100)).unwrap();
    assert!(!rec.email_sent);
}

#[test]
fn migrate_invalid_line() {
    let (_dbdir, mut db) = make_db();
    let result = migrate(&mut db, "not_a_number\n");
    assert!(result.is_err());
}

#[test]
fn last_seen_num_empty() {
    let (_dir, mut db) = make_db();
    assert_eq!(last_seen_num(&db).unwrap(), None);
}

#[test]
fn last_seen_num_multiple() {
    let (_dir, mut db) = make_db();
    // Insert out of order to confirm max, not insertion-last
    record(&mut db, &make_comic(3)).unwrap();
    record(&mut db, &make_comic(1)).unwrap();
    record(&mut db, &make_comic(2)).unwrap();
    assert_eq!(last_seen_num(&db).unwrap(), Some(3));
}

#[test]
fn backfill_404_marked_seen() {
    let (_dir, mut db) = make_db();
    let placeholder = make_comic(404);
    record(&mut db, &placeholder).unwrap();
    assert!(is_seen(&db, &placeholder).unwrap());
    // email_sent should be false — a 404 placeholder was never emailed
    let rec = decode(&stored(&db, 404)).unwrap();
    assert!(!rec.email_sent);
}

#[test]
fn records_as_json() {
    let record = ComicRecord {
        num: 42,
        first_seen_utc: NOW,
        image_downloaded: true,
        email_sent: false,
        email_sent_utc: None,
    };
    assert_eq!(
        to_json(&record),
        r#"{"num":42,"first_seen_utc":1742000000,"image_downloaded":true,"email_sent":false,"email_sent_utc":null}"#
    );
    let record = ComicRecord {
        num: u32::MAX,
        first_seen_utc: i64::MIN,
        image_downloaded: false,
        email_sent: true,
        email_sent_utc: Some(i64::MAX),
    };
    assert_eq!(
        to_json(&record),
        r#"{"num":4294967295,"first_seen_utc":-9223372036854775808,"image_downloaded":false,"email_sent":true,"email_sent_utc":9223372036854775807}"#
    );
}

#[test]
fn records_read_back() {
    for num in [0, 1, 10, 4_294_967_295u32] {
        for first_seen_utc in [0, -1, NOW, i64::MIN, i64::MAX] {
            for email_sent_utc in [None, Some(0), Some(-7), Some(NOW)] {
                for (image_downloaded, email_sent) in [(false, true), (true, false)] {
                    let record = ComicRecord {
                        num,
                        first_seen_utc,
                        image_downloaded,
                        email_sent,
                        email_sent_utc,
                    };
                    assert_eq!(decode(&to_json(&record)).unwrap(), record);
                }
            }
        }
    }
}

#[test]
fn what_is_stored() {
    let (_dir, mut db) = make_db();
    record(&mut db, &make_comic(7)).unwrap();
    assert_eq!(
        stored(&db, 7),
        r#"{"num":7,"first_seen_utc":1742000000,"image_downloaded":false,"email_sent":false,"email_sent_utc":null}"#
    );
    record_download_success(&mut db, 7, decode).unwrap();
    record_email_success(&mut db, 7, NOW + 5, decode).unwrap();
    assert_eq!(
        stored(&db, 7),
        r#"{"num":7,"first_seen_utc":1742000000,"image_downloaded":true,"email_sent":true,"email_sent_utc":1742000005}"#
    );
    migrate(&mut db, "8").unwrap();
    assert_eq!(
        stored(&db, 8),
        r#"{"num":8,"first_seen_utc":0,"image_downloaded":false,"email_sent":true,"email_sent_utc":null}"#
    );
}

#[test]
fn order_of_progress_makes_no_difference() {
    let (_dir, mut db) = make_db();
    record(&mut db, &make_comic(1)).unwrap();
    record(&mut db, &make_comic(2)).unwrap();
    record_download_success(&mut db, 1, decode).unwrap();
    record_email_success(&mut db, 1, NOW, decode).unwrap();
    record_email_success(&mut db, 2, NOW, decode).unwrap();
    record_download_success(&mut db, 2, decode).unwrap();
    assert_eq!(stored(&db, 1).replace("\"num\":1", ""), stored(&db, 2).replace("\"num\":2", ""));
}

#[test]
fn an_update_touches_one_record() {
    let (_dir, mut db) = make_db();
    record(&mut db, &make_comic(1)).unwrap();
    record(&mut db, &make_comic(2)).unwrap();
    let before = stored(&db, 2);
    update_record(&mut db, 1, decode, Progress::Mailed(3)).unwrap();
    assert_eq!(stored(&db, 2), before);
    assert_eq!(decode(&stored(&db, 1)).unwrap().email_sent_utc, Some(3));
}

#[test]
fn recording_again_starts_anew() {
    let (_dir, mut db) = make_db();
    migrate(&mut db, "5").unwrap();
    record(&mut db, &make_comic(5)).unwrap();
    assert!(!decode(&stored(&db, 5)).unwrap().email_sent);
    assert!(is_seen(&db, &make_comic(5)).unwrap());
    assert!(!is_seen(&db, &make_comic(6)).unwrap());
}

#[test]
fn update_of_a_missing_record() {
    let (_dir, mut db) = make_db();
    let error = record_download_success(&mut db, 9, decode).unwrap_err();
    assert!(matches!(error, DbError::NotFound(9)));
    assert_eq!(error.message(), "comic #9 not found in database for update");
    assert!(!is_seen(&db, &make_comic(9)).unwrap());
}

#[test]
fn update_of_an_unreadable_record() {
    let (_dir, mut db) = make_db();
    record(&mut db, &make_comic(9)).unwrap();
    let before = stored(&db, 9);
    let garbled = |_: &str| Err("garbled".to_string());
    let error = record_email_success(&mut db, 9, NOW, garbled).unwrap_err();
    assert!(matches!(&error, DbError::Decode(cause) if cause == "garbled"));
    assert_eq!(error.message(), "failed to deserialize comic record");
    assert_eq!(stored(&db, 9), before);
}

#[test]
fn history_lines() {
    assert_eq!(parse_history(Some("")).unwrap(), Some(vec![]));
    assert_eq!(parse_history(Some("\n \r\n\t")).unwrap(), Some(vec![]));
    assert_eq!(parse_history(Some("3\r\n\r\n  +1 \n3")).unwrap(), Some(vec![3, 1, 3]));
    assert_eq!(parse_history(Some("4294967295\n")).unwrap(), Some(vec![u32::MAX]));
    for bad in ["4294967296", "-1", "1 2", "1\n2x\n3", "1.0", "\u{0661}"] {
        let error = parse_history(Some(bad)).unwrap_err();
        assert!(matches!(error, DbError::InvalidHistory(_)), "{bad:?}");
        assert_eq!(error.message(), "invalid comic number in legacy history file");
    }
}

#[test]
fn migration_can_be_repeated() {
    let (_dir, mut db) = make_db();
    record(&mut db, &make_comic(2)).unwrap();
    migrate(&mut db, "1\n2\n1\n").unwrap();
    let first = dumped(&db);
    migrate(&mut db, "1\n2\n1\n").unwrap();
    let second = dumped(&db);
    assert_eq!(first, second);
    assert_eq!(
        first,
        concat_lines(&[
            r#"{"num":1,"first_seen_utc":0,"image_downloaded":false,"email_sent":true,"email_sent_utc":null}"#,
            r#"{"num":2,"first_seen_utc":1742000000,"image_downloaded":false,"email_sent":false,"email_sent_utc":null}"#,
        ])
    );
}

fn concat_lines(lines: &[&str]) -> String {
    lines.iter().map(|line| format!("{line}\n")).collect()
}

#[test]
fn dump_adds_to_what_is_there() {
    let (_dir, mut db) = make_db();
    migrate(&mut db, "1").unwrap();
    let mut out = "before ".to_string();
    cmd_dump(&db, &mut out).unwrap();
    assert!(out.starts_with("before {\"num\":1,"));
    assert!(out.ends_with("}\n"));
}

#[test]
fn what_was_recorded_is_there_when_the_file_is_opened_again() {
    let (dir, mut db) = make_db();
    record(&mut db, &make_comic(1)).unwrap();
    migrate(&mut db, "2").unwrap();
    let text = dumped(&db);
    drop(db);
    let db = open_db(&file_in(&dir)).unwrap();
    assert_eq!(dumped(&db), text);
    assert_eq!(last_seen_num(&db).unwrap(), Some(2));
}

#[test]
fn what_the_file_holds() {
    let (dir, mut db) = make_db();
    record(&mut db, &make_comic(3)).unwrap();
    let json = stored(&db, 3);
    drop(db);
    let file = Database::open(file_in(&dir)).unwrap();
    let txn = file.begin_read().unwrap();
    let table = txn.open_table(TableDefinition::<u32, &str>::new("comics")).unwrap();
    assert_eq!(table.get(3).unwrap().unwrap().value(), json);
    assert!(table.get(4).unwrap().is_none());
}

#[test]
fn a_failed_update_leaves_the_database_usable() {
    let (_dir, mut db) = make_db();
    record(&mut db, &make_comic(1)).unwrap();
    let before = dumped(&db);
    assert!(record_email_success(&mut db, 2, NOW, decode).is_err());
    assert_eq!(dumped(&db), before);
    record(&mut db, &make_comic(2)).unwrap();
    record_email_success(&mut db, 2, NOW, decode).unwrap();
    assert!(is_seen(&db, &make_comic(2)).unwrap());
}

#[test]
fn an_empty_table_has_no_last_number() {
    let (_dir, mut db) = make_db();
    migrate(&mut db, "").unwrap();
    assert_eq!(last_seen_num(&db).unwrap(), None);
    assert!(!is_seen(&db, &make_comic(0)).unwrap());
    record(&mut db, &make_comic(0)).unwrap();
    assert_eq!(last_seen_num(&db).unwrap(), Some(0));
}

#[test]
fn a_table_of_another_kind_cannot_be_opened() {
    let dir = tempfile::TempDir::new().unwrap();
    let other = Database::create(file_in(&dir)).unwrap();
    let txn = other.begin_write().unwrap();
    txn.open_table(TableDefinition::<&str, u32>::new(COMICS_TABLE)).unwrap();
    txn.commit().unwrap();
    drop(other);

    let mut db = open_db(&file_in(&dir)).unwrap();
    let error = record(&mut db, &make_comic(1)).unwrap_err();
    assert!(matches!(error, DbError::Open(_)));
    assert_eq!(error.message(), "failed to open comics table");
    assert!(matches!(record_download_success(&mut db, 1, decode), Err(DbError::Open(_))));
    assert!(matches!(is_seen(&db, &make_comic(1)), Err(DbError::Open(_))));
    assert!(matches!(last_seen_num(&db), Err(DbError::Open(_))));
    let mut out = String::new();
    assert!(matches!(cmd_dump(&db, &mut out), Err(DbError::Open(_))));
    assert!(out.is_empty());
    for contents in ["", "7"] {
        let error = migrate(&mut db, contents).unwrap_err();
        assert!(matches!(error, DbError::OpenForMigration(_)));
        assert_eq!(error.message(), "failed to open comics table for migration");
    }
}

#[test]
fn a_directory_is_no_database() {
    let dir = tempfile::TempDir::new().unwrap();
    let path = dir.path().to_str().unwrap();
    match open_db(path) {
        Ok(_) => panic!("a directory was opened"),
        Err(error) => {
            assert!(matches!(error, DbError::Create(_, _)));
            assert_eq!(error.message(), format!("failed to open database at {path}"));
        }
    }
}

#[test]
fn a_file_is_opened_once_at_a_time() {
    let (dir, db) = make_db();
    assert!(open_db(&file_in(&dir)).is_err());
    drop(db);
    assert!(open_db(&file_in(&dir)).is_ok());
}

#[test]
fn what_a_query_gives() {
    assert_eq!(found(Ok(Some("{}".to_string())), 3).unwrap(), "{}");
    assert!(matches!(found(Ok(None), 3), Err(DbError::NotFound(3))));
    assert!(matches!(
        found(Err(TableFault::Storage(storage_error())), 3),
        Err(DbError::Query(_))
    ));
    assert!(matches!(
        found(Err(TableFault::Open(TableError::TableDoesNotExist("comics".to_string()))), 3),
        Err(DbError::Open(_))
    ));
    assert!(seen_in(Ok(Some(String::new()))).unwrap());
    assert!(!seen_in(Ok(None)).unwrap());
    assert!(matches!(seen_in(Err(storage_error())), Err(DbError::Query(_))));
}

#[test]
fn what_is_stored_after_progress() {
    let record = ComicRecord {
        num: 1,
        first_seen_utc: 2,
        image_downloaded: false,
        email_sent: false,
        email_sent_utc: None,
    };
    assert_eq!(
        rewritten(Ok(record), Progress::Downloaded).unwrap(),
        to_json(&ComicRecord { image_downloaded: true, ..record })
    );
    assert_eq!(
        rewritten(Ok(record), Progress::Mailed(4)).unwrap(),
        to_json(&ComicRecord { email_sent: true, email_sent_utc: Some(4), ..record })
    );
    assert!(matches!(
        rewritten(Err("bad".to_string()), Progress::Downloaded),
        Err(DbError::Decode(_))
    ));
}

#[test]
fn storage_error_messages() {
    for (error, message) in [
        (DbError::Query(storage_error()), "failed to query comics table"),
        (DbError::InsertMigrated(storage_error()), "failed to insert migrated record"),
        (DbError::InsertRecord(storage_error()), "failed to insert comic record"),
        (DbError::UpdateRecord(storage_error()), "failed to update comic record"),
        (DbError::Last(storage_error()), "failed to read last entry from comics table"),
        (DbError::Iterate(storage_error()), "failed to iterate comics table"),
        (DbError::Entry(storage_error()), "failed to read comics table entry"),
        (
            DbError::BeginRead(TransactionError::Storage(storage_error())),
            "failed to begin read transaction",
        ),
        (
            DbError::BeginWrite(TransactionError::Storage(storage_error())),
            "failed to begin write transaction",
        ),
        (
            DbError::BeginMigration(TransactionError::Storage(storage_error())),
            "failed to begin migration write transaction",
        ),
        (
            DbError::CommitRecord(CommitError::Storage(storage_error())),
            "failed to commit comic record",
        ),
        (
            DbError::CommitUpdate(CommitError::Storage(storage_error())),
            "failed to commit comic record update",
        ),
        (
            DbError::CommitMigration(CommitError::Storage(storage_error())),
            "failed to commit migration transaction",
        ),
    ] {
        assert_eq!(error.message(), message);
    }
}

#[test]
fn each_file_is_a_database_of_its_own() {
    let dir = tempfile::TempDir::new().unwrap();
    let file = |name: &str| dir.path().join(name).to_str().unwrap().to_string();
    let mut one = open_db(&file("one.db")).unwrap();
    let two = open_db(&file("two.db")).unwrap();
    record(&mut one, &make_comic(1)).unwrap();
    assert!(is_seen(&one, &make_comic(1)).unwrap());
    assert!(!is_seen(&two, &make_comic(1)).unwrap());
    drop(one);
    drop(two);
    assert!(is_seen(&open_db(&file("one.db")).unwrap(), &make_comic(1)).unwrap());
    assert!(!is_seen(&open_db(&file("two.db")).unwrap(), &make_comic(1)).unwrap());
}

#[test]
fn recorded_comics_stay_seen() {
    let (_dir, mut db) = make_db();
    record(&mut db, &make_comic(5)).unwrap();
    let garbled = |_: &str| Err("garbled".to_string());
    assert!(record_email_success(&mut db, 6, NOW, decode).is_err());
    assert!(record_download_success(&mut db, 5, garbled).is_err());
    assert!(migrate(&mut db, "6\nx").is_err());
    assert!(is_seen(&db, &make_comic(5)).unwrap());
    migrate(&mut db, "4\n5\n6").unwrap();
    record_email_success(&mut db, 6, NOW, decode).unwrap();
    record(&mut db, &make_comic(5)).unwrap();
    assert!(is_seen(&db, &make_comic(5)).unwrap());
}

#[test]
fn records_are_well_kept() {
    let (_dir, mut db) = make_db();
    migrate(&mut db, "3\n1").unwrap();
    record(&mut db, &make_comic(2)).unwrap();
    record(&mut db, &make_comic(4)).unwrap();
    record_download_success(&mut db, 1, decode).unwrap();
    record_email_success(&mut db, 2, NOW, decode).unwrap();
    record_email_success(&mut db, 3, NOW, decode).unwrap();
    assert!(record_email_success(&mut db, 9, NOW, decode).is_err());
    let text = dumped(&db);
    for (line, num) in text.lines().zip([1, 2, 3, 4]) {
        let rec = decode(line).unwrap();
        assert_eq!(rec.num, num);
        assert!(rec.email_sent_utc.is_none() || rec.email_sent);
        assert!(!rec.email_sent || rec.email_sent_utc.is_some() || rec.first_seen_utc == 0);
    }
    assert_eq!(text.lines().count(), 4);
}

#[test]
fn order_of_updates_makes_no_difference() {
    for (n, m) in [(1, 2), (2, 1), (1, 1)] {
        let (_dir_a, mut a) = make_db();
        let (_dir_b, mut b) = make_db();
        for db in [&mut a, &mut b] {
            record(db, &make_comic(1)).unwrap();
            migrate(db, "2").unwrap();
        }
        record_download_success(&mut a, n, decode).unwrap();
        record_email_success(&mut a, m, NOW, decode).unwrap();
        record_email_success(&mut b, m, NOW, decode).unwrap();
        record_download_success(&mut b, n, decode).unwrap();
        assert_eq!(dumped(&a), dumped(&b));
        if n == m {
            let rec = decode(&stored(&a, n)).unwrap();
            assert!(rec.image_downloaded && rec.email_sent);
            assert_eq!(rec.first_seen_utc, NOW);
        }
    }
}

#[test]
fn a_history_is_taken_over_whole_or_not_at_all() {
    let (_dir, mut db) = make_db();
    record(&mut db, &make_comic(1)).unwrap();
    let before = dumped(&db);
    assert!(take_over_history(&mut db, None).unwrap().is_none());
    assert_eq!(dumped(&db), before);
    assert!(matches!(
        take_over_history(&mut db, Some("2\n3x\n99999999999\n")),
        Err(DbError::InvalidHistory(NumberFault::InvalidDigit))
    ));
    assert!(matches!(
        take_over_history(&mut db, Some("2\n99999999999\n3x\n")),
        Err(DbError::InvalidHistory(NumberFault::TooLarge))
    ));
    assert_eq!(dumped(&db), before);
    assert_eq!(take_over_history(&mut db, Some("3\n\n1\n3\n")).unwrap(), Some(3));
    assert_eq!(last_seen_num(&db).unwrap(), Some(3));
    assert_eq!(dumped(&db).lines().count(), 2);
    assert!(dumped(&db).starts_with(&before));
    assert_eq!(parse_history(None).unwrap(), None);
    migrate_history_file(&mut db, &vec![9]).unwrap();
    assert_eq!(last_seen_num(&db).unwrap(), Some(9));
}
