//! Store-level tests against real SQLite database files.

use cookiecutter::cookie_db::{CookieDB, RawRow, StoreError, records_from_rows};
use cookiecutter::util::{parse_whitelist, DbType};

/// Create (or reset) a Gecko-style cookie database at `path` and fill it
/// with the given rows. Timestamps are stored in microseconds.
fn make_firefox_db(path: &str, rows: &[(&str, &str, &str, &str, i64, i64, i64, i64, i64, i64)]) {
    let conn = rusqlite::Connection::open(path).unwrap();
    conn.execute("DROP TABLE IF EXISTS moz_cookies;", []).unwrap();
    conn.execute(
        "CREATE TABLE moz_cookies (host TEXT, name TEXT, value TEXT, path TEXT, \
         creationTime INTEGER, expiry INTEGER, lastAccessed INTEGER, \
         isHttpOnly INTEGER, isSecure INTEGER, sameSite INTEGER);",
        [],
    )
    .unwrap();
    for r in rows {
        conn.execute(
            "INSERT INTO moz_cookies VALUES (?1,?2,?3,?4,?5,?6,?7,?8,?9,?10);",
            (&r.0, &r.1, &r.2, &r.3, &r.4, &r.5, &r.6, &r.7, &r.8, &r.9),
        )
        .unwrap();
    }
}

fn firefox_row_count(path: &str) -> i64 {
    let conn = rusqlite::Connection::open(path).unwrap();
    conn.query_row("SELECT COUNT(*) FROM moz_cookies;", [], |row| row.get(0)).unwrap()
}

fn store_at(path: &str) -> CookieDB {
    CookieDB { path: String::from(path), typing: DbType::Firefox, cookies: vec![] }
}

#[test]
fn test_load_firefox_normalizes() {
    let path = "/tmp/cookiecutter_test_load_ff.sqlite";
    make_firefox_db(
        path,
        &[("a.com", "x", "v1", "/", 1_700_000_000_000_000, 1_700_000_500_000_000,
            1_700_000_100_000_000, 1, 0, 2)],
    );
    let mut db = store_at(path);
    db.load_cookies().unwrap();
    assert_eq!(db.cookies.len(), 1);
    let c = &db.cookies[0];
    assert_eq!(c.host, "a.com");
    assert_eq!(c.name, "x");
    assert_eq!(c.value, "v1");
    assert_eq!(c.path, "/");
    assert_eq!(c.creation, 1_700_000_000);
    assert_eq!(c.expiry, 1_700_000_500);
    assert_eq!(c.last_access, 1_700_000_100);
    assert!(c.http_only);
    assert!(!c.secure);
    assert_eq!(c.samesite, 2);
    assert!(c.encrypted_value.is_empty());
}

#[test]
fn test_load_chrome_normalizes() {
    let path = "/tmp/cookiecutter_test_load_ch.sqlite";
    let conn = rusqlite::Connection::open(path).unwrap();
    conn.execute("DROP TABLE IF EXISTS cookies;", []).unwrap();
    conn.execute(
        "CREATE TABLE cookies (host_key TEXT, name TEXT, value TEXT, path TEXT, \
         creation_utc INTEGER, expires_utc INTEGER, last_access_utc INTEGER, \
         is_httponly INTEGER, is_secure INTEGER, samesite INTEGER, encrypted_value BLOB);",
        [],
    )
    .unwrap();
    // 13,344,473,600 seconds after the 1601 epoch is 1,700,000,000 UNIX.
    conn.execute(
        "INSERT INTO cookies VALUES ('b.org','s','','/', 13344473600000000, 0, \
         13344473600000000, 0, 1, -1, x'0102');",
        [],
    )
    .unwrap();
    drop(conn);
    let mut db = CookieDB { path: String::from(path), typing: DbType::Chrome, cookies: vec![] };
    db.load_cookies().unwrap();
    assert_eq!(db.cookies.len(), 1);
    let c = &db.cookies[0];
    assert_eq!(c.host, "b.org");
    assert_eq!(c.creation, 1_700_000_000);
    // A stored zero stays zero: a session cookie, never epoch-shifted.
    assert_eq!(c.expiry, 0);
    assert!(!c.http_only);
    assert!(c.secure);
    // -1 reads as None (0).
    assert_eq!(c.samesite, 0);
    assert_eq!(c.encrypted_value, vec![1u8, 2u8]);
}

#[test]
fn test_load_missing_file_fails() {
    let mut db = store_at("/tmp/cookiecutter_no_such_file.sqlite3.absent");
    assert_eq!(db.load_cookies(), Err(StoreError::SchemaQuery));
    assert!(db.cookies.is_empty());
}

#[test]
fn test_delete_from_domain_scenario() {
    // Two records under a.com: (x, session) and (y, fixed expiry).
    let path = "/tmp/cookiecutter_test_delete_pair.sqlite";
    make_firefox_db(
        path,
        &[
            ("a.com", "x", "v1", "/", 0, 0, 0, 0, 0, 0),
            ("a.com", "y", "v2", "/", 0, 1_700_000_000_000_000, 0, 0, 0, 0),
        ],
    );
    let mut db = store_at(path);
    db.load_cookies().unwrap();
    assert_eq!(db.cookies.len(), 2);

    db.delete_from_domain("a.com", "x").unwrap();
    assert_eq!(db.cookies.len(), 1);
    assert_eq!(db.cookies[0].name, "y");
    assert_eq!(db.cookies[0].expiry, 1_700_000_000);
    assert_eq!(firefox_row_count(path), 1);
    assert!(db.cookie_for_domain(&String::from("x"), &String::from("a.com")).is_none());

    db.delete_from_domain("a.com", "y").unwrap();
    assert_eq!(db.cookies.len(), 0);
    assert_eq!(firefox_row_count(path), 0);
    assert!(!db.domains().iter().any(|d| d == "a.com"));
}

#[test]
fn test_delete_whole_domain() {
    let path = "/tmp/cookiecutter_test_delete_domain.sqlite";
    make_firefox_db(
        path,
        &[
            ("a.com", "x", "v1", "/", 0, 0, 0, 0, 0, 0),
            ("a.com", "y", "v2", "/", 0, 0, 0, 0, 0, 0),
            ("b.org", "z", "v3", "/", 0, 0, 0, 0, 0, 0),
        ],
    );
    let mut db = store_at(path);
    db.load_cookies().unwrap();

    db.delete_from_domain("a.com", "").unwrap();
    assert!(db.cookies_for_domain(&String::from("a.com")).is_empty());
    assert_eq!(db.domains(), vec![String::from("b.org")]);
    assert_eq!(firefox_row_count(path), 1);
    // The other domain's record is untouched, field for field.
    assert_eq!(db.cookies.len(), 1);
    assert_eq!(db.cookies[0].host, "b.org");
    assert_eq!(db.cookies[0].name, "z");
    assert_eq!(db.cookies[0].value, "v3");
}

#[test]
fn test_delete_failure_leaves_mirror() {
    // A directory cannot be opened as a database: the write fails and the
    // in-memory list stays as it was.
    let mut db = CookieDB {
        path: String::from("/tmp"),
        typing: DbType::Firefox,
        cookies: vec![cookiecutter::cookie::Cookie {
            host: String::from("a.com"),
            name: String::from("x"),
            value: String::new(),
            path: String::from("/"),
            creation: 0,
            expiry: 0,
            last_access: 0,
            http_only: false,
            secure: false,
            samesite: 0,
            encrypted_value: vec![],
        }],
    };
    assert_eq!(db.delete_from_domain("a.com", "x"), Err(StoreError::MutationWrite));
    assert_eq!(db.cookies.len(), 1);
}

#[test]
fn test_clean_dry_run_reports_and_keeps_rows() {
    let path = "/tmp/cookiecutter_test_clean_dry.sqlite";
    make_firefox_db(
        path,
        &[
            ("example.com", "keep", "v", "/", 0, 0, 0, 0, 0, 0),
            ("tracker.net", "drop", "v", "/", 0, 0, 0, 0, 0, 0),
        ],
    );
    let db = store_at(path);
    let whitelist = parse_whitelist("example.com\n# skip\n");
    assert_eq!(whitelist, vec![String::from("\"example.com\"")]);

    let stmt = db.clean(&whitelist, false).unwrap();
    assert_eq!(stmt, "DELETE FROM moz_cookies WHERE host NOT IN (\"example.com\");");
    assert_eq!(firefox_row_count(path), 2);
}

#[test]
fn test_clean_apply_prunes() {
    let path = "/tmp/cookiecutter_test_clean_apply.sqlite";
    make_firefox_db(
        path,
        &[
            ("example.com", "keep", "v", "/", 0, 0, 0, 0, 0, 0),
            ("tracker.net", "drop", "v", "/", 0, 0, 0, 0, 0, 0),
            ("ads.io", "drop2", "v", "/", 0, 0, 0, 0, 0, 0),
        ],
    );
    let db = store_at(path);
    let whitelist = vec![String::from("\"example.com\"")];
    db.clean(&whitelist, true).unwrap();
    assert_eq!(firefox_row_count(path), 1);
    let conn = rusqlite::Connection::open(path).unwrap();
    let host: String =
        conn.query_row("SELECT host FROM moz_cookies;", [], |row| row.get(0)).unwrap();
    assert_eq!(host, "example.com");
}

#[test]
fn test_records_from_rows_rejects_unknown_code() {
    let row = RawRow {
        host: String::from("a.com"),
        name: String::from("x"),
        value: String::new(),
        path: String::from("/"),
        creation: 0,
        expiry: 0,
        last_access: 0,
        http_only: false,
        secure: false,
        same_site: 7,
        encrypted_value: vec![],
    };
    assert!(matches!(
        records_from_rows(&vec![row], DbType::Firefox),
        Err(StoreError::SchemaQuery)
    ));
}

#[test]
fn test_get_unix_epoch_values() {
    let ff = store_at("/tmp/unused_ff.sqlite");
    // A stored zero is preserved for both variants.
    assert_eq!(ff.get_unix_epoch(0), 0);
    assert_eq!(ff.get_unix_epoch(1_700_000_000_000_000), 1_700_000_000);
    assert_eq!(ff.get_unix_epoch(-2_000_000), -2);
    let ch = CookieDB { path: String::new(), typing: DbType::Chrome, cookies: vec![] };
    assert_eq!(ch.get_unix_epoch(0), 0);
    // The Chromium formula: micros / 1,000,000 - 11,644,473,600.
    let t: i64 = 13_344_473_600_000_000;
    assert_eq!(ch.get_unix_epoch(t), t / 1_000_000 - 11_644_473_600);
    assert_eq!(ch.get_unix_epoch(t), 1_700_000_000);
}
