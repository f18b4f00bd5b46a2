//! Formatting, configuration and parsing tests.

use cookiecutter::config::{Args, Config, SubArgs};
use cookiecutter::cookie::Cookie;
use cookiecutter::cookie_db::{collect_stores, CookieDB};
use cookiecutter::util::{is_sqlite_magic, parse_whitelist, DbType};

fn sample_cookie() -> Cookie {
    Cookie {
        host: String::from("a.com"),
        name: String::from("sid"),
        value: String::from("abc123"),
        path: String::from("/"),
        creation: 0,
        expiry: 1_700_000_000,
        last_access: 0,
        http_only: true,
        secure: false,
        samesite: 1,
        encrypted_value: vec![],
    }
}

#[test]
fn test_match_field_plain() {
    let c = sample_cookie();
    assert_eq!(c.match_field("Host", true, false), "Host: a.com");
    assert_eq!(c.match_field("Name", true, false), "Name: sid");
    assert_eq!(c.match_field("Value", true, false), "Value: abc123");
    assert_eq!(c.match_field("Path", false, false), "/");
    assert_eq!(c.match_field("HttpOnly", true, false), "HttpOnly: true");
    assert_eq!(c.match_field("Secure", true, false), "Secure: false");
    assert_eq!(c.match_field("SameSite", true, false), "SameSite: Lax");
}

#[test]
fn test_match_field_dates() {
    let c = sample_cookie();
    assert_eq!(c.match_field("Expiry", true, false), "Expiry: 2023-11-14 22:13:20 UTC");
    assert_eq!(c.match_field("Creation", true, false), "Creation: 1970-01-01 00:00:00 UTC");
}

#[test]
fn test_match_field_colored() {
    let c = sample_cookie();
    assert_eq!(c.match_field("Host", true, true), "\u{1b}[97;1mHost:\u{1b}[0m a.com");
}

#[test]
fn test_match_field_encrypted_placeholder() {
    let mut c = sample_cookie();
    c.value = String::new();
    c.encrypted_value = vec![1, 2, 3];
    assert_eq!(c.match_field("Value", true, false), "Value: ********");
    // With a plain value present the placeholder is not used.
    c.value = String::from("v");
    assert_eq!(c.match_field("Value", true, false), "Value: v");
}

#[test]
fn test_samesite_none_codes() {
    let mut c = sample_cookie();
    c.samesite = 0;
    assert_eq!(c.match_field("SameSite", true, false), "SameSite: None");
    c.samesite = -1;
    assert_eq!(c.match_field("SameSite", true, false), "SameSite: None");
    c.samesite = 2;
    assert_eq!(c.match_field("SameSite", true, false), "SameSite: Strict");
}

#[test]
fn test_fields_as_str_selected() {
    let c = sample_cookie();
    let out = c.fields_as_str(&String::from("Host,Name"), true, false);
    // The lines come out sorted.
    assert_eq!(out, "Host: a.com\nName: sid");
    let single = c.fields_as_str(&String::from("Name"), false, false);
    assert_eq!(single, "sid");
}

#[test]
fn test_fields_as_str_all() {
    let c = sample_cookie();
    let out = c.fields_as_str(&String::from("All"), true, false);
    let lines: Vec<&str> = out.split('\n').collect();
    assert_eq!(lines.len(), 10);
    let mut sorted = lines.clone();
    sorted.sort();
    assert_eq!(lines, sorted);
    assert!(lines.contains(&"Host: a.com"));
    assert!(lines.contains(&"SameSite: Lax"));
}

#[test]
fn test_config_from_args() {
    let args = Args {
        debug: true,
        nocolor: false,
        profile: String::new(),
        list_profiles: false,
        file: String::new(),
        subargs: Some(SubArgs::Clean { whitelist: String::from("wl.txt"), apply: true }),
    };
    let cfg = Config::from_args(&args);
    assert!(cfg.debug);
    assert!(cfg.clean);
    assert!(cfg.apply);
    assert_eq!(cfg.whitelist, "wl.txt");
    assert!(!cfg.tui);
    assert_eq!(cfg.err_exit, 1);

    let args2 = Args {
        debug: false,
        nocolor: true,
        profile: String::new(),
        list_profiles: false,
        file: String::new(),
        subargs: Some(SubArgs::Cookies {
            no_heading: true,
            list_fields: false,
            fields: String::from("Host,Name"),
            domain: String::from("a.com"),
        }),
    };
    let cfg2 = Config::from_args(&args2);
    assert!(cfg2.nocolor);
    assert!(cfg2.no_heading);
    assert_eq!(cfg2.fields, "Host,Name");
    assert_eq!(cfg2.domain, "a.com");
    assert!(!cfg2.clean);

    let args3 = Args {
        debug: false,
        nocolor: false,
        profile: String::new(),
        list_profiles: false,
        file: String::new(),
        subargs: Some(SubArgs::Tui {}),
    };
    assert!(Config::from_args(&args3).tui);

    let args4 = Args { subargs: None, ..args3 };
    let cfg4 = Config::from_args(&args4);
    assert!(!cfg4.tui && !cfg4.clean && cfg4.fields.is_empty());
}

#[test]
fn test_parse_whitelist_lines() {
    let text = "example.com\n# skip\n\n  spaced.org  \n";
    let wl = parse_whitelist(text);
    assert_eq!(wl, vec![String::from("\"example.com\""), String::from("\"spaced.org\"")]);
    assert!(parse_whitelist("").is_empty());
    assert!(parse_whitelist("# only a comment").is_empty());
}

#[test]
fn test_is_sqlite_magic() {
    let mut header = Vec::new();
    header.extend_from_slice(b"SQLite format 3");
    header.push(0);
    assert!(is_sqlite_magic(&header));
    assert!(!is_sqlite_magic(b"SQLite format 4\0"));
    assert!(!is_sqlite_magic(b"short"));
}

#[test]
fn test_collect_stores_sorts_and_dedups() {
    let mk = |p: &str, t: DbType| CookieDB { path: String::from(p), typing: t, cookies: vec![] };
    let dbs = vec![
        mk("/b/Cookies", DbType::Chrome),
        mk("/a/cookies.sqlite", DbType::Firefox),
        mk("/b/Cookies", DbType::Chrome),
    ];
    let out = collect_stores(&dbs);
    assert_eq!(out.len(), 2);
    assert_eq!(out[0].path, "/a/cookies.sqlite");
    assert_eq!(out[1].path, "/b/Cookies");
    assert_eq!(out[0].typing, DbType::Firefox);
    assert_eq!(out[1].typing, DbType::Chrome);
}

#[test]
fn test_domains_sorted_dedup() {
    let mk = |h: &str, n: &str| Cookie {
        host: String::from(h),
        name: String::from(n),
        value: String::new(),
        path: String::from("/"),
        creation: 0,
        expiry: 0,
        last_access: 0,
        http_only: false,
        secure: false,
        samesite: 0,
        encrypted_value: vec![],
    };
    let db = CookieDB {
        path: String::new(),
        typing: DbType::Firefox,
        cookies: vec![mk("b.org", "x"), mk("a.com", "y"), mk("b.org", "z")],
    };
    assert_eq!(db.domains(), vec![String::from("a.com"), String::from("b.org")]);
    let for_b = db.cookies_for_domain(&String::from("b.org"));
    assert_eq!(for_b.len(), 2);
    assert_eq!(for_b[0].name, "x");
    assert_eq!(for_b[1].name, "z");
    let found = db.cookie_for_domain(&String::from("z"), &String::from("b.org"));
    assert_eq!(found.unwrap().name, "z");
    assert!(db.cookie_for_domain(&String::from("w"), &String::from("b.org")).is_none());
}

#[test]
fn test_delete_query_text() {
    let db = CookieDB { path: String::new(), typing: DbType::Chrome, cookies: vec![] };
    assert_eq!(
        db.delete_query("a.com", ""),
        "DELETE FROM cookies WHERE host_key == \"a.com\";"
    );
    assert_eq!(
        db.delete_query("a.com", "sid"),
        "DELETE FROM cookies WHERE host_key == \"a.com\" AND name == \"sid\";"
    );
    let ff = CookieDB { path: String::new(), typing: DbType::Firefox, cookies: vec![] };
    assert_eq!(
        ff.delete_query("a.com", "sid"),
        "DELETE FROM moz_cookies WHERE host == \"a.com\" AND name == \"sid\";"
    );
}
