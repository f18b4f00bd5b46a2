//! Navigation-state and controller tests.

use cookiecutter::config::NO_SELECTION;
use cookiecutter::cookie_db::CookieDB;
use cookiecutter::state::{Selection, State, StatefulList};
use cookiecutter::tui::{handle_key, handle_search_key, set_matches, Key};
use cookiecutter::util::DbType;

fn list_of(items: &[&str]) -> StatefulList<String> {
    StatefulList { selected: None, items: items.iter().map(|s| String::from(*s)).collect() }
}

fn empty_state() -> State {
    State::new(&vec![], "/home/user")
}

#[test]
fn test_path_short() {
    let home = "/home/user";
    let mut cdb = CookieDB {
        path: String::from("./cookies.sqlite"),
        typing: DbType::Chrome,
        cookies: vec![],
    };
    assert_eq!(cdb.path_short(home), "./cookies.sqlite");

    cdb.path = String::from("../../var/Cookies");
    assert_eq!(cdb.path_short(home), "../../var/Cookies");

    cdb.path = format!("{}/.config/chromium/Default/Cookies", home);
    assert_eq!(cdb.path_short(home), "~/.config/chromium/Default");
}

#[test]
fn test_list_cursor_wraparound() {
    let mut l = list_of(&["a", "b", "c"]);
    // With no selection either move selects the first item.
    l.next();
    assert_eq!(l.selected, Some(0));
    l.next();
    assert_eq!(l.selected, Some(1));
    l.next();
    assert_eq!(l.selected, Some(2));
    l.next();
    assert_eq!(l.selected, Some(0));
    l.previous();
    assert_eq!(l.selected, Some(2));

    let mut m = list_of(&["a"]);
    m.previous();
    assert_eq!(m.selected, Some(0));
    m.previous();
    assert_eq!(m.selected, Some(0));
}

#[test]
fn test_cursor_cycle_identity() {
    // As many steps as there are items returns to the start, either way.
    let mut l = list_of(&["a", "b", "c", "d"]);
    l.selected = Some(2);
    for _ in 0..4 {
        l.next();
    }
    assert_eq!(l.selected, Some(2));
    for _ in 0..4 {
        l.previous();
    }
    assert_eq!(l.selected, Some(2));
}

#[test]
fn test_empty_list_keeps_cursor_unset() {
    let mut l: StatefulList<String> = StatefulList::default();
    l.next();
    assert_eq!(l.selected, None);
    l.previous();
    assert_eq!(l.selected, None);
}

#[test]
fn test_state_new_labels() {
    let dbs = vec![
        CookieDB {
            path: String::from("/home/user/.config/chromium/Default/Cookies"),
            typing: DbType::Chrome,
            cookies: vec![],
        },
        CookieDB {
            path: String::from("./cookies.sqlite"),
            typing: DbType::Firefox,
            cookies: vec![],
        },
    ];
    let s = State::new(&dbs, "/home/user");
    assert!(matches!(s.selection, Selection::Profiles));
    assert_eq!(s.profiles.items, vec![
        String::from("~/.config/chromium/Default"),
        String::from("./cookies.sqlite"),
    ]);
    assert!(!s.search_open);
    assert_eq!(s.search_matches.len(), 0);
    assert_eq!(s.selected_match, NO_SELECTION);
    assert_eq!(s.selected_profile(), None);
}

#[test]
fn test_selected_getters() {
    let mut s = empty_state();
    s.profiles = list_of(&["p0", "p1"]);
    s.profiles.selected = Some(1);
    s.current_domains = list_of(&["a.com", "b.org"]);
    s.current_domains.selected = Some(0);
    s.current_cookies = list_of(&["x"]);
    assert_eq!(s.selected_profile(), Some(String::from("p1")));
    assert_eq!(s.selected_domain(), Some(String::from("a.com")));
    assert_eq!(s.selected_cookie(), None);
}

#[test]
fn test_set_matches_exact_indices() {
    let items = vec![
        String::from("mail.example.com"),
        String::from("tracker.net"),
        String::from("shop.example.org"),
    ];
    let mut matches: Vec<usize> = vec![];
    let found = set_matches(&items, &String::from("example"), &mut matches);
    assert!(found);
    assert_eq!(matches, vec![0, 2]);

    let mut none: Vec<usize> = vec![];
    let found = set_matches(&items, &String::from("absent"), &mut none);
    assert!(!found);
    assert!(none.is_empty());
}

#[test]
fn test_search_commit_moves_cursor() {
    let mut s = empty_state();
    s.selection = Selection::Domains;
    s.current_domains = list_of(&["aa.com", "bb.net", "ab.org"]);
    s.current_domains.selected = Some(1);
    s.search_open = true;
    handle_search_key(Key::Char('a'), &mut s);
    handle_search_key(Key::Char('b'), &mut s);
    assert_eq!(s.search_field, "ab");
    handle_search_key(Key::Enter, &mut s);
    assert!(!s.search_open);
    assert_eq!(s.search_field, "");
    assert_eq!(s.search_matches, vec![2]);
    assert_eq!(s.selected_match, 0);
    assert_eq!(s.current_domains.selected, Some(2));
}

#[test]
fn test_search_no_match_keeps_cursor() {
    let mut s = empty_state();
    s.selection = Selection::Domains;
    s.current_domains = list_of(&["aa.com", "bb.net"]);
    s.current_domains.selected = Some(1);
    s.search_open = true;
    handle_search_key(Key::Char('z'), &mut s);
    handle_search_key(Key::Enter, &mut s);
    assert!(s.search_matches.is_empty());
    assert_eq!(s.current_domains.selected, Some(1));
}

#[test]
fn test_search_backspace_and_escape() {
    let mut s = empty_state();
    s.search_open = true;
    handle_search_key(Key::Char('x'), &mut s);
    handle_search_key(Key::Char('y'), &mut s);
    handle_search_key(Key::Backspace, &mut s);
    assert_eq!(s.search_field, "x");
    s.current_domains = list_of(&["d"]);
    s.current_domains.selected = Some(0);
    handle_search_key(Key::Esc, &mut s);
    assert_eq!(s.search_field, "");
    assert!(!s.search_open);
    assert_eq!(s.current_domains.selected, Some(0));
}

#[test]
fn test_match_navigation_inverse() {
    // n then N (and N then n) from the same starting cursor returns to it.
    let mut s = empty_state();
    s.selection = Selection::Domains;
    s.current_domains = list_of(&["a1", "b", "a2", "a3"]);
    s.search_matches = vec![0, 2, 3];
    s.selected_match = 1;
    let mut dbs: Vec<CookieDB> = vec![];
    handle_key(Key::Char('n'), &mut s, &mut dbs).unwrap();
    assert_eq!(s.selected_match, 2);
    assert_eq!(s.current_domains.selected, Some(3));
    handle_key(Key::Char('N'), &mut s, &mut dbs).unwrap();
    assert_eq!(s.selected_match, 1);
    assert_eq!(s.current_domains.selected, Some(2));
    handle_key(Key::Char('N'), &mut s, &mut dbs).unwrap();
    handle_key(Key::Char('n'), &mut s, &mut dbs).unwrap();
    assert_eq!(s.selected_match, 1);
    // Wraparound in both directions.
    handle_key(Key::Char('n'), &mut s, &mut dbs).unwrap();
    handle_key(Key::Char('n'), &mut s, &mut dbs).unwrap();
    assert_eq!(s.selected_match, 0);
    handle_key(Key::Char('N'), &mut s, &mut dbs).unwrap();
    assert_eq!(s.selected_match, 2);
}

#[test]
fn test_level_transitions() {
    let mut s = empty_state();
    s.profiles = list_of(&["p"]);
    s.profiles.selected = Some(0);
    s.current_domains = list_of(&["a.com"]);
    let mut dbs: Vec<CookieDB> = vec![];

    // Right enters the domain level only because the list is non-empty.
    handle_key(Key::Right, &mut s, &mut dbs).unwrap();
    assert!(matches!(s.selection, Selection::Domains));
    assert_eq!(s.current_domains.selected, Some(0));

    // Right again does nothing: there are no cookies yet.
    handle_key(Key::Right, &mut s, &mut dbs).unwrap();
    assert!(matches!(s.selection, Selection::Domains));

    s.current_cookies = list_of(&["x"]);
    handle_key(Key::Char('l'), &mut s, &mut dbs).unwrap();
    assert!(matches!(s.selection, Selection::Cookies));
    assert_eq!(s.current_cookies.selected, Some(0));

    // Left clears the cursor of the level being left.
    handle_key(Key::Left, &mut s, &mut dbs).unwrap();
    assert!(matches!(s.selection, Selection::Domains));
    assert_eq!(s.current_cookies.selected, None);
    handle_key(Key::Char('h'), &mut s, &mut dbs).unwrap();
    assert!(matches!(s.selection, Selection::Profiles));
    assert_eq!(s.current_domains.selected, None);

    // j and k drive the active list.
    handle_key(Key::Char('j'), &mut s, &mut dbs).unwrap();
    assert_eq!(s.profiles.selected, Some(0));
    handle_key(Key::Char('k'), &mut s, &mut dbs).unwrap();
    assert_eq!(s.profiles.selected, Some(0));
}

fn one_cookie_db(path: &str) -> CookieDB {
    let conn = rusqlite::Connection::open(path).unwrap();
    conn.execute("DROP TABLE IF EXISTS moz_cookies;", []).unwrap();
    conn.execute(
        "CREATE TABLE moz_cookies (host TEXT, name TEXT, value TEXT, path TEXT, \
         creationTime INTEGER, expiry INTEGER, lastAccessed INTEGER, \
         isHttpOnly INTEGER, isSecure INTEGER, sameSite INTEGER);",
        [],
    )
    .unwrap();
    conn.execute(
        "INSERT INTO moz_cookies VALUES ('a.com','x','v','/',0,0,0,0,0,0);",
        [],
    )
    .unwrap();
    drop(conn);
    let mut db = CookieDB { path: String::from(path), typing: DbType::Firefox, cookies: vec![] };
    db.load_cookies().unwrap();
    db
}

#[test]
fn test_delete_cascade_clears_both_cursors() {
    // The sole remaining cookie under the sole remaining domain: deleting
    // it leaves both the cookie and the domain cursor unset.
    let path = "/tmp/cookiecutter_test_cascade.sqlite";
    let db = one_cookie_db(path);
    let mut dbs = vec![db];
    let mut s = State::new(&dbs, "/home/user");
    s.profiles.selected = Some(0);
    s.current_domains = list_of(&["a.com"]);
    s.current_domains.selected = Some(0);
    s.current_cookies = list_of(&["x"]);
    s.current_cookies.selected = Some(0);
    s.selection = Selection::Cookies;

    handle_key(Key::Char('D'), &mut s, &mut dbs).unwrap();
    assert_eq!(s.current_cookies.selected, None);
    assert_eq!(s.current_domains.selected, None);
    assert!(matches!(s.selection, Selection::Profiles));
    assert!(s.current_cookies.items.is_empty());
    assert!(s.current_domains.items.is_empty());
    assert!(dbs[0].cookies.is_empty());
}

#[test]
fn test_delete_domain_steps_cursor_back() {
    let path = "/tmp/cookiecutter_test_delete_step.sqlite";
    let conn = rusqlite::Connection::open(path).unwrap();
    conn.execute("DROP TABLE IF EXISTS moz_cookies;", []).unwrap();
    conn.execute(
        "CREATE TABLE moz_cookies (host TEXT, name TEXT, value TEXT, path TEXT, \
         creationTime INTEGER, expiry INTEGER, lastAccessed INTEGER, \
         isHttpOnly INTEGER, isSecure INTEGER, sameSite INTEGER);",
        [],
    )
    .unwrap();
    conn.execute("INSERT INTO moz_cookies VALUES ('a.com','x','v','/',0,0,0,0,0,0);", [])
        .unwrap();
    conn.execute("INSERT INTO moz_cookies VALUES ('b.org','y','v','/',0,0,0,0,0,0);", [])
        .unwrap();
    drop(conn);
    let mut db = CookieDB { path: String::from(path), typing: DbType::Firefox, cookies: vec![] };
    db.load_cookies().unwrap();
    let mut dbs = vec![db];
    let mut s = State::new(&dbs, "/home/user");
    s.profiles.selected = Some(0);
    s.current_domains = list_of(&["a.com", "b.org"]);
    // The removed index is the last one: the cursor steps back by one.
    s.current_domains.selected = Some(1);
    s.selection = Selection::Domains;

    handle_key(Key::Char('D'), &mut s, &mut dbs).unwrap();
    assert_eq!(s.current_domains.items, vec![String::from("a.com")]);
    assert_eq!(s.current_domains.selected, Some(0));
    assert!(matches!(s.selection, Selection::Domains));
    assert_eq!(dbs[0].domains(), vec![String::from("a.com")]);
}

#[test]
fn test_delete_without_applicable_selection_succeeds() {
    // With nothing suitably selected the deletion key must succeed and
    // change nothing, never report a write failure for a write that was
    // never attempted.
    let mut dbs: Vec<CookieDB> = vec![];
    let mut s = empty_state();
    assert!(handle_key(Key::Char('D'), &mut s, &mut dbs).is_ok());

    let mut s2 = empty_state();
    s2.profiles = list_of(&["p"]);
    s2.profiles.selected = Some(0);
    // A profile index past the (empty) store list, and no domain selected.
    assert!(handle_key(Key::Char('D'), &mut s2, &mut dbs).is_ok());
    assert_eq!(s2.profiles.selected, Some(0));
    assert!(matches!(s2.selection, Selection::Profiles));
}

#[test]
fn test_delete_failure_aborts_cascade() {
    // The backing "file" is a directory, so the write fails; every cursor
    // and list must be exactly as before.
    let db = CookieDB {
        path: String::from("/tmp"),
        typing: DbType::Firefox,
        cookies: vec![],
    };
    let mut dbs = vec![db];
    let mut s = State::new(&dbs, "/home/user");
    s.profiles.selected = Some(0);
    s.current_domains = list_of(&["a.com"]);
    s.current_domains.selected = Some(0);
    s.selection = Selection::Domains;
    s.search_matches = vec![0];
    s.selected_match = 0;

    let r = handle_key(Key::Char('D'), &mut s, &mut dbs);
    assert!(r.is_err());
    assert_eq!(s.current_domains.items, vec![String::from("a.com")]);
    assert_eq!(s.current_domains.selected, Some(0));
    assert_eq!(s.search_matches, vec![0]);
    assert!(matches!(s.selection, Selection::Domains));
}
