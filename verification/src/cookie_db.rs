//! One cookie store per physical database file: schema mapping, timestamp
//! normalization, loading, mutation, and the derived read-only queries.

use vstd::prelude::*;
use vstd::string::StrSliceExecFns;
use vstd::string::StringExecFns;
use crate::cookie::{Cookie, CookieV};
use crate::text::{views, sorted_le, spec_quote, spec_join_sep, spec_replace, quote_str,
    join_char, replace_all, str_eq, sort_strings, dedup_strings};
use crate::util::DbType;

verus! {

/// Why a load or a mutation failed.
#[derive(Debug, PartialEq, Eq, Structural, Clone, Copy)]
pub enum StoreError {
    /// A query against a recognized database failed.
    SchemaQuery,
    /// A delete statement against the backing file failed.
    MutationWrite,
}

/// One cookie database file with its in-memory mirror of records.
#[derive(Debug)]
pub struct CookieDB {
    /// The path of the backing file; the identity of the store.
    pub path: String,
    /// Which schema the file uses.
    pub typing: DbType,
    /// The in-memory mirror of the file's records.
    pub cookies: Vec<Cookie>,
}

/// The ghost value of a cookie store.
pub ghost struct CookieDBV {
    pub path: Seq<char>,
    pub typing: DbType,
    pub cookies: Seq<CookieV>,
}

/// The ghost values of a sequence of cookies.
pub open spec fn cookie_views(cs: Seq<Cookie>) -> Seq<CookieV> {
    cs.map_values(|c: Cookie| c@)
}

impl View for CookieDB {
    type V = CookieDBV;

    open spec fn view(&self) -> CookieDBV {
        CookieDBV { path: self.path@, typing: self.typing, cookies: cookie_views(self.cookies@) }
    }
}

impl PartialEq for CookieDB {
    /// Two stores are the same store when they name the same file.
    fn eq(&self, other: &Self) -> (r: bool) {
        str_eq(self.path.as_str(), other.path.as_str()) && self.typing == other.typing
    }
}

impl vstd::std_specs::cmp::PartialEqSpecImpl for CookieDB {
    open spec fn obeys_eq_spec() -> bool {
        true
    }

    open spec fn eq_spec(&self, other: &Self) -> bool {
        self.path@ == other.path@ && self.typing == other.typing
    }
}

//== Trusted declarations for the embedded-SQL library ==//

#[verifier::external_type_specification]
#[verifier::external_body]
pub struct ExConnection(rusqlite::Connection);

#[verifier::external_type_specification]
#[verifier::external_body]
pub struct ExSqlError(rusqlite::Error);

/// Relies on `rusqlite::Connection::open`: opens (or creates) the database
/// file at `path` for reading and writing. What it returns depends on the
/// state of the file on disk.
#[verifier::external_body]
fn open_db(path: &str) -> Result<rusqlite::Connection, rusqlite::Error> {
    rusqlite::Connection::open(path)
}

/// Relies on `rusqlite::Connection::open_with_flags`: opens the database
/// file at `path` read-only; fails if it does not exist. What it returns
/// depends on the state of the file on disk.
#[verifier::external_body]
fn open_db_readonly(path: &str) -> Result<rusqlite::Connection, rusqlite::Error> {
    rusqlite::Connection::open_with_flags(path, rusqlite::OpenFlags::SQLITE_OPEN_READ_ONLY)
}

/// Relies on `rusqlite::Connection::execute`: runs one SQL statement and
/// returns the number of rows it changed. What it returns, and what it does
/// to the file, depend on the state of the database.
#[verifier::external_body]
fn execute_sql(conn: &rusqlite::Connection, sql: &str) -> Result<usize, rusqlite::Error> {
    conn.execute(sql, [])
}

/// One row of a cookie table, read as plain values before normalization.
pub struct RawRow {
    pub host: String,
    pub name: String,
    pub value: String,
    pub path: String,
    pub creation: i64,
    pub expiry: i64,
    pub last_access: i64,
    pub http_only: bool,
    pub secure: bool,
    pub same_site: i64,
    pub encrypted_value: Vec<u8>,
}

/// The ghost value of one raw row.
pub ghost struct RawRowV {
    pub host: Seq<char>,
    pub name: Seq<char>,
    pub value: Seq<char>,
    pub path: Seq<char>,
    pub creation: int,
    pub expiry: int,
    pub last_access: int,
    pub http_only: bool,
    pub secure: bool,
    pub same_site: int,
    pub encrypted_value: Seq<u8>,
}

impl View for RawRow {
    type V = RawRowV;

    open spec fn view(&self) -> RawRowV {
        RawRowV {
            host: self.host@,
            name: self.name@,
            value: self.value@,
            path: self.path@,
            creation: self.creation as int,
            expiry: self.expiry as int,
            last_access: self.last_access as int,
            http_only: self.http_only,
            secure: self.secure,
            same_site: self.same_site as int,
            encrypted_value: self.encrypted_value@,
        }
    }
}

/// Relies on `rusqlite::Statement::prepare`, `query_map` and `Row::get`:
/// runs the query and converts each row into plain values, column by
/// column; a row whose required column cannot be read as its expected type
/// fails the whole call. The missing encrypted column of the Gecko-style
/// schema defaults to empty. What it returns depends on the database.
#[verifier::external_body]
fn fetch_cookie_rows(conn: &rusqlite::Connection, sql: &str) -> Result<Vec<RawRow>, rusqlite::Error> {
    let mut stmt = conn.prepare(sql)?;
    let rows = stmt.query_map([], |row| {
        Ok(RawRow {
            host: row.get(0)?, name: row.get(1)?, value: row.get(2)?, path: row.get(3)?,
            creation: row.get(4)?, expiry: row.get(5)?, last_access: row.get(6)?,
            http_only: row.get(7)?, secure: row.get(8)?, same_site: row.get(9)?,
            encrypted_value: row.get(10).unwrap_or_default(),
        })
    })?;
    rows.collect()
}

//== Timestamp normalization ==//

/// A source timestamp brought to UNIX epoch seconds. Both schemas store
/// microseconds; the Chromium-style epoch is 1601-01-01, which lies
/// 11,644,473,600 seconds before the UNIX epoch. A stored zero is kept as
/// zero (a session cookie) and is never epoch-shifted.
pub open spec fn spec_norm_ts(t: int, typing: DbType) -> int {
    if t == 0 {
        0
    } else {
        let secs = if t >= 0 {
            t / 1_000_000
        } else {
            -((-t) / 1_000_000)
        };
        if typing == DbType::Firefox {
            secs
        } else {
            secs - 11_644_473_600
        }
    }
}

impl CookieDB {
    /// Timestamps are stored as UNIX epoch microseconds for the
    /// Gecko-style schema and as microseconds since 1601-01-01 for the
    /// Chromium-style schema; a zero (session-only lifetime) is preserved.
    pub fn get_unix_epoch(&self, timestamp: i64) -> (r: i64)
        ensures
            r == spec_norm_ts(timestamp as int, self.typing),
    {
        if timestamp == 0 {
            0
        } else if self.typing == DbType::Firefox {
            timestamp / 1_000_000
        } else {
            (timestamp / 1_000_000) - 11_644_473_600
        }
    }

    /// The name of the cookies table for this store's schema.
    pub fn table_name(&self) -> (r: &'static str)
        ensures
            r@ == spec_table_name(self.typing),
    {
        if self.typing == DbType::Firefox {
            "moz_cookies"
        } else {
            "cookies"
        }
    }

    /// The name of the host column for this store's schema.
    fn host_col(&self) -> (r: &'static str)
        ensures
            r@ == spec_host_col(self.typing),
    {
        if self.typing == DbType::Chrome {
            "host_key"
        } else {
            "host"
        }
    }

    /// The name of the cookie-name column; both schemas use `name`.
    fn name_col(&self) -> (r: &'static str)
        ensures
            r@ == spec_name_col(self.typing),
    {
        "name"
    }

    /// The `SELECT` statement that reads every mapped column of this
    /// store's schema; the Gecko-style schema has no encrypted column, so
    /// `NULL` stands in its place.
    fn select_query(&self) -> (r: &'static str)
        ensures
            r@ == spec_select_query(self.typing),
    {
        if self.typing == DbType::Chrome {
            "SELECT host_key,name,value,path,creation_utc,expires_utc,last_access_utc,is_httponly,is_secure,samesite,encrypted_value FROM cookies;"
        } else if self.typing == DbType::Firefox {
            "SELECT host,name,value,path,creationTime,expiry,lastAccessed,isHttpOnly,isSecure,sameSite,NULL FROM moz_cookies;"
        } else {
            "SELECT host,name,value,path,creationTime,expiry,lastAccessed,isHttpOnly,isSecure,sameSite,NULL FROM cookies;"
        }
    }
}

/// The cookies table name of a schema.
pub open spec fn spec_table_name(typing: DbType) -> Seq<char> {
    if typing == DbType::Firefox {
        "moz_cookies"@
    } else {
        "cookies"@
    }
}

/// The host column name of a schema.
pub open spec fn spec_host_col(typing: DbType) -> Seq<char> {
    if typing == DbType::Chrome {
        "host_key"@
    } else {
        "host"@
    }
}

/// The cookie-name column name of a schema.
pub open spec fn spec_name_col(typing: DbType) -> Seq<char> {
    "name"@
}

/// The full column list read by a load, per schema.
pub open spec fn spec_select_query(typing: DbType) -> Seq<char> {
    if typing == DbType::Chrome {
        "SELECT host_key,name,value,path,creation_utc,expires_utc,last_access_utc,is_httponly,is_secure,samesite,encrypted_value FROM cookies;"@
    } else if typing == DbType::Firefox {
        "SELECT host,name,value,path,creationTime,expiry,lastAccessed,isHttpOnly,isSecure,sameSite,NULL FROM moz_cookies;"@
    } else {
        "SELECT host,name,value,path,creationTime,expiry,lastAccessed,isHttpOnly,isSecure,sameSite,NULL FROM cookies;"@
    }
}

/// The `DELETE` statement that removes every record of `domain` (empty
/// `name`) or the single `(domain, name)` pair.
pub open spec fn spec_delete_query(typing: DbType, domain: Seq<char>, name: Seq<char>) -> Seq<
    char,
> {
    let base = "DELETE FROM "@ + spec_table_name(typing) + " WHERE "@ + spec_host_col(typing)
        + " == "@ + spec_quote(domain);
    if name.len() == 0 {
        base + ";"@
    } else {
        base + " AND "@ + spec_name_col(typing) + " == "@ + spec_quote(name) + ";"@
    }
}

/// The `DELETE` statement of a bulk prune: it removes every record whose
/// host is not in the (already quoted) whitelist.
pub open spec fn spec_clean_query(typing: DbType, whitelist: Seq<Seq<char>>) -> Seq<char> {
    "DELETE FROM "@ + spec_table_name(typing) + " WHERE "@ + spec_host_col(typing) + " NOT IN ("@
        + spec_join_sep(whitelist, ',') + ");"@
}

/// One raw row normalized into a cookie record: timestamps brought to
/// UNIX epoch seconds, a SameSite code of -1 read as None (0).
pub open spec fn spec_record_of(r: RawRowV, typing: DbType) -> CookieV {
    CookieV {
        host: r.host,
        name: r.name,
        value: r.value,
        path: r.path,
        creation: spec_norm_ts(r.creation, typing),
        expiry: spec_norm_ts(r.expiry, typing),
        last_access: spec_norm_ts(r.last_access, typing),
        http_only: r.http_only,
        secure: r.secure,
        samesite: if r.same_site == -1 {
            0
        } else {
            r.same_site
        },
        encrypted_value: r.encrypted_value,
    }
}

/// A raw SameSite code both schemas may store: 0, 1, 2, or -1 for None.
pub open spec fn spec_valid_code(r: RawRowV) -> bool {
    -1 <= r.same_site <= 2
}

/// The ghost values of a sequence of raw rows.
pub open spec fn raw_views(rs: Seq<RawRow>) -> Seq<RawRowV> {
    rs.map_values(|r: RawRow| r@)
}

/// Every raw row normalized, in order.
pub open spec fn spec_records_of(rs: Seq<RawRowV>, typing: DbType) -> Seq<CookieV> {
    rs.map_values(|r: RawRowV| spec_record_of(r, typing))
}

/// A record is kept by `deleteFromDomain(domain, name)` unless its host is
/// `domain` and, when `name` is non-empty, its name is `name`.
pub open spec fn spec_keep_cookie(c: CookieV, domain: Seq<char>, name: Seq<char>) -> bool {
    if name.len() == 0 {
        c.host != domain
    } else {
        !(c.host == domain && c.name == name)
    }
}

fn normalize(timestamp: i64, typing: DbType) -> (r: i64)
    ensures
        r == spec_norm_ts(timestamp as int, typing),
{
    if timestamp == 0 {
        0
    } else if typing == DbType::Firefox {
        timestamp / 1_000_000
    } else {
        (timestamp / 1_000_000) - 11_644_473_600
    }
}

/// Normalize fetched rows into cookie records, in row order. A row whose
/// SameSite code is outside the known range fails the whole batch; no
/// other field can fail once the row was read.
pub fn records_from_rows(rows: &Vec<RawRow>, typing: DbType) -> (r: Result<
    Vec<Cookie>,
    StoreError,
>)
    ensures
        (r is Ok) == (forall|i: int| 0 <= i < rows@.len() ==> spec_valid_code(rows@[i]@)),
        r matches Ok(cs) ==> cookie_views(cs@) == spec_records_of(raw_views(rows@), typing),
        r matches Err(e) ==> e == StoreError::SchemaQuery,
{
    let mut out: Vec<Cookie> = Vec::new();
    let mut i: usize = 0;
    proof {
        assert(cookie_views(out@) =~~= spec_records_of(raw_views(rows@.take(0)), typing));
    }
    while i < rows.len()
        invariant
            0 <= i <= rows@.len(),
            out@.len() == i,
            forall|k: int| 0 <= k < i ==> spec_valid_code(rows@[k]@),
            cookie_views(out@) == spec_records_of(raw_views(rows@.take(i as int)), typing),
        decreases rows@.len() - i,
    {
        let row = &rows[i];
        if !(-1 <= row.same_site && row.same_site <= 2) {
            return Err(StoreError::SchemaQuery);
        }
        let c = Cookie {
            host: row.host.clone(),
            name: row.name.clone(),
            value: row.value.clone(),
            path: row.path.clone(),
            creation: normalize(row.creation, typing),
            expiry: normalize(row.expiry, typing),
            last_access: normalize(row.last_access, typing),
            http_only: row.http_only,
            secure: row.secure,
            samesite: if row.same_site == -1 {
                0
            } else {
                row.same_site as i32
            },
            encrypted_value: row.encrypted_value.clone(),
        };
        proof {
            assert(c@ == spec_record_of(rows@[i as int]@, typing));
            let lhs = cookie_views(out@.push(c));
            let rhs = spec_records_of(raw_views(rows@.take(i as int + 1)), typing);
            assert(lhs.len() == i + 1);
            assert(rhs.len() == i + 1);
            assert forall|k: int| 0 <= k < i + 1 implies lhs[k] == rhs[k] by {
                assert(rows@.take(i as int + 1)[k] == rows@[k]);
                assert(raw_views(rows@.take(i as int + 1))[k] == rows@[k]@);
                assert(rhs[k] == spec_record_of(rows@[k]@, typing));
                if k < i {
                    assert(lhs[k] == out@[k]@);
                    assert(cookie_views(out@)[k] == out@[k]@);
                    assert(spec_records_of(raw_views(rows@.take(i as int)), typing)[k]
                        == spec_record_of(raw_views(rows@.take(i as int))[k], typing));
                    assert(raw_views(rows@.take(i as int))[k] == rows@.take(i as int)[k]@);
                    assert(rows@.take(i as int)[k] == rows@[k]);
                } else {
                    assert(lhs[k] == c@);
                }
            }
            assert(lhs =~~= rhs);
        }
        out.push(c);
        i = i + 1;
    }
    proof {
        assert(rows@.take(rows@.len() as int) =~= rows@);
    }
    Ok(out)
}

impl CookieDB {
    /// The `DELETE` statement for one domain, or one `(domain, name)` pair
    /// when `name` is non-empty.
    pub fn delete_query(&self, domain: &str, name: &str) -> (r: String)
        ensures
            r@ == spec_delete_query(self.typing, domain@, name@),
    {
        let mut q = String::from_str("DELETE FROM ");
        q.append(self.table_name());
        q.append(" WHERE ");
        q.append(self.host_col());
        q.append(" == ");
        let qd = quote_str(domain);
        q.append(qd.as_str());
        if name.is_empty() {
            q.append(";");
        } else {
            q.append(" AND ");
            q.append(self.name_col());
            q.append(" == ");
            let qn = quote_str(name);
            q.append(qn.as_str());
            q.append(";");
        }
        proof {
            assert(q@ =~= spec_delete_query(self.typing, domain@, name@));
        }
        q
    }

    /// The `DELETE` statement of a bulk prune against this store.
    pub fn clean_query(&self, whitelist: &Vec<String>) -> (r: String)
        ensures
            r@ == spec_clean_query(self.typing, views(whitelist@)),
    {
        let mut q = String::from_str("DELETE FROM ");
        q.append(self.table_name());
        q.append(" WHERE ");
        q.append(self.host_col());
        q.append(" NOT IN (");
        let joined = join_char(whitelist, ',');
        q.append(joined.as_str());
        q.append(");");
        proof {
            assert(q@ =~= spec_clean_query(self.typing, views(whitelist@)));
        }
        q
    }

    /// Load all records from the backing file into the in-memory mirror,
    /// replacing it wholesale. On any failure the mirror is untouched and
    /// the error names the failed schema query.
    pub fn load_cookies(&mut self) -> (r: Result<(), StoreError>)
        ensures
            final(self).path@ == old(self).path@,
            final(self).typing == old(self).typing,
            r is Err ==> *final(self) == *old(self),
            r matches Err(e) ==> e == StoreError::SchemaQuery,
            r is Ok ==> exists|raws: Seq<RawRowV>|
                (forall|i: int| 0 <= i < raws.len() ==> spec_valid_code(raws[i]))
                    && #[trigger] spec_records_of(raws, old(self).typing) == final(self)@.cookies,
    {
        let conn = match open_db_readonly(self.path.as_str()) {
            Ok(c) => c,
            Err(_) => {
                return Err(StoreError::SchemaQuery);
            },
        };
        let rows = match fetch_cookie_rows(&conn, self.select_query()) {
            Ok(rs) => rs,
            Err(_) => {
                return Err(StoreError::SchemaQuery);
            },
        };
        let records = match records_from_rows(&rows, self.typing) {
            Ok(cs) => cs,
            Err(e) => {
                return Err(e);
            },
        };
        self.cookies = records;
        proof {
            let raws = raw_views(rows@);
            assert((forall|i: int| 0 <= i < raws.len() ==> spec_valid_code(raws[i]))
                && spec_records_of(raws, self.typing) == cookie_views(self.cookies@));
        }
        Ok(())
    }

    /// Delete from the backing file, then mirror the change: every record
    /// of `domain` when `name` is empty, else the single `(domain, name)`
    /// pair. The file is written first; if that fails, the in-memory list
    /// is left untouched and the mutation error is reported.
    pub fn delete_from_domain(&mut self, domain: &str, name: &str) -> (r: Result<(), StoreError>)
        ensures
            final(self).path@ == old(self).path@,
            final(self).typing == old(self).typing,
            r is Err ==> *final(self) == *old(self),
            r matches Err(e) ==> e == StoreError::MutationWrite,
            r is Ok ==> final(self)@.cookies == old(self)@.cookies.filter(
                |c: CookieV| spec_keep_cookie(c, domain@, name@),
            ),
    {
        let query = self.delete_query(domain, name);
        let conn = match open_db(self.path.as_str()) {
            Ok(c) => c,
            Err(_) => {
                return Err(StoreError::MutationWrite);
            },
        };
        match execute_sql(&conn, query.as_str()) {
            Ok(_) => {},
            Err(_) => {
                return Err(StoreError::MutationWrite);
            },
        }
        let ghost pred = |c: CookieV| spec_keep_cookie(c, domain@, name@);
        let mut kept: Vec<Cookie> = Vec::new();
        let mut i: usize = 0;
        proof {
            assert(cookie_views(kept@) =~~= cookie_views(self.cookies@.take(0)).filter(pred));
        }
        while i < self.cookies.len()
            invariant
                0 <= i <= self.cookies@.len(),
                pred == (|c: CookieV| spec_keep_cookie(c, domain@, name@)),
                cookie_views(kept@) == cookie_views(self.cookies@.take(i as int)).filter(pred),
            decreases self.cookies@.len() - i,
        {
            let c = &self.cookies[i];
            let keep: bool = if name.is_empty() {
                !str_eq(c.host.as_str(), domain)
            } else {
                !(str_eq(c.host.as_str(), domain) && str_eq(c.name.as_str(), name))
            };
            proof {
                assert(keep == pred(c@));
                let pv = cookie_views(self.cookies@.take(i as int));
                assert(self.cookies@.take(i as int + 1) =~= self.cookies@.take(i as int).push(
                    self.cookies@[i as int],
                ));
                assert(cookie_views(self.cookies@.take(i as int + 1)) =~~= pv.push(c@));
                pv.lemma_filter_push(c@, pred);
                if keep {
                    assert(cookie_views(kept@.push(*c)) =~~= cookie_views(kept@).push(c@));
                }
            }
            if keep {
                let copy = c.clone();
                kept.push(copy);
            }
            i = i + 1;
        }
        proof {
            assert(self.cookies@.take(self.cookies@.len() as int) =~= self.cookies@);
        }
        self.cookies = kept;
        Ok(())
    }

    /// Remove all records from the backing file except those of a
    /// whitelisted domain. The constructed `DELETE` statement is returned;
    /// it is executed against the file only when `apply` is set, and a
    /// failed write is reported as a mutation error. The in-memory mirror
    /// is never touched: callers reload to observe the effect.
    pub fn clean(&self, whitelist: &Vec<String>, apply: bool) -> (r: Result<String, StoreError>)
        ensures
            r matches Ok(q) ==> q@ == spec_clean_query(self.typing, views(whitelist@)),
            !apply ==> r is Ok,
            r matches Err(e) ==> e == StoreError::MutationWrite,
    {
        let query = self.clean_query(whitelist);
        if apply {
            let conn = match open_db(self.path.as_str()) {
                Ok(c) => c,
                Err(_) => {
                    return Err(StoreError::MutationWrite);
                },
            };
            match execute_sql(&conn, query.as_str()) {
                Ok(_) => {},
                Err(_) => {
                    return Err(StoreError::MutationWrite);
                },
            }
        }
        Ok(query)
    }
}

/// The hosts of a sequence of records, in record order.
pub open spec fn spec_hosts(cs: Seq<CookieV>) -> Seq<Seq<char>> {
    cs.map_values(|c: CookieV| c.host)
}

/// A record belongs to the `(name, domain)` pair.
pub open spec fn cookie_matches(c: CookieV, name: Seq<char>, domain: Seq<char>) -> bool {
    c.host == domain && c.name == name
}

impl CookieDB {
    /// The deduplicated list of domains stored in the mirror, in ascending
    /// lexicographic order.
    pub fn domains(&self) -> (r: Vec<String>)
        ensures
            sorted_le(views(r@)),
            views(r@).no_duplicates(),
            forall|h: Seq<char>| views(r@).contains(h) <==> spec_hosts(self@.cookies).contains(h),
    {
        let mut hosts: Vec<String> = Vec::new();
        let mut i: usize = 0;
        while i < self.cookies.len()
            invariant
                0 <= i <= self.cookies@.len(),
                hosts@.len() == i,
                forall|k: int| 0 <= k < i ==> views(hosts@)[k] == self@.cookies[k].host,
            decreases self.cookies@.len() - i,
        {
            let h = self.cookies[i].host.clone();
            proof {
                crate::text::lemma_views_push(hosts@, h);
            }
            hosts.push(h);
            i = i + 1;
        }
        proof {
            assert(views(hosts@) =~~= spec_hosts(self@.cookies)) by {
                assert(forall|k: int|
                    0 <= k < self.cookies@.len() ==> spec_hosts(self@.cookies)[k]
                        == self@.cookies[k].host);
            }
        }
        let ghost unsorted = views(hosts@);
        sort_strings(&mut hosts);
        let r = dedup_strings(&hosts);
        proof {
            let sorted = views(hosts@);
            unsorted.to_multiset_ensures();
            sorted.to_multiset_ensures();
            assert forall|h: Seq<char>| sorted.contains(h) <==> unsorted.contains(h) by {
                assert(sorted.contains(h) <==> sorted.to_multiset().count(h) > 0);
                assert(unsorted.contains(h) <==> unsorted.to_multiset().count(h) > 0);
            }
        }
        r
    }

    /// Every record of the given domain, in original order.
    pub fn cookies_for_domain(&self, domain: &String) -> (r: Vec<Cookie>)
        ensures
            cookie_views(r@) == self@.cookies.filter(|c: CookieV| c.host == domain@),
    {
        let ghost pred = |c: CookieV| c.host == domain@;
        let mut out: Vec<Cookie> = Vec::new();
        let mut i: usize = 0;
        proof {
            assert(cookie_views(out@) =~~= cookie_views(self.cookies@.take(0)).filter(pred));
        }
        while i < self.cookies.len()
            invariant
                0 <= i <= self.cookies@.len(),
                pred == (|c: CookieV| c.host == domain@),
                cookie_views(out@) == cookie_views(self.cookies@.take(i as int)).filter(pred),
            decreases self.cookies@.len() - i,
        {
            let c = &self.cookies[i];
            let is_match: bool = str_eq(c.host.as_str(), domain.as_str());
            proof {
                assert(is_match == pred(c@));
                let pv = cookie_views(self.cookies@.take(i as int));
                assert(self.cookies@.take(i as int + 1) =~= self.cookies@.take(i as int).push(
                    self.cookies@[i as int],
                ));
                assert(cookie_views(self.cookies@.take(i as int + 1)) =~~= pv.push(c@));
                pv.lemma_filter_push(c@, pred);
                if is_match {
                    assert(cookie_views(out@.push(*c)) =~~= cookie_views(out@).push(c@));
                }
            }
            if is_match {
                let copy = c.clone();
                out.push(copy);
            }
            i = i + 1;
        }
        proof {
            assert(self.cookies@.take(self.cookies@.len() as int) =~= self.cookies@);
        }
        out
    }

    /// The first record of the given `(name, domain)` pair, or nothing
    /// when the mirror holds no such record.
    pub fn cookie_for_domain(&self, name: &String, domain: &String) -> (r: Option<&Cookie>)
        ensures
            (r is Some) == (exists|i: int|
                0 <= i < self@.cookies.len() && cookie_matches(self@.cookies[i], name@, domain@)),
            r matches Some(c) ==> exists|i: int|
                0 <= i < self@.cookies.len() && #[trigger] cookie_matches(
                    self@.cookies[i],
                    name@,
                    domain@,
                ) && c@ == self@.cookies[i] && (forall|k: int|
                    0 <= k < i ==> !cookie_matches(self@.cookies[k], name@, domain@)),
    {
        let mut i: usize = 0;
        while i < self.cookies.len()
            invariant
                0 <= i <= self.cookies@.len(),
                forall|k: int| 0 <= k < i ==> !cookie_matches(self@.cookies[k], name@, domain@),
            decreases self.cookies@.len() - i,
        {
            let c = &self.cookies[i];
            if str_eq(c.host.as_str(), domain.as_str()) && str_eq(c.name.as_str(), name.as_str()) {
                proof {
                    assert(cookie_matches(self@.cookies[i as int], name@, domain@));
                }
                return Some(c);
            }
            i = i + 1;
        }
        None
    }

    /// The parent of an absolute path with the home prefix shortened to
    /// `~`; a relative path is returned as it is. The text after the last
    /// slash is taken to be the file name.
    pub fn path_short(&self, home: &str) -> (r: String)
        ensures
            r@ == spec_path_short(self.path@, home@),
    {
        let p = self.path.as_str();
        let plen: usize = p.unicode_len();
        if plen == 0 || p.get_char(0) != '/' {
            return String::from_str(p);
        }
        let mut j: usize = plen;
        proof {
            assert(p@.take(plen as int) =~= p@);
        }
        while j > 0 && p.get_char(j - 1) != '/'
            invariant
                0 <= j <= plen,
                plen == p@.len(),
                plen > 0,
                p@[0] == '/',
                forall|k: int| j <= k < plen ==> p@[k] != '/',
                spec_strip_file(p@) == spec_strip_file(p@.take(j as int)),
            decreases j,
        {
            proof {
                let t = p@.take(j as int);
                assert(t.last() == p@[j - 1]);
                assert(t.drop_last() =~= p@.take(j as int - 1));
            }
            j = j - 1;
        }
        proof {
            assert(j > 0) by {
                if j == 0 {
                    assert(p@[0] != '/');
                }
            }
            let t = p@.take(j as int);
            assert(t.last() == p@[j - 1]);
            assert(p@[j - 1] == '/');
            assert(t.drop_last() =~= p@.take(j as int - 1));
            assert(spec_strip_file(p@) == p@.take(j as int - 1));
        }
        let parent: String = if j == 1 {
            String::from_str("/")
        } else {
            String::from_str(p.substring_char(0, j - 1))
        };
        proof {
            if j == 1 {
                assert(spec_strip_file(p@).len() == 0);
                assert(parent@ =~= seq!['/']) by {
                    reveal_strlit("/");
                }
                assert(parent@ == spec_parent(p@));
            } else {
                assert(p@.subrange(0, j as int - 1) =~= p@.take(j as int - 1));
                assert(spec_strip_file(p@).len() > 0);
                assert(parent@ == spec_parent(p@));
            }
        }
        replace_all(parent.as_str(), home, "~")
    }
}

/// The path with its trailing file name and the slash before it removed.
pub open spec fn spec_strip_file(p: Seq<char>) -> Seq<char>
    decreases p.len(),
{
    if p.len() == 0 {
        p
    } else if p.last() == '/' {
        p.drop_last()
    } else {
        spec_strip_file(p.drop_last())
    }
}

/// The parent of a path: everything up to the last slash, or the root
/// when nothing is left.
pub open spec fn spec_parent(p: Seq<char>) -> Seq<char> {
    if spec_strip_file(p).len() == 0 {
        seq!['/']
    } else {
        spec_strip_file(p)
    }
}

/// A store's label: for an absolute path, its parent with the home prefix
/// shortened to `~`; a relative path unchanged.
pub open spec fn spec_path_short(p: Seq<char>, home: Seq<char>) -> Seq<char> {
    if p.len() > 0 && p[0] == '/' {
        spec_replace(spec_parent(p), home, "~"@)
    } else {
        p
    }
}

impl Clone for CookieDB {
    /// A clone carries the same ghost value.
    fn clone(&self) -> (r: CookieDB)
        ensures
            r@ == self@,
    {
        let cs = self.cookies.clone();
        proof {
            assert forall|k: int| 0 <= k < self.cookies@.len() implies #[trigger] cs@[k]@
                == self.cookies@[k]@ by {
                assert(vstd::pervasive::cloned::<Cookie>(self.cookies@[k], cs@[k]));
            }
            assert(cookie_views(cs@) =~~= cookie_views(self.cookies@));
        }
        CookieDB { path: self.path.clone(), typing: self.typing, cookies: cs }
    }
}

/// The paths of a sequence of stores, in order.
pub open spec fn spec_store_paths(ds: Seq<CookieDB>) -> Seq<Seq<char>> {
    ds.map_values(|d: CookieDB| d.path@)
}

/// The ghost values of a sequence of stores, in order.
pub open spec fn db_views(ds: Seq<CookieDB>) -> Seq<CookieDBV> {
    ds.map_values(|d: CookieDB| d@)
}

/// The first store of `dbs` whose path reads `p`, if any.
fn find_store_by_path<'a>(dbs: &'a Vec<CookieDB>, p: &str) -> (r: Option<&'a CookieDB>)
    ensures
        (r is Some) == spec_store_paths(dbs@).contains(p@),
        r matches Some(d) ==> exists|m: int|
            0 <= m < dbs@.len() && #[trigger] dbs@[m].path@ == p@ && d@ == dbs@[m]@,
{
    let mut i: usize = 0;
    while i < dbs.len()
        invariant
            0 <= i <= dbs@.len(),
            forall|k: int| 0 <= k < i ==> spec_store_paths(dbs@)[k] != p@,
        decreases dbs@.len() - i,
    {
        let d = &dbs[i];
        if str_eq(d.path.as_str(), p) {
            proof {
                assert(spec_store_paths(dbs@)[i as int] == p@);
                assert(dbs@[i as int].path@ == p@);
            }
            return Some(d);
        }
        i = i + 1;
    }
    proof {
        assert forall|m: int| 0 <= m < dbs@.len() implies #[trigger] spec_store_paths(dbs@)[m]
            != p@ by {}
    }
    None
}

/// The deduplicated, sorted store collection: one store per distinct
/// path, in ascending path order, each taken from the input.
pub fn collect_stores(dbs: &Vec<CookieDB>) -> (r: Vec<CookieDB>)
    ensures
        sorted_le(spec_store_paths(r@)),
        spec_store_paths(r@).no_duplicates(),
        forall|p: Seq<char>|
            spec_store_paths(r@).contains(p) <==> spec_store_paths(dbs@).contains(p),
        forall|k: int| 0 <= k < r@.len() ==> db_views(dbs@).contains(#[trigger] r@[k]@),
{
    let mut paths: Vec<String> = Vec::new();
    let mut i: usize = 0;
    while i < dbs.len()
        invariant
            0 <= i <= dbs@.len(),
            paths@.len() == i,
            forall|k: int| 0 <= k < i ==> views(paths@)[k] == spec_store_paths(dbs@)[k],
        decreases dbs@.len() - i,
    {
        let p = dbs[i].path.clone();
        proof {
            crate::text::lemma_views_push(paths@, p);
            assert(spec_store_paths(dbs@)[i as int] == dbs@[i as int].path@);
        }
        paths.push(p);
        i = i + 1;
    }
    proof {
        assert(views(paths@) =~~= spec_store_paths(dbs@));
    }
    let ghost unsorted = views(paths@);
    sort_strings(&mut paths);
    proof {
        let sorted = views(paths@);
        unsorted.to_multiset_ensures();
        sorted.to_multiset_ensures();
        assert forall|h: Seq<char>| sorted.contains(h) <==> unsorted.contains(h) by {
            assert(sorted.contains(h) <==> sorted.to_multiset().count(h) > 0);
            assert(unsorted.contains(h) <==> unsorted.to_multiset().count(h) > 0);
        }
    }
    let uniq = dedup_strings(&paths);
    let mut out: Vec<CookieDB> = Vec::new();
    let mut k: usize = 0;
    while k < uniq.len()
        invariant
            0 <= k <= uniq@.len(),
            out@.len() == k,
            forall|p: Seq<char>| views(uniq@).contains(p) ==> spec_store_paths(dbs@).contains(p),
            forall|m: int| 0 <= m < k ==> spec_store_paths(out@)[m] == views(uniq@)[m],
            forall|m: int| 0 <= m < k ==> db_views(dbs@).contains(#[trigger] out@[m]@),
        decreases uniq@.len() - k,
    {
        proof {
            assert(views(uniq@)[k as int] == uniq@[k as int]@);
            assert(views(uniq@).contains(views(uniq@)[k as int]));
        }
        match find_store_by_path(dbs, uniq[k].as_str()) {
            Option::Some(d) => {
                let copy = d.clone();
                proof {
                    let w = choose|w: int|
                        0 <= w < dbs@.len() && #[trigger] dbs@[w].path@ == uniq@[k as int]@
                            && d@ == dbs@[w]@;
                    assert(copy@ == dbs@[w]@);
                    assert(db_views(dbs@)[w] == dbs@[w]@);
                    assert(db_views(dbs@).contains(copy@));
                    assert(spec_store_paths(out@.push(copy))[k as int] == copy.path@);
                    assert(forall|m: int|
                        0 <= m < k ==> spec_store_paths(out@.push(copy))[m] == spec_store_paths(
                            out@,
                        )[m]);
                }
                out.push(copy);
            },
            Option::None => {
                proof {
                    assert(spec_store_paths(dbs@).contains(uniq@[k as int]@));
                    assert(false);
                }
            },
        }
        k = k + 1;
    }
    proof {
        assert(spec_store_paths(out@) =~~= views(uniq@));
    }
    out
}

//== Laws of normalization and deletion ==//

/// A normalized timestamp is zero exactly when the stored value is zero.
/// A stored magnitude under one second collapses to zero for the
/// Gecko-style variant, and a Chromium-style value inside the one-second
/// window at the UNIX epoch normalizes to zero as well, so those stored
/// values are left out.
pub proof fn lemma_normalize_zero_iff_zero(t: int, typing: DbType)
    requires
        typing == DbType::Firefox ==> t == 0 || t <= -1_000_000 || t >= 1_000_000,
        typing != DbType::Firefox ==> t == 0 || !(11_644_473_600_000_000 <= t
            < 11_644_473_601_000_000),
    ensures
        (spec_norm_ts(t, typing) == 0) <==> (t == 0),
{
    if t != 0 {
        let secs = if t >= 0 {
            t / 1_000_000
        } else {
            -((-t) / 1_000_000)
        };
        if typing == DbType::Firefox {
            if t >= 1_000_000 {
                assert(t / 1_000_000 >= 1) by (nonlinear_arith)
                    requires
                        t >= 1_000_000,
                ;
            } else {
                assert((-t) / 1_000_000 >= 1) by (nonlinear_arith)
                    requires
                        -t >= 1_000_000,
                ;
            }
        } else {
            if t >= 0 {
                assert(t / 1_000_000 != 11_644_473_600) by (nonlinear_arith)
                    requires
                        t >= 0,
                        !(11_644_473_600_000_000 <= t < 11_644_473_601_000_000),
                ;
            } else {
                assert((-t) / 1_000_000 >= 0) by (nonlinear_arith)
                    requires
                        -t > 0,
                ;
            }
        }
    }
}

/// For the Chromium-style variant, a positive stored timestamp normalizes
/// to its microseconds divided by one million, minus the 11,644,473,600
/// second offset between the 1601 epoch and the UNIX epoch. A stored zero
/// is preserved instead of being shifted, and a negative stored value
/// divides toward zero rather than down, so both are left out.
pub proof fn lemma_normalize_chromium_formula(t: int)
    requires
        t >= 1,
    ensures
        spec_norm_ts(t, DbType::Chrome) == t / 1_000_000 - 11_644_473_600,
{
}

/// After deleting every record of a domain, the per-domain listing of
/// that domain is empty and the domain is gone from the hosts.
pub proof fn lemma_delete_domain_clears(cs: Seq<CookieV>, d: Seq<char>)
    ensures
        ({
            let after = cs.filter(|c: CookieV| spec_keep_cookie(c, d, Seq::empty()));
            after.filter(|c: CookieV| c.host == d).len() == 0 && !spec_hosts(after).contains(d)
        }),
{
    broadcast use vstd::seq_lib::group_filter_ensures;

    let keep = |c: CookieV| spec_keep_cookie(c, d, Seq::empty());
    let after = cs.filter(keep);
    let m = |c: CookieV| c.host == d;
    if after.filter(m).len() > 0 {
        let bad = after.filter(m)[0];
        assert(m(bad));
        assert(after.filter(m).contains(bad));
        after.lemma_filter_contains_rev(m, bad);
        let w = choose|w: int| 0 <= w < after.len() && after[w] == bad;
        assert(keep(after[w]));
        assert(false);
    }
    if spec_hosts(after).contains(d) {
        let w = choose|w: int| 0 <= w < spec_hosts(after).len() && spec_hosts(after)[w] == d;
        assert(spec_hosts(after)[w] == after[w].host);
        assert(keep(after[w]));
        assert(false);
    }
}

/// After deleting the single `(domain, name)` pair, a lookup of that pair
/// finds nothing; every kept record is one of the original records, and
/// every original record of any other pair is kept.
pub proof fn lemma_delete_cookie_removes_pair(cs: Seq<CookieV>, d: Seq<char>, n: Seq<char>)
    requires
        n.len() > 0,
    ensures
        ({
            let after = cs.filter(|c: CookieV| spec_keep_cookie(c, d, n));
            (forall|i: int| 0 <= i < after.len() ==> !cookie_matches(#[trigger] after[i], n, d))
                && (forall|i: int| 0 <= i < after.len() ==> cs.contains(#[trigger] after[i])) && (
            forall|i: int|
                0 <= i < cs.len() && !cookie_matches(#[trigger] cs[i], n, d) ==> after.contains(
                    cs[i],
                ))
        }),
{
    broadcast use vstd::seq_lib::group_filter_ensures;

    let keep = |c: CookieV| spec_keep_cookie(c, d, n);
    let after = cs.filter(keep);
    assert forall|i: int| 0 <= i < after.len() implies cs.contains(#[trigger] after[i]) by {
        assert(after.contains(after[i]));
        cs.lemma_filter_contains_rev(keep, after[i]);
    }
}

} // verus!
