//! The normalized, browser-agnostic representation of one cookie, and the
//! textual presentation of its fields.

use vstd::prelude::*;
use vstd::string::StrSliceExecFns;
use vstd::string::StringExecFns;
use chrono::TimeZone;
use crate::text::{views, spec_split, sorted_le, split_char, sort_strings, vec_contains_str,
    str_eq};
use crate::config::{encrypted_value_label, all_fields_label};

verus! {

/// The ghost value of one cookie record.
pub ghost struct CookieV {
    /// The domain that created the cookie.
    pub host: Seq<char>,
    /// The name of the cookie.
    pub name: Seq<char>,
    /// The value stored in the cookie.
    pub value: Seq<char>,
    /// The URL path of the domain where the cookie applies.
    pub path: Seq<char>,
    /// The creation timestamp in UNIX epoch seconds.
    pub creation: int,
    /// The expiry timestamp in UNIX epoch seconds; 0 for a session cookie.
    pub expiry: int,
    /// The last access timestamp in UNIX epoch seconds.
    pub last_access: int,
    /// Whether scripts are barred from reading the cookie.
    pub http_only: bool,
    /// Whether the cookie is only sent over encrypted connections.
    pub secure: bool,
    /// The SameSite code: 2 Strict, 1 Lax, 0 None (-1 is accepted as None).
    pub samesite: int,
    /// The encrypted value, present only for the Chromium-style schema.
    pub encrypted_value: Seq<u8>,
}

/// One cookie record, normalized across both database schemas.
#[derive(Debug)]
pub struct Cookie {
    /// The domain that created the cookie.
    pub host: String,
    /// The name of the cookie.
    pub name: String,
    /// The value stored in the cookie.
    pub value: String,
    /// The URL path of the domain where the cookie applies.
    pub path: String,
    /// The creation timestamp in UNIX epoch seconds.
    pub creation: i64,
    /// The expiry timestamp in UNIX epoch seconds.
    /// Set to 0 for cookies that expire at the end of a session.
    pub expiry: i64,
    /// The last access timestamp in UNIX epoch seconds.
    pub last_access: i64,
    /// If this attribute is set, the client cannot manipulate the cookie
    /// using scripts locally in the browser.
    pub http_only: bool,
    /// Indicates that the cookie should only be set over an encrypted
    /// connection.
    pub secure: bool,
    /// The SameSite attribute: 2 Strict, 1 Lax, 0 None; both schemas use
    /// the same numeric convention, and -1 is treated as None.
    pub samesite: i32,
    /// The encrypted value of a cookie, unique to the Chromium-style
    /// schema; empty otherwise.
    pub encrypted_value: Vec<u8>,
}

impl View for Cookie {
    type V = CookieV;

    open spec fn view(&self) -> CookieV {
        CookieV {
            host: self.host@,
            name: self.name@,
            value: self.value@,
            path: self.path@,
            creation: self.creation as int,
            expiry: self.expiry as int,
            last_access: self.last_access as int,
            http_only: self.http_only,
            secure: self.secure,
            samesite: self.samesite as int,
            encrypted_value: self.encrypted_value@,
        }
    }
}

impl Clone for Cookie {
    /// A clone carries the same ghost value.
    fn clone(&self) -> (r: Cookie)
        ensures
            r@ == self@,
    {
        Cookie {
            host: self.host.clone(),
            name: self.name.clone(),
            value: self.value.clone(),
            path: self.path.clone(),
            creation: self.creation,
            expiry: self.expiry,
            last_access: self.last_access,
            http_only: self.http_only,
            secure: self.secure,
            samesite: self.samesite,
            encrypted_value: self.encrypted_value.clone(),
        }
    }
}

/// The formatted text of a UTC timestamp, a function of the epoch value
/// alone.
pub uninterp spec fn utc_text_of(epoch: i64) -> Seq<char>;

/// Relies on chrono's `TimeZone::timestamp_opt` for `Utc` and on the
/// `Display` of `DateTime<Utc>`: the text is a function of the epoch value
/// alone. An out-of-range epoch falls back to the epoch origin.
#[verifier::external_body]
fn date_fmt(epoch: i64) -> (r: String)
    ensures
        r@ == utc_text_of(epoch),
{
    let dt = match chrono::Utc.timestamp_opt(epoch, 0) {
        chrono::LocalResult::Single(s) => s,
        chrono::LocalResult::Ambiguous(e, _) => e,
        _ => chrono::Utc.timestamp_opt(0, 0).unwrap(),
    };
    dt.to_string()
}

/// The ten field names, in the fixed order the listing walks them.
pub open spec fn spec_field_names() -> Seq<Seq<char>> {
    seq![
        "Host"@,
        "Name"@,
        "Value"@,
        "Path"@,
        "Creation"@,
        "Expiry"@,
        "LastAccess"@,
        "HttpOnly"@,
        "Secure"@,
        "SameSite"@,
    ]
}

/// `f` is one of the ten known field names.
pub open spec fn is_field_name(f: Seq<char>) -> bool {
    spec_field_names().contains(f)
}

/// The heading put before a field's value: nothing without `use_name`,
/// `name: ` plainly, or wrapped in the bold-white terminal escape when
/// colored.
pub open spec fn spec_field_prefix(name: Seq<char>, use_name: bool, color: bool) -> Seq<char> {
    if use_name {
        if color {
            "\u{1b}[97;1m"@ + name + ":\u{1b}[0m "@
        } else {
            name + ": "@
        }
    } else {
        Seq::empty()
    }
}

/// The text shown for the cookie's value: the stored value, or a fixed
/// placeholder when only an encrypted form is present.
pub open spec fn spec_value_text(c: CookieV) -> Seq<char> {
    if c.value.len() == 0 && c.encrypted_value.len() > 0 {
        "********"@
    } else {
        c.value
    }
}

/// The text of a boolean field.
pub open spec fn spec_bool_text(b: bool) -> Seq<char> {
    if b {
        "true"@
    } else {
        "false"@
    }
}

/// The name of a SameSite code; -1 and 0 both read as None.
pub open spec fn spec_samesite_text(code: int) -> Seq<char> {
    if code == 2 {
        "Strict"@
    } else if code == 1 {
        "Lax"@
    } else {
        "None"@
    }
}

/// The formatted text of one field of a cookie.
pub open spec fn spec_match_field(c: CookieV, f: Seq<char>, use_name: bool, color: bool) -> Seq<
    char,
> {
    let p = spec_field_prefix(f, use_name, color);
    if f == "Host"@ {
        p + c.host
    } else if f == "Name"@ {
        p + c.name
    } else if f == "Value"@ {
        p + spec_value_text(c)
    } else if f == "Path"@ {
        p + c.path
    } else if f == "Creation"@ {
        p + utc_text_of(c.creation as i64)
    } else if f == "Expiry"@ {
        p + utc_text_of(c.expiry as i64)
    } else if f == "LastAccess"@ {
        p + utc_text_of(c.last_access as i64)
    } else if f == "HttpOnly"@ {
        p + spec_bool_text(c.http_only)
    } else if f == "Secure"@ {
        p + spec_bool_text(c.secure)
    } else if f == "SameSite"@ {
        p + spec_samesite_text(c.samesite)
    } else {
        Seq::empty()
    }
}

/// A field is listed when the selector is the `All` meta option or names it
/// in its comma-separated list.
pub open spec fn spec_field_included(selector: Seq<char>, name: Seq<char>) -> bool {
    selector == "All"@ || spec_split(selector, ',').contains(name)
}

/// The field lines of a cookie for a selector: each included field's
/// formatted text, in field order, empty texts dropped.
pub open spec fn spec_field_lines(
    c: CookieV,
    selector: Seq<char>,
    use_name: bool,
    color: bool,
) -> Seq<Seq<char>> {
    spec_field_names().filter(|f: Seq<char>| spec_field_included(selector, f)).map_values(
        |f: Seq<char>| spec_match_field(c, f, use_name, color),
    ).filter(|t: Seq<char>| t.len() > 0)
}

/// Lines joined by newlines, as `[String]::join("\n")` does.
pub open spec fn spec_join_tail(vs: Seq<Seq<char>>) -> Seq<char>
    decreases vs.len(),
{
    if vs.len() == 0 {
        Seq::empty()
    } else {
        seq!['\n'] + vs[0] + spec_join_tail(vs.drop_first())
    }
}

/// Lines joined by newlines; no trailing newline.
pub open spec fn spec_join_nl(vs: Seq<Seq<char>>) -> Seq<char> {
    if vs.len() == 0 {
        Seq::empty()
    } else {
        vs[0] + spec_join_tail(vs.drop_first())
    }
}

/// Join the strings with a newline between each pair.
fn join_newline(v: &Vec<String>) -> (r: String)
    ensures
        r@ == spec_join_nl(views(v@)),
{
    let ghost vs = views(v@);
    if v.len() == 0 {
        return String::new();
    }
    let mut out: String = v[0].clone();
    let mut i: usize = 1;
    proof {
        assert(vs.drop_first() =~~= vs.skip(1));
        assert(out@ + spec_join_tail(vs.skip(1)) == spec_join_nl(vs));
    }
    while i < v.len()
        invariant
            1 <= i <= v@.len(),
            vs == views(v@),
            vs.len() == v@.len(),
            out@ + spec_join_tail(vs.skip(i as int)) == spec_join_nl(vs),
        decreases v@.len() - i,
    {
        let ghost o = out@;
        proof {
            let t = vs.skip(i as int);
            assert(t.len() > 0);
            assert(t[0] == vs[i as int]);
            assert(t.drop_first() =~~= vs.skip(i as int + 1));
            assert(vs[i as int] == v@[i as int]@);
            assert(spec_join_tail(t) == seq!['\n'] + vs[i as int] + spec_join_tail(
                vs.skip(i as int + 1),
            ));
        }
        crate::text::push_char(&mut out, '\n');
        out.append(v[i].as_str());
        proof {
            assert(out@ =~= o.push('\n') + vs[i as int]);
            assert(out@ + spec_join_tail(vs.skip(i as int + 1)) =~= o + spec_join_tail(
                vs.skip(i as int),
            ));
        }
        i = i + 1;
    }
    proof {
        assert(vs.skip(vs.len() as int).len() == 0);
        assert(spec_join_tail(vs.skip(vs.len() as int)) == Seq::<char>::empty());
        assert(out@ + Seq::<char>::empty() =~= out@);
    }
    out
}

impl Cookie {
    /// Create formatted output for a given field: an optional heading
    /// (plain or colored) followed by the field's text.
    pub fn match_field(&self, field_name: &str, use_name: bool, color: bool) -> (r: String)
        requires
            is_field_name(field_name@),
            -1 <= self.samesite <= 2,
        ensures
            r@ == spec_match_field(self@, field_name@, use_name, color),
    {
        let value_part: String = if str_eq(field_name, "Host") {
            self.host.clone()
        } else if str_eq(field_name, "Name") {
            self.name.clone()
        } else if str_eq(field_name, "Value") {
            if self.value.as_str().unicode_len() == 0 && self.encrypted_value.len() > 0 {
                String::from_str(encrypted_value_label())
            } else {
                self.value.clone()
            }
        } else if str_eq(field_name, "Path") {
            self.path.clone()
        } else if str_eq(field_name, "Creation") {
            date_fmt(self.creation)
        } else if str_eq(field_name, "Expiry") {
            date_fmt(self.expiry)
        } else if str_eq(field_name, "LastAccess") {
            date_fmt(self.last_access)
        } else if str_eq(field_name, "HttpOnly") {
            String::from_str(if self.http_only { "true" } else { "false" })
        } else if str_eq(field_name, "Secure") {
            String::from_str(if self.secure { "true" } else { "false" })
        } else {
            proof {
                let names = spec_field_names();
                let m = choose|m: int| 0 <= m < names.len() && names[m] == field_name@;
                assert(names[0] == "Host"@);
                assert(names[1] == "Name"@);
                assert(names[2] == "Value"@);
                assert(names[3] == "Path"@);
                assert(names[4] == "Creation"@);
                assert(names[5] == "Expiry"@);
                assert(names[6] == "LastAccess"@);
                assert(names[7] == "HttpOnly"@);
                assert(names[8] == "Secure"@);
                assert(names[9] == "SameSite"@);
                assert(m == 9);
                assert(field_name@ == "SameSite"@);
            }
            String::from_str(
                if self.samesite == 2 {
                    "Strict"
                } else if self.samesite == 1 {
                    "Lax"
                } else {
                    "None"
                },
            )
        };
        let mut out = String::new();
        if use_name {
            if color {
                out.append("\u{1b}[97;1m");
                out.append(field_name);
                out.append(":\u{1b}[0m ");
            } else {
                out.append(field_name);
                out.append(": ");
            }
        }
        out.append(value_part.as_str());
        proof {
            assert(out@ =~= spec_match_field(self@, field_name@, use_name, color));
        }
        out
    }

    /// Construct a newline-separated string with the selected fields'
    /// formatted texts, in ascending lexicographic order. The `fields`
    /// selector is a comma-separated list of field names, or `All`.
    pub fn fields_as_str(&self, fields: &String, use_name: bool, color: bool) -> (r: String)
        requires
            -1 <= self.samesite <= 2,
        ensures
            exists|vs: Seq<Seq<char>>|
                sorted_le(vs) && vs.to_multiset() == spec_field_lines(
                    self@,
                    fields@,
                    use_name,
                    color,
                ).to_multiset() && r@ == spec_join_nl(vs),
    {
        let parts = split_char(fields.as_str(), ',');
        let all = str_eq(fields.as_str(), all_fields_label());
        let mut lines: Vec<String> = Vec::new();
        let mut k: usize = 0;
        proof {
            assert(spec_field_names().take(0) =~~= Seq::<Seq<char>>::empty());
            assert(views(lines@) =~~= Seq::<Seq<char>>::empty());
            assert(spec_field_lines_take(self@, fields@, use_name, color, 0) =~~= Seq::<
                Seq<char>,
            >::empty());
        }
        while k < 10
            invariant
                0 <= k <= 10,
                -1 <= self.samesite <= 2,
                all == (fields@ == "All"@),
                views(parts@) == spec_split(fields@, ','),
                views(lines@) == spec_field_lines_take(self@, fields@, use_name, color, k as int),
            decreases 10 - k,
        {
            let name: &'static str = if k == 0 {
                "Host"
            } else if k == 1 {
                "Name"
            } else if k == 2 {
                "Value"
            } else if k == 3 {
                "Path"
            } else if k == 4 {
                "Creation"
            } else if k == 5 {
                "Expiry"
            } else if k == 6 {
                "LastAccess"
            } else if k == 7 {
                "HttpOnly"
            } else if k == 8 {
                "Secure"
            } else {
                "SameSite"
            };
            proof {
                assert(name@ == spec_field_names()[k as int]);
                assert(is_field_name(name@)) by {
                    assert(spec_field_names()[k as int] == name@);
                }
            }
            let included: bool = all || vec_contains_str(&parts, name);
            if included {
                let line = self.match_field(name, use_name, color);
                if line.as_str().unicode_len() > 0 {
                    proof {
                        crate::text::lemma_views_push(lines@, line);
                    }
                    lines.push(line);
                }
            }
            proof {
                lemma_field_lines_take_step(self@, fields@, use_name, color, k as int);
                assert(views(lines@) =~~= spec_field_lines_take(
                    self@,
                    fields@,
                    use_name,
                    color,
                    k as int + 1,
                ));
            }
            k = k + 1;
        }
        proof {
            lemma_field_lines_take_all(self@, fields@, use_name, color);
        }
        sort_strings(&mut lines);
        let r = join_newline(&lines);
        proof {
            let vs = views(lines@);
            assert(sorted_le(vs) && vs.to_multiset() == spec_field_lines(
                self@,
                fields@,
                use_name,
                color,
            ).to_multiset() && r@ == spec_join_nl(vs));
        }
        r
    }
}

/// The field lines drawn from the first `k` field names only.
pub open spec fn spec_field_lines_take(
    c: CookieV,
    selector: Seq<char>,
    use_name: bool,
    color: bool,
    k: int,
) -> Seq<Seq<char>> {
    spec_field_names().take(k).filter(|f: Seq<char>| spec_field_included(selector, f)).map_values(
        |f: Seq<char>| spec_match_field(c, f, use_name, color),
    ).filter(|t: Seq<char>| t.len() > 0)
}

/// Extending the walked prefix by one field name appends that field's line
/// exactly when it is included and its text is not empty.
proof fn lemma_field_lines_take_step(
    c: CookieV,
    selector: Seq<char>,
    use_name: bool,
    color: bool,
    k: int,
)
    requires
        0 <= k < spec_field_names().len(),
    ensures
        ({
            let f = spec_field_names()[k];
            let line = spec_match_field(c, f, use_name, color);
            let prev = spec_field_lines_take(c, selector, use_name, color, k);
            let next = spec_field_lines_take(c, selector, use_name, color, k + 1);
            if spec_field_included(selector, f) && line.len() > 0 {
                next == prev.push(line)
            } else {
                next == prev
            }
        }),
{
    let names = spec_field_names();
    let f = names[k];
    let inc = |g: Seq<char>| spec_field_included(selector, g);
    let fmt = |g: Seq<char>| spec_match_field(c, g, use_name, color);
    let nonempty = |t: Seq<char>| t.len() > 0;
    assert(names.take(k + 1) =~~= names.take(k).push(f));
    names.take(k).lemma_filter_push(f, inc);
    if inc(f) {
        let filtered = names.take(k).filter(inc);
        assert(filtered.push(f).map_values(fmt) =~~= filtered.map_values(fmt).push(fmt(f)));
        filtered.map_values(fmt).lemma_filter_push(fmt(f), nonempty);
    }
}

/// Walking all ten field names yields the field lines.
proof fn lemma_field_lines_take_all(c: CookieV, selector: Seq<char>, use_name: bool, color: bool)
    ensures
        spec_field_lines_take(c, selector, use_name, color, 10) == spec_field_lines(
            c,
            selector,
            use_name,
            color,
        ),
{
    assert(spec_field_names().take(10) =~~= spec_field_names());
}

} // verus!
