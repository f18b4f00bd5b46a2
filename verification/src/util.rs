//! Database-file classification and whitelist parsing.

use vstd::prelude::*;
use vstd::string::StrSliceExecFns;
use crate::text::{
    views, spec_split, spec_trim, spec_quote, split_char, trim_str, quote_str,
};

verus! {

/// Which browser's on-disk cookie schema a database file uses.
#[derive(Debug, PartialEq, Eq, Structural, Clone, Copy)]
pub enum DbType {
    Chrome,
    Firefox,
    Unknown,
}

/// The file begins with the fixed 15-byte magic of an SQLite database.
pub open spec fn spec_is_sqlite_header(h: Seq<u8>) -> bool {
    h.len() >= 15 && (forall|i: int| 0 <= i < 15 ==> h[i] == ("SQLite format 3"@)[i] as u8)
}

/// Whether `header` starts with the fixed 15-byte SQLite file magic.
/// A file without it is not a cookie database of either schema.
pub fn is_sqlite_magic(header: &[u8]) -> (r: bool)
    ensures
        r == spec_is_sqlite_header(header@),
{
    proof {
        reveal_strlit("SQLite format 3");
    }
    let magic: &str = "SQLite format 3";
    if !magic.is_ascii() {
        proof {
            assert(false);
        }
        return false;
    }
    if header.len() < 15 {
        return false;
    }
    let mut i: usize = 0;
    while i < 15
        invariant
            0 <= i <= 15,
            header@.len() >= 15,
            magic@ == "SQLite format 3"@,
            magic@.len() == 15,
            vstd::string::is_ascii(magic),
            forall|k: int| 0 <= k < i ==> header@[k] == ("SQLite format 3"@)[k] as u8,
        decreases 15 - i,
    {
        let b = magic.get_ascii(i);
        if header[i] != b {
            return false;
        }
        i = i + 1;
    }
    true
}

/// A trimmed whitelist line is kept when it is neither empty nor a comment.
pub open spec fn keep_line(t: Seq<char>) -> bool {
    t.len() > 0 && t[0] != '#'
}

/// The kept lines, each trimmed and wrapped in double quotes, in order.
pub open spec fn spec_whitelist_lines(lines: Seq<Seq<char>>) -> Seq<Seq<char>>
    decreases lines.len(),
{
    if lines.len() == 0 {
        Seq::empty()
    } else {
        let t = spec_trim(lines[0]);
        let rest = spec_whitelist_lines(lines.drop_first());
        if keep_line(t) {
            seq![spec_quote(t)] + rest
        } else {
            rest
        }
    }
}

/// What parsing a whole whitelist file yields: its newline-separated lines,
/// trimmed, with blank lines and `#` comments dropped, each remaining host
/// wrapped in explicit double quotes.
pub open spec fn spec_parse_whitelist(text: Seq<char>) -> Seq<Seq<char>> {
    spec_whitelist_lines(spec_split(text, '\n'))
}

/// Parse the domains from a newline-separated whitelist, skipping blank
/// lines and lines that start with `#`. Each entry is returned with
/// explicit quotes surrounding it.
pub fn parse_whitelist(text: &str) -> (r: Vec<String>)
    ensures
        views(r@) == spec_parse_whitelist(text@),
{
    let lines = split_char(text, '\n');
    let mut r: Vec<String> = Vec::new();
    let mut i: usize = 0;
    let ghost ls = views(lines@);
    proof {
        assert(ls.skip(0) =~~= ls);
    }
    while i < lines.len()
        invariant
            0 <= i <= lines@.len(),
            ls == views(lines@),
            ls == spec_split(text@, '\n'),
            spec_whitelist_lines(ls) == views(r@) + spec_whitelist_lines(ls.skip(i as int)),
        decreases lines@.len() - i,
    {
        proof {
            let t = ls.skip(i as int);
            assert(t.len() > 0);
            assert(t[0] == ls[i as int]);
            assert(t.drop_first() =~~= ls.skip(i as int + 1));
            assert(ls[i as int] == lines@[i as int]@);
        }
        let trimmed = trim_str(lines[i].as_str());
        let is_kept: bool = trimmed.as_str().unicode_len() > 0 && trimmed.as_str().get_char(0)
            != '#';
        if is_kept {
            let q = quote_str(trimmed.as_str());
            proof {
                crate::text::lemma_views_push(r@, q);
                let t = ls.skip(i as int);
                assert(spec_whitelist_lines(t) == seq![spec_quote(spec_trim(ls[i as int]))]
                    + spec_whitelist_lines(ls.skip(i as int + 1)));
                assert(views(r@.push(q)) =~~= views(r@) + seq![q@]);
            }
            r.push(q);
        } else {
            proof {
                let t = ls.skip(i as int);
                assert(!keep_line(spec_trim(ls[i as int])));
                assert(spec_whitelist_lines(t) == spec_whitelist_lines(ls.skip(i as int + 1)));
            }
        }
        i = i + 1;
    }
    proof {
        assert(ls.skip(ls.len() as int).len() == 0);
        assert(spec_whitelist_lines(ls.skip(ls.len() as int)) =~~= Seq::<Seq<char>>::empty());
        assert(views(r@) + Seq::<Seq<char>>::empty() =~~= views(r@));
    }
    r
}

} // verus!
