//! Verified text utilities: character-level equality, substring search,
//! lexicographic ordering, splitting, trimming and replacement.
//!
//! Every executable function here carries an exact contract over the
//! `Seq<char>` views of its arguments.

use vstd::prelude::*;
use vstd::string::StrSliceExecFns;
use vstd::string::StringExecFns;

verus! {

/// The views of a sequence of owned strings.
pub open spec fn views(ss: Seq<String>) -> Seq<Seq<char>> {
    ss.map_values(|s: String| s@)
}

/// `q` occurs in `s` starting at position `i`.
pub open spec fn contains_at(s: Seq<char>, q: Seq<char>, i: int) -> bool {
    0 <= i && i + q.len() <= s.len() && s.subrange(i, i + q.len()) == q
}

/// `q` is a (contiguous) substring of `s`.
pub open spec fn contains_sub(s: Seq<char>, q: Seq<char>) -> bool {
    exists|i: int| contains_at(s, q, i)
}

/// Character-by-character string equality.
pub fn str_eq(a: &str, b: &str) -> (r: bool)
    ensures
        r == (a@ == b@),
{
    let alen: usize = a.unicode_len();
    let blen: usize = b.unicode_len();
    if alen != blen {
        return false;
    }
    let mut i: usize = 0;
    while i < alen
        invariant
            0 <= i <= alen,
            alen == a@.len(),
            alen == b@.len(),
            forall|k: int| 0 <= k < i ==> a@[k] == b@[k],
        decreases alen - i,
    {
        if a.get_char(i) != b.get_char(i) {
            return false;
        }
        i = i + 1;
    }
    proof {
        assert(a@ =~= b@);
    }
    true
}

/// Whether `q` occurs in `s` starting at position `i`.
fn matches_at(s: &str, q: &str, i: usize) -> (r: bool)
    requires
        i + q@.len() <= s@.len(),
    ensures
        r == contains_at(s@, q@, i as int),
{
    let slen: usize = s.unicode_len();
    let qlen: usize = q.unicode_len();
    let mut j: usize = 0;
    while j < qlen
        invariant
            0 <= j <= qlen,
            qlen == q@.len(),
            slen == s@.len(),
            i + qlen <= slen,
            forall|k: int| 0 <= k < j ==> s@[i + k] == q@[k],
        decreases qlen - j,
    {
        if s.get_char(i + j) != q.get_char(j) {
            assert(s@.subrange(i as int, i + q@.len()) != q@) by {
                assert(s@.subrange(i as int, i + q@.len())[j as int] != q@[j as int]);
            }
            return false;
        }
        j = j + 1;
    }
    proof {
        assert(s@.subrange(i as int, i + q@.len()) =~= q@);
    }
    true
}

/// Substring search, as `str::contains` does for literal patterns.
pub fn str_contains_sub(s: &str, q: &str) -> (r: bool)
    ensures
        r == contains_sub(s@, q@),
{
    let slen: usize = s.unicode_len();
    let qlen: usize = q.unicode_len();
    if qlen > slen {
        proof {
            assert(forall|i: int| !contains_at(s@, q@, i));
        }
        return false;
    }
    if qlen == 0 {
        proof {
            assert(s@.subrange(0, 0) =~= q@);
            assert(contains_at(s@, q@, 0));
        }
        return true;
    }
    let mut i: usize = 0;
    while i <= slen - qlen
        invariant
            slen == s@.len(),
            qlen == q@.len(),
            0 < qlen <= slen,
            0 <= i <= slen - qlen + 1,
            forall|k: int| 0 <= k < i ==> !contains_at(s@, q@, k),
        decreases slen - qlen - i + 1,
    {
        if matches_at(s, q, i) {
            return true;
        }
        i = i + 1;
    }
    proof {
        assert(forall|k: int| contains_at(s@, q@, k) ==> 0 <= k <= s@.len() - q@.len());
    }
    false
}

/// Strict lexicographic order on character sequences, comparing Unicode
/// code points. For valid UTF-8 this coincides with the byte order `str`
/// sorts by.
pub open spec fn lex_lt(a: Seq<char>, b: Seq<char>) -> bool
    decreases a.len(),
{
    if b.len() == 0 {
        false
    } else if a.len() == 0 {
        true
    } else if (a[0] as u32) < (b[0] as u32) {
        true
    } else if (a[0] as u32) == (b[0] as u32) {
        lex_lt(a.drop_first(), b.drop_first())
    } else {
        false
    }
}

/// Non-strict lexicographic order.
pub open spec fn lex_le(a: Seq<char>, b: Seq<char>) -> bool {
    !lex_lt(b, a)
}

/// Dropping a common prefix does not change the lexicographic comparison.
proof fn lemma_lex_lt_skip(a: Seq<char>, b: Seq<char>, i: int)
    requires
        0 <= i <= a.len(),
        i <= b.len(),
        a.subrange(0, i) == b.subrange(0, i),
    ensures
        lex_lt(a, b) == lex_lt(a.skip(i), b.skip(i)),
    decreases i,
{
    if i == 0 {
        assert(a.skip(0) =~= a);
        assert(b.skip(0) =~= b);
    } else {
        assert(a.subrange(0, i - 1) =~= b.subrange(0, i - 1)) by {
            assert(forall|k: int|
                0 <= k < i - 1 ==> a.subrange(0, i - 1)[k] == a.subrange(0, i)[k]
                    && b.subrange(0, i - 1)[k] == b.subrange(0, i)[k]);
        }
        lemma_lex_lt_skip(a, b, i - 1);
        let x = a.skip(i - 1);
        let y = b.skip(i - 1);
        assert(a[i - 1] == a.subrange(0, i)[i - 1]);
        assert(b[i - 1] == b.subrange(0, i)[i - 1]);
        assert(x[0] == a[i - 1]);
        assert(y[0] == b[i - 1]);
        assert(x[0] == y[0]);
        assert(x.len() > 0);
        assert(y.len() > 0);
        assert(x.drop_first() =~= a.skip(i));
        assert(y.drop_first() =~= b.skip(i));
        assert(lex_lt(x, y) == lex_lt(a.skip(i), b.skip(i)));
    }
}

/// Nothing is strictly below itself.
pub proof fn lemma_lex_lt_not_self(a: Seq<char>)
    ensures
        !lex_lt(a, a),
    decreases a.len(),
{
    if a.len() > 0 {
        lemma_lex_lt_not_self(a.drop_first());
    }
}

/// Strict lexicographic order is transitive.
pub proof fn lemma_lex_lt_trans(a: Seq<char>, b: Seq<char>, c: Seq<char>)
    requires
        lex_lt(a, b),
        lex_lt(b, c),
    ensures
        lex_lt(a, c),
    decreases a.len() + b.len() + c.len(),
{
    if c.len() == 0 {
    } else if b.len() == 0 {
    } else if a.len() == 0 {
    } else {
        if (a[0] as u32) == (b[0] as u32) && (b[0] as u32) == (c[0] as u32) {
            lemma_lex_lt_trans(a.drop_first(), b.drop_first(), c.drop_first());
        }
    }
}

/// A strict comparison is also a non-strict one.
pub proof fn lemma_lex_lt_implies_le(a: Seq<char>, b: Seq<char>)
    requires
        lex_lt(a, b),
    ensures
        lex_le(a, b),
{
    if lex_lt(b, a) {
        lemma_lex_lt_trans(a, b, a);
        lemma_lex_lt_not_self(a);
    }
}

/// Non-strict lexicographic order is transitive.
pub proof fn lemma_lex_le_trans(a: Seq<char>, b: Seq<char>, c: Seq<char>)
    requires
        lex_le(a, b),
        lex_le(b, c),
    ensures
        lex_le(a, c),
    decreases a.len() + b.len() + c.len(),
{
    if c.len() == 0 {
        if a.len() > 0 {
            assert(b.len() == 0);
        }
    } else if a.len() == 0 {
    } else if b.len() == 0 {
    } else {
        if (a[0] as u32) == (b[0] as u32) && (b[0] as u32) == (c[0] as u32) {
            lemma_lex_le_trans(a.drop_first(), b.drop_first(), c.drop_first());
        }
    }
}

/// Character-by-character strict lexicographic comparison.
pub fn str_lt(a: &str, b: &str) -> (r: bool)
    ensures
        r == lex_lt(a@, b@),
{
    let alen: usize = a.unicode_len();
    let blen: usize = b.unicode_len();
    let mut i: usize = 0;
    loop
        invariant
            0 <= i <= alen,
            i <= blen,
            alen == a@.len(),
            blen == b@.len(),
            a@.subrange(0, i as int) == b@.subrange(0, i as int),
        decreases alen - i,
    {
        if i >= blen {
            proof {
                lemma_lex_lt_skip(a@, b@, i as int);
                assert(b@.skip(i as int).len() == 0);
            }
            return false;
        }
        if i >= alen {
            proof {
                lemma_lex_lt_skip(a@, b@, i as int);
                assert(a@.skip(i as int).len() == 0);
                assert(b@.skip(i as int).len() > 0);
            }
            return true;
        }
        let ca = a.get_char(i);
        let cb = b.get_char(i);
        if (ca as u32) < (cb as u32) {
            proof {
                lemma_lex_lt_skip(a@, b@, i as int);
                assert(a@.skip(i as int)[0] == ca);
                assert(b@.skip(i as int)[0] == cb);
            }
            return true;
        }
        if (ca as u32) != (cb as u32) {
            proof {
                lemma_lex_lt_skip(a@, b@, i as int);
                assert(a@.skip(i as int)[0] == ca);
                assert(b@.skip(i as int)[0] == cb);
            }
            return false;
        }
        proof {
            assert(ca == cb);
        }
        proof {
            assert(a@.subrange(0, i + 1) =~= b@.subrange(0, i + 1)) by {
                assert(forall|k: int|
                    0 <= k < i ==> a@.subrange(0, i + 1)[k] == a@.subrange(0, i as int)[k]
                        && b@.subrange(0, i + 1)[k] == b@.subrange(0, i as int)[k]);
                assert(a@.subrange(0, i + 1)[i as int] == ca);
                assert(b@.subrange(0, i + 1)[i as int] == cb);
            }
        }
        i = i + 1;
    }
}

/// Non-strict lexicographic comparison.
pub fn str_le(a: &str, b: &str) -> (r: bool)
    ensures
        r == lex_le(a@, b@),
{
    !str_lt(b, a)
}

/// Appending one string to a sequence of strings appends its view to the
/// sequence of views.
pub proof fn lemma_views_push(ss: Seq<String>, x: String)
    ensures
        views(ss.push(x)) =~~= views(ss).push(x@),
{
}

/// Removing one string from a sequence of strings removes its view from the
/// sequence of views.
pub proof fn lemma_views_remove(ss: Seq<String>, i: int)
    requires
        0 <= i < ss.len(),
    ensures
        views(ss.remove(i)) =~~= views(ss).remove(i),
{
}

/// Inserting one string into a sequence of strings inserts its view into the
/// sequence of views.
pub proof fn lemma_views_insert(ss: Seq<String>, i: int, x: String)
    requires
        0 <= i <= ss.len(),
    ensures
        views(ss.insert(i, x)) =~~= views(ss).insert(i, x@),
{
    assert(views(ss.insert(i, x)).len() == ss.len() + 1);
    ss.insert_ensures(i, x);
    views(ss).insert_ensures(i, x@);
    assert forall|k: int| 0 <= k < ss.len() + 1 implies #[trigger] views(ss.insert(i, x))[k]
        == views(ss).insert(i, x@)[k] by {
        if k < i {
        } else if k == i {
        } else {
            assert(ss.insert(i, x)[k] == ss[k - 1]);
            assert(views(ss).insert(i, x@)[k] == views(ss)[k - 1]);
        }
    }
}

/// Inserting an element anywhere in a sequence adds it to the multiset of
/// elements.
pub proof fn lemma_insert_multiset<A>(s: Seq<A>, i: int, a: A)
    requires
        0 <= i <= s.len(),
    ensures
        s.insert(i, a).to_multiset() =~= s.to_multiset().insert(a),
{
    let pre = s.subrange(0, i);
    let post = s.subrange(i, s.len() as int);
    assert(s.insert(i, a) == pre.push(a) + post);
    vstd::seq_lib::lemma_multiset_commutative(pre.push(a), post);
    pre.to_multiset_ensures();
    assert(pre.push(a).to_multiset() =~= pre.to_multiset().insert(a));
    assert(s =~= pre + post);
    vstd::seq_lib::lemma_multiset_commutative(pre, post);
}

/// The possible results of splitting at a separator character: the sequence
/// of pieces, in order, as `str::split` produces them. Splitting the empty
/// string yields one empty piece.
pub open spec fn spec_split(s: Seq<char>, sep: char) -> Seq<Seq<char>>
    decreases s.len(),
{
    if s.len() == 0 {
        seq![Seq::<char>::empty()]
    } else if s[0] == sep {
        seq![Seq::<char>::empty()] + spec_split(s.drop_first(), sep)
    } else {
        let rest = spec_split(s.drop_first(), sep);
        seq![seq![s[0]] + rest[0]] + rest.drop_first()
    }
}

/// Prepends `pre` to the first piece of `parts`.
pub open spec fn glue_first(pre: Seq<char>, parts: Seq<Seq<char>>) -> Seq<Seq<char>> {
    seq![pre + parts[0]] + parts.drop_first()
}

/// Split `s` at every occurrence of `sep`, keeping empty pieces, as
/// `str::split` does for a character pattern.
pub fn split_char(s: &str, sep: char) -> (r: Vec<String>)
    ensures
        views(r@) == spec_split(s@, sep),
{
    let slen: usize = s.unicode_len();
    let mut r: Vec<String> = Vec::new();
    let mut cur: String = String::new();
    let mut i: usize = 0;
    proof {
        assert(s@.skip(0) =~= s@);
        let parts = spec_split(s@, sep);
        assert(parts.len() >= 1);
        assert(glue_first(cur@, parts) =~~= parts) by {
            assert(cur@ + parts[0] =~= parts[0]);
        }
        assert(views(r@) + glue_first(cur@, parts) =~~= parts);
    }
    while i < slen
        invariant
            0 <= i <= slen,
            slen == s@.len(),
            spec_split(s@, sep) == views(r@) + glue_first(cur@, spec_split(s@.skip(i as int), sep)),
        decreases slen - i,
    {
        let c = s.get_char(i);
        proof {
            let t = s@.skip(i as int);
            assert(t.len() > 0);
            assert(t[0] == s@[i as int]);
            assert(t.drop_first() =~= s@.skip(i as int + 1));
        }
        if c == sep {
            proof {
                let t = s@.skip(i as int);
                let u = spec_split(s@.skip(i as int + 1), sep);
                assert(spec_split(t, sep) == seq![Seq::<char>::empty()] + u);
                assert(glue_first(cur@, spec_split(t, sep)) =~~= seq![cur@] + u);
                lemma_views_push(r@, cur);
                assert(views(r@.push(cur)) + glue_first(Seq::<char>::empty(), u) =~~= views(r@)
                    + glue_first(cur@, spec_split(t, sep))) by {
                    assert(glue_first(Seq::<char>::empty(), u) =~~= u);
                }
            }
            r.push(cur);
            cur = String::new();
            proof {
                assert(cur@ =~= Seq::<char>::empty());
            }
        } else {
            proof {
                let t = s@.skip(i as int);
                let u = spec_split(s@.skip(i as int + 1), sep);
                assert(spec_split(t, sep) == seq![seq![t[0]] + u[0]] + u.drop_first());
                assert(glue_first(cur@, spec_split(t, sep)) =~~= glue_first(cur@.push(c), u)) by {
                    assert(cur@ + (seq![c] + u[0]) =~= cur@.push(c) + u[0]);
                    assert((seq![seq![t[0]] + u[0]] + u.drop_first()).drop_first() =~~= u.drop_first());
                }
            }
            push_char(&mut cur, c);
        }
        i = i + 1;
    }
    proof {
        assert(s@.skip(slen as int).len() == 0);
        assert(spec_split(s@.skip(slen as int), sep) == seq![Seq::<char>::empty()]);
        assert(glue_first(cur@, seq![Seq::<char>::empty()]) =~~= seq![cur@]);
        lemma_views_push(r@, cur);
        assert(views(r@.push(cur)) =~~= views(r@) + seq![cur@]);
    }
    r.push(cur);
    r
}

/// The whitespace characters that line trimming removes.
pub open spec fn is_wsp(c: char) -> bool {
    c == ' ' || c == '\t' || c == '\r' || c == '\n'
}

/// `s` without leading whitespace.
pub open spec fn spec_trim_start(s: Seq<char>) -> Seq<char>
    decreases s.len(),
{
    if s.len() == 0 {
        s
    } else if is_wsp(s[0]) {
        spec_trim_start(s.drop_first())
    } else {
        s
    }
}

/// `s` without trailing whitespace.
pub open spec fn spec_trim_end(s: Seq<char>) -> Seq<char>
    decreases s.len(),
{
    if s.len() == 0 {
        s
    } else if is_wsp(s.last()) {
        spec_trim_end(s.drop_last())
    } else {
        s
    }
}

/// `s` without leading and trailing whitespace.
pub open spec fn spec_trim(s: Seq<char>) -> Seq<char> {
    spec_trim_end(spec_trim_start(s))
}

fn is_wsp_char(c: char) -> (r: bool)
    ensures
        r == is_wsp(c),
{
    c == ' ' || c == '\t' || c == '\r' || c == '\n'
}

/// Remove leading and trailing whitespace.
pub fn trim_str(s: &str) -> (r: String)
    ensures
        r@ == spec_trim(s@),
{
    let slen: usize = s.unicode_len();
    let mut a: usize = 0;
    proof {
        assert(s@.skip(0) =~= s@);
    }
    while a < slen && is_wsp_char(s.get_char(a))
        invariant
            0 <= a <= slen,
            slen == s@.len(),
            spec_trim_start(s@) == spec_trim_start(s@.skip(a as int)),
        decreases slen - a,
    {
        proof {
            let t = s@.skip(a as int);
            assert(t[0] == s@[a as int]);
            assert(t.drop_first() =~= s@.skip(a as int + 1));
        }
        a = a + 1;
    }
    proof {
        let t = s@.skip(a as int);
        if a < slen {
            assert(t[0] == s@[a as int]);
            assert(!is_wsp(t[0]));
        }
        assert(spec_trim_start(t) == t);
    }
    let mut b: usize = slen;
    proof {
        assert(s@.skip(a as int).take(slen - a) =~= s@.skip(a as int));
    }
    while b > a && is_wsp_char(s.get_char(b - 1))
        invariant
            a <= b <= slen,
            slen == s@.len(),
            spec_trim_start(s@) == s@.skip(a as int),
            a < slen ==> !is_wsp(s@[a as int]),
            spec_trim_end(s@.skip(a as int)) == spec_trim_end(
                s@.skip(a as int).take(b - a),
            ),
        decreases b,
    {
        proof {
            let x = s@.skip(a as int).take(b - a);
            assert(x.last() == s@[b - 1]);
            assert(x.drop_last() =~= s@.skip(a as int).take(b - 1 - a));
        }
        b = b - 1;
    }
    proof {
        let x = s@.skip(a as int).take(b - a);
        if b > a {
            assert(x.last() == s@[b - 1]);
            assert(!is_wsp(x.last()));
        }
        assert(spec_trim_end(x) == x);
        assert(x =~= s@.subrange(a as int, b as int));
    }
    let piece = s.substring_char(a, b);
    String::from_str(piece)
}

/// `t` wrapped in double quotes.
pub open spec fn spec_quote(t: Seq<char>) -> Seq<char> {
    seq!['"'] + t + seq!['"']
}

/// Wrap a string in double quotes.
pub fn quote_str(t: &str) -> (r: String)
    ensures
        r@ == spec_quote(t@),
{
    let mut r = String::new();
    push_char(&mut r, '"');
    r.append(t);
    push_char(&mut r, '"');
    proof {
        assert(r@ =~= spec_quote(t@));
    }
    r
}

/// `s` with every leftmost, non-overlapping occurrence of `pat` replaced by
/// `rep`, as `str::replace` does. A pattern without characters replaces
/// nothing.
pub open spec fn spec_replace(s: Seq<char>, pat: Seq<char>, rep: Seq<char>) -> Seq<char>
    decreases s.len(),
{
    if pat.len() == 0 || s.len() < pat.len() {
        s
    } else if s.subrange(0, pat.len() as int) == pat {
        rep + spec_replace(s.skip(pat.len() as int), pat, rep)
    } else {
        seq![s[0]] + spec_replace(s.drop_first(), pat, rep)
    }
}

/// Replace every leftmost, non-overlapping occurrence of `pat` by `rep`.
pub fn replace_all(s: &str, pat: &str, rep: &str) -> (r: String)
    ensures
        r@ == spec_replace(s@, pat@, rep@),
{
    let slen: usize = s.unicode_len();
    let plen: usize = pat.unicode_len();
    if plen == 0 {
        return String::from_str(s);
    }
    let mut out = String::new();
    let mut i: usize = 0;
    proof {
        assert(s@.skip(0) =~= s@);
        assert(out@ + spec_replace(s@, pat@, rep@) =~= spec_replace(s@, pat@, rep@));
    }
    while i < slen
        invariant
            0 <= i <= slen,
            slen == s@.len(),
            plen == pat@.len(),
            plen > 0,
            spec_replace(s@, pat@, rep@) == out@ + spec_replace(s@.skip(i as int), pat@, rep@),
        decreases slen - i,
    {
        proof {
            let t = s@.skip(i as int);
            assert(t[0] == s@[i as int]);
            assert(t.drop_first() =~= s@.skip(i as int + 1));
        }
        if plen <= slen - i && matches_at(s, pat, i) {
            proof {
                let t = s@.skip(i as int);
                assert(t.subrange(0, plen as int) =~= s@.subrange(i as int, i + plen));
                assert(t.subrange(0, plen as int) == pat@);
                assert(t.skip(plen as int) =~= s@.skip(i + plen));
                assert(spec_replace(t, pat@, rep@) == rep@ + spec_replace(
                    s@.skip(i + plen),
                    pat@,
                    rep@,
                ));
            }
            out.append(rep);
            i = i + plen;
        } else {
            let c = s.get_char(i);
            proof {
                let t = s@.skip(i as int);
                if i + plen <= slen {
                    assert(t.subrange(0, plen as int) =~= s@.subrange(i as int, i + plen));
                    assert(!contains_at(s@, pat@, i as int));
                    assert(t.subrange(0, plen as int) != pat@);
                } else {
                    assert(t.len() < plen);
                }
                assert(spec_replace(t, pat@, rep@) == seq![s@[i as int]] + spec_replace(
                    s@.skip(i as int + 1),
                    pat@,
                    rep@,
                ));
                assert(out@.push(c) =~= out@ + seq![s@[i as int]]);
            }
            push_char(&mut out, c);
            i = i + 1;
        }
    }
    proof {
        assert(s@.skip(slen as int).len() == 0);
        assert(spec_replace(s@.skip(slen as int), pat@, rep@) == s@.skip(slen as int));
        assert(out@ + s@.skip(slen as int) =~= out@);
    }
    out
}

/// The sequence of views is sorted, lexicographically, in ascending order.
pub open spec fn sorted_le(vs: Seq<Seq<char>>) -> bool {
    forall|i: int, j: int| 0 <= i < j < vs.len() ==> lex_le(vs[i], vs[j])
}

/// Whether some string of `v` has exactly the view of `s`.
pub fn vec_contains_str(v: &Vec<String>, s: &str) -> (r: bool)
    ensures
        r == views(v@).contains(s@),
{
    let mut i: usize = 0;
    while i < v.len()
        invariant
            0 <= i <= v@.len(),
            forall|k: int| 0 <= k < i ==> views(v@)[k] != s@,
        decreases v@.len() - i,
    {
        if str_eq(v[i].as_str(), s) {
            assert(views(v@)[i as int] == s@);
            return true;
        }
        i = i + 1;
    }
    false
}

/// Sort the strings in ascending lexicographic order. The multiset of
/// string views is preserved.
pub fn sort_strings(v: &mut Vec<String>)
    ensures
        sorted_le(views(final(v)@)),
        views(final(v)@).to_multiset() == views(old(v)@).to_multiset(),
{
    let mut i: usize = 1;
    while i < v.len()
        invariant
            1 <= i || v@.len() == 0,
            i <= v@.len() || v@.len() == 0,
            views(v@).to_multiset() == views(old(v)@).to_multiset(),
            forall|p: int, q: int| 0 <= p < q < i ==> lex_le(views(v@)[p], views(v@)[q]),
        decreases v@.len() - i,
    {
        let mut j: usize = 0;
        while j < i && str_lt(v[j].as_str(), v[i].as_str())
            invariant
                0 <= j <= i < v@.len(),
                forall|k: int| 0 <= k < j ==> lex_lt(views(v@)[k], views(v@)[i as int]),
            decreases i - j,
        {
            j = j + 1;
        }
        let ghost pre = v@;
        let x = v.remove(i);
        let ghost mid = v@;
        v.insert(j, x);
        proof {
            lemma_views_remove(pre, i as int);
            lemma_views_insert(mid, j as int, x);
            views(pre).to_multiset_ensures();
            lemma_insert_multiset(views(mid), j as int, x@);
            assert(views(mid) =~~= views(pre).remove(i as int));
            assert(views(v@) =~~= views(mid).insert(j as int, x@));
            assert(views(v@).to_multiset() =~= views(old(v)@).to_multiset());
            let vs = views(v@);
            let ps = views(pre);
            assert(forall|k: int| 0 <= k < j ==> vs[k] == ps[k]);
            assert(vs[j as int] == ps[i as int]);
            assert(forall|k: int| j < k <= i ==> vs[k] == ps[k - 1]);
            assert forall|p: int, q: int| 0 <= p < q < i + 1 implies lex_le(vs[p], vs[q]) by {
                if q < j {
                    assert(lex_le(ps[p], ps[q]));
                } else if q == j {
                    assert(lex_lt(ps[p], ps[i as int]));
                    lemma_lex_lt_implies_le(ps[p], ps[i as int]);
                } else if p < j {
                    // vs[q] == ps[q - 1] with j <= q - 1 < i
                    if q - 1 == j {
                        assert(lex_le(ps[p], ps[j as int]));
                    } else {
                        assert(lex_le(ps[p], ps[q - 1]));
                    }
                } else if p == j {
                    // x at j; q - 1 in [j, i)
                    assert(j < i);
                    assert(!lex_lt(ps[j as int], ps[i as int]));
                    assert(lex_le(ps[i as int], ps[j as int]));
                    if q - 1 == j {
                    } else {
                        assert(lex_le(ps[j as int], ps[q - 1]));
                        lemma_lex_le_trans(ps[i as int], ps[j as int], ps[q - 1]);
                    }
                } else {
                    assert(vs[p] == ps[p - 1] && vs[q] == ps[q - 1]);
                    assert(lex_le(ps[p - 1], ps[q - 1]));
                }
            }
        }
        i = i + 1;
    }
    proof {
        if v@.len() == 0 {
            assert(views(v@).to_multiset() =~= views(old(v)@).to_multiset());
        }
    }
}

/// Keep the first occurrence of every string, in order. On a sorted input
/// the result is sorted, has no duplicate views, and holds exactly the
/// views of the input.
pub fn dedup_strings(v: &Vec<String>) -> (r: Vec<String>)
    requires
        sorted_le(views(v@)),
    ensures
        sorted_le(views(r@)),
        views(r@).no_duplicates(),
        forall|x: Seq<char>| views(r@).contains(x) <==> views(v@).contains(x),
{
    let mut r: Vec<String> = Vec::new();
    let mut i: usize = 0;
    while i < v.len()
        invariant
            0 <= i <= v@.len(),
            sorted_le(views(v@)),
            sorted_le(views(r@)),
            views(r@).no_duplicates(),
            forall|x: Seq<char>| views(r@).contains(x) ==> views(v@).contains(x),
            forall|k: int| 0 <= k < i ==> views(r@).contains(views(v@)[k]),
            forall|k: int|
                0 <= k < views(r@).len() ==> exists|m: int|
                    0 <= m < i && #[trigger] views(r@)[k] == views(v@)[m],
        decreases v@.len() - i,
    {
        let ghost old_r = r@;
        if !vec_contains_str(&r, v[i].as_str()) {
            let x = v[i].clone();
            r.push(x);
            proof {
                lemma_views_push(old_r, v@[i as int]);
                let vs = views(r@);
                let os = views(old_r);
                assert(vs =~~= os.push(views(v@)[i as int]));
                assert(vs[vs.len() - 1] == views(v@)[i as int]);
                assert(forall|k: int| 0 <= k < os.len() ==> vs[k] == os[k]);
                assert forall|p: int, q: int| 0 <= p < q < vs.len() implies lex_le(vs[p], vs[q]) by {
                    if q == vs.len() - 1 {
                        let m = choose|m: int| 0 <= m < i && os[p] == views(v@)[m];
                        if m < i {
                            assert(lex_le(views(v@)[m], views(v@)[i as int]));
                        }
                    }
                }
                assert forall|k: int| 0 <= k < i + 1 implies vs.contains(views(v@)[k]) by {
                    if k < i {
                        let m = choose|m: int| 0 <= m < os.len() && os[m] == views(v@)[k];
                        assert(vs[m] == views(v@)[k]);
                    } else {
                        assert(vs[vs.len() - 1] == views(v@)[k]);
                    }
                }
                assert forall|k: int|
                    0 <= k < vs.len() implies exists|m: int|
                    0 <= m < i + 1 && #[trigger] vs[k] == views(v@)[m] by {
                    if k < vs.len() - 1 {
                        let m = choose|m: int| 0 <= m < i && #[trigger] os[k] == views(v@)[m];
                        assert(0 <= m < i + 1 && vs[k] == views(v@)[m]);
                    } else {
                        assert(vs[k] == views(v@)[i as int]);
                    }
                }
                assert forall|x2: Seq<char>| vs.contains(x2) implies views(v@).contains(x2) by {
                    let m = choose|m: int| 0 <= m < vs.len() && vs[m] == x2;
                    if m < vs.len() - 1 {
                        assert(os.contains(x2)) by {
                            assert(os[m] == x2);
                        }
                    } else {
                        assert(views(v@)[i as int] == x2);
                    }
                }
            }
        } else {
            proof {
                assert(views(r@).contains(views(v@)[i as int]));
            }
        }
        i = i + 1;
    }
    proof {
        assert forall|x: Seq<char>| views(v@).contains(x) implies views(r@).contains(x) by {
            let m = choose|m: int| 0 <= m < views(v@).len() && views(v@)[m] == x;
            assert(views(r@).contains(views(v@)[m]));
        }
    }
    r
}

/// Relies on `String::push`: appends one character to the end of the string.
#[verifier::external_body]
pub fn push_char(s: &mut String, c: char)
    ensures
        final(s)@ == old(s)@.push(c),
{
    s.push(c)
}

/// Relies on `String::pop`: removes and returns the last character of the
/// string, or returns `None` when it is empty.
#[verifier::external_body]
pub fn pop_char(s: &mut String) -> (r: Option<char>)
    ensures
        old(s)@.len() == 0 ==> final(s)@ == old(s)@ && r is None,
        old(s)@.len() > 0 ==> final(s)@ == old(s)@.drop_last() && r == Some(old(s)@.last()),
{
    s.pop()
}

/// The tail of a joined list: a separator before each remaining piece.
pub open spec fn spec_join_sep_tail(vs: Seq<Seq<char>>, sep: char) -> Seq<char>
    decreases vs.len(),
{
    if vs.len() == 0 {
        Seq::empty()
    } else {
        seq![sep] + vs[0] + spec_join_sep_tail(vs.drop_first(), sep)
    }
}

/// The pieces joined with `sep` between each pair, as `[String]::join`
/// does; no leading or trailing separator.
pub open spec fn spec_join_sep(vs: Seq<Seq<char>>, sep: char) -> Seq<char> {
    if vs.len() == 0 {
        Seq::empty()
    } else {
        vs[0] + spec_join_sep_tail(vs.drop_first(), sep)
    }
}

/// Join the strings with `sep` between each pair.
pub fn join_char(v: &Vec<String>, sep: char) -> (r: String)
    ensures
        r@ == spec_join_sep(views(v@), sep),
{
    let ghost vs = views(v@);
    if v.len() == 0 {
        return String::new();
    }
    let mut out: String = v[0].clone();
    let mut i: usize = 1;
    proof {
        assert(vs.drop_first() =~~= vs.skip(1));
        assert(out@ + spec_join_sep_tail(vs.skip(1), sep) == spec_join_sep(vs, sep));
    }
    while i < v.len()
        invariant
            1 <= i <= v@.len(),
            vs == views(v@),
            vs.len() == v@.len(),
            out@ + spec_join_sep_tail(vs.skip(i as int), sep) == spec_join_sep(vs, sep),
        decreases v@.len() - i,
    {
        let ghost o = out@;
        proof {
            let t = vs.skip(i as int);
            assert(t.len() > 0);
            assert(t[0] == vs[i as int]);
            assert(t.drop_first() =~~= vs.skip(i as int + 1));
            assert(vs[i as int] == v@[i as int]@);
            assert(spec_join_sep_tail(t, sep) == seq![sep] + vs[i as int] + spec_join_sep_tail(
                vs.skip(i as int + 1),
                sep,
            ));
        }
        push_char(&mut out, sep);
        out.append(v[i].as_str());
        proof {
            assert(out@ =~= o.push(sep) + vs[i as int]);
            assert(out@ + spec_join_sep_tail(vs.skip(i as int + 1), sep) =~= o
                + spec_join_sep_tail(vs.skip(i as int), sep));
        }
        i = i + 1;
    }
    proof {
        assert(vs.skip(vs.len() as int).len() == 0);
        assert(spec_join_sep_tail(vs.skip(vs.len() as int), sep) == Seq::<char>::empty());
        assert(out@ + Seq::<char>::empty() =~= out@);
    }
    out
}

} // verus!
