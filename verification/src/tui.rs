//! The interaction controller: it consumes keyboard events, applies them to
//! the navigation state and, for deletions, to the underlying cookie store,
//! keeping every selection cursor on a valid index.

use vstd::prelude::*;
use vstd::string::StrSliceExecFns;
use crate::config::NO_SELECTION;
use crate::cookie::CookieV;
use crate::cookie_db::{CookieDB, StoreError};
use crate::state::{State, Selection, spec_next_idx, spec_prev_idx};
use crate::text::{views, contains_sub, str_contains_sub};

verus! {

/// One keyboard event the controller understands.
#[derive(PartialEq, Eq, Structural, Clone, Copy, Debug)]
pub enum Key {
    Left,
    Right,
    Up,
    Down,
    Enter,
    Backspace,
    Esc,
    Char(char),
}

/// The indices at or after `from` whose label contains `q`, ascending.
pub open spec fn spec_match_idxs(items: Seq<Seq<char>>, q: Seq<char>, from: int) -> Seq<usize>
    decreases items.len() - from,
{
    if from < 0 || from >= items.len() {
        Seq::empty()
    } else if contains_sub(items[from], q) {
        seq![from as usize] + spec_match_idxs(items, q, from + 1)
    } else {
        spec_match_idxs(items, q, from + 1)
    }
}

/// What the match list holds: exactly the indices whose label contains the
/// query, each in range, in strictly ascending order.
pub proof fn lemma_match_idxs_props(items: Seq<Seq<char>>, q: Seq<char>, from: int)
    requires
        0 <= from,
        items.len() <= usize::MAX,
    ensures
        forall|k: int|
            0 <= k < spec_match_idxs(items, q, from).len() ==> from <= ((
            #[trigger] spec_match_idxs(items, q, from)[k]) as int) && ((spec_match_idxs(
                items,
                q,
                from,
            )[k]) as int) < items.len() && contains_sub(
                items[spec_match_idxs(items, q, from)[k] as int],
                q,
            ),
        forall|k1: int, k2: int|
            0 <= k1 < k2 < spec_match_idxs(items, q, from).len() ==> (spec_match_idxs(
                items,
                q,
                from,
            )[k1] as int) < (spec_match_idxs(items, q, from)[k2] as int),
        forall|j: int|
            from <= j < items.len() ==> (contains_sub(#[trigger] items[j], q)
                <==> spec_match_idxs(items, q, from).contains(j as usize)),
    decreases items.len() - from,
{
    let idxs = spec_match_idxs(items, q, from);
    if from >= items.len() {
        assert forall|j: int| from <= j < items.len() implies (contains_sub(#[trigger] items[j], q)
            <==> idxs.contains(j as usize)) by {}
    } else {
        lemma_match_idxs_props(items, q, from + 1);
        let rest = spec_match_idxs(items, q, from + 1);
        if contains_sub(items[from], q) {
            assert(idxs == seq![from as usize] + rest);
            assert(idxs[0] == from as usize);
            assert(forall|k: int| 1 <= k < idxs.len() ==> idxs[k] == rest[k - 1]);
            assert forall|j: int| from <= j < items.len() implies (contains_sub(
                #[trigger] items[j],
                q,
            ) <==> idxs.contains(j as usize)) by {
                if j == from {
                    assert(idxs[0] == j as usize);
                    assert(idxs.contains(j as usize));
                } else {
                    if contains_sub(items[j], q) {
                        let w = choose|w: int| 0 <= w < rest.len() && rest[w] == j as usize;
                        assert(idxs[w + 1] == j as usize);
                        assert(idxs.contains(j as usize));
                    }
                    if idxs.contains(j as usize) {
                        let w = choose|w: int| 0 <= w < idxs.len() && idxs[w] == j as usize;
                        assert(w != 0);
                        assert(rest[w - 1] == j as usize);
                        assert(rest.contains(j as usize));
                    }
                }
            }
        } else {
            assert(idxs == rest);
            assert forall|j: int| from <= j < items.len() implies (contains_sub(
                #[trigger] items[j],
                q,
            ) <==> idxs.contains(j as usize)) by {
                if j == from {
                    if idxs.contains(j as usize) {
                        let w = choose|w: int| 0 <= w < idxs.len() && idxs[w] == j as usize;
                        assert(rest[w] == j as usize);
                        assert((rest[w] as int) >= from + 1);
                    }
                }
            }
        }
    }
}

/// Append to `search_matches` every index of `items` whose label contains
/// the query; report whether the list is non-empty afterwards.
pub fn set_matches(items: &Vec<String>, q: &String, search_matches: &mut Vec<usize>) -> (r: bool)
    ensures
        final(search_matches)@ == old(search_matches)@ + spec_match_idxs(views(items@), q@, 0),
        r == (final(search_matches)@.len() != 0),
{
    let ghost its = views(items@);
    let mut i: usize = 0;
    proof {
        assert(old(search_matches)@ + spec_match_idxs(its, q@, 0) =~= search_matches@
            + spec_match_idxs(its, q@, 0));
    }
    while i < items.len()
        invariant
            0 <= i <= items@.len(),
            its == views(items@),
            its.len() == items@.len(),
            old(search_matches)@ + spec_match_idxs(its, q@, 0) == search_matches@
                + spec_match_idxs(its, q@, i as int),
        decreases items@.len() - i,
    {
        proof {
            assert(its[i as int] == items@[i as int]@);
        }
        if str_contains_sub(items[i].as_str(), q.as_str()) {
            proof {
                assert(spec_match_idxs(its, q@, i as int) == seq![i as usize] + spec_match_idxs(
                    its,
                    q@,
                    i as int + 1,
                ));
                assert(search_matches@ + spec_match_idxs(its, q@, i as int) =~= search_matches@.push(
                    i as usize,
                ) + spec_match_idxs(its, q@, i as int + 1));
            }
            search_matches.push(i);
        } else {
            proof {
                assert(spec_match_idxs(its, q@, i as int) == spec_match_idxs(
                    its,
                    q@,
                    i as int + 1,
                ));
            }
        }
        i = i + 1;
    }
    proof {
        assert(spec_match_idxs(its, q@, items@.len() as int) =~= Seq::<usize>::empty());
        assert(search_matches@ + Seq::<usize>::empty() =~= search_matches@);
    }
    search_matches.len() != 0
}

/// The selection level's lists other than the active one are unchanged,
/// and the active one keeps its items and moves its cursor to `idx`.
pub open spec fn cursor_moved_to(o: &State, f: &State, idx: usize) -> bool {
    match o.selection {
        Selection::Profiles => f.profiles.items == o.profiles.items && f.profiles.selected
            == Option::Some(idx) && f.current_domains == o.current_domains && f.current_cookies
            == o.current_cookies,
        Selection::Domains => f.current_domains.items == o.current_domains.items
            && f.current_domains.selected == Option::Some(idx) && f.profiles == o.profiles
            && f.current_cookies == o.current_cookies,
        Selection::Cookies => f.current_cookies.items == o.current_cookies.items
            && f.current_cookies.selected == Option::Some(idx) && f.profiles == o.profiles
            && f.current_domains == o.current_domains,
    }
}

/// Move the active level's cursor to the list index of the currently
/// selected match. The match cursor indexes `search_matches`, whose
/// entries are indices into the active list.
pub fn select_match_in_current_split(state: &mut State)
    requires
        old(state).wf(),
        old(state).search_matches@.len() > 0,
    ensures
        final(state).wf(),
        final(state).selection == old(state).selection,
        final(state).search_open == old(state).search_open,
        final(state).search_field == old(state).search_field,
        final(state).search_matches == old(state).search_matches,
        final(state).selected_match == old(state).selected_match,
        final(state).current_fields == old(state).current_fields,
        cursor_moved_to(
            old(state),
            final(state),
            old(state).search_matches@[old(state).selected_match as int],
        ),
{
    let list_idx: usize = state.search_matches[state.selected_match];
    match state.selection {
        Selection::Profiles => {
            state.profiles.selected = Option::Some(list_idx);
        },
        Selection::Domains => {
            state.current_domains.selected = Option::Some(list_idx);
        },
        Selection::Cookies => {
            state.current_cookies.selected = Option::Some(list_idx);
        },
    }
}

/// What committing a search does: the input line closes and empties, the
/// matches become exactly the indices of the active list whose label
/// contains the query, and, when there is any match, the match cursor
/// rewinds to the first one and the active list selects it; with no match
/// every cursor stays put.
pub open spec fn search_commit_post(o: &State, f: &State) -> bool {
    let idxs = spec_match_idxs(o.active_items(), o.search_field@, 0);
    f.selection == o.selection && !f.search_open && f.search_field@ == Seq::<char>::empty()
        && f.search_matches@ == idxs && f.current_fields == o.current_fields && if idxs.len() > 0 {
        f.selected_match == 0 && cursor_moved_to(o, f, idxs[0])
    } else {
        f.selected_match == o.selected_match && f.profiles == o.profiles && f.current_domains
            == o.current_domains && f.current_cookies == o.current_cookies
    }
}

/// Everything except the search input line is unchanged.
pub open spec fn only_field_changed(o: &State, f: &State) -> bool {
    f.selection == o.selection && f.search_open == o.search_open && f.search_matches
        == o.search_matches && f.selected_match == o.selected_match && f.profiles == o.profiles
        && f.current_domains == o.current_domains && f.current_cookies == o.current_cookies
        && f.current_fields == o.current_fields
}

/// Apply one key of the search input line: typed characters extend the
/// query, Backspace shortens it, Escape cancels without moving any
/// cursor, Enter commits the search against the active level's list.
pub fn handle_search_key(code: Key, state: &mut State)
    requires
        old(state).wf(),
    ensures
        final(state).wf(),
        code == Key::Enter ==> search_commit_post(old(state), final(state)),
        code matches Key::Char(c) ==> only_field_changed(old(state), final(state)) && final(state).search_field@ == old(state).search_field@.push(c),
        code == Key::Backspace ==> only_field_changed(old(state), final(state)) && final(state).search_field@ == (if old(state).search_field@.len() > 0 {
            old(state).search_field@.drop_last()
        } else {
            old(state).search_field@
        }),
        code == Key::Esc ==> final(state).search_field@ == Seq::<char>::empty() && !final(state).search_open && final(state).selection == old(state).selection && final(state).profiles
            == old(state).profiles && final(state).current_domains == old(state).current_domains
            && final(state).current_cookies == old(state).current_cookies && final(state).current_fields == old(state).current_fields && final(state).search_matches == old(state).search_matches && final(state).selected_match == old(state).selected_match,
        !(code == Key::Enter || code matches Key::Char(_) || code == Key::Backspace || code
            == Key::Esc) ==> *final(state) == *old(state),
{
    match code {
        Key::Enter => {
            state.search_open = false;
            state.search_matches = Vec::new();
            let query = state.search_field.clone();
            state.search_field = String::new();
            let ghost o = *old(state);
            proof {
                assert(state.active_items() == o.active_items());
            }
            let active_n: usize = match state.selection {
                Selection::Profiles => state.profiles.items.len(),
                Selection::Domains => state.current_domains.items.len(),
                Selection::Cookies => state.current_cookies.items.len(),
            };
            proof {
                assert(o.active_items().len() == active_n as int);
            }
            let found: bool = match state.selection {
                Selection::Profiles => set_matches(
                    &state.profiles.items,
                    &query,
                    &mut state.search_matches,
                ),
                Selection::Domains => set_matches(
                    &state.current_domains.items,
                    &query,
                    &mut state.search_matches,
                ),
                Selection::Cookies => set_matches(
                    &state.current_cookies.items,
                    &query,
                    &mut state.search_matches,
                ),
            };
            proof {
                assert(state.search_matches@ =~= spec_match_idxs(o.active_items(), query@, 0));
                lemma_match_idxs_props(o.active_items(), query@, 0);
            }
            if found {
                state.selected_match = 0;
                select_match_in_current_split(state);
            }
        },
        Key::Char(c) => {
            crate::text::push_char(&mut state.search_field, c);
        },
        Key::Backspace => {
            crate::text::pop_char(&mut state.search_field);
        },
        Key::Esc => {
            state.search_field = String::new();
            state.search_open = false;
        },
        _ => {},
    }
}

/// The search session is unchanged.
pub open spec fn same_search(o: &State, f: &State) -> bool {
    f.search_open == o.search_open && f.search_field == o.search_field && f.search_matches
        == o.search_matches && f.selected_match == o.selected_match
}

/// What moving left (shallower) does: the cursor of the level being left
/// is cleared, the matches are invalidated, and the level above becomes
/// active; at the top nothing happens.
pub open spec fn left_post(o: &State, f: &State) -> bool {
    match o.selection {
        Selection::Profiles => *f == *o,
        Selection::Domains => f.selection == Selection::Profiles && f.current_domains.items
            == o.current_domains.items && f.current_domains.selected is None
            && f.search_matches@.len() == 0 && f.profiles == o.profiles && f.current_cookies
            == o.current_cookies && f.current_fields == o.current_fields && f.search_open
            == o.search_open && f.search_field == o.search_field && f.selected_match
            == o.selected_match,
        Selection::Cookies => f.selection == Selection::Domains && f.current_cookies.items
            == o.current_cookies.items && f.current_cookies.selected is None
            && f.search_matches@.len() == 0 && f.profiles == o.profiles && f.current_domains
            == o.current_domains && f.current_fields == o.current_fields && f.search_open
            == o.search_open && f.search_field == o.search_field && f.selected_match
            == o.selected_match,
    }
}

/// What moving right (deeper) does: when the next level's list is
/// non-empty, its first item is selected, the matches are invalidated and
/// the match cursor reset; otherwise nothing happens. The Cookies level is
/// the deepest.
pub open spec fn right_post(o: &State, f: &State) -> bool {
    match o.selection {
        Selection::Profiles => if o.current_domains.items@.len() > 0 {
            f.selection == Selection::Domains && f.current_domains.items
                == o.current_domains.items && f.current_domains.selected == Option::Some(0usize)
                && f.search_matches@.len() == 0 && f.selected_match == NO_SELECTION && f.profiles
                == o.profiles && f.current_cookies == o.current_cookies && f.current_fields
                == o.current_fields && f.search_open == o.search_open && f.search_field
                == o.search_field
        } else {
            *f == *o
        },
        Selection::Domains => if o.current_cookies.items@.len() > 0 {
            f.selection == Selection::Cookies && f.current_cookies.items
                == o.current_cookies.items && f.current_cookies.selected == Option::Some(0usize)
                && f.search_matches@.len() == 0 && f.selected_match == NO_SELECTION && f.profiles
                == o.profiles && f.current_domains == o.current_domains && f.current_fields
                == o.current_fields && f.search_open == o.search_open && f.search_field
                == o.search_field
        } else {
            *f == *o
        },
        Selection::Cookies => *f == *o,
    }
}

/// What stepping through the active list does: its cursor moves one step
/// with wraparound, everything else stays.
pub open spec fn step_post(o: &State, f: &State, forward: bool) -> bool {
    let len = o.active_len();
    let moved = if forward {
        spec_next_idx(active_cursor(o), len)
    } else {
        spec_prev_idx(active_cursor(o), len)
    };
    f.selection == o.selection && same_search(o, f) && f.current_fields == o.current_fields
        && match o.selection {
        Selection::Profiles => f.profiles.items == o.profiles.items && f.profiles.selected
            == moved && f.current_domains == o.current_domains && f.current_cookies
            == o.current_cookies,
        Selection::Domains => f.current_domains.items == o.current_domains.items
            && f.current_domains.selected == moved && f.profiles == o.profiles
            && f.current_cookies == o.current_cookies,
        Selection::Cookies => f.current_cookies.items == o.current_cookies.items
            && f.current_cookies.selected == moved && f.profiles == o.profiles
            && f.current_domains == o.current_domains,
    }
}

/// The cursor of the active level.
pub open spec fn active_cursor(o: &State) -> Option<usize> {
    match o.selection {
        Selection::Profiles => o.profiles.selected,
        Selection::Domains => o.current_domains.selected,
        Selection::Cookies => o.current_cookies.selected,
    }
}

/// The match cursor one step forward, wrapping past the last match.
pub open spec fn spec_match_next(m: int, len: int) -> int {
    if m != len - 1 {
        m + 1
    } else {
        0
    }
}

/// The match cursor one step backward, wrapping before the first match.
pub open spec fn spec_match_prev(m: int, len: int) -> int {
    if m != 0 {
        m - 1
    } else {
        len - 1
    }
}

/// Stepping forward and then backward through the matches, or backward
/// and then forward, returns the match cursor to where it started.
pub proof fn lemma_match_step_inverse(m: int, len: int)
    requires
        0 <= m < len,
    ensures
        spec_match_prev(spec_match_next(m, len), len) == m,
        spec_match_next(spec_match_prev(m, len), len) == m,
{
}

/// What moving through the matches does: the match cursor advances (or
/// retreats) one step with wraparound and the active list selects that
/// match's index; with no matches nothing happens.
pub open spec fn match_step_post(o: &State, f: &State, forward: bool) -> bool {
    let len = o.search_matches@.len() as int;
    if len > 0 {
        let m = if forward {
            spec_match_next(o.selected_match as int, len)
        } else {
            spec_match_prev(o.selected_match as int, len)
        };
        f.selected_match == m && f.search_matches == o.search_matches && f.search_open
            == o.search_open && f.search_field == o.search_field && f.current_fields
            == o.current_fields && f.selection == o.selection && cursor_moved_to(
            o,
            f,
            o.search_matches@[m],
        )
    } else {
        *f == *o
    }
}

/// The deletion applies: a profile is selected and indexes a store, and a
/// domain is selected.
pub open spec fn delete_applies(o: &State, dbs: Seq<CookieDB>) -> bool {
    match o.profiles.selected {
        Option::Some(pi) => (pi as int) < dbs.len() && o.current_domains.selected is Some,
        Option::None => false,
    }
}

/// What deleting every cookie of the selected domain does: the store at
/// the selected profile drops every record of that domain (file first,
/// then mirror), the matches are invalidated, the domain leaves the list,
/// and the domain cursor is rebalanced - cleared entirely when the list
/// became empty (back to Profiles-level navigation), stepped back by one
/// when the removed index was the last.
pub open spec fn domain_delete_post(
    o: &State,
    f: &State,
    odbs: Seq<CookieDB>,
    fdbs: Seq<CookieDB>,
    pi: int,
    di: int,
) -> bool {
    let d = views(o.current_domains.items@)[di];
    let newlen = o.current_domains.items@.len() - 1;
    &&& fdbs.len() == odbs.len()
    &&& forall|k: int| 0 <= k < odbs.len() && k != pi ==> fdbs[k] == odbs[k]
    &&& fdbs[pi].path@ == odbs[pi].path@
    &&& fdbs[pi].typing == odbs[pi].typing
    &&& fdbs[pi]@.cookies == odbs[pi]@.cookies.filter(
        |c: CookieV| crate::cookie_db::spec_keep_cookie(c, d, Seq::empty()),
    )
    &&& f.search_matches@.len() == 0
    &&& f.selected_match == NO_SELECTION
    &&& f.current_domains.items@ == o.current_domains.items@.remove(di)
    &&& (if newlen == 0 {
        f.current_domains.selected is None && f.selection == Selection::Profiles
    } else {
        f.selection == o.selection && f.current_domains.selected == Option::Some(
            (if di == newlen {
                di - 1
            } else {
                di
            }) as usize,
        )
    })
    &&& f.profiles == o.profiles
    &&& f.current_cookies == o.current_cookies
    &&& f.current_fields == o.current_fields
    &&& f.search_open == o.search_open
    &&& f.search_field == o.search_field
}

/// What deleting the selected cookie does: the store drops the single
/// `(domain, name)` record, the matches are invalidated, the name leaves
/// the cookie list and its cursor is rebalanced. When the cookie list
/// becomes empty the domain disappears with it: the domain list shrinks
/// and rebalances by the same rule, and navigation moves up one level -
/// or to the Profiles level when that was also the last domain.
pub open spec fn cookie_delete_post(
    o: &State,
    f: &State,
    odbs: Seq<CookieDB>,
    fdbs: Seq<CookieDB>,
    pi: int,
    di: int,
    ci: int,
) -> bool {
    let d = views(o.current_domains.items@)[di];
    let n = views(o.current_cookies.items@)[ci];
    let clen = o.current_cookies.items@.len() - 1;
    let dlen = o.current_domains.items@.len() - 1;
    &&& fdbs.len() == odbs.len()
    &&& forall|k: int| 0 <= k < odbs.len() && k != pi ==> fdbs[k] == odbs[k]
    &&& fdbs[pi].path@ == odbs[pi].path@
    &&& fdbs[pi].typing == odbs[pi].typing
    &&& fdbs[pi]@.cookies == odbs[pi]@.cookies.filter(
        |c: CookieV| crate::cookie_db::spec_keep_cookie(c, d, n),
    )
    &&& f.search_matches@.len() == 0
    &&& f.selected_match == NO_SELECTION
    &&& f.current_cookies.items@ == o.current_cookies.items@.remove(ci)
    &&& f.profiles == o.profiles
    &&& f.current_fields == o.current_fields
    &&& f.search_open == o.search_open
    &&& f.search_field == o.search_field
    &&& (if clen == 0 {
        &&& f.current_cookies.selected is None
        &&& f.current_domains.items@ == o.current_domains.items@.remove(di)
        &&& (if dlen == 0 {
            f.current_domains.selected is None && f.selection == Selection::Profiles
        } else {
            f.selection == Selection::Domains && f.current_domains.selected == Option::Some(
                (if di == dlen {
                    di - 1
                } else {
                    di
                }) as usize,
            )
        })
    } else {
        &&& f.selection == o.selection
        &&& f.current_domains == o.current_domains
        &&& f.current_cookies.selected == Option::Some(
            (if ci == clen {
                ci - 1
            } else {
                ci
            }) as usize,
        )
    })
}

/// What a successful deletion key does, for every shape of the selection.
pub open spec fn delete_post(o: &State, f: &State, odbs: Seq<CookieDB>, fdbs: Seq<CookieDB>) -> bool {
    match (o.profiles.selected, o.current_domains.selected) {
        (Option::Some(pi), Option::Some(di)) => if (pi as int) < odbs.len() {
            match o.selection {
                Selection::Profiles => *f == *o && fdbs == odbs,
                Selection::Domains => domain_delete_post(o, f, odbs, fdbs, pi as int, di as int),
                Selection::Cookies => match o.current_cookies.selected {
                    Option::Some(ci) => cookie_delete_post(
                        o,
                        f,
                        odbs,
                        fdbs,
                        pi as int,
                        di as int,
                        ci as int,
                    ),
                    Option::None => *f == *o && fdbs == odbs,
                },
            }
        } else {
            *f == *o && fdbs == odbs
        },
        _ => *f == *o && fdbs == odbs,
    }
}

/// Delete the currently selected cookie when the Cookies level is active,
/// or every cookie of the selected domain when the Domains level is. The
/// backing file is written first; a failed write aborts the cascade
/// before any cursor or list is touched. When no deletion applies - no
/// profile or domain suitably selected, the Profiles level active, or no
/// cookie selected at the Cookies level - the call succeeds and changes
/// nothing. Deleting the sole remaining cookie of the sole remaining
/// domain leaves both the domain and the cookie cursor unset.
pub fn delete_in_current_split(state: &mut State, cookie_dbs: &mut Vec<CookieDB>) -> (r: Result<
    (),
    StoreError,
>)
    requires
        old(state).wf(),
    ensures
        final(state).wf(),
        r matches Err(e) ==> e == StoreError::MutationWrite,
        r is Err ==> *final(state) == *old(state) && final(cookie_dbs)@ == old(cookie_dbs)@,
        r is Ok ==> delete_post(old(state), final(state), old(cookie_dbs)@, final(cookie_dbs)@),
        (old(state).selection == Selection::Profiles || !delete_applies(
            old(state),
            old(cookie_dbs)@,
        ) || (old(state).selection == Selection::Cookies
            && old(state).current_cookies.selected is None)) ==> r is Ok,
        (r is Ok && old(state).selection == Selection::Cookies && delete_applies(
            old(state),
            old(cookie_dbs)@,
        ) && old(state).current_cookies.selected is Some && old(state).current_cookies.items@.len() <= 1 && old(state).current_domains.items@.len() <= 1) ==> final(state).current_cookies.selected is None && final(state).current_domains.selected is None,
{
    let pi: usize = match state.profiles.selected {
        Option::Some(pi) => pi,
        Option::None => {
            return Ok(());
        },
    };
    if pi >= cookie_dbs.len() {
        return Ok(());
    }
    let di: usize = match state.current_domains.selected {
        Option::Some(di) => di,
        Option::None => {
            return Ok(());
        },
    };
    let domain: String = state.current_domains.items[di].clone();
    match state.selection {
        Selection::Profiles => Ok(()),
        Selection::Domains => {
            let ghost odbs = cookie_dbs@;
            let mut db = cookie_dbs.remove(pi);
            let ghost mid = cookie_dbs@;
            let res = db.delete_from_domain(domain.as_str(), "");
            cookie_dbs.insert(pi, db);
            proof {
                odbs.remove_ensures(pi as int);
                mid.insert_ensures(pi as int, db);
                assert(cookie_dbs@[pi as int] == db);
                assert forall|k: int|
                    0 <= k < odbs.len() && k != pi implies cookie_dbs@[k] == odbs[k] by {
                    if k < pi {
                        assert(mid[k] == odbs[k]);
                        assert(cookie_dbs@[k] == mid[k]);
                    } else {
                        assert(mid[k - 1] == odbs[k]);
                        assert(cookie_dbs@[k] == mid[k - 1]);
                    }
                }
            }
            match res {
                Result::Err(e) => {
                    proof {
                        assert(cookie_dbs@ =~= odbs);
                    }
                    Err(e)
                },
                Result::Ok(_) => {
                    proof {
                        reveal_strlit("");
                        assert(""@ =~= Seq::<char>::empty());
                        assert(views(old(state).current_domains.items@)[di as int] == old(
                            state,
                        ).current_domains.items@[di as int]@);
                        assert(domain@ == views(old(state).current_domains.items@)[di as int]);
                    }
                    state.search_matches = Vec::new();
                    state.selected_match = NO_SELECTION;
                    state.current_domains.items.remove(di);
                    let newlen = state.current_domains.items.len();
                    if newlen == 0 {
                        state.current_domains.selected = Option::None;
                        state.selection = Selection::Profiles;
                    } else if di == newlen {
                        state.current_domains.selected = Option::Some(di - 1);
                    } else {
                        state.current_domains.selected = Option::Some(di);
                    }
                    Ok(())
                },
            }
        },
        Selection::Cookies => {
            let ci: usize = match state.current_cookies.selected {
                Option::Some(ci) => ci,
                Option::None => {
                    return Ok(());
                },
            };
            let name: String = state.current_cookies.items[ci].clone();
            let ghost odbs = cookie_dbs@;
            let mut db = cookie_dbs.remove(pi);
            let ghost mid = cookie_dbs@;
            let res = db.delete_from_domain(domain.as_str(), name.as_str());
            cookie_dbs.insert(pi, db);
            proof {
                odbs.remove_ensures(pi as int);
                mid.insert_ensures(pi as int, db);
                assert(cookie_dbs@[pi as int] == db);
                assert forall|k: int|
                    0 <= k < odbs.len() && k != pi implies cookie_dbs@[k] == odbs[k] by {
                    if k < pi {
                        assert(mid[k] == odbs[k]);
                        assert(cookie_dbs@[k] == mid[k]);
                    } else {
                        assert(mid[k - 1] == odbs[k]);
                        assert(cookie_dbs@[k] == mid[k - 1]);
                    }
                }
            }
            match res {
                Result::Err(e) => {
                    proof {
                        assert(cookie_dbs@ =~= odbs);
                    }
                    Err(e)
                },
                Result::Ok(_) => {
                    proof {
                        assert(views(old(state).current_domains.items@)[di as int] == old(
                            state,
                        ).current_domains.items@[di as int]@);
                        assert(domain@ == views(old(state).current_domains.items@)[di as int]);
                        assert(views(old(state).current_cookies.items@)[ci as int] == old(
                            state,
                        ).current_cookies.items@[ci as int]@);
                        assert(name@ == views(old(state).current_cookies.items@)[ci as int]);
                    }
                    state.search_matches = Vec::new();
                    state.selected_match = NO_SELECTION;
                    state.current_cookies.items.remove(ci);
                    let clen = state.current_cookies.items.len();
                    if clen == 0 {
                        state.current_cookies.selected = Option::None;
                        state.current_domains.items.remove(di);
                        let dlen = state.current_domains.items.len();
                        if dlen == 0 {
                            state.current_domains.selected = Option::None;
                            state.selection = Selection::Profiles;
                        } else {
                            state.selection = Selection::Domains;
                            if di == dlen {
                                state.current_domains.selected = Option::Some(di - 1);
                            } else {
                                state.current_domains.selected = Option::Some(di);
                            }
                        }
                    } else if ci == clen {
                        state.current_cookies.selected = Option::Some(ci - 1);
                    } else {
                        state.current_cookies.selected = Option::Some(ci);
                    }
                    Ok(())
                },
            }
        },
    }
}

/// Apply one key of normal navigation. Arrow keys and their vi aliases
/// move between and within the levels, `/` opens the search line, `n` and
/// `N` walk the matches, and `D` deletes at the active level; every other
/// key does nothing.
pub fn handle_key(code: Key, state: &mut State, cookie_dbs: &mut Vec<CookieDB>) -> (r: Result<
    (),
    StoreError,
>)
    requires
        old(state).wf(),
    ensures
        final(state).wf(),
        (code == Key::Left || code == Key::Char('h')) ==> r is Ok && left_post(
            old(state),
            final(state),
        ) && final(cookie_dbs)@ == old(cookie_dbs)@,
        (code == Key::Down || code == Key::Char('j')) ==> r is Ok && step_post(
            old(state),
            final(state),
            true,
        ) && final(cookie_dbs)@ == old(cookie_dbs)@,
        (code == Key::Up || code == Key::Char('k')) ==> r is Ok && step_post(
            old(state),
            final(state),
            false,
        ) && final(cookie_dbs)@ == old(cookie_dbs)@,
        (code == Key::Right || code == Key::Char('l')) ==> r is Ok && right_post(
            old(state),
            final(state),
        ) && final(cookie_dbs)@ == old(cookie_dbs)@,
        code == Key::Char('/') ==> r is Ok && final(state).search_open && final(state).selection
            == old(state).selection && final(state).search_field == old(state).search_field
            && final(state).search_matches == old(state).search_matches && final(state).selected_match == old(state).selected_match && final(state).profiles == old(state).profiles && final(state).current_domains == old(state).current_domains && final(state).current_cookies == old(state).current_cookies && final(cookie_dbs)@ == old(cookie_dbs)@,
        code == Key::Char('n') ==> r is Ok && match_step_post(old(state), final(state), true)
            && final(cookie_dbs)@ == old(cookie_dbs)@,
        code == Key::Char('N') ==> r is Ok && match_step_post(old(state), final(state), false)
            && final(cookie_dbs)@ == old(cookie_dbs)@,
        code == Key::Char('D') ==> (r is Ok ==> delete_post(
            old(state),
            final(state),
            old(cookie_dbs)@,
            final(cookie_dbs)@,
        )) && (r is Err ==> *final(state) == *old(state) && final(cookie_dbs)@ == old(cookie_dbs)@ && (r matches Err(e) ==> e == StoreError::MutationWrite)),
        (code == Key::Char('D') && (old(state).selection == Selection::Profiles || !delete_applies(
            old(state),
            old(cookie_dbs)@,
        ) || (old(state).selection == Selection::Cookies
            && old(state).current_cookies.selected is None))) ==> r is Ok,
        !(code == Key::Left || code == Key::Right || code == Key::Up || code == Key::Down || code
            matches Key::Char(_)) ==> r is Ok && *final(state) == *old(state) && final(cookie_dbs)@ == old(cookie_dbs)@,
        (code matches Key::Char(c) && !(c == 'h' || c == 'j' || c == 'k' || c == 'l' || c == '/'
            || c == 'n' || c == 'N' || c == 'D')) ==> r is Ok && *final(state) == *old(state)
            && final(cookie_dbs)@ == old(cookie_dbs)@,
{
    let is_left: bool = code == Key::Left || code == Key::Char('h');
    let is_down: bool = code == Key::Down || code == Key::Char('j');
    let is_up: bool = code == Key::Up || code == Key::Char('k');
    let is_right: bool = code == Key::Right || code == Key::Char('l');
    if is_left {
        match state.selection {
            Selection::Profiles => {},
            Selection::Domains => {
                state.current_domains.selected = Option::None;
                state.search_matches = Vec::new();
                state.selection = Selection::Profiles;
            },
            Selection::Cookies => {
                state.current_cookies.selected = Option::None;
                state.search_matches = Vec::new();
                state.selection = Selection::Domains;
            },
        }
        Ok(())
    } else if is_down {
        match state.selection {
            Selection::Profiles => state.profiles.next(),
            Selection::Domains => state.current_domains.next(),
            Selection::Cookies => state.current_cookies.next(),
        }
        Ok(())
    } else if is_up {
        match state.selection {
            Selection::Profiles => state.profiles.previous(),
            Selection::Domains => state.current_domains.previous(),
            Selection::Cookies => state.current_cookies.previous(),
        }
        Ok(())
    } else if is_right {
        match state.selection {
            Selection::Profiles => {
                if state.current_domains.items.len() > 0 {
                    state.current_domains.selected = Option::Some(0);
                    state.search_matches = Vec::new();
                    state.selected_match = NO_SELECTION;
                    state.selection = Selection::Domains;
                }
            },
            Selection::Domains => {
                if state.current_cookies.items.len() > 0 {
                    state.current_cookies.selected = Option::Some(0);
                    state.search_matches = Vec::new();
                    state.selected_match = NO_SELECTION;
                    state.selection = Selection::Cookies;
                }
            },
            Selection::Cookies => {},
        }
        Ok(())
    } else {
        match code {
            Key::Char(c) => {
                if c == '/' {
                    state.search_open = true;
                    Ok(())
                } else if c == 'n' {
                    if state.search_matches.len() > 0 {
                        let last: usize = state.search_matches.len() - 1;
                        state.selected_match = if state.selected_match != last {
                            state.selected_match + 1
                        } else {
                            0
                        };
                        select_match_in_current_split(state);
                    }
                    Ok(())
                } else if c == 'N' {
                    if state.search_matches.len() > 0 {
                        state.selected_match = if state.selected_match != 0 {
                            state.selected_match - 1
                        } else {
                            state.search_matches.len() - 1
                        };
                        select_match_in_current_split(state);
                    }
                    Ok(())
                } else if c == 'D' {
                    delete_in_current_split(state, cookie_dbs)
                } else {
                    Ok(())
                }
            },
            _ => Ok(()),
        }
    }
}

} // verus!
