//! The interactive navigation state: selectable lists with wraparound
//! cursors, the four-level selection model, and the search session.

use vstd::prelude::*;
use crate::config::NO_SELECTION;
use crate::cookie_db::{CookieDB, spec_path_short};
use crate::text::views;

verus! {

/// A list of items with a selection cursor.
pub struct StatefulList<T> {
    /// The selected index, if any; never past the end of `items`.
    pub selected: Option<usize>,
    /// The items shown in the list.
    pub items: Vec<T>,
}

/// Where a forward step with wraparound puts the cursor: the next index,
/// the first after the last, the first when nothing was selected; on an
/// empty list the cursor does not move.
pub open spec fn spec_next_idx(sel: Option<usize>, len: int) -> Option<usize> {
    if len == 0 {
        sel
    } else {
        match sel {
            Option::Some(i) => if i as int >= len - 1 {
                Option::Some(0usize)
            } else {
                Option::Some((i + 1) as usize)
            },
            Option::None => Option::Some(0usize),
        }
    }
}

/// Where a backward step with wraparound puts the cursor: the previous
/// index, the last before the first, the first when nothing was selected;
/// on an empty list the cursor does not move.
pub open spec fn spec_prev_idx(sel: Option<usize>, len: int) -> Option<usize> {
    if len == 0 {
        sel
    } else {
        match sel {
            Option::Some(i) => if i == 0 {
                Option::Some((len - 1) as usize)
            } else {
                Option::Some((i - 1) as usize)
            },
            Option::None => Option::Some(0usize),
        }
    }
}

/// The cursor after `n` forward steps.
pub open spec fn iter_next(sel: Option<usize>, len: int, n: nat) -> Option<usize>
    decreases n,
{
    if n == 0 {
        sel
    } else {
        spec_next_idx(iter_next(sel, len, (n - 1) as nat), len)
    }
}

/// The cursor after `n` backward steps.
pub open spec fn iter_prev(sel: Option<usize>, len: int, n: nat) -> Option<usize>
    decreases n,
{
    if n == 0 {
        sel
    } else {
        spec_prev_idx(iter_prev(sel, len, (n - 1) as nat), len)
    }
}

/// After `n` forward steps from index `i` the cursor stands at `i + n`,
/// brought back into range once it passes the end.
proof fn lemma_iter_next_value(i: int, len: int, n: nat)
    requires
        0 <= i < len,
        len <= usize::MAX,
        n <= len,
    ensures
        iter_next(Option::Some(i as usize), len, n) == Option::Some(
            (if i + n < len {
                i + n
            } else {
                i + n - len
            }) as usize,
        ),
    decreases n,
{
    if n > 0 {
        lemma_iter_next_value(i, len, (n - 1) as nat);
    }
}

/// After `n` backward steps from index `i` the cursor stands at `i - n`,
/// brought back into range once it passes the start.
proof fn lemma_iter_prev_value(i: int, len: int, n: nat)
    requires
        0 <= i < len,
        len <= usize::MAX,
        n <= len,
    ensures
        iter_prev(Option::Some(i as usize), len, n) == Option::Some(
            (if i - n >= 0 {
                i - n
            } else {
                i - n + len
            }) as usize,
        ),
    decreases n,
{
    if n > 0 {
        lemma_iter_prev_value(i, len, (n - 1) as nat);
    }
}

/// On a non-empty list, as many forward steps as the list has items
/// return the cursor to where it started.
pub proof fn lemma_next_cycle_identity(i: int, len: int)
    requires
        0 <= i < len,
        len <= usize::MAX,
    ensures
        iter_next(Option::Some(i as usize), len, len as nat) == Option::Some(i as usize),
{
    lemma_iter_next_value(i, len, len as nat);
}

/// On a non-empty list, as many backward steps as the list has items
/// return the cursor to where it started.
pub proof fn lemma_prev_cycle_identity(i: int, len: int)
    requires
        0 <= i < len,
        len <= usize::MAX,
    ensures
        iter_prev(Option::Some(i as usize), len, len as nat) == Option::Some(i as usize),
{
    lemma_iter_prev_value(i, len, len as nat);
}

impl<T> StatefulList<T> {
    /// The cursor never points past the end of the items.
    pub open spec fn wf(&self) -> bool {
        self.selected matches Option::Some(i) ==> (i as int) < self.items@.len()
    }

    /// An empty, unselected list.
    pub fn default() -> (r: StatefulList<T>)
        ensures
            r.items@.len() == 0,
            r.selected is None,
            r.wf(),
    {
        StatefulList { selected: Option::None, items: Vec::new() }
    }

    /// Move the cursor forward by one with wraparound; select the first
    /// item when nothing is selected. On an empty list nothing happens.
    pub fn next(&mut self)
        requires
            old(self).wf(),
        ensures
            final(self).items == old(self).items,
            final(self).selected == spec_next_idx(
                old(self).selected,
                old(self).items@.len() as int,
            ),
            final(self).wf(),
    {
        if self.items.len() == 0 {
            return ;
        }
        let i: usize = match self.selected {
            Option::Some(i) => if i >= self.items.len() - 1 {
                0
            } else {
                i + 1
            },
            Option::None => 0,
        };
        self.selected = Option::Some(i);
    }

    /// Move the cursor backward by one with wraparound; select the first
    /// item when nothing is selected. On an empty list nothing happens.
    pub fn previous(&mut self)
        requires
            old(self).wf(),
        ensures
            final(self).items == old(self).items,
            final(self).selected == spec_prev_idx(
                old(self).selected,
                old(self).items@.len() as int,
            ),
            final(self).wf(),
    {
        if self.items.len() == 0 {
            return ;
        }
        let i: usize = match self.selected {
            Option::Some(i) => if i == 0 {
                self.items.len() - 1
            } else {
                i - 1
            },
            Option::None => 0,
        };
        self.selected = Option::Some(i);
    }
}

/// The list level that the keyboard drives. The Fields view is derived
/// from the selected cookie and is never itself a navigation target.
#[derive(PartialEq, Eq, Structural, Clone, Copy, Debug)]
pub enum Selection {
    Profiles,
    Domains,
    Cookies,
}

/// The global state of the interactive browser.
pub struct State {
    /// The currently active level.
    pub selection: Selection,
    /// Whether the search input line is open.
    pub search_open: bool,
    /// The search input being typed.
    pub search_field: String,
    /// Indices of all matches of the committed search.
    pub search_matches: Vec<usize>,
    /// The cursor within `search_matches`.
    pub selected_match: usize,
    /// One entry per discovered store, labelled by its short path.
    pub profiles: StatefulList<String>,
    /// The domains of the selected profile.
    pub current_domains: StatefulList<String>,
    /// The cookie names of the selected domain.
    pub current_cookies: StatefulList<String>,
    /// The fields of the selected cookie; recomputed every render tick.
    pub current_fields: StatefulList<String>,
}

impl State {
    /// The number of items at the active level.
    pub open spec fn active_len(&self) -> int {
        match self.selection {
            Selection::Profiles => self.profiles.items@.len() as int,
            Selection::Domains => self.current_domains.items@.len() as int,
            Selection::Cookies => self.current_cookies.items@.len() as int,
        }
    }

    /// The labels at the active level.
    pub open spec fn active_items(&self) -> Seq<Seq<char>> {
        match self.selection {
            Selection::Profiles => views(self.profiles.items@),
            Selection::Domains => views(self.current_domains.items@),
            Selection::Cookies => views(self.current_cookies.items@),
        }
    }

    /// Every cursor is within its list, and the search matches point into
    /// the active list, with the match cursor within the matches when any
    /// exist.
    pub open spec fn wf(&self) -> bool {
        self.profiles.wf() && self.current_domains.wf() && self.current_cookies.wf()
            && self.current_fields.wf() && (self.search_matches@.len() > 0
            ==> (self.selected_match as int) < self.search_matches@.len()) && (forall|k: int|
            0 <= k < self.search_matches@.len() ==> (self.search_matches@[k] as int)
                < self.active_len())
    }

    /// Create a navigation state from the store collection: one profile
    /// label per store (its short path under `home`), everything else
    /// empty and unselected.
    pub fn new(cookie_dbs: &Vec<CookieDB>, home: &str) -> (r: State)
        ensures
            r.selection == Selection::Profiles,
            !r.search_open,
            r.search_field@ == Seq::<char>::empty(),
            r.search_matches@.len() == 0,
            r.selected_match == NO_SELECTION,
            r.profiles.selected is None,
            r.profiles.items@.len() == cookie_dbs@.len(),
            forall|k: int|
                0 <= k < cookie_dbs@.len() ==> views(r.profiles.items@)[k] == spec_path_short(
                    cookie_dbs@[k].path@,
                    home@,
                ),
            r.current_domains.items@.len() == 0,
            r.current_domains.selected is None,
            r.current_cookies.items@.len() == 0,
            r.current_cookies.selected is None,
            r.current_fields.items@.len() == 0,
            r.wf(),
    {
        let mut labels: Vec<String> = Vec::new();
        let mut i: usize = 0;
        while i < cookie_dbs.len()
            invariant
                0 <= i <= cookie_dbs@.len(),
                labels@.len() == i,
                forall|k: int|
                    0 <= k < i ==> views(labels@)[k] == spec_path_short(
                        cookie_dbs@[k].path@,
                        home@,
                    ),
            decreases cookie_dbs@.len() - i,
        {
            let label = cookie_dbs[i].path_short(home);
            proof {
                crate::text::lemma_views_push(labels@, label);
            }
            labels.push(label);
            i = i + 1;
        }
        State {
            selection: Selection::Profiles,
            search_open: false,
            search_field: String::new(),
            search_matches: Vec::new(),
            selected_match: NO_SELECTION,
            profiles: StatefulList { selected: Option::None, items: labels },
            current_domains: StatefulList::default(),
            current_cookies: StatefulList::default(),
            current_fields: StatefulList::default(),
        }
    }

    /// The label of the currently selected profile, if one is selected.
    pub fn selected_profile(&self) -> (r: Option<String>)
        requires
            self.profiles.wf(),
        ensures
            (r is Some) == (self.profiles.selected is Some),
            r matches Some(s) ==> self.profiles.selected matches Some(i) && s@
                == self.profiles.items@[i as int]@,
    {
        match self.profiles.selected {
            Option::Some(i) => Option::Some(self.profiles.items[i].clone()),
            Option::None => Option::None,
        }
    }

    /// The label of the currently selected domain, if one is selected.
    pub fn selected_domain(&self) -> (r: Option<String>)
        requires
            self.current_domains.wf(),
        ensures
            (r is Some) == (self.current_domains.selected is Some),
            r matches Some(s) ==> self.current_domains.selected matches Some(i) && s@
                == self.current_domains.items@[i as int]@,
    {
        match self.current_domains.selected {
            Option::Some(i) => Option::Some(self.current_domains.items[i].clone()),
            Option::None => Option::None,
        }
    }

    /// The name of the currently selected cookie, if one is selected.
    pub fn selected_cookie(&self) -> (r: Option<String>)
        requires
            self.current_cookies.wf(),
        ensures
            (r is Some) == (self.current_cookies.selected is Some),
            r matches Some(s) ==> self.current_cookies.selected matches Some(i) && s@
                == self.current_cookies.items@[i as int]@,
    {
        match self.current_cookies.selected {
            Option::Some(i) => Option::Some(self.current_cookies.items[i].clone()),
            Option::None => Option::None,
        }
    }
}

} // verus!
