//! A selectable list of project names with a fuzzy filter: wrap-around
//! selection over the items, and a filtered view of the items matching the
//! current filter text.

use vstd::prelude::*;

use crate::strutil::str_eq;

verus! {

/// What `SkimMatcherV2::fuzzy_match` returns under default settings: a
/// score, a function of the choice and the pattern alone.
pub uninterp spec fn fuzzy_score_of(choice: Seq<char>, pattern: Seq<char>) -> Option<i64>;

/// Relies on fuzzy_matcher's `SkimMatcherV2::fuzzy_match`, on a matcher
/// built by `SkimMatcherV2::default`: the score depends on the choice and
/// the pattern alone, and an empty pattern matches everything.
#[verifier::external_body]
fn fuzzy_score(choice: &str, pattern: &str) -> (r: Option<i64>)
    ensures
        r == fuzzy_score_of(choice@, pattern@),
        pattern@.len() == 0 ==> r is Some,
{
    let matcher = fuzzy_matcher::skim::SkimMatcherV2::default();
    fuzzy_matcher::FuzzyMatcher::fuzzy_match(&matcher, choice, pattern)
}

/// Whether the item stays under the filter `pattern`.
pub open spec fn keeps(item: Seq<char>, pattern: Seq<char>) -> bool {
    fuzzy_score_of(item, pattern) is Some
}

/// The items that stay under the filter `pattern`, in order.
pub open spec fn filtered(items: Seq<String>, pattern: Seq<char>) -> Seq<String>
    decreases items.len(),
{
    if items.len() == 0 {
        Seq::empty()
    } else if keeps(items.last()@, pattern) {
        filtered(items.drop_last(), pattern).push(items.last())
    } else {
        filtered(items.drop_last(), pattern)
    }
}

/// The wrap-around successor of the selection, as the list moves down.
pub open spec fn next_selection(state: Option<usize>, count: usize) -> Option<usize> {
    match (if count == 0 {
        None
    } else {
        state
    }) {
        Some(i) => if i + 1 >= count {
            Some(0usize)
        } else {
            Some((i + 1) as usize)
        },
        None => Some(0usize),
    }
}

/// The wrap-around predecessor of the selection, as the list moves up.
pub open spec fn previous_selection(state: Option<usize>, count: usize) -> Option<usize> {
    match (if count == 0 {
        None
    } else {
        state
    }) {
        Some(i) => if i == 0 {
            Some((count - 1) as usize)
        } else {
            Some((i - 1) as usize)
        },
        None => Some(0usize),
    }
}

/// The selectable, filterable list.
pub struct StatefulList {
    state: Option<usize>,
    items: Vec<String>,
    items_filtered: Vec<String>,
    filter: String,
}

impl StatefulList {
    /// The selection.
    pub closed spec fn spec_state(self) -> Option<usize> {
        self.state
    }

    /// All items.
    pub closed spec fn spec_items(self) -> Seq<String> {
        self.items@
    }

    /// The items that pass the current filter.
    pub closed spec fn spec_items_filtered(self) -> Seq<String> {
        self.items_filtered@
    }

    /// The current filter text.
    pub closed spec fn spec_filter(self) -> Seq<char> {
        self.filter@
    }

    /// The selection index stays within the item count (or is the fallback
    /// zero), so moving it around cannot overflow.
    pub closed spec fn inv(self) -> bool {
        self.state matches Some(i) ==> i <= self.items@.len()
    }

    /// A list over `items`, unfiltered, with the first item selected when
    /// there is one.
    pub fn with_items(items: Vec<String>) -> (r: StatefulList)
        ensures
            r.inv(),
            r.spec_items() == items@,
            r.spec_items_filtered() == items@,
            r.spec_filter() == Seq::<char>::empty(),
            r.spec_state() == (if items@.len() > 0 {
                Some(0usize)
            } else {
                None::<usize>
            }),
    {
        let mut copy: Vec<String> = Vec::new();
        let n: usize = items.len();
        let mut i: usize = 0;
        while i < n
            invariant
                0 <= i <= n,
                n == items@.len(),
                copy@ =~= items@.take(i as int),
            decreases n - i,
        {
            copy.push(items[i].clone());
            proof {
                assert(copy@ =~= items@.take(i + 1));
            }
            i = i + 1;
        }
        proof {
            assert(items@.take(n as int) =~= items@);
        }
        let state: Option<usize> = if items.len() > 0 {
            Some(0)
        } else {
            None
        };
        StatefulList { state, items, items_filtered: copy, filter: String::new() }
    }

    /// Moves the selection down by one, wrapping at the end.
    pub fn next(&mut self)
        requires
            old(self).inv(),
        ensures
            final(self).inv(),
            final(self).spec_items() == old(self).spec_items(),
            final(self).spec_items_filtered() == old(self).spec_items_filtered(),
            final(self).spec_filter() == old(self).spec_filter(),
            final(self).spec_state() == next_selection(
                old(self).spec_state(),
                old(self).spec_items().len() as usize,
            ),
    {
        let item_count: usize = self.items.len();
        if item_count == 0 {
            self.state = None;
        }
        let i: usize = match self.state {
            Some(i) => if i >= item_count - 1 {
                0
            } else {
                i + 1
            },
            None => 0,
        };
        self.state = Some(i);
    }

    /// Moves the selection up by one, wrapping at the start.
    pub fn previous(&mut self)
        requires
            old(self).inv(),
        ensures
            final(self).inv(),
            final(self).spec_items() == old(self).spec_items(),
            final(self).spec_items_filtered() == old(self).spec_items_filtered(),
            final(self).spec_filter() == old(self).spec_filter(),
            final(self).spec_state() == previous_selection(
                old(self).spec_state(),
                old(self).spec_items().len() as usize,
            ),
    {
        let item_count: usize = self.items.len();
        if item_count == 0 {
            self.state = None;
        }
        let i: usize = match self.state {
            Some(i) => if i == 0 {
                item_count - 1
            } else {
                i - 1
            },
            None => 0,
        };
        self.state = Some(i);
    }

    /// The selected item, if the selection points at one.
    pub fn get_selected(&self) -> (r: Option<&String>)
        ensures
            match r {
                Some(s) => self.spec_state() matches Some(i) && i < self.spec_items().len() && s
                    == self.spec_items()[i as int],
                None => !(self.spec_state() matches Some(i) && i < self.spec_items().len()),
            },
    {
        match self.state {
            Some(i) => {
                if i < self.items.len() {
                    Some(&self.items[i])
                } else {
                    None
                }
            },
            None => None,
        }
    }

    /// The items that pass the current filter, for display.
    pub fn items_filtered(&self) -> (r: &Vec<String>)
        ensures
            r@ == self.spec_items_filtered(),
    {
        &self.items_filtered
    }

    /// The current filter text, for display.
    pub fn filter_text(&self) -> (r: &String)
        ensures
            r@ == self.spec_filter(),
    {
        &self.filter
    }

    /// Replaces the filter text and recomputes the filtered view: the
    /// items that match stay, in order; the previously selected filtered
    /// item stays selected if it still passes, through its first position
    /// in the new view.
    #[verifier::loop_isolation(false)]
    pub fn set_filter(&mut self, filter: String)
        requires
            old(self).inv(),
        ensures
            final(self).inv(),
            final(self).spec_items() == old(self).spec_items(),
            final(self).spec_filter() == filter@,
            final(self).spec_items_filtered() == filtered(old(self).spec_items(), filter@),
            ({
                let osel = old(self).spec_state();
                let ofl = old(self).spec_items_filtered();
                let nfl = filtered(old(self).spec_items(), filter@);
                match final(self).spec_state() {
                    Some(j) => osel matches Some(i) && i < ofl.len() && j < nfl.len()
                        && nfl[j as int]@ == ofl[i as int]@ && (forall|l: int|
                        0 <= l < j ==> (#[trigger] nfl[l])@ != ofl[i as int]@),
                    None => !(osel matches Some(i) && i < ofl.len() && exists|l: int|
                        0 <= l < nfl.len() && (#[trigger] nfl[l])@ == ofl[i as int]@),
                }
            }),
    {
        self.filter = filter;
        let selection: Option<String> = match self.state {
            Some(i) => {
                if i < self.items_filtered.len() {
                    Some(self.items_filtered[i].clone())
                } else {
                    None
                }
            },
            None => None,
        };
        let n: usize = self.items.len();
        let mut kept: Vec<String> = Vec::new();
        let mut i: usize = 0;
        proof {
            assert(self.items@.take(0) =~= Seq::<String>::empty());
        }
        while i < n
            invariant
                0 <= i <= n,
                n == self.items@.len(),
                kept@ == filtered(self.items@.take(i as int), self.filter@),
                kept@.len() <= i,
            decreases n - i,
        {
            proof {
                assert(self.items@.take(i + 1).drop_last() =~= self.items@.take(i as int));
                assert(self.items@.take(i + 1).last() == self.items@[i as int]);
            }
            if fuzzy_score(self.items[i].as_str(), self.filter.as_str()).is_some() {
                kept.push(self.items[i].clone());
            }
            i = i + 1;
        }
        proof {
            assert(self.items@.take(n as int) =~= self.items@);
        }
        self.items_filtered = kept;
        self.state = None;
        match selection {
            Some(sel) => {
                let m: usize = self.items_filtered.len();
                let mut j: usize = 0;
                while j < m
                    invariant
                        0 <= j <= m,
                        m == self.items_filtered@.len(),
                        m <= self.items@.len(),
                        self.state is None,
                        self.items@ == old(self).items@,
                        self.filter@ == filter@,
                        self.items_filtered@ == filtered(old(self).items@, filter@),
                        forall|l: int|
                            0 <= l < j ==> (#[trigger] self.items_filtered@[l])@ != sel@,
                    decreases m - j,
                {
                    if str_eq(self.items_filtered[j].as_str(), sel.as_str()) {
                        self.state = Some(j);
                        proof {
                            assert(self.inv());
                        }
                        return ;
                    }
                    j = j + 1;
                }
            },
            None => {
            },
        }
    }
}

} // verus!
