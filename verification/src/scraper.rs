//! Decision rules of the rate-limited API client: classifying a reply
//! envelope into success / transient-retryable / fatal, and the recursive
//! refinement of account-search prefixes.
//!
//! The I/O itself (HTTP, pacing, retry sleep) lives outside the library;
//! callers hand each decoded [`GenericReply`] to [`classify_reply`] and
//! drive a [`SearchState`] with each page of search results.

use vstd::prelude::*;
use vstd::string::StringExecFns;
use crate::wows_data::{GenericReply, PlayerRecord};

verus! {

/// The API-level error code of a transiently unavailable upstream source;
/// the sole retryable condition.
pub const TRANSIENT_ERROR_CODE: u32 = 504;

/// The upstream's search page cap: a result set of exactly this many
/// records is treated as possibly truncated and refined, anything smaller
/// as final.
pub const PAGE_CAP: usize = 100;

/// What a reply envelope tells the caller to do next.
pub enum ReplyStep<T> {
    /// The payload arrived; hand it on.
    Data(T),
    /// The upstream source is transiently unavailable; repeat the same
    /// call under the shared pacing gate.
    RetryTransient,
    /// The API rejected the call with this error code; give the call up.
    Fatal(u32),
    /// The envelope carried neither payload nor error; give the call up.
    Malformed,
}

/// Classify one reply envelope. A payload wins over everything; an error
/// envelope with the transient code asks for a retry; any other error code
/// is fatal for the call, as is an envelope with neither payload nor error.
pub fn classify_reply<T>(reply: GenericReply<T>) -> (r: ReplyStep<T>)
    ensures
        (reply.data matches Some(d) ==> r == ReplyStep::<T>::Data(d)),
        reply.data is None ==> (match reply.error {
            Some(e) => if e.code == TRANSIENT_ERROR_CODE {
                r is RetryTransient
            } else {
                r == ReplyStep::<T>::Fatal(e.code)
            },
            None => r is Malformed,
        }),
{
    match reply.data {
        Some(d) => ReplyStep::Data(d),
        None => match reply.error {
            Some(e) => if e.code == TRANSIENT_ERROR_CODE {
                ReplyStep::RetryTransient
            } else {
                ReplyStep::Fatal(e.code)
            },
            None => ReplyStep::Malformed,
        },
    }
}

/// The lowercase letter appended to a truncated prefix for sub-search `i`.
pub open spec fn spec_letter(i: int) -> Seq<char> {
    if i == 0 {
        "a"@
    } else if i == 1 {
        "b"@
    } else if i == 2 {
        "c"@
    } else if i == 3 {
        "d"@
    } else if i == 4 {
        "e"@
    } else if i == 5 {
        "f"@
    } else if i == 6 {
        "g"@
    } else if i == 7 {
        "h"@
    } else if i == 8 {
        "i"@
    } else if i == 9 {
        "j"@
    } else if i == 10 {
        "k"@
    } else if i == 11 {
        "l"@
    } else if i == 12 {
        "m"@
    } else if i == 13 {
        "n"@
    } else if i == 14 {
        "o"@
    } else if i == 15 {
        "p"@
    } else if i == 16 {
        "q"@
    } else if i == 17 {
        "r"@
    } else if i == 18 {
        "s"@
    } else if i == 19 {
        "t"@
    } else if i == 20 {
        "u"@
    } else if i == 21 {
        "v"@
    } else if i == 22 {
        "w"@
    } else if i == 23 {
        "x"@
    } else if i == 24 {
        "y"@
    } else {
        "z"@
    }
}

/// The lowercase letter appended to a truncated prefix for sub-search `i`.
fn letter(i: usize) -> (r: &'static str)
    requires
        i < 26,
    ensures
        r@ == spec_letter(i as int),
{
    if i == 0 {
        "a"
    } else if i == 1 {
        "b"
    } else if i == 2 {
        "c"
    } else if i == 3 {
        "d"
    } else if i == 4 {
        "e"
    } else if i == 5 {
        "f"
    } else if i == 6 {
        "g"
    } else if i == 7 {
        "h"
    } else if i == 8 {
        "i"
    } else if i == 9 {
        "j"
    } else if i == 10 {
        "k"
    } else if i == 11 {
        "l"
    } else if i == 12 {
        "m"
    } else if i == 13 {
        "n"
    } else if i == 14 {
        "o"
    } else if i == 15 {
        "p"
    } else if i == 16 {
        "q"
    } else if i == 17 {
        "r"
    } else if i == 18 {
        "s"
    } else if i == 19 {
        "t"
    } else if i == 20 {
        "u"
    } else if i == 21 {
        "v"
    } else if i == 22 {
        "w"
    } else if i == 23 {
        "x"
    } else if i == 24 {
        "y"
    } else {
        "z"
    }
}

/// The 26 sub-prefixes a truncated search for `base` is replaced with:
/// `base` extended by each lowercase letter in order.
pub open spec fn sub_prefixes(base: Seq<char>) -> Seq<Seq<char>> {
    Seq::new(26, |i: int| base + spec_letter(i))
}

/// Mathematical model of a [`SearchState`]: the queue of pending search
/// prefixes, the cursor of the next one to run, and the records collected
/// from final (non-truncated) pages.
pub ghost struct SearchView {
    pub searches: Seq<Seq<char>>,
    pub cursor: int,
    pub result: Seq<PlayerRecord>,
}

impl View for SearchState {
    type V = SearchView;

    closed spec fn view(&self) -> SearchView {
        SearchView {
            searches: self.searches@.map_values(|s: String| s@),
            cursor: self.cursor as int,
            result: self.result@,
        }
    }
}

/// A search state never runs its cursor past the queue.
pub open spec fn search_wf(v: SearchView) -> bool {
    0 <= v.cursor <= v.searches.len()
}

/// The worklist of one recursively refined account search. Starting from
/// one prefix, every page of exactly [`PAGE_CAP`] records is treated as
/// truncated and replaced by its 26 one-letter-longer sub-searches; any
/// smaller page is final and its records are collected.
pub struct SearchState {
    searches: Vec<String>,
    cursor: usize,
    result: Vec<PlayerRecord>,
}

impl SearchState {
    /// Start a search from one prefix.
    pub fn new(search: &str) -> (r: SearchState)
        ensures
            r@.searches == seq![search@],
            r@.cursor == 0,
            r@.result == Seq::<PlayerRecord>::empty(),
            search_wf(r@),
    {
        let mut searches: Vec<String> = Vec::new();
        searches.push(search.to_owned());
        let r = SearchState { searches, cursor: 0, result: Vec::new() };
        proof {
            assert(r@.searches =~= seq![search@]);
        }
        r
    }

    /// The next prefix to run, or `None` once the worklist is exhausted.
    pub fn next_search(&self) -> (r: Option<String>)
        requires
            search_wf(self@),
        ensures
            match r {
                Some(s) => self@.cursor < self@.searches.len() && s@ == self@.searches[self@.cursor],
                None => self@.cursor == self@.searches.len(),
            },
    {
        if self.cursor < self.searches.len() {
            Some(self.searches[self.cursor].clone())
        } else {
            None
        }
    }

    /// Feed the reply page of the current prefix and advance. A page of
    /// exactly `PAGE_CAP` records enqueues the 26 sub-prefixes of the
    /// current prefix and collects nothing; a smaller page is final and
    /// its records are appended to the result.
    pub fn step(&mut self, reply: Vec<PlayerRecord>)
        requires
            search_wf(old(self)@),
            old(self)@.cursor < old(self)@.searches.len(),
        ensures
            search_wf(final(self)@),
            final(self)@.cursor == old(self)@.cursor + 1,
            reply@.len() == PAGE_CAP ==> {
                &&& final(self)@.searches == old(self)@.searches + sub_prefixes(
                    old(self)@.searches[old(self)@.cursor],
                )
                &&& final(self)@.result == old(self)@.result
            },
            reply@.len() != PAGE_CAP ==> {
                &&& final(self)@.searches == old(self)@.searches
                &&& final(self)@.result == old(self)@.result + reply@
            },
    {
        let n = self.searches.len();
        if reply.len() == PAGE_CAP {
            let ghost base = self@.searches[self.cursor as int];
            let mut i: usize = 0;
            while i < 26
                invariant
                    i <= 26,
                    self.cursor == old(self).cursor,
                    self.cursor < old(self)@.searches.len(),
                    self.result@ == old(self).result@,
                    base == old(self)@.searches[old(self)@.cursor],
                    self.searches@.len() == old(self).searches@.len() + i,
                    forall|j: int|
                        0 <= j < old(self).searches@.len() ==> (#[trigger] self.searches@[j])
                            == old(self).searches@[j],
                    forall|j: int|
                        0 <= j < i ==> (#[trigger] self.searches@[old(self).searches@.len() + j])@
                            == base + spec_letter(j),
                decreases 26 - i,
            {
                let mut sub = self.searches[self.cursor].clone();
                sub.append(letter(i));
                self.searches.push(sub);
                i = i + 1;
            }
            proof {
                let combined = old(self)@.searches + sub_prefixes(base);
                assert forall|k: int| 0 <= k < self.searches@.len() implies self@.searches[k]
                    == combined[k] by {
                    assert(self@.searches[k] == (#[trigger] self.searches@[k])@);
                    if k < old(self).searches@.len() {
                        assert(self.searches@[k] == old(self).searches@[k]);
                        assert(old(self)@.searches[k] == old(self).searches@[k]@);
                    } else {
                        let j = k - old(self).searches@.len();
                        assert(self.searches@[old(self).searches@.len() + j]@ == base
                            + spec_letter(j));
                        assert(combined[k] == sub_prefixes(base)[j]);
                    }
                }
                assert(self@.searches =~= combined);
            }
        } else {
            let mut reply = reply;
            self.result.append(&mut reply);
        }
        proof {
            assert(self.cursor < n);
        }
        self.cursor = self.cursor + 1;
    }

    /// The records collected so far; after the worklist is exhausted, the
    /// final result of the whole search.
    pub fn finish(self) -> (r: Vec<PlayerRecord>)
        ensures
            r@ == self@.result,
    {
        self.result
    }
}

} // verus!
