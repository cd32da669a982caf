//! Decision logic of the crawl pipeline stages: the cyclic enumeration of
//! account-search prefixes, and the normalization of discovered player
//! identities.
//!
//! The stages themselves (bounded channels, worker tasks, persistence) are
//! plumbing outside the library; they pull prefixes from a
//! [`PrefixEnumerator`], run searches through a
//! [`crate::scraper::SearchState`], and hand every discovered batch to
//! [`normalize_players`] before forwarding it.

use vstd::prelude::*;
use vstd::string::StringExecFns;
use crate::wows_data::PlayerRecord;

verus! {

/// Number of symbols in the prefix alphabet: the lowercase letters plus
/// the wildcard underscore.
pub const ALPHABET_LEN: u64 = 27;

/// Length of every generated search prefix.
pub const PREFIX_LEN: u64 = 3;

/// Number of distinct prefixes before the enumeration restarts:
/// `ALPHABET_LEN ^ PREFIX_LEN`.
pub const PREFIX_CYCLE: u64 = 19_683;

/// Alphabet symbol `i`: the lowercase letters in order, then the
/// underscore wildcard.
pub open spec fn spec_alpha(i: int) -> Seq<char> {
    if i < 26 {
        crate::scraper::spec_letter(i)
    } else {
        "_"@
    }
}

/// The three-symbol prefix at position `i` of the enumeration: the first
/// symbol varies slowest, the last fastest.
pub open spec fn spec_prefix(i: int) -> Seq<char> {
    spec_alpha(i / 729int) + spec_alpha((i / 27int) % 27int) + spec_alpha(i % 27int)
}

/// Alphabet symbol `i` as a string slice.
fn alpha(i: u64) -> (r: &'static str)
    requires
        i < ALPHABET_LEN,
    ensures
        r@ == spec_alpha(i as int),
{
    if i == 0 {
        "a"
    } else if i == 1 {
        "b"
    } else if i == 2 {
        "c"
    } else if i == 3 {
        "d"
    } else if i == 4 {
        "e"
    } else if i == 5 {
        "f"
    } else if i == 6 {
        "g"
    } else if i == 7 {
        "h"
    } else if i == 8 {
        "i"
    } else if i == 9 {
        "j"
    } else if i == 10 {
        "k"
    } else if i == 11 {
        "l"
    } else if i == 12 {
        "m"
    } else if i == 13 {
        "n"
    } else if i == 14 {
        "o"
    } else if i == 15 {
        "p"
    } else if i == 16 {
        "q"
    } else if i == 17 {
        "r"
    } else if i == 18 {
        "s"
    } else if i == 19 {
        "t"
    } else if i == 20 {
        "u"
    } else if i == 21 {
        "v"
    } else if i == 22 {
        "w"
    } else if i == 23 {
        "x"
    } else if i == 24 {
        "y"
    } else if i == 25 {
        "z"
    } else {
        "_"
    }
}

/// The infinite, cyclically repeating enumeration of three-symbol search
/// prefixes over the lowercase letters and the underscore wildcard. It
/// never terminates: after the last prefix it restarts from the first.
pub struct PrefixEnumerator {
    index: u64,
}

impl View for PrefixEnumerator {
    type V = int;

    closed spec fn view(&self) -> int {
        self.index as int
    }
}

impl PrefixEnumerator {
    /// Start the enumeration at the first prefix.
    pub fn new() -> (r: PrefixEnumerator)
        ensures
            r@ == 0,
            r@ < PREFIX_CYCLE,
    {
        PrefixEnumerator { index: 0 }
    }

    /// The next prefix of the cycle; wraps around after `PREFIX_CYCLE`
    /// prefixes.
    pub fn next_prefix(&mut self) -> (p: String)
        requires
            0 <= old(self)@ < PREFIX_CYCLE,
        ensures
            p@ == spec_prefix(old(self)@),
            final(self)@ == (old(self)@ + 1) % (PREFIX_CYCLE as int),
            final(self)@ < PREFIX_CYCLE,
    {
        proof {
            vstd::arithmetic::div_mod::lemma_multiply_divide_lt(self.index as int, 27, 729);
            vstd::arithmetic::div_mod::lemma_mod_division_less_than_divisor(
                (self.index / ALPHABET_LEN) as int, 27);
            vstd::arithmetic::div_mod::lemma_mod_division_less_than_divisor(self.index as int, 27);
        }
        let a = self.index / (ALPHABET_LEN * ALPHABET_LEN);
        let b = (self.index / ALPHABET_LEN) % ALPHABET_LEN;
        let c = self.index % ALPHABET_LEN;
        let mut p = alpha(a).to_owned();
        p.append(alpha(b));
        p.append(alpha(c));
        if self.index + 1 == PREFIX_CYCLE {
            self.index = 0;
        } else {
            self.index = self.index + 1;
        }
        proof {
            if old(self)@ + 1 == PREFIX_CYCLE {
                vstd::arithmetic::div_mod::lemma_mod_self_0(PREFIX_CYCLE as int);
            } else {
                vstd::arithmetic::div_mod::lemma_small_mod((old(self)@ + 1) as nat,
                    PREFIX_CYCLE as nat);
            }
        }
        p
    }
}

/// Names the result of `str::to_lowercase`, which depends on the
/// characters alone.
pub uninterp spec fn lower_of(s: Seq<char>) -> Seq<char>;

/// Relies on `str::to_lowercase` of std: the Unicode-lowercased text,
/// a function of the input characters alone.
#[verifier::external_body]
fn lowercase(s: &str) -> (r: String)
    ensures
        r@ == lower_of(s@),
{
    s.to_lowercase()
}

/// Normalize a batch of discovered players: every nickname is lowercased
/// (nicknames are keyed case-insensitively downstream); account ids and
/// order are kept.
pub fn normalize_players(players: &Vec<PlayerRecord>) -> (r: Vec<PlayerRecord>)
    ensures
        r@.len() == players@.len(),
        forall|i: int|
            0 <= i < players@.len() ==> (#[trigger] r@[i]).account_id == players@[i].account_id
                && r@[i].nickname@ == lower_of(players@[i].nickname@),
{
    let mut out: Vec<PlayerRecord> = Vec::new();
    let mut i: usize = 0;
    while i < players.len()
        invariant
            i <= players@.len(),
            out@.len() == i,
            forall|j: int|
                0 <= j < i ==> (#[trigger] out@[j]).account_id == players@[j].account_id
                    && out@[j].nickname@ == lower_of(players@[j].nickname@),
        decreases players@.len() - i,
    {
        let p = &players[i];
        out.push(PlayerRecord { nickname: lowercase(p.nickname.as_str()), account_id: p.account_id });
        i = i + 1;
    }
    out
}

} // verus!
