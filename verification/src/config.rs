//! Process configuration assembled from a list of string settings.
//!
//! The API request rate arrives as a decimal string (requests per second,
//! e.g. `"20"` or `"0.5"`); it is parsed in fixed point to millionths and
//! turned into the pacing interval in nanoseconds between requests.

use vstd::prelude::*;
use vstd::std_specs::iter::IteratorSpec;

verus! {

/// Largest integer part of a rate that keeps its fixed-point value (in
/// millionths) inside `u64`.
pub const RATE_INT_CAP: u64 = 18_446_744_073_709;

/// Nanoseconds per second times millionths: the dividend that turns a
/// fixed-point rate into a pacing period.
pub const PERIOD_DIVIDEND: u64 = 1_000_000_000_000_000;

pub open spec fn is_digit(c: char) -> bool {
    48 <= c as u32 <= 57
}

pub open spec fn digit_val(c: char) -> int {
    c as u32 - 48
}

pub open spec fn all_digits(s: Seq<char>) -> bool {
    forall|i: int| 0 <= i < s.len() ==> is_digit(#[trigger] s[i])
}

/// The number a digit string denotes, most significant digit first.
pub open spec fn digits_value(s: Seq<char>) -> int
    decreases s.len(),
{
    if s.len() == 0 {
        0
    } else {
        digits_value(s.drop_last()) * 10 + digit_val(s.last())
    }
}

pub open spec fn pow10(k: nat) -> int
    decreases k,
{
    if k == 0 {
        1
    } else {
        10 * pow10((k - 1) as nat)
    }
}

/// The index of the first dot at or after `i`, or the length if none.
pub open spec fn find_dot(s: Seq<char>, i: int) -> int
    decreases s.len() - i,
{
    if i < 0 || i >= s.len() {
        s.len() as int
    } else if s[i] == '.' {
        i
    } else {
        find_dot(s, i + 1)
    }
}

/// The digits before the dot (or the whole string without one).
pub open spec fn rate_int_part(s: Seq<char>) -> Seq<char> {
    s.subrange(0, find_dot(s, 0))
}

/// The digits after the dot, empty without one.
pub open spec fn rate_frac_part(s: Seq<char>) -> Seq<char> {
    let d = find_dot(s, 0);
    if d == s.len() {
        Seq::empty()
    } else {
        s.subrange(d + 1, s.len() as int)
    }
}

/// A well-formed decimal rate: digits, at most one dot, at least one digit.
pub open spec fn rate_ok(s: Seq<char>) -> bool {
    &&& all_digits(rate_int_part(s))
    &&& all_digits(rate_frac_part(s))
    &&& rate_int_part(s).len() + rate_frac_part(s).len() > 0
}

/// The rate in millionths: the integer part scaled up, plus the first six
/// fraction digits (further fraction digits are truncated).
pub open spec fn rate_micros(s: Seq<char>) -> int {
    let fp = rate_frac_part(s);
    let f6 = if fp.len() <= 6 {
        fp
    } else {
        fp.subrange(0, 6)
    };
    digits_value(rate_int_part(s)) * 1_000_000 + digits_value(f6) * pow10((6 - f6.len()) as nat)
}

/// What parsing a decimal rate string yields: its value in millionths, or
/// nothing for a malformed or overlarge rate.
pub open spec fn parse_rate_spec(s: Seq<char>) -> Option<u64> {
    if rate_ok(s) && digits_value(rate_int_part(s)) < RATE_INT_CAP {
        Some(rate_micros(s) as u64)
    } else {
        None
    }
}

proof fn lemma_dv_nonneg(s: Seq<char>)
    requires
        all_digits(s),
    ensures
        digits_value(s) >= 0,
    decreases s.len(),
{
    if s.len() > 0 {
        assert(all_digits(s.drop_last())) by {
            assert forall|i: int| 0 <= i < s.len() - 1 implies is_digit(
                #[trigger] s.drop_last()[i],
            ) by {
                assert(s.drop_last()[i] == s[i]);
            }
        }
        lemma_dv_nonneg(s.drop_last());
    }
}

proof fn lemma_dv_bound(s: Seq<char>)
    requires
        all_digits(s),
    ensures
        0 <= digits_value(s) < pow10(s.len()),
    decreases s.len(),
{
    if s.len() > 0 {
        assert(all_digits(s.drop_last())) by {
            assert forall|i: int| 0 <= i < s.len() - 1 implies is_digit(
                #[trigger] s.drop_last()[i],
            ) by {
                assert(s.drop_last()[i] == s[i]);
            }
        }
        lemma_dv_bound(s.drop_last());
    }
}

/// A digit string's value dominates the value of each of its prefixes.
proof fn lemma_dv_prefix(s: Seq<char>, i: int)
    requires
        all_digits(s),
        0 <= i <= s.len(),
    ensures
        digits_value(s) >= digits_value(s.subrange(0, i)),
    decreases s.len() - i,
{
    if i < s.len() {
        lemma_dv_prefix(s, i + 1);
        assert(s.subrange(0, i + 1).drop_last() =~= s.subrange(0, i));
        assert(s.subrange(0, i + 1).last() == s[i]);
        assert(all_digits(s.subrange(0, i))) by {
            assert forall|j: int| 0 <= j < i implies is_digit(
                #[trigger] s.subrange(0, i)[j],
            ) by {
                assert(s.subrange(0, i)[j] == s[j]);
            }
        }
        lemma_dv_nonneg(s.subrange(0, i));
    } else {
        assert(s.subrange(0, i) =~= s);
    }
}

/// The process configuration: whether the crawler runs, the API key, the
/// pacing interval between API requests (nanoseconds), and the storage URL.
pub struct Config {
    pub disable_scraper: bool,
    pub api_key: String,
    pub request_period: u64,
    pub mongo_url: String,
}

/// The value of the first setting named `k`, if any.
pub open spec fn lookup_from(s: Seq<(String, String)>, k: Seq<char>, i: int) -> Option<Seq<char>>
    decreases s.len() - i,
{
    if i < 0 || i >= s.len() {
        None
    } else if s[i].0@ == k {
        Some(s[i].1@)
    } else {
        lookup_from(s, k, i + 1)
    }
}

/// The value of the first setting named `k`, if any.
pub open spec fn setting(s: Seq<(String, String)>, k: Seq<char>) -> Option<Seq<char>> {
    lookup_from(s, k, 0)
}

/// The value of the first setting named `key`.
fn find_setting(settings: &Vec<(String, String)>, key: &str) -> (r: Option<String>)
    ensures
        match r {
            Some(v) => setting(settings@, key@) == Some(v@),
            None => setting(settings@, key@) is None,
        },
{
    let mut i: usize = 0;
    while i < settings.len()
        invariant
            i <= settings@.len(),
            setting(settings@, key@) == lookup_from(settings@, key@, i as int),
        decreases settings@.len() - i,
    {
        if settings[i].0 == key.to_owned() {
            return Some(settings[i].1.clone());
        }
        i = i + 1;
    }
    None
}

/// Parse a decimal rate string into millionths: `"20"` is 20,000,000 and
/// `"0.5"` is 500,000. Fraction digits beyond the sixth are truncated;
/// anything but digits around at most one dot, an empty string, or an
/// integer part at or above `RATE_INT_CAP` yields `None`.
pub fn parse_rate(s: &str) -> (r: Option<u64>)
    ensures
        r == parse_rate_spec(s@),
{
    let cs = collect_chars(s);
    let n = cs.len();
    // Locate the dot that separates integer and fraction digits.
    let mut d: usize = 0;
    while d < n && cs[d] != '.'
        invariant
            n == cs@.len(),
            cs@ == s@,
            d <= n,
            find_dot(s@, 0) == find_dot(s@, d as int),
            forall|j: int| 0 <= j < d ==> s@[j] != '.',
        decreases n - d,
    {
        d = d + 1;
    }
    proof {
        assert(find_dot(s@, d as int) == d);
    }
    let ghost ip = rate_int_part(s@);
    let ghost fp = rate_frac_part(s@);
    proof {
        assert(ip.len() == d);
        assert(ip =~= s@.subrange(0, d as int));
        if d < n {
            assert(fp =~= s@.subrange(d + 1, n as int));
        } else {
            assert(fp =~= s@.subrange(n as int, n as int));
        }
    }
    // Integer part.
    let mut acc: u64 = 0;
    let mut i: usize = 0;
    while i < d
        invariant
            n == cs@.len(),
            cs@ == s@,
            d <= n,
            i <= d,
            ip == rate_int_part(s@),
            ip == s@.subrange(0, d as int),
            ip.len() == d,
            forall|j: int| 0 <= j < i ==> is_digit(#[trigger] ip[j]),
            acc == digits_value(ip.subrange(0, i as int)),
            acc < RATE_INT_CAP,
        decreases d - i,
    {
        let c = cs[i];
        let u = c as u32;
        if u < 48 || u > 57 {
            proof {
                assert(ip[i as int] == s@[i as int]);
                assert(!is_digit(ip[i as int]));
            }
            return None;
        }
        proof {
            assert(ip.subrange(0, i + 1).drop_last() =~= ip.subrange(0, i as int));
            assert(ip.subrange(0, i + 1).last() == ip[i as int]);
        }
        let nv: u64 = acc * 10 + ((u - 48) as u64);
        if nv >= RATE_INT_CAP {
            // The value only grows with further digits, so the whole
            // integer part is already over the cap (or malformed).
            proof {
                assert(nv == digits_value(ip.subrange(0, i + 1)));
                if all_digits(ip) {
                    lemma_dv_prefix(ip, i + 1);
                }
            }
            return None;
        }
        acc = nv;
        i = i + 1;
    }
    proof {
        assert(ip.subrange(0, d as int) =~= ip);
        assert(all_digits(ip));
    }
    // Fraction part: the first six digits count, the rest only validate.
    let mut facc: u64 = 0;
    let mut fcount: u64 = 0;
    let fstart = if d < n {
        d + 1
    } else {
        n
    };
    let ghost f6 = if fp.len() <= 6 { fp } else { fp.subrange(0, 6) };
    let mut k: usize = fstart;
    while k < n
        invariant
            n == cs@.len(),
            cs@ == s@,
            d < n ==> fstart == d + 1,
            d >= n ==> fstart == n,
            fstart <= k <= n,
            fp == rate_frac_part(s@),
            fp == s@.subrange(fstart as int, n as int),
            fp.len() == n - fstart,
            f6 == (if fp.len() <= 6 { fp } else { fp.subrange(0, 6) }),
            forall|j: int| 0 <= j < k - fstart ==> is_digit(#[trigger] fp[j]),
            fcount == if k - fstart <= 6 {
                k - fstart
            } else {
                6int
            },
            facc == digits_value(f6.subrange(0, fcount as int)),
            facc < 1_000_000,
        decreases n - k,
    {
        let c = cs[k];
        let u = c as u32;
        if u < 48 || u > 57 {
            proof {
                assert(fp[k - fstart] == s@[k as int]);
            }
            return None;
        }
        if fcount < 6 {
            proof {
                assert(f6.subrange(0, fcount + 1).drop_last() =~= f6.subrange(0, fcount as int));
                assert(f6.subrange(0, fcount + 1).last() == f6[fcount as int]);
                assert(f6[fcount as int] == fp[fcount as int]);
                assert(fp[k - fstart] == s@[k as int]);
                assert(digits_value(f6.subrange(0, fcount as int)) >= 0) by {
                    assert(facc >= 0);
                }
                lemma_pow10_six();
                lemma_dv_bound_partial(f6, fcount as int + 1);
            }
            facc = facc * 10 + ((u - 48) as u64);
            fcount = fcount + 1;
        }
        k = k + 1;
    }
    proof {
        assert(all_digits(fp));
        assert(f6.subrange(0, fcount as int) =~= f6);
    }
    if d == 0 && fstart == n {
        // No digits at all: the string is empty or a lone dot.
        return None;
    }
    // Scale the fraction to six digits.
    let scale: u64 = pow10_exec(6 - fcount);
    proof {
        lemma_pow10_six();
        assert(fcount == f6.len());
        assert(facc == digits_value(f6));
        lemma_dv_bound(f6);
        lemma_pow10_le_six((6 - f6.len()) as nat);
        vstd::arithmetic::mul::lemma_mul_inequality(facc as int, pow10(f6.len() as nat) - 1,
            pow10((6 - f6.len()) as nat));
        lemma_pow10_mul_bound(f6.len() as nat);
        vstd::arithmetic::mul::lemma_mul_is_distributive_sub_other_way(
            pow10((6 - f6.len()) as nat), pow10(f6.len() as nat), 1);
        assert(1 * pow10((6 - f6.len()) as nat) == pow10((6 - f6.len()) as nat));
        assert(facc * scale < 1_000_000);
        assert(rate_ok(s@));
        assert(acc * 1_000_000 + facc * scale == rate_micros(s@));
    }
    let value: u64 = acc * 1_000_000 + facc * scale;
    Some(value)
}

proof fn lemma_pow10_le_six(k: nat)
    requires
        k <= 6,
    ensures
        1 <= pow10(k) <= 1_000_000,
{
    lemma_pow10_six();
    if k == 0 {
    } else if k == 1 {
    } else if k == 2 {
    } else if k == 3 {
    } else if k == 4 {
    } else if k == 5 {
    } else {
        assert(k == 6);
    }
}

/// `10 ^ k` for the fraction scales.
fn pow10_exec(k: u64) -> (r: u64)
    requires
        k <= 6,
    ensures
        r == pow10(k as nat),
{
    proof {
        lemma_pow10_six();
    }
    if k == 0 {
        1
    } else if k == 1 {
        10
    } else if k == 2 {
        100
    } else if k == 3 {
        1_000
    } else if k == 4 {
        10_000
    } else if k == 5 {
        100_000
    } else {
        1_000_000
    }
}

proof fn lemma_pow10_six()
    ensures
        pow10(0) == 1,
        pow10(1) == 10,
        pow10(2) == 100,
        pow10(3) == 1_000,
        pow10(4) == 10_000,
        pow10(5) == 100_000,
        pow10(6) == 1_000_000,
{
    assert(pow10(0) == 1);
    assert(pow10(1) == 10);
    assert(pow10(2) == 100);
    assert(pow10(3) == 1_000);
    assert(pow10(4) == 10_000);
    assert(pow10(5) == 100_000);
    assert(pow10(6) == 1_000_000);
}

/// A partial digit string of length at most six stays below a million.
proof fn lemma_dv_bound_partial(s: Seq<char>, k: int)
    requires
        0 <= k <= s.len(),
        forall|i: int| 0 <= i < k ==> is_digit(#[trigger] s[i]),
        k <= 6,
    ensures
        0 <= digits_value(s.subrange(0, k)) < pow10(k as nat),
{
    let p = s.subrange(0, k);
    assert(all_digits(p)) by {
        assert forall|i: int| 0 <= i < p.len() implies is_digit(#[trigger] p[i]) by {
            assert(p[i] == s[i]);
        }
    }
    lemma_dv_bound(p);
}

/// `digits * 10^(6 - digits.len())` stays below a million for at most six
/// digits.
proof fn lemma_pow10_mul_bound(k: nat)
    requires
        k <= 6,
    ensures
        pow10(k) * pow10((6 - k) as nat) == pow10(6),
    decreases k,
{
    if k == 0 {
        lemma_pow10_six();
    } else {
        lemma_pow10_mul_bound((k - 1) as nat);
        lemma_pow10_six();
        assert(pow10(k) == 10 * pow10((k - 1) as nat));
        vstd::arithmetic::mul::lemma_mul_is_associative(10, pow10((k - 1) as nat),
            pow10((6 - k) as nat));
        assert(pow10((6 - (k - 1)) as nat) == 10 * pow10((6 - k) as nat));
        vstd::arithmetic::mul::lemma_mul_is_commutative(pow10((k - 1) as nat),
            10 * pow10((6 - k) as nat));
        vstd::arithmetic::mul::lemma_mul_is_associative(pow10((k - 1) as nat), 10,
            pow10((6 - k) as nat));
        vstd::arithmetic::mul::lemma_mul_is_commutative(pow10((k - 1) as nat), 10);
    }
}

/// What parsing a boolean setting yields: exactly `"true"` or `"false"`.
pub open spec fn parse_bool_spec(s: Seq<char>) -> Option<bool> {
    if s == "true"@ {
        Some(true)
    } else if s == "false"@ {
        Some(false)
    } else {
        None
    }
}

fn parse_bool(s: &String) -> (r: Option<bool>)
    ensures
        r == parse_bool_spec(s@),
{
    proof {
        reveal_strlit("true");
        reveal_strlit("false");
        assert("true"@.len() == 4);
        assert("false"@.len() == 5);
    }
    if *s == "true".to_owned() {
        Some(true)
    } else if *s == "false".to_owned() {
        Some(false)
    } else {
        None
    }
}

/// Whether a settings list carries everything a [`Config`] needs: an API
/// key, a storage URL, a positive well-formed request rate, and (if
/// present at all) a well-formed `disable_scraper` flag.
pub open spec fn config_ok(s: Seq<(String, String)>) -> bool {
    &&& setting(s, "api_key"@) is Some
    &&& (match setting(s, "api_request_rate"@) {
        Some(rs) => match parse_rate_spec(rs) {
            Some(rm) => rm > 0,
            None => false,
        },
        None => false,
    })
    &&& (match setting(s, "disable_scraper"@) {
        Some(bs) => parse_bool_spec(bs) is Some,
        None => true,
    })
}

impl Config {
    /// Assemble the configuration from named settings. The pacing interval
    /// is the nanoseconds-per-second in one request divided by the rate:
    /// a rate of `"20"` requests per second gives 50,000,000 ns. Yields
    /// `None` exactly when a required setting is missing or malformed.
    pub fn from_map(settings: &Vec<(String, String)>) -> (r: Option<Config>)
        ensures
            r is Some <==> config_ok(settings@),
            r matches Some(cfg) ==> {
                &&& setting(settings@, "api_key"@) == Some(cfg.api_key@)
                &&& (match setting(settings@, "mongo"@) {
                    Some(ms) => cfg.mongo_url@ == ms,
                    None => cfg.mongo_url@ == Seq::<char>::empty(),
                })
                &&& (match setting(settings@, "api_request_rate"@) {
                    Some(rs) => (match parse_rate_spec(rs) {
                        Some(rm) => cfg.request_period == PERIOD_DIVIDEND / rm,
                        None => false,
                    }),
                    None => false,
                })
                &&& (match setting(settings@, "disable_scraper"@) {
                    Some(bs) => parse_bool_spec(bs) == Some(cfg.disable_scraper),
                    None => cfg.disable_scraper == false,
                })
            },
    {
        let disable_scraper = match find_setting(settings, "disable_scraper") {
            Some(v) => match parse_bool(&v) {
                Some(b) => b,
                None => {
                    return None;
                },
            },
            None => false,
        };
        let api_key = match find_setting(settings, "api_key") {
            Some(v) => v,
            None => {
                return None;
            },
        };
        let rate = match find_setting(settings, "api_request_rate") {
            Some(v) => v,
            None => {
                return None;
            },
        };
        let rate_micros = match parse_rate(rate.as_str()) {
            Some(m) => m,
            None => {
                return None;
            },
        };
        if rate_micros == 0 {
            return None;
        }
        let mongo_url = match find_setting(settings, "mongo") {
            Some(v) => v,
            None => String::new(),
        };
        let request_period: u64 = PERIOD_DIVIDEND / rate_micros;
        Some(Config { disable_scraper, api_key, request_period, mongo_url })
    }
}

/// The characters of a string, in order.
fn collect_chars(s: &str) -> (r: Vec<char>)
    ensures
        r@ == s@,
{
    let mut it = s.chars();
    let mut out: Vec<char> = Vec::new();
    loop
        invariant
            it.obeys_prophetic_iter_laws(),
            IteratorSpec::decrease(&it) is Some,
            out@ + IteratorSpec::remaining(&it) == s@,
        decreases IteratorSpec::decrease(&it)->0,
    {
        match it.next() {
            Some(c) => {
                out.push(c);
                proof {
                    assert(out@ + vstd::std_specs::iter::IteratorSpec::remaining(&it) =~= s@);
                }
            },
            None => {
                proof {
                    assert(out@ =~= s@);
                }
                return out;
            },
        }
    }
}

} // verus!
