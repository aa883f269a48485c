//! Locating currency tokens in the raw text of a fetched page.
//!
//! A token is a dollar sign, at most one whitespace character, a run of
//! digits and commas holding at least one digit, and optionally a
//! decimal point followed by a run of one or more digits.  The scanner
//! takes each run as long as it can be, collects the non-overlapping
//! tokens from left to right, and designates the first one the "raised"
//! text and the second one the "goal" text; where the page holds fewer
//! tokens, the missing texts default to `"$0"`.

use vstd::prelude::*;
use vstd::string::StrSliceExecFns;
use vstd::string::StringExecFns;
use crate::money::is_digit;

verus! {

pub open spec fn is_space(c: char) -> bool {
    c == ' ' || c == '\t' || c == '\n' || c == '\r' || c == '\u{b}' || c == '\u{c}'
}

/// A character of the integer part of a token: a digit or a thousands
/// separator.
pub open spec fn is_amount_char(c: char) -> bool {
    is_digit(c) || c == ','
}

/// The length of the longest run of digits and commas starting at `i`.
pub open spec fn amount_run(s: Seq<char>, i: int) -> nat
    decreases s.len() - i,
{
    if 0 <= i < s.len() && is_amount_char(s[i]) {
        1 + amount_run(s, i + 1)
    } else {
        0
    }
}

/// Whether the longest run of digits and commas starting at `i` holds
/// at least one digit — a comma-only run is no token body.
pub open spec fn run_contains_digit(s: Seq<char>, i: int) -> bool
    decreases s.len() - i,
{
    if 0 <= i < s.len() && is_amount_char(s[i]) {
        is_digit(s[i]) || run_contains_digit(s, i + 1)
    } else {
        false
    }
}

/// The length of the longest run of digits starting at `i`.
pub open spec fn digit_run(s: Seq<char>, i: int) -> nat
    decreases s.len() - i,
{
    if 0 <= i < s.len() && is_digit(s[i]) {
        1 + digit_run(s, i + 1)
    } else {
        0
    }
}

/// The length of a fractional part starting at `i`: a decimal point
/// followed by at least one digit, taken as long as possible; `0` if
/// there is none.
pub open spec fn fraction_run(s: Seq<char>, i: int) -> nat {
    if 0 <= i < s.len() && s[i] == '.' && digit_run(s, i + 1) >= 1 {
        1 + digit_run(s, i + 1)
    } else {
        0
    }
}

/// Where the token starting at `i` ends, one past its last character;
/// `i` itself when no token starts at `i`.
pub open spec fn token_end(s: Seq<char>, i: int) -> int {
    if !(0 <= i < s.len()) || s[i] != '$' {
        i
    } else {
        let b = if amount_run(s, i + 1) >= 1 && run_contains_digit(s, i + 1) {
            i + 1
        } else if i + 1 < s.len() && is_space(s[i + 1]) && amount_run(s, i + 2) >= 1
            && run_contains_digit(s, i + 2) {
            i + 2
        } else {
            i
        };
        if b == i {
            i
        } else {
            let after_int = b + amount_run(s, b);
            after_int + fraction_run(s, after_int)
        }
    }
}

/// All non-overlapping token ranges of `s` at or after `i`, in document
/// order, each as (start, one past the end).  The scan is a function of
/// the text alone: re-running it on the same text yields the same
/// sequence.
pub open spec fn spec_matches(s: Seq<char>, i: int) -> Seq<(int, int)>
    decreases s.len() - i,
{
    if !(0 <= i < s.len()) {
        Seq::empty()
    } else {
        let e = token_end(s, i);
        if i < e && e <= s.len() {
            seq![(i, e)] + spec_matches(s, e)
        } else {
            spec_matches(s, i + 1)
        }
    }
}

/// The ranges of `r`, each widened to a pair of mathematical integers.
pub open spec fn widened(r: Seq<(usize, usize)>) -> Seq<(int, int)> {
    r.map_values(|p: (usize, usize)| (p.0 as int, p.1 as int))
}

/// The texts of all tokens of `s`, in document order.
pub open spec fn match_texts(s: Seq<char>) -> Seq<Seq<char>> {
    spec_matches(s, 0).map_values(|p: (int, int)| s.subrange(p.0, p.1))
}

/// The text a missing token defaults to.
pub open spec fn default_token() -> Seq<char> {
    seq!['$', '0']
}

/// The first token of the page, or `"$0"` if there is none.
pub open spec fn raised_text_of(s: Seq<char>) -> Seq<char> {
    if match_texts(s).len() >= 1 {
        match_texts(s)[0]
    } else {
        default_token()
    }
}

/// The second token of the page, or `"$0"` if there is no second one.
pub open spec fn goal_text_of(s: Seq<char>) -> Seq<char> {
    if match_texts(s).len() >= 2 {
        match_texts(s)[1]
    } else {
        default_token()
    }
}

fn char_at_is_amount(s: &str, j: usize) -> (b: bool)
    requires
        j < s@.len(),
    ensures
        b == is_amount_char(s@[j as int]),
{
    let c = s.get_char(j);
    c == ',' || (c >= '0' && c <= '9')
}

fn char_at_is_digit(s: &str, j: usize) -> (b: bool)
    requires
        j < s@.len(),
    ensures
        b == is_digit(s@[j as int]),
{
    let c = s.get_char(j);
    c >= '0' && c <= '9'
}

fn amount_run_at(s: &str, n: usize, i: usize) -> (r: usize)
    requires
        n == s@.len(),
        i <= n,
    ensures
        r == amount_run(s@, i as int),
        i + r <= n,
{
    let mut j: usize = i;
    while j < n && char_at_is_amount(s, j)
        invariant
            n == s@.len(),
            i <= j <= n,
            amount_run(s@, i as int) == j - i + amount_run(s@, j as int),
        decreases n - j,
    {
        j = j + 1;
    }
    j - i
}

fn run_has_digit_at(s: &str, n: usize, i: usize) -> (b: bool)
    requires
        n == s@.len(),
        i <= n,
    ensures
        b == run_contains_digit(s@, i as int),
{
    let mut j: usize = i;
    while j < n && char_at_is_amount(s, j) && !char_at_is_digit(s, j)
        invariant
            n == s@.len(),
            i <= j <= n,
            run_contains_digit(s@, i as int) == run_contains_digit(s@, j as int),
        decreases n - j,
    {
        j = j + 1;
    }
    if j < n {
        char_at_is_digit(s, j)
    } else {
        false
    }
}

fn digit_run_at(s: &str, n: usize, i: usize) -> (r: usize)
    requires
        n == s@.len(),
        i <= n,
    ensures
        r == digit_run(s@, i as int),
        i + r <= n,
{
    let mut j: usize = i;
    while j < n && char_at_is_digit(s, j)
        invariant
            n == s@.len(),
            i <= j <= n,
            digit_run(s@, i as int) == j - i + digit_run(s@, j as int),
        decreases n - j,
    {
        j = j + 1;
    }
    j - i
}

fn token_end_at(s: &str, n: usize, i: usize) -> (e: usize)
    requires
        n == s@.len(),
        i < n,
    ensures
        e as int == token_end(s@, i as int),
        i <= e <= n,
{
    let c0 = s.get_char(i);
    if c0 != '$' {
        return i;
    }
    let run_after_sign = amount_run_at(s, n, i + 1);
    let body: usize;
    let body_run: usize;
    if run_after_sign >= 1 && run_has_digit_at(s, n, i + 1) {
        body = i + 1;
        body_run = run_after_sign;
    } else if i + 1 < n {
        let c1 = s.get_char(i + 1);
        if c1 == ' ' || c1 == '\t' || c1 == '\n' || c1 == '\r' || c1 == '\u{b}' || c1 == '\u{c}' {
            let run_after_space = amount_run_at(s, n, i + 2);
            if run_after_space >= 1 && run_has_digit_at(s, n, i + 2) {
                body = i + 2;
                body_run = run_after_space;
            } else {
                return i;
            }
        } else {
            return i;
        }
    } else {
        return i;
    }
    let after_int: usize = body + body_run;
    if after_int < n {
        let c = s.get_char(after_int);
        if c == '.' {
            let frac = digit_run_at(s, n, after_int + 1);
            if frac >= 1 {
                return after_int + 1 + frac;
            }
        }
    }
    after_int
}

/// All non-overlapping token ranges of `s`, in document order.  The
/// result is a function of the text alone, so two scans of one text
/// agree.
pub fn match_ranges(s: &str) -> (r: Vec<(usize, usize)>)
    ensures
        widened(r@) == spec_matches(s@, 0),
        forall|k: int| 0 <= k < r@.len() ==> 0 <= #[trigger] r@[k].0 < r@[k].1 <= s@.len(),
{
    let n: usize = s.unicode_len();
    let mut r: Vec<(usize, usize)> = Vec::new();
    let mut i: usize = 0;
    while i < n
        invariant
            n == s@.len(),
            0 <= i <= n,
            spec_matches(s@, 0) == widened(r@) + spec_matches(s@, i as int),
            forall|k: int| 0 <= k < r@.len() ==> 0 <= #[trigger] r@[k].0 < r@[k].1 <= s@.len(),
        decreases n - i,
    {
        let e = token_end_at(s, n, i);
        if e > i {
            let ghost r_before = r@;
            r.push((i, e));
            proof {
                assert(spec_matches(s@, i as int) == seq![(i as int, e as int)] + spec_matches(
                    s@,
                    e as int,
                ));
                assert(r@ == r_before.push((i, e)));
                assert forall|k: int| 0 <= k < r@.len() implies widened(r@)[k] == widened(
                    r_before,
                ).push((i as int, e as int))[k] by {
                    if k < r_before.len() {
                        assert(r@[k] == r_before[k]);
                    } else {
                        assert(r@[k] == (i, e));
                    }
                }
                assert(widened(r@) =~= widened(r_before).push((i as int, e as int)));
                assert(widened(r@) + spec_matches(s@, e as int) =~= widened(r_before)
                    + spec_matches(s@, i as int));
            }
            i = e;
        } else {
            proof {
                assert(spec_matches(s@, i as int) == spec_matches(s@, i + 1));
            }
            i = i + 1;
        }
    }
    proof {
        assert(widened(r@) + spec_matches(s@, i as int) =~= widened(r@));
    }
    r
}

/// Law: the scan is stable and deterministic — any two results that
/// meet `match_ranges`'s contract for the same text are identical, so
/// re-running the scan on one text yields the same tokens in the same
/// order.
pub proof fn lemma_scan_deterministic(
    s: Seq<char>,
    first: Seq<(int, int)>,
    second: Seq<(int, int)>,
)
    requires
        first == spec_matches(s, 0),
        second == spec_matches(s, 0),
    ensures
        first == second,
{
}

/// The text of the token in `s` that spans `[from, to)`.
fn token_text(s: &str, from: usize, to: usize) -> (t: String)
    requires
        from <= to <= s@.len(),
    ensures
        t@ == s@.subrange(from as int, to as int),
{
    let piece = s.substring_char(from, to);
    piece.to_owned()
}

fn default_token_text() -> (t: String)
    ensures
        t@ == default_token(),
{
    let t = String::from_str("$0");
    proof {
        reveal_strlit("$0");
        assert(t@ =~= default_token());
    }
    t
}

/// The "raised" and "goal" texts of a page: the texts of its first two
/// currency tokens, each replaced by `"$0"` where the page has no such
/// token.
pub fn extract_raised_goal(s: &str) -> (t: (String, String))
    ensures
        t.0@ == raised_text_of(s@),
        t.1@ == goal_text_of(s@),
{
    let ranges = match_ranges(s);
    let raised = if ranges.len() >= 1 {
        let (a, b) = ranges[0];
        token_text(s, a, b)
    } else {
        default_token_text()
    };
    let goal = if ranges.len() >= 2 {
        let (a, b) = ranges[1];
        token_text(s, a, b)
    } else {
        default_token_text()
    };
    (raised, goal)
}

} // verus!
