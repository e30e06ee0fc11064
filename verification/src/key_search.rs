//! Pattern-based key search.  Whether a pattern is valid and which keys it
//! matches is decided by the `glob` and `regex` crates; both are functions
//! of the pattern and the text alone, so they are named here and the
//! filtering over the live key list is verified against those names.

use vstd::prelude::*;

verus! {

/// Whether `glob::Pattern::new` accepts `pattern`.
pub uninterp spec fn glob_ok(pattern: Seq<char>) -> bool;

/// Whether the compiled glob `pattern` matches `text`.
pub uninterp spec fn glob_matches(pattern: Seq<char>, text: Seq<char>) -> bool;

/// Whether `regex::Regex::new` accepts `pattern`.
pub uninterp spec fn regex_ok(pattern: Seq<char>) -> bool;

/// Whether the compiled regular expression `pattern` matches somewhere in
/// `text`.
pub uninterp spec fn regex_matches(pattern: Seq<char>, text: Seq<char>) -> bool;

/// Relies on `glob::Pattern::new`: whether compilation succeeds is a
/// function of the pattern text alone.
#[verifier::external_body]
fn glob_check(pattern: &str) -> (r: bool)
    ensures
        r == glob_ok(pattern@),
{
    glob::Pattern::new(pattern).is_ok()
}

/// Relies on `glob::Pattern::new` and `glob::Pattern::matches` (with the
/// default match options): compilation fails exactly for invalid patterns,
/// and matching is a function of the pattern and the text alone.
#[verifier::external_body]
fn glob_match(pattern: &str, text: &str) -> (r: Option<bool>)
    ensures
        r is Some <==> glob_ok(pattern@),
        r matches Some(b) ==> b == glob_matches(pattern@, text@),
{
    glob::Pattern::new(pattern).ok().map(|p| p.matches(text))
}

/// Relies on `regex::Regex::new`: whether compilation succeeds is a
/// function of the pattern text alone.
#[verifier::external_body]
fn regex_check(pattern: &str) -> (r: bool)
    ensures
        r == regex_ok(pattern@),
{
    regex::Regex::new(pattern).is_ok()
}

/// Relies on `regex::Regex::new` and `regex::Regex::is_match`: compilation
/// fails exactly for invalid patterns, and matching is a function of the
/// pattern and the haystack alone.
#[verifier::external_body]
fn regex_match(pattern: &str, text: &str) -> (r: Option<bool>)
    ensures
        r is Some <==> regex_ok(pattern@),
        r matches Some(b) ==> b == regex_matches(pattern@, text@),
{
    regex::Regex::new(pattern).ok().map(|p| p.is_match(text))
}

/// The views of a sequence of strings.
pub open spec fn views_of(ss: Seq<String>) -> Seq<Seq<char>> {
    ss.map_values(|s: String| s@)
}

/// The keys of `keys` the glob `pattern` matches, in order.
pub open spec fn glob_filter_spec(keys: Seq<Seq<char>>, pattern: Seq<char>) -> Seq<Seq<char>>
    decreases keys.len(),
{
    if keys.len() == 0 {
        Seq::empty()
    } else {
        let rest = glob_filter_spec(keys.drop_last(), pattern);
        if glob_matches(pattern, keys.last()) {
            rest.push(keys.last())
        } else {
            rest
        }
    }
}

/// The keys of `keys` the regular expression `pattern` matches, in order.
pub open spec fn regex_filter_spec(keys: Seq<Seq<char>>, pattern: Seq<char>) -> Seq<Seq<char>>
    decreases keys.len(),
{
    if keys.len() == 0 {
        Seq::empty()
    } else {
        let rest = regex_filter_spec(keys.drop_last(), pattern);
        if regex_matches(pattern, keys.last()) {
            rest.push(keys.last())
        } else {
            rest
        }
    }
}

/// Filters `keys` by the glob `pattern`: exactly the matching keys, in the
/// order given; nothing when the pattern is invalid.
pub fn glob_filter(keys: &Vec<String>, pattern: &str) -> (r: Option<Vec<String>>)
    ensures
        r is Some <==> glob_ok(pattern@),
        r matches Some(ks) ==> views_of(ks@) == glob_filter_spec(views_of(keys@), pattern@),
{
    if !glob_check(pattern) {
        return None;
    }
    let n = keys.len();
    let mut out: Vec<String> = Vec::new();
    let mut i: usize = 0;
    while i < n
        invariant
            glob_ok(pattern@),
            n == keys@.len(),
            0 <= i <= n,
            views_of(out@) == glob_filter_spec(views_of(keys@).take(i as int), pattern@),
        decreases n - i,
    {
        let k = &keys[i];
        let b = match glob_match(pattern, k.as_str()) {
            Some(b) => b,
            None => false,
        };
        proof {
            assert(b == glob_matches(pattern@, keys@[i as int]@));
            assert(views_of(keys@)[i as int] == keys@[i as int]@);
            assert(views_of(keys@).take(i as int + 1).drop_last() =~= views_of(keys@).take(
                i as int,
            ));
            assert(views_of(keys@).take(i as int + 1).last() == views_of(keys@)[i as int]);
        }
        if b {
            out.push(k.clone());
            proof {
                assert(views_of(out@) =~= glob_filter_spec(
                    views_of(keys@).take(i as int + 1),
                    pattern@,
                ));
            }
        } else {
            proof {
                assert(views_of(out@) =~= glob_filter_spec(
                    views_of(keys@).take(i as int + 1),
                    pattern@,
                ));
            }
        }
        i = i + 1;
    }
    proof {
        assert(views_of(keys@).take(n as int) =~= views_of(keys@));
    }
    Some(out)
}

/// Filters `keys` by the regular expression `pattern`: exactly the
/// matching keys, in the order given; nothing when the pattern is invalid.
pub fn regex_filter(keys: &Vec<String>, pattern: &str) -> (r: Option<Vec<String>>)
    ensures
        r is Some <==> regex_ok(pattern@),
        r matches Some(ks) ==> views_of(ks@) == regex_filter_spec(views_of(keys@), pattern@),
{
    if !regex_check(pattern) {
        return None;
    }
    let n = keys.len();
    let mut out: Vec<String> = Vec::new();
    let mut i: usize = 0;
    while i < n
        invariant
            regex_ok(pattern@),
            n == keys@.len(),
            0 <= i <= n,
            views_of(out@) == regex_filter_spec(views_of(keys@).take(i as int), pattern@),
        decreases n - i,
    {
        let k = &keys[i];
        let b = match regex_match(pattern, k.as_str()) {
            Some(b) => b,
            None => false,
        };
        proof {
            assert(b == regex_matches(pattern@, keys@[i as int]@));
            assert(views_of(keys@)[i as int] == keys@[i as int]@);
            assert(views_of(keys@).take(i as int + 1).drop_last() =~= views_of(keys@).take(
                i as int,
            ));
            assert(views_of(keys@).take(i as int + 1).last() == views_of(keys@)[i as int]);
        }
        if b {
            out.push(k.clone());
            proof {
                assert(views_of(out@) =~= regex_filter_spec(
                    views_of(keys@).take(i as int + 1),
                    pattern@,
                ));
            }
        } else {
            proof {
                assert(views_of(out@) =~= regex_filter_spec(
                    views_of(keys@).take(i as int + 1),
                    pattern@,
                ));
            }
        }
        i = i + 1;
    }
    proof {
        assert(views_of(keys@).take(n as int) =~= views_of(keys@));
    }
    Some(out)
}

} // verus!
