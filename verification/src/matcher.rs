//! Matching one routing value against the patterns of a condition: exact
//! text, `*` wildcards and integer ranges `low~high`.
use crate::text::{chars_of, occurs_at, replace_all, split, split_str};
use vstd::prelude::*;
use vstd::string::*;

verus! {

/// Whether the `regex` crate compiles `re` (`Some`) and whether the compiled
/// expression matches somewhere in `input`.
pub uninterp spec fn regex_search(re: Seq<char>, input: Seq<char>) -> Option<bool>;

/// Compiles `re` with `regex::Regex::new` and runs `is_match` on `input`;
/// `None` where the expression does not compile. The contract claims only
/// that the outcome is a function of the two texts, named `regex_search`.
#[verifier::external_body]
fn regex_is_match(re: &str, input: &str) -> (r: Option<bool>)
    ensures
        r == regex_search(re@, input@),
{
    match regex::Regex::new(re) {
        Ok(compiled) => Some(compiled.is_match(input)),
        Err(_) => None,
    }
}

/// The value of a run of decimal digits.
pub open spec fn digits_value(d: Seq<char>) -> int
    decreases d.len(),
{
    if d.len() == 0 {
        0
    } else {
        digits_value(d.drop_last()) * 10 + (d.last() as int - '0' as int)
    }
}

pub open spec fn all_digits(d: Seq<char>) -> bool {
    forall|i: int| 0 <= i < d.len() ==> '0' <= #[trigger] d[i] && d[i] <= '9'
}

/// What `i32::from_str` accepts: an optional `+` or `-`, then one or more
/// ASCII digits, with the value in range.
pub open spec fn i32_of_text(s: Seq<char>) -> Option<i32> {
    let neg = s.len() > 0 && s[0] == '-';
    let signed = s.len() > 0 && (s[0] == '-' || s[0] == '+');
    let d = if signed {
        s.drop_first()
    } else {
        s
    };
    if d.len() == 0 || !all_digits(d) {
        None
    } else {
        let v = if neg {
            -digits_value(d)
        } else {
            digits_value(d)
        };
        if i32::MIN <= v && v <= i32::MAX {
            Some(v as i32)
        } else {
            None
        }
    }
}

proof fn lemma_digits_value_nonneg(d: Seq<char>)
    requires
        all_digits(d),
    ensures
        digits_value(d) >= 0,
    decreases d.len(),
{
    if d.len() > 0 {
        lemma_digits_value_nonneg(d.drop_last());
    }
}

/// The value of all of a run of digits is at least that of any prefix.
proof fn lemma_digits_value_prefix(d: Seq<char>, k: int)
    requires
        all_digits(d),
        0 <= k <= d.len(),
    ensures
        digits_value(d) >= digits_value(d.take(k)),
    decreases d.len(),
{
    if k < d.len() {
        lemma_digits_value_prefix(d.drop_last(), k);
        lemma_digits_value_nonneg(d.drop_last());
        assert(d.drop_last().take(k) =~= d.take(k));
    } else {
        assert(d.take(k) =~= d);
    }
}

/// The value of the decimal digits of `v` from position `from` on: `None`
/// when there are none, when another character is among them, or when the
/// value does not fit in `u128`.
pub fn digits_u128(v: &Vec<char>, from: usize) -> (r: Option<u128>)
    requires
        from <= v@.len(),
    ensures
        ({
            let d = v@.skip(from as int);
            r == (if d.len() == 0 || !all_digits(d) || digits_value(d) > u128::MAX {
                None::<u128>
            } else {
                Some(digits_value(d) as u128)
            })
        }),
{
    let ghost d = v@.skip(from as int);
    if from == v.len() {
        return None;
    }
    let mut acc: u128 = 0;
    let mut i: usize = from;
    while i < v.len()
        invariant
            from <= i <= v@.len(),
            d == v@.skip(from as int),
            all_digits(d.take(i - from)),
            acc == digits_value(d.take(i - from)),
        decreases v@.len() - i,
    {
        let c = v[i];
        proof {
            assert(d[i - from] == c);
        }
        if !('0' <= c && c <= '9') {
            return None;
        }
        let digit: u128 = (c as u32 - '0' as u32) as u128;
        proof {
            let t = d.take(i + 1 - from);
            assert(t.drop_last() =~= d.take(i - from));
            assert(t.last() == c);
            assert(all_digits(t));
            assert(digits_value(t) == acc * 10 + digit);
        }
        match acc.checked_mul(10) {
            Some(m) => match m.checked_add(digit) {
                Some(n) => {
                    acc = n;
                },
                None => {
                    proof {
                        if all_digits(d) {
                            lemma_digits_value_prefix(d, i + 1 - from);
                        }
                    }
                    return None;
                },
            },
            None => {
                proof {
                    if all_digits(d) {
                        lemma_digits_value_prefix(d, i + 1 - from);
                    }
                }
                return None;
            },
        }
        i = i + 1;
    }
    assert(d.take(i - from) =~= d);
    Some(acc)
}

/// `s.parse::<i32>().ok()`: an optional sign, then digits only, in range
/// (see `i32_of_text`).
pub(crate) fn parse_i32(s: &str) -> (r: Option<i32>)
    ensures
        r == i32_of_text(s@),
{
    let v = chars_of(s);
    let neg = v.len() > 0 && v[0] == '-';
    let signed = v.len() > 0 && (v[0] == '-' || v[0] == '+');
    let from: usize = if signed { 1 } else { 0 };
    proof {
        if signed {
            assert(v@.skip(1) =~= s@.drop_first());
        } else {
            assert(v@.skip(0) =~= s@);
        }
        let d = v@.skip(from as int);
        if all_digits(d) {
            lemma_digits_value_nonneg(d);
        }
    }
    match digits_u128(&v, from) {
        None => None,
        Some(m) => {
            if neg {
                if m <= 2147483648 {
                    let x: i64 = -(m as i64);
                    Some(x as i32)
                } else {
                    None
                }
            } else if m <= 2147483647 {
                Some(m as i32)
            } else {
                None
            }
        },
    }
}

/// Whether `min <= val <= max`.
pub fn range_matcher(val: i32, min: i32, max: i32) -> (r: bool)
    ensures
        r == (min <= val && val <= max),
{
    min <= val && val <= max
}

/// The regular expression that a wildcard pattern stands for: each `*`
/// becomes `.*`.
pub open spec fn star_regex(pattern: Seq<char>) -> Seq<char> {
    replace_all(pattern, seq!['*'], seq!['.', '*'])
}

/// Whether `pat` occurs in `s`.
pub fn contains_char(s: &str, c: char) -> (b: bool)
    ensures
        b == s@.contains(c),
{
    let v = chars_of(s);
    let mut i: usize = 0;
    while i < v.len()
        invariant
            v@ == s@,
            i <= v@.len(),
            forall|j: int| 0 <= j < i ==> v@[j] != c,
        decreases v@.len() - i,
    {
        if v[i] == c {
            return true;
        }
        i = i + 1;
    }
    false
}

/// `s` with each occurrence of `c` replaced by `with`.
pub fn replace_char(s: &str, c: char, with: &str) -> (r: String)
    ensures
        r@ == replace_all(s@, seq![c], with@),
{
    let v = chars_of(s);
    let n = v.len();
    let mut r = String::new();
    let mut last: usize = 0;
    let mut i: usize = 0;
    assert(s@.subrange(0, n as int) =~= s@);
    assert(r@ + s@.subrange(0, 0) =~= Seq::<char>::empty());
    while i < n
        invariant
            v@ == s@,
            n == s@.len(),
            last <= i <= n,
            r@ + s@.subrange(last as int, i as int) + replace_all(
                s@.subrange(i as int, n as int),
                seq![c],
                with@,
            ) == replace_all(s@, seq![c], with@),
        decreases n - i,
    {
        let ghost rest = s@.subrange(i as int, n as int);
        assert(rest.subrange(1, rest.len() as int) =~= s@.subrange(i + 1, n as int));
        assert(rest.drop_first() =~= s@.subrange(i + 1, n as int));
        assert(rest[0] == v@[i as int]);
        if v[i] == c {
            assert(occurs_at(rest, seq![c], 0)) by {
                assert(rest.subrange(0, 1) =~= seq![c]);
            }
            let piece = s.substring_char(last, i);
            r.append(piece);
            r.append(with);
            i = i + 1;
            last = i;
            assert(s@.subrange(last as int, i as int) =~= Seq::<char>::empty());
        } else {
            assert(!occurs_at(rest, seq![c], 0)) by {
                assert(rest.subrange(0, 1)[0] == rest[0]);
            }
            assert(s@.subrange(last as int, i as int) + seq![rest[0]] =~= s@.subrange(
                last as int,
                i + 1,
            ));
            i = i + 1;
        }
    }
    let piece = s.substring_char(last, n);
    r.append(piece);
    assert(replace_all(s@.subrange(n as int, n as int), seq![c], with@) =~= Seq::<char>::empty());
    r
}

/// Whether `value` matches a wildcard pattern: the pattern with each `*`
/// read as `.*` is compiled as a regular expression and searched for in
/// `value`. `None` where that expression does not compile.
pub fn star_matcher(pattern: &str, input: &str) -> (r: Option<bool>)
    ensures
        r == regex_search(star_regex(pattern@), input@),
{
    proof {
        reveal_strlit(".*");
        assert(".*"@ =~= seq!['.', '*']);
    }
    let re = replace_char(pattern, '*', ".*");
    regex_is_match(re.as_str(), input)
}

/// The outcome of matching `value` against one pattern: `Err` where a
/// wildcard pattern does not compile.
pub open spec fn pattern_result(pattern: Seq<char>, value: Seq<char>) -> Result<bool, ()> {
    if pattern.contains('*') {
        match regex_search(star_regex(pattern), value) {
            Some(b) => Ok(b),
            None => Err(()),
        }
    } else if pattern.contains('~') {
        let parts = split(pattern, '~');
        if parts.len() == 2 {
            match (i32_of_text(parts[0]), i32_of_text(parts[1]), i32_of_text(value)) {
                (Some(low), Some(high), Some(v)) => Ok(low <= v && v <= high),
                _ => Ok(false),
            }
        } else {
            Ok(false)
        }
    } else {
        Ok(pattern == value)
    }
}

/// A pattern did not compile as a regular expression.
#[derive(Debug, Clone, Copy, PartialEq, Eq)]
pub struct InvalidPattern;

/// Scanning `pats` in order for the first pattern whose outcome on `value`
/// is `expect`: `Some(Ok(true))` at such a pattern, `Some(Err(()))` at a
/// pattern that does not compile, `None` when the scan runs out.
pub open spec fn scan(pats: Seq<Seq<char>>, value: Seq<char>, expect: bool) -> Option<
    Result<bool, ()>,
>
    decreases pats.len(),
{
    if pats.len() == 0 {
        None
    } else {
        match pattern_result(pats[0], value) {
            Err(_) => Some(Err(())),
            Ok(b) => if b == expect {
                Some(Ok(true))
            } else {
                scan(pats.drop_first(), value, expect)
            },
        }
    }
}

/// The abstract value of a [`ConditionMatcher`].
pub ghost struct MatcherView {
    pub key: Seq<char>,
    pub matches: Seq<Seq<char>>,
    pub mismatches: Seq<Seq<char>>,
}

/// What `is_match` answers for `value`: no value never matches; a value
/// matches when some match pattern matches it, or else some mismatch
/// pattern does not.
pub open spec fn matcher_result(m: MatcherView, value: Option<Seq<char>>) -> Result<bool, ()> {
    match value {
        None => Ok(false),
        Some(v) => match scan(m.matches, v, true) {
            Some(r) => r,
            None => match scan(m.mismatches, v, false) {
                Some(r) => r,
                None => Ok(false),
            },
        },
    }
}

/// The set `s` with `x` added (kept in insertion order).
pub open spec fn set_add(s: Seq<Seq<char>>, x: Seq<char>) -> Seq<Seq<char>> {
    if s.contains(x) {
        s
    } else {
        s.push(x)
    }
}

/// The patterns that one routing key is matched against.
#[derive(Debug, Default)]
pub struct ConditionMatcher {
    _key: String,
    matches: Vec<String>,
    mismatches: Vec<String>,
}

impl View for ConditionMatcher {
    type V = MatcherView;

    closed spec fn view(&self) -> MatcherView {
        MatcherView {
            key: self._key@,
            matches: self.matches@.map_values(|s: String| s@),
            mismatches: self.mismatches@.map_values(|s: String| s@),
        }
    }
}

/// `s` with `x` added unless it is there already.
fn add_to_set(s: &mut Vec<String>, x: String)
    ensures
        final(s)@.map_values(|t: String| t@) == set_add(old(s)@.map_values(|t: String| t@), x@),
{
    let ghost sv = s@.map_values(|t: String| t@);
    let mut i: usize = 0;
    while i < s.len()
        invariant
            sv == s@.map_values(|t: String| t@),
            i <= s@.len(),
            forall|j: int| 0 <= j < i ==> sv[j] != x@,
        decreases s@.len() - i,
    {
        if s[i] == x {
            assert(sv[i as int] == x@);
            return;
        }
        i = i + 1;
    }
    s.push(x);
    assert(!sv.contains(x@));
    assert(s@.map_values(|t: String| t@) =~= sv.push(x@));
}

/// A copy of each string.
fn copy_vec(v: &Vec<String>) -> (r: Vec<String>)
    ensures
        r@ == v@,
{
    let mut r: Vec<String> = Vec::new();
    let mut i: usize = 0;
    while i < v.len()
        invariant
            i <= v@.len(),
            r@ == v@.subrange(0, i as int),
        decreases v@.len() - i,
    {
        r.push(v[i].clone());
        i = i + 1;
        assert(r@ =~= v@.subrange(0, i as int));
    }
    assert(r@ =~= v@);
    r
}

impl ConditionMatcher {
    /// A matcher for `_key` with no patterns.
    pub fn new(_key: String) -> (m: ConditionMatcher)
        ensures
            m@.key == _key@,
            m@.matches.len() == 0,
            m@.mismatches.len() == 0,
    {
        let m = ConditionMatcher { _key, matches: Vec::new(), mismatches: Vec::new() };
        assert(m@.matches =~= Seq::<Seq<char>>::empty());
        m
    }

    /// The routing key.
    pub fn key(&self) -> (k: &String)
        ensures
            k@ == self@.key,
    {
        &self._key
    }

    /// A copy of the matcher.
    pub fn copy(&self) -> (m: ConditionMatcher)
        ensures
            m@ == self@,
    {
        ConditionMatcher {
            _key: self._key.clone(),
            matches: copy_vec(&self.matches),
            mismatches: copy_vec(&self.mismatches),
        }
    }

    /// The patterns a value must match.
    pub fn get_matches(&self) -> (r: &Vec<String>)
        ensures
            r@.map_values(|s: String| s@) == self@.matches,
    {
        &self.matches
    }

    /// The patterns a value must not match.
    pub fn get_mismatches(&self) -> (r: &Vec<String>)
        ensures
            r@.map_values(|s: String| s@) == self@.mismatches,
    {
        &self.mismatches
    }

    /// Adds a pattern that a value must match.
    pub fn add_match(&mut self, pattern: String)
        ensures
            final(self)@ == (MatcherView {
                matches: set_add(old(self)@.matches, pattern@),
                ..old(self)@
            }),
    {
        add_to_set(&mut self.matches, pattern);
    }

    /// Adds a pattern that a value must not match.
    pub fn add_mismatch(&mut self, pattern: String)
        ensures
            final(self)@ == (MatcherView {
                mismatches: set_add(old(self)@.mismatches, pattern@),
                ..old(self)@
            }),
    {
        add_to_set(&mut self.mismatches, pattern);
    }

    /// Matches `value` against one pattern: a pattern with `*` is a
    /// wildcard, one with `~` an integer range `low~high`, any other must
    /// equal the value.
    fn do_pattern_match(&self, pattern: &str, value: &str) -> (r: Result<bool, InvalidPattern>)
        ensures
            match r {
                Ok(b) => pattern_result(pattern@, value@) == Ok::<bool, ()>(b),
                Err(_) => pattern_result(pattern@, value@) is Err,
            },
    {
        if contains_char(pattern, '*') {
            return match star_matcher(pattern, value) {
                Some(b) => Ok(b),
                None => Err(InvalidPattern),
            };
        }
        if contains_char(pattern, '~') {
            let parts = split_str(pattern, '~');
            if parts.len() == 2 {
                let left = parse_i32(parts[0].as_str());
                let right = parse_i32(parts[1].as_str());
                let val = parse_i32(value);
                match (left, right, val) {
                    (Some(l), Some(h), Some(v)) => {
                        return Ok(range_matcher(v, l, h));
                    },
                    _ => {
                        return Ok(false);
                    },
                }
            }
            return Ok(false);
        }
        let eq = pattern_eq(pattern, value);
        Ok(eq)
    }

    /// Scans `pats` for the first pattern whose outcome on `value` is
    /// `expect`.
    fn scan_patterns(&self, pats: &Vec<String>, value: &str, expect: bool) -> (r: Option<
        Result<bool, InvalidPattern>,
    >)
        ensures
            match r {
                None => scan(pats@.map_values(|s: String| s@), value@, expect) is None,
                Some(Ok(b)) => scan(pats@.map_values(|s: String| s@), value@, expect) == Some(
                    Ok::<bool, ()>(b),
                ),
                Some(Err(_)) => scan(pats@.map_values(|s: String| s@), value@, expect) == Some(
                    Err::<bool, ()>(()),
                ),
            },
    {
        let ghost ps = pats@.map_values(|s: String| s@);
        let mut i: usize = 0;
        assert(ps.skip(0) =~= ps);
        while i < pats.len()
            invariant
                ps == pats@.map_values(|s: String| s@),
                i <= pats@.len(),
                scan(ps, value@, expect) == scan(ps.skip(i as int), value@, expect),
            decreases pats@.len() - i,
        {
            assert(ps.skip(i as int)[0] == pats@[i as int]@);
            assert(ps.skip(i as int).drop_first() =~= ps.skip(i + 1));
            match self.do_pattern_match(pats[i].as_str(), value) {
                Err(e) => {
                    return Some(Err(e));
                },
                Ok(b) => {
                    if b == expect {
                        return Some(Ok(true));
                    }
                },
            }
            i = i + 1;
        }
        None
    }

    /// Whether `value` satisfies the matcher: a missing value does not; a
    /// value does when one of the match patterns matches it, or else when
    /// one of the mismatch patterns does not. `Err` when a wildcard pattern
    /// met on the way does not compile.
    pub fn is_match(&self, value: Option<String>) -> (r: Result<bool, InvalidPattern>)
        ensures
            match r {
                Ok(b) => matcher_result(self@, opt_seq(value)) == Ok::<bool, ()>(b),
                Err(_) => matcher_result(self@, opt_seq(value)) is Err,
            },
    {
        match value {
            None => Ok(false),
            Some(val) => {
                match self.scan_patterns(&self.matches, val.as_str(), true) {
                    Some(r) => r,
                    None => match self.scan_patterns(&self.mismatches, val.as_str(), false) {
                        Some(r) => r,
                        None => Ok(false),
                    },
                }
            },
        }
    }
}

pub open spec fn opt_seq(o: Option<String>) -> Option<Seq<char>> {
    match o {
        Some(s) => Some(s@),
        None => None,
    }
}

/// Whether two texts are equal.
pub fn pattern_eq(a: &str, b: &str) -> (r: bool)
    ensures
        r == (a@ == b@),
{
    let x = String::from_str(a);
    let y = String::from_str(b);
    x == y
}

} // verus!
