//! One condition routing rule `when => then_conds`: parsing its text into
//! matchers and filtering invokers with it.
use crate::invocation::RpcInvocation;
use crate::matcher::{matcher_result, set_add, ConditionMatcher, InvalidPattern, MatcherView};
use crate::params::{lookup, Entries, ParamMap};
use crate::sample::{original_map, to_original_map};
use crate::text::{
    chars_of, is_ws, lemma_replace_all_absent, lemma_replace_all_concat, lemma_trim_keeps_nonspace, no_cross,
    occurs_at, replace_all, replace_str, substring, trim, trim_str,
};
use crate::url::{Url, UrlView};
use vstd::prelude::*;
use vstd::string::*;

verus! {

/// What the `regex` crate captures in `text` with the expression `re`: for
/// each match in order, the text of groups 1 and 2; `None` where `re` does
/// not compile.
pub uninterp spec fn regex_captures(re: Seq<char>, text: Seq<char>) -> Option<
    Seq<(Seq<char>, Seq<char>)>,
>;

/// Compiles `re` with `regex::Regex::new` and collects, for each match of
/// `captures_iter(text)`, the text of capture groups 1 and 2 (empty for a
/// group that did not take part). The contract claims only that the result
/// is a function of the two texts, named `regex_captures`.
#[verifier::external_body]
fn capture_pairs(re: &str, text: &str) -> (r: Option<Vec<(String, String)>>)
    ensures
        match r {
            Some(v) => regex_captures(re@, text@) == Some(
                v@.map_values(|t: (String, String)| (t.0@, t.1@)),
            ),
            None => regex_captures(re@, text@) is None,
        },
{
    match regex::Regex::new(re) {
        Ok(compiled) => Some(
            compiled.captures_iter(text).map(|c| (
                c.get(1).map_or(String::new(), |m| m.as_str().to_string()),
                c.get(2).map_or(String::new(), |m| m.as_str().to_string()),
            )).collect(),
        ),
        Err(_) => None,
    }
}

/// The expression that cuts a rule side into (separator, content) tokens.
pub open spec fn token_regex() -> Seq<char> {
    seq![
        '(', '[', '&', '!', '=', ',', ']', '*', ')', '\\', 's', '*', '(', '[', '^', '&', '!', '=',
        ',', '\\', 's', ']', '+', ')',
    ]
}

/// Why a rule could not be read.
#[derive(Debug, Clone, Copy, PartialEq, Eq)]
pub enum RuleError {
    /// The rule is empty or only whitespace.
    Blank,
    /// The rule has no `=>`.
    NoArrow,
    /// A side of the rule is not a well-formed list of conditions.
    Syntax,
}

impl RuleError {
    /// The message of the error: `Illegal route rule!` for a blank rule,
    /// `Error: ...` for a malformed side, and one that names the missing
    /// `=>` for a rule without it.
    pub fn to_string(&self) -> (s: &'static str)
        ensures
            s@ == match *self {
                RuleError::Blank => "Illegal route rule!"@,
                RuleError::NoArrow => "Illegal route rule: no `=>`"@,
                RuleError::Syntax => "Error: ..."@,
            },
    {
        match self {
            RuleError::Blank => "Illegal route rule!",
            RuleError::NoArrow => "Illegal route rule: no `=>`",
            RuleError::Syntax => "Error: ...",
        }
    }
}

/// A matcher for `key` with no patterns.
pub open spec fn fresh_matcher(key: Seq<char>) -> MatcherView {
    MatcherView { key, matches: Seq::<Seq<char>>::empty(), mismatches: Seq::<Seq<char>>::empty() }
}

pub open spec fn cond_has(cs: Seq<MatcherView>, k: Seq<char>) -> bool {
    exists|i: int| 0 <= i < cs.len() && (#[trigger] cs[i]).key == k
}

pub open spec fn cond_pos(cs: Seq<MatcherView>, k: Seq<char>) -> int {
    choose|i: int| 0 <= i < cs.len() && (#[trigger] cs[i]).key == k
}

pub open spec fn cond_keys_unique(cs: Seq<MatcherView>) -> bool {
    forall|i: int, j: int| 0 <= i < j < cs.len() ==> (#[trigger] cs[i]).key != (#[trigger] cs[j]).key
}

/// `cs` with `m` in the place of the matcher of the same key, or appended.
pub open spec fn cond_put(cs: Seq<MatcherView>, m: MatcherView) -> Seq<MatcherView> {
    if cond_has(cs, m.key) {
        cs.update(cond_pos(cs, m.key), m)
    } else {
        cs.push(m)
    }
}

pub proof fn lemma_cond_put_has(cs: Seq<MatcherView>, m: MatcherView)
    ensures
        cond_has(cond_put(cs, m), m.key),
{
    let r = cond_put(cs, m);
    if cond_has(cs, m.key) {
        let p = cond_pos(cs, m.key);
        assert(r[p].key == m.key);
    } else {
        assert(r[cs.len() as int].key == m.key);
    }
}

/// The state of reading a rule side: the matchers so far, by key, and the
/// key that `=`, `!=` and `,` apply to.
pub ghost struct ParseState {
    pub conds: Seq<MatcherView>,
    pub current: Option<Seq<char>>,
}

/// One token read: an empty separator starts a fresh matcher for the
/// content; `&` moves to the content's matcher, creating it if needed; `=`
/// and `!=` add the content to the current matcher's match or mismatch
/// patterns; `,` adds another match pattern to a current matcher that has a
/// pattern already. Anything else is an error (`None`).
pub open spec fn parse_step(st: ParseState, tok: (Seq<char>, Seq<char>)) -> Option<ParseState> {
    let sep = tok.0;
    let content = tok.1;
    if sep == Seq::<char>::empty() {
        Some(ParseState { conds: cond_put(st.conds, fresh_matcher(content)), current: Some(content) })
    } else if sep == seq!['&'] {
        if cond_has(st.conds, content) {
            Some(ParseState { conds: st.conds, current: Some(content) })
        } else {
            Some(
                ParseState {
                    conds: cond_put(st.conds, fresh_matcher(content)),
                    current: Some(content),
                },
            )
        }
    } else if sep == seq!['='] || sep == seq!['!', '='] || sep == seq![','] {
        match st.current {
            None => None,
            Some(k) => {
                let m = st.conds[cond_pos(st.conds, k)];
                if sep == seq!['='] {
                    Some(
                        ParseState {
                            conds: cond_put(
                                st.conds,
                                MatcherView { matches: set_add(m.matches, content), ..m },
                            ),
                            current: st.current,
                        },
                    )
                } else if sep == seq!['!', '='] {
                    Some(
                        ParseState {
                            conds: cond_put(
                                st.conds,
                                MatcherView { mismatches: set_add(m.mismatches, content), ..m },
                            ),
                            current: st.current,
                        },
                    )
                } else if m.matches.len() == 0 && m.mismatches.len() == 0 {
                    None
                } else {
                    Some(
                        ParseState {
                            conds: cond_put(
                                st.conds,
                                MatcherView { matches: set_add(m.matches, content), ..m },
                            ),
                            current: st.current,
                        },
                    )
                }
            },
        }
    } else {
        None
    }
}

/// The tokens read in order from no matchers; `None` at the first error.
pub open spec fn parse_tokens(toks: Seq<(Seq<char>, Seq<char>)>) -> Option<ParseState>
    decreases toks.len(),
{
    if toks.len() == 0 {
        Some(ParseState { conds: Seq::<MatcherView>::empty(), current: None })
    } else {
        match parse_tokens(toks.drop_last()) {
            None => None,
            Some(st) => parse_step(st, toks.last()),
        }
    }
}

/// The matchers of a rule side.
pub open spec fn side_conditions(side: Seq<char>) -> Option<Seq<MatcherView>> {
    match regex_captures(token_regex(), side) {
        None => None,
        Some(toks) => match parse_tokens(toks) {
            None => None,
            Some(st) => Some(st.conds),
        },
    }
}

pub open spec fn consumer_prefix() -> Seq<char> {
    seq!['c', 'o', 'n', 's', 'u', 'm', 'e', 'r', '.']
}

pub open spec fn provider_prefix() -> Seq<char> {
    seq!['p', 'r', 'o', 'v', 'i', 'd', 'e', 'r', '.']
}

/// The rule without its `consumer.` and `provider.` prefixes.
pub open spec fn stripped_rule(rule: Seq<char>) -> Seq<char> {
    replace_all(
        replace_all(rule, consumer_prefix(), Seq::<char>::empty()),
        provider_prefix(),
        Seq::<char>::empty(),
    )
}

/// A lowercase ASCII letter.
pub open spec fn is_lower(c: char) -> bool {
    'a' <= c && c <= 'z'
}

/// A prefix: lowercase letters, then a `.` that ends it.
pub open spec fn prefix_shaped(pat: Seq<char>) -> bool {
    &&& pat.len() > 1
    &&& pat.last() == '.'
    &&& forall|k: int| 0 <= k < pat.len() - 1 ==> is_lower(#[trigger] pat[k])
}

proof fn lemma_prefixes_shaped()
    ensures
        prefix_shaped(consumer_prefix()),
        prefix_shaped(provider_prefix()),
{
    let c = consumer_prefix();
    let p = provider_prefix();
    assert forall|k: int| 0 <= k < c.len() - 1 implies is_lower(#[trigger] c[k]) by {
        assert(0 <= k < 8);
    }
    assert forall|k: int| 0 <= k < p.len() - 1 implies is_lower(#[trigger] p[k]) by {
        assert(0 <= k < 8);
    }
}

/// No occurrence of a prefix straddles a piece that ends in a character
/// other than a lowercase letter.
proof fn lemma_no_cross_after(x: Seq<char>, y: Seq<char>, pat: Seq<char>)
    requires
        prefix_shaped(pat),
        x.len() == 0 || !is_lower(x.last()),
    ensures
        no_cross(x, y, pat),
{
    assert forall|i: int| 0 <= i < x.len() && x.len() < i + pat.len() implies !occurs_at(x + y, pat, i) by {
        if occurs_at(x + y, pat, i) {
            let k = x.len() - 1 - i;
            assert((x + y).subrange(i, i + pat.len())[k] == (x + y)[x.len() - 1]);
            assert(pat[k] == x.last());
        }
    }
}

/// Removing a prefix keeps the last character of a text that does not end
/// in `.`.
proof fn lemma_replace_keeps_last(x: Seq<char>, pat: Seq<char>)
    requires
        prefix_shaped(pat),
        x.len() > 0,
        x.last() != '.',
    ensures
        replace_all(x, pat, Seq::<char>::empty()).len() > 0,
        replace_all(x, pat, Seq::<char>::empty()).last() == x.last(),
{
    let e = Seq::<char>::empty();
    let front = x.drop_last();
    let c = seq![x.last()];
    assert forall|i: int| 0 <= i < front.len() && front.len() < i + pat.len() implies !occurs_at(front + c, pat, i) by {
        if occurs_at(front + c, pat, i) {
            assert((front + c).subrange(i, i + pat.len())[pat.len() - 1] == (front + c)[i + pat.len() - 1]);
        }
    }
    lemma_replace_all_concat(front, c, pat, e);
    assert(front + c =~= x);
    assert(!occurs_at(c, pat, 0));
    assert(c.drop_first() =~= e);
    assert(replace_all(c, pat, e) == seq![x.last()] + replace_all(c.drop_first(), pat, e));
}

/// A prefix removed from itself leaves nothing.
proof fn lemma_replace_self(pat: Seq<char>)
    requires
        pat.len() > 0,
    ensures
        replace_all(pat, pat, Seq::<char>::empty()) == Seq::<char>::empty(),
{
    let e = Seq::<char>::empty();
    assert(pat.subrange(0, pat.len() as int) =~= pat);
    assert(occurs_at(pat, pat, 0));
    let rest = pat.subrange(pat.len() as int, pat.len() as int);
    assert(rest =~= e);
    assert(replace_all(rest, pat, e) == rest);
    assert(replace_all(pat, pat, e) == e + replace_all(rest, pat, e));
    assert(e + e =~= e);
}

/// The `consumer.` pass over `a + p + b` and over `a + b`.
proof fn lemma_consumer_pass(a: Seq<char>, b: Seq<char>, p: Seq<char>)
    requires
        p == consumer_prefix() || p == provider_prefix(),
        a.len() == 0 || (a.last() != '.' && !is_lower(a.last())),
    ensures
        ({
            let c = consumer_prefix();
            let e = Seq::<char>::empty();
            let x = replace_all(a, c, e);
            let y = replace_all(b, c, e);
            &&& replace_all(a + b, c, e) == x + y
            &&& replace_all(a + p + b, c, e) == (if p == c { x + y } else { x + p + y })
            &&& x.len() == 0 || !is_lower(x.last())
        }),
{
    let c = consumer_prefix();
    let pv = provider_prefix();
    let e = Seq::<char>::empty();
    lemma_prefixes_shaped();
    lemma_no_cross_after(a + p, b, c);
    lemma_replace_all_concat(a + p, b, c, e);
    lemma_no_cross_after(a, p, c);
    lemma_replace_all_concat(a, p, c, e);
    lemma_no_cross_after(a, b, c);
    lemma_replace_all_concat(a, b, c, e);
    let x = replace_all(a, c, e);
    let y = replace_all(b, c, e);
    if a.len() > 0 {
        lemma_replace_keeps_last(a, c);
    }
    if p == c {
        lemma_replace_self(c);
        assert(x + e =~= x);
    } else {
        assert forall|i: int| !occurs_at(pv, c, i) by {
            if occurs_at(pv, c, i) {
                assert(pv.subrange(i, i + c.len())[0] == c[0]);
            }
        }
        lemma_replace_all_absent(pv, c, e);
    }
}

/// The `provider.` pass over `x + provider. + y` and over `x + y`.
proof fn lemma_provider_pass(x: Seq<char>, y: Seq<char>)
    requires
        x.len() == 0 || !is_lower(x.last()),
    ensures
        ({
            let pv = provider_prefix();
            let e = Seq::<char>::empty();
            replace_all(x + pv + y, pv, e) == replace_all(x + y, pv, e)
        }),
{
    let pv = provider_prefix();
    let e = Seq::<char>::empty();
    lemma_prefixes_shaped();
    lemma_no_cross_after(x + pv, y, pv);
    lemma_replace_all_concat(x + pv, y, pv, e);
    lemma_no_cross_after(x, pv, pv);
    lemma_replace_all_concat(x, pv, pv, e);
    lemma_no_cross_after(x, y, pv);
    lemma_replace_all_concat(x, y, pv, e);
    lemma_replace_self(pv);
    assert(replace_all(x, pv, e) + e =~= replace_all(x, pv, e));
}

/// Reading a rule drops its `consumer.` and `provider.` prefixes: a rule
/// with such a prefix inserted, after any text that does not end in a
/// lowercase letter or `.` (so the prefix starts a key), reads exactly as
/// the rule without it. So `=> provider.port = 8888` is read as
/// `=> port = 8888`.
pub proof fn law_rule_prefix_is_dropped(a: Seq<char>, b: Seq<char>, p: Seq<char>)
    requires
        p == consumer_prefix() || p == provider_prefix(),
        a.len() == 0 || (a.last() != '.' && !is_lower(a.last())),
    ensures
        stripped_rule(a + p + b) == stripped_rule(a + b),
        trim(a + b).len() > 0 ==> rule_conditions(a + p + b) == rule_conditions(a + b),
{
    let c = consumer_prefix();
    let e = Seq::<char>::empty();
    lemma_consumer_pass(a, b, p);
    let x = replace_all(a, c, e);
    let y = replace_all(b, c, e);
    if p != c {
        lemma_provider_pass(x, y);
    }
    assert(stripped_rule(a + p + b) == stripped_rule(a + b));
    if trim(a + b).len() > 0 {
        assert((a + p + b)[a.len() as int] == p[0]);
        assert(!is_ws(p[0]));
        lemma_trim_keeps_nonspace(a + p + b, a.len() as int);
        lemma_same_stripped_same_conditions(a + p + b, a + b);
    }
}

/// Two rules, neither blank, that read the same once their prefixes are
/// dropped have the same conditions.
proof fn lemma_same_stripped_same_conditions(r1: Seq<char>, r2: Seq<char>)
    requires
        trim(r1).len() > 0,
        trim(r2).len() > 0,
        stripped_rule(r1) == stripped_rule(r2),
    ensures
        rule_conditions(r1) == rule_conditions(r2),
{
    reveal(rule_conditions);
}

pub open spec fn arrow_at(s: Seq<char>, i: int) -> bool {
    0 <= i && i + 1 < s.len() && s[i] == '=' && s[i + 1] == '>'
}

/// The first position of `=>`.
pub open spec fn first_arrow(s: Seq<char>) -> Option<int> {
    if exists|i: int| arrow_at(s, i) {
        Some(choose|i: int| arrow_at(s, i) && forall|j: int| 0 <= j < i ==> !arrow_at(s, j))
    } else {
        None
    }
}

pub open spec fn word_true() -> Seq<char> {
    seq!['t', 'r', 'u', 'e']
}

pub open spec fn word_false() -> Seq<char> {
    seq!['f', 'a', 'l', 's', 'e']
}

/// The `when` and `then_conds` matchers of a rule: the rule without its
/// `consumer.`/`provider.` prefixes is cut at its first `=>`; each side is
/// trimmed; an empty `when` side or `true` matches every consumer, an empty
/// `then_conds` side or `false` no provider; other sides are parsed.
#[verifier::opaque]
pub open spec fn rule_conditions(rule: Seq<char>) -> Result<
    (Seq<MatcherView>, Seq<MatcherView>),
    RuleError,
> {
    if trim(rule).len() == 0 {
        Err(RuleError::Blank)
    } else {
        let r = stripped_rule(rule);
        match first_arrow(r) {
            None => Err(RuleError::NoArrow),
            Some(i) => {
                let when_side = trim(r.subrange(0, i));
                let then_side = trim(r.subrange(i + 2, r.len() as int));
                let when = if when_side.len() == 0 || when_side == word_true() {
                    Some(Seq::<MatcherView>::empty())
                } else {
                    side_conditions(when_side)
                };
                let then_conds = if then_side.len() == 0 || then_side == word_false() {
                    Some(Seq::<MatcherView>::empty())
                } else {
                    side_conditions(then_side)
                };
                match (when, then_conds) {
                    (Some(w), Some(t)) => Ok((w, t)),
                    _ => Err(RuleError::Syntax),
                }
            },
        }
    }
}

pub open spec fn matchers_view(v: Seq<ConditionMatcher>) -> Seq<MatcherView> {
    v.map_values(|m: ConditionMatcher| m@)
}

pub open spec fn key_method() -> Seq<char> {
    seq!['m', 'e', 't', 'h', 'o', 'd']
}

/// The value a condition reads for `key`: the method of the invocation for
/// `method`, else the routing value of that name.
pub open spec fn sample_value(key: Seq<char>, sample: Entries, method: Seq<char>) -> Option<
    Seq<char>,
> {
    if key == key_method() {
        Some(method)
    } else {
        lookup(sample, key)
    }
}

/// Every matcher accepts its value (a pattern error counts as no).
pub open spec fn conditions_hold(cs: Seq<MatcherView>, sample: Entries, method: Seq<char>) -> bool {
    forall|i: int|
        0 <= i < cs.len() ==> matcher_result(
            #[trigger] cs[i],
            sample_value(cs[i].key, sample, method),
        ) == Ok::<bool, ()>(true)
}

/// A side of a rule holds only if each of its matchers accepts its value:
/// one matcher that rejects its value, or whose pattern is in error, is
/// enough for the side not to hold; and the side holds when every matcher
/// accepts.
pub proof fn law_conditions_hold_only_when_all_accept(cs: Seq<MatcherView>, sample: Entries, method: Seq<char>)
    ensures
        forall|i: int|
            0 <= i < cs.len() && matcher_result(#[trigger] cs[i], sample_value(cs[i].key, sample, method))
                != Ok::<bool, ()>(true) ==> !conditions_hold(cs, sample, method),
        (forall|i: int|
            0 <= i < cs.len() ==> matcher_result(#[trigger] cs[i], sample_value(cs[i].key, sample, method))
                == Ok::<bool, ()>(true)) ==> conditions_hold(cs, sample, method),
{
}

/// The abstract value of a [`ConditionSingleRouter`].
pub ghost struct RouterView {
    pub name: Seq<char>,
    pub when: Seq<MatcherView>,
    pub then_conds: Seq<MatcherView>,
    pub enabled: bool,
    pub force: bool,
}

/// Whether the consumer `url` is one the rule applies to.
pub open spec fn when_holds(r: RouterView, url: UrlView, method: Seq<char>) -> bool {
    r.when.len() == 0 || conditions_hold(r.when, original_map(url), method)
}

/// Whether the provider `url` is one the rule routes to.
pub open spec fn then_holds(r: RouterView, url: UrlView, method: Seq<char>) -> bool {
    r.then_conds.len() > 0 && conditions_hold(r.then_conds, original_map(url), method)
}

/// The invokers that the `then_conds` side accepts, in order.
pub open spec fn then_filter(r: RouterView, invokers: Seq<UrlView>, method: Seq<char>) -> Seq<
    UrlView,
>
    decreases invokers.len(),
{
    if invokers.len() == 0 {
        Seq::<UrlView>::empty()
    } else {
        let rest = then_filter(r, invokers.drop_last(), method);
        if then_holds(r, invokers.last(), method) {
            rest.push(invokers.last())
        } else {
            rest
        }
    }
}

proof fn lemma_then_filter_members(r: RouterView, invokers: Seq<UrlView>, method: Seq<char>)
    ensures
        forall|k: int| 0 <= k < then_filter(r, invokers, method).len() ==> invokers.contains(
            #[trigger] then_filter(r, invokers, method)[k],
        ) && then_holds(r, then_filter(r, invokers, method)[k], method),
    decreases invokers.len(),
{
    if invokers.len() > 0 {
        let front = invokers.drop_last();
        lemma_then_filter_members(r, front, method);
        let rest = then_filter(r, front, method);
        let w = then_filter(r, invokers, method);
        assert forall|k: int| 0 <= k < w.len() implies invokers.contains(#[trigger] w[k]) && then_holds(
            r,
            w[k],
            method,
        ) by {
            if k < rest.len() {
                assert(w[k] == rest[k]);
                let m = choose|m: int| 0 <= m < front.len() && front[m] == rest[k];
                assert(invokers[m] == front[m]);
            } else {
                assert(w[k] == invokers.last());
                assert(invokers[invokers.len() - 1] == invokers.last());
            }
        }
    }
}

/// A rule applies only to a consumer that meets every condition of its
/// `when` side: when one of them rejects the consumer's value (or is in
/// error), the invokers are left as they are. When the rule does apply,
/// what it leaves, unless it leaves all the invokers, are invokers it was
/// given that meet every condition of its `then_conds` side.
pub proof fn law_rule_routes_only_matching_consumers(
    r: RouterView,
    invokers: Seq<UrlView>,
    url: UrlView,
    method: Seq<char>,
)
    ensures
        forall|i: int|
            0 <= i < r.when.len() && matcher_result(
                #[trigger] r.when[i],
                sample_value(r.when[i].key, original_map(url), method),
            ) != Ok::<bool, ()>(true) ==> route_single(r, invokers, url, method) == invokers,
        route_single(r, invokers, url, method) == invokers || forall|k: int|
            0 <= k < route_single(r, invokers, url, method).len() ==> invokers.contains(
                #[trigger] route_single(r, invokers, url, method)[k],
            ) && forall|j: int|
                0 <= j < r.then_conds.len() ==> matcher_result(
                    #[trigger] r.then_conds[j],
                    sample_value(r.then_conds[j].key, original_map(route_single(r, invokers, url, method)[k]), method),
                ) == Ok::<bool, ()>(true),
{
    lemma_then_filter_members(r, invokers, method);
}

/// The invokers a rule leaves: all of them when it is disabled or the
/// consumer does not meet `when`; else those meeting `then_conds`, or all of them
/// when none does and the rule is not forced.
pub open spec fn route_single(r: RouterView, invokers: Seq<UrlView>, url: UrlView, method: Seq<
    char,
>) -> Seq<UrlView> {
    if !r.enabled {
        invokers
    } else if when_holds(r, url, method) {
        let result = then_filter(r, invokers, method);
        if result.len() == 0 && !r.force {
            invokers
        } else {
            result
        }
    } else {
        invokers
    }
}

pub open spec fn urls_view(v: Seq<Url>) -> Seq<UrlView> {
    v.map_values(|u: Url| u@)
}

/// A condition routing rule.
#[derive(Debug, Default)]
pub struct ConditionSingleRouter {
    pub name: String,
    pub when_condition: Vec<ConditionMatcher>,
    pub then_condition: Vec<ConditionMatcher>,
    pub enabled: bool,
    pub force: bool,
}

impl View for ConditionSingleRouter {
    type V = RouterView;

    open spec fn view(&self) -> RouterView {
        RouterView {
            name: self.name@,
            when: matchers_view(self.when_condition@),
            then_conds: matchers_view(self.then_condition@),
            enabled: self.enabled,
            force: self.force,
        }
    }
}

/// The position of the matcher for `key`.
fn find_matcher(conds: &Vec<ConditionMatcher>, key: &String) -> (r: Option<usize>)
    requires
        cond_keys_unique(matchers_view(conds@)),
    ensures
        match r {
            Some(i) => i < conds@.len() && cond_has(matchers_view(conds@), key@) && cond_pos(
                matchers_view(conds@),
                key@,
            ) == i,
            None => !cond_has(matchers_view(conds@), key@),
        },
{
    let ghost cs = matchers_view(conds@);
    let mut i: usize = 0;
    while i < conds.len()
        invariant
            cs == matchers_view(conds@),
            cond_keys_unique(cs),
            i <= conds@.len(),
            forall|j: int| 0 <= j < i ==> (#[trigger] cs[j]).key != key@,
        decreases conds@.len() - i,
    {
        assert(cs[i as int] == conds@[i as int]@);
        if *conds[i].key() == *key {
            proof {
                assert(cs[i as int].key == key@);
                let p = cond_pos(cs, key@);
                if p != i {
                    if p < i {
                        assert(cs[p].key != cs[i as int].key);
                    } else {
                        assert(cs[i as int].key != cs[p].key);
                    }
                }
            }
            return Some(i);
        }
        i = i + 1;
    }
    None
}

/// `conds` with `m` put in the place of the matcher of its key, or
/// appended.
fn put_matcher(conds: &mut Vec<ConditionMatcher>, m: ConditionMatcher)
    requires
        cond_keys_unique(matchers_view(old(conds)@)),
    ensures
        matchers_view(final(conds)@) == cond_put(matchers_view(old(conds)@), m@),
        cond_keys_unique(matchers_view(final(conds)@)),
{
    let ghost cs = matchers_view(conds@);
    let pos = find_matcher(conds, m.key());
    let ghost mv = m@;
    match pos {
        Some(i) => {
            conds.set(i, m);
            proof {
                assert(matchers_view(conds@) =~= cs.update(i as int, mv));
                let r = matchers_view(conds@);
                assert forall|a: int, b: int| 0 <= a < b < r.len() implies (#[trigger] r[a]).key
                    != (#[trigger] r[b]).key by {
                    if a != i && b != i {
                        assert(r[a] == cs[a] && r[b] == cs[b]);
                    } else if a == i {
                        assert(cs[a].key == mv.key);
                        assert(r[b] == cs[b]);
                    } else {
                        assert(cs[b].key == mv.key);
                        assert(r[a] == cs[a]);
                    }
                }
            }
        },
        None => {
            conds.push(m);
            proof {
                assert(matchers_view(conds@) =~= cs.push(mv));
                let r = matchers_view(conds@);
                assert forall|a: int, b: int| 0 <= a < b < r.len() implies (#[trigger] r[a]).key
                    != (#[trigger] r[b]).key by {
                    if b == cs.len() {
                        assert(r[a] == cs[a]);
                        if cs[a].key == mv.key {
                            assert(cond_has(cs, mv.key));
                        }
                    } else {
                        assert(r[a] == cs[a] && r[b] == cs[b]);
                    }
                }
            }
        },
    }
}

/// Once a prefix of the tokens fails to read, the whole list does.
proof fn lemma_parse_prefix_none(toks: Seq<(Seq<char>, Seq<char>)>, n: int)
    requires
        0 <= n <= toks.len(),
        parse_tokens(toks.take(n)) is None,
    ensures
        parse_tokens(toks) is None,
    decreases toks.len() - n,
{
    if n < toks.len() {
        assert(toks.take(n + 1).drop_last() =~= toks.take(n));
        lemma_parse_prefix_none(toks, n + 1);
    } else {
        assert(toks.take(n) =~= toks);
    }
}

/// Whether `current` is the position of the matcher of key `k`.
pub open spec fn current_ok(cs: Seq<MatcherView>, current: Option<usize>, k: Option<Seq<char>>) -> bool {
    match (current, k) {
        (Some(c), Some(k)) => c < cs.len() && cond_has(cs, k) && cond_pos(cs, k) == c,
        (None, None) => true,
        _ => false,
    }
}

/// Reads one token into the matchers (see `parse_step`); gives the new
/// position of the current matcher.
fn apply_token(
    conds: &mut Vec<ConditionMatcher>,
    current: Option<usize>,
    Ghost(key): Ghost<Option<Seq<char>>>,
    sep: &String,
    content: &String,
) -> (r: Result<Option<usize>, RuleError>)
    requires
        cond_keys_unique(matchers_view(old(conds)@)),
        current_ok(matchers_view(old(conds)@), current, key),
    ensures
        match r {
            Ok(c) => parse_step(ParseState { conds: matchers_view(old(conds)@), current: key }, (sep@, content@))
                matches Some(st) && st.conds == matchers_view(final(conds)@) && current_ok(
                st.conds,
                c,
                st.current,
            ) && cond_keys_unique(st.conds),
            Err(e) => e == RuleError::Syntax && parse_step(
                ParseState { conds: matchers_view(old(conds)@), current: key },
                (sep@, content@),
            ) is None,
        },
{
    proof {
        reveal_strlit("&");
        reveal_strlit("=");
        reveal_strlit("!=");
        reveal_strlit(",");
        assert("&"@ =~= seq!['&']);
        assert("="@ =~= seq!['=']);
        assert("!="@ =~= seq!['!', '=']);
        assert(","@ =~= seq![',']);
    }
    let ghost cs = matchers_view(conds@);
    if sep.as_str().unicode_len() == 0 {
        assert(sep@ =~= Seq::<char>::empty());
        let m = ConditionMatcher::new(content.clone());
        let ghost mv = m@;
        assert(mv == fresh_matcher(content@)) by {
            assert(mv.matches =~= Seq::<Seq<char>>::empty());
            assert(mv.mismatches =~= Seq::<Seq<char>>::empty());
        }
        put_matcher(conds, m);
        proof {
            lemma_cond_put_has(cs, mv);
        }
        return Ok(find_matcher(conds, content));
    }
    if *sep == String::from_str("&") {
        match find_matcher(conds, content) {
            Some(c) => {
                return Ok(Some(c));
            },
            None => {
                let m = ConditionMatcher::new(content.clone());
                let ghost mv = m@;
                assert(mv == fresh_matcher(content@)) by {
                    assert(mv.matches =~= Seq::<Seq<char>>::empty());
                    assert(mv.mismatches =~= Seq::<Seq<char>>::empty());
                }
                put_matcher(conds, m);
                proof {
                    lemma_cond_put_has(cs, mv);
                }
                return Ok(find_matcher(conds, content));
            },
        }
    }
    let is_eq = *sep == String::from_str("=");
    let is_ne = *sep == String::from_str("!=");
    let is_comma = *sep == String::from_str(",");
    if !(is_eq || is_ne || is_comma) {
        return Err(RuleError::Syntax);
    }
    let c = match current {
        None => {
            return Err(RuleError::Syntax);
        },
        Some(c) => c,
    };
    let mut m = conds[c].copy();
    assert(m@ == cs[c as int]);
    if is_eq {
        m.add_match(content.clone());
    } else if is_ne {
        m.add_mismatch(content.clone());
    } else {
        if m.get_matches().len() == 0 && m.get_mismatches().len() == 0 {
            return Err(RuleError::Syntax);
        }
        m.add_match(content.clone());
    }
    let ghost mv = m@;
    put_matcher(conds, m);
    proof {
        let k = key->0;
        let r = matchers_view(conds@);
        assert(r =~= cs.update(c as int, mv));
        assert(r[c as int].key == k);
        let p = cond_pos(r, k);
        if p != c {
            if p < c {
                assert(r[p].key != r[c as int].key);
            } else {
                assert(r[c as int].key != r[p].key);
            }
        }
    }
    Ok(Some(c))
}

/// Reads (separator, content) tokens into matchers; `Err` at the first
/// token that does not fit (see `parse_step`).
pub fn parse_rule_tokens(tokens: &Vec<(String, String)>) -> (r: Result<
    Vec<ConditionMatcher>,
    RuleError,
>)
    ensures
        match r {
            Ok(conds) => parse_tokens(tokens@.map_values(|t: (String, String)| (t.0@, t.1@)))
                matches Some(st) && st.conds == matchers_view(conds@),
            Err(e) => e == RuleError::Syntax && parse_tokens(
                tokens@.map_values(|t: (String, String)| (t.0@, t.1@)),
            ) is None,
        },
{
    let ghost toks = tokens@.map_values(|t: (String, String)| (t.0@, t.1@));
    let mut conds: Vec<ConditionMatcher> = Vec::new();
    let mut current: Option<usize> = None;
    let mut i: usize = 0;
    assert(toks.take(0) =~= Seq::<(Seq<char>, Seq<char>)>::empty());
    assert(matchers_view(conds@) =~= Seq::<MatcherView>::empty());
    while i < tokens.len()
        invariant
            toks == tokens@.map_values(|t: (String, String)| (t.0@, t.1@)),
            i <= tokens@.len(),
            cond_keys_unique(matchers_view(conds@)),
            parse_tokens(toks.take(i as int)) matches Some(st) && st.conds == matchers_view(
                conds@,
            ) && current_ok(st.conds, current, st.current),
        decreases tokens@.len() - i,
    {
        let ghost st = parse_tokens(toks.take(i as int))->0;
        proof {
            let t = toks.take(i + 1);
            assert(t.drop_last() =~= toks.take(i as int));
            assert(t.last() == toks[i as int]);
        }
        let ghost tok = toks[i as int];
        assert(tok.0 == tokens@[i as int].0@ && tok.1 == tokens@[i as int].1@);
        match apply_token(&mut conds, current, Ghost(st.current), &tokens[i].0, &tokens[i].1) {
            Ok(c) => {
                current = c;
            },
            Err(e) => {
                proof {
                    lemma_parse_prefix_none(toks, i + 1);
                }
                return Err(e);
            },
        }
        i = i + 1;
    }
    assert(toks.take(tokens@.len() as int) =~= toks);
    Ok(conds)
}

/// Reads one trimmed, non-empty rule side into matchers.
fn parse_rule(rule: &str) -> (r: Result<Vec<ConditionMatcher>, RuleError>)
    ensures
        match r {
            Ok(conds) => side_conditions(rule@) == Some(matchers_view(conds@)),
            Err(e) => e == RuleError::Syntax && side_conditions(rule@) is None,
        },
{
    proof {
        reveal_strlit("([&!=,]*)\\s*([^&!=,\\s]+)");
        assert("([&!=,]*)\\s*([^&!=,\\s]+)"@ =~= token_regex());
    }
    match capture_pairs("([&!=,]*)\\s*([^&!=,\\s]+)", rule) {
        None => Err(RuleError::Syntax),
        Some(tokens) => parse_rule_tokens(&tokens),
    }
}

/// The first position of `=>` in `v`.
fn find_arrow(v: &Vec<char>) -> (r: Option<usize>)
    ensures
        match r {
            Some(i) => first_arrow(v@) == Some(i as int) && arrow_at(v@, i as int),
            None => first_arrow(v@) is None,
        },
{
    let n = v.len();
    let mut i: usize = 0;
    while n > 0 && i < n - 1
        invariant
            n == v@.len(),
            forall|j: int| 0 <= j < i ==> !arrow_at(v@, j),
        decreases n - i,
    {
        if v[i] == '=' && v[i + 1] == '>' {
            proof {
                assert(arrow_at(v@, i as int));
                let c = choose|k: int| arrow_at(v@, k) && forall|j: int| 0 <= j < k ==> !arrow_at(v@, j);
                if c != i {
                    if c < i {
                    } else {
                        assert(!arrow_at(v@, i as int));
                    }
                }
            }
            return Some(i);
        }
        i = i + 1;
    }
    proof {
        assert forall|j: int| !arrow_at(v@, j) by {
            if arrow_at(v@, j) {
                assert(j < i);
            }
        }
    }
    None
}

/// Whether `s` is `word`.
fn is_word(s: &String, word: &str) -> (b: bool)
    ensures
        b == (s@ == word@),
{
    *s == String::from_str(word)
}

/// The trimmed sides of a rule around its first `=>`, after dropping its
/// `consumer.` and `provider.` prefixes.
#[verifier::rlimit(50)]
fn rule_sides(rule: &str) -> (r: Result<(String, String), RuleError>)
    ensures
        match r {
            Ok((w, t)) => first_arrow(stripped_rule(rule@)) matches Some(i) && w@ == trim(
                stripped_rule(rule@).subrange(0, i),
            ) && t@ == trim(stripped_rule(rule@).subrange(i + 2, stripped_rule(rule@).len() as int)),
            Err(e) => e == RuleError::NoArrow && first_arrow(stripped_rule(rule@)) is None,
        },
{
    proof {
        reveal_strlit("consumer.");
        reveal_strlit("provider.");
        reveal_strlit("");
        assert("consumer."@ =~= consumer_prefix());
        assert("provider."@ =~= provider_prefix());
        assert(""@ =~= Seq::<char>::empty());
    }
    let r1 = replace_str(rule, "consumer.", "");
    let r = replace_str(r1.as_str(), "provider.", "");
    let v = chars_of(r.as_str());
    let i = match find_arrow(&v) {
        None => {
            return Err(RuleError::NoArrow);
        },
        Some(i) => i,
    };
    let when_text = substring(r.as_str(), 0, i);
    let then_text = substring(r.as_str(), i + 2, v.len());
    Ok((trim_str(when_text.as_str()), trim_str(then_text.as_str())))
}

/// The matchers of a trimmed rule side: none when it is empty or `word`.
fn side_matchers(side: &String, word: &str) -> (r: Result<Vec<ConditionMatcher>, RuleError>)
    ensures
        match r {
            Ok(conds) => (if side@.len() == 0 || side@ == word@ {
                Some(Seq::<MatcherView>::empty())
            } else {
                side_conditions(side@)
            }) == Some(matchers_view(conds@)),
            Err(e) => e == RuleError::Syntax && !(side@.len() == 0 || side@ == word@) && side_conditions(side@) is None,
        },
{
    if side.as_str().unicode_len() == 0 || is_word(side, word) {
        let e: Vec<ConditionMatcher> = Vec::new();
        assert(matchers_view(e@) =~= Seq::<MatcherView>::empty());
        Ok(e)
    } else {
        parse_rule(side.as_str())
    }
}

impl ConditionSingleRouter {
    /// A rule read from `rule`. A disabled rule has no conditions. The rule
    /// text of an enabled rule must be readable (see `rule_conditions`).
    pub fn new(rule: String, force: bool, enabled: bool) -> (r: ConditionSingleRouter)
        requires
            enabled ==> rule_conditions(rule@) is Ok,
        ensures
            r@.name == seq!['c', 'o', 'n', 'd', 'i', 't', 'i', 'o', 'n'],
            r@.enabled == enabled,
            r@.force == force,
            enabled ==> rule_conditions(rule@) == Ok::<_, RuleError>((r@.when, r@.then_conds)),
            !enabled ==> r@.when.len() == 0 && r@.then_conds.len() == 0,
    {
        proof {
            reveal_strlit("condition");
        }
        let mut router = ConditionSingleRouter {
            name: String::from_str("condition"),
            when_condition: Vec::new(),
            then_condition: Vec::new(),
            enabled,
            force,
        };
        assert(router@.when =~= Seq::<MatcherView>::empty());
        assert(router@.then_conds =~= Seq::<MatcherView>::empty());
        if enabled {
            let res = router.init(rule);
            match res {
                Ok(()) => {},
                Err(_) => {
                    assert(false);
                },
            }
        }
        router
    }

    /// A disabled rule with no conditions.
    pub fn default_rule() -> (r: ConditionSingleRouter)
        ensures
            r@.name.len() == 0,
            r@.when.len() == 0,
            r@.then_conds.len() == 0,
            !r@.enabled,
            !r@.force,
    {
        let r = ConditionSingleRouter {
            name: String::new(),
            when_condition: Vec::new(),
            then_condition: Vec::new(),
            enabled: false,
            force: false,
        };
        assert(r@.when =~= Seq::<MatcherView>::empty());
        assert(r@.then_conds =~= Seq::<MatcherView>::empty());
        r
    }

    /// A rule read from `rule` as `new` reads it, or the reason it cannot
    /// be read where it is enabled and unreadable.
    pub fn try_new(rule: String, force: bool, enabled: bool) -> (r: Result<
        ConditionSingleRouter,
        RuleError,
    >)
        ensures
            match r {
                Ok(router) => router@.enabled == enabled && router@.force == force && (enabled
                    ==> rule_conditions(rule@) == Ok::<_, RuleError>((router@.when, router@.then_conds)))
                    && (!enabled ==> router@.when.len() == 0 && router@.then_conds.len() == 0),
                Err(e) => enabled && rule_conditions(rule@) == Err::<
                    (Seq<MatcherView>, Seq<MatcherView>),
                    RuleError,
                >(e),
            },
    {
        if enabled {
            let mut probe = ConditionSingleRouter::default_rule();
            probe.init(rule.clone())?;
        }
        Ok(ConditionSingleRouter::new(rule, force, enabled))
    }

    /// Reads `rule` into the `when` and `then_conds` matchers (see
    /// `rule_conditions`); on an error the rule is left unchanged.
    #[verifier::rlimit(50)]
    pub fn init(&mut self, rule: String) -> (r: Result<(), RuleError>)
        ensures
            match r {
                Ok(()) => rule_conditions(rule@) == Ok::<_, RuleError>((final(self)@.when, final(self)@.then_conds))
                    && final(self)@ == (RouterView {
                    when: final(self)@.when,
                    then_conds: final(self)@.then_conds,
                    ..old(self)@
                }),
                Err(e) => rule_conditions(rule@) == Err::<
                    (Seq<MatcherView>, Seq<MatcherView>),
                    RuleError,
                >(e) && final(self)@ == old(self)@,
            },
    {
        proof {
            reveal_strlit("true");
            reveal_strlit("false");
            assert("true"@ =~= word_true());
            assert("false"@ =~= word_false());
        }
        reveal(rule_conditions);
        let trimmed = trim_str(rule.as_str());
        if trimmed.as_str().unicode_len() == 0 {
            return Err(RuleError::Blank);
        }
        let (when_rule, then_rule) = rule_sides(rule.as_str())?;
        let when = side_matchers(&when_rule, "true")?;
        let then_conds = side_matchers(&then_rule, "false")?;
        self.when_condition = when;
        self.then_condition = then_conds;
        Ok(())
    }

    /// A matcher for `key` with no patterns.
    pub fn get_matcher(&self, key: String) -> (m: ConditionMatcher)
        ensures
            m@ == fresh_matcher(key@),
    {
        let m = ConditionMatcher::new(key);
        assert(m@.matches =~= Seq::<Seq<char>>::empty());
        assert(m@.mismatches =~= Seq::<Seq<char>>::empty());
        m
    }

    /// Whether every matcher of `conditions` accepts the routing value of
    /// `url` (or the invocation's method) for its key.
    pub fn do_match(&self, url: &Url, conditions: &Vec<ConditionMatcher>, invocation: &RpcInvocation) -> (r:
        bool)
        ensures
            r == conditions_hold(matchers_view(conditions@), original_map(url@), invocation.method_view()),
    {
        let sample = to_original_map(url);
        let ghost cs = matchers_view(conditions@);
        let mut i: usize = 0;
        while i < conditions.len()
            invariant
                cs == matchers_view(conditions@),
                sample@ == original_map(url@),
                i <= conditions@.len(),
                forall|j: int|
                    0 <= j < i ==> matcher_result(
                        #[trigger] cs[j],
                        sample_value(cs[j].key, sample@, invocation.method_view()),
                    ) == Ok::<bool, ()>(true),
            decreases conditions@.len() - i,
        {
            let matcher = &conditions[i];
            assert(cs[i as int] == matcher@);
            let value = get_value(matcher.key(), &sample, invocation);
            match matcher.is_match(value) {
                Ok(true) => {},
                _ => {
                    return false;
                },
            }
            i = i + 1;
        }
        true
    }

    /// Whether the consumer `url` meets the `when` side (an empty side is
    /// met by every consumer).
    pub fn match_when(&self, url: &Url, invocation: &RpcInvocation) -> (r: bool)
        ensures
            r == when_holds(self@, url@, invocation.method_view()),
    {
        if self.when_condition.len() == 0 {
            return true;
        }
        self.do_match(url, &self.when_condition, invocation)
    }

    /// Whether the provider `url` meets the `then_conds` side (an empty side is
    /// met by no provider).
    pub fn match_then(&self, url: &Url, invocation: &RpcInvocation) -> (r: bool)
        ensures
            r == then_holds(self@, url@, invocation.method_view()),
    {
        if self.then_condition.len() == 0 {
            return false;
        }
        self.do_match(url, &self.then_condition, invocation)
    }

    /// The invokers this rule leaves for a call from `url` (see
    /// `route_single`).
    pub fn route(&self, invokers: Vec<Url>, url: &Url, invocation: &RpcInvocation) -> (r: Vec<Url>)
        ensures
            urls_view(r@) == route_single(self@, urls_view(invokers@), url@, invocation.method_view()),
    {
        if !self.enabled {
            return invokers;
        }
        if self.match_when(url, invocation) {
            let ghost iv = urls_view(invokers@);
            let mut result: Vec<Url> = Vec::new();
            let mut i: usize = 0;
            assert(iv.take(0) =~= Seq::<UrlView>::empty());
            assert(urls_view(result@) =~= Seq::<UrlView>::empty());
            while i < invokers.len()
                invariant
                    iv == urls_view(invokers@),
                    i <= invokers@.len(),
                    urls_view(result@) == then_filter(self@, iv.take(i as int), invocation.method_view()),
                decreases invokers@.len() - i,
            {
                proof {
                    let t = iv.take(i + 1);
                    assert(t.drop_last() =~= iv.take(i as int));
                    assert(t.last() == invokers@[i as int]@);
                }
                if self.match_then(&invokers[i], invocation) {
                    let u = invokers[i].copy();
                    result.push(u);
                    assert(urls_view(result@) =~= then_filter(self@, iv.take(i as int), invocation.method_view()).push(invokers@[i as int]@));
                }
                i = i + 1;
            }
            assert(iv.take(invokers@.len() as int) =~= iv);
            if result.len() == 0 && !self.force {
                invokers
            } else {
                result
            }
        } else {
            invokers
        }
    }

    /// A copy of the rule.
    pub fn copy(&self) -> (r: ConditionSingleRouter)
        ensures
            r@ == self@,
    {
        ConditionSingleRouter {
            name: self.name.clone(),
            when_condition: copy_matchers(&self.when_condition),
            then_condition: copy_matchers(&self.then_condition),
            enabled: self.enabled,
            force: self.force,
        }
    }
}

/// A copy of each matcher.
pub fn copy_matchers(v: &Vec<ConditionMatcher>) -> (r: Vec<ConditionMatcher>)
    ensures
        matchers_view(r@) == matchers_view(v@),
{
    let mut r: Vec<ConditionMatcher> = Vec::new();
    let mut i: usize = 0;
    while i < v.len()
        invariant
            i <= v@.len(),
            matchers_view(r@) == matchers_view(v@).take(i as int),
        decreases v@.len() - i,
    {
        let c = v[i].copy();
        let ghost prev = r@;
        r.push(c);
        assert(matchers_view(r@) =~= matchers_view(prev).push(v@[i as int]@));
        assert(matchers_view(v@).take(i + 1) =~= matchers_view(v@).take(i as int).push(v@[i as int]@));
        i = i + 1;
    }
    assert(matchers_view(v@).take(v@.len() as int) =~= matchers_view(v@));
    r
}

/// The value a condition on `key` reads: the invocation's method for
/// `method`, else the routing value of that name.
pub fn get_value(key: &String, sample: &ParamMap, invocation: &RpcInvocation) -> (r: Option<String>)
    ensures
        match r {
            Some(v) => sample_value(key@, sample@, invocation.method_view()) == Some(v@),
            None => sample_value(key@, sample@, invocation.method_view()) is None,
        },
{
    proof {
        reveal_strlit("method");
        assert("method"@ =~= key_method());
    }
    if *key == String::from_str("method") {
        return Some(crate::invocation::Invocation::get_method_name(invocation));
    }
    sample.get(key.as_str())
}

} // verus!
