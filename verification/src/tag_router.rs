//! Tag routing: invokers and consumers are tagged by the first-matching tag
//! rules of their routing values, and a call goes to invokers of its tag.
use crate::invocation::RpcInvocation;
use crate::keyed::{first_pos, lemma_first_pos, lemma_first_pos_at, lemma_first_pos_none, put_named};
use crate::params::{insert_all, lookup, Entries, ParamMap};
use crate::sample::{original_map, to_original_map};
use crate::single_router::urls_view;
use crate::url::{Url, UrlView};
use vstd::prelude::*;

verus! {

/// One `key: value` condition of a tag.
#[derive(Debug, Default)]
pub struct TagMatch {
    pub key: String,
    pub value: String,
}

/// A tag and the conditions under which a URL carries it.
#[derive(Debug, Default)]
pub struct TagConfig {
    pub name: String,
    pub matches: Vec<TagMatch>,
}

/// A tag routing configuration.
#[derive(Debug, Default)]
pub struct TagRouterConfig {
    pub config_version: String,
    pub force: bool,
    pub enabled: bool,
    pub key: String,
    pub tags: Vec<TagConfig>,
}

pub open spec fn tag_match_pairs(ms: Seq<TagMatch>) -> Entries {
    ms.map_values(|m: TagMatch| (m.key@, m.value@))
}

/// The conditions of one tag, read in order into a table.
pub open spec fn tag_table(t: TagConfig) -> Entries {
    insert_all(Seq::<(Seq<char>, Seq<char>)>::empty(), tag_match_pairs(t.matches@))
}

/// The tag tables of a configuration: each tag's table stored under its
/// name, a later tag of the same name replacing the earlier table in place.
pub open spec fn tag_tables(tags: Seq<TagConfig>) -> Seq<(Seq<char>, Entries)>
    decreases tags.len(),
{
    if tags.len() == 0 {
        Seq::<(Seq<char>, Entries)>::empty()
    } else {
        put_named(tag_tables(tags.drop_last()), tags.last().name@, tag_table(tags.last()))
    }
}

/// Some condition of the table holds of the routing values.
pub open spec fn table_matches(table: Entries, params: Entries) -> bool {
    exists|i: int| 0 <= i < table.len() && lookup(params, (#[trigger] table[i]).0) == Some(table[i].1)
}

/// The tag of a URL: the last tag, in table order, one of whose conditions
/// holds of its routing values.
pub open spec fn tag_of(tables: Seq<(Seq<char>, Entries)>, params: Entries) -> Option<Seq<char>>
    decreases tables.len(),
{
    if tables.len() == 0 {
        None
    } else if table_matches(tables.last().1, params) {
        Some(tables.last().0)
    } else {
        tag_of(tables.drop_last(), params)
    }
}

/// The invokers whose tag is `tag`, in order.
pub open spec fn with_tag(tables: Seq<(Seq<char>, Entries)>, invokers: Seq<UrlView>, tag: Option<Seq<char>>) -> Seq<UrlView>
    decreases invokers.len(),
{
    if invokers.len() == 0 {
        Seq::<UrlView>::empty()
    } else {
        let rest = with_tag(tables, invokers.drop_last(), tag);
        if tag_of(tables, original_map(invokers.last())) == tag {
            rest.push(invokers.last())
        } else {
            rest
        }
    }
}

/// The abstract value of a [`TagRouterInner`].
pub ghost struct TagRouterView {
    pub tag_rules: Seq<(Seq<char>, Entries)>,
    pub force: bool,
    pub enabled: bool,
}

/// The invokers tag routing leaves for a call from `url`: all of them when
/// disabled; else those carrying the consumer's tag; when there are none
/// and routing is not forced, those carrying no tag.
pub open spec fn route_by_tag(r: TagRouterView, invokers: Seq<UrlView>, url: UrlView) -> Seq<UrlView> {
    if !r.enabled {
        invokers
    } else {
        let tag = tag_of(r.tag_rules, original_map(url));
        let result = with_tag(r.tag_rules, invokers, tag);
        if result.len() == 0 && !r.force {
            with_tag(r.tag_rules, invokers, None)
        } else {
            result
        }
    }
}

/// A disabled tag router leaves the invokers as they are, whatever its
/// rules and whoever calls.
pub proof fn law_disabled_tag_router_passes_through(r: TagRouterView, invokers: Seq<UrlView>, url: UrlView)
    requires
        !r.enabled,
    ensures
        route_by_tag(r, invokers, url) == invokers,
{
}

proof fn lemma_with_tag_members(tables: Seq<(Seq<char>, Entries)>, invokers: Seq<UrlView>, tag: Option<Seq<char>>)
    ensures
        forall|k: int| 0 <= k < with_tag(tables, invokers, tag).len() ==> invokers.contains(
            #[trigger] with_tag(tables, invokers, tag)[k],
        ) && tag_of(tables, original_map(with_tag(tables, invokers, tag)[k])) == tag,
        forall|j: int| 0 <= j < invokers.len() && tag_of(tables, original_map(#[trigger] invokers[j])) == tag
            ==> with_tag(tables, invokers, tag).contains(invokers[j]),
    decreases invokers.len(),
{
    if invokers.len() > 0 {
        let front = invokers.drop_last();
        lemma_with_tag_members(tables, front, tag);
        let rest = with_tag(tables, front, tag);
        let w = with_tag(tables, invokers, tag);
        assert forall|k: int| 0 <= k < w.len() implies invokers.contains(#[trigger] w[k]) && tag_of(
            tables,
            original_map(w[k]),
        ) == tag by {
            if k < rest.len() {
                assert(w[k] == rest[k]);
                let m = choose|m: int| 0 <= m < front.len() && front[m] == rest[k];
                assert(invokers[m] == front[m]);
            } else {
                assert(w[k] == invokers.last());
                assert(invokers[invokers.len() - 1] == invokers.last());
            }
        }
        assert forall|j: int| 0 <= j < invokers.len() && tag_of(tables, original_map(#[trigger] invokers[j])) == tag
            implies w.contains(invokers[j]) by {
            if j < front.len() {
                assert(front[j] == invokers[j]);
                let m = choose|m: int| 0 <= m < rest.len() && rest[m] == front[j];
                assert(w[m] == rest[m]);
            } else {
                assert(w[w.len() - 1] == invokers.last());
            }
        }
    }
}

/// An enabled tag router leaves only invokers it was given: those carrying
/// the caller's tag; or, when none does and routing is not forced, those
/// carrying no tag. Every invoker carrying the caller's tag is left.
pub proof fn law_tag_routing_keeps_the_callers_tag(r: TagRouterView, invokers: Seq<UrlView>, url: UrlView)
    requires
        r.enabled,
    ensures
        ({
            let tag = tag_of(r.tag_rules, original_map(url));
            let out = route_by_tag(r, invokers, url);
            &&& forall|k: int| 0 <= k < out.len() ==> invokers.contains(#[trigger] out[k]) && (tag_of(
                r.tag_rules,
                original_map(out[k]),
            ) == tag || (!r.force && tag_of(r.tag_rules, original_map(out[k])) is None))
            &&& forall|j: int| 0 <= j < invokers.len() && tag_of(r.tag_rules, original_map(#[trigger] invokers[j]))
                == tag ==> out.contains(invokers[j])
        }),
{
    let tag = tag_of(r.tag_rules, original_map(url));
    lemma_with_tag_members(r.tag_rules, invokers, tag);
    lemma_with_tag_members(r.tag_rules, invokers, None);
    let result = with_tag(r.tag_rules, invokers, tag);
    assert forall|j: int| 0 <= j < invokers.len() && tag_of(r.tag_rules, original_map(#[trigger] invokers[j]))
        == tag implies result.len() > 0 by {
        assert(result.contains(invokers[j]));
    }
}

pub open spec fn tables_view(v: Seq<(String, ParamMap)>) -> Seq<(Seq<char>, Entries)> {
    v.map_values(|e: (String, ParamMap)| (e.0@, e.1@))
}

/// The tag rules and their switches.
#[derive(Debug, Default)]
pub struct TagRouterInner {
    pub tag_rules: Vec<(String, ParamMap)>,
    pub force: bool,
    pub enabled: bool,
}

impl View for TagRouterInner {
    type V = TagRouterView;

    open spec fn view(&self) -> TagRouterView {
        TagRouterView { tag_rules: tables_view(self.tag_rules@), force: self.force, enabled: self.enabled }
    }
}

/// The conditions of one tag, read into a table.
fn read_tag_table(t: &TagConfig) -> (m: ParamMap)
    ensures
        m@ == tag_table(*t),
{
    let ghost pairs = tag_match_pairs(t.matches@);
    let mut m = ParamMap::new();
    let mut i: usize = 0;
    assert(pairs.take(0) =~= Seq::<(Seq<char>, Seq<char>)>::empty());
    while i < t.matches.len()
        invariant
            pairs == tag_match_pairs(t.matches@),
            i <= t.matches@.len(),
            m@ == insert_all(Seq::<(Seq<char>, Seq<char>)>::empty(), pairs.take(i as int)),
        decreases t.matches@.len() - i,
    {
        m.insert(t.matches[i].key.clone(), t.matches[i].value.clone());
        proof {
            let tk = pairs.take(i + 1);
            assert(tk.drop_last() =~= pairs.take(i as int));
            assert(tk.last() == pairs[i as int]);
        }
        i = i + 1;
    }
    assert(pairs.take(t.matches@.len() as int) =~= pairs);
    m
}

impl TagRouterInner {
    /// Replaces the rules and switches with those of `config`.
    pub fn parse_config(&mut self, config: TagRouterConfig)
        ensures
            final(self)@ == (TagRouterView {
                tag_rules: tag_tables(config.tags@),
                force: config.force,
                enabled: config.enabled,
            }),
    {
        let mut rules: Vec<(String, ParamMap)> = Vec::new();
        let mut i: usize = 0;
        assert(config.tags@.take(0) =~= Seq::<TagConfig>::empty());
        assert(tables_view(rules@) =~= Seq::<(Seq<char>, Entries)>::empty());
        while i < config.tags.len()
            invariant
                i <= config.tags@.len(),
                tables_view(rules@) == tag_tables(config.tags@.take(i as int)),
            decreases config.tags@.len() - i,
        {
            let tag = &config.tags[i];
            let table = read_tag_table(tag);
            let ghost before = tables_view(rules@);
            let ghost tv = table@;
            let mut pos: usize = 0;
            while pos < rules.len() && rules[pos].0 != tag.name
                invariant
                    before == tables_view(rules@),
                    pos <= rules@.len(),
                    forall|j: int| 0 <= j < pos ==> (#[trigger] before[j]).0 != tag.name@,
                decreases rules@.len() - pos,
            {
                assert(before[pos as int].0 == rules@[pos as int].0@);
                pos = pos + 1;
            }
            if pos < rules.len() {
                proof {
                    assert(before[pos as int].0 == rules@[pos as int].0@);
                    lemma_first_pos_at(before, tag.name@, pos as int);
                }
                rules.set(pos, (tag.name.clone(), table));
                assert(tables_view(rules@) =~= before.update(pos as int, (tag.name@, tv)));
            } else {
                proof {
                    lemma_first_pos_none(before, tag.name@);
                }
                rules.push((tag.name.clone(), table));
                assert(tables_view(rules@) =~= before.push((tag.name@, tv)));
            }
            proof {
                let tk = config.tags@.take(i + 1);
                assert(tk.drop_last() =~= config.tags@.take(i as int));
                assert(tk.last() == config.tags@[i as int]);
            }
            i = i + 1;
        }
        assert(config.tags@.take(config.tags@.len() as int) =~= config.tags@);
        self.tag_rules = rules;
        self.force = config.force;
        self.enabled = config.enabled;
    }

    /// The tag of the routing values `params` (see `tag_of`).
    pub fn match_tag(&self, params: &ParamMap) -> (r: Option<String>)
        ensures
            match r {
                Some(t) => tag_of(self@.tag_rules, params@) == Some(t@),
                None => tag_of(self@.tag_rules, params@) is None,
            },
    {
        let ghost ts = self@.tag_rules;
        let mut result: Option<String> = None;
        let mut i: usize = 0;
        assert(ts.take(0) =~= Seq::<(Seq<char>, Entries)>::empty());
        while i < self.tag_rules.len()
            invariant
                ts == self@.tag_rules,
                i <= self.tag_rules@.len(),
                match result {
                    Some(t) => tag_of(ts.take(i as int), params@) == Some(t@),
                    None => tag_of(ts.take(i as int), params@) is None,
                },
            decreases self.tag_rules@.len() - i,
        {
            let table = &self.tag_rules[i].1;
            let mut hit = false;
            let mut k: usize = 0;
            while k < table.len()
                invariant
                    i < self.tag_rules@.len(),
                    table@ == ts[i as int].1,
                    k <= table@.len(),
                    hit == exists|j: int| 0 <= j < k && lookup(params@, (#[trigger] table@[j]).0) == Some(table@[j].1),
                decreases table@.len() - k,
            {
                let got = params.get(table.key_at(k).as_str());
                match got {
                    Some(v) => {
                        if v == *table.value_at(k) {
                            hit = true;
                        }
                    },
                    None => {},
                }
                k = k + 1;
            }
            proof {
                let tk = ts.take(i + 1);
                assert(tk.drop_last() =~= ts.take(i as int));
                assert(tk.last() == ts[i as int]);
            }
            if hit {
                result = Some(self.tag_rules[i].0.clone());
            }
            i = i + 1;
        }
        assert(ts.take(self.tag_rules@.len() as int) =~= ts);
        result
    }

    /// The invokers whose tag is `tag`.
    fn with_tag(&self, invokers: &Vec<Url>, tag: &Option<String>) -> (r: Vec<Url>)
        ensures
            urls_view(r@) == with_tag(self@.tag_rules, urls_view(invokers@), opt_view(*tag)),
    {
        let ghost iv = urls_view(invokers@);
        let mut out: Vec<Url> = Vec::new();
        let mut i: usize = 0;
        assert(iv.take(0) =~= Seq::<UrlView>::empty());
        assert(urls_view(out@) =~= Seq::<UrlView>::empty());
        while i < invokers.len()
            invariant
                iv == urls_view(invokers@),
                i <= invokers@.len(),
                urls_view(out@) == with_tag(self@.tag_rules, iv.take(i as int), opt_view(*tag)),
            decreases invokers@.len() - i,
        {
            let params = to_original_map(&invokers[i]);
            let t = self.match_tag(&params);
            proof {
                let tk = iv.take(i + 1);
                assert(tk.drop_last() =~= iv.take(i as int));
                assert(tk.last() == invokers@[i as int]@);
            }
            if same_tag(&t, tag) {
                let u = invokers[i].copy();
                let ghost prev = out@;
                out.push(u);
                assert(urls_view(out@) =~= urls_view(prev).push(invokers@[i as int]@));
            }
            i = i + 1;
        }
        assert(iv.take(invokers@.len() as int) =~= iv);
        out
    }

    /// The invokers left for a call from `url` (see `route_by_tag`).
    pub fn route(&self, invokers: Vec<Url>, url: &Url, _invocation: &RpcInvocation) -> (r: Vec<Url>)
        ensures
            urls_view(r@) == route_by_tag(self@, urls_view(invokers@), url@),
            !self.enabled ==> r@ == invokers@,
    {
        if !self.enabled {
            return invokers;
        }
        let self_param = to_original_map(url);
        let invocation_tag = self.match_tag(&self_param);
        let result = self.with_tag(&invokers, &invocation_tag);
        if result.len() == 0 && !self.force {
            return self.with_tag(&invokers, &None);
        }
        result
    }

    /// A copy of the rules and switches.
    pub fn copy(&self) -> (r: TagRouterInner)
        ensures
            r@ == self@,
    {
        let mut rules: Vec<(String, ParamMap)> = Vec::new();
        let mut i: usize = 0;
        while i < self.tag_rules.len()
            invariant
                i <= self.tag_rules@.len(),
                tables_view(rules@) == tables_view(self.tag_rules@).take(i as int),
            decreases self.tag_rules@.len() - i,
        {
            let e = (self.tag_rules[i].0.clone(), self.tag_rules[i].1.copy());
            let ghost prev = rules@;
            rules.push(e);
            assert(tables_view(rules@) =~= tables_view(prev).push(tables_view(self.tag_rules@)[i as int]));
            assert(tables_view(self.tag_rules@).take(i + 1) =~= tables_view(self.tag_rules@).take(i as int).push(tables_view(self.tag_rules@)[i as int]));
            i = i + 1;
        }
        assert(tables_view(self.tag_rules@).take(self.tag_rules@.len() as int) =~= tables_view(self.tag_rules@));
        TagRouterInner { tag_rules: rules, force: self.force, enabled: self.enabled }
    }
}

pub open spec fn opt_view(o: Option<String>) -> Option<Seq<char>> {
    match o {
        Some(s) => Some(s@),
        None => None,
    }
}

/// Whether two optional tags are the same.
fn same_tag(a: &Option<String>, b: &Option<String>) -> (r: bool)
    ensures
        r == (opt_view(*a) == opt_view(*b)),
{
    match (a, b) {
        (Some(x), Some(y)) => *x == *y,
        (None, None) => true,
        _ => false,
    }
}

/// Tag routing over shared rules.
#[derive(Debug, Default)]
pub struct TagRouter {
    pub inner: TagRouterInner,
}

impl TagRouter {
    /// The invokers left for a call from `url` (see `route_by_tag`).
    pub fn route(&self, invokers: Vec<Url>, url: &Url, invocation: &RpcInvocation) -> (r: Vec<Url>)
        ensures
            urls_view(r@) == route_by_tag(self.inner@, urls_view(invokers@), url@),
    {
        self.inner.route(invokers, url, invocation)
    }
}

/// The tag rules of the application.
#[derive(Debug, Default)]
pub struct TagRouterManager {
    pub tag_router: TagRouterInner,
}

impl TagRouterManager {
    /// The tag router over the current rules; the same for every service.
    pub fn get_router(&self, _service_name: &String) -> (r: Option<TagRouter>)
        ensures
            r matches Some(t) && t.inner@ == self.tag_router@,
    {
        Some(TagRouter { inner: self.tag_router.copy() })
    }

    /// Replaces the rules with those of `config`.
    pub fn update(&mut self, config: TagRouterConfig)
        ensures
            final(self).tag_router@ == (TagRouterView {
                tag_rules: tag_tables(config.tags@),
                force: config.force,
                enabled: config.enabled,
            }),
    {
        self.tag_router.parse_config(config);
    }
}

} // verus!
