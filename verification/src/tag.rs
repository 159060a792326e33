//! Routing by the tag that the call context carries: a call tagged `red`
//! goes to the invokers tagged `red`; with no such invoker, or no tag, it
//! falls back to the untagged invokers unless the context forces the tag.
use crate::context::RpcContext;
use crate::matcher::{i32_of_text, parse_i32};
use crate::params::lookup;
use crate::router_chain::within;
use crate::single_router::urls_view;
use crate::url::{url_of_text, Url, UrlView};
use vstd::prelude::*;
use vstd::string::*;

verus! {

/// The parameter and attachment that carry a tag.
pub const TAG_KEY: &'static str = "dubbo.tag";

/// The attachment that forces the tag: only `true` keeps a call from
/// falling back to untagged invokers.
pub const FORCE_USE_TAG: &'static str = "dubbo.force.tag";

/// The priority of a router whose URL sets none.
pub const DEFAULT_PRIORITY: i32 = 100;

/// The URL the router is made from.
pub const ROUTER_URL_STR: &'static str = "tag://0.0.0.0:0/?runtime=true";

/// The tag of an invoker: its `dubbo.tag` parameter.
pub open spec fn tag_param(u: UrlView) -> Option<Seq<char>> {
    lookup(u.params, TAG_KEY@)
}

/// Whether an invoker carries no tag (no parameter, or an empty one).
pub open spec fn untagged(u: UrlView) -> bool {
    match tag_param(u) {
        None => true,
        Some(t) => t.len() == 0,
    }
}

/// The invokers tagged `tag`, in order.
pub open spec fn tagged(invokers: Seq<UrlView>, tag: Seq<char>) -> Seq<UrlView>
    decreases invokers.len(),
{
    if invokers.len() == 0 {
        Seq::<UrlView>::empty()
    } else {
        let rest = tagged(invokers.drop_last(), tag);
        if tag_param(invokers.last()) == Some(tag) {
            rest.push(invokers.last())
        } else {
            rest
        }
    }
}

/// The invokers that carry no tag, in order.
pub open spec fn untagged_of(invokers: Seq<UrlView>) -> Seq<UrlView>
    decreases invokers.len(),
{
    if invokers.len() == 0 {
        Seq::<UrlView>::empty()
    } else {
        let rest = untagged_of(invokers.drop_last());
        if untagged(invokers.last()) {
            rest.push(invokers.last())
        } else {
            rest
        }
    }
}

/// Whether the force attachment lets a call fall back: it is absent or
/// `false`.
pub open spec fn may_fall_back(force: Option<Seq<char>>) -> bool {
    match force {
        None => true,
        Some(f) => f == "false"@,
    }
}

/// The invokers left for a call whose context carries `tag` and `force`:
/// those tagged with a non-empty `tag`; when there are none, the untagged
/// ones unless the tag is forced.
pub open spec fn route_by_context(
    invokers: Seq<UrlView>,
    tag: Option<Seq<char>>,
    force: Option<Seq<char>>,
) -> Seq<UrlView> {
    let res = match tag {
        None => Seq::<UrlView>::empty(),
        Some(t) => if t.len() == 0 {
            Seq::<UrlView>::empty()
        } else {
            tagged(invokers, t)
        },
    };
    if res.len() == 0 && may_fall_back(force) {
        untagged_of(invokers)
    } else {
        res
    }
}

/// The router's priority: the URL's `priority` parameter read as an `i32`,
/// or the default.
pub open spec fn priority_of(u: UrlView) -> i32 {
    match lookup(u.params, "priority"@) {
        Some(p) => match i32_of_text(p) {
            Some(v) => v,
            None => DEFAULT_PRIORITY,
        },
        None => DEFAULT_PRIORITY,
    }
}

/// Routes by the tag in the call context.
#[derive(Debug)]
pub struct TagRouter {
    pub url: Url,
    pub priority: i32,
}

/// The priority a URL sets.
fn extract_priority(url: &Url) -> (p: i32)
    ensures
        p == priority_of(url@),
{
    let key = String::from_str("priority");
    proof {
        reveal_strlit("priority");
    }
    match url.get_param(key) {
        Some(s) => match parse_i32(s.as_str()) {
            Some(v) => v,
            None => DEFAULT_PRIORITY,
        },
        None => DEFAULT_PRIORITY,
    }
}

/// The attachment stored under `key` in the call context.
fn tag_from_ctx(ctx: &RpcContext, key: &str) -> (r: Option<String>)
    ensures
        match r {
            Some(v) => lookup(ctx.attachments@, key@) == Some(v@),
            None => lookup(ctx.attachments@, key@) is None,
        },
{
    ctx.attachments.get(key)
}

/// Whether the invoker's tag parameter equals `tag`.
fn has_tag(u: &Url, tag: &String) -> (b: bool)
    ensures
        b == (tag_param(u@) == Some(tag@)),
{
    match u.params.get(TAG_KEY) {
        Some(t) => t == *tag,
        None => false,
    }
}

/// Whether the invoker carries no tag.
fn is_untagged(u: &Url) -> (b: bool)
    ensures
        b == untagged(u@),
{
    match u.params.get(TAG_KEY) {
        Some(t) => t.as_str().unicode_len() == 0,
        None => true,
    }
}

/// Whether the force attachment lets a call fall back.
fn falls_back(force: &Option<String>) -> (b: bool)
    ensures
        b == may_fall_back(
            match force {
                Some(f) => Some(f@),
                None => None,
            },
        ),
{
    proof {
        reveal_strlit("false");
    }
    match force {
        None => true,
        Some(f) => *f == String::from_str("false"),
    }
}

impl TagRouter {
    /// The router made from `tag://0.0.0.0:0/?runtime=true`. That text
    /// must be one that `http::Uri` parses.
    pub fn new() -> (r: TagRouter)
        requires
            url_of_text(ROUTER_URL_STR@) is Some,
        ensures
            url_of_text(ROUTER_URL_STR@) == Some(r.url@),
            r.priority == priority_of(r.url@),
            r.priority == DEFAULT_PRIORITY,
    {
        let url = Url::from_url(ROUTER_URL_STR).unwrap();
        let priority = extract_priority(&url);
        TagRouter { url, priority }
    }

    /// The router made from `tag://0.0.0.0:0/?runtime=true`, or `None`
    /// where that text does not read as a URL.
    pub fn try_new() -> (r: Option<TagRouter>)
        ensures
            match r {
                Some(t) => url_of_text(ROUTER_URL_STR@) == Some(t.url@) && t.priority
                    == priority_of(t.url@),
                None => url_of_text(ROUTER_URL_STR@) is None,
            },
    {
        match Url::try_from_url(ROUTER_URL_STR) {
            Some(_) => Some(TagRouter::new()),
            None => None,
        }
    }

    /// The router's URL.
    pub fn get_url(&self) -> (r: &Url)
        ensures
            r == &self.url,
    {
        &self.url
    }

    /// The router's priority.
    pub fn get_priority(&self) -> (p: i32)
        ensures
            p == self.priority,
    {
        self.priority
    }

    /// The invokers left for a call whose context is `ctx` (see
    /// `route_by_context`; the tag and the force switch are the context's
    /// `dubbo.tag` and `dubbo.force.tag` attachments).
    pub fn route(&self, invokers: &Vec<Url>, ctx: &RpcContext) -> (r: Vec<Url>)
        ensures
            urls_view(r@) == route_by_context(
                urls_view(invokers@),
                lookup(ctx.attachments@, TAG_KEY@),
                lookup(ctx.attachments@, FORCE_USE_TAG@),
            ),
    {
        let tag_maybe = tag_from_ctx(ctx, TAG_KEY);
        let res = match &tag_maybe {
            None => Vec::new(),
            Some(t) => if t.as_str().unicode_len() == 0 {
                Vec::new()
            } else {
                select_tagged(invokers, t)
            },
        };
        proof {
            if tag_maybe is None || tag_maybe->0@.len() == 0 {
                assert(urls_view(res@) =~= Seq::<UrlView>::empty());
            }
        }
        if res.len() == 0 {
            let force_maybe = tag_from_ctx(ctx, FORCE_USE_TAG);
            if falls_back(&force_maybe) {
                return select_untagged(invokers);
            }
        }
        res
    }
}

/// The invokers tagged `tag`, copied, in order.
fn select_tagged(invokers: &Vec<Url>, tag: &String) -> (r: Vec<Url>)
    ensures
        urls_view(r@) == tagged(urls_view(invokers@), tag@),
{
    let ghost iv = urls_view(invokers@);
    let mut out: Vec<Url> = Vec::new();
    let mut i: usize = 0;
    assert(iv.take(0) =~= Seq::<UrlView>::empty());
    assert(urls_view(out@) =~= Seq::<UrlView>::empty());
    while i < invokers.len()
        invariant
            iv == urls_view(invokers@),
            i <= invokers@.len(),
            urls_view(out@) == tagged(iv.take(i as int), tag@),
        decreases invokers@.len() - i,
    {
        proof {
            let tk = iv.take(i + 1);
            assert(tk.drop_last() =~= iv.take(i as int));
            assert(tk.last() == invokers@[i as int]@);
        }
        if has_tag(&invokers[i], tag) {
            let u = invokers[i].copy();
            let ghost prev = out@;
            out.push(u);
            assert(urls_view(out@) =~= urls_view(prev).push(invokers@[i as int]@));
        }
        i = i + 1;
    }
    assert(iv.take(invokers@.len() as int) =~= iv);
    out
}

/// The invokers that carry no tag, copied, in order.
fn select_untagged(invokers: &Vec<Url>) -> (r: Vec<Url>)
    ensures
        urls_view(r@) == untagged_of(urls_view(invokers@)),
{
    let ghost iv = urls_view(invokers@);
    let mut out: Vec<Url> = Vec::new();
    let mut i: usize = 0;
    assert(iv.take(0) =~= Seq::<UrlView>::empty());
    assert(urls_view(out@) =~= Seq::<UrlView>::empty());
    while i < invokers.len()
        invariant
            iv == urls_view(invokers@),
            i <= invokers@.len(),
            urls_view(out@) == untagged_of(iv.take(i as int)),
        decreases invokers@.len() - i,
    {
        proof {
            let tk = iv.take(i + 1);
            assert(tk.drop_last() =~= iv.take(i as int));
            assert(tk.last() == invokers@[i as int]@);
        }
        if is_untagged(&invokers[i]) {
            let u = invokers[i].copy();
            let ghost prev = out@;
            out.push(u);
            assert(urls_view(out@) =~= urls_view(prev).push(invokers@[i as int]@));
        }
        i = i + 1;
    }
    assert(iv.take(invokers@.len() as int) =~= iv);
    out
}


proof fn lemma_tagged(invokers: Seq<UrlView>, tag: Seq<char>)
    ensures
        within(tagged(invokers, tag), invokers),
        forall|i: int| 0 <= i < tagged(invokers, tag).len() ==> tag_param(#[trigger] tagged(invokers, tag)[i]) == Some(tag),
    decreases invokers.len(),
{
    if invokers.len() > 0 {
        let prev = invokers.drop_last();
        lemma_tagged(prev, tag);
        let out = tagged(invokers, tag);
        let rest = tagged(prev, tag);
        assert forall|i: int| 0 <= i < out.len() implies invokers.contains(#[trigger] out[i]) && tag_param(out[i]) == Some(tag) by {
            if i < rest.len() {
                assert(out[i] == rest[i]);
                let j = choose|j: int| 0 <= j < prev.len() && prev[j] == rest[i];
                assert(invokers[j] == prev[j]);
            } else {
                assert(out[i] == invokers.last());
                assert(invokers[invokers.len() - 1] == invokers.last());
            }
        }
    }
}

proof fn lemma_untagged_of(invokers: Seq<UrlView>)
    ensures
        within(untagged_of(invokers), invokers),
        forall|i: int| 0 <= i < untagged_of(invokers).len() ==> untagged(#[trigger] untagged_of(invokers)[i]),
    decreases invokers.len(),
{
    if invokers.len() > 0 {
        let prev = invokers.drop_last();
        lemma_untagged_of(prev);
        let out = untagged_of(invokers);
        let rest = untagged_of(prev);
        assert forall|i: int| 0 <= i < out.len() implies invokers.contains(#[trigger] out[i]) && untagged(out[i]) by {
            if i < rest.len() {
                assert(out[i] == rest[i]);
                let j = choose|j: int| 0 <= j < prev.len() && prev[j] == rest[i];
                assert(invokers[j] == prev[j]);
            } else {
                assert(out[i] == invokers.last());
                assert(invokers[invokers.len() - 1] == invokers.last());
            }
        }
    }
}

/// Routing by the context's tag leaves only invokers it was given, each
/// carrying the requested tag or, on falling back, no tag at all; with the
/// tag forced, only invokers carrying the requested tag.
pub proof fn law_context_tag_routing(invokers: Seq<UrlView>, tag: Option<Seq<char>>, force: Option<Seq<char>>)
    ensures
        within(route_by_context(invokers, tag, force), invokers),
        forall|i: int| 0 <= i < route_by_context(invokers, tag, force).len() ==> {
            let u = #[trigger] route_by_context(invokers, tag, force)[i];
            (tag matches Some(t) && t.len() > 0 && tag_param(u) == Some(t)) || untagged(u)
        },
        force == Some("true"@) ==> forall|i: int| 0 <= i < route_by_context(invokers, tag, force).len()
            ==> (tag matches Some(t) && tag_param(#[trigger] route_by_context(invokers, tag, force)[i]) == Some(t)),
{
    reveal_strlit("true");
    reveal_strlit("false");
    lemma_untagged_of(invokers);
    match tag {
        Some(t) => {
            lemma_tagged(invokers, t);
        },
        None => {},
    }
    if force == Some("true"@) {
        assert("true"@ != "false"@) by {
            assert("true"@[0] != "false"@[0]);
        }
    }
}

} // verus!
