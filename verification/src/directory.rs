//! A directory of one fixed address: every call goes to the triple
//! endpoint at that host and port.
use crate::extension::{factories_view, InstanceCache};
use crate::invocation::{Invocation, RpcInvocation};
use crate::keyed::{first_pos, named};
use crate::url::{concat2, parse_uri, parsed_uri, uri_parts_view, url_of_text, Url, UriParts};
use vstd::prelude::*;

verus! {

/// The URL text a call of `service` is listed at, for a directory over the
/// parsed URI `uri`: `tri://host:port/service`; `None` when the URI has no
/// host or no port.
pub open spec fn listing_text(
    uri: (Seq<char>, Option<Seq<char>>, Option<(Seq<char>, Seq<char>, Option<Seq<char>>)>, Seq<char>),
    service: Seq<char>,
) -> Option<Seq<char>> {
    match uri.2 {
        Some(a) => match a.2 {
            Some(port) => Some("tri://"@ + a.1 + ":"@ + port + "/"@ + service),
            None => None,
        },
        None => None,
    }
}

/// A directory of one fixed address.
pub struct StaticDirectory {
    pub uri: UriParts,
}

impl StaticDirectory {
    /// The directory of `host`, a text that `http::Uri` parses.
    pub fn new(host: &str) -> (d: StaticDirectory)
        requires
            parsed_uri(host@) is Some,
        ensures
            uri_parts_view(Some(d.uri)) == parsed_uri(host@),
    {
        let parts = parse_uri(host);
        StaticDirectory { uri: parts.unwrap() }
    }

    /// The directory of `host`, or `None` where `http::Uri` does not parse
    /// it.
    pub fn try_new(host: &str) -> (r: Option<StaticDirectory>)
        ensures
            match r {
                Some(d) => uri_parts_view(Some(d.uri)) == parsed_uri(host@),
                None => parsed_uri(host@) is None,
            },
    {
        match parse_uri(host) {
            Some(_) => Some(StaticDirectory::new(host)),
            None => None,
        }
    }

    /// The directory of an already parsed URI.
    pub fn from_uri(uri: UriParts) -> (d: StaticDirectory)
        ensures
            d.uri == uri,
    {
        StaticDirectory { uri }
    }

    /// The listing text of a call (see `listing_text`).
    fn listing(&self, inv: &RpcInvocation) -> (r: Option<String>)
        ensures
            match r {
                Some(t) => listing_text(uri_parts_view(Some(self.uri))->0, inv.service_view()) == Some(t@),
                None => listing_text(uri_parts_view(Some(self.uri))->0, inv.service_view()) is None,
            },
    {
        match &self.uri.authority {
            Some(a) => match &a.port {
                Some(port) => {
                    let service = inv.get_target_service_unique_name();
                    let t1 = concat2("tri://", a.host.as_str());
                    let t2 = concat2(t1.as_str(), ":");
                    let t3 = concat2(t2.as_str(), port.as_str());
                    let t4 = concat2(t3.as_str(), "/");
                    let t5 = concat2(t4.as_str(), service.as_str());
                    Some(t5)
                },
                None => None,
            },
            None => None,
        }
    }

    /// The invokers of a call: the one at `tri://host:port/service`. The
    /// URI must have a host and a port, and that text must read as a URL.
    pub fn list(&self, inv: &RpcInvocation) -> (r: Vec<Url>)
        requires
            listing_text(uri_parts_view(Some(self.uri))->0, inv.service_view()) matches Some(t)
                && url_of_text(t) is Some,
        ensures
            r@.len() == 1,
            url_of_text(listing_text(uri_parts_view(Some(self.uri))->0, inv.service_view())->0) == Some(
                r@[0]@,
            ),
    {
        let text = self.listing(inv).unwrap();
        let url = Url::from_url(text.as_str()).unwrap();
        let mut r: Vec<Url> = Vec::new();
        r.push(url);
        r
    }

    /// The invokers of a call as `list` gives them, or `None` where the URI
    /// has no host or port, or the listing text does not read as a URL.
    pub fn try_list(&self, inv: &RpcInvocation) -> (r: Option<Vec<Url>>)
        ensures
            match r {
                Some(v) => v@.len() == 1 && (listing_text(uri_parts_view(Some(self.uri))->0, inv.service_view())
                    matches Some(t) && url_of_text(t) == Some(v@[0]@)),
                None => !(listing_text(uri_parts_view(Some(self.uri))->0, inv.service_view()) matches Some(t)
                    && url_of_text(t) is Some),
            },
    {
        match self.listing(inv) {
            Some(text) => match Url::try_from_url(text.as_str()) {
                Some(_) => Some(self.list(inv)),
                None => None,
            },
            None => None,
        }
    }
}

/// A change the registry reports for a service's invokers.
#[derive(Debug, Clone, PartialEq, Eq)]
pub enum DiscoverEvent {
    /// No change is waiting.
    Pending,
    /// The invoker at this URL text appeared (or was announced again).
    Insert(String),
    /// The invoker at this URL text went away.
    Remove(String),
    /// The registry's stream failed.
    Failed,
    /// The registry's stream ended.
    Closed,
}

/// What a readiness poll of the directory does after an event.
#[derive(Debug, Clone, Copy, PartialEq, Eq)]
pub enum DirectoryStep {
    /// Take the next event.
    Continue,
    /// Ready: there are invokers to list, or no more will come.
    Ready,
    /// Not ready: nothing is listed and more may come.
    Pending,
    /// The registry's stream failed.
    Failed,
}

/// The directory of one service: the URL texts of its invokers, each once,
/// in the order they appeared.
#[derive(Debug, Default)]
pub struct Directory {
    pub keys: Vec<String>,
}

/// The keys as text.
pub open spec fn keys_view(v: Seq<String>) -> Seq<Seq<char>> {
    v.map_values(|k: String| k@)
}

/// The keys other than `k`, in order.
pub open spec fn without(keys: Seq<Seq<char>>, k: Seq<char>) -> Seq<Seq<char>>
    decreases keys.len(),
{
    if keys.len() == 0 {
        keys
    } else if keys.last() == k {
        without(keys.drop_last(), k)
    } else {
        without(keys.drop_last(), k).push(keys.last())
    }
}

/// The keys after an event: an appearing key is added at the end unless
/// listed already; a removed one is dropped; other events change nothing.
pub open spec fn keys_after(keys: Seq<Seq<char>>, event: DiscoverEvent) -> Seq<Seq<char>> {
    match event {
        DiscoverEvent::Insert(k) => if keys.contains(k@) {
            keys
        } else {
            keys.push(k@)
        },
        DiscoverEvent::Remove(k) => without(keys, k@),
        _ => keys,
    }
}

impl Directory {
    /// An empty directory.
    pub fn new() -> (d: Directory)
        ensures
            d.keys@.len() == 0,
    {
        Directory { keys: Vec::new() }
    }

    fn position(&self, key: &String) -> (r: Option<usize>)
        ensures
            match r {
                Some(i) => i < self.keys@.len() && self.keys@[i as int]@ == key@,
                None => !keys_view(self.keys@).contains(key@),
            },
    {
        let mut i: usize = 0;
        while i < self.keys.len()
            invariant
                i <= self.keys@.len(),
                forall|j: int| 0 <= j < i ==> (#[trigger] self.keys@[j])@ != key@,
            decreases self.keys@.len() - i,
        {
            if self.keys[i] == *key {
                return Some(i);
            }
            i = i + 1;
        }
        proof {
            if keys_view(self.keys@).contains(key@) {
                let j = choose|j: int| 0 <= j < keys_view(self.keys@).len() && keys_view(self.keys@)[j] == key@;
                assert(self.keys@[j]@ == key@);
            }
        }
        None
    }

    /// Takes one event of the registry's stream (see `keys_after`) and
    /// says what the readiness poll does next: on no waiting change, it is
    /// ready when some invoker is listed; at the stream's end it is ready;
    /// on a failure it fails; after a change it takes the next event.
    pub fn on_discover(&mut self, event: DiscoverEvent) -> (step: DirectoryStep)
        ensures
            keys_view(final(self).keys@) == keys_after(keys_view(old(self).keys@), event),
            step == match event {
                DiscoverEvent::Pending => if old(self).keys@.len() == 0 {
                    DirectoryStep::Pending
                } else {
                    DirectoryStep::Ready
                },
                DiscoverEvent::Insert(_) => DirectoryStep::Continue,
                DiscoverEvent::Remove(_) => DirectoryStep::Continue,
                DiscoverEvent::Failed => DirectoryStep::Failed,
                DiscoverEvent::Closed => DirectoryStep::Ready,
            },
    {
        match event {
            DiscoverEvent::Pending => {
                assert(keys_view(self.keys@) == keys_after(keys_view(self.keys@), DiscoverEvent::Pending));
                if self.keys.len() == 0 {
                    DirectoryStep::Pending
                } else {
                    DirectoryStep::Ready
                }
            },
            DiscoverEvent::Insert(k) => {
                let ghost before = keys_view(self.keys@);
                let ghost kv = k@;
                match self.position(&k) {
                    Some(_) => {
                        assert(before.contains(kv)) by {
                            let i = choose|i: int| 0 <= i < self.keys@.len() && self.keys@[i]@ == kv;
                            assert(before[i] == kv);
                        }
                    },
                    None => {
                        self.keys.push(k);
                        assert(keys_view(self.keys@) =~= before.push(kv));
                    },
                }
                DirectoryStep::Continue
            },
            DiscoverEvent::Remove(k) => {
                let ghost before = keys_view(self.keys@);
                let mut kept: Vec<String> = Vec::new();
                let mut i: usize = 0;
                while i < self.keys.len()
                    invariant
                        i <= self.keys@.len(),
                        before == keys_view(self.keys@),
                        keys_view(kept@) == without(before.take(i as int), k@),
                    decreases self.keys@.len() - i,
                {
                    proof {
                        let t = before.take(i + 1);
                        assert(t.drop_last() =~= before.take(i as int));
                        assert(t.last() == before[i as int]);
                    }
                    if self.keys[i] != k {
                        let ghost prev = kept@;
                        kept.push(self.keys[i].clone());
                        assert(keys_view(kept@) =~= keys_view(prev).push(before[i as int]));
                    }
                    i = i + 1;
                }
                assert(before.take(i as int) =~= before);
                self.keys = kept;
                DirectoryStep::Continue
            },
            DiscoverEvent::Failed => DirectoryStep::Failed,
            DiscoverEvent::Closed => DirectoryStep::Ready,
        }
    }

    /// The URL texts of the listed invokers, in order.
    pub fn call(&self) -> (r: Vec<String>)
        ensures
            keys_view(r@) == keys_view(self.keys@),
    {
        let mut r: Vec<String> = Vec::new();
        let mut i: usize = 0;
        while i < self.keys.len()
            invariant
                i <= self.keys@.len(),
                r@.len() == i,
                keys_view(r@) == keys_view(self.keys@).take(i as int),
            decreases self.keys@.len() - i,
        {
            let ghost prev = r@;
            let k = self.keys[i].clone();
            assert(k@ == self.keys@[i as int]@);
            r.push(k);
            assert(keys_view(r@) =~= keys_view(prev).push(self.keys@[i as int]@));
            assert(keys_view(r@) =~= keys_view(self.keys@).take(i + 1));
            i = i + 1;
        }
        assert(keys_view(self.keys@).take(i as int) =~= keys_view(self.keys@));
        r
    }
}

/// The result of checking again, just before listing, an invoker the
/// readiness cache holds as ready.
#[derive(Debug, Clone, Copy, PartialEq, Eq)]
pub enum ReadyCheck {
    /// It is still ready.
    Ready,
    /// It is no longer ready.
    NotReady,
    /// The check failed.
    Failed,
}

/// The keys, in order, of the entries whose check says ready.
pub open spec fn ready_keys(entries: Seq<(String, ReadyCheck)>) -> Seq<Seq<char>>
    decreases entries.len(),
{
    if entries.len() == 0 {
        Seq::<Seq<char>>::empty()
    } else {
        let rest = ready_keys(entries.drop_last());
        if entries.last().1 == ReadyCheck::Ready {
            rest.push(entries.last().0@)
        } else {
            rest
        }
    }
}

/// The listing of a service's invokers from its readiness cache, given the
/// ready entries (URL text and the result of checking it again) in the
/// cache's order: `None` (not ready yet) when the cache holds no ready
/// invoker; else the URL texts of those still ready, in order, leaving out
/// those no longer ready and those whose check failed.
pub fn list_ready(entries: &Vec<(String, ReadyCheck)>) -> (r: Option<Vec<String>>)
    ensures
        entries@.len() == 0 ==> r is None,
        entries@.len() > 0 ==> (r matches Some(v) && keys_view(v@) == ready_keys(entries@)),
{
    if entries.len() == 0 {
        return None;
    }
    let mut v: Vec<String> = Vec::new();
    let mut i: usize = 0;
    while i < entries.len()
        invariant
            i <= entries@.len(),
            keys_view(v@) == ready_keys(entries@.take(i as int)),
        decreases entries@.len() - i,
    {
        proof {
            assert(entries@.take(i + 1).drop_last() =~= entries@.take(i as int));
        }
        let ghost prev = v@;
        let ready = match entries[i].1 {
            ReadyCheck::Ready => true,
            _ => false,
        };
        if ready {
            v.push(entries[i].0.clone());
            assert(keys_view(v@) =~= keys_view(prev).push(entries@[i as int].0@));
        }
        i = i + 1;
    }
    assert(entries@.take(i as int) =~= entries@);
    Some(v)
}

/// The directories made so far, one per service name, reused on later
/// calls for the same service.
pub struct CachedDirectory<S> {
    pub cache: InstanceCache<S>,
}

impl<S> CachedDirectory<S> {
    /// No directory made yet.
    pub fn new() -> (c: CachedDirectory<S>)
        ensures
            c.cache.instances@.len() == 0,
    {
        CachedDirectory { cache: InstanceCache::new() }
    }

    /// The position of the directory of the invocation's service, made with
    /// `make` when there is none yet; one made before is kept as it is.
    pub fn new_service<M: FnOnce() -> S>(&mut self, invocation: &RpcInvocation, make: M) -> (i: usize)
        requires
            call_requires(make, ()),
        ensures
            i < final(self).cache.instances@.len(),
            final(self).cache.instances@[i as int].0@ == invocation.service_view(),
            first_pos(factories_view(final(self).cache.instances@), invocation.service_view()) == i,
            named(factories_view(old(self).cache.instances@), invocation.service_view()) is Some
                ==> final(self).cache.instances@ == old(self).cache.instances@,
            named(factories_view(old(self).cache.instances@), invocation.service_view()) is None
                ==> final(self).cache.instances@.len() == old(self).cache.instances@.len() + 1
                && call_ensures(make, (), final(self).cache.instances@[i as int].1),
    {
        let service_name = invocation.get_target_service_unique_name();
        self.cache.get_or_insert_with(service_name, make)
    }
}

} // verus!
