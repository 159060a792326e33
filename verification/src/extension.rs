//! Extensions: factories registered by name and kind, looked up from an
//! extension URL, and the instances each factory has made, cached by URL.
use crate::keyed::{first_pos, lemma_first_pos, lemma_first_pos_at, lemma_first_pos_none, named, put_named};
use crate::params::{insert_entry, keys_unique, lookup, ParamMap};
use crate::url::{Url, UrlView};
use vstd::prelude::*;
use vstd::string::*;

verus! {

/// The kinds of extension.
#[derive(Debug, Clone, Copy, PartialEq, Eq)]
pub enum ExtensionType {
    Registry,
    Invoker,
}

impl ExtensionType {
    /// `registry` or `invoker`.
    pub fn as_str(&self) -> (s: &'static str)
        ensures
            s@ == (match self {
                ExtensionType::Registry => seq!['r', 'e', 'g', 'i', 's', 't', 'r', 'y'],
                ExtensionType::Invoker => seq!['i', 'n', 'v', 'o', 'k', 'e', 'r'],
            }),
    {
        proof {
            reveal_strlit("registry");
            reveal_strlit("invoker");
        }
        match self {
            ExtensionType::Registry => "registry",
            ExtensionType::Invoker => "invoker",
        }
    }
}

/// The parameter that names the extension to load.
pub open spec fn key_extension_name() -> Seq<char> {
    seq!['e', 'x', 't', 'e', 'n', 's', 'i', 'o', 'n', '-', 'n', 'a', 'm', 'e']
}

pub open spec fn key_extension_type() -> Seq<char> {
    seq!['e', 'x', 't', 'e', 'n', 's', 'i', 'o', 'n', '-', 't', 'y', 'p', 'e']
}

pub open spec fn key_registry_url() -> Seq<char> {
    seq!['r', 'e', 'g', 'i', 's', 't', 'r', 'y', '-', 'u', 'r', 'l']
}

/// Why an extension could not be loaded.
#[derive(Debug, Clone, Copy, PartialEq, Eq)]
pub enum LoadFailure {
    /// The URL names no extension.
    NoName,
    /// No factory is registered under the name.
    NotFound,
}

/// Factories by name.
pub struct ExtensionLoader<F> {
    pub factories: Vec<(String, F)>,
}

pub open spec fn factories_view<F>(v: Seq<(String, F)>) -> Seq<(Seq<char>, F)> {
    v.map_values(|e: (String, F)| (e.0@, e.1))
}

/// Where the loader finds the factory for `url`: the factory named by its
/// `extension-name` parameter.
pub open spec fn load_result<F>(fs: Seq<(Seq<char>, F)>, url: UrlView) -> Result<F, LoadFailure> {
    match lookup(url.params, key_extension_name()) {
        None => Err(LoadFailure::NoName),
        Some(name) => match named(fs, name) {
            None => Err(LoadFailure::NotFound),
            Some(f) => Ok(f),
        },
    }
}

impl<F> ExtensionLoader<F> {
    /// A loader with no factory.
    pub fn new() -> (l: ExtensionLoader<F>)
        ensures
            l.factories@.len() == 0,
    {
        ExtensionLoader { factories: Vec::new() }
    }

    fn position(&self, name: &String) -> (r: Option<usize>)
        ensures
            match r {
                Some(i) => i < self.factories@.len() && first_pos(factories_view(self.factories@), name@) == i,
                None => first_pos(factories_view(self.factories@), name@) == -1,
            },
    {
        let ghost fs = factories_view(self.factories@);
        let mut i: usize = 0;
        while i < self.factories.len()
            invariant
                fs == factories_view(self.factories@),
                i <= self.factories@.len(),
                forall|j: int| 0 <= j < i ==> (#[trigger] fs[j]).0 != name@,
            decreases self.factories@.len() - i,
        {
            assert(fs[i as int].0 == self.factories@[i as int].0@);
            if self.factories[i].0 == *name {
                proof {
                    lemma_first_pos_at(fs, name@, i as int);
                }
                return Some(i);
            }
            i = i + 1;
        }
        proof {
            lemma_first_pos_none(fs, name@);
        }
        None
    }

    /// Registers `factory` under `extension_name`, replacing a factory of
    /// that name.
    pub fn register(&mut self, extension_name: String, factory: F)
        ensures
            factories_view(final(self).factories@) == put_named(factories_view(old(self).factories@), extension_name@, factory),
    {
        let ghost before = factories_view(self.factories@);
        let ghost k = extension_name@;
        match self.position(&extension_name) {
            Some(i) => {
                self.factories.set(i, (extension_name, factory));
                assert(factories_view(self.factories@) =~= before.update(i as int, (k, factory)));
            },
            None => {
                self.factories.push((extension_name, factory));
                assert(factories_view(self.factories@) =~= before.push((k, factory)));
            },
        }
    }

    /// Removes the factory registered under `extension_name`, if any.
    pub fn remove(&mut self, extension_name: String)
        ensures
            named(factories_view(final(self).factories@), extension_name@) is None,
            forall|k: Seq<char>| k != extension_name@ ==> named(factories_view(final(self).factories@), k) == named(factories_view(old(self).factories@), k),
    {
        let ghost orig = factories_view(self.factories@);
        loop
            invariant
                orig == factories_view(old(self).factories@),
                forall|k: Seq<char>| k != extension_name@ ==> named(factories_view(self.factories@), k) == named(orig, k),
            decreases self.factories@.len(),
        {
            let ghost before = factories_view(self.factories@);
            match self.position(&extension_name) {
                Some(i) => {
                    let _ = self.factories.remove(i);
                    proof {
                        let after = factories_view(self.factories@);
                        assert(after =~= before.remove(i as int));
                        lemma_remove_named(before, i as int, extension_name@);
                    }
                },
                None => {
                    return;
                },
            }
        }
    }

    /// The factory for `url`, named by its `extension-name` parameter (see
    /// `load_result`).
    pub fn load(&self, url: &Url) -> (r: Result<&F, LoadFailure>)
        ensures
            match r {
                Ok(f) => load_result(factories_view(self.factories@), url@) == Ok::<F, LoadFailure>(*f),
                Err(e) => load_result(factories_view(self.factories@), url@) == Err::<F, LoadFailure>(e),
            },
    {
        proof {
            reveal_strlit("extension-name");
            assert("extension-name"@ =~= key_extension_name());
        }
        let name = match url.params.get("extension-name") {
            None => {
                return Err(LoadFailure::NoName);
            },
            Some(n) => n,
        };
        match self.position(&name) {
            None => Err(LoadFailure::NotFound),
            Some(i) => Ok(&self.factories[i].1),
        }
    }
}

/// Removing the first entry named `k`, where the names are looked up by
/// their first entry, leaves other names as they were and `k` under its
/// next entry; when `k` occurs once, it is gone.
proof fn lemma_remove_named<F>(s: Seq<(Seq<char>, F)>, i: int, k: Seq<char>)
    requires
        0 <= i < s.len(),
        first_pos(s, k) == i,
    ensures
        forall|k2: Seq<char>| k2 != k ==> named(s.remove(i), k2) == named(s, k2),
        named(s.remove(i), k) is None || exists|j: int| i < j < s.len() && s[j].0 == k,
{
    let r = s.remove(i);
    lemma_first_pos(s, k);
    assert forall|k2: Seq<char>| k2 != k implies named(r, k2) == named(s, k2) by {
        lemma_first_pos(s, k2);
        lemma_first_pos(r, k2);
        let p = first_pos(s, k2);
        let q = first_pos(r, k2);
        if p >= 0 {
            assert(p != i);
            if p < i {
                assert(r[p] == s[p]);
                assert forall|j: int| 0 <= j < p implies (#[trigger] r[j]).0 != k2 by {
                    assert(r[j] == s[j]);
                }
                lemma_first_pos_at(r, k2, p);
            } else {
                assert(r[p - 1] == s[p]);
                assert forall|j: int| 0 <= j < p - 1 implies (#[trigger] r[j]).0 != k2 by {
                    if j < i {
                        assert(r[j] == s[j]);
                    } else {
                        assert(r[j] == s[j + 1]);
                    }
                }
                lemma_first_pos_at(r, k2, p - 1);
            }
        } else {
            assert forall|j: int| 0 <= j < r.len() implies (#[trigger] r[j]).0 != k2 by {
                if j < i {
                    assert(r[j] == s[j]);
                } else {
                    assert(r[j] == s[j + 1]);
                }
            }
            lemma_first_pos_none(r, k2);
        }
    }
    lemma_first_pos(r, k);
    let q = first_pos(r, k);
    if q >= 0 {
        if q < i {
            assert(r[q] == s[q]);
        } else {
            assert(r[q] == s[q + 1]);
        }
    }
}

/// The loaders of a process, one per kind.
pub struct ExtensionDirectory<R, I> {
    pub registry_extension_loader: ExtensionLoader<R>,
    pub invoker_extension_loader: ExtensionLoader<I>,
}

/// A factory of one kind.
pub enum ExtensionFactories<R, I> {
    RegistryExtensionFactory(R),
    InvokerExtensionFactory(I),
}

impl<R, I> ExtensionDirectory<R, I> {
    /// A directory with no factory.
    pub fn new() -> (d: ExtensionDirectory<R, I>)
        ensures
            d.registry_extension_loader.factories@.len() == 0,
            d.invoker_extension_loader.factories@.len() == 0,
    {
        ExtensionDirectory { registry_extension_loader: ExtensionLoader::new(), invoker_extension_loader: ExtensionLoader::new() }
    }

    /// Registers a factory under `extension_name` with the loader of
    /// `extension_type`; a factory of the other kind is ignored.
    pub fn register(&mut self, extension_name: String, extension_factories: ExtensionFactories<R, I>, extension_type: ExtensionType)
        ensures
            match (extension_type, extension_factories) {
                (ExtensionType::Registry, ExtensionFactories::RegistryExtensionFactory(f)) =>
                    factories_view(final(self).registry_extension_loader.factories@) == put_named(factories_view(old(self).registry_extension_loader.factories@), extension_name@, f)
                    && final(self).invoker_extension_loader == old(self).invoker_extension_loader,
                (ExtensionType::Invoker, ExtensionFactories::InvokerExtensionFactory(f)) =>
                    factories_view(final(self).invoker_extension_loader.factories@) == put_named(factories_view(old(self).invoker_extension_loader.factories@), extension_name@, f)
                    && final(self).registry_extension_loader == old(self).registry_extension_loader,
                _ => *final(self) == *old(self),
            },
    {
        match extension_type {
            ExtensionType::Registry => match extension_factories {
                ExtensionFactories::RegistryExtensionFactory(f) => {
                    self.registry_extension_loader.register(extension_name, f);
                },
                _ => {},
            },
            ExtensionType::Invoker => match extension_factories {
                ExtensionFactories::InvokerExtensionFactory(f) => {
                    self.invoker_extension_loader.register(extension_name, f);
                },
                _ => {},
            },
        }
    }

    /// Removes the factory named `extension_name` from the loader of
    /// `extension_type`.
    pub fn remove(&mut self, extension_name: String, extension_type: ExtensionType)
        ensures
            extension_type == ExtensionType::Registry ==> named(factories_view(final(self).registry_extension_loader.factories@), extension_name@) is None
                && final(self).invoker_extension_loader == old(self).invoker_extension_loader
                && forall|k: Seq<char>| k != extension_name@ ==> named(
                    factories_view(final(self).registry_extension_loader.factories@),
                    k,
                ) == named(factories_view(old(self).registry_extension_loader.factories@), k),
            extension_type == ExtensionType::Invoker ==> named(factories_view(final(self).invoker_extension_loader.factories@), extension_name@) is None
                && final(self).registry_extension_loader == old(self).registry_extension_loader
                && forall|k: Seq<char>| k != extension_name@ ==> named(
                    factories_view(final(self).invoker_extension_loader.factories@),
                    k,
                ) == named(factories_view(old(self).invoker_extension_loader.factories@), k),
    {
        match extension_type {
            ExtensionType::Registry => self.registry_extension_loader.remove(extension_name),
            ExtensionType::Invoker => self.invoker_extension_loader.remove(extension_name),
        }
    }
}

impl<R, I> ExtensionDirectory<R, I> {
    /// The factory for `url` from the loader of `extension_type` (see
    /// `load_result`).
    pub fn load(&self, url: &Url, extension_type: ExtensionType) -> (r: Result<ExtensionFactories<&R, &I>, LoadFailure>)
        ensures
            match extension_type {
                ExtensionType::Registry => match r {
                    Ok(ExtensionFactories::RegistryExtensionFactory(f)) => load_result(
                        factories_view(self.registry_extension_loader.factories@),
                        url@,
                    ) == Ok::<R, LoadFailure>(*f),
                    Ok(ExtensionFactories::InvokerExtensionFactory(_)) => false,
                    Err(e) => load_result(factories_view(self.registry_extension_loader.factories@), url@)
                        == Err::<R, LoadFailure>(e),
                },
                ExtensionType::Invoker => match r {
                    Ok(ExtensionFactories::InvokerExtensionFactory(f)) => load_result(
                        factories_view(self.invoker_extension_loader.factories@),
                        url@,
                    ) == Ok::<I, LoadFailure>(*f),
                    Ok(ExtensionFactories::RegistryExtensionFactory(_)) => false,
                    Err(e) => load_result(factories_view(self.invoker_extension_loader.factories@), url@)
                        == Err::<I, LoadFailure>(e),
                },
            },
    {
        match extension_type {
            ExtensionType::Registry => match self.registry_extension_loader.load(url) {
                Ok(f) => Ok(ExtensionFactories::RegistryExtensionFactory(f)),
                Err(e) => Err(e),
            },
            ExtensionType::Invoker => match self.invoker_extension_loader.load(url) {
                Ok(f) => Ok(ExtensionFactories::InvokerExtensionFactory(f)),
                Err(e) => Err(e),
            },
        }
    }
}

/// The message of a failed creation.
pub open spec fn create_failed_message() -> Seq<char> {
    "load extension failed, create extension occur an error"@
}

/// One extension instance to be made from a URL, kept once made.
#[derive(Debug)]
pub struct ExtensionPromiseResolver<T> {
    pub resolved_data: Option<T>,
    pub url: Url,
}

impl<T> ExtensionPromiseResolver<T> {
    /// Nothing made yet for `url`.
    pub fn new(url: Url) -> (p: ExtensionPromiseResolver<T>)
        ensures
            p.resolved_data is None,
            p.url == url,
    {
        ExtensionPromiseResolver { resolved_data: None, url }
    }

    /// The instance, once made.
    pub fn resolved_data(&self) -> (r: &Option<T>)
        ensures
            *r == self.resolved_data,
    {
        &self.resolved_data
    }

    /// Whether resolving must make the instance: nothing was made yet.
    pub fn needs_creation(&self) -> (b: bool)
        ensures
            b == (self.resolved_data is None),
    {
        self.resolved_data.is_none()
    }

    /// The creator answered: a made instance is kept; a failure is reported
    /// as a load error and nothing is kept.
    pub fn on_created<E>(&mut self, created: Result<T, E>) -> (r: Result<(), LoadExtensionError>)
        ensures
            match created {
                Ok(t) => r is Ok && final(self).resolved_data == Some(t),
                Err(_) => r matches Err(e) && e.0@ == create_failed_message()
                    && final(self).resolved_data == old(self).resolved_data,
            },
            final(self).url == old(self).url,
    {
        match created {
            Ok(t) => {
                self.resolved_data = Some(t);
                Ok(())
            },
            Err(_) => {
                proof {
                    reveal_strlit("load extension failed, create extension occur an error");
                }
                Err(LoadExtensionError::new(String::from_str("load extension failed, create extension occur an error")))
            },
        }
    }
}

/// How one request to the extension directory went: it could not be sent,
/// it was sent but no reply came, or this reply came.
#[derive(Debug, Clone, PartialEq, Eq)]
pub enum Exchange<T> {
    NotSent,
    NoReply,
    Replied(T),
}

/// Sends requests to the task that owns the extension directory and reads
/// its replies.
#[derive(Debug, Clone, Copy, Default)]
pub struct ExtensionDirectoryCommander {}

impl ExtensionDirectoryCommander {
    /// The outcome of registering the extension `name`: done once the
    /// directory replied, whatever it replied; otherwise the error
    /// `register extension <name> failed`.
    pub fn register_outcome<E>(&self, name: &str, exchange: Exchange<Result<(), E>>) -> (r: Result<(), RegisterExtensionError>)
        ensures
            match exchange {
                Exchange::Replied(_) => r is Ok,
                _ => r matches Err(e) && e.0@ == "register extension "@ + name@ + " failed"@,
            },
    {
        match exchange {
            Exchange::Replied(_) => Ok(()),
            _ => Err(RegisterExtensionError::new(concat3("register extension ", name, " failed"))),
        }
    }

    /// The outcome of removing the extension `name`: done once the directory
    /// replied, whatever it replied; otherwise the error
    /// `remove extension <name> failed`.
    pub fn remove_outcome<E>(&self, name: &str, exchange: Exchange<Result<(), E>>) -> (r: Result<(), RemoveExtensionError>)
        ensures
            match exchange {
                Exchange::Replied(_) => r is Ok,
                _ => r matches Err(e) && e.0@ == "remove extension "@ + name@ + " failed"@,
            },
    {
        match exchange {
            Exchange::Replied(_) => Ok(()),
            _ => Err(RemoveExtensionError::new(concat3("remove extension ", name, " failed"))),
        }
    }

    /// The outcome of loading the extension of kind `extension_type` for the
    /// URL written `url`: what the directory loaded, when it replied with
    /// one; otherwise the error `load <kind> extension failed: <url>`.
    pub fn load_outcome<P, E>(
        &self,
        url: &str,
        extension_type: ExtensionType,
        exchange: Exchange<Result<P, E>>,
    ) -> (r: Result<P, LoadExtensionError>)
        ensures
            match exchange {
                Exchange::Replied(Ok(p)) => r == Ok::<P, LoadExtensionError>(p),
                _ => r matches Err(e) && e.0@ == "load "@ + (match extension_type {
                    ExtensionType::Registry => "registry"@,
                    ExtensionType::Invoker => "invoker"@,
                }) + " extension failed: "@ + url@,
            },
    {
        match exchange {
            Exchange::Replied(Ok(p)) => Ok(p),
            _ => {
                let kind = match extension_type {
                    ExtensionType::Registry => "load registry",
                    ExtensionType::Invoker => "load invoker",
                };
                proof {
                    reveal_strlit("load registry");
                    reveal_strlit("load invoker");
                    reveal_strlit("load ");
                    reveal_strlit("registry");
                    reveal_strlit("invoker");
                    assert("load registry"@ =~= "load "@ + "registry"@);
                    assert("load invoker"@ =~= "load "@ + "invoker"@);
                }
                Err(LoadExtensionError::new(concat3(kind, " extension failed: ", url)))
            },
        }
    }
}

/// `a`, `b` and `c` joined.
fn concat3(a: &str, b: &str, c: &str) -> (r: String)
    ensures
        r@ == a@ + b@ + c@,
{
    let mut r = String::from_str(a);
    r.append(b);
    r.append(c);
    r
}

/// A registered factory is what loading a URL that names it finds.
pub proof fn law_register_then_load<F>(fs: Seq<(Seq<char>, F)>, name: Seq<char>, f: F, url: UrlView)
    requires
        lookup(url.params, key_extension_name()) == Some(name),
    ensures
        load_result(put_named(fs, name, f), url) == Ok::<F, LoadFailure>(f),
{
    lemma_first_pos(fs, name);
    let p = first_pos(fs, name);
    let r = put_named(fs, name, f);
    if p < 0 {
        assert forall|j: int| 0 <= j < fs.len() implies (#[trigger] r[j]).0 != name by {
            assert(r[j] == fs[j]);
        }
        lemma_first_pos_at(r, name, fs.len() as int);
    } else {
        assert forall|j: int| 0 <= j < p implies (#[trigger] r[j]).0 != name by {
            assert(r[j] == fs[j]);
        }
        lemma_first_pos_at(r, name, p);
    }
}

/// Instances made by one factory, cached by the text of their URL.
pub struct InstanceCache<P> {
    pub instances: Vec<(String, P)>,
}

impl<P> InstanceCache<P> {
    /// An empty cache.
    pub fn new() -> (c: InstanceCache<P>)
        ensures
            c.instances@.len() == 0,
    {
        InstanceCache { instances: Vec::new() }
    }

    /// The position of the instance for `key`, made with `make` and cached
    /// when there is none yet; a cached instance is kept as it is.
    pub fn get_or_insert_with<M: FnOnce() -> P>(&mut self, key: String, make: M) -> (i: usize)
        requires
            call_requires(make, ()),
        ensures
            i < final(self).instances@.len(),
            final(self).instances@[i as int].0@ == key@,
            first_pos(factories_view(final(self).instances@), key@) == i,
            named(factories_view(old(self).instances@), key@) is Some ==> final(self).instances@ == old(self).instances@,
            named(factories_view(old(self).instances@), key@) is None ==> final(self).instances@.len() == old(self).instances@.len() + 1
                && factories_view(final(self).instances@).drop_last() == factories_view(old(self).instances@)
                && call_ensures(make, (), final(self).instances@[i as int].1),
    {
        let ghost before = factories_view(self.instances@);
        let mut i: usize = 0;
        while i < self.instances.len()
            invariant
                before == factories_view(self.instances@),
                i <= self.instances@.len(),
                forall|j: int| 0 <= j < i ==> (#[trigger] before[j]).0 != key@,
            decreases self.instances@.len() - i,
        {
            assert(before[i as int].0 == self.instances@[i as int].0@);
            if self.instances[i].0 == key {
                proof {
                    lemma_first_pos_at(before, key@, i as int);
                }
                return i;
            }
            i = i + 1;
        }
        proof {
            lemma_first_pos_none(before, key@);
        }
        let p = make();
        let ghost k = key@;
        self.instances.push((key, p));
        proof {
            let after = factories_view(self.instances@);
            assert(after.drop_last() =~= before);
            assert forall|j: int| 0 <= j < i implies (#[trigger] after[j]).0 != k by {
                assert(after[j] == before[j]);
            }
            lemma_first_pos_at(after, k, i as int);
        }
        i
    }
}

/// Asking twice for the instance of one URL text makes one instance: the
/// second request finds the first one's cache entry unchanged.
pub proof fn law_cache_reuses<P>(cache: Seq<(Seq<char>, P)>, key: Seq<char>, p: P)
    ensures
        named(put_named(cache, key, p), key) is Some,
{
    lemma_first_pos(cache, key);
    let q = first_pos(cache, key);
    let r = put_named(cache, key, p);
    if q < 0 {
        assert forall|j: int| 0 <= j < cache.len() implies (#[trigger] r[j]).0 != key by {
            assert(r[j] == cache[j]);
        }
        lemma_first_pos_at(r, key, cache.len() as int);
    } else {
        assert forall|j: int| 0 <= j < q implies (#[trigger] r[j]).0 != key by {
            assert(r[j] == cache[j]);
        }
        lemma_first_pos_at(r, key, q);
    }
}

/// The extension URL of a registry URL (see `to_extension_url`).
pub open spec fn extension_url_of(registry_url: UrlView) -> UrlView {
    UrlView {
        uri: "extension://0.0.0.0"@,
        protocol: "extension"@,
        location: "0.0.0.0"@,
        ip: "0.0.0.0"@,
        port: Seq::<char>::empty(),
        service_key: seq![Seq::<char>::empty()],
        params: seq![
            (key_extension_type(), seq!['r', 'e', 'g', 'i', 's', 't', 'r', 'y']),
            (key_extension_name(), registry_url.protocol),
            (key_registry_url(), registry_url.uri),
        ],
    }
}

/// The extension URL that loads the registry of `registry_url`:
/// `extension://0.0.0.0` with parameters `extension-type=registry`,
/// `extension-name=<protocol>` and `registry-url=<its text>`.
pub fn to_extension_url(registry_url: Url) -> (u: Url)
    ensures
        u@ == extension_url_of(registry_url@),
        u@.protocol == seq!['e', 'x', 't', 'e', 'n', 's', 'i', 'o', 'n'],
        u@.ip == seq!['0', '.', '0', '.', '0', '.', '0'],
        u@.location == seq!['0', '.', '0', '.', '0', '.', '0'],
        u@.params == seq![
            (key_extension_type(), seq!['r', 'e', 'g', 'i', 's', 't', 'r', 'y']),
            (key_extension_name(), registry_url@.protocol),
            (key_registry_url(), registry_url@.uri),
        ],
        keys_unique(u@.params),
        lookup(u@.params, key_extension_name()) == Some(registry_url@.protocol),
{
    proof {
        reveal_strlit("extension");
        reveal_strlit("0.0.0.0");
        reveal_strlit("extension://0.0.0.0");
        reveal_strlit("extension-type");
        reveal_strlit("extension-name");
        reveal_strlit("registry-url");
        reveal_strlit("registry");
        assert("extension"@ =~= seq!['e', 'x', 't', 'e', 'n', 's', 'i', 'o', 'n']);
        assert("0.0.0.0"@ =~= seq!['0', '.', '0', '.', '0', '.', '0']);
        assert("extension-type"@ =~= key_extension_type());
        assert("extension-name"@ =~= key_extension_name());
        assert("registry-url"@ =~= key_registry_url());
        assert("registry"@ =~= seq!['r', 'e', 'g', 'i', 's', 't', 'r', 'y']);
    }
    let mut params = ParamMap::new();
    let ghost e0 = params@;
    params.insert(String::from_str("extension-type"), String::from_str(ExtensionType::Registry.as_str()));
    proof {
        assert(!crate::params::has_key(e0, key_extension_type()));
    }
    let ghost e1 = params@;
    params.insert(String::from_str("extension-name"), registry_url.protocol.clone());
    proof {
        assert(!crate::params::has_key(e1, key_extension_name())) by {
            if crate::params::has_key(e1, key_extension_name()) {
                let q = choose|q: int| 0 <= q < e1.len() && (#[trigger] e1[q]).0 == key_extension_name();
                assert(e1[q].0[10] != key_extension_name()[10]);
            }
        }
    }
    let ghost e2 = params@;
    params.insert(String::from_str("registry-url"), registry_url.uri.clone());
    proof {
        assert(!crate::params::has_key(e2, key_registry_url())) by {
            if crate::params::has_key(e2, key_registry_url()) {
                let q = choose|q: int| 0 <= q < e2.len() && (#[trigger] e2[q]).0 == key_registry_url();
                assert(e2[q].0.len() != key_registry_url().len());
            }
        }
        crate::params::lemma_key_pos_unique(params@, 1);
    }
    let mut service_key: Vec<String> = Vec::new();
    service_key.push(String::new());
    assert(crate::url::strings_view(service_key@) =~= seq![Seq::<char>::empty()]);
    let u = Url {
        uri: String::from_str("extension://0.0.0.0"),
        protocol: String::from_str("extension"),
        location: String::from_str("0.0.0.0"),
        ip: String::from_str("0.0.0.0"),
        port: String::new(),
        service_key,
        params,
    };
    proof {
        let e = extension_url_of(registry_url@);
        assert(u@.params =~= e.params);
        assert(u@.port =~= e.port);
        assert(u@.service_key =~= e.service_key);
        assert(u@.protocol =~= e.protocol);
        assert(u@.ip =~= e.ip);
        assert(u@.location =~= e.location);
        assert(u@.uri =~= e.uri);
    }
    u
}

/// An error message carried by an extension error.
pub open spec fn prefixed(prefix: Seq<char>, msg: Seq<char>) -> Seq<char> {
    prefix + msg
}

/// Registering an extension failed.
#[derive(Debug, Clone)]
pub struct RegisterExtensionError(pub String);

impl RegisterExtensionError {
    pub fn new(msg: String) -> (e: RegisterExtensionError)
        ensures
            e.0 == msg,
    {
        RegisterExtensionError(msg)
    }

    /// The message.
    pub fn to_string(&self) -> (s: String)
        ensures
            s@ == self.0@,
    {
        self.0.clone()
    }
}

/// Removing an extension failed.
#[derive(Debug, Clone)]
pub struct RemoveExtensionError(pub String);

impl RemoveExtensionError {
    pub fn new(msg: String) -> (e: RemoveExtensionError)
        ensures
            e.0 == msg,
    {
        RemoveExtensionError(msg)
    }

    /// The message.
    pub fn to_string(&self) -> (s: String)
        ensures
            s@ == self.0@,
    {
        self.0.clone()
    }
}

/// Loading an extension failed.
#[derive(Debug, Clone)]
pub struct LoadExtensionError(pub String);

impl LoadExtensionError {
    pub fn new(msg: String) -> (e: LoadExtensionError)
        ensures
            e.0 == msg,
    {
        LoadExtensionError(msg)
    }

    /// The message.
    pub fn to_string(&self) -> (s: String)
        ensures
            s@ == self.0@,
    {
        self.0.clone()
    }
}

/// The invoker extension loader failed.
#[derive(Debug, Clone)]
pub struct InvokerExtensionLoaderError(pub String);

impl InvokerExtensionLoaderError {
    pub fn new(msg: &str) -> (e: InvokerExtensionLoaderError)
        ensures
            e.0@ == msg@,
    {
        InvokerExtensionLoaderError(String::from_str(msg))
    }

    /// The message.
    pub fn to_string(&self) -> (s: String)
        ensures
            s@ == self.0@,
    {
        self.0.clone()
    }
}

/// The registry extension loader failed.
#[derive(Debug, Clone)]
pub struct RegistryExtensionLoaderError(pub String);

impl RegistryExtensionLoaderError {
    pub fn new(msg: String) -> (e: RegistryExtensionLoaderError)
        ensures
            e.0 == msg,
    {
        RegistryExtensionLoaderError(msg)
    }

    /// The message.
    pub fn to_string(&self) -> (s: String)
        ensures
            s@ == self.0@,
    {
        self.0.clone()
    }
}

/// A call through an invoker proxy failed.
#[derive(Debug, Clone)]
pub struct InvokerProxyError(pub String);

impl InvokerProxyError {
    pub fn new(msg: &str) -> (e: InvokerProxyError)
        ensures
            e.0@ == msg@,
    {
        InvokerProxyError(String::from_str(msg))
    }

    /// `invoker proxy error: <message>`.
    pub fn to_string(&self) -> (s: String)
        ensures
            s@ == prefixed("invoker proxy error: "@, self.0@),
    {
        let mut s = String::from_str("invoker proxy error: ");
        s.append(self.0.as_str());
        s
    }
}

/// A call through a registry proxy failed.
#[derive(Debug, Clone)]
pub struct RegistryProxyError(pub String);

impl RegistryProxyError {
    pub fn new(msg: &str) -> (e: RegistryProxyError)
        ensures
            e.0@ == msg@,
    {
        RegistryProxyError(String::from_str(msg))
    }

    /// `registry proxy error: <message>`.
    pub fn to_string(&self) -> (s: String)
        ensures
            s@ == prefixed("registry proxy error: "@, self.0@),
    {
        let mut s = String::from_str("registry proxy error: ");
        s.append(self.0.as_str());
        s
    }
}

/// How an invoker is called.
#[derive(Debug, Clone, Copy, PartialEq, Eq)]
pub enum CallType {
    Unary,
    ClientStream,
    ServerStream,
    BiStream,
}


/// What a registry is asked through its proxy.
#[derive(Debug, Clone, Copy, PartialEq, Eq)]
pub enum RegistryOp {
    Register,
    Unregister,
    Subscribe,
    Unsubscribe,
}

impl RegistryOp {
    /// `register`, `unregister`, `subscribe` or `unsubscribe`.
    pub fn as_str(&self) -> (s: &'static str)
        ensures
            s@ == registry_op_name(*self),
    {
        match self {
            RegistryOp::Register => "register",
            RegistryOp::Unregister => "unregister",
            RegistryOp::Subscribe => "subscribe",
            RegistryOp::Unsubscribe => "unsubscribe",
        }
    }
}

/// The name of a registry request.
pub open spec fn registry_op_name(op: RegistryOp) -> Seq<char> {
    match op {
        RegistryOp::Register => "register"@,
        RegistryOp::Unregister => "unregister"@,
        RegistryOp::Subscribe => "subscribe"@,
        RegistryOp::Unsubscribe => "unsubscribe"@,
    }
}

/// Why a request through a proxy failed: the proxy could not pass it on
/// or hear back, or the extension behind it answered with an error.
#[derive(Debug)]
pub enum ProxyFailure<P, E> {
    Proxy(P),
    Remote(E),
}

/// A registry reached through the task that owns it.
#[derive(Debug)]
pub struct RegistryProxy {
    pub url: Url,
}

impl RegistryProxy {
    /// The URL of the registry.
    pub fn url(&self) -> (u: &Url)
        ensures
            u == &self.url,
    {
        &self.url
    }

    /// The outcome of a request `op`: the registry's answer when it replied;
    /// otherwise the proxy error `send <op> opt failed` (not sent) or
    /// `receive <op> response failed` (no reply).
    pub fn outcome<T, E>(&self, op: RegistryOp, exchange: Exchange<Result<T, E>>) -> (r: Result<T, ProxyFailure<RegistryProxyError, E>>)
        ensures
            match exchange {
                Exchange::Replied(Ok(t)) => r == Ok::<T, ProxyFailure<RegistryProxyError, E>>(t),
                Exchange::Replied(Err(e)) => r == Err::<T, ProxyFailure<RegistryProxyError, E>>(ProxyFailure::Remote(e)),
                Exchange::NotSent => r matches Err(ProxyFailure::Proxy(p)) && p.0@ == "send "@ + registry_op_name(op) + " opt failed"@,
                Exchange::NoReply => r matches Err(ProxyFailure::Proxy(p)) && p.0@ == "receive "@ + registry_op_name(op) + " response failed"@,
            },
    {
        proof {
            reveal_strlit("register");
            reveal_strlit("unregister");
            reveal_strlit("subscribe");
            reveal_strlit("unsubscribe");
        }
        match exchange {
            Exchange::Replied(Ok(t)) => Ok(t),
            Exchange::Replied(Err(e)) => Err(ProxyFailure::Remote(e)),
            Exchange::NotSent => {
                let msg = concat3("send ", op.as_str(), " opt failed");
                Err(ProxyFailure::Proxy(RegistryProxyError(msg)))
            },
            Exchange::NoReply => {
                let msg = concat3("receive ", op.as_str(), " response failed");
                Err(ProxyFailure::Proxy(RegistryProxyError(msg)))
            },
        }
    }
}

/// What an invoker is asked through its proxy.
#[derive(Debug, Clone, Copy, PartialEq, Eq)]
pub enum InvokerOp {
    Invoke,
    Url,
}

/// Why a request through an invoker's proxy failed: it could not be passed
/// on, its reply was lost, or the invoker answered with an error.
#[derive(Debug)]
pub enum InvokerProxyFailure<E> {
    Proxy(InvokerProxyError),
    ReplyLost,
    Remote(E),
}

/// An invoker reached through the task that owns it.
#[derive(Debug, Clone, Copy, Default)]
pub struct InvokerProxy {}

impl InvokerProxy {
    /// The outcome of a request `op`: the invoker's answer when it replied;
    /// `ReplyLost` when none came; otherwise the proxy error
    /// `call <invoke|url> method failed by invoker proxy`.
    pub fn outcome<T, E>(&self, op: InvokerOp, exchange: Exchange<Result<T, E>>) -> (r: Result<T, InvokerProxyFailure<E>>)
        ensures
            match exchange {
                Exchange::Replied(Ok(t)) => r == Ok::<T, InvokerProxyFailure<E>>(t),
                Exchange::Replied(Err(e)) => r == Err::<T, InvokerProxyFailure<E>>(InvokerProxyFailure::Remote(e)),
                Exchange::NoReply => r == Err::<T, InvokerProxyFailure<E>>(InvokerProxyFailure::ReplyLost),
                Exchange::NotSent => r matches Err(InvokerProxyFailure::Proxy(p)) && p.0@ == "call "@ + (match op {
                    InvokerOp::Invoke => "invoke"@,
                    InvokerOp::Url => "url"@,
                }) + " method failed by invoker proxy"@,
            },
    {
        match exchange {
            Exchange::Replied(Ok(t)) => Ok(t),
            Exchange::Replied(Err(e)) => Err(InvokerProxyFailure::Remote(e)),
            Exchange::NoReply => Err(InvokerProxyFailure::ReplyLost),
            Exchange::NotSent => {
                let what = match op {
                    InvokerOp::Invoke => "invoke",
                    InvokerOp::Url => "url",
                };
                proof {
                    reveal_strlit("invoke");
                    reveal_strlit("url");
                }
                Err(InvokerProxyFailure::Proxy(InvokerProxyError(concat3("call ", what, " method failed by invoker proxy"))))
            },
        }
    }
}

} // verus!
