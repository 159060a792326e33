//! The framework entry point: the service URLs to export per protocol,
//! built from the configuration, and the registries to export them to.
use crate::extension::{extension_url_of, to_extension_url};
use crate::keyed::{first_pos, lemma_first_pos, lemma_first_pos_at, lemma_first_pos_none, named, put_named};
use crate::params::keys_unique;
use crate::url::{decoded, parsed_uri, url_of_text, Url, UrlView};
use vstd::prelude::*;
use vstd::string::*;

verus! {

/// How a protocol listens.
#[derive(Debug, Clone, Default)]
pub struct ProtocolConfig {
    pub name: String,
    pub ip: String,
    pub port: String,
}

impl ProtocolConfig {
    /// `name://ip:port`.
    pub fn to_url(&self) -> (r: String)
        ensures
            r@ == self.name@ + seq![':', '/', '/'] + self.ip@ + seq![':'] + self.port@,
    {
        proof {
            reveal_strlit("://");
            reveal_strlit(":");
        }
        let mut r = String::from_str(self.name.as_str());
        r.append("://");
        r.append(self.ip.as_str());
        r.append(":");
        r.append(self.port.as_str());
        r
    }
}

/// A service to export.
#[derive(Debug, Clone, Default)]
pub struct ServiceConfig {
    pub interface: String,
    pub protocol: String,
    pub serialization: Option<String>,
}

/// The services a process provides.
#[derive(Debug, Default)]
pub struct ProviderConfig {
    pub services: Vec<(String, ServiceConfig)>,
}

/// The configuration of a process.
#[derive(Debug, Default)]
pub struct RootConfig {
    pub provider: ProviderConfig,
    pub protocols: Vec<(String, ProtocolConfig)>,
}

/// The text that `{:?}` writes for a string: the string between double
/// quotes, each character escaped as `char::escape_debug` escapes it.
pub uninterp spec fn debug_quoted(s: Seq<char>) -> Seq<char>;

/// A character that `{:?}` writes as it is inside a string: an ASCII letter
/// or digit, `.`, `-` or `_`.
pub open spec fn debug_plain(c: char) -> bool {
    ('a' <= c && c <= 'z') || ('A' <= c && c <= 'Z') || ('0' <= c && c <= '9') || c == '.' || c == '-'
        || c == '_'
}

/// `format!("{:?}", s)`. The contract names the result `debug_quoted`, a
/// function of the text, and claims what the documentation of `Debug` for
/// `str` and of `char::escape_debug` shows: a text of ASCII letters,
/// digits, `.`, `-` and `_` is written unchanged between double quotes. How
/// other characters are escaped (quotes, backslashes, control and
/// unprintable characters) is left to the standard library.
#[verifier::external_body]
pub(crate) fn debug_text(s: &str) -> (r: String)
    ensures
        r@ == debug_quoted(s@),
        (forall|i: int| 0 <= i < s@.len() ==> debug_plain(#[trigger] s@[i])) ==> r@ == "\""@ + s@ + "\""@,
{
    format!("{:?}", s)
}

/// Why the configuration could not be used.
#[derive(Debug, Clone, PartialEq, Eq)]
pub enum InitError {
    /// A service names a protocol that is not configured.
    ProtocolNotFound(String),
}

impl InitError {
    /// `base <protocol> not exists`, the protocol's name written as `{:?}`
    /// writes it (between double quotes, escaped).
    pub fn to_string(&self) -> (s: String)
        ensures
            match self {
                InitError::ProtocolNotFound(p) => s@ == "base "@ + debug_quoted(p@) + " not exists"@,
            },
    {
        match self {
            InitError::ProtocolNotFound(p) => {
                let mut s = String::from_str("base ");
                let q = debug_text(p.as_str());
                s.append(q.as_str());
                s.append(" not exists");
                s
            },
        }
    }
}

pub open spec fn protocols_view(v: Seq<(String, ProtocolConfig)>) -> Seq<(Seq<char>, ProtocolConfig)> {
    v.map_values(|e: (String, ProtocolConfig)| (e.0@, e.1))
}

/// The query of a service URL: interface, category and protocol, and the
/// preferred serialization when one is configured.
pub open spec fn service_query(s: ServiceConfig) -> Seq<char> {
    let base = "interface="@ + s.interface@ + "&category=providers&protocol=tri"@;
    match s.serialization {
        Some(ser) => base + "&prefer.serialization="@ + ser@,
        None => base,
    }
}

/// The text of a service URL: `protocol://ip:port/interface?query`.
pub open spec fn service_url_text(p: ProtocolConfig, s: ServiceConfig) -> Seq<char> {
    p.name@ + seq![':', '/', '/'] + p.ip@ + seq![':'] + p.port@ + seq!['/'] + s.interface@ + seq!['?'] + service_query(s)
}

/// The URL read from a service URL text, its query read into the
/// parameters; `None` where the text is no such URL.
pub open spec fn service_url(p: ProtocolConfig, s: ServiceConfig) -> Option<UrlView> {
    match url_of_text(service_url_text(p, s)) {
        None => None,
        Some(u) => Some(UrlView { params: decoded(u.params, service_query(s)), ..u }),
    }
}

/// `m` with `u` appended to the list named `k`.
pub open spec fn append_named(m: Seq<(Seq<char>, Seq<UrlView>)>, k: Seq<char>, u: UrlView) -> Seq<(Seq<char>, Seq<UrlView>)> {
    match named(m, k) {
        Some(us) => put_named(m, k, us.push(u)),
        None => put_named(m, k, seq![u]),
    }
}

/// The service URLs by protocol after reading the services in order, or
/// the name of the first unconfigured protocol met.
pub open spec fn init_protocols(
    start: Seq<(Seq<char>, Seq<UrlView>)>,
    protocols: Seq<(Seq<char>, ProtocolConfig)>,
    services: Seq<ServiceConfig>,
) -> Result<Seq<(Seq<char>, Seq<UrlView>)>, Seq<char>>
    decreases services.len(),
{
    if services.len() == 0 {
        Ok(start)
    } else {
        match init_protocols(start, protocols, services.drop_last()) {
            Err(e) => Err(e),
            Ok(m) => {
                let s = services.last();
                match named(protocols, s.protocol@) {
                    None => Err(s.protocol@),
                    Some(p) => match service_url(p, s) {
                        None => Ok(m),
                        Some(u) => Ok(append_named(m, s.protocol@, u)),
                    },
                }
            },
        }
    }
}

pub open spec fn url_lists_view(v: Seq<(String, Vec<Url>)>) -> Seq<(Seq<char>, Seq<UrlView>)> {
    v.map_values(|e: (String, Vec<Url>)| (e.0@, e.1@.map_values(|u: Url| u@)))
}

pub open spec fn services_of(v: Seq<(String, ServiceConfig)>) -> Seq<ServiceConfig> {
    v.map_values(|e: (String, ServiceConfig)| e.1)
}

/// The framework: service URLs by protocol, registries, configuration.
#[derive(Debug, Default)]
pub struct Dubbo {
    pub protocols: Vec<(String, Vec<Url>)>,
    pub registries: Vec<Url>,
    pub service_registry: Vec<(String, Vec<Url>)>,
    pub config: Option<RootConfig>,
}

/// The position of the entry named `k`.
fn position_of<T>(v: &Vec<(String, T)>, k: &String) -> (r: Option<usize>)
    ensures
        match r {
            Some(i) => i < v@.len() && first_pos(v@.map_values(|e: (String, T)| (e.0@, ())), k@) == i && v@[i as int].0@ == k@,
            None => first_pos(v@.map_values(|e: (String, T)| (e.0@, ())), k@) == -1,
        },
{
    let ghost ks = v@.map_values(|e: (String, T)| (e.0@, ()));
    let mut i: usize = 0;
    while i < v.len()
        invariant
            ks == v@.map_values(|e: (String, T)| (e.0@, ())),
            i <= v@.len(),
            forall|j: int| 0 <= j < i ==> (#[trigger] ks[j]).0 != k@,
        decreases v@.len() - i,
    {
        assert(ks[i as int].0 == v@[i as int].0@);
        if v[i].0 == *k {
            proof {
                lemma_first_pos_at(ks, k@, i as int);
            }
            return Some(i);
        }
        i = i + 1;
    }
    proof {
        lemma_first_pos_none(ks, k@);
    }
    None
}

/// `first_pos` depends on the names only.
proof fn lemma_first_pos_names<A, B>(a: Seq<(Seq<char>, A)>, b: Seq<(Seq<char>, B)>, k: Seq<char>)
    requires
        a.len() == b.len(),
        forall|j: int| 0 <= j < a.len() ==> (#[trigger] a[j]).0 == b[j].0,
    ensures
        first_pos(a, k) == first_pos(b, k),
{
    lemma_first_pos(a, k);
    lemma_first_pos(b, k);
    let p = first_pos(a, k);
    if p >= 0 {
        assert forall|j: int| 0 <= j < p implies (#[trigger] b[j]).0 != k by {
            assert(a[j].0 == b[j].0);
        }
        lemma_first_pos_at(b, k, p);
    } else {
        assert forall|j: int| 0 <= j < b.len() implies (#[trigger] b[j]).0 != k by {
            assert(a[j].0 == b[j].0);
        }
        lemma_first_pos_none(b, k);
    }
}

/// The URL for a service under its protocol (see `service_url`).
fn build_service_url(p: &ProtocolConfig, s: &ServiceConfig) -> (r: Option<Url>)
    ensures
        match r {
            Some(u) => service_url(*p, *s) == Some(u@),
            None => service_url(*p, *s) is None,
        },
{
    proof {
        reveal_strlit("/");
        reveal_strlit("?");
        reveal_strlit("interface=");
        reveal_strlit("&category=providers&protocol=tri");
        reveal_strlit("&prefer.serialization=");
    }
    let mut query = String::from_str("interface=");
    query.append(s.interface.as_str());
    query.append("&category=providers&protocol=tri");
    match &s.serialization {
        Some(ser) => {
            query.append("&prefer.serialization=");
            query.append(ser.as_str());
        },
        None => {},
    }
    assert(query@ == service_query(*s));
    let mut text = p.to_url();
    text.append("/");
    text.append(s.interface.as_str());
    text.append("?");
    text.append(query.as_str());
    assert(text@ =~= service_url_text(*p, *s));
    match Url::try_from_url(text.as_str()) {
        None => None,
        Some(mut u) => {
            u.decode(query);
            Some(u)
        },
    }
}

impl Dubbo {
    /// A framework with no protocol, registry or configuration.
    pub fn new() -> (d: Dubbo)
        ensures
            d.protocols@.len() == 0,
            d.registries@.len() == 0,
            d.service_registry@.len() == 0,
            d.config is None,
    {
        Dubbo { protocols: Vec::new(), registries: Vec::new(), service_registry: Vec::new(), config: None }
    }

    /// The framework with `config`.
    pub fn with_config(self, config: RootConfig) -> (d: Dubbo)
        ensures
            d.config == Some(config),
            d.protocols == self.protocols,
            d.registries == self.registries,
            d.service_registry == self.service_registry,
    {
        Dubbo { config: Some(config), ..self }
    }

    /// Adds the registry at `registry`, as the extension URL that loads it.
    /// The text must be one that `http::Uri` parses, with a scheme, host
    /// and port.
    pub fn add_registry(self, registry: &str) -> (d: Dubbo)
        requires
            url_of_text(registry@) is Some,
        ensures
            d.registries@.len() == self.registries@.len() + 1,
            d.registries@.drop_last() == self.registries@,
            d.registries@.last()@ == extension_url_of(url_of_text(registry@)->0),
            d.registries@.last()@.params[1].1 == url_of_text(registry@)->0.protocol,
            d.protocols == self.protocols,
            d.service_registry == self.service_registry,
            d.config == self.config,
    {
        let url = Url::from_url(registry);
        match url {
            Some(u) => {
                let ext = to_extension_url(u);
                let mut d = self;
                let ghost before = d.registries@;
                d.registries.push(ext);
                assert(d.registries@.drop_last() =~= before);
                d
            },
            None => {
                assert(false);
                self
            },
        }
    }

    /// Adds the registry at `registry` as `add_registry` does, or gives
    /// `None` where the text is no URL with a scheme, host and port.
    pub fn try_add_registry(self, registry: &str) -> (r: Option<Dubbo>)
        ensures
            match r {
                Some(d) => url_of_text(registry@) is Some && d.registries@.len() == self.registries@.len() + 1
                    && d.registries@.drop_last() == self.registries@,
                None => url_of_text(registry@) is None,
            },
    {
        match Url::try_from_url(registry) {
            None => None,
            Some(_) => Some(self.add_registry(registry)),
        }
    }

    /// Sets the configuration to `global` when none is set, then builds the
    /// service URLs as `init` does.
    pub fn init_with_default(&mut self, global: RootConfig) -> (r: Result<(), InitError>)
        ensures
            final(self).config is Some,
            old(self).config is Some ==> final(self).config == old(self).config,
            old(self).config is None ==> final(self).config == Some(global),
            final(self).registries == old(self).registries,
            final(self).service_registry == old(self).service_registry,
            match init_protocols(
                url_lists_view(old(self).protocols@),
                protocols_view(final(self).config->0.protocols@),
                services_of(final(self).config->0.provider.services@),
            ) {
                Ok(m) => r is Ok && url_lists_view(final(self).protocols@) == m,
                Err(p) => r matches Err(InitError::ProtocolNotFound(q)) && q@ == p && exists|k: int|
                    0 <= k < final(self).config->0.provider.services@.len() && init_protocols(
                        url_lists_view(old(self).protocols@),
                        protocols_view(final(self).config->0.protocols@),
                        services_of(final(self).config->0.provider.services@).take(k),
                    ) == Ok::<_, Seq<char>>(url_lists_view(final(self).protocols@))
                        && services_of(final(self).config->0.provider.services@)[k].protocol@ == p,
            },
    {
        if self.config.is_none() {
            self.config = Some(global);
        }
        self.init()
    }

    /// Builds the service URLs of the configured services, by protocol, in
    /// the order of the services (see `init_protocols`). The configuration
    /// must be set.
    pub fn init(&mut self) -> (r: Result<(), InitError>)
        requires
            old(self).config is Some,
        ensures
            match init_protocols(
                url_lists_view(old(self).protocols@),
                protocols_view(old(self).config->0.protocols@),
                services_of(old(self).config->0.provider.services@),
            ) {
                Ok(m) => r is Ok && url_lists_view(final(self).protocols@) == m,
                Err(p) => r matches Err(InitError::ProtocolNotFound(q)) && q@ == p && exists|k: int|
                    0 <= k < old(self).config->0.provider.services@.len() && init_protocols(
                        url_lists_view(old(self).protocols@),
                        protocols_view(old(self).config->0.protocols@),
                        services_of(old(self).config->0.provider.services@).take(k),
                    ) == Ok::<_, Seq<char>>(url_lists_view(final(self).protocols@))
                        && services_of(old(self).config->0.provider.services@)[k].protocol@ == p,
            },
            final(self).config == old(self).config,
            final(self).registries == old(self).registries,
            final(self).service_registry == old(self).service_registry,
    {
        let config = self.config.take();
        let root = match config {
            Some(c) => c,
            None => {
                return Ok(());
            },
        };
        let ghost start = url_lists_view(self.protocols@);
        let ghost pv = protocols_view(root.protocols@);
        let ghost svcs = services_of(root.provider.services@);
        let n = root.provider.services.len();
        let mut i: usize = 0;
        assert(svcs.take(0) =~= Seq::<ServiceConfig>::empty());
        while i < n
            invariant
                n == root.provider.services@.len(),
                svcs == services_of(root.provider.services@),
                pv == protocols_view(root.protocols@),
                i <= n,
                init_protocols(start, pv, svcs.take(i as int)) == Ok::<_, Seq<char>>(url_lists_view(self.protocols@)),
                self.config is None,
                old(self).config == Some(root),
                start == url_lists_view(old(self).protocols@),
                self.registries == old(self).registries,
                self.service_registry == old(self).service_registry,
            decreases n - i,
        {
            let s = &root.provider.services[i].1;
            proof {
                let t = svcs.take(i + 1);
                assert(t.drop_last() =~= svcs.take(i as int));
                assert(t.last() == *s);
            }
            let pp = position_of(&root.protocols, &s.protocol);
            proof {
                let ks = root.protocols@.map_values(|e: (String, ProtocolConfig)| (e.0@, ()));
                lemma_first_pos_names(ks, pv, s.protocol@);
            }
            let p = match pp {
                None => {
                    proof {
                        lemma_init_err_extends(start, pv, svcs, i as int + 1);
                    }
                    let name = s.protocol.clone();
                    proof {
                        assert(svcs[i as int] == *s);
                    }
                    self.config = Some(root);
                    return Err(InitError::ProtocolNotFound(name));
                },
                Some(k) => &root.protocols[k].1,
            };
            match build_service_url(p, s) {
                None => {},
                Some(u) => {
                    let ghost uv = u@;
                    let ghost before = url_lists_view(self.protocols@);
                    let lp = position_of(&self.protocols, &s.protocol);
                    proof {
                        let ks = self.protocols@.map_values(|e: (String, Vec<Url>)| (e.0@, ()));
                        lemma_first_pos_names(ks, before, s.protocol@);
                        lemma_first_pos(before, s.protocol@);
                    }
                    match lp {
                        Some(k) => {
                            let mut list = Vec::new();
                            std::mem::swap(&mut list, &mut self.protocols[k].1);
                            let ghost old_list = list@;
                            assert(old_list.map_values(|x: Url| x@) == before[k as int].1);
                            list.push(u);
                            assert(list@.map_values(|x: Url| x@) =~= before[k as int].1.push(uv));
                            let name = s.protocol.clone();
                            self.protocols.set(k, (name, list));
                            proof {
                                assert(url_lists_view(self.protocols@) =~= before.update(k as int, (s.protocol@, before[k as int].1.push(uv))));
                            }
                        },
                        None => {
                            let mut list = Vec::new();
                            list.push(u);
                            assert(list@.map_values(|x: Url| x@) =~= seq![uv]);
                            let name = s.protocol.clone();
                            self.protocols.push((name, list));
                            proof {
                                assert(url_lists_view(self.protocols@) =~= before.push((s.protocol@, seq![uv])));
                            }
                        },
                    }
                },
            }
            i = i + 1;
        }
        assert(svcs.take(n as int) =~= svcs);
        self.config = Some(root);
        Ok(())
    }
}

/// Once a prefix of the services fails, the whole list fails the same way.
proof fn lemma_init_err_extends(
    start: Seq<(Seq<char>, Seq<UrlView>)>,
    protocols: Seq<(Seq<char>, ProtocolConfig)>,
    services: Seq<ServiceConfig>,
    n: int,
)
    requires
        0 <= n <= services.len(),
        init_protocols(start, protocols, services.take(n)) is Err,
    ensures
        init_protocols(start, protocols, services) == init_protocols(start, protocols, services.take(n)),
    decreases services.len() - n,
{
    if n < services.len() {
        assert(services.take(n + 1).drop_last() =~= services.take(n));
        lemma_init_err_extends(start, protocols, services, n + 1);
    } else {
        assert(services.take(n) =~= services);
    }
}

} // verus!
