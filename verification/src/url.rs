//! Service URLs: `protocol://ip:port/service,keys` with a parameter table
//! that is written as and read back from `k=v&k=v` text.
use crate::params::{insert_entry, keys_unique, lookup, Entries, ParamMap};
use crate::params::has_key;
use crate::text::{
    chars_of, is_ws, join, lemma_split_concat, lemma_split_join, lemma_split_single, lemma_trim_id,
    split, split_str, strip_leading, substring, trim, trim_str,
};
use vstd::prelude::*;
use vstd::string::*;

verus! {

/// What `http::Uri` reads from a text: its display form, scheme, authority
/// (display form, host and port) and path; `None` where the text is no URI.
pub uninterp spec fn parsed_uri(text: Seq<char>) -> Option<
    (Seq<char>, Option<Seq<char>>, Option<(Seq<char>, Seq<char>, Option<Seq<char>>)>, Seq<char>),
>;

/// The authority of a parsed URI, as plain strings.
pub struct AuthorityParts {
    pub text: String,
    pub host: String,
    pub port: Option<String>,
}

/// A parsed URI, as plain strings.
pub struct UriParts {
    pub text: String,
    pub scheme: Option<String>,
    pub authority: Option<AuthorityParts>,
    pub path: String,
}

pub open spec fn opt_view(o: Option<String>) -> Option<Seq<char>> {
    match o {
        Some(s) => Some(s@),
        None => None,
    }
}

pub open spec fn uri_parts_view(r: Option<UriParts>) -> Option<
    (Seq<char>, Option<Seq<char>>, Option<(Seq<char>, Seq<char>, Option<Seq<char>>)>, Seq<char>),
> {
    match r {
        None => None,
        Some(p) => Some(
            (
                p.text@,
                opt_view(p.scheme),
                match p.authority {
                    None => None,
                    Some(a) => Some((a.text@, a.host@, opt_view(a.port))),
                },
                p.path@,
            ),
        ),
    }
}

/// Parses `text` as an `http::Uri` and reads back, as strings, its
/// `to_string()`, `scheme_str()`, `authority()` (its `to_string()`,
/// `host()` and `port()`) and `path()`. The contract claims only that the
/// result is a function of the text, named `parsed_uri`; what the parser
/// accepts is left to the `http` crate.
#[verifier::external_body]
pub(crate) fn parse_uri(text: &str) -> (r: Option<UriParts>)
    ensures
        uri_parts_view(r) == parsed_uri(text@),
{
    match text.parse::<http::Uri>() {
        Ok(u) => Some(UriParts {
            text: u.to_string(),
            scheme: u.scheme_str().map(|s| s.to_string()),
            authority: u.authority().map(|a| AuthorityParts {
                text: a.to_string(),
                host: a.host().to_string(),
                port: a.port().map(|p| p.to_string()),
            }),
            path: u.path().to_string(),
        }),
        Err(_) => None,
    }
}

/// The abstract value of a [`Url`].
pub ghost struct UrlView {
    pub uri: Seq<char>,
    pub protocol: Seq<char>,
    pub location: Seq<char>,
    pub ip: Seq<char>,
    pub port: Seq<char>,
    pub service_key: Seq<Seq<char>>,
    pub params: Entries,
}

pub open spec fn strings_view(v: Seq<String>) -> Seq<Seq<char>> {
    v.map_values(|s: String| s@)
}

/// The URL that `Url::from_url` builds from a text that `http::Uri` parses:
/// `None` when the scheme, the authority or the port is missing.
pub open spec fn url_of_text(text: Seq<char>) -> Option<UrlView> {
    match parsed_uri(text) {
        None => None,
        Some(p) => match p.1 {
            None => None,
            Some(scheme) => match p.2 {
                None => None,
                Some(a) => match a.2 {
                    None => None,
                    Some(port) => Some(
                        UrlView {
                            uri: p.0,
                            protocol: scheme,
                            location: a.0,
                            ip: a.1,
                            port: port,
                            service_key: split(strip_leading(p.3, '/'), ','),
                            params: Seq::<(Seq<char>, Seq<char>)>::empty(),
                        },
                    ),
                },
            },
        },
    }
}

/// `key=value`.
pub open spec fn param_text(e: (Seq<char>, Seq<char>)) -> Seq<char> {
    e.0 + seq!['='] + e.1
}

/// The parameter table written as `k=v&k=v`, entries in order.
pub open spec fn encoded(es: Entries) -> Seq<char> {
    join(es.map_values(|e: (Seq<char>, Seq<char>)| param_text(e)), seq!['&'])
}

/// One `&`-separated piece read into the table: trimmed, split on `=`, and
/// inserted (both sides trimmed) when it has exactly two sides.
pub open spec fn decode_piece(es: Entries, piece: Seq<char>) -> Entries {
    let vs = split(trim(piece), '=');
    if vs.len() == 2 {
        insert_entry(es, trim(vs[0]), trim(vs[1]))
    } else {
        es
    }
}

pub open spec fn decode_pieces(es: Entries, pieces: Seq<Seq<char>>) -> Entries
    decreases pieces.len(),
{
    if pieces.len() == 0 {
        es
    } else {
        decode_piece(decode_pieces(es, pieces.drop_last()), pieces.last())
    }
}

/// The table after reading `text` into `es`.
pub open spec fn decoded(es: Entries, text: Seq<char>) -> Entries {
    decode_pieces(es, split(text, '&'))
}

/// A key or value that survives being written out and read back: no `&`,
/// no `=`, no whitespace at either end.
pub open spec fn plain_param(s: Seq<char>) -> bool {
    &&& !s.contains('&')
    &&& !s.contains('=')
    &&& s.len() > 0 ==> !is_ws(s[0]) && !is_ws(s.last())
}

/// One written pair read back gives the pair.
proof fn lemma_decode_one(es: Entries, e: (Seq<char>, Seq<char>))
    requires
        plain_param(e.0),
        plain_param(e.1),
    ensures
        decode_piece(es, param_text(e)) == insert_entry(es, e.0, e.1),
{
    let t = param_text(e);
    assert(t =~= e.0.push('=') + e.1);
    assert(t.len() > 0);
    assert(!is_ws(t[0])) by {
        if e.0.len() > 0 {
            assert(t[0] == e.0[0]);
        } else {
            assert(t[0] == '=');
        }
    }
    assert(!is_ws(t.last())) by {
        if e.1.len() > 0 {
            assert(t.last() == e.1.last());
        } else {
            assert(t.last() == '=');
        }
    }
    lemma_trim_id(t);
    lemma_split_concat(e.0, e.1, '=');
    lemma_split_single(e.0, '=');
    lemma_split_single(e.1, '=');
    let vs = split(t, '=');
    assert(vs =~= seq![e.0, e.1]);
    lemma_trim_id(e.0);
    lemma_trim_id(e.1);
}

/// Reading the first `n` written pairs gives the first `n` entries.
proof fn lemma_decode_prefix(es: Entries, pairs: Seq<Seq<char>>, n: int)
    requires
        0 <= n <= es.len(),
        pairs.len() == es.len(),
        keys_unique(es),
        forall|i: int| 0 <= i < es.len() ==> plain_param((#[trigger] es[i]).0) && plain_param(es[i].1),
        forall|i: int| 0 <= i < es.len() ==> #[trigger] pairs[i] == param_text(es[i]),
    ensures
        decode_pieces(Seq::<(Seq<char>, Seq<char>)>::empty(), pairs.take(n)) == es.take(n),
    decreases n,
{
    let empty = Seq::<(Seq<char>, Seq<char>)>::empty();
    if n == 0 {
        assert(pairs.take(0) =~= Seq::<Seq<char>>::empty());
        assert(es.take(0) =~= empty);
    } else {
        let m = n - 1;
        lemma_decode_prefix(es, pairs, m);
        let t = pairs.take(n);
        assert(t.drop_last() =~= pairs.take(m));
        assert(t.last() == param_text(es[m]));
        lemma_decode_one(es.take(m), es[m]);
        assert(!has_key(es.take(m), es[m].0)) by {
            if has_key(es.take(m), es[m].0) {
                let q = choose|q: int| 0 <= q < es.take(m).len() && (#[trigger] es.take(m)[q]).0 == es[m].0;
                assert(es[q].0 != es[m].0);
            }
        }
        assert(es.take(m).push(es[m]) =~= es.take(n));
    }
}

/// Writing a parameter table out and reading the text into an empty table
/// gives the same table back, entries in the same order, when the keys are
/// unique and no key or value holds `&` or `=` or has whitespace at either
/// end.
pub proof fn law_decode_inverts_encode(es: Entries)
    requires
        keys_unique(es),
        forall|i: int| 0 <= i < es.len() ==> plain_param((#[trigger] es[i]).0) && plain_param(es[i].1),
    ensures
        decoded(Seq::<(Seq<char>, Seq<char>)>::empty(), encoded(es)) == es,
{
    let empty = Seq::<(Seq<char>, Seq<char>)>::empty();
    let pairs = es.map_values(|e: (Seq<char>, Seq<char>)| param_text(e));
    if es.len() == 0 {
        assert(pairs.len() == 0);
        let ps = split(Seq::<char>::empty(), '&');
        assert(ps =~= seq![Seq::<char>::empty()]);
        assert(ps.drop_last() =~= Seq::<Seq<char>>::empty());
        lemma_split_single(Seq::<char>::empty(), '=');
        assert(trim(Seq::<char>::empty()) =~= Seq::<char>::empty());
        assert(encoded(es) =~= Seq::<char>::empty());
        assert(decode_pieces(empty, ps.drop_last()) == empty);
        assert(split(trim(Seq::<char>::empty()), '=').len() == 1);
        assert(decode_piece(empty, Seq::<char>::empty()) == empty);
        assert(decoded(empty, encoded(es)) =~= es);
    } else {
        assert forall|k: int| 0 <= k < pairs.len() implies !(#[trigger] pairs[k]).contains('&') by {
            let e = es[k];
            assert(pairs[k] == param_text(e));
            if pairs[k].contains('&') {
                let m = choose|m: int| 0 <= m < pairs[k].len() && pairs[k][m] == '&';
                if m < e.0.len() {
                    assert(e.0[m] == '&');
                } else if m > e.0.len() {
                    assert(e.1[m - e.0.len() - 1] == '&');
                }
            }
        }
        lemma_split_join(pairs, '&');
        assert forall|i: int| 0 <= i < es.len() implies #[trigger] pairs[i] == param_text(es[i]) by {}
        let n = es.len() as int;
        lemma_decode_prefix(es, pairs, n);
        assert(pairs.take(n) =~= pairs);
        assert(es.take(n) =~= es);
    }
}

/// A service URL.
#[derive(Debug, Default, Clone, PartialEq, Eq)]
pub struct Url {
    pub uri: String,
    pub protocol: String,
    pub location: String,
    pub ip: String,
    pub port: String,
    pub service_key: Vec<String>,
    pub params: ParamMap,
}

impl View for Url {
    type V = UrlView;

    open spec fn view(&self) -> UrlView {
        UrlView {
            uri: self.uri@,
            protocol: self.protocol@,
            location: self.location@,
            ip: self.ip@,
            port: self.port@,
            service_key: strings_view(self.service_key@),
            params: self.params@,
        }
    }
}

/// A copy of each string of `v`.
pub fn copy_strings(v: &Vec<String>) -> (r: Vec<String>)
    ensures
        r@ == v@,
{
    let mut r: Vec<String> = Vec::new();
    let mut i: usize = 0;
    while i < v.len()
        invariant
            i <= v@.len(),
            r@ == v@.subrange(0, i as int),
        decreases v@.len() - i,
    {
        r.push(v[i].clone());
        i = i + 1;
        assert(r@ =~= v@.subrange(0, i as int));
    }
    assert(r@ =~= v@);
    r
}

/// The text after its leading `c`s (`str::trim_start_matches`).
pub fn strip_leading_str(s: &str, c: char) -> (r: String)
    ensures
        r@ == strip_leading(s@, c),
{
    let v = chars_of(s);
    let n = v.len();
    let mut i: usize = 0;
    assert(s@.subrange(0, n as int) =~= s@);
    while i < n && v[i] == c
        invariant
            n == s@.len(),
            v@ == s@,
            i <= n,
            strip_leading(s@, c) == strip_leading(s@.subrange(i as int, n as int), c),
        decreases n - i,
    {
        assert(s@.subrange(i as int, n as int).drop_first() =~= s@.subrange(i + 1, n as int));
        i = i + 1;
    }
    substring(s, i, n)
}

/// Two strings joined.
pub fn concat2(a: &str, b: &str) -> (r: String)
    ensures
        r@ == a@ + b@,
{
    let mut r = String::from_str(a);
    r.append(b);
    r
}

impl Url {
    /// An empty URL.
    pub fn new() -> (u: Url)
        ensures
            u@.uri.len() == 0,
            u@.protocol.len() == 0,
            u@.location.len() == 0,
            u@.ip.len() == 0,
            u@.port.len() == 0,
            u@.service_key.len() == 0,
            u@.params.len() == 0,
            keys_unique(u@.params),
    {
        let u = Url {
            uri: String::new(),
            protocol: String::new(),
            location: String::new(),
            ip: String::new(),
            port: String::new(),
            service_key: Vec::new(),
            params: ParamMap::new(),
        };
        assert(u@.service_key =~= Seq::<Seq<char>>::empty());
        u
    }

    /// A copy of the URL.
    pub fn copy(&self) -> (u: Url)
        ensures
            u@ == self@,
    {
        Url {
            uri: self.uri.clone(),
            protocol: self.protocol.clone(),
            location: self.location.clone(),
            ip: self.ip.clone(),
            port: self.port.clone(),
            service_key: copy_strings(&self.service_key),
            params: self.params.copy(),
        }
    }

    /// Reads a URL such as `triple://127.0.0.1:8888/helloworld.Greeter`:
    /// `None` when it has no scheme, no authority or no port. The service
    /// keys are the path without its leading `/`s, split on `,`; the
    /// parameter table is empty. The text must be one that `http::Uri`
    /// parses.
    pub fn from_url(url: &str) -> (r: Option<Url>)
        requires
            parsed_uri(url@) is Some,
        ensures
            match r {
                Some(u) => url_of_text(url@) == Some(u@) && keys_unique(u@.params),
                None => url_of_text(url@) is None,
            },
    {
        let parts = parse_uri(url);
        match parts {
            None => None,
            Some(p) => {
                let protocol = match p.scheme {
                    Some(s) => s,
                    None => {
                        return None;
                    },
                };
                let a = match p.authority {
                    Some(a) => a,
                    None => {
                        return None;
                    },
                };
                let port = match a.port {
                    Some(port) => port,
                    None => {
                        return None;
                    },
                };
                let path = strip_leading_str(p.path.as_str(), '/');
                let service_key = split_str(path.as_str(), ',');
                let params = ParamMap::new();
                let u = Url {
                    uri: p.text,
                    protocol,
                    location: a.text,
                    ip: a.host,
                    port,
                    service_key,
                    params,
                };
                assert(u@.service_key =~= split(strip_leading(p.path@, '/'), ','));
                Some(u)
            },
        }
    }

    /// Reads a URL as `from_url` does, and gives `None` as well where
    /// `http::Uri` does not parse the text.
    pub fn try_from_url(url: &str) -> (r: Option<Url>)
        ensures
            match r {
                Some(u) => url_of_text(url@) == Some(u@) && keys_unique(u@.params),
                None => url_of_text(url@) is None,
            },
    {
        let parts = parse_uri(url);
        if parts.is_none() {
            return None;
        }
        Url::from_url(url)
    }

    /// The service keys.
    pub fn get_service_name(&self) -> (r: Vec<String>)
        ensures
            strings_view(r@) == self@.service_key,
    {
        copy_strings(&self.service_key)
    }

    /// The parameter stored under `key`.
    pub fn get_param(&self, key: String) -> (r: Option<String>)
        ensures
            opt_view(r) == lookup(self@.params, key@),
    {
        self.params.get(key.as_str())
    }

    /// The parameter table written as `k=v` pairs joined by `&`, in table
    /// order.
    pub fn encode_param(&self) -> (r: String)
        ensures
            r@ == encoded(self@.params),
    {
        let ghost pairs = self@.params.map_values(|e: (Seq<char>, Seq<char>)| param_text(e));
        let n = self.params.len();
        let mut r = String::new();
        let mut i: usize = 0;
        proof {
            reveal_strlit("&");
            reveal_strlit("=");
            assert(pairs.take(0) =~= Seq::<Seq<char>>::empty());
        }
        while i < n
            invariant
                n == self@.params.len(),
                pairs == self@.params.map_values(|e: (Seq<char>, Seq<char>)| param_text(e)),
                i <= n,
                r@ == join(pairs.take(i as int), seq!['&']),
                "&"@ == seq!['&'],
                "="@ == seq!['='],
            decreases n - i,
        {
            let ghost before = r@;
            if i > 0 {
                r.append("&");
            }
            r.append(self.params.key_at(i).as_str());
            r.append("=");
            r.append(self.params.value_at(i).as_str());
            proof {
                let t = pairs.take(i + 1);
                assert(t.drop_last() =~= pairs.take(i as int));
                assert(t.last() == param_text(self@.params[i as int]));
                if i == 0 {
                    assert(r@ =~= t[0]);
                } else {
                    assert(r@ =~= join(t.drop_last(), seq!['&']) + seq!['&'] + t.last());
                }
            }
            i = i + 1;
        }
        assert(pairs.take(n as int) =~= pairs);
        r
    }

    /// Reads `k=v` pairs separated by `&` into the parameter table: each
    /// piece is trimmed and split on `=`; a piece with exactly two sides is
    /// stored (both sides trimmed), any other is skipped.
    pub fn decode(&mut self, params: String)
        ensures
            final(self)@ == (UrlView { params: decoded(old(self)@.params, params@), ..old(self)@ }),
            keys_unique(final(self)@.params),
    {
        let pieces = split_str(params.as_str(), '&');
        let ghost ps = split(params@, '&');
        let n = pieces.len();
        let mut j: usize = 0;
        let ghost start = self@;
        proof {
            assert(ps.take(0) =~= Seq::<Seq<char>>::empty());
        }
        let _ = self.params.len();
        while j < n
            invariant
                n == ps.len(),
                n == pieces@.len(),
                forall|k: int| 0 <= k < n ==> (#[trigger] pieces@[k])@ == ps[k],
                j <= n,
                self@ == (UrlView { params: decode_pieces(start.params, ps.take(j as int)), ..start }),
                keys_unique(self@.params),
            decreases n - j,
        {
            let piece = trim_str(pieces[j].as_str());
            let sides = split_str(piece.as_str(), '=');
            if sides.len() == 2 {
                let k = trim_str(sides[0].as_str());
                let v = trim_str(sides[1].as_str());
                self.params.insert(k, v);
            }
            proof {
                let t = ps.take(j + 1);
                assert(t.drop_last() =~= ps.take(j as int));
                assert(t.last() == ps[j as int]);
            }
            j = j + 1;
        }
        assert(ps.take(n as int) =~= ps);
    }

    /// `protocol://ip:port`.
    pub fn to_url(&self) -> (r: String)
        ensures
            r@ == self@.protocol + seq![':', '/', '/'] + self@.ip + seq![':'] + self@.port,
    {
        proof {
            reveal_strlit("://");
            reveal_strlit(":");
        }
        let mut r = String::from_str(self.protocol.as_str());
        r.append("://");
        r.append(self.ip.as_str());
        r.append(":");
        r.append(self.port.as_str());
        r
    }
}

} // verus!
