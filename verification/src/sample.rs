//! The flat table of routing values that a URL offers to routing rules.
use crate::params::{has_key, insert_all, insert_entry, keys_unique, Entries, ParamMap};
use crate::text::join;
use crate::url::{Url, UrlView};
use vstd::prelude::*;
use vstd::string::*;

verus! {

pub open spec fn key_scheme() -> Seq<char> {
    seq!['s', 'c', 'h', 'e', 'm', 'e']
}

pub open spec fn key_location() -> Seq<char> {
    seq!['l', 'o', 'c', 'a', 't', 'i', 'o', 'n']
}

pub open spec fn key_ip() -> Seq<char> {
    seq!['i', 'p']
}

pub open spec fn key_port() -> Seq<char> {
    seq!['p', 'o', 'r', 't']
}

pub open spec fn key_service_name() -> Seq<char> {
    seq!['s', 'e', 'r', 'v', 'i', 'c', 'e', '_', 'n', 'a', 'm', 'e']
}

pub open spec fn key_service_key() -> Seq<char> {
    seq!['s', 'e', 'r', 'v', 'i', 'c', 'e', '_', 'k', 'e', 'y']
}

/// The service path of a URL: its service keys joined by `,`.
pub open spec fn service_path(u: UrlView) -> Seq<char> {
    join(u.service_key, seq![','])
}

/// The fixed routing values of a URL.
pub open spec fn base_sample(u: UrlView) -> Entries {
    seq![
        (key_scheme(), u.protocol),
        (key_location(), u.location),
        (key_ip(), u.ip),
        (key_port(), u.port),
        (key_service_name(), service_path(u)),
        (key_service_key(), service_path(u)),
    ]
}

/// The routing values of a URL: scheme, location, ip, port, service name
/// and service key, then its parameters, a parameter overriding a fixed
/// value of the same name.
pub open spec fn original_map(u: UrlView) -> Entries {
    insert_all(base_sample(u), u.params)
}

proof fn lemma_push_fresh(es: Entries, k: Seq<char>, v: Seq<char>)
    requires
        forall|i: int| 0 <= i < es.len() ==> (#[trigger] es[i]).0.len() != k.len(),
    ensures
        insert_entry(es, k, v) == es.push((k, v)),
{
    assert(!has_key(es, k)) by {
        if has_key(es, k) {
            let q = choose|q: int| 0 <= q < es.len() && (#[trigger] es[q]).0 == k;
            assert(es[q].0.len() != k.len());
        }
    }
}

/// `v` joined by `sep`.
pub fn join_strings(v: &Vec<String>, sep: &str) -> (r: String)
    ensures
        r@ == join(v@.map_values(|s: String| s@), sep@),
{
    let ghost xs = v@.map_values(|s: String| s@);
    let mut r = String::new();
    let mut i: usize = 0;
    assert(xs.take(0) =~= Seq::<Seq<char>>::empty());
    while i < v.len()
        invariant
            xs == v@.map_values(|s: String| s@),
            i <= v@.len(),
            r@ == join(xs.take(i as int), sep@),
        decreases v@.len() - i,
    {
        if i > 0 {
            r.append(sep);
        }
        r.append(v[i].as_str());
        proof {
            let t = xs.take(i + 1);
            assert(t.drop_last() =~= xs.take(i as int));
            assert(t.last() == v@[i as int]@);
            if i == 0 {
                assert(r@ =~= t[0]);
            }
        }
        i = i + 1;
    }
    assert(xs.take(v@.len() as int) =~= xs);
    r
}

/// The routing values of `url` (see `original_map`).
pub fn to_original_map(url: &Url) -> (m: ParamMap)
    ensures
        m@ == original_map(url@),
        keys_unique(m@),
{
    proof {
        reveal_strlit("scheme");
        reveal_strlit("location");
        reveal_strlit("ip");
        reveal_strlit("port");
        reveal_strlit("service_name");
        reveal_strlit("service_key");
        reveal_strlit(",");
        assert("service_name"@ =~= key_service_name());
        assert("service_key"@ =~= key_service_key());
        assert("scheme"@ =~= key_scheme());
        assert("location"@ =~= key_location());
        assert("ip"@ =~= key_ip());
        assert("port"@ =~= key_port());
        assert(","@ =~= seq![',']);
    }
    let path = join_strings(&url.service_key, ",");
    let ghost u = url@;
    let ghost es0 = Seq::<(Seq<char>, Seq<char>)>::empty();
    let ghost es1 = es0.push((key_scheme(), u.protocol));
    let ghost es2 = es1.push((key_location(), u.location));
    let ghost es3 = es2.push((key_ip(), u.ip));
    let ghost es4 = es3.push((key_port(), u.port));
    let ghost es5 = es4.push((key_service_name(), service_path(u)));
    let ghost es6 = es5.push((key_service_key(), service_path(u)));
    let mut m = ParamMap::new();
    m.insert(String::from_str("scheme"), url.protocol.clone());
    proof {
        lemma_push_fresh(es0, key_scheme(), u.protocol);
    }
    m.insert(String::from_str("location"), url.location.clone());
    proof {
        lemma_push_fresh(es1, key_location(), u.location);
    }
    m.insert(String::from_str("ip"), url.ip.clone());
    proof {
        lemma_push_fresh(es2, key_ip(), u.ip);
    }
    m.insert(String::from_str("port"), url.port.clone());
    proof {
        lemma_push_fresh(es3, key_port(), u.port);
    }
    m.insert(String::from_str("service_name"), path.clone());
    proof {
        lemma_push_fresh(es4, key_service_name(), service_path(u));
    }
    m.insert(String::from_str("service_key"), path);
    proof {
        lemma_push_fresh(es5, key_service_key(), service_path(u));
    }
    let ghost base = m@;
    assert(base == es6);
    assert(es6 =~= base_sample(url@));
    let n = url.params.len();
    let mut i: usize = 0;
    assert(url@.params.take(0) =~= Seq::<(Seq<char>, Seq<char>)>::empty());
    while i < n
        invariant
            n == url@.params.len(),
            i <= n,
            m@ == insert_all(base, url@.params.take(i as int)),
            keys_unique(m@),
        decreases n - i,
    {
        let k = url.params.key_at(i).clone();
        let v = url.params.value_at(i).clone();
        m.insert(k, v);
        proof {
            let t = url@.params.take(i + 1);
            assert(t.drop_last() =~= url@.params.take(i as int));
            assert(t.last() == url@.params[i as int]);
        }
        i = i + 1;
    }
    assert(url@.params.take(n as int) =~= url@.params);
    m
}

} // verus!
