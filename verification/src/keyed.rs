//! Lists of values kept by name, where the first entry of a name is the one
//! that counts.
use vstd::prelude::*;

verus! {

/// The position of the first entry named `k`, or -1.
pub open spec fn first_pos<T>(s: Seq<(Seq<char>, T)>, k: Seq<char>) -> int
    decreases s.len(),
{
    if s.len() == 0 {
        -1
    } else if s[0].0 == k {
        0
    } else {
        let p = first_pos(s.drop_first(), k);
        if p < 0 {
            -1
        } else {
            p + 1
        }
    }
}

/// The value of the first entry named `k`.
pub open spec fn named<T>(s: Seq<(Seq<char>, T)>, k: Seq<char>) -> Option<T> {
    let p = first_pos(s, k);
    if p < 0 {
        None
    } else {
        Some(s[p].1)
    }
}

/// `s` with the value of the first entry named `k` set to `v`, or with
/// `(k, v)` appended.
pub open spec fn put_named<T>(s: Seq<(Seq<char>, T)>, k: Seq<char>, v: T) -> Seq<(Seq<char>, T)> {
    let p = first_pos(s, k);
    if p < 0 {
        s.push((k, v))
    } else {
        s.update(p, (k, v))
    }
}

/// `first_pos` is the first position holding `k`, or -1 where none does.
pub proof fn lemma_first_pos<T>(s: Seq<(Seq<char>, T)>, k: Seq<char>)
    ensures
        -1 <= first_pos(s, k) < s.len(),
        first_pos(s, k) >= 0 ==> s[first_pos(s, k)].0 == k,
        forall|j: int| 0 <= j < s.len() && (first_pos(s, k) < 0 || j < first_pos(s, k)) ==> (#[trigger] s[j]).0 != k,
    decreases s.len(),
{
    if s.len() > 0 && s[0].0 != k {
        lemma_first_pos(s.drop_first(), k);
        assert forall|j: int| 0 <= j < s.len() && (first_pos(s, k) < 0 || j < first_pos(s, k)) implies (#[trigger] s[j]).0 != k by {
            if j > 0 {
                assert(s[j] == s.drop_first()[j - 1]);
            }
        }
    }
}

/// A position that holds `k` with no earlier one holding it is
/// `first_pos`.
pub proof fn lemma_first_pos_at<T>(s: Seq<(Seq<char>, T)>, k: Seq<char>, i: int)
    requires
        0 <= i < s.len(),
        s[i].0 == k,
        forall|j: int| 0 <= j < i ==> (#[trigger] s[j]).0 != k,
    ensures
        first_pos(s, k) == i,
{
    lemma_first_pos(s, k);
    let p = first_pos(s, k);
    if p < 0 || p > i {
    } else if p < i {
        assert(s[p].0 != k);
    }
}

/// No position holds `k`.
pub proof fn lemma_first_pos_none<T>(s: Seq<(Seq<char>, T)>, k: Seq<char>)
    requires
        forall|j: int| 0 <= j < s.len() ==> (#[trigger] s[j]).0 != k,
    ensures
        first_pos(s, k) == -1,
{
    lemma_first_pos(s, k);
    let p = first_pos(s, k);
    if p >= 0 {
        assert(s[p].0 != k);
    }
}

} // verus!
