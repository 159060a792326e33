//! Character-level text handling shared by the URL, rule and configuration
//! code: whitespace trimming, splitting on a separator, joining, prefix
//! stripping and substring replacement, each stated over `Seq<char>`.
use vstd::prelude::*;
use vstd::string::*;

verus! {

/// The Unicode `White_Space` property, which is what `char::is_whitespace`
/// (and therefore `str::trim`) tests.
pub open spec fn is_ws(c: char) -> bool {
    let u = c as u32;
    ||| (0x09 <= u && u <= 0x0D)
    ||| u == 0x20
    ||| u == 0x85
    ||| u == 0xA0
    ||| u == 0x1680
    ||| (0x2000 <= u && u <= 0x200A)
    ||| u == 0x2028
    ||| u == 0x2029
    ||| u == 0x202F
    ||| u == 0x205F
    ||| u == 0x3000
}

/// `s` with its leading whitespace removed.
pub open spec fn trim_start(s: Seq<char>) -> Seq<char>
    decreases s.len(),
{
    if s.len() > 0 && is_ws(s[0]) {
        trim_start(s.drop_first())
    } else {
        s
    }
}

/// `s` with its trailing whitespace removed.
pub open spec fn trim_end(s: Seq<char>) -> Seq<char>
    decreases s.len(),
{
    if s.len() > 0 && is_ws(s.last()) {
        trim_end(s.drop_last())
    } else {
        s
    }
}

/// `s` with leading and trailing whitespace removed (`str::trim`).
pub open spec fn trim(s: Seq<char>) -> Seq<char> {
    trim_end(trim_start(s))
}

/// The pieces of `s` between occurrences of `sep` (`str::split` with a
/// `char` pattern): always at least one piece, empty pieces included.
pub open spec fn split(s: Seq<char>, sep: char) -> Seq<Seq<char>>
    decreases s.len(),
{
    if s.len() == 0 {
        seq![Seq::<char>::empty()]
    } else {
        let r = split(s.drop_last(), sep);
        if s.last() == sep {
            r.push(Seq::<char>::empty())
        } else {
            r.update(r.len() - 1, r.last().push(s.last()))
        }
    }
}

/// The pieces `xs` joined with `sep` between consecutive pieces
/// (`[String]::join`).
pub open spec fn join(xs: Seq<Seq<char>>, sep: Seq<char>) -> Seq<char>
    decreases xs.len(),
{
    if xs.len() == 0 {
        Seq::<char>::empty()
    } else if xs.len() == 1 {
        xs[0]
    } else {
        join(xs.drop_last(), sep) + sep + xs.last()
    }
}

/// `s` with every leading occurrence of `c` removed (`trim_start_matches`).
pub open spec fn strip_leading(s: Seq<char>, c: char) -> Seq<char>
    decreases s.len(),
{
    if s.len() > 0 && s[0] == c {
        strip_leading(s.drop_first(), c)
    } else {
        s
    }
}

/// Whether `pat` occurs in `s` at position `i`.
pub open spec fn occurs_at(s: Seq<char>, pat: Seq<char>, i: int) -> bool {
    0 <= i && i + pat.len() <= s.len() && s.subrange(i, i + pat.len()) == pat
}

/// `s` with the non-overlapping occurrences of the non-empty `pat`, taken
/// from the left, replaced by `with` (`str::replace`).
pub open spec fn replace_all(s: Seq<char>, pat: Seq<char>, with: Seq<char>) -> Seq<char>
    decreases s.len(),
{
    if pat.len() == 0 || s.len() == 0 {
        s
    } else if occurs_at(s, pat, 0) {
        with + replace_all(s.subrange(pat.len() as int, s.len() as int), pat, with)
    } else {
        seq![s[0]] + replace_all(s.drop_first(), pat, with)
    }
}

pub proof fn lemma_split_nonempty(s: Seq<char>, sep: char)
    ensures
        split(s, sep).len() >= 1,
    decreases s.len(),
{
    if s.len() > 0 {
        lemma_split_nonempty(s.drop_last(), sep);
    }
}

/// A text with no separator in it is a single piece.
pub proof fn lemma_split_single(s: Seq<char>, sep: char)
    requires
        !s.contains(sep),
    ensures
        split(s, sep) == seq![s],
    decreases s.len(),
{
    if s.len() > 0 {
        let t = s.drop_last();
        assert(!t.contains(sep)) by {
            if t.contains(sep) {
                let k = choose|k: int| 0 <= k < t.len() && t[k] == sep;
                assert(s[k] == sep);
            }
        }
        lemma_split_single(t, sep);
        assert(s.last() != sep) by {
            assert(s[s.len() - 1] == s.last());
        }
        assert(t.push(s.last()) =~= s);
        assert(split(s, sep) =~= seq![t].update(0, t.push(s.last())));
        assert(seq![t].update(0, t.push(s.last())) =~= seq![s]);
    } else {
        assert(s =~= Seq::<char>::empty());
    }
}

/// Splitting `a`, a separator, then `b` gives the pieces of `a` followed by
/// those of `b`.
pub proof fn lemma_split_concat(a: Seq<char>, b: Seq<char>, sep: char)
    ensures
        split(a.push(sep) + b, sep) == split(a, sep) + split(b, sep),
    decreases b.len(),
{
    lemma_split_nonempty(a, sep);
    if b.len() == 0 {
        assert(a.push(sep) + b =~= a.push(sep));
        assert(a.push(sep).drop_last() =~= a);
        assert(split(a, sep).push(Seq::<char>::empty()) =~= split(a, sep) + seq![Seq::<char>::empty()]);
    } else {
        let b0 = b.drop_last();
        lemma_split_concat(a, b0, sep);
        lemma_split_nonempty(b0, sep);
        let whole = a.push(sep) + b;
        assert(whole.drop_last() =~= a.push(sep) + b0);
        assert(whole.last() == b.last());
        let ra = split(a, sep);
        let rb = split(b0, sep);
        if b.last() == sep {
            assert((ra + rb).push(Seq::<char>::empty()) =~= ra + rb.push(Seq::<char>::empty()));
        } else {
            let r = ra + rb;
            assert(r.last() == rb.last());
            assert(r.update(r.len() - 1, r.last().push(b.last())) =~= ra + rb.update(
                rb.len() - 1,
                rb.last().push(b.last()),
            ));
        }
    }
}

/// Splitting pieces joined by a separator that none of them holds gives the
/// pieces back.
pub proof fn lemma_split_join(xs: Seq<Seq<char>>, sep: char)
    requires
        xs.len() >= 1,
        forall|k: int| 0 <= k < xs.len() ==> !(#[trigger] xs[k]).contains(sep),
    ensures
        split(join(xs, seq![sep]), sep) == xs,
    decreases xs.len(),
{
    if xs.len() == 1 {
        lemma_split_single(xs[0], sep);
        assert(seq![xs[0]] =~= xs);
    } else {
        let ys = xs.drop_last();
        assert forall|k: int| 0 <= k < ys.len() implies !(#[trigger] ys[k]).contains(sep) by {
            assert(ys[k] == xs[k]);
        }
        lemma_split_join(ys, sep);
        let x = xs.last();
        assert(!x.contains(sep)) by {
            assert(xs[xs.len() - 1] == x);
        }
        lemma_split_single(x, sep);
        assert(join(ys, seq![sep]) + seq![sep] + x =~= join(ys, seq![sep]).push(sep) + x);
        lemma_split_concat(join(ys, seq![sep]), x, sep);
        assert(ys + seq![x] =~= xs);
    }
}

/// A text whose ends are not whitespace is its own trim.
pub proof fn lemma_trim_id(s: Seq<char>)
    requires
        s.len() > 0 ==> !is_ws(s[0]) && !is_ws(s.last()),
    ensures
        trim(s) == s,
{
}

/// The characters of `s`, in order.
pub fn chars_of(s: &str) -> (v: Vec<char>)
    ensures
        v@ == s@,
{
    let n = s.unicode_len();
    let mut v: Vec<char> = Vec::new();
    let mut i: usize = 0;
    while i < n
        invariant
            n == s@.len(),
            i <= n,
            v@ == s@.subrange(0, i as int),
        decreases n - i,
    {
        let c = s.get_char(i);
        v.push(c);
        i = i + 1;
        assert(v@ =~= s@.subrange(0, i as int));
    }
    assert(v@ =~= s@);
    v
}

/// The characters of `s` between `from` and `to`, as an owned string.
pub fn substring(s: &str, from: usize, to: usize) -> (r: String)
    requires
        from <= to <= s@.len(),
    ensures
        r@ == s@.subrange(from as int, to as int),
{
    String::from_str(s.substring_char(from, to))
}

/// Whether `c` is whitespace (`char::is_whitespace`).
pub fn is_whitespace(c: char) -> (b: bool)
    ensures
        b == is_ws(c),
{
    let u = c as u32;
    (0x09 <= u && u <= 0x0D) || u == 0x20 || u == 0x85 || u == 0xA0 || u == 0x1680 || (0x2000
        <= u && u <= 0x200A) || u == 0x2028 || u == 0x2029 || u == 0x202F || u == 0x205F || u
        == 0x3000
}

/// The bounds of `v` without its leading and trailing whitespace.
pub fn trim_bounds(v: &Vec<char>) -> (r: (usize, usize))
    ensures
        r.0 <= r.1 <= v@.len(),
        trim(v@) == v@.subrange(r.0 as int, r.1 as int),
{
    let n = v.len();
    let mut i: usize = 0;
    assert(v@.subrange(0, n as int) =~= v@);
    while i < n && is_whitespace(v[i])
        invariant
            n == v@.len(),
            i <= n,
            trim_start(v@) == trim_start(v@.subrange(i as int, n as int)),
        decreases n - i,
    {
        assert(v@.subrange(i as int, n as int).drop_first() =~= v@.subrange(i + 1, n as int));
        i = i + 1;
    }
    assert(trim_start(v@) == v@.subrange(i as int, n as int));
    let mut j: usize = n;
    while j > i && is_whitespace(v[j - 1])
        invariant
            n == v@.len(),
            i <= j <= n,
            trim(v@) == trim_end(v@.subrange(i as int, j as int)),
        decreases j,
    {
        assert(v@.subrange(i as int, j as int).drop_last() =~= v@.subrange(i as int, j - 1));
        j = j - 1;
    }
    (i, j)
}

/// `s` without leading and trailing whitespace (`str::trim`).
pub fn trim_str(s: &str) -> (r: String)
    ensures
        r@ == trim(s@),
{
    let v = chars_of(s);
    let (a, b) = trim_bounds(&v);
    substring(s, a, b)
}

/// The pieces of `s` between occurrences of `sep` (`str::split`).
pub fn split_str(s: &str, sep: char) -> (r: Vec<String>)
    ensures
        r@.len() == split(s@, sep).len(),
        forall|k: int| 0 <= k < r@.len() ==> (#[trigger] r@[k])@ == split(s@, sep)[k],
{
    let v = chars_of(s);
    let n = v.len();
    let mut pieces: Vec<String> = Vec::new();
    let mut last: usize = 0;
    let mut i: usize = 0;
    while i < n
        invariant
            n == v@.len(),
            v@ == s@,
            last <= i <= n,
            split(s@.subrange(0, i as int), sep).len() == pieces@.len() + 1,
            forall|k: int|
                0 <= k < pieces@.len() ==> (#[trigger] pieces@[k])@ == split(
                    s@.subrange(0, i as int),
                    sep,
                )[k],
            split(s@.subrange(0, i as int), sep).last() == s@.subrange(last as int, i as int),
        decreases n - i,
    {
        let ghost before = s@.subrange(0, i as int);
        assert(s@.subrange(0, i + 1).drop_last() =~= before);
        assert(s@.subrange(0, i + 1).last() == v@[i as int]);
        if v[i] == sep {
            let piece = substring(s, last, i);
            pieces.push(piece);
            last = i + 1;
            assert(s@.subrange(last as int, i + 1) =~= Seq::<char>::empty());
        } else {
            assert(s@.subrange(last as int, i as int).push(v@[i as int]) =~= s@.subrange(
                last as int,
                i + 1,
            ));
        }
        i = i + 1;
    }
    assert(s@.subrange(0, n as int) =~= s@);
    let tail = substring(s, last, n);
    pieces.push(tail);
    proof {
        lemma_split_nonempty(s@, sep);
    }
    pieces
}

/// Whether `pat` occurs in `v` at position `i`.
pub fn starts_at(v: &Vec<char>, pat: &Vec<char>, i: usize) -> (b: bool)
    requires
        i <= v@.len(),
    ensures
        b == occurs_at(v@, pat@, i as int),
{
    if pat.len() > v.len() - i {
        return false;
    }
    let mut k: usize = 0;
    while k < pat.len()
        invariant
            i + pat@.len() <= v@.len(),
            i <= v@.len(),
            v@.len() == v.len(),
            k <= pat@.len(),
            forall|j: int| 0 <= j < k ==> v@[i + j] == pat@[j],
        decreases pat@.len() - k,
    {
        assert(i + k < v@.len());
        if v[i + k] != pat[k] {
            assert(v@.subrange(i as int, i + pat@.len())[k as int] != pat@[k as int]);
            return false;
        }
        k = k + 1;
    }
    assert(v@.subrange(i as int, i + pat@.len()) =~= pat@);
    true
}

/// `s` with the occurrences of the non-empty `pat`, taken from the left,
/// replaced by `with` (`str::replace`).
pub fn replace_str(s: &str, pat: &str, with: &str) -> (r: String)
    requires
        pat@.len() > 0,
    ensures
        r@ == replace_all(s@, pat@, with@),
{
    let v = chars_of(s);
    let p = chars_of(pat);
    let n = v.len();
    let mut r = String::new();
    let mut last: usize = 0;
    let mut i: usize = 0;
    assert(s@.subrange(0, n as int) =~= s@);
    assert(r@ + s@.subrange(0, 0) =~= Seq::<char>::empty());
    while i < n
        invariant
            v@ == s@,
            p@ == pat@,
            p@.len() > 0,
            n == s@.len(),
            last <= i <= n,
            r@ + s@.subrange(last as int, i as int) + replace_all(
                s@.subrange(i as int, n as int),
                pat@,
                with@,
            ) == replace_all(s@, pat@, with@),
        decreases n - i,
    {
        let ghost rest = s@.subrange(i as int, n as int);
        assert(rest[0] == v@[i as int]);
        let hit = starts_at(&v, &p, i);
        proof {
            if hit {
                assert(rest.subrange(0, pat@.len() as int) =~= v@.subrange(
                    i as int,
                    i + pat@.len(),
                ));
            } else {
                if occurs_at(rest, pat@, 0) {
                    assert(rest.subrange(0, pat@.len() as int) =~= v@.subrange(
                        i as int,
                        i + pat@.len(),
                    ));
                }
            }
        }
        if hit {
            let piece = s.substring_char(last, i);
            r.append(piece);
            r.append(with);
            i = i + p.len();
            last = i;
            assert(rest.subrange(pat@.len() as int, rest.len() as int) =~= s@.subrange(
                i as int,
                n as int,
            ));
            assert(s@.subrange(last as int, i as int) =~= Seq::<char>::empty());
        } else {
            assert(rest.drop_first() =~= s@.subrange(i + 1, n as int));
            assert(s@.subrange(last as int, i as int) + seq![rest[0]] =~= s@.subrange(
                last as int,
                i + 1,
            ));
            i = i + 1;
        }
    }
    let piece = s.substring_char(last, n);
    r.append(piece);
    assert(replace_all(s@.subrange(n as int, n as int), pat@, with@) =~= Seq::<char>::empty());
    r
}

/// No occurrence of `pat` in `x + y` starts in `x` and ends in `y`.
pub open spec fn no_cross(x: Seq<char>, y: Seq<char>, pat: Seq<char>) -> bool {
    forall|i: int| 0 <= i < x.len() && x.len() < i + pat.len() ==> !occurs_at(x + y, pat, i)
}

/// Replacing in two pieces that no occurrence straddles is replacing in
/// each piece.
pub proof fn lemma_replace_all_concat(x: Seq<char>, y: Seq<char>, pat: Seq<char>, with: Seq<char>)
    requires
        pat.len() > 0,
        no_cross(x, y, pat),
    ensures
        replace_all(x + y, pat, with) == replace_all(x, pat, with) + replace_all(y, pat, with),
    decreases x.len(),
{
    let s = x + y;
    let p = pat.len() as int;
    if x.len() == 0 {
        assert(s =~= y);
        assert(replace_all(x, pat, with) =~= Seq::<char>::empty());
        assert(Seq::<char>::empty() + replace_all(y, pat, with) =~= replace_all(y, pat, with));
    } else if occurs_at(s, pat, 0) {
        if x.len() < p {
            assert(!occurs_at(s, pat, 0));
        }
        assert(s.subrange(0, p) =~= x.subrange(0, p));
        assert(occurs_at(x, pat, 0));
        let x2 = x.subrange(p, x.len() as int);
        assert(s.subrange(p, s.len() as int) =~= x2 + y);
        assert forall|i: int| 0 <= i < x2.len() && x2.len() < i + p implies !occurs_at(x2 + y, pat, i) by {
            assert(!occurs_at(s, pat, i + p));
            if i + p <= (x2 + y).len() {
                assert((x2 + y).subrange(i, i + p) =~= s.subrange(i + p, i + 2 * p));
            }
        }
        lemma_replace_all_concat(x2, y, pat, with);
        assert(with + (replace_all(x2, pat, with) + replace_all(y, pat, with)) =~= (with + replace_all(
            x2,
            pat,
            with,
        )) + replace_all(y, pat, with));
    } else {
        if occurs_at(x, pat, 0) {
            assert(s.subrange(0, p) =~= x.subrange(0, p));
        }
        let x2 = x.drop_first();
        assert(s.drop_first() =~= x2 + y);
        assert(s[0] == x[0]);
        assert forall|i: int| 0 <= i < x2.len() && x2.len() < i + p implies !occurs_at(x2 + y, pat, i) by {
            assert(!occurs_at(s, pat, i + 1));
            if i + p <= (x2 + y).len() {
                assert((x2 + y).subrange(i, i + p) =~= s.subrange(i + 1, i + 1 + p));
            }
        }
        lemma_replace_all_concat(x2, y, pat, with);
        assert(seq![x[0]] + (replace_all(x2, pat, with) + replace_all(y, pat, with)) =~= (seq![x[0]]
            + replace_all(x2, pat, with)) + replace_all(y, pat, with));
    }
}

/// A text with no occurrence of `pat` is left as it is.
pub proof fn lemma_replace_all_absent(s: Seq<char>, pat: Seq<char>, with: Seq<char>)
    requires
        forall|i: int| !occurs_at(s, pat, i),
    ensures
        replace_all(s, pat, with) == s,
    decreases s.len(),
{
    if pat.len() > 0 && s.len() > 0 {
        let t = s.drop_first();
        assert forall|i: int| !occurs_at(t, pat, i) by {
            assert(!occurs_at(s, pat, i + 1));
            if 0 <= i && i + pat.len() <= t.len() {
                assert(t.subrange(i, i + pat.len()) =~= s.subrange(i + 1, i + 1 + pat.len()));
            }
        }
        lemma_replace_all_absent(t, pat, with);
        assert(seq![s[0]] + t =~= s);
    }
}

/// A text with a non-whitespace character does not trim to nothing.
pub proof fn lemma_trim_keeps_nonspace(s: Seq<char>, k: int)
    requires
        0 <= k < s.len(),
        !is_ws(s[k]),
    ensures
        trim(s).len() > 0,
{
    lemma_trim_start_keeps(s, k);
    let t = trim_start(s);
    lemma_trim_end_keeps(t, t.len() - (s.len() - k));
}

proof fn lemma_trim_start_keeps(s: Seq<char>, k: int)
    requires
        0 <= k < s.len(),
        !is_ws(s[k]),
    ensures
        trim_start(s).len() >= s.len() - k,
        trim_start(s)[trim_start(s).len() - (s.len() - k)] == s[k],
    decreases s.len(),
{
    if s.len() > 0 && is_ws(s[0]) {
        lemma_trim_start_keeps(s.drop_first(), k - 1);
    }
}

proof fn lemma_trim_end_keeps(t: Seq<char>, k: int)
    requires
        0 <= k < t.len(),
        !is_ws(t[k]),
    ensures
        trim_end(t).len() > k,
    decreases t.len(),
{
    if t.len() > 0 && is_ws(t.last()) {
        lemma_trim_end_keeps(t.drop_last(), k);
    }
}

} // verus!
