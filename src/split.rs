//! Splitting an amount into parts at given cut points.
use vstd::prelude::*;

verus! {

pub open spec fn sum_u64(s: Seq<u64>) -> int
    decreases s.len(),
{
    if s.len() == 0 {
        0
    } else {
        sum_u64(s.drop_last()) + s.last()
    }
}

pub open spec fn sorted(s: Seq<u64>) -> bool {
    forall|i: int, j: int| 0 <= i < j < s.len() ==> s[i] <= s[j]
}

/// Sorts `v` in increasing order; its elements stay the same, so every one
/// stays within `bound`.
pub fn sort_bounded(v: &mut Vec<u64>, bound: u64)
    requires
        forall|i: int| 0 <= i < old(v)@.len() ==> old(v)@[i] <= bound,
    ensures
        final(v)@.len() == old(v)@.len(),
        final(v)@.to_multiset() == old(v)@.to_multiset(),
        sorted(final(v)@),
        forall|i: int| 0 <= i < final(v)@.len() ==> final(v)@[i] <= bound,
{
    broadcast use vstd::seq_lib::to_multiset_update, vstd::multiset::group_multiset_properties;
    let n = v.len();
    let mut i: usize = 0;
    while i < n
        invariant
            0 <= i <= n,
            n == v@.len(),
            v@.to_multiset() == old(v)@.to_multiset(),
            forall|k: int| 0 <= k < n ==> v@[k] <= bound,
            forall|a: int, b: int| 0 <= a < b < i ==> v@[a] <= v@[b],
            forall|a: int, b: int| 0 <= a < i <= b < n ==> v@[a] <= v@[b],
        decreases n - i,
    {
        let mut m: usize = i;
        let mut j: usize = i + 1;
        while j < n
            invariant
                i <= m < n,
                i < j <= n,
                n == v@.len(),
                forall|k: int| i <= k < j ==> v@[m as int] <= v@[k],
            decreases n - j,
        {
            if v[j] < v[m] {
                m = j;
            }
            j += 1;
        }
        let x = v[i];
        let y = v[m];
        let ghost v0 = v@;
        v.set(i, y);
        let ghost v1 = v@;
        v.set(m, x);
        proof {
            assert(v0.to_multiset().count(x) > 0) by {
                vstd::seq_lib::to_multiset_contains(v0, x);
                assert(v0[i as int] == x);
            }
            assert(v1[m as int] == y);
            assert(v1 == v0.update(i as int, y));
            assert(v@ == v1.update(m as int, x));
            let ms0 = v0.to_multiset();
            vstd::seq_lib::to_multiset_update(v0, i as int, y);
            vstd::seq_lib::to_multiset_update(v1, m as int, x);
            assert(v1.to_multiset() == ms0.insert(y).remove(x));
            assert(v@.to_multiset() == ms0.insert(y).remove(x).insert(x).remove(y));
            assert(ms0.insert(y).remove(x).insert(x).remove(y) =~= ms0);
        }
        i += 1;
    }
}

/// The points an amount is cut at: 0, the cut points, then the amount.
pub open spec fn points(cuts: Seq<u64>, value: u64) -> Seq<u64> {
    seq![0u64] + cuts + seq![value]
}

/// The gaps between consecutive points.
pub open spec fn gaps(cuts: Seq<u64>, value: u64) -> Seq<u64> {
    Seq::new(cuts.len() + 1, |i: int| (points(cuts, value)[i + 1] - points(cuts, value)[i]) as u64)
}

/// The parts an amount splits into at the cut points `draws`: the gaps
/// between consecutive points of 0, the sorted draws, and `value`. There are
/// `parts` of them, and they add up to `value`; no parts asks for none.
pub fn split_value(value: u64, parts: u16, draws: Vec<u64>) -> (r: Vec<u64>)
    requires
        parts == 0 ==> draws@.len() == 0,
        parts > 0 ==> draws@.len() + 1 == parts,
        forall|i: int| 0 <= i < draws@.len() ==> draws@[i] <= value,
    ensures
        r@.len() == parts,
        parts > 0 ==> sum_u64(r@) == value,
        parts > 0 ==> exists|c: Seq<u64>|
            #![trigger gaps(c, value)]
            sorted(c) && c.to_multiset() == draws@.to_multiset() && r@ == gaps(c, value),
{
    if parts == 0 {
        return Vec::new();
    }
    let ghost d = draws@;
    let mut cuts = draws;
    sort_bounded(&mut cuts, value);
    let ghost c = cuts@;
    let mut out: Vec<u64> = Vec::new();
    let mut prev: u64 = 0;
    let mut i: usize = 0;
    while i < cuts.len()
        invariant
            0 <= i <= cuts@.len(),
            cuts@ == c,
            sorted(c),
            forall|k: int| 0 <= k < c.len() ==> c[k] <= value,
            out@.len() == i,
            forall|k: int| 0 <= k < i ==> out@[k] == gaps(c, value)[k],
            sum_u64(out@) == prev,
            prev <= value,
            i > 0 ==> prev == c[i - 1],
            i == 0 ==> prev == 0,
        decreases cuts@.len() - i,
    {
        let x = cuts[i];
        proof {
            if i > 0 {
                assert(c[i - 1] <= c[i as int]);
            }
            assert(points(c, value)[i + 1] == x);
            assert(points(c, value)[i as int] == prev);
        }
        let ghost before = out@;
        out.push(x - prev);
        proof {
            assert(out@.drop_last() == before);
        }
        prev = x;
        i += 1;
    }
    let ghost before = out@;
    out.push(value - prev);
    proof {
        assert(out@.drop_last() == before);
        assert(points(c, value)[c.len() as int + 1] == value);
        assert(points(c, value)[c.len() as int] == prev);
        assert(out@ =~= gaps(c, value));
    }
    out
}

} // verus!
