//! The ordered price store: its range sums, its truncating mean, and the
//! range lookup of the standard ordered map that the store is kept in.
use vstd::prelude::*;
use std::collections::BTreeMap;

verus! {

/// The price recorded at timestamp `k`, or zero where there is none.
pub open spec fn price_at(m: Map<i32, i32>, k: int) -> int {
    if m.contains_key(k as i32) {
        m[k as i32] as int
    } else {
        0
    }
}

/// Whether timestamp `k` holds a price: one or zero.
pub open spec fn present_at(m: Map<i32, i32>, k: int) -> int {
    if m.contains_key(k as i32) {
        1
    } else {
        0
    }
}

/// The sum of the prices at the timestamps in `[lo, hi]`.
pub open spec fn range_sum(m: Map<i32, i32>, lo: int, hi: int) -> int
    decreases hi - lo + 1,
{
    if hi < lo {
        0
    } else {
        range_sum(m, lo, hi - 1) + price_at(m, hi)
    }
}

/// The number of timestamps in `[lo, hi]` that hold a price.
pub open spec fn range_count(m: Map<i32, i32>, lo: int, hi: int) -> int
    decreases hi - lo + 1,
{
    if hi < lo {
        0
    } else {
        range_count(m, lo, hi - 1) + present_at(m, hi)
    }
}

/// `t / c`, truncated toward zero.
pub open spec fn div_toward_zero(t: int, c: int) -> int {
    if t >= 0 {
        t / c
    } else {
        -((-t) / c)
    }
}

/// The mean price over the timestamps in `[lo, hi]`, truncated toward zero;
/// zero where `lo > hi` or no timestamp in the range holds a price.
pub open spec fn mean_of(m: Map<i32, i32>, lo: i32, hi: i32) -> int {
    let c = range_count(m, lo as int, hi as int);
    if lo > hi || c == 0 {
        0
    } else {
        div_toward_zero(range_sum(m, lo as int, hi as int), c)
    }
}

/// The sum of the prices of a list of entries.
pub open spec fn entries_sum(s: Seq<(i32, i32)>) -> int
    decreases s.len(),
{
    if s.len() == 0 {
        0
    } else {
        entries_sum(s.drop_last()) + s.last().1 as int
    }
}

/// `s` lists, in strictly increasing timestamp order, exactly the entries of
/// `m` whose timestamps lie in `[lo, hi]`.
pub open spec fn lists_range(s: Seq<(i32, i32)>, m: Map<i32, i32>, lo: int, hi: int) -> bool {
    &&& forall|i: int|
        0 <= i < s.len() ==> lo <= #[trigger] s[i].0 <= hi && m.contains_key(s[i].0) && m[s[i].0]
            == s[i].1
    &&& forall|i: int, j: int| 0 <= i < j < s.len() ==> #[trigger] s[i].0 < #[trigger] s[j].0
    &&& forall|k: i32|
        lo <= k <= hi && #[trigger] m.contains_key(k) ==> exists|i: int|
            0 <= i < s.len() && #[trigger] s[i].0 == k
}

/// Relies on `BTreeMap::range` over `lo..=hi`: it visits the entries whose
/// keys lie in the inclusive range in increasing key order, and panics only
/// where `lo > hi`.
#[verifier::external_body]
pub(crate) fn entries_between(m: &BTreeMap<i32, i32>, lo: i32, hi: i32) -> (r: Vec<(i32, i32)>)
    requires
        lo <= hi,
    ensures
        lists_range(r@, m@, lo as int, hi as int),
{
    m.range(lo..=hi).map(|(k, v)| (*k, *v)).collect()
}

/// Where no timestamp in `(mid, hi]` holds a price, the sums up to `hi` are
/// those up to `mid`.
proof fn lemma_empty_tail(m: Map<i32, i32>, lo: int, mid: int, hi: int)
    requires
        lo - 1 <= mid <= hi,
        forall|k: i32| mid < k <= hi ==> !#[trigger] m.contains_key(k),
        i32::MIN - 1 <= mid,
        hi <= i32::MAX,
    ensures
        range_sum(m, lo, hi) == range_sum(m, lo, mid),
        range_count(m, lo, hi) == range_count(m, lo, mid),
    decreases hi - mid,
{
    if hi > mid {
        assert(!m.contains_key(hi as i32));
        lemma_empty_tail(m, lo, mid, hi - 1);
    }
}

/// The entries that the range lookup lists add up to the range sums.
pub proof fn lemma_listed_sums(s: Seq<(i32, i32)>, m: Map<i32, i32>, lo: int, hi: int)
    requires
        lists_range(s, m, lo, hi),
        i32::MIN <= lo,
        lo - 1 <= hi <= i32::MAX,
    ensures
        entries_sum(s) == range_sum(m, lo, hi),
        s.len() == range_count(m, lo, hi),
    decreases s.len(),
{
    if s.len() == 0 {
        assert forall|k: i32| lo - 1 < k <= hi implies !#[trigger] m.contains_key(k) by {
            if m.contains_key(k) {
                let i = choose|i: int| 0 <= i < s.len() && #[trigger] s[i].0 == k;
            }
        }
        lemma_empty_tail(m, lo, lo - 1, hi);
    } else {
        let n = s.len() - 1;
        let k = s[n].0;
        let t = s.drop_last();
        assert forall|i: int| 0 <= i < t.len() implies #[trigger] t[i].0 < k by {
            assert(s[i].0 < s[n].0);
        }
        assert forall|j: i32| lo <= j <= k - 1 && #[trigger] m.contains_key(j) implies exists|i: int|
            0 <= i < t.len() && #[trigger] t[i].0 == j by {
            let i = choose|i: int| 0 <= i < s.len() && #[trigger] s[i].0 == j;
            assert(t[i].0 == j);
        }
        assert(lists_range(t, m, lo, k - 1));
        lemma_listed_sums(t, m, lo, k - 1);
        assert forall|j: i32| k < j <= hi implies !#[trigger] m.contains_key(j) by {
            if m.contains_key(j) {
                let i = choose|i: int| 0 <= i < s.len() && #[trigger] s[i].0 == j;
                if i < n {
                    assert(s[i].0 < s[n].0);
                }
            }
        }
        lemma_empty_tail(m, lo, k as int, hi);
        assert(price_at(m, k as int) == s[n].1);
    }
}

/// A range that holds no price has mean zero, for every `lo <= hi`; the
/// empty store is one such case.
pub proof fn lemma_mean_of_empty_range(m: Map<i32, i32>, lo: i32, hi: i32)
    requires
        lo <= hi,
        forall|k: i32| lo <= k <= hi ==> !#[trigger] m.contains_key(k),
    ensures
        mean_of(m, lo, hi) == 0,
{
    lemma_empty_tail(m, lo as int, lo - 1, hi as int);
}

/// A range whose lower end lies above its upper end has mean zero, whatever
/// the store holds.
pub proof fn lemma_mean_of_reversed_range(m: Map<i32, i32>, lo: i32, hi: i32)
    requires
        lo > hi,
    ensures
        mean_of(m, lo, hi) == 0,
{
}

/// The mean truncates toward zero: it has the sign of the sum, and its
/// magnitude is the largest whose multiple by the count does not exceed the
/// magnitude of the sum.
pub proof fn lemma_mean_truncates_toward_zero(m: Map<i32, i32>, lo: i32, hi: i32)
    requires
        lo <= hi,
        range_count(m, lo as int, hi as int) > 0,
    ensures
        ({
            let t = range_sum(m, lo as int, hi as int);
            let c = range_count(m, lo as int, hi as int);
            let q = mean_of(m, lo, hi);
            &&& t >= 0 ==> q >= 0 && q * c <= t < (q + 1) * c
            &&& t < 0 ==> q <= 0 && -q * c <= -t < (-q + 1) * c
        }),
{
    let t = range_sum(m, lo as int, hi as int);
    let c = range_count(m, lo as int, hi as int);
    if t >= 0 {
        vstd::arithmetic::div_mod::lemma_fundamental_div_mod(t, c);
        vstd::arithmetic::div_mod::lemma_mod_bound(t, c);
        vstd::arithmetic::div_mod::lemma_div_pos_is_pos(t, c);
        assert((t / c) * c <= t < (t / c + 1) * c) by (nonlinear_arith)
            requires
                t == c * (t / c) + t % c,
                0 <= t % c < c,
        ;
    } else {
        vstd::arithmetic::div_mod::lemma_fundamental_div_mod(-t, c);
        vstd::arithmetic::div_mod::lemma_mod_bound(-t, c);
        vstd::arithmetic::div_mod::lemma_div_pos_is_pos(-t, c);
        assert(((-t) / c) * c <= -t < ((-t) / c + 1) * c) by (nonlinear_arith)
            requires
                -t == c * ((-t) / c) + (-t) % c,
                0 <= (-t) % c < c,
        ;
    }
}

/// Where `k` is the only timestamp in `[lo, hi]` that holds a price, the
/// mean over the range is that price; timestamps compare as signed
/// integers, so this holds for negative ones as for positive ones.
pub proof fn lemma_mean_of_single_entry(m: Map<i32, i32>, lo: i32, hi: i32, k: i32)
    requires
        lo <= k <= hi,
        m.contains_key(k),
        forall|j: i32| lo <= j <= hi && j != k ==> !#[trigger] m.contains_key(j),
    ensures
        mean_of(m, lo, hi) == m[k] as int,
{
    lemma_empty_tail(m, lo as int, lo - 1, k - 1);
    lemma_empty_tail(m, lo as int, k as int, hi as int);
    assert(range_count(m, lo as int, k as int) == 1);
    assert(range_sum(m, lo as int, k as int) == m[k] as int);
}

} // verus!
