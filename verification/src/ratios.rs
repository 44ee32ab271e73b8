//! Permille weights of the children of a split, and their apportionment.

use vstd::prelude::*;

verus! {

/// Sum of a sequence of weights.
pub open spec fn sum(s: Seq<u16>) -> int
    decreases s.len(),
{
    if s.len() == 0 {
        0
    } else {
        sum(s.drop_last()) + s.last()
    }
}

/// The whole units that weight `r` earns out of 1000 when all weights sum to `total`.
pub open spec fn quota(r: u16, total: int) -> int {
    (r * 1000) / total
}

/// What is left of weight `r` after its whole units are taken.
pub open spec fn remainder(r: u16, total: int) -> int {
    (r * 1000) % total
}

pub open spec fn quotas(s: Seq<u16>) -> Seq<u16> {
    Seq::new(s.len(), |i: int| quota(s[i], sum(s)) as u16)
}

pub open spec fn remainders(s: Seq<u16>) -> Seq<int> {
    Seq::new(s.len(), |i: int| remainder(s[i], sum(s)))
}

/// Whether `i` is the next index to receive a unit: it has none yet, no index without one has a
/// larger remainder, and every index before it without one has a smaller remainder.
pub open spec fn is_next(rem: Seq<int>, served: Seq<bool>, i: int) -> bool {
    &&& 0 <= i < rem.len()
    &&& !served[i]
    &&& forall|j: int| 0 <= j < rem.len() && !#[trigger] served[j] ==> rem[j] <= rem[i]
    &&& forall|j: int| 0 <= j < i && !#[trigger] served[j] ==> rem[j] < rem[i]
}

/// Hands out `left` single units, each to the index whose turn it is.
pub open spec fn hand_out(base: Seq<u16>, rem: Seq<int>, served: Seq<bool>, left: nat) -> Seq<u16>
    decreases left,
{
    if left == 0 {
        base
    } else {
        let i = choose|i: int| is_next(rem, served, i);
        hand_out(
            base.update(i, (base[i] + 1) as u16),
            rem,
            served.update(i, true),
            (left - 1) as nat,
        )
    }
}

/// An equal split over `n` children: the first `1000 % n` of them hold one unit more.
pub open spec fn equal_split(n: nat) -> Seq<u16> {
    Seq::new(
        n,
        |i: int| (1000int / n as int + if i < 1000int % n as int { 1int } else { 0int }) as u16,
    )
}

/// The largest-remainder apportionment of 1000 units over the weights `s`; all-zero weights
/// share equally, and no weights at all stay none.
pub open spec fn normalized(s: Seq<u16>) -> Seq<u16> {
    if s.len() == 0 {
        s
    } else if sum(s) == 0 {
        equal_split(s.len())
    } else {
        hand_out(
            quotas(s),
            remainders(s),
            Seq::new(s.len(), |i: int| false),
            (1000 - sum(quotas(s))) as nat,
        )
    }
}

pub proof fn lemma_sum_nonneg(s: Seq<u16>)
    ensures
        0 <= sum(s) <= 65535 * s.len(),
    decreases s.len(),
{
    if s.len() > 0 {
        lemma_sum_nonneg(s.drop_last());
    }
}

pub proof fn lemma_sum_update(s: Seq<u16>, i: int, r: u16)
    requires
        0 <= i < s.len(),
    ensures
        sum(s.update(i, r)) == sum(s) - s[i] + r,
    decreases s.len(),
{
    if i == s.len() - 1 {
        assert(s.update(i, r).drop_last() =~= s.drop_last());
    } else {
        assert(s.update(i, r).drop_last() =~= s.drop_last().update(i, r));
        lemma_sum_update(s.drop_last(), i, r);
    }
}

pub proof fn lemma_sum_element(s: Seq<u16>, i: int)
    requires
        0 <= i < s.len(),
    ensures
        s[i] <= sum(s),
    decreases s.len(),
{
    lemma_sum_nonneg(s.drop_last());
    if i < s.len() - 1 {
        lemma_sum_element(s.drop_last(), i);
    }
}

/// Quotas and remainders of the first `k` weights account for exactly their share.
proof fn lemma_quota_account(s: Seq<u16>, total: int, k: int)
    requires
        total > 0,
        0 <= k <= s.len(),
        forall|i: int| 0 <= i < s.len() ==> s[i] <= total,
    ensures
        ({
            let qs = Seq::new(k as nat, |i: int| quota(s[i], total) as u16);
            &&& sum(qs) * total <= sum(s.take(k)) * 1000
            &&& k > 0 ==> sum(s.take(k)) * 1000 < sum(qs) * total + k * total
            &&& k == 0 ==> sum(s.take(k)) == 0
        }),
    decreases k,
{
    let qs = Seq::new(k as nat, |i: int| quota(s[i], total) as u16);
    if k > 0 {
        lemma_quota_account(s, total, k - 1);
        let prev = Seq::new((k - 1) as nat, |i: int| quota(s[i], total) as u16);
        assert(qs.drop_last() =~= prev);
        assert(s.take(k).drop_last() =~= s.take(k - 1));
        let r = s[k - 1];
        let q = quota(r, total);
        assert(s[k - 1] <= total);
        assert(0 <= q <= 1000 && q * total <= r * 1000 < q * total + total) by (nonlinear_arith)
            requires
                total > 0,
                0 <= r <= total,
                q == (r * 1000) / total,
        ;
        assert(qs.last() == q);
        assert(sum(qs) * total == sum(prev) * total + q * total) by (nonlinear_arith)
            requires
                sum(qs) == sum(prev) + q,
        ;
        assert(k * total == (k - 1) * total + total) by (nonlinear_arith);
    }
}

/// The whole units never exceed 1000, and fewer units are left over than there are weights.
pub proof fn lemma_leftover(s: Seq<u16>)
    requires
        sum(s) > 0,
    ensures
        0 <= sum(quotas(s)) <= 1000,
        1000 - sum(quotas(s)) < s.len(),
        forall|i: int| #![trigger s[i]] 0 <= i < s.len() ==> 0 <= quota(s[i], sum(s)) <= 1000,
        forall|i: int| 0 <= i < s.len() ==> #[trigger] quotas(s)[i] == quota(s[i], sum(s)),
{
    let total = sum(s);
    assert forall|i: int| #![trigger s[i]] 0 <= i < s.len() implies 0 <= quota(s[i], total)
        <= 1000 by {
        lemma_sum_element(s, i);
        let r = s[i];
        assert(0 <= (r * 1000) / total <= 1000) by (nonlinear_arith)
            requires
                total > 0,
                0 <= r <= total,
        ;
    }
    assert forall|i: int| 0 <= i < s.len() implies s[i] <= total by {
        lemma_sum_element(s, i);
    }
    lemma_quota_account(s, total, s.len() as int);
    assert(s.take(s.len() as int) =~= s);
    let qs = Seq::new(s.len(), |i: int| quota(s[i], total) as u16);
    assert(qs =~= quotas(s));
    lemma_sum_nonneg(qs);
    let q = sum(qs);
    let n = s.len() as int;
    assert(q <= 1000 && 1000 - q < n) by (nonlinear_arith)
        requires
            total > 0,
            n > 0,
            q * total <= total * 1000,
            total * 1000 < q * total + n * total,
    ;
}

pub proof fn lemma_next_unique(rem: Seq<int>, served: Seq<bool>, i: int, j: int)
    requires
        is_next(rem, served, i),
        is_next(rem, served, j),
    ensures
        i == j,
{
    if i < j {
        assert(!served[i]);
    } else if j < i {
        assert(!served[j]);
    }
}

/// How many indices have received a unit.
pub open spec fn count_served(served: Seq<bool>) -> int
    decreases served.len(),
{
    if served.len() == 0 {
        0
    } else {
        count_served(served.drop_last()) + if served.last() { 1int } else { 0int }
    }
}

proof fn lemma_count_bound(served: Seq<bool>)
    ensures
        0 <= count_served(served) <= served.len(),
        (forall|i: int| 0 <= i < served.len() ==> !served[i]) ==> count_served(served) == 0,
        (forall|i: int| 0 <= i < served.len() ==> served[i]) ==> count_served(served)
            == served.len(),
    decreases served.len(),
{
    if served.len() > 0 {
        let p = served.drop_last();
        lemma_count_bound(p);
        assert(forall|i: int| 0 <= i < p.len() ==> p[i] == served[i]);
    }
}

proof fn lemma_count_update(served: Seq<bool>, i: int)
    requires
        0 <= i < served.len(),
        !served[i],
    ensures
        count_served(served.update(i, true)) == count_served(served) + 1,
    decreases served.len(),
{
    if i == served.len() - 1 {
        assert(served.update(i, true).drop_last() =~= served.drop_last());
    } else {
        assert(served.update(i, true).drop_last() =~= served.drop_last().update(i, true));
        lemma_count_update(served.drop_last(), i);
    }
}

/// The next index exists as long as one is without a unit.
proof fn lemma_next_exists(rem: Seq<int>, served: Seq<bool>, k: int) -> (best: int)
    requires
        0 < k <= rem.len(),
        rem.len() == served.len(),
        exists|i: int| 0 <= i < k && !served[i],
    ensures
        0 <= best < k,
        !served[best],
        forall|j: int| 0 <= j < k && !#[trigger] served[j] ==> rem[j] <= rem[best],
        forall|j: int| 0 <= j < best && !#[trigger] served[j] ==> rem[j] < rem[best],
    decreases k,
{
    if exists|i: int| 0 <= i < k - 1 && !served[i] {
        let b = lemma_next_exists(rem, served, k - 1);
        if !served[k - 1] && rem[k - 1] > rem[b] {
            k - 1
        } else {
            b
        }
    } else {
        k - 1
    }
}

proof fn lemma_has_next(rem: Seq<int>, served: Seq<bool>)
    requires
        rem.len() == served.len(),
        count_served(served) < served.len(),
    ensures
        exists|i: int| is_next(rem, served, i),
{
    lemma_count_bound(served);
    assert(exists|i: int| 0 <= i < served.len() && !served[i]);
    let b = lemma_next_exists(rem, served, rem.len() as int);
    assert(is_next(rem, served, b));
}

/// Handing out `left` units adds exactly `left` to the sum.
pub proof fn lemma_hand_out(base: Seq<u16>, rem: Seq<int>, served: Seq<bool>, left: nat)
    requires
        base.len() == rem.len() == served.len(),
        count_served(served) + left <= served.len(),
        forall|i: int| 0 <= i < base.len() ==> base[i] <= 1000 + if served[i] { 1int } else { 0int },
    ensures
        sum(hand_out(base, rem, served, left)) == sum(base) + left,
        hand_out(base, rem, served, left).len() == base.len(),
        forall|i: int|
            0 <= i < base.len() ==> base[i] <= #[trigger] hand_out(base, rem, served, left)[i],
    decreases left,
{
    if left > 0 {
        lemma_has_next(rem, served);
        let i = choose|i: int| is_next(rem, served, i);
        assert(base[i] <= 1000);
        let b = base.update(i, (base[i] + 1) as u16);
        let sv = served.update(i, true);
        lemma_count_update(served, i);
        lemma_sum_update(base, i, (base[i] + 1) as u16);
        lemma_hand_out(b, rem, sv, (left - 1) as nat);
        assert forall|k: int| 0 <= k < base.len() implies base[k] <= #[trigger] hand_out(
            base,
            rem,
            served,
            left,
        )[k] by {
            assert(b[k] <= hand_out(b, rem, sv, (left - 1) as nat)[k]);
        }
    }
}

proof fn lemma_equal_split_prefix(n: nat, k: int)
    requires
        n > 0,
        0 <= k <= n,
    ensures
        sum(equal_split(n).take(k)) == k * (1000int / n as int) + if k < 1000int % n as int {
            k
        } else {
            1000int % n as int
        },
    decreases k,
{
    let s = equal_split(n);
    let base = 1000int / n as int;
    let extra = 1000int % n as int;
    assert(0 <= base <= 1000 && 0 <= extra < n) by (nonlinear_arith)
        requires
            n > 0,
            base == 1000int / n as int,
            extra == 1000int % n as int,
    ;
    if k > 0 {
        lemma_equal_split_prefix(n, k - 1);
        assert(s.take(k).drop_last() =~= s.take(k - 1));
        assert(s.take(k).last() == s[k - 1]);
        assert(k * base == (k - 1) * base + base) by (nonlinear_arith);
    } else {
        assert(k * base == 0) by (nonlinear_arith)
            requires
                k == 0,
        ;
    }
}

proof fn lemma_equal_split(n: nat)
    requires
        n > 0,
    ensures
        sum(equal_split(n)) == 1000,
{
    lemma_equal_split_prefix(n, n as int);
    let s = equal_split(n);
    assert(s.take(n as int) =~= s);
    assert(n as int * (1000int / n as int) + 1000int % n as int == 1000 && 1000int % n as int
        <= n as int) by (nonlinear_arith)
        requires
            n > 0,
    ;
}

/// Normalizing any weights at all yields as many weights, summing to exactly 1000.
pub proof fn law_normalized_sums_to_1000(s: Seq<u16>)
    ensures
        normalized(s).len() == s.len(),
        s.len() > 0 ==> sum(normalized(s)) == 1000,
{
    if s.len() > 0 {
        lemma_sum_nonneg(s);
        if sum(s) == 0 {
            lemma_equal_split(s.len());
        } else {
            lemma_leftover(s);
            let none = Seq::new(s.len(), |i: int| false);
            lemma_count_bound(none);
            lemma_hand_out(quotas(s), remainders(s), none, (1000 - sum(quotas(s))) as nat);
        }
    }
}

/// No weight loses any of its whole units to rounding.
pub proof fn law_normalized_keeps_quotas(s: Seq<u16>)
    requires
        sum(s) > 0,
    ensures
        forall|i: int|
            0 <= i < s.len() ==> quota(s[i], sum(s)) <= #[trigger] normalized(s)[i],
{
    lemma_leftover(s);
    let none = Seq::new(s.len(), |i: int| false);
    lemma_count_bound(none);
    lemma_hand_out(quotas(s), remainders(s), none, (1000 - sum(quotas(s))) as nat);
    assert forall|i: int| 0 <= i < s.len() implies quota(s[i], sum(s)) <= #[trigger] normalized(
        s,
    )[i] by {
        assert(quotas(s)[i] == quota(s[i], sum(s)));
    }
}

/// Weights that already sum to 1000 are left as they are; in particular normalizing twice is
/// the same as normalizing once.
pub proof fn law_normalized_fixpoint(s: Seq<u16>)
    requires
        sum(s) == 1000,
    ensures
        normalized(s) == s,
{
    assert(s.len() > 0);
    lemma_leftover(s);
    assert forall|i: int| 0 <= i < s.len() implies quotas(s)[i] == s[i] by {
        let r = s[i];
        assert((r * 1000) / 1000int == r);
    }
    assert(quotas(s) =~= s);
}

/// Whether weight `i` goes before weight `j` when a leftover unit is handed out.
pub open spec fn goes_first(rem: Seq<int>, i: int, j: int) -> bool {
    rem[i] > rem[j] || (rem[i] == rem[j] && i < j)
}

proof fn lemma_hand_out_winners(base: Seq<u16>, rem: Seq<int>, served: Seq<bool>, left: nat)
    requires
        base.len() == rem.len() == served.len(),
        count_served(served) + left <= served.len(),
        forall|i: int| 0 <= i < base.len() ==> base[i] <= 1000 + if served[i] { 1int } else { 0int },
    ensures
        hand_out(base, rem, served, left).len() == base.len(),
        forall|i: int|
            0 <= i < base.len() ==> base[i] <= #[trigger] hand_out(base, rem, served, left)[i]
                <= base[i] + 1,
        forall|i: int|
            0 <= i < base.len() && served[i] ==> base[i] == #[trigger] hand_out(
                base,
                rem,
                served,
                left,
            )[i],
        forall|i: int, j: int|
            0 <= i < base.len() && 0 <= j < base.len() && !served[j] && (#[trigger] hand_out(
                base,
                rem,
                served,
                left,
            )[i]) > base[i] && (#[trigger] hand_out(base, rem, served, left)[j]) == base[j]
                ==> goes_first(rem, i, j),
    decreases left,
{
    if left > 0 {
        lemma_has_next(rem, served);
        let n = choose|i: int| is_next(rem, served, i);
        assert(base[n] <= 1000);
        let b = base.update(n, (base[n] + 1) as u16);
        let sv = served.update(n, true);
        lemma_count_update(served, n);
        lemma_hand_out_winners(b, rem, sv, (left - 1) as nat);
        let r = hand_out(base, rem, served, left);
        assert(r == hand_out(b, rem, sv, (left - 1) as nat));
        assert(r[n] == b[n]);
        assert forall|i: int| 0 <= i < base.len() implies base[i] <= #[trigger] r[i] <= base[i]
            + 1 by {
            assert(b[i] <= r[i] <= b[i] + 1);
        }
        assert forall|i: int| 0 <= i < base.len() && served[i] implies base[i]
            == #[trigger] r[i] by {
            assert(sv[i]);
        }
        assert forall|i: int, j: int|
            0 <= i < base.len() && 0 <= j < base.len() && !served[j] && (#[trigger] r[i])
                > base[i] && (#[trigger] r[j]) == base[j] implies goes_first(rem, i, j) by {
            assert(j != n);
            if i == n {
                assert(!served[j]);
            } else {
                assert(!sv[j]);
                assert(r[i] > b[i] && r[j] == b[j]);
            }
        }
    }
}

/// Normalizing is apportionment by largest remainder: each weight gets its share of 1000 rounded
/// down, and the units left over go one each to those whose share was cut most, the earlier of
/// two that were cut alike first.
pub proof fn law_normalized_by_largest_remainder(s: Seq<u16>)
    requires
        sum(s) > 0,
    ensures
        normalized(s).len() == s.len(),
        forall|i: int|
            0 <= i < s.len() ==> (s[i] * 1000) / sum(s) <= #[trigger] normalized(s)[i] <= (s[i]
                * 1000) / sum(s) + 1,
        forall|i: int, j: int|
            0 <= i < s.len() && 0 <= j < s.len() && (#[trigger] normalized(s)[i]) > (s[i] * 1000)
                / sum(s) && (#[trigger] normalized(s)[j]) == (s[j] * 1000) / sum(s) ==> (s[i]
                * 1000) % sum(s) > (s[j] * 1000) % sum(s) || ((s[i] * 1000) % sum(s) == (s[j]
                * 1000) % sum(s) && i < j),
{
    lemma_leftover(s);
    let none = Seq::new(s.len(), |i: int| false);
    lemma_count_bound(none);
    let left = (1000 - sum(quotas(s))) as nat;
    lemma_hand_out(quotas(s), remainders(s), none, left);
    lemma_hand_out_winners(quotas(s), remainders(s), none, left);
    let r = normalized(s);
    assert forall|i: int| 0 <= i < s.len() implies (s[i] * 1000) / sum(s) <= #[trigger] r[i] <= (
    s[i] * 1000) / sum(s) + 1 by {
        assert(quotas(s)[i] == quota(s[i], sum(s)));
    }
    assert forall|i: int, j: int|
        0 <= i < s.len() && 0 <= j < s.len() && (#[trigger] r[i]) > (s[i] * 1000) / sum(s) && (
        #[trigger] r[j]) == (s[j] * 1000) / sum(s) implies (s[i] * 1000) % sum(s) > (s[j] * 1000)
        % sum(s) || ((s[i] * 1000) % sum(s) == (s[j] * 1000) % sum(s) && i < j) by {
        assert(quotas(s)[i] == quota(s[i], sum(s)));
        assert(quotas(s)[j] == quota(s[j], sum(s)));
        assert(!none[j]);
        assert(goes_first(remainders(s), i, j));
    }
}

/// Weights of which none says anything become equal ones, as far as 1000 can be shared: they
/// differ by at most one unit, and the earlier ones have it.
pub proof fn law_no_weights_share_equally(s: Seq<u16>)
    requires
        s.len() > 0,
        sum(s) == 0,
    ensures
        normalized(s).len() == s.len(),
        sum(normalized(s)) == 1000,
        forall|i: int, j: int|
            0 <= i < j < s.len() ==> (#[trigger] normalized(s)[j]) <= (#[trigger] normalized(
                s,
            )[i]) <= normalized(s)[j] + 1,
{
    law_normalized_sums_to_1000(s);
    let n = s.len() as int;
    let base = 1000int / n;
    assert(0 <= base <= 1000) by (nonlinear_arith)
        requires
            n > 0,
            base == 1000int / n,
    ;
}

/// Rescale `ratios` in place so they sum to exactly 1000, using largest-remainder
/// apportionment: ties go to the lower index. An all-zero input becomes an equal split.
pub fn normalize(ratios: &mut [u16])
    ensures
        final(ratios)@ == normalized(old(ratios)@),
{
    let n: usize = ratios.len();
    if n == 0 {
        return ;
    }
    let ghost s = ratios@;
    let mut total: u128 = 0;
    let mut i: usize = 0;
    while i < n
        invariant
            0 <= i <= n,
            n == s.len(),
            ratios@ == s,
            total == sum(s.take(i as int)),
        decreases n - i,
    {
        proof {
            assert(s.take(i as int + 1).drop_last() =~= s.take(i as int));
            lemma_sum_nonneg(s.take(i as int + 1));
        }
        total = total + ratios[i] as u128;
        i = i + 1;
    }
    assert(s.take(n as int) =~= s);
    if total == 0 {
        let base: u16 = if n > 1000 {
            0
        } else {
            (1000 / n) as u16
        };
        let extra: usize = if n > 1000 {
            1000
        } else {
            1000 % n
        };
        proof {
            if n > 1000 {
                assert(1000int / n as int == 0 && 1000int % n as int == 1000) by (nonlinear_arith)
                    requires
                        n > 1000,
                ;
            } else {
                assert(1000usize / n <= 1000) by (nonlinear_arith)
                    requires
                        0 < n,
                ;
            }
        }
        let mut k: usize = 0;
        while k < n
            invariant
                0 <= k <= n,
                n == s.len(),
                n > 0,
                ratios@.len() == n,
                base as int == 1000int / n as int,
                extra as int == 1000int % n as int,
                base <= 1000,
                forall|j: int| 0 <= j < k ==> ratios@[j] == equal_split(n as nat)[j],
            decreases n - k,
        {
            ratios[k] = if k < extra {
                base + 1
            } else {
                base
            };
            k = k + 1;
        }
        assert(ratios@ =~= equal_split(n as nat));
        return ;
    }
    proof {
        lemma_leftover(s);
    }
    let mut rem: Vec<u32> = Vec::new();
    let mut given: u32 = 0;
    let mut m: usize = 0;
    while m < n
        invariant
            0 <= m <= n,
            n == s.len(),
            total == sum(s),
            total > 0,
            ratios@.len() == n,
            rem@.len() == m,
            forall|j: int| m <= j < n ==> ratios@[j] == s[j],
            forall|j: int| 0 <= j < m ==> ratios@[j] == quotas(s)[j],
            forall|j: int| 0 <= j < m ==> rem@[j] as int == remainders(s)[j],
            given == sum(quotas(s).take(m as int)),
            sum(quotas(s)) <= 1000,
            forall|j: int| #![trigger s[j]] 0 <= j < s.len() ==> 0 <= quota(s[j], sum(s)) <= 1000,
            forall|j: int| 0 <= j < s.len() ==> #[trigger] quotas(s)[j] == quota(s[j], sum(s)),
        decreases n - m,
    {
        let num: u128 = ratios[m] as u128 * 1000;
        assert(s[m as int] == ratios@[m as int]);
        assert(0 <= num / total <= 1000);
        assert(num % total <= num) by (nonlinear_arith)
            requires
                total > 0,
                num >= 0,
        ;
        let q: u32 = (num / total) as u32;
        rem.push((num % total) as u32);
        proof {
            assert(q as int == quota(s[m as int], sum(s)));
            assert(quotas(s).take(m as int + 1).drop_last() =~= quotas(s).take(m as int));
            assert(quotas(s).take(m as int + 1).last() == quotas(s)[m as int]);
            lemma_prefix_le(quotas(s), m as int + 1);
        }
        ratios[m] = q as u16;
        given = given + q;
        m = m + 1;
    }
    assert(quotas(s).take(n as int) =~= quotas(s));
    assert(ratios@ =~= quotas(s));
    let ghost rs = remainders(s);
    assert(rem@.len() == rs.len());
    let mut left: u32 = 1000 - given;
    let mut served: Vec<bool> = Vec::new();
    let mut p: usize = 0;
    while p < n
        invariant
            0 <= p <= n,
            served@.len() == p,
            forall|j: int| 0 <= j < p ==> !served@[j],
        decreases n - p,
    {
        served.push(false);
        p = p + 1;
    }
    proof {
        assert(served@ =~= Seq::new(s.len(), |i: int| false));
        lemma_count_bound(served@);
    }
    while left > 0
        invariant
            n == s.len(),
            n > 0,
            ratios@.len() == n,
            rem@.len() == n,
            served@.len() == n,
            rs.len() == n,
            forall|j: int| 0 <= j < n ==> rem@[j] as int == rs[j],
            count_served(served@) + left <= n,
            left <= 1000,
            forall|j: int|
                0 <= j < n ==> ratios@[j] <= 1000 + if served@[j] {
                    1int
                } else {
                    0int
                },
            normalized(s) == hand_out(ratios@, rs, served@, left as nat),
        decreases left,
    {
        proof {
            lemma_has_next(rs, served@);
        }
        let best: usize = next_index(&rem, &served, Ghost(rs));
        proof {
            let i = choose|i: int| is_next(rs, served@, i);
            lemma_next_unique(rs, served@, i, best as int);
            lemma_count_update(served@, best as int);
        }
        ratios[best] = ratios[best] + 1;
        served.set(best, true);
        left = left - 1;
    }
}

proof fn lemma_prefix_le(s: Seq<u16>, k: int)
    requires
        0 <= k <= s.len(),
    ensures
        0 <= sum(s.take(k)) <= sum(s),
    decreases s.len(),
{
    lemma_sum_nonneg(s.take(k));
    if k == s.len() {
        assert(s.take(k) =~= s);
    } else {
        assert(s.drop_last().take(k) =~= s.take(k));
        lemma_prefix_le(s.drop_last(), k);
    }
}

/// The unserved index with the largest remainder, the lowest such index on a tie.
fn next_index(rem: &Vec<u32>, served: &Vec<bool>, rs: Ghost<Seq<int>>) -> (best: usize)
    requires
        rem@.len() == served@.len() == rs@.len(),
        forall|j: int| 0 <= j < rem@.len() ==> rem@[j] as int == rs@[j],
        exists|i: int| is_next(rs@, served@, i),
    ensures
        is_next(rs@, served@, best as int),
{
    let n: usize = rem.len();
    let mut found: Option<usize> = None;
    let mut i: usize = 0;
    while i < n
        invariant
            0 <= i <= n,
            n == rem@.len() == served@.len() == rs@.len(),
            forall|j: int| 0 <= j < rem@.len() ==> rem@[j] as int == rs@[j],
            match found {
                None => forall|j: int| 0 <= j < i ==> served@[j],
                Some(b) => {
                    &&& b < i
                    &&& !served@[b as int]
                    &&& forall|j: int| 0 <= j < i && !#[trigger] served@[j] ==> rs@[j] <= rs@[b as int]
                    &&& forall|j: int| 0 <= j < b && !#[trigger] served@[j] ==> rs@[j] < rs@[b as int]
                },
            },
        decreases n - i,
    {
        if !served[i] {
            match found {
                None => {
                    found = Some(i);
                },
                Some(b) => {
                    if rem[i] > rem[b] {
                        found = Some(i);
                    }
                },
            }
        }
        i = i + 1;
    }
    match found {
        Some(b) => b,
        None => {
            proof {
                let w = choose|i: int| is_next(rs@, served@, i);
                assert(served@[w]);
            }
            0
        },
    }
}

} // verus!
