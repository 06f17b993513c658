use vstd::arithmetic::div_mod::{lemma_div_denominator, lemma_fundamental_div_mod, lemma_mod_pos_bound};
use vstd::arithmetic::power::lemma_pow0;
use vstd::arithmetic::power2::{lemma_pow2_pos, lemma_pow2_unfold, pow2};
use vstd::prelude::*;

use crate::error::LeaderboardError;

verus! {

/// The payout of rank `rank` (0 is first place): the pool divided by
/// `2^(rank + 1)`, rounded down.
pub open spec fn payout_at(total: int, rank: int) -> int {
    total / (pow2((rank + 1) as nat) as int)
}

/// The pool divided by `2^n`, rounded down.
pub open spec fn pool_share(total: int, n: nat) -> int {
    total / (pow2(n) as int)
}

/// What the first `k` ranks receive together.
pub open spec fn payout_sum(total: int, k: nat) -> int
    decreases k,
{
    if k == 0 {
        0
    } else {
        payout_sum(total, (k - 1) as nat) + payout_at(total, k - 1)
    }
}

/// The sum of a sequence of amounts.
pub open spec fn sum_amounts(s: Seq<u64>) -> int
    decreases s.len(),
{
    if s.len() == 0 {
        0
    } else {
        sum_amounts(s.drop_last()) + s.last()
    }
}

/// `s` holds exactly the payouts of the first `s.len()` ranks of `total`.
pub open spec fn is_schedule(s: Seq<u64>, total: int) -> bool {
    forall|i: int| 0 <= i < s.len() ==> #[trigger] s[i] as int == payout_at(total, i)
}

/// Halving the share of `2^n` gives the share of `2^(n + 1)`.
pub proof fn lemma_share_halves(total: int, n: nat)
    requires
        total >= 0,
    ensures
        pool_share(total, n + 1) == pool_share(total, n) / 2,
        pool_share(total, n) >= 0,
{
    lemma_pow2_pos(n);
    lemma_pow2_unfold(n + 1);
    lemma_div_denominator(total, pow2(n) as int, 2);
    assert(pow2(n) as int * 2 == pow2(n + 1) as int);
}

/// The payouts of a schedule add up to `payout_sum`.
pub proof fn lemma_sum_schedule(s: Seq<u64>, total: int)
    requires
        is_schedule(s, total),
    ensures
        sum_amounts(s) == payout_sum(total, s.len()),
    decreases s.len(),
{
    if s.len() > 0 {
        let d = s.drop_last();
        assert forall|i: int| 0 <= i < d.len() implies #[trigger] d[i] as int == payout_at(total, i) by {
            assert(d[i] == s[i]);
        }
        lemma_sum_schedule(d, total);
        assert(s.last() == s[s.len() - 1]);
    }
}

/// Computes the payout of each of the first `winner_count` ranks.
///
/// Rank `i` receives `floor(total_pool / 2^(i + 1))`: half the pool, then a
/// quarter, and so on. What the ranks do not receive stays in the pool.
/// A negative pool is refused with `InvalidPool`.
pub fn compute_payouts(total_pool: i64, winner_count: usize) -> (r: Result<
    Vec<u64>,
    LeaderboardError,
>)
    ensures
        total_pool < 0 ==> r == Err::<Vec<u64>, LeaderboardError>(LeaderboardError::InvalidPool),
        total_pool >= 0 ==> (r matches Ok(v) && v@.len() == winner_count && is_schedule(
            v@,
            total_pool as int,
        )),
{
    if total_pool < 0 {
        return Err(LeaderboardError::InvalidPool);
    }
    let total = total_pool as u64;
    let mut amounts: Vec<u64> = Vec::new();
    let mut share: u64 = total / 2;
    proof {
        lemma_share_halves(total as int, 0);
        lemma_pow0(2);
        assert(pow2(0) == 1);
        assert(pool_share(total as int, 0) == total as int);
    }
    let mut i: usize = 0;
    while i < winner_count
        invariant
            0 <= i <= winner_count,
            total as int == total_pool as int,
            total_pool >= 0,
            amounts@.len() == i,
            is_schedule(amounts@, total as int),
            share as int == pool_share(total as int, (i + 1) as nat),
        decreases winner_count - i,
    {
        amounts.push(share);
        proof {
            lemma_share_halves(total as int, (i + 1) as nat);
            assert forall|j: int| 0 <= j < amounts@.len() implies #[trigger] amounts@[j] as int
                == payout_at(total as int, j) by {
                if j < i {
                    assert(amounts@[j] == amounts@.drop_last()[j]);
                }
            }
        }
        share = share / 2;
        i = i + 1;
    }
    Ok(amounts)
}

/// The sum of a sequence of amounts, when it fits in `u64`.
pub fn sum_of(v: &Vec<u64>) -> (r: Option<u64>)
    ensures
        match r {
            Some(t) => t as int == sum_amounts(v@),
            None => sum_amounts(v@) > u64::MAX,
        },
{
    let mut acc: u64 = 0;
    let mut i: usize = 0;
    while i < v.len()
        invariant
            0 <= i <= v.len(),
            acc as int == sum_amounts(v@.take(i as int)),
        decreases v.len() - i,
    {
        proof {
            assert(v@.take(i as int + 1).drop_last() =~= v@.take(i as int));
            lemma_sum_monotone(v@, i as int + 1);
        }
        match acc.checked_add(v[i]) {
            Some(a) => {
                acc = a;
            },
            None => {
                return None;
            },
        }
        i = i + 1;
    }
    proof {
        assert(v@.take(v.len() as int) =~= v@);
    }
    Some(acc)
}

/// A prefix never sums to more than the whole.
pub proof fn lemma_sum_monotone(s: Seq<u64>, k: int)
    requires
        0 <= k <= s.len(),
    ensures
        sum_amounts(s.take(k)) <= sum_amounts(s),
    decreases s.len(),
{
    if k < s.len() {
        assert(s.drop_last().take(k) =~= s.take(k));
        lemma_sum_monotone(s.drop_last(), k);
    } else {
        assert(s.take(k) =~= s);
    }
}

/// The split never pays out more than the pool. What stays undistributed is
/// at least the pool's share of `2^k` and at most that share plus `k`, one
/// unit lost to rounding per rank at most; with a pool divisible by `2^k`
/// exactly that share stays.
pub proof fn lemma_undistributed_remainder(total: int, k: nat)
    requires
        total >= 0,
    ensures
        payout_sum(total, k) + pool_share(total, k) <= total,
        payout_sum(total, k) + pool_share(total, k) + k >= total,
        total % (pow2(k) as int) == 0 ==> payout_sum(total, k) + pool_share(total, k) == total,
    decreases k,
{
    if k == 0 {
        lemma_pow0(2);
    } else {
        let j = (k - 1) as nat;
        lemma_undistributed_remainder(total, j);
        lemma_share_halves(total, j);
        let f = pool_share(total, j);
        lemma_fundamental_div_mod(f, 2);
        lemma_mod_pos_bound(f, 2);
        assert(payout_at(total, j as int) == pool_share(total, k));
        if total % (pow2(k) as int) == 0 {
            lemma_pow2_pos(k);
            lemma_pow2_pos(j);
            lemma_pow2_unfold(k);
            lemma_even_share(total, j);
        }
    }
}

/// A pool divisible by `2^(j + 1)` has an even share of `2^j`, and is
/// divisible by `2^j`.
proof fn lemma_even_share(total: int, j: nat)
    requires
        total >= 0,
        total % (pow2(j + 1) as int) == 0,
    ensures
        pool_share(total, j) % 2 == 0,
        total % (pow2(j) as int) == 0,
{
    lemma_pow2_pos(j);
    lemma_pow2_unfold(j + 1);
    let p = pow2(j) as int;
    lemma_fundamental_div_mod(total, 2 * p);
    let q = total / (2 * p);
    assert(total == (2 * p) * q);
    assert((2 * p) * q == p * (2 * q)) by (nonlinear_arith);
    vstd::arithmetic::div_mod::lemma_div_by_multiple(2 * q, p);
    assert((2 * q * p) / p == 2 * q);
    assert(p * (2 * q) == 2 * q * p) by (nonlinear_arith);
    assert(pool_share(total, j) == 2 * q);
    vstd::arithmetic::div_mod::lemma_mod_multiples_basic(2 * q, p);
    assert((2 * q * p) % p == 0);
}

} // verus!
