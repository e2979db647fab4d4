//! Properties of the vault's share accounting that span its functions.
use crate::error::ContractError;
use crate::arith::{
    div_round_up, division_fails, fits_i128, lemma_div_round_up_fits, lemma_round_up_is_ceiling,
    lemma_trunc_div_bounds, trunc_div,
};
use crate::utils::{
    deposit_verdict, minted_shares, optimal_amounts, optimal_outcome, per_shares_outcome,
    proportional_amount, proportional_fails, screen_others, share_fails, share_of,
};
use vstd::prelude::*;

verus! {

/// An accepting screen leaves every other asset with funds between its
/// minimum and its desired amount.
proof fn lemma_screen_accepts(
    totals: Seq<i128>,
    desired: Seq<Option<i128>>,
    mins: Seq<Option<i128>>,
    optimal: Seq<i128>,
    i: int,
    j: int,
)
    requires
        0 <= j,
        screen_others(totals, desired, mins, optimal, i, j) == Ok::<bool, ContractError>(true),
    ensures
        forall|m: int|
            j <= m < totals.len() && m != i && totals[m] != 0 ==> m < desired.len() && m < mins.len()
                && (desired[m] matches Some(hi) && mins[m] matches Some(lo) && lo <= optimal[m] <= hi),
    decreases totals.len() - j,
{
    if j < totals.len() {
        lemma_screen_accepts(totals, desired, mins, optimal, i, j + 1);
    }
}

/// A successful search from position `i` stopped at an asset with funds at
/// or after `i`, whose candidate the other assets accept.
proof fn lemma_deposit_found(
    totals: Seq<i128>,
    desired: Seq<Option<i128>>,
    mins: Seq<Option<i128>>,
    supply: int,
    i: int,
    amounts: Seq<i128>,
    shares: i128,
) -> (k: int)
    requires
        0 <= i,
        deposit_verdict(totals, desired, mins, supply, i) == Ok::<
            Result<(Seq<i128>, i128), ContractError>,
            ContractError,
        >(Ok((amounts, shares))),
    ensures
        i <= k < totals.len(),
        totals[k] != 0,
        optimal_outcome(totals, desired, k, supply) == Ok::<(Seq<i128>, i128), ContractError>(
            (amounts, shares),
        ),
        screen_others(totals, desired, mins, amounts, k, 0) == Ok::<bool, ContractError>(true),
    decreases totals.len() - i,
{
    if totals[i] == 0 {
        lemma_deposit_found(totals, desired, mins, supply, i + 1, amounts, shares)
    } else {
        match optimal_outcome(totals, desired, i, supply) {
            Err(e) => i,
            Ok((optimal, s)) => match screen_others(totals, desired, mins, optimal, i, 0) {
                Err(e) => i,
                Ok(true) => i,
                Ok(false) => lemma_deposit_found(totals, desired, mins, supply, i + 1, amounts, shares),
            },
        }
    }
}

/// A deposit that the vault accepts takes the whole desired amount of one
/// asset with funds (the enforced one), and of every other asset with funds
/// an amount between its minimum and its desired amount, in the vault's
/// proportions; the shares minted are those of the enforced asset.
pub proof fn law_deposit_within_bounds(
    totals: Seq<i128>,
    desired: Seq<Option<i128>>,
    mins: Seq<Option<i128>>,
    supply: int,
    amounts: Seq<i128>,
    shares: i128,
)
    requires
        deposit_verdict(totals, desired, mins, supply, 0) == Ok::<
            Result<(Seq<i128>, i128), ContractError>,
            ContractError,
        >(Ok((amounts, shares))),
    ensures
        exists|k: int|
            {
                &&& 0 <= k < totals.len()
                &&& k < desired.len()
                &&& k < amounts.len()
                &&& totals[k] != 0
                &&& desired[k] == Some(amounts[k])
                &&& amounts == optimal_amounts(totals, amounts[k], k)
                &&& shares as int == minted_shares(supply, amounts[k] as int, totals[k] as int)
                &&& forall|m: int|
                    0 <= m < totals.len() && m != k && totals[m] != 0 ==> m < desired.len() && m
                        < mins.len() && (desired[m] matches Some(hi) && mins[m] matches Some(lo) && lo
                        <= amounts[m] <= hi)
            },
{
    let k = lemma_deposit_found(totals, desired, mins, supply, 0, amounts, shares);
    lemma_screen_accepts(totals, desired, mins, amounts, k, 0);
    assert(k < desired.len());
    let t = desired[k]->0;
    assert(amounts == optimal_amounts(totals, t, k));
    assert(amounts[k] == t);
    lemma_trunc_div_bounds(supply * t, totals[k] as int);
    assert(shares as int == minted_shares(supply, t as int, totals[k] as int));
}

/// For a nonnegative dividend and a positive divisor, the quotient toward
/// zero is the largest count of divisors that fits in the dividend.
pub proof fn lemma_floor_div(x: int, d: int)
    requires
        x >= 0,
        d > 0,
    ensures
        trunc_div(x, d) >= 0,
        d * trunc_div(x, d) <= x < d * (trunc_div(x, d) + 1),
{
    let q = x / d;
    assert(trunc_div(x, d) == q);
    vstd::arithmetic::div_mod::lemma_fundamental_div_mod(x, d);
    vstd::arithmetic::div_mod::lemma_mod_bound(x, d);
    assert(q >= 0 && d * q <= x < d * (q + 1)) by (nonlinear_arith)
        requires x == d * q + x % d, 0 <= x % d < d, x >= 0, d > 0;
}

/// A quotient toward zero of nonnegative numbers stays at or below any
/// count whose multiple reaches the dividend.
proof fn lemma_floor_div_at_most(x: int, d: int, a: int)
    requires
        x >= 0,
        d > 0,
        x <= a * d,
    ensures
        trunc_div(x, d) <= a,
{
    lemma_floor_div(x, d);
    let q = trunc_div(x, d);
    assert(q <= a) by (nonlinear_arith)
        requires d * q <= x, x <= a * d, d > 0;
}

/// Depositing and then withdrawing the shares the deposit minted never
/// gives back more of any asset than the deposit put in: the vault's
/// rounding (amounts up, shares down) is always in its favour. This holds
/// when the vault's funds and the desired amounts are not negative and some
/// shares are in supply afterwards.
pub proof fn law_deposit_then_withdraw_never_gains(
    totals: Seq<i128>,
    desired: Seq<Option<i128>>,
    mins: Seq<Option<i128>>,
    supply: int,
    amounts: Seq<i128>,
    shares: i128,
    j: int,
)
    requires
        deposit_verdict(totals, desired, mins, supply, 0) == Ok::<
            Result<(Seq<i128>, i128), ContractError>,
            ContractError,
        >(Ok((amounts, shares))),
        forall|m: int| 0 <= m < totals.len() ==> totals[m] >= 0,
        forall|m: int| 0 <= m < desired.len() ==> (#[trigger] desired[m] matches Some(x) ==> x >= 0),
        supply >= 0,
        supply + shares > 0,
        0 <= j < totals.len(),
    ensures
        share_of(totals[j] + amounts[j], shares as int, supply + shares) <= amounts[j],
{
    let k = lemma_deposit_found(totals, desired, mins, supply, 0, amounts, shares);
    assert(k < desired.len());
    let target = desired[k]->0;
    assert(amounts == optimal_amounts(totals, target, k));
    lemma_trunc_div_bounds(supply * target, totals[k] as int);
    assert(shares as int == minted_shares(supply, target as int, totals[k] as int));
    let r = totals[k] as int;
    let t = target as int;
    let s = shares as int;
    let big_t = totals[j] as int;
    let a = amounts[j] as int;
    assert(r > 0);
    assert(t >= 0);
    assert(supply * t >= 0) by (nonlinear_arith)
        requires supply >= 0, t >= 0;
    lemma_floor_div(supply * t, r);
    assert(s * r <= supply * t) by (nonlinear_arith)
        requires r * s <= supply * t;
    assert(s >= 0);
    // The withdrawn part is below `a` once `T * s <= a * supply`.
    if j == k {
        assert(a == t);
        assert(big_t == r);
    } else {
        assert(!proportional_fails(big_t, t, r));
        lemma_div_round_up_fits(big_t * t, r);
        assert(a == proportional_amount(big_t, t, r));
        assert(big_t * t >= 0) by (nonlinear_arith)
            requires big_t >= 0, t >= 0;
        lemma_round_up_is_ceiling(big_t * t, r);
        assert(big_t * t <= r * a);
    }
    assert(big_t * t <= r * a);
    assert(big_t * s <= a * supply) by (nonlinear_arith)
        requires
            s * r <= supply * t,
            big_t * t <= r * a,
            r > 0,
            big_t >= 0,
            supply >= 0,
            s >= 0,
    {
        assert(big_t * (s * r) <= big_t * (supply * t));
        assert(supply * (big_t * t) <= supply * (r * a));
        assert(r * (big_t * s) <= r * (a * supply));
    }
    assert(a >= 0) by (nonlinear_arith)
        requires big_t * t <= r * a, r > 0, big_t >= 0, t >= 0;
    assert((big_t + a) * s <= a * (supply + s)) by (nonlinear_arith)
        requires big_t * s <= a * supply;
    assert((big_t + a) * s >= 0) by (nonlinear_arith)
        requires big_t >= 0, a >= 0, s >= 0;
    lemma_floor_div_at_most((big_t + a) * s, supply + s, a);
}

/// The part of a nonnegative total that some of the shares in supply are
/// worth is between nothing and the whole total; all the shares are worth
/// exactly the total, and more shares are never worth less.
pub proof fn law_shares_worth_within_total(total: int, shares: int, more_shares: int, supply: int)
    requires
        total >= 0,
        0 <= shares <= more_shares <= supply,
        supply > 0,
    ensures
        0 <= share_of(total, shares, supply) <= total,
        share_of(total, supply, supply) == total,
        share_of(total, shares, supply) <= share_of(total, more_shares, supply),
        supply * share_of(total, shares, supply) <= total * shares < supply * (share_of(total, shares, supply) + 1),
{
    assert(0 <= total * shares <= total * more_shares <= total * supply) by (nonlinear_arith)
        requires total >= 0, 0 <= shares <= more_shares <= supply;
    lemma_floor_div(total * shares, supply);
    lemma_floor_div(total * more_shares, supply);
    lemma_floor_div(total * supply, supply);
    let q = share_of(total, shares, supply);
    let q2 = share_of(total, more_shares, supply);
    let qs = share_of(total, supply, supply);
    assert(q <= total) by (nonlinear_arith)
        requires supply * q <= total * shares, total * shares <= total * supply, supply > 0;
    assert(qs == total) by (nonlinear_arith)
        requires supply * qs <= total * supply, total * supply < supply * (qs + 1), supply > 0;
    assert(q <= q2) by (nonlinear_arith)
        requires
            supply * q <= total * shares,
            total * shares <= total * more_shares,
            total * more_shares < supply * (q2 + 1),
            supply > 0,
    ;
}

/// In a deposit enforced on an asset whose reserve is `reserve_target`,
/// every other asset is taken at the smallest amount that keeps the
/// vault's proportions (never less), and the shares minted are the largest
/// count that the enforced amount pays for (never more), when the amounts
/// are not negative.
pub proof fn law_deposit_proportions(reserve: int, reserve_target: int, target: int, supply: int)
    requires
        reserve >= 0,
        reserve_target > 0,
        target >= 0,
        supply >= 0,
    ensures
        reserve_target * (proportional_amount(reserve, target, reserve_target) - 1) < reserve * target
            <= reserve_target * proportional_amount(reserve, target, reserve_target),
        reserve_target * minted_shares(supply, target, reserve_target) <= supply * target
            < reserve_target * (minted_shares(supply, target, reserve_target) + 1),
{
    assert(reserve * target >= 0 && supply * target >= 0) by (nonlinear_arith)
        requires reserve >= 0, target >= 0, supply >= 0;
    lemma_round_up_is_ceiling(reserve * target, reserve_target);
    lemma_floor_div(supply * target, reserve_target);
}

/// Withdrawing shares in two steps never pays more than withdrawing them
/// at once: after `a` of the `supply` shares took their part of a
/// nonnegative total, `b` more of the shares left take no more than `a + b`
/// would have taken together.
pub proof fn law_split_withdrawal_pays_no_more(total: int, a: int, b: int, supply: int)
    requires
        total >= 0,
        a >= 0,
        b >= 0,
        a < supply,
        a + b <= supply,
    ensures
        share_of(total, a, supply) + share_of(total - share_of(total, a, supply), b, supply - a)
            <= share_of(total, a + b, supply),
{
    let s = supply;
    assert(total * a >= 0 && total * (a + b) >= 0 && total * a <= total * s) by (nonlinear_arith)
        requires total >= 0, a >= 0, b >= 0, a < s;
    lemma_floor_div(total * a, s);
    let q1 = share_of(total, a, s);
    lemma_floor_div_at_most(total * a, s, total);
    let rest = total - q1;
    assert(rest * b >= 0) by (nonlinear_arith)
        requires rest >= 0, b >= 0;
    lemma_floor_div(rest * b, s - a);
    let q2 = share_of(rest, b, s - a);
    let d = s - a;
    let c = s - a - b;
    // s * d * q2 <= s * rest * b
    assert(s * (d * q2) <= s * (rest * b)) by (nonlinear_arith)
        requires d * q2 <= rest * b, s > 0;
    // c * s * q1 <= c * total * a
    assert(c * (s * q1) <= c * (total * a)) by (nonlinear_arith)
        requires s * q1 <= total * a, c >= 0;
    assert(d * (s * (q1 + q2)) == c * (s * q1) + s * (d * q2) + s * b * q1) by (nonlinear_arith)
        requires d == s - a, c == s - a - b;
    assert(s * (rest * b) == s * total * b - s * b * q1) by (nonlinear_arith)
        requires rest == total - q1;
    assert(c * (total * a) + s * total * b == d * (total * (a + b))) by (nonlinear_arith)
        requires d == s - a, c == s - a - b;
    assert(s * (q1 + q2) <= total * (a + b)) by (nonlinear_arith)
        requires d * (s * (q1 + q2)) <= d * (total * (a + b)), d > 0;
    lemma_floor_div(total * (a + b), s);
    let q = share_of(total, a + b, s);
    assert(q1 + q2 <= q) by (nonlinear_arith)
        requires s * (q1 + q2) <= total * (a + b), total * (a + b) < s * (q + 1), s > 0;
}

/// The amounts that a number of shares is worth come one per managed
/// asset, in the assets' order: each is the asset's total times the shares
/// over the supply, rounded toward zero, an asset without funds included.
/// They are given whenever the shares are within the supply and each of
/// those amounts can be computed in `i128`.
pub proof fn law_shares_worth_each_asset(totals: Seq<i128>, shares: int, supply: int)
    ensures
        per_shares_outcome(totals, shares, supply) matches Ok(amounts) ==> {
            &&& amounts.len() == totals.len()
            &&& forall|i: int|
                0 <= i < totals.len() ==> #[trigger] amounts[i] as int == trunc_div(
                    totals[i] * shares,
                    supply,
                )
        },
        shares <= supply && (forall|i: int|
            #![trigger totals[i]]
            0 <= i < totals.len() ==> fits_i128(totals[i] * shares) && !division_fails(
                totals[i] * shares,
                supply,
            )) ==> per_shares_outcome(totals, shares, supply) is Ok,
{
    if per_shares_outcome(totals, shares, supply) is Ok {
        assert forall|i: int| 0 <= i < totals.len() implies share_of(totals[i] as int, shares, supply)
            as i128 as int == trunc_div(totals[i] * shares, supply) by {
            assert(!share_fails(totals[i] as int, shares, supply));
            lemma_trunc_div_bounds(totals[i] * shares, supply);
        }
    }
    if shares <= supply && (forall|i: int|
        #![trigger totals[i]]
        0 <= i < totals.len() ==> fits_i128(totals[i] * shares) && !division_fails(
            totals[i] * shares,
            supply,
        )) {
        assert forall|i: int| 0 <= i < totals.len() implies !#[trigger] share_fails(
            totals[i] as int,
            shares,
            supply,
        ) by {
            assert(fits_i128(totals[i] * shares));
        }
    }
}

/// The amounts of a deposit that takes `target` of the asset at `k`
/// whole: of each other asset, its total times `target` over the total of
/// the asset at `k`, rounded up.
pub open spec fn amounts_enforcing(totals: Seq<i128>, target: i128, k: int) -> Seq<i128> {
    Seq::new(
        totals.len(),
        |m: int|
            if m == k {
                target
            } else {
                div_round_up(totals[m] * target, totals[k] as int) as i128
            },
    )
}

/// Whether the deposit that takes `target` of the asset at `k` whole can
/// be computed in `i128`: the target is not zero, and each product and
/// division for the other assets and for the shares fits.
pub open spec fn enforcing_computable(totals: Seq<i128>, target: i128, k: int, supply: int) -> bool {
    &&& target != 0
    &&& fits_i128(supply * target)
    &&& !division_fails(supply * target, totals[k] as int)
    &&& forall|m: int|
        #![trigger totals[m]]
        0 <= m < totals.len() && m != k ==> fits_i128(totals[m] * target) && !division_fails(
            totals[m] * target,
            totals[k] as int,
        )
}

/// Whether the deposit that takes `target` of the asset at `k` whole takes
/// of every other asset with funds at least its minimum and at most its
/// desired amount, both bounds included.
pub open spec fn enforcing_fits(
    totals: Seq<i128>,
    desired: Seq<i128>,
    mins: Seq<i128>,
    target: i128,
    k: int,
) -> bool {
    forall|m: int|
        #![trigger totals[m]]
        0 <= m < totals.len() && m != k && totals[m] != 0 ==> mins[m] <= div_round_up(
            totals[m] * target,
            totals[k] as int,
        ) <= desired[m]
}

/// The amounts as the host vectors hold them when each is an `i128`.
pub open spec fn all_present(s: Seq<i128>) -> Seq<Option<i128>> {
    s.map_values(|x: i128| Some(x))
}

/// The screen accepts a computable candidate that fits, from any position.
proof fn lemma_screen_accepts_fitting(
    totals: Seq<i128>,
    desired: Seq<i128>,
    mins: Seq<i128>,
    k: int,
    j: int,
)
    requires
        0 <= j,
        0 <= k < totals.len(),
        desired.len() >= totals.len(),
        mins.len() >= totals.len(),
        enforcing_computable(totals, desired[k], k, 0),
        enforcing_fits(totals, desired, mins, desired[k], k),
    ensures
        screen_others(
            totals,
            all_present(desired),
            all_present(mins),
            optimal_amounts(totals, desired[k], k),
            k,
            j,
        ) == Ok::<bool, ContractError>(true),
    decreases totals.len() - j,
{
    if j < totals.len() {
        if j != k && totals[j] != 0 {
            assert(fits_i128(totals[j] * desired[k]));
            lemma_div_round_up_fits(totals[j] * desired[k], totals[k] as int);
        }
        lemma_screen_accepts_fitting(totals, desired, mins, k, j + 1);
    }
}

/// The screen rejects a candidate that takes some other asset with funds,
/// at or after position `j`, outside its bounds.
proof fn lemma_screen_rejects(
    totals: Seq<i128>,
    desired: Seq<i128>,
    mins: Seq<i128>,
    i: int,
    j: int,
    m: int,
)
    requires
        0 <= j <= m < totals.len(),
        0 <= i < totals.len(),
        m != i,
        totals[m] != 0,
        desired.len() >= totals.len(),
        mins.len() >= totals.len(),
        enforcing_computable(totals, desired[i], i, 0),
        !(mins[m] <= div_round_up(totals[m] * desired[i], totals[i] as int) <= desired[m]),
    ensures
        screen_others(
            totals,
            all_present(desired),
            all_present(mins),
            optimal_amounts(totals, desired[i], i),
            i,
            j,
        ) == Ok::<bool, ContractError>(false),
    decreases m - j,
{
    if j != i && totals[j] != 0 {
        assert(fits_i128(totals[j] * desired[i]));
        lemma_div_round_up_fits(totals[j] * desired[i], totals[i] as int);
    }
    if j < m {
        lemma_screen_rejects(totals, desired, mins, i, j + 1, m);
    }
}

/// Enforcing a computable candidate gives its amounts and shares.
proof fn lemma_enforcing_outcome(totals: Seq<i128>, desired: Seq<i128>, k: int, supply: int)
    requires
        0 <= k < totals.len(),
        desired.len() >= totals.len(),
        enforcing_computable(totals, desired[k], k, supply),
    ensures
        optimal_outcome(totals, all_present(desired), k, supply) == Ok::<
            (Seq<i128>, i128),
            ContractError,
        >(
            (
                optimal_amounts(totals, desired[k], k),
                trunc_div(supply * desired[k], totals[k] as int) as i128,
            ),
        ),
        optimal_amounts(totals, desired[k], k) == amounts_enforcing(totals, desired[k], k),
        enforcing_computable(totals, desired[k], k, 0),
{
    let t = desired[k];
    assert(all_present(desired)[k] == Some(t));
    assert forall|m: int| 0 <= m < totals.len() && m != k implies !#[trigger] proportional_fails(
        totals[m] as int,
        t as int,
        totals[k] as int,
    ) by {
        assert(fits_i128(totals[m] * t));
    }
    assert(optimal_amounts(totals, t, k) =~= amounts_enforcing(totals, t, k));
    assert(fits_i128(0 * t));
}

/// The search from position `i`, at or before the first candidate that
/// fits, with every candidate on the way computable, ends at that one.
proof fn lemma_search_reaches(
    totals: Seq<i128>,
    desired: Seq<i128>,
    mins: Seq<i128>,
    supply: int,
    k: int,
    i: int,
)
    requires
        0 <= i <= k < totals.len(),
        totals[k] != 0,
        desired.len() >= totals.len(),
        mins.len() >= totals.len(),
        enforcing_computable(totals, desired[k], k, supply),
        enforcing_fits(totals, desired, mins, desired[k], k),
        forall|j: int|
            #![trigger totals[j]]
            0 <= j < k && totals[j] != 0 ==> enforcing_computable(totals, desired[j], j, supply)
                && !enforcing_fits(totals, desired, mins, desired[j], j),
    ensures
        deposit_verdict(totals, all_present(desired), all_present(mins), supply, i) == Ok::<
            Result<(Seq<i128>, i128), ContractError>,
            ContractError,
        >(
            Ok(
                (
                    amounts_enforcing(totals, desired[k], k),
                    trunc_div(supply * desired[k], totals[k] as int) as i128,
                ),
            ),
        ),
    decreases k - i,
{
    if totals[i] == 0 {
        lemma_search_reaches(totals, desired, mins, supply, k, i + 1);
    } else if i < k {
        assert(enforcing_computable(totals, desired[i], i, supply));
        lemma_enforcing_outcome(totals, desired, i, supply);
        let m = choose|m: int|
            #![trigger totals[m]]
            0 <= m < totals.len() && m != i && totals[m] != 0 && !(mins[m] <= div_round_up(
                totals[m] * desired[i],
                totals[i] as int,
            ) <= desired[m]);
        lemma_screen_rejects(totals, desired, mins, i, 0, m);
        lemma_search_reaches(totals, desired, mins, supply, k, i + 1);
    } else {
        lemma_enforcing_outcome(totals, desired, k, supply);
        lemma_screen_accepts_fitting(totals, desired, mins, k, 0);
    }
}

/// The deposit search is complete and takes the first fit: when every
/// amount handed in is an `i128`, and some asset with funds, enforced with
/// its whole desired amount, takes of every other asset with funds at
/// least its minimum and at most its desired amount (both bounds included),
/// the deposit is the candidate of the first such asset, with the shares
/// it mints (the supply times its desired amount over its total, rounded
/// toward zero), and not `NoOptimalAmounts`. The candidates of the assets
/// with funds before it must be computable: where one is not, the contract
/// stops.
pub proof fn law_deposit_takes_first_fitting(
    totals: Seq<i128>,
    desired: Seq<i128>,
    mins: Seq<i128>,
    supply: int,
    k: int,
)
    requires
        0 <= k < totals.len(),
        totals[k] != 0,
        desired.len() >= totals.len(),
        mins.len() >= totals.len(),
        enforcing_computable(totals, desired[k], k, supply),
        enforcing_fits(totals, desired, mins, desired[k], k),
        forall|j: int|
            #![trigger totals[j]]
            0 <= j < k && totals[j] != 0 ==> enforcing_computable(totals, desired[j], j, supply)
                && !enforcing_fits(totals, desired, mins, desired[j], j),
    ensures
        deposit_verdict(totals, all_present(desired), all_present(mins), supply, 0) == Ok::<
            Result<(Seq<i128>, i128), ContractError>,
            ContractError,
        >(
            Ok(
                (
                    amounts_enforcing(totals, desired[k], k),
                    trunc_div(supply * desired[k], totals[k] as int) as i128,
                ),
            ),
        ),
{
    lemma_search_reaches(totals, desired, mins, supply, k, 0);
}

} // verus!
