//! The reward engine: time-based accrual, the per-item risk roll, the
//! burn/redistribution split of forfeited reward, the cascading pool clamp,
//! and the alien-side harvest.

use vstd::prelude::*;
use crate::state::{
    ErrorCode, ItemType, StakeItem, User, UserView, Vault, VaultStatus, VaultView,
    find_item_index, has_mint_account, is_alien_kind, lemma_count_same_types,
    lemma_mint_index_unique, mint_index, mirrored, pools_total, user_wf, vault_wf,
};

verus! {

/// Seconds elapsed from `t` to `now`; a clock running backwards reads as
/// no elapsed time.
pub open spec fn elapsed_since(now: u64, t: u64) -> int {
    if now >= t {
        now - t
    } else {
        0
    }
}

/// Linear accrual since the last claim: 1250/3 units per second, truncated.
pub open spec fn accrued_reward(now: u64, last: u64) -> int {
    elapsed_since(now, last) * 1250 / 3
}

/// Whole days the item has been staked.
pub open spec fn staked_days(now: u64, first: u64) -> int {
    elapsed_since(now, first) / 86400
}

/// The risk threshold: starts at 240 and falls 10 points per staked day,
/// to a floor of 90 reached after 15 days.
pub open spec fn risk_bound(now: u64, first: u64) -> int {
    240 - (if staked_days(now, first) < 15 {
        staked_days(now, first)
    } else {
        15
    }) * 10
}

/// The risk event: the roll, reduced mod 300, falls under the threshold.
pub open spec fn risk_hit(now: u64, first: u64, roll: u64) -> bool {
    (roll as int) % 300 < risk_bound(now, first)
}

/// What the item keeps after its roll: nothing on a risk event, else
/// four fifths (the accrual scaled by four, then divided by five,
/// truncating).
pub open spec fn settled_reward(it: StakeItem, now: u64, roll: u64) -> int {
    if risk_hit(now, it.first_staked_time, roll) {
        0
    } else {
        accrued_reward(now, it.last_claimed_time) * 4 / 5
    }
}

/// What the item forfeits to the alien side: everything on a risk event,
/// else the truncated fifth.
pub open spec fn forfeited_reward(it: StakeItem, now: u64, roll: u64) -> int {
    if risk_hit(now, it.first_staked_time, roll) {
        accrued_reward(now, it.last_claimed_time)
    } else {
        accrued_reward(now, it.last_claimed_time) / 5
    }
}

/// The item after its pass: settled reward recorded, claim clock reset.
pub open spec fn passed_item(it: StakeItem, now: u64, roll: u64) -> StakeItem {
    StakeItem {
        earned_reward: settled_reward(it, now, roll) as u64,
        last_claimed_time: now,
        ..it
    }
}

/// All items after their pass, item `i` using roll `rolls[i]`.
pub open spec fn passed_items(items: Seq<StakeItem>, now: u64, rolls: Seq<u64>) -> Seq<StakeItem> {
    items.map(|i: int, it: StakeItem| passed_item(it, now, rolls[i]))
}

/// Sum of the settled rewards over the pass.
pub open spec fn settled_total(items: Seq<StakeItem>, now: u64, rolls: Seq<u64>) -> int
    decreases items.len(),
{
    if items.len() == 0 {
        0
    } else {
        settled_total(items.drop_last(), now, rolls) + settled_reward(
            items.last(),
            now,
            rolls[items.len() - 1],
        )
    }
}

/// Sum of the forfeited rewards over the pass.
pub open spec fn forfeited_total(items: Seq<StakeItem>, now: u64, rolls: Seq<u64>) -> int
    decreases items.len(),
{
    if items.len() == 0 {
        0
    } else {
        forfeited_total(items.drop_last(), now, rolls) + forfeited_reward(
            items.last(),
            now,
            rolls[items.len() - 1],
        )
    }
}

/// The whole pass stays within fixed-width arithmetic: the accrual
/// product, the four-fold scaling of a kept reward, and both running
/// totals.
pub open spec fn pass_fits(items: Seq<StakeItem>, now: u64, rolls: Seq<u64>) -> bool {
    &&& forall|i: int|
        0 <= i < items.len() ==> elapsed_since(now, #[trigger] items[i].last_claimed_time) * 1250
            <= u64::MAX
    &&& forall|i: int|
        0 <= i < items.len() && !risk_hit(now, (#[trigger] items[i]).first_staked_time, rolls[i])
            ==> accrued_reward(now, items[i].last_claimed_time) * 4 <= u64::MAX
    &&& settled_total(items, now, rolls) <= u64::MAX
    &&& forfeited_total(items, now, rolls) <= u64::MAX
}

/// A quarter of the forfeited accumulator is burned toward the god pool.
pub open spec fn burn_amount(f: int) -> int {
    f / 4
}

/// Three quarters (the accumulator scaled by three, then divided by four,
/// truncating) are redistributed over the staked alien items.
pub open spec fn redistribution_amount(f: int) -> int {
    f * 3 / 4
}

/// The weight of the alien census: 5 per normal alien, 6 per alpha alien.
pub open spec fn total_weight(n: u8, m: u8) -> int {
    n * 5 + m * 6
}

/// The census weight is computed in eight-bit arithmetic and must fit there.
pub open spec fn weight_fits(n: u8, m: u8) -> bool {
    &&& n * 5 <= u8::MAX
    &&& m * 6 <= u8::MAX
    &&& n * 5 + m * 6 <= u8::MAX
}

/// One mirror entry's slice of the redistributed amount `d` under total
/// weight `tw`.
pub open spec fn share_of(t: ItemType, d: int, tw: int) -> int {
    if t == ItemType::NormalAlien {
        d * 5 / tw
    } else {
        d * 6 / tw
    }
}

/// A mirror entry with its slice added.
pub open spec fn redistributed_item(it: StakeItem, d: int, tw: int) -> StakeItem {
    StakeItem { earned_reward: (it.earned_reward + share_of(it.item_type, d, tw)) as u64, ..it }
}

/// The whole mirror with every entry's slice added.
pub open spec fn redistributed_items(aliens: Seq<StakeItem>, d: int, tw: int) -> Seq<StakeItem> {
    aliens.map_values(|it: StakeItem| redistributed_item(it, d, tw))
}

/// The redistribution stays within fixed-width arithmetic.
pub open spec fn redistribute_fits(aliens: Seq<StakeItem>, d: int, tw: int) -> bool {
    forall|i: int|
        0 <= i < aliens.len() ==> {
            &&& (if (#[trigger] aliens[i]).item_type == ItemType::NormalAlien {
                d * 5 <= u64::MAX
            } else {
                d * 6 <= u64::MAX
            })
            &&& aliens[i].earned_reward + share_of(aliens[i].item_type, d, tw) <= u64::MAX
        }
}

/// First clamp: the settled CTZN reward is capped at the pool.
pub open spec fn clamped_ctzn(pool: u64, c: u64) -> u64 {
    if pool <= c {
        pool
    } else {
        c
    }
}

/// Second clamp: the alien transfer is dropped whenever the pool does not
/// exceed the capped CTZN reward plus the alien amount.
pub open spec fn clamped_aliens(pool: u64, c: u64, a: u64) -> u64 {
    if pool <= clamped_ctzn(pool, c) + a {
        0
    } else {
        a
    }
}

/// Third clamp: the burn is dropped whenever the pool does not exceed the
/// capped CTZN reward plus the alien amount plus the burn.
pub open spec fn clamped_burn(pool: u64, c: u64, a: u64, b: u64) -> u64 {
    if pool <= clamped_ctzn(pool, c) + a + b {
        0
    } else {
        b
    }
}

/// Applies the cascading balance clamp, in priority order: settled CTZN
/// reward first, then the alien transfer, then the burn. What survives
/// never exceeds the pool.
pub fn clamp_cascade(pool: u64, ctzns_reward: u64, aliens_reward: u64, burned: u64) -> (r: (
    u64,
    u64,
    u64,
))
    ensures
        r.0 == clamped_ctzn(pool, ctzns_reward),
        r.1 == clamped_aliens(pool, ctzns_reward, aliens_reward),
        r.2 == clamped_burn(pool, ctzns_reward, aliens_reward, burned),
        r.0 + r.1 + r.2 <= pool,
{
    let c = if pool <= ctzns_reward {
        pool
    } else {
        ctzns_reward
    };
    let a = if pool - c <= aliens_reward {
        0
    } else {
        aliens_reward
    };
    let rem = pool - c;
    let b = if rem <= aliens_reward || rem - aliens_reward <= burned {
        0
    } else {
        burned
    };
    (c, a, b)
}

/// What survives the cascade never exceeds the pool.
pub proof fn lemma_clamp_sum(pool: u64, c: u64, a: u64, b: u64)
    ensures
        clamped_ctzn(pool, c) + clamped_aliens(pool, c, a) + clamped_burn(pool, c, a, b) <= pool,
{
}

/// Which error a refused CTZN claim reports.
pub open spec fn ctzn_claim_err(v: VaultView) -> ErrorCode {
    if v.status != VaultStatus::Initialized {
        ErrorCode::VaultNotInitialized
    } else {
        ErrorCode::ArithmeticFault
    }
}

/// A CTZN claim succeeds exactly when the vault is initialized and every
/// arithmetic step of the pass, the census weight, the redistribution, and
/// the receiving pools stays in range.
pub open spec fn ctzn_claim_ok(u: UserView, v: VaultView, now: u64, rolls: Seq<u64>) -> bool {
    let c0 = settled_total(u.items, now, rolls);
    let f0 = forfeited_total(u.items, now, rolls);
    let d = redistribution_amount(f0);
    let b0 = burn_amount(f0);
    let tw = total_weight(v.normal_aliens_count, v.alpha_aliens_count);
    let ca = clamped_aliens(v.ctzns_pool_amount, c0 as u64, d as u64);
    let cb = clamped_burn(v.ctzns_pool_amount, c0 as u64, d as u64, b0 as u64);
    &&& v.status == VaultStatus::Initialized
    &&& pass_fits(u.items, now, rolls)
    &&& forfeited_total(u.items, now, rolls) * 3 <= u64::MAX
    &&& weight_fits(v.normal_aliens_count, v.alpha_aliens_count)
    &&& redistribute_fits(v.aliens, d, tw)
    &&& v.aliens_pool_amount + ca <= u64::MAX
    &&& v.gods_pool_amount + cb <= u64::MAX
}

/// What a successful CTZN claim transfers: to the claimer, to the alien
/// pool, and to the god pool, all drawn from the CTZN pool.
#[derive(Clone, Copy, Debug, PartialEq, Eq, Structural)]
pub struct CtznClaimOutcome {
    pub to_claimer: u64,
    pub to_aliens_pool: u64,
    pub to_gods_pool: u64,
}

/// The transfers a successful CTZN claim decides.
pub open spec fn ctzn_claim_outcome(u: UserView, v: VaultView, now: u64, rolls: Seq<u64>) -> CtznClaimOutcome {
    let c0 = settled_total(u.items, now, rolls);
    let f0 = forfeited_total(u.items, now, rolls);
    let d = redistribution_amount(f0);
    let b0 = burn_amount(f0);
    CtznClaimOutcome {
        to_claimer: clamped_ctzn(v.ctzns_pool_amount, c0 as u64),
        to_aliens_pool: clamped_aliens(v.ctzns_pool_amount, c0 as u64, d as u64),
        to_gods_pool: clamped_burn(v.ctzns_pool_amount, c0 as u64, d as u64, b0 as u64),
    }
}

/// The ledger after a successful CTZN claim.
pub open spec fn ctzn_claim_user_next(u: UserView, now: u64, rolls: Seq<u64>) -> UserView {
    UserView { items: passed_items(u.items, now, rolls), ..u }
}

/// The vault after a successful CTZN claim: the mirror gains the shares,
/// the CTZN pool pays all three transfers, the alien and god pools receive
/// theirs.
pub open spec fn ctzn_claim_vault_next(u: UserView, v: VaultView, now: u64, rolls: Seq<u64>) -> VaultView {
    let f0 = forfeited_total(u.items, now, rolls);
    let d = redistribution_amount(f0);
    let tw = total_weight(v.normal_aliens_count, v.alpha_aliens_count);
    let out = ctzn_claim_outcome(u, v, now, rolls);
    VaultView {
        aliens: redistributed_items(v.aliens, d, tw),
        ctzns_pool_amount: (v.ctzns_pool_amount - out.to_claimer - out.to_aliens_pool
            - out.to_gods_pool) as u64,
        aliens_pool_amount: (v.aliens_pool_amount + out.to_aliens_pool) as u64,
        gods_pool_amount: (v.gods_pool_amount + out.to_gods_pool) as u64,
        ..v
    }
}

/// Per-item rewards are never negative.
pub proof fn lemma_reward_nonneg(it: StakeItem, now: u64, roll: u64)
    ensures
        settled_reward(it, now, roll) >= 0,
        forfeited_reward(it, now, roll) >= 0,
{
}

/// Totals are never negative.
pub proof fn lemma_totals_nonneg(items: Seq<StakeItem>, now: u64, rolls: Seq<u64>)
    ensures
        settled_total(items, now, rolls) >= 0,
        forfeited_total(items, now, rolls) >= 0,
    decreases items.len(),
{
    if items.len() > 0 {
        lemma_totals_nonneg(items.drop_last(), now, rolls);
        lemma_reward_nonneg(items.last(), now, rolls[items.len() - 1]);
    }
}

/// Extending the processed prefix by one item adds that item's rewards.
pub proof fn lemma_totals_step(items: Seq<StakeItem>, now: u64, rolls: Seq<u64>, i: int)
    requires
        0 <= i < items.len(),
    ensures
        settled_total(items.take(i + 1), now, rolls) == settled_total(items.take(i), now, rolls)
            + settled_reward(items[i], now, rolls[i]),
        forfeited_total(items.take(i + 1), now, rolls) == forfeited_total(
            items.take(i),
            now,
            rolls,
        ) + forfeited_reward(items[i], now, rolls[i]),
{
    assert(items.take(i + 1).drop_last() =~= items.take(i));
    assert(items.take(i + 1).last() == items[i]);
}

/// A prefix total never exceeds the total of the whole pass.
pub proof fn lemma_totals_take_bound(items: Seq<StakeItem>, now: u64, rolls: Seq<u64>, i: int)
    requires
        0 <= i <= items.len(),
    ensures
        settled_total(items.take(i), now, rolls) <= settled_total(items, now, rolls),
        forfeited_total(items.take(i), now, rolls) <= forfeited_total(items, now, rolls),
    decreases items.len() - i,
{
    if i == items.len() {
        assert(items.take(i) =~= items);
    } else {
        lemma_totals_step(items, now, rolls, i);
        lemma_reward_nonneg(items[i], now, rolls[i]);
        lemma_totals_take_bound(items, now, rolls, i + 1);
    }
}

/// Settles the whole ledger of a Ctzn-role staker in one atomic pass, item
/// `i` consuming the random draw `rolls[i]`. Returns the three transfers
/// the caller's custody service owes out of the CTZN pool; on any error
/// nothing changes and nothing is owed.
#[verifier::loop_isolation(false)]
pub fn claim_ctzn(user: &mut User, vault: &mut Vault, now: u64, rolls: &Vec<u64>) -> (r: Result<
    CtznClaimOutcome,
    ErrorCode,
>)
    requires
        user_wf(old(user)@),
        vault_wf(old(vault)@),
        rolls@.len() == old(user)@.items.len(),
    ensures
        r is Ok <==> ctzn_claim_ok(old(user)@, old(vault)@, now, rolls@),
        r is Ok ==> final(user)@ == ctzn_claim_user_next(old(user)@, now, rolls@),
        r is Ok ==> final(vault)@ == ctzn_claim_vault_next(old(user)@, old(vault)@, now, rolls@),
        r is Ok ==> r->Ok_0 == ctzn_claim_outcome(old(user)@, old(vault)@, now, rolls@),
        r is Ok ==> pools_total(final(vault)@) + r->Ok_0.to_claimer == pools_total(old(vault)@),
        r is Err ==> final(user)@ == old(user)@ && final(vault)@ == old(vault)@,
        r is Err ==> r == Err::<CtznClaimOutcome, ErrorCode>(ctzn_claim_err(old(vault)@)),
        user_wf(final(user)@),
        vault_wf(final(vault)@),
        mirrored(old(user)@, old(vault)@) ==> mirrored(final(user)@, final(vault)@),
{
    if vault.status != VaultStatus::Initialized {
        return Err(ErrorCode::VaultNotInitialized);
    }
    let ghost uv = old(user)@;
    let ghost vv = old(vault)@;
    let n = user.items.len();
    let mut new_items: Vec<StakeItem> = Vec::new();
    let mut ctzns_reward: u64 = 0;
    let mut aliens_accum: u64 = 0;
    let mut i: usize = 0;
    while i < n
        invariant
            i <= n,
            ctzns_reward == settled_total(uv.items.take(i as int), now, rolls@),
            aliens_accum == forfeited_total(uv.items.take(i as int), now, rolls@),
            new_items@ == passed_items(uv.items, now, rolls@).take(i as int),
            forall|k: int|
                0 <= k < i ==> elapsed_since(now, #[trigger] uv.items[k].last_claimed_time) * 1250
                    <= u64::MAX,
            forall|k: int|
                0 <= k < i && !risk_hit(now, (#[trigger] uv.items[k]).first_staked_time, rolls@[k])
                    ==> accrued_reward(now, uv.items[k].last_claimed_time) * 4 <= u64::MAX,
        decreases n - i,
    {
        let it = user.items[i];
        let elapsed = if now >= it.last_claimed_time {
            now - it.last_claimed_time
        } else {
            0
        };
        let earned = match elapsed.checked_mul(1250) {
            Some(x) => x / 3,
            None => {
                return Err(ErrorCode::ArithmeticFault);
            },
        };
        assert(earned == accrued_reward(now, it.last_claimed_time));
        let since_first = if now >= it.first_staked_time {
            now - it.first_staked_time
        } else {
            0
        };
        let day = since_first / 86400;
        let capped = if day < 15 {
            day
        } else {
            15
        };
        let bound = 240 - capped * 10;
        let roll = rolls[i] % 300;
        let hit = roll < bound;
        assert(hit == risk_hit(now, it.first_staked_time, rolls@[i as int]));
        let settled: u64;
        let forfeit: u64;
        if hit {
            settled = 0;
            forfeit = earned;
        } else {
            let scaled = match earned.checked_mul(4) {
                Some(x) => x,
                None => {
                    return Err(ErrorCode::ArithmeticFault);
                },
            };
            settled = scaled / 5;
            forfeit = earned / 5;
        }
        assert(settled == settled_reward(uv.items[i as int], now, rolls@[i as int]));
        assert(forfeit == forfeited_reward(uv.items[i as int], now, rolls@[i as int]));
        proof {
            lemma_totals_step(uv.items, now, rolls@, i as int);
        }
        aliens_accum = match aliens_accum.checked_add(forfeit) {
            Some(x) => x,
            None => {
                proof {
                    lemma_totals_take_bound(uv.items, now, rolls@, i + 1);
                }
                return Err(ErrorCode::ArithmeticFault);
            },
        };
        ctzns_reward = match ctzns_reward.checked_add(settled) {
            Some(x) => x,
            None => {
                proof {
                    lemma_totals_take_bound(uv.items, now, rolls@, i + 1);
                }
                return Err(ErrorCode::ArithmeticFault);
            },
        };
        new_items.push(StakeItem { earned_reward: settled, last_claimed_time: now, ..it });
        proof {
            assert(passed_items(uv.items, now, rolls@).take(i + 1) =~= passed_items(
                uv.items,
                now,
                rolls@,
            ).take(i as int).push(passed_item(uv.items[i as int], now, rolls@[i as int])));
        }
        i += 1;
    }
    proof {
        assert(uv.items.take(n as int) =~= uv.items);
        assert(passed_items(uv.items, now, rolls@).take(n as int) =~= passed_items(
            uv.items,
            now,
            rolls@,
        ));
    }
    let ghost c0 = settled_total(uv.items, now, rolls@);
    let ghost f0 = forfeited_total(uv.items, now, rolls@);
    let burned = aliens_accum / 4;
    let scaled_accum = match aliens_accum.checked_mul(3) {
        Some(x) => x,
        None => {
            return Err(ErrorCode::ArithmeticFault);
        },
    };
    let redist = scaled_accum / 4;
    assert(burned == burn_amount(f0));
    assert(redist == redistribution_amount(f0));
    let normal_w = match vault.normal_aliens_count.checked_mul(5) {
        Some(x) => x,
        None => {
            return Err(ErrorCode::ArithmeticFault);
        },
    };
    let alpha_w = match vault.alpha_aliens_count.checked_mul(6) {
        Some(x) => x,
        None => {
            return Err(ErrorCode::ArithmeticFault);
        },
    };
    let weight8 = match normal_w.checked_add(alpha_w) {
        Some(x) => x,
        None => {
            return Err(ErrorCode::ArithmeticFault);
        },
    };
    let tw: u64 = weight8 as u64;
    assert(tw == total_weight(vv.normal_aliens_count, vv.alpha_aliens_count));
    assert(weight_fits(vv.normal_aliens_count, vv.alpha_aliens_count));
    let ghost dd = redist as int;
    let m = vault.aliens.len();
    let mut new_aliens: Vec<StakeItem> = Vec::new();
    let mut j: usize = 0;
    while j < m
        invariant
            j <= m,
            new_aliens@ == redistributed_items(vv.aliens, dd, tw as int).take(j as int),
            forall|k: int|
                0 <= k < j ==> {
                    &&& (if (#[trigger] vv.aliens[k]).item_type == ItemType::NormalAlien {
                        dd * 5 <= u64::MAX
                    } else {
                        dd * 6 <= u64::MAX
                    })
                    &&& vv.aliens[k].earned_reward + share_of(vv.aliens[k].item_type, dd, tw as int)
                        <= u64::MAX
                },
        decreases m - j,
    {
        proof {
            assert(vv.aliens.len() == vv.normal_aliens_count + vv.alpha_aliens_count);
            assert(tw >= 5);
        }
        let it = vault.aliens[j];
        let num = if it.item_type == ItemType::NormalAlien {
            redist.checked_mul(5)
        } else {
            redist.checked_mul(6)
        };
        let num = match num {
            Some(x) => x,
            None => {
                return Err(ErrorCode::ArithmeticFault);
            },
        };
        let sh = num / tw;
        assert(sh == share_of(it.item_type, dd, tw as int));
        let newe = match it.earned_reward.checked_add(sh) {
            Some(x) => x,
            None => {
                return Err(ErrorCode::ArithmeticFault);
            },
        };
        new_aliens.push(StakeItem { earned_reward: newe, ..it });
        proof {
            assert(redistributed_items(vv.aliens, dd, tw as int).take(j + 1)
                =~= redistributed_items(vv.aliens, dd, tw as int).take(j as int).push(
                redistributed_item(vv.aliens[j as int], dd, tw as int),
            ));
        }
        j += 1;
    }
    proof {
        assert(redistributed_items(vv.aliens, dd, tw as int).take(m as int)
            =~= redistributed_items(vv.aliens, dd, tw as int));
    }
    let (cc, ca, cb) = clamp_cascade(vault.ctzns_pool_amount, ctzns_reward, redist, burned);
    let new_aliens_pool = match vault.aliens_pool_amount.checked_add(ca) {
        Some(x) => x,
        None => {
            return Err(ErrorCode::ArithmeticFault);
        },
    };
    let new_gods_pool = match vault.gods_pool_amount.checked_add(cb) {
        Some(x) => x,
        None => {
            return Err(ErrorCode::ArithmeticFault);
        },
    };
    let new_ctzns_pool = vault.ctzns_pool_amount - cc - ca - cb;
    user.items = new_items;
    vault.aliens = new_aliens;
    vault.ctzns_pool_amount = new_ctzns_pool;
    vault.aliens_pool_amount = new_aliens_pool;
    vault.gods_pool_amount = new_gods_pool;
    let out = CtznClaimOutcome { to_claimer: cc, to_aliens_pool: ca, to_gods_pool: cb };
    proof {
        assert(ctzn_claim_ok(uv, vv, now, rolls@));
        assert(user@ =~= ctzn_claim_user_next(uv, now, rolls@));
        assert(vault@ =~= ctzn_claim_vault_next(uv, vv, now, rolls@));
        // The pass and the redistribution keep every identity and kind, so
        // well-formedness and the mirror relation survive.
        assert forall|p: int, q: int| 0 <= p < q < user@.items.len()
            implies user@.items[p].mint_account != user@.items[q].mint_account
        by {
            assert(user@.items[p].mint_account == uv.items[p].mint_account);
            assert(user@.items[q].mint_account == uv.items[q].mint_account);
        }
        assert forall|p: int, q: int| 0 <= p < q < vault@.aliens.len()
            implies vault@.aliens[p].mint_account != vault@.aliens[q].mint_account
        by {
            assert(vault@.aliens[p].mint_account == vv.aliens[p].mint_account);
            assert(vault@.aliens[q].mint_account == vv.aliens[q].mint_account);
        }
        assert forall|p: int| 0 <= p < vault@.aliens.len()
            implies is_alien_kind(#[trigger] vault@.aliens[p].item_type)
        by {
            assert(vault@.aliens[p].item_type == vv.aliens[p].item_type);
        }
        lemma_count_same_types(vault@.aliens, vv.aliens, ItemType::NormalAlien);
        lemma_count_same_types(vault@.aliens, vv.aliens, ItemType::AlphaAlien);
        if mirrored(uv, vv) {
            assert forall|p: int|
                0 <= p < user@.items.len() && is_alien_kind(#[trigger] user@.items[p].item_type)
                implies has_mint_account(vault@.aliens, user@.items[p].mint_account)
                    && vault@.aliens[mint_index(
                    vault@.aliens,
                    user@.items[p].mint_account,
                )].item_type == user@.items[p].item_type
            by {
                assert(user@.items[p].item_type == uv.items[p].item_type);
                assert(user@.items[p].mint_account == uv.items[p].mint_account);
                let ma = uv.items[p].mint_account;
                let q = mint_index(vv.aliens, ma);
                assert(0 <= q < vv.aliens.len() && vv.aliens[q].mint_account == ma);
                assert(vault@.aliens[q].mint_account == ma);
                assert(vault@.aliens[q].item_type == vv.aliens[q].item_type);
                lemma_mint_index_unique(vault@.aliens, q, ma);
            }
        }
    }
    Ok(out)
}

/// The reward waiting in the mirror for the item keyed `ma`; zero when no
/// mirror entry carries that key.
pub open spec fn alien_reward_of(aliens: Seq<StakeItem>, ma: u64) -> int {
    if has_mint_account(aliens, ma) {
        aliens[mint_index(aliens, ma)].earned_reward as int
    } else {
        0
    }
}

/// What an alien claim over the ledger `staked` harvests from the mirror.
pub open spec fn harvest_total(staked: Seq<StakeItem>, aliens: Seq<StakeItem>) -> int
    decreases staked.len(),
{
    if staked.len() == 0 {
        0
    } else {
        harvest_total(staked.drop_last(), aliens) + alien_reward_of(
            aliens,
            staked.last().mint_account,
        )
    }
}

/// A mirror entry after the harvest: emptied and stamped if the claimer
/// staked it, untouched otherwise.
pub open spec fn harvested_item(it: StakeItem, staked: Seq<StakeItem>, now: u64) -> StakeItem {
    if has_mint_account(staked, it.mint_account) {
        StakeItem { earned_reward: 0, last_claimed_time: now, ..it }
    } else {
        it
    }
}

/// The whole mirror after the harvest.
pub open spec fn harvested_aliens(aliens: Seq<StakeItem>, staked: Seq<StakeItem>, now: u64) -> Seq<
    StakeItem,
> {
    aliens.map_values(|it: StakeItem| harvested_item(it, staked, now))
}

/// An alien claim succeeds exactly when the vault is initialized and the
/// harvest neither overflows nor exceeds the alien pool.
pub open spec fn alien_claim_ok(u: UserView, v: VaultView) -> bool {
    &&& v.status == VaultStatus::Initialized
    &&& harvest_total(u.items, v.aliens) <= u64::MAX
    &&& harvest_total(u.items, v.aliens) <= v.aliens_pool_amount
}

/// Which error a refused alien claim reports.
pub open spec fn alien_claim_err(v: VaultView) -> ErrorCode {
    if v.status != VaultStatus::Initialized {
        ErrorCode::VaultNotInitialized
    } else {
        ErrorCode::ArithmeticFault
    }
}

/// The vault after a successful alien claim.
pub open spec fn alien_claim_vault_next(u: UserView, v: VaultView, now: u64) -> VaultView {
    VaultView {
        aliens: harvested_aliens(v.aliens, u.items, now),
        aliens_pool_amount: (v.aliens_pool_amount - harvest_total(u.items, v.aliens)) as u64,
        ..v
    }
}

/// Mirror rewards are never negative.
pub proof fn lemma_harvest_nonneg(staked: Seq<StakeItem>, aliens: Seq<StakeItem>)
    ensures
        harvest_total(staked, aliens) >= 0,
    decreases staked.len(),
{
    if staked.len() > 0 {
        lemma_harvest_nonneg(staked.drop_last(), aliens);
    }
}

/// Extending the harvested prefix by one item adds that item's mirror
/// reward.
pub proof fn lemma_harvest_step(staked: Seq<StakeItem>, aliens: Seq<StakeItem>, i: int)
    requires
        0 <= i < staked.len(),
    ensures
        harvest_total(staked.take(i + 1), aliens) == harvest_total(staked.take(i), aliens)
            + alien_reward_of(aliens, staked[i].mint_account),
{
    assert(staked.take(i + 1).drop_last() =~= staked.take(i));
    assert(staked.take(i + 1).last() == staked[i]);
}

/// A prefix harvest never exceeds the whole harvest.
pub proof fn lemma_harvest_take_bound(staked: Seq<StakeItem>, aliens: Seq<StakeItem>, i: int)
    requires
        0 <= i <= staked.len(),
    ensures
        harvest_total(staked.take(i), aliens) <= harvest_total(staked, aliens),
    decreases staked.len() - i,
{
    if i == staked.len() {
        assert(staked.take(i) =~= staked);
    } else {
        lemma_harvest_step(staked, aliens, i);
        lemma_harvest_take_bound(staked, aliens, i + 1);
    }
}

/// Harvests, for an Alien-role staker, everything the CTZN claims have
/// routed to this ledger's items via the mirror: each mirror entry staked
/// here is emptied and stamped, and the sum leaves the alien pool toward
/// the claimer (the transfer itself is owed by the caller). The ledger's
/// own items are not touched.
#[verifier::loop_isolation(false)]
pub fn claim_alien(user: &User, vault: &mut Vault, now: u64) -> (r: Result<u64, ErrorCode>)
    requires
        user_wf(user@),
        vault_wf(old(vault)@),
    ensures
        r is Ok <==> alien_claim_ok(user@, old(vault)@),
        r is Ok ==> final(vault)@ == alien_claim_vault_next(user@, old(vault)@, now),
        r is Ok ==> r->Ok_0 == harvest_total(user@.items, old(vault)@.aliens),
        r is Ok ==> pools_total(final(vault)@) + r->Ok_0 == pools_total(old(vault)@),
        r is Err ==> final(vault)@ == old(vault)@,
        r is Err ==> r == Err::<u64, ErrorCode>(alien_claim_err(old(vault)@)),
        vault_wf(final(vault)@),
        mirrored(user@, old(vault)@) ==> mirrored(user@, final(vault)@),
{
    if vault.status != VaultStatus::Initialized {
        return Err(ErrorCode::VaultNotInitialized);
    }
    let ghost uv = user@;
    let ghost vv = old(vault)@;
    let n = user.items.len();
    let mut total: u64 = 0;
    let mut i: usize = 0;
    while i < n
        invariant
            i <= n,
            total == harvest_total(uv.items.take(i as int), vv.aliens),
        decreases n - i,
    {
        let it = user.items[i];
        proof {
            lemma_harvest_step(uv.items, vv.aliens, i as int);
        }
        let found = find_item_index(&vault.aliens, it.mint_account);
        let reward: u64 = match found {
            Some(j) => {
                proof {
                    lemma_mint_index_unique(vv.aliens, j as int, it.mint_account);
                }
                vault.aliens[j].earned_reward
            },
            None => 0,
        };
        assert(reward == alien_reward_of(vv.aliens, it.mint_account));
        total = match total.checked_add(reward) {
            Some(x) => x,
            None => {
                proof {
                    lemma_harvest_take_bound(uv.items, vv.aliens, i + 1);
                }
                return Err(ErrorCode::ArithmeticFault);
            },
        };
        i += 1;
    }
    proof {
        assert(uv.items.take(n as int) =~= uv.items);
    }
    if total > vault.aliens_pool_amount {
        return Err(ErrorCode::ArithmeticFault);
    }
    let m = vault.aliens.len();
    let mut new_aliens: Vec<StakeItem> = Vec::new();
    let mut j: usize = 0;
    while j < m
        invariant
            j <= m,
            new_aliens@ == harvested_aliens(vv.aliens, uv.items, now).take(j as int),
        decreases m - j,
    {
        let it = vault.aliens[j];
        let matched = find_item_index(&user.items, it.mint_account).is_some();
        let updated = if matched {
            StakeItem { earned_reward: 0, last_claimed_time: now, ..it }
        } else {
            it
        };
        assert(updated == harvested_item(vv.aliens[j as int], uv.items, now));
        new_aliens.push(updated);
        proof {
            assert(harvested_aliens(vv.aliens, uv.items, now).take(j + 1) =~= harvested_aliens(
                vv.aliens,
                uv.items,
                now,
            ).take(j as int).push(harvested_item(vv.aliens[j as int], uv.items, now)));
        }
        j += 1;
    }
    proof {
        assert(harvested_aliens(vv.aliens, uv.items, now).take(m as int) =~= harvested_aliens(
            vv.aliens,
            uv.items,
            now,
        ));
    }
    vault.aliens = new_aliens;
    vault.aliens_pool_amount = vault.aliens_pool_amount - total;
    proof {
        assert(vault@ =~= alien_claim_vault_next(uv, vv, now));
        assert forall|p: int, q: int| 0 <= p < q < vault@.aliens.len()
            implies vault@.aliens[p].mint_account != vault@.aliens[q].mint_account
        by {
            assert(vault@.aliens[p].mint_account == vv.aliens[p].mint_account);
            assert(vault@.aliens[q].mint_account == vv.aliens[q].mint_account);
        }
        assert forall|p: int| 0 <= p < vault@.aliens.len()
            implies is_alien_kind(#[trigger] vault@.aliens[p].item_type)
        by {
            assert(vault@.aliens[p].item_type == vv.aliens[p].item_type);
        }
        lemma_count_same_types(vault@.aliens, vv.aliens, ItemType::NormalAlien);
        lemma_count_same_types(vault@.aliens, vv.aliens, ItemType::AlphaAlien);
        if mirrored(uv, vv) {
            assert forall|p: int|
                0 <= p < uv.items.len() && is_alien_kind(#[trigger] uv.items[p].item_type)
                implies has_mint_account(vault@.aliens, uv.items[p].mint_account)
                    && vault@.aliens[mint_index(vault@.aliens, uv.items[p].mint_account)].item_type
                        == uv.items[p].item_type
            by {
                let ma = uv.items[p].mint_account;
                let q = mint_index(vv.aliens, ma);
                assert(0 <= q < vv.aliens.len() && vv.aliens[q].mint_account == ma);
                assert(vault@.aliens[q].mint_account == ma);
                assert(vault@.aliens[q].item_type == vv.aliens[q].item_type);
                lemma_mint_index_unique(vault@.aliens, q, ma);
            }
        }
    }
    Ok(total)
}

/// What a claim of either role transfers.
#[derive(Clone, Copy, Debug, PartialEq, Eq, Structural)]
pub enum ClaimOutcome {
    Ctzn(CtznClaimOutcome),
    Alien(u64),
}

/// Dispatches a claim by the wire-level role code: `0` settles the ledger
/// as a CTZN claim, anything else harvests it as an alien claim.
pub fn claim(user: &mut User, vault: &mut Vault, user_type: u8, now: u64, rolls: &Vec<u64>) -> (r:
    Result<ClaimOutcome, ErrorCode>)
    requires
        user_wf(old(user)@),
        vault_wf(old(vault)@),
        user_type == 0 ==> rolls@.len() == old(user)@.items.len(),
    ensures
        user_type == 0 ==> {
            &&& r is Ok <==> ctzn_claim_ok(old(user)@, old(vault)@, now, rolls@)
            &&& r is Ok ==> final(user)@ == ctzn_claim_user_next(old(user)@, now, rolls@)
                && final(vault)@ == ctzn_claim_vault_next(old(user)@, old(vault)@, now, rolls@)
                && r->Ok_0 == ClaimOutcome::Ctzn(
                ctzn_claim_outcome(old(user)@, old(vault)@, now, rolls@),
            )
            &&& r is Err ==> r == Err::<ClaimOutcome, ErrorCode>(ctzn_claim_err(old(vault)@))
        },
        user_type != 0 ==> {
            &&& r is Ok <==> alien_claim_ok(old(user)@, old(vault)@)
            &&& r is Ok ==> final(user)@ == old(user)@ && final(vault)@ == alien_claim_vault_next(
                old(user)@,
                old(vault)@,
                now,
            ) && r->Ok_0 == ClaimOutcome::Alien(
                harvest_total(old(user)@.items, old(vault)@.aliens) as u64,
            )
            &&& r is Err ==> r == Err::<ClaimOutcome, ErrorCode>(alien_claim_err(old(vault)@))
        },
        r is Err ==> final(user)@ == old(user)@ && final(vault)@ == old(vault)@,
        user_wf(final(user)@),
        vault_wf(final(vault)@),
        mirrored(old(user)@, old(vault)@) ==> mirrored(final(user)@, final(vault)@),
{
    if user_type == 0 {
        match claim_ctzn(user, vault, now, rolls) {
            Ok(out) => Ok(ClaimOutcome::Ctzn(out)),
            Err(e) => Err(e),
        }
    } else {
        proof {
            lemma_harvest_nonneg(old(user)@.items, old(vault)@.aliens);
        }
        match claim_alien(user, vault, now) {
            Ok(total) => Ok(ClaimOutcome::Alien(total)),
            Err(e) => Err(e),
        }
    }
}

} // verus!
