//! The laws the library stands on, each proved from the contracts of the
//! operations: conservation of pooled value, one-time provisioning, the
//! stake/unstake round trip, the redistribution weight bound, and the
//! uniqueness of a staked asset.

use vstd::prelude::*;
use vstd::arithmetic::div_mod::{lemma_fundamental_div_mod, lemma_mod_bound};
use crate::state::{
    ItemType, StakeItem, UserView, VaultView, count_of_type, has_mint_account, is_alien_kind,
    mint_index, user_wf, vault_wf,
};
use crate::vault::{create_vault_next, create_vault_ok};
use crate::stake::{
    new_item, stake_err, stake_ok, stake_user_next, stake_vault_next, unstake_err,
    unstake_locked, unstake_ok, unstake_user_next, unstake_vault_next,
};
use crate::claim::{
    ctzn_claim_ok, ctzn_claim_vault_next, forfeited_total, redistribute_fits, redistributed_item,
    redistributed_items, redistribution_amount, share_of, total_weight,
};

verus! {

/// One settled operation's effect on the three pool balances, as each
/// operation's contract reports it: what was funded in, what each claim
/// moved, and what was withdrawn.
#[derive(Clone, Copy, Debug, PartialEq, Eq, Structural)]
pub enum PoolEvent {
    Funded { amount: u64 },
    CtznClaimed { to_claimer: u64, to_aliens_pool: u64, to_gods_pool: u64 },
    AlienClaimed { amount: u64 },
    CtznsWithdrawn { amount: u64 },
    AliensWithdrawn { amount: u64 },
    GodsWithdrawn { amount: u64 },
}

/// The three pool balances on their own.
#[derive(Clone, Copy, Debug, PartialEq, Eq, Structural)]
pub struct PoolBalances {
    pub ctzns: u64,
    pub aliens: u64,
    pub gods: u64,
}

/// The pool balances a vault holds.
pub open spec fn pool_balances(v: VaultView) -> PoolBalances {
    PoolBalances {
        ctzns: v.ctzns_pool_amount,
        aliens: v.aliens_pool_amount,
        gods: v.gods_pool_amount,
    }
}

/// Sum of the three balances.
pub open spec fn balances_total(p: PoolBalances) -> int {
    p.ctzns + p.aliens + p.gods
}

/// An event the pools can absorb: nothing overflows and nothing is drawn
/// beyond what its pool holds. Each operation's contract establishes this
/// for the event it reports.
pub open spec fn event_fits(p: PoolBalances, e: PoolEvent) -> bool {
    match e {
        PoolEvent::Funded { amount } => p.ctzns + amount <= u64::MAX,
        PoolEvent::CtznClaimed { to_claimer, to_aliens_pool, to_gods_pool } => {
            &&& to_claimer + to_aliens_pool + to_gods_pool <= p.ctzns
            &&& p.aliens + to_aliens_pool <= u64::MAX
            &&& p.gods + to_gods_pool <= u64::MAX
        },
        PoolEvent::AlienClaimed { amount } => amount <= p.aliens,
        PoolEvent::CtznsWithdrawn { amount } => amount <= p.ctzns,
        PoolEvent::AliensWithdrawn { amount } => amount <= p.aliens,
        PoolEvent::GodsWithdrawn { amount } => amount <= p.gods,
    }
}

/// The balances after one event.
pub open spec fn apply_event(p: PoolBalances, e: PoolEvent) -> PoolBalances {
    match e {
        PoolEvent::Funded { amount } => PoolBalances { ctzns: (p.ctzns + amount) as u64, ..p },
        PoolEvent::CtznClaimed { to_claimer, to_aliens_pool, to_gods_pool } => PoolBalances {
            ctzns: (p.ctzns - to_claimer - to_aliens_pool - to_gods_pool) as u64,
            aliens: (p.aliens + to_aliens_pool) as u64,
            gods: (p.gods + to_gods_pool) as u64,
        },
        PoolEvent::AlienClaimed { amount } => PoolBalances {
            aliens: (p.aliens - amount) as u64,
            ..p
        },
        PoolEvent::CtznsWithdrawn { amount } => PoolBalances {
            ctzns: (p.ctzns - amount) as u64,
            ..p
        },
        PoolEvent::AliensWithdrawn { amount } => PoolBalances {
            aliens: (p.aliens - amount) as u64,
            ..p
        },
        PoolEvent::GodsWithdrawn { amount } => PoolBalances {
            gods: (p.gods - amount) as u64,
            ..p
        },
    }
}

/// The balances after a whole history of events.
pub open spec fn apply_events(p: PoolBalances, es: Seq<PoolEvent>) -> PoolBalances
    decreases es.len(),
{
    if es.len() == 0 {
        p
    } else {
        apply_event(apply_events(p, es.drop_last()), es.last())
    }
}

/// Every event of the history fits the balances it meets.
pub open spec fn events_fit(p: PoolBalances, es: Seq<PoolEvent>) -> bool
    decreases es.len(),
{
    if es.len() == 0 {
        true
    } else {
        events_fit(p, es.drop_last()) && event_fits(apply_events(p, es.drop_last()), es.last())
    }
}

/// What a history pays out of the pools: claims to claimers, withdrawals
/// to the authority. Transfers between pools pay nothing out.
pub open spec fn total_paid_out(es: Seq<PoolEvent>) -> int
    decreases es.len(),
{
    if es.len() == 0 {
        0
    } else {
        total_paid_out(es.drop_last()) + match es.last() {
            PoolEvent::Funded { amount } => 0int,
            PoolEvent::CtznClaimed { to_claimer, .. } => to_claimer as int,
            PoolEvent::AlienClaimed { amount } => amount as int,
            PoolEvent::CtznsWithdrawn { amount } => amount as int,
            PoolEvent::AliensWithdrawn { amount } => amount as int,
            PoolEvent::GodsWithdrawn { amount } => amount as int,
        }
    }
}

/// What a history funds into the pools.
pub open spec fn total_funded(es: Seq<PoolEvent>) -> int
    decreases es.len(),
{
    if es.len() == 0 {
        0
    } else {
        total_funded(es.drop_last()) + match es.last() {
            PoolEvent::Funded { amount } => amount as int,
            _ => 0int,
        }
    }
}

/// Conservation of pooled value: over any history of funding, claims and
/// withdrawals that the pools can absorb, what the pools hold plus what
/// ever left them equals what was ever funded plus the opening balance —
/// so the outstanding claimed amounts never exceed the total funded, and
/// the balances (being fixed-width non-negative integers that never
/// underflow) never go negative.
pub proof fn lemma_pool_conservation(p: PoolBalances, es: Seq<PoolEvent>)
    requires
        events_fit(p, es),
    ensures
        balances_total(apply_events(p, es)) + total_paid_out(es) == balances_total(p)
            + total_funded(es),
        balances_total(apply_events(p, es)) >= 0,
    decreases es.len(),
{
    if es.len() > 0 {
        lemma_pool_conservation(p, es.drop_last());
    }
}

/// A successful `fund` is the `Funded` event: it fits the pools it meets,
/// and the vault it leaves holds exactly the event's balances.
pub proof fn lemma_fund_is_event(v: VaultView, amount: u64)
    requires
        crate::vault::fund_ok(v, amount),
    ensures
        event_fits(pool_balances(v), PoolEvent::Funded { amount }),
        apply_event(pool_balances(v), PoolEvent::Funded { amount }) == pool_balances(
            VaultView { ctzns_pool_amount: (v.ctzns_pool_amount + amount) as u64, ..v },
        ),
{
}

/// A successful CTZN-pool withdrawal is the `CtznsWithdrawn` event.
pub proof fn lemma_withdraw_ctzns_is_event(v: VaultView, signer: u64, amount: u64)
    requires
        crate::vault::withdraw_ok(v, signer, amount, v.ctzns_pool_amount),
    ensures
        event_fits(pool_balances(v), PoolEvent::CtznsWithdrawn { amount }),
        apply_event(pool_balances(v), PoolEvent::CtznsWithdrawn { amount }) == pool_balances(
            VaultView { ctzns_pool_amount: (v.ctzns_pool_amount - amount) as u64, ..v },
        ),
{
}

/// A successful alien-pool withdrawal is the `AliensWithdrawn` event.
pub proof fn lemma_withdraw_aliens_is_event(v: VaultView, signer: u64, amount: u64)
    requires
        crate::vault::withdraw_ok(v, signer, amount, v.aliens_pool_amount),
    ensures
        event_fits(pool_balances(v), PoolEvent::AliensWithdrawn { amount }),
        apply_event(pool_balances(v), PoolEvent::AliensWithdrawn { amount }) == pool_balances(
            VaultView { aliens_pool_amount: (v.aliens_pool_amount - amount) as u64, ..v },
        ),
{
}

/// A successful god-pool withdrawal is the `GodsWithdrawn` event.
pub proof fn lemma_withdraw_gods_is_event(v: VaultView, signer: u64, amount: u64)
    requires
        crate::vault::withdraw_ok(v, signer, amount, v.gods_pool_amount),
    ensures
        event_fits(pool_balances(v), PoolEvent::GodsWithdrawn { amount }),
        apply_event(pool_balances(v), PoolEvent::GodsWithdrawn { amount }) == pool_balances(
            VaultView { gods_pool_amount: (v.gods_pool_amount - amount) as u64, ..v },
        ),
{
}

/// A successful CTZN claim is the `CtznClaimed` event carrying its three
/// clamped transfers.
pub proof fn lemma_ctzn_claim_is_event(u: UserView, v: VaultView, now: u64, rolls: Seq<u64>)
    requires
        ctzn_claim_ok(u, v, now, rolls),
    ensures
        ({
            let out = crate::claim::ctzn_claim_outcome(u, v, now, rolls);
            let e = PoolEvent::CtznClaimed {
                to_claimer: out.to_claimer,
                to_aliens_pool: out.to_aliens_pool,
                to_gods_pool: out.to_gods_pool,
            };
            &&& event_fits(pool_balances(v), e)
            &&& apply_event(pool_balances(v), e) == pool_balances(
                ctzn_claim_vault_next(u, v, now, rolls),
            )
        }),
{
    let c0 = crate::claim::settled_total(u.items, now, rolls);
    let f0 = forfeited_total(u.items, now, rolls);
    crate::claim::lemma_clamp_sum(
        v.ctzns_pool_amount,
        c0 as u64,
        redistribution_amount(f0) as u64,
        crate::claim::burn_amount(f0) as u64,
    );
}

/// A successful alien claim is the `AlienClaimed` event carrying the
/// harvested total.
pub proof fn lemma_alien_claim_is_event(u: UserView, v: VaultView, now: u64)
    requires
        crate::claim::alien_claim_ok(u, v),
    ensures
        ({
            let e = PoolEvent::AlienClaimed {
                amount: crate::claim::harvest_total(u.items, v.aliens) as u64,
            };
            &&& event_fits(pool_balances(v), e)
            &&& apply_event(pool_balances(v), e) == pool_balances(
                crate::claim::alien_claim_vault_next(u, v, now),
            )
        }),
{
    crate::claim::lemma_harvest_nonneg(u.items, v.aliens);
}

/// One-time provisioning: a vault that could be created cannot be created
/// again after the creation; the second attempt is refused as already
/// created, whatever identities it names, since readiness depends on the
/// status alone. (The exec contract adds that the refused attempt changes
/// nothing.)
pub proof fn lemma_create_vault_once(v: VaultView, authority: u64, reward_mint: u64)
    requires
        create_vault_ok(v),
    ensures
        !create_vault_ok(create_vault_next(v, authority, reward_mint)),
{
}

/// Stake/unstake round trip: staking an asset and then unstaking it by
/// force, at any later time, restores the ledger's items and count and the
/// vault's mirror and census exactly.
pub proof fn lemma_stake_unstake_round_trip(
    u: UserView,
    v: VaultView,
    mint: u64,
    mint_account: u64,
    t: ItemType,
    now: u64,
    later: u64,
)
    requires
        user_wf(u),
        vault_wf(v),
        stake_ok(u, v, mint_account, t),
    ensures
        ({
            let it = new_item(mint, mint_account, t, now);
            let u1 = stake_user_next(u, it);
            let v1 = stake_vault_next(v, it);
            &&& unstake_ok(u1, v1, mint_account, true, later)
            &&& unstake_user_next(u1, mint_account) == u
            &&& unstake_vault_next(v1, it) == v
        }),
{
    let it = new_item(mint, mint_account, t, now);
    let u1 = stake_user_next(u, it);
    let v1 = stake_vault_next(v, it);
    let li = u.items.len() as int;
    assert(u1.items[li] == it);
    assert(has_mint_account(u1.items, mint_account));
    assert forall|i: int| 0 <= i < u1.items.len() && u1.items[i].mint_account == mint_account
        implies i == li
    by {
        if i < li {
            assert(u1.items[i] == u.items[i]);
            assert(has_mint_account(u.items, mint_account));
        }
    }
    assert(mint_index(u1.items, mint_account) == li);
    assert(unstake_user_next(u1, mint_account).items =~= u.items);
    assert(unstake_user_next(u1, mint_account) =~= u);
    if is_alien_kind(t) {
        let la = v.aliens.len() as int;
        assert(v1.aliens == v.aliens.push(it));
        assert(v1.aliens[la] == it);
        assert forall|i: int| 0 <= i < v1.aliens.len() && v1.aliens[i].mint_account == mint_account
            implies i == la
        by {
            if i < la {
                assert(v1.aliens[i] == v.aliens[i]);
                assert(has_mint_account(v.aliens, mint_account));
            }
        }
        assert(mint_index(v1.aliens, mint_account) == la);
        assert(unstake_vault_next(v1, it).aliens =~= v.aliens);
        assert(unstake_vault_next(v1, it) =~= v);
    } else {
        assert(unstake_vault_next(v1, it) =~= v);
    }
}

/// Duplicate refusal: under an initialized vault, staking an asset whose
/// key is already in the ledger is refused as already staked, whatever
/// kind the attempt claims. (The exec contract adds that the refused
/// attempt changes nothing.)
pub proof fn lemma_stake_duplicate_refused(u: UserView, v: VaultView, mint_account: u64, t: ItemType)
    requires
        v.status == crate::state::VaultStatus::Initialized,
        has_mint_account(u.items, mint_account),
    ensures
        !stake_ok(u, v, mint_account, t),
        stake_err(u, v, mint_account, t) == crate::state::ErrorCode::AlreadyStakedAccount,
{
}

/// The lock on any staked position: under an initialized vault, an
/// unforced unstake from an Alien-role ledger whose matching item was last
/// claimed at `t0` is refused as locked while `now` is within 172800
/// seconds of `t0`; a forced unstake of a present item is allowed at any
/// time. (The exec contract adds that the refusal changes nothing.)
pub proof fn lemma_unstake_lock_refusal(u: UserView, v: VaultView, mint_account: u64, now: u64)
    requires
        v.status == crate::state::VaultStatus::Initialized,
        has_mint_account(u.items, mint_account),
    ensures
        ({
            let it = u.items[mint_index(u.items, mint_account)];
            &&& (u.user_type == crate::state::UserType::Alien && (now as int) < it.last_claimed_time
                + 172800) ==> !unstake_ok(u, v, mint_account, false, now) && unstake_err(
                u,
                v,
                mint_account,
            ) == crate::state::ErrorCode::CannotUnstakeAlien
            &&& unstake_ok(u, v, mint_account, true, now)
        }),
{
    let it = u.items[mint_index(u.items, mint_account)];
    assert(!unstake_locked(u, it, true, now));
}

/// Lock enforcement: an item staked into an Alien-role ledger at time `t0`
/// cannot be unstaked without force before `t0 + 172800` seconds, and a
/// forced unstake is allowed at any time.
pub proof fn lemma_lock_enforcement(
    u: UserView,
    v: VaultView,
    mint: u64,
    mint_account: u64,
    t: ItemType,
    t0: u64,
    now: u64,
)
    requires
        user_wf(u),
        vault_wf(v),
        stake_ok(u, v, mint_account, t),
        u.user_type == crate::state::UserType::Alien,
    ensures
        ({
            let it = new_item(mint, mint_account, t, t0);
            let u1 = stake_user_next(u, it);
            let v1 = stake_vault_next(v, it);
            &&& (now as int) < t0 + 172800 ==> !unstake_ok(u1, v1, mint_account, false, now)
            &&& unstake_ok(u1, v1, mint_account, true, now)
        }),
{
    let it = new_item(mint, mint_account, t, t0);
    let u1 = stake_user_next(u, it);
    let v1 = stake_vault_next(v, it);
    let li = u.items.len() as int;
    assert(u1.items[li] == it);
    assert(has_mint_account(u1.items, mint_account));
    assert forall|i: int| 0 <= i < u1.items.len() && u1.items[i].mint_account == mint_account
        implies i == li
    by {
        if i < li {
            assert(u1.items[i] == u.items[i]);
            assert(has_mint_account(u.items, mint_account));
        }
    }
    assert(mint_index(u1.items, mint_account) == li);
    assert(u1.items[mint_index(u1.items, mint_account)].last_claimed_time == t0);
}

/// Uniqueness within one ledger: once an asset is staked, staking the same
/// asset into the same ledger again is refused as already staked, whatever
/// kind the second attempt claims.
pub proof fn lemma_stake_twice_same_ledger(
    u: UserView,
    v: VaultView,
    mint: u64,
    mint_account: u64,
    t: ItemType,
    now: u64,
    t2: ItemType,
)
    requires
        stake_ok(u, v, mint_account, t),
    ensures
        ({
            let it = new_item(mint, mint_account, t, now);
            let u1 = stake_user_next(u, it);
            let v1 = stake_vault_next(v, it);
            &&& !stake_ok(u1, v1, mint_account, t2)
            &&& stake_err(u1, v1, mint_account, t2) == crate::state::ErrorCode::AlreadyStakedAccount
        }),
{
    let it = new_item(mint, mint_account, t, now);
    let u1 = stake_user_next(u, it);
    assert(u1.items[u.items.len() as int] == it);
    assert(has_mint_account(u1.items, mint_account));
}

/// Uniqueness across ledgers for alien kinds: once an alien-kind asset is
/// staked by anyone, staking the same asset as an alien kind from any
/// other ledger is refused as already staked.
pub proof fn lemma_stake_twice_other_ledger(
    u: UserView,
    u2: UserView,
    v: VaultView,
    mint: u64,
    mint_account: u64,
    t: ItemType,
    now: u64,
    t2: ItemType,
)
    requires
        stake_ok(u, v, mint_account, t),
        is_alien_kind(t),
        is_alien_kind(t2),
    ensures
        ({
            let it = new_item(mint, mint_account, t, now);
            let v1 = stake_vault_next(v, it);
            &&& !stake_ok(u2, v1, mint_account, t2)
            &&& (v1.status == crate::state::VaultStatus::Initialized && !has_mint_account(
                u2.items,
                mint_account,
            )) ==> stake_err(u2, v1, mint_account, t2)
                == crate::state::ErrorCode::AlreadyStakedAccount
        }),
{
    let it = new_item(mint, mint_account, t, now);
    let v1 = stake_vault_next(v, it);
    assert(v1.aliens == v.aliens.push(it));
    assert(v1.aliens[v.aliens.len() as int] == it);
    assert(has_mint_account(v1.aliens, mint_account));
}

/// Sum of the unsettled rewards over a list of items.
pub open spec fn earned_sum(s: Seq<StakeItem>) -> int
    decreases s.len(),
{
    if s.len() == 0 {
        0
    } else {
        earned_sum(s.drop_last()) + s.last().earned_reward
    }
}

/// Summing the redistribution item by item gives one share per counted
/// item of each kind.
proof fn lemma_redistribution_sum(aliens: Seq<StakeItem>, d: int, tw: int)
    requires
        forall|i: int| 0 <= i < aliens.len() ==> is_alien_kind(#[trigger] aliens[i].item_type),
        redistribute_fits(aliens, d, tw),
        d >= 0,
        tw > 0,
    ensures
        earned_sum(redistributed_items(aliens, d, tw)) == earned_sum(aliens) + count_of_type(
            aliens,
            ItemType::NormalAlien,
        ) * (d * 5 / tw) + count_of_type(aliens, ItemType::AlphaAlien) * (d * 6 / tw),
    decreases aliens.len(),
{
    let r = redistributed_items(aliens, d, tw);
    if aliens.len() == 0 {
        assert(r =~= Seq::<StakeItem>::empty());
    } else {
        let pre = aliens.drop_last();
        let lst = aliens.last();
        assert forall|i: int| 0 <= i < pre.len() implies is_alien_kind(
            #[trigger] pre[i].item_type,
        ) by {
            assert(pre[i] == aliens[i]);
        }
        assert forall|i: int| 0 <= i < pre.len() implies {
            &&& (if (#[trigger] pre[i]).item_type == ItemType::NormalAlien {
                d * 5 <= u64::MAX
            } else {
                d * 6 <= u64::MAX
            })
            &&& pre[i].earned_reward + share_of(pre[i].item_type, d, tw) <= u64::MAX
        } by {
            assert(pre[i] == aliens[i]);
        }
        assert(redistributed_items(pre, d, tw) =~= r.drop_last());
        lemma_redistribution_sum(pre, d, tw);
        assert(r.last() == redistributed_item(lst, d, tw));
        let li = aliens.len() - 1;
        assert(aliens[li] == lst);
        assert(lst.earned_reward + share_of(lst.item_type, d, tw) <= u64::MAX);
        assert(share_of(lst.item_type, d, tw) >= 0) by {
            vstd::arithmetic::div_mod::lemma_div_pos_is_pos(
                if lst.item_type == ItemType::NormalAlien {
                    d * 5
                } else {
                    d * 6
                },
                tw,
            );
        }
        assert(r.last().earned_reward == lst.earned_reward + share_of(lst.item_type, d, tw));
        assert(is_alien_kind(lst.item_type));
        let cn = count_of_type(pre, ItemType::NormalAlien);
        let ca = count_of_type(pre, ItemType::AlphaAlien);
        assert((cn + 1) * (d * 5 / tw) == cn * (d * 5 / tw) + d * 5 / tw) by (nonlinear_arith);
        assert((ca + 1) * (d * 6 / tw) == ca * (d * 6 / tw) + d * 6 / tw) by (nonlinear_arith);
        if lst.item_type == ItemType::NormalAlien {
            assert(count_of_type(aliens, ItemType::NormalAlien) == count_of_type(
                pre,
                ItemType::NormalAlien,
            ) + 1);
            assert(count_of_type(aliens, ItemType::AlphaAlien) == count_of_type(
                pre,
                ItemType::AlphaAlien,
            ));
        } else {
            assert(count_of_type(aliens, ItemType::AlphaAlien) == count_of_type(
                pre,
                ItemType::AlphaAlien,
            ) + 1);
        }
    }
}

/// The arithmetic core of the weight law: distributing `d = f*3/4` over
/// `n` five-point and `m` six-point items, each share truncated against the
/// total weight `tw = 5n + 6m`, hands out no more than `d` and no less
/// than `d - tw`.
proof fn lemma_weight_arithmetic(f: int, n: int, m: int)
    requires
        f >= 0,
        n >= 0,
        m >= 0,
        n + m >= 1,
    ensures
        ({
            let tw = 5 * n + 6 * m;
            let d = f * 3 / 4;
            let added = n * (d * 5 / tw) + m * (d * 6 / tw);
            &&& added <= d
            &&& d - added <= tw
        }),
{
    let tw = 5 * n + 6 * m;
    let d = f * 3 / 4;
    let s5 = d * 5 / tw;
    let s6 = d * 6 / tw;
    let added = n * s5 + m * s6;
    assert(tw >= 5);
    assert(d >= 0) by {
        vstd::arithmetic::div_mod::lemma_div_pos_is_pos(f * 3, 4);
    }
    // Division bounds for the two shares.
    lemma_fundamental_div_mod(d * 5, tw);
    lemma_mod_bound(d * 5, tw);
    lemma_fundamental_div_mod(d * 6, tw);
    lemma_mod_bound(d * 6, tw);
    let r5 = (d * 5) % tw;
    let r6 = (d * 6) % tw;
    assert(tw * s5 == d * 5 - r5);
    assert(tw * s6 == d * 6 - r6);
    assert(added * tw == n * (d * 5 - r5) + m * (d * 6 - r6)) by (nonlinear_arith)
        requires
            added == n * s5 + m * s6,
            tw * s5 == d * 5 - r5,
            tw * s6 == d * 6 - r6,
    ;
    assert(n * (d * 5 - r5) + m * (d * 6 - r6) == d * tw - (n * r5 + m * r6)) by (nonlinear_arith)
        requires
            tw == 5 * n + 6 * m,
    ;
    assert(0 <= n * r5 + m * r6 <= (n + m) * tw) by (nonlinear_arith)
        requires
            n >= 0,
            m >= 0,
            0 <= r5 < tw,
            0 <= r6 < tw,
    ;
    assert(added <= d) by (nonlinear_arith)
        requires
            added * tw <= d * tw,
            tw > 0,
    ;
    assert(added * tw >= (d - (n + m)) * tw) by (nonlinear_arith)
        requires
            added * tw == d * tw - (n * r5 + m * r6),
            n * r5 + m * r6 <= (n + m) * tw,
    ;
    assert(added >= d - (n + m)) by (nonlinear_arith)
        requires
            added * tw >= (d - (n + m)) * tw,
            tw > 0,
    ;
    assert(d - added <= n + m);
}

/// Redistribution weight law: when a CTZN claim forfeits a total of `f`
/// with at least one staked alien item, the rewards added across the
/// vault's mirror sum to `f*3/4`, short only of the truncation loss, which
/// is bounded by the total weight of the census.
pub proof fn lemma_redistribution_weight(u: UserView, v: VaultView, now: u64, rolls: Seq<u64>)
    requires
        vault_wf(v),
        ctzn_claim_ok(u, v, now, rolls),
        v.aliens.len() >= 1,
    ensures
        ({
            let f = forfeited_total(u.items, now, rolls);
            let next = ctzn_claim_vault_next(u, v, now, rolls);
            let added = earned_sum(next.aliens) - earned_sum(v.aliens);
            &&& added <= f * 3 / 4
            &&& f * 3 / 4 - added <= total_weight(v.normal_aliens_count, v.alpha_aliens_count)
        }),
{
    let f = forfeited_total(u.items, now, rolls);
    let d = redistribution_amount(f);
    let n = v.normal_aliens_count as int;
    let m = v.alpha_aliens_count as int;
    let tw = total_weight(v.normal_aliens_count, v.alpha_aliens_count);
    crate::claim::lemma_totals_nonneg(u.items, now, rolls);
    assert(n + m >= 1);
    assert(tw > 0);
    assert(d == f * 3 / 4);
    assert(d >= 0) by {
        vstd::arithmetic::div_mod::lemma_div_pos_is_pos(f * 3, 4);
    }
    lemma_redistribution_sum(v.aliens, d, tw);
    lemma_weight_arithmetic(f, n, m);
}

} // verus!
