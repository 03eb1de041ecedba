//! Stake and unstake transitions: appending a position to a ledger (and,
//! for alien kinds, to the vault's mirror), and removing it again under the
//! alien time lock.

use vstd::prelude::*;
use crate::state::{
    ErrorCode, ItemType, StakeItem, User, UserType, UserView, Vault, VaultStatus, VaultView,
    find_item_index, has_mint_account, is_alien_kind, lemma_count_pos, lemma_count_push,
    lemma_count_remove, lemma_mint_index_unique, lemma_unique_remove, mint_index, mirrored,
    user_wf, vault_wf,
};

verus! {

/// How the wire-level item-kind code is read.
pub open spec fn item_type_of_code(code: u8) -> ItemType {
    if code == 0 {
        ItemType::NormalCTZN
    } else if code == 1 {
        ItemType::NormalAlien
    } else if code == 2 {
        ItemType::AlphaAlien
    } else {
        ItemType::AlienGod
    }
}

/// Decodes the caller-supplied item-kind code.
pub fn item_type_from_code(code: u8) -> (t: ItemType)
    ensures
        t == item_type_of_code(code),
{
    if code == 0 {
        ItemType::NormalCTZN
    } else if code == 1 {
        ItemType::NormalAlien
    } else if code == 2 {
        ItemType::AlphaAlien
    } else {
        ItemType::AlienGod
    }
}

/// A freshly staked position: both timestamps at `now`, nothing earned yet.
pub open spec fn new_item(mint: u64, mint_account: u64, t: ItemType, now: u64) -> StakeItem {
    StakeItem {
        mint,
        mint_account,
        item_type: t,
        first_staked_time: now,
        last_claimed_time: now,
        earned_reward: 0,
    }
}

/// Staking succeeds exactly when the vault is initialized, the asset is not
/// already staked (in this ledger, nor — for alien kinds — anywhere in the
/// vault's mirror), and no counter overflows.
pub open spec fn stake_ok(u: UserView, v: VaultView, mint_account: u64, t: ItemType) -> bool {
    &&& v.status == VaultStatus::Initialized
    &&& !has_mint_account(u.items, mint_account)
    &&& !(is_alien_kind(t) && has_mint_account(v.aliens, mint_account))
    &&& u.items_count < u32::MAX
    &&& (t == ItemType::NormalAlien ==> v.normal_aliens_count < u8::MAX)
    &&& (t == ItemType::AlphaAlien ==> v.alpha_aliens_count < u8::MAX)
}

/// Which error a refused `stake` reports.
pub open spec fn stake_err(u: UserView, v: VaultView, mint_account: u64, t: ItemType) -> ErrorCode {
    if v.status != VaultStatus::Initialized {
        ErrorCode::VaultNotInitialized
    } else if has_mint_account(u.items, mint_account) || (is_alien_kind(t) && has_mint_account(
        v.aliens,
        mint_account,
    )) {
        ErrorCode::AlreadyStakedAccount
    } else {
        ErrorCode::ArithmeticFault
    }
}

/// The ledger after staking `it`.
pub open spec fn stake_user_next(u: UserView, it: StakeItem) -> UserView {
    UserView { items_count: (u.items_count + 1) as u32, items: u.items.push(it), ..u }
}

/// The vault after staking `it`: alien kinds are mirrored and counted.
pub open spec fn stake_vault_next(v: VaultView, it: StakeItem) -> VaultView {
    if it.item_type == ItemType::NormalAlien {
        VaultView {
            normal_aliens_count: (v.normal_aliens_count + 1) as u8,
            aliens: v.aliens.push(it),
            ..v
        }
    } else if it.item_type == ItemType::AlphaAlien {
        VaultView {
            alpha_aliens_count: (v.alpha_aliens_count + 1) as u8,
            aliens: v.aliens.push(it),
            ..v
        }
    } else {
        v
    }
}

/// Stakes the asset `mint_account` (an NFT of mint `mint`) into the ledger
/// with the caller-supplied kind code, at time `now`. Custody of the asset
/// moves to the vault on the caller's side only when this returns `Ok`.
pub fn stake(
    user: &mut User,
    vault: &mut Vault,
    mint: u64,
    mint_account: u64,
    item_type: u8,
    now: u64,
) -> (r: Result<(), ErrorCode>)
    requires
        user_wf(old(user)@),
        vault_wf(old(vault)@),
        mirrored(old(user)@, old(vault)@),
    ensures
        r is Ok <==> stake_ok(old(user)@, old(vault)@, mint_account, item_type_of_code(item_type)),
        r is Ok ==> final(user)@ == stake_user_next(
            old(user)@,
            new_item(mint, mint_account, item_type_of_code(item_type), now),
        ),
        r is Ok ==> final(vault)@ == stake_vault_next(
            old(vault)@,
            new_item(mint, mint_account, item_type_of_code(item_type), now),
        ),
        r is Err ==> final(user)@ == old(user)@ && final(vault)@ == old(vault)@,
        r is Err ==> r == Err::<(), ErrorCode>(
            stake_err(old(user)@, old(vault)@, mint_account, item_type_of_code(item_type)),
        ),
        user_wf(final(user)@),
        vault_wf(final(vault)@),
        mirrored(final(user)@, final(vault)@),
{
    if vault.status != VaultStatus::Initialized {
        return Err(ErrorCode::VaultNotInitialized);
    }
    let t = item_type_from_code(item_type);
    if find_item_index(&user.items, mint_account).is_some() {
        return Err(ErrorCode::AlreadyStakedAccount);
    }
    let alien_kind = t == ItemType::NormalAlien || t == ItemType::AlphaAlien;
    if alien_kind && find_item_index(&vault.aliens, mint_account).is_some() {
        return Err(ErrorCode::AlreadyStakedAccount);
    }
    let new_count = match user.items_count.checked_add(1) {
        Some(c) => c,
        None => {
            return Err(ErrorCode::ArithmeticFault);
        },
    };
    let new_normal = if t == ItemType::NormalAlien {
        match vault.normal_aliens_count.checked_add(1) {
            Some(c) => c,
            None => {
                return Err(ErrorCode::ArithmeticFault);
            },
        }
    } else {
        vault.normal_aliens_count
    };
    let new_alpha = if t == ItemType::AlphaAlien {
        match vault.alpha_aliens_count.checked_add(1) {
            Some(c) => c,
            None => {
                return Err(ErrorCode::ArithmeticFault);
            },
        }
    } else {
        vault.alpha_aliens_count
    };
    let item = StakeItem {
        mint,
        mint_account,
        item_type: t,
        first_staked_time: now,
        last_claimed_time: now,
        earned_reward: 0,
    };
    user.items_count = new_count;
    user.items.push(item);
    vault.normal_aliens_count = new_normal;
    vault.alpha_aliens_count = new_alpha;
    if alien_kind {
        vault.aliens.push(item);
    }
    proof {
        let uv = old(user)@;
        let vv = old(vault)@;
        assert(user@.items =~= uv.items.push(item));
        assert(user@ =~= stake_user_next(uv, item));
        lemma_count_push(vv.aliens, item, ItemType::NormalAlien);
        lemma_count_push(vv.aliens, item, ItemType::AlphaAlien);
        if alien_kind {
            assert(vault@.aliens =~= vv.aliens.push(item));
        }
        assert(vault@ =~= stake_vault_next(vv, item));
        // Uniqueness of the grown sequences: the new key was absent.
        assert forall|p: int, q: int| 0 <= p < q < user@.items.len()
            implies user@.items[p].mint_account != user@.items[q].mint_account
        by {
            if q == user@.items.len() - 1 {
                assert(user@.items[p] == uv.items[p]);
            }
        }
        assert forall|p: int, q: int| 0 <= p < q < vault@.aliens.len()
            implies vault@.aliens[p].mint_account != vault@.aliens[q].mint_account
        by {
            if alien_kind && q == vault@.aliens.len() - 1 {
                assert(vault@.aliens[p] == vv.aliens[p]);
            }
        }
        // Every alien-kind ledger item still has its mirror.
        assert forall|i: int|
            0 <= i < user@.items.len() && is_alien_kind(#[trigger] user@.items[i].item_type)
            implies has_mint_account(vault@.aliens, user@.items[i].mint_account)
                && vault@.aliens[mint_index(vault@.aliens, user@.items[i].mint_account)].item_type
                    == user@.items[i].item_type
        by {
            if i < uv.items.len() {
                assert(user@.items[i] == uv.items[i]);
                let ma = uv.items[i].mint_account;
                let j = mint_index(vv.aliens, ma);
                assert(0 <= j < vv.aliens.len() && vv.aliens[j].mint_account == ma);
                assert(vault@.aliens[j] == vv.aliens[j]);
                lemma_mint_index_unique(vault@.aliens, j, ma);
            } else {
                let j = vault@.aliens.len() - 1;
                assert(vault@.aliens[j] == item);
                lemma_mint_index_unique(vault@.aliens, j, mint_account);
            }
        }
    }
    Ok(())
}

/// Seconds an alien-role position stays locked after a claim.
pub open spec fn unstake_lock_seconds() -> int {
    172800
}

/// The alien time lock: an unforced unstake from an Alien-role ledger is
/// refused until two days have passed since the item was last claimed.
pub open spec fn unstake_locked(u: UserView, it: StakeItem, forced: bool, now: u64) -> bool {
    !forced && u.user_type == UserType::Alien && (now as int) < it.last_claimed_time
        + unstake_lock_seconds()
}

/// Unstaking succeeds exactly when the vault is initialized, the asset is
/// staked in this ledger, and the alien time lock does not bar it.
pub open spec fn unstake_ok(u: UserView, v: VaultView, mint_account: u64, forced: bool, now: u64) -> bool {
    &&& v.status == VaultStatus::Initialized
    &&& has_mint_account(u.items, mint_account)
    &&& !unstake_locked(u, u.items[mint_index(u.items, mint_account)], forced, now)
}

/// Which error a refused `unstake` reports.
pub open spec fn unstake_err(u: UserView, v: VaultView, mint_account: u64) -> ErrorCode {
    if v.status != VaultStatus::Initialized {
        ErrorCode::VaultNotInitialized
    } else if !has_mint_account(u.items, mint_account) {
        ErrorCode::StakedAccountDoesNotExist
    } else {
        ErrorCode::CannotUnstakeAlien
    }
}

/// The ledger after unstaking the position keyed by `mint_account`.
pub open spec fn unstake_user_next(u: UserView, mint_account: u64) -> UserView {
    UserView {
        items_count: (u.items_count - 1) as u32,
        items: u.items.remove(mint_index(u.items, mint_account)),
        ..u
    }
}

/// The vault after unstaking `it`: an alien kind leaves the mirror and its
/// count; other kinds leave the vault untouched.
pub open spec fn unstake_vault_next(v: VaultView, it: StakeItem) -> VaultView {
    if it.item_type == ItemType::NormalAlien {
        VaultView {
            normal_aliens_count: (v.normal_aliens_count - 1) as u8,
            aliens: v.aliens.remove(mint_index(v.aliens, it.mint_account)),
            ..v
        }
    } else if it.item_type == ItemType::AlphaAlien {
        VaultView {
            alpha_aliens_count: (v.alpha_aliens_count - 1) as u8,
            aliens: v.aliens.remove(mint_index(v.aliens, it.mint_account)),
            ..v
        }
    } else {
        v
    }
}

/// Unstakes the position keyed by `mint_account` at time `now`. `forced`
/// bypasses the alien time lock unconditionally. Custody of the asset
/// reverts to the staker on the caller's side only when this returns `Ok`.
pub fn unstake(
    user: &mut User,
    vault: &mut Vault,
    mint_account: u64,
    forced: bool,
    now: u64,
) -> (r: Result<(), ErrorCode>)
    requires
        user_wf(old(user)@),
        vault_wf(old(vault)@),
        mirrored(old(user)@, old(vault)@),
    ensures
        r is Ok <==> unstake_ok(old(user)@, old(vault)@, mint_account, forced, now),
        r is Ok ==> final(user)@ == unstake_user_next(old(user)@, mint_account),
        r is Ok ==> final(vault)@ == unstake_vault_next(
            old(vault)@,
            old(user)@.items[mint_index(old(user)@.items, mint_account)],
        ),
        r is Err ==> final(user)@ == old(user)@ && final(vault)@ == old(vault)@,
        r is Err ==> r == Err::<(), ErrorCode>(
            unstake_err(old(user)@, old(vault)@, mint_account),
        ),
        forced ==> !(r == Err::<(), ErrorCode>(ErrorCode::CannotUnstakeAlien)),
        user_wf(final(user)@),
        vault_wf(final(vault)@),
        mirrored(final(user)@, final(vault)@),
{
    if vault.status != VaultStatus::Initialized {
        return Err(ErrorCode::VaultNotInitialized);
    }
    let idx = match find_item_index(&user.items, mint_account) {
        Some(i) => i,
        None => {
            return Err(ErrorCode::StakedAccountDoesNotExist);
        },
    };
    let item = user.items[idx];
    proof {
        lemma_mint_index_unique(old(user)@.items, idx as int, mint_account);
    }
    if !forced && user.user_type == UserType::Alien {
        let locked = match item.last_claimed_time.checked_add(172800) {
            Some(bound) => now < bound,
            None => true,
        };
        if locked {
            return Err(ErrorCode::CannotUnstakeAlien);
        }
    }
    let ghost uv = old(user)@;
    let ghost vv = old(vault)@;
    let alien_kind = item.item_type == ItemType::NormalAlien || item.item_type
        == ItemType::AlphaAlien;
    if alien_kind {
        let jopt = find_item_index(&vault.aliens, mint_account);
        proof {
            assert(is_alien_kind(uv.items[idx as int].item_type));
            assert(has_mint_account(vv.aliens, mint_account));
        }
        match jopt {
            Some(j) => {
                proof {
                    lemma_mint_index_unique(vv.aliens, j as int, mint_account);
                    assert(vv.aliens[j as int].item_type == item.item_type);
                    lemma_count_pos(vv.aliens, j as int, item.item_type);
                    lemma_count_remove(vv.aliens, j as int, ItemType::NormalAlien);
                    lemma_count_remove(vv.aliens, j as int, ItemType::AlphaAlien);
                    lemma_unique_remove(vv.aliens, j as int);
                    vv.aliens.remove_ensures(j as int);
                }
                if item.item_type == ItemType::NormalAlien {
                    vault.normal_aliens_count = vault.normal_aliens_count - 1;
                } else {
                    vault.alpha_aliens_count = vault.alpha_aliens_count - 1;
                }
                vault.aliens.remove(j);
                proof {
                    assert(vault@ =~= unstake_vault_next(vv, item));
                }
            },
            None => {
                proof {
                    assert(false);
                }
                return Err(ErrorCode::StakedAccountDoesNotExist);
            },
        }
    } else {
        proof {
            assert(vault@ =~= unstake_vault_next(vv, item));
        }
    }
    user.items_count = user.items_count - 1;
    user.items.remove(idx);
    proof {
        uv.items.remove_ensures(idx as int);
        lemma_unique_remove(uv.items, idx as int);
        assert(user@ =~= unstake_user_next(uv, mint_account));
        let nv = vault@;
        // Every remaining alien-kind ledger item still has its mirror: its
        // key differs from the removed one, so its mirror entry survives.
        assert forall|i: int|
            0 <= i < user@.items.len() && is_alien_kind(#[trigger] user@.items[i].item_type)
            implies has_mint_account(nv.aliens, user@.items[i].mint_account)
                && nv.aliens[mint_index(nv.aliens, user@.items[i].mint_account)].item_type
                    == user@.items[i].item_type
        by {
            let i0: int = if i < idx as int { i } else { i + 1 };
            assert(user@.items[i] == uv.items[i0]);
            let ma = uv.items[i0].mint_account;
            assert(ma != mint_account);
            let q = mint_index(vv.aliens, ma);
            assert(0 <= q < vv.aliens.len() && vv.aliens[q].mint_account == ma);
            if alien_kind {
                let j = mint_index(vv.aliens, mint_account);
                assert(q != j);
                let q1: int = if q < j { q } else { q - 1 };
                assert(nv.aliens[q1] == vv.aliens[q]);
                lemma_mint_index_unique(nv.aliens, q1, ma);
            } else {
                lemma_mint_index_unique(nv.aliens, q, ma);
            }
        }
    }
    Ok(())
}

} // verus!
