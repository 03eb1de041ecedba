//! Vault lifecycle: one-time provisioning, ledger creation, funding of the
//! CTZN pool, and administrative withdrawals from each pool.

use vstd::prelude::*;
use crate::state::{
    ErrorCode, User, UserType, UserView, Vault, VaultStatus, VaultView, pools_total, user_wf,
    vault_wf,
};

verus! {

/// A vault can be provisioned only while it is still uninitialized.
pub open spec fn create_vault_ok(v: VaultView) -> bool {
    v.status == VaultStatus::Uninitialized
}

/// The vault right after provisioning: owned by `authority`, paying out
/// `reward_mint`, with empty pools and no staked aliens.
pub open spec fn create_vault_next(v: VaultView, authority: u64, reward_mint: u64) -> VaultView {
    VaultView {
        authority,
        status: VaultStatus::Initialized,
        reward_mint,
        ctzns_pool_amount: 0,
        aliens_pool_amount: 0,
        gods_pool_amount: 0,
        normal_aliens_count: 0,
        alpha_aliens_count: 0,
        aliens: Seq::empty(),
    }
}

/// Provisions the vault. Fails with `VaultAlreadyCreated`, changing
/// nothing, when the vault was provisioned before; the pool custody
/// accounts themselves are provisioned by the caller's custody service.
pub fn create_vault(vault: &mut Vault, authority: u64, reward_mint: u64) -> (r: Result<
    (),
    ErrorCode,
>)
    ensures
        r is Ok <==> create_vault_ok(old(vault)@),
        r is Ok ==> final(vault)@ == create_vault_next(old(vault)@, authority, reward_mint),
        r is Err ==> final(vault)@ == old(vault)@ && r == Err::<(), ErrorCode>(
            ErrorCode::VaultAlreadyCreated,
        ),
        r is Ok ==> vault_wf(final(vault)@),
        vault_wf(old(vault)@) ==> vault_wf(final(vault)@),
{
    if vault.status != VaultStatus::Uninitialized {
        return Err(ErrorCode::VaultAlreadyCreated);
    }
    vault.authority = authority;
    vault.status = VaultStatus::Initialized;
    vault.reward_mint = reward_mint;
    vault.ctzns_pool_amount = 0;
    vault.aliens_pool_amount = 0;
    vault.gods_pool_amount = 0;
    vault.normal_aliens_count = 0;
    vault.alpha_aliens_count = 0;
    vault.aliens = Vec::new();
    assert(vault@ =~= create_vault_next(old(vault)@, authority, reward_mint));
    Ok(())
}

/// A ledger can be created only under an initialized vault.
pub open spec fn create_user_ok(v: VaultView) -> bool {
    v.status == VaultStatus::Initialized
}

/// The fresh ledger for `owner` under the vault addressed by `vault_key`.
pub open spec fn created_user(vault_key: u64, owner: u64, user_type: UserType) -> UserView {
    UserView { vault: vault_key, user_type, key: owner, items_count: 0, items: Seq::empty() }
}

/// Creates an empty stake ledger for `owner` with the given role code
/// (`0` is Ctzn, anything else Alien). Rejection of a second ledger for
/// the same (vault, owner, role) key is owed by the caller's keyed
/// storage, not by this function.
pub fn create_user(vault: &Vault, vault_key: u64, owner: u64, user_type: u8) -> (r: Result<
    User,
    ErrorCode,
>)
    ensures
        r is Ok <==> create_user_ok(vault@),
        r is Ok ==> r->Ok_0@ == created_user(
            vault_key,
            owner,
            if user_type == 0 {
                UserType::Ctzn
            } else {
                UserType::Alien
            },
        ) && user_wf(r->Ok_0@),
        r is Err ==> r == Err::<User, ErrorCode>(ErrorCode::VaultNotInitialized),
{
    if vault.status != VaultStatus::Initialized {
        return Err(ErrorCode::VaultNotInitialized);
    }
    let role = if user_type == 0 {
        UserType::Ctzn
    } else {
        UserType::Alien
    };
    let user = User { vault: vault_key, user_type: role, key: owner, items_count: 0, items: Vec::new() };
    assert(user@ =~= created_user(vault_key, owner, role));
    Ok(user)
}

/// Funding succeeds exactly when the vault is initialized and the CTZN
/// pool does not overflow.
pub open spec fn fund_ok(v: VaultView, amount: u64) -> bool {
    &&& v.status == VaultStatus::Initialized
    &&& v.ctzns_pool_amount + amount <= u64::MAX
}

/// Which error a refused `fund` reports.
pub open spec fn fund_err(v: VaultView) -> ErrorCode {
    if v.status != VaultStatus::Initialized {
        ErrorCode::VaultNotInitialized
    } else {
        ErrorCode::ArithmeticFault
    }
}

/// Moves `amount` of the reward asset into the CTZN pool. The matching
/// custody transfer from the funder is owed by the caller; a funder
/// without the balance is refused there.
pub fn fund(vault: &mut Vault, amount: u64) -> (r: Result<(), ErrorCode>)
    requires
        amount > 0,
    ensures
        r is Ok <==> fund_ok(old(vault)@, amount),
        r is Ok ==> final(vault)@ == (VaultView {
            ctzns_pool_amount: (old(vault)@.ctzns_pool_amount + amount) as u64,
            ..old(vault)@
        }),
        r is Ok ==> pools_total(final(vault)@) == pools_total(old(vault)@) + amount,
        r is Err ==> final(vault)@ == old(vault)@ && r == Err::<(), ErrorCode>(
            fund_err(old(vault)@),
        ),
        vault_wf(old(vault)@) ==> vault_wf(final(vault)@),
{
    if vault.status != VaultStatus::Initialized {
        return Err(ErrorCode::VaultNotInitialized);
    }
    match vault.ctzns_pool_amount.checked_add(amount) {
        Some(total) => {
            vault.ctzns_pool_amount = total;
            assert(vault@ =~= (VaultView {
                ctzns_pool_amount: (old(vault)@.ctzns_pool_amount + amount) as u64,
                ..old(vault)@
            }));
            Ok(())
        },
        None => {
            Err(ErrorCode::ArithmeticFault)
        },
    }
}

/// A withdrawal succeeds exactly when the vault is initialized, the signer
/// is the vault authority, and the named pool covers the amount.
pub open spec fn withdraw_ok(v: VaultView, signer: u64, amount: u64, pool: u64) -> bool {
    &&& v.status == VaultStatus::Initialized
    &&& signer == v.authority
    &&& amount <= pool
}

/// Which error a refused withdrawal reports.
pub open spec fn withdraw_err(v: VaultView, signer: u64, amount: u64, pool: u64) -> ErrorCode {
    if v.status != VaultStatus::Initialized {
        ErrorCode::VaultNotInitialized
    } else if signer != v.authority {
        ErrorCode::Unauthorized
    } else {
        ErrorCode::InsufficientBalance
    }
}

/// Withdraws `amount` from the CTZN pool to the authority's destination;
/// the custody transfer itself is owed by the caller.
pub fn withdraw_ctzns_pool(vault: &mut Vault, signer: u64, amount: u64) -> (r: Result<
    (),
    ErrorCode,
>)
    ensures
        r is Ok <==> withdraw_ok(old(vault)@, signer, amount, old(vault)@.ctzns_pool_amount),
        r is Ok ==> final(vault)@ == (VaultView {
            ctzns_pool_amount: (old(vault)@.ctzns_pool_amount - amount) as u64,
            ..old(vault)@
        }),
        r is Ok ==> pools_total(final(vault)@) + amount == pools_total(old(vault)@),
        r is Err ==> final(vault)@ == old(vault)@ && r == Err::<(), ErrorCode>(
            withdraw_err(old(vault)@, signer, amount, old(vault)@.ctzns_pool_amount),
        ),
        vault_wf(old(vault)@) ==> vault_wf(final(vault)@),
{
    if vault.status != VaultStatus::Initialized {
        return Err(ErrorCode::VaultNotInitialized);
    }
    if signer != vault.authority {
        return Err(ErrorCode::Unauthorized);
    }
    if amount > vault.ctzns_pool_amount {
        return Err(ErrorCode::InsufficientBalance);
    }
    vault.ctzns_pool_amount = vault.ctzns_pool_amount - amount;
    assert(vault@ =~= VaultView {
        ctzns_pool_amount: (old(vault)@.ctzns_pool_amount - amount) as u64,
        ..old(vault)@
    });
    Ok(())
}

/// Withdraws `amount` from the alien pool; as `withdraw_ctzns_pool`.
pub fn withdraw_aliens_pool(vault: &mut Vault, signer: u64, amount: u64) -> (r: Result<
    (),
    ErrorCode,
>)
    ensures
        r is Ok <==> withdraw_ok(old(vault)@, signer, amount, old(vault)@.aliens_pool_amount),
        r is Ok ==> final(vault)@ == (VaultView {
            aliens_pool_amount: (old(vault)@.aliens_pool_amount - amount) as u64,
            ..old(vault)@
        }),
        r is Ok ==> pools_total(final(vault)@) + amount == pools_total(old(vault)@),
        r is Err ==> final(vault)@ == old(vault)@ && r == Err::<(), ErrorCode>(
            withdraw_err(old(vault)@, signer, amount, old(vault)@.aliens_pool_amount),
        ),
        vault_wf(old(vault)@) ==> vault_wf(final(vault)@),
{
    if vault.status != VaultStatus::Initialized {
        return Err(ErrorCode::VaultNotInitialized);
    }
    if signer != vault.authority {
        return Err(ErrorCode::Unauthorized);
    }
    if amount > vault.aliens_pool_amount {
        return Err(ErrorCode::InsufficientBalance);
    }
    vault.aliens_pool_amount = vault.aliens_pool_amount - amount;
    assert(vault@ =~= VaultView {
        aliens_pool_amount: (old(vault)@.aliens_pool_amount - amount) as u64,
        ..old(vault)@
    });
    Ok(())
}

/// Withdraws `amount` from the god pool; as `withdraw_ctzns_pool`.
pub fn withdraw_gods_pool(vault: &mut Vault, signer: u64, amount: u64) -> (r: Result<
    (),
    ErrorCode,
>)
    ensures
        r is Ok <==> withdraw_ok(old(vault)@, signer, amount, old(vault)@.gods_pool_amount),
        r is Ok ==> final(vault)@ == (VaultView {
            gods_pool_amount: (old(vault)@.gods_pool_amount - amount) as u64,
            ..old(vault)@
        }),
        r is Ok ==> pools_total(final(vault)@) + amount == pools_total(old(vault)@),
        r is Err ==> final(vault)@ == old(vault)@ && r == Err::<(), ErrorCode>(
            withdraw_err(old(vault)@, signer, amount, old(vault)@.gods_pool_amount),
        ),
        vault_wf(old(vault)@) ==> vault_wf(final(vault)@),
{
    if vault.status != VaultStatus::Initialized {
        return Err(ErrorCode::VaultNotInitialized);
    }
    if signer != vault.authority {
        return Err(ErrorCode::Unauthorized);
    }
    if amount > vault.gods_pool_amount {
        return Err(ErrorCode::InsufficientBalance);
    }
    vault.gods_pool_amount = vault.gods_pool_amount - amount;
    assert(vault@ =~= VaultView {
        gods_pool_amount: (old(vault)@.gods_pool_amount - amount) as u64,
        ..old(vault)@
    });
    Ok(())
}

} // verus!
