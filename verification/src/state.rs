//! Data model: vault, per-staker ledger, staked items, and their
//! well-formedness invariants.

use vstd::prelude::*;

verus! {

/// Lifecycle of a vault: provisioned exactly once, never reset.
#[derive(Clone, Copy, Debug, PartialEq, Eq, Structural)]
pub enum VaultStatus {
    Uninitialized,
    Initialized,
}

/// Kind of a staked item. The two alien kinds are mirrored in the vault's
/// alien census and participate in reward redistribution.
#[derive(Clone, Copy, Debug, PartialEq, Eq, Structural)]
pub enum ItemType {
    NormalCTZN,
    NormalAlien,
    AlphaAlien,
    AlienGod,
}

/// Role of a stake ledger, fixed at creation.
#[derive(Clone, Copy, Debug, PartialEq, Eq, Structural)]
pub enum UserType {
    Ctzn,
    Alien,
}

/// Every way an operation can be refused. All errors are terminal for the
/// operation: no state changes and no custody transfer is owed.
#[derive(Clone, Copy, Debug, PartialEq, Eq, Structural)]
pub enum ErrorCode {
    VaultAlreadyCreated,
    VaultNotInitialized,
    UserAlreadyCreated,
    AlreadyStakedAccount,
    StakedAccountDoesNotExist,
    CannotUnstakeAlien,
    Unauthorized,
    InsufficientBalance,
    ArithmeticFault,
}

/// One staked position: the identities of the staked asset and of its
/// custody account, accrual timestamps, and the reward accrued for it but
/// not yet paid out.
#[derive(Clone, Copy, Debug, PartialEq, Eq, Structural)]
pub struct StakeItem {
    pub mint: u64,
    pub mint_account: u64,
    pub item_type: ItemType,
    pub first_staked_time: u64,
    pub last_claimed_time: u64,
    pub earned_reward: u64,
}

/// Global per-deployment state: the three pool balances, the census of
/// currently staked alien items, and the mirrored list of those items.
#[derive(Debug)]
pub struct Vault {
    pub authority: u64,
    pub status: VaultStatus,
    pub reward_mint: u64,
    pub ctzns_pool_amount: u64,
    pub aliens_pool_amount: u64,
    pub gods_pool_amount: u64,
    pub normal_aliens_count: u8,
    pub alpha_aliens_count: u8,
    pub aliens: Vec<StakeItem>,
}

/// Per-staker ledger of staked items, one per (vault, owner, role).
#[derive(Debug)]
pub struct User {
    pub vault: u64,
    pub user_type: UserType,
    pub key: u64,
    pub items_count: u32,
    pub items: Vec<StakeItem>,
}

/// Mathematical model of a `Vault`.
#[verifier::ext_equal]
pub struct VaultView {
    pub authority: u64,
    pub status: VaultStatus,
    pub reward_mint: u64,
    pub ctzns_pool_amount: u64,
    pub aliens_pool_amount: u64,
    pub gods_pool_amount: u64,
    pub normal_aliens_count: u8,
    pub alpha_aliens_count: u8,
    pub aliens: Seq<StakeItem>,
}

/// Mathematical model of a `User`.
#[verifier::ext_equal]
pub struct UserView {
    pub vault: u64,
    pub user_type: UserType,
    pub key: u64,
    pub items_count: u32,
    pub items: Seq<StakeItem>,
}

impl View for Vault {
    type V = VaultView;

    open spec fn view(&self) -> VaultView {
        VaultView {
            authority: self.authority,
            status: self.status,
            reward_mint: self.reward_mint,
            ctzns_pool_amount: self.ctzns_pool_amount,
            aliens_pool_amount: self.aliens_pool_amount,
            gods_pool_amount: self.gods_pool_amount,
            normal_aliens_count: self.normal_aliens_count,
            alpha_aliens_count: self.alpha_aliens_count,
            aliens: self.aliens@,
        }
    }
}

impl View for User {
    type V = UserView;

    open spec fn view(&self) -> UserView {
        UserView {
            vault: self.vault,
            user_type: self.user_type,
            key: self.key,
            items_count: self.items_count,
            items: self.items@,
        }
    }
}

/// The two item kinds that are counted and mirrored by the vault.
pub open spec fn is_alien_kind(t: ItemType) -> bool {
    t == ItemType::NormalAlien || t == ItemType::AlphaAlien
}

/// Number of items of kind `t` in `s`.
pub open spec fn count_of_type(s: Seq<StakeItem>, t: ItemType) -> int
    decreases s.len(),
{
    if s.len() == 0 {
        0
    } else {
        count_of_type(s.drop_last(), t) + if s.last().item_type == t {
            1int
        } else {
            0int
        }
    }
}

/// Some entry of `s` is keyed by the custody account `mint_account`.
pub open spec fn has_mint_account(s: Seq<StakeItem>, mint_account: u64) -> bool {
    exists|i: int| 0 <= i < s.len() && s[i].mint_account == mint_account
}

/// The index of the entry keyed by `mint_account`; meaningful only when
/// `has_mint_account` holds and the keys of `s` are unique.
pub open spec fn mint_index(s: Seq<StakeItem>, mint_account: u64) -> int {
    choose|i: int| 0 <= i < s.len() && s[i].mint_account == mint_account
}

/// No two entries of `s` share a custody-account key.
pub open spec fn unique_mint_accounts(s: Seq<StakeItem>) -> bool {
    forall|i: int, j: int|
        0 <= i < j < s.len() ==> s[i].mint_account != s[j].mint_account
}

/// Vault invariant: the alien mirror holds exactly the counted alien items,
/// every mirrored entry is of an alien kind, and no item identity repeats.
pub open spec fn vault_wf(v: VaultView) -> bool {
    &&& v.aliens.len() == v.normal_aliens_count + v.alpha_aliens_count
    &&& count_of_type(v.aliens, ItemType::NormalAlien) == v.normal_aliens_count
    &&& count_of_type(v.aliens, ItemType::AlphaAlien) == v.alpha_aliens_count
    &&& forall|i: int| 0 <= i < v.aliens.len() ==> is_alien_kind(#[trigger] v.aliens[i].item_type)
    &&& unique_mint_accounts(v.aliens)
}

/// Ledger invariant: the stored count matches the list, and no item
/// identity repeats.
pub open spec fn user_wf(u: UserView) -> bool {
    &&& u.items_count == u.items.len()
    &&& unique_mint_accounts(u.items)
}

/// Every alien-kind item of the ledger has a mirror entry of the same
/// identity and kind in the vault's alien list.
pub open spec fn mirrored(u: UserView, v: VaultView) -> bool {
    forall|i: int|
        0 <= i < u.items.len() && is_alien_kind(#[trigger] u.items[i].item_type)
            ==> has_mint_account(v.aliens, u.items[i].mint_account)
                && v.aliens[mint_index(v.aliens, u.items[i].mint_account)].item_type
                    == u.items[i].item_type
}

/// Sum of the three pool balances.
pub open spec fn pools_total(v: VaultView) -> int {
    v.ctzns_pool_amount + v.aliens_pool_amount + v.gods_pool_amount
}

/// Counts are never negative.
pub proof fn lemma_count_nonneg(s: Seq<StakeItem>, t: ItemType)
    ensures
        count_of_type(s, t) >= 0,
    decreases s.len(),
{
    if s.len() > 0 {
        lemma_count_nonneg(s.drop_last(), t);
    }
}

/// Appending one item raises the count of its kind by one and leaves the
/// other counts alone.
pub proof fn lemma_count_push(s: Seq<StakeItem>, x: StakeItem, t: ItemType)
    ensures
        count_of_type(s.push(x), t) == count_of_type(s, t) + if x.item_type == t {
            1int
        } else {
            0int
        },
{
    assert(s.push(x).drop_last() =~= s);
    assert(s.push(x).last() == x);
}

/// Removing the entry at `i` lowers the count of its kind by one and leaves
/// the other counts alone.
pub proof fn lemma_count_remove(s: Seq<StakeItem>, i: int, t: ItemType)
    requires
        0 <= i < s.len(),
    ensures
        count_of_type(s.remove(i), t) == count_of_type(s, t) - if s[i].item_type == t {
            1int
        } else {
            0int
        },
    decreases s.len(),
{
    if i == s.len() - 1 {
        assert(s.remove(i) =~= s.drop_last());
    } else {
        assert(s.remove(i).drop_last() =~= s.drop_last().remove(i));
        assert(s.remove(i).last() == s.last());
        lemma_count_remove(s.drop_last(), i, t);
    }
}

/// An entry of kind `t` makes the count of `t` positive.
pub proof fn lemma_count_pos(s: Seq<StakeItem>, i: int, t: ItemType)
    requires
        0 <= i < s.len(),
        s[i].item_type == t,
    ensures
        count_of_type(s, t) >= 1,
    decreases s.len(),
{
    lemma_count_nonneg(s.drop_last(), t);
    if i < s.len() - 1 {
        lemma_count_pos(s.drop_last(), i, t);
    }
}

/// Two sequences equal entry for entry in `item_type` have equal counts.
pub proof fn lemma_count_same_types(s1: Seq<StakeItem>, s2: Seq<StakeItem>, t: ItemType)
    requires
        s1.len() == s2.len(),
        forall|i: int| 0 <= i < s1.len() ==> s1[i].item_type == #[trigger] s2[i].item_type,
    ensures
        count_of_type(s1, t) == count_of_type(s2, t),
    decreases s1.len(),
{
    if s1.len() > 0 {
        lemma_count_same_types(s1.drop_last(), s2.drop_last(), t);
    }
}

/// Removing an entry keeps the remaining keys unique.
pub proof fn lemma_unique_remove(s: Seq<StakeItem>, i: int)
    requires
        unique_mint_accounts(s),
        0 <= i < s.len(),
    ensures
        unique_mint_accounts(s.remove(i)),
{
    s.remove_ensures(i);
    assert forall|p: int, q: int| 0 <= p < q < s.remove(i).len()
        implies s.remove(i)[p].mint_account != s.remove(i)[q].mint_account
    by {
        let p0: int = if p < i { p } else { p + 1 };
        let q0: int = if q < i { q } else { q + 1 };
        assert(s.remove(i)[p] == s[p0]);
        assert(s.remove(i)[q] == s[q0]);
    }
}

/// Finds the entry keyed by `mint_account`, scanning from the front.
pub fn find_item_index(items: &Vec<StakeItem>, mint_account: u64) -> (r: Option<usize>)
    ensures
        r is Some <==> has_mint_account(items@, mint_account),
        r is Some ==> r->Some_0 < items@.len()
            && items@[r->Some_0 as int].mint_account == mint_account,
{
    let n = items.len();
    let mut i: usize = 0;
    while i < n
        invariant
            i <= n,
            n == items@.len(),
            forall|j: int| 0 <= j < i ==> items@[j].mint_account != mint_account,
        decreases n - i,
    {
        if items[i].mint_account == mint_account {
            return Some(i);
        }
        i += 1;
    }
    None
}

/// When keys are unique, any index holding the key is `mint_index`.
pub proof fn lemma_mint_index_unique(s: Seq<StakeItem>, i: int, mint_account: u64)
    requires
        unique_mint_accounts(s),
        0 <= i < s.len(),
        s[i].mint_account == mint_account,
    ensures
        mint_index(s, mint_account) == i,
        has_mint_account(s, mint_account),
{
    assert(has_mint_account(s, mint_account));
    let j = mint_index(s, mint_account);
    assert(0 <= j < s.len() && s[j].mint_account == mint_account);
}

impl Default for Vault {
    /// A fresh, not-yet-provisioned vault.
    fn default() -> (v: Vault)
        ensures
            v@.status == VaultStatus::Uninitialized,
            v@.authority == 0,
            v@.reward_mint == 0,
            v@.ctzns_pool_amount == 0,
            v@.aliens_pool_amount == 0,
            v@.gods_pool_amount == 0,
            v@.normal_aliens_count == 0,
            v@.alpha_aliens_count == 0,
            v@.aliens.len() == 0,
            vault_wf(v@),
    {
        Vault {
            authority: 0,
            status: VaultStatus::Uninitialized,
            reward_mint: 0,
            ctzns_pool_amount: 0,
            aliens_pool_amount: 0,
            gods_pool_amount: 0,
            normal_aliens_count: 0,
            alpha_aliens_count: 0,
            aliens: Vec::new(),
        }
    }
}

} // verus!
