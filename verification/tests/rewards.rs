use nft_staking::claim::{claim, claim_alien, claim_ctzn, clamp_cascade, ClaimOutcome, CtznClaimOutcome};
use nft_staking::state::{ErrorCode, Vault};
use nft_staking::stake::stake;
use nft_staking::vault::{create_user, create_vault, fund};

const AUTHORITY: u64 = 7;
const MINT: u64 = 9;

fn funded_vault(amount: u64) -> Vault {
    let mut v = Vault::default();
    create_vault(&mut v, AUTHORITY, MINT).unwrap();
    fund(&mut v, amount).unwrap();
    v
}

#[test]
fn clamp_cascade_keeps_everything_when_the_pool_covers_it() {
    assert_eq!(clamp_cascade(1_000, 100, 200, 50), (100, 200, 50));
}

#[test]
fn clamp_cascade_zeroes_alien_and_burn_together() {
    // Pool 100 against a settled 80, an alien transfer 30 and a burn 5:
    // the alien transfer dies since 80 + 30 > 100, and the burn with it.
    let (c, a, b) = clamp_cascade(100, 80, 30, 5);
    assert_eq!((c, a, b), (80, 0, 0));
    assert_eq!(100 - c - a - b, 20);
}

#[test]
fn clamp_cascade_caps_the_settled_reward_at_the_pool() {
    assert_eq!(clamp_cascade(100, 150, 30, 5), (100, 0, 0));
    assert_eq!(clamp_cascade(0, 10, 10, 10), (0, 0, 0));
}

#[test]
fn clamp_cascade_drops_only_the_burn_when_only_it_overflows() {
    assert_eq!(clamp_cascade(100, 60, 30, 20), (60, 30, 0));
}

#[test]
fn ctzn_claim_on_risk_event_forfeits_everything() {
    let mut v = funded_vault(1_000_000);
    let mut u = create_user(&v, 1, 42, 0).unwrap();
    stake(&mut u, &mut v, 100, 200, 0, 0).unwrap();
    // 600 seconds accrue 600 * 1250 / 3 = 250_000; day zero keeps the risk
    // bound at 240, and a roll of 0 falls under it.
    let out = claim_ctzn(&mut u, &mut v, 600, &vec![0]).unwrap();
    assert_eq!(
        out,
        CtznClaimOutcome { to_claimer: 0, to_aliens_pool: 187_500, to_gods_pool: 62_500 }
    );
    assert_eq!(u.items[0].earned_reward, 0);
    assert_eq!(u.items[0].last_claimed_time, 600);
    assert_eq!(v.ctzns_pool_amount, 750_000);
    assert_eq!(v.aliens_pool_amount, 187_500);
    assert_eq!(v.gods_pool_amount, 62_500);
}

#[test]
fn ctzn_claim_without_risk_event_keeps_four_fifths() {
    let mut v = funded_vault(1_000_000);
    let mut u = create_user(&v, 1, 42, 0).unwrap();
    stake(&mut u, &mut v, 100, 200, 0, 0).unwrap();
    // A roll of 299 clears the bound of 240: 250_000 splits into 200_000
    // settled and 50_000 forfeited, of which 12_500 burn and 37_500 go to
    // the aliens.
    let out = claim_ctzn(&mut u, &mut v, 600, &vec![299]).unwrap();
    assert_eq!(
        out,
        CtznClaimOutcome { to_claimer: 200_000, to_aliens_pool: 37_500, to_gods_pool: 12_500 }
    );
    assert_eq!(u.items[0].earned_reward, 200_000);
    assert_eq!(v.ctzns_pool_amount, 750_000);
    assert_eq!(v.aliens_pool_amount, 37_500);
    assert_eq!(v.gods_pool_amount, 12_500);
}

#[test]
fn kept_reward_scales_before_it_divides() {
    let mut v = funded_vault(1_000_000);
    let mut u = create_user(&v, 1, 42, 0).unwrap();
    stake(&mut u, &mut v, 100, 200, 0, 0).unwrap();
    // Two seconds accrue 2 * 1250 / 3 = 833. A safe roll keeps
    // 833 * 4 / 5 = 666 (dividing first would lose two units) and
    // forfeits 833 / 5 = 166, of which 166 / 4 = 41 burn and
    // 166 * 3 / 4 = 124 go to the aliens.
    let out = claim_ctzn(&mut u, &mut v, 2, &vec![299]).unwrap();
    assert_eq!(
        out,
        CtznClaimOutcome { to_claimer: 666, to_aliens_pool: 124, to_gods_pool: 41 }
    );
    assert_eq!(u.items[0].earned_reward, 666);
    assert_eq!(v.ctzns_pool_amount, 1_000_000 - 666 - 124 - 41);
}

#[test]
fn redistribution_base_scales_before_it_divides() {
    let mut v = funded_vault(1_000_000);
    let mut c = create_user(&v, 1, 42, 0).unwrap();
    let mut a = create_user(&v, 1, 43, 1).unwrap();
    stake(&mut c, &mut v, 100, 200, 0, 0).unwrap();
    stake(&mut a, &mut v, 101, 201, 1, 0).unwrap();
    // Three seconds accrue exactly 1250; a risk event forfeits it all.
    // The burn is 1250 / 4 = 312 and the redistribution base is
    // 1250 * 3 / 4 = 937 (dividing first would give 936), which the lone
    // normal alien receives whole.
    let out = claim_ctzn(&mut c, &mut v, 3, &vec![0]).unwrap();
    assert_eq!(
        out,
        CtznClaimOutcome { to_claimer: 0, to_aliens_pool: 937, to_gods_pool: 312 }
    );
    assert_eq!(v.aliens[0].earned_reward, 937);
    assert_eq!(v.aliens_pool_amount, 937);
    assert_eq!(v.gods_pool_amount, 312);
}

#[test]
fn risk_bound_floors_at_90_after_fifteen_days() {
    let now: u64 = 15 * 86_400;
    let mut v = funded_vault(u64::MAX / 2);
    let mut u = create_user(&v, 1, 42, 0).unwrap();
    stake(&mut u, &mut v, 100, 200, 0, 0).unwrap();
    // After 15 staked days the bound is 240 - 150 = 90: a roll of 90 is
    // safe, a roll of 89 forfeits.
    let out = claim_ctzn(&mut u, &mut v, now, &vec![90]).unwrap();
    assert!(out.to_claimer > 0);

    let mut v2 = funded_vault(u64::MAX / 2);
    let mut u2 = create_user(&v2, 1, 42, 0).unwrap();
    stake(&mut u2, &mut v2, 100, 200, 0, 0).unwrap();
    let out2 = claim_ctzn(&mut u2, &mut v2, now, &vec![89]).unwrap();
    assert_eq!(out2.to_claimer, 0);
}

#[test]
fn ctzn_claim_redistributes_by_weight() {
    let mut v = funded_vault(1_000_000);
    let mut c = create_user(&v, 1, 42, 0).unwrap();
    let mut a = create_user(&v, 1, 43, 1).unwrap();
    stake(&mut c, &mut v, 100, 200, 0, 0).unwrap();
    stake(&mut a, &mut v, 101, 201, 1, 0).unwrap();
    stake(&mut a, &mut v, 102, 202, 2, 0).unwrap();
    // The forfeited 250_000 leaves 187_500 to redistribute over a weight
    // of 5 + 6 = 11: the normal alien gets 187_500 * 5 / 11 = 85_227, the
    // alpha alien 187_500 * 6 / 11 = 102_272; the truncation loss of 1
    // stays within the weight.
    let out = claim_ctzn(&mut c, &mut v, 600, &vec![0]).unwrap();
    assert_eq!(out.to_aliens_pool, 187_500);
    assert_eq!(out.to_gods_pool, 62_500);
    assert_eq!(v.aliens[0].earned_reward, 85_227);
    assert_eq!(v.aliens[1].earned_reward, 102_272);
    let added = v.aliens[0].earned_reward + v.aliens[1].earned_reward;
    let forfeited: u64 = 250_000;
    assert!(added <= forfeited * 3 / 4);
    assert!(forfeited * 3 / 4 - added <= 11);
}

#[test]
fn alien_claim_harvests_what_redistribution_granted() {
    let mut v = funded_vault(1_000_000);
    let mut c = create_user(&v, 1, 42, 0).unwrap();
    let mut a = create_user(&v, 1, 43, 1).unwrap();
    stake(&mut c, &mut v, 100, 200, 0, 0).unwrap();
    stake(&mut a, &mut v, 101, 201, 1, 0).unwrap();
    stake(&mut a, &mut v, 102, 202, 2, 0).unwrap();
    claim_ctzn(&mut c, &mut v, 600, &vec![0]).unwrap();
    let harvested = claim_alien(&a, &mut v, 700).unwrap();
    assert_eq!(harvested, 85_227 + 102_272);
    assert_eq!(v.aliens_pool_amount, 187_500 - harvested);
    assert_eq!(v.aliens[0].earned_reward, 0);
    assert_eq!(v.aliens[0].last_claimed_time, 700);
    assert_eq!(v.aliens[1].earned_reward, 0);
    // The claimer's own ledger is not touched by the harvest.
    assert_eq!(a.items[0].last_claimed_time, 0);
}

#[test]
fn alien_claim_skips_items_of_other_stakers() {
    let mut v = funded_vault(1_000_000);
    let mut c = create_user(&v, 1, 42, 0).unwrap();
    let mut a = create_user(&v, 1, 43, 1).unwrap();
    let mut b = create_user(&v, 1, 44, 1).unwrap();
    stake(&mut c, &mut v, 100, 200, 0, 0).unwrap();
    stake(&mut a, &mut v, 101, 201, 1, 0).unwrap();
    stake(&mut b, &mut v, 102, 202, 1, 0).unwrap();
    claim_ctzn(&mut c, &mut v, 600, &vec![0]).unwrap();
    let share = 187_500 * 5 / 10;
    let harvested = claim_alien(&a, &mut v, 700).unwrap();
    assert_eq!(harvested, share);
    // The other staker's mirror entry keeps its reward.
    assert_eq!(v.aliens[1].earned_reward, share);
}

#[test]
fn empty_ledger_claims_settle_to_zero() {
    let mut v = funded_vault(1_000);
    let mut c = create_user(&v, 1, 42, 0).unwrap();
    let out = claim_ctzn(&mut c, &mut v, 600, &vec![]).unwrap();
    assert_eq!(out, CtznClaimOutcome { to_claimer: 0, to_aliens_pool: 0, to_gods_pool: 0 });
    assert_eq!(v.ctzns_pool_amount, 1_000);
    let harvested = claim_alien(&c, &mut v, 700).unwrap();
    assert_eq!(harvested, 0);
}

#[test]
fn claim_dispatches_by_role_code() {
    let mut v = funded_vault(1_000_000);
    let mut c = create_user(&v, 1, 42, 0).unwrap();
    stake(&mut c, &mut v, 100, 200, 0, 0).unwrap();
    let out = claim(&mut c, &mut v, 0, 600, &vec![299]).unwrap();
    assert_eq!(
        out,
        ClaimOutcome::Ctzn(CtznClaimOutcome {
            to_claimer: 200_000,
            to_aliens_pool: 37_500,
            to_gods_pool: 12_500,
        })
    );
    let out2 = claim(&mut c, &mut v, 1, 700, &vec![]).unwrap();
    assert_eq!(out2, ClaimOutcome::Alien(0));
}

#[test]
fn claim_requires_initialized_vault() {
    let mut raw = Vault::default();
    let v = funded_vault(1);
    let mut c = create_user(&v, 1, 42, 0).unwrap();
    assert_eq!(claim_ctzn(&mut c, &mut raw, 0, &vec![]), Err(ErrorCode::VaultNotInitialized));
    assert_eq!(claim_alien(&c, &mut raw, 0), Err(ErrorCode::VaultNotInitialized));
}

#[test]
fn ctzn_claim_overflow_aborts_without_any_change() {
    let mut v = funded_vault(1_000);
    let mut c = create_user(&v, 1, 42, 0).unwrap();
    stake(&mut c, &mut v, 100, 200, 0, 0).unwrap();
    let before_pool = v.ctzns_pool_amount;
    // An elapsed time near u64::MAX overflows the accrual multiplication.
    let r = claim_ctzn(&mut c, &mut v, u64::MAX, &vec![299]);
    assert_eq!(r, Err(ErrorCode::ArithmeticFault));
    assert_eq!(v.ctzns_pool_amount, before_pool);
    assert_eq!(c.items[0].last_claimed_time, 0);
    assert_eq!(c.items[0].earned_reward, 0);
}

#[test]
fn kept_reward_scaling_overflow_aborts_without_any_change() {
    let mut v = funded_vault(1_000);
    let mut c = create_user(&v, 1, 42, 0).unwrap();
    stake(&mut c, &mut v, 100, 200, 0, 0).unwrap();
    // An accrual above a quarter of the range survives the accrual product
    // but overflows when scaled by four on a safe roll.
    let now: u64 = 12_000_000_000_000_000;
    let r = claim_ctzn(&mut c, &mut v, now, &vec![299]);
    assert_eq!(r, Err(ErrorCode::ArithmeticFault));
    assert_eq!(c.items[0].earned_reward, 0);
    assert_eq!(c.items[0].last_claimed_time, 0);
    assert_eq!(v.ctzns_pool_amount, 1_000);
}

#[test]
fn backwards_clock_reads_as_no_accrual() {
    let mut v = funded_vault(1_000);
    let mut c = create_user(&v, 1, 42, 0).unwrap();
    stake(&mut c, &mut v, 100, 200, 0, 5_000).unwrap();
    // A claim timestamped before the stake accrues nothing.
    let out = claim_ctzn(&mut c, &mut v, 4_000, &vec![299]).unwrap();
    assert_eq!(out.to_claimer, 0);
    assert_eq!(v.ctzns_pool_amount, 1_000);
}

#[test]
fn alien_claim_beyond_the_pool_is_an_arithmetic_fault() {
    // A nearly empty CTZN pool: the claim's alien transfer is clamped to
    // zero, yet redistribution still grants the mirror its shares. The
    // later harvest then exceeds what the alien pool holds and must abort
    // without touching anything.
    let mut v = funded_vault(100);
    let mut c = create_user(&v, 1, 42, 0).unwrap();
    let mut a = create_user(&v, 1, 43, 1).unwrap();
    stake(&mut c, &mut v, 100, 200, 0, 0).unwrap();
    stake(&mut a, &mut v, 101, 201, 1, 0).unwrap();
    let out = claim_ctzn(&mut c, &mut v, 600, &vec![0]).unwrap();
    assert_eq!(out, CtznClaimOutcome { to_claimer: 0, to_aliens_pool: 0, to_gods_pool: 0 });
    assert_eq!(v.aliens[0].earned_reward, 187_500);
    assert_eq!(v.aliens_pool_amount, 0);
    let r = claim_alien(&a, &mut v, 700);
    assert_eq!(r, Err(ErrorCode::ArithmeticFault));
    assert_eq!(v.aliens[0].earned_reward, 187_500);
    assert_eq!(v.aliens_pool_amount, 0);
}

#[test]
fn pooled_value_is_conserved_across_a_history() {
    let funded: u64 = 1_000_000;
    let mut paid_out: u64 = 0;
    let mut v = funded_vault(funded);
    let mut c = create_user(&v, 1, 42, 0).unwrap();
    let mut a = create_user(&v, 1, 43, 1).unwrap();
    stake(&mut c, &mut v, 100, 200, 0, 0).unwrap();
    stake(&mut a, &mut v, 101, 201, 1, 0).unwrap();
    let out = claim_ctzn(&mut c, &mut v, 600, &vec![299]).unwrap();
    paid_out += out.to_claimer;
    paid_out += claim_alien(&a, &mut v, 700).unwrap();
    nft_staking::vault::withdraw_gods_pool(&mut v, AUTHORITY, 10_000).unwrap();
    paid_out += 10_000;
    nft_staking::vault::withdraw_ctzns_pool(&mut v, AUTHORITY, 100_000).unwrap();
    paid_out += 100_000;
    let held = v.ctzns_pool_amount + v.aliens_pool_amount + v.gods_pool_amount;
    assert_eq!(held + paid_out, funded);
}
