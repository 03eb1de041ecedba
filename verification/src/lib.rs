//! A staking-reward settlement engine for NFT-backed positions.
//!
//! Three shared pools of a single reward asset (the CTZN, alien, and god
//! pools) are funded, drained by claims, and drawn down by administrative
//! withdrawals. Staked items accrue reward linearly with time; a CTZN claim
//! rolls a per-item risk draw that can forfeit the accrual to the alien
//! side, splits the forfeited amount between a burn and a proportional
//! redistribution over all staked alien items, and finally clamps every
//! transfer to what the CTZN pool actually holds.
//!
//! The library is the pure state machine: ledgers, the reward engine, and
//! pool accounting, all over plain integer identities. Token custody,
//! signature checks, the clock and the randomness source are external
//! collaborators; callers perform the custody transfers this library
//! decides, and hand in the current time and the random draws.

pub mod state;
pub mod vault;
pub mod stake;
pub mod claim;
pub mod laws;
