//! A vault of one-time-password seeds, guarded by a list of custodians.
//!
//! `principal` holds caller identities, `accounts` the store itself,
//! `gateway` the authorised operations that a host dispatches to and `seed`
//! the choice of what a one-time code is derived from.
mod accounts;
mod gateway;
mod principal;
mod seed;

pub use accounts::{
    distinct_labels, identities, lemma_without_absent, lemma_without_removes_all, other_than,
    record_map, without, Accounts, AccountsView,
};
pub use gateway::{
    add_custodian, after_add_custodian, after_register, after_remove_custodian,
    after_remove_otp, authorized, custodian, custodians, get_otp, init, post_upgrade,
    lemma_register_then_remove_not_found, lemma_remove_custodian_all_or_nothing,
    lemma_reregister_replaces, lemma_unauthorized_changes_nothing, pre_upgrade, register_otp,
    remove_custodian, remove_otp, VaultError,
};
pub use principal::Principal;
pub use seed::{code_moment, seconds_of, SeedKind};
