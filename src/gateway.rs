use crate::accounts::{
    identities, lemma_without_absent, lemma_without_removes_all, record_map, without, Accounts,
    AccountsView,
};
use crate::principal::Principal;
use vstd::prelude::*;
use vstd::string::StringExecFns;

verus! {

/// Why a request to the vault was turned down.
#[derive(Debug, PartialEq, Eq)]
pub enum VaultError {
    /// The caller is not a custodian.
    Unauthorized,
    /// No seed is stored under the label.
    NotFound,
    /// The seed text does not parse; the diagnostic of the parser.
    MalformedSeed(String),
}

impl VaultError {
    /// The text that the host hands back to the caller.
    pub fn message(&self) -> (r: String)
        ensures
            self is Unauthorized ==> r@ == "unauthorized caller"@,
            self is NotFound ==> r@ == "Account not found"@,
            self is MalformedSeed ==> r@ == self->MalformedSeed_0@,
    {
        match self {
            VaultError::Unauthorized => String::from_str("unauthorized caller"),
            VaultError::NotFound => String::from_str("Account not found"),
            VaultError::MalformedSeed(d) => d.clone(),
        }
    }
}

/// Whether `caller` may run the guarded operations on a store in state `v`.
pub open spec fn authorized(v: AccountsView, caller: Seq<u8>) -> bool {
    v.custodians.contains(caller)
}

/// The state after `caller` asks to add `user` to the custodians.
pub open spec fn after_add_custodian(v: AccountsView, caller: Seq<u8>, user: Seq<u8>) -> AccountsView {
    if authorized(v, caller) {
        AccountsView { custodians: v.custodians.push(user), records: v.records }
    } else {
        v
    }
}

/// The state after `caller` asks to take `user` off the custodians.
pub open spec fn after_remove_custodian(
    v: AccountsView,
    caller: Seq<u8>,
    user: Seq<u8>,
) -> AccountsView {
    if authorized(v, caller) {
        AccountsView { custodians: without(v.custodians, user), records: v.records }
    } else {
        v
    }
}

/// The state after `caller` registers `uri` under `name`; `parses` tells
/// whether the seed text parses.
pub open spec fn after_register(
    v: AccountsView,
    caller: Seq<u8>,
    name: Seq<char>,
    uri: Seq<char>,
    parses: bool,
) -> AccountsView {
    if authorized(v, caller) && parses {
        AccountsView { custodians: v.custodians, records: v.records.insert(name, uri) }
    } else {
        v
    }
}

/// The state after `caller` asks to delete the record under `name`.
pub open spec fn after_remove_otp(v: AccountsView, caller: Seq<u8>, name: Seq<char>) -> AccountsView {
    if authorized(v, caller) {
        AccountsView { custodians: v.custodians, records: v.records.remove(name) }
    } else {
        v
    }
}

/// A caller that is not a custodian changes nothing: adding or removing a
/// custodian, registering or deleting a seed all leave the state as it was.
pub proof fn lemma_unauthorized_changes_nothing(
    v: AccountsView,
    caller: Seq<u8>,
    user: Seq<u8>,
    name: Seq<char>,
    uri: Seq<char>,
    parses: bool,
)
    requires
        !authorized(v, caller),
    ensures
        after_add_custodian(v, caller, user) == v,
        after_remove_custodian(v, caller, user) == v,
        after_register(v, caller, name, uri, parses) == v,
        after_remove_otp(v, caller, name) == v,
{
}

/// A seed that is registered and then deleted by a custodian is gone: a code
/// request for its label finds nothing.
pub proof fn lemma_register_then_remove_not_found(
    v: AccountsView,
    caller: Seq<u8>,
    name: Seq<char>,
    uri: Seq<char>,
    parses: bool,
)
    requires
        authorized(v, caller),
    ensures
        authorized(after_remove_otp(after_register(v, caller, name, uri, parses), caller, name), caller),
        !after_remove_otp(after_register(v, caller, name, uri, parses), caller, name).records.contains_key(
            name,
        ),
{
}

/// Registering a label again with seed text that parses replaces the earlier
/// record: the state is as if only the second registration had happened.
pub proof fn lemma_reregister_replaces(
    v: AccountsView,
    caller: Seq<u8>,
    name: Seq<char>,
    first: Seq<char>,
    first_parses: bool,
    second: Seq<char>,
)
    ensures
        after_register(after_register(v, caller, name, first, first_parses), caller, name, second, true)
            == after_register(v, caller, name, second, true),
        authorized(v, caller) ==> after_register(
            after_register(v, caller, name, first, first_parses),
            caller,
            name,
            second,
            true,
        ).records[name] == second,
{
    let once = after_register(v, caller, name, first, first_parses);
    assert(authorized(once, caller) == authorized(v, caller));
    if authorized(v, caller) {
        assert(once.records.insert(name, second) =~= v.records.insert(name, second));
    }
}

/// Taking off a custodian who is not on the list leaves the list as it is;
/// taking off one who is on it removes every occurrence.
pub proof fn lemma_remove_custodian_all_or_nothing(v: AccountsView, caller: Seq<u8>, user: Seq<u8>)
    requires
        authorized(v, caller),
    ensures
        !v.custodians.contains(user) ==> after_remove_custodian(v, caller, user) == v,
        !after_remove_custodian(v, caller, user).custodians.contains(user),
{
    lemma_without_removes_all(v.custodians, user);
    if !v.custodians.contains(user) {
        lemma_without_absent(v.custodians, user);
    }
}

/// Admits `caller` if it is a custodian, else turns it down.
pub fn custodian(accounts: &Accounts, caller: &Principal) -> (r: Result<(), VaultError>)
    ensures
        r is Ok <==> authorized(accounts@, caller@),
        r is Err ==> r == Err::<(), VaultError>(VaultError::Unauthorized),
{
    if accounts.is_custodian(caller) {
        Ok(())
    } else {
        Err(VaultError::Unauthorized)
    }
}

/// Sets up a store: the caller becomes a custodian.
pub fn init(accounts: &mut Accounts, caller: Principal)
    ensures
        final(accounts)@.custodians == old(accounts)@.custodians.push(caller@),
        final(accounts)@.records == old(accounts)@.records,
        authorized(final(accounts)@, caller@),
{
    let ghost id = caller@;
    accounts.add_custodian(caller);
    proof {
        assert(final(accounts)@.custodians[final(accounts)@.custodians.len() - 1] == id);
    }
}

/// The custodian list, to any caller.
pub fn custodians(accounts: &Accounts) -> (r: Vec<Principal>)
    ensures
        identities(r@) == accounts@.custodians,
{
    accounts.custodians()
}

/// Adds `user` to the custodians, if `caller` is one.
pub fn add_custodian(accounts: &mut Accounts, caller: &Principal, user: Principal) -> (r: Result<
    (),
    VaultError,
>)
    ensures
        final(accounts)@ == after_add_custodian(old(accounts)@, caller@, user@),
        r is Ok <==> authorized(old(accounts)@, caller@),
        r is Err ==> r == Err::<(), VaultError>(VaultError::Unauthorized),
{
    custodian(accounts, caller)?;
    accounts.add_custodian(user);
    Ok(())
}

/// Takes every occurrence of `user` off the custodians, if `caller` is one.
pub fn remove_custodian(accounts: &mut Accounts, caller: &Principal, user: Principal) -> (r: Result<
    (),
    VaultError,
>)
    ensures
        final(accounts)@ == after_remove_custodian(old(accounts)@, caller@, user@),
        r is Ok <==> authorized(old(accounts)@, caller@),
        r is Err ==> r == Err::<(), VaultError>(VaultError::Unauthorized),
{
    custodian(accounts, caller)?;
    accounts.remove_custodian(user);
    Ok(())
}

/// Authorises a code request for `name` and hands back the seed text that
/// the code is derived from.
pub fn get_otp(accounts: &Accounts, caller: &Principal, name: String) -> (r: Result<
    String,
    VaultError,
>)
    ensures
        !authorized(accounts@, caller@) ==> r == Err::<String, VaultError>(VaultError::Unauthorized),
        authorized(accounts@, caller@) && !accounts@.records.contains_key(name@) ==> r == Err::<
            String,
            VaultError,
        >(VaultError::NotFound),
        authorized(accounts@, caller@) && accounts@.records.contains_key(name@) ==> r is Ok
            && r->Ok_0@ == accounts@.records[name@],
{
    custodian(accounts, caller)?;
    match accounts.get(name.as_str()) {
        Some(seed) => Ok(seed),
        None => Err(VaultError::NotFound),
    }
}

/// Stores `uri` under `name`, if `caller` is a custodian and the seed text
/// parses. `diagnostic` is the parser's verdict on `uri`: `None` when it
/// parses, else the description of the failure.
pub fn register_otp(
    accounts: &mut Accounts,
    caller: &Principal,
    name: String,
    uri: String,
    diagnostic: Option<String>,
) -> (r: Result<(), VaultError>)
    ensures
        final(accounts)@ == after_register(old(accounts)@, caller@, name@, uri@, diagnostic is None),
        !authorized(old(accounts)@, caller@) ==> r == Err::<(), VaultError>(VaultError::Unauthorized),
        authorized(old(accounts)@, caller@) && diagnostic is Some ==> r is Err && r->Err_0
            is MalformedSeed && r->Err_0->MalformedSeed_0@ == diagnostic->Some_0@,
        authorized(old(accounts)@, caller@) && diagnostic is None ==> r is Ok,
{
    custodian(accounts, caller)?;
    accounts.insert(name, uri, diagnostic)
}

/// Deletes the record under `name`, if `caller` is a custodian.
pub fn remove_otp(accounts: &mut Accounts, caller: &Principal, name: String) -> (r: Result<
    (),
    VaultError,
>)
    ensures
        final(accounts)@ == after_remove_otp(old(accounts)@, caller@, name@),
        r is Ok <==> authorized(old(accounts)@, caller@),
        r is Err ==> r == Err::<(), VaultError>(VaultError::Unauthorized),
{
    custodian(accounts, caller)?;
    accounts.remove(name);
    Ok(())
}

/// What a store saves before an upgrade: its custodians and its records.
pub fn pre_upgrade(accounts: &Accounts) -> (r: (Vec<Principal>, Vec<(String, String)>))
    ensures
        identities(r.0@) == accounts@.custodians,
        record_map(r.1@) == accounts@.records,
{
    (accounts.custodians(), accounts.records())
}

/// The store that a saved state stands for, rebuilt after an upgrade; of two
/// saved records with one label the later one is kept.
pub fn post_upgrade(custodians: Vec<Principal>, records: Vec<(String, String)>) -> (r: Accounts)
    ensures
        r@.custodians == identities(custodians@),
        r@.records == record_map(records@),
{
    let mut accounts = Accounts::new();
    let mut i: usize = 0;
    while i < custodians.len()
        invariant
            i <= custodians@.len(),
            accounts@.custodians =~= identities(custodians@).subrange(0, i as int),
            accounts@.records == record_map(records@.subrange(0, 0)),
        decreases custodians@.len() - i,
    {
        accounts.add_custodian(custodians[i].duplicate());
        i = i + 1;
    }
    let mut k: usize = 0;
    while k < records.len()
        invariant
            k <= records@.len(),
            accounts@.custodians =~= identities(custodians@),
            accounts@.records == record_map(records@.subrange(0, k as int)),
        decreases records@.len() - k,
    {
        let label = records[k].0.clone();
        let seed = records[k].1.clone();
        accounts.put(label, seed);
        proof {
            assert(records@.subrange(0, k + 1).drop_last() =~= records@.subrange(0, k as int));
        }
        k = k + 1;
    }
    proof {
        assert(records@.subrange(0, k as int) =~= records@);
    }
    accounts
}

} // verus!
