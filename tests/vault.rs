use otp_canister::{
    add_custodian, code_moment, custodian, custodians, get_otp, init, post_upgrade, pre_upgrade,
    register_otp, remove_custodian, remove_otp, seconds_of, Accounts, Principal, SeedKind,
    VaultError,
};

const TOTP_URI: &str = "otpauth://totp/ossian:self@ossian.dev?secret=NICE&issuer=ossian&algorithm=SHA1&digits=6&period=30";
const OTHER_URI: &str = "otpauth://totp/acct?secret=JBSWY3DPEHPK3PXP";

fn who(b: &[u8]) -> Principal {
    Principal::from_bytes(b.to_vec())
}

fn ids(accounts: &Accounts) -> Vec<Vec<u8>> {
    custodians(accounts).iter().map(|p| p.to_bytes()).collect()
}

fn labels(accounts: &Accounts) -> Vec<String> {
    let mut l: Vec<String> = accounts.records().into_iter().map(|(k, _)| k).collect();
    l.sort();
    l
}

fn vault_of(owner: &[u8]) -> Accounts {
    let mut a = Accounts::default();
    init(&mut a, who(owner));
    a
}

#[test]
fn init_makes_caller_custodian() {
    let a = vault_of(b"alice");
    assert_eq!(ids(&a), vec![b"alice".to_vec()]);
    assert_eq!(custodian(&a, &who(b"alice")), Ok(()));
    assert_eq!(custodian(&a, &who(b"bob")), Err(VaultError::Unauthorized));
}

#[test]
fn register_before_init_is_unauthorized() {
    let mut a = Accounts::default();
    let r = register_otp(&mut a, &who(b"eve"), "acct".to_string(), TOTP_URI.to_string(), None);
    assert_eq!(r, Err(VaultError::Unauthorized));
    assert!(labels(&a).is_empty());
    assert!(ids(&a).is_empty());
}

#[test]
fn unauthorized_caller_changes_nothing() {
    let mut a = vault_of(b"alice");
    let ok = register_otp(&mut a, &who(b"alice"), "acct".to_string(), TOTP_URI.to_string(), None);
    assert_eq!(ok, Ok(()));
    let eve = who(b"eve");
    assert_eq!(add_custodian(&mut a, &eve, who(b"eve")), Err(VaultError::Unauthorized));
    assert_eq!(remove_custodian(&mut a, &eve, who(b"alice")), Err(VaultError::Unauthorized));
    assert_eq!(
        register_otp(&mut a, &eve, "acct".to_string(), OTHER_URI.to_string(), None),
        Err(VaultError::Unauthorized)
    );
    assert_eq!(remove_otp(&mut a, &eve, "acct".to_string()), Err(VaultError::Unauthorized));
    assert_eq!(get_otp(&a, &eve, "acct".to_string()), Err(VaultError::Unauthorized));
    assert_eq!(ids(&a), vec![b"alice".to_vec()]);
    assert_eq!(get_otp(&a, &who(b"alice"), "acct".to_string()), Ok(TOTP_URI.to_string()));
}

#[test]
fn malformed_seed_is_rejected_and_not_stored() {
    let mut a = vault_of(b"alice");
    let r = register_otp(
        &mut a,
        &who(b"alice"),
        "bad".to_string(),
        "not a uri".to_string(),
        Some("UriParseError(RelativeUrlWithoutBase)".to_string()),
    );
    assert_eq!(
        r,
        Err(VaultError::MalformedSeed("UriParseError(RelativeUrlWithoutBase)".to_string()))
    );
    assert!(labels(&a).is_empty());
    assert_eq!(get_otp(&a, &who(b"alice"), "bad".to_string()), Err(VaultError::NotFound));
}

#[test]
fn repeated_code_requests_agree() {
    let mut a = vault_of(b"alice");
    let alice = who(b"alice");
    register_otp(&mut a, &alice, "a".to_string(), TOTP_URI.to_string(), None).unwrap();
    let first = get_otp(&a, &alice, "a".to_string());
    let second = get_otp(&a, &alice, "a".to_string());
    assert_eq!(first, second);
    assert_eq!(first, Ok(TOTP_URI.to_string()));
    assert_eq!(code_moment(SeedKind::Totp, 1_700_000_015), 1_700_000_015);
}

#[test]
fn register_remove_then_not_found() {
    let mut a = vault_of(b"alice");
    let alice = who(b"alice");
    register_otp(&mut a, &alice, "acct".to_string(), TOTP_URI.to_string(), None).unwrap();
    assert_eq!(remove_otp(&mut a, &alice, "acct".to_string()), Ok(()));
    assert_eq!(get_otp(&a, &alice, "acct".to_string()), Err(VaultError::NotFound));
    assert_eq!(remove_otp(&mut a, &alice, "acct".to_string()), Ok(()));
    assert!(labels(&a).is_empty());
}

#[test]
fn reregistering_replaces_record() {
    let mut a = vault_of(b"alice");
    let alice = who(b"alice");
    register_otp(&mut a, &alice, "acct".to_string(), TOTP_URI.to_string(), None).unwrap();
    register_otp(&mut a, &alice, "acct".to_string(), OTHER_URI.to_string(), None).unwrap();
    assert_eq!(get_otp(&a, &alice, "acct".to_string()), Ok(OTHER_URI.to_string()));
    assert_eq!(labels(&a), vec!["acct".to_string()]);
    assert_eq!(a.records().len(), 1);
}

#[test]
fn labels_are_case_sensitive() {
    let mut a = vault_of(b"alice");
    let alice = who(b"alice");
    register_otp(&mut a, &alice, "Acct".to_string(), TOTP_URI.to_string(), None).unwrap();
    register_otp(&mut a, &alice, "acct".to_string(), OTHER_URI.to_string(), None).unwrap();
    assert_eq!(get_otp(&a, &alice, "Acct".to_string()), Ok(TOTP_URI.to_string()));
    assert_eq!(get_otp(&a, &alice, "acct".to_string()), Ok(OTHER_URI.to_string()));
    assert_eq!(get_otp(&a, &alice, "ACCT".to_string()), Err(VaultError::NotFound));
}

#[test]
fn removing_absent_custodian_is_noop() {
    let mut a = vault_of(b"alice");
    let alice = who(b"alice");
    add_custodian(&mut a, &alice, who(b"bob")).unwrap();
    assert_eq!(remove_custodian(&mut a, &alice, who(b"carol")), Ok(()));
    assert_eq!(ids(&a), vec![b"alice".to_vec(), b"bob".to_vec()]);
}

#[test]
fn removing_custodian_removes_every_occurrence() {
    let mut a = vault_of(b"alice");
    let alice = who(b"alice");
    add_custodian(&mut a, &alice, who(b"bob")).unwrap();
    add_custodian(&mut a, &alice, who(b"carol")).unwrap();
    add_custodian(&mut a, &alice, who(b"bob")).unwrap();
    assert_eq!(ids(&a).len(), 4);
    remove_custodian(&mut a, &alice, who(b"bob")).unwrap();
    assert_eq!(ids(&a), vec![b"alice".to_vec(), b"carol".to_vec()]);
    assert_eq!(custodian(&a, &who(b"bob")), Err(VaultError::Unauthorized));
}

#[test]
fn last_custodian_may_leave() {
    let mut a = vault_of(b"alice");
    let alice = who(b"alice");
    remove_custodian(&mut a, &alice, who(b"alice")).unwrap();
    assert!(ids(&a).is_empty());
    assert_eq!(add_custodian(&mut a, &alice, who(b"alice")), Err(VaultError::Unauthorized));
}

#[test]
fn store_level_operations() {
    let mut a = Accounts::new();
    a.add_custodian(who(b"x"));
    a.add_custodian(who(b"x"));
    assert!(a.is_custodian(&who(b"x")));
    assert!(!a.is_custodian(&who(b"y")));
    assert_eq!(a.insert("k".to_string(), "v1".to_string(), None), Ok(()));
    assert_eq!(a.insert("k".to_string(), "v2".to_string(), None), Ok(()));
    assert_eq!(a.get("k"), Some("v2".to_string()));
    a.remove("k".to_string());
    assert_eq!(a.get("k"), None);
    a.remove_custodian(who(b"x"));
    assert!(a.custodians().is_empty());
}

#[test]
fn store_insert_rejects_malformed_seed() {
    let mut a = Accounts::new();
    assert_eq!(a.insert("k".to_string(), "v1".to_string(), None), Ok(()));
    let r = a.insert("k".to_string(), "not a uri".to_string(), Some("MissingSecret".to_string()));
    assert_eq!(r, Err(VaultError::MalformedSeed("MissingSecret".to_string())));
    assert_eq!(a.get("k"), Some("v1".to_string()));
    let r = a.insert("new".to_string(), "not a uri".to_string(), Some("MissingSecret".to_string()));
    assert_eq!(r, Err(VaultError::MalformedSeed("MissingSecret".to_string())));
    assert_eq!(a.get("new"), None);
    assert_eq!(a.records().len(), 1);
}

#[test]
fn upgrade_round_trip_keeps_state() {
    let mut a = vault_of(b"alice");
    let alice = who(b"alice");
    add_custodian(&mut a, &alice, who(b"bob")).unwrap();
    register_otp(&mut a, &alice, "one".to_string(), TOTP_URI.to_string(), None).unwrap();
    register_otp(&mut a, &alice, "two".to_string(), OTHER_URI.to_string(), None).unwrap();
    let (c, r) = pre_upgrade(&a);
    let b = post_upgrade(c, r);
    assert_eq!(ids(&b), ids(&a));
    assert_eq!(labels(&b), vec!["one".to_string(), "two".to_string()]);
    assert_eq!(get_otp(&b, &alice, "one".to_string()), Ok(TOTP_URI.to_string()));
    assert_eq!(get_otp(&b, &alice, "two".to_string()), Ok(OTHER_URI.to_string()));
}

#[test]
fn restore_keeps_later_of_duplicate_labels() {
    let saved = vec![
        ("k".to_string(), "first".to_string()),
        ("k".to_string(), "second".to_string()),
    ];
    let b = post_upgrade(vec![who(b"alice")], saved);
    assert_eq!(b.get("k"), Some("second".to_string()));
    assert_eq!(b.records().len(), 1);
}

#[test]
fn code_moment_follows_seed_kind() {
    assert_eq!(code_moment(SeedKind::Totp, 59), 59);
    assert_eq!(code_moment(SeedKind::Hotp { counter: 7 }, 59), 7);
    assert_eq!(code_moment(SeedKind::Hotp { counter: 7 }, 1_000), 7);
}

#[test]
fn seconds_of_truncates() {
    assert_eq!(seconds_of(1_700_000_000_999_999_999), 1_700_000_000);
    assert_eq!(seconds_of(999_999_999), 0);
    assert_eq!(seconds_of(u64::MAX), 18_446_744_073);
}

#[test]
fn error_messages() {
    assert_eq!(VaultError::Unauthorized.message(), "unauthorized caller");
    assert_eq!(VaultError::NotFound.message(), "Account not found");
    assert_eq!(VaultError::MalformedSeed("MissingSecret".to_string()).message(), "MissingSecret");
}

#[test]
fn principal_bytes_and_equality() {
    let p = who(&[1, 2, 3]);
    assert_eq!(p.to_bytes(), vec![1, 2, 3]);
    assert!(p.same_as(&who(&[1, 2, 3])));
    assert!(!p.same_as(&who(&[1, 2])));
    assert!(!p.same_as(&who(&[1, 2, 4])));
    assert_eq!(p.duplicate(), p);
    assert_ne!(p, who(&[]));
}
