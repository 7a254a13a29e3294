use skin_nft_contract::ids::token_series_part;
use skin_nft_contract::ledger::Contract;
use skin_nft_contract::royalty::{compute_payout, royalty_to_payout};
use skin_nft_contract::storage::refund_deposit;
use skin_nft_contract::strmap::StrMap;
use skin_nft_contract::types::{ContractError, FuseArgs, NotificationOutcome, TokenMetadata};

const NOW: u64 = 42;

fn s(x: &str) -> String {
    x.to_string()
}

fn metadata(title: Option<&str>, copies: Option<u64>) -> TokenMetadata {
    TokenMetadata {
        title: title.map(|t| t.to_string()),
        description: None,
        media: Some(s("media")),
        media_hash: None,
        copies,
        issued_at: None,
        expires_at: None,
        starts_at: None,
        updated_at: None,
        extra: None,
        reference: Some(s("reference")),
        reference_hash: None,
    }
}

fn ledger() -> Contract {
    Contract::new_default_meta(s("owner")).unwrap()
}

fn add_series(c: &mut Contract, copies: Option<u64>) -> String {
    c.nft_create_series(&s("owner"), None, metadata(Some("Skin"), copies), None, None, None, None)
        .unwrap()
        .token_series_id
}

fn add_fuse_series(c: &mut Contract, recipes: Vec<Vec<&str>>) -> String {
    let reqs: Vec<Vec<String>> = recipes.into_iter().map(|r| r.into_iter().map(s).collect()).collect();
    c.nft_create_series(&s("owner"), None, metadata(Some("Fused"), None), None, None, Some(reqs), Some((s("usdc.token"), 5)))
        .unwrap()
        .token_series_id
}

fn mint(c: &mut Contract, series: &str, to: &str) -> String {
    c.nft_mint(&s("owner"), s(series), s(to), NOW).unwrap()
}

fn owner_of(c: &Contract, token: &str) -> Option<String> {
    c.nft_token(s(token)).unwrap().map(|t| t.owner_id)
}

#[test]
fn series_ids_and_token_ids_are_decimal() {
    let mut c = ledger();
    for i in 1..=10u64 {
        assert_eq!(add_series(&mut c, None), i.to_string());
    }
    for e in 1..=10u64 {
        assert_eq!(mint(&mut c, "10", "alice"), format!("10:{}", e));
    }
    assert_eq!(c.nft_supply_for_series(s("10")), Ok(10));
    assert_eq!(token_series_part(&s("10:7")), "10");
    assert_eq!(token_series_part(&s("plain")), "plain");
}

#[test]
fn token_display_metadata_comes_from_series() {
    let mut c = ledger();
    add_series(&mut c, Some(3));
    let t = mint(&mut c, "1", "alice");
    let token = c.nft_token(t).unwrap().unwrap();
    let m = token.metadata.unwrap();
    assert_eq!(m.title.unwrap(), "Skin #1");
    assert_eq!(m.media.unwrap(), "media");
    assert_eq!(m.reference.unwrap(), "reference");
    assert_eq!(m.copies, Some(3));
    assert_eq!(m.issued_at.unwrap(), "42");
    assert_eq!(token.approved_account_ids.unwrap().len(), 0);
}

#[test]
fn mint_that_reaches_the_cap_closes_the_series() {
    let mut c = ledger();
    add_series(&mut c, Some(2));
    mint(&mut c, "1", "alice");
    assert_eq!(c.nft_set_series_price(&s("owner"), s("1"), Some(5)), Ok(Some(5)));
    mint(&mut c, "1", "alice");
    assert_eq!(c.nft_supply_for_series(s("1")), Ok(2));
    assert_eq!(c.nft_set_series_price(&s("owner"), s("1"), Some(5)), Err(ContractError::NotMintable));
    assert_eq!(c.nft_mint(&s("owner"), s("1"), s("alice"), NOW), Err(ContractError::NotMintable));
}

#[test]
fn series_with_zero_copies_never_mints() {
    let mut c = ledger();
    add_series(&mut c, Some(0));
    assert_eq!(c.nft_mint(&s("owner"), s("1"), s("alice"), NOW), Err(ContractError::NotMintable));
}

#[test]
fn editions_are_never_reused_after_burn() {
    let mut c = ledger();
    add_series(&mut c, None);
    let first = mint(&mut c, "1", "alice");
    assert_eq!(first, "1:1");
    c.nft_burn(&s("alice"), first.clone()).unwrap();
    let second = mint(&mut c, "1", "alice");
    assert_eq!(second, "1:2");
    assert_eq!(owner_of(&c, "1:1"), None);
    assert_eq!(c.nft_supply_for_series(s("1")), Ok(2));
}

#[test]
fn decrease_copies_to_minted_closes_series() {
    let mut c = ledger();
    add_series(&mut c, Some(5));
    mint(&mut c, "1", "alice");
    mint(&mut c, "1", "alice");
    assert_eq!(c.nft_decrease_series_copies(&s("owner"), s("1"), 4), Err(ContractError::CopiesBelowMinted));
    assert_eq!(c.nft_decrease_series_copies(&s("owner"), s("1"), 9), Err(ContractError::CopiesBelowMinted));
    assert_eq!(c.nft_decrease_series_copies(&s("owner"), s("1"), 3), Ok(2));
    assert_eq!(c.nft_mint(&s("owner"), s("1"), s("alice"), NOW), Err(ContractError::NotMintable));
    assert_eq!(c.nft_get_series_single(s("1")).unwrap().metadata.copies, Some(2));
}

#[test]
fn decrease_copies_errors() {
    let mut c = ledger();
    add_series(&mut c, None);
    assert_eq!(c.nft_decrease_series_copies(&s("owner"), s("1"), 1), Err(ContractError::CopiesNotSet));
    assert_eq!(c.nft_decrease_series_copies(&s("bob"), s("1"), 1), Err(ContractError::Unauthorized));
    assert_eq!(c.nft_decrease_series_copies(&s("owner"), s("2"), 1), Err(ContractError::SeriesNotFound));
}

#[test]
fn non_mintable_errors() {
    let mut c = ledger();
    add_series(&mut c, Some(3));
    add_series(&mut c, None);
    assert_eq!(c.nft_set_series_non_mintable(&s("owner"), s("1")), Err(ContractError::CopiesSet));
    assert_eq!(c.nft_set_series_non_mintable(&s("owner"), s("2")), Ok(()));
    assert_eq!(c.nft_set_series_non_mintable(&s("owner"), s("2")), Err(ContractError::AlreadyNonMintable));
}

#[test]
fn create_series_checks() {
    let mut c = ledger();
    assert_eq!(
        c.nft_create_series(&s("bob"), None, metadata(Some("x"), None), None, None, None, None).err(),
        Some(ContractError::Unauthorized)
    );
    assert_eq!(
        c.nft_create_series(&s("owner"), Some(s("bob")), metadata(Some("x"), None), None, None, None, None).err(),
        Some(ContractError::Unauthorized)
    );
    assert_eq!(
        c.nft_create_series(&s("owner"), Some(s("Bad!")), metadata(Some("x"), None), None, None, None, None).err(),
        Some(ContractError::InvalidAccountId)
    );
    assert_eq!(
        c.nft_create_series(&s("owner"), None, metadata(None, None), None, None, None, None).err(),
        Some(ContractError::TitleRequired)
    );
    let mut too_much = StrMap::new();
    too_much.insert(s("alice"), 5000);
    too_much.insert(s("bob"), 4001);
    assert_eq!(
        c.nft_create_series(&s("owner"), None, metadata(Some("x"), None), None, Some(too_much), None, None).err(),
        Some(ContractError::InvalidRoyaltyConfig)
    );
    let mut many = StrMap::new();
    for i in 0..11 {
        many.insert(format!("acc{}", i), 1);
    }
    assert_eq!(
        c.nft_create_series(&s("owner"), None, metadata(Some("x"), None), None, Some(many), None, None).err(),
        Some(ContractError::InvalidRoyaltyConfig)
    );
    let mut bad_account = StrMap::new();
    bad_account.insert(s("-alice"), 10);
    assert_eq!(
        c.nft_create_series(&s("owner"), None, metadata(Some("x"), None), None, Some(bad_account), None, None).err(),
        Some(ContractError::InvalidAccountId)
    );
    let mut at_limit = StrMap::new();
    at_limit.insert(s("alice"), 5000);
    at_limit.insert(s("bob"), 4000);
    let json = c.nft_create_series(&s("owner"), Some(s("owner")), metadata(Some("x"), None), Some(7), Some(at_limit), None, None).unwrap();
    assert_eq!(json.token_series_id, "1");
    assert_eq!(c.nft_get_series_price(s("1")), Ok(Some(7)));
}

#[test]
fn buy_requires_payment() {
    let mut c = ledger();
    c.nft_create_series(&s("owner"), None, metadata(Some("x"), None), Some(100), None, None, None).unwrap();
    assert!(matches!(c.nft_buy(s("1"), s("alice"), 99, NOW), Err(ContractError::InsufficientPayment)));
    assert!(matches!(c.nft_buy(s("2"), s("alice"), 100, NOW), Err(ContractError::SeriesNotFound)));
    assert!(matches!(c.nft_buy(s("1"), s("Alice"), 100, NOW), Err(ContractError::InvalidAccountId)));
    let (t, pay) = c.nft_buy(s("1"), s("alice"), 150, NOW).unwrap();
    assert_eq!(t, "1:1");
    assert_eq!(pay.amount, 150);
}

#[test]
fn only_creator_mints() {
    let mut c = ledger();
    add_series(&mut c, None);
    assert_eq!(c.nft_mint(&s("bob"), s("1"), s("alice"), NOW), Err(ContractError::Unauthorized));
    assert_eq!(c.nft_mint(&s("owner"), s("9"), s("alice"), NOW), Err(ContractError::SeriesNotFound));
}

#[test]
fn fuse_burns_all_matching_tokens() {
    let mut c = ledger();
    let a = add_series(&mut c, None);
    let b = add_series(&mut c, None);
    let target = add_fuse_series(&mut c, vec![vec![&a, &a, &b]]);
    let a1 = mint(&mut c, &a, "alice");
    let a2 = mint(&mut c, &a, "alice");
    let b1 = mint(&mut c, &b, "alice");
    let made = c.nft_fuse(&s("alice"), vec![a1.clone(), a2.clone(), b1.clone()], target.clone(), NOW).unwrap();
    assert_eq!(made, Some(s("3:1")));
    assert_eq!(owner_of(&c, &a1), None);
    assert_eq!(owner_of(&c, &a2), None);
    assert_eq!(owner_of(&c, &b1), None);
    assert_eq!(owner_of(&c, "3:1"), Some(s("alice")));
    assert_eq!(c.get_last_token_by_owner(s("alice")), Some(s("3:1")));
}

#[test]
fn fuse_missing_token_burns_nothing() {
    let mut c = ledger();
    let a = add_series(&mut c, None);
    let b = add_series(&mut c, None);
    let target = add_fuse_series(&mut c, vec![vec![&a, &a, &b]]);
    let a1 = mint(&mut c, &a, "alice");
    let b1 = mint(&mut c, &b, "alice");
    let made = c.nft_fuse(&s("alice"), vec![a1.clone(), b1.clone()], target, NOW).unwrap();
    assert_eq!(made, None);
    assert_eq!(owner_of(&c, &a1), Some(s("alice")));
    assert_eq!(owner_of(&c, &b1), Some(s("alice")));
    assert_eq!(c.get_last_token_by_owner(s("alice")), None);
}

#[test]
fn fuse_second_alternative() {
    let mut c = ledger();
    let a = add_series(&mut c, None);
    let b = add_series(&mut c, None);
    let cc = add_series(&mut c, None);
    let target = add_fuse_series(&mut c, vec![vec![&a, &b], vec![&cc]]);
    let c1 = mint(&mut c, &cc, "alice");
    let made = c.nft_fuse(&s("alice"), vec![c1.clone()], target, NOW).unwrap();
    assert_eq!(made, Some(s("4:1")));
    assert_eq!(owner_of(&c, &c1), None);
}

#[test]
fn fuse_burns_surplus_tokens() {
    let mut c = ledger();
    let a = add_series(&mut c, None);
    let b = add_series(&mut c, None);
    let target = add_fuse_series(&mut c, vec![vec![&a]]);
    let a1 = mint(&mut c, &a, "alice");
    let b1 = mint(&mut c, &b, "alice");
    assert!(c.nft_fuse(&s("alice"), vec![a1.clone(), b1.clone()], target, NOW).unwrap().is_some());
    assert_eq!(owner_of(&c, &b1), None);
}

#[test]
fn fuse_errors() {
    let mut c = ledger();
    let a = add_series(&mut c, None);
    let target = add_fuse_series(&mut c, vec![vec![&a]]);
    let a1 = mint(&mut c, &a, "alice");
    assert_eq!(c.nft_fuse(&s("bob"), vec![a1.clone()], target.clone(), NOW), Err(ContractError::Unauthorized));
    assert_eq!(c.nft_fuse(&s("alice"), vec![s("1:9")], target.clone(), NOW), Err(ContractError::TokenNotFound));
    assert_eq!(c.nft_fuse(&s("alice"), vec![a1.clone()], a.clone(), NOW), Err(ContractError::NoFuseRequirements));
    assert_eq!(c.nft_fuse(&s("alice"), vec![a1.clone()], s("7"), NOW), Err(ContractError::SeriesNotFound));
    assert_eq!(owner_of(&c, &a1), Some(s("alice")));
}

#[test]
fn fuse_into_closed_series_fails_without_burning() {
    let mut c = ledger();
    let a = add_series(&mut c, None);
    let target = add_fuse_series(&mut c, vec![vec![&a]]);
    c.nft_set_series_non_mintable(&s("owner"), target.clone()).unwrap();
    let a1 = mint(&mut c, &a, "alice");
    assert_eq!(c.nft_fuse(&s("alice"), vec![a1.clone()], target, NOW), Err(ContractError::NotMintable));
    assert_eq!(owner_of(&c, &a1), Some(s("alice")));
}

#[test]
fn paid_fuse() {
    let mut c = ledger();
    let a = add_series(&mut c, None);
    let target = add_fuse_series(&mut c, vec![vec![&a]]);
    let a1 = mint(&mut c, &a, "alice");
    let args = |ids: Vec<String>| FuseArgs { token_ids: ids, target_token_series_id: target.clone() };
    assert_eq!(
        c.ft_on_transfer(&s("usdc.token"), &s("usdc.token"), s("alice"), 5, args(vec![a1.clone()]), NOW),
        Err(ContractError::NotCrossContractCall)
    );
    assert_eq!(
        c.ft_on_transfer(&s("dai.token"), &s("alice"), s("alice"), 5, args(vec![a1.clone()]), NOW),
        Err(ContractError::PaymentAssetMismatch)
    );
    assert_eq!(
        c.ft_on_transfer(&s("usdc.token"), &s("alice"), s("alice"), 4, args(vec![a1.clone()]), NOW),
        Err(ContractError::InsufficientPayment)
    );
    assert_eq!(
        c.ft_on_transfer(&s("usdc.token"), &s("alice"), s("alice"), 5, args(vec![]), NOW),
        Err(ContractError::FuseNotSatisfied)
    );
    assert_eq!(
        c.ft_on_transfer(&s("usdc.token"), &s("alice"), s("alice"), 5, FuseArgs { token_ids: vec![a1.clone()], target_token_series_id: a.clone() }, NOW),
        Err(ContractError::NoFuseCost)
    );
    assert_eq!(c.ft_on_transfer(&s("usdc.token"), &s("alice"), s("alice"), 6, args(vec![a1.clone()]), NOW), Ok(0));
    assert_eq!(owner_of(&c, &a1), None);
    assert_eq!(owner_of(&c, "2:1"), Some(s("alice")));
}

#[test]
fn rejected_transfer_is_rolled_back() {
    let mut c = ledger();
    add_series(&mut c, None);
    let t = mint(&mut c, "1", "alice");
    c.nft_approve(&s("alice"), t.clone(), s("market"), None).unwrap();
    let n = c.nft_transfer_call(&s("alice"), s("bob"), t.clone(), None, None, s("msg")).unwrap();
    assert_eq!(n.previous_owner_id, "alice");
    assert_eq!(owner_of(&c, &t), Some(s("bob")));
    assert_eq!(c.nft_is_approved(t.clone(), s("market"), None), Ok(false));
    let kept = c.nft_resolve_transfer(n.previous_owner_id, n.receiver_id, n.token_id, n.approved_account_ids, NotificationOutcome::Rejected);
    assert!(!kept);
    assert_eq!(owner_of(&c, &t), Some(s("alice")));
    assert_eq!(c.nft_is_approved(t.clone(), s("market"), Some(1)), Ok(true));
}

#[test]
fn failed_notification_is_rolled_back() {
    let mut c = ledger();
    add_series(&mut c, None);
    let t = mint(&mut c, "1", "alice");
    let n = c.nft_transfer_call(&s("alice"), s("bob"), t.clone(), None, None, s("msg")).unwrap();
    let kept = c.nft_resolve_transfer(n.previous_owner_id, n.receiver_id, n.token_id, n.approved_account_ids, NotificationOutcome::Failed);
    assert!(!kept);
    assert_eq!(owner_of(&c, &t), Some(s("alice")));
}

#[test]
fn accepted_transfer_stands() {
    let mut c = ledger();
    add_series(&mut c, None);
    let t = mint(&mut c, "1", "alice");
    let n = c.nft_transfer_call(&s("alice"), s("bob"), t.clone(), None, None, s("msg")).unwrap();
    let kept = c.nft_resolve_transfer(n.previous_owner_id, n.receiver_id, n.token_id, n.approved_account_ids, NotificationOutcome::Accepted);
    assert!(kept);
    assert_eq!(owner_of(&c, &t), Some(s("bob")));
}

#[test]
fn moved_token_is_not_returned() {
    let mut c = ledger();
    add_series(&mut c, None);
    let t = mint(&mut c, "1", "alice");
    let n = c.nft_transfer_call(&s("alice"), s("bob"), t.clone(), None, None, s("msg")).unwrap();
    c.nft_transfer(&s("bob"), s("carol"), t.clone(), None, None).unwrap();
    let kept = c.nft_resolve_transfer(n.previous_owner_id, n.receiver_id, n.token_id, n.approved_account_ids, NotificationOutcome::Rejected);
    assert!(!kept);
    assert_eq!(owner_of(&c, &t), Some(s("carol")));
}

#[test]
fn approval_ids_increase_and_transfer_clears_them() {
    let mut c = ledger();
    add_series(&mut c, None);
    let t = mint(&mut c, "1", "alice");
    let first = c.nft_approve(&s("alice"), t.clone(), s("market"), Some(s("hi"))).unwrap().unwrap();
    assert_eq!(first.approval_id, 1);
    assert_eq!(first.owner_id, "alice");
    assert_eq!(c.nft_approve(&s("alice"), t.clone(), s("shop"), None).unwrap().is_none(), true);
    assert_eq!(c.nft_is_approved(t.clone(), s("shop"), Some(2)), Ok(true));
    assert_eq!(c.nft_is_approved(t.clone(), s("shop"), Some(1)), Ok(false));
    c.nft_transfer(&s("market"), s("bob"), t.clone(), Some(1), None).unwrap();
    assert_eq!(c.nft_is_approved(t.clone(), s("market"), None), Ok(false));
    assert_eq!(c.nft_is_approved(t.clone(), s("shop"), None), Ok(false));
    let third = c.nft_approve(&s("bob"), t.clone(), s("market"), Some(s("again"))).unwrap().unwrap();
    assert_eq!(third.approval_id, 3);
}

#[test]
fn transfer_errors() {
    let mut c = ledger();
    add_series(&mut c, None);
    let t = mint(&mut c, "1", "alice");
    c.nft_approve(&s("alice"), t.clone(), s("market"), None).unwrap();
    assert_eq!(c.nft_transfer(&s("bob"), s("carol"), t.clone(), None, None), Err(ContractError::Unauthorized));
    assert_eq!(c.nft_transfer(&s("market"), s("carol"), t.clone(), Some(7), None), Err(ContractError::Unauthorized));
    assert_eq!(c.nft_transfer(&s("alice"), s("alice"), t.clone(), None, None), Err(ContractError::SameOwner));
    assert_eq!(c.nft_transfer(&s("alice"), s("carol"), s("1:5"), None, None), Err(ContractError::TokenNotFound));
    assert_eq!(c.nft_transfer(&s("alice"), s("Carol"), t.clone(), None, None), Err(ContractError::InvalidAccountId));
    assert_eq!(c.nft_transfer(&s("market"), s("carol"), t.clone(), None, None), Ok(s("alice")));
}

#[test]
fn revoke_and_burn() {
    let mut c = ledger();
    add_series(&mut c, None);
    let t = mint(&mut c, "1", "alice");
    c.nft_approve(&s("alice"), t.clone(), s("market"), None).unwrap();
    c.nft_approve(&s("alice"), t.clone(), s("shop"), None).unwrap();
    assert_eq!(c.nft_revoke(&s("bob"), t.clone(), s("market")), Err(ContractError::Unauthorized));
    c.nft_revoke(&s("alice"), t.clone(), s("market")).unwrap();
    assert_eq!(c.nft_is_approved(t.clone(), s("market"), None), Ok(false));
    assert_eq!(c.nft_is_approved(t.clone(), s("shop"), None), Ok(true));
    c.nft_revoke_all(&s("alice"), t.clone()).unwrap();
    assert_eq!(c.nft_is_approved(t.clone(), s("shop"), None), Ok(false));
    assert_eq!(c.nft_burn(&s("bob"), t.clone()), Err(ContractError::Unauthorized));
    c.nft_burn(&s("alice"), t.clone()).unwrap();
    assert_eq!(c.nft_burn(&s("alice"), t.clone()), Err(ContractError::TokenNotFound));
    assert_eq!(c.nft_is_approved(t.clone(), s("shop"), None), Err(ContractError::TokenNotFound));
}

#[test]
fn payout_splits_sale() {
    let mut c = ledger();
    let mut royalty = StrMap::new();
    royalty.insert(s("artist"), 1000);
    royalty.insert(s("alice"), 500);
    c.nft_create_series(&s("owner"), None, metadata(Some("x"), None), None, Some(royalty), None, None).unwrap();
    let t = mint(&mut c, "1", "alice");
    let p = c.nft_payout(t.clone(), 12345, 10).unwrap();
    assert_eq!(p.payout.len(), 2);
    assert_eq!(p.payout.get(&s("artist")), Some(&1234));
    assert_eq!(p.payout.get(&s("alice")), Some(&11110));
    let sum = 1234u128 + 11110;
    assert!(sum <= 12345);
    assert_eq!(c.nft_payout(t.clone(), 100, 1).err(), Some(ContractError::PayoutRecipientsExceeded));
    assert_eq!(c.nft_payout(s("1:9"), 100, 10).err(), Some(ContractError::TokenNotFound));
}

#[test]
fn payout_of_huge_sale_does_not_overflow() {
    let mut royalty = StrMap::new();
    royalty.insert(s("artist"), 9000);
    let p = compute_payout(&royalty, &s("alice"), u128::MAX);
    assert_eq!(p.get(&s("artist")), Some(&(u128::MAX / 10000 * 9000 + (u128::MAX % 10000) * 9000 / 10000)));
    assert_eq!(royalty_to_payout(10000, u128::MAX), u128::MAX);
    assert_eq!(royalty_to_payout(1, 9999), 0);
    assert_eq!(royalty_to_payout(2500, 1000), 250);
}

#[test]
fn transfer_payout_errors_leave_token() {
    let mut c = ledger();
    add_series(&mut c, None);
    let t = mint(&mut c, "1", "alice");
    assert!(matches!(
        c.nft_transfer_payout(&s("alice"), s("bob"), t.clone(), None, Some(10), None),
        Err(ContractError::PayoutRecipientsExceeded)
    ));
    assert_eq!(owner_of(&c, &t), Some(s("alice")));
    assert!(matches!(c.nft_transfer_payout(&s("alice"), s("bob"), t.clone(), None, None, None), Ok(None)));
    assert_eq!(owner_of(&c, &t), Some(s("bob")));
}

#[test]
fn random_loot() {
    let mut c = ledger();
    add_series(&mut c, None);
    add_series(&mut c, None);
    assert_eq!(c.nft_random_loot(&s("alice"), 3, NOW), Err(ContractError::RandomLootNotSet));
    assert_eq!(c.set_nft_random_loot(&s("bob"), vec![s("1"), s("2")]), Err(ContractError::Unauthorized));
    assert_eq!(c.set_nft_random_loot(&s("owner"), vec![s("1")]), Err(ContractError::RandomLootSize));
    c.set_nft_random_loot(&s("owner"), vec![s("1"), s("2")]).unwrap();
    assert_eq!(c.nft_random_loot(&s("alice"), 127, NOW), Ok(s("1:1")));
    assert_eq!(c.nft_random_loot(&s("alice"), 128, NOW), Ok(s("2:1")));
    assert_eq!(owner_of(&c, "2:1"), Some(s("alice")));
}

#[test]
fn mint_and_approve() {
    let mut c = ledger();
    add_series(&mut c, None);
    let n = c.nft_mint_and_approve(&s("owner"), s("1"), s("market"), Some(s("go")), NOW).unwrap().unwrap();
    assert_eq!(n.token_id, "1:1");
    assert_eq!(n.approval_id, 1);
    assert_eq!(owner_of(&c, "1:1"), Some(s("owner")));
    assert_eq!(c.nft_is_approved(s("1:1"), s("market"), Some(1)), Ok(true));
    assert!(c.nft_mint_and_approve(&s("owner"), s("1"), s("market"), None, NOW).unwrap().is_none());
}

#[test]
fn listing() {
    let mut c = ledger();
    add_series(&mut c, None);
    add_series(&mut c, None);
    mint(&mut c, "1", "alice");
    mint(&mut c, "1", "bob");
    mint(&mut c, "2", "alice");
    c.nft_burn(&s("bob"), s("1:2")).unwrap();
    assert_eq!(c.nft_total_supply(), 2);
    assert_eq!(c.nft_supply_for_owner(s("alice")), 2);
    assert_eq!(c.nft_supply_for_owner(s("bob")), 0);
    let page = c.nft_tokens(Some(1), Some(5)).unwrap();
    assert_eq!(page.len(), 1);
    assert_eq!(c.nft_tokens(Some(2), None).err(), Some(ContractError::OutOfBounds));
    assert_eq!(c.nft_tokens(None, Some(0)).err(), Some(ContractError::ZeroLimit));
    let mine = c.nft_tokens_for_owner(s("alice"), None, None).unwrap();
    assert_eq!(mine.len(), 2);
    assert!(c.nft_tokens_for_owner(s("bob"), None, None).unwrap().is_empty());
    let by_series = c.nft_tokens_by_series(s("1"), None, None).unwrap();
    assert_eq!(by_series.len(), 2);
    assert!(by_series[1].is_none());
    assert_eq!(by_series[0].as_ref().unwrap().owner_id, "alice");
    let series = c.nft_get_series(Some(1), Some(10)).unwrap();
    assert_eq!(series.len(), 1);
    assert_eq!(series[0].token_series_id, "2");
    assert_eq!(c.nft_get_series(Some(2), None).err(), Some(ContractError::OutOfBounds));
}

#[test]
fn reconfiguration_needs_the_right_caller() {
    let mut c = ledger();
    add_series(&mut c, None);
    assert_eq!(c.nft_set_metadata(&s("bob"), s("1"), metadata(Some("y"), None)), Err(ContractError::Unauthorized));
    c.nft_set_metadata(&s("owner"), s("1"), metadata(Some("y"), Some(4))).unwrap();
    assert_eq!(c.nft_get_series_single(s("1")).unwrap().metadata.title, Some(s("y")));
    assert_eq!(c.change_fuse_requirements(&s("bob"), s("1"), None, None), Err(ContractError::Unauthorized));
    assert_eq!(c.change_fuse_requirements(&s("owner"), s("5"), None, None), Err(ContractError::SeriesNotFound));
    c.change_fuse_requirements(&s("owner"), s("1"), Some(vec![vec![s("1")]]), Some((s("usdc.token"), 3))).unwrap();
    assert_eq!(c.nft_get_series_single(s("1")).unwrap().fuse_cost, Some((s("usdc.token"), 3)));
    assert_eq!(c.nft_set_series_price(&s("bob"), s("1"), Some(1)), Err(ContractError::Unauthorized));
}

#[test]
fn untitled_series_cannot_show_tokens() {
    let mut c = ledger();
    add_series(&mut c, None);
    let t = mint(&mut c, "1", "alice");
    c.nft_set_metadata(&s("owner"), s("1"), metadata(None, None)).unwrap();
    assert_eq!(c.nft_token(t).err(), Some(ContractError::TitleRequired));
}

#[test]
fn invalid_owner_account() {
    assert!(matches!(Contract::new_default_meta(s("UPPER")), Err(ContractError::InvalidAccountId)));
    assert!(matches!(Contract::new_default_meta(s("a")), Err(ContractError::InvalidAccountId)));
    assert!(matches!(Contract::new_default_meta(s("a..b")), Err(ContractError::InvalidAccountId)));
    assert!(Contract::new_default_meta(s("a-b.c_d")).is_ok());
}

#[test]
fn storage_refund() {
    assert_eq!(refund_deposit(10, 5, 100, 0), Ok(Some(50)));
    assert_eq!(refund_deposit(10, 5, 51, 0), Ok(None));
    assert_eq!(refund_deposit(10, 5, 49, 0), Err(ContractError::InsufficientPayment));
    assert_eq!(refund_deposit(10, 5, 100, 60), Err(ContractError::InsufficientPayment));
    assert_eq!(refund_deposit(u64::MAX, u128::MAX, u128::MAX, 0), Err(ContractError::InsufficientPayment));
}
