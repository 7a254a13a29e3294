use near_sdk::test_utils::accounts;
use skin_nft_contract::ledger::Contract;
use skin_nft_contract::model::DATA_IMAGE_SVG_NEAR_ICON;
use skin_nft_contract::strmap::StrMap;
use skin_nft_contract::types::{ContractError, NFTContractMetadata, TokenMetadata};

const NOW: u64 = 1_600_000_000_000_000_000;

fn account(i: usize) -> String {
    accounts(i).to_string()
}

fn setup_contract() -> Contract {
    Contract::new_default_meta(account(0)).unwrap()
}

fn series_metadata(copies: Option<u64>) -> TokenMetadata {
    TokenMetadata {
        title: Some("Tsundere land".to_string()),
        description: None,
        media: Some("bafybeidzcan4nzcz7sczs4yzyxly4galgygnbjewipj6haco4kffoqpkiy".to_string()),
        media_hash: None,
        copies,
        issued_at: None,
        expires_at: None,
        starts_at: None,
        updated_at: None,
        extra: None,
        reference: Some("bafybeicg4ss7qh5odijfn2eogizuxkrdh3zlv4eftcmgnljwu7dm64uwji".to_string()),
        reference_hash: None,
    }
}

fn royalty_of_one() -> StrMap<u32> {
    let mut royalty = StrMap::new();
    royalty.insert(account(1), 1000);
    royalty
}

fn create_series(contract: &mut Contract, royalty: StrMap<u32>, price: Option<u128>, copies: Option<u64>) {
    contract
        .nft_create_series(&account(0), None, series_metadata(copies), price, Some(royalty), None, None)
        .unwrap();
}

#[test]
fn test_new() {
    let contract = Contract::new(
        account(1),
        NFTContractMetadata {
            spec: "nft-1.0.0".to_string(),
            name: "Triple Triad".to_string(),
            symbol: "TRIAD".to_string(),
            icon: Some(DATA_IMAGE_SVG_NEAR_ICON.to_string()),
            base_uri: Some("https://ipfs.io/ipfs/".to_string()),
            reference: None,
            reference_hash: None,
        },
    )
    .unwrap();
    assert_eq!(contract.get_owner(), accounts(1).to_string());
    assert_eq!(contract.nft_metadata().base_uri.unwrap(), "https://ipfs.io/ipfs/".to_string());
    assert_eq!(contract.nft_metadata().icon.unwrap(), DATA_IMAGE_SVG_NEAR_ICON.to_string());
}

#[test]
fn test_create_series() {
    let mut contract = setup_contract();
    create_series(&mut contract, royalty_of_one(), Some(1 * 10u128.pow(24)), None);

    let nft_series_return = contract.nft_get_series_single("1".to_string()).unwrap();
    assert_eq!(nft_series_return.creator_id, accounts(0).to_string());
    assert_eq!(nft_series_return.token_series_id, "1");
    assert_eq!(nft_series_return.royalty.len(), 1);
    assert_eq!(nft_series_return.royalty.get(&account(1)), Some(&1000));
    assert!(nft_series_return.metadata.copies.is_none());
    assert_eq!(nft_series_return.metadata.title.unwrap(), "Tsundere land".to_string());
    assert_eq!(
        nft_series_return.metadata.reference.unwrap(),
        "bafybeicg4ss7qh5odijfn2eogizuxkrdh3zlv4eftcmgnljwu7dm64uwji".to_string()
    );
}

#[test]
fn test_buy() {
    let mut contract = setup_contract();
    create_series(&mut contract, royalty_of_one(), Some(1 * 10u128.pow(24)), None);

    let (token_id, payment) = contract
        .nft_buy("1".to_string(), account(2), 1 * 10u128.pow(24) + 11280000000000000000000, NOW)
        .unwrap();

    let token_from_nft_token = contract.nft_token(token_id).unwrap();
    assert_eq!(token_from_nft_token.unwrap().owner_id, accounts(2).to_string());
    assert_eq!(payment.receiver_id, account(0));
    assert_eq!(payment.amount, 1 * 10u128.pow(24) + 11280000000000000000000);
}

#[test]
fn test_mint() {
    let mut contract = setup_contract();
    create_series(&mut contract, royalty_of_one(), None, None);

    let token_id = contract.nft_mint(&account(0), "1".to_string(), account(2), NOW).unwrap();

    let token_from_nft_token = contract.nft_token(token_id).unwrap();
    assert_eq!(token_from_nft_token.unwrap().owner_id, accounts(2).to_string())
}

#[test]
fn test_invalid_mint_non_mintable() {
    let mut contract = setup_contract();
    create_series(&mut contract, royalty_of_one(), None, None);
    contract.nft_set_series_non_mintable(&account(0), "1".to_string()).unwrap();

    let result = contract.nft_mint(&account(0), "1".to_string(), account(2), NOW);
    assert_eq!(result, Err(ContractError::NotMintable));
}

#[test]
fn test_invalid_mint_above_copies() {
    let mut contract = setup_contract();
    create_series(&mut contract, royalty_of_one(), None, Some(1));

    contract.nft_mint(&account(0), "1".to_string(), account(2), NOW).unwrap();
    let result = contract.nft_mint(&account(0), "1".to_string(), account(2), NOW);
    assert_eq!(result, Err(ContractError::NotMintable));
}

#[test]
fn test_decrease_copies() {
    let mut contract = setup_contract();
    create_series(&mut contract, royalty_of_one(), None, Some(5));

    contract.nft_mint(&account(0), "1".to_string(), account(2), NOW).unwrap();
    contract.nft_mint(&account(0), "1".to_string(), account(2), NOW).unwrap();

    assert_eq!(contract.nft_decrease_series_copies(&account(0), "1".to_string(), 3), Ok(2));
}

#[test]
fn test_invalid_decrease_copies() {
    let mut contract = setup_contract();
    create_series(&mut contract, royalty_of_one(), None, Some(5));

    contract.nft_mint(&account(0), "1".to_string(), account(2), NOW).unwrap();
    contract.nft_mint(&account(0), "1".to_string(), account(2), NOW).unwrap();

    let result = contract.nft_decrease_series_copies(&account(0), "1".to_string(), 4);
    assert_eq!(result, Err(ContractError::CopiesBelowMinted));
}

#[test]
fn test_invalid_buy_price_null() {
    let mut contract = setup_contract();
    create_series(&mut contract, royalty_of_one(), Some(1 * 10u128.pow(24)), None);

    assert_eq!(contract.nft_set_series_price(&account(0), "1".to_string(), None), Ok(None));

    let result = contract.nft_buy("1".to_string(), account(2), 1 * 10u128.pow(24) + 11280000000000000000000, NOW);
    assert!(matches!(result, Err(ContractError::NotForSale)));
}

#[test]
fn test_nft_burn() {
    let mut contract = setup_contract();
    create_series(&mut contract, royalty_of_one(), None, None);

    let token_id = contract.nft_mint(&account(0), "1".to_string(), account(2), NOW).unwrap();

    contract.nft_burn(&account(2), token_id.clone()).unwrap();
    let token = contract.nft_token(token_id).unwrap();
    assert!(token.is_none());
}

#[test]
fn test_nft_transfer() {
    let mut contract = setup_contract();
    create_series(&mut contract, royalty_of_one(), None, None);

    let token_id = contract.nft_mint(&account(0), "1".to_string(), account(2), NOW).unwrap();

    contract.nft_transfer(&account(2), account(3), token_id.clone(), None, None).unwrap();

    let token = contract.nft_token(token_id).unwrap().unwrap();
    assert_eq!(token.owner_id, accounts(3).to_string())
}

#[test]
fn test_nft_transfer_unsafe() {
    let mut contract = setup_contract();
    create_series(&mut contract, royalty_of_one(), None, None);

    let token_id = contract.nft_mint(&account(0), "1".to_string(), account(2), NOW).unwrap();

    contract.nft_transfer_unsafe(&account(2), account(3), token_id.clone(), None, None).unwrap();

    let token = contract.nft_token(token_id).unwrap().unwrap();
    assert_eq!(token.owner_id, accounts(3).to_string())
}

#[test]
fn test_nft_transfer_payout() {
    let mut contract = setup_contract();
    create_series(&mut contract, royalty_of_one(), None, None);

    let token_id = contract.nft_mint(&account(0), "1".to_string(), account(2), NOW).unwrap();

    let payout = contract
        .nft_transfer_payout(&account(2), account(3), token_id.clone(), Some(0), Some(1 * 10u128.pow(24)), Some(10))
        .unwrap()
        .unwrap();

    assert_eq!(payout.payout.len(), 2);
    assert_eq!(payout.payout.get(&account(1)), Some(&((1000 * (1 * 10u128.pow(24))) / 10_000)));
    assert_eq!(payout.payout.get(&account(2)), Some(&((9000 * (1 * 10u128.pow(24))) / 10_000)));

    let token = contract.nft_token(token_id).unwrap().unwrap();
    assert_eq!(token.owner_id, accounts(3).to_string())
}
