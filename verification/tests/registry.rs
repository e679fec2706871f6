use erc721::error::{MintError, TransferError};
use erc721::registry::ERC721A;
use erc721::token_id::derive_token_id;
use std::collections::BTreeMap;

fn red_and_large() -> BTreeMap<String, String> {
    let mut properties = BTreeMap::new();
    properties.insert("color".to_string(), "red".to_string());
    properties.insert("size".to_string(), "large".to_string());
    properties
}

fn my_nft() -> ERC721A {
    ERC721A::new("MyNFT".to_string(), "MNFT".to_string())
}

/// How many of the tokens `ids` the registry says `owner` holds.
fn held(registry: &ERC721A, ids: &[String], owner: &str) -> u32 {
    let mut count = 0;
    for id in ids {
        if registry.get_owner(id) == Some(owner) {
            count += 1;
        }
    }
    count
}

#[test]
fn new_registry_is_empty() {
    let registry = my_nft();
    assert_eq!(registry.name(), "MyNFT");
    assert_eq!(registry.symbol(), "MNFT");
    assert_eq!(registry.total_supply(), 0);
    assert_eq!(registry.balance_of("Alice"), None);
    assert_eq!(registry.get_owner(&derive_token_id(0)), None);
}

#[test]
fn mint_then_transfer_to_bob() {
    let mut registry = my_nft();
    let id = registry.create_nft("Alice".to_string(), red_and_large()).unwrap();
    assert_eq!(registry.transfer(&id, "Bob".to_string()), Ok(()));
    assert_eq!(registry.get_owner(&id), Some("Bob"));
    assert_eq!(registry.balance_of("Alice"), Some(0));
    assert_eq!(registry.balance_of("Bob"), Some(1));
    assert_eq!(registry.balance_of("Carol"), None);
    assert_eq!(registry.total_supply(), 1);
    assert_eq!(registry.name(), "MyNFT");
    assert_eq!(registry.symbol(), "MNFT");
}

#[test]
fn mint_with_id_then_transfer_to_bob() {
    let mut registry = my_nft();
    assert_eq!(registry.mint_with_id("T1".to_string(), "Alice".to_string(), red_and_large()), Ok(()));
    assert_eq!(registry.transfer("T1", "Bob".to_string()), Ok(()));
    assert_eq!(registry.get_owner("T1"), Some("Bob"));
    assert_eq!(registry.balance_of("Alice"), Some(0));
    assert_eq!(registry.balance_of("Bob"), Some(1));
    assert_eq!(registry.total_supply(), 1);
}

#[test]
fn minted_ids_are_pairwise_distinct() {
    let mut registry = my_nft();
    let mut ids: Vec<String> = Vec::new();
    for i in 0..50 {
        let owner = if i % 2 == 0 { "Alice" } else { "Bob" };
        let id = registry.create_nft(owner.to_string(), BTreeMap::new()).unwrap();
        assert!(!ids.contains(&id));
        ids.push(id);
    }
    assert_eq!(registry.total_supply(), 50);
}

#[test]
fn first_ids_come_from_the_first_nonces() {
    let mut registry = my_nft();
    let first = registry.create_nft("Alice".to_string(), BTreeMap::new()).unwrap();
    let second = registry.create_nft("Alice".to_string(), BTreeMap::new()).unwrap();
    assert_eq!(first, "ca647f2ab411497f664c8255c978e94d95d93d40c90afa0ef59cfef02a6155a8");
    assert_eq!(second, "c6504f825d15d4f847aa29f5d9bb4f96a0e36d3d2aa75086724df2001da5a06a");
}

#[test]
fn mint_skips_an_identifier_that_is_taken() {
    let mut registry = my_nft();
    let taken = derive_token_id(1);
    assert_eq!(registry.mint_with_id(taken.clone(), "Alice".to_string(), BTreeMap::new()), Ok(()));
    let id = registry.create_nft("Bob".to_string(), BTreeMap::new()).unwrap();
    assert_ne!(id, taken);
    assert_eq!(id, derive_token_id(2));
    assert_eq!(registry.get_owner(&taken), Some("Alice"));
    assert_eq!(registry.get_owner(&id), Some("Bob"));
    assert_eq!(registry.total_supply(), 2);
}

#[test]
fn mint_skips_a_run_of_taken_identifiers() {
    let mut registry = my_nft();
    for nonce in [3u64, 4, 5] {
        assert_eq!(
            registry.mint_with_id(derive_token_id(nonce), "Alice".to_string(), BTreeMap::new()),
            Ok(())
        );
    }
    let id = registry.create_nft("Bob".to_string(), BTreeMap::new()).unwrap();
    assert_eq!(id, derive_token_id(6));
    assert_eq!(registry.balance_of("Alice"), Some(3));
    assert_eq!(registry.balance_of("Bob"), Some(1));
    assert_eq!(registry.total_supply(), 4);
}

#[test]
fn mint_records_owner_balance_and_supply() {
    let mut registry = my_nft();
    let first = registry.create_nft("alice".to_string(), red_and_large()).unwrap();
    assert_eq!(registry.get_owner(&first), Some("alice"));
    assert_eq!(registry.balance_of("alice"), Some(1));
    assert_eq!(registry.total_supply(), 1);
    let second = registry.create_nft("alice".to_string(), BTreeMap::new()).unwrap();
    assert_eq!(registry.get_owner(&second), Some("alice"));
    assert_eq!(registry.get_owner(&first), Some("alice"));
    assert_eq!(registry.balance_of("alice"), Some(2));
    assert_eq!(registry.total_supply(), 2);
    let third = registry.create_nft("bob".to_string(), BTreeMap::new()).unwrap();
    assert_eq!(registry.get_owner(&third), Some("bob"));
    assert_eq!(registry.balance_of("alice"), Some(2));
    assert_eq!(registry.balance_of("bob"), Some(1));
    assert_eq!(registry.total_supply(), 3);
}

#[test]
fn mint_keeps_the_properties() {
    let mut registry = my_nft();
    let id = registry.create_nft("Alice".to_string(), red_and_large()).unwrap();
    let plain = registry.create_nft("Alice".to_string(), BTreeMap::new()).unwrap();
    let nft = registry.get_nft(&id).unwrap();
    assert_eq!(nft.owner, "Alice");
    assert_eq!(nft.properties, red_and_large());
    assert_eq!(registry.get_nft(&plain).unwrap().properties, BTreeMap::new());
    assert!(registry.get_nft("nothing").is_none());
    assert_eq!(registry.transfer(&id, "Bob".to_string()), Ok(()));
    let nft = registry.get_nft(&id).unwrap();
    assert_eq!(nft.owner, "Bob");
    assert_eq!(nft.properties, red_and_large());
}

#[test]
fn mint_accepts_an_empty_property_map() {
    let mut registry = my_nft();
    let id = registry.create_nft("Alice".to_string(), BTreeMap::new()).unwrap();
    assert_eq!(registry.get_owner(&id), Some("Alice"));
    assert_eq!(registry.get_nft(&id).unwrap().properties.len(), 0);
}

#[test]
fn mint_with_id_rejects_a_duplicate() {
    let mut registry = my_nft();
    assert_eq!(registry.mint_with_id("T1".to_string(), "Alice".to_string(), red_and_large()), Ok(()));
    assert_eq!(
        registry.mint_with_id("T1".to_string(), "Bob".to_string(), BTreeMap::new()),
        Err(MintError::DuplicateId)
    );
    assert_eq!(registry.get_owner("T1"), Some("Alice"));
    assert_eq!(registry.get_nft("T1").unwrap().properties, red_and_large());
    assert_eq!(registry.balance_of("Alice"), Some(1));
    assert_eq!(registry.balance_of("Bob"), None);
    assert_eq!(registry.total_supply(), 1);
}

#[test]
fn transfer_moves_one_token() {
    let mut registry = my_nft();
    let a = registry.create_nft("A".to_string(), BTreeMap::new()).unwrap();
    let b = registry.create_nft("A".to_string(), BTreeMap::new()).unwrap();
    let c = registry.create_nft("B".to_string(), BTreeMap::new()).unwrap();
    assert_eq!(registry.transfer(&a, "B".to_string()), Ok(()));
    assert_eq!(registry.get_owner(&a), Some("B"));
    assert_eq!(registry.get_owner(&b), Some("A"));
    assert_eq!(registry.get_owner(&c), Some("B"));
    assert_eq!(registry.balance_of("A"), Some(1));
    assert_eq!(registry.balance_of("B"), Some(2));
    assert_eq!(registry.total_supply(), 3);
}

#[test]
fn transfer_to_a_new_owner_opens_a_balance() {
    let mut registry = my_nft();
    let id = registry.create_nft("A".to_string(), BTreeMap::new()).unwrap();
    assert_eq!(registry.balance_of("B"), None);
    assert_eq!(registry.transfer(&id, "B".to_string()), Ok(()));
    assert_eq!(registry.balance_of("B"), Some(1));
    assert_eq!(registry.balance_of("A"), Some(0));
}

#[test]
fn transfer_back_restores_the_balances() {
    let mut registry = my_nft();
    let id = registry.create_nft("A".to_string(), BTreeMap::new()).unwrap();
    assert_eq!(registry.transfer(&id, "B".to_string()), Ok(()));
    assert_eq!(registry.transfer(&id, "A".to_string()), Ok(()));
    assert_eq!(registry.get_owner(&id), Some("A"));
    assert_eq!(registry.balance_of("A"), Some(1));
    assert_eq!(registry.balance_of("B"), Some(0));
    assert_eq!(registry.total_supply(), 1);
}

#[test]
fn transfer_to_the_holder_is_rejected() {
    let mut registry = my_nft();
    let id = registry.create_nft("A".to_string(), red_and_large()).unwrap();
    assert_eq!(registry.transfer(&id, "A".to_string()), Err(TransferError::InvalidTransfer));
    assert_eq!(registry.get_owner(&id), Some("A"));
    assert_eq!(registry.balance_of("A"), Some(1));
    assert_eq!(registry.total_supply(), 1);
    assert_eq!(registry.get_nft(&id).unwrap().properties, red_and_large());
}

#[test]
fn unknown_id_is_reported_absent() {
    let mut registry = my_nft();
    let id = registry.create_nft("A".to_string(), BTreeMap::new()).unwrap();
    assert_eq!(registry.transfer("unknown", "X".to_string()), Err(TransferError::NotFound));
    assert_eq!(registry.get_owner("unknown"), None);
    assert_eq!(registry.get_owner(""), None);
    assert_eq!(registry.get_owner(&id), Some("A"));
    assert_eq!(registry.balance_of("A"), Some(1));
    assert_eq!(registry.balance_of("X"), None);
    assert_eq!(registry.total_supply(), 1);
}

#[test]
fn transfer_on_an_empty_registry_finds_nothing() {
    let mut registry = my_nft();
    assert_eq!(registry.transfer("T1", "Bob".to_string()), Err(TransferError::NotFound));
    assert_eq!(registry.total_supply(), 0);
    assert_eq!(registry.balance_of("Bob"), None);
}

#[test]
fn books_stay_consistent_over_a_run() {
    let owners = ["Alice", "Bob", "Carol", "Dave"];
    let mut registry = my_nft();
    let mut ids: Vec<String> = Vec::new();
    for step in 0..60usize {
        if step % 3 == 0 || ids.is_empty() {
            let owner = owners[step % owners.len()];
            ids.push(registry.create_nft(owner.to_string(), BTreeMap::new()).unwrap());
        } else {
            // transfers that succeed, and some that fail
            let id = ids[(step * 7) % ids.len()].clone();
            let to = owners[(step * 5) % owners.len()];
            let holder = registry.get_owner(&id).unwrap().to_string();
            let expected = if holder == to { Err(TransferError::InvalidTransfer) } else { Ok(()) };
            assert_eq!(registry.transfer(&id, to.to_string()), expected);
            assert_eq!(
                registry.transfer("no such token", to.to_string()),
                Err(TransferError::NotFound)
            );
        }
        assert_eq!(registry.total_supply() as usize, ids.len());
        let mut sum = 0;
        for owner in owners {
            let count = held(&registry, &ids, owner);
            match registry.balance_of(owner) {
                Some(balance) => assert_eq!(balance, count),
                None => assert_eq!(count, 0),
            }
            sum += count;
        }
        assert_eq!(sum as usize, ids.len());
        for id in &ids {
            assert!(registry.get_owner(id).is_some());
        }
    }
}

#[test]
fn owners_may_be_any_text() {
    let mut registry = my_nft();
    let id = registry.create_nft("Zoë — ζωή".to_string(), BTreeMap::new()).unwrap();
    assert_eq!(registry.get_owner(&id), Some("Zoë — ζωή"));
    assert_eq!(registry.balance_of("Zoë — ζωή"), Some(1));
    assert_eq!(registry.balance_of("Zoe — ζωή"), None);
    assert_eq!(registry.transfer(&id, "Zoe — ζωή".to_string()), Ok(()));
    assert_eq!(registry.transfer(&id, "Zoe — ζωή".to_string()), Err(TransferError::InvalidTransfer));
}

#[test]
fn errors_say_what_went_wrong() {
    assert_eq!(TransferError::NotFound.message(), "The NFT doesn't exist");
    assert_eq!(
        TransferError::InvalidTransfer.message(),
        "The sender is already the owner of the NFT"
    );
    assert_eq!(MintError::SupplyExhausted.message(), "The supply of NFTs is exhausted");
    assert_eq!(MintError::DuplicateId.message(), "The NFT already exists");
    assert_eq!(MintError::IdSpaceExhausted.message(), "No identifier is left for the NFT");
}
