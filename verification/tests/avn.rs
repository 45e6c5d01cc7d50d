use summary_migration::avn::{Avn, AvnError, Validator};

fn encoded(id: u64) -> Vec<u8> {
    id.to_le_bytes().to_vec()
}

fn validator(id: u64) -> Validator {
    Validator { account_id: encoded(id), key: encoded(id) }
}

/// The genesis validators: accounts 1, 2 and 3, each with the key of the same id.
fn with_validators() -> Avn {
    Avn::new(vec![validator(1), validator(2), validator(3)])
}

fn without_validators() -> Avn {
    Avn::new(Vec::new())
}

fn setup_last_validator_as_primary(avn: &mut Avn) {
    let eth_index_before: u8 = avn.get_primary_collator();
    let num_validators_indexed = avn.validators.len() - 1;
    for _ in 0..num_validators_indexed {
        avn.advance_primary_validator_for_sending().unwrap();
    }
    let eth_index_after: u8 = avn.get_primary_collator();
    assert_eq!(eth_index_before + num_validators_indexed as u8, eth_index_after);
}

#[test]
fn the_next_validator_for_ethereum_increments_by_one_if_the_current_one_is_not_the_last() {
    let mut avn = with_validators();
    let eth_index_before: u8 = avn.get_primary_collator();
    let _ = avn.advance_primary_validator_for_sending();
    let eth_index_after: u8 = avn.get_primary_collator();
    assert_eq!(eth_index_after, eth_index_before + 1);
}

#[test]
fn the_validator_for_ethereum_wraps_around_if_the_current_one_is_the_last() {
    let mut avn = with_validators();
    let eth_index_before: u8 = avn.get_primary_collator();
    assert_eq!(eth_index_before, 0);
    setup_last_validator_as_primary(&mut avn);
    avn.advance_primary_validator_for_sending().unwrap();
    let eth_index_after: u8 = avn.get_primary_collator();
    assert_eq!(eth_index_before, eth_index_after);
}

#[test]
fn does_not_change_the_next_primary_validator_for_ethereum() {
    let avn = with_validators();
    let expected_primary = encoded(1);
    let eth_index_before: u8 = avn.get_primary_collator();
    assert_eq!(eth_index_before, 0);
    let result = avn.is_primary_validator_for_sending(&expected_primary).unwrap();
    assert!(result == true, "Wrong primary validator");
    let eth_index_after: u8 = avn.get_primary_collator();
    assert_eq!(eth_index_before, eth_index_after);
}

#[test]
fn returns_true_if_the_argument_is_the_same_as_the_next_ethereum_validator() {
    let mut avn = with_validators();
    let mut expected_primary = encoded(1);
    let mut result = avn.is_primary_validator_for_sending(&expected_primary).unwrap();
    assert!(result == true, "Wrong primary validator");
    let _ = avn.advance_primary_validator_for_sending();
    expected_primary = encoded(2);
    result = avn.is_primary_validator_for_sending(&expected_primary).unwrap();
    assert!(result == true, "Wrong primary validator");
}

#[test]
fn test_returns_false_if_it_is_not() {
    let avn = with_validators();
    let non_primary_validator = encoded(4);
    let result = avn.is_primary_validator_for_sending(&non_primary_validator).unwrap();
    assert!(result != true, "Primary validator is unexpectedly correct");
}

#[test]
fn test_fails_with_no_validators() {
    let avn = without_validators();
    let expected_primary = encoded(1);
    let result = avn.is_primary_validator_for_sending(&expected_primary);
    assert!(result.is_err());
    assert_eq!(result, Err(AvnError::NoValidatorsFound));
}

#[test]
fn is_expected_on_block_1() {
    let avn = with_validators();
    let block_number = 1;
    let expected_primary = encoded(2);
    let result = avn.is_primary_for_block(block_number, &expected_primary);
    assert!(result.is_ok(), "Getting primary validator failed");
    assert_eq!(result.unwrap(), true);
}

#[test]
fn is_expected_on_block_2() {
    let avn = with_validators();
    let block_number = 2;
    let expected_primary = encoded(3);
    let result = avn.is_primary_for_block(block_number, &expected_primary);
    assert!(result.is_ok(), "Getting primary validator failed");
    assert_eq!(result.unwrap(), true);
}

#[test]
fn is_expected_on_block_3() {
    let avn = with_validators();
    let block_number = 3;
    let expected_primary = encoded(1);
    let result = avn.is_primary_for_block(block_number, &expected_primary);
    assert!(result.is_ok(), "Getting primary validator failed");
    assert_eq!(result.unwrap(), true);
}

#[test]
fn is_expected_on_block_100() {
    let avn = with_validators();
    let block_number = 100;
    let expected_primary = encoded(2);
    let result = avn.is_primary_for_block(block_number, &expected_primary);
    assert!(result.is_ok(), "Getting primary validator failed");
    assert_eq!(result.unwrap(), true);
}

#[test]
fn block_primary_is_false_for_an_account_that_is_not_a_validator() {
    let avn = with_validators();
    let wrong_validator = encoded(4);
    for block_number in [0u64, 1, 2, 3, 100] {
        let result = avn.is_primary_for_block(block_number, &wrong_validator).unwrap();
        assert!(result != true, "Primary validator is unexpectedly correct");
    }
}

#[test]
fn block_primary_fails_with_no_validators() {
    let avn = without_validators();
    let expected_primary = encoded(1);
    for block_number in [0u64, 1, 7] {
        assert_eq!(
            avn.is_primary_for_block(block_number, &expected_primary),
            Err(AvnError::NoValidatorsFound)
        );
    }
}

#[test]
fn test_local_authority_keys_empty() {
    let avn = with_validators();
    let current_node_validator = avn.get_validator_for_current_node(&Vec::new());
    assert!(current_node_validator.is_none());
}

#[test]
fn local_authority_keys_pick_the_first_registered_validator() {
    let avn = with_validators();
    let keys = vec![encoded(1), encoded(2), encoded(3)];
    let current_node_validator = avn.get_validator_for_current_node(&keys).unwrap();
    assert_eq!(current_node_validator.account_id, encoded(1));
    assert_eq!(current_node_validator.key, encoded(1));

    let keys = vec![encoded(9), encoded(3), encoded(2)];
    let current_node_validator = avn.get_validator_for_current_node(&keys).unwrap();
    assert_eq!(current_node_validator.account_id, encoded(2));

    let keys = vec![encoded(9), encoded(4)];
    assert!(avn.get_validator_for_current_node(&keys).is_none());
}

#[test]
fn advancing_fails_without_validators_and_keeps_the_index() {
    let mut avn = without_validators();
    assert_eq!(avn.advance_primary_validator_for_sending(), Err(AvnError::NoValidatorsFound));
    assert_eq!(avn.get_primary_collator(), 0);
}

#[test]
fn a_full_rotation_returns_to_the_start() {
    let mut avn = with_validators();
    let mut seen = Vec::new();
    for _ in 0..3 {
        seen.push(avn.advance_primary_validator_for_sending().unwrap());
    }
    assert_eq!(seen, vec![1, 2, 0]);
    assert_eq!(avn.get_primary_collator(), 0);
}

#[test]
fn the_sending_primary_follows_the_turn() {
    let mut avn = with_validators();
    avn.advance_primary_validator_for_sending().unwrap();
    avn.advance_primary_validator_for_sending().unwrap();
    assert_eq!(avn.is_primary_validator_for_sending(&encoded(3)), Ok(true));
    assert_eq!(avn.is_primary_validator_for_sending(&encoded(1)), Ok(false));
}

#[test]
fn test_local_authority_keys_valid() {
    let avn = with_validators();
    let local_keys = vec![encoded(1), encoded(2), encoded(3)];
    let current_node_validator = avn.get_validator_for_current_node(&local_keys).unwrap();
    assert_eq!(current_node_validator.account_id, encoded(1));
    assert_eq!(current_node_validator.key, encoded(1));
}
