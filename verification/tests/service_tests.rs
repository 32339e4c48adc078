use prex_challenge::amount::Amount;
use prex_challenge::error::ServiceError;
use prex_challenge::service::Service;

fn add_account(service: &mut Service, document: &str) -> u64 {
    service
        .create_account(
            "First".to_string(),
            "birth_date".to_string(),
            document.to_string(),
            "Arg".to_string(),
        )
        .unwrap()
}

#[test]
fn test_client_created_with_empty_balance() {
    let mut service = Service::new();

    let new_client_id = add_account(&mut service, "document_number_1");

    assert_eq!(
        service.client_info(new_client_id).unwrap().balance,
        Amount::zero()
    );
}

#[test]
fn test_different_clients_have_different_ids() {
    let mut service = Service::new();

    let first_client = add_account(&mut service, "document_number_1");

    let second_client = add_account(&mut service, "document_number_2");

    assert_ne!(first_client, second_client);
    assert_eq!(
        service.client_info(first_client).unwrap().balance,
        Amount::zero()
    );
    assert_eq!(
        service.client_info(second_client).unwrap().balance,
        Amount::zero()
    );
}

#[test]
fn test_balance_on_nonexistent_client() {
    let service = Service::new();

    assert_eq!(
        service.client_info(0),
        Err(ServiceError::ClientDoesNotExist)
    );
}

#[test]
fn test_credit_increments_client_balance() {
    let mut service = Service::new();

    let client_id = add_account(&mut service, "document_number_1");

    assert_eq!(
        service.create_credit_transaction(client_id, Amount::from_integer(10)),
        Ok(Amount::from_integer(10))
    );

    assert_eq!(
        service.client_info(client_id).unwrap().balance,
        Amount::from_integer(10)
    );
}

#[test]
fn test_fractional_credits_are_added_exactly() {
    let mut service = Service::new();

    let client_id = add_account(&mut service, "document_number_1");

    assert_eq!(
        service.create_credit_transaction(client_id, Amount::new(1, 1)),
        Ok(Amount::new(1, 1))
    );

    assert_eq!(
        service.create_credit_transaction(client_id, Amount::new(2, 1)),
        Ok(Amount::new(3, 1))
    );

    assert_eq!(
        service.client_info(client_id).unwrap().balance,
        Amount::new(3, 1)
    );
}

#[test]
fn test_credit_on_nonexistent_client() {
    let mut service = Service::new();

    assert_eq!(
        service.create_credit_transaction(0, Amount::new(1, 1)),
        Err(ServiceError::ClientDoesNotExist)
    );
}

#[test]
fn test_debit_decrements_client_balance() {
    let mut service = Service::new();

    let client_id = add_account(&mut service, "document_number_1");

    assert_eq!(
        service.create_credit_transaction(client_id, Amount::from_integer(10)),
        Ok(Amount::from_integer(10))
    );

    assert_eq!(
        service.create_debit_transaction(client_id, Amount::from_integer(5)),
        Ok(Amount::from_integer(5))
    );

    assert_eq!(
        service.client_info(client_id).unwrap().balance,
        Amount::from_integer(5)
    );
}

#[test]
fn test_fractional_credit_and_debit() {
    let mut service = Service::new();

    let client_id = add_account(&mut service, "document_number_1");

    assert_eq!(
        service.create_credit_transaction(client_id, Amount::new(1, 1)),
        Ok(Amount::new(1, 1))
    );

    assert_eq!(
        service.create_debit_transaction(client_id, Amount::new(1, 1)),
        Ok(Amount::zero())
    );

    assert_eq!(
        service.client_info(client_id).unwrap().balance,
        Amount::zero()
    );
}

#[test]
fn test_debit_bigger_than_balance_leaves_negative_balance() {
    let mut service = Service::new();

    let client_id = add_account(&mut service, "document_number_1");

    assert_eq!(
        service.create_credit_transaction(client_id, Amount::new(1, 1)),
        Ok(Amount::new(1, 1))
    );

    assert_eq!(
        service.create_debit_transaction(client_id, Amount::new(2, 1)),
        Ok(Amount::new(-1, 1))
    );

    assert_eq!(
        service.client_info(client_id).unwrap().balance,
        Amount::new(-1, 1)
    );
}

#[test]
fn test_credit_and_debit_reject_non_positive_amounts() {
    let mut service = Service::new();

    let client_id = add_account(&mut service, "document_number_1");

    assert_eq!(
        service.create_credit_transaction(client_id, Amount::new(-1, 1)),
        Err(ServiceError::NonPositiveAmount)
    );

    assert_eq!(
        service.create_debit_transaction(client_id, Amount::new(-1, 1)),
        Err(ServiceError::NonPositiveAmount)
    );

    assert_eq!(
        service.create_credit_transaction(client_id, Amount::zero()),
        Err(ServiceError::NonPositiveAmount)
    );

    assert_eq!(
        service.create_debit_transaction(client_id, Amount::zero()),
        Err(ServiceError::NonPositiveAmount)
    );
}

#[test]
fn test_cannot_insert_same_document_twice() {
    let mut service = Service::new();

    add_account(&mut service, "document_number_1");

    assert_eq!(
        service.create_account(
            "client_name".to_string(),
            "birth_date".to_string(),
            "document_number_1".to_string(),
            "Arg".to_string()
        ),
        Err(ServiceError::DuplicateDocument)
    );

    let new_client_id = add_account(&mut service, "document_number_2");
    assert_eq!(new_client_id, 2);
}

#[test]
fn test_store_balances_empty() {
    let mut service = Service::new();

    assert!(service.store_balances().0.is_empty())
}

#[test]
fn test_store_balances_multiple_accounts() {
    let mut service = Service::new();

    let client_1 = add_account(&mut service, "document_number_1");
    let client_2 = add_account(&mut service, "document_number_2");

    service
        .create_credit_transaction(client_2, Amount::new(5, 1))
        .unwrap();

    let (balances, file_number) = service.store_balances();

    assert_eq!(file_number, 1);
    assert_eq!(balances.len(), 2);
    assert_eq!(balances[0], (client_1, Amount::zero()));
    assert_eq!(balances[1], (client_2, Amount::new(5, 1)));

    assert_eq!(
        service.client_info(client_1).unwrap().balance,
        Amount::zero()
    );
    assert_eq!(
        service.client_info(client_2).unwrap().balance,
        Amount::zero()
    );
}

#[test]
fn test_successive_cuts_increase_the_file_number() {
    let mut service = Service::new();

    let (balances, file_number) = service.store_balances();

    assert!(balances.is_empty());
    assert_eq!(file_number, 1);

    let (balances, file_number) = service.store_balances();
    assert!(balances.is_empty());
    assert_eq!(file_number, 2);
}

#[test]
fn test_restore_balances_puts_a_failed_cut_back() {
    let mut service = Service::new();

    let client_id = add_account(&mut service, "document_number_1");
    service
        .create_credit_transaction(client_id, Amount::from_integer(10))
        .unwrap();

    let (balances, _) = service.store_balances();
    service.restore_balances(balances);

    assert_eq!(
        service.client_info(client_id).unwrap().balance,
        Amount::from_integer(10)
    );
}

#[test]
fn test_restore_balances_keeps_the_transactions_of_the_meantime() {
    let mut service = Service::new();

    let client_id = add_account(&mut service, "document_number_1");
    service
        .create_credit_transaction(client_id, Amount::from_integer(10))
        .unwrap();

    let (balances, _) = service.store_balances();

    service
        .create_credit_transaction(client_id, Amount::from_integer(4))
        .unwrap();
    service.restore_balances(balances);

    assert_eq!(
        service.client_info(client_id).unwrap().balance,
        Amount::from_integer(14)
    );
}

#[test]
fn test_client_info_returns_client_data_and_balance() {
    let mut service = Service::new();

    let client_id = add_account(&mut service, "document_number_1");

    assert_eq!(
        service.create_credit_transaction(client_id, Amount::new(1, 1)),
        Ok(Amount::new(1, 1))
    );
    let client = service.client_info(client_id).unwrap();

    assert_eq!(client.client_name, "First");
    assert_eq!(client.birth_date, "birth_date");
    assert_eq!(client.document_number, "document_number_1");
    assert_eq!(client.country, "Arg");
    assert_eq!(client.balance, Amount::new(1, 1));
}
