use prex_challenge::amount::{Amount, MAX_MANTISSA};
use prex_challenge::api::error::ApiError;
use prex_challenge::error::ServiceError;
use prex_challenge::service::{validate_positive_amount, Service};
use prex_challenge::text::u64_text;

fn open(service: &mut Service, document: &str) -> u64 {
    service
        .create_account(
            "Name".to_string(),
            "1990-01-01".to_string(),
            document.to_string(),
            "Arg".to_string(),
        )
        .unwrap()
}

#[test]
fn ids_start_at_one_and_follow_each_other() {
    let mut service = Service::new();
    assert_eq!(service.last_client_id(), 0);
    assert_eq!(open(&mut service, "a"), 1);
    assert_eq!(open(&mut service, "b"), 2);
    assert_eq!(open(&mut service, "c"), 3);
    assert_eq!(service.last_client_id(), 3);
}

#[test]
fn documents_are_compared_exactly() {
    let mut service = Service::new();
    open(&mut service, "12.345.678");
    assert_eq!(open(&mut service, "12345678"), 2);
    assert!(service.document_registered(&"12.345.678".to_string()));
    assert!(service.document_registered(&"12345678".to_string()));
    assert!(!service.document_registered(&"1234567".to_string()));
    let refused = service.create_account(
        "Other".to_string(),
        "2000-01-01".to_string(),
        "12345678".to_string(),
        "Uy".to_string(),
    );
    assert_eq!(refused, Err(ServiceError::DuplicateDocument));
    assert_eq!(service.last_client_id(), 2);
    assert_eq!(service.client_info(2).unwrap().client_name, "Name");
}

#[test]
fn the_amount_is_checked_before_the_client() {
    let mut service = Service::new();
    assert_eq!(
        service.create_credit_transaction(42, Amount::new(-5, 0)),
        Err(ServiceError::NonPositiveAmount)
    );
    assert_eq!(
        service.create_debit_transaction(42, Amount::zero()),
        Err(ServiceError::NonPositiveAmount)
    );
    assert_eq!(
        service.create_debit_transaction(42, Amount::new(1, 2)),
        Err(ServiceError::ClientDoesNotExist)
    );
}

#[test]
fn a_debit_is_never_refused_for_funds() {
    let mut service = Service::new();
    let id = open(&mut service, "a");
    assert_eq!(
        service.create_debit_transaction(id, Amount::new(3000, 0)),
        Ok(Amount::from_integer(-3000))
    );
    assert_eq!(
        service.create_debit_transaction(id, Amount::new(25, 1)),
        Ok(Amount::new(-30025, 1))
    );
}

#[test]
fn a_transaction_changes_only_its_client() {
    let mut service = Service::new();
    let a = open(&mut service, "a");
    let b = open(&mut service, "b");
    service.create_credit_transaction(a, Amount::new(150, 2)).unwrap();
    assert_eq!(service.client_info(a).unwrap().balance, Amount::new(15, 1));
    assert_eq!(service.client_info(b).unwrap().balance, Amount::zero());
    assert_eq!(service.client_info(a).unwrap().document_number, "a");
}

#[test]
fn a_cut_lists_clients_in_id_order_and_zeroes_them() {
    let mut service = Service::new();
    for doc in ["a", "b", "c"] {
        open(&mut service, doc);
    }
    service.create_credit_transaction(3, Amount::new(7, 0)).unwrap();
    service.create_debit_transaction(1, Amount::new(2, 1)).unwrap();
    let (cut, number) = service.store_balances();
    assert_eq!(number, 1);
    assert_eq!(
        cut,
        vec![
            (1, Amount::new(-2, 1)),
            (2, Amount::zero()),
            (3, Amount::from_integer(7))
        ]
    );
    for id in 1..=3 {
        assert_eq!(service.client_info(id).unwrap().balance, Amount::zero());
    }
    assert_eq!(service.files_generated(), 1);
}

#[test]
fn restoring_a_cut_right_away_gives_back_every_balance_with_its_scale() {
    let mut service = Service::new();
    let a = open(&mut service, "a");
    let b = open(&mut service, "b");
    service.create_credit_transaction(a, Amount::new(1050, 2)).unwrap();
    service.create_debit_transaction(b, Amount::new(3, 0)).unwrap();
    let (cut, _) = service.store_balances();
    service.restore_balances(cut);
    let balance_a = service.client_info(a).unwrap().balance;
    assert_eq!(balance_a.mantissa(), 1050);
    assert_eq!(balance_a.scale(), 2);
    assert_eq!(service.client_info(b).unwrap().balance, Amount::from_integer(-3));
    assert_eq!(service.files_generated(), 1);
}

#[test]
fn restoring_passes_over_unknown_clients() {
    let mut service = Service::new();
    let a = open(&mut service, "a");
    service.restore_balances(vec![(9, Amount::from_integer(5)), (a, Amount::new(1, 1))]);
    assert_eq!(service.client_info(a).unwrap().balance, Amount::new(1, 1));
    assert_eq!(service.client_info(9), Err(ServiceError::ClientDoesNotExist));
}

#[test]
fn sums_too_large_for_a_decimal_are_reported_and_change_nothing() {
    let mut service = Service::new();
    let a = open(&mut service, "a");
    let max = Amount::from_parts(MAX_MANTISSA, 0).unwrap();
    assert_eq!(service.try_create_credit_transaction(a, max), Some(Ok(max)));
    assert_eq!(service.try_create_credit_transaction(a, Amount::from_integer(1)), None);
    assert_eq!(service.client_info(a).unwrap().balance, max);
    assert_eq!(
        service.try_create_credit_transaction(a, Amount::zero()),
        Some(Err(ServiceError::NonPositiveAmount))
    );
    assert!(!service.try_restore_balances(vec![(a, max)]));
    assert_eq!(service.client_info(a).unwrap().balance, max);
    assert!(service.try_restore_balances(vec![(a, Amount::from_integer(-1))]));
    assert_eq!(
        service.client_info(a).unwrap().balance,
        Amount::from_parts(MAX_MANTISSA - 1, 0).unwrap()
    );
    let min = Amount::from_parts(-MAX_MANTISSA, 0).unwrap();
    let b = open(&mut service, "b");
    assert_eq!(service.try_create_debit_transaction(b, max), Some(Ok(min)));
    assert_eq!(service.try_create_debit_transaction(b, Amount::from_integer(1)), None);
    assert_eq!(service.client_info(b).unwrap().balance, min);
}

#[test]
fn amounts_compare_by_value() {
    assert_eq!(Amount::new(10, 1), Amount::from_integer(1));
    assert_eq!(Amount::new(0, 5), Amount::zero());
    assert_ne!(Amount::new(1, 1), Amount::new(1, 2));
    assert_ne!(Amount::new(-1, 0), Amount::new(1, 0));
}

#[test]
fn amount_parts_are_checked() {
    assert!(Amount::from_parts(MAX_MANTISSA, 28).is_some());
    assert!(Amount::from_parts(MAX_MANTISSA + 1, 0).is_none());
    assert!(Amount::from_parts(-MAX_MANTISSA - 1, 0).is_none());
    assert!(Amount::from_parts(1, 29).is_none());
    let a = Amount::new(-314, 2);
    assert_eq!((a.mantissa(), a.scale()), (-314, 2));
    assert!(!a.is_positive());
    assert!(Amount::new(1, 28).is_positive());
}

#[test]
fn positive_amounts_only() {
    assert_eq!(validate_positive_amount(Amount::new(1, 3)), Ok(()));
    assert_eq!(
        validate_positive_amount(Amount::zero()),
        Err(ServiceError::NonPositiveAmount)
    );
    assert_eq!(
        validate_positive_amount(Amount::new(-1, 3)),
        Err(ServiceError::NonPositiveAmount)
    );
}

#[test]
fn error_messages() {
    assert_eq!(ServiceError::ClientDoesNotExist.message(), "client not found");
    assert_eq!(
        ServiceError::NonPositiveAmount.message(),
        "amount must be greater than zero"
    );
    assert_eq!(
        ServiceError::DuplicateDocument.message(),
        "document number already registered"
    );
    assert_eq!(
        ServiceError::EmptyField("country").message(),
        "the country field cannot be empty"
    );
    assert_eq!(
        ServiceError::FutureBirthDate.message(),
        "the birth date cannot be in the future"
    );
    assert_eq!(ApiError::Internal.message(), "internal server error");
    assert_eq!(
        ApiError::from(ServiceError::DuplicateDocument).message(),
        "document number already registered"
    );
}

#[test]
fn status_codes() {
    assert_eq!(ApiError::from(ServiceError::ClientDoesNotExist).status_code(), 404);
    assert_eq!(ApiError::from(ServiceError::DuplicateDocument).status_code(), 409);
    assert_eq!(ApiError::from(ServiceError::NonPositiveAmount).status_code(), 400);
    assert_eq!(ApiError::from(ServiceError::EmptyField("name")).status_code(), 400);
    assert_eq!(ApiError::from(ServiceError::FutureBirthDate).status_code(), 400);
    assert_eq!(ApiError::Internal.status_code(), 500);
}

#[test]
fn integers_are_written_in_decimal() {
    assert_eq!(u64_text(0), "0");
    assert_eq!(u64_text(7), "7");
    assert_eq!(u64_text(1000), "1000");
    assert_eq!(u64_text(u64::MAX), "18446744073709551615");
}

#[test]
fn default_service_is_empty() {
    let service = Service::default();
    assert_eq!(service.last_client_id(), 0);
    assert_eq!(service.files_generated(), 0);
    assert_eq!(service.client_info(1), Err(ServiceError::ClientDoesNotExist));
}

fn parts(a: Amount) -> (i128, u32) {
    (a.mantissa(), a.scale())
}

#[test]
fn sums_in_range_are_exact_at_the_larger_scale() {
    let mut service = Service::new();
    let id = open(&mut service, "a");
    let first = service.try_create_credit_transaction(id, Amount::new(123456789012, 3));
    assert_eq!(first.map(|r| r.map(parts)), Some(Ok((123456789012, 3))));
    // Rescaled on the 32-bit path.
    let second = service.try_create_credit_transaction(id, Amount::new(5, 10));
    assert_eq!(second.map(|r| r.map(parts)), Some(Ok((1234567890120000005, 10))));
    // The 64-bit path, scales 19 apart.
    let b = open(&mut service, "b");
    service.create_credit_transaction(b, Amount::new(4_000_000_000, 0)).unwrap();
    let third = service.try_create_debit_transaction(b, Amount::new(7, 19));
    assert_eq!(
        third.map(|r| r.map(parts)),
        Some(Ok((40_000_000_000_000_000_000_000_000_000 - 7, 19)))
    );
    // A difference that crosses zero keeps the larger scale.
    let c = open(&mut service, "c");
    service.create_credit_transaction(c, Amount::new(25, 1)).unwrap();
    let fourth = service.try_create_debit_transaction(c, Amount::new(2501, 3));
    assert_eq!(fourth.map(|r| r.map(parts)), Some(Ok((-1, 3))));
    let fifth = service.try_create_credit_transaction(c, Amount::new(1, 3));
    assert_eq!(fifth.map(|r| r.map(parts)), Some(Ok((0, 3))));
}
