use prex_challenge::amount::Amount;
use prex_challenge::storage::{balance_file_name, generate_balances_text};

#[test]
fn test_balances_text_follows_the_file_format() {
    let balances = vec![
        (1, Amount::new(50012, 2)),
        (2, Amount::new(1999935, 2)),
        (3, Amount::from_integer(-3000)),
        (4, Amount::new(78976, 2)),
    ];

    assert_eq!(
        generate_balances_text(balances),
        "1 500.12\n2 19999.35\n3 -3000\n4 789.76\n"
    );
}

#[test]
fn test_balances_text_is_empty_without_clients() {
    assert_eq!(generate_balances_text(vec![]), "");
}

#[test]
fn balances_text_pads_small_fractions_and_keeps_the_scale() {
    let balances = vec![
        (10, Amount::new(5, 3)),
        (205, Amount::new(-5, 3)),
        (7, Amount::new(0, 2)),
        (18446744073709551615, Amount::zero()),
        (9, Amount::new(1200, 2)),
    ];

    assert_eq!(
        generate_balances_text(balances),
        "10 0.005\n205 -0.005\n7 0.00\n18446744073709551615 0\n9 12.00\n"
    );
}

#[test]
fn file_name_is_day_underscore_number_dat() {
    assert_eq!(balance_file_name("19112025", 1), "19112025_1.DAT");
    assert_eq!(balance_file_name("01012024", 120), "01012024_120.DAT");
    assert_eq!(balance_file_name("01012024", 0), "01012024_0.DAT");
}
