use prisoners_dilemma::draw::{admission_draw, derive_seed};
use prisoners_dilemma::ledger::{clamped_add, update_balance, Ledger};
use prisoners_dilemma::text::{decimal_text, to_hex_string};

#[test]
fn hex_of_identity() {
    let mut bytes = [0u8; 32];
    for (i, b) in bytes.iter_mut().enumerate() {
        *b = (i as u8) * 8;
    }
    bytes[31] = 0xff;
    assert_eq!(
        to_hex_string(bytes),
        "0008101820283038404850586068707880889098a0a8b0b8c0c8d0d8e0e8f0ff"
    );
    assert_eq!(to_hex_string([0xab; 32]), "ab".repeat(32));
}

#[test]
fn decimal_ids() {
    assert_eq!(decimal_text(0), "0");
    assert_eq!(decimal_text(7), "7");
    assert_eq!(decimal_text(10), "10");
    assert_eq!(decimal_text(1234567), "1234567");
    assert_eq!(decimal_text(u64::MAX), u64::MAX.to_string());
}

#[test]
fn seed_wraps_per_byte() {
    let mut round = [0u8; 32];
    let mut tx = [0u8; 32];
    for i in 0..32 {
        round[i] = 200;
        tx[i] = i as u8 * 10;
    }
    let seed = derive_seed(&round, &tx);
    assert_eq!(seed[0], 200);
    assert_eq!(seed[5], 250);
    assert_eq!(seed[6], 4);
    assert_eq!(seed[15], 94);
}

#[test]
fn admission_draw_is_below_hundred_and_repeatable() {
    for t in 0..50u8 {
        let round = [t; 32];
        let tx = [t.wrapping_mul(3); 32];
        let a = admission_draw(&round, &tx);
        assert!(a < 100);
        assert_eq!(a, admission_draw(&round, &tx));
    }
}

#[test]
fn clamped_add_floors_and_saturates() {
    assert_eq!(clamped_add(10, -3), 7);
    assert_eq!(clamped_add(10, -30), 0);
    assert_eq!(clamped_add(u64::MAX - 1, 5), u64::MAX);
    assert_eq!(clamped_add(0, i128::MIN), 0);
    assert_eq!(clamped_add(0, i128::MAX), u64::MAX);
}

#[test]
fn ledger_update_and_lookup() {
    let mut l = Ledger::new();
    let a = [1u8; 32];
    let b = [2u8; 32];
    assert_eq!(l.balance_of(&a), 0);
    update_balance(&mut l, a, 500);
    update_balance(&mut l, b, 20);
    update_balance(&mut l, a, -200);
    assert_eq!(l.balance_of(&a), 300);
    assert_eq!(l.balance_of(&b), 20);
    update_balance(&mut l, b, -1000);
    assert_eq!(l.balance_of(&b), 0);
    l.set_balance(a, 0);
    assert_eq!(l.balance_of(&a), 0);
}
