use payment_engine::{Account, Amount, AmountError, TxnState, DECIMALS_PRECISION, SCALE};

fn units(text: &str) -> Result<i64, AmountError> {
    Amount::from_decimal(text.as_bytes()).map(|a| a.units())
}

fn text(units: i64) -> String {
    String::from_utf8(Amount::from_units(units).to_decimal()).unwrap()
}

#[test]
fn handles_decimals_precision() {
    for (case, msg) in [
        ("5", "amount w/o decimal point"),
        ("5.0", "amount with one place after point"),
        ("5.0000999", "amount with more than four places after point"),
    ] {
        assert_eq!(units(case), Ok(50000), "{msg}");
        let amount = Amount::from_decimal(case.as_bytes()).unwrap();
        assert_eq!(amount.to_decimal(), b"5.0000".to_vec(), "{msg}");
    }
}

#[test]
fn handles_malformed_input() {
    for case in ["whatever", "NaN", "inf", "", ".", "-", "+", "1.2.3", "1e5", " 1", "1,5", "-.", "--1"] {
        assert_eq!(units(case), Err(AmountError::InvalidAmount), "{case}");
    }
}

#[test]
fn truncates_rather_than_rounds() {
    assert_eq!(units("1.53349999"), Ok(15334));
    assert_eq!(units("5.00009999"), Ok(50000));
    assert_eq!(units("-1.53349999"), Ok(-15334));
    assert_eq!(units("0.00009"), Ok(0));
}

#[test]
fn reads_signs_and_partial_forms() {
    assert_eq!(units("+2.5"), Ok(25000));
    assert_eq!(units("-2.5"), Ok(-25000));
    assert_eq!(units(".5"), Ok(5000));
    assert_eq!(units("5."), Ok(50000));
    assert_eq!(units("007.0100"), Ok(70100));
    assert_eq!(units("0"), Ok(0));
}

#[test]
fn reads_the_64_bit_limits() {
    assert_eq!(units("922337203685477.5807"), Ok(i64::MAX));
    assert_eq!(units("-922337203685477.5808"), Ok(i64::MIN));
    assert_eq!(units("922337203685477.5808"), Err(AmountError::InvalidAmount));
    assert_eq!(units("-922337203685477.5809"), Err(AmountError::InvalidAmount));
    assert_eq!(units("922337203685478"), Err(AmountError::InvalidAmount));
    assert_eq!(units("99999999999999999999999999"), Err(AmountError::InvalidAmount));
    assert_eq!(units("0000000000000000000000000001.5"), Ok(15000));
}

#[test]
fn writes_four_fractional_digits() {
    assert_eq!(text(0), "0.0000");
    assert_eq!(text(50000), "5.0000");
    assert_eq!(text(15334), "1.5334");
    assert_eq!(text(1), "0.0001");
    assert_eq!(text(-25000), "-2.5000");
    assert_eq!(text(-1), "-0.0001");
    assert_eq!(text(1234567890), "123456.7890");
    assert_eq!(text(i64::MAX), "922337203685477.5807");
    assert_eq!(text(i64::MIN), "-922337203685477.5808");
}

#[test]
fn decimal_round_trip_truncates() {
    for (input, expected) in [
        ("1.53349999", "1.5334"),
        ("5.00009999", "5.0000"),
        ("-0.12345", "-0.1234"),
        ("42", "42.0000"),
        (".5", "0.5000"),
    ] {
        let amount = Amount::from_decimal(input.as_bytes()).unwrap();
        assert_eq!(amount.to_decimal(), expected.as_bytes().to_vec());
        assert_eq!(Amount::from_decimal(&amount.to_decimal()), Ok(amount));
    }
    for v in [i64::MIN, -1, 0, 1, 99999, 10000, i64::MAX] {
        let a = Amount::from_units(v);
        assert_eq!(Amount::from_decimal(&a.to_decimal()), Ok(a));
    }
}

#[test]
fn arithmetic_is_exact() {
    let a = Amount::from_units(15334);
    let b = Amount::from_units(-4);
    assert_eq!(a.add(b).units(), 15330);
    assert_eq!(a.sub(b).units(), 15338);
    assert_eq!(a.checked_add(b), Some(Amount::from_units(15330)));
    assert_eq!(Amount::from_units(i64::MAX).checked_add(Amount::from_units(1)), None);
    assert_eq!(Amount::from_units(i64::MIN).checked_sub(Amount::from_units(1)), None);
    assert_eq!(a.checked_sub(b), Some(Amount::from_units(15338)));
    assert!(b.lt(&a));
    assert!(!a.lt(&a));
    assert!(b < a);
    assert_eq!(Amount::default().units(), 0);
    assert_eq!(SCALE, 10i64.pow(DECIMALS_PRECISION));
}

#[test]
fn account_operations() {
    let mut account = Account::new(7);
    assert_eq!(account.client, 7);
    assert_eq!(account.total.units(), 0);
    assert!(!account.locked);
    account.deposit(Amount::from_units(100));
    assert_eq!((account.available.units(), account.total.units()), (100, 100));
    assert!(!account.withdraw(Amount::from_units(101)));
    assert_eq!((account.available.units(), account.total.units()), (100, 100));
    assert!(account.withdraw(Amount::from_units(40)));
    assert_eq!((account.available.units(), account.total.units()), (60, 60));
    account.hold(Amount::from_units(50));
    assert_eq!((account.available.units(), account.held.units()), (10, 50));
    account.resolve(Amount::from_units(20));
    assert_eq!((account.available.units(), account.held.units()), (30, 30));
    account.charge_back(Amount::from_units(30));
    assert_eq!(
        (account.available.units(), account.held.units(), account.total.units()),
        (30, 0, 30)
    );
    account.lock();
    assert!(account.locked);
    assert_eq!(TxnState::default(), TxnState::Undisputed);
}
