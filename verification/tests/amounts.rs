use linera::amount::{Amount, Balance};
use linera::system::SystemExecutionError;

#[test]
fn amount_zero_holds_nothing() {
    assert_eq!(Amount::zero().to_u64(), 0);
    assert_eq!(Balance::zero().to_u128(), 0);
    assert_eq!(Balance::max().to_u128(), u128::MAX);
}

#[test]
fn amount_try_add_sums() {
    let sum = Amount::from_u64(20).try_add(Amount::from_u64(22)).unwrap();
    assert_eq!(sum.to_u64(), 42);
}

#[test]
fn amount_try_add_overflows() {
    let r = Amount::from_u64(u64::MAX).try_add(Amount::from_u64(1));
    assert!(matches!(r, Err(SystemExecutionError::AmountOverflow)));
    let edge = Amount::from_u64(u64::MAX - 1).try_add(Amount::from_u64(1)).unwrap();
    assert_eq!(edge.to_u64(), u64::MAX);
}

#[test]
fn amount_try_sub_subtracts_and_underflows() {
    let rest = Amount::from_u64(20).try_sub(Amount::from_u64(15)).unwrap();
    assert_eq!(rest.to_u64(), 5);
    let r = Amount::from_u64(15).try_sub(Amount::from_u64(20));
    assert!(matches!(r, Err(SystemExecutionError::AmountUnderflow)));
    assert_eq!(Amount::from_u64(7).try_sub(Amount::from_u64(7)).unwrap().to_u64(), 0);
}

#[test]
fn amount_assign_variants_update_in_place() {
    let mut a = Amount::from_u64(10);
    a.try_add_assign(Amount::from_u64(5)).unwrap();
    assert_eq!(a.to_u64(), 15);
    a.try_sub_assign(Amount::from_u64(15)).unwrap();
    assert_eq!(a.to_u64(), 0);
    let r = a.try_sub_assign(Amount::from_u64(1));
    assert!(matches!(r, Err(SystemExecutionError::AmountUnderflow)));
    assert_eq!(a.to_u64(), 0);
    let mut b = Amount::from_u64(u64::MAX);
    let r = b.try_add_assign(Amount::from_u64(2));
    assert!(matches!(r, Err(SystemExecutionError::AmountOverflow)));
    assert_eq!(b.to_u64(), u64::MAX);
}

#[test]
fn balance_arithmetic_and_errors() {
    let b = Balance::from_u128(100).try_add(Balance::from_u128(23)).unwrap();
    assert_eq!(b.to_u128(), 123);
    assert!(matches!(Balance::max().try_add(Balance::from_u128(1)), Err(SystemExecutionError::BalanceOverflow)));
    assert!(matches!(Balance::zero().try_sub(Balance::from_u128(1)), Err(SystemExecutionError::BalanceUnderflow)));
    let mut c = Balance::from_u128(50);
    c.try_sub_assign(Balance::from_u128(20)).unwrap();
    assert_eq!(c.to_u128(), 30);
    c.try_add_assign(Balance::from_u128(5)).unwrap();
    assert_eq!(c.to_u128(), 35);
    let mut m = Balance::max();
    assert!(matches!(m.try_add_assign(Balance::from_u128(1)), Err(SystemExecutionError::BalanceOverflow)));
    assert_eq!(m.to_u128(), u128::MAX);
    let mut z = Balance::zero();
    assert!(matches!(z.try_sub_assign(Balance::from_u128(3)), Err(SystemExecutionError::BalanceUnderflow)));
    assert_eq!(z.to_u128(), 0);
}

#[test]
fn sum_then_difference_gives_back_the_amount() {
    let a = Amount::from_u64(1234);
    let b = Amount::from_u64(99);
    let back = a.try_add(b).unwrap().try_sub(b).unwrap();
    assert_eq!(back, a);
    assert_eq!(a.try_add(b).unwrap(), b.try_add(a).unwrap());
    assert_eq!(a.try_add(Amount::zero()).unwrap(), a);
    let c = Balance::from_u128(5000);
    let d = Balance::from_u128(1);
    assert_eq!(c.try_sub(d).unwrap().try_add(d).unwrap(), c);
}

#[test]
fn conversions_between_amounts_balances_and_integers() {
    let a: Amount = Amount::from(17u64);
    assert_eq!(u64::from(a), 17);
    let b: Balance = Balance::from(a);
    assert_eq!(u128::from(b), 17);
    assert_eq!(Balance::from(40u128).to_u128(), 40);
    assert_eq!(a.to_balance().to_u128(), 17);
    assert_eq!(Amount::try_from(b).unwrap(), a);
    assert!(Amount::try_from(Balance::from_u128(u64::MAX as u128 + 1)).is_err());
    assert_eq!(Amount::try_from(Balance::from_u128(u64::MAX as u128)).unwrap().to_u64(), u64::MAX);
    assert_eq!(Balance::from_u128(9).try_to_amount().unwrap().to_u64(), 9);
    assert!(Balance::max().try_to_amount().is_none());
}

#[test]
fn amounts_and_balances_parse_from_decimal_text() {
    assert_eq!("42".parse::<Amount>().unwrap().to_u64(), 42);
    assert_eq!(Amount::parse("+7").unwrap().to_u64(), 7);
    assert_eq!(Amount::parse("18446744073709551615").unwrap().to_u64(), u64::MAX);
    assert!(Amount::parse("18446744073709551616").is_err());
    assert!(Amount::parse("").is_err());
    assert!(Amount::parse("+").is_err());
    assert!(Amount::parse("-1").is_err());
    assert!(Amount::parse(" 1").is_err());
    assert!(Amount::parse("4x").is_err());
    assert_eq!("340282366920938463463374607431768211455".parse::<Balance>().unwrap().to_u128(), u128::MAX);
    assert_eq!(Balance::parse("0012").unwrap().to_u128(), 12);
    assert!(Balance::parse("340282366920938463463374607431768211456").is_err());
}

#[test]
fn amounts_order_by_value() {
    assert!(Amount::from_u64(3) < Amount::from_u64(4));
    assert!(Balance::from_u128(10) > Balance::zero());
}
