//! Amounts of value moved by transfers, and the balance of a chain.
//!
//! Both are non-negative integers of a fixed width; every arithmetic operation is
//! checked and reports an error instead of wrapping around.
use vstd::prelude::*;

use crate::system::SystemExecutionError;

verus! {

/// A non-negative amount of money to be transferred.
#[derive(Eq, PartialEq, Structural, Ord, PartialOrd, Copy, Clone, Hash, Debug)]
pub struct Amount(u64);

/// The balance of a chain.
#[derive(Eq, PartialEq, Structural, Ord, PartialOrd, Copy, Clone, Hash, Debug)]
pub struct Balance(u128);

impl View for Amount {
    type V = u64;

    closed spec fn view(&self) -> u64 {
        self.0
    }
}

impl View for Balance {
    type V = u128;

    closed spec fn view(&self) -> u128 {
        self.0
    }
}

/// Two amounts are the same exactly when they hold the same number.
pub broadcast proof fn lemma_amount_view_injective(a: Amount, b: Amount)
    ensures
        (#[trigger] a@ == #[trigger] b@) == (a == b),
{
}

/// Two balances are the same exactly when they hold the same number.
pub broadcast proof fn lemma_balance_view_injective(a: Balance, b: Balance)
    ensures
        (#[trigger] a@ == #[trigger] b@) == (a == b),
{
}

impl Amount {
    /// The amount holding the given number of units.
    pub fn from_u64(value: u64) -> (r: Amount)
        ensures
            r@ == value,
    {
        Amount(value)
    }

    /// The number of units in this amount.
    pub fn to_u64(self) -> (r: u64)
        ensures
            r == self@,
    {
        self.0
    }

    /// The empty amount.
    pub fn zero() -> (r: Amount)
        ensures
            r@ == 0,
    {
        Amount(0)
    }

    /// Adds two amounts, failing with `AmountOverflow` when the sum does not fit.
    pub fn try_add(self, other: Amount) -> (r: Result<Amount, SystemExecutionError>)
        ensures
            r == self.sum(other),
    {
        match self.0.checked_add(other.0) {
            Some(val) => Ok(Amount(val)),
            None => Err(SystemExecutionError::AmountOverflow),
        }
    }

    /// Subtracts `other` from this amount, failing with `AmountUnderflow` when `other`
    /// is the larger one.
    pub fn try_sub(self, other: Amount) -> (r: Result<Amount, SystemExecutionError>)
        ensures
            r == self.difference(other),
    {
        match self.0.checked_sub(other.0) {
            Some(val) => Ok(Amount(val)),
            None => Err(SystemExecutionError::AmountUnderflow),
        }
    }

    /// Adds `other` to this amount in place. On overflow the amount is left unchanged
    /// and `AmountOverflow` is returned.
    pub fn try_add_assign(&mut self, other: Amount) -> (r: Result<(), SystemExecutionError>)
        ensures
            match old(self).sum(other) {
                Ok(total) => r is Ok && *final(self) == total,
                Err(e) => r == Err::<(), SystemExecutionError>(e) && *final(self) == *old(self),
            },
    {
        match self.0.checked_add(other.0) {
            Some(val) => {
                self.0 = val;
                Ok(())
            },
            None => Err(SystemExecutionError::AmountOverflow),
        }
    }

    /// Subtracts `other` from this amount in place. On underflow the amount is left
    /// unchanged and `AmountUnderflow` is returned.
    pub fn try_sub_assign(&mut self, other: Amount) -> (r: Result<(), SystemExecutionError>)
        ensures
            match old(self).difference(other) {
                Ok(rest) => r is Ok && *final(self) == rest,
                Err(e) => r == Err::<(), SystemExecutionError>(e) && *final(self) == *old(self),
            },
    {
        match self.0.checked_sub(other.0) {
            Some(val) => {
                self.0 = val;
                Ok(())
            },
            None => Err(SystemExecutionError::AmountUnderflow),
        }
    }

    /// The amount holding `value` units, in specifications.
    pub closed spec fn spec_new(value: u64) -> Amount {
        Amount(value)
    }

    /// The sum of two amounts, or `AmountOverflow` when it does not fit.
    pub open spec fn sum(self, other: Amount) -> Result<Amount, SystemExecutionError> {
        if self@ + other@ <= u64::MAX {
            Ok(Amount::spec_new((self@ + other@) as u64))
        } else {
            Err(SystemExecutionError::AmountOverflow)
        }
    }

    /// The difference of two amounts, or `AmountUnderflow` when `other` is the larger.
    pub open spec fn difference(self, other: Amount) -> Result<Amount, SystemExecutionError> {
        if other@ <= self@ {
            Ok(Amount::spec_new((self@ - other@) as u64))
        } else {
            Err(SystemExecutionError::AmountUnderflow)
        }
    }

    /// The amount as a balance, holding the same number of units.
    pub fn to_balance(self) -> (r: Balance)
        ensures
            r@ == self@ as u128,
    {
        Balance(self.0 as u128)
    }
}

/// `spec_new` builds the amount whose view is the given number.
pub broadcast proof fn lemma_amount_spec_new(value: u64)
    ensures
        (#[trigger] Amount::spec_new(value))@ == value,
{
}

/// `spec_new` builds the balance whose view is the given number.
pub broadcast proof fn lemma_balance_spec_new(value: u128)
    ensures
        (#[trigger] Balance::spec_new(value))@ == value,
{
}

pub broadcast group group_amount_lemmas {
    lemma_amount_view_injective,
    lemma_balance_view_injective,
    lemma_amount_spec_new,
    lemma_balance_spec_new,
}

impl Balance {
    /// The balance holding the given number of units.
    pub fn from_u128(value: u128) -> (r: Balance)
        ensures
            r@ == value,
    {
        Balance(value)
    }

    /// The number of units in this balance.
    pub fn to_u128(self) -> (r: u128)
        ensures
            r == self@,
    {
        self.0
    }

    /// The balance holding `value` units, in specifications.
    pub closed spec fn spec_new(value: u128) -> Balance {
        Balance(value)
    }

    /// The sum of two balances, or `BalanceOverflow` when it does not fit.
    pub open spec fn sum(self, other: Balance) -> Result<Balance, SystemExecutionError> {
        if self@ + other@ <= u128::MAX {
            Ok(Balance::spec_new((self@ + other@) as u128))
        } else {
            Err(SystemExecutionError::BalanceOverflow)
        }
    }

    /// The difference of two balances, or `BalanceUnderflow` when `other` is the larger.
    pub open spec fn difference(self, other: Balance) -> Result<Balance, SystemExecutionError> {
        if other@ <= self@ {
            Ok(Balance::spec_new((self@ - other@) as u128))
        } else {
            Err(SystemExecutionError::BalanceUnderflow)
        }
    }

    /// The empty balance.
    pub fn zero() -> (r: Balance)
        ensures
            r@ == 0,
    {
        Balance(0)
    }

    /// The largest balance a chain can hold.
    pub fn max() -> (r: Balance)
        ensures
            r@ == u128::MAX,
    {
        Balance(u128::MAX)
    }

    /// Adds two balances, failing with `BalanceOverflow` when the sum does not fit.
    pub fn try_add(self, other: Balance) -> (r: Result<Balance, SystemExecutionError>)
        ensures
            r == self.sum(other),
    {
        match self.0.checked_add(other.0) {
            Some(val) => Ok(Balance(val)),
            None => Err(SystemExecutionError::BalanceOverflow),
        }
    }

    /// Subtracts `other` from this balance, failing with `BalanceUnderflow` when `other`
    /// is the larger one.
    pub fn try_sub(self, other: Balance) -> (r: Result<Balance, SystemExecutionError>)
        ensures
            r == self.difference(other),
    {
        match self.0.checked_sub(other.0) {
            Some(val) => Ok(Balance(val)),
            None => Err(SystemExecutionError::BalanceUnderflow),
        }
    }

    /// Adds `other` to this balance in place. On overflow the balance is left unchanged
    /// and `BalanceOverflow` is returned.
    pub fn try_add_assign(&mut self, other: Balance) -> (r: Result<(), SystemExecutionError>)
        ensures
            match old(self).sum(other) {
                Ok(total) => r is Ok && *final(self) == total,
                Err(e) => r == Err::<(), SystemExecutionError>(e) && *final(self) == *old(self),
            },
    {
        match self.0.checked_add(other.0) {
            Some(val) => {
                self.0 = val;
                Ok(())
            },
            None => Err(SystemExecutionError::BalanceOverflow),
        }
    }

    /// Subtracts `other` from this balance in place. On underflow the balance is left
    /// unchanged and `BalanceUnderflow` is returned.
    pub fn try_sub_assign(&mut self, other: Balance) -> (r: Result<(), SystemExecutionError>)
        ensures
            match old(self).difference(other) {
                Ok(rest) => r is Ok && *final(self) == rest,
                Err(e) => r == Err::<(), SystemExecutionError>(e) && *final(self) == *old(self),
            },
    {
        match self.0.checked_sub(other.0) {
            Some(val) => {
                self.0 = val;
                Ok(())
            },
            None => Err(SystemExecutionError::BalanceUnderflow),
        }
    }

    /// Converts the balance to an amount when it fits in one.
    pub fn try_to_amount(self) -> (r: Option<Amount>)
        ensures
            self@ <= u64::MAX ==> r == Some(Amount::spec_new(self@ as u64)),
            self@ > u64::MAX ==> r is None,
    {
        if self.0 <= u64::MAX as u128 {
            Some(Amount(self.0 as u64))
        } else {
            None
        }
    }
}

#[verifier::external_type_specification]
#[verifier::external_body]
pub struct ExParseIntError(core::num::ParseIntError);

/// Whether `c` is an ASCII decimal digit.
pub open spec fn is_decimal_digit(c: char) -> bool {
    ('0' as int) <= (c as int) <= ('9' as int)
}

/// The number written by the decimal digits `d`, most significant first.
pub open spec fn decimal_value(d: Seq<char>) -> int
    decreases d.len(),
{
    if d.len() == 0 {
        0
    } else {
        decimal_value(d.drop_last()) * 10 + ((d.last() as int) - ('0' as int))
    }
}

/// The number that `s` writes as an unsigned integer no larger than `max`: an optional
/// `+` sign followed by at least one decimal digit and nothing else. `None` when `s` is
/// not of that form or the number is larger than `max`.
pub open spec fn parsed_unsigned(s: Seq<char>, max: int) -> Option<int> {
    let d = unsigned_digits(s);
    if d.len() > 0 && all_decimal_digits(d) && decimal_value(d) <= max {
        Some(decimal_value(d))
    } else {
        None
    }
}

/// The text of an unsigned number without its optional `+` sign.
pub open spec fn unsigned_digits(s: Seq<char>) -> Seq<char> {
    if s.len() > 0 && s[0] == '+' {
        s.drop_first()
    } else {
        s
    }
}

/// Whether every character of `d` is a decimal digit.
pub open spec fn all_decimal_digits(d: Seq<char>) -> bool {
    forall|i: int| 0 <= i < d.len() ==> is_decimal_digit(#[trigger] d[i])
}

/// Parses a `u64` by `u64::from_str`. Trusted: as its documentation says, the text must
/// be an optional `+` followed by decimal digits only, of a value that fits; anything
/// else is an error.
#[verifier::external_body]
fn parse_u64(src: &str) -> (r: Result<u64, core::num::ParseIntError>)
    ensures
        match parsed_unsigned(src@, u64::MAX as int) {
            Some(v) => r == Ok::<u64, core::num::ParseIntError>(v as u64),
            None => r is Err,
        },
{
    src.parse::<u64>()
}

/// Parses a `u128` by `u128::from_str`. Trusted: as its documentation says, the text
/// must be an optional `+` followed by decimal digits only, of a value that fits;
/// anything else is an error.
#[verifier::external_body]
fn parse_u128(src: &str) -> (r: Result<u128, core::num::ParseIntError>)
    ensures
        match parsed_unsigned(src@, u128::MAX as int) {
            Some(v) => r == Ok::<u128, core::num::ParseIntError>(v as u128),
            None => r is Err,
        },
{
    src.parse::<u128>()
}

impl Amount {
    /// Reads an amount written in decimal, with an optional `+` sign.
    pub fn parse(src: &str) -> (r: Result<Amount, core::num::ParseIntError>)
        ensures
            match parsed_unsigned(src@, u64::MAX as int) {
                Some(v) => r == Ok::<Amount, core::num::ParseIntError>(Amount::spec_new(v as u64)),
                None => r is Err,
            },
    {
        match parse_u64(src) {
            Ok(units) => Ok(Amount(units)),
            Err(e) => Err(e),
        }
    }
}

impl Balance {
    /// Reads a balance written in decimal, with an optional `+` sign.
    pub fn parse(src: &str) -> (r: Result<Balance, core::num::ParseIntError>)
        ensures
            match parsed_unsigned(src@, u128::MAX as int) {
                Some(v) => r == Ok::<Balance, core::num::ParseIntError>(Balance::spec_new(v as u128)),
                None => r is Err,
            },
    {
        match parse_u128(src) {
            Ok(units) => Ok(Balance(units)),
            Err(e) => Err(e),
        }
    }
}

impl core::str::FromStr for Amount {
    type Err = core::num::ParseIntError;

    fn from_str(src: &str) -> (r: Result<Amount, core::num::ParseIntError>)
        ensures
            match parsed_unsigned(src@, u64::MAX as int) {
                Some(v) => r == Ok::<Amount, core::num::ParseIntError>(Amount::spec_new(v as u64)),
                None => r is Err,
            },
    {
        Amount::parse(src)
    }
}

impl core::str::FromStr for Balance {
    type Err = core::num::ParseIntError;

    fn from_str(src: &str) -> (r: Result<Balance, core::num::ParseIntError>)
        ensures
            match parsed_unsigned(src@, u128::MAX as int) {
                Some(v) => r == Ok::<Balance, core::num::ParseIntError>(Balance::spec_new(v as u128)),
                None => r is Err,
            },
    {
        Balance::parse(src)
    }
}

impl From<u64> for Amount {
    fn from(value: u64) -> (r: Amount) {
        Amount(value)
    }
}

impl vstd::std_specs::convert::FromSpecImpl<u64> for Amount {
    open spec fn obeys_from_spec() -> bool {
        true
    }

    open spec fn from_spec(value: u64) -> Amount {
        Amount::spec_new(value)
    }
}

impl From<Amount> for u64 {
    fn from(value: Amount) -> (r: u64) {
        value.0
    }
}

impl vstd::std_specs::convert::FromSpecImpl<Amount> for u64 {
    open spec fn obeys_from_spec() -> bool {
        true
    }

    open spec fn from_spec(value: Amount) -> u64 {
        value@
    }
}

impl From<u128> for Balance {
    fn from(value: u128) -> (r: Balance) {
        Balance(value)
    }
}

impl vstd::std_specs::convert::FromSpecImpl<u128> for Balance {
    open spec fn obeys_from_spec() -> bool {
        true
    }

    open spec fn from_spec(value: u128) -> Balance {
        Balance::spec_new(value)
    }
}

impl From<Balance> for u128 {
    fn from(value: Balance) -> (r: u128) {
        value.0
    }
}

impl vstd::std_specs::convert::FromSpecImpl<Balance> for u128 {
    open spec fn obeys_from_spec() -> bool {
        true
    }

    open spec fn from_spec(value: Balance) -> u128 {
        value@
    }
}

impl From<Amount> for Balance {
    fn from(value: Amount) -> (r: Balance) {
        Balance(value.0 as u128)
    }
}

impl vstd::std_specs::convert::FromSpecImpl<Amount> for Balance {
    open spec fn obeys_from_spec() -> bool {
        true
    }

    open spec fn from_spec(value: Amount) -> Balance {
        Balance::spec_new(value@ as u128)
    }
}

impl TryFrom<Balance> for Amount {
    type Error = core::num::TryFromIntError;

    fn try_from(value: Balance) -> (r: Result<Amount, core::num::TryFromIntError>) {
        match u64::try_from(value.0) {
            Ok(units) => Ok(Amount(units)),
            Err(e) => Err(e),
        }
    }
}

impl vstd::std_specs::convert::TryFromSpecImpl<Balance> for Amount {
    open spec fn obeys_try_from_spec() -> bool {
        true
    }

    open spec fn try_from_spec(value: Balance) -> Result<Amount, core::num::TryFromIntError> {
        match <u64 as vstd::std_specs::convert::TryFromSpec<u128>>::try_from_spec(value@) {
            Ok(units) => Ok(Amount::spec_new(units)),
            Err(e) => Err(e),
        }
    }
}

/// Adding amounts does not depend on their order, and zero changes nothing.
pub proof fn law_amount_sum_commutes(a: Amount, b: Amount)
    ensures
        a.sum(b) == b.sum(a),
        a.sum(Amount::spec_new(0)) == Ok::<Amount, SystemExecutionError>(a),
{
    broadcast use group_amount_lemmas;
}

/// Taking back what was added gives the amount back.
pub proof fn law_amount_difference_undoes_sum(a: Amount, b: Amount)
    requires
        a.sum(b) is Ok,
    ensures
        a.sum(b).unwrap().difference(b) == Ok::<Amount, SystemExecutionError>(a),
{
    broadcast use group_amount_lemmas;
}

/// Adding back what was taken gives the amount back.
pub proof fn law_amount_sum_undoes_difference(a: Amount, b: Amount)
    requires
        a.difference(b) is Ok,
    ensures
        a.difference(b).unwrap().sum(b) == Ok::<Amount, SystemExecutionError>(a),
{
    broadcast use group_amount_lemmas;
}

/// Adding balances does not depend on their order, zero changes nothing, and anything
/// but zero added to the largest balance overflows.
pub proof fn law_balance_sum_commutes(a: Balance, b: Balance)
    ensures
        a.sum(b) == b.sum(a),
        a.sum(Balance::spec_new(0)) == Ok::<Balance, SystemExecutionError>(a),
        b@ > 0 ==> Balance::spec_new(u128::MAX).sum(b) == Err::<Balance, SystemExecutionError>(
            SystemExecutionError::BalanceOverflow,
        ),
{
    broadcast use group_amount_lemmas;
}

/// Taking back what was added to a balance gives the balance back.
pub proof fn law_balance_difference_undoes_sum(a: Balance, b: Balance)
    requires
        a.sum(b) is Ok,
    ensures
        a.sum(b).unwrap().difference(b) == Ok::<Balance, SystemExecutionError>(a),
{
    broadcast use group_amount_lemmas;
}

/// Adding back what was taken from a balance gives the balance back.
pub proof fn law_balance_sum_undoes_difference(a: Balance, b: Balance)
    requires
        a.difference(b) is Ok,
    ensures
        a.difference(b).unwrap().sum(b) == Ok::<Balance, SystemExecutionError>(a),
{
    broadcast use group_amount_lemmas;
}

/// An amount turned into a balance and back is the same amount.
pub proof fn law_amount_balance_round_trip(a: Amount)
    ensures
        <Balance as vstd::std_specs::convert::FromSpec<Amount>>::from_spec(a)@ == a@ as u128,
        <Amount as vstd::std_specs::convert::TryFromSpec<Balance>>::try_from_spec(
            <Balance as vstd::std_specs::convert::FromSpec<Amount>>::from_spec(a),
        ) == Ok::<Amount, core::num::TryFromIntError>(a),
{
    broadcast use group_amount_lemmas;
}

} // verus!
