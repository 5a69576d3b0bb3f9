//! The PESEL number: its digit model, the validator and the validated wrapper.

use crate::calendar::{calendar_date_exists, is_calendar_date};
use vstd::prelude::*;

verus! {

/// Number of characters of a PESEL.
pub const PESEL_LEN: usize = 11;

/// Whether `c` is one of the decimal digits `0` to `9`.
pub open spec fn is_decimal_digit(c: char) -> bool {
    '0' <= c && c <= '9'
}

/// The value of the decimal digit `c`.
pub open spec fn digit_value(c: char) -> int {
    c as int - '0' as int
}

/// Whether every character of `s` is a decimal digit.
pub open spec fn all_digits(s: Seq<char>) -> bool {
    forall|i: int| 0 <= i < s.len() ==> is_decimal_digit(#[trigger] s[i])
}

/// The two-digit number written at positions `i` and `i + 1` of `s`.
pub open spec fn two_digit_number(s: Seq<char>, i: int) -> int {
    10 * digit_value(s[i]) + digit_value(s[i + 1])
}

/// The number that the digit string `s` writes in decimal; 0 for the empty string.
pub open spec fn decimal_value(s: Seq<char>) -> int
    decreases s.len(),
{
    if s.len() == 0 {
        0
    } else {
        10 * decimal_value(s.drop_last()) + digit_value(s.last())
    }
}

/// A two-character digit string has the two-digit value of its characters.
proof fn lemma_two_digit_value(s: Seq<char>)
    requires
        s.len() == 2,
    ensures
        decimal_value(s) == two_digit_number(s, 0),
{
    let first = s.drop_last();
    assert(first.drop_last().len() == 0);
    assert(decimal_value(first.drop_last()) == 0);
    assert(first.last() == s[0]);
    assert(decimal_value(first) == digit_value(s[0]));
}

/// Every prefix of a digit string writes a number no larger than the whole.
proof fn lemma_prefix_value_bounded(s: Seq<char>, i: int)
    requires
        all_digits(s),
        0 <= i <= s.len(),
    ensures
        0 <= decimal_value(s.subrange(0, i)) <= decimal_value(s),
    decreases s.len(),
{
    if s.len() > 0 {
        if i == s.len() {
            assert(s.subrange(0, i) =~= s);
            lemma_prefix_value_bounded(s.drop_last(), i - 1);
            assert(s.drop_last().subrange(0, i - 1) =~= s.drop_last());
        } else {
            lemma_prefix_value_bounded(s.drop_last(), i);
            assert(s.drop_last().subrange(0, i) =~= s.subrange(0, i));
            lemma_prefix_value_bounded(s.drop_last(), s.len() - 1);
            assert(s.drop_last().subrange(0, s.len() - 1) =~= s.drop_last());
        }
    }
}

/// The first year of the century selected by `band`, the month field divided by 20.
pub open spec fn century_of_band(band: int) -> Option<int> {
    if band == 0 {
        Some(1900)
    } else if band == 1 {
        Some(2000)
    } else if band == 2 {
        Some(2100)
    } else if band == 3 {
        Some(2200)
    } else if band == 4 {
        Some(1800)
    } else {
        None
    }
}

/// The century selected by the month field of the digit string `s`.
pub open spec fn encoded_century(s: Seq<char>) -> Option<int> {
    century_of_band(two_digit_number(s, 2) / 20)
}

/// The birth year encoded by `s`, once its century is known.
pub open spec fn encoded_year(s: Seq<char>, century: int) -> int {
    century + two_digit_number(s, 0)
}

/// The birth month encoded by `s`: the month field without its century band.
pub open spec fn encoded_month(s: Seq<char>) -> int {
    two_digit_number(s, 2) % 20
}

/// The birth day encoded by `s`.
pub open spec fn encoded_day(s: Seq<char>) -> int {
    two_digit_number(s, 4)
}

/// Whether the first six digits of `s` decode to a real calendar day.
pub open spec fn encoded_date_is_real(s: Seq<char>) -> bool {
    match encoded_century(s) {
        Some(century) => is_calendar_date(
            encoded_year(s, century),
            encoded_month(s),
            encoded_day(s),
        ),
        None => false,
    }
}

/// The weights of the first ten digits in the checksum.
pub open spec fn checksum_weights() -> Seq<int> {
    seq![1, 3, 7, 9, 1, 3, 7, 9, 1, 3]
}

/// Sum of the first `n` digits of `s`, each times its weight.
pub open spec fn weighted_sum(s: Seq<char>, n: int) -> int
    decreases n,
{
    if n <= 0 {
        0
    } else {
        weighted_sum(s, n - 1) + checksum_weights()[n - 1] * digit_value(s[n - 1])
    }
}

/// The weighted sum of the first ten digits plus the last digit.
pub open spec fn checksum_total(s: Seq<char>) -> int {
    weighted_sum(s, 10) + digit_value(s[10])
}

/// Whether the check digit of `s` is right: the checksum total ends in 0.
pub open spec fn checksum_holds(s: Seq<char>) -> bool {
    checksum_total(s) % 10 == 0
}

/// Whether `s` is a valid PESEL: eleven decimal digits, a real encoded
/// birth date and a right check digit.
pub open spec fn is_valid_pesel(s: Seq<char>) -> bool {
    &&& s.len() == PESEL_LEN
    &&& all_digits(s)
    &&& encoded_date_is_real(s)
    &&& checksum_holds(s)
}

/// The one way in which a candidate fails to be a PESEL: it is not a valid one.
#[derive(Clone, Copy, Debug, PartialEq, Eq, Structural)]
pub enum ParseError {
    InvalidFormat,
}

/// A valid PESEL number, kept exactly as it was given.
#[derive(Eq, PartialEq, Hash, Debug)]
pub struct Pesel(String);

impl Clone for Pesel {
    fn clone(&self) -> (r: Self)
        ensures
            r@ == self@,
    {
        proof {
            use_type_invariant(self);
        }
        Pesel(self.0.clone())
    }
}

impl View for Pesel {
    type V = Seq<char>;

    closed spec fn view(&self) -> Seq<char> {
        self.0@
    }
}

impl Pesel {
    #[verifier::type_invariant]
    spec fn inv(&self) -> bool {
        is_valid_pesel(self.0@)
    }

    /// Wraps `input` when it is a valid PESEL, and fails with
    /// `ParseError::InvalidFormat` exactly when it is not.
    pub fn parse(input: &str) -> (r: Result<Pesel, ParseError>)
        ensures
            r is Ok <==> is_valid_pesel(input@),
            r matches Ok(p) ==> p@ == input@,
            r matches Err(e) ==> e == ParseError::InvalidFormat,
    {
        let result = Pesel::validate(input);
        if result {
            Ok(Pesel(input.to_owned()))
        } else {
            Err(ParseError::InvalidFormat)
        }
    }

    /// The number as it was given.
    pub fn as_str(&self) -> (r: &str)
        ensures
            r@ == self@,
            is_valid_pesel(r@),
    {
        proof {
            use_type_invariant(self);
        }
        self.0.as_str()
    }

    /// Whether `input` is a valid PESEL number.
    pub fn validate(input: &str) -> (r: bool)
        ensures
            r == is_valid_pesel(input@),
    {
        let result = if Pesel::validate_length(input) && Pesel::validate_numeric(input) {
            Pesel::validate_date(input) && Pesel::validate_checksum(input)
        } else {
            false
        };
        result
    }

    /// Whether `input` has exactly eleven characters (not bytes).
    fn validate_length(input: &str) -> (r: bool)
        ensures
            r == (input@.len() == PESEL_LEN),
    {
        let length = input.unicode_len();
        length == PESEL_LEN
    }

    /// Whether every character of `input` is a decimal digit.
    fn validate_numeric(input: &str) -> (r: bool)
        ensures
            r == all_digits(input@),
    {
        let n = input.unicode_len();
        let mut i: usize = 0;
        while i < n
            invariant
                n == input@.len(),
                i <= n,
                forall|j: int| 0 <= j < i ==> is_decimal_digit(#[trigger] input@[j]),
            decreases n - i,
        {
            let c = input.get_char(i);
            if !('0' <= c && c <= '9') {
                return false;
            }
            i = i + 1;
        }
        true
    }

    /// Whether the weighted sum of the first ten digits plus the last digit
    /// is divisible by ten.
    fn validate_checksum(input: &str) -> (r: bool)
        requires
            input@.len() == PESEL_LEN,
            all_digits(input@),
        ensures
            r == checksum_holds(input@),
    {
        let weights: [u32; 10] = [1, 3, 7, 9, 1, 3, 7, 9, 1, 3];
        assert(forall|j: int| 0 <= j < 10 ==> weights@[j] as int == #[trigger] checksum_weights()[j]);
        assert(forall|j: int| 0 <= j < 10 ==> #[trigger] weights@[j] <= 9);
        let mut partial_sum: u32 = 0;
        let mut i: usize = 0;
        while i < 10
            invariant
                input@.len() == PESEL_LEN,
                all_digits(input@),
                forall|j: int| 0 <= j < 10 ==> weights@[j] as int == #[trigger] checksum_weights()[j],
                forall|j: int| 0 <= j < 10 ==> #[trigger] weights@[j] <= 9,
                i <= 10,
                partial_sum as int == weighted_sum(input@, i as int),
                partial_sum <= 81 * i,
            decreases 10 - i,
        {
            let d = Pesel::digit_at(input, i);
            proof {
                assert(weights@[i as int] * d <= 81) by (nonlinear_arith)
                    requires
                        weights@[i as int] <= 9,
                        d <= 9,
                ;
            }
            partial_sum = partial_sum + weights[i] * d;
            i = i + 1;
        }
        let checksum: u32 = partial_sum + Pesel::digit_at(input, 10);
        checksum % 10 == 0
    }

    /// The value of the digit at position `i` of `input`.
    fn digit_at(input: &str, i: usize) -> (r: u32)
        requires
            i < input@.len(),
            all_digits(input@),
        ensures
            r as int == digit_value(input@[i as int]),
            r <= 9,
    {
        let c = input.get_char(i);
        (c as u32) - ('0' as u32)
    }

    /// The number written in decimal by the digits of `digits`.
    fn parse_decimal(digits: &str) -> (r: u32)
        requires
            all_digits(digits@),
            decimal_value(digits@) <= u32::MAX,
        ensures
            r as int == decimal_value(digits@),
    {
        let n = digits.unicode_len();
        let mut value: u32 = 0;
        let mut i: usize = 0;
        while i < n
            invariant
                n == digits@.len(),
                all_digits(digits@),
                decimal_value(digits@) <= u32::MAX,
                i <= n,
                value as int == decimal_value(digits@.subrange(0, i as int)),
            decreases n - i,
        {
            let d = Pesel::digit_at(digits, i);
            proof {
                let prefix = digits@.subrange(0, i as int + 1);
                assert(prefix.drop_last() =~= digits@.subrange(0, i as int));
                lemma_prefix_value_bounded(digits@, i as int + 1);
            }
            value = 10 * value + d;
            i = i + 1;
        }
        assert(digits@.subrange(0, n as int) =~= digits@);
        value
    }

    /// The first year of the century that the month field selects, if any.
    fn get_century(encoded_month: &str) -> (r: Option<i32>)
        requires
            encoded_month@.len() > 0,
            all_digits(encoded_month@),
            decimal_value(encoded_month@) <= u32::MAX,
        ensures
            r matches Some(c) ==> century_of_band(decimal_value(encoded_month@) / 20)
                == Some(c as int),
            r is None ==> century_of_band(decimal_value(encoded_month@) / 20) is None,
    {
        let century_number: u32 = Pesel::parse_decimal(encoded_month);
        match century_number / 20 {
            0 => Some(1900),
            1 => Some(2000),
            2 => Some(2100),
            3 => Some(2200),
            4 => Some(1800),
            _ => None,
        }
    }

    /// The birth year: the century's first year plus the year field.
    fn get_year(epoch: i32, encoded_year: &str) -> (r: i32)
        requires
            encoded_year@.len() > 0,
            all_digits(encoded_year@),
            decimal_value(encoded_year@) <= i32::MAX,
            i32::MIN <= epoch + decimal_value(encoded_year@) <= i32::MAX,
        ensures
            r as int == epoch + decimal_value(encoded_year@),
    {
        let year_part = Pesel::parse_decimal(encoded_year) as i32;
        epoch + year_part
    }

    /// The birth month: the month field without its century band.
    fn get_month(encoded_month: &str) -> (r: u32)
        requires
            encoded_month@.len() > 0,
            all_digits(encoded_month@),
            decimal_value(encoded_month@) <= u32::MAX,
        ensures
            r as int == decimal_value(encoded_month@) % 20,
            r < 20,
    {
        let month: u32 = Pesel::parse_decimal(encoded_month);
        month % 20
    }

    /// Whether the year, month and day fields, with the century that the
    /// month field selects, name a real calendar day.
    fn validate_date(input: &str) -> (r: bool)
        requires
            input@.len() >= 6,
            forall|i: int| 0 <= i < 6 ==> is_decimal_digit(#[trigger] input@[i]),
        ensures
            r == encoded_date_is_real(input@),
    {
        let encoded_year = input.substring_char(0, 2);
        let encoded_month = input.substring_char(2, 4);
        let encoded_day = input.substring_char(4, 6);
        proof {
            assert(all_digits(encoded_year@));
            assert(all_digits(encoded_month@));
            assert(all_digits(encoded_day@));
            lemma_two_digit_value(encoded_year@);
            lemma_two_digit_value(encoded_month@);
            lemma_two_digit_value(encoded_day@);
            assert(two_digit_number(encoded_year@, 0) == two_digit_number(input@, 0));
            assert(two_digit_number(encoded_month@, 0) == two_digit_number(input@, 2));
            assert(two_digit_number(encoded_day@, 0) == two_digit_number(input@, 4));
        }

        let century: i32;
        match Pesel::get_century(encoded_month) {
            Some(e) => century = e,
            None => return false,
        };

        let year = Pesel::get_year(century, encoded_year);
        let month = Pesel::get_month(encoded_month);
        let day: u32 = Pesel::parse_decimal(encoded_day);

        calendar_date_exists(year, month, day)
    }
}

impl std::str::FromStr for Pesel {
    type Err = ParseError;

    fn from_str(input: &str) -> (r: Result<Self, Self::Err>)
        ensures
            r is Ok <==> is_valid_pesel(input@),
            r matches Ok(p) ==> p@ == input@,
            r matches Err(e) ==> e == ParseError::InvalidFormat,
    {
        Pesel::parse(input)
    }
}

/// Every string whose length is not eleven characters is rejected.
pub proof fn lemma_wrong_length_rejected(s: Seq<char>)
    requires
        s.len() != PESEL_LEN,
    ensures
        !is_valid_pesel(s),
{
}

/// Every eleven-character string holding a character that is not a decimal
/// digit is rejected.
pub proof fn lemma_non_digit_rejected(s: Seq<char>, i: int)
    requires
        s.len() == PESEL_LEN,
        0 <= i < s.len(),
        !is_decimal_digit(s[i]),
    ensures
        !is_valid_pesel(s),
{
}

/// Every eleven-digit string whose century band, month and day do not decode
/// to a real calendar day is rejected.
pub proof fn lemma_unreal_date_rejected(s: Seq<char>)
    requires
        s.len() == PESEL_LEN,
        all_digits(s),
        !encoded_date_is_real(s),
    ensures
        !is_valid_pesel(s),
{
}

/// Every eleven-digit string with a real encoded date, whose weighted sum
/// plus last digit is not divisible by ten, is rejected.
pub proof fn lemma_bad_checksum_rejected(s: Seq<char>)
    requires
        s.len() == PESEL_LEN,
        all_digits(s),
        encoded_date_is_real(s),
        checksum_total(s) % 10 != 0,
    ensures
        !is_valid_pesel(s),
{
}

/// The verdict depends on the characters of the candidate alone: validating
/// the same candidate twice gives the same answer.
pub proof fn lemma_verdict_is_deterministic(s: Seq<char>, t: Seq<char>)
    requires
        s == t,
    ensures
        is_valid_pesel(s) == is_valid_pesel(t),
{
}

} // verus!
