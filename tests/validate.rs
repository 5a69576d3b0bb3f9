use pesel::{ParseError, Pesel};

#[test]
fn validates_true_pesel() {
    let result = Pesel::validate("02070803628");
    assert_eq!(result, true);
}

#[test]
fn rejects_if_too_short() {
    let result = Pesel::validate("123");
    assert_eq!(result, false);
}

#[test]
fn rejects_if_letters_present() {
    let result = Pesel::validate("notapesel");
    assert_eq!(result, false);
}

#[test]
fn rejects_if_wrong_checksum() {
    let result = Pesel::validate("02070803629");
    assert_eq!(result, false);
}

#[test]
fn rejects_if_wrong_encoded_date() {
    let result = Pesel::validate("02130803629");
    assert_eq!(result, false);
}

#[test]
fn rejects_empty_string() {
    assert!(!Pesel::validate(""));
}

#[test]
fn rejects_too_long() {
    assert!(!Pesel::validate("020708036280"));
}

#[test]
fn rejects_eleven_chars_with_letter() {
    assert!(!Pesel::validate("0207080362a"));
}

#[test]
fn rejects_eleven_non_ascii_digits() {
    // Eleven characters, but Arabic-Indic digits are not decimal digits 0-9.
    assert!(!Pesel::validate("٠٢٠٧٠٨٠٣٦٢٨"));
}

#[test]
fn rejects_month_field_past_last_band() {
    // Month field 99 selects the 1800s band and leaves month 19: no such month.
    assert!(!Pesel::validate("02990803627"));
}

#[test]
fn accepts_each_century_band() {
    // 2000s (band 1), 1800s (band 4), 1900s (band 0), 2100s (band 2), 2200s (band 3).
    assert!(Pesel::validate("02270803624"));
    assert!(Pesel::validate("02870803622"));
    assert!(Pesel::validate("02070803628"));
    assert!(Pesel::validate("02470803620"));
    assert!(Pesel::validate("02670803626"));
}

#[test]
fn leap_day_follows_gregorian_rules() {
    // 2000-02-29 exists (divisible by 400).
    assert!(Pesel::validate("00222900009"));
    // 1900-02-29 does not (century not divisible by 400).
    assert!(!Pesel::validate("00022900003"));
    // 2001-02-29 does not.
    assert!(!Pesel::validate("01222900006"));
    // 2004-02-29 exists.
    assert!(Pesel::validate("04222900007"));
}

#[test]
fn rejects_day_zero_and_day_past_month_end() {
    assert!(!Pesel::validate("02070003622"));
    assert!(!Pesel::validate("02043103623"));
}

#[test]
fn every_wrong_check_digit_is_rejected() {
    for d in 0..10u8 {
        let s = format!("0207080362{}", d);
        assert_eq!(Pesel::validate(&s), d == 8);
    }
}

#[test]
fn validate_twice_gives_same_answer() {
    for s in ["02070803628", "02070803629", "123", ""] {
        assert_eq!(Pesel::validate(s), Pesel::validate(s));
    }
}

#[test]
fn parse_keeps_valid_input() {
    let p = Pesel::parse("02070803628").unwrap();
    assert_eq!(p.as_str(), "02070803628");
    let q: Pesel = "02070803628".parse().unwrap();
    assert_eq!(p, q.clone());
}

#[test]
fn parse_rejects_invalid_input() {
    assert_eq!(Pesel::parse("02070803629"), Err(ParseError::InvalidFormat));
    assert_eq!(Pesel::parse(""), Err(ParseError::InvalidFormat));
    let r: Result<Pesel, ParseError> = "notapesel".parse();
    assert_eq!(r, Err(ParseError::InvalidFormat));
}
