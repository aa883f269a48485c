use donations::money::{parse_money, progress_percent, Money, Percent};

#[test]
fn parse_round_trip_grouped_decimal() {
    let m = parse_money("$1,234.56");
    assert_eq!(m, Money { mantissa: 123456, scale: 2 });
    assert_eq!(m.mantissa as f64 / 100.0, 1234.56);
}

#[test]
fn parse_empty_is_zero() {
    assert_eq!(parse_money(""), Money { mantissa: 0, scale: 0 });
}

#[test]
fn parse_word_is_zero() {
    assert_eq!(parse_money("free"), Money { mantissa: 0, scale: 0 });
}

#[test]
fn parse_no_digit_is_zero() {
    assert_eq!(parse_money("$"), Money { mantissa: 0, scale: 0 });
    assert_eq!(parse_money("$,"), Money { mantissa: 0, scale: 0 });
    assert_eq!(parse_money("..."), Money { mantissa: 0, scale: 0 });
}

#[test]
fn parse_negative_text_is_zero() {
    assert_eq!(parse_money("-3"), Money { mantissa: 0, scale: 0 });
    assert_eq!(parse_money("$-3"), Money { mantissa: 0, scale: 0 });
}

#[test]
fn parse_inner_space_is_zero() {
    assert_eq!(parse_money("$ 500"), Money { mantissa: 0, scale: 0 });
}

#[test]
fn parse_plain_integer() {
    assert_eq!(parse_money("$500"), Money { mantissa: 500, scale: 0 });
    assert_eq!(parse_money("500"), Money { mantissa: 500, scale: 0 });
}

#[test]
fn parse_fraction_forms() {
    assert_eq!(parse_money("12.34"), Money { mantissa: 1234, scale: 2 });
    assert_eq!(parse_money("0.5"), Money { mantissa: 5, scale: 1 });
    assert_eq!(parse_money(".5"), Money { mantissa: 5, scale: 1 });
    assert_eq!(parse_money("5."), Money { mantissa: 5, scale: 0 });
}

#[test]
fn parse_two_dots_is_zero() {
    assert_eq!(parse_money("1.2.3"), Money { mantissa: 0, scale: 0 });
}

#[test]
fn parse_commas_stripped_anywhere() {
    assert_eq!(parse_money("1,2,3"), Money { mantissa: 123, scale: 0 });
    assert_eq!(parse_money("$1,000"), Money { mantissa: 1000, scale: 0 });
}

#[test]
fn parse_mantissa_overflow_is_zero() {
    assert_eq!(
        parse_money("$99,999,999,999,999,999,999,999"),
        Money { mantissa: 0, scale: 0 }
    );
}

#[test]
fn progress_quarter() {
    let p = progress_percent(
        Money { mantissa: 250, scale: 0 },
        Money { mantissa: 1000, scale: 0 },
    );
    assert_eq!(p, Percent { num: 25000, den: 1000 });
    assert_eq!(p.num as f64 / p.den as f64, 25.0);
}

#[test]
fn progress_zero_goal_is_zero() {
    let p = progress_percent(
        Money { mantissa: 250, scale: 0 },
        Money { mantissa: 0, scale: 0 },
    );
    assert_eq!(p, Percent { num: 0, den: 1 });
}

#[test]
fn progress_zero_raised_is_zero() {
    let p = progress_percent(
        Money { mantissa: 0, scale: 0 },
        Money { mantissa: 1000, scale: 0 },
    );
    assert_eq!(p, Percent { num: 0, den: 1 });
}

#[test]
fn progress_overflowing_fraction_is_zero() {
    // The numerator u64::MAX * 100 * 10^19 exceeds 128 bits.
    let p = progress_percent(
        Money { mantissa: u64::MAX, scale: 0 },
        Money { mantissa: 1, scale: 19 },
    );
    assert_eq!(p, Percent { num: 0, den: 1 });
}

#[test]
fn progress_mixed_scales_exact() {
    // $1,234.56 of $2,000: 61.728 percent, exactly.
    let p = progress_percent(
        Money { mantissa: 123456, scale: 2 },
        Money { mantissa: 2000, scale: 0 },
    );
    assert_eq!(p, Percent { num: 12345600, den: 200000 });
    assert_eq!(p.num * 1000, p.den * 61728);
}
