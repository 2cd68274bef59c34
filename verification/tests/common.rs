use datacollect::common::{has_hidden_word, parse_dollars, Currency, IgnoreComma, Money, ParseFailure};

fn roughly_equal(a: f64, b: f64) -> bool {
    if a == b {
        true
    } else if ((a > 0.0) && (b < 0.0)) || ((a < 0.0) && (b > 0.0)) {
        false
    } else if ((a == 0.0) && (b != 0.0)) || ((a != 0.0) && (b == 0.0)) {
        false
    } else {
        let dif = |x: f64, y: f64| (x.abs().ln() - y.abs().ln()).abs();
        dif(a, b) <= dif(1.0, 1.00001)
    }
}

fn as_float(text: &str) -> Option<f64> {
    parse_dollars(text).map(|a| a.to_text().parse::<f64>().unwrap())
}

#[test]
fn test_roughly_equal() {
    assert!(roughly_equal(0.0, 0.0));
    assert!(roughly_equal(0.02, 0.02));
    assert!(roughly_equal(0.02, 0.02000001));
    assert!(roughly_equal(0.1 + 0.2, 0.3));
    assert!(roughly_equal(0.1 - 0.2, 0.2 - 0.3));
    assert!(roughly_equal(4000000.0, 4000000.2));
    assert!(roughly_equal(-4000000.0, -4000000.2));

    assert!(!roughly_equal(0.02, 0.03));
    assert!(!roughly_equal(0.00002, 0.00003));
    assert!(!roughly_equal(0.0, 0.00003));
    assert!(!roughly_equal(0.00002, 0.00003));
    assert!(!roughly_equal(1000.0, 1001.0));
    assert!(!roughly_equal(2.0, -2.0));
}

#[test]
fn common_test_roughly_equal() {
    assert!(roughly_equal(0.0, 0.0));
    assert!(roughly_equal(0.02, 0.02));
    assert!(roughly_equal(0.02, 0.02000001));
    assert!(roughly_equal(0.1 + 0.2, 0.3));
    assert!(roughly_equal(0.1 - 0.2, 0.2 - 0.3));
    assert!(roughly_equal(4000000.0, 4000000.2));
    assert!(roughly_equal(-4000000.0, -4000000.2));

    assert!(!roughly_equal(0.02, 0.03));
    assert!(!roughly_equal(0.00002, 0.00003));
    assert!(!roughly_equal(0.0, 0.00003));
    assert!(!roughly_equal(0.00002, 0.00003));
    assert!(!roughly_equal(1000.0, 1001.0));
    assert!(!roughly_equal(2.0, -2.0));
}

#[test]
fn test_parse_dollars() {
    assert_eq!(as_float("$312.04").unwrap(), 312.04);
    assert_eq!(as_float("8.8.4.4"), None);
    assert_eq!(as_float("42").unwrap(), 42.00);
    assert_eq!(as_float("$42.567").unwrap(), 42.567);
}

#[test]
fn common_test_parse_dollars() {
    assert_eq!(as_float("$312.04").unwrap(), 312.04);
    assert_eq!(as_float("8.8.4.4"), None);
    assert_eq!(as_float("42").unwrap(), 42.00);
    assert_eq!(as_float("$42.567").unwrap(), 42.567);
}

#[test]
fn test_has_hidden_word() {
    assert_eq!(has_hidden_word("cookie", "cooOOOkie"), true);
    assert_eq!(has_hidden_word("cookie", "cookie"), true);
    assert_eq!(has_hidden_word("cookie", "423TGRcoAFoGRkHiDSDGRTe"), true);
    assert_eq!(
        has_hidden_word("baking cookies", "some cookie baking"),
        false
    );
    assert_eq!(has_hidden_word("candy canes", "candy"), false);
}

#[test]
fn hidden_word_in_obfuscated_label() {
    assert!(has_hidden_word("Sponsored", "ddSQpOonhsortied"));
    assert!(!has_hidden_word("Sponsored", "ddSQpOonhsortie"));
    assert!(has_hidden_word("", ""));
    assert!(has_hidden_word("", "anything"));
    assert!(!has_hidden_word("a", ""));
}

#[test]
fn hidden_word_counts_characters_not_bytes() {
    assert!(has_hidden_word("é", "é"));
    assert!(has_hidden_word("née", "n-é-e"));
    assert!(!has_hidden_word("é", "e"));
}

#[test]
fn parse_dollars_keeps_every_digit() {
    assert_eq!(parse_dollars("$312.03").unwrap().to_text(), "312.03");
    assert_eq!(parse_dollars("312.009").unwrap().to_text(), "312.009");
    assert_eq!(parse_dollars("312").unwrap().to_text(), "312");
    assert_eq!(parse_dollars("13,096,340.3").unwrap().to_text(), "13096340.3");
    assert_eq!(parse_dollars("5.").unwrap().to_text(), "5");
    assert_eq!(parse_dollars(".5").unwrap().to_text(), "0.5");
}

#[test]
fn parse_dollars_rejects_what_is_no_number() {
    assert!(parse_dollars("").is_none());
    assert!(parse_dollars(".").is_none());
    assert!(parse_dollars("$").is_none());
    assert!(parse_dollars("8.8.4.4").is_none());
    assert!(parse_dollars("1..2").is_none());
    assert!(parse_dollars("¾").is_none());
    assert!(parse_dollars("٣").is_none());
}

#[test]
fn cents_cut_after_two_digits() {
    assert_eq!(parse_dollars("$312.04").unwrap().cents(), Some(31204));
    assert_eq!(parse_dollars("$42.567").unwrap().cents(), Some(4256));
    assert_eq!(parse_dollars("42").unwrap().cents(), Some(4200));
    assert_eq!(parse_dollars("42.5").unwrap().cents(), Some(4250));
    assert_eq!(parse_dollars(".5").unwrap().cents(), Some(50));
    assert_eq!(parse_dollars("0.00").unwrap().cents(), Some(0));
    assert_eq!(
        parse_dollars("184467440737095516.15").unwrap().cents(),
        Some(u64::MAX)
    );
    assert_eq!(parse_dollars("184467440737095516.16").unwrap().cents(), None);
    assert_eq!(parse_dollars("99999999999999999999999").unwrap().cents(), None);
}

#[test]
fn hundredth_moves_the_point() {
    assert_eq!(parse_dollars("98.7").unwrap().hundredth().to_text(), "0.987");
    assert_eq!(parse_dollars("100").unwrap().hundredth().to_text(), "1.00");
    assert_eq!(parse_dollars("5").unwrap().hundredth().to_text(), "0.05");
    assert_eq!(parse_dollars(".5").unwrap().hundredth().to_text(), "0.005");
    assert_eq!(parse_dollars("1234.5").unwrap().hundredth().to_text(), "12.345");
}

#[test]
fn currency_from_abbreviation() {
    assert_eq!(Currency::from_abbreviation("USD"), Some(Currency::USD));
    assert_eq!(Currency::from_abbreviation("usd"), Some(Currency::USD));
    assert_eq!(Currency::from_abbreviation("US $"), Some(Currency::USD));
    assert_eq!(Currency::from_abbreviation("$"), Some(Currency::USD));
    assert_eq!(Currency::from_abbreviation(""), Some(Currency::USD));
    assert_eq!(Currency::from_abbreviation("U.S.D."), Some(Currency::USD));
    assert_eq!(Currency::from_abbreviation("EUR"), None);
    assert_eq!(Currency::from_abbreviation("u"), None);
    assert_eq!(Currency::from_abbreviation("usdx"), None);
}

#[test]
fn currency_from_price() {
    assert_eq!(Currency::from_price("$312.03"), Some(Currency::USD));
    assert_eq!(Currency::from_price("US $312.03"), Some(Currency::USD));
    assert_eq!(Currency::from_price("312.03 usd"), Some(Currency::USD));
    assert_eq!(Currency::from_price("EUR 5 USD"), Some(Currency::USD));
    assert_eq!(Currency::from_price("312"), None);
    assert_eq!(Currency::from_price(""), None);
    assert_eq!(Currency::from_price("EUR 5"), None);
}

#[test]
fn currency_from_str_and_to_string() {
    assert_eq!(Currency::from_str("usd"), Ok(Currency::USD));
    assert_eq!(Currency::from_str("yen"), Err(ParseFailure::NoSuchAbbreviation));
    assert_eq!(Currency::USD.to_string(), "USD");
}

#[test]
fn money_from_str() {
    let m = Money::from_str("US $312.03").unwrap();
    assert_eq!(m.currency, Currency::USD);
    assert_eq!(m.amount.to_text(), "312.03");
    let m = Money::from_str("  about 12 dollars").unwrap();
    assert_eq!(m.amount.to_text(), "12");
    let m = Money::from_str("1.5 2.5").unwrap();
    assert_eq!(m.amount.to_text(), "1.5");
    assert_eq!(Money::from_str("free").err(), Some(ParseFailure::NoAmount));
    assert_eq!(Money::from_str("").err(), Some(ParseFailure::NoAmount));
    assert_eq!(Money::from_str("8.8.4.4").err(), Some(ParseFailure::NoAmount));
}

#[test]
fn money_round_trip() {
    for text in ["$312.04", "42", "0.5", ".5", "US $1,234.50", "7."] {
        let m = Money::from_str(text).unwrap();
        let again = Money::from_str(&m.to_text()).unwrap();
        assert_eq!(again.currency, m.currency);
        assert_eq!(again.amount.cents(), m.amount.cents());
        assert_eq!(again.to_text(), m.to_text());
    }
    assert_eq!(Money::from_str("$312.04").unwrap().to_text(), "USD 312.04");
}

#[test]
fn ignore_comma() {
    assert_eq!(IgnoreComma::strip("13,096,340.3"), "13096340.3");
    assert_eq!(IgnoreComma::strip(",,"), "");
    assert_eq!(IgnoreComma::strip("none"), "none");
    let m = IgnoreComma::money("13,096,340.3").unwrap();
    assert_eq!(m.amount.to_text(), "13096340.3");
}
