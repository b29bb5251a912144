use getprice::decimal::Decimal;

fn dec(text: &str) -> Decimal {
    Decimal::parse(text).unwrap()
}

#[test]
fn numerals_are_read_and_written() {
    assert_eq!(dec("2000.00").text(), "2000.00");
    assert_eq!(dec("-0.5").text(), "-0.5");
    assert_eq!(dec(".5").text(), "0.5");
    assert_eq!(dec("5.").text(), "5");
    assert_eq!(dec("+12").text(), "12");
    assert_eq!(dec("1.234e-5").text(), "0.00001234");
    assert_eq!(dec("1.5E3").text(), "1500");
    assert_eq!(dec("1.25e1").text(), "12.5");
    assert_eq!(dec("-0").text(), "0");
    assert_eq!(dec("007").text(), "7");
}

#[test]
fn what_is_no_numeral_is_refused() {
    for text in ["", ".", "+", "-", "e5", "1e", "1e+", "abc", "1.2.3", "1 ", " 1", "inf", "NaN", "1e1000", "0x10"] {
        assert!(Decimal::parse(text).is_none(), "{:?}", text);
    }
}

#[test]
fn products_and_sums_are_exact() {
    assert_eq!(dec("2000.00").times(&dec("3.14")).text(), "6280.0000");
    assert_eq!(dec("0.1").plus(&dec("0.2")).text(), "0.3");
    assert_eq!(dec("1.5").plus(&dec("-2.25")).text(), "-0.75");
    assert_eq!(dec("-1.5").plus(&dec("2.25")).text(), "0.75");
    assert_eq!(dec("-3").times(&dec("-0.5")).text(), "1.5");
    assert_eq!(
        dec("123456789012345678901234567890").times(&dec("98765432109876543210")).text(),
        "12193263113702179522496570642237463801111263526900"
    );
}

#[test]
fn rounding_goes_half_away_from_zero() {
    assert_eq!(dec("1.005").round(2).text(), "1.01");
    assert_eq!(dec("1.004999").round(2).text(), "1.00");
    assert_eq!(dec("-1.005").round(2).text(), "-1.01");
    assert_eq!(dec("-0.004").round(2).text(), "0.00");
    assert_eq!(dec("9.995").round(2).text(), "10.00");
    assert_eq!(dec("3").round(2).text(), "3.00");
    assert_eq!(dec("0.5").round(0).text(), "1");
    assert_eq!(dec("0.49").round(0).text(), "0");
}

#[test]
fn whole_numbers_and_signs() {
    assert_eq!(Decimal::whole(0).text(), "0");
    assert_eq!(Decimal::whole(7).text(), "7");
    assert_eq!(Decimal::whole(1234567890).text(), "1234567890");
    assert_eq!(Decimal::zero().text(), "0");
    assert_eq!(Decimal::one().text(), "1");
    assert!(Decimal::one().is_positive());
    assert!(!Decimal::zero().is_positive());
    assert!(!dec("-0.00").is_positive());
    assert!(!dec("-0.01").is_positive());
    assert!(dec("0.0001").is_positive());
    assert_eq!(dec("-12.50").copy().text(), "-12.50");
    assert_eq!(dec("-12.50").clone().text(), "-12.50");
    assert_eq!(Decimal::zero().plus(&dec("1.25")).text(), "1.25");
    assert_eq!(dec("2.5").plus(&dec("-2.50")).text(), "0.00");
    assert_eq!(dec("0").times(&dec("-5")).text(), "0");
    assert_eq!(dec("1e999").text().len(), 1000);
    assert_eq!(dec("1e-999").text().len(), 1001);
}

#[test]
fn what_is_written_reads_back() {
    for text in ["0", "7", "-7", "0.5", "-0.05", "12345678901234567890.000000000000000001", "100", "0.00"] {
        assert_eq!(dec(text).text(), text);
        assert_eq!(dec(&dec(text).times(&dec("-1.5")).text()).text(), dec(text).times(&dec("-1.5")).text());
    }
}
