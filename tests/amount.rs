use cex_orderbook_agg::amount::parse_amount;

fn units(s: &str) -> Option<u64> {
    parse_amount(s).map(|a| a.units)
}

#[test]
fn parse_fractions() {
    assert_eq!(units("0.06339"), Some(6_339_000));
    assert_eq!(units("0.06325351"), Some(6_325_351));
    assert_eq!(units("74.5795"), Some(7_457_950_000));
    assert_eq!(units("0.7"), Some(70_000_000));
}

#[test]
fn parse_whole_numbers() {
    assert_eq!(units("0"), Some(0));
    assert_eq!(units("12"), Some(1_200_000_000));
    assert_eq!(units("184467440737"), Some(18_446_744_073_700_000_000));
}

#[test]
fn parse_rejects_malformed() {
    for s in ["", ".", "1.", ".5", "-1", "+1", "1e5", "1.2.3", "abc", "NaN", " 1", "0.123456789"] {
        assert_eq!(units(s), None, "{}", s);
    }
}

#[test]
fn parse_rejects_too_large() {
    assert_eq!(units("184467440738"), None);
    assert_eq!(units("99999999999999999999999"), None);
    assert_eq!(units("184467440737.09551615"), Some(u64::MAX));
    assert_eq!(units("184467440737.09551616"), None);
}
