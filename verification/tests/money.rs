use isms_core::amount::{credits, credits_to_cents};
use isms_core::money::Money;

#[test]
fn display_is_credits_with_two_decimals() {
    assert_eq!(Money(104_119).to_string(), "1041.19");
    assert_eq!(Money(-5).to_string(), "-0.05");
    assert_eq!(Money::zero().to_string(), "0.00");
}

#[test]
fn credits_round_trip() {
    assert_eq!(credits_to_cents("1.30").unwrap(), 130);
    assert_eq!(credits_to_cents("8").unwrap(), 800);
    assert_eq!(credits_to_cents("0.5").unwrap(), 50);
    assert_eq!(credits(130), "1.30");
    assert_eq!(credits(-5), "0.05");
    assert!(credits_to_cents("x").is_err());
}

#[test]
fn amounts_are_trimmed_and_cut_to_two_places() {
    assert_eq!(credits_to_cents("  12.345 ").unwrap(), 1234);
    assert_eq!(credits_to_cents("-3.25").unwrap(), -275);
    assert_eq!(credits_to_cents("7.").unwrap(), 700);
    assert!(credits_to_cents("").is_err());
    assert!(credits_to_cents("1.x").is_err());
    assert_eq!(credits_to_cents(" q ").unwrap_err().message, "not an amount in credits: q");
}

#[test]
fn negative_amounts_show_their_sign_past_a_credit() {
    assert_eq!(credits(-150), "-1.50");
    assert_eq!(credits(0), "0.00");
    assert_eq!(Money(-150).to_string(), "-1.50");
    assert_eq!(Money(7).to_string(), "0.07");
}

#[test]
fn money_helpers() {
    assert_eq!(Money::credits(12), Money(1200));
    assert_eq!(Money::cents(-3).max_zero(), Money(0));
    assert_eq!(Money(9).max_zero(), Money(9));
    assert!(Money(-1).is_negative());
    assert!(!Money(0).is_negative());
}

#[test]
fn printed_cents_read_back_as_the_same_cents() {
    for c in [0i64, 5, 99, 100, 130, 104_119, 1_000_000_007, i64::MAX] {
        assert_eq!(credits_to_cents(&credits(c)).unwrap(), c);
    }
}
