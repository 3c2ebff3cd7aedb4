use hlpll_backtester::constants::{
    BILLIONTH, EIGHT, EQUITY_MARGIN_HIGH, EQUITY_MARGIN_LOW, FIFTEEN, FIFTEEN_HUNDREDTHS, FIFTH,
    FIFTY, FIFTY_FIVE_HUNDREDTHS, FIVE, FIVE_HUNDREDTHS, FORTY_FIVE, FOUR_AND_HALF, FOUR_TENTHS,
    HALF, HUNDRED, HUNDREDTH, HUNDRED_FIVE_HUNDREDTHS, HUNDRED_MILLIONTH, MILLIONTH, MINUS_FOUR_TENTHS,
    MINUS_HALF, MINUS_HUNDREDTH, MINUS_ONE, MINUS_THREE_TENTHS, MINUS_TWO, MINUS_TWO_HUNDREDTHS,
    NEGATIVE_INFINITY, NINETY_FIVE_HUNDREDTHS, NINE_TENTHS, POSITIVE_INFINITY, PRICE_MARGIN_HIGH,
    PRICE_MARGIN_LOW, SEVENTY_FIVE, SEVEN_TENTHS, SIXTY_FIVE_HUNDREDTHS, SIX_TENTHS, TEN, TENTH,
    TEN_THOUSAND, THIRTEEN, THIRTY, THOUSAND, THREE_TENTHS, TRADING_DAYS, TRILLIONTH, TWELVE, TWENTY,
    TWO, TWO_HUNDREDTHS, ZERO,
};
use hlpll_backtester::binary64::ONE_BITS;

#[test]
fn constants_hold_the_numbers_they_name() {
    let table: Vec<(u64, f64)> = vec![
        (ZERO, 0.0),
        (ONE_BITS, 1.0),
        (MINUS_ONE, -1.0),
        (TWO, 2.0),
        (MINUS_TWO, -2.0),
        (HALF, 0.5),
        (MINUS_HALF, -0.5),
        (TENTH, 0.1),
        (FIFTH, 0.2),
        (THREE_TENTHS, 0.3),
        (MINUS_THREE_TENTHS, -0.3),
        (FOUR_TENTHS, 0.4),
        (MINUS_FOUR_TENTHS, -0.4),
        (SIX_TENTHS, 0.6),
        (SEVEN_TENTHS, 0.7),
        (NINE_TENTHS, 0.9),
        (FIFTEEN_HUNDREDTHS, 0.15),
        (FIFTY_FIVE_HUNDREDTHS, 0.55),
        (SIXTY_FIVE_HUNDREDTHS, 0.65),
        (HUNDREDTH, 0.01),
        (MINUS_HUNDREDTH, -0.01),
        (TWO_HUNDREDTHS, 0.02),
        (MINUS_TWO_HUNDREDTHS, -0.02),
        (FIVE_HUNDREDTHS, 0.05),
        (MILLIONTH, 1e-6),
        (HUNDRED_MILLIONTH, 1e-8),
        (BILLIONTH, 1e-9),
        (TRILLIONTH, 1e-12),
        (FOUR_AND_HALF, 4.5),
        (FIVE, 5.0),
        (EIGHT, 8.0),
        (TEN, 10.0),
        (TWELVE, 12.0),
        (THIRTEEN, 13.0),
        (FIFTEEN, 15.0),
        (TWENTY, 20.0),
        (THIRTY, 30.0),
        (FORTY_FIVE, 45.0),
        (FIFTY, 50.0),
        (SEVENTY_FIVE, 75.0),
        (HUNDRED, 100.0),
        (TRADING_DAYS, 252.0),
        (THOUSAND, 1000.0),
        (TEN_THOUSAND, 10000.0),
        (NINETY_FIVE_HUNDREDTHS, 0.95),
        (HUNDRED_FIVE_HUNDREDTHS, 1.05),
        (PRICE_MARGIN_LOW, 0.995),
        (PRICE_MARGIN_HIGH, 1.005),
        (EQUITY_MARGIN_LOW, 0.99),
        (EQUITY_MARGIN_HIGH, 1.01),
        (POSITIVE_INFINITY, f64::INFINITY),
        (NEGATIVE_INFINITY, f64::NEG_INFINITY),
    ];
    for (bits, x) in table {
        assert_eq!(bits, x.to_bits(), "{}", x);
    }
}
