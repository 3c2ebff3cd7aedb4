//! The numbers that the constants stand for.

use crate::accuracy;
use crate::binary64;
use crate::binary64::{Real, ONE_BITS};
use crate::constants::{
    BILLIONTH, EIGHT, EQUITY_MARGIN_HIGH, EQUITY_MARGIN_LOW, FIFTEEN, FIFTEEN_HUNDREDTHS, FIFTH,
    FIFTY, FIFTY_FIVE_HUNDREDTHS, FIVE, FIVE_HUNDREDTHS, FORTY_FIVE, FOUR_AND_HALF, FOUR_TENTHS,
    HALF, HUNDRED, HUNDREDTH, HUNDRED_FIVE_HUNDREDTHS, HUNDRED_MILLIONTH, MILLIONTH,
    MINUS_FOUR_TENTHS, MINUS_HALF, MINUS_HUNDREDTH, MINUS_ONE, MINUS_THREE_TENTHS, MINUS_TWO,
    MINUS_TWO_HUNDREDTHS, NINETY_FIVE_HUNDREDTHS, NINE_TENTHS, PRICE_MARGIN_HIGH,
    PRICE_MARGIN_LOW, SEVENTY_FIVE, SEVEN_TENTHS, SIXTY_FIVE_HUNDREDTHS, SIX_TENTHS, TEN, TENTH,
    TEN_THOUSAND, THIRTEEN, THIRTY, THOUSAND, THREE_TENTHS, TRADING_DAYS, TRILLIONTH, TWELVE,
    TWENTY, TWO, TWO_HUNDREDTHS, ZERO,
};
use vstd::arithmetic::power2::*;
use vstd::prelude::*;

verus! {

/// No number is nearer to `num` / `den` than `x`: it is off by half of its last place at
/// most.
pub open spec fn is_nearest(x: Real, num: int, den: int) -> bool {
    &&& x.finite()
    &&& 2 * accuracy::apart(x.value() * den, num * binary64::one_in_units()) <= den * pow2(
        binary64::field_scale(x.field()),
    )
}

proof fn lemma_nearest(x: Real, num: int, den: int, scale: nat, gap: nat, lift: int)
    requires
        x.finite(),
        den > 0,
        binary64::field_scale(x.field()) == scale,
        scale + gap == 1074,
        pow2(gap) == lift,
        ({
            let s = binary64::field_significand(x.field()) as int;
            let v = if x.negative() {
                -s
            } else {
                s
            };
            2 * accuracy::apart(v * den, num * lift) <= den
        }),
    ensures
        is_nearest(x, num, den),
{
    let s = binary64::field_significand(x.field()) as int;
    let v = if x.negative() {
        -s
    } else {
        s
    };
    let p = pow2(scale) as int;
    lemma_pow2_pos(scale);
    lemma_pow2_adds(scale, gap);
    let one = binary64::one_in_units() as int;
    assert((-s) * p == -(s * p)) by (nonlinear_arith);
    assert(x.value() == v * p);
    let (a, c) = (v * den, num * lift);
    assert(x.value() * den == a * p) by (nonlinear_arith)
        requires
            x.value() == v * p,
            a == v * den,
    ;
    assert(num * one == c * p) by (nonlinear_arith)
        requires
            one == p * lift,
            c == num * lift,
    ;
    let gapped = accuracy::apart(a, c);
    assert(2 * accuracy::apart(a * p, c * p) <= den * p) by (nonlinear_arith)
        requires
            accuracy::apart(a * p, c * p) == (if a * p < c * p {
                c * p - a * p
            } else {
                a * p - c * p
            }),
            gapped == (if a < c {
                c - a
            } else {
                a - c
            }),
            2 * gapped <= den,
            p > 0,
    ;
}

proof fn lemma_lifts()
    ensures
        pow2(39) == 0x8000000000,
        pow2(43) == 0x80000000000,
        pow2(45) == 0x200000000000,
        pow2(46) == 0x400000000000,
        pow2(47) == 0x800000000000,
        pow2(48) == 0x1000000000000,
        pow2(49) == 0x2000000000000,
        pow2(50) == 0x4000000000000,
        pow2(51) == 0x8000000000000,
        pow2(52) == 0x10000000000000,
        pow2(53) == 0x20000000000000,
        pow2(54) == 0x40000000000000,
        pow2(55) == 0x80000000000000,
        pow2(56) == 0x100000000000000,
        pow2(57) == 0x200000000000000,
        pow2(58) == 0x400000000000000,
        pow2(59) == 0x800000000000000,
        pow2(72) == 0x1000000000000000000,
        pow2(79) == 0x80000000000000000000,
        pow2(82) == 0x400000000000000000000,
        pow2(92) == 0x100000000000000000000000,
{
    lemma2_to64();
    lemma2_to64_rest();
    lemma_pow2_adds(64, 8);
    lemma_pow2_adds(64, 15);
    lemma_pow2_adds(64, 18);
    lemma_pow2_adds(64, 28);
}

/// Law: each constant is the binary64 number nearest to the decimal that it is named for.
pub proof fn law_constants_are_nearest()
    ensures
        (Real { bits: ZERO }).value() == 0,
        (Real { bits: ONE_BITS }).value() == binary64::one_in_units(),
        is_nearest(Real { bits: MINUS_ONE }, -1, 1),
        is_nearest(Real { bits: TWO }, 2, 1),
        is_nearest(Real { bits: MINUS_TWO }, -2, 1),
        is_nearest(Real { bits: HALF }, 1, 2),
        is_nearest(Real { bits: MINUS_HALF }, -1, 2),
        is_nearest(Real { bits: TENTH }, 1, 10),
        is_nearest(Real { bits: FIFTH }, 1, 5),
        is_nearest(Real { bits: THREE_TENTHS }, 3, 10),
        is_nearest(Real { bits: MINUS_THREE_TENTHS }, -3, 10),
        is_nearest(Real { bits: FOUR_TENTHS }, 2, 5),
        is_nearest(Real { bits: MINUS_FOUR_TENTHS }, -2, 5),
        is_nearest(Real { bits: SIX_TENTHS }, 3, 5),
        is_nearest(Real { bits: SEVEN_TENTHS }, 7, 10),
        is_nearest(Real { bits: NINE_TENTHS }, 9, 10),
        is_nearest(Real { bits: FIFTEEN_HUNDREDTHS }, 3, 20),
        is_nearest(Real { bits: FIFTY_FIVE_HUNDREDTHS }, 11, 20),
        is_nearest(Real { bits: HUNDREDTH }, 1, 100),
        is_nearest(Real { bits: MINUS_HUNDREDTH }, -1, 100),
        is_nearest(Real { bits: TWO_HUNDREDTHS }, 1, 50),
        is_nearest(Real { bits: MINUS_TWO_HUNDREDTHS }, -1, 50),
        is_nearest(Real { bits: MILLIONTH }, 1, 1000000),
        is_nearest(Real { bits: HUNDRED_MILLIONTH }, 1, 100000000),
        is_nearest(Real { bits: BILLIONTH }, 1, 1000000000),
        is_nearest(Real { bits: TRILLIONTH }, 1, 1000000000000),
        is_nearest(Real { bits: FOUR_AND_HALF }, 9, 2),
        is_nearest(Real { bits: TEN }, 10, 1),
        is_nearest(Real { bits: TWELVE }, 12, 1),
        is_nearest(Real { bits: THIRTEEN }, 13, 1),
        is_nearest(Real { bits: FIFTEEN }, 15, 1),
        is_nearest(Real { bits: TWENTY }, 20, 1),
        is_nearest(Real { bits: THIRTY }, 30, 1),
        is_nearest(Real { bits: FORTY_FIVE }, 45, 1),
        is_nearest(Real { bits: FIFTY }, 50, 1),
        is_nearest(Real { bits: SEVENTY_FIVE }, 75, 1),
        is_nearest(Real { bits: HUNDRED }, 100, 1),
        is_nearest(Real { bits: TRADING_DAYS }, 252, 1),
        is_nearest(Real { bits: THOUSAND }, 1000, 1),
        is_nearest(Real { bits: TEN_THOUSAND }, 10000, 1),
        is_nearest(Real { bits: NINETY_FIVE_HUNDREDTHS }, 19, 20),
        is_nearest(Real { bits: HUNDRED_FIVE_HUNDREDTHS }, 21, 20),
        is_nearest(Real { bits: PRICE_MARGIN_LOW }, 199, 200),
        is_nearest(Real { bits: PRICE_MARGIN_HIGH }, 201, 200),
        is_nearest(Real { bits: EQUITY_MARGIN_LOW }, 99, 100),
        is_nearest(Real { bits: EQUITY_MARGIN_HIGH }, 101, 100),
        is_nearest(Real { bits: FIVE }, 5, 1),
        is_nearest(Real { bits: FIVE_HUNDREDTHS }, 1, 20),
        is_nearest(Real { bits: EIGHT }, 8, 1),
        is_nearest(Real { bits: SIXTY_FIVE_HUNDREDTHS }, 13, 20),
{
    lemma_lifts();
    binary64::lemma_zero();
    crate::order::lemma_one();
    lemma_nearest(Real { bits: MINUS_ONE }, -1, 1, 1022, 52, 0x10000000000000);
    lemma_nearest(Real { bits: TWO }, 2, 1, 1023, 51, 0x8000000000000);
    lemma_nearest(Real { bits: MINUS_TWO }, -2, 1, 1023, 51, 0x8000000000000);
    lemma_nearest(Real { bits: HALF }, 1, 2, 1021, 53, 0x20000000000000);
    lemma_nearest(Real { bits: MINUS_HALF }, -1, 2, 1021, 53, 0x20000000000000);
    lemma_nearest(Real { bits: TENTH }, 1, 10, 1018, 56, 0x100000000000000);
    lemma_nearest(Real { bits: FIFTH }, 1, 5, 1019, 55, 0x80000000000000);
    lemma_nearest(Real { bits: THREE_TENTHS }, 3, 10, 1020, 54, 0x40000000000000);
    lemma_nearest(Real { bits: MINUS_THREE_TENTHS }, -3, 10, 1020, 54, 0x40000000000000);
    lemma_nearest(Real { bits: FOUR_TENTHS }, 2, 5, 1020, 54, 0x40000000000000);
    lemma_nearest(Real { bits: MINUS_FOUR_TENTHS }, -2, 5, 1020, 54, 0x40000000000000);
    lemma_nearest(Real { bits: SIX_TENTHS }, 3, 5, 1021, 53, 0x20000000000000);
    lemma_nearest(Real { bits: SEVEN_TENTHS }, 7, 10, 1021, 53, 0x20000000000000);
    lemma_nearest(Real { bits: NINE_TENTHS }, 9, 10, 1021, 53, 0x20000000000000);
    lemma_nearest(Real { bits: FIFTEEN_HUNDREDTHS }, 3, 20, 1019, 55, 0x80000000000000);
    lemma_nearest(Real { bits: FIFTY_FIVE_HUNDREDTHS }, 11, 20, 1021, 53, 0x20000000000000);
    lemma_nearest(Real { bits: HUNDREDTH }, 1, 100, 1015, 59, 0x800000000000000);
    lemma_nearest(Real { bits: MINUS_HUNDREDTH }, -1, 100, 1015, 59, 0x800000000000000);
    lemma_nearest(Real { bits: TWO_HUNDREDTHS }, 1, 50, 1016, 58, 0x400000000000000);
    lemma_nearest(Real { bits: MINUS_TWO_HUNDREDTHS }, -1, 50, 1016, 58, 0x400000000000000);
    lemma_nearest(Real { bits: MILLIONTH }, 1, 1000000, 1002, 72, 0x1000000000000000000);
    lemma_nearest(Real { bits: HUNDRED_MILLIONTH }, 1, 100000000, 995, 79, 0x80000000000000000000);
    lemma_nearest(Real { bits: BILLIONTH }, 1, 1000000000, 992, 82, 0x400000000000000000000);
    lemma_nearest(Real { bits: TRILLIONTH }, 1, 1000000000000, 982, 92, 0x100000000000000000000000);
    lemma_nearest(Real { bits: FOUR_AND_HALF }, 9, 2, 1024, 50, 0x4000000000000);
    lemma_nearest(Real { bits: TEN }, 10, 1, 1025, 49, 0x2000000000000);
    lemma_nearest(Real { bits: TWELVE }, 12, 1, 1025, 49, 0x2000000000000);
    lemma_nearest(Real { bits: THIRTEEN }, 13, 1, 1025, 49, 0x2000000000000);
    lemma_nearest(Real { bits: FIFTEEN }, 15, 1, 1025, 49, 0x2000000000000);
    lemma_nearest(Real { bits: TWENTY }, 20, 1, 1026, 48, 0x1000000000000);
    lemma_nearest(Real { bits: THIRTY }, 30, 1, 1026, 48, 0x1000000000000);
    lemma_nearest(Real { bits: FORTY_FIVE }, 45, 1, 1027, 47, 0x800000000000);
    lemma_nearest(Real { bits: FIFTY }, 50, 1, 1027, 47, 0x800000000000);
    lemma_nearest(Real { bits: SEVENTY_FIVE }, 75, 1, 1028, 46, 0x400000000000);
    lemma_nearest(Real { bits: HUNDRED }, 100, 1, 1028, 46, 0x400000000000);
    lemma_nearest(Real { bits: TRADING_DAYS }, 252, 1, 1029, 45, 0x200000000000);
    lemma_nearest(Real { bits: THOUSAND }, 1000, 1, 1031, 43, 0x80000000000);
    lemma_nearest(Real { bits: TEN_THOUSAND }, 10000, 1, 1035, 39, 0x8000000000);
    lemma_nearest(Real { bits: NINETY_FIVE_HUNDREDTHS }, 19, 20, 1021, 53, 0x20000000000000);
    lemma_nearest(Real { bits: HUNDRED_FIVE_HUNDREDTHS }, 21, 20, 1022, 52, 0x10000000000000);
    lemma_nearest(Real { bits: PRICE_MARGIN_LOW }, 199, 200, 1021, 53, 0x20000000000000);
    lemma_nearest(Real { bits: PRICE_MARGIN_HIGH }, 201, 200, 1022, 52, 0x10000000000000);
    lemma_nearest(Real { bits: EQUITY_MARGIN_LOW }, 99, 100, 1021, 53, 0x20000000000000);
    lemma_nearest(Real { bits: EQUITY_MARGIN_HIGH }, 101, 100, 1022, 52, 0x10000000000000);
    lemma_nearest(Real { bits: FIVE }, 5, 1, 1024, 50, 0x4000000000000);
    lemma_nearest(Real { bits: FIVE_HUNDREDTHS }, 1, 20, 1017, 57, 0x200000000000000);
    lemma_nearest(Real { bits: EIGHT }, 8, 1, 1025, 49, 0x2000000000000);
    lemma_nearest(Real { bits: SIXTY_FIVE_HUNDREDTHS }, 13, 20, 1021, 53, 0x20000000000000);
}

} // verus!
