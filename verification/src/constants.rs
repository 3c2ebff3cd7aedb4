//! Bit patterns of the numbers that the model's rules name.

use vstd::prelude::*;

verus! {

/// 0
pub const ZERO: u64 = 0x0000_0000_0000_0000;

/// -1
pub const MINUS_ONE: u64 = 0xBFF0_0000_0000_0000;

/// 2
pub const TWO: u64 = 0x4000_0000_0000_0000;

/// -2
pub const MINUS_TWO: u64 = 0xC000_0000_0000_0000;

/// 0.5
pub const HALF: u64 = 0x3FE0_0000_0000_0000;

/// -0.5
pub const MINUS_HALF: u64 = 0xBFE0_0000_0000_0000;

/// 0.1
pub const TENTH: u64 = 0x3FB9_9999_9999_999A;

/// 0.2
pub const FIFTH: u64 = 0x3FC9_9999_9999_999A;

/// 0.3
pub const THREE_TENTHS: u64 = 0x3FD3_3333_3333_3333;

/// -0.3
pub const MINUS_THREE_TENTHS: u64 = 0xBFD3_3333_3333_3333;

/// 0.4
pub const FOUR_TENTHS: u64 = 0x3FD9_9999_9999_999A;

/// -0.4
pub const MINUS_FOUR_TENTHS: u64 = 0xBFD9_9999_9999_999A;

/// 0.6
pub const SIX_TENTHS: u64 = 0x3FE3_3333_3333_3333;

/// 0.7
pub const SEVEN_TENTHS: u64 = 0x3FE6_6666_6666_6666;

/// 0.9
pub const NINE_TENTHS: u64 = 0x3FEC_CCCC_CCCC_CCCD;

/// 0.15
pub const FIFTEEN_HUNDREDTHS: u64 = 0x3FC3_3333_3333_3333;

/// 0.55
pub const FIFTY_FIVE_HUNDREDTHS: u64 = 0x3FE1_9999_9999_999A;

/// 0.01
pub const HUNDREDTH: u64 = 0x3F84_7AE1_47AE_147B;

/// -0.01
pub const MINUS_HUNDREDTH: u64 = 0xBF84_7AE1_47AE_147B;

/// 0.02
pub const TWO_HUNDREDTHS: u64 = 0x3F94_7AE1_47AE_147B;

/// -0.02
pub const MINUS_TWO_HUNDREDTHS: u64 = 0xBF94_7AE1_47AE_147B;

/// 10^-6
pub const MILLIONTH: u64 = 0x3EB0_C6F7_A0B5_ED8D;

/// 10^-8
pub const HUNDRED_MILLIONTH: u64 = 0x3E45_798E_E230_8C3A;

/// 10^-9
pub const BILLIONTH: u64 = 0x3E11_2E0B_E826_D695;

/// 10^-12
pub const TRILLIONTH: u64 = 0x3D71_9799_812D_EA11;

/// 4.5
pub const FOUR_AND_HALF: u64 = 0x4012_0000_0000_0000;

/// 10
pub const TEN: u64 = 0x4024_0000_0000_0000;

/// 12
pub const TWELVE: u64 = 0x4028_0000_0000_0000;

/// 13
pub const THIRTEEN: u64 = 0x402A_0000_0000_0000;

/// 15
pub const FIFTEEN: u64 = 0x402E_0000_0000_0000;

/// 20
pub const TWENTY: u64 = 0x4034_0000_0000_0000;

/// 30
pub const THIRTY: u64 = 0x403E_0000_0000_0000;

/// 45
pub const FORTY_FIVE: u64 = 0x4046_8000_0000_0000;

/// 50
pub const FIFTY: u64 = 0x4049_0000_0000_0000;

/// 75
pub const SEVENTY_FIVE: u64 = 0x4052_C000_0000_0000;

/// 100
pub const HUNDRED: u64 = 0x4059_0000_0000_0000;

/// 252, the trading days of a year
pub const TRADING_DAYS: u64 = 0x406F_8000_0000_0000;

/// 1000
pub const THOUSAND: u64 = 0x408F_4000_0000_0000;

/// 10 000
pub const TEN_THOUSAND: u64 = 0x40C3_8800_0000_0000;

/// Infinity
pub const POSITIVE_INFINITY: u64 = 0x7FF0_0000_0000_0000;

/// Negative infinity
pub const NEGATIVE_INFINITY: u64 = 0xFFF0_0000_0000_0000;

/// 0.95
pub const NINETY_FIVE_HUNDREDTHS: u64 = 0x3FEE_6666_6666_6666;

/// 1.05
pub const HUNDRED_FIVE_HUNDREDTHS: u64 = 0x3FF0_CCCC_CCCC_CCCD;

/// 0.995
pub const PRICE_MARGIN_LOW: u64 = 0x3FEF_D70A_3D70_A3D7;

/// 1.005
pub const PRICE_MARGIN_HIGH: u64 = 0x3FF0_147A_E147_AE14;

/// 0.99
pub const EQUITY_MARGIN_LOW: u64 = 0x3FEF_AE14_7AE1_47AE;

/// 1.01
pub const EQUITY_MARGIN_HIGH: u64 = 0x3FF0_28F5_C28F_5C29;

/// 5
pub const FIVE: u64 = 0x4014_0000_0000_0000;

/// 0.05
pub const FIVE_HUNDREDTHS: u64 = 0x3FA9_9999_9999_999A;

/// 8
pub const EIGHT: u64 = 0x4020_0000_0000_0000;

/// 0.65
pub const SIXTY_FIVE_HUNDREDTHS: u64 = 0x3FE4_CCCC_CCCC_CCCD;

} // verus!
