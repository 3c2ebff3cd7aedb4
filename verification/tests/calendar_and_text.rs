use chrono::{Datelike, NaiveDate};
use hlpll_backtester::dates::{Date, FIRST_DAY, LAST_DAY};
use hlpll_backtester::form::{read_bias, read_mode, read_seeds, read_signal_mode, read_tickers};
use hlpll_backtester::text::{
    contains_text, read_bool, read_i32, read_u64, read_usize, same_text, split_commas, text_of_i64,
    text_of_u64, text_of_usize, without_last,
};
use hlpll_backtester::{PositionBias, RunMode, SignalMode};

fn day(y: i32, m: u32, d: u32) -> i32 {
    NaiveDate::from_ymd_opt(y, m, d).unwrap().num_days_from_ce()
        - NaiveDate::from_ymd_opt(1970, 1, 1).unwrap().num_days_from_ce()
}

#[test]
fn calendar_bounds_are_those_of_chrono() {
    let epoch = NaiveDate::from_ymd_opt(1970, 1, 1).unwrap();
    assert_eq!((NaiveDate::MIN - epoch).num_days(), FIRST_DAY as i64);
    assert_eq!((NaiveDate::MAX - epoch).num_days(), LAST_DAY as i64);
}

#[test]
fn dates_are_read_and_written() {
    let d = Date::parse("2022-01-01").unwrap();
    assert_eq!(d.epoch_day, 18_993);
    assert_eq!(d.epoch_day, day(2022, 1, 1));
    assert_eq!(d.text(), "2022-01-01");
    assert_eq!(Date::parse("2024-12-31").unwrap().epoch_day, 20_088);
    assert_eq!(Date::parse("1969-12-31").unwrap().text(), "1969-12-31");
    assert!(Date::parse("2022-13-01").is_none());
    assert!(Date::parse("yesterday").is_none());
    assert!(Date::parse("").is_none());
}

#[test]
fn timestamps_fall_on_utc_days() {
    assert_eq!(Date::from_timestamp(0).unwrap().epoch_day, 0);
    assert_eq!(Date::from_timestamp(86_399).unwrap().epoch_day, 0);
    assert_eq!(Date::from_timestamp(86_400).unwrap().epoch_day, 1);
    assert_eq!(Date::from_timestamp(-1).unwrap().epoch_day, -1);
    assert!(Date::from_timestamp(i64::MAX).is_none());
    assert!(Date::from_timestamp(i64::MIN).is_none());
    let last = LAST_DAY as i64 * 86_400 + 86_399;
    assert_eq!(Date::from_timestamp(last).unwrap().epoch_day, LAST_DAY);
    assert!(Date::from_timestamp(last + 1).is_none());
    let first = FIRST_DAY as i64 * 86_400;
    assert_eq!(Date::from_timestamp(first).unwrap().epoch_day, FIRST_DAY);
    assert!(Date::from_timestamp(first - 1).is_none());
}

#[test]
fn days_have_first_and_last_seconds() {
    let d = Date::parse("2018-01-01").unwrap();
    assert_eq!(d.first_second(), 1_514_764_800);
    assert_eq!(d.last_second(), 1_514_764_800 + 86_399);
}

#[test]
fn days_can_be_counted_on() {
    let d = Date { epoch_day: 100 };
    assert_eq!(d.plus_days(28).unwrap().epoch_day, 128);
    assert_eq!(d.plus_days(-200).unwrap().epoch_day, -100);
    assert!(d.plus_days(i64::MAX).is_none());
    assert!(d.plus_days(i64::MIN).is_none());
    assert!(Date { epoch_day: LAST_DAY }.plus_days(1).is_none());
    assert_eq!(Date { epoch_day: 128 }.days_since(&d), 28);
}

#[test]
fn integers_are_written_like_std() {
    for n in [0u64, 7, 10, 99, 12345, u64::MAX] {
        assert_eq!(text_of_u64(n), n.to_string());
    }
    assert_eq!(text_of_usize(usize::MAX), usize::MAX.to_string());
    for i in [0i64, -1, 42, i64::MAX, i64::MIN] {
        assert_eq!(text_of_i64(i), i.to_string());
    }
}

#[test]
fn integers_are_read_like_std() {
    for s in [
        "", "+", "-", "0", "007", "+5", "-5", "42", " 42", "4x", "18446744073709551615",
        "18446744073709551616", "99999999999999999999999", "2147483647", "2147483648",
        "-2147483648", "-2147483649", "--3", "+-3", "１",
    ] {
        assert_eq!(read_u64(s), s.parse::<u64>().ok(), "{}", s);
        assert_eq!(read_usize(s), s.parse::<usize>().ok(), "{}", s);
        assert_eq!(read_i32(s), s.parse::<i32>().ok(), "{}", s);
    }
}

#[test]
fn booleans_are_read_like_std() {
    for s in ["true", "false", "True", "", "1", "true "] {
        assert_eq!(read_bool(s), s.parse::<bool>().ok(), "{}", s);
    }
}

#[test]
fn texts_compare_and_contain() {
    assert!(same_text("abc", "abc"));
    assert!(!same_text("abc", "abd"));
    assert!(!same_text("abc", "ab"));
    assert!(contains_text("CRITICAL BUBBLE REGIME", "CRITICAL"));
    assert!(contains_text("HIGH RISK", "HIGH"));
    assert!(contains_text("x", ""));
    assert!(!contains_text("MODERATE RISK", "HIGH"));
    assert!(!contains_text("", "a"));
    assert_eq!(without_last("aé"), "a");
    assert_eq!(without_last(""), "");
}

#[test]
fn commas_split_like_std() {
    for s in ["", ",", "a", "a,b", ",a,,b,", "HOUS, AMTX ,CAR"] {
        let expected: Vec<String> = s.split(',').map(|p| p.to_string()).collect();
        assert_eq!(split_commas(s), expected);
    }
}

#[test]
fn tickers_are_trimmed_and_blanks_dropped() {
    assert_eq!(read_tickers("HOUS,AMTX,CAR"), vec!["HOUS", "AMTX", "CAR"]);
    assert_eq!(read_tickers(" CAR , ,AMTX,"), vec!["CAR", "AMTX"]);
    assert!(read_tickers(" , ").is_empty());
}

#[test]
fn seeds_skip_what_is_no_number() {
    assert_eq!(read_seeds("42, 43 ,x,44"), vec![42, 43, 44]);
    assert_eq!(read_seeds("42"), vec![42]);
    assert!(read_seeds("   ").is_empty());
    assert!(read_seeds("none").is_empty());
}

#[test]
fn modes_are_read_from_words() {
    assert_eq!(read_mode("historical"), RunMode::HistoricalBacktest);
    assert_eq!(read_mode("prediction"), RunMode::FutureBubblePrediction);
    assert_eq!(read_mode("live"), RunMode::LiveCurrentSentiment);
    assert_eq!(read_mode("hybrid"), RunMode::HybridAnalysis);
    assert_eq!(read_mode("anything"), RunMode::HistoricalBacktest);
    assert_eq!(read_signal_mode("paper"), SignalMode::Paper);
    assert_eq!(read_signal_mode("fast"), SignalMode::Fast);
    assert_eq!(read_bias("longonly"), PositionBias::LongOnly);
    assert_eq!(read_bias("shortonly"), PositionBias::ShortOnly);
    assert_eq!(read_bias("longshort"), PositionBias::LongShort);
    assert_eq!(RunMode::HybridAnalysis.name(), "HybridAnalysis");
}
