//! Settings written as text: modes, seeds, tickers, and the parameter form of the explorer.

use crate::binary64::{Real, ONE_BITS};
use crate::config::{BacktestConfig, PositionBias, RunMode, SignalMode};
use crate::constants::{
    EIGHT, FIFTY, FIVE, FIVE_HUNDREDTHS, FOUR_AND_HALF, HUNDRED, NINE_TENTHS, SEVEN_TENTHS,
    TENTH, TEN_THOUSAND, THIRTEEN, THREE_TENTHS, TWELVE, ZERO,
};
use crate::dates;
use crate::dates::Date;
use crate::engine::HlpplEngine;
use crate::text;
use crate::text::{
    read_bool, read_i32, read_u64, read_usize, same_text, split_commas, text_of_i64,
    text_of_u64, to_upper, trim, without_last,
};
use vstd::prelude::*;
use vstd::string::*;

verus! {

/// The run mode that a word names; a word that names none stands for a backtest.
pub open spec fn mode_of_word(word: Seq<char>) -> RunMode {
    if word == "prediction"@ {
        RunMode::FutureBubblePrediction
    } else if word == "live"@ {
        RunMode::LiveCurrentSentiment
    } else if word == "hybrid"@ {
        RunMode::HybridAnalysis
    } else {
        RunMode::HistoricalBacktest
    }
}

/// The run mode that a word names; a word that names none stands for a backtest.
pub fn read_mode(word: &str) -> (r: RunMode)
    ensures
        r == mode_of_word(word@),
{
    if same_text(word, "prediction") {
        RunMode::FutureBubblePrediction
    } else if same_text(word, "live") {
        RunMode::LiveCurrentSentiment
    } else if same_text(word, "hybrid") {
        RunMode::HybridAnalysis
    } else {
        RunMode::HistoricalBacktest
    }
}

/// The signal mode that a word names; a word that names none stands for the paper mode.
pub fn read_signal_mode(word: &str) -> (r: SignalMode)
    ensures
        r == if word@ == "fast"@ {
            SignalMode::Fast
        } else {
            SignalMode::Paper
        },
{
    if same_text(word, "fast") {
        SignalMode::Fast
    } else {
        SignalMode::Paper
    }
}

/// The bias that a word names; a word that names none stands for both sides.
pub fn read_bias(word: &str) -> (r: PositionBias)
    ensures
        r == if word@ == "longonly"@ {
            PositionBias::LongOnly
        } else if word@ == "shortonly"@ {
            PositionBias::ShortOnly
        } else {
            PositionBias::LongShort
        },
{
    if same_text(word, "longonly") {
        PositionBias::LongOnly
    } else if same_text(word, "shortonly") {
        PositionBias::ShortOnly
    } else {
        PositionBias::LongShort
    }
}

/// The seeds among the first `k` pieces: those that are numbers once trimmed.
pub open spec fn seeds_among(pieces: Seq<Seq<char>>, k: int) -> Seq<u64>
    decreases k,
{
    if k <= 0 {
        Seq::empty()
    } else {
        let before = seeds_among(pieces, k - 1);
        match text::natural_of_text(text::trimmed_text(pieces[k - 1]), u64::MAX as nat) {
            Some(seed) => before.push(seed as u64),
            None => before,
        }
    }
}

/// The seeds in a list separated by commas; what is no number is passed over.
pub open spec fn seeds_of_text(list: Seq<char>) -> Seq<u64> {
    if text::trimmed_text(list).len() == 0 {
        Seq::empty()
    } else {
        let pieces = text::comma_pieces(list);
        seeds_among(pieces, pieces.len() as int)
    }
}

/// The seeds in a list separated by commas; what is no number is passed over.
pub fn read_seeds(list: &str) -> (r: Vec<u64>)
    ensures
        r@ == seeds_of_text(list@),
{
    let mut r: Vec<u64> = Vec::new();
    if trim(list).as_str().unicode_len() == 0 {
        return r;
    }
    let pieces = split_commas(list);
    let ghost texts = text::comma_pieces(list@);
    let mut i: usize = 0;
    while i < pieces.len()
        invariant
            i <= pieces@.len(),
            texts == text::comma_pieces(list@),
            pieces@.len() == texts.len(),
            forall|j: int| 0 <= j < pieces@.len() ==> (#[trigger] pieces@[j])@ == texts[j],
            r@ == seeds_among(texts, i as int),
        decreases pieces@.len() - i,
    {
        let piece = trim(pieces[i].as_str());
        match read_u64(piece.as_str()) {
            Some(seed) => {
                r.push(seed);
            },
            None => {},
        }
        i = i + 1;
    }
    r
}

/// The tickers among the first `k` pieces: those that are not blank, trimmed.
pub open spec fn tickers_among(pieces: Seq<Seq<char>>, k: int) -> Seq<Seq<char>>
    decreases k,
{
    if k <= 0 {
        Seq::empty()
    } else {
        let before = tickers_among(pieces, k - 1);
        let piece = text::trimmed_text(pieces[k - 1]);
        if piece.len() == 0 {
            before
        } else {
            before.push(piece)
        }
    }
}

/// The tickers in a list separated by commas, without the blank ones.
pub fn read_tickers(list: &str) -> (r: Vec<String>)
    ensures
        r@.map_values(|s: String| s@) == tickers_among(
            text::comma_pieces(list@),
            text::comma_pieces(list@).len() as int,
        ),
{
    let mut r: Vec<String> = Vec::new();
    let pieces = split_commas(list);
    let ghost texts = text::comma_pieces(list@);
    let mut i: usize = 0;
    while i < pieces.len()
        invariant
            i <= pieces@.len(),
            texts == text::comma_pieces(list@),
            pieces@.len() == texts.len(),
            forall|j: int| 0 <= j < pieces@.len() ==> (#[trigger] pieces@[j])@ == texts[j],
            r@.map_values(|s: String| s@) == tickers_among(texts, i as int),
        decreases pieces@.len() - i,
    {
        let piece = trim(pieces[i].as_str());
        if piece.as_str().unicode_len() > 0 {
            let ghost before = r@;
            r.push(piece);
            assert(r@.map_values(|s: String| s@) =~= before.map_values(|s: String| s@).push(
                r@.last()@,
            ));
        }
        i = i + 1;
    }
    r
}

/// Number of fields that can be edited.
pub const NUM_FIELDS: usize = 13;

pub const TICKER: usize = 0;

pub const START: usize = 1;

pub const END: usize = 2;

pub const WINDOW: usize = 3;

pub const REFIT: usize = 4;

pub const LONG: usize = 5;

pub const SHORT: usize = 6;

pub const COST: usize = 7;

pub const CAPITAL: usize = 8;

pub const SEED: usize = 9;

pub const MODE: usize = 10;

pub const ENSEMBLE: usize = 11;

pub const HORIZON: usize = 12;

/// The label of a field.
pub open spec fn label_of(field: int) -> Seq<char> {
    if field == TICKER {
        "Ticker"@
    } else if field == START {
        "Start (YYYY-MM-DD)"@
    } else if field == END {
        "End (YYYY-MM-DD)"@
    } else if field == WINDOW {
        "Window (trading days)"@
    } else if field == REFIT {
        "Refit every N days"@
    } else if field == LONG {
        "Long thresh (score > )"@
    } else if field == SHORT {
        "Short thresh (score < -)"@
    } else if field == COST {
        "Cost (bps one-way)"@
    } else if field == CAPITAL {
        "Initial Capital ($)"@
    } else if field == SEED {
        "RNG seed (LPPL fits)"@
    } else if field == MODE {
        "Run mode (hist/pred/live/hybrid)"@
    } else if field == ENSEMBLE {
        "Ensemble seeds (csv)"@
    } else if field == HORIZON {
        "Predict horizon days"@
    } else {
        "Adv. (edit in sync or GUI)"@
    }
}

/// The label of a field.
pub fn field_label(field: usize) -> (r: &'static str)
    ensures
        r@ == label_of(field as int),
{
    if field == TICKER {
        "Ticker"
    } else if field == START {
        "Start (YYYY-MM-DD)"
    } else if field == END {
        "End (YYYY-MM-DD)"
    } else if field == WINDOW {
        "Window (trading days)"
    } else if field == REFIT {
        "Refit every N days"
    } else if field == LONG {
        "Long thresh (score > )"
    } else if field == SHORT {
        "Short thresh (score < -)"
    } else if field == COST {
        "Cost (bps one-way)"
    } else if field == CAPITAL {
        "Initial Capital ($)"
    } else if field == SEED {
        "RNG seed (LPPL fits)"
    } else if field == MODE {
        "Run mode (hist/pred/live/hybrid)"
    } else if field == ENSEMBLE {
        "Ensemble seeds (csv)"
    } else if field == HORIZON {
        "Predict horizon days"
    } else {
        "Adv. (edit in sync or GUI)"
    }
}

/// What the form says of the confidence analysis, where the user cannot reach it.
#[derive(Clone, Debug)]
pub struct AnalysisTexts {
    pub enable: String,
    pub lookback_min: String,
    pub lookback_max: String,
    pub step: String,
    pub m_min: String,
    pub m_max: String,
    pub omega_min: String,
    pub omega_max: String,
    pub flat_threshold: String,
}

/// The parameter form.
#[derive(Clone, Debug)]
pub struct Form {
    /// The texts of the fields that can be edited.
    pub fields: Vec<String>,
    pub analysis: AnalysisTexts,
    pub use_confidence_for_flat: bool,
    /// The field that takes the keys.
    pub focused: usize,
}

/// What the number texts of the form stand for, trimmed; nothing where a text is no number.
#[derive(Clone, Copy, Debug, PartialEq, Eq, Structural)]
pub struct FormNumbers {
    pub long: Option<Real>,
    pub short: Option<Real>,
    pub cost: Option<Real>,
    pub capital: Option<Real>,
    pub m_min: Option<Real>,
    pub m_max: Option<Real>,
    pub omega_min: Option<Real>,
    pub omega_max: Option<Real>,
    pub flat_threshold: Option<Real>,
}

/// What is wrong with a form.
#[derive(Clone, Copy, Debug, PartialEq, Eq, Structural)]
pub enum FormError {
    EmptyTicker,
    BadStart,
    BadEnd,
    EndNotAfterStart,
    BadWindow,
    WindowTooSmall,
    BadRefit,
    RefitZero,
    BadLong,
    BadShort,
    NegativeThreshold,
    BadCost,
    BadCapital,
    CapitalNotPositive,
}

impl FormError {
    pub open spec fn text(self) -> Seq<char> {
        match self {
            FormError::EmptyTicker => "Ticker cannot be empty"@,
            FormError::BadStart => "Invalid start date (use YYYY-MM-DD)"@,
            FormError::BadEnd => "Invalid end date (use YYYY-MM-DD)"@,
            FormError::EndNotAfterStart => "End date must be after start"@,
            FormError::BadWindow => "Window must be integer >= 60"@,
            FormError::WindowTooSmall => "Window too small for stable LPPL (min 60)"@,
            FormError::BadRefit => "Refit must be positive integer"@,
            FormError::RefitZero => "refit_every must be >= 1"@,
            FormError::BadLong => "Long thresh must be number"@,
            FormError::BadShort => "Short thresh must be number"@,
            FormError::NegativeThreshold => "Thresholds should be >= 0"@,
            FormError::BadCost => "Cost must be number (bps)"@,
            FormError::BadCapital => "Capital must be positive number"@,
            FormError::CapitalNotPositive => "Initial capital must be > 0"@,
        }
    }

    pub fn message(&self) -> (r: &'static str)
        ensures
            r@ == self.text(),
    {
        match self {
            FormError::EmptyTicker => "Ticker cannot be empty",
            FormError::BadStart => "Invalid start date (use YYYY-MM-DD)",
            FormError::BadEnd => "Invalid end date (use YYYY-MM-DD)",
            FormError::EndNotAfterStart => "End date must be after start",
            FormError::BadWindow => "Window must be integer >= 60",
            FormError::WindowTooSmall => "Window too small for stable LPPL (min 60)",
            FormError::BadRefit => "Refit must be positive integer",
            FormError::RefitZero => "refit_every must be >= 1",
            FormError::BadLong => "Long thresh must be number",
            FormError::BadShort => "Short thresh must be number",
            FormError::NegativeThreshold => "Thresholds should be >= 0",
            FormError::BadCost => "Cost must be number (bps)",
            FormError::BadCapital => "Capital must be positive number",
            FormError::CapitalNotPositive => "Initial capital must be > 0",
        }
    }
}

/// What a form asks for.
#[derive(Clone, Debug)]
pub struct FormSettings {
    pub ticker: String,
    pub start: Date,
    pub end: Date,
    pub config: BacktestConfig,
    pub capital: Real,
}

/// A number, or a stand-in where there is none.
pub open spec fn or_bits(x: Option<Real>, bits: u64) -> Real {
    match x {
        Some(v) => v,
        None => Real { bits },
    }
}

fn number_or(x: Option<Real>, bits: u64) -> (r: Real)
    ensures
        r == or_bits(x, bits),
{
    match x {
        Some(v) => v,
        None => Real { bits },
    }
}

/// A trimmed text as a `usize`.
pub open spec fn size_of_text(s: Seq<char>) -> Option<nat> {
    text::natural_of_text(text::trimmed_text(s), usize::MAX as nat)
}

/// A trimmed text as a `usize`, or a stand-in.
pub open spec fn size_or(s: Seq<char>, other: nat) -> nat {
    match size_of_text(s) {
        Some(n) => n,
        None => other,
    }
}

fn read_size(s: &str) -> (r: Option<usize>)
    ensures
        r is Some <==> size_of_text(s@) is Some,
        r matches Some(n) ==> size_of_text(s@) == Some(n as nat),
{
    read_usize(trim(s).as_str())
}

fn read_size_or(s: &str, other: usize) -> (r: usize)
    ensures
        r == size_or(s@, other as nat),
{
    match read_size(s) {
        Some(n) => n,
        None => other,
    }
}

/// A trimmed text as a date.
pub open spec fn date_of_text(s: Seq<char>) -> Option<Date> {
    match dates::day_of_text(text::trimmed_text(s)) {
        Some(day) => Some(Date { epoch_day: day }),
        None => None,
    }
}

fn read_date(s: &str) -> (r: Option<Date>)
    ensures
        r == date_of_text(s@),
        r matches Some(d) ==> d.valid(),
{
    Date::parse(trim(s).as_str())
}

impl Form {
    pub open spec fn wf(self) -> bool {
        self.fields@.len() == NUM_FIELDS && self.focused < NUM_FIELDS
    }

    /// The text of a field.
    pub open spec fn field(self, i: int) -> Seq<char> {
        self.fields@[i]@
    }

    /// The texts of all fields.
    pub open spec fn texts(self) -> Seq<Seq<char>> {
        self.fields@.map_values(|s: String| s@)
    }

    /// The form of an explorer that has just been opened.
    pub open spec fn is_first(self) -> bool {
        &&& self.texts() =~= seq![
            "CAR"@,
            "2022-01-01"@,
            "2024-12-31"@,
            "250"@,
            "25"@,
            "0.55"@,
            "0.55"@,
            "8"@,
            "10000"@,
            "42"@,
            "historical"@,
            "42"@,
            "60"@,
        ]
        &&& self.analysis.enable@ == "true"@
        &&& self.analysis.lookback_min@ == "60"@
        &&& self.analysis.lookback_max@ == "260"@
        &&& self.analysis.step@ == "5"@
        &&& self.analysis.m_min@ == "0.1"@
        &&& self.analysis.m_max@ == "0.9"@
        &&& self.analysis.omega_min@ == "4.5"@
        &&& self.analysis.omega_max@ == "13.0"@
        &&& self.analysis.flat_threshold@ == "50.0"@
        &&& self.use_confidence_for_flat
        &&& self.focused == 0
    }

    /// The form of an explorer that has just been opened.
    pub fn new() -> (r: Form)
        ensures
            r.wf(),
            r.is_first(),
    {
        let mut fields: Vec<String> = Vec::new();
        fields.push("CAR".to_owned());
        fields.push("2022-01-01".to_owned());
        fields.push("2024-12-31".to_owned());
        fields.push("250".to_owned());
        fields.push("25".to_owned());
        fields.push("0.55".to_owned());
        fields.push("0.55".to_owned());
        fields.push("8".to_owned());
        fields.push("10000".to_owned());
        fields.push("42".to_owned());
        fields.push("historical".to_owned());
        fields.push("42".to_owned());
        fields.push("60".to_owned());
        Form {
            fields,
            analysis: AnalysisTexts {
                enable: "true".to_owned(),
                lookback_min: "60".to_owned(),
                lookback_max: "260".to_owned(),
                step: "5".to_owned(),
                m_min: "0.1".to_owned(),
                m_max: "0.9".to_owned(),
                omega_min: "4.5".to_owned(),
                omega_max: "13.0".to_owned(),
                flat_threshold: "50.0".to_owned(),
            },
            use_confidence_for_flat: true,
            focused: 0,
        }
    }

    /// What is wrong with the form: the first fault in the order of the fields.
    pub open spec fn fault(self, numbers: FormNumbers) -> Option<FormError> {
        let zero = Real { bits: ZERO };
        let start = date_of_text(self.field(START as int));
        let end = date_of_text(self.field(END as int));
        let window = size_of_text(self.field(WINDOW as int));
        let refit = size_of_text(self.field(REFIT as int));
        if text::upper_text(text::trimmed_text(self.field(TICKER as int))).len() == 0 {
            Some(FormError::EmptyTicker)
        } else if start is None {
            Some(FormError::BadStart)
        } else if end is None {
            Some(FormError::BadEnd)
        } else if end->0.epoch_day <= start->0.epoch_day {
            Some(FormError::EndNotAfterStart)
        } else if window is None {
            Some(FormError::BadWindow)
        } else if window->0 < 60 {
            Some(FormError::WindowTooSmall)
        } else if refit is None {
            Some(FormError::BadRefit)
        } else if refit->0 == 0 {
            Some(FormError::RefitZero)
        } else if numbers.long is None {
            Some(FormError::BadLong)
        } else if numbers.short is None {
            Some(FormError::BadShort)
        } else if numbers.long->0.below(zero) || numbers.short->0.below(zero) {
            Some(FormError::NegativeThreshold)
        } else if numbers.cost is None {
            Some(FormError::BadCost)
        } else if numbers.capital is None {
            Some(FormError::BadCapital)
        } else if numbers.capital->0.at_most(zero) {
            Some(FormError::CapitalNotPositive)
        } else {
            None
        }
    }

    /// `c` is the configuration that a form without fault asks for.
    pub open spec fn asks_for(self, numbers: FormNumbers, c: BacktestConfig) -> bool {
        &&& c.lookback_days == size_or(self.field(WINDOW as int), 0)
        &&& c.refit_every == size_or(self.field(REFIT as int), 0)
        &&& c.window_stride == 5
        &&& c.signal_mode == SignalMode::Paper
        &&& c.alpha1_hype == (Real { bits: SEVEN_TENTHS })
        &&& c.alpha2_sentiment == (Real { bits: THREE_TENTHS })
        &&& c.lppl_random_starts == 1200
        &&& c.long_threshold == numbers.long->0
        &&& c.short_threshold == numbers.short->0
        &&& c.cost_bps == numbers.cost->0
        &&& c.max_position == (Real { bits: ONE_BITS })
        &&& c.position_bias == PositionBias::LongShort
        &&& !c.invert_signal
        &&& c.random_seed == match text::natural_of_text(
            text::trimmed_text(self.field(SEED as int)),
            u64::MAX as nat,
        ) {
            Some(seed) => seed as int,
            None => 42,
        }
        &&& c.enable_bubble_analysis == match text::bool_of_text(
            text::trimmed_text(self.analysis.enable@),
        ) {
            Some(b) => b,
            None => true,
        }
        &&& c.analysis_lookback_min == size_or(self.analysis.lookback_min@, 60)
        &&& c.analysis_lookback_max == size_or(self.analysis.lookback_max@, 260)
        &&& c.analysis_step_days == size_or(self.analysis.step@, 5)
        &&& c.filter_m_min == or_bits(numbers.m_min, TENTH)
        &&& c.filter_m_max == or_bits(numbers.m_max, NINE_TENTHS)
        &&& c.filter_omega_min == or_bits(numbers.omega_min, FOUR_AND_HALF)
        &&& c.filter_omega_max == or_bits(numbers.omega_max, THIRTEEN)
        &&& c.filter_require_b_negative
        &&& c.filter_min_tc_offset_days == 3
        &&& c.use_confidence_for_flat == self.use_confidence_for_flat
        &&& c.confidence_flat_threshold == or_bits(numbers.flat_threshold, FIFTY)
        &&& c.run_mode == mode_of_word(self.field(MODE as int))
        &&& c.ensemble_seeds@ == seeds_of_text(self.field(ENSEMBLE as int))
        &&& c.predict_horizon_days == size_or(self.field(HORIZON as int), 60)
        &&& !c.use_confidence_for_sizing
    }

    fn config(&self, numbers: &FormNumbers, window: usize, refit: usize) -> (c: BacktestConfig)
        requires
            self.wf(),
            numbers.long is Some,
            numbers.short is Some,
            numbers.cost is Some,
            size_of_text(self.field(WINDOW as int)) == Some(window as nat),
            size_of_text(self.field(REFIT as int)) == Some(refit as nat),
        ensures
            self.asks_for(*numbers, c),
    {
        let mut c = BacktestConfig::default();
        c.lookback_days = window;
        c.refit_every = refit;
        c.long_threshold = number_or(numbers.long, ZERO);
        c.short_threshold = number_or(numbers.short, ZERO);
        c.cost_bps = number_or(numbers.cost, ZERO);
        c.random_seed = match read_u64(trim(self.fields[SEED].as_str()).as_str()) {
            Some(seed) => seed,
            None => 42,
        };
        c.enable_bubble_analysis = match read_bool(trim(self.analysis.enable.as_str()).as_str()) {
            Some(b) => b,
            None => true,
        };
        c.analysis_lookback_min = read_size_or(self.analysis.lookback_min.as_str(), 60);
        c.analysis_lookback_max = read_size_or(self.analysis.lookback_max.as_str(), 260);
        c.analysis_step_days = read_size_or(self.analysis.step.as_str(), 5);
        c.filter_m_min = number_or(numbers.m_min, TENTH);
        c.filter_m_max = number_or(numbers.m_max, NINE_TENTHS);
        c.filter_omega_min = number_or(numbers.omega_min, FOUR_AND_HALF);
        c.filter_omega_max = number_or(numbers.omega_max, THIRTEEN);
        c.use_confidence_for_flat = self.use_confidence_for_flat;
        c.confidence_flat_threshold = number_or(numbers.flat_threshold, FIFTY);
        c.run_mode = read_mode(self.fields[MODE].as_str());
        c.ensemble_seeds = read_seeds(self.fields[ENSEMBLE].as_str());
        c.predict_horizon_days = read_size_or(self.fields[HORIZON].as_str(), 60);
        c
    }

    /// Checks the form and reads it. `numbers` holds the number texts of the form as
    /// numbers.
    pub fn settings(&self, numbers: &FormNumbers) -> (r: Result<FormSettings, FormError>)
        requires
            self.wf(),
        ensures
            r is Ok <==> self.fault(*numbers) is None,
            r matches Err(e) ==> self.fault(*numbers) == Some(e),
            r matches Ok(s) ==> {
                &&& s.ticker@ == text::upper_text(text::trimmed_text(self.field(TICKER as int)))
                &&& Some(s.start) == date_of_text(self.field(START as int))
                &&& Some(s.end) == date_of_text(self.field(END as int))
                &&& s.start.valid()
                &&& s.end.valid()
                &&& self.asks_for(*numbers, s.config)
                &&& Some(s.capital) == numbers.capital
            },
    {
        let zero = Real { bits: ZERO };
        let ticker = to_upper(trim(self.fields[TICKER].as_str()).as_str());
        if ticker.as_str().unicode_len() == 0 {
            return Err(FormError::EmptyTicker);
        }
        let start = match read_date(self.fields[START].as_str()) {
            Some(d) => d,
            None => {
                return Err(FormError::BadStart);
            },
        };
        let end = match read_date(self.fields[END].as_str()) {
            Some(d) => d,
            None => {
                return Err(FormError::BadEnd);
            },
        };
        if end.epoch_day <= start.epoch_day {
            return Err(FormError::EndNotAfterStart);
        }
        let window: usize = match read_size(self.fields[WINDOW].as_str()) {
            Some(n) => n,
            None => {
                return Err(FormError::BadWindow);
            },
        };
        if window < 60 {
            return Err(FormError::WindowTooSmall);
        }
        let refit: usize = match read_size(self.fields[REFIT].as_str()) {
            Some(n) => n,
            None => {
                return Err(FormError::BadRefit);
            },
        };
        if refit == 0 {
            return Err(FormError::RefitZero);
        }
        let long = match numbers.long {
            Some(x) => x,
            None => {
                return Err(FormError::BadLong);
            },
        };
        let short = match numbers.short {
            Some(x) => x,
            None => {
                return Err(FormError::BadShort);
            },
        };
        if long.lt(zero) || short.lt(zero) {
            return Err(FormError::NegativeThreshold);
        }
        if numbers.cost.is_none() {
            return Err(FormError::BadCost);
        }
        let capital = match numbers.capital {
            Some(x) => x,
            None => {
                return Err(FormError::BadCapital);
            },
        };
        if capital.le(zero) {
            return Err(FormError::CapitalNotPositive);
        }
        let config = self.config(numbers, window, refit);
        Ok(FormSettings { ticker, start, end, config, capital })
    }

    fn set_field(&mut self, i: usize, value: String)
        requires
            old(self).wf(),
            i < NUM_FIELDS,
        ensures
            final(self).wf(),
            final(self).texts() == old(self).texts().update(i as int, value@),
            final(self).focused == old(self).focused,
            final(self).analysis == old(self).analysis,
            final(self).use_confidence_for_flat == old(self).use_confidence_for_flat,
    {
        self.fields.set(i, value);
        assert(self.texts() =~= old(self).texts().update(i as int, value@));
    }

    /// Replaces the text of the focused field.
    pub fn set_focused(&mut self, value: String)
        requires
            old(self).wf(),
        ensures
            final(self).wf(),
            final(self).texts() == old(self).texts().update(old(self).focused as int, value@),
            final(self).focused == old(self).focused,
            final(self).analysis == old(self).analysis,
            final(self).use_confidence_for_flat == old(self).use_confidence_for_flat,
    {
        self.set_field(self.focused, value);
    }

    /// Puts a character behind the text of the focused field.
    pub fn type_char(&mut self, c: char)
        requires
            old(self).wf(),
        ensures
            final(self).wf(),
            final(self).texts() == old(self).texts().update(
                old(self).focused as int,
                old(self).field(old(self).focused as int).push(c),
            ),
            final(self).focused == old(self).focused,
            final(self).analysis == old(self).analysis,
            final(self).use_confidence_for_flat == old(self).use_confidence_for_flat,
    {
        let mut value = self.fields[self.focused].as_str().to_owned();
        value.push(c);
        self.set_focused(value);
    }

    /// Takes the last character from the text of the focused field.
    pub fn erase_char(&mut self)
        requires
            old(self).wf(),
        ensures
            final(self).wf(),
            final(self).texts() == old(self).texts().update(
                old(self).focused as int,
                erased(old(self).field(old(self).focused as int)),
            ),
            final(self).focused == old(self).focused,
            final(self).analysis == old(self).analysis,
            final(self).use_confidence_for_flat == old(self).use_confidence_for_flat,
    {
        let value = without_last(self.fields[self.focused].as_str());
        self.set_focused(value);
    }

    /// Moves whole-number fields a step up or down, within their bounds: the window by 10
    /// within 60 .. 2000, the refit interval by 5 within 1 .. 100, the capital by 1000 within
    /// 1000 .. 1 000 000, the seed by 1 within 0 .. 2^64 - 1. A text that is no whole number
    /// stays, and so do the other fields.
    pub fn nudge_integer(&mut self, up: bool)
        requires
            old(self).wf(),
        ensures
            final(self).wf(),
            final(self).focused == old(self).focused,
            final(self).analysis == old(self).analysis,
            final(self).use_confidence_for_flat == old(self).use_confidence_for_flat,
            final(self).texts() == match nudged_integer(
                old(self).focused as int,
                old(self).field(old(self).focused as int),
                up,
            ) {
                Some(n) => old(self).texts().update(
                    old(self).focused as int,
                    text::integer_text(n),
                ),
                None => old(self).texts(),
            },
    {
        if self.focused == SEED {
            match read_u64(trim(self.fields[self.focused].as_str()).as_str()) {
                Some(v) => {
                    let held: u64 = if up {
                        if v < u64::MAX {
                            v + 1
                        } else {
                            v
                        }
                    } else if v > 0 {
                        v - 1
                    } else {
                        v
                    };
                    self.set_focused(text_of_u64(held));
                },
                None => {},
            }
            return;
        }
        let (step, low, high): (i64, i64, i64) = if self.focused == WINDOW {
            (10, 60, 2000)
        } else if self.focused == REFIT {
            (5, 1, 100)
        } else if self.focused == CAPITAL {
            (1000, 1000, 1_000_000)
        } else {
            return;
        };
        match read_i32(trim(self.fields[self.focused].as_str()).as_str()) {
            Some(v) => {
                let moved: i64 = if up {
                    v as i64 + step
                } else {
                    v as i64 - step
                };
                let held: i64 = if moved < low {
                    low
                } else if moved > high {
                    high
                } else {
                    moved
                };
                self.set_focused(text_of_i64(held));
            },
            None => {},
        }
    }

    /// What a step up or down makes of a number in the focused field, and with how many
    /// decimals it is written: a threshold moves by 0.05 within 0 .. 5, the cost by 1 within
    /// 0 .. 100. Other fields hold no such number.
    pub fn nudge_number(&self, up: bool, number: Real) -> (r: Option<(Real, u8)>)
        ensures
            r == nudged_number(self.focused as int, up, number),
    {
        if self.focused == LONG || self.focused == SHORT {
            Some((moved_within(number, up, FIVE_HUNDREDTHS, FIVE), 2))
        } else if self.focused == COST {
            Some((moved_within(number, up, ONE_BITS, HUNDRED), 1))
        } else {
            None
        }
    }
}

/// A text without its last character.
pub open spec fn erased(s: Seq<char>) -> Seq<char> {
    if s.len() == 0 {
        s
    } else {
        s.drop_last()
    }
}

/// Step and bounds of a field that holds a whole number.
pub open spec fn integer_steps(field: int) -> Option<(int, int, int)> {
    if field == WINDOW {
        Some((10, 60, 2000))
    } else if field == REFIT {
        Some((5, 1, 100))
    } else if field == CAPITAL {
        Some((1000, 1000, 1_000_000))
    } else if field == SEED {
        Some((1, 0, u64::MAX as int))
    } else {
        None
    }
}

/// The whole number that a field holds: a seed is not signed and has twice the width of
/// the others.
pub open spec fn integer_in(field: int, s: Seq<char>) -> Option<int> {
    if field == SEED {
        match text::natural_of_text(text::trimmed_text(s), u64::MAX as nat) {
            Some(v) => Some(v as int),
            None => None,
        }
    } else {
        text::i32_of_text(text::trimmed_text(s))
    }
}

/// What a step makes of the whole number in a field.
pub open spec fn nudged_integer(field: int, s: Seq<char>, up: bool) -> Option<int> {
    match (integer_steps(field), integer_in(field, s)) {
        (Some((step, low, high)), Some(v)) => {
            let moved = if up {
                v + step
            } else {
                v - step
            };
            Some(
                if moved < low {
                    low
                } else if moved > high {
                    high
                } else {
                    moved
                },
            )
        },
        _ => None,
    }
}

/// A number moved by a step, and held to 0 .. `limit`.
pub open spec fn stepped(number: Real, up: bool, step: u64, limit: u64) -> Real {
    let one = Real { bits: ONE_BITS };
    let direction = if up {
        one
    } else {
        one.negated()
    };
    number.plus(direction.times(Real { bits: step })).larger(Real { bits: ZERO }).smaller(
        Real { bits: limit },
    )
}

fn moved_within(number: Real, up: bool, step: u64, limit: u64) -> (r: Real)
    ensures
        r == stepped(number, up, step, limit),
{
    let one = Real { bits: ONE_BITS };
    let direction = if up {
        one
    } else {
        one.neg()
    };
    number.add(direction.mul(Real { bits: step })).max(Real { bits: ZERO }).min(
        Real { bits: limit },
    )
}

/// What a step makes of the number in a field, and its decimals.
pub open spec fn nudged_number(field: int, up: bool, number: Real) -> Option<(Real, u8)> {
    if field == LONG || field == SHORT {
        Some((stepped(number, up, FIVE_HUNDREDTHS, FIVE), 2u8))
    } else if field == COST {
        Some((stepped(number, up, ONE_BITS, HUNDRED), 1u8))
    } else {
        None
    }
}

/// Puts the settings of a form into an engine. What the engine has loaded and computed
/// stays.
pub fn apply_settings(engine: &mut HlpplEngine, s: FormSettings)
    requires
        old(engine).wf(),
    ensures
        final(engine).wf(),
        final(engine).ticker == s.ticker,
        final(engine).start == s.start,
        final(engine).end == s.end,
        final(engine).config == s.config,
        final(engine).initial_capital == s.capital,
        final(engine).bars == old(engine).bars,
        final(engine).result == old(engine).result,
        final(engine).trades == old(engine).trades,
        final(engine).fetch_status == old(engine).fetch_status,
        final(engine).last_future_prediction == old(engine).last_future_prediction,
        final(engine).last_live_sentiment == old(engine).last_live_sentiment,
{
    engine.ticker = s.ticker;
    engine.start = s.start;
    engine.end = s.end;
    engine.config = s.config;
    engine.initial_capital = s.capital;
}

/// The settings of an explorer that has just been opened: the defaults, but for a cost of 8
/// basis points, and a bubble confidence that can force a flat position.
pub open spec fn is_first_config(c: BacktestConfig) -> bool {
    &&& c.cost_bps == (Real { bits: EIGHT })
    &&& c.enable_bubble_analysis
    &&& c.use_confidence_for_flat
    &&& (BacktestConfig {
        cost_bps: Real { bits: TWELVE },
        enable_bubble_analysis: false,
        use_confidence_for_flat: false,
        ..c
    }).is_default()
}

/// The settings of an explorer that has just been opened.
pub fn first_config() -> (r: BacktestConfig)
    ensures
        is_first_config(r),
{
    let mut r = BacktestConfig::default();
    r.cost_bps = Real { bits: EIGHT };
    r.enable_bubble_analysis = true;
    r.use_confidence_for_flat = true;
    r
}

/// The engine of an explorer that has just been opened: CAR from 2022 to 2024, with a
/// capital of 10 000 and no data.
pub fn first_engine() -> (r: HlpplEngine)
    ensures
        r.wf(),
        r.ticker@ == text::upper_text("CAR"@),
        r.start == (Date { epoch_day: 18_993 }),
        r.end == (Date { epoch_day: 20_088 }),
        is_first_config(r.config),
        r.initial_capital == (Real { bits: TEN_THOUSAND }),
        r.bars is None,
        r.result is None,
        r.trades@.len() == 0,
        r.last_future_prediction is None,
        r.last_live_sentiment is None,
{
    HlpplEngine::new(
        "CAR",
        Date { epoch_day: 18_993 },
        Date { epoch_day: 20_088 },
        first_config(),
        Real { bits: TEN_THOUSAND },
    )
}

/// Law: settings that a form gives make a backtest possible: windows of at least 60 bars,
/// refits at intervals, thresholds that are not negative, and a positive capital, over at
/// least two days.
pub proof fn law_form_settings_are_usable(form: Form, numbers: FormNumbers, s: FormSettings)
    requires
        form.fault(numbers) is None,
        form.asks_for(numbers, s.config),
        Some(s.start) == date_of_text(form.field(START as int)),
        Some(s.end) == date_of_text(form.field(END as int)),
        Some(s.capital) == numbers.capital,
    ensures
        s.config.lookback_days >= 60,
        s.config.refit_every > 0,
        !s.config.long_threshold.below(Real { bits: ZERO }),
        !s.config.short_threshold.below(Real { bits: ZERO }),
        !s.capital.at_most(Real { bits: ZERO }),
        s.start.epoch_day < s.end.epoch_day,
{
}

} // verus!
