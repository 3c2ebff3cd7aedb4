//! The terminal explorer between two keys: its form, what its charts show, and what a key
//! asks for.

use crate::form::{Form, NUM_FIELDS};
use crate::rounding;
use vstd::prelude::*;

verus! {

/// A key, as a terminal reports it.
#[derive(Clone, Copy, Debug, PartialEq, Eq, Structural)]
pub enum Key {
    Char(char),
    Left,
    Right,
    PageUp,
    PageDown,
    Home,
    End,
    Tab,
    BackTab,
    Enter,
    Esc,
    Backspace,
    Other,
}

/// Work that a key asks for and the explorer cannot do by itself.
#[derive(Clone, Copy, Debug, PartialEq, Eq, Structural)]
pub enum Request {
    Fetch,
    Run,
    Export,
    /// Move the number in the focused field a step up or down.
    Nudge { up: bool },
}

/// What the charts show of a result.
#[derive(Clone, Copy, Debug, PartialEq, Eq, Structural)]
pub struct ChartView {
    /// First signal shown.
    pub start: usize,
    /// Number of signals shown.
    pub len: usize,
    /// Signal whose details are shown.
    pub cursor: usize,
    pub show_price: bool,
    pub show_score: bool,
    pub show_equity: bool,
}

/// `a - b`, 0 at least.
pub open spec fn less(a: int, b: int) -> int {
    if a < b {
        0
    } else {
        a - b
    }
}

pub open spec fn lower(a: int, b: int) -> int {
    if a < b {
        a
    } else {
        b
    }
}

fn less_of(a: usize, b: usize) -> (r: usize)
    ensures
        r == less(a as int, b as int),
{
    if a < b {
        0
    } else {
        a - b
    }
}

fn lower_of(a: usize, b: usize) -> (r: usize)
    ensures
        r == lower(a as int, b as int),
{
    if a < b {
        a
    } else {
        b
    }
}

/// How often `x` is halved before it fits 24 bits.
pub open spec fn single_scale(x: nat) -> nat
    decreases x,
{
    if x < 0x100_0000 {
        0
    } else {
        1 + single_scale(x / 2)
    }
}

/// The whole number nearest to `x` with 24 significant bits, ties to even: how single
/// precision holds it.
pub open spec fn single(x: nat) -> nat {
    let unit = vstd::arithmetic::power2::pow2(single_scale(x));
    rounding::nearest_even(x / unit, x % unit, unit) * unit
}

/// A length scaled by 5/4 or by 3/4 in single precision, the fraction cut off.
pub open spec fn scaled_length(len: nat, wider: bool) -> nat {
    let factor: nat = if wider {
        5
    } else {
        3
    };
    single(single(len) * factor) / 4
}

fn to_single(x: u128) -> (r: u128)
    requires
        x < 0x8_0000_0000_0000_0000,
    ensures
        r == single(x as nat),
        r < 0x10_0000_0000_0000_0000,
{
    let mut unit: u128 = 1;
    let mut rest: u128 = x;
    let ghost mut k: nat = 0;
    proof {
        vstd::arithmetic::power2::lemma2_to64();
        assert(x / 1 == x);
    }
    while rest >= 0x100_0000
        invariant
            unit == vstd::arithmetic::power2::pow2(k),
            unit >= 1,
            rest == x / unit,
            single_scale(x as nat) == k + single_scale(rest as nat),
            x < 0x8_0000_0000_0000_0000,
            unit <= x || unit == 1,
        decreases rest,
    {
        proof {
            vstd::arithmetic::power2::lemma_pow2_unfold(k + 1);
            vstd::arithmetic::div_mod::lemma_div_denominator(x as int, unit as int, 2);
            vstd::arithmetic::div_mod::lemma_fundamental_div_mod(x as int, unit as int);
            assert(unit * 2 <= x) by (nonlinear_arith)
                requires
                    x == unit * rest + (x % unit),
                    rest >= 2,
                    unit >= 1,
            ;
            k = k + 1;
        }
        rest = rest / 2;
        unit = unit * 2;
    }
    let low: u128 = x % unit;
    proof {
        vstd::arithmetic::div_mod::lemma_fundamental_div_mod(x as int, unit as int);
        assert((rest + 1) * unit <= x + unit) by (nonlinear_arith)
            requires
                x == unit * rest + low,
                low >= 0,
        ;
        assert(rest * unit <= (rest + 1) * unit) by (nonlinear_arith);
    }
    if 2 * low > unit || (2 * low == unit && rest % 2 == 1) {
        (rest + 1) * unit
    } else {
        rest * unit
    }
}

fn scale_length(len: usize, wider: bool) -> (r: u128)
    ensures
        r == scaled_length(len as nat, wider),
{
    let factor: u128 = if wider {
        5
    } else {
        3
    };
    let rounded: u128 = to_single(len as u128);
    proof {
        lemma_single_bound(len as nat);
    }
    to_single(rounded * factor) / 4
}

/// A number below 2^64 stays at or below 2^64 in single precision.
proof fn lemma_single_bound(x: nat)
    requires
        x < 0x1_0000_0000_0000_0000,
    ensures
        single(x) <= 0x1_0000_0000_0000_0000,
{
    let k = single_scale(x);
    let unit = vstd::arithmetic::power2::pow2(k);
    lemma_single_scale(x);
    vstd::arithmetic::power2::lemma_pow2_pos(k);
    vstd::arithmetic::power2::lemma2_to64();
    vstd::arithmetic::power2::lemma2_to64_rest();
    if k > 40 {
        vstd::arithmetic::power2::lemma_pow2_strictly_increases(40, k);
        if k > 41 {
            vstd::arithmetic::power2::lemma_pow2_strictly_increases(41, k);
        }
        assert(0x80_0000 * unit >= 0x1_0000_0000_0000_0000) by (nonlinear_arith)
            requires
                unit >= 0x200_0000_0000,
        ;
    }
    vstd::arithmetic::div_mod::lemma_fundamental_div_mod(x as int, unit as int);
    let m = x / unit;
    let low = x % unit;
    if k == 40 {
        assert(m + 1 <= 0x100_0000) by (nonlinear_arith)
            requires
                x == unit * m + low,
                x < 0x1_0000_0000_0000_0000,
                unit == 0x100_0000_0000,
                low >= 0,
        ;
        assert((m + 1) * unit <= 0x1_0000_0000_0000_0000) by (nonlinear_arith)
            requires
                m + 1 <= 0x100_0000,
                unit == 0x100_0000_0000,
        ;
    } else if k < 40 {
        vstd::arithmetic::power2::lemma_pow2_strictly_increases(k, 40);
        assert(m < 0x100_0000) by (nonlinear_arith)
            requires
                x == unit * m + low,
                x < 0x100_0000 * unit,
                unit >= 1,
                low >= 0,
        ;
        assert((m + 1) * unit <= 0x1_0000_0000_0000_0000) by (nonlinear_arith)
            requires
                m + 1 <= 0x100_0000,
                unit <= 0x100_0000_0000,
        ;
    }
    assert(m * unit <= (m + 1) * unit) by (nonlinear_arith);
}

proof fn lemma_single_scale(x: nat)
    ensures
        x < 0x100_0000 * vstd::arithmetic::power2::pow2(single_scale(x)),
        single_scale(x) > 0 ==> x >= 0x80_0000 * vstd::arithmetic::power2::pow2(
            single_scale(x),
        ),
    decreases x,
{
    vstd::arithmetic::power2::lemma2_to64();
    if x >= 0x100_0000 {
        lemma_single_scale(x / 2);
        let k = single_scale(x / 2);
        vstd::arithmetic::power2::lemma_pow2_unfold(k + 1);
    }
}

impl ChartView {
    /// The view of an explorer that has just been opened.
    pub fn new() -> (r: ChartView)
        ensures
            r == (ChartView {
                start: 0,
                len: 300,
                cursor: 0,
                show_price: true,
                show_score: true,
                show_equity: true,
            }),
    {
        ChartView {
            start: 0,
            len: 300,
            cursor: 0,
            show_price: true,
            show_score: true,
            show_equity: true,
        }
    }

    /// The view moved so that the cursor is in it, and so that it does not reach behind the
    /// last of `n` signals unless it is longer than all of them.
    pub open spec fn with_cursor_shown(self, n: int) -> ChartView {
        let end = self.start + self.len;
        let first = if self.cursor < self.start {
            self.cursor as int
        } else if self.cursor >= end {
            lower(less(self.cursor as int, less(self.len as int, 1)), less(n, self.len as int))
        } else {
            self.start as int
        };
        let held = if first + self.len > n {
            less(n, self.len as int)
        } else {
            first
        };
        ChartView { start: held as usize, ..self }
    }

    /// Moves the view so that the cursor is in it.
    pub fn ensure_cursor_visible(&mut self, n: usize)
        ensures
            *final(self) == old(self).with_cursor_shown(n as int),
    {
        if self.cursor < self.start {
            self.start = self.cursor;
        } else if self.cursor - self.start >= self.len {
            self.start = lower_of(
                less_of(self.cursor, less_of(self.len, 1)),
                less_of(n, self.len),
            );
        }
        if self.len > n || self.start > n - self.len {
            self.start = less_of(n, self.len);
        }
    }

    /// The view moved by `delta` signals.
    pub open spec fn panned(self, n: int, delta: int) -> ChartView {
        let wanted = self.start + delta;
        let first = lower(
            if wanted < 0 {
                0
            } else {
                wanted
            },
            less(n, self.len as int),
        );
        (ChartView { start: first as usize, ..self }).with_cursor_shown(n)
    }

    /// Moves the view by `delta` signals, within the signals, and keeps the cursor in it.
    pub fn pan(&mut self, n: usize, delta: i32)
        ensures
            *final(self) == old(self).panned(n as int, delta as int),
    {
        let wanted: i128 = self.start as i128 + delta as i128;
        let last: usize = less_of(n, self.len);
        self.start = if wanted < 0 {
            0
        } else if wanted > last as i128 {
            last
        } else {
            wanted as usize
        };
        self.ensure_cursor_visible(n);
    }

    /// The view widened to 5/4, or narrowed to 3/4, around its middle; it shows at least 20
    /// signals, and no more than there are.
    pub open spec fn zoomed(self, n: int, wider: bool) -> ChartView {
        let wanted = scaled_length(self.len as nat, wider) as int;
        let len = if wanted < 20 {
            20
        } else if wanted > n {
            n
        } else {
            wanted
        };
        let center = self.start + self.len / 2;
        let first = lower(less(center, len / 2), less(n, len));
        (ChartView { start: first as usize, len: len as usize, ..self }).with_cursor_shown(n)
    }

    /// Widens or narrows the view around its middle.
    pub fn zoom(&mut self, n: usize, wider: bool)
        requires
            n >= 20,
        ensures
            *final(self) == old(self).zoomed(n as int, wider),
    {
        let wanted: u128 = scale_length(self.len, wider);
        let center: u128 = self.start as u128 + (self.len / 2) as u128;
        let len: usize = if wanted < 20 {
            20
        } else if wanted > n as u128 {
            n
        } else {
            wanted as usize
        };
        let half: u128 = (len / 2) as u128;
        let last: usize = less_of(n, len);
        let first: u128 = if center < half {
            0
        } else {
            center - half
        };
        self.start = if first < last as u128 {
            first as usize
        } else {
            last
        };
        self.len = len;
        self.ensure_cursor_visible(n);
    }

    /// The view with its cursor moved by `delta` signals.
    pub open spec fn cursor_moved(self, n: int, delta: int) -> ChartView {
        let wanted = self.cursor + delta;
        let at = lower(
            if wanted < 0 {
                0
            } else {
                wanted
            },
            n - 1,
        );
        (ChartView { cursor: at as usize, ..self }).with_cursor_shown(n)
    }

    /// Moves the cursor by `delta` signals, within the signals.
    pub fn move_cursor(&mut self, n: usize, delta: i32)
        requires
            n > 0,
        ensures
            *final(self) == old(self).cursor_moved(n as int, delta as int),
    {
        let wanted: i128 = self.cursor as i128 + delta as i128;
        self.cursor = if wanted < 0 {
            0
        } else if wanted > (n - 1) as i128 {
            n - 1
        } else {
            wanted as usize
        };
        self.ensure_cursor_visible(n);
    }

    /// The view of up to `limit` signals from the first, the cursor in the middle.
    pub open spec fn fitted(self, n: int, limit: int) -> ChartView {
        ChartView {
            start: 0,
            len: lower(n, limit) as usize,
            cursor: lower(n / 2, less(n, 1)) as usize,
            ..self
        }
    }

    /// Shows up to 500 signals from the first.
    pub fn reset(&mut self, n: usize)
        ensures
            *final(self) == old(self).fitted(n as int, 500),
    {
        self.start = 0;
        self.len = lower_of(n, 500);
        self.cursor = lower_of(n / 2, less_of(n, 1));
    }

    /// The view of a result that has just been computed: up to 450 signals from the first,
    /// room for at least 50, the cursor in the middle.
    pub fn show_result(&mut self, n: usize)
        ensures
            final(self).start == 0,
            final(self).len == if lower(n as int, 450) < 50 {
                50
            } else {
                lower(n as int, 450)
            },
            final(self).cursor == lower(less(n as int, 1), n as int / 2),
            final(self).show_price == old(self).show_price,
            final(self).show_score == old(self).show_score,
            final(self).show_equity == old(self).show_equity,
    {
        self.start = 0;
        let shown: usize = lower_of(n, 450);
        self.len = if shown < 50 {
            50
        } else {
            shown
        };
        self.cursor = lower_of(less_of(n, 1), n / 2);
    }
}

/// Law: once the cursor is on a signal and the view is not longer than the result, showing
/// the cursor puts it into the view, and the view lies inside the result.
pub proof fn law_cursor_is_shown(view: ChartView, n: int)
    requires
        1 <= view.len <= n <= usize::MAX,
        view.cursor < n,
    ensures
        ({
            let shown = view.with_cursor_shown(n);
            &&& shown.start <= shown.cursor < shown.start + shown.len
            &&& shown.start + shown.len <= n
            &&& shown.cursor == view.cursor
            &&& shown.len == view.len
        }),
{
}

/// Law: zooming in or out leaves a view inside the result, with the cursor in it.
pub proof fn law_zoom_stays_inside(view: ChartView, n: int, wider: bool)
    requires
        20 <= n <= usize::MAX,
        view.cursor < n,
    ensures
        ({
            let zoomed = view.zoomed(n, wider);
            &&& 20 <= zoomed.len <= n
            &&& zoomed.start + zoomed.len <= n
            &&& zoomed.start <= zoomed.cursor < zoomed.start + zoomed.len
        }),
{
}

/// Law: the cursor never leaves the signals.
pub proof fn law_cursor_stays_on_signals(view: ChartView, n: int, delta: int)
    requires
        0 < n <= usize::MAX,
    ensures
        view.cursor_moved(n, delta).cursor < n,
{
}

/// The explorer between two keys.
#[derive(Clone, Debug)]
pub struct Explorer {
    pub form: Form,
    pub view: ChartView,
    /// Number of signals of the current result, if there is one.
    pub signals: Option<usize>,
    pub show_help: bool,
    pub running: bool,
}

/// What a key makes of the explorer.
pub struct KeyEffect {
    pub texts: Seq<Seq<char>>,
    pub focused: int,
    pub view: ChartView,
    pub show_help: bool,
    pub running: bool,
    pub request: Option<Request>,
}

/// A character that can be typed into a field.
pub open spec fn is_printable(c: char) -> bool {
    ' ' <= c <= '~'
}

/// A line that a chart can show.
#[derive(Clone, Copy, Debug, PartialEq, Eq, Structural)]
pub enum ChartSeries {
    Price,
    Score,
    Equity,
}

/// What a character asks for, where it is a command.
#[derive(Clone, Copy, Debug, PartialEq, Eq, Structural)]
pub enum Command {
    Quit,
    Help,
    Ask(Request),
    Reset,
    Toggle(ChartSeries),
    Pan(i32),
    Zoom { wider: bool },
    MoveCursor(i32),
}

/// The command that a character stands for.
pub open spec fn command_of(c: char) -> Option<Command> {
    if c == 'q' || c == 'Q' {
        Some(Command::Quit)
    } else if c == '?' {
        Some(Command::Help)
    } else if c == 'f' || c == 'F' {
        Some(Command::Ask(Request::Fetch))
    } else if c == 'r' || c == 'R' {
        Some(Command::Ask(Request::Run))
    } else if c == 'e' || c == 'E' {
        Some(Command::Ask(Request::Export))
    } else if c == '0' {
        Some(Command::Reset)
    } else if c == 'p' || c == 'P' {
        Some(Command::Toggle(ChartSeries::Price))
    } else if c == 's' || c == 'S' {
        Some(Command::Toggle(ChartSeries::Score))
    } else if c == 'u' || c == 'U' {
        Some(Command::Toggle(ChartSeries::Equity))
    } else if c == '+' || c == '=' {
        Some(Command::Ask(Request::Nudge { up: true }))
    } else if c == '-' || c == '_' {
        Some(Command::Ask(Request::Nudge { up: false }))
    } else if c == 'h' || c == 'H' {
        Some(Command::Pan((-20) as i32))
    } else if c == 'l' || c == 'L' {
        Some(Command::Pan(20))
    } else if c == '[' {
        Some(Command::Zoom { wider: true })
    } else if c == ']' {
        Some(Command::Zoom { wider: false })
    } else if c == 'j' || c == 'J' {
        Some(Command::MoveCursor(1))
    } else if c == 'k' || c == 'K' {
        Some(Command::MoveCursor((-1) as i32))
    } else {
        None
    }
}

fn read_command(c: char) -> (r: Option<Command>)
    ensures
        r == command_of(c),
{
    if c == 'q' || c == 'Q' {
        Some(Command::Quit)
    } else if c == '?' {
        Some(Command::Help)
    } else if c == 'f' || c == 'F' {
        Some(Command::Ask(Request::Fetch))
    } else if c == 'r' || c == 'R' {
        Some(Command::Ask(Request::Run))
    } else if c == 'e' || c == 'E' {
        Some(Command::Ask(Request::Export))
    } else if c == '0' {
        Some(Command::Reset)
    } else if c == 'p' || c == 'P' {
        Some(Command::Toggle(ChartSeries::Price))
    } else if c == 's' || c == 'S' {
        Some(Command::Toggle(ChartSeries::Score))
    } else if c == 'u' || c == 'U' {
        Some(Command::Toggle(ChartSeries::Equity))
    } else if c == '+' || c == '=' {
        Some(Command::Ask(Request::Nudge { up: true }))
    } else if c == '-' || c == '_' {
        Some(Command::Ask(Request::Nudge { up: false }))
    } else if c == 'h' || c == 'H' {
        Some(Command::Pan(-20))
    } else if c == 'l' || c == 'L' {
        Some(Command::Pan(20))
    } else if c == '[' {
        Some(Command::Zoom { wider: true })
    } else if c == ']' {
        Some(Command::Zoom { wider: false })
    } else if c == 'j' || c == 'J' {
        Some(Command::MoveCursor(1))
    } else if c == 'k' || c == 'K' {
        Some(Command::MoveCursor(-1))
    } else {
        None
    }
}

/// The view after a command; without a result only the toggles act.
pub open spec fn commanded_view(view: ChartView, signals: Option<usize>, c: Command) -> ChartView {
    match (c, signals) {
        (Command::Toggle(series), _) => match series {
            ChartSeries::Price => ChartView { show_price: !view.show_price, ..view },
            ChartSeries::Score => ChartView { show_score: !view.show_score, ..view },
            ChartSeries::Equity => ChartView { show_equity: !view.show_equity, ..view },
        },
        (Command::Reset, Some(n)) => view.fitted(n as int, 500),
        (Command::Pan(delta), Some(n)) => view.panned(n as int, delta as int),
        (Command::Zoom { wider }, Some(n)) => view.zoomed(n as int, wider),
        (Command::MoveCursor(delta), Some(n)) => view.cursor_moved(n as int, delta as int),
        _ => view,
    }
}

impl Explorer {
    /// The form is whole, and a result has at least 20 signals.
    pub open spec fn wf(self) -> bool {
        self.form.wf() && (self.signals matches Some(n) ==> n >= 20)
    }

    /// The explorer as a key leaves it, where the key changes nothing.
    pub open spec fn unchanged(self) -> KeyEffect {
        KeyEffect {
            texts: self.form.texts(),
            focused: self.form.focused as int,
            view: self.view,
            show_help: self.show_help,
            running: self.running,
            request: None,
        }
    }

    /// What a command makes of the explorer.
    pub open spec fn commanded(self, c: Command) -> KeyEffect {
        let idle = self.unchanged();
        match c {
            Command::Quit => KeyEffect { running: false, ..idle },
            Command::Help => KeyEffect { show_help: true, ..idle },
            Command::Ask(request) => KeyEffect { request: Some(request), ..idle },
            _ => KeyEffect { view: commanded_view(self.view, self.signals, c), ..idle },
        }
    }

    /// What a key makes of the explorer. While the help is shown, keys only close it.
    pub open spec fn after_key(self, key: Key) -> KeyEffect {
        let idle = self.unchanged();
        if self.show_help {
            match key {
                Key::Esc | Key::Enter => KeyEffect { show_help: false, ..idle },
                Key::Char(c) if c == '?' || c == 'q' => KeyEffect { show_help: false, ..idle },
                _ => idle,
            }
        } else {
            match key {
                Key::Char(c) => match command_of(c) {
                    Some(command) => self.commanded(command),
                    None => if is_printable(c) {
                        KeyEffect {
                            texts: idle.texts.update(
                                self.form.focused as int,
                                self.form.field(self.form.focused as int).push(c),
                            ),
                            ..idle
                        }
                    } else {
                        idle
                    },
                },
                Key::Left => self.commanded(Command::Pan((-20) as i32)),
                Key::Right => self.commanded(Command::Pan(20)),
                Key::PageUp => self.commanded(Command::Pan((-80) as i32)),
                Key::PageDown => self.commanded(Command::Pan(80)),
                Key::Home => KeyEffect {
                    view: match self.signals {
                        Some(n) => (ChartView { cursor: 0, ..self.view }).with_cursor_shown(
                            n as int,
                        ),
                        None => ChartView { cursor: 0, ..self.view },
                    },
                    ..idle
                },
                Key::End => KeyEffect {
                    view: match self.signals {
                        Some(n) => (ChartView {
                            cursor: less(n as int, 1) as usize,
                            ..self.view
                        }).with_cursor_shown(n as int),
                        None => self.view,
                    },
                    ..idle
                },
                Key::Tab => KeyEffect {
                    focused: (self.form.focused + 1) % NUM_FIELDS as int,
                    ..idle
                },
                Key::BackTab => KeyEffect {
                    focused: (self.form.focused + NUM_FIELDS - 1) % NUM_FIELDS as int,
                    ..idle
                },
                Key::Enter => KeyEffect { request: Some(Request::Run), ..idle },
                Key::Backspace => KeyEffect {
                    texts: idle.texts.update(
                        self.form.focused as int,
                        crate::form::erased(self.form.field(self.form.focused as int)),
                    ),
                    ..idle
                },
                _ => idle,
            }
        }
    }

    /// The explorer is as a key's effect says.
    pub open spec fn shows(self, effect: KeyEffect) -> bool {
        &&& self.form.texts() == effect.texts
        &&& self.form.focused == effect.focused
        &&& self.view == effect.view
        &&& self.show_help == effect.show_help
        &&& self.running == effect.running
    }

    /// An explorer that has just been opened.
    pub fn new() -> (r: Explorer)
        ensures
            r.wf(),
            r.form.is_first(),
            r.view == (ChartView {
                start: 0,
                len: 300,
                cursor: 0,
                show_price: true,
                show_score: true,
                show_equity: true,
            }),
            r.signals is None,
            !r.show_help,
            r.running,
    {
        Explorer {
            form: Form::new(),
            view: ChartView::new(),
            signals: None,
            show_help: false,
            running: true,
        }
    }

    /// New bars have been loaded: there is no result any more.
    pub fn data_loaded(&mut self)
        requires
            old(self).wf(),
        ensures
            final(self).wf(),
            final(self).signals is None,
            *final(self) == (Explorer { signals: None, ..*old(self) }),
    {
        self.signals = None;
    }

    /// A run has ended; the engine now holds a result of so many signals, or none. A result
    /// is shown from its first signal on.
    pub fn run_ended(&mut self, signals: Option<usize>)
        requires
            old(self).wf(),
            signals matches Some(n) ==> n >= 20,
        ensures
            final(self).wf(),
            *final(self) == (Explorer { signals, view: final(self).view, ..*old(self) }),
            signals is None ==> final(self).view == old(self).view,
            signals matches Some(n) ==> {
                &&& final(self).view.start == 0
                &&& final(self).view.len == if lower(n as int, 450) < 50 {
                    50
                } else {
                    lower(n as int, 450)
                }
                &&& final(self).view.cursor == lower(less(n as int, 1), n as int / 2)
            },
    {
        self.signals = signals;
        if let Some(n) = signals {
            self.view.show_result(n);
        }
    }

    fn obey(&mut self, c: Command) -> (r: Option<Request>)
        requires
            old(self).wf(),
        ensures
            final(self).wf(),
            final(self).shows(old(self).commanded(c)),
            final(self).form == old(self).form,
            final(self).signals == old(self).signals,
            r == old(self).commanded(c).request,
    {
        match c {
            Command::Quit => {
                self.running = false;
            },
            Command::Help => {
                self.show_help = true;
            },
            Command::Ask(request) => {
                return Some(request);
            },
            Command::Toggle(series) => match series {
                ChartSeries::Price => {
                    self.view.show_price = !self.view.show_price;
                },
                ChartSeries::Score => {
                    self.view.show_score = !self.view.show_score;
                },
                ChartSeries::Equity => {
                    self.view.show_equity = !self.view.show_equity;
                },
            },
            Command::Reset => {
                if let Some(n) = self.signals {
                    self.view.reset(n);
                }
            },
            Command::Pan(delta) => {
                if let Some(n) = self.signals {
                    self.view.pan(n, delta);
                }
            },
            Command::Zoom { wider } => {
                if let Some(n) = self.signals {
                    self.view.zoom(n, wider);
                }
            },
            Command::MoveCursor(delta) => {
                if let Some(n) = self.signals {
                    self.view.move_cursor(n, delta);
                }
            },
        }
        None
    }

    /// Takes a key; gives the work that it asks for. The explorer runs on while `running`.
    pub fn handle_key(&mut self, key: Key) -> (r: Option<Request>)
        requires
            old(self).wf(),
        ensures
            final(self).wf(),
            final(self).shows(old(self).after_key(key)),
            final(self).signals == old(self).signals,
            final(self).form.analysis == old(self).form.analysis,
            final(self).form.use_confidence_for_flat == old(self).form.use_confidence_for_flat,
            r == old(self).after_key(key).request,
    {
        if self.show_help {
            match key {
                Key::Esc | Key::Enter => {
                    self.show_help = false;
                },
                Key::Char(c) => {
                    if c == '?' || c == 'q' {
                        self.show_help = false;
                    }
                },
                _ => {},
            }
            return None;
        }
        match key {
            Key::Char(c) => match read_command(c) {
                Some(command) => self.obey(command),
                None => {
                    if ' ' <= c && c <= '~' {
                        self.form.type_char(c);
                    }
                    None
                },
            },
            Key::Left => self.obey(Command::Pan(-20)),
            Key::Right => self.obey(Command::Pan(20)),
            Key::PageUp => self.obey(Command::Pan(-80)),
            Key::PageDown => self.obey(Command::Pan(80)),
            Key::Home => {
                self.view.cursor = 0;
                if let Some(n) = self.signals {
                    self.view.ensure_cursor_visible(n);
                }
                None
            },
            Key::End => {
                if let Some(n) = self.signals {
                    self.view.cursor = less_of(n, 1);
                    self.view.ensure_cursor_visible(n);
                }
                None
            },
            Key::Tab => {
                self.form.focused = (self.form.focused + 1) % NUM_FIELDS;
                None
            },
            Key::BackTab => {
                self.form.focused = (self.form.focused + NUM_FIELDS - 1) % NUM_FIELDS;
                None
            },
            Key::Enter => Some(Request::Run),
            Key::Backspace => {
                self.form.erase_char();
                None
            },
            _ => None,
        }
    }
}

/// Law: Tab and Shift-Tab undo each other.
pub proof fn law_tabs_cancel(focused: int)
    requires
        0 <= focused < NUM_FIELDS,
    ensures
        ((focused + 1) % NUM_FIELDS as int + NUM_FIELDS - 1) % NUM_FIELDS as int == focused,
        ((focused + NUM_FIELDS - 1) % NUM_FIELDS as int + 1) % NUM_FIELDS as int == focused,
{
}

/// Law: while the help is shown, a key changes nothing but the help and asks for nothing.
pub proof fn law_help_shields(explorer: Explorer, key: Key)
    requires
        explorer.show_help,
    ensures
        explorer.after_key(key) == (KeyEffect {
            show_help: explorer.after_key(key).show_help,
            ..explorer.unchanged()
        }),
{
}

/// Law: a key that is not a command and can be printed is taken back by a backspace.
pub proof fn law_backspace_undoes_typing(s: Seq<char>, c: char)
    ensures
        crate::form::erased(s.push(c)) == s,
{
    assert(s.push(c).drop_last() =~= s);
}

} // verus!
