use hlpll_backtester::explorer::{ChartView, Explorer, Key, Request};

fn with_signals(n: usize) -> Explorer {
    let mut e = Explorer::new();
    e.run_ended(Some(n));
    e
}

fn press(e: &mut Explorer, keys: &[Key]) {
    for k in keys {
        e.handle_key(*k);
    }
}

#[test]
fn first_screen() {
    let e = Explorer::new();
    assert_eq!((e.view.start, e.view.len, e.view.cursor), (0, 300, 0));
    assert!(e.view.show_price && e.view.show_score && e.view.show_equity);
    assert!(e.running && !e.show_help && e.signals.is_none());
}

#[test]
fn results_are_shown_from_the_start() {
    let e = with_signals(700);
    assert_eq!((e.view.start, e.view.len, e.view.cursor), (0, 450, 350));
    let e = with_signals(30);
    assert_eq!((e.view.start, e.view.len, e.view.cursor), (0, 50, 15));
    let mut e = with_signals(700);
    e.view.start = 9;
    e.run_ended(None);
    assert!(e.signals.is_none());
    assert_eq!(e.view.start, 9);
    let mut e = with_signals(700);
    e.data_loaded();
    assert!(e.signals.is_none());
}

#[test]
fn keys_ask_for_work() {
    let mut e = Explorer::new();
    assert_eq!(e.handle_key(Key::Char('f')), Some(Request::Fetch));
    assert_eq!(e.handle_key(Key::Char('F')), Some(Request::Fetch));
    assert_eq!(e.handle_key(Key::Char('r')), Some(Request::Run));
    assert_eq!(e.handle_key(Key::Enter), Some(Request::Run));
    assert_eq!(e.handle_key(Key::Char('E')), Some(Request::Export));
    assert_eq!(e.handle_key(Key::Char('+')), Some(Request::Nudge { up: true }));
    assert_eq!(e.handle_key(Key::Char('=')), Some(Request::Nudge { up: true }));
    assert_eq!(e.handle_key(Key::Char('-')), Some(Request::Nudge { up: false }));
    assert_eq!(e.handle_key(Key::Char('_')), Some(Request::Nudge { up: false }));
    assert_eq!(e.handle_key(Key::Other), None);
    assert!(e.running);
    e.handle_key(Key::Char('q'));
    assert!(!e.running);
}

#[test]
fn help_shields_everything_else() {
    let mut e = with_signals(700);
    e.handle_key(Key::Char('?'));
    assert!(e.show_help);
    let before = (e.view, e.form.focused);
    for k in [Key::Char('r'), Key::Tab, Key::Left, Key::Char('Q'), Key::Backspace] {
        assert_eq!(e.handle_key(k), None);
        assert!(e.show_help && e.running);
        assert_eq!((e.view, e.form.focused), before);
    }
    for k in [Key::Esc, Key::Enter, Key::Char('q'), Key::Char('?')] {
        e.show_help = true;
        assert_eq!(e.handle_key(k), None);
        assert!(!e.show_help && e.running);
    }
}

#[test]
fn tabs_go_round_and_cancel() {
    let mut e = Explorer::new();
    e.handle_key(Key::BackTab);
    assert_eq!(e.form.focused, 12);
    e.handle_key(Key::Tab);
    assert_eq!(e.form.focused, 0);
    for i in 1..=13 {
        e.handle_key(Key::Tab);
        assert_eq!(e.form.focused, i % 13);
    }
}

#[test]
fn other_characters_are_typed() {
    let mut e = Explorer::new();
    press(&mut e, &[Key::Char('X'), Key::Char(' '), Key::Char('9')]);
    assert_eq!(e.form.fields[0], "CARX 9");
    press(&mut e, &[Key::Char('\u{e9}'), Key::Char('\t')]);
    assert_eq!(e.form.fields[0], "CARX 9");
    press(&mut e, &[Key::Backspace, Key::Backspace, Key::Backspace]);
    assert_eq!(e.form.fields[0], "CAR");
}

#[test]
fn series_are_toggled() {
    let mut e = Explorer::new();
    press(&mut e, &[Key::Char('p'), Key::Char('S'), Key::Char('u')]);
    assert!(!e.view.show_price && !e.view.show_score && !e.view.show_equity);
    e.handle_key(Key::Char('U'));
    assert!(e.view.show_equity);
}

#[test]
fn panning_keeps_the_cursor_in_view() {
    let mut e = with_signals(700);
    e.handle_key(Key::Char('l'));
    assert_eq!(e.view.start, 20);
    e.handle_key(Key::PageDown);
    assert_eq!(e.view.start, 100);
    press(&mut e, &[Key::PageDown; 5]);
    assert_eq!(e.view.start, 250);
    e.handle_key(Key::Left);
    assert_eq!(e.view.start, 230);
    press(&mut e, &[Key::PageUp; 5]);
    assert_eq!(e.view.start, 0);
    e.view.cursor = 10;
    e.handle_key(Key::Right);
    assert_eq!(e.view.start, 10);
    let mut idle = Explorer::new();
    idle.handle_key(Key::Right);
    assert_eq!(idle.view.start, 0);
}

fn expected_zoom(v: &ChartView, n: usize, factor: f32) -> (usize, usize) {
    let center = v.start + v.len / 2;
    let len = ((v.len as f32 * factor) as usize).clamp(20, n);
    let mut start = center.saturating_sub(len / 2).min(n.saturating_sub(len));
    if v.cursor < start {
        start = v.cursor;
    } else if v.cursor >= start + len {
        start = v.cursor.saturating_sub(len.saturating_sub(1)).min(n.saturating_sub(len));
    }
    if start + len > n {
        start = n.saturating_sub(len);
    }
    (start, len)
}

#[test]
fn zooming_scales_about_the_centre() {
    let mut e = with_signals(700);
    for (k, factor) in [
        (']', 0.75f32),
        (']', 0.75),
        ('[', 1.25),
        (']', 0.75),
        (']', 0.75),
        (']', 0.75),
        (']', 0.75),
        (']', 0.75),
        (']', 0.75),
        (']', 0.75),
        (']', 0.75),
        (']', 0.75),
        ('[', 1.25),
        ('[', 1.25),
    ] {
        let (start, len) = expected_zoom(&e.view, 700, factor);
        e.handle_key(Key::Char(k));
        assert_eq!((e.view.start, e.view.len), (start, len));
        assert!(e.view.cursor >= e.view.start && e.view.cursor < e.view.start + e.view.len);
    }
}

#[test]
fn zoom_rounds_long_views_as_single_precision_does() {
    let n = 100_000_000usize;
    for len in [16_777_217usize, 33_554_431, 50_331_651, 99_999_999, 20_000_003] {
        for wider in [false, true] {
            let mut v = ChartView::new();
            v.start = 5;
            v.len = len;
            v.cursor = 7;
            let want = expected_zoom(&v, n, if wider { 1.25 } else { 0.75 });
            v.zoom(n, wider);
            assert_eq!((v.start, v.len), want);
        }
    }
}

#[test]
fn the_cursor_stays_on_signals() {
    let mut e = with_signals(60);
    assert_eq!((e.view.len, e.view.cursor), (60, 30));
    e.handle_key(Key::End);
    assert_eq!(e.view.cursor, 59);
    press(&mut e, &[Key::Char('j'); 3]);
    assert_eq!(e.view.cursor, 59);
    e.handle_key(Key::Char('K'));
    assert_eq!(e.view.cursor, 58);
    e.handle_key(Key::Home);
    assert_eq!(e.view.cursor, 0);
    e.handle_key(Key::Char('k'));
    assert_eq!(e.view.cursor, 0);
    e.handle_key(Key::Char('0'));
    assert_eq!((e.view.start, e.view.len, e.view.cursor), (0, 60, 30));
    let mut idle = Explorer::new();
    idle.view.cursor = 4;
    idle.handle_key(Key::End);
    assert_eq!(idle.view.cursor, 4);
    idle.handle_key(Key::Home);
    assert_eq!(idle.view.cursor, 0);
}
