use satscanner::app::{App, Candidate, Direction, Key, KeyAction, TlePoll};
use satscanner::calendar::julian_day_number;
use satscanner::views::{regime_for_altitude, Regime, View};

fn overhead(score: Option<u64>) -> Candidate {
    Candidate { overhead: true, score }
}

fn below() -> Candidate {
    Candidate { overhead: false, score: None }
}

#[test]
fn new_app_defaults() {
    let app = App::new();
    assert_eq!(app.current_view, View::Overhead);
    assert_eq!(app.zoom_level, 60);
    assert_eq!(app.selected_overhead_idx, None);
    assert!(!app.is_fetching_tles && !app.show_help && !app.show_log);
    assert_eq!(app.loaded_tles, 0);
}

#[test]
fn zoom_is_clamped_and_only_on_overhead() {
    let mut app = App::new();
    for _ in 0..10 {
        app.zoom_in();
    }
    assert_eq!(app.zoom_level, 10);
    for _ in 0..30 {
        app.zoom_out();
    }
    assert_eq!(app.zoom_level, 180);
    app.zoom_in();
    app.zoom_out();
    assert_eq!(app.zoom_level, 180);
    app.set_view(View::Sky);
    app.zoom_in();
    assert_eq!(app.zoom_level, 180);
}

#[test]
fn keys_drive_the_state() {
    let mut app = App::new();
    assert_eq!(app.handle_key(Key::Char { c: 'q', ctrl: false }), KeyAction::Quit);
    assert_eq!(app.handle_key(Key::Esc), KeyAction::Quit);
    assert_eq!(app.handle_key(Key::Char { c: 'c', ctrl: true }), KeyAction::Quit);
    assert_eq!(app.handle_key(Key::Char { c: 'c', ctrl: false }), KeyAction::Continue);
    assert_eq!(app, App::new());
    app.handle_key(Key::Char { c: '2', ctrl: false });
    assert_eq!(app.current_view, View::Sky);
    app.handle_key(Key::Char { c: '3', ctrl: false });
    assert_eq!(app.current_view, View::GlobeBands);
    app.handle_key(Key::Char { c: '1', ctrl: false });
    app.handle_key(Key::Char { c: '=', ctrl: false });
    assert_eq!(app.zoom_level, 50);
    app.handle_key(Key::Char { c: '_', ctrl: false });
    assert_eq!(app.zoom_level, 60);
    assert_eq!(
        app.handle_key(Key::Arrow(Direction::Left)),
        KeyAction::Navigate(Direction::Left)
    );
    app.handle_key(Key::Char { c: '?', ctrl: false });
    app.handle_key(Key::Char { c: 'l', ctrl: false });
    assert!(app.show_help && app.show_log);
    app.handle_key(Key::Other);
    assert!(!app.show_help && app.show_log);
    app.handle_key(Key::Char { c: 'x', ctrl: false });
    assert!(!app.show_log);
}

#[test]
fn navigation_picks_lowest_score_first_on_ties() {
    let mut app = App::new();
    let cands = vec![below(), overhead(Some(7)), overhead(Some(3)), overhead(Some(3)), overhead(None)];
    app.navigate_spatial(&cands);
    assert_eq!(app.selected_overhead_idx, Some(2));
    // The current selection is never picked again.
    app.navigate_spatial(&cands);
    assert_eq!(app.selected_overhead_idx, Some(3));
}

#[test]
fn navigation_fallbacks() {
    let mut app = App::new();
    app.navigate_spatial(&vec![below(), overhead(None), overhead(None)]);
    assert_eq!(app.selected_overhead_idx, Some(1));
    app.navigate_spatial(&vec![below(), overhead(None), overhead(None)]);
    assert_eq!(app.selected_overhead_idx, Some(1));
    app.navigate_spatial(&vec![below(), below()]);
    assert_eq!(app.selected_overhead_idx, None);
    app.set_view(View::Sky);
    app.navigate_spatial(&vec![overhead(Some(1))]);
    assert_eq!(app.selected_overhead_idx, None);
}

#[test]
fn tick_follows_the_download() {
    let mut app = App::new();
    app.init();
    assert!(app.is_fetching_tles);
    assert!(!app.tick(TlePoll::Pending));
    assert!(app.is_fetching_tles);
    assert!(app.tick(TlePoll::Received(42)));
    assert!(!app.is_fetching_tles);
    assert_eq!(app.loaded_tles, 42);
    assert!(app.tick(TlePoll::NotWaiting));
    let mut other = App::new();
    other.init();
    assert!(!other.tick(TlePoll::Closed));
    assert!(!other.is_fetching_tles);
}

#[test]
fn selection_dropped_below_horizon() {
    let mut app = App::new();
    app.selected_overhead_idx = Some(1);
    app.drop_selection_below_horizon(&vec![true, true]);
    assert_eq!(app.selected_overhead_idx, Some(1));
    app.drop_selection_below_horizon(&vec![true]);
    assert_eq!(app.selected_overhead_idx, Some(1));
    app.drop_selection_below_horizon(&vec![true, false]);
    assert_eq!(app.selected_overhead_idx, None);
}

#[test]
fn status_text_is_exact() {
    let mut app = App::new();
    assert_eq!(app.status_text(), " View: Overhead Map | Status: Data Ready | Sats: 0 ");
    app.init();
    app.set_view(View::GlobeBands);
    assert_eq!(
        app.status_text(),
        " View: Altitude-Banded Globe | Status: Fetching TLEs... | Sats: 0 "
    );
    app.tick(TlePoll::Received(10203));
    app.set_view(View::Sky);
    assert_eq!(app.status_text(), " View: To-Scale Globe | Status: Data Ready | Sats: 10203 ");
}

#[test]
fn regimes_by_altitude() {
    assert_eq!(regime_for_altitude(408), Regime::Leo);
    assert_eq!(regime_for_altitude(1999), Regime::Leo);
    assert_eq!(regime_for_altitude(2000), Regime::Meo);
    assert_eq!(regime_for_altitude(20200), Regime::Meo);
    assert_eq!(regime_for_altitude(35786), Regime::Geo);
    assert_eq!(regime_for_altitude(37000), Regime::Heo);
    assert_eq!(regime_for_altitude(-5), Regime::Leo);
}

#[test]
fn julian_day_numbers() {
    // 2000-01-01: JD 2451544.5 at midnight.
    assert_eq!(julian_day_number(2000, 1, 1), 2451544 + 1525);
    // 1957-10-04: JD 2436115.5 at midnight.
    assert_eq!(julian_day_number(1957, 10, 4), 2436115 + 1525);
    // Leap day handling.
    assert_eq!(julian_day_number(2000, 3, 1) - julian_day_number(2000, 2, 1), 29);
    assert_eq!(julian_day_number(1900, 3, 1) - julian_day_number(1900, 2, 1), 28);
    assert_eq!(julian_day_number(2024, 3, 1) - julian_day_number(2024, 2, 28), 2);
    assert_eq!(julian_day_number(2026, 1, 1) - julian_day_number(2025, 12, 31), 1);
    // Years before -4716 (floor division of negative values).
    assert_eq!(julian_day_number(-4800, 3, 2) - julian_day_number(-4800, 3, 1), 1);
}

#[test]
fn julian_day_numbers_count_days_over_long_spans() {
    // 2000-01-01 to 2100-01-01: 100 years with 25 leap days (2000 to 2096).
    assert_eq!(julian_day_number(2100, 1, 1) - julian_day_number(2000, 1, 1), 36525);
    // 2100-01-01 to 2200-01-01: 2100 is no leap year, so one day fewer.
    assert_eq!(julian_day_number(2200, 1, 1) - julian_day_number(2100, 1, 1), 36524);
    // 1999-12-31 + 366 days (2000 is a leap year) = 2000-12-31 + 1 day.
    assert_eq!(julian_day_number(2001, 1, 1) - julian_day_number(1999, 12, 31), 367);
    // Walking day by day through a leap year matches the difference.
    let mut n: i64 = 0;
    let (mut y, mut m, mut d) = (2024, 1, 1u32);
    let days = [31u32, 29, 31, 30, 31, 30, 31, 31, 30, 31, 30, 31];
    while y == 2024 {
        assert_eq!(julian_day_number(y, m, d) - julian_day_number(2024, 1, 1), n);
        d += 1;
        if d > days[(m - 1) as usize] {
            d = 1;
            m += 1;
            if m > 12 {
                m = 1;
                y += 1;
            }
        }
        n += 1;
    }
    assert_eq!(n, 366);
}
