use vstd::prelude::*;
use crate::text::{decimal, push_decimal};
use crate::views;

verus! {

/// Default latitude span of the overhead map, in degrees.
pub const DEFAULT_ZOOM: u32 = 60;
/// Narrowest latitude span the overhead map zooms in to.
pub const MIN_ZOOM: u32 = 10;
/// Widest latitude span the overhead map zooms out to.
pub const MAX_ZOOM: u32 = 180;
/// Change of the latitude span per zoom step.
pub const ZOOM_STEP: u32 = 10;

/// The interactive state of the tracker: which view is shown, the TLE
/// download status, the selected satellite and the overlays.
#[derive(Debug, Clone, Copy, PartialEq, Eq, Structural)]
pub struct App {
    pub current_view: views::View,
    pub is_fetching_tles: bool,
    pub loaded_tles: usize,
    /// Index into the latest satellite states of the selected satellite.
    pub selected_overhead_idx: Option<usize>,
    /// Latitude span of the overhead map, in degrees.
    pub zoom_level: u32,
    pub show_help: bool,
    pub show_log: bool,
}

/// What the navigation step knows of one satellite: whether it is above the
/// observer's horizon, and its score as a candidate for the pressed
/// direction (lower is better; `None` when it is not ahead in that
/// direction). Scores are order keys: comparing them compares the scores.
#[derive(Debug, Clone, Copy, PartialEq, Eq, Structural)]
pub struct Candidate {
    pub overhead: bool,
    pub score: Option<u64>,
}

/// The outcome of polling the background TLE download on a tick.
#[derive(Debug, Clone, Copy, PartialEq, Eq, Structural)]
pub enum TlePoll {
    /// No download is awaited.
    NotWaiting,
    /// The download is still running.
    Pending,
    /// The download delivered this many element sets.
    Received(usize),
    /// The download ended without delivering anything.
    Closed,
}

/// An arrow key.
#[derive(Debug, Clone, Copy, PartialEq, Eq, Structural)]
pub enum Direction {
    Left,
    Right,
    Up,
    Down,
}

/// A key press, as the tracker distinguishes them.
#[derive(Debug, Clone, Copy, PartialEq, Eq, Structural)]
pub enum Key {
    /// A character key; `ctrl` when Control was held.
    Char { c: char, ctrl: bool },
    Esc,
    Arrow(Direction),
    Other,
}

/// What the event loop does after a key press.
#[derive(Debug, Clone, Copy, PartialEq, Eq, Structural)]
pub enum KeyAction {
    /// Leave the program.
    Quit,
    /// Select the satellite in this direction (the caller scores the
    /// candidates and calls `navigate_spatial`).
    Navigate(Direction),
    /// Nothing more to do.
    Continue,
}

/// The state after a zoom-in step: narrower by one step, not below the
/// minimum; only the overhead map zooms.
pub open spec fn zoomed_in(a: App) -> App {
    if a.current_view == views::View::Overhead {
        App {
            zoom_level: if a.zoom_level >= MIN_ZOOM + ZOOM_STEP {
                (a.zoom_level - ZOOM_STEP) as u32
            } else {
                MIN_ZOOM
            },
            ..a
        }
    } else {
        a
    }
}

/// The state after a zoom-out step: wider by one step, not above the
/// maximum; only the overhead map zooms.
pub open spec fn zoomed_out(a: App) -> App {
    if a.current_view == views::View::Overhead {
        App {
            zoom_level: if a.zoom_level + ZOOM_STEP <= MAX_ZOOM {
                (a.zoom_level + ZOOM_STEP) as u32
            } else {
                MAX_ZOOM
            },
            ..a
        }
    } else {
        a
    }
}

/// A candidate the navigation may pick: above the horizon, not the current
/// selection, and scored.
pub open spec fn eligible(c: Seq<Candidate>, sel: Option<usize>, i: int) -> bool {
    &&& 0 <= i < c.len()
    &&& c[i].overhead
    &&& sel != Some(i as usize)
    &&& c[i].score is Some
}

/// `i` is the best eligible candidate: lowest score, and the first among
/// equal scores.
pub open spec fn is_best(c: Seq<Candidate>, sel: Option<usize>, i: int) -> bool {
    &&& eligible(c, sel, i)
    &&& forall|j: int|
        #![trigger c[j]]
        eligible(c, sel, j) ==> c[i].score->0 < c[j].score->0 || (c[i].score->0 == c[j].score->0
            && i <= j)
}

/// Some satellite is above the horizon.
pub open spec fn any_overhead(c: Seq<Candidate>) -> bool {
    exists|i: int| 0 <= i < c.len() && #[trigger] c[i].overhead
}

/// `i` is the first satellite above the horizon.
pub open spec fn is_first_overhead(c: Seq<Candidate>, i: int) -> bool {
    &&& 0 <= i < c.len()
    &&& c[i].overhead
    &&& forall|j: int| 0 <= j < i ==> !(#[trigger] c[j]).overhead
}

/// The selection after an arrow key on the overhead map: the best eligible
/// candidate; failing one, the current selection, or the first satellite
/// above the horizon when nothing is selected; nothing when no satellite is
/// above the horizon.
pub open spec fn navigation_target(c: Seq<Candidate>, sel: Option<usize>, r: Option<usize>) -> bool {
    if !any_overhead(c) {
        r is None
    } else if exists|i: int| eligible(c, sel, i) {
        r is Some && is_best(c, sel, r->0 as int)
    } else if sel is Some {
        r == sel
    } else {
        r is Some && is_first_overhead(c, r->0 as int)
    }
}

/// The name the status bar gives a view.
pub open spec fn view_title(v: views::View) -> Seq<char> {
    match v {
        views::View::Overhead => "Overhead Map"@,
        views::View::Sky => "To-Scale Globe"@,
        views::View::GlobeBands => "Altitude-Banded Globe"@,
    }
}

/// The text of the status bar.
pub open spec fn status_line(a: App) -> Seq<char> {
    " View: "@ + view_title(a.current_view) + " | Status: "@ + (if a.is_fetching_tles {
        "Fetching TLEs..."@
    } else {
        "Data Ready"@
    }) + " | Sats: "@ + decimal(a.loaded_tles as nat) + " "@
}

/// The state after a tick that polled the download with outcome `poll`.
pub open spec fn after_poll(a: App, poll: TlePoll) -> App {
    match poll {
        TlePoll::Received(n) => App { loaded_tles: n, is_fetching_tles: false, ..a },
        TlePoll::Closed => App { is_fetching_tles: false, ..a },
        _ => a,
    }
}

impl App {
    /// The start-up state: overhead map, nothing loaded or selected, default
    /// zoom, no overlays.
    pub fn new() -> (app: Self)
        ensures
            app.current_view == views::View::Overhead,
            !app.is_fetching_tles,
            app.loaded_tles == 0,
            app.selected_overhead_idx is None,
            app.zoom_level == DEFAULT_ZOOM,
            !app.show_help,
            !app.show_log,
    {
        App {
            current_view: views::View::Overhead,
            is_fetching_tles: false,
            loaded_tles: 0,
            selected_overhead_idx: None,
            zoom_level: DEFAULT_ZOOM,
            show_help: false,
            show_log: false,
        }
    }

    /// Marks the TLE download as started (the caller starts it).
    pub fn init(&mut self)
        ensures
            *final(self) == (App { is_fetching_tles: true, ..*old(self) }),
    {
        self.is_fetching_tles = true;
    }

    pub fn toggle_help(&mut self)
        ensures
            *final(self) == (App { show_help: !old(self).show_help, ..*old(self) }),
    {
        self.show_help = !self.show_help;
    }

    pub fn toggle_log(&mut self)
        ensures
            *final(self) == (App { show_log: !old(self).show_log, ..*old(self) }),
    {
        self.show_log = !self.show_log;
    }

    pub fn set_view(&mut self, view: views::View)
        ensures
            *final(self) == (App { current_view: view, ..*old(self) }),
    {
        self.current_view = view;
    }

    /// Narrows the overhead map by one step.
    pub fn zoom_in(&mut self)
        ensures
            *final(self) == zoomed_in(*old(self)),
    {
        if self.current_view == views::View::Overhead {
            if self.zoom_level >= MIN_ZOOM + ZOOM_STEP {
                self.zoom_level = self.zoom_level - ZOOM_STEP;
            } else {
                self.zoom_level = MIN_ZOOM;
            }
        }
    }

    /// Widens the overhead map by one step.
    pub fn zoom_out(&mut self)
        ensures
            *final(self) == zoomed_out(*old(self)),
    {
        if self.current_view == views::View::Overhead {
            if self.zoom_level <= MAX_ZOOM - ZOOM_STEP {
                self.zoom_level = self.zoom_level + ZOOM_STEP;
            } else {
                self.zoom_level = MAX_ZOOM;
            }
        }
    }

    /// Moves the selection on the overhead map toward the pressed
    /// direction, given each satellite's standing as a candidate.
    pub fn navigate_spatial(&mut self, candidates: &Vec<Candidate>)
        ensures
            old(self).current_view != views::View::Overhead ==> *final(self) == *old(self),
            old(self).current_view == views::View::Overhead ==> {
                &&& *final(self) == (App {
                    selected_overhead_idx: final(self).selected_overhead_idx,
                    ..*old(self)
                })
                &&& navigation_target(
                    candidates@,
                    old(self).selected_overhead_idx,
                    final(self).selected_overhead_idx,
                )
            },
    {
        if self.current_view != views::View::Overhead {
            return;
        }
        let ghost c = candidates@;
        let sel = self.selected_overhead_idx;
        let n = candidates.len();
        let mut first: Option<usize> = None;
        let mut best: Option<usize> = None;
        let mut i: usize = 0;
        while i < n
            invariant
                n == c.len(),
                c == candidates@,
                i <= n,
                first is None ==> forall|j: int| 0 <= j < i ==> !(#[trigger] c[j]).overhead,
                first is Some ==> first->0 < i && is_first_overhead(c, first->0 as int),
                best is None ==> forall|j: int| 0 <= j < i ==> !eligible(c, sel, j),
                best is Some ==> {
                    &&& best->0 < i
                    &&& eligible(c, sel, best->0 as int)
                    &&& forall|j: int|
                        #![trigger c[j]]
                        0 <= j < i && eligible(c, sel, j) ==> c[best->0 as int].score->0
                            < c[j].score->0 || (c[best->0 as int].score->0 == c[j].score->0
                            && best->0 <= j)
                },
            decreases n - i,
        {
            let cand = candidates[i];
            if cand.overhead {
                if first.is_none() {
                    first = Some(i);
                }
                let is_current = match sel {
                    Some(s) => s == i,
                    None => false,
                };
                if !is_current {
                    if let Some(score) = cand.score {
                        let better = match best {
                            None => true,
                            Some(b) => score < candidates[b].score.unwrap_or(0),
                        };
                        if better {
                            best = Some(i);
                        }
                    }
                }
            }
            i = i + 1;
        }
        proof {
            if first is Some {
                assert(any_overhead(c));
            } else {
                assert(!any_overhead(c));
            }
            if best is None {
                assert(forall|j: int| !eligible(c, sel, j));
            }
        }
        if first.is_none() {
            self.selected_overhead_idx = None;
            return;
        }
        if best.is_some() {
            self.selected_overhead_idx = best;
        } else if self.selected_overhead_idx.is_none() {
            self.selected_overhead_idx = first;
        }
    }

    /// Advances the download state by one tick; returns whether satellite
    /// positions are to be recomputed (element sets are loaded).
    pub fn tick(&mut self, poll: TlePoll) -> (propagate: bool)
        ensures
            *final(self) == after_poll(*old(self), poll),
            propagate == (final(self).loaded_tles > 0),
    {
        match poll {
            TlePoll::Received(n) => {
                self.loaded_tles = n;
                self.is_fetching_tles = false;
            },
            TlePoll::Closed => {
                self.is_fetching_tles = false;
            },
            _ => {},
        }
        self.loaded_tles > 0
    }

    /// After new positions: drops the selection when the selected satellite
    /// has gone below the horizon.
    pub fn drop_selection_below_horizon(&mut self, overhead: &Vec<bool>)
        ensures
            *final(self) == (App {
                selected_overhead_idx: match old(self).selected_overhead_idx {
                    Some(i) => if i < overhead@.len() && !overhead@[i as int] {
                        None
                    } else {
                        Some(i)
                    },
                    None => None,
                },
                ..*old(self)
            }),
    {
        match self.selected_overhead_idx {
            Some(i) => {
                if i < overhead.len() && !overhead[i] {
                    self.selected_overhead_idx = None;
                }
            },
            None => {},
        }
    }

    /// Handles one key press: quits on `q`, Esc or Ctrl+C; switches views on
    /// `1`, `2`, `3`; zooms on `+`/`=` and `-`/`_`; asks for navigation on
    /// the arrows; toggles the overlays on `?` and `l`; any other key closes
    /// the help overlay, or else the log overlay.
    pub fn handle_key(&mut self, key: Key) -> (action: KeyAction)
        ensures
            action == key_action(key),
            *final(self) == key_effect(*old(self), key),
    {
        match key {
            Key::Char { c: 'q', .. } => KeyAction::Quit,
            Key::Esc => KeyAction::Quit,
            Key::Char { c: 'c', ctrl: true } => KeyAction::Quit,
            Key::Char { c: '1', .. } => {
                self.set_view(views::View::Overhead);
                KeyAction::Continue
            },
            Key::Char { c: '2', .. } => {
                self.set_view(views::View::Sky);
                KeyAction::Continue
            },
            Key::Char { c: '3', .. } => {
                self.set_view(views::View::GlobeBands);
                KeyAction::Continue
            },
            Key::Char { c: '+', .. } | Key::Char { c: '=', .. } => {
                self.zoom_in();
                KeyAction::Continue
            },
            Key::Char { c: '-', .. } | Key::Char { c: '_', .. } => {
                self.zoom_out();
                KeyAction::Continue
            },
            Key::Arrow(d) => KeyAction::Navigate(d),
            Key::Char { c: '?', .. } => {
                self.toggle_help();
                KeyAction::Continue
            },
            Key::Char { c: 'l', .. } => {
                self.toggle_log();
                KeyAction::Continue
            },
            _ => {
                if self.show_help {
                    self.toggle_help();
                } else if self.show_log {
                    self.toggle_log();
                }
                KeyAction::Continue
            },
        }
    }

    /// The status bar text: the view, the download status and the number of
    /// loaded element sets.
    pub fn status_text(&self) -> (s: String)
        ensures
            s@ == status_line(*self),
    {
        let mut s = String::new();
        s.append(" View: ");
        match self.current_view {
            views::View::Overhead => s.append("Overhead Map"),
            views::View::Sky => s.append("To-Scale Globe"),
            views::View::GlobeBands => s.append("Altitude-Banded Globe"),
        }
        s.append(" | Status: ");
        if self.is_fetching_tles {
            s.append("Fetching TLEs...");
        } else {
            s.append("Data Ready");
        }
        s.append(" | Sats: ");
        push_decimal(&mut s, self.loaded_tles);
        s.append(" ");
        assert(s@ =~= status_line(*self));
        s
    }
}

/// The action a key press asks for.
pub open spec fn key_action(key: Key) -> KeyAction {
    match key {
        Key::Char { c, ctrl } => if c == 'q' || (c == 'c' && ctrl) {
            KeyAction::Quit
        } else {
            KeyAction::Continue
        },
        Key::Esc => KeyAction::Quit,
        Key::Arrow(d) => KeyAction::Navigate(d),
        Key::Other => KeyAction::Continue,
    }
}

/// The state change a key press makes.
pub open spec fn key_effect(a: App, key: Key) -> App {
    let close_overlay = if a.show_help {
        App { show_help: false, ..a }
    } else if a.show_log {
        App { show_log: false, ..a }
    } else {
        a
    };
    match key {
        Key::Char { c, ctrl } => if c == 'q' || (c == 'c' && ctrl) {
            a
        } else if c == '1' {
            App { current_view: views::View::Overhead, ..a }
        } else if c == '2' {
            App { current_view: views::View::Sky, ..a }
        } else if c == '3' {
            App { current_view: views::View::GlobeBands, ..a }
        } else if c == '+' || c == '=' {
            zoomed_in(a)
        } else if c == '-' || c == '_' {
            zoomed_out(a)
        } else if c == '?' {
            App { show_help: !a.show_help, ..a }
        } else if c == 'l' {
            App { show_log: !a.show_log, ..a }
        } else {
            close_overlay
        },
        Key::Esc => a,
        Key::Arrow(_) => a,
        Key::Other => close_overlay,
    }
}

/// The zoom never leaves its range: starting within it, any zoom step
/// stays within it.
pub proof fn lemma_zoom_stays_in_range(a: App)
    requires
        MIN_ZOOM <= a.zoom_level <= MAX_ZOOM,
    ensures
        MIN_ZOOM <= zoomed_in(a).zoom_level <= MAX_ZOOM,
        MIN_ZOOM <= zoomed_out(a).zoom_level <= MAX_ZOOM,
{
}

/// Zooming out undoes zooming in, and zooming in undoes zooming out, away
/// from the limits.
pub proof fn lemma_zoom_round_trip(a: App)
    ensures
        MIN_ZOOM + ZOOM_STEP <= a.zoom_level <= MAX_ZOOM ==> zoomed_out(zoomed_in(a)) == a,
        MIN_ZOOM <= a.zoom_level <= MAX_ZOOM - ZOOM_STEP ==> zoomed_in(zoomed_out(a)) == a,
{
}

/// Zooming in narrows the overhead map by 10 degrees, to no less than 10;
/// zooming out widens it by 10 degrees, to no more than 180. Nothing else
/// changes, and on the other views nothing changes at all.
pub proof fn lemma_zoom_steps(a: App)
    requires
        10 <= a.zoom_level <= 180,
    ensures
        zoomed_in(a) == (App { zoom_level: zoomed_in(a).zoom_level, ..a }),
        zoomed_out(a) == (App { zoom_level: zoomed_out(a).zoom_level, ..a }),
        zoomed_in(a).zoom_level <= a.zoom_level <= zoomed_out(a).zoom_level,
        10 <= zoomed_in(a).zoom_level,
        zoomed_out(a).zoom_level <= 180,
        a.current_view == views::View::Overhead ==> {
            &&& a.zoom_level >= 20 ==> zoomed_in(a).zoom_level == a.zoom_level - 10
            &&& a.zoom_level < 20 ==> zoomed_in(a).zoom_level == 10
            &&& a.zoom_level <= 170 ==> zoomed_out(a).zoom_level == a.zoom_level + 10
            &&& a.zoom_level > 170 ==> zoomed_out(a).zoom_level == 180
        },
        a.current_view != views::View::Overhead ==> zoomed_in(a) == a && zoomed_out(a) == a,
{
}

/// `+` and `=` zoom in, `-` and `_` zoom out, with or without Control; on a
/// valid zoom, `+` never widens the map and `-` never narrows it.
pub proof fn lemma_zoom_keys(a: App, ctrl: bool)
    ensures
        key_action(Key::Char { c: '+', ctrl }) == KeyAction::Continue,
        key_action(Key::Char { c: '-', ctrl }) == KeyAction::Continue,
        key_effect(a, Key::Char { c: '+', ctrl }) == zoomed_in(a),
        key_effect(a, Key::Char { c: '=', ctrl }) == zoomed_in(a),
        key_effect(a, Key::Char { c: '-', ctrl }) == zoomed_out(a),
        key_effect(a, Key::Char { c: '_', ctrl }) == zoomed_out(a),
        10 <= a.zoom_level <= 180 ==> key_effect(a, Key::Char { c: '+', ctrl }).zoom_level
            <= a.zoom_level,
        10 <= a.zoom_level <= 180 ==> key_effect(a, Key::Char { c: '-', ctrl }).zoom_level
            >= a.zoom_level,
        a.current_view == views::View::Overhead && 20 <= a.zoom_level <= 180 ==> key_effect(
            a,
            Key::Char { c: '+', ctrl },
        ).zoom_level == a.zoom_level - 10,
        a.current_view == views::View::Overhead && 10 <= a.zoom_level <= 170 ==> key_effect(
            a,
            Key::Char { c: '-', ctrl },
        ).zoom_level == a.zoom_level + 10,
{
}

/// Every arrow key asks for navigation in its own direction and changes
/// nothing by itself.
pub proof fn lemma_arrow_keys(a: App, d: Direction)
    ensures
        key_action(Key::Arrow(d)) == KeyAction::Navigate(d),
        key_effect(a, Key::Arrow(d)) == a,
{
}

/// `?` shows the help overlay when it is hidden and hides it when it is
/// shown, `l` does the same for the log overlay; neither touches anything
/// else.
pub proof fn lemma_overlay_keys_flip(a: App, ctrl: bool)
    ensures
        key_action(Key::Char { c: '?', ctrl }) == KeyAction::Continue,
        key_action(Key::Char { c: 'l', ctrl }) == KeyAction::Continue,
        key_effect(a, Key::Char { c: '?', ctrl }).show_help != a.show_help,
        key_effect(a, Key::Char { c: '?', ctrl }) == (App {
            show_help: key_effect(a, Key::Char { c: '?', ctrl }).show_help,
            ..a
        }),
        key_effect(a, Key::Char { c: 'l', ctrl }).show_log != a.show_log,
        key_effect(a, Key::Char { c: 'l', ctrl }) == (App {
            show_log: key_effect(a, Key::Char { c: 'l', ctrl }).show_log,
            ..a
        }),
{
}

/// `1`, `2` and `3` switch to the overhead map, the to-scale globe and the
/// altitude-banded globe, and change nothing else.
pub proof fn lemma_view_keys(a: App, ctrl: bool)
    ensures
        key_action(Key::Char { c: '1', ctrl }) == KeyAction::Continue,
        key_action(Key::Char { c: '2', ctrl }) == KeyAction::Continue,
        key_action(Key::Char { c: '3', ctrl }) == KeyAction::Continue,
        key_effect(a, Key::Char { c: '1', ctrl }) == (App {
            current_view: views::View::Overhead,
            ..a
        }),
        key_effect(a, Key::Char { c: '2', ctrl }) == (App { current_view: views::View::Sky, ..a }),
        key_effect(a, Key::Char { c: '3', ctrl }) == (App {
            current_view: views::View::GlobeBands,
            ..a
        }),
{
}

/// Pressing `?` twice, or `l` twice, restores the state.
pub proof fn lemma_overlay_keys_toggle(a: App, ctrl1: bool, ctrl2: bool)
    ensures
        key_effect(key_effect(a, Key::Char { c: '?', ctrl: ctrl1 }), Key::Char { c: '?', ctrl: ctrl2 })
            == a,
        key_effect(key_effect(a, Key::Char { c: 'l', ctrl: ctrl1 }), Key::Char { c: 'l', ctrl: ctrl2 })
            == a,
{
}

/// `q`, Esc and Ctrl+C end the program and change nothing.
pub proof fn lemma_quit_keys(a: App, ctrl: bool)
    ensures
        key_action(Key::Char { c: 'q', ctrl }) == KeyAction::Quit,
        key_action(Key::Esc) == KeyAction::Quit,
        key_action(Key::Char { c: 'c', ctrl: true }) == KeyAction::Quit,
        forall|k: Key| key_action(k) == KeyAction::Quit ==> #[trigger] key_effect(a, k) == a,
{
}

/// Navigation only ever moves the selection onto a satellite above the
/// horizon: a new selection is an overhead satellite.
pub proof fn lemma_navigation_selects_overhead(
    c: Seq<Candidate>,
    sel: Option<usize>,
    r: Option<usize>,
)
    requires
        navigation_target(c, sel, r),
        r != sel,
        r is Some,
    ensures
        0 <= r->0 < c.len(),
        c[r->0 as int].overhead,
{
}

/// Navigation never keeps the current selection when another satellite
/// ahead is available.
pub proof fn lemma_navigation_moves(c: Seq<Candidate>, sel: Option<usize>, r: Option<usize>, i: int)
    requires
        navigation_target(c, sel, r),
        eligible(c, sel, i),
    ensures
        r is Some,
        r != sel,
{
    assert(c[i].overhead);
}

/// Navigation picks the candidate ahead with the lowest score, the first
/// one among equal scores, whenever some candidate other than the current
/// selection is above the horizon and ahead.
pub proof fn lemma_navigation_picks_lowest_score(
    c: Seq<Candidate>,
    sel: Option<usize>,
    r: Option<usize>,
    i: int,
)
    requires
        navigation_target(c, sel, r),
        0 <= i < c.len(),
        c[i].overhead,
        sel != Some(i as usize),
        c[i].score is Some,
    ensures
        r is Some,
        0 <= r->0 < c.len(),
        c[r->0 as int].overhead,
        c[r->0 as int].score is Some,
        c[r->0 as int].score->0 <= c[i].score->0,
        c[r->0 as int].score->0 == c[i].score->0 ==> r->0 <= i,
{
    assert(eligible(c, sel, i));
    assert(any_overhead(c));
}

/// The download lifecycle: a delivery records the count and ends fetching,
/// a closed download ends fetching, and otherwise nothing changes.
pub proof fn lemma_download_lifecycle(a: App, n: usize)
    ensures
        after_poll(a, TlePoll::Received(n)).loaded_tles == n,
        !after_poll(a, TlePoll::Received(n)).is_fetching_tles,
        !after_poll(a, TlePoll::Closed).is_fetching_tles,
        after_poll(a, TlePoll::Closed).loaded_tles == a.loaded_tles,
        after_poll(a, TlePoll::Pending) == a,
        after_poll(a, TlePoll::NotWaiting) == a,
{
}

/// A key that is not a command closes the help overlay when it is shown,
/// else the log overlay, and changes nothing else.
pub proof fn lemma_other_keys_close_overlays(a: App, c: char, ctrl: bool)
    requires
        c != 'q',
        c != '1' && c != '2' && c != '3',
        c != '+' && c != '=' && c != '-' && c != '_',
        c != '?' && c != 'l',
        !(c == 'c' && ctrl),
    ensures
        key_action(Key::Char { c, ctrl }) == KeyAction::Continue,
        key_effect(a, Key::Char { c, ctrl }) == key_effect(a, Key::Other),
        a.show_help ==> key_effect(a, Key::Other) == (App { show_help: false, ..a }),
        !a.show_help && a.show_log ==> key_effect(a, Key::Other) == (App { show_log: false, ..a }),
        !a.show_help && !a.show_log ==> key_effect(a, Key::Other) == a,
{
}

} // verus!
