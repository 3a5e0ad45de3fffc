//! The dashboard's decisions: key handling, port selection, layout sizes and
//! the text of labels, independent of any terminal.

use vstd::prelude::*;
use crate::model::port::{LinkStatus, PortInfo};
use crate::text::{decimal, decimal_string, lex_lt, pad_left, pad_right, chars_of, lex_less};
use crate::format::grouped;

verus! {

/// The dashboard's screens (views).
#[derive(Clone, Copy, Debug, PartialEq, Eq, Structural)]
pub enum Screen {
    Dashboard,
    Port,
    Mempools,
    Xstats,
    Graphs,
}

/// A key press, as far as the dashboard tells keys apart.
#[derive(Clone, Copy, Debug, PartialEq, Eq, Structural)]
pub enum Key {
    Char(char),
    Esc,
    Up,
    Down,
    PageUp,
    PageDown,
    Tab,
    BackTab,
    Other,
}

/// What the dashboard keeps between key presses.
#[derive(Clone, Copy, Debug, PartialEq, Eq, Structural)]
pub struct TuiState {
    pub view: Screen,
    pub show_help: bool,
    pub xstats_scroll: u16,
    pub instance_idx: usize,
}

/// What a key press asks of the surrounding program besides the new state.
#[derive(Clone, Copy, Debug, PartialEq, Eq, Structural)]
pub enum TuiAction {
    Nothing,
    /// Stop polling and leave the dashboard.
    Quit,
    /// Select the previous (`-1`) or next (`1`) port.
    MovePort(i32),
}

/// The view after `v` in the Tab order
/// dashboard, port, graphs, mempools, xstats.
pub open spec fn spec_next_screen(v: Screen) -> Screen {
    match v {
        Screen::Dashboard => Screen::Port,
        Screen::Port => Screen::Graphs,
        Screen::Graphs => Screen::Mempools,
        Screen::Mempools => Screen::Xstats,
        Screen::Xstats => Screen::Dashboard,
    }
}

/// The view before `v` in the Tab order.
pub open spec fn spec_prev_screen(v: Screen) -> Screen {
    match v {
        Screen::Dashboard => Screen::Xstats,
        Screen::Xstats => Screen::Mempools,
        Screen::Mempools => Screen::Graphs,
        Screen::Graphs => Screen::Port,
        Screen::Port => Screen::Dashboard,
    }
}

pub open spec fn sat_sub_u16(a: u16, b: u16) -> u16 {
    if a >= b { (a - b) as u16 } else { 0 }
}

pub open spec fn sat_add_u16(a: u16, b: u16) -> u16 {
    if a + b <= u16::MAX { (a + b) as u16 } else { u16::MAX }
}

/// The state and action after pressing `key` in state `s` with `n`
/// monitored instances.
pub open spec fn spec_handle_key(s: TuiState, key: Key, n: nat) -> (TuiState, TuiAction) {
    let reset = TuiState { xstats_scroll: 0, ..s };
    if s.show_help {
        (TuiState { show_help: false, ..s }, TuiAction::Nothing)
    } else {
        match key {
            Key::Char('q') | Key::Esc => (s, TuiAction::Quit),
            Key::Char('[') => if s.instance_idx > 0 {
                (TuiState { instance_idx: (s.instance_idx - 1) as usize, ..reset }, TuiAction::Nothing)
            } else {
                (s, TuiAction::Nothing)
            },
            Key::Char(']') => if s.instance_idx + 1 < n {
                (TuiState { instance_idx: (s.instance_idx + 1) as usize, ..reset }, TuiAction::Nothing)
            } else {
                (s, TuiAction::Nothing)
            },
            Key::Char(c) if '1' <= c && c <= '9' => {
                let idx = c as int - '1' as int;
                if idx < n {
                    (TuiState { instance_idx: idx as usize, ..reset }, TuiAction::Nothing)
                } else {
                    (s, TuiAction::Nothing)
                }
            },
            Key::Char('d') => (TuiState { view: Screen::Dashboard, ..s }, TuiAction::Nothing),
            Key::Char('p') => (TuiState { view: Screen::Port, ..s }, TuiAction::Nothing),
            Key::Char('m') => (TuiState { view: Screen::Mempools, ..s }, TuiAction::Nothing),
            Key::Char('x') => (TuiState { view: Screen::Xstats, ..reset }, TuiAction::Nothing),
            Key::Char('g') => (TuiState { view: Screen::Graphs, ..s }, TuiAction::Nothing),
            Key::Char('?') => (TuiState { show_help: !s.show_help, ..s }, TuiAction::Nothing),
            Key::Up | Key::Char('k') => if s.view == Screen::Xstats {
                (TuiState { xstats_scroll: sat_sub_u16(s.xstats_scroll, 1), ..s }, TuiAction::Nothing)
            } else {
                (s, TuiAction::MovePort(-1i32))
            },
            Key::Down | Key::Char('j') => if s.view == Screen::Xstats {
                (TuiState { xstats_scroll: sat_add_u16(s.xstats_scroll, 1), ..s }, TuiAction::Nothing)
            } else {
                (s, TuiAction::MovePort(1i32))
            },
            Key::PageUp => if s.view == Screen::Xstats {
                (TuiState { xstats_scroll: sat_sub_u16(s.xstats_scroll, 20), ..s }, TuiAction::Nothing)
            } else {
                (s, TuiAction::Nothing)
            },
            Key::PageDown => if s.view == Screen::Xstats {
                (TuiState { xstats_scroll: sat_add_u16(s.xstats_scroll, 20), ..s }, TuiAction::Nothing)
            } else {
                (s, TuiAction::Nothing)
            },
            Key::Tab => (TuiState { view: spec_next_screen(s.view), ..reset }, TuiAction::Nothing),
            Key::BackTab => (TuiState { view: spec_prev_screen(s.view), ..reset }, TuiAction::Nothing),
            _ => (s, TuiAction::Nothing),
        }
    }
}

impl TuiState {
    /// The state the dashboard starts in: the overview of the first instance.
    pub fn new() -> (s: Self)
        ensures
            s == (TuiState { view: Screen::Dashboard, show_help: false, xstats_scroll: 0, instance_idx: 0 }),
    {
        TuiState { view: Screen::Dashboard, show_help: false, xstats_scroll: 0, instance_idx: 0 }
    }
}

/// The view after `v` when cycling with Tab.
pub fn next_screen(v: Screen) -> (r: Screen)
    ensures
        r == spec_next_screen(v),
{
    match v {
        Screen::Dashboard => Screen::Port,
        Screen::Port => Screen::Graphs,
        Screen::Graphs => Screen::Mempools,
        Screen::Mempools => Screen::Xstats,
        Screen::Xstats => Screen::Dashboard,
    }
}

/// The view before `v` when cycling with Shift-Tab.
pub fn prev_screen(v: Screen) -> (r: Screen)
    ensures
        r == spec_prev_screen(v),
{
    match v {
        Screen::Dashboard => Screen::Xstats,
        Screen::Xstats => Screen::Mempools,
        Screen::Mempools => Screen::Graphs,
        Screen::Graphs => Screen::Port,
        Screen::Port => Screen::Dashboard,
    }
}

/// Apply a key press: while help is shown any key only closes it; `q` or
/// Esc quits; `[`/`]` and `1`-`9` switch instance; `d`, `p`, `m`, `x`, `g`
/// pick a view and `?` shows help; up/down (or `k`/`j`) scroll the xstats
/// view or move the port selection; page up/down scroll the xstats view by
/// 20 lines; Tab and Shift-Tab cycle views. Switching instance, opening the
/// xstats view and cycling views reset the xstats scroll.
pub fn handle_key(s: TuiState, key: Key, n_instances: usize) -> (r: (TuiState, TuiAction))
    requires
        s.instance_idx < n_instances,
    ensures
        r == spec_handle_key(s, key, n_instances as nat),
{
    let reset = TuiState { xstats_scroll: 0, ..s };
    if s.show_help {
        return (TuiState { show_help: false, ..s }, TuiAction::Nothing);
    }
    match key {
        Key::Char('q') | Key::Esc => (s, TuiAction::Quit),
        Key::Char('[') => if s.instance_idx > 0 {
            (TuiState { instance_idx: s.instance_idx - 1, ..reset }, TuiAction::Nothing)
        } else {
            (s, TuiAction::Nothing)
        },
        Key::Char(']') => if s.instance_idx + 1 < n_instances {
            (TuiState { instance_idx: s.instance_idx + 1, ..reset }, TuiAction::Nothing)
        } else {
            (s, TuiAction::Nothing)
        },
        Key::Char(c) if '1' <= c && c <= '9' => {
            let idx = (c as u32 - '1' as u32) as usize;
            if idx < n_instances {
                (TuiState { instance_idx: idx, ..reset }, TuiAction::Nothing)
            } else {
                (s, TuiAction::Nothing)
            }
        },
        Key::Char('d') => (TuiState { view: Screen::Dashboard, ..s }, TuiAction::Nothing),
        Key::Char('p') => (TuiState { view: Screen::Port, ..s }, TuiAction::Nothing),
        Key::Char('m') => (TuiState { view: Screen::Mempools, ..s }, TuiAction::Nothing),
        Key::Char('x') => (TuiState { view: Screen::Xstats, ..reset }, TuiAction::Nothing),
        Key::Char('g') => (TuiState { view: Screen::Graphs, ..s }, TuiAction::Nothing),
        Key::Char('?') => (TuiState { show_help: !s.show_help, ..s }, TuiAction::Nothing),
        Key::Up | Key::Char('k') => if s.view == Screen::Xstats {
            (TuiState { xstats_scroll: s.xstats_scroll.saturating_sub(1), ..s }, TuiAction::Nothing)
        } else {
            (s, TuiAction::MovePort(-1))
        },
        Key::Down | Key::Char('j') => if s.view == Screen::Xstats {
            (TuiState { xstats_scroll: s.xstats_scroll.saturating_add(1), ..s }, TuiAction::Nothing)
        } else {
            (s, TuiAction::MovePort(1))
        },
        Key::PageUp => if s.view == Screen::Xstats {
            (TuiState { xstats_scroll: s.xstats_scroll.saturating_sub(20), ..s }, TuiAction::Nothing)
        } else {
            (s, TuiAction::Nothing)
        },
        Key::PageDown => if s.view == Screen::Xstats {
            (TuiState { xstats_scroll: s.xstats_scroll.saturating_add(20), ..s }, TuiAction::Nothing)
        } else {
            (s, TuiAction::Nothing)
        },
        Key::Tab => (TuiState { view: next_screen(s.view), ..reset }, TuiAction::Nothing),
        Key::BackTab => (TuiState { view: prev_screen(s.view), ..reset }, TuiAction::Nothing),
        _ => (s, TuiAction::Nothing),
    }
}

/// Cycling forward through the screens visits five different screens (so
/// every screen) and returns to the start after five steps, and cycling
/// backward undoes cycling forward.
pub proof fn lemma_screen_cycle(v: Screen)
    ensures
        spec_prev_screen(spec_next_screen(v)) == v,
        spec_next_screen(spec_prev_screen(v)) == v,
        iterate_next(v, 5) == v,
        forall|i: nat, j: nat| i < j < 5 ==> #[trigger] iterate_next(v, i) != #[trigger] iterate_next(v, j),
{
    let a1 = spec_next_screen(v);
    let a2 = spec_next_screen(a1);
    let a3 = spec_next_screen(a2);
    let a4 = spec_next_screen(a3);
    assert(iterate_next(v, 0) == v);
    assert(iterate_next(v, 1) == a1);
    assert(iterate_next(v, 2) == a2);
    assert(iterate_next(v, 3) == a3);
    assert(iterate_next(v, 4) == a4);
    assert(iterate_next(v, 5) == spec_next_screen(a4));
    assert(v != a1 && v != a2 && v != a3 && v != a4 && a1 != a2 && a1 != a3 && a1 != a4
        && a2 != a3 && a2 != a4 && a3 != a4 && spec_next_screen(a4) == v) by {
        match v {
            Screen::Dashboard => {},
            Screen::Port => {},
            Screen::Mempools => {},
            Screen::Xstats => {},
            Screen::Graphs => {},
        }
    }
    assert forall|i: nat, j: nat| i < j < 5 implies #[trigger] iterate_next(v, i) != #[trigger] iterate_next(v, j) by {
        assert(i == 0 || i == 1 || i == 2 || i == 3);
        assert(j == 1 || j == 2 || j == 3 || j == 4);
    }
}

/// The view reached from `v` after `k` presses of Tab.
pub open spec fn iterate_next(v: Screen, k: nat) -> Screen
    decreases k,
{
    if k == 0 { v } else { spec_next_screen(iterate_next(v, (k - 1) as nat)) }
}

/// Key handling keeps the selected instance among the monitored ones; while
/// help is shown a key only closes it; only `q` and Esc quit.
pub proof fn lemma_handle_key_invariants(s: TuiState, key: Key, n: nat)
    requires
        s.instance_idx < n,
    ensures
        spec_handle_key(s, key, n).0.instance_idx < n,
        s.show_help ==> spec_handle_key(s, key, n) == (TuiState { show_help: false, ..s }, TuiAction::Nothing),
        spec_handle_key(s, key, n).1 == TuiAction::Quit
            <==> (!s.show_help && (key == Key::Char('q') || key == Key::Esc)),
{
}

/// The footer's tabs, left to right: each screen with the key that opens
/// it and its label.
pub open spec fn footer_order() -> Seq<(char, Seq<char>, Screen)> {
    seq![
        ('d', "dashboard"@, Screen::Dashboard),
        ('p', "port"@, Screen::Port),
        ('g', "graphs"@, Screen::Graphs),
        ('m', "mempools"@, Screen::Mempools),
        ('x', "xstats"@, Screen::Xstats),
    ]
}

/// One tab of the footer: its text and whether its screen is shown.
pub struct FooterTab {
    pub text: String,
    pub active: bool,
}

fn footer_tab(key: char, label: &str, screen: Screen, current: Screen) -> (t: FooterTab)
    ensures
        t.text@ == seq![' ', '['] + seq![key] + seq![']'] + label@ + seq![' '],
        t.active == (screen == current),
{
    let v: Vec<char> = vec![' ', '[', key, ']'];
    let l = chars_of(label);
    let v2 = crate::text::concat_chars(v, &l);
    let mut v3 = v2;
    v3.push(' ');
    assert(v3@ =~= seq![' ', '['] + seq![key] + seq![']'] + label@ + seq![' ']);
    FooterTab { text: crate::text::string_of(&v3), active: screen == current }
}

/// The footer's tabs for the screen shown, each as ` [key]label `, in the
/// order of `footer_order`, the tab of `current` marked active.
pub fn footer_tabs(current: Screen) -> (tabs: Vec<FooterTab>)
    ensures
        tabs@.len() == 5,
        forall|i: int| 0 <= i < 5 ==> {
            let (k, l, sc) = #[trigger] footer_order()[i];
            &&& tabs@[i].text@ == seq![' ', '['] + seq![k] + seq![']'] + l + seq![' ']
            &&& tabs@[i].active == (sc == current)
        },
{
    let mut tabs: Vec<FooterTab> = Vec::new();
    tabs.push(footer_tab('d', "dashboard", Screen::Dashboard, current));
    tabs.push(footer_tab('p', "port", Screen::Port, current));
    tabs.push(footer_tab('g', "graphs", Screen::Graphs, current));
    tabs.push(footer_tab('m', "mempools", Screen::Mempools, current));
    tabs.push(footer_tab('x', "xstats", Screen::Xstats, current));
    tabs
}

/// The footer lists the screens in Tab order, and pressing the key a tab
/// shows opens that tab's screen (when help is not shown).
pub proof fn lemma_footer_matches_keys(s: TuiState, n: nat)
    requires
        !s.show_help,
    ensures
        forall|i: int| 0 <= i < 4 ==> spec_next_screen(#[trigger] footer_order()[i].2) == footer_order()[i + 1].2,
        spec_next_screen(footer_order()[4].2) == footer_order()[0].2,
        forall|i: int| 0 <= i < 5 ==> spec_handle_key(s, Key::Char(#[trigger] footer_order()[i].0), n).0.view
            == footer_order()[i].2,
{
    assert forall|i: int| 0 <= i < 5 implies spec_handle_key(s, Key::Char(#[trigger] footer_order()[i].0), n).0.view
        == footer_order()[i].2 by {
        assert(i == 0 || i == 1 || i == 2 || i == 3 || i == 4);
    }
    assert forall|i: int| 0 <= i < 4 implies spec_next_screen(#[trigger] footer_order()[i].2) == footer_order()[i + 1].2 by {
        assert(i == 0 || i == 1 || i == 2 || i == 3);
    }
}

/// `pos` is where the selection `current` stands among `ids`: its first
/// position, or the front when it is not listed.
pub open spec fn selection_position(ids: Seq<u16>, current: u16, pos: int) -> bool {
    ||| (0 <= pos < ids.len() && ids[pos] == current && forall|j: int| 0 <= j < pos ==> ids[j] != current)
    ||| (pos == 0 && !ids.contains(current))
}

/// The position one step from `pos` towards the front (`direction < 0`)
/// or the back, staying within `len` positions.
pub open spec fn moved_position(pos: int, direction: i32, len: int) -> int {
    if direction < 0 {
        if pos > 0 { pos - 1 } else { 0 }
    } else {
        if pos + 1 < len - 1 { pos + 1 } else { len - 1 }
    }
}

/// The port id selected after moving the selection one step: nothing to
/// select when no port is listed; otherwise from where `current` stands
/// (the front when it is not listed) one step up (`direction < 0`) or
/// down, stopping at either end.
pub fn move_port_selection(ids: &Vec<u16>, current: u16, direction: i32) -> (r: Option<u16>)
    ensures
        ids@.len() == 0 ==> r.is_none(),
        ids@.len() > 0 ==> exists|pos: int| #[trigger] selection_position(ids@, current, pos)
            && r == Some(ids@[moved_position(pos, direction, ids@.len() as int)]),
{
    if ids.len() == 0 {
        return None;
    }
    let mut pos: usize = 0;
    while pos < ids.len() && ids[pos] != current
        invariant
            pos <= ids@.len(),
            forall|j: int| 0 <= j < pos ==> ids@[j] != current,
        decreases ids@.len() - pos,
    {
        pos = pos + 1;
    }
    if pos == ids.len() {
        assert(!ids@.contains(current)) by {
            if ids@.contains(current) {
                let k = choose|k: int| 0 <= k < ids@.len() && ids@[k] == current;
                assert(ids@[k] != current);
            }
        }
        pos = 0;
    }
    assert(selection_position(ids@, current, pos as int));
    let len = ids.len();
    let new_pos = if direction < 0 {
        if pos > 0 { pos - 1 } else { 0 }
    } else {
        if pos + 1 < len - 1 { pos + 1 } else { len - 1 }
    };
    Some(ids[new_pos])
}

/// With distinct port ids, moving the selection down from any port but the
/// last and then up again returns to it, and every move selects a listed
/// port.
pub proof fn lemma_move_selection_round_trip(ids: Seq<u16>, pos: int)
    requires
        0 <= pos < ids.len() - 1,
        forall|i: int, j: int| 0 <= i < j < ids.len() ==> ids[i] != ids[j],
    ensures
        selection_position(ids, ids[pos], pos),
        selection_position(ids, ids[moved_position(pos, 1i32, ids.len() as int)], pos + 1),
        moved_position(pos + 1, -1i32, ids.len() as int) == pos,
        forall|p: int, d: i32| 0 <= p < ids.len() ==> 0 <= #[trigger] moved_position(p, d, ids.len() as int) < ids.len(),
{
}

/// Heights of the dashboard's three stacked panels.
#[derive(Clone, Copy, Debug, PartialEq, Eq, Structural)]
pub struct DashboardHeights {
    pub ports: u16,
    pub queues: u16,
    pub mempools: u16,
}

pub open spec fn max_int(a: int, b: int) -> int {
    if a >= b { a } else { b }
}

pub open spec fn min_int(a: int, b: int) -> int {
    if a <= b { a } else { b }
}

/// Panel heights for the dashboard: the port table gets a row per port
/// plus header and borders, at least 6; the queue panel a row per queue
/// plus title and borders, capped at 30% of the area but at least 4; the
/// mempool panel a row per pool (at least one) plus borders, at least 3.
/// Counts are taken as `u16` as the terminal layout does (`as u16`), and the
/// sums must not overflow.
pub fn dashboard_heights(n_ports: usize, queue_count: u16, area_height: u16, n_mempools: usize) -> (h: DashboardHeights)
    requires
        (n_ports as u16) + 3 <= u16::MAX,
        queue_count + 3 <= u16::MAX,
        area_height * 30 <= u16::MAX,
        ((if n_mempools > 1 { n_mempools } else { 1 }) as u16) + 2 <= u16::MAX,
    ensures
        h.ports == max_int((n_ports as u16) + 3, 6),
        h.queues == max_int(min_int(queue_count + 3, max_int(area_height * 30 / 100, 4)), 4),
        h.mempools == max_int(((if n_mempools > 1 { n_mempools } else { 1 }) as u16) + 2, 3),
{
    let p = (n_ports as u16) + 3;
    let ports = if p > 6 { p } else { 6 };
    let qmax_raw = area_height * 30 / 100;
    let qmax = if qmax_raw > 4 { qmax_raw } else { 4 };
    let q = queue_count + 3;
    let qmin = if q < qmax { q } else { qmax };
    let queues = if qmin > 4 { qmin } else { 4 };
    let nm = if n_mempools > 1 { n_mempools } else { 1 };
    let m = (nm as u16) + 2;
    let mempools = if m > 3 { m } else { 3 };
    DashboardHeights { ports, queues, mempools }
}

/// A rectangle of terminal cells.
#[derive(Clone, Copy, Debug, PartialEq, Eq, Structural)]
pub struct UiRect {
    pub x: u16,
    pub y: u16,
    pub width: u16,
    pub height: u16,
}

/// Width of the help overlay.
pub const HELP_WIDTH: u16 = 56;
/// Height of the help overlay.
pub const HELP_HEIGHT: u16 = 24;

/// Where the help overlay goes: 56 by 24 cells centered in `area`, shrunk
/// to the area when it is smaller. The overlay always lies inside the area.
pub fn help_area(area: UiRect) -> (r: UiRect)
    requires
        area.x + area.width <= u16::MAX,
        area.y + area.height <= u16::MAX,
    ensures
        r.x == area.x + (if area.width >= HELP_WIDTH { area.width - HELP_WIDTH } else { 0 }) / 2,
        r.y == area.y + (if area.height >= HELP_HEIGHT { area.height - HELP_HEIGHT } else { 0 }) / 2,
        r.width == min_int(HELP_WIDTH as int, area.width as int),
        r.height == min_int(HELP_HEIGHT as int, area.height as int),
        area.x <= r.x,
        r.x + r.width <= area.x + area.width,
        area.y <= r.y,
        r.y + r.height <= area.y + area.height,
{
    let x = area.x + area.width.saturating_sub(HELP_WIDTH) / 2;
    let y = area.y + area.height.saturating_sub(HELP_HEIGHT) / 2;
    let width = if HELP_WIDTH < area.width { HELP_WIDTH } else { area.width };
    let height = if HELP_HEIGHT < area.height { HELP_HEIGHT } else { area.height };
    UiRect { x, y, width, height }
}

/// The text describing a link: its speed in whole Gbit/s and "UP" when up
/// (just "UP" when the speed is unknown), "DOWN" when down, and `unknown`
/// otherwise.
pub open spec fn spec_link_label(status: LinkStatus, speed_mbps: u32, unknown: Seq<char>) -> Seq<char> {
    match status {
        LinkStatus::Up => if speed_mbps > 0 {
            decimal((speed_mbps / 1000) as nat) + "G UP"@
        } else {
            "UP"@
        },
        LinkStatus::Down => "DOWN"@,
        LinkStatus::Unknown => unknown,
    }
}

/// The text describing a link (see `spec_link_label`).
pub fn link_label(status: LinkStatus, speed_mbps: u32, unknown: &str) -> (s: String)
    ensures
        s@ == spec_link_label(status, speed_mbps, unknown@),
{
    match status {
        LinkStatus::Up => if speed_mbps > 0 {
            let mut s = decimal_string((speed_mbps / 1000) as u64);
            s.append("G UP");
            s
        } else {
            "UP".to_owned()
        },
        LinkStatus::Down => "DOWN".to_owned(),
        LinkStatus::Unknown => unknown.to_owned(),
    }
}

/// The header's instance indicator, such as `  [2/3]  `, shown only when
/// more than one instance is monitored.
pub fn instance_label(instance_idx: usize, n_instances: usize) -> (s: String)
    requires
        instance_idx < usize::MAX,
    ensures
        n_instances > 1 ==> s@ == "  ["@ + decimal((instance_idx + 1) as nat) + "/"@
            + decimal(n_instances as nat) + "]  "@,
        n_instances <= 1 ==> s@ == Seq::<char>::empty(),
{
    if n_instances > 1 {
        let mut s = "  [".to_owned();
        s.append(decimal_string((instance_idx + 1) as u64).as_str());
        s.append("/");
        s.append(decimal_string(n_instances as u64).as_str());
        s.append("]  ");
        s
    } else {
        String::new()
    }
}

/// `text`, or an em dash when it is empty.
pub open spec fn or_dash(text: Seq<char>) -> Seq<char> {
    if text.len() == 0 { seq!['\u{2014}'] } else { text }
}

/// The info panel of the port view, line by line.
pub open spec fn spec_port_info_lines(info: PortInfo) -> Seq<Seq<char>> {
    seq![
        "  Name:       "@ + info.pci@,
        "  Driver:     "@ + or_dash(info.driver@),
        "  MAC:        "@ + or_dash(info.mac@),
        "  MTU:        "@ + (if info.mtu == 0 { seq!['\u{2014}'] } else { decimal(info.mtu as nat) }),
        "  Link:       "@ + spec_link_label(info.link_status, info.link_speed_mbps, "Unknown"@),
        "  RX Queues:  "@ + decimal(info.nb_rx_queues as nat),
        "  TX Queues:  "@ + decimal(info.nb_tx_queues as nat),
    ]
}

fn labeled(label: &str, value: &str) -> (s: String)
    ensures
        s@ == label@ + value@,
{
    let mut s = label.to_owned();
    s.append(value);
    s
}

fn dash() -> (s: String)
    ensures
        s@ == seq!['\u{2014}'],
{
    let v: Vec<char> = vec!['\u{2014}'];
    assert(v@ =~= seq!['\u{2014}']);
    crate::text::string_of(&v)
}

fn text_or_dash(text: &String) -> (s: String)
    ensures
        s@ == or_dash(text@),
{
    if text.as_str().is_empty() { dash() } else { text.clone() }
}

/// The lines of the port view's info panel: name, driver, MAC, MTU, link
/// and queue counts, with an em dash for an unknown driver, MAC or MTU.
pub fn port_info_lines(info: &PortInfo) -> (lines: Vec<String>)
    ensures
        lines@.len() == 7,
        forall|i: int| 0 <= i < 7 ==> #[trigger] lines@[i]@ == spec_port_info_lines(*info)[i],
{
    let mut lines: Vec<String> = Vec::new();
    lines.push(labeled("  Name:       ", info.pci.as_str()));
    lines.push(labeled("  Driver:     ", text_or_dash(&info.driver).as_str()));
    lines.push(labeled("  MAC:        ", text_or_dash(&info.mac).as_str()));
    let mtu = if info.mtu == 0 { dash() } else { decimal_string(info.mtu as u64) };
    lines.push(labeled("  MTU:        ", mtu.as_str()));
    lines.push(labeled("  Link:       ", link_label(info.link_status, info.link_speed_mbps, "Unknown").as_str()));
    lines.push(labeled("  RX Queues:  ", decimal_string(info.nb_rx_queues as u64).as_str()));
    lines.push(labeled("  TX Queues:  ", decimal_string(info.nb_tx_queues as u64).as_str()));
    lines
}

/// The first 16 characters of `text`, padded with spaces to 16 characters.
pub open spec fn spec_column16(text: Seq<char>) -> Seq<char> {
    let t = if text.len() <= 16 { text } else { text.take(16) };
    t + Seq::new((16 - t.len()) as nat, |i: int| ' ')
}

/// The port table's name column: the PCI name cut to 16 characters and
/// padded to 16.
pub fn pci_column(pci: &str) -> (s: String)
    ensures
        s@ == spec_column16(pci@),
{
    let c = crate::text::chars_of(pci);
    let mut out: Vec<char> = Vec::new();
    let mut i: usize = 0;
    while i < 16
        invariant
            c@ == pci@,
            i <= 16,
            out@.len() == i,
            forall|j: int| 0 <= j < i ==> #[trigger] out@[j] == if j < c@.len() { c@[j] } else { ' ' },
        decreases 16 - i,
    {
        if i < c.len() {
            out.push(c[i]);
        } else {
            out.push(' ');
        }
        i = i + 1;
    }
    assert(out@ =~= spec_column16(pci@));
    crate::text::string_of(&out)
}

/// The block character filling `eighths` eighths of a cell from below
/// (a space for none, a full block for eight).
pub open spec fn block_char(eighths: int) -> char {
    if eighths <= 0 { ' ' }
    else if eighths == 1 { '\u{2581}' }
    else if eighths == 2 { '\u{2582}' }
    else if eighths == 3 { '\u{2583}' }
    else if eighths == 4 { '\u{2584}' }
    else if eighths == 5 { '\u{2585}' }
    else if eighths == 6 { '\u{2586}' }
    else if eighths == 7 { '\u{2587}' }
    else { '\u{2588}' }
}

/// How many eighths of row `row` (counted from the bottom) a sparkline bar
/// `bar_units` eighths tall covers.
pub open spec fn row_eighths(bar_units: int, row: int) -> int {
    min_int(max_int(bar_units - 8 * row, 0), 8)
}

/// The glyph a sparkline bar `bar_units` eighths tall shows in row `row`
/// (counted from the bottom): a full block in the rows it covers fully, a
/// partial block in the row where it ends, nothing above.
pub fn column_glyph(bar_units: usize, row: usize) -> (g: Option<char>)
    ensures
        row_eighths(bar_units as int, row as int) == 0 ==> g.is_none(),
        row_eighths(bar_units as int, row as int) > 0 ==> g == Some(block_char(row_eighths(bar_units as int, row as int))),
{
    let full_rows = bar_units / 8;
    let frac = bar_units % 8;
    proof {
        assert(bar_units as int == 8 * full_rows + frac);
    }
    if row < full_rows {
        proof {
            assert(8 * (row as int) + 8 <= 8 * (full_rows as int)) by (nonlinear_arith)
                requires row < full_rows;
        }
        Some('\u{2588}')
    } else if row == full_rows && frac > 0 {
        let c = if frac == 1 { '\u{2581}' }
            else if frac == 2 { '\u{2582}' }
            else if frac == 3 { '\u{2583}' }
            else if frac == 4 { '\u{2584}' }
            else if frac == 5 { '\u{2585}' }
            else if frac == 6 { '\u{2586}' }
            else { '\u{2587}' };
        Some(c)
    } else {
        proof {
            if row > full_rows {
                assert(8 * (row as int) >= 8 * (full_rows as int) + 8) by (nonlinear_arith)
                    requires row > full_rows;
            }
        }
        None
    }
}

/// Width a sparkline gives its label: the label's length plus one (lengths
/// taken as `u16`), when that is less than the area's width minus four;
/// zero (no label) otherwise.
pub fn sparkline_label_width(label_len: usize, area_width: u16) -> (w: u16)
    requires
        (label_len as u16) < u16::MAX,
    ensures
        w == if (label_len as u16) + 1 < (if area_width >= 4 { area_width - 4 } else { 0 }) {
            (label_len as u16) + 1
        } else {
            0
        },
{
    let lw = (label_len as u16) + 1;
    if lw < area_width.saturating_sub(4) { lw } else { 0 }
}

/// xstats in order of their names (equal names in either order).
pub open spec fn sorted_by_name(s: Seq<(String, u64)>) -> bool {
    forall|i: int, j: int| 0 <= i < j < s.len() ==> !lex_lt(#[trigger] s[j].0@, #[trigger] s[i].0@)
}

/// Whether an xstat has the name `n`.
pub open spec fn named(n: Seq<char>) -> spec_fn((String, u64)) -> bool {
    |e: (String, u64)| e.0@ == n
}

/// Inserting `x` where every later element has another name adds `x` at
/// the end of the elements named like it and leaves other names alone.
proof fn lemma_insert_name_order(before: Seq<(String, u64)>, p: int, x: (String, u64), n: Seq<char>)
    requires
        0 <= p <= before.len(),
        forall|j: int| p <= j < before.len() ==> (#[trigger] before[j]).0@ != x.0@,
    ensures
        before.insert(p, x).filter(named(n)) == if x.0@ == n {
            before.filter(named(n)).push(x)
        } else {
            before.filter(named(n))
        },
{
    let pred = named(n);
    let a = before.take(p);
    let b = before.skip(p);
    assert(before =~= a + b);
    assert(before.insert(p, x) =~= (a + seq![x]) + b);
    Seq::filter_distributes_over_add(a + seq![x], b, pred);
    Seq::filter_distributes_over_add(a, b, pred);
    Seq::<(String, u64)>::empty().lemma_filter_push(x, pred);
    assert(Seq::<(String, u64)>::empty().push(x) =~= seq![x]);
    assert(Seq::<(String, u64)>::empty().filter(pred) =~= Seq::<(String, u64)>::empty()) by {
        reveal(Seq::filter);
    }
    a.lemma_filter_push(x, pred);
    assert(a + seq![x] =~= a.push(x));
    if x.0@ == n {
        assert(b.all(|y: (String, u64)| !pred(y))) by {
            assert forall|i: int| 0 <= i < b.len() implies !pred(#[trigger] b[i]) by {
                assert(b[i] == before[p + i]);
            }
        }
        b.lemma_all_neg_filter_empty(pred);
        assert(b.filter(pred) =~= Seq::<(String, u64)>::empty());
        assert(a.filter(pred) + b.filter(pred) =~= a.filter(pred));
        assert(a.filter(pred).push(x) + b.filter(pred) =~= a.filter(pred).push(x));
    }
}

/// The xstats sorted by name, as the xstats view lists them; xstats of
/// the same name keep their order.
pub fn sort_by_name(xstats: &Vec<(String, u64)>) -> (out: Vec<(String, u64)>)
    ensures
        sorted_by_name(out@),
        out@.to_multiset() == xstats@.to_multiset(),
        forall|n: Seq<char>| #[trigger] out@.filter(named(n)) == xstats@.filter(named(n)),
{
    let mut out: Vec<(String, u64)> = Vec::new();
    let mut i: usize = 0;
    proof {
        assert(xstats@.take(0) =~= out@);
    }
    while i < xstats.len()
        invariant
            i <= xstats@.len(),
            sorted_by_name(out@),
            out@.to_multiset() == xstats@.take(i as int).to_multiset(),
            forall|n: Seq<char>| #[trigger] out@.filter(named(n)) == xstats@.take(i as int).filter(named(n)),
        decreases xstats@.len() - i,
    {
        let x = (xstats[i].0.clone(), xstats[i].1);
        let xc = chars_of(x.0.as_str());
        let mut p: usize = 0;
        while p < out.len() && !lex_less(&xc, &chars_of(out[p].0.as_str()))
            invariant
                p <= out@.len(),
                xc@ == x.0@,
                forall|q: int| 0 <= q < p ==> !lex_lt(x.0@, #[trigger] out@[q].0@),
            decreases out@.len() - p,
        {
            p = p + 1;
        }
        let ghost before = out@;
        proof {
            assert forall|j: int| p <= j < before.len() implies !lex_lt(#[trigger] before[j].0@, x.0@) by {
                crate::text::lemma_lex_total(x.0@, before[p as int].0@);
                if lex_lt(before[j].0@, x.0@) {
                    if j > p {
                        crate::text::lemma_lex_transitive(before[j].0@, x.0@, before[p as int].0@);
                    }
                }
            }
        }
        out.insert(p, x);
        proof {
            assert(out@ == before.insert(p as int, x));
            assert forall|j: int| p <= j < before.len() implies (#[trigger] before[j]).0@ != x.0@ by {
                crate::text::lemma_lex_irreflexive(x.0@);
                if j > p {
                    assert(!lex_lt(before[j].0@, before[p as int].0@));
                }
            }
            assert forall|n: Seq<char>| #[trigger] out@.filter(named(n)) == xstats@.take(i + 1).filter(named(n)) by {
                lemma_insert_name_order(before, p as int, x, n);
                xstats@.take(i as int).lemma_filter_push(xstats@[i as int], named(n));
                assert(xstats@.take(i + 1) =~= xstats@.take(i as int).push(xstats@[i as int]));
            }
            vstd::seq_lib::to_multiset_insert(before, p as int, x);
            assert(xstats@.take(i + 1) =~= xstats@.take(i as int).push(xstats@[i as int]));
            vstd::seq_lib::to_multiset_build(xstats@.take(i as int), xstats@[i as int]);
            assert(x == xstats@[i as int]);
            assert forall|a: int, b: int| 0 <= a < b < out@.len() implies !lex_lt(#[trigger] out@[b].0@, #[trigger] out@[a].0@) by {
                if b < p {
                    assert(out@[a] == before[a] && out@[b] == before[b]);
                } else if b == p {
                    assert(out@[a] == before[a]);
                } else if a == p {
                    assert(out@[b] == before[b - 1]);
                } else if a < p {
                    assert(out@[a] == before[a] && out@[b] == before[b - 1]);
                } else {
                    assert(out@[a] == before[a - 1] && out@[b] == before[b - 1]);
                }
            }
        }
        i = i + 1;
    }
    assert(xstats@.take(xstats@.len() as int) =~= xstats@);
    out
}

/// A row of the xstats view: the name left-aligned in 44 columns, then
/// the value with thousands separators right-aligned in 18.
pub open spec fn spec_xstat_line(name: Seq<char>, value: u64) -> Seq<char> {
    "  "@ + pad_right(name, 44) + " "@ + pad_left(grouped(decimal(value as nat)), 18)
}

/// The text of one row of the xstats view.
pub fn xstat_line(name: &str, value: u64) -> (s: String)
    ensures
        s@ == spec_xstat_line(name@, value),
{
    let n = crate::text::pad_right_chars(chars_of(name), 44);
    let v = crate::text::pad_left_chars(&chars_of(crate::format::format_int(value).as_str()), 18);
    let mut s = "  ".to_owned();
    s.append(crate::text::string_of(&n).as_str());
    s.append(" ");
    s.append(crate::text::string_of(&v).as_str());
    s
}


/// On the xstats view (help hidden), Down or `j` scrolls one line down and
/// Up or `k` one line up, PageDown and PageUp twenty lines, never past 0
/// or `u16::MAX`; nothing else changes. On the other views Up and Down
/// move the port selection and leave the state alone.
pub proof fn lemma_scroll_keys(s: TuiState, key: Key, n: nat)
    requires
        !s.show_help,
    ensures
        s.view == Screen::Xstats && (key == Key::Down || key == Key::Char('j')) ==> spec_handle_key(s, key, n) == (
            TuiState { xstats_scroll: if s.xstats_scroll < 65535 { (s.xstats_scroll + 1) as u16 } else { 65535u16 }, ..s },
            TuiAction::Nothing,
        ),
        s.view == Screen::Xstats && (key == Key::Up || key == Key::Char('k')) ==> spec_handle_key(s, key, n) == (
            TuiState { xstats_scroll: if s.xstats_scroll > 0 { (s.xstats_scroll - 1) as u16 } else { 0u16 }, ..s },
            TuiAction::Nothing,
        ),
        s.view == Screen::Xstats && key == Key::PageDown ==> spec_handle_key(s, key, n).0.xstats_scroll
            == if s.xstats_scroll <= 65535 - 20 { (s.xstats_scroll + 20) as u16 } else { 65535u16 },
        s.view == Screen::Xstats && key == Key::PageUp ==> spec_handle_key(s, key, n).0.xstats_scroll
            == if s.xstats_scroll >= 20 { (s.xstats_scroll - 20) as u16 } else { 0u16 },
        s.view == Screen::Xstats && (key == Key::Down || key == Key::Char('j') || key == Key::PageDown)
            ==> spec_handle_key(s, key, n).0.xstats_scroll >= s.xstats_scroll,
        s.view == Screen::Xstats && (key == Key::Up || key == Key::Char('k') || key == Key::PageUp)
            ==> spec_handle_key(s, key, n).0.xstats_scroll <= s.xstats_scroll,
        s.view != Screen::Xstats && (key == Key::Down || key == Key::Char('j'))
            ==> spec_handle_key(s, key, n) == (s, TuiAction::MovePort(1i32)),
        s.view != Screen::Xstats && (key == Key::Up || key == Key::Char('k'))
            ==> spec_handle_key(s, key, n) == (s, TuiAction::MovePort(-1i32)),
{
}

/// Each line of the port info panel shows the field its label names: the
/// PCI name, driver, MAC, MTU, link, and the RX and TX queue counts.
pub proof fn lemma_port_info_line_values(info: PortInfo)
    ensures
        spec_port_info_lines(info).len() == 7,
        spec_port_info_lines(info)[0] == "  Name:       "@ + info.pci@,
        info.driver@.len() > 0 ==> spec_port_info_lines(info)[1] == "  Driver:     "@ + info.driver@,
        info.mac@.len() > 0 ==> spec_port_info_lines(info)[2] == "  MAC:        "@ + info.mac@,
        info.mtu > 0 ==> spec_port_info_lines(info)[3] == "  MTU:        "@ + decimal(info.mtu as nat),
        spec_port_info_lines(info)[4] == "  Link:       "@ + spec_link_label(info.link_status, info.link_speed_mbps, "Unknown"@),
        spec_port_info_lines(info)[5] == "  RX Queues:  "@ + decimal(info.nb_rx_queues as nat),
        spec_port_info_lines(info)[6] == "  TX Queues:  "@ + decimal(info.nb_tx_queues as nat),
{
}

} // verus!
