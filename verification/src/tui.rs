//! State of the terminal monitor and its response to keys.
use vstd::prelude::*;
use crate::config::{Config, Units};
use crate::models::{DaemonStatus, GraphPoint, HistoryEntry, InterfaceDetail, InterfaceStats,
    Totals};
use crate::text::{chars_of, push_char, pop_char};
use crate::time::{TimeRange, in_utc_range};
use crate::types::{lowercase, lowercase_of};

verus! {

#[derive(Debug, Clone, Copy, PartialEq, Eq, Structural)]
pub enum Page {
    Home,
    Interfaces,
    InterfaceDetail,
    History,
    Graph,
    Live,
    Search,
    Settings,
}

pub struct RunOptions {
    pub initial_page: Page,
}

impl Default for RunOptions {
    fn default() -> (r: Self)
        ensures
            r.initial_page == Page::Home,
    {
        RunOptions { initial_page: Page::Home }
    }
}

pub struct App {
    pub config: Config,
    pub page: Page,
    pub previous_page: Page,
    pub should_quit: bool,
    pub show_help: bool,
    pub selection: usize,
    pub history_range_idx: usize,
    pub graph_resolution_idx: usize,
    pub search_query: String,
    pub totals: Totals,
    pub speeds: Totals,
    pub interfaces: Vec<InterfaceStats>,
    pub interface_detail: Option<InterfaceDetail>,
    pub selected_interface_id: Option<i64>,
    pub history: Vec<HistoryEntry>,
    pub graph_points: Vec<GraphPoint>,
    pub daemon_status: DaemonStatus,
    pub db_size: u64,
    pub alert_count: usize,
    pub filtered_interfaces: Vec<usize>,
    pub temp_config: Config,
    pub settings_selection: usize,
}

/// `v` limited to `[lo, hi]`.
pub open spec fn clamp(v: int, lo: int, hi: int) -> int {
    if v < lo {
        lo
    } else if v > hi {
        hi
    } else {
        v
    }
}

fn clamp_i32(v: i32, lo: i32, hi: i32) -> (r: i32)
    requires
        lo <= hi,
    ensures
        r as int == clamp(v as int, lo as int, hi as int),
{
    if v < lo {
        lo
    } else if v > hi {
        hi
    } else {
        v
    }
}

pub open spec fn fits_i32(v: int) -> bool {
    i32::MIN <= v <= i32::MAX
}

fn fits(v: i64) -> (r: bool)
    ensures
        r == fits_i32(v as int),
{
    i32::MIN as i64 <= v && v <= i32::MAX as i64
}

/// The display unit one step forward (`delta == 1`) or back (`delta == -1`)
/// in the cycle Auto, Bytes, Bits; other steps keep it.
pub open spec fn step_units(u: Units, delta: i32) -> Units {
    match (u, delta) {
        (Units::Auto, 1) => Units::Bytes,
        (Units::Auto, -1) => Units::Bits,
        (Units::Bytes, 1) => Units::Bits,
        (Units::Bytes, -1) => Units::Auto,
        (Units::Bits, 1) => Units::Auto,
        (Units::Bits, -1) => Units::Bytes,
        _ => u,
    }
}

pub open spec fn history_range_of(idx: usize) -> TimeRange {
    if idx == 0 {
        TimeRange::Today
    } else if idx == 1 {
        TimeRange::Yesterday
    } else if idx == 2 {
        TimeRange::Last7Days
    } else if idx == 3 {
        TimeRange::Last30Days
    } else if idx == 4 {
        TimeRange::CurrentMonth
    } else if idx == 5 {
        TimeRange::PreviousMonth
    } else {
        TimeRange::ThisYear
    }
}

pub open spec fn graph_range_of(idx: usize) -> TimeRange {
    if idx == 0 {
        TimeRange::Today
    } else if idx == 1 {
        TimeRange::Last7Days
    } else if idx == 2 {
        TimeRange::Last30Days
    } else {
        TimeRange::ThisYear
    }
}

pub open spec fn history_label_of(idx: usize) -> Seq<char> {
    if idx == 0 {
        "Today"@
    } else if idx == 1 {
        "Yesterday"@
    } else if idx == 2 {
        "Last 7 Days"@
    } else if idx == 3 {
        "Last 30 Days"@
    } else if idx == 4 {
        "Current Month"@
    } else if idx == 5 {
        "Previous Month"@
    } else {
        "This Year"@
    }
}

pub open spec fn graph_label_of(idx: usize) -> Seq<char> {
    if idx == 0 {
        "Hour"@
    } else if idx == 1 {
        "Day"@
    } else if idx == 2 {
        "Week"@
    } else {
        "Month"@
    }
}

/// Whether `needle` occurs in `hay` at index `i`.
pub open spec fn occurs_at(hay: Seq<char>, needle: Seq<char>, i: int) -> bool {
    0 <= i && i + needle.len() <= hay.len() && hay.subrange(i, i + needle.len()) == needle
}

/// Whether `needle` occurs in `hay` (`str::contains`).
pub open spec fn contains_text(hay: Seq<char>, needle: Seq<char>) -> bool {
    exists|i: int| occurs_at(hay, needle, i)
}

/// Indices of the interfaces whose lower-cased name contains `q`, in order.
pub open spec fn search_hits(ifs: Seq<InterfaceStats>, q: Seq<char>) -> Seq<usize>
    decreases ifs.len(),
{
    if ifs.len() == 0 {
        seq![]
    } else {
        search_hits(ifs.drop_last(), q) + if contains_text(lowercase_of(ifs.last().name@), q) {
            seq![(ifs.len() - 1) as usize]
        } else {
            seq![]
        }
    }
}

/// `0, 1, ..., n - 1`.
pub open spec fn all_indices(n: nat) -> Seq<usize> {
    Seq::new(n, |i: int| i as usize)
}

fn index_list(n: usize) -> (r: Vec<usize>)
    ensures
        r@ == all_indices(n as nat),
{
    let mut out: Vec<usize> = Vec::new();
    let mut i: usize = 0;
    while i < n
        invariant
            i <= n,
            out@ == all_indices(i as nat),
        decreases n - i,
    {
        out.push(i);
        assert(out@ =~= all_indices((i + 1) as nat));
        i = i + 1;
    }
    out
}

/// Whether `needle` occurs in `hay`.
pub fn contains_chars(hay: &Vec<char>, needle: &Vec<char>) -> (r: bool)
    ensures
        r == contains_text(hay@, needle@),
{
    if needle.len() > hay.len() {
        proof {
            assert forall|i: int| !occurs_at(hay@, needle@, i) by {}
        }
        return false;
    }
    let hl = hay.len();
    let last = hl - needle.len();
    let mut i: usize = 0;
    while i <= last
        invariant
            last == hay@.len() - needle@.len(),
            needle@.len() <= hay@.len(),
            hl == hay@.len(),
            forall|j: int| 0 <= j < i ==> !occurs_at(hay@, needle@, j),
        decreases last + 1 - i,
    {
        let mut k: usize = 0;
        while k < needle.len() && hay[i + k] == needle[k]
            invariant
                i <= last,
                last == hay@.len() - needle@.len(),
                needle@.len() <= hay@.len(),
                hl == hay@.len(),
                k <= needle@.len(),
                forall|t: int| 0 <= t < k ==> hay@[i + t] == needle@[t],
            decreases needle@.len() - k,
        {
            k = k + 1;
        }
        if k == needle.len() {
            proof {
                assert(hay@.subrange(i as int, i + needle@.len()) =~= needle@);
                assert(occurs_at(hay@, needle@, i as int));
            }
            return true;
        }
        proof {
            assert(!occurs_at(hay@, needle@, i as int)) by {
                if occurs_at(hay@, needle@, i as int) {
                    assert(hay@.subrange(i as int, i + needle@.len())[k as int] == hay@[i + k]);
                }
            }
        }
        if i == last {
            proof {
                assert forall|j: int| !occurs_at(hay@, needle@, j) by {
                    if 0 <= j < i + 1 {
                    }
                }
            }
            return false;
        }
        i = i + 1;
    }
    false
}

/// What a settings confirmation asks of the caller.
#[derive(Debug, Clone, Copy, PartialEq, Eq, Structural)]
pub enum SettingsAction {
    /// Save the edited settings, then call `commit_settings`.
    Save,
    /// The edits were discarded.
    Cancel,
    /// Nothing to do.
    Stay,
}

/// Keys that the monitor distinguishes.
#[derive(Debug, Clone, Copy, PartialEq, Eq, Structural)]
pub enum Key {
    Char(char),
    Esc,
    Up,
    Down,
    Left,
    Right,
    Enter,
    Backspace,
    Tab,
    Other,
}

/// A key event: the key, whether it was a press, and whether Control was held.
#[derive(Debug, Clone, Copy, PartialEq, Eq, Structural)]
pub struct KeyInput {
    pub key: Key,
    pub press: bool,
    pub control: bool,
}

/// What a key asks of the caller besides the state change.
#[derive(Debug, Clone, Copy, PartialEq, Eq, Structural)]
pub struct KeyOutcome {
    /// Fetch fresh statistics.
    pub refresh: bool,
    /// Save the edited settings, then call `commit_settings`.
    pub save_settings: bool,
}

/// Fresh statistics, as the database gave them.
pub struct RefreshData {
    pub totals: Totals,
    pub speeds: Totals,
    pub interfaces: Vec<InterfaceStats>,
    pub daemon_status: DaemonStatus,
    pub db_size: u64,
    pub alert_count: usize,
    pub interface_detail: Option<InterfaceDetail>,
    pub history: Vec<HistoryEntry>,
    pub graph_points: Vec<GraphPoint>,
}

/// What a refresh must fetch: the spans of the history and of the graph,
/// and the interface whose detail is shown.
#[derive(Debug, Clone, Copy)]
pub struct RefreshPlan {
    pub history: (i64, i64),
    pub graph: (i64, i64),
    pub detail: Option<i64>,
}

impl App {
    /// The state after the settings cursor moves by `d`, staying on the
    /// seven entries.
    pub open spec fn settings_moved(self, d: i32) -> App {
        App {
            settings_selection: clamp((self.settings_selection as i32) as int + d, 0, 6) as usize,
            ..self
        }
    }

    /// The state after the selected setting is changed by `d`: the units in
    /// their cycle, the loopback switch, the intervals within 1..=60 seconds,
    /// the retention by 30 days within 30..=1000. Nothing else changes.
    pub open spec fn setting_adjusted(self, d: i32) -> App {
        let c = self.temp_config;
        let s = self.settings_selection;
        App {
            temp_config: Config {
                units: if s == 0 {
                    step_units(c.units, d)
                } else {
                    c.units
                },
                skip_loopback: if s == 1 {
                    !c.skip_loopback
                } else {
                    c.skip_loopback
                },
                sample_interval: if s == 2 {
                    clamp((c.sample_interval as i32) as int + d, 1, 60) as u64
                } else {
                    c.sample_interval
                },
                batch_write_interval: if s == 3 {
                    clamp((c.batch_write_interval as i32) as int + d, 1, 60) as u64
                } else {
                    c.batch_write_interval
                },
                history_days: if s == 4 {
                    clamp((c.history_days as i32) as int + d * 30, 30, 1000) as u32
                } else {
                    c.history_days
                },
                ..c
            },
            ..self
        }
    }

    /// The state after Enter on the settings page: the seventh entry
    /// discards the edits and goes back; on any other entry nothing changes
    /// (saving is the caller's, followed by `commit_settings`).
    pub open spec fn settings_confirmed(self) -> App {
        if self.settings_selection == 6 {
            App { page: self.previous_page, ..self }
        } else {
            self
        }
    }

    /// The state after going back to the page recorded as previous.
    pub open spec fn went_back(self) -> App {
        App { page: self.previous_page, ..self }
    }

    /// The state after Enter: on the interface list, the highlighted
    /// interface's detail opens; elsewhere nothing changes.
    pub open spec fn entered(self) -> App {
        if self.page == Page::Interfaces && self.selection < self.filtered_interfaces@.len()
            && self.filtered_interfaces@[self.selection as int] < self.interfaces@.len() {
            App {
                selected_interface_id: Some(
                    self.interfaces@[self.filtered_interfaces@[self.selection as int] as int].id,
                ),
                previous_page: Page::Interfaces,
                page: Page::InterfaceDetail,
                ..self
            }
        } else {
            self
        }
    }

    /// The state after the cursor moves by `d` within the list of the page;
    /// without a list nothing changes.
    pub open spec fn selection_moved(self, d: i32) -> App {
        if self.list_len() == 0 {
            self
        } else {
            App {
                selection: clamp((self.selection as i32) as int + d, 0, self.list_len() - 1) as usize,
                ..self
            }
        }
    }

    /// The state after Left or Right: the history range on the history page,
    /// the graph resolution on the graph page, nothing elsewhere.
    pub open spec fn range_moved(self, d: i32) -> App {
        if self.page == Page::History {
            App {
                history_range_idx: clamp((self.history_range_idx as i32) as int + d, 0, 6) as usize,
                ..self
            }
        } else if self.page == Page::Graph {
            App {
                graph_resolution_idx: clamp((self.graph_resolution_idx as i32) as int + d, 0, 3)
                    as usize,
                ..self
            }
        } else {
            self
        }
    }

    /// The state after Tab: the next of the seven history ranges.
    pub open spec fn range_advanced(self) -> App {
        App { history_range_idx: ((self.history_range_idx + 1) % 7) as usize, ..self }
    }

    /// `f` is the state after the search text is applied: the list filtered
    /// by it (every interface for an empty text, the cursor kept), the
    /// cursor on the first hit for a non-empty text.
    pub open spec fn searched(self, f: App) -> bool {
        let q = lowercase_of(self.search_query@);
        &&& f == App {
            filtered_interfaces: f.filtered_interfaces,
            selection: if q.len() == 0 {
                self.selection
            } else {
                0
            },
            ..self
        }
        &&& f.filtered_interfaces@ == if q.len() == 0 {
            all_indices(self.interfaces@.len())
        } else {
            search_hits(self.interfaces@, q)
        }
    }

    /// `f` is the state after the settings page opens on a copy of the
    /// settings in force, its cursor on the first entry.
    pub open spec fn settings_opened(self, f: App) -> bool {
        &&& f == App {
            temp_config: f.temp_config,
            settings_selection: 0,
            previous_page: self.page,
            page: Page::Settings,
            ..self
        }
        &&& f.temp_config.same_as(self.config)
    }

    /// `f` is the state after the saved settings come into force and the
    /// monitor goes back.
    pub open spec fn committed(self, f: App) -> bool {
        &&& f == App { config: f.config, page: self.previous_page, ..self }
        &&& f.config.same_as(self.temp_config)
    }

    /// `f` is the state after the search page opens with an empty text,
    /// remembering the page it came from.
    pub open spec fn search_started(self, f: App) -> bool {
        &&& f == App {
            page: Page::Search,
            previous_page: self.page,
            search_query: f.search_query,
            ..self
        }
        &&& f.search_query@.len() == 0
    }

    /// `f` is the state after `c` is typed into the search and applied.
    pub open spec fn typed(self, c: char, f: App) -> bool {
        &&& f.search_query@ == self.search_query@.push(c)
        &&& (App { search_query: f.search_query, ..self }).searched(f)
    }

    /// `f` is the state after the last character of the search is erased
    /// (if any) and the search applied.
    pub open spec fn erased(self, f: App) -> bool {
        &&& f.search_query@ == if self.search_query@.len() > 0 {
            self.search_query@.drop_last()
        } else {
            self.search_query@
        }
        &&& (App { search_query: f.search_query, ..self }).searched(f)
    }
}

impl App {
    pub fn new(config: Config, initial_page: Page) -> (r: Self)
        ensures
            r.config == config,
            r.temp_config.same_as(config),
            r.page == initial_page,
            r.previous_page == Page::Home,
            !r.should_quit,
            !r.show_help,
            r.selection == 0,
            r.history_range_idx == 0,
            r.graph_resolution_idx == 0,
            r.search_query@.len() == 0,
            r.totals == (Totals { download: 0, upload: 0, rx_rate: 0, tx_rate: 0 }),
            r.speeds == (Totals { download: 0, upload: 0, rx_rate: 0, tx_rate: 0 }),
            r.interfaces@.len() == 0,
            r.interface_detail is None,
            r.selected_interface_id is None,
            r.history@.len() == 0,
            r.graph_points@.len() == 0,
            r.daemon_status == (DaemonStatus {
                running: false,
                pid: None,
                last_heartbeat: None,
                sample_interval: None,
            }),
            r.db_size == 0,
            r.alert_count == 0,
            r.filtered_interfaces@.len() == 0,
            r.settings_selection == 0,
    {
        let temp_config = config.clone();
        App {
            config,
            page: initial_page,
            previous_page: Page::Home,
            should_quit: false,
            show_help: false,
            selection: 0,
            history_range_idx: 0,
            graph_resolution_idx: 0,
            search_query: String::new(),
            totals: Totals { download: 0, upload: 0, rx_rate: 0, tx_rate: 0 },
            speeds: Totals { download: 0, upload: 0, rx_rate: 0, tx_rate: 0 },
            interfaces: Vec::new(),
            interface_detail: None,
            selected_interface_id: None,
            history: Vec::new(),
            graph_points: Vec::new(),
            daemon_status: DaemonStatus {
                running: false,
                pid: None,
                last_heartbeat: None,
                sample_interval: None,
            },
            db_size: 0,
            alert_count: 0,
            filtered_interfaces: Vec::new(),
            temp_config,
            settings_selection: 0,
        }
    }

    /// Opens the settings page on a copy of the current settings.
    pub fn enter_settings(&mut self)
        ensures
            old(self).settings_opened(*final(self)),
    {
        self.temp_config = self.config.clone();
        self.settings_selection = 0;
        self.previous_page = self.page;
        self.page = Page::Settings;
    }

    pub open spec fn settings_move_defined(self, delta: i32) -> bool {
        fits_i32((self.settings_selection as i32) as int + delta)
    }

    /// Moves the settings cursor, staying on the seven entries.
    pub fn move_settings_selection(&mut self, delta: i32)
        requires
            old(self).settings_move_defined(delta),
        ensures
            *final(self) == old(self).settings_moved(delta),
            final(self).settings_selection <= 6,
    {
        let next = self.settings_selection as i32 + delta;
        self.settings_selection = clamp_i32(next, 0, 6) as usize;
    }

    pub open spec fn adjust_defined(self, delta: i32) -> bool {
        match self.settings_selection {
            2 => fits_i32((self.temp_config.sample_interval as i32) as int + delta),
            3 => fits_i32((self.temp_config.batch_write_interval as i32) as int + delta),
            4 => fits_i32(delta * 30) && fits_i32(
                (self.temp_config.history_days as i32) as int + delta * 30,
            ),
            _ => true,
        }
    }

    /// Changes the selected setting: the units in their cycle, the loopback
    /// switch, the intervals within 1..=60 seconds, the retention by 30 days
    /// within 30..=1000.
    pub fn adjust_setting(&mut self, delta: i32)
        requires
            old(self).adjust_defined(delta),
        ensures
            *final(self) == old(self).setting_adjusted(delta),
            old(self).settings_selection == 2 ==> 1 <= final(self).temp_config.sample_interval <= 60,
            old(self).settings_selection == 3 ==> 1 <= final(self).temp_config.batch_write_interval
                <= 60,
            old(self).settings_selection == 4 ==> 30 <= final(self).temp_config.history_days <= 1000,
    {
        if self.settings_selection == 0 {
            let current = self.temp_config.units;
            self.temp_config.units = match (current, delta) {
                (Units::Auto, 1) => Units::Bytes,
                (Units::Auto, -1) => Units::Bits,
                (Units::Bytes, 1) => Units::Bits,
                (Units::Bytes, -1) => Units::Auto,
                (Units::Bits, 1) => Units::Auto,
                (Units::Bits, -1) => Units::Bytes,
                _ => current,
            };
        } else if self.settings_selection == 1 {
            self.temp_config.skip_loopback = !self.temp_config.skip_loopback;
        } else if self.settings_selection == 2 {
            let current = self.temp_config.sample_interval as i32;
            self.temp_config.sample_interval = clamp_i32(current + delta, 1, 60) as u64;
        } else if self.settings_selection == 3 {
            let current = self.temp_config.batch_write_interval as i32;
            self.temp_config.batch_write_interval = clamp_i32(current + delta, 1, 60) as u64;
        } else if self.settings_selection == 4 {
            let current = self.temp_config.history_days as i32;
            self.temp_config.history_days = clamp_i32(current + delta * 30, 30, 1000) as u32;
        }
    }

    /// Enter on the settings page: the sixth entry asks to save, the seventh
    /// discards the edits and goes back.
    pub fn handle_settings_enter(&mut self) -> (r: SettingsAction)
        ensures
            r == if old(self).settings_selection == 5 {
                SettingsAction::Save
            } else if old(self).settings_selection == 6 {
                SettingsAction::Cancel
            } else {
                SettingsAction::Stay
            },
            *final(self) == old(self).settings_confirmed(),
    {
        if self.settings_selection == 5 {
            SettingsAction::Save
        } else if self.settings_selection == 6 {
            self.page = self.previous_page;
            SettingsAction::Cancel
        } else {
            SettingsAction::Stay
        }
    }

    /// After the edited settings were saved: they become the settings in
    /// force, and the monitor goes back to the page it came from.
    pub fn commit_settings(&mut self)
        ensures
            old(self).committed(*final(self)),
    {
        self.config = self.temp_config.clone();
        self.page = self.previous_page;
    }

    pub open spec fn refresh_defined(self, now: int) -> bool {
        &&& history_range_of(self.history_range_idx).bounds_defined(now)
        &&& graph_range_of(self.graph_resolution_idx).bounds_defined(now)
    }

    pub fn refresh_defined_at(&self, now: i64) -> (r: bool)
        ensures
            r == self.refresh_defined(now as int),
    {
        self.current_history_range().defined_at(now) && self.graph_range().defined_at(now)
    }

    /// What the next refresh fetches at `now`.
    pub fn refresh_plan(&self, now: i64) -> (r: RefreshPlan)
        requires
            self.refresh_defined(now as int),
        ensures
            (r.history.0 as int, r.history.1 as int) == history_range_of(
                self.history_range_idx,
            ).bounds_spec(now as int),
            (r.graph.0 as int, r.graph.1 as int) == graph_range_of(
                self.graph_resolution_idx,
            ).bounds_spec(now as int),
            r.detail == self.selected_interface_id,
    {
        let history = self.current_history_range().bounds(now);
        let graph = self.graph_range().bounds(now);
        RefreshPlan { history, graph, detail: self.selected_interface_id }
    }

    /// Takes in fresh statistics; the search filter is reset to every
    /// interface, and the detail is replaced only while an interface is
    /// selected.
    pub fn apply_refresh(&mut self, data: RefreshData)
        ensures
            final(self).totals == data.totals,
            final(self).speeds == data.speeds,
            final(self).interfaces == data.interfaces,
            final(self).daemon_status == data.daemon_status,
            final(self).db_size == data.db_size,
            final(self).alert_count == data.alert_count,
            final(self).filtered_interfaces@ == all_indices(data.interfaces@.len()),
            final(self).interface_detail == if old(self).selected_interface_id is Some
                && data.interface_detail is Some {
                data.interface_detail
            } else {
                old(self).interface_detail
            },
            final(self).history == data.history,
            final(self).graph_points == data.graph_points,
            *final(self) == (App {
                totals: data.totals,
                speeds: data.speeds,
                interfaces: data.interfaces,
                daemon_status: data.daemon_status,
                db_size: data.db_size,
                alert_count: data.alert_count,
                filtered_interfaces: final(self).filtered_interfaces,
                interface_detail: final(self).interface_detail,
                history: data.history,
                graph_points: data.graph_points,
                ..*old(self)
            }),
    {
        let n = data.interfaces.len();
        self.totals = data.totals;
        self.speeds = data.speeds;
        self.interfaces = data.interfaces;
        self.daemon_status = data.daemon_status;
        self.db_size = data.db_size;
        self.alert_count = data.alert_count;
        self.filtered_interfaces = index_list(n);
        if self.selected_interface_id.is_some() {
            match data.interface_detail {
                Some(d) => {
                    self.interface_detail = Some(d);
                },
                None => {},
            }
        }
        self.history = data.history;
        self.graph_points = data.graph_points;
    }

    /// Enter on the interface list opens the detail of the highlighted one.
    pub fn handle_enter(&mut self)
        ensures
            *final(self) == old(self).entered(),
    {
        if self.page == Page::Interfaces {
            if self.selection < self.filtered_interfaces.len() {
                let idx = self.filtered_interfaces[self.selection];
                if idx < self.interfaces.len() {
                    self.selected_interface_id = Some(self.interfaces[idx].id);
                    self.previous_page = Page::Interfaces;
                    self.page = Page::InterfaceDetail;
                }
            }
        }
    }

    /// Length of the list that the current page navigates.
    pub open spec fn list_len(self) -> nat {
        if self.page == Page::Interfaces {
            self.filtered_interfaces@.len()
        } else if self.page == Page::History {
            self.history@.len()
        } else {
            0
        }
    }

    pub open spec fn move_defined(self, delta: i32) -> bool {
        self.list_len() > 0 ==> {
            &&& self.list_len() <= i32::MAX
            &&& fits_i32((self.selection as i32) as int + delta)
        }
    }

    /// Moves the cursor within the list of the current page.
    pub fn move_selection(&mut self, delta: i32)
        requires
            old(self).move_defined(delta),
        ensures
            *final(self) == old(self).selection_moved(delta),
            old(self).list_len() > 0 ==> final(self).selection < old(self).list_len(),
    {
        let len = if self.page == Page::Interfaces {
            self.filtered_interfaces.len()
        } else if self.page == Page::History {
            self.history.len()
        } else {
            0
        };
        if len == 0 {
            return;
        }
        let next = self.selection as i32 + delta;
        self.selection = clamp_i32(next, 0, len as i32 - 1) as usize;
    }

    pub open spec fn range_move_defined(self, delta: i32) -> bool {
        if self.page == Page::History {
            fits_i32((self.history_range_idx as i32) as int + delta)
        } else if self.page == Page::Graph {
            fits_i32((self.graph_resolution_idx as i32) as int + delta)
        } else {
            true
        }
    }

    /// Left and right change the history range or the graph resolution.
    pub fn adjust_range(&mut self, delta: i32)
        requires
            old(self).range_move_defined(delta),
        ensures
            *final(self) == old(self).range_moved(delta),
    {
        if self.page == Page::History {
            let next = self.history_range_idx as i32 + delta;
            self.history_range_idx = clamp_i32(next, 0, 6) as usize;
        } else if self.page == Page::Graph {
            let next = self.graph_resolution_idx as i32 + delta;
            self.graph_resolution_idx = clamp_i32(next, 0, 3) as usize;
        }
    }

    /// Tab steps through the seven history ranges, round and round.
    pub fn next_history_range(&mut self)
        requires
            old(self).history_range_idx < usize::MAX,
        ensures
            *final(self) == old(self).range_advanced(),
    {
        self.history_range_idx = (self.history_range_idx + 1) % 7;
    }

    pub fn current_history_range(&self) -> (r: TimeRange)
        ensures
            r == history_range_of(self.history_range_idx),
    {
        if self.history_range_idx == 0 {
            TimeRange::Today
        } else if self.history_range_idx == 1 {
            TimeRange::Yesterday
        } else if self.history_range_idx == 2 {
            TimeRange::Last7Days
        } else if self.history_range_idx == 3 {
            TimeRange::Last30Days
        } else if self.history_range_idx == 4 {
            TimeRange::CurrentMonth
        } else if self.history_range_idx == 5 {
            TimeRange::PreviousMonth
        } else {
            TimeRange::ThisYear
        }
    }

    pub fn graph_range(&self) -> (r: TimeRange)
        ensures
            r == graph_range_of(self.graph_resolution_idx),
    {
        if self.graph_resolution_idx == 0 {
            TimeRange::Today
        } else if self.graph_resolution_idx == 1 {
            TimeRange::Last7Days
        } else if self.graph_resolution_idx == 2 {
            TimeRange::Last30Days
        } else {
            TimeRange::ThisYear
        }
    }

    pub fn history_range_label(&self) -> (r: &'static str)
        ensures
            r@ == history_label_of(self.history_range_idx),
    {
        if self.history_range_idx == 0 {
            "Today"
        } else if self.history_range_idx == 1 {
            "Yesterday"
        } else if self.history_range_idx == 2 {
            "Last 7 Days"
        } else if self.history_range_idx == 3 {
            "Last 30 Days"
        } else if self.history_range_idx == 4 {
            "Current Month"
        } else if self.history_range_idx == 5 {
            "Previous Month"
        } else {
            "This Year"
        }
    }

    pub fn graph_resolution_label(&self) -> (r: &'static str)
        ensures
            r@ == graph_label_of(self.graph_resolution_idx),
    {
        if self.graph_resolution_idx == 0 {
            "Hour"
        } else if self.graph_resolution_idx == 1 {
            "Day"
        } else if self.graph_resolution_idx == 2 {
            "Week"
        } else {
            "Month"
        }
    }

    /// Filters the interface list by the search text, case-insensitively; a
    /// non-empty search moves the cursor to the first hit.
    pub fn apply_search(&mut self)
        ensures
            old(self).searched(*final(self)),
    {
        let q = lowercase(self.search_query.as_str());
        let qc = chars_of(q.as_str());
        if qc.len() == 0 {
            self.filtered_interfaces = index_list(self.interfaces.len());
            return;
        }
        let mut hits: Vec<usize> = Vec::new();
        let mut i: usize = 0;
        while i < self.interfaces.len()
            invariant
                i <= self.interfaces@.len(),
                qc@ == lowercase_of(self.search_query@),
                hits@ == search_hits(self.interfaces@.take(i as int), qc@),
            decreases self.interfaces@.len() - i,
        {
            let name = lowercase(self.interfaces[i].name.as_str());
            let nc = chars_of(name.as_str());
            let hit = contains_chars(&nc, &qc);
            proof {
                let t = self.interfaces@.take(i + 1);
                assert(t.drop_last() =~= self.interfaces@.take(i as int));
                assert(t.last() == self.interfaces@[i as int]);
            }
            if hit {
                hits.push(i);
            }
            proof {
                let t = self.interfaces@.take(i + 1);
                assert(hits@ =~= search_hits(t, qc@));
            }
            i = i + 1;
        }
        proof {
            assert(self.interfaces@.take(self.interfaces@.len() as int) =~= self.interfaces@);
        }
        self.filtered_interfaces = hits;
        self.selection = 0;
    }
}

/// What a key asks for.
#[derive(Debug, Clone, Copy, PartialEq, Eq, Structural)]
pub enum KeyAction {
    Nothing,
    /// Go back to the page recorded as previous (leaving the settings page
    /// without saving, or the search page).
    Back,
    MoveSettings(i32),
    AdjustSetting(i32),
    ConfirmSettings,
    Quit,
    ToggleHelp,
    OpenSettings,
    /// Show a page and refresh.
    Show(Page),
    StartSearch,
    Open,
    MoveSelection(i32),
    MoveRange(i32),
    Type(char),
    Erase,
    NextRange,
}

/// The action of a key pressed on `page`, as the footers announce it. On
/// the settings page only the settings keys count, and Esc or `q` go back.
/// On the search page every character is typed, Backspace erases and Esc
/// goes back. On the detail page Esc and `q` go back to the interface list,
/// on the interface list Esc goes back home; elsewhere they quit.
pub open spec fn key_action_of(page: Page, key: Key) -> KeyAction {
    if page == Page::Settings {
        match key {
            Key::Char('q') | Key::Esc => KeyAction::Back,
            Key::Up => KeyAction::MoveSettings(-1i32),
            Key::Down => KeyAction::MoveSettings(1i32),
            Key::Left => KeyAction::AdjustSetting(-1i32),
            Key::Right => KeyAction::AdjustSetting(1i32),
            Key::Enter => KeyAction::ConfirmSettings,
            _ => KeyAction::Nothing,
        }
    } else if page == Page::Search {
        match key {
            Key::Esc => KeyAction::Back,
            Key::Char(c) => KeyAction::Type(c),
            Key::Backspace => KeyAction::Erase,
            Key::Enter => KeyAction::Open,
            Key::Up => KeyAction::MoveSelection(-1i32),
            Key::Down => KeyAction::MoveSelection(1i32),
            Key::Left => KeyAction::MoveRange(-1i32),
            Key::Right => KeyAction::MoveRange(1i32),
            Key::Tab => KeyAction::NextRange,
            _ => KeyAction::Nothing,
        }
    } else if page == Page::InterfaceDetail && (key == Key::Esc || key == Key::Char('q')) {
        KeyAction::Show(Page::Interfaces)
    } else if page == Page::Interfaces && key == Key::Esc {
        KeyAction::Show(Page::Home)
    } else {
        match key {
            Key::Char('q') | Key::Esc => KeyAction::Quit,
            Key::Char('?') => KeyAction::ToggleHelp,
            Key::Char('s') => KeyAction::OpenSettings,
            Key::Char('i') => KeyAction::Show(Page::Interfaces),
            Key::Char('h') => KeyAction::Show(Page::History),
            Key::Char('g') => KeyAction::Show(Page::Graph),
            Key::Char('l') => KeyAction::Show(Page::Live),
            Key::Char('/') => KeyAction::StartSearch,
            Key::Char('1') => KeyAction::Show(Page::Home),
            Key::Enter => KeyAction::Open,
            Key::Up => KeyAction::MoveSelection(-1i32),
            Key::Down => KeyAction::MoveSelection(1i32),
            Key::Left => KeyAction::MoveRange(-1i32),
            Key::Right => KeyAction::MoveRange(1i32),
            Key::Tab => KeyAction::NextRange,
            _ => KeyAction::Nothing,
        }
    }
}

pub fn key_action(page: Page, key: Key) -> (r: KeyAction)
    ensures
        r == key_action_of(page, key),
{
    if page == Page::Settings {
        match key {
            Key::Char('q') | Key::Esc => KeyAction::Back,
            Key::Up => KeyAction::MoveSettings(-1),
            Key::Down => KeyAction::MoveSettings(1),
            Key::Left => KeyAction::AdjustSetting(-1),
            Key::Right => KeyAction::AdjustSetting(1),
            Key::Enter => KeyAction::ConfirmSettings,
            _ => KeyAction::Nothing,
        }
    } else if page == Page::Search {
        match key {
            Key::Esc => KeyAction::Back,
            Key::Char(c) => KeyAction::Type(c),
            Key::Backspace => KeyAction::Erase,
            Key::Enter => KeyAction::Open,
            Key::Up => KeyAction::MoveSelection(-1),
            Key::Down => KeyAction::MoveSelection(1),
            Key::Left => KeyAction::MoveRange(-1),
            Key::Right => KeyAction::MoveRange(1),
            Key::Tab => KeyAction::NextRange,
            _ => KeyAction::Nothing,
        }
    } else if page == Page::InterfaceDetail && (key == Key::Esc || key == Key::Char('q')) {
        KeyAction::Show(Page::Interfaces)
    } else if page == Page::Interfaces && key == Key::Esc {
        KeyAction::Show(Page::Home)
    } else {
        match key {
            Key::Char('q') | Key::Esc => KeyAction::Quit,
            Key::Char('?') => KeyAction::ToggleHelp,
            Key::Char('s') => KeyAction::OpenSettings,
            Key::Char('i') => KeyAction::Show(Page::Interfaces),
            Key::Char('h') => KeyAction::Show(Page::History),
            Key::Char('g') => KeyAction::Show(Page::Graph),
            Key::Char('l') => KeyAction::Show(Page::Live),
            Key::Char('/') => KeyAction::StartSearch,
            Key::Char('1') => KeyAction::Show(Page::Home),
            Key::Enter => KeyAction::Open,
            Key::Up => KeyAction::MoveSelection(-1),
            Key::Down => KeyAction::MoveSelection(1),
            Key::Left => KeyAction::MoveRange(-1),
            Key::Right => KeyAction::MoveRange(1),
            Key::Tab => KeyAction::NextRange,
            _ => KeyAction::Nothing,
        }
    }
}

/// Whether an action fetches fresh statistics afterwards.
pub open spec fn action_refreshes(a: KeyAction) -> bool {
    match a {
        KeyAction::Show(_) | KeyAction::Open | KeyAction::MoveRange(_) | KeyAction::NextRange => true,
        _ => false,
    }
}

/// `f` is the state after action `a` on state `o`.
pub open spec fn action_step(o: App, a: KeyAction, f: App) -> bool {
    match a {
        KeyAction::Nothing => f == o,
        KeyAction::Back => f == o.went_back(),
        KeyAction::MoveSettings(d) => f == o.settings_moved(d),
        KeyAction::AdjustSetting(d) => f == o.setting_adjusted(d),
        KeyAction::ConfirmSettings => f == o.settings_confirmed(),
        KeyAction::Quit => f == (App { should_quit: true, ..o }),
        KeyAction::ToggleHelp => f == (App { show_help: !o.show_help, ..o }),
        KeyAction::OpenSettings => o.settings_opened(f),
        KeyAction::Show(p) => f == (App { page: p, ..o }),
        KeyAction::StartSearch => o.search_started(f),
        KeyAction::Open => f == o.entered(),
        KeyAction::MoveSelection(d) => f == o.selection_moved(d),
        KeyAction::MoveRange(d) => f == o.range_moved(d),
        KeyAction::Type(c) => o.typed(c, f),
        KeyAction::Erase => o.erased(f),
        KeyAction::NextRange => f == o.range_advanced(),
    }
}

impl App {
    pub open spec fn action_defined(self, a: KeyAction) -> bool {
        match a {
            KeyAction::MoveSettings(d) => self.settings_move_defined(d),
            KeyAction::AdjustSetting(d) => self.adjust_defined(d),
            KeyAction::MoveSelection(d) => self.move_defined(d),
            KeyAction::MoveRange(d) => self.range_move_defined(d),
            KeyAction::NextRange => self.history_range_idx < usize::MAX,
            _ => true,
        }
    }

    /// The inputs on which a key is handled without overflow.
    pub open spec fn key_defined(self, input: KeyInput) -> bool {
        input.press ==> self.action_defined(key_action_of(self.page, input.key))
    }

    /// Whether `handle_key` can take `input` without overflowing.
    pub fn key_in_range(&self, input: KeyInput) -> (r: bool)
        ensures
            r == self.key_defined(input),
    {
        if !input.press {
            return true;
        }
        match key_action(self.page, input.key) {
            KeyAction::MoveSettings(d) => fits((self.settings_selection as i32) as i64 + d as i64),
            KeyAction::AdjustSetting(d) => {
                if self.settings_selection == 2 {
                    fits((self.temp_config.sample_interval as i32) as i64 + d as i64)
                } else if self.settings_selection == 3 {
                    fits((self.temp_config.batch_write_interval as i32) as i64 + d as i64)
                } else if self.settings_selection == 4 {
                    fits(d as i64 * 30) && fits(
                        (self.temp_config.history_days as i32) as i64 + d as i64 * 30,
                    )
                } else {
                    true
                }
            },
            KeyAction::MoveSelection(d) => {
                let n = if self.page == Page::Interfaces {
                    self.filtered_interfaces.len()
                } else if self.page == Page::History {
                    self.history.len()
                } else {
                    0
                };
                n == 0 || (n <= i32::MAX as usize && fits((self.selection as i32) as i64 + d as i64))
            },
            KeyAction::MoveRange(d) => {
                if self.page == Page::History {
                    fits((self.history_range_idx as i32) as i64 + d as i64)
                } else if self.page == Page::Graph {
                    fits((self.graph_resolution_idx as i32) as i64 + d as i64)
                } else {
                    true
                }
            },
            KeyAction::NextRange => self.history_range_idx < usize::MAX,
            _ => true,
        }
    }

    /// Responds to a key: carries out its action, and Control-C quits from
    /// any page. Released keys do nothing.
    pub fn handle_key(&mut self, input: KeyInput) -> (r: KeyOutcome)
        requires
            old(self).key_defined(input),
        ensures
            ({
                let o = *old(self);
                let a = key_action_of(o.page, input.key);
                let ctrl_c = input.control && input.key == Key::Char('c');
                if !input.press {
                    *final(self) == o && r == (KeyOutcome { refresh: false, save_settings: false })
                } else {
                    &&& action_step(
                        o,
                        a,
                        App {
                            should_quit: if a == KeyAction::Quit {
                                true
                            } else {
                                o.should_quit
                            },
                            ..*final(self)
                        },
                    )
                    &&& final(self).should_quit == (o.should_quit || a == KeyAction::Quit || ctrl_c)
                    &&& r.save_settings == (a == KeyAction::ConfirmSettings
                        && o.settings_selection == 5)
                    &&& r.refresh == (action_refreshes(a) || r.save_settings)
                }
            }),
    {
        let mut out = KeyOutcome { refresh: false, save_settings: false };
        if !input.press {
            return out;
        }
        let action = key_action(self.page, input.key);
        match action {
            KeyAction::Nothing => {},
            KeyAction::Back => {
                self.page = self.previous_page;
            },
            KeyAction::MoveSettings(d) => {
                self.move_settings_selection(d);
            },
            KeyAction::AdjustSetting(d) => {
                self.adjust_setting(d);
            },
            KeyAction::ConfirmSettings => {
                if self.handle_settings_enter() == SettingsAction::Save {
                    out.save_settings = true;
                    out.refresh = true;
                }
            },
            KeyAction::Quit => {
                self.should_quit = true;
            },
            KeyAction::ToggleHelp => {
                self.show_help = !self.show_help;
            },
            KeyAction::OpenSettings => {
                self.enter_settings();
            },
            KeyAction::Show(p) => {
                self.page = p;
                out.refresh = true;
            },
            KeyAction::StartSearch => {
                self.previous_page = self.page;
                self.page = Page::Search;
                self.search_query = String::new();
            },
            KeyAction::Open => {
                self.handle_enter();
                out.refresh = true;
            },
            KeyAction::MoveSelection(d) => {
                self.move_selection(d);
            },
            KeyAction::MoveRange(d) => {
                self.adjust_range(d);
                out.refresh = true;
            },
            KeyAction::Type(c) => {
                push_char(&mut self.search_query, c);
                self.apply_search();
            },
            KeyAction::Erase => {
                pop_char(&mut self.search_query);
                self.apply_search();
            },
            KeyAction::NextRange => {
                self.next_history_range();
                out.refresh = true;
            },
        }
        if input.control && input.key == Key::Char('c') {
            self.should_quit = true;
        }
        out
    }
}

/// Every interface whose lower-cased name contains the search text is a
/// hit (with soundness, the hits are exactly those interfaces).
pub proof fn lemma_search_hits_complete(ifs: Seq<InterfaceStats>, q: Seq<char>)
    requires
        ifs.len() <= usize::MAX,
    ensures
        forall|i: int|
            0 <= i < ifs.len() && contains_text(lowercase_of(#[trigger] ifs[i].name@), q)
                ==> search_hits(ifs, q).contains(i as usize),
    decreases ifs.len(),
{
    if ifs.len() > 0 {
        let d = ifs.drop_last();
        lemma_search_hits_complete(d, q);
        let h = search_hits(ifs, q);
        let hd = search_hits(d, q);
        let hit = contains_text(lowercase_of(ifs.last().name@), q);
        let tail: Seq<usize> = if hit {
            seq![(ifs.len() - 1) as usize]
        } else {
            seq![]
        };
        assert(h == hd + tail);
        assert forall|i: int|
            0 <= i < ifs.len() && contains_text(lowercase_of(#[trigger] ifs[i].name@), q)
                implies h.contains(i as usize) by {
            if i < d.len() {
                assert(d[i] == ifs[i]);
                assert(hd.contains(i as usize));
                let k = choose|k: int| 0 <= k < hd.len() && hd[k] == i as usize;
                assert(h[k] == hd[k]);
            } else {
                assert(h[hd.len() as int] == (ifs.len() - 1) as usize);
            }
        }
    }
}

/// The search ignores the case of its text: two texts that lower-case
/// alike filter the interfaces alike and leave the cursor alike; and with a
/// non-empty text, an interface is listed exactly when its lower-cased name
/// contains the lower-cased text.
pub proof fn lemma_search_case_insensitive(o: App, q2: String, f: App, g: App)
    requires
        o.interfaces@.len() <= usize::MAX,
        lowercase_of(q2@) == lowercase_of(o.search_query@),
        o.searched(f),
        (App { search_query: q2, ..o }).searched(g),
    ensures
        f.filtered_interfaces@ == g.filtered_interfaces@,
        f.selection == g.selection,
        lowercase_of(o.search_query@).len() > 0 ==> forall|i: int|
            0 <= i < o.interfaces@.len() ==> (f.filtered_interfaces@.contains(i as usize)
                <==> contains_text(
                lowercase_of(#[trigger] o.interfaces@[i].name@),
                lowercase_of(o.search_query@),
            )),
{
    let q = lowercase_of(o.search_query@);
    if q.len() > 0 {
        lemma_search_hits_sound(o.interfaces@, q);
        lemma_search_hits_complete(o.interfaces@, q);
        let h = search_hits(o.interfaces@, q);
        assert forall|i: int| 0 <= i < o.interfaces@.len() implies (f.filtered_interfaces@.contains(
            i as usize,
        ) <==> contains_text(lowercase_of(#[trigger] o.interfaces@[i].name@), q)) by {
            if h.contains(i as usize) {
                let k = choose|k: int| 0 <= k < h.len() && h[k] == i as usize;
                assert(h[k] < o.interfaces@.len());
                assert(h[k] as int == i);
            }
        }
    }
}

/// The keys that show a page.
pub open spec fn page_shortcut(c: char) -> bool {
    c == 'i' || c == 'h' || c == 'g' || c == 'l' || c == '1'
}

/// Outside the settings and search pages, each page shortcut shows its own
/// page: `i` the interfaces, `h` the history, `g` the graph, `l` the live
/// page, `1` home; and distinct shortcuts lead to distinct pages.
pub proof fn lemma_page_shortcuts(page: Page)
    requires
        page != Page::Settings,
        page != Page::Search,
    ensures
        key_action_of(page, Key::Char('i')) == KeyAction::Show(Page::Interfaces),
        key_action_of(page, Key::Char('h')) == KeyAction::Show(Page::History),
        key_action_of(page, Key::Char('g')) == KeyAction::Show(Page::Graph),
        key_action_of(page, Key::Char('l')) == KeyAction::Show(Page::Live),
        key_action_of(page, Key::Char('1')) == KeyAction::Show(Page::Home),
        forall|a: char, b: char|
            a != b && page_shortcut(a) && page_shortcut(b) ==> (#[trigger] key_action_of(
                page,
                Key::Char(a),
            )) != (#[trigger] key_action_of(page, Key::Char(b))),
{
}

/// A step of the units forward then back returns to the same units, and
/// three steps forward go round the cycle.
pub proof fn lemma_units_cycle(u: Units)
    ensures
        step_units(step_units(u, 1i32), -1i32) == u,
        step_units(step_units(step_units(u, 1i32), 1i32), 1i32) == u,
{
}

/// The history range after one press of Tab.
pub open spec fn next_range_index(i: int) -> int {
    (i + 1) % 7
}

/// Seven presses of Tab come back to the same history range.
pub proof fn lemma_history_tab_cycle(i: int)
    requires
        0 <= i,
    ensures
        next_range_index(next_range_index(next_range_index(next_range_index(next_range_index(
            next_range_index(next_range_index(i)),
        ))))) == i % 7,
{
}

/// Every search hit names an interface whose lower-cased name contains the
/// search text, and the hits are in increasing order.
pub proof fn lemma_search_hits_sound(ifs: Seq<InterfaceStats>, q: Seq<char>)
    requires
        ifs.len() <= usize::MAX,
    ensures
        forall|k: int|
            0 <= k < search_hits(ifs, q).len() ==> {
                &&& (#[trigger] search_hits(ifs, q)[k]) < ifs.len()
                &&& contains_text(lowercase_of(ifs[search_hits(ifs, q)[k] as int].name@), q)
            },
        forall|k: int, l: int|
            0 <= k < l < search_hits(ifs, q).len() ==> #[trigger] search_hits(ifs, q)[k]
                < #[trigger] search_hits(ifs, q)[l],
    decreases ifs.len(),
{
    if ifs.len() > 0 {
        let d = ifs.drop_last();
        lemma_search_hits_sound(d, q);
        let h = search_hits(ifs, q);
        let hd = search_hits(d, q);
        let hit = contains_text(lowercase_of(ifs.last().name@), q);
        let tail: Seq<usize> = if hit {
            seq![(ifs.len() - 1) as usize]
        } else {
            seq![]
        };
        assert(h == hd + tail);
        assert forall|k: int| 0 <= k < h.len() implies {
            &&& (#[trigger] h[k]) < ifs.len()
            &&& contains_text(lowercase_of(ifs[h[k] as int].name@), q)
        } by {
            if k < hd.len() {
                assert(h[k] == hd[k]);
                assert(hd[k] < d.len());
                assert(ifs[hd[k] as int] == d[hd[k] as int]);
            } else {
                assert(hit);
                assert(h[k] == (ifs.len() - 1) as usize);
            }
        }
        assert forall|k: int, l: int| 0 <= k < l < h.len() implies #[trigger] h[k] < #[trigger] h[l] by {
            if l < hd.len() {
                assert(h[k] == hd[k] && h[l] == hd[l]);
            } else {
                assert(h[k] == hd[k]);
                assert(hd[k] < d.len());
                assert(h[l] == (ifs.len() - 1) as usize);
            }
        }
    }
}

} // verus!
