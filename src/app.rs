use vstd::prelude::*;

verus! {

/// Order in which the process table is shown, always from the largest value down.
#[derive(Clone, Copy, Debug, PartialEq, Eq, Structural)]
pub enum SortBy {
    Cpu,
    Mem,
    Pid,
}

/// Shortest refresh interval, in milliseconds.
pub const MIN_TICK_MS: u64 = 100;

/// Longest refresh interval, in milliseconds.
pub const MAX_TICK_MS: u64 = 2000;

/// Refresh interval of a new session, in milliseconds.
pub const START_TICK_MS: u64 = 500;

/// Amount by which one key press changes the refresh interval, in milliseconds.
pub const TICK_STEP_MS: u64 = 50;

/// Session state of the dashboard: what the user has chosen, kept across refreshes.
pub struct App {
    pub sort_by: SortBy,
    pub filter: String,
    pub is_filtering: bool,
    pub show_help: bool,
    pub selected_index: usize,
    pub selected_pid: Option<u32>,
    pub tick_rate_ms: u64,
}

/// The mathematical value of an [`App`].
pub ghost struct AppModel {
    pub sort_by: SortBy,
    pub filter: Seq<char>,
    pub is_filtering: bool,
    pub show_help: bool,
    pub selected_index: usize,
    pub selected_pid: Option<u32>,
    pub tick_rate_ms: u64,
}

impl AppModel {
    /// The refresh interval lies within its bounds.
    pub open spec fn wf(self) -> bool {
        MIN_TICK_MS <= self.tick_rate_ms <= MAX_TICK_MS
    }

    /// Everything but the selection is the same in both.
    pub open spec fn same_choices(self, o: AppModel) -> bool {
        self.sort_by == o.sort_by && self.filter == o.filter && self.is_filtering == o.is_filtering
            && self.show_help == o.show_help && self.tick_rate_ms == o.tick_rate_ms
    }
}

impl View for App {
    type V = AppModel;

    open spec fn view(&self) -> AppModel {
        AppModel {
            sort_by: self.sort_by,
            filter: self.filter@,
            is_filtering: self.is_filtering,
            show_help: self.show_help,
            selected_index: self.selected_index,
            selected_pid: self.selected_pid,
            tick_rate_ms: self.tick_rate_ms,
        }
    }
}

impl App {
    pub open spec fn wf(&self) -> bool {
        self@.wf()
    }

    /// A fresh session: sorted by CPU, no filter, no selection, help hidden,
    /// refreshing every half second.
    pub fn new() -> (r: App)
        ensures
            r.wf(),
            r@ == (AppModel {
                sort_by: SortBy::Cpu,
                filter: Seq::<char>::empty(),
                is_filtering: false,
                show_help: false,
                selected_index: 0,
                selected_pid: None,
                tick_rate_ms: START_TICK_MS,
            }),
    {
        let r = App {
            sort_by: SortBy::Cpu,
            filter: String::new(),
            is_filtering: false,
            show_help: false,
            selected_index: 0,
            selected_pid: None,
            tick_rate_ms: START_TICK_MS,
        };
        assert(r.filter@ =~= Seq::<char>::empty());
        r
    }
}

} // verus!
