//! The pipeline's state and the decisions taken on each event: timer ticks,
//! manual refreshes, arriving snapshots, query and sort changes, paging.
use vstd::prelude::*;
use crate::record::{ProcessRecord, RecordView, Page, SortColumn, SortDirection, views};
use crate::filter::{filtered, without_pid, apply_filter, normalize_snapshot};
use crate::sort::{is_stable_order, arranged, is_sorted_by, sort_records};
use crate::paging::{
    page_count,
    page_in_range,
    page_of,
    total_pages,
    clamp_page_index,
    next_page_index,
    prev_page_index,
    page_slice,
};

verus! {

/// Records shown per page.
pub const ITEMS_PER_PAGE: usize = 50;

/// Seconds between two timer ticks.
pub const REFRESH_INTERVAL: u64 = 2;

/// `out` is `procs` reduced by query `q` and stably sorted by `col` in `dir`.
pub open spec fn sorted_view(
    procs: Seq<RecordView>,
    q: Seq<char>,
    col: SortColumn,
    dir: SortDirection,
    out: Seq<RecordView>,
) -> bool {
    exists|p: Seq<usize>|
        is_stable_order(filtered(procs, q), col, dir, p) && out == arranged(filtered(procs, q), p)
}

/// The records of `processes` that match `query`, stably sorted.
pub fn filter_and_sort(
    processes: &Vec<ProcessRecord>,
    query: &str,
    col: SortColumn,
    dir: SortDirection,
) -> (r: Vec<ProcessRecord>)
    ensures
        sorted_view(views(processes@), query@, col, dir, views(r@)),
        is_sorted_by(views(r@), col, dir),
        r@.len() == filtered(views(processes@), query@).len(),
{
    let kept = apply_filter(processes, query);
    let r = sort_records(&kept, col, dir);
    proof {
        let p = choose|p: Seq<usize>|
            is_stable_order(views(kept@), col, dir, p) && views(r@) == arranged(views(kept@), p);
        assert(views(r@).len() == p.len());
        assert(r@.len() == views(r@).len());
    }
    r
}

/// The position of a screen in the navigation bar.
pub open spec fn page_number(p: Page) -> usize {
    match p {
        Page::Home => 0,
        Page::ProcessManager => 1,
        Page::Settings => 2,
        Page::Test1 => 3,
    }
}

/// What the rendering layer receives after each pass.
pub struct DisplayModel {
    pub visible_records: Vec<ProcessRecord>,
    pub current_page_index: usize,
    pub total_pages: usize,
    pub total_filtered_count: usize,
}

/// What the driver must do after a timer tick: start a scan tagged with
/// `collect`, if any, and arm the next tick when `rearm` holds.
#[derive(Clone, Copy, Debug, PartialEq, Eq, Structural)]
pub struct TickAction {
    pub collect: Option<u64>,
    pub rearm: bool,
}

/// All state of the process view, changed only through its event methods.
pub struct SysGuard {
    pub current_page: Page,
    pub current_page_button: usize,
    pub processes: Vec<ProcessRecord>,
    pub filtered_processes: Vec<ProcessRecord>,
    pub sort_column: SortColumn,
    pub sort_direction: SortDirection,
    pub search_query: String,
    pub current_display_page: usize,
    pub self_pid: u32,
    /// The ticket that the next recompute will carry.
    pub next_ticket: u64,
    /// The ticket of the last applied snapshot (zero before the first).
    pub applied_ticket: u64,
    pub timer_armed: bool,
    pub closed: bool,
}

impl SysGuard {
    /// The shown records are the current snapshot filtered by the query and
    /// stably sorted.
    pub open spec fn view_is_current(&self) -> bool {
        sorted_view(
            views(self.processes@),
            self.search_query@,
            self.sort_column,
            self.sort_direction,
            views(self.filtered_processes@),
        )
    }

    /// The state's invariant.
    pub open spec fn wf(&self) -> bool {
        &&& self.view_is_current()
        &&& page_in_range(
            self.current_display_page as nat,
            self.filtered_processes@.len(),
            ITEMS_PER_PAGE as nat,
        )
        &&& self.applied_ticket < self.next_ticket
        &&& self.current_page_button == page_number(self.current_page)
        &&& self.closed ==> !self.timer_armed
    }

    /// A fresh controller for the process `self_pid`: no snapshot yet, the
    /// home screen, sorted by CPU descending, the timer armed.
    pub fn new(self_pid: u32) -> (s: SysGuard)
        ensures
            s.wf(),
            s.current_page == Page::Home,
            s.processes@.len() == 0,
            s.sort_column == SortColumn::Cpu,
            s.sort_direction == SortDirection::Descending,
            s.search_query@.len() == 0,
            s.current_display_page == 0,
            s.self_pid == self_pid,
            s.next_ticket == 1,
            s.applied_ticket == 0,
            s.timer_armed,
            !s.closed,
    {
        let processes: Vec<ProcessRecord> = Vec::new();
        let search_query = String::new();
        let filtered_processes = filter_and_sort(
            &processes,
            search_query.as_str(),
            SortColumn::Cpu,
            SortDirection::Descending,
        );
        let s = SysGuard {
            current_page: Page::Home,
            current_page_button: 0,
            processes,
            filtered_processes,
            sort_column: SortColumn::Cpu,
            sort_direction: SortDirection::Descending,
            search_query,
            current_display_page: 0,
            self_pid,
            next_ticket: 1,
            applied_ticket: 0,
            timer_armed: true,
            closed: false,
        };
        proof {
            lemma_page_count_zero(s.filtered_processes@.len(), ITEMS_PER_PAGE as nat);
        }
        s
    }

    /// Issues the ticket for a new recompute; none once shut down or when
    /// tickets are exhausted.
    fn issue_ticket(&mut self) -> (t: Option<u64>)
        requires
            old(self).wf(),
        ensures
            final(self).wf(),
            old(self).closed || old(self).next_ticket == u64::MAX ==> t is None && *final(self)
                == *old(self),
            !old(self).closed && old(self).next_ticket < u64::MAX ==> t == Some(
                old(self).next_ticket,
            ) && *final(self) == (SysGuard {
                next_ticket: (old(self).next_ticket + 1) as u64,
                ..*old(self)
            }),
    {
        if self.closed || self.next_ticket == u64::MAX {
            return None;
        }
        let t = self.next_ticket;
        self.next_ticket = t + 1;
        Some(t)
    }

    /// A manual refresh request: a recompute starts at once with a fresh
    /// ticket; the timer is left as it is.
    pub fn manual_refresh(&mut self) -> (t: Option<u64>)
        requires
            old(self).wf(),
        ensures
            final(self).wf(),
            old(self).closed || old(self).next_ticket == u64::MAX ==> t is None && *final(self)
                == *old(self),
            !old(self).closed && old(self).next_ticket < u64::MAX ==> t == Some(
                old(self).next_ticket,
            ) && *final(self) == (SysGuard {
                next_ticket: (old(self).next_ticket + 1) as u64,
                ..*old(self)
            }),
    {
        self.issue_ticket()
    }

    /// A timer tick. While the timer runs, the next tick is always armed; a
    /// recompute starts only while the process screen is shown. A tick after
    /// shutdown does nothing and arms nothing.
    pub fn on_tick(&mut self) -> (a: TickAction)
        requires
            old(self).wf(),
        ensures
            final(self).wf(),
            a.rearm == (old(self).timer_armed && !old(self).closed),
            !a.rearm ==> a.collect is None && *final(self) == *old(self),
            a.rearm && old(self).current_page != Page::ProcessManager ==> a.collect is None
                && *final(self) == *old(self),
            a.rearm && old(self).current_page == Page::ProcessManager && old(self).next_ticket
                < u64::MAX ==> a.collect == Some(old(self).next_ticket) && *final(self) == (
            SysGuard { next_ticket: (old(self).next_ticket + 1) as u64, ..*old(self) }),
            old(self).next_ticket == u64::MAX ==> a.collect is None && *final(self) == *old(self),
    {
        if self.closed || !self.timer_armed {
            return TickAction { collect: None, rearm: false };
        }
        let collect = if self.current_page == Page::ProcessManager {
            self.issue_ticket()
        } else {
            None
        };
        TickAction { collect, rearm: true }
    }

    /// A scan tagged `ticket` has finished with records `raw`. It is applied
    /// only when it was issued after the last applied one and the controller
    /// is open; otherwise it is stale and nothing changes.
    pub fn apply_snapshot(&mut self, ticket: u64, raw: &Vec<ProcessRecord>) -> (applied: bool)
        requires
            old(self).wf(),
        ensures
            final(self).wf(),
            applied == (!old(self).closed && old(self).applied_ticket < ticket
                && ticket < old(self).next_ticket),
            !applied ==> *final(self) == *old(self),
            applied ==> views(final(self).processes@) == without_pid(
                views(raw@),
                old(self).self_pid,
            ),
            applied ==> final(self).applied_ticket == ticket,
            applied ==> final(self).search_query == old(self).search_query
                && final(self).sort_column == old(self).sort_column
                && final(self).sort_direction == old(self).sort_direction
                && final(self).current_page == old(self).current_page
                && final(self).next_ticket == old(self).next_ticket
                && final(self).timer_armed == old(self).timer_armed
                && final(self).closed == old(self).closed
                && final(self).self_pid == old(self).self_pid,
            applied && page_in_range(
                old(self).current_display_page as nat,
                final(self).filtered_processes@.len(),
                ITEMS_PER_PAGE as nat,
            ) ==> final(self).current_display_page == old(self).current_display_page,
            applied && !page_in_range(
                old(self).current_display_page as nat,
                final(self).filtered_processes@.len(),
                ITEMS_PER_PAGE as nat,
            ) && page_count(final(self).filtered_processes@.len(), ITEMS_PER_PAGE as nat) > 0
                ==> final(self).current_display_page == page_count(
                final(self).filtered_processes@.len(),
                ITEMS_PER_PAGE as nat,
            ) - 1,
    {
        if self.closed || ticket <= self.applied_ticket || ticket >= self.next_ticket {
            return false;
        }
        self.processes = normalize_snapshot(raw, self.self_pid);
        self.applied_ticket = ticket;
        self.filtered_processes = filter_and_sort(
            &self.processes,
            self.search_query.as_str(),
            self.sort_column,
            self.sort_direction,
        );
        self.current_display_page = clamp_page_index(
            self.current_display_page,
            self.filtered_processes.len(),
            ITEMS_PER_PAGE,
        );
        true
    }

    /// A new search query: the view is filtered and sorted again and goes
    /// back to the first page.
    pub fn set_query(&mut self, query: String)
        requires
            old(self).wf(),
        ensures
            final(self).wf(),
            final(self).search_query == query,
            final(self).current_display_page == 0,
            final(self).processes == old(self).processes,
            final(self).sort_column == old(self).sort_column,
            final(self).sort_direction == old(self).sort_direction,
            final(self).current_page == old(self).current_page,
            final(self).next_ticket == old(self).next_ticket,
            final(self).applied_ticket == old(self).applied_ticket,
            final(self).timer_armed == old(self).timer_armed,
            final(self).closed == old(self).closed,
    {
        self.search_query = query;
        self.filtered_processes = filter_and_sort(
            &self.processes,
            self.search_query.as_str(),
            self.sort_column,
            self.sort_direction,
        );
        self.current_display_page = 0;
        proof {
            lemma_page_count_zero(self.filtered_processes@.len(), ITEMS_PER_PAGE as nat);
        }
    }

    /// Sorting by the active column flips the direction; sorting by another
    /// column makes it active, descending.
    pub fn sort_by(&mut self, col: SortColumn)
        requires
            old(self).wf(),
        ensures
            final(self).wf(),
            old(self).sort_column == col ==> final(self).sort_column == col
                && final(self).sort_direction != old(self).sort_direction,
            old(self).sort_column != col ==> final(self).sort_column == col
                && final(self).sort_direction == SortDirection::Descending,
            is_sorted_by(
                views(final(self).filtered_processes@),
                final(self).sort_column,
                final(self).sort_direction,
            ),
            final(self).processes == old(self).processes,
            final(self).search_query == old(self).search_query,
            final(self).current_display_page == old(self).current_display_page,
            final(self).current_page == old(self).current_page,
            final(self).next_ticket == old(self).next_ticket,
            final(self).applied_ticket == old(self).applied_ticket,
            final(self).timer_armed == old(self).timer_armed,
            final(self).closed == old(self).closed,
    {
        if self.sort_column == col {
            self.sort_direction = self.sort_direction.toggle();
        } else {
            self.sort_column = col;
            self.sort_direction = SortDirection::Descending;
        }
        self.filtered_processes = filter_and_sort(
            &self.processes,
            self.search_query.as_str(),
            self.sort_column,
            self.sort_direction,
        );
        proof {
            lemma_view_len(*old(self));
        }
    }

    /// Moves to the following page; nothing happens on the last one.
    pub fn next_page(&mut self)
        requires
            old(self).wf(),
        ensures
            final(self).wf(),
            old(self).current_display_page + 1 < page_count(
                old(self).filtered_processes@.len(),
                ITEMS_PER_PAGE as nat,
            ) ==> *final(self) == (SysGuard {
                current_display_page: (old(self).current_display_page + 1) as usize,
                ..*old(self)
            }),
            old(self).current_display_page + 1 >= page_count(
                old(self).filtered_processes@.len(),
                ITEMS_PER_PAGE as nat,
            ) ==> *final(self) == *old(self),
    {
        self.current_display_page = next_page_index(
            self.current_display_page,
            self.filtered_processes.len(),
            ITEMS_PER_PAGE,
        );
    }

    /// Moves to the preceding page; nothing happens on the first one.
    pub fn prev_page(&mut self)
        requires
            old(self).wf(),
        ensures
            final(self).wf(),
            old(self).current_display_page > 0 ==> *final(self) == (SysGuard {
                current_display_page: (old(self).current_display_page - 1) as usize,
                ..*old(self)
            }),
            old(self).current_display_page == 0 ==> *final(self) == *old(self),
    {
        self.current_display_page = prev_page_index(self.current_display_page);
    }

    /// Shows `page`. Opening the process screen before any snapshot has
    /// arrived starts a recompute and returns its ticket.
    pub fn nav_to(&mut self, page: Page) -> (t: Option<u64>)
        requires
            old(self).wf(),
        ensures
            final(self).wf(),
            final(self).current_page == page,
            final(self).current_page_button == page_number(page),
            t is Some ==> page == Page::ProcessManager && old(self).processes@.len() == 0,
            page == Page::ProcessManager && old(self).processes@.len() == 0 && !old(self).closed
                && old(self).next_ticket < u64::MAX ==> t == Some(old(self).next_ticket),
            final(self).processes == old(self).processes,
            final(self).filtered_processes == old(self).filtered_processes,
            final(self).search_query == old(self).search_query,
            final(self).sort_column == old(self).sort_column,
            final(self).sort_direction == old(self).sort_direction,
            final(self).timer_armed == old(self).timer_armed,
            final(self).current_display_page == old(self).current_display_page,
            final(self).applied_ticket == old(self).applied_ticket,
            final(self).closed == old(self).closed,
    {
        self.current_page = page;
        self.current_page_button = page.page_idx();
        if page == Page::ProcessManager && self.processes.len() == 0 {
            self.issue_ticket()
        } else {
            None
        }
    }

    /// Shuts the pipeline down: the timer is disarmed and every result that
    /// arrives later is discarded.
    pub fn shutdown(&mut self)
        requires
            old(self).wf(),
        ensures
            final(self).wf(),
            *final(self) == (SysGuard { closed: true, timer_armed: false, ..*old(self) }),
    {
        self.closed = true;
        self.timer_armed = false;
    }

    /// The current page of the view, with its position and totals.
    pub fn display_model(&self) -> (m: DisplayModel)
        requires
            self.wf(),
        ensures
            views(m.visible_records@) == page_of(
                views(self.filtered_processes@),
                self.current_display_page as int,
                ITEMS_PER_PAGE as nat,
            ),
            m.current_page_index == self.current_display_page,
            m.total_pages == page_count(self.filtered_processes@.len(), ITEMS_PER_PAGE as nat),
            m.total_filtered_count == self.filtered_processes@.len(),
    {
        DisplayModel {
            visible_records: page_slice(
                &self.filtered_processes,
                self.current_display_page,
                ITEMS_PER_PAGE,
            ),
            current_page_index: self.current_display_page,
            total_pages: total_pages(self.filtered_processes.len(), ITEMS_PER_PAGE),
            total_filtered_count: self.filtered_processes.len(),
        }
    }
}

/// Page zero is always in range.
proof fn lemma_page_count_zero(n: nat, page_size: nat)
    requires
        page_size > 0,
    ensures
        page_in_range(0, n, page_size),
{
}

/// A current view holds exactly the records that match the query.
proof fn lemma_view_len(s: SysGuard)
    requires
        s.view_is_current(),
    ensures
        s.filtered_processes@.len() == filtered(views(s.processes@), s.search_query@).len(),
{
    let f = filtered(views(s.processes@), s.search_query@);
    let p = choose|p: Seq<usize>|
        is_stable_order(f, s.sort_column, s.sort_direction, p) && views(s.filtered_processes@)
            == arranged(f, p);
    assert(views(s.filtered_processes@).len() == s.filtered_processes@.len());
}

} // verus!
