//! The pagination engine: which page to ask for next, and what a page that
//! came back does to the bars gathered so far.
//!
//! The engine never calls the provider. A caller asks it for the next step,
//! fetches the page that the step names, and hands the page's bars back; the
//! engine then holds the next state. When the step is `Done`, the caller takes
//! the series.

use vstd::prelude::*;
use vstd::seq_lib::*;
use crate::error::BybitError;
use crate::interval::{
    interval_millis, lemma_interval_bounds, parse_interval_to_ms, MAX_INTERVAL_MS,
};
use crate::kline::{is_first_malformed, normalize_page, page_klines, row_defect, Kline};
use crate::response::{rejection_message, response_rows, BybitResponse};
use crate::series::{
    ascending, canonical, has_time, is_first_of_its_time, lemma_canonical, lemma_place_index,
    lemma_sorted_by_time, lemma_sorted_contains, place_index, sort_and_dedup, sort_by_start_time,
    sorted_by_time, strictly_ascending,
};

verus! {

/// The most rows that the provider hands out in one page.
pub const MAX_PAGE_SIZE: u32 = 1000;

/// The pause between two page requests, in milliseconds, that keeps a run
/// under the provider's rate limit.
pub const PACING_DELAY_MS: u64 = 100;

/// What a caller asks of one retrieval run.
#[derive(Debug, Clone, PartialEq, Eq)]
pub struct FetchRequest {
    pub symbol: String,
    /// The code of the bar interval, such as `15` or `D`.
    pub interval: String,
    pub category: String,
    /// The most bars that the run may return.
    pub max_records: u32,
    /// The first millisecond of the window.
    pub start: u64,
    /// The first millisecond after the window.
    pub end: u64,
}

/// Why a run asks for no further page.
#[derive(Debug, Clone, Copy, PartialEq, Eq, Structural)]
pub enum Termination {
    /// The next page would start at or after the end of the window.
    Exhausted,
    /// As many bars are gathered as the run may return.
    CapReached,
    /// The provider answered with a page without rows.
    EmptyPage,
    /// A page came back that held nothing new.
    NoProgress,
}

/// One call to the provider: the bars that start in `[start, end)`, `limit` at most.
#[derive(Debug, Clone, Copy, PartialEq, Eq, Structural)]
pub struct PageRequest {
    pub start: u64,
    pub end: u64,
    pub limit: u32,
}

/// What the caller of the engine does next.
#[derive(Debug, Clone, Copy, PartialEq, Eq, Structural)]
pub enum Step {
    /// Fetch this page and hand it to the engine.
    Fetch(PageRequest),
    /// Stop fetching and take the series.
    Done(Termination),
}

/// The state of a run, as a mathematical value.
pub struct EngineState {
    /// The window asked for is `[start, end)`.
    pub start: u64,
    pub end: u64,
    /// The length of one bar, in milliseconds.
    pub interval_ms: u64,
    /// The most bars that the run may return.
    pub max_records: u32,
    /// Where the next page starts.
    pub current_start: u64,
    /// The bars gathered so far.
    pub accumulator: Seq<Kline>,
    /// Why the run has stopped, once a page has made it stop.
    pub stopped: Option<Termination>,
}

/// Tells of a bar whether it starts after `t`.
pub open spec fn starts_after(t: u64) -> spec_fn(Kline) -> bool {
    |k: Kline| k.start_time > t
}

/// The bars of a sorted page that are new to the run: all of them while
/// nothing is gathered, else those that start after the last bar gathered.
pub open spec fn fresh_bars(accumulator: Seq<Kline>, page: Seq<Kline>) -> Seq<Kline> {
    if accumulator.len() == 0 {
        page
    } else {
        page.filter(starts_after(accumulator.last().start_time))
    }
}

/// The first `room` bars of `s`, or all of `s` where it has no more.
pub open spec fn capped(s: Seq<Kline>, room: int) -> Seq<Kline> {
    if s.len() > room {
        s.take(room)
    } else {
        s
    }
}

/// The pages of a recording, each as the sequence of its bars.
pub open spec fn pages_of(pages: Seq<Vec<Kline>>) -> Seq<Seq<Kline>> {
    Seq::new(pages.len(), |i: int| pages[i]@)
}

/// Every bar of `s` starts in `[start, end)`.
pub open spec fn all_within(s: Seq<Kline>, start: int, end: int) -> bool {
    forall|i: int| 0 <= i < s.len() ==> start <= (#[trigger] s[i]).start_time < end
}

impl EngineState {
    /// The state in which a run begins.
    pub open spec fn initial(start: u64, end: u64, interval_ms: u64, max_records: u32) -> Self {
        EngineState {
            start,
            end,
            interval_ms,
            max_records,
            current_start: start,
            accumulator: Seq::empty(),
            stopped: None,
        }
    }

    /// What holds of every state that a run passes through.
    pub open spec fn inv(self) -> bool {
        &&& self.start < self.end
        &&& self.current_start < self.end
        &&& 0 < self.interval_ms <= MAX_INTERVAL_MS
        &&& self.accumulator.len() <= self.max_records
        &&& ascending(self.accumulator)
    }

    /// How many rows the next page may hold: a full page, or what the run may
    /// still return if that is less.
    pub open spec fn chunk_limit(self) -> int {
        if self.max_records - self.accumulator.len() < MAX_PAGE_SIZE {
            self.max_records - self.accumulator.len()
        } else {
            MAX_PAGE_SIZE as int
        }
    }

    /// Where the window of the next page ends: one bar's length for each row
    /// that the page may hold, but never after the end of the run's window.
    pub open spec fn chunk_end(self) -> int {
        if self.current_start + self.chunk_limit() * self.interval_ms < self.end {
            self.current_start + self.chunk_limit() * self.interval_ms
        } else {
            self.end as int
        }
    }

    /// The page that the run asks for next, while it asks for one.
    pub open spec fn request(self) -> PageRequest {
        PageRequest {
            start: self.current_start,
            end: self.chunk_end() as u64,
            limit: self.chunk_limit() as u32,
        }
    }

    /// What the caller does next in this state.
    pub open spec fn step(self) -> Step {
        if let Some(reason) = self.stopped {
            Step::Done(reason)
        } else if self.accumulator.len() >= self.max_records {
            Step::Done(Termination::CapReached)
        } else if self.current_start >= self.end {
            Step::Done(Termination::Exhausted)
        } else {
            Step::Fetch(self.request())
        }
    }

    /// How long the caller waits before it acts on the next step, in
    /// milliseconds: the pacing delay before every page but the first, and not
    /// at all once the run is over.
    pub open spec fn pause_ms(self) -> u64 {
        if self.step() is Fetch && self.accumulator.len() > 0 {
            PACING_DELAY_MS
        } else {
            0
        }
    }

    /// The bars of `page` that the run takes in: the page is sorted, what is
    /// not new is dropped, and what would exceed the cap is cut off.
    pub open spec fn taken(self, page: Seq<Kline>) -> Seq<Kline> {
        capped(
            fresh_bars(self.accumulator, sorted_by_time(page)),
            self.max_records - self.accumulator.len(),
        )
    }

    /// The state after the bars of the page asked for have come back.
    ///
    /// A state that asks for no page stays as it is.
    pub open spec fn absorb(self, page: Seq<Kline>) -> Self {
        let accumulator = self.accumulator + self.taken(page);
        if !(self.step() is Fetch) {
            self
        } else if page.len() == 0 {
            EngineState { stopped: Some(Termination::EmptyPage), ..self }
        } else if accumulator.len() >= self.max_records {
            EngineState { accumulator, stopped: Some(Termination::CapReached), ..self }
        } else if self.taken(page).len() == 0 {
            EngineState { accumulator, stopped: Some(Termination::NoProgress), ..self }
        } else if accumulator.last().start_time + self.interval_ms >= self.end {
            EngineState { accumulator, stopped: Some(Termination::Exhausted), ..self }
        } else {
            EngineState {
                accumulator,
                current_start: (accumulator.last().start_time + self.interval_ms) as u64,
                ..self
            }
        }
    }

    /// The series that the run returns from this state.
    pub open spec fn series(self) -> Seq<Kline> {
        canonical(self.accumulator)
    }

    /// The state after a run was fed `pages`, one for each page asked for, in
    /// order. Pages that are left when the run stops are not looked at.
    pub open spec fn run(self, pages: Seq<Seq<Kline>>) -> Self
        decreases pages.len(),
    {
        if pages.len() == 0 || !(self.step() is Fetch) {
            self
        } else {
            self.absorb(pages.first()).run(pages.drop_first())
        }
    }

    /// Nothing gathered lies outside the window asked for, and the next
    /// page does not start before it.
    pub open spec fn in_window(self) -> bool {
        &&& self.start <= self.current_start
        &&& all_within(self.accumulator, self.start as int, self.end as int)
    }

    /// Each page of `pages` holds only bars that start in the window that the
    /// run asked for when the page came.
    pub open spec fn answered_faithfully(self, pages: Seq<Seq<Kline>>) -> bool
        decreases pages.len(),
    {
        if pages.len() == 0 || !(self.step() is Fetch) {
            true
        } else {
            &&& all_within(pages.first(), self.current_start as int, self.chunk_end())
            &&& self.absorb(pages.first()).answered_faithfully(pages.drop_first())
        }
    }
}

/// In a series that is in order, the bars that start after `t` are the bars
/// from the place of `t` on.
pub proof fn lemma_filter_after(s: Seq<Kline>, t: u64)
    requires
        ascending(s),
    ensures
        s.filter(starts_after(t)) == s.skip(place_index(s, t)),
    decreases s.len(),
{
    reveal(Seq::filter);
    if s.len() == 0 {
        assert(s.skip(0) =~= s);
    } else {
        let head = s.drop_last();
        assert(ascending(head)) by {
            assert forall|i: int, j: int| 0 <= i < j < head.len() implies head[i].start_time
                <= head[j].start_time by {
                assert(head[i] == s[i] && head[j] == s[j]);
            }
        }
        lemma_filter_after(head, t);
        lemma_place_index(head, t);
        let p = place_index(head, t);
        if s.last().start_time <= t {
            if p < head.len() {
                assert(head[p] == s[p]);
            }
            assert(head.skip(p) =~= s.skip(s.len() as int));
        } else {
            assert(head.skip(p).push(s.last()) =~= s.skip(p));
        }
    }
}

/// What a run takes in of a page: no more than it has room for, only bars of
/// the page, and only bars that keep the bars gathered in order.
pub proof fn lemma_taken(state: EngineState, page: Seq<Kline>)
    requires
        ascending(state.accumulator),
        state.accumulator.len() <= state.max_records,
    ensures
        state.taken(page).len() <= state.max_records - state.accumulator.len(),
        state.taken(page).len() <= page.len(),
        forall|i: int|
            0 <= i < state.taken(page).len() ==> page.contains(#[trigger] state.taken(page)[i]),
        ascending(state.accumulator + state.taken(page)),
{
    let acc = state.accumulator;
    let sorted = sorted_by_time(page);
    let fresh = fresh_bars(acc, sorted);
    let taken = state.taken(page);
    lemma_sorted_by_time(page);
    let from: int = if acc.len() == 0 {
        0
    } else {
        place_index(sorted, acc.last().start_time)
    };
    if acc.len() > 0 {
        lemma_filter_after(sorted, acc.last().start_time);
        lemma_place_index(sorted, acc.last().start_time);
    }
    assert(fresh =~= sorted.skip(from));
    assert forall|i: int| 0 <= i < taken.len() implies taken[i] == sorted[from + i] by {
        assert(fresh[i] == sorted[from + i]);
    }
    assert forall|i: int| 0 <= i < taken.len() implies page.contains(#[trigger] taken[i]) by {
        assert(taken[i] == sorted[from + i]);
        assert(sorted.contains(sorted[from + i]));
        lemma_sorted_contains(page, taken[i]);
    }
    let joined = acc + taken;
    assert forall|i: int, j: int| 0 <= i < j < joined.len() implies joined[i].start_time
        <= joined[j].start_time by {
        if j < acc.len() {
        } else if i < acc.len() {
            assert(joined[j] == taken[j - acc.len()]);
            assert(taken[j - acc.len()] == sorted[from + (j - acc.len())]);
            assert(acc[i].start_time <= acc.last().start_time);
        } else {
            assert(joined[i] == taken[i - acc.len()]);
            assert(joined[j] == taken[j - acc.len()]);
            assert(taken[i - acc.len()] == sorted[from + (i - acc.len())]);
            assert(taken[j - acc.len()] == sorted[from + (j - acc.len())]);
        }
    }
}

/// Taking a page in keeps what holds of every state of a run.
pub proof fn lemma_absorb_keeps_inv(state: EngineState, page: Seq<Kline>)
    requires
        state.inv(),
    ensures
        state.absorb(page).inv(),
{
    lemma_taken(state, page);
}

/// Feeding pages to a run keeps what holds of every state of a run.
pub proof fn lemma_run_keeps_inv(state: EngineState, pages: Seq<Seq<Kline>>)
    requires
        state.inv(),
    ensures
        state.run(pages).inv(),
    decreases pages.len(),
{
    if pages.len() == 0 || !(state.step() is Fetch) {
    } else {
        lemma_absorb_keeps_inv(state, pages.first());
        lemma_run_keeps_inv(state.absorb(pages.first()), pages.drop_first());
    }
}

/// A page whose bars all start in the window asked for leaves the run inside
/// the window of the whole run.
pub proof fn lemma_absorb_keeps_window(state: EngineState, page: Seq<Kline>)
    requires
        state.inv(),
        state.in_window(),
        all_within(page, state.current_start as int, state.chunk_end()),
    ensures
        state.absorb(page).in_window(),
{
    lemma_taken(state, page);
    let taken = state.taken(page);
    let joined = state.accumulator + taken;
    assert(state.chunk_end() <= state.end);
    assert forall|i: int| 0 <= i < joined.len() implies state.start <= (#[trigger] joined[i]).start_time
        < state.end by {
        if i >= state.accumulator.len() {
            let k = taken[i - state.accumulator.len()];
            assert(joined[i] == k);
            assert(page.contains(k));
            let j = choose|j: int| 0 <= j < page.len() && page[j] == k;
            assert(state.current_start <= page[j].start_time < state.chunk_end());
        }
    }
    if joined.len() > 0 {
        assert(state.start <= joined[joined.len() - 1].start_time);
    }
}

/// The series of any state is strictly in order of start time: no start time
/// occurs twice in it.
pub proof fn lemma_series_strictly_ascending(state: EngineState)
    ensures
        strictly_ascending(state.series()),
{
    lemma_canonical(state.accumulator);
}

/// The series of a state of a run holds no more bars than the run may return.
pub proof fn lemma_series_within_cap(state: EngineState)
    requires
        state.inv(),
    ensures
        state.series().len() <= state.max_records,
{
    lemma_canonical(state.accumulator);
}

/// The series of a state holds bars gathered only, and a bar for each start
/// time gathered: of bars gathered with one start time, exactly one is in it.
pub proof fn lemma_series_members(state: EngineState)
    ensures
        forall|i: int|
            0 <= i < state.series().len() ==> state.accumulator.contains(
                #[trigger] state.series()[i],
            ),
        forall|j: int|
            0 <= j < state.accumulator.len() ==> has_time(
                state.series(),
                #[trigger] state.accumulator[j].start_time,
            ),
{
    lemma_canonical(state.accumulator);
    let series = state.series();
    assert forall|i: int| 0 <= i < series.len() implies state.accumulator.contains(
        #[trigger] series[i],
    ) by {
        let j = choose|j: int|
            is_first_of_its_time(state.accumulator, j) && state.accumulator[j] == series[i];
        assert(state.accumulator[j] == series[i]);
    }
}

/// While no bar gathered lies outside the window of the run, none of the
/// series does.
pub proof fn lemma_series_within_window(state: EngineState)
    requires
        state.in_window(),
    ensures
        all_within(state.series(), state.start as int, state.end as int),
{
    lemma_series_members(state);
    let series = state.series();
    assert forall|i: int| 0 <= i < series.len() implies state.start <= (#[trigger] series[i]).start_time
        < state.end by {
        assert(state.accumulator.contains(series[i]));
        let j = choose|j: int| 0 <= j < state.accumulator.len() && state.accumulator[j] == series[i];
        assert(state.start <= state.accumulator[j].start_time < state.end);
    }
}

/// Whatever pages come back, a run ends with a series that is strictly in
/// order of start time and within its cap.
pub proof fn lemma_run_series(
    start: u64,
    end: u64,
    interval_ms: u64,
    max_records: u32,
    pages: Seq<Seq<Kline>>,
)
    requires
        start < end,
        0 < interval_ms <= MAX_INTERVAL_MS,
    ensures
        strictly_ascending(EngineState::initial(start, end, interval_ms, max_records).run(pages).series()),
        EngineState::initial(start, end, interval_ms, max_records).run(pages).series().len()
            <= max_records,
{
    let first = EngineState::initial(start, end, interval_ms, max_records);
    lemma_run_keeps_inv(first, pages);
    lemma_run_start_end(first, pages);
    lemma_series_strictly_ascending(first.run(pages));
    lemma_series_within_cap(first.run(pages));
}

/// Fed pages that hold only bars of the window asked for, a run stays inside
/// its window.
pub proof fn lemma_run_keeps_window(state: EngineState, pages: Seq<Seq<Kline>>)
    requires
        state.inv(),
        state.in_window(),
        state.answered_faithfully(pages),
    ensures
        state.run(pages).in_window(),
    decreases pages.len(),
{
    if pages.len() == 0 || !(state.step() is Fetch) {
    } else {
        lemma_absorb_keeps_inv(state, pages.first());
        lemma_absorb_keeps_window(state, pages.first());
        lemma_run_keeps_window(state.absorb(pages.first()), pages.drop_first());
    }
}

/// Where every page holds only bars that start in the window asked for with
/// it, every bar of the series of a run starts in the window of the run.
pub proof fn lemma_run_series_within_window(
    start: u64,
    end: u64,
    interval_ms: u64,
    max_records: u32,
    pages: Seq<Seq<Kline>>,
)
    requires
        start < end,
        0 < interval_ms <= MAX_INTERVAL_MS,
        EngineState::initial(start, end, interval_ms, max_records).answered_faithfully(pages),
    ensures
        all_within(
            EngineState::initial(start, end, interval_ms, max_records).run(pages).series(),
            start as int,
            end as int,
        ),
{
    let first = EngineState::initial(start, end, interval_ms, max_records);
    lemma_run_keeps_window(first, pages);
    lemma_run_start_end(first, pages);
    lemma_series_within_window(first.run(pages));
}

/// A run that asks for a further page after it took one in has gathered a
/// bar: only the first page is asked for without a pause.
pub proof fn lemma_pause_after_first_page(state: EngineState, page: Seq<Kline>)
    requires
        state.inv(),
        state.step() is Fetch,
    ensures
        state.absorb(page).step() is Fetch ==> state.absorb(page).pause_ms() == PACING_DELAY_MS,
        state.accumulator.len() == 0 ==> state.pause_ms() == 0,
{
    lemma_taken(state, page);
}

/// Two runs that begin in the same state and are fed pages that hold the
/// same bars, page by page, end with the same series.
pub proof fn lemma_run_repeatable(
    state: EngineState,
    pages: Seq<Seq<Kline>>,
    again: Seq<Seq<Kline>>,
)
    requires
        pages.len() == again.len(),
        forall|i: int| 0 <= i < pages.len() ==> #[trigger] pages[i] =~= again[i],
    ensures
        state.run(pages).series() == state.run(again).series(),
{
    assert(pages =~= again);
}

/// A run never changes its window, its interval or its cap.
pub proof fn lemma_run_start_end(state: EngineState, pages: Seq<Seq<Kline>>)
    ensures
        state.run(pages).start == state.start,
        state.run(pages).end == state.end,
        state.run(pages).interval_ms == state.interval_ms,
        state.run(pages).max_records == state.max_records,
    decreases pages.len(),
{
    if pages.len() == 0 || !(state.step() is Fetch) {
    } else {
        lemma_run_start_end(state.absorb(pages.first()), pages.drop_first());
    }
}

/// A retrieval run in progress.
///
/// Made by [`PaginationEngine::new`], moved on by [`PaginationEngine::absorb`],
/// and ended by [`PaginationEngine::finish`]. One engine serves one run and
/// nobody else holds its bars.
#[derive(Debug)]
pub struct PaginationEngine {
    start: u64,
    end: u64,
    interval_ms: u64,
    max_records: u32,
    current_start: u64,
    accumulator: Vec<Kline>,
    stopped: Option<Termination>,
}

impl View for PaginationEngine {
    type V = EngineState;

    closed spec fn view(&self) -> EngineState {
        EngineState {
            start: self.start,
            end: self.end,
            interval_ms: self.interval_ms,
            max_records: self.max_records,
            current_start: self.current_start,
            accumulator: self.accumulator@,
            stopped: self.stopped,
        }
    }
}

impl PaginationEngine {
    #[verifier::type_invariant]
    spec fn valid(self) -> bool {
        self@.inv()
    }

    /// Begins a run.
    ///
    /// Refuses a window that is empty or reversed, and then an interval code
    /// that names no interval.
    pub fn new(request: &FetchRequest) -> (made: Result<PaginationEngine, BybitError>)
        ensures
            match made {
                Ok(engine) => {
                    &&& request.start < request.end
                    &&& interval_millis(request.interval@) matches Some(ms)
                    &&& engine@ == EngineState::initial(
                        request.start,
                        request.end,
                        ms,
                        request.max_records,
                    )
                    &&& engine@.inv()
                    &&& engine@.in_window()
                },
                Err(e) => if request.start >= request.end {
                    e == (BybitError::InvalidWindow { start: request.start, end: request.end })
                } else {
                    &&& interval_millis(request.interval@) is None
                    &&& e matches BybitError::UnsupportedInterval(code)
                    &&& code@ == request.interval@
                },
            },
    {
        if request.start >= request.end {
            return Err(BybitError::InvalidWindow { start: request.start, end: request.end });
        }
        let interval_ms: u64 = match parse_interval_to_ms(request.interval.as_str()) {
            Ok(ms) => ms,
            Err(e) => {
                return Err(e);
            },
        };
        proof {
            lemma_interval_bounds(request.interval@);
        }
        Ok(
            PaginationEngine {
                start: request.start,
                end: request.end,
                interval_ms,
                max_records: request.max_records,
                current_start: request.start,
                accumulator: Vec::new(),
                stopped: None,
            },
        )
    }

    /// What the caller does next: fetch a page, or stop.
    pub fn next_step(&self) -> (step: Step)
        ensures
            step == self@.step(),
            self@.inv(),
            step matches Step::Fetch(page) ==> page.start < page.end <= self@.end && 1 <= page.limit
                <= MAX_PAGE_SIZE,
    {
        proof {
            use_type_invariant(self);
        }
        if let Some(reason) = self.stopped {
            return Step::Done(reason);
        }
        let gathered: usize = self.accumulator.len();
        if gathered >= self.max_records as usize {
            return Step::Done(Termination::CapReached);
        }
        if self.current_start >= self.end {
            return Step::Done(Termination::Exhausted);
        }
        let room: u32 = self.max_records - gathered as u32;
        let limit: u32 = if room < MAX_PAGE_SIZE {
            room
        } else {
            MAX_PAGE_SIZE
        };
        assert(limit * self.interval_ms <= 1000 * MAX_INTERVAL_MS) by (nonlinear_arith)
            requires
                0 <= limit <= 1000,
                0 <= self.interval_ms <= MAX_INTERVAL_MS,
        ;
        assert(limit * self.interval_ms >= 1) by (nonlinear_arith)
            requires
                1 <= limit,
                1 <= self.interval_ms,
        ;
        let span: u64 = limit as u64 * self.interval_ms;
        let end: u64 = if self.end - self.current_start <= span {
            self.end
        } else {
            self.current_start + span
        };
        Step::Fetch(PageRequest { start: self.current_start, end, limit })
    }

    /// How long to wait before the next step, in milliseconds: the run paces
    /// its requests, so the delay is due before every page but the first.
    pub fn pause_ms(&self) -> (pause: u64)
        ensures
            pause == self@.pause_ms(),
    {
        match self.next_step() {
            Step::Fetch(_) => if self.accumulator.len() > 0 {
                PACING_DELAY_MS
            } else {
                0
            },
            Step::Done(_) => 0,
        }
    }

    /// How many bars are gathered so far.
    pub fn gathered(&self) -> (count: usize)
        ensures
            count == self@.accumulator.len(),
            count <= self@.max_records,
    {
        proof {
            use_type_invariant(self);
        }
        self.accumulator.len()
    }

    /// Takes in the bars of the page that the last step asked for.
    ///
    /// The page may come in any order and may hold bars that the run has
    /// already. An engine that asks for no page stays as it is.
    pub fn absorb(self, page: Vec<Kline>) -> (next: PaginationEngine)
        ensures
            next@ == self@.absorb(page@),
            next@.inv(),
            self@.in_window() && all_within(page@, self@.current_start as int, self@.chunk_end())
                ==> next@.in_window(),
    {
        proof {
            use_type_invariant(&self);
            lemma_absorb_keeps_inv(self@, page@);
            if self@.in_window() && all_within(
                page@,
                self@.current_start as int,
                self@.chunk_end(),
            ) {
                lemma_absorb_keeps_window(self@, page@);
            }
            lemma_taken(self@, page@);
        }
        if let Step::Done(_) = self.next_step() {
            return self;
        }
        if page.len() == 0 {
            return PaginationEngine { stopped: Some(Termination::EmptyPage), ..self };
        }
        let ghost before = self@;
        let PaginationEngine {
            start,
            end,
            interval_ms,
            max_records,
            current_start,
            accumulator,
            stopped,
        } = self;
        let mut accumulator = accumulator;
        let ghost gathered = accumulator@;
        let first: usize = accumulator.len();
        let room: usize = max_records as usize - first;
        let newest: Option<u64> = if first == 0 {
            None
        } else {
            Some(accumulator[first - 1].start_time)
        };
        let sorted = sort_by_start_time(page);
        for kline in it: sorted
            invariant
                it.seq() == sorted@,
                gathered.len() == first,
                first + room == max_records,
                newest == if gathered.len() == 0 {
                    None
                } else {
                    Some(gathered.last().start_time)
                },
                accumulator@ == gathered + capped(
                    fresh_bars(gathered, sorted@.take(it.index())),
                    room as int,
                ),
        {
            let ghost seen = sorted@.take(it.index());
            proof {
                let longer = sorted@.take(it.index() + 1);
                assert(longer =~= seen.push(kline));
                if gathered.len() > 0 {
                    seen.lemma_filter_push(kline, starts_after(gathered.last().start_time));
                }
            }
            let is_new: bool = match newest {
                None => true,
                Some(t) => kline.start_time > t,
            };
            if is_new && accumulator.len() - first < room {
                accumulator.push(kline);
                proof {
                    let fresh = fresh_bars(gathered, seen);
                    assert(fresh_bars(gathered, seen.push(kline)) == fresh.push(kline));
                    assert(capped(fresh.push(kline), room as int) =~= capped(fresh, room as int).push(
                        kline,
                    ));
                    assert(accumulator@ =~= gathered + capped(fresh.push(kline), room as int));
                }
            } else {
                proof {
                    let fresh = fresh_bars(gathered, seen);
                    if is_new {
                        assert(fresh_bars(gathered, seen.push(kline)) == fresh.push(kline));
                        assert(capped(fresh.push(kline), room as int) =~= capped(fresh, room as int));
                    }
                }
            }
        }
        proof {
            assert(sorted@.take(sorted@.len() as int) =~= sorted@);
            assert(accumulator@ == gathered + before.taken(page@));
        }
        let total: usize = accumulator.len();
        if total >= max_records as usize {
            return PaginationEngine {
                start,
                end,
                interval_ms,
                max_records,
                current_start,
                accumulator,
                stopped: Some(Termination::CapReached),
            };
        }
        if total == first {
            return PaginationEngine {
                start,
                end,
                interval_ms,
                max_records,
                current_start,
                accumulator,
                stopped: Some(Termination::NoProgress),
            };
        }
        let last: u64 = accumulator[total - 1].start_time;
        if last >= end || end - last <= interval_ms {
            return PaginationEngine {
                start,
                end,
                interval_ms,
                max_records,
                current_start,
                accumulator,
                stopped: Some(Termination::Exhausted),
            };
        }
        PaginationEngine {
            start,
            end,
            interval_ms,
            max_records,
            current_start: last + interval_ms,
            accumulator,
            stopped,
        }
    }

    /// Reads the raw rows of the page that the last step asked for and takes
    /// their bars in.
    ///
    /// A row with a defect aborts the run: the error names the defect of the
    /// first such row, and the bars gathered so far are gone with the engine.
    pub fn absorb_rows(self, rows: &Vec<Vec<String>>) -> (next: Result<PaginationEngine, BybitError>)
        ensures
            match next {
                Ok(engine) => {
                    &&& forall|i: int|
                        0 <= i < rows@.len() ==> row_defect(#[trigger] rows@[i]@) is None
                    &&& engine@ == self@.absorb(page_klines(rows@))
                    &&& engine@.inv()
                },
                Err(e) => exists|i: int|
                    {
                        &&& #[trigger] is_first_malformed(rows@, i)
                        &&& e == BybitError::MalformedRecord {
                            field: row_defect(rows@[i]@).unwrap(),
                        }
                    },
            },
    {
        match normalize_page(rows) {
            Ok(page) => Ok(self.absorb(page)),
            Err(e) => Err(e),
        }
    }

    /// Takes in the provider's answer to the page that the last step asked for.
    ///
    /// An answer that is a refusal, or a success without payload, or that
    /// holds a row with a defect, aborts the run: the bars gathered so far are
    /// gone with the engine.
    pub fn absorb_response(self, response: BybitResponse) -> (next: Result<
        PaginationEngine,
        BybitError,
    >)
        ensures
            match next {
                Ok(engine) => {
                    &&& response_rows(response) matches Some(rows)
                    &&& forall|i: int| 0 <= i < rows.len() ==> row_defect(#[trigger] rows[i]@) is None
                    &&& engine@ == self@.absorb(page_klines(rows))
                    &&& engine@.inv()
                },
                Err(e) => match response_rows(response) {
                    None => {
                        &&& e matches BybitError::DomainRejection { msg }
                        &&& msg@ == rejection_message(response)
                    },
                    Some(rows) => exists|i: int|
                        {
                            &&& #[trigger] is_first_malformed(rows, i)
                            &&& e == BybitError::MalformedRecord {
                                field: row_defect(rows[i]@).unwrap(),
                            }
                        },
                },
            },
    {
        match response.into_klines() {
            Ok(page) => Ok(self.absorb(page)),
            Err(e) => Err(e),
        }
    }

    /// Feeds a recording of pages to the run, one for each page that the run
    /// asks for, in order. Pages that are left when the run stops are dropped.
    ///
    /// The state reached depends on the state begun with and on the pages
    /// alone: the same recording always ends in the same series.
    pub fn replay(self, pages: Vec<Vec<Kline>>) -> (last: PaginationEngine)
        ensures
            last@ == self@.run(pages_of(pages@)),
            last@.inv(),
    {
        proof {
            use_type_invariant(&self);
        }
        let ghost all = pages_of(pages@);
        let mut engine = self;
        assert(all.skip(0) =~= all);
        for page in it: pages
            invariant
                it.seq() == pages@,
                all == pages_of(pages@),
                engine@.inv(),
                engine@.run(all.skip(it.index())) == self@.run(all),
        {
            let ghost rest = all.skip(it.index());
            proof {
                assert(rest.first() == page@);
                assert(rest.drop_first() =~= all.skip(it.index() + 1));
            }
            engine = engine.absorb(page);
        }
        engine
    }

    /// Ends the run and hands out its series: the bars gathered, in order of
    /// start time, one for each start time.
    pub fn finish(self) -> (series: Vec<Kline>)
        ensures
            series@ == self@.series(),
            strictly_ascending(series@),
            series@.len() <= self@.max_records,
            self@.in_window() ==> all_within(series@, self@.start as int, self@.end as int),
    {
        proof {
            use_type_invariant(&self);
            if self@.in_window() {
                lemma_series_within_window(self@);
            }
        }
        sort_and_dedup(self.accumulator)
    }
}

} // verus!
