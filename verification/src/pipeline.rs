//! The ingestion pipeline: block-height refresh, per-day transaction-count
//! aggregation over block windows, the seven-day moving average, and the
//! fee-estimation sweep.
//!
//! The pipeline works on plain data. The caller queries the node over RPC,
//! packs what came back into [`NodeObservations`] — a failed fetch becomes a
//! `None`, never an abort — and hands it to [`run`] together with the
//! current day and the store. Every decision the pipeline makes (which
//! blocks belong to a day, what to do when a fetch failed, what to divide
//! the moving average by, which fee targets to keep) happens here.

use vstd::prelude::*;

use crate::store::{
    daily_sorted, daily_to_map, recent_window, DailyTxData, MetricsStore, SevenDayAverage,
    StoreModel,
};
use crate::{BLOCKS_PER_DAY, SECONDS_PER_DAY};

verus! {

/// How many confirmation targets the fee sweep visits.
pub const FEE_TARGET_COUNT: usize = 5;

/// What a single block fetch yields once it has succeeded: the number of
/// transactions in the block and the block header's timestamp (Unix time).
#[derive(Clone, Copy, PartialEq, Eq, Structural, Debug)]
pub struct BlockData {
    pub tx_count: u32,
    pub time: u32,
}

/// One pipeline run's view of the node, gathered by the caller:
/// the reported chain height (`None` when the height query failed), the
/// per-block fetch outcomes for each planned day window (`None` for a block
/// whose hash, body or header fetch failed), and the fee-estimate outcome
/// for each of the five confirmation targets, in `fee_target_at` order.
pub struct NodeObservations {
    pub height: Option<u64>,
    pub windows: Vec<Vec<Option<BlockData>>>,
    pub fees: Vec<Option<u64>>,
}

/// What one pipeline run did: whether the height singleton was refreshed,
/// how many day windows yielded a daily row, whether a moving average was
/// written, and how many fee rows were written.
#[derive(Clone, Copy, PartialEq, Eq, Structural, Debug)]
pub struct PipelineReport {
    pub height_refreshed: bool,
    pub days_recorded: u64,
    pub dma_written: bool,
    pub fee_rows_written: u64,
}

/// The confirmation target the fee sweep visits at position `i`.
pub open spec fn fee_target_at(i: int) -> u16 {
    if i == 0 {
        1
    } else if i == 1 {
        3
    } else if i == 2 {
        6
    } else if i == 3 {
        12
    } else {
        24
    }
}

impl NodeObservations {
    /// The observations a caller must hand in: one fee outcome per target,
    /// and day windows short enough that a u64 can hold any sum of their
    /// per-block transaction counts.
    pub open spec fn wf(self) -> bool {
        &&& self.fees@.len() == FEE_TARGET_COUNT
        &&& forall|w: int|
            0 <= w < self.windows@.len() ==> (#[trigger] self.windows@[w])@.len() <= 0x1_0000_0000
    }
}

/// The views of a run's day windows, as sequences.
pub open spec fn windows_views(ws: Seq<Vec<Option<BlockData>>>) -> Seq<Seq<Option<BlockData>>> {
    ws.map_values(|w: Vec<Option<BlockData>>| w@)
}

/// The first successfully fetched block of a window, if any: the block
/// whose header anchors the window's calendar day.
pub open spec fn first_ok(w: Seq<Option<BlockData>>) -> Option<BlockData>
    decreases w.len(),
{
    if w.len() == 0 {
        None
    } else {
        match first_ok(w.drop_last()) {
            Some(b) => Some(b),
            None => w.last(),
        }
    }
}

/// The transaction count summed over a window's successful fetches.
pub open spec fn sum_ok(w: Seq<Option<BlockData>>) -> int
    decreases w.len(),
{
    if w.len() == 0 {
        0
    } else {
        sum_ok(w.drop_last()) + (match w.last() {
            Some(b) => b.tx_count as int,
            None => 0,
        })
    }
}

/// What a day window contributes: nothing if every fetch in it failed,
/// else one daily row whose date comes from the first successful block's
/// timestamp and whose count sums all successful fetches.
pub open spec fn window_tally(w: Seq<Option<BlockData>>) -> Option<DailyTxData> {
    match first_ok(w) {
        None => None,
        Some(b) => Some(
            DailyTxData { date: b.time as u64 / SECONDS_PER_DAY, tx_count: sum_ok(w) as u64 },
        ),
    }
}

/// The daily-table writes of a run, one upsert per recorded window, later
/// windows overwriting earlier ones of the same date.
pub open spec fn daily_writes(ws: Seq<Seq<Option<BlockData>>>) -> Map<u64, u64>
    decreases ws.len(),
{
    if ws.len() == 0 {
        Map::empty()
    } else {
        match window_tally(ws.last()) {
            None => daily_writes(ws.drop_last()),
            Some(d) => daily_writes(ws.drop_last()).insert(d.date, d.tx_count),
        }
    }
}

/// How many day windows yield a daily row.
pub open spec fn days_recorded_count(ws: Seq<Seq<Option<BlockData>>>) -> int
    decreases ws.len(),
{
    if ws.len() == 0 {
        0
    } else {
        days_recorded_count(ws.drop_last()) + (if window_tally(ws.last()) is Some {
            1int
        } else {
            0
        })
    }
}

/// The fee-table writes of a sweep: one upsert per target whose estimate
/// came back, stamped with the day the sweep ran.
pub open spec fn fee_writes(fees: Seq<Option<u64>>, today: u64) -> Map<u16, (u64, u64)>
    decreases fees.len(),
{
    if fees.len() == 0 {
        Map::empty()
    } else {
        let m = fee_writes(fees.drop_last(), today);
        match fees.last() {
            None => m,
            Some(rate) => m.insert(fee_target_at(fees.len() - 1), (rate, today)),
        }
    }
}

/// How many targets of a sweep came back with an estimate.
pub open spec fn fee_success_count(fees: Seq<Option<u64>>) -> int
    decreases fees.len(),
{
    if fees.len() == 0 {
        0
    } else {
        fee_success_count(fees.drop_last()) + (if fees.last() is Some {
            1int
        } else {
            0
        })
    }
}

/// The total transaction count over a run of daily rows.
pub open spec fn sum_counts(s: Seq<DailyTxData>) -> int
    decreases s.len(),
{
    if s.len() == 0 {
        0
    } else {
        sum_counts(s.drop_last()) + s.last().tx_count
    }
}

/// The moving average over a daily table: the sum of the newest rows (at
/// most seven) and their exact number.
pub open spec fn dma_value(daily: Seq<DailyTxData>) -> SevenDayAverage {
    SevenDayAverage {
        sum: sum_counts(recent_window(daily)) as u128,
        samples: recent_window(daily).len() as u64,
    }
}

/// How one pipeline run relates the store's contents before (`m0`) and
/// after (`m1`), given the observations and the current day:
/// the height singleton holds the reported height, or is untouched when the
/// height query failed; the daily table absorbs one upsert per recorded
/// window; the moving-average table gains a row for today computed over the
/// daily table as the run leaves it, unless that table is empty; and the
/// fee table absorbs one upsert per successful target.
pub open spec fn run_rel(
    obs: NodeObservations,
    today: u64,
    m0: StoreModel,
    m1: StoreModel,
) -> bool {
    &&& m1.height == (match obs.height {
        Some(h) => Some(h),
        None => m0.height,
    })
    &&& daily_sorted(m1.daily)
    &&& daily_to_map(m1.daily) == daily_to_map(m0.daily).union_prefer_right(
        daily_writes(windows_views(obs.windows@)),
    )
    &&& m1.dma == (if m1.daily.len() == 0 {
        m0.dma
    } else {
        m0.dma.insert(today, dma_value(m1.daily))
    })
    &&& m1.fees == m0.fees.union_prefer_right(fee_writes(obs.fees@, today))
}

/// A window's summed count never exceeds its length times the largest
/// per-block count.
proof fn lemma_sum_ok_bounds(w: Seq<Option<BlockData>>)
    ensures
        0 <= sum_ok(w) <= w.len() * 0xFFFF_FFFF,
    decreases w.len(),
{
    if w.len() > 0 {
        lemma_sum_ok_bounds(w.drop_last());
    }
}

/// A daily-row sum never exceeds the number of rows times the largest count.
proof fn lemma_sum_counts_bounds(s: Seq<DailyTxData>)
    ensures
        0 <= sum_counts(s) <= s.len() * 0xFFFF_FFFF_FFFF_FFFF,
    decreases s.len(),
{
    if s.len() > 0 {
        lemma_sum_counts_bounds(s.drop_last());
    }
}

/// The confirmation targets of the fee sweep, in sweep order.
pub fn fee_targets() -> (r: Vec<u16>)
    ensures
        r@.len() == FEE_TARGET_COUNT,
        forall|i: int| 0 <= i < r@.len() ==> (#[trigger] r@[i]) == fee_target_at(i),
{
    let mut r: Vec<u16> = Vec::new();
    r.push(1);
    r.push(3);
    r.push(6);
    r.push(12);
    r.push(24);
    r
}

/// The inclusive block range that buckets into the day `day_index` days
/// before the day of the chain tip, counting `BLOCKS_PER_DAY` blocks per
/// day back from the given height.
pub fn day_window(height: u64, day_index: u64) -> (w: (u64, u64))
    requires
        (day_index + 1) * BLOCKS_PER_DAY <= height,
    ensures
        w.0 == height - (day_index + 1) * BLOCKS_PER_DAY,
        w.1 == height - day_index * BLOCKS_PER_DAY,
{
    let span = (day_index + 1) * BLOCKS_PER_DAY;
    (height - span, height - day_index * BLOCKS_PER_DAY)
}

/// The block windows a run over `days_back` days must fetch, one inclusive
/// range per day, most recent day first.
#[verifier::loop_isolation(false)]
pub fn plan_windows(height: u64, days_back: u64) -> (r: Vec<(u64, u64)>)
    requires
        days_back * BLOCKS_PER_DAY <= height,
    ensures
        r@.len() == days_back,
        forall|d: int|
            0 <= d < days_back ==> (#[trigger] r@[d]).0 == height - (d + 1) * BLOCKS_PER_DAY
                && r@[d].1 == height - d * BLOCKS_PER_DAY,
{
    let mut r: Vec<(u64, u64)> = Vec::new();
    let mut d: u64 = 0;
    while d < days_back
        invariant
            0 <= d <= days_back,
            r@.len() == d,
            forall|e: int|
                0 <= e < d ==> (#[trigger] r@[e]).0 == height - (e + 1) * BLOCKS_PER_DAY && r@[e].1
                    == height - e * BLOCKS_PER_DAY,
        decreases days_back - d,
    {
        let w = day_window(height, d);
        r.push(w);
        d = d + 1;
    }
    r
}

/// Tally one day window of block-fetch outcomes: the date anchored on the
/// first successful block, the counts summed over all successful blocks,
/// and nothing at all when every fetch in the window failed.
#[verifier::loop_isolation(false)]
pub fn aggregate_window(window: &Vec<Option<BlockData>>) -> (r: Option<DailyTxData>)
    requires
        window@.len() <= 0x1_0000_0000,
    ensures
        r == window_tally(window@),
{
    let ghost w = window@;
    let mut sum: u64 = 0;
    let mut date: Option<u64> = None;
    let mut i: usize = 0;
    while i < window.len()
        invariant
            0 <= i <= w.len(),
            sum as int == sum_ok(w.take(i as int)),
            match first_ok(w.take(i as int)) {
                Some(b) => date == Some(b.time as u64 / SECONDS_PER_DAY),
                None => date is None,
            },
        decreases w.len() - i,
    {
        proof {
            assert(w.take(i + 1).drop_last() =~= w.take(i as int));
            assert(w.take(i + 1).last() == w[i as int]);
            lemma_sum_ok_bounds(w.take(i as int));
        }
        match window[i] {
            Some(b) => {
                if date.is_none() {
                    date = Some(crate::day_of_unix_time(b.time));
                }
                sum = sum + b.tx_count as u64;
            },
            None => {},
        }
        i = i + 1;
    }
    proof {
        assert(w.take(w.len() as int) =~= w);
    }
    match date {
        Some(d) => Some(DailyTxData { date: d, tx_count: sum }),
        None => None,
    }
}

/// Walk a run's day windows and upsert one daily row per window that had at
/// least one successful block fetch; a window whose fetches all failed
/// leaves no row behind. Returns how many rows were written.
#[verifier::loop_isolation(false)]
pub fn store_daily_tx_counts(windows: &Vec<Vec<Option<BlockData>>>, store: &mut MetricsStore) -> (
    days_recorded: u64)
    requires
        old(store).wf(),
        forall|w: int|
            0 <= w < windows@.len() ==> (#[trigger] windows@[w])@.len() <= 0x1_0000_0000,
    ensures
        final(store).wf(),
        final(store).daily_map() == old(store).daily_map().union_prefer_right(
            daily_writes(windows_views(windows@)),
        ),
        final(store).block_height == old(store).block_height,
        final(store).dma@ == old(store).dma@,
        final(store).fees@ == old(store).fees@,
        days_recorded == days_recorded_count(windows_views(windows@)),
{
    let ghost views = windows_views(windows@);
    let mut days: u64 = 0;
    let mut i: usize = 0;
    while i < windows.len()
        invariant
            0 <= i <= windows@.len(),
            store.wf(),
            store.daily_map() == old(store).daily_map().union_prefer_right(
                daily_writes(views.take(i as int)),
            ),
            store.block_height == old(store).block_height,
            store.dma@ == old(store).dma@,
            store.fees@ == old(store).fees@,
            days == days_recorded_count(views.take(i as int)),
            days <= i,
        decreases windows@.len() - i,
    {
        proof {
            assert(views.take(i + 1).drop_last() =~= views.take(i as int));
            assert(views.take(i + 1).last() == views[i as int]);
        }
        let tally = aggregate_window(&windows[i]);
        match tally {
            Some(d) => {
                store.save_daily_tx(d.date, d.tx_count);
                proof {
                    vstd::map_lib::lemma_union_insert_right(
                        old(store).daily_map(),
                        daily_writes(views.take(i as int)),
                        d.date,
                        d.tx_count,
                    );
                }
                days = days + 1;
            },
            None => {},
        }
        i = i + 1;
    }
    proof {
        assert(views.take(views.len() as int) =~= views);
    }
    days
}

/// The moving average over the given daily rows: their summed counts and
/// their exact number, the divisor being the actual sample count.
#[verifier::loop_isolation(false)]
pub fn calculate_7dma(transaction_data: &Vec<DailyTxData>) -> (r: SevenDayAverage)
    ensures
        r.sum == sum_counts(transaction_data@),
        r.samples == transaction_data@.len(),
{
    let ghost s = transaction_data@;
    let mut sum: u128 = 0;
    let mut i: usize = 0;
    while i < transaction_data.len()
        invariant
            0 <= i <= s.len(),
            sum == sum_counts(s.take(i as int)),
        decreases s.len() - i,
    {
        proof {
            assert(s.take(i + 1).drop_last() =~= s.take(i as int));
            assert(s.take(i + 1).last() == s[i as int]);
            lemma_sum_counts_bounds(s.take(i as int));
        }
        sum = sum + transaction_data[i].tx_count as u128;
        i = i + 1;
    }
    proof {
        assert(s.take(s.len() as int) =~= s);
    }
    SevenDayAverage { sum, samples: transaction_data.len() as u64 }
}

/// Read the newest daily rows back from the store, average them over the
/// actual number retrieved, and upsert the result under the given day. A
/// store with no daily history gets no row: there is nothing to average.
pub fn compute_and_store_7dma(today: u64, store: &mut MetricsStore)
    requires
        old(store).wf(),
    ensures
        final(store).wf(),
        final(store).daily@ == old(store).daily@,
        final(store).block_height == old(store).block_height,
        final(store).fees@ == old(store).fees@,
        final(store).dma_map() == (if old(store).daily@.len() == 0 {
            old(store).dma_map()
        } else {
            old(store).dma_map().insert(today, dma_value(old(store).daily@))
        }),
{
    let recent = store.get_last_7_days();
    if recent.len() > 0 {
        let value = calculate_7dma(&recent);
        proof {
            lemma_sum_counts_bounds(recent@);
        }
        store.save_7dma(today, value);
    }
}

/// Sweep the fee-estimate outcomes over the five confirmation targets:
/// each target whose estimate came back gets its row upserted, stamped with
/// the given day; a target whose estimate is unavailable is skipped and
/// never aborts the sweep. Returns how many rows were written.
#[verifier::loop_isolation(false)]
pub fn retrieve_and_store_fee_estimations(
    fees: &Vec<Option<u64>>,
    today: u64,
    store: &mut MetricsStore,
) -> (written: u64)
    requires
        old(store).wf(),
        fees@.len() == FEE_TARGET_COUNT,
    ensures
        final(store).wf(),
        final(store).fee_map() == old(store).fee_map().union_prefer_right(
            fee_writes(fees@, today),
        ),
        final(store).block_height == old(store).block_height,
        final(store).daily@ == old(store).daily@,
        final(store).dma@ == old(store).dma@,
        written == fee_success_count(fees@),
{
    let targets = fee_targets();
    let mut written: u64 = 0;
    let mut i: usize = 0;
    while i < targets.len()
        invariant
            0 <= i <= FEE_TARGET_COUNT,
            targets@.len() == FEE_TARGET_COUNT,
            forall|j: int| 0 <= j < targets@.len() ==> (#[trigger] targets@[j]) == fee_target_at(j),
            store.wf(),
            store.fee_map() == old(store).fee_map().union_prefer_right(
                fee_writes(fees@.take(i as int), today),
            ),
            store.block_height == old(store).block_height,
            store.daily@ == old(store).daily@,
            store.dma@ == old(store).dma@,
            written == fee_success_count(fees@.take(i as int)),
            written <= i,
        decreases targets@.len() - i,
    {
        proof {
            assert(fees@.take(i + 1).drop_last() =~= fees@.take(i as int));
            assert(fees@.take(i + 1).last() == fees@[i as int]);
        }
        match fees[i] {
            Some(rate) => {
                store.save_fee_estimation(targets[i], rate, today);
                proof {
                    vstd::map_lib::lemma_union_insert_right(
                        old(store).fee_map(),
                        fee_writes(fees@.take(i as int), today),
                        fee_target_at(i as int),
                        (rate, today),
                    );
                }
                written = written + 1;
            },
            None => {},
        }
        i = i + 1;
    }
    proof {
        assert(fees@.take(fees@.len() as int) =~= fees@);
    }
    written
}

/// One full ingestion run over a set of observations: refresh the height
/// singleton, walk the day windows into daily rows, recompute the moving
/// average over what the store now holds, and sweep the fee estimates.
/// A failure in any sub-operation — a height query that failed, a window
/// whose fetches all failed, a target with no estimate — skips only that
/// unit of work; the run itself always completes.
pub fn run(obs: &NodeObservations, today: u64, store: &mut MetricsStore) -> (report:
    PipelineReport)
    requires
        old(store).wf(),
        obs.wf(),
    ensures
        final(store).wf(),
        run_rel(*obs, today, old(store).model(), final(store).model()),
        report.height_refreshed == (obs.height is Some),
        report.days_recorded == days_recorded_count(windows_views(obs.windows@)),
        report.dma_written == (final(store).daily@.len() > 0),
        report.fee_rows_written == fee_success_count(obs.fees@),
{
    let height_refreshed = match obs.height {
        Some(h) => {
            store.update_block_height(h);
            true
        },
        None => false,
    };
    let days_recorded = store_daily_tx_counts(&obs.windows, store);
    compute_and_store_7dma(today, store);
    let dma_written = store.daily.len() > 0;
    let fee_rows_written = retrieve_and_store_fee_estimations(&obs.fees, today, store);
    PipelineReport { height_refreshed, days_recorded, dma_written, fee_rows_written }
}

/// Relies on chrono's `Utc::now`: the current time in UTC, read as seconds
/// since the Unix epoch. The value depends on the machine's clock, so
/// nothing is promised of it.
#[verifier::external_body]
fn current_unix_time() -> (r: i64) {
    chrono::Utc::now().timestamp()
}

/// The current UTC day as a day count since the Unix epoch; a clock set
/// before 1970 reads as day zero. Nothing can be promised of the clock, so
/// this function carries no contract; callers that need to reason about the
/// day take it as a parameter instead.
pub fn current_day_number() -> (day: u64) {
    let t = current_unix_time();
    if t <= 0 {
        0
    } else {
        (t as u64) / SECONDS_PER_DAY
    }
}

/// One full ingestion run against the current day: what [`run`] does, with
/// the day read from the clock. Since nothing is known of the clock, the
/// contract says only that some day was used throughout.
pub fn retrieve_and_store_data(obs: &NodeObservations, store: &mut MetricsStore) -> (report:
    PipelineReport)
    requires
        old(store).wf(),
        obs.wf(),
    ensures
        final(store).wf(),
        exists|today: u64|
            #[trigger] run_rel(*obs, today, old(store).model(), final(store).model()),
{
    let today = current_day_number();
    let report = run(obs, today, store);
    proof {
        assert(run_rel(*obs, today, old(store).model(), final(store).model()));
    }
    report
}

/// Upserting the same date twice leaves the daily table as if only the
/// second write had happened: the latest value wins and no duplicate row
/// can exist.
pub proof fn lemma_upsert_overwrites(m: Map<u64, u64>, date: u64, first: u64, second: u64)
    ensures
        m.insert(date, first).insert(date, second) == m.insert(date, second),
{
    assert(m.insert(date, first).insert(date, second) =~= m.insert(date, second));
}

/// Running the pipeline twice in succession with the same observations and
/// day leaves the store exactly as the first run left it: every write is an
/// upsert, so ingestion is idempotent.
pub proof fn lemma_run_idempotent(
    obs: NodeObservations,
    today: u64,
    m0: StoreModel,
    m1: StoreModel,
    m2: StoreModel,
)
    requires
        run_rel(obs, today, m0, m1),
        run_rel(obs, today, m1, m2),
    ensures
        m2 == m1,
{
    let w = daily_writes(windows_views(obs.windows@));
    let fw = fee_writes(obs.fees@, today);
    assert(daily_to_map(m2.daily) == daily_to_map(m1.daily)) by {
        assert(daily_to_map(m0.daily).union_prefer_right(w).union_prefer_right(w)
            =~= daily_to_map(m0.daily).union_prefer_right(w));
    }
    crate::store::lemma_daily_canonical(m2.daily, m1.daily);
    assert(m2.daily == m1.daily);
    assert(m2.fees == m1.fees) by {
        assert(m0.fees.union_prefer_right(fw).union_prefer_right(fw) =~= m0.fees.union_prefer_right(
            fw,
        ));
    }
    assert(m2.dma == m1.dma) by {
        if m1.daily.len() > 0 {
            let v = dma_value(m1.daily);
            assert(m0.dma.insert(today, v).insert(today, v) =~= m0.dma.insert(today, v));
        }
    }
    assert(m2.height == m1.height);
}

} // verus!
