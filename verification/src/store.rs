//! In-memory model of the metrics store: the tables the ingestion pipeline
//! writes and the read API serves. Every write is an upsert keyed by the
//! row's natural key (date or block target), so repeated ingestion runs
//! converge instead of duplicating rows. The daily transaction-count table
//! is kept sorted by date descending, which is the order the read side and
//! the moving-average computation consume it in.

use vstd::prelude::*;

verus! {

/// How many of the most recent daily rows feed the moving average.
pub const MOVING_AVERAGE_WINDOW: usize = 7;

/// One row of the per-day transaction-count table: the calendar day
/// (days since the Unix epoch, UTC) and the transactions counted that day.
#[derive(Clone, Copy, PartialEq, Eq, Structural, Debug)]
pub struct DailyTxData {
    pub date: u64,
    pub tx_count: u64,
}

/// A moving average held exactly: the sum of the sampled daily counts and
/// the number of samples. The mean is `sum / samples`; keeping the pair
/// instead of the quotient records precisely which division produced the
/// value, in particular that the divisor is the actual sample count.
#[derive(Clone, Copy, PartialEq, Eq, Structural, Debug)]
pub struct SevenDayAverage {
    pub sum: u128,
    pub samples: u64,
}

/// One row of the moving-average table, keyed by date.
#[derive(Clone, Copy, PartialEq, Eq, Structural, Debug)]
pub struct MovingAverageRow {
    pub date: u64,
    pub value: SevenDayAverage,
}

/// One row of the fee-estimation table, keyed by block target. The rate is
/// in satoshis per 1000 virtual bytes, exactly as the node reports it;
/// `estimated_at` is the day the estimate was taken.
#[derive(Clone, Copy, PartialEq, Eq, Structural, Debug)]
pub struct FeeEstimate {
    pub block_target: u16,
    pub fee_rate: u64,
    pub estimated_at: u64,
}

/// The daily rows are strictly descending by date: newest first, one row
/// per date.
pub open spec fn daily_sorted(s: Seq<DailyTxData>) -> bool {
    forall|i: int, j: int| 0 <= i < j < s.len() ==> (#[trigger] s[i]).date > (#[trigger] s[j]).date
}

/// At most one moving-average row per date.
pub open spec fn dma_unique(s: Seq<MovingAverageRow>) -> bool {
    forall|i: int, j: int| 0 <= i < j < s.len() ==> (#[trigger] s[i]).date != (#[trigger] s[j]).date
}

/// At most one fee row per block target.
pub open spec fn fee_unique(s: Seq<FeeEstimate>) -> bool {
    forall|i: int, j: int|
        0 <= i < j < s.len() ==> (#[trigger] s[i]).block_target != (#[trigger] s[j]).block_target
}

/// The daily table read as a map from date to transaction count.
pub open spec fn daily_to_map(s: Seq<DailyTxData>) -> Map<u64, u64>
    decreases s.len(),
{
    if s.len() == 0 {
        Map::empty()
    } else {
        daily_to_map(s.drop_first()).insert(s[0].date, s[0].tx_count)
    }
}

/// The moving-average table read as a map from date to value.
pub open spec fn dma_to_map(s: Seq<MovingAverageRow>) -> Map<u64, SevenDayAverage>
    decreases s.len(),
{
    if s.len() == 0 {
        Map::empty()
    } else {
        dma_to_map(s.drop_first()).insert(s[0].date, s[0].value)
    }
}

/// The fee table read as a map from block target to (rate, day taken).
pub open spec fn fee_to_map(s: Seq<FeeEstimate>) -> Map<u16, (u64, u64)>
    decreases s.len(),
{
    if s.len() == 0 {
        Map::empty()
    } else {
        fee_to_map(s.drop_first()).insert(s[0].block_target, (s[0].fee_rate, s[0].estimated_at))
    }
}

/// The most recent rows that feed the moving average: the whole table if it
/// holds at most `MOVING_AVERAGE_WINDOW` rows, else the first (newest)
/// `MOVING_AVERAGE_WINDOW` of them.
pub open spec fn recent_window(s: Seq<DailyTxData>) -> Seq<DailyTxData> {
    if s.len() <= MOVING_AVERAGE_WINDOW {
        s
    } else {
        s.take(MOVING_AVERAGE_WINDOW as int)
    }
}

/// A date is in the daily map exactly when some row carries it; under
/// uniqueness the map's value at a row's date is that row's count.
pub proof fn lemma_daily_to_map_char(s: Seq<DailyTxData>)
    ensures
        forall|k: u64|
            daily_to_map(s).contains_key(k) <==> exists|i: int|
                0 <= i < s.len() && (#[trigger] s[i]).date == k,
        daily_sorted(s) ==> forall|i: int|
            0 <= i < s.len() ==> daily_to_map(s)[(#[trigger] s[i]).date] == s[i].tx_count,
    decreases s.len(),
{
    if s.len() > 0 {
        let rest = s.drop_first();
        lemma_daily_to_map_char(rest);
        assert forall|k: u64| daily_to_map(s).contains_key(k) implies exists|i: int|
            0 <= i < s.len() && (#[trigger] s[i]).date == k by {
            if k == s[0].date {
                assert(0 <= 0 < s.len() && (#[trigger] s[0]).date == k);
            } else {
                assert(daily_to_map(rest).contains_key(k));
                assert(exists|i: int| 0 <= i < rest.len() && (#[trigger] rest[i]).date == k);
                let i = choose|i: int| 0 <= i < rest.len() && (#[trigger] rest[i]).date == k;
                assert(rest[i] == s[i + 1]);
                assert((#[trigger] s[i + 1]).date == k);
            }
        }
        assert forall|k: u64|
            (exists|i: int| 0 <= i < s.len() && (#[trigger] s[i]).date == k) implies daily_to_map(
            s,
        ).contains_key(k) by {
            let i = choose|i: int| 0 <= i < s.len() && (#[trigger] s[i]).date == k;
            if i > 0 {
                assert((#[trigger] rest[i - 1]).date == k);
                assert(daily_to_map(rest).contains_key(k));
            }
        }
        if daily_sorted(s) {
            assert(daily_sorted(rest));
            assert forall|i: int| 0 <= i < s.len() implies daily_to_map(s)[(
            #[trigger] s[i]).date] == s[i].tx_count by {
                if i > 0 {
                    assert(rest[i - 1] == s[i]);
                    assert(s[0].date > s[i].date);
                }
            }
        }
    }
}

/// Same characterization for the moving-average table.
pub proof fn lemma_dma_to_map_char(s: Seq<MovingAverageRow>)
    ensures
        forall|k: u64|
            dma_to_map(s).contains_key(k) <==> exists|i: int|
                0 <= i < s.len() && (#[trigger] s[i]).date == k,
        dma_unique(s) ==> forall|i: int|
            0 <= i < s.len() ==> dma_to_map(s)[(#[trigger] s[i]).date] == s[i].value,
    decreases s.len(),
{
    if s.len() > 0 {
        let rest = s.drop_first();
        lemma_dma_to_map_char(rest);
        assert forall|k: u64| dma_to_map(s).contains_key(k) implies exists|i: int|
            0 <= i < s.len() && (#[trigger] s[i]).date == k by {
            if k == s[0].date {
                assert(0 <= 0 < s.len() && (#[trigger] s[0]).date == k);
            } else {
                assert(dma_to_map(rest).contains_key(k));
                assert(exists|i: int| 0 <= i < rest.len() && (#[trigger] rest[i]).date == k);
                let i = choose|i: int| 0 <= i < rest.len() && (#[trigger] rest[i]).date == k;
                assert(rest[i] == s[i + 1]);
                assert((#[trigger] s[i + 1]).date == k);
            }
        }
        assert forall|k: u64|
            (exists|i: int| 0 <= i < s.len() && (#[trigger] s[i]).date == k) implies dma_to_map(
            s,
        ).contains_key(k) by {
            let i = choose|i: int| 0 <= i < s.len() && (#[trigger] s[i]).date == k;
            if i > 0 {
                assert((#[trigger] rest[i - 1]).date == k);
                assert(dma_to_map(rest).contains_key(k));
            }
        }
        if dma_unique(s) {
            assert(dma_unique(rest));
            assert forall|i: int| 0 <= i < s.len() implies dma_to_map(s)[(#[trigger] s[i]).date]
                == s[i].value by {
                if i > 0 {
                    assert(rest[i - 1] == s[i]);
                    assert(s[0].date != s[i].date);
                }
            }
        }
    }
}

/// Same characterization for the fee table.
pub proof fn lemma_fee_to_map_char(s: Seq<FeeEstimate>)
    ensures
        forall|k: u16|
            fee_to_map(s).contains_key(k) <==> exists|i: int|
                0 <= i < s.len() && (#[trigger] s[i]).block_target == k,
        fee_unique(s) ==> forall|i: int|
            0 <= i < s.len() ==> fee_to_map(s)[(#[trigger] s[i]).block_target] == (
            s[i].fee_rate,
            s[i].estimated_at,
            ),
    decreases s.len(),
{
    if s.len() > 0 {
        let rest = s.drop_first();
        lemma_fee_to_map_char(rest);
        assert forall|k: u16| fee_to_map(s).contains_key(k) implies exists|i: int|
            0 <= i < s.len() && (#[trigger] s[i]).block_target == k by {
            if k == s[0].block_target {
                assert(0 <= 0 < s.len() && (#[trigger] s[0]).block_target == k);
            } else {
                assert(fee_to_map(rest).contains_key(k));
                assert(exists|i: int|
                    0 <= i < rest.len() && (#[trigger] rest[i]).block_target == k);
                let i = choose|i: int|
                    0 <= i < rest.len() && (#[trigger] rest[i]).block_target == k;
                assert(rest[i] == s[i + 1]);
                assert((#[trigger] s[i + 1]).block_target == k);
            }
        }
        assert forall|k: u16|
            (exists|i: int| 0 <= i < s.len() && (#[trigger] s[i]).block_target == k)
            implies fee_to_map(s).contains_key(k) by {
            let i = choose|i: int| 0 <= i < s.len() && (#[trigger] s[i]).block_target == k;
            if i > 0 {
                assert((#[trigger] rest[i - 1]).block_target == k);
                assert(fee_to_map(rest).contains_key(k));
            }
        }
        if fee_unique(s) {
            assert(fee_unique(rest));
            assert forall|i: int| 0 <= i < s.len() implies fee_to_map(s)[(
            #[trigger] s[i]).block_target] == (s[i].fee_rate, s[i].estimated_at) by {
                if i > 0 {
                    assert(rest[i - 1] == s[i]);
                    assert(s[0].block_target != s[i].block_target);
                }
            }
        }
    }
}

/// Two sorted daily tables with the same map contents hold the same rows in
/// the same order: the sorted table is a canonical presentation of the map.
pub proof fn lemma_daily_canonical(s1: Seq<DailyTxData>, s2: Seq<DailyTxData>)
    requires
        daily_sorted(s1),
        daily_sorted(s2),
        daily_to_map(s1) == daily_to_map(s2),
    ensures
        s1 == s2,
    decreases s1.len(),
{
    lemma_daily_to_map_char(s1);
    lemma_daily_to_map_char(s2);
    if s1.len() == 0 {
        if s2.len() > 0 {
            assert(daily_to_map(s2).contains_key(s2[0].date));
            assert(false);
        }
        assert(s1 =~= s2);
    } else {
        assert(daily_to_map(s1).contains_key(s1[0].date));
        if s2.len() == 0 {
            assert(false);
        }
        assert(s1[0].date == s2[0].date) by {
            assert(daily_to_map(s2).contains_key(s2[0].date));
            assert(daily_to_map(s1).contains_key(s2[0].date));
            assert(exists|i: int| 0 <= i < s1.len() && (#[trigger] s1[i]).date == s2[0].date);
            let i = choose|i: int| 0 <= i < s1.len() && (#[trigger] s1[i]).date == s2[0].date;
            assert(daily_to_map(s2).contains_key(s1[0].date));
            assert(exists|j: int| 0 <= j < s2.len() && (#[trigger] s2[j]).date == s1[0].date);
            let j = choose|j: int| 0 <= j < s2.len() && (#[trigger] s2[j]).date == s1[0].date;
            if i > 0 {
                assert(s1[0].date > s1[i].date);
            }
            if j > 0 {
                assert(s2[0].date > s2[j].date);
            }
        }
        assert(s1[0].tx_count == s2[0].tx_count) by {
            assert(daily_to_map(s1)[s1[0].date] == s1[0].tx_count);
            assert(daily_to_map(s2)[s2[0].date] == s2[0].tx_count);
        }
        let r1 = s1.drop_first();
        let r2 = s2.drop_first();
        lemma_daily_to_map_char(r1);
        lemma_daily_to_map_char(r2);
        assert(daily_to_map(r1) =~= daily_to_map(s1).remove(s1[0].date)) by {
            assert(!daily_to_map(r1).contains_key(s1[0].date)) by {
                if daily_to_map(r1).contains_key(s1[0].date) {
                    let i = choose|i: int|
                        0 <= i < r1.len() && (#[trigger] r1[i]).date == s1[0].date;
                    assert(s1[i + 1].date == s1[0].date);
                }
            }
        }
        assert(daily_to_map(r2) =~= daily_to_map(s2).remove(s2[0].date)) by {
            assert(!daily_to_map(r2).contains_key(s2[0].date)) by {
                if daily_to_map(r2).contains_key(s2[0].date) {
                    let i = choose|i: int|
                        0 <= i < r2.len() && (#[trigger] r2[i]).date == s2[0].date;
                    assert(s2[i + 1].date == s2[0].date);
                }
            }
        }
        lemma_daily_canonical(r1, r2);
        assert(s1[0] == s2[0]);
        assert(s1.len() == s2.len());
        assert forall|i: int| 0 <= i < s1.len() implies s1[i] == s2[i] by {
            if i > 0 {
                assert(s1[i] == r1[i - 1]);
                assert(s2[i] == r2[i - 1]);
            }
        }
        assert(s1 =~= s2);
    }
}

/// Overwriting the row at index `i` (same date) updates the map at that
/// date and keeps the table sorted.
proof fn lemma_daily_update_map(s0: Seq<DailyTxData>, i: int, row: DailyTxData)
    requires
        daily_sorted(s0),
        0 <= i < s0.len(),
        s0[i].date == row.date,
    ensures
        daily_sorted(s0.update(i, row)),
        daily_to_map(s0.update(i, row)) == daily_to_map(s0).insert(row.date, row.tx_count),
{
    let s1 = s0.update(i, row);
    assert forall|a: int, b: int| 0 <= a < b < s1.len() implies (#[trigger] s1[a]).date > (
    #[trigger] s1[b]).date by {
        assert(s0[a].date > s0[b].date);
    }
    lemma_daily_to_map_char(s0);
    lemma_daily_to_map_char(s1);
    assert forall|k: u64|
        daily_to_map(s1).contains_key(k) == daily_to_map(s0).insert(
            row.date,
            row.tx_count,
        ).contains_key(k) by {
        assert((#[trigger] s1[i]).date == row.date);
        assert((#[trigger] s0[i]).date == row.date);
        if daily_to_map(s1).contains_key(k) {
            let a = choose|a: int| 0 <= a < s1.len() && (#[trigger] s1[a]).date == k;
            if a != i {
                assert((#[trigger] s0[a]).date == k);
                assert(daily_to_map(s0).contains_key(k));
            }
        }
        if k == row.date {
            assert(daily_to_map(s1).contains_key(k));
        } else if daily_to_map(s0).contains_key(k) {
            let a = choose|a: int| 0 <= a < s0.len() && (#[trigger] s0[a]).date == k;
            assert((#[trigger] s1[a]).date == k);
            assert(daily_to_map(s1).contains_key(k));
        }
    }
    assert forall|k: u64| daily_to_map(s1).contains_key(k) implies daily_to_map(s1)[k]
        == daily_to_map(s0).insert(row.date, row.tx_count)[k] by {
        let a = choose|a: int| 0 <= a < s1.len() && (#[trigger] s1[a]).date == k;
        assert(daily_to_map(s1)[s1[a].date] == s1[a].tx_count);
        if a == i {
            assert(k == row.date);
        } else {
            assert((#[trigger] s1[i]).date == row.date);
            assert(k != row.date);
            assert(s1[a] == s0[a]);
            assert(daily_to_map(s0)[s0[a].date] == s0[a].tx_count);
        }
    }
    assert(daily_to_map(s1) =~= daily_to_map(s0).insert(row.date, row.tx_count));
}

/// Inserting a row at the position that keeps the order (everything before
/// is newer, everything after is older) inserts its date into the map.
proof fn lemma_daily_insert_map(s0: Seq<DailyTxData>, i: int, row: DailyTxData)
    requires
        daily_sorted(s0),
        0 <= i <= s0.len(),
        forall|j: int| 0 <= j < i ==> (#[trigger] s0[j]).date > row.date,
        forall|j: int| i <= j < s0.len() ==> (#[trigger] s0[j]).date < row.date,
    ensures
        daily_sorted(s0.insert(i, row)),
        daily_to_map(s0.insert(i, row)) == daily_to_map(s0).insert(row.date, row.tx_count),
{
    let s1 = s0.insert(i, row);
    s0.insert_ensures(i, row);
    assert forall|a: int, b: int| 0 <= a < b < s1.len() implies (#[trigger] s1[a]).date > (
    #[trigger] s1[b]).date by {
        if a < i {
            assert(s1[a] == s0[a]);
        } else if a > i {
            assert(s1[a] == s0[a - 1]);
        }
        if b < i {
            assert(s1[b] == s0[b]);
        } else if b > i {
            assert(s1[b] == s0[b - 1]);
        }
    }
    lemma_daily_to_map_char(s0);
    lemma_daily_to_map_char(s1);
    assert forall|k: u64|
        daily_to_map(s1).contains_key(k) == daily_to_map(s0).insert(
            row.date,
            row.tx_count,
        ).contains_key(k) by {
        assert((#[trigger] s1[i]).date == row.date);
        if daily_to_map(s1).contains_key(k) {
            let a = choose|a: int| 0 <= a < s1.len() && (#[trigger] s1[a]).date == k;
            if a < i {
                assert((#[trigger] s0[a]).date == k);
                assert(daily_to_map(s0).contains_key(k));
            } else if a > i {
                assert((#[trigger] s0[a - 1]).date == k);
                assert(daily_to_map(s0).contains_key(k));
            }
        }
        if k == row.date {
            assert(daily_to_map(s1).contains_key(k));
        } else if daily_to_map(s0).contains_key(k) {
            let a = choose|a: int| 0 <= a < s0.len() && (#[trigger] s0[a]).date == k;
            if a < i {
                assert((#[trigger] s1[a]).date == k);
            } else {
                assert((#[trigger] s1[a + 1]).date == k);
            }
            assert(daily_to_map(s1).contains_key(k));
        }
    }
    assert forall|k: u64| daily_to_map(s1).contains_key(k) implies daily_to_map(s1)[k]
        == daily_to_map(s0).insert(row.date, row.tx_count)[k] by {
        let a = choose|a: int| 0 <= a < s1.len() && (#[trigger] s1[a]).date == k;
        assert(daily_to_map(s1)[s1[a].date] == s1[a].tx_count);
        if a == i {
            assert(k == row.date);
        } else {
            assert((#[trigger] s1[i]).date == row.date);
            assert(k != row.date);
            if a < i {
                assert(s1[a] == s0[a]);
                assert(daily_to_map(s0)[s0[a].date] == s0[a].tx_count);
            } else {
                assert(s1[a] == s0[a - 1]);
                assert(daily_to_map(s0)[s0[a - 1].date] == s0[a - 1].tx_count);
            }
        }
    }
    assert(daily_to_map(s1) =~= daily_to_map(s0).insert(row.date, row.tx_count));
}

/// Overwriting the moving-average row at index `i` (same date) updates the
/// map at that date and keeps dates unique.
proof fn lemma_dma_update_map(s0: Seq<MovingAverageRow>, i: int, row: MovingAverageRow)
    requires
        dma_unique(s0),
        0 <= i < s0.len(),
        s0[i].date == row.date,
    ensures
        dma_unique(s0.update(i, row)),
        dma_to_map(s0.update(i, row)) == dma_to_map(s0).insert(row.date, row.value),
{
    let s1 = s0.update(i, row);
    assert forall|a: int, b: int| 0 <= a < b < s1.len() implies (#[trigger] s1[a]).date != (
    #[trigger] s1[b]).date by {
        assert(s0[a].date != s0[b].date);
    }
    lemma_dma_to_map_char(s0);
    lemma_dma_to_map_char(s1);
    assert forall|k: u64|
        dma_to_map(s1).contains_key(k) == dma_to_map(s0).insert(
            row.date,
            row.value,
        ).contains_key(k) by {
        assert((#[trigger] s1[i]).date == row.date);
        assert((#[trigger] s0[i]).date == row.date);
        if dma_to_map(s1).contains_key(k) {
            let a = choose|a: int| 0 <= a < s1.len() && (#[trigger] s1[a]).date == k;
            if a != i {
                assert((#[trigger] s0[a]).date == k);
                assert(dma_to_map(s0).contains_key(k));
            }
        }
        if k == row.date {
            assert(dma_to_map(s1).contains_key(k));
        } else if dma_to_map(s0).contains_key(k) {
            let a = choose|a: int| 0 <= a < s0.len() && (#[trigger] s0[a]).date == k;
            assert((#[trigger] s1[a]).date == k);
            assert(dma_to_map(s1).contains_key(k));
        }
    }
    assert forall|k: u64| dma_to_map(s1).contains_key(k) implies dma_to_map(s1)[k] == dma_to_map(
        s0,
    ).insert(row.date, row.value)[k] by {
        let a = choose|a: int| 0 <= a < s1.len() && (#[trigger] s1[a]).date == k;
        assert(dma_to_map(s1)[s1[a].date] == s1[a].value);
        if a == i {
            assert(k == row.date);
        } else {
            assert((#[trigger] s1[i]).date == row.date);
            assert(k != row.date);
            assert(s1[a] == s0[a]);
            assert(dma_to_map(s0)[s0[a].date] == s0[a].value);
        }
    }
    assert(dma_to_map(s1) =~= dma_to_map(s0).insert(row.date, row.value));
}

/// Appending a moving-average row whose date is absent inserts it into the
/// map and keeps dates unique.
proof fn lemma_dma_push_map(s0: Seq<MovingAverageRow>, row: MovingAverageRow)
    requires
        dma_unique(s0),
        forall|j: int| 0 <= j < s0.len() ==> (#[trigger] s0[j]).date != row.date,
    ensures
        dma_unique(s0.push(row)),
        dma_to_map(s0.push(row)) == dma_to_map(s0).insert(row.date, row.value),
{
    let s1 = s0.push(row);
    assert forall|a: int, b: int| 0 <= a < b < s1.len() implies (#[trigger] s1[a]).date != (
    #[trigger] s1[b]).date by {
        assert(s1[a] == s0[a]);
        if b < s0.len() {
            assert(s1[b] == s0[b]);
        }
    }
    lemma_dma_to_map_char(s0);
    lemma_dma_to_map_char(s1);
    assert forall|k: u64|
        dma_to_map(s1).contains_key(k) == dma_to_map(s0).insert(
            row.date,
            row.value,
        ).contains_key(k) by {
        assert((#[trigger] s1[s0.len() as int]).date == row.date);
        if dma_to_map(s1).contains_key(k) {
            let a = choose|a: int| 0 <= a < s1.len() && (#[trigger] s1[a]).date == k;
            if a < s0.len() {
                assert((#[trigger] s0[a]).date == k);
                assert(dma_to_map(s0).contains_key(k));
            }
        }
        if k == row.date {
            assert(dma_to_map(s1).contains_key(k));
        } else if dma_to_map(s0).contains_key(k) {
            let a = choose|a: int| 0 <= a < s0.len() && (#[trigger] s0[a]).date == k;
            assert((#[trigger] s1[a]).date == k);
            assert(dma_to_map(s1).contains_key(k));
        }
    }
    assert forall|k: u64| dma_to_map(s1).contains_key(k) implies dma_to_map(s1)[k] == dma_to_map(
        s0,
    ).insert(row.date, row.value)[k] by {
        let a = choose|a: int| 0 <= a < s1.len() && (#[trigger] s1[a]).date == k;
        assert(dma_to_map(s1)[s1[a].date] == s1[a].value);
        if a < s0.len() {
            assert(s1[a] == s0[a]);
            assert(k != row.date);
            assert(dma_to_map(s0)[s0[a].date] == s0[a].value);
        } else {
            assert(k == row.date);
        }
    }
    assert(dma_to_map(s1) =~= dma_to_map(s0).insert(row.date, row.value));
}

/// Overwriting the fee row at index `i` (same target) updates the map at
/// that target and keeps targets unique.
proof fn lemma_fee_update_map(s0: Seq<FeeEstimate>, i: int, row: FeeEstimate)
    requires
        fee_unique(s0),
        0 <= i < s0.len(),
        s0[i].block_target == row.block_target,
    ensures
        fee_unique(s0.update(i, row)),
        fee_to_map(s0.update(i, row)) == fee_to_map(s0).insert(
            row.block_target,
            (row.fee_rate, row.estimated_at),
        ),
{
    let s1 = s0.update(i, row);
    assert forall|a: int, b: int| 0 <= a < b < s1.len() implies (#[trigger] s1[a]).block_target
        != (#[trigger] s1[b]).block_target by {
        assert(s0[a].block_target != s0[b].block_target);
    }
    lemma_fee_to_map_char(s0);
    lemma_fee_to_map_char(s1);
    assert forall|k: u16|
        fee_to_map(s1).contains_key(k) == fee_to_map(s0).insert(
            row.block_target,
            (row.fee_rate, row.estimated_at),
        ).contains_key(k) by {
        assert((#[trigger] s1[i]).block_target == row.block_target);
        assert((#[trigger] s0[i]).block_target == row.block_target);
        if fee_to_map(s1).contains_key(k) {
            let a = choose|a: int| 0 <= a < s1.len() && (#[trigger] s1[a]).block_target == k;
            if a != i {
                assert((#[trigger] s0[a]).block_target == k);
                assert(fee_to_map(s0).contains_key(k));
            }
        }
        if k == row.block_target {
            assert(fee_to_map(s1).contains_key(k));
        } else if fee_to_map(s0).contains_key(k) {
            let a = choose|a: int| 0 <= a < s0.len() && (#[trigger] s0[a]).block_target == k;
            assert((#[trigger] s1[a]).block_target == k);
            assert(fee_to_map(s1).contains_key(k));
        }
    }
    assert forall|k: u16| fee_to_map(s1).contains_key(k) implies fee_to_map(s1)[k] == fee_to_map(
        s0,
    ).insert(row.block_target, (row.fee_rate, row.estimated_at))[k] by {
        let a = choose|a: int| 0 <= a < s1.len() && (#[trigger] s1[a]).block_target == k;
        assert(fee_to_map(s1)[s1[a].block_target] == (s1[a].fee_rate, s1[a].estimated_at));
        if a == i {
            assert(k == row.block_target);
        } else {
            assert((#[trigger] s1[i]).block_target == row.block_target);
            assert(k != row.block_target);
            assert(s1[a] == s0[a]);
            assert(fee_to_map(s0)[s0[a].block_target] == (s0[a].fee_rate, s0[a].estimated_at));
        }
    }
    assert(fee_to_map(s1) =~= fee_to_map(s0).insert(
        row.block_target,
        (row.fee_rate, row.estimated_at),
    ));
}

/// Appending a fee row whose target is absent inserts it into the map and
/// keeps targets unique.
proof fn lemma_fee_push_map(s0: Seq<FeeEstimate>, row: FeeEstimate)
    requires
        fee_unique(s0),
        forall|j: int| 0 <= j < s0.len() ==> (#[trigger] s0[j]).block_target != row.block_target,
    ensures
        fee_unique(s0.push(row)),
        fee_to_map(s0.push(row)) == fee_to_map(s0).insert(
            row.block_target,
            (row.fee_rate, row.estimated_at),
        ),
{
    let s1 = s0.push(row);
    assert forall|a: int, b: int| 0 <= a < b < s1.len() implies (#[trigger] s1[a]).block_target
        != (#[trigger] s1[b]).block_target by {
        assert(s1[a] == s0[a]);
        if b < s0.len() {
            assert(s1[b] == s0[b]);
        }
    }
    lemma_fee_to_map_char(s0);
    lemma_fee_to_map_char(s1);
    assert forall|k: u16|
        fee_to_map(s1).contains_key(k) == fee_to_map(s0).insert(
            row.block_target,
            (row.fee_rate, row.estimated_at),
        ).contains_key(k) by {
        assert((#[trigger] s1[s0.len() as int]).block_target == row.block_target);
        if fee_to_map(s1).contains_key(k) {
            let a = choose|a: int| 0 <= a < s1.len() && (#[trigger] s1[a]).block_target == k;
            if a < s0.len() {
                assert((#[trigger] s0[a]).block_target == k);
                assert(fee_to_map(s0).contains_key(k));
            }
        }
        if k == row.block_target {
            assert(fee_to_map(s1).contains_key(k));
        } else if fee_to_map(s0).contains_key(k) {
            let a = choose|a: int| 0 <= a < s0.len() && (#[trigger] s0[a]).block_target == k;
            assert((#[trigger] s1[a]).block_target == k);
            assert(fee_to_map(s1).contains_key(k));
        }
    }
    assert forall|k: u16| fee_to_map(s1).contains_key(k) implies fee_to_map(s1)[k] == fee_to_map(
        s0,
    ).insert(row.block_target, (row.fee_rate, row.estimated_at))[k] by {
        let a = choose|a: int| 0 <= a < s1.len() && (#[trigger] s1[a]).block_target == k;
        assert(fee_to_map(s1)[s1[a].block_target] == (s1[a].fee_rate, s1[a].estimated_at));
        if a < s0.len() {
            assert(s1[a] == s0[a]);
            assert(k != row.block_target);
            assert(fee_to_map(s0)[s0[a].block_target] == (s0[a].fee_rate, s0[a].estimated_at));
        } else {
            assert(k == row.block_target);
        }
    }
    assert(fee_to_map(s1) =~= fee_to_map(s0).insert(
        row.block_target,
        (row.fee_rate, row.estimated_at),
    ));
}

/// The store: a latest-block-height singleton, the per-day transaction
/// counts (newest first), the moving-average rows, and the fee estimates.
pub struct MetricsStore {
    pub block_height: Option<u64>,
    pub daily: Vec<DailyTxData>,
    pub dma: Vec<MovingAverageRow>,
    pub fees: Vec<FeeEstimate>,
}

/// A store's contents at the level the contracts speak of: the height
/// singleton, the daily rows (newest first), and the two keyed tables read
/// as maps. The daily rows stay a sequence because their order is part of
/// what the store promises; the other tables are unordered.
pub struct StoreModel {
    pub height: Option<u64>,
    pub daily: Seq<DailyTxData>,
    pub dma: Map<u64, SevenDayAverage>,
    pub fees: Map<u16, (u64, u64)>,
}

impl MetricsStore {
    /// The store read at the model level.
    pub open spec fn model(self) -> StoreModel {
        StoreModel {
            height: self.block_height,
            daily: self.daily@,
            dma: dma_to_map(self.dma@),
            fees: fee_to_map(self.fees@),
        }
    }

    /// Well-formedness: the daily table is sorted newest-first with unique
    /// dates, and the other keyed tables hold at most one row per key.
    pub open spec fn wf(self) -> bool {
        &&& daily_sorted(self.daily@)
        &&& dma_unique(self.dma@)
        &&& fee_unique(self.fees@)
    }

    /// The daily table as a map from date to count.
    pub open spec fn daily_map(self) -> Map<u64, u64> {
        daily_to_map(self.daily@)
    }

    /// The moving-average table as a map from date to value.
    pub open spec fn dma_map(self) -> Map<u64, SevenDayAverage> {
        dma_to_map(self.dma@)
    }

    /// The fee table as a map from block target to (rate, day taken).
    pub open spec fn fee_map(self) -> Map<u16, (u64, u64)> {
        fee_to_map(self.fees@)
    }

    /// An empty store: no rows in any table, no height recorded.
    pub fn new() -> (s: MetricsStore)
        ensures
            s.wf(),
            s.block_height is None,
            s.daily@ == Seq::<DailyTxData>::empty(),
            s.dma_map() == Map::<u64, SevenDayAverage>::empty(),
            s.fee_map() == Map::<u16, (u64, u64)>::empty(),
    {
        MetricsStore { block_height: None, daily: Vec::new(), dma: Vec::new(), fees: Vec::new() }
    }

    /// Overwrite the block-height singleton; no other table changes.
    pub fn update_block_height(&mut self, block_height: u64)
        ensures
            final(self).wf() == old(self).wf(),
            final(self).block_height == Some(block_height),
            final(self).daily@ == old(self).daily@,
            final(self).dma@ == old(self).dma@,
            final(self).fees@ == old(self).fees@,
    {
        self.block_height = Some(block_height);
    }

    /// The block-height singleton, if a refresh has ever recorded one.
    pub fn get_block_height(&self) -> (r: Option<u64>)
        ensures
            r == self.block_height,
    {
        self.block_height
    }

    /// Upsert a daily transaction count: insert a row for the date if none
    /// exists, else overwrite that date's count. The table stays sorted and
    /// keyed by date; no other table changes.
    #[verifier::loop_isolation(false)]
    pub fn save_daily_tx(&mut self, date: u64, tx_count: u64)
        requires
            old(self).wf(),
        ensures
            final(self).wf(),
            final(self).daily_map() == old(self).daily_map().insert(date, tx_count),
            final(self).block_height == old(self).block_height,
            final(self).dma@ == old(self).dma@,
            final(self).fees@ == old(self).fees@,
    {
        let row = DailyTxData { date, tx_count };
        let ghost s0 = self.daily@;
        let mut i: usize = 0;
        while i < self.daily.len() && self.daily[i].date > date
            invariant
                0 <= i <= self.daily@.len(),
                self.daily@ == s0,
                forall|j: int| 0 <= j < i ==> (#[trigger] s0[j]).date > date,
            decreases self.daily@.len() - i,
        {
            i = i + 1;
        }
        if i < self.daily.len() && self.daily[i].date == date {
            self.daily.set(i, row);
            proof {
                lemma_daily_update_map(s0, i as int, row);
            }
        } else {
            proof {
                assert forall|j: int| i <= j < s0.len() implies (#[trigger] s0[j]).date < date by {
                    assert(s0[j].date <= s0[i as int].date);
                }
            }
            self.daily.insert(i, row);
            proof {
                lemma_daily_insert_map(s0, i as int, row);
            }
        }
    }

    /// Upsert today's transaction count. The caller supplies the current
    /// day, since the clock lives with the caller.
    pub fn save_today_tx(&mut self, today: u64, tx_count: u64)
        requires
            old(self).wf(),
        ensures
            final(self).wf(),
            final(self).daily_map() == old(self).daily_map().insert(today, tx_count),
            final(self).block_height == old(self).block_height,
            final(self).dma@ == old(self).dma@,
            final(self).fees@ == old(self).fees@,
    {
        self.save_daily_tx(today, tx_count);
    }

    /// Whether a daily row exists for the given day.
    #[verifier::loop_isolation(false)]
    pub fn check_today_data(&self, today: u64) -> (r: bool)
        ensures
            r == self.daily_map().contains_key(today),
    {
        proof {
            lemma_daily_to_map_char(self.daily@);
        }
        let mut i: usize = 0;
        while i < self.daily.len()
            invariant
                0 <= i <= self.daily@.len(),
                forall|j: int| 0 <= j < i ==> (#[trigger] self.daily@[j]).date != today,
            decreases self.daily@.len() - i,
        {
            if self.daily[i].date == today {
                return true;
            }
            i = i + 1;
        }
        false
    }

    /// The most recent daily rows, newest first: all of them if fewer than
    /// `MOVING_AVERAGE_WINDOW` exist, else the newest `MOVING_AVERAGE_WINDOW`.
    #[verifier::loop_isolation(false)]
    pub fn get_last_7_days(&self) -> (r: Vec<DailyTxData>)
        ensures
            r@ == recent_window(self.daily@),
    {
        let n = if self.daily.len() < MOVING_AVERAGE_WINDOW {
            self.daily.len()
        } else {
            MOVING_AVERAGE_WINDOW
        };
        let mut r: Vec<DailyTxData> = Vec::new();
        let mut i: usize = 0;
        while i < n
            invariant
                0 <= i <= n <= self.daily@.len(),
                r@ == self.daily@.take(i as int),
            decreases n - i,
        {
            r.push(self.daily[i]);
            assert(r@ =~= self.daily@.take(i + 1));
            i = i + 1;
        }
        proof {
            if self.daily@.len() <= MOVING_AVERAGE_WINDOW {
                assert(self.daily@.take(n as int) =~= self.daily@);
            }
        }
        r
    }

    /// Every daily row, newest first.
    #[verifier::loop_isolation(false)]
    pub fn get_all_days_tx(&self) -> (r: Vec<DailyTxData>)
        ensures
            r@ == self.daily@,
    {
        let mut r: Vec<DailyTxData> = Vec::new();
        let mut i: usize = 0;
        while i < self.daily.len()
            invariant
                0 <= i <= self.daily@.len(),
                r@ == self.daily@.take(i as int),
            decreases self.daily@.len() - i,
        {
            r.push(self.daily[i]);
            assert(r@ =~= self.daily@.take(i + 1));
            i = i + 1;
        }
        proof {
            assert(self.daily@.take(self.daily@.len() as int) =~= self.daily@);
        }
        r
    }

    /// Upsert a moving-average row for a date; no other table changes.
    #[verifier::loop_isolation(false)]
    pub fn save_7dma(&mut self, date: u64, value: SevenDayAverage)
        requires
            old(self).wf(),
        ensures
            final(self).wf(),
            final(self).dma_map() == old(self).dma_map().insert(date, value),
            final(self).block_height == old(self).block_height,
            final(self).daily@ == old(self).daily@,
            final(self).fees@ == old(self).fees@,
    {
        let row = MovingAverageRow { date, value };
        let ghost s0 = self.dma@;
        let mut i: usize = 0;
        while i < self.dma.len() && self.dma[i].date != date
            invariant
                0 <= i <= self.dma@.len(),
                self.dma@ == s0,
                forall|j: int| 0 <= j < i ==> (#[trigger] s0[j]).date != date,
            decreases self.dma@.len() - i,
        {
            i = i + 1;
        }
        if i < self.dma.len() {
            self.dma.set(i, row);
            proof {
                lemma_dma_update_map(s0, i as int, row);
            }
        } else {
            self.dma.push(row);
            proof {
                lemma_dma_push_map(s0, row);
            }
        }
    }

    /// The moving-average row for a date, if one has been written.
    #[verifier::loop_isolation(false)]
    pub fn get_7dma(&self, date: u64) -> (r: Option<SevenDayAverage>)
        requires
            self.wf(),
        ensures
            r == (if self.dma_map().contains_key(date) {
                Some(self.dma_map()[date])
            } else {
                None::<SevenDayAverage>
            }),
    {
        proof {
            lemma_dma_to_map_char(self.dma@);
        }
        let mut i: usize = 0;
        while i < self.dma.len()
            invariant
                0 <= i <= self.dma@.len(),
                forall|j: int| 0 <= j < i ==> (#[trigger] self.dma@[j]).date != date,
            decreases self.dma@.len() - i,
        {
            if self.dma[i].date == date {
                return Some(self.dma[i].value);
            }
            i = i + 1;
        }
        None
    }

    /// Upsert a fee estimate for a block target; no other table changes.
    #[verifier::loop_isolation(false)]
    pub fn save_fee_estimation(&mut self, block_target: u16, fee_rate: u64, estimated_at: u64)
        requires
            old(self).wf(),
        ensures
            final(self).wf(),
            final(self).fee_map() == old(self).fee_map().insert(
                block_target,
                (fee_rate, estimated_at),
            ),
            final(self).block_height == old(self).block_height,
            final(self).daily@ == old(self).daily@,
            final(self).dma@ == old(self).dma@,
    {
        let row = FeeEstimate { block_target, fee_rate, estimated_at };
        let ghost s0 = self.fees@;
        let mut i: usize = 0;
        while i < self.fees.len() && self.fees[i].block_target != block_target
            invariant
                0 <= i <= self.fees@.len(),
                self.fees@ == s0,
                forall|j: int| 0 <= j < i ==> (#[trigger] s0[j]).block_target != block_target,
            decreases self.fees@.len() - i,
        {
            i = i + 1;
        }
        if i < self.fees.len() {
            self.fees.set(i, row);
            proof {
                lemma_fee_update_map(s0, i as int, row);
            }
        } else {
            self.fees.push(row);
            proof {
                lemma_fee_push_map(s0, row);
            }
        }
    }

    /// Every fee row, in stored order.
    #[verifier::loop_isolation(false)]
    pub fn get_fee_estimations(&self) -> (r: Vec<FeeEstimate>)
        ensures
            r@ == self.fees@,
    {
        let mut r: Vec<FeeEstimate> = Vec::new();
        let mut i: usize = 0;
        while i < self.fees.len()
            invariant
                0 <= i <= self.fees@.len(),
                r@ == self.fees@.take(i as int),
            decreases self.fees@.len() - i,
        {
            r.push(self.fees[i]);
            assert(r@ =~= self.fees@.take(i + 1));
            i = i + 1;
        }
        proof {
            assert(self.fees@.take(self.fees@.len() as int) =~= self.fees@);
        }
        r
    }
}

} // verus!
