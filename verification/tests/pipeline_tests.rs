use chain_metrics::day_of_unix_time;
use chain_metrics::pipeline::{
    aggregate_window, calculate_7dma, compute_and_store_7dma, current_day_number, day_window,
    fee_targets, plan_windows, retrieve_and_store_data, retrieve_and_store_fee_estimations, run,
    store_daily_tx_counts, BlockData, NodeObservations,
};
use chain_metrics::store::{DailyTxData, MetricsStore, SevenDayAverage};

fn block(tx_count: u32, time: u32) -> Option<BlockData> {
    Some(BlockData { tx_count, time })
}

#[test]
fn day_of_unix_time_buckets_by_utc_day() {
    assert_eq!(day_of_unix_time(0), 0);
    assert_eq!(day_of_unix_time(86399), 0);
    assert_eq!(day_of_unix_time(86400), 1);
    // 2024-05-01 00:00:00 UTC
    assert_eq!(day_of_unix_time(1714521600), 19844);
}

#[test]
fn fee_targets_policy_list() {
    assert_eq!(fee_targets(), vec![1u16, 3, 6, 12, 24]);
}

#[test]
fn day_window_counts_back_from_tip() {
    assert_eq!(day_window(800000, 0), (799856, 800000));
    assert_eq!(day_window(800000, 1), (799712, 799856));
}

#[test]
fn plan_windows_one_per_day() {
    assert_eq!(plan_windows(800000, 1), vec![(799856, 800000)]);
    assert_eq!(plan_windows(800000, 2), vec![(799856, 800000), (799712, 799856)]);
    assert!(plan_windows(800000, 0).is_empty());
}

#[test]
fn aggregate_window_anchors_date_on_first_success() {
    // The first fetch fails; the date must come from the second block's
    // header (day 1), not the third's (day 0), while counts sum over all
    // successful fetches.
    let window = vec![None, block(3, 86400), block(4, 5)];
    assert_eq!(aggregate_window(&window), Some(DailyTxData { date: 1, tx_count: 7 }));
}

#[test]
fn aggregate_window_of_failures_yields_nothing() {
    let window: Vec<Option<BlockData>> = vec![None, None, None];
    assert_eq!(aggregate_window(&window), None);
}

#[test]
fn window_of_failures_writes_no_daily_row() {
    // Every block fetch in the day's window failed: no row may appear for
    // that day, not even a zero-count one.
    let mut store = MetricsStore::new();
    let windows = vec![vec![None, None, None, None]];
    let recorded = store_daily_tx_counts(&windows, &mut store);
    assert_eq!(recorded, 0);
    assert!(store.get_all_days_tx().is_empty());
}

#[test]
fn moving_average_divides_by_actual_sample_count() {
    // With only 3 days of history holding counts 10, 20, 30 the average is
    // 20.0 — the mean over the 3 rows that exist, never 60/7.
    let mut store = MetricsStore::new();
    store.save_daily_tx(19842, 10);
    store.save_daily_tx(19843, 20);
    store.save_daily_tx(19844, 30);
    compute_and_store_7dma(19845, &mut store);
    let row = store.get_7dma(19845).expect("an average row must be written");
    assert_eq!(row, SevenDayAverage { sum: 60, samples: 3 });
    assert_eq!(row.sum as f64 / row.samples as f64, 20.0);
    assert!(row.sum as f64 / row.samples as f64 != 60.0 / 7.0);
}

#[test]
fn moving_average_uses_newest_seven_rows() {
    let mut store = MetricsStore::new();
    for d in 0..9u64 {
        store.save_daily_tx(19840 + d, 10 * (d + 1));
    }
    let recent = store.get_last_7_days();
    let value = calculate_7dma(&recent);
    // Newest seven rows hold 90, 80, 70, 60, 50, 40, 30.
    assert_eq!(value, SevenDayAverage { sum: 420, samples: 7 });
}

#[test]
fn moving_average_skipped_without_history() {
    let mut store = MetricsStore::new();
    compute_and_store_7dma(19845, &mut store);
    assert_eq!(store.get_7dma(19845), None);
}

#[test]
fn fee_sweep_partial_failure_writes_the_rest() {
    // estimateFee(6) fails while targets 1, 3, 12 and 24 succeed: exactly
    // four rows are written and the sweep completes normally.
    let mut store = MetricsStore::new();
    let fees = vec![Some(30000u64), Some(20000), None, Some(8000), Some(5000)];
    let written = retrieve_and_store_fee_estimations(&fees, 19844, &mut store);
    assert_eq!(written, 4);
    let rows = store.get_fee_estimations();
    assert_eq!(rows.len(), 4);
    let targets: Vec<u16> = rows.iter().map(|r| r.block_target).collect();
    assert!(targets.contains(&1));
    assert!(targets.contains(&3));
    assert!(!targets.contains(&6));
    assert!(targets.contains(&12));
    assert!(targets.contains(&24));
    for row in rows {
        assert_eq!(row.estimated_at, 19844);
        assert!(row.fee_rate > 0);
    }
}

#[test]
fn pipeline_stores_reported_height() {
    // A simulated node reporting height 800000 must leave exactly that
    // height in the store after a run.
    let mut store = MetricsStore::new();
    let obs = NodeObservations {
        height: Some(800000),
        windows: vec![vec![block(5, 1714521600), block(7, 1714521700)]],
        fees: vec![Some(10000), None, None, None, None],
    };
    let report = run(&obs, 19844, &mut store);
    assert!(report.height_refreshed);
    assert_eq!(store.get_block_height(), Some(800000));
}

#[test]
fn pipeline_failed_height_query_leaves_singleton_alone() {
    let mut store = MetricsStore::new();
    store.update_block_height(799999);
    let obs = NodeObservations { height: None, windows: vec![], fees: vec![None; 5] };
    let report = run(&obs, 19844, &mut store);
    assert!(!report.height_refreshed);
    assert_eq!(store.get_block_height(), Some(799999));
}

#[test]
fn pipeline_run_is_idempotent() {
    // Two runs over the same observations leave every table exactly as the
    // first run did: same rows, same values, no duplicates.
    let obs = NodeObservations {
        height: Some(800000),
        windows: vec![
            vec![block(5, 1714521600), None, block(7, 1714521700)],
            vec![None, block(11, 1714435200)],
            vec![None, None],
        ],
        fees: vec![Some(30000), Some(20000), None, Some(8000), Some(5000)],
    };
    let mut store = MetricsStore::new();
    store.save_daily_tx(19000, 999);
    run(&obs, 19845, &mut store);
    let daily_once = store.get_all_days_tx();
    let fees_once = store.get_fee_estimations();
    let height_once = store.get_block_height();
    let dma_once = store.get_7dma(19845);
    run(&obs, 19845, &mut store);
    assert_eq!(store.get_all_days_tx(), daily_once);
    assert_eq!(store.get_fee_estimations(), fees_once);
    assert_eq!(store.get_block_height(), height_once);
    assert_eq!(store.get_7dma(19845), dma_once);
}

#[test]
fn pipeline_run_report_counts_work_done() {
    let obs = NodeObservations {
        height: Some(800000),
        windows: vec![
            vec![block(5, 1714521600)],
            vec![None],
            vec![block(2, 1714435200), block(3, 1714435300)],
        ],
        fees: vec![Some(30000), None, None, None, Some(5000)],
    };
    let mut store = MetricsStore::new();
    let report = run(&obs, 19845, &mut store);
    assert!(report.height_refreshed);
    assert_eq!(report.days_recorded, 2);
    assert!(report.dma_written);
    assert_eq!(report.fee_rows_written, 2);
    // Two distinct dates were recorded, so the store holds two daily rows.
    assert_eq!(store.get_all_days_tx().len(), 2);
}

#[test]
fn later_window_of_same_date_wins() {
    // Two windows anchoring on the same calendar day: the later window's
    // count overwrites the earlier one, leaving a single row.
    let mut store = MetricsStore::new();
    let windows = vec![
        vec![block(5, 1714521600)],
        vec![block(9, 1714521601)],
    ];
    let recorded = store_daily_tx_counts(&windows, &mut store);
    assert_eq!(recorded, 2);
    assert_eq!(store.get_all_days_tx(), vec![DailyTxData { date: 19844, tx_count: 9 }]);
}

#[test]
fn clock_driven_run_stores_height() {
    let mut store = MetricsStore::new();
    let obs = NodeObservations {
        height: Some(812345),
        windows: vec![],
        fees: vec![None; 5],
    };
    retrieve_and_store_data(&obs, &mut store);
    assert_eq!(store.get_block_height(), Some(812345));
}

#[test]
fn current_day_number_is_past_2020() {
    // 2020-01-01 is day 18262; any sane clock on this machine reads later.
    assert!(current_day_number() > 18262);
}
