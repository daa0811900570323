use chain_metrics::store::{DailyTxData, FeeEstimate, MetricsStore, SevenDayAverage};

#[test]
fn empty_store_reads() {
    let store = MetricsStore::new();
    assert_eq!(store.get_block_height(), None);
    assert!(store.get_all_days_tx().is_empty());
    assert!(store.get_last_7_days().is_empty());
    assert!(store.get_fee_estimations().is_empty());
    assert_eq!(store.get_7dma(19844), None);
    assert!(!store.check_today_data(19844));
}

#[test]
fn upsert_daily_replaces_existing_row() {
    // Day 19844 is 2024-05-01: ingesting tx_count 10 and then 15 leaves
    // exactly one row for the date, holding 15.
    let mut store = MetricsStore::new();
    store.save_daily_tx(19844, 10);
    store.save_daily_tx(19844, 15);
    let rows = store.get_all_days_tx();
    assert_eq!(rows, vec![DailyTxData { date: 19844, tx_count: 15 }]);
}

#[test]
fn daily_rows_come_back_newest_first() {
    let mut store = MetricsStore::new();
    for date in [19844u64, 19840, 19847, 19842, 19845, 19841, 19846, 19843, 19848] {
        store.save_daily_tx(date, date % 100);
    }
    let all = store.get_all_days_tx();
    assert_eq!(all.len(), 9);
    for pair in all.windows(2) {
        assert!(pair[0].date > pair[1].date);
    }
    let recent = store.get_last_7_days();
    assert_eq!(recent.len(), 7);
    assert_eq!(recent[0].date, 19848);
    assert_eq!(recent[6].date, 19842);
}

#[test]
fn check_today_data_reflects_presence() {
    let mut store = MetricsStore::new();
    assert!(!store.check_today_data(19844));
    store.save_today_tx(19844, 42);
    assert!(store.check_today_data(19844));
    assert!(!store.check_today_data(19845));
}

#[test]
fn block_height_singleton_overwrites() {
    let mut store = MetricsStore::new();
    store.update_block_height(799000);
    store.update_block_height(800000);
    assert_eq!(store.get_block_height(), Some(800000));
}

#[test]
fn moving_average_row_overwrites_same_date() {
    let mut store = MetricsStore::new();
    store.save_7dma(19844, SevenDayAverage { sum: 60, samples: 3 });
    store.save_7dma(19844, SevenDayAverage { sum: 70, samples: 7 });
    store.save_7dma(19845, SevenDayAverage { sum: 10, samples: 1 });
    assert_eq!(store.get_7dma(19844), Some(SevenDayAverage { sum: 70, samples: 7 }));
    assert_eq!(store.get_7dma(19845), Some(SevenDayAverage { sum: 10, samples: 1 }));
    assert_eq!(store.get_7dma(19846), None);
}

#[test]
fn fee_estimation_upsert_overwrites_target() {
    let mut store = MetricsStore::new();
    store.save_fee_estimation(6, 12000, 19844);
    store.save_fee_estimation(1, 30000, 19844);
    store.save_fee_estimation(6, 11000, 19845);
    let rows = store.get_fee_estimations();
    assert_eq!(rows.len(), 2);
    assert!(rows.contains(&FeeEstimate { block_target: 6, fee_rate: 11000, estimated_at: 19845 }));
    assert!(rows.contains(&FeeEstimate { block_target: 1, fee_rate: 30000, estimated_at: 19844 }));
}
