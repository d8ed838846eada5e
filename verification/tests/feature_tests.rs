use ohlc_forecast::candle::CandleRow;
use ohlc_forecast::error::ForecastError;
use ohlc_forecast::features::build_features;
use ohlc_forecast::frac::Frac;

fn row(open: i64, high: i64, low: i64, close: i64, volume: i64) -> CandleRow {
    CandleRow::new(open, high, low, close, volume)
}

#[test]
fn rolling_means_on_six_row_fixture() {
    // closes 10,20,30,40,50,60: windows shrink at the start.
    let rows = vec![
        row(11, 15, 9, 10, 100),
        row(21, 25, 19, 20, 110),
        row(31, 35, 29, 30, 120),
        row(41, 45, 39, 40, 130),
        row(51, 55, 49, 50, 140),
        row(61, 65, 59, 60, 150),
    ];
    let table = build_features(&rows, 1).unwrap();
    assert_eq!(table.len(), 6);

    // ma_5: exact trailing mean over the available window.
    let ma5: Vec<(i128, i128)> = table.iter().map(|r| (r.ma_5.num, r.ma_5.den)).collect();
    assert_eq!(
        ma5,
        vec![(10, 1), (30, 2), (60, 3), (100, 4), (150, 5), (200, 5)]
    );
    // ma_10: the window is still shrinking at row 5.
    let ma10: Vec<(i128, i128)> = table.iter().map(|r| (r.ma_10.num, r.ma_10.den)).collect();
    assert_eq!(
        ma10,
        vec![(10, 1), (30, 2), (60, 3), (100, 4), (150, 5), (210, 6)]
    );
    // Per-row differences.
    assert_eq!(table[0].oc_diff, 1);
    assert_eq!(table[0].hl_diff, 6);
    assert_eq!(table[5].oc_diff, 1);
    assert_eq!(table[5].hl_diff, 6);
    // Raw fields are copied through.
    assert_eq!(table[3].open, 41);
    assert_eq!(table[3].volume, 130);
}

#[test]
fn volume_change_null_only_on_first_row() {
    // A zero-to-nonzero volume transition: the exact fraction keeps the
    // zero denominator instead of inventing a value.
    let rows = vec![
        row(1, 1, 1, 1, 0),
        row(1, 1, 1, 1, 5),
        row(1, 1, 1, 1, 5),
        row(1, 1, 1, 1, 2),
    ];
    let table = build_features(&rows, 1).unwrap();
    assert_eq!(table[0].volume_change, None);
    assert_eq!(table[1].volume_change, Some(Frac { num: 5, den: 0 }));
    assert_eq!(table[2].volume_change, Some(Frac { num: 0, den: 5 }));
    assert_eq!(table[3].volume_change, Some(Frac { num: -3, den: 5 }));
}

#[test]
fn feature_builder_is_idempotent() {
    let rows: Vec<CandleRow> = (0..20)
        .map(|i| row(i + 1, i + 3, i, i + 2, 50 + i))
        .collect();
    let first = build_features(&rows, 1).unwrap();
    let second = build_features(&rows, 1).unwrap();
    assert_eq!(first, second);
}

#[test]
fn too_few_rows_is_insufficient_data() {
    let rows: Vec<CandleRow> = (0..10).map(|i| row(i, i, i, i, i)).collect();
    assert_eq!(
        build_features(&rows, 50),
        Err(ForecastError::InsufficientData)
    );
    // Exactly at the minimum the table is produced.
    assert!(build_features(&rows, 10).is_ok());
}
