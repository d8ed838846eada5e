use ohlc_forecast::candle::CandleRow;
use ohlc_forecast::dataset::{feature_names, last_close, prepare_training_data};
use ohlc_forecast::error::ForecastError;
use ohlc_forecast::features::build_features;
use ohlc_forecast::forecast::make_forecast;
use ohlc_forecast::frac::Frac;
use ohlc_forecast::signal::{change_pct, decide_signal, Signal};

fn ramp(n: i64) -> Vec<CandleRow> {
    (0..n)
        .map(|i| CandleRow::new(i + 1, i + 3, i, i + 2, 50 + i))
        .collect()
}

#[test]
fn fifty_rows_give_forty_eight_examples() {
    let rows = ramp(50);
    let table = build_features(&rows, 50).unwrap();
    let dataset = prepare_training_data(&table).unwrap();
    // First row (no volume change) and last row (no label) are dropped.
    assert_eq!(dataset.examples.len(), 48);
    for (k, ex) in dataset.examples.iter().enumerate() {
        // Every example is fully formed and labeled with the next close.
        assert_eq!(ex.features.len(), 10);
        assert_eq!(ex.label, table[k + 2].close);
    }
}

#[test]
fn inference_vector_comes_from_last_table_row() {
    let rows = ramp(12);
    let table = build_features(&rows, 1).unwrap();
    let dataset = prepare_training_data(&table).unwrap();
    // The last training example comes from row 10; the inference vector
    // from row 11, the last row of the full table. They must differ.
    let last_example = &dataset.examples[dataset.examples.len() - 1].features;
    assert_ne!(last_example, &dataset.inference);
    // Column 3 is the close price.
    assert_eq!(dataset.inference[3], Frac { num: 13, den: 1 });
    assert_eq!(last_example[3], Frac { num: 12, den: 1 });
}

#[test]
fn two_usable_rows_is_an_empty_dataset() {
    let rows = ramp(2);
    let table = build_features(&rows, 1).unwrap();
    assert_eq!(
        prepare_training_data(&table),
        Err(ForecastError::EmptyDataset)
    );
}

#[test]
fn feature_name_order_is_fixed() {
    assert_eq!(
        feature_names(),
        vec![
            "open",
            "high",
            "low",
            "close",
            "volume",
            "oc_diff",
            "hl_diff",
            "ma_5",
            "ma_10",
            "volume_change"
        ]
    );
}

#[test]
fn last_close_reads_the_most_recent_row() {
    let rows = ramp(7);
    let table = build_features(&rows, 1).unwrap();
    assert_eq!(last_close(&table), Some(8));
    let empty = build_features(&Vec::<CandleRow>::new(), 0).unwrap();
    assert_eq!(last_close(&empty), None);
}

#[test]
fn signal_scenarios() {
    assert_eq!(decide_signal(100, 103, 200), Ok(Signal::Buy));
    assert_eq!(decide_signal(100, 97, 200), Ok(Signal::Sell));
    assert_eq!(decide_signal(100, 101, 200), Ok(Signal::Hold));
    assert_eq!(decide_signal(0, 5, 200), Err(ForecastError::DivisionByZero));
}

#[test]
fn signal_threshold_is_strict() {
    // A change of exactly the threshold is a Hold on both sides.
    assert_eq!(decide_signal(100, 102, 200), Ok(Signal::Hold));
    assert_eq!(decide_signal(100, 98, 200), Ok(Signal::Hold));
}

#[test]
fn change_pct_is_exact() {
    assert_eq!(change_pct(200, 210), Ok(Frac { num: 1000, den: 200 }));
    assert_eq!(change_pct(0, 210), Err(ForecastError::DivisionByZero));
}

#[test]
fn signal_labels() {
    assert_eq!(Signal::Buy.label(), "Buy");
    assert_eq!(Signal::Sell.label(), "Sell");
    assert_eq!(Signal::Hold.label(), "Hold");
}

#[test]
fn forecast_record_carries_all_fields() {
    let f = make_forecast(
        "DOTUSDT".to_string(),
        "2024-01-01 00:00:00 UTC".to_string(),
        200,
        210,
        200,
    )
    .unwrap();
    assert_eq!(f.symbol, "DOTUSDT");
    assert_eq!(f.timestamp, "2024-01-01 00:00:00 UTC");
    assert_eq!(f.current_price, 200);
    assert_eq!(f.predicted_price, 210);
    assert_eq!(f.change, Frac { num: 1000, den: 200 });
    assert_eq!(f.signal, Signal::Buy);

    assert_eq!(
        make_forecast("X".to_string(), "t".to_string(), 0, 5, 200),
        Err(ForecastError::DivisionByZero)
    );
}
