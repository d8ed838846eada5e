use ohlc_forecast::candle::CandleRow;
use ohlc_forecast::dataset::prepare_training_data;
use ohlc_forecast::features::build_features;
use ohlc_forecast::frac::Frac;
use ohlc_forecast::signal::{decide_signal, Signal};

use smartcore::ensemble::random_forest_regressor::{
    RandomForestRegressor, RandomForestRegressorParameters,
};
use smartcore::linalg::basic::matrix::DenseMatrix;
use smartcore::metrics::r2;
use smartcore::model_selection::train_test_split;

fn as_f64(f: &Frac) -> f64 {
    f.num as f64 / f.den as f64
}

#[test]
fn sixty_row_series_fits_and_signals() {
    // A synthetic 60-row series with monotonically increasing closes.
    let rows: Vec<CandleRow> = (0..60)
        .map(|i| CandleRow::new(100 + i, 105 + i, 95 + i, 102 + i, 1000 + 3 * i))
        .collect();

    let table = build_features(&rows, 50).unwrap();
    assert_eq!(table.len(), 60);

    let dataset = prepare_training_data(&table).unwrap();
    assert_eq!(dataset.examples.len(), 58);

    // Evaluate the exact fractions for the regression library.
    let n = dataset.examples.len();
    let mut flat: Vec<f64> = Vec::with_capacity(n * 10);
    let mut y: Vec<f64> = Vec::with_capacity(n);
    for ex in &dataset.examples {
        for f in &ex.features {
            flat.push(as_f64(f));
        }
        y.push(ex.label as f64);
    }
    let x = DenseMatrix::new(n, 10, flat, false).unwrap();

    let (x_train, x_test, y_train, y_test) = train_test_split(&x, &y, 0.2, true, None);
    let model = RandomForestRegressor::fit(
        &x_train,
        &y_train,
        RandomForestRegressorParameters::default(),
    )
    .unwrap();

    // The validation score is observational; it only has to be computable.
    let y_pred = model.predict(&x_test).unwrap();
    let score = r2(&y_test, &y_pred);
    assert!(score.is_finite());

    // Predict one step past the series from the inference vector.
    let last: Vec<f64> = dataset.inference.iter().map(as_f64).collect();
    let x_last = DenseMatrix::new(1, 10, last, false).unwrap();
    let predicted = model.predict(&x_last).unwrap()[0];
    assert!(predicted.is_finite());

    let current = table[table.len() - 1].close;
    assert_eq!(current, 161);

    // The signal from the model's own prediction never crashes.
    let predicted_mantissa = predicted.round() as i64;
    assert!(decide_signal(current, predicted_mantissa, 200).is_ok());

    // A predicted price rising past the threshold classifies as Buy.
    let rising = current + (current * 3) / 100;
    assert_eq!(decide_signal(current, rising, 200), Ok(Signal::Buy));
}
