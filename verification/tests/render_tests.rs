use ohlc_forecast::forecast::make_forecast;
use ohlc_forecast::render::{format_fixed_point, format_forecast_message};

#[test]
fn fixed_point_rendering() {
    assert_eq!(format_fixed_point(42561, 4), "4.2561");
    assert_eq!(format_fixed_point(0, 4), "0.0000");
    assert_eq!(format_fixed_point(1, 4), "0.0001");
    assert_eq!(format_fixed_point(-12345, 2), "-123.45");
    assert_eq!(format_fixed_point(5, 0), "5");
    assert_eq!(format_fixed_point(-5, 0), "-5");
    assert_eq!(
        format_fixed_point(i64::MAX as i128, 0),
        "9223372036854775807"
    );
}

#[test]
fn forecast_message_is_reproducible() {
    // Mantissas at four decimal places: 4.2561 -> 4.3841 is +3.0075...%,
    // which truncates to 3.00 and clears the 2% threshold.
    let f = make_forecast(
        "DOTUSDT".to_string(),
        "2024-01-01 00:00:00 UTC".to_string(),
        42561,
        43841,
        200,
    )
    .unwrap();
    let msg = format_forecast_message(&f, 4);
    assert_eq!(
        msg,
        "*ML Forecast for #DOTUSDT*\n\
         Time: 2024-01-01 00:00:00 UTC\n\
         Current Price: 4.2561\n\
         Next Price: 4.3841\n\
         Change: 3.00%\n\
         Signal: *Buy*"
    );
}

#[test]
fn forecast_message_negative_change() {
    // 100.0000 -> 97.0000 is exactly -3.00%, a Sell at a 2% threshold.
    let f = make_forecast(
        "BTCUSDT".to_string(),
        "2024-06-30 12:00:00 UTC".to_string(),
        1000000,
        970000,
        200,
    )
    .unwrap();
    let msg = format_forecast_message(&f, 4);
    assert_eq!(
        msg,
        "*ML Forecast for #BTCUSDT*\n\
         Time: 2024-06-30 12:00:00 UTC\n\
         Current Price: 100.0000\n\
         Next Price: 97.0000\n\
         Change: -3.00%\n\
         Signal: *Sell*"
    );
}
