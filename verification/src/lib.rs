//! A verified core for an OHLCV price-forecasting pipeline.
//!
//! Raw candle data comes in as fixed-point integer mantissas (the scale is
//! the caller's convention; every transform here is either linear in the
//! mantissas or a ratio of them, so no scale factor appears in the library).
//! The library builds a feature table with rolling statistics, prepares
//! labeled training examples and an inference vector for a regression model,
//! and turns a predicted price into a buy/sell/hold signal. All arithmetic is
//! exact: derived quantities that are ratios are kept as numerator and
//! denominator pairs.

pub mod candle;
pub mod dataset;
pub mod error;
pub mod features;
pub mod forecast;
pub mod frac;
pub mod parse;
pub mod render;
pub mod signal;
