//! Verified core of an OHLCV market-data store: calendar partitioning of a
//! symbol's history, idempotent fetch planning, structural CSV repair, and the
//! merge/clean/resample pipeline that turns raw per-partition bar files into
//! canonical and resampled time-series tables.

pub mod calendar;
pub mod config;
pub mod datetime;
pub mod decimal;
pub mod provider;
pub mod sanitizer;
pub mod sources;
pub mod store;
pub mod text;
pub mod types;

pub use config::DataConfig;
pub use types::AssetCategory;
