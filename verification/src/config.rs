//! The configuration surface: the raw per-category settings as they arrive
//! from the configuration file, and the per-instance view a provider or
//! store works with.

use vstd::prelude::*;
use crate::types::AssetCategory;

verus! {

/// The full configuration as loaded: per-category URIs side by side, plus
/// the shared directories, naming templates and resample timeframes. Reading
/// and decoding the configuration file is the caller's concern; this type
/// only holds its plain values.
pub struct RawDataConfig {
    pub base_raw_dir: String,
    pub base_store_dir: String,
    pub spot_info_uri: String,
    pub usdm_info_uri: String,
    pub coinm_info_uri: String,
    pub spot_klines_uri: String,
    pub usdm_klines_uri: String,
    pub coinm_klines_uri: String,
    pub spot_hist_klines_monthly_uri: String,
    pub usdm_hist_klines_monthly_uri: String,
    pub coinm_hist_klines_monthly_uri: String,
    pub spot_hist_klines_daily_uri: String,
    pub usdm_hist_klines_daily_uri: String,
    pub coinm_hist_klines_daily_uri: String,
    pub download_file_format: String,
    pub date_format_monthly: String,
    pub date_format_daily: String,
    pub default_timeframes: Vec<String>,
}

/// The configuration one provider or store instance works with: the shared
/// settings plus the URIs of its own asset category.
#[derive(Clone)]
pub struct DataConfig {
    pub asset_cat: AssetCategory,
    pub base_raw_dir: String,
    pub base_store_dir: String,
    pub info_uri: String,
    pub klines_uri: String,
    pub hist_klines_monthly_uri: String,
    pub hist_klines_daily_uri: String,
    pub download_file_format: String,
    pub date_format_monthly: String,
    pub date_format_daily: String,
    pub default_timeframes: Vec<String>,
}

impl DataConfig {
    /// Selects the URIs of `asset_cat` out of the raw configuration and
    /// carries the shared settings over unchanged.
    pub fn new(rawc: RawDataConfig, asset_cat: AssetCategory) -> (c: DataConfig)
        ensures
            c.asset_cat == asset_cat,
            c.base_raw_dir == rawc.base_raw_dir,
            c.base_store_dir == rawc.base_store_dir,
            c.info_uri == (match asset_cat {
                AssetCategory::Spot => rawc.spot_info_uri,
                AssetCategory::Usdm => rawc.usdm_info_uri,
                AssetCategory::Coinm => rawc.coinm_info_uri,
            }),
            c.klines_uri == (match asset_cat {
                AssetCategory::Spot => rawc.spot_klines_uri,
                AssetCategory::Usdm => rawc.usdm_klines_uri,
                AssetCategory::Coinm => rawc.coinm_klines_uri,
            }),
            c.hist_klines_monthly_uri == (match asset_cat {
                AssetCategory::Spot => rawc.spot_hist_klines_monthly_uri,
                AssetCategory::Usdm => rawc.usdm_hist_klines_monthly_uri,
                AssetCategory::Coinm => rawc.coinm_hist_klines_monthly_uri,
            }),
            c.hist_klines_daily_uri == (match asset_cat {
                AssetCategory::Spot => rawc.spot_hist_klines_daily_uri,
                AssetCategory::Usdm => rawc.usdm_hist_klines_daily_uri,
                AssetCategory::Coinm => rawc.coinm_hist_klines_daily_uri,
            }),
            c.download_file_format == rawc.download_file_format,
            c.date_format_monthly == rawc.date_format_monthly,
            c.date_format_daily == rawc.date_format_daily,
            c.default_timeframes == rawc.default_timeframes,
    {
        let RawDataConfig {
            base_raw_dir,
            base_store_dir,
            spot_info_uri,
            usdm_info_uri,
            coinm_info_uri,
            spot_klines_uri,
            usdm_klines_uri,
            coinm_klines_uri,
            spot_hist_klines_monthly_uri,
            usdm_hist_klines_monthly_uri,
            coinm_hist_klines_monthly_uri,
            spot_hist_klines_daily_uri,
            usdm_hist_klines_daily_uri,
            coinm_hist_klines_daily_uri,
            download_file_format,
            date_format_monthly,
            date_format_daily,
            default_timeframes,
        } = rawc;
        let (info_uri, klines_uri, hist_klines_monthly_uri, hist_klines_daily_uri) =
            match asset_cat {
            AssetCategory::Spot => (
                spot_info_uri,
                spot_klines_uri,
                spot_hist_klines_monthly_uri,
                spot_hist_klines_daily_uri,
            ),
            AssetCategory::Usdm => (
                usdm_info_uri,
                usdm_klines_uri,
                usdm_hist_klines_monthly_uri,
                usdm_hist_klines_daily_uri,
            ),
            AssetCategory::Coinm => (
                coinm_info_uri,
                coinm_klines_uri,
                coinm_hist_klines_monthly_uri,
                coinm_hist_klines_daily_uri,
            ),
        };
        DataConfig {
            asset_cat,
            base_raw_dir,
            base_store_dir,
            info_uri,
            klines_uri,
            hist_klines_monthly_uri,
            hist_klines_daily_uri,
            download_file_format,
            date_format_monthly,
            date_format_daily,
            default_timeframes,
        }
    }
}

} // verus!
