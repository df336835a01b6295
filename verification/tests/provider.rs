use kline_store::calendar::Timeperiod;
use kline_store::config::DataConfig;
use kline_store::config::RawDataConfig;
use kline_store::datetime::create_utc;
use kline_store::provider::DataProvider;
use kline_store::provider::FetchOutcome;
use kline_store::provider::FetchStep;
use kline_store::provider::SymbolsProvider;
use kline_store::provider::fetch_run;
use kline_store::provider::format_date;
use kline_store::types::AssetCategory;

fn raw_config() -> RawDataConfig {
    RawDataConfig {
        base_raw_dir: String::from("data/raw"),
        base_store_dir: String::from("data/store"),
        spot_info_uri: String::from("https://api.example.test/spot/info"),
        usdm_info_uri: String::from("https://api.example.test/um/info"),
        coinm_info_uri: String::from("https://api.example.test/cm/info"),
        spot_klines_uri: String::from("https://api.example.test/spot/klines"),
        usdm_klines_uri: String::from("https://api.example.test/um/klines"),
        coinm_klines_uri: String::from("https://api.example.test/cm/klines"),
        spot_hist_klines_monthly_uri: String::from("https://data.example.test/spot/monthly/klines/"),
        usdm_hist_klines_monthly_uri: String::from("https://data.example.test/um/monthly/klines/"),
        coinm_hist_klines_monthly_uri: String::from("https://data.example.test/cm/monthly/klines/"),
        spot_hist_klines_daily_uri: String::from("https://data.example.test/spot/daily/klines/"),
        usdm_hist_klines_daily_uri: String::from("https://data.example.test/um/daily/klines/"),
        coinm_hist_klines_daily_uri: String::from("https://data.example.test/cm/daily/klines/"),
        download_file_format: String::from("[[Symbol]]-[[Timeframe]]-[[Date]].zip"),
        date_format_monthly: String::from("%Y-%m"),
        date_format_daily: String::from("%Y-%m-%d"),
        default_timeframes: vec![String::from("5m"), String::from("1h")],
    }
}

fn create_provider() -> DataProvider {
    let config = DataConfig::new(raw_config(), AssetCategory::Spot);
    DataProvider::new(config, AssetCategory::Spot)
}

#[test]
fn test_monthly_dates_for() {
    let provider = create_provider();
    let fromdate = create_utc(2021, 10, 10);
    let todate = create_utc(2022, 2, 20);
    let dates = provider
        .dates_for(&fromdate, &todate, &Timeperiod::Monthly)
        .unwrap();

    assert_eq!(5, dates.len());
    assert_eq!(create_utc(2021, 10, 1), dates[0]);
    assert_eq!(create_utc(2021, 11, 1), dates[1]);
    assert_eq!(create_utc(2021, 12, 1), dates[2]);
    assert_eq!(create_utc(2022, 1, 1), dates[3]);
    assert_eq!(create_utc(2022, 2, 1), dates[4]);
}

#[test]
fn test_daily_dates_for() {
    let provider = create_provider();
    let fromdate = create_utc(2023, 4, 29);
    let todate = create_utc(2023, 5, 2);
    let dates = provider
        .dates_for(&fromdate, &todate, &Timeperiod::Daily)
        .unwrap();

    assert_eq!(4, dates.len());
    assert_eq!(create_utc(2023, 4, 29), dates[0]);
    assert_eq!(create_utc(2023, 4, 30), dates[1]);
    assert_eq!(create_utc(2023, 5, 1), dates[2]);
    assert_eq!(create_utc(2023, 5, 2), dates[3]);
}

#[test]
fn test_monthly_file_name_for() {
    let provider = create_provider();
    let date = create_utc(2023, 4, 1);
    let file_name = provider.file_name_for("btcusdt", &date, "%Y-%m");
    assert_eq!("BTCUSDT-1m-2023-04.zip", file_name);
}

#[test]
fn test_daily_file_name_for() {
    let provider = create_provider();
    let date = create_utc(2023, 4, 4);
    let file_name = provider.file_name_for("btcusdt", &date, "%Y-%m-%d");
    assert_eq!("BTCUSDT-1m-2023-04-04.zip", file_name);
}

#[test]
fn date_formats_expand_and_copy() {
    let d = create_utc(2023, 4, 4);
    assert_eq!(format_date(&d, "%Y-%m-%d"), "2023-04-04");
    assert_eq!(format_date(&d, "%Y"), "2023");
    assert_eq!(format_date(&d, "day %d of %m"), "day 04 of 04");
    assert_eq!(format_date(&d, "%x"), "%x");
    assert_eq!(format_date(&d, "%"), "%");
    assert_eq!(format_date(&create_utc(987, 12, 31), "%Y-%m-%d"), "0987-12-31");
}

#[test]
fn naming_is_deterministic() {
    let provider = create_provider();
    assert_eq!(
        provider.base_path_for("btcusdt", &Timeperiod::Monthly),
        "data/raw/spot/monthly/BTCUSDT"
    );
    assert_eq!(
        provider.base_path_for("ethusdt", &Timeperiod::Daily),
        "data/raw/spot/daily/ETHUSDT"
    );
    assert_eq!(
        provider.uri_for("https://data.example.test/spot/monthly/klines/", "BTCUSDT", "BTCUSDT-1m-2023-04.zip"),
        "https://data.example.test/spot/monthly/klines/BTCUSDT/1m/BTCUSDT-1m-2023-04.zip"
    );
    assert_eq!(
        provider.csv_path_for("btcusdt", &create_utc(2023, 4, 1), &Timeperiod::Monthly),
        "data/raw/spot/monthly/BTCUSDT/BTCUSDT-1m-2023-04.csv"
    );
}

#[test]
fn fetch_reads_locally_when_the_file_is_present() {
    let provider = create_provider();
    let date = create_utc(2023, 4, 1);
    match provider.fetch_step("BTCUSDT", &date, &Timeperiod::Monthly, true) {
        FetchStep::UseLocal => {}
        FetchStep::Download(_) => panic!("a present partition must not be downloaded"),
    }
    match provider.fetch_step("BTCUSDT", &date, &Timeperiod::Monthly, false) {
        FetchStep::UseLocal => panic!("an absent partition must be downloaded"),
        FetchStep::Download(uri) => assert_eq!(
            uri,
            "https://data.example.test/spot/monthly/klines/BTCUSDT/1m/BTCUSDT-1m-2023-04.zip"
        ),
    }
}

#[test]
fn fetch_outcomes_cover_the_taxonomy() {
    let hit = fetch_run(true, false, false, false);
    assert_eq!(hit.outcome, FetchOutcome::AlreadyPresent);
    assert!(!hit.downloaded);
    assert!(hit.present_after);

    let transport = fetch_run(false, false, false, false);
    assert_eq!(transport.outcome, FetchOutcome::Failed);
    assert!(transport.downloaded);
    assert!(!transport.present_after);

    let not_found = fetch_run(false, true, false, false);
    assert_eq!(not_found.outcome, FetchOutcome::Skipped);
    assert!(!not_found.present_after);

    let extraction = fetch_run(false, true, true, false);
    assert_eq!(extraction.outcome, FetchOutcome::Failed);

    let fetched = fetch_run(false, true, true, true);
    assert_eq!(fetched.outcome, FetchOutcome::Fetched);
    assert!(fetched.present_after);

    // idempotency: the run after a successful fetch downloads nothing
    let again = fetch_run(fetched.present_after, true, true, true);
    assert_eq!(again.outcome, FetchOutcome::AlreadyPresent);
    assert!(!again.downloaded);
}

#[test]
fn full_sync_plan_covers_history_and_the_current_month() {
    let provider = create_provider();
    let onboard = create_utc(2020, 1, 1);
    let today = create_utc(2020, 3, 15);
    let plan = provider.sync_plan(&onboard, &today);
    assert_eq!(plan.monthly, vec![create_utc(2020, 1, 1), create_utc(2020, 2, 1)]);
    assert_eq!(plan.daily.len(), 14);
    assert_eq!(plan.daily[0], create_utc(2020, 3, 1));
    assert_eq!(plan.daily[13], create_utc(2020, 3, 14));
}

#[test]
fn sync_plan_on_the_first_of_a_month_has_no_daily_tail() {
    let provider = create_provider();
    let plan = provider.sync_plan(&create_utc(2020, 1, 1), &create_utc(2020, 3, 1));
    assert_eq!(plan.monthly, vec![create_utc(2020, 1, 1)]);
    assert!(plan.daily.is_empty());
}

#[test]
fn sync_plan_of_a_fresh_symbol_has_no_monthly_partitions() {
    let provider = create_provider();
    let plan = provider.sync_plan(&create_utc(2020, 3, 10), &create_utc(2020, 3, 15));
    assert!(plan.monthly.is_empty());
    assert_eq!(plan.daily.len(), 14);
}

#[test]
fn onboarding_dates_normalize_or_fall_back() {
    let config = DataConfig::new(raw_config(), AssetCategory::Usdm);
    let symbols = SymbolsProvider::new(config, AssetCategory::Usdm);
    assert_eq!(symbols.initdate_for(None), Some(create_utc(2017, 1, 1)));
    // seconds and milliseconds land on the same day
    assert_eq!(symbols.initdate_for(Some(1577836800)), Some(create_utc(2020, 1, 1)));
    assert_eq!(symbols.initdate_for(Some(1577836800000)), Some(create_utc(2020, 1, 1)));
    assert_eq!(symbols.initdate_for(Some(-1)), None);
}

#[test]
fn config_selects_the_category_uris() {
    let spot = DataConfig::new(raw_config(), AssetCategory::Spot);
    assert_eq!(spot.info_uri, "https://api.example.test/spot/info");
    assert_eq!(spot.hist_klines_daily_uri, "https://data.example.test/spot/daily/klines/");
    let coinm = DataConfig::new(raw_config(), AssetCategory::Coinm);
    assert_eq!(coinm.info_uri, "https://api.example.test/cm/info");
    assert_eq!(coinm.hist_klines_monthly_uri, "https://data.example.test/cm/monthly/klines/");
    assert_eq!(coinm.base_raw_dir, "data/raw");
    assert_eq!(coinm.default_timeframes, vec![String::from("5m"), String::from("1h")]);
}

#[test]
fn categories_map_to_segments_and_back() {
    assert_eq!(AssetCategory::Spot.as_str(), "spot");
    assert_eq!(AssetCategory::Usdm.as_str(), "um");
    assert_eq!(AssetCategory::Coinm.to_str(), "cm");
    assert!(AssetCategory::is_category("spot"));
    assert!(!AssetCategory::is_category("futures"));
    assert_eq!(AssetCategory::as_value("um"), AssetCategory::Usdm);
    assert_eq!(AssetCategory::by_str("cm"), AssetCategory::Coinm);
}
