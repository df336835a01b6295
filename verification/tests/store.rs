use kline_store::calendar::Date;
use kline_store::config::DataConfig;
use kline_store::config::RawDataConfig;
use kline_store::decimal::parse_cell;
use kline_store::sanitizer::DataFrameSanitizer;
use kline_store::sanitizer::parse_records;
use kline_store::sources::EventSourceOptions;
use kline_store::sources::StoreEventSource;
use kline_store::store::Bar;
use kline_store::store::BuildError;
use kline_store::store::DataStore;
use kline_store::store::ResampleError;
use kline_store::store::SyncAction;
use kline_store::store::Table;
use kline_store::store::bucket_starts;
use kline_store::store::build_bars;
use kline_store::store::duration_ms;
use kline_store::store::resample;
use kline_store::store::return_operands;
use kline_store::types::AssetCategory;
use kline_store::types::Symbol;

const ONE: i128 = 100000000;

fn raw_config() -> RawDataConfig {
    RawDataConfig {
        base_raw_dir: String::from("data/raw"),
        base_store_dir: String::from("data/store"),
        spot_info_uri: String::new(),
        usdm_info_uri: String::new(),
        coinm_info_uri: String::new(),
        spot_klines_uri: String::new(),
        usdm_klines_uri: String::new(),
        coinm_klines_uri: String::new(),
        spot_hist_klines_monthly_uri: String::new(),
        usdm_hist_klines_monthly_uri: String::new(),
        coinm_hist_klines_monthly_uri: String::new(),
        spot_hist_klines_daily_uri: String::new(),
        usdm_hist_klines_daily_uri: String::new(),
        coinm_hist_klines_daily_uri: String::new(),
        download_file_format: String::from("[[Symbol]]-[[Timeframe]]-[[Date]].zip"),
        date_format_monthly: String::from("%Y-%m"),
        date_format_daily: String::from("%Y-%m-%d"),
        default_timeframes: vec![String::from("2m")],
    }
}

fn bar(open_time: i64, open: f64, high: f64, low: f64, close: f64, volume: f64) -> Bar {
    let c = |v: f64| (v * 1e8) as i128;
    Bar {
        open_time,
        open: c(open),
        high: c(high),
        low: c(low),
        close: c(close),
        volume: c(volume),
        close_time: (open_time as i128 + 59999) * ONE,
        quote_volume: c(volume * close),
        count: 3 * ONE,
        taker_buy_volume: c(volume / 2.0),
        taker_buy_quote_volume: c(volume * close / 2.0),
        ignore: 0,
    }
}

#[test]
fn cells_parse_exactly_or_not_at_all() {
    assert_eq!(parse_cell("1.5"), Some(150000000));
    assert_eq!(parse_cell("-3.25"), Some(-325000000));
    assert_eq!(parse_cell("0"), Some(0));
    assert_eq!(parse_cell("16541.70000000"), Some(1654170000000));
    assert_eq!(parse_cell("0.00000001"), Some(1));
    assert_eq!(parse_cell(""), None);
    assert_eq!(parse_cell("-"), None);
    assert_eq!(parse_cell("1."), None);
    assert_eq!(parse_cell(".5"), None);
    assert_eq!(parse_cell("1.123456789"), None);
    assert_eq!(parse_cell("abc"), None);
    assert_eq!(parse_cell("1,5"), None);
    assert_eq!(parse_cell("1.2.3"), None);
}

#[test]
fn typed_load_skips_the_header_and_drops_missing_rows() {
    let text = "open_time,open,high,low,close,volume,close_time,quote_volume,count,taker_buy_volume,taker_buy_quote_volume,ignore\n\
        1577836800,1.0,2.0,0.5,1.5,10.0,1577836859999,15.0,3,4.0,6.0,0\n\
        1577836860000,2.0,3.0,1.0,2.5,20.0,1577836919999,50.0,5,8.0,20.0,0\n\
        1577836920000,2.0,3.0,1.0,,20.0,1577836979999,50.0,5,8.0,20.0,0\n";
    let records = parse_records(text);
    let bars = DataFrameSanitizer::new().run(&records);
    assert_eq!(bars.len(), 2);
    // a ten-digit timestamp is seconds and is scaled to milliseconds
    assert_eq!(bars[0].open_time, 1577836800000);
    assert_eq!(bars[1].open_time, 1577836860000);
    assert_eq!(bars[0].open, ONE);
    assert_eq!(bars[1].close, 25 * ONE / 10);
}

#[test]
fn build_refuses_no_data_and_disorder() {
    assert_eq!(build_bars(&vec![]), Err(BuildError::NoData));
    let a = bar(0, 1.0, 1.0, 1.0, 1.0, 1.0);
    let b = bar(60000, 1.0, 1.0, 1.0, 1.0, 1.0);
    assert_eq!(build_bars(&vec![vec![b, a]]), Err(BuildError::OutOfOrder));
    assert_eq!(build_bars(&vec![vec![a], vec![a]]), Err(BuildError::OutOfOrder));
    let rows = build_bars(&vec![vec![a], vec![b]]).unwrap();
    assert_eq!(rows, vec![a, b]);
}

#[test]
fn return_operands_shift_the_close_with_a_unit_boundary() {
    let closes = [1.0, 2.0, 1.5, 3.5, 1.5];
    let bars: Vec<Bar> = closes
        .iter()
        .enumerate()
        .map(|(i, c)| bar(60000 * i as i64, *c, *c, *c, *c, 1.0))
        .collect();
    let ops = return_operands(&bars);
    let cell = |v: f64| (v * 1e8) as i128;
    assert_eq!(
        ops,
        vec![
            (cell(1.0), ONE),
            (cell(2.0), cell(1.0)),
            (cell(1.5), cell(2.0)),
            (cell(3.5), cell(1.5)),
            (cell(1.5), cell(3.5)),
        ]
    );
}

#[test]
fn tables_validate_their_parts() {
    let a = bar(0, 1.0, 1.0, 1.0, 1.0, 1.0);
    let b = bar(60000, 1.0, 1.0, 1.0, 1.0, 1.0);
    assert!(matches!(
        Table::new(vec![a, b], vec![1], vec![1, 2]),
        Err(BuildError::InvalidTable)
    ));
    assert!(matches!(
        Table::new(vec![b, a], vec![1, 2], vec![1, 2]),
        Err(BuildError::InvalidTable)
    ));
    let t = Table::new(vec![a, b], vec![10, 20], vec![30, 40]).unwrap();
    assert_eq!(t.bars.len(), 2);
}

#[test]
fn timeframes_parse_to_fixed_widths() {
    assert_eq!(duration_ms("5m"), Some(300000));
    assert_eq!(duration_ms("1h"), Some(3600000));
    assert_eq!(duration_ms("30s"), Some(30000));
    assert_eq!(duration_ms("2d"), Some(172800000));
    assert_eq!(duration_ms("1w"), Some(604800000));
    assert_eq!(duration_ms("1mo"), None);
    assert_eq!(duration_ms("m"), None);
    assert_eq!(duration_ms("5"), None);
    assert_eq!(duration_ms(""), None);
}

#[test]
fn two_bars_merge_into_one_bucket() {
    let a = bar(0, 10.0, 12.0, 9.0, 11.0, 5.0);
    let b = bar(60000, 11.0, 15.0, 10.5, 14.0, 7.0);
    let t = Table::new(vec![a, b], vec![101, 102], vec![201, 202]).unwrap();
    let starts = bucket_starts(&t.bars, 120000);
    assert_eq!(starts, vec![0]);
    let out = resample(&t, 120000, &vec![999]).unwrap();
    assert_eq!(out.len(), 1);
    let o = &out[0];
    assert_eq!(o.open_time, 0);
    assert_eq!(o.open, a.open);
    assert_eq!(o.close, b.close);
    assert_eq!(o.high, b.high);
    assert_eq!(o.low, a.low);
    assert_eq!(o.volume, a.volume + b.volume);
    assert_eq!(o.quote_volume, a.quote_volume + b.quote_volume);
    assert_eq!(o.count, a.count + b.count);
    assert_eq!(o.taker_buy_volume, a.taker_buy_volume + b.taker_buy_volume);
    assert_eq!(
        o.taker_buy_quote_volume,
        a.taker_buy_quote_volume + b.taker_buy_quote_volume
    );
    assert_eq!(o.log_return, 999);
    assert_eq!(o.cum_return, 202);
}

#[test]
fn buckets_are_left_closed_with_zero_offset() {
    let bars = vec![
        bar(0, 1.0, 1.0, 1.0, 1.0, 1.0),
        bar(60000, 2.0, 2.0, 2.0, 2.0, 1.0),
        bar(120000, 3.0, 3.0, 3.0, 3.0, 1.0),
        bar(300000, 4.0, 4.0, 4.0, 4.0, 1.0),
    ];
    let t = Table::new(bars, vec![0; 4], vec![1, 2, 3, 4]).unwrap();
    let starts = bucket_starts(&t.bars, 120000);
    assert_eq!(starts, vec![0, 2, 3]);
    let out = resample(&t, 120000, &vec![7, 8, 9]).unwrap();
    assert_eq!(out.len(), 3);
    assert_eq!(out[0].open_time, 0);
    assert_eq!(out[1].open_time, 120000);
    assert_eq!(out[2].open_time, 240000);
    assert_eq!(out[0].cum_return, 2);
    assert_eq!(out[1].cum_return, 3);
    assert_eq!(out[2].cum_return, 4);
}

#[test]
fn resample_refuses_bad_widths_and_mismatched_returns() {
    let a = bar(0, 1.0, 1.0, 1.0, 1.0, 1.0);
    let t = Table::new(vec![a], vec![0], vec![0]).unwrap();
    assert_eq!(resample(&t, 0, &vec![]), Err(ResampleError::NonPositiveWidth));
    assert_eq!(resample(&t, -5, &vec![]), Err(ResampleError::NonPositiveWidth));
    assert_eq!(resample(&t, 60000, &vec![]), Err(ResampleError::MismatchedReturns));
    assert_eq!(resample(&t, 60000, &vec![1, 2]), Err(ResampleError::MismatchedReturns));
    assert!(resample(&t, 60000, &vec![1]).is_ok());
}

#[test]
fn store_artifacts_are_named_deterministically() {
    let store = DataStore::new(DataConfig::new(raw_config(), AssetCategory::Usdm));
    assert_eq!(store.store_name_for("BTCUSDT", None), "BTCUSDT.parquet");
    assert_eq!(store.store_name_for("BTCUSDT", Some("5m")), "BTCUSDT-5m.parquet");
    assert_eq!(
        store.store_path_for("BTCUSDT", None),
        "data/store/um/BTCUSDT/BTCUSDT.parquet"
    );
    assert_eq!(
        store.store_path_for("BTCUSDT", Some("1h")),
        "data/store/um/BTCUSDT/BTCUSDT-1h.parquet"
    );
}

#[test]
fn a_present_store_is_read_back_not_rebuilt() {
    let store = DataStore::new(DataConfig::new(raw_config(), AssetCategory::Spot));
    assert_eq!(store.sync_action(true), SyncAction::ReadBack);
    assert_eq!(store.sync_action(false), SyncAction::BuildStore);
}

#[test]
fn symbols_sync_in_name_order() {
    let store = DataStore::new(DataConfig::new(raw_config(), AssetCategory::Spot));
    let d = Date { year: 2020, month: 1, day: 1 };
    let sym = |n: &str| Symbol { name: String::from(n), initdate: d };
    let sorted = store.sync_order(vec![sym("ETHUSDT"), sym("BTCUSDT"), sym("ADAUSDT"), sym("BTCUSDT")]);
    let names: Vec<&str> = sorted.iter().map(|s| s.name.as_str()).collect();
    assert_eq!(names, vec!["ADAUSDT", "BTCUSDT", "BTCUSDT", "ETHUSDT"]);
}

#[test]
fn replay_windows_walk_the_table_with_a_lookback() {
    let source = StoreEventSource::new(
        DataConfig::new(raw_config(), AssetCategory::Spot),
        EventSourceOptions { symbol: String::from("BTCUSDT"), timeframe: Some(String::from("5m")) },
    );
    assert_eq!(source.replay_windows(5, 2), vec![(0, 2), (1, 2), (2, 2)]);
    assert_eq!(source.replay_windows(2, 2), Vec::<(usize, usize)>::new());
    assert_eq!(source.replay_windows(1, 2), Vec::<(usize, usize)>::new());
}
