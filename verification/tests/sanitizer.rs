use kline_store::sanitizer::CsvSanitizer;
use kline_store::sanitizer::SanitizeError;
use kline_store::sanitizer::header_record;
use kline_store::sanitizer::parse_records;
use kline_store::sanitizer::write_records;
use kline_store::text::replace_all;
use kline_store::text::to_upper;
use kline_store::text::two_digits;
use kline_store::text::four_digits;

const HEADER_LINE: &str = "open_time,open,high,low,close,volume,close_time,quote_volume,count,taker_buy_volume,taker_buy_quote_volume,ignore";

fn row(n: u32) -> String {
    format!("{n},1.0,2.0,0.5,1.5,10.0,{m},15.0,3,4.0,6.0,0", n = n, m = n + 59999)
}

#[test]
fn a_wrong_extension_is_refused() {
    let s = CsvSanitizer::new();
    assert_eq!(
        s.run("data/BTCUSDT-1m-2023-04.txt", "a,b\n"),
        Err(SanitizeError::NotCsv)
    );
    assert_eq!(s.run("no_extension", "a,b\n"), Err(SanitizeError::NotCsv));
    assert_eq!(s.run(".csv", "a,b\n"), Err(SanitizeError::NotCsv));
    assert_eq!(s.run("dir/.csv", "a,b\n"), Err(SanitizeError::NotCsv));
}

#[test]
fn an_empty_file_is_refused() {
    let s = CsvSanitizer::new();
    assert_eq!(s.run("a.csv", ""), Err(SanitizeError::EmptyInput));
    assert_eq!(s.run("a.csv", "\n\n\r\n"), Err(SanitizeError::EmptyInput));
}

#[test]
fn a_headerless_file_gets_the_canonical_header_prepended() {
    let s = CsvSanitizer::new();
    let r1 = row(1000);
    let r2 = row(61000);
    let text = format!("{r1}\n{r2}\n");
    let repaired = s.run("a.csv", &text).unwrap();
    assert_eq!(repaired, format!("{HEADER_LINE}\n{r1}\n{r2}\n"));
}

#[test]
fn a_correct_header_is_kept_once() {
    let s = CsvSanitizer::new();
    let r1 = row(1000);
    let text = format!("{HEADER_LINE}\n{r1}\n");
    let repaired = s.run("a.csv", &text).unwrap();
    assert_eq!(repaired, text);
}

#[test]
fn records_of_the_wrong_arity_are_dropped() {
    let s = CsvSanitizer::new();
    let good = row(1000);
    let text = format!("{HEADER_LINE}\n{good}\nonly,three,cells\n1,2,3,4,5,6,7,8,9,10,11,12,13\n");
    let repaired = s.run("a.csv", &text).unwrap();
    assert_eq!(repaired, format!("{HEADER_LINE}\n{good}\n"));
}

#[test]
fn repair_is_idempotent_byte_for_byte() {
    let s = CsvSanitizer::new();
    let cases = [
        format!("{}\n{}\n", row(1000), row(61000)),
        format!("{HEADER_LINE}\n{}", row(1000)),
        format!("{HEADER_LINE}\r\n{}\r\n\r\nbad,row\r\n", row(1000)),
        String::from("one,lone,row"),
    ];
    for text in cases {
        let once = s.run("a.csv", &text).unwrap();
        let twice = s.run("a.csv", &once).unwrap();
        assert_eq!(once, twice);
    }
}

#[test]
fn parsing_splits_lines_and_fields() {
    let records = parse_records("a,b\nc\n\nd,e,f\r\ng");
    let expected: Vec<Vec<String>> = vec![
        vec!["a".into(), "b".into()],
        vec!["c".into()],
        vec!["d".into(), "e".into(), "f".into()],
        vec!["g".into()],
    ];
    assert_eq!(records, expected);
}

#[test]
fn rendering_joins_fields_and_terminates_records() {
    let records: Vec<Vec<String>> = vec![
        vec!["a".into(), "b".into()],
        vec!["c".into(), "".into(), "d".into()],
    ];
    assert_eq!(write_records(&records), "a,b\nc,,d\n");
}

#[test]
fn the_canonical_header_has_twelve_columns() {
    let h = header_record();
    assert_eq!(h.len(), 12);
    assert_eq!(h[0], "open_time");
    assert_eq!(h[11], "ignore");
    assert_eq!(h.join(","), HEADER_LINE);
}

#[test]
fn text_helpers_compute_exactly() {
    assert_eq!(to_upper("btc_usdt-19!"), "BTC_USDT-19!");
    assert_eq!(to_upper("ALREADY"), "ALREADY");
    assert_eq!(replace_all("x[[S]]y[[S]]", "[[S]]", "Z"), "xZyZ");
    assert_eq!(replace_all("aaa", "aa", "b"), "ba");
    assert_eq!(replace_all("abc", "z", "y"), "abc");
    assert_eq!(two_digits(7), "07");
    assert_eq!(two_digits(42), "42");
    assert_eq!(four_digits(987), "0987");
    assert_eq!(four_digits(2023), "2023");
}
