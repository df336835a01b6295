//! The time-series store: typed bars parsed from repaired records, the
//! merge/clean step that builds one canonical, strictly time-ordered table
//! per symbol, its derived-return bookkeeping, the timeframe resampling, and
//! the store's deterministic artifact naming.

use vstd::prelude::*;
use vstd::string::StrSliceExecFns;
use crate::decimal::spec_cell_value;
use crate::decimal::parse_cell;
use crate::decimal::all_digits;
use crate::decimal::digits_val;
use crate::decimal::pow10;
use crate::datetime::spec_normalize_epoch;

verus! {

/// One bar at base granularity: the open-time instant in epoch milliseconds
/// and the eleven remaining exchange columns as exact cell values.
#[derive(Clone, Copy, PartialEq, Eq, Structural, Debug)]
pub struct Bar {
    pub open_time: i64,
    pub open: i128,
    pub high: i128,
    pub low: i128,
    pub close: i128,
    pub volume: i128,
    pub close_time: i128,
    pub quote_volume: i128,
    pub count: i128,
    pub taker_buy_volume: i128,
    pub taker_buy_quote_volume: i128,
    pub ignore: i128,
}

/// The epoch value of a timestamp cell: one to eighteen plain digits.
/// Anything else — signs, fractions, or an overlong run — is a missing
/// value.
pub open spec fn spec_time_value(s: Seq<char>) -> Option<int> {
    if 1 <= s.len() <= 18 && all_digits(s) {
        Some(digits_val(s))
    } else {
        None
    }
}

/// Parses a timestamp cell.
fn parse_time(s: &str) -> (r: Option<i64>)
    ensures
        r is Some <==> spec_time_value(s@) is Some,
        r matches Some(v) ==> spec_time_value(s@) == Some(v as int),
{
    let n = s.unicode_len();
    if n < 1 || n > 18 {
        return None;
    }
    proof {
        assert(s@.subrange(0, n as int) =~= s@);
    }
    match crate::decimal::digits_val_exec(s, 0, n) {
        None => None,
        Some(v) => {
            proof {
                crate::decimal::lemma_pow10_monotone(n as nat, 18);
                crate::decimal::lemma_pow10_values();
            }
            Some(v as i64)
        },
    }
}

/// The bar of one twelve-field record: its timestamp normalized to
/// milliseconds and its cells parsed exactly; `None` when any cell is
/// missing or malformed, or the record has the wrong arity.
pub open spec fn spec_parse_bar(rec: Seq<Seq<char>>) -> Option<Bar> {
    if rec.len() == 12 && spec_time_value(rec[0]) is Some && spec_cell_value(rec[1]) is Some
        && spec_cell_value(rec[2]) is Some && spec_cell_value(rec[3]) is Some && spec_cell_value(
        rec[4],
    ) is Some && spec_cell_value(rec[5]) is Some && spec_cell_value(rec[6]) is Some
        && spec_cell_value(rec[7]) is Some && spec_cell_value(rec[8]) is Some && spec_cell_value(
        rec[9],
    ) is Some && spec_cell_value(rec[10]) is Some && spec_cell_value(rec[11]) is Some {
        Some(
            Bar {
                open_time: spec_normalize_epoch(spec_time_value(rec[0])->0) as i64,
                open: spec_cell_value(rec[1])->0 as i128,
                high: spec_cell_value(rec[2])->0 as i128,
                low: spec_cell_value(rec[3])->0 as i128,
                close: spec_cell_value(rec[4])->0 as i128,
                volume: spec_cell_value(rec[5])->0 as i128,
                close_time: spec_cell_value(rec[6])->0 as i128,
                quote_volume: spec_cell_value(rec[7])->0 as i128,
                count: spec_cell_value(rec[8])->0 as i128,
                taker_buy_volume: spec_cell_value(rec[9])->0 as i128,
                taker_buy_quote_volume: spec_cell_value(rec[10])->0 as i128,
                ignore: spec_cell_value(rec[11])->0 as i128,
            },
        )
    } else {
        None
    }
}

/// Parses one record into a bar; `None` stands for a row with missing
/// values.
pub fn parse_bar(rec: &Vec<String>) -> (r: Option<Bar>)
    ensures
        r == spec_parse_bar(rec.deep_view()),
{
    let ghost dv = rec.deep_view();
    if rec.len() != 12 {
        return None;
    }
    proof {
        assert(forall|i: int| 0 <= i < 12 ==> dv[i] == #[trigger] rec@[i]@);
    }
    let open_time = match parse_time(rec[0].as_str()) {
        None => {
            return None;
        },
        Some(t) => crate::datetime::from_timestamp(&t),
    };
    let open = match parse_cell(rec[1].as_str()) {
        None => {
            return None;
        },
        Some(v) => v,
    };
    let high = match parse_cell(rec[2].as_str()) {
        None => {
            return None;
        },
        Some(v) => v,
    };
    let low = match parse_cell(rec[3].as_str()) {
        None => {
            return None;
        },
        Some(v) => v,
    };
    let close = match parse_cell(rec[4].as_str()) {
        None => {
            return None;
        },
        Some(v) => v,
    };
    let volume = match parse_cell(rec[5].as_str()) {
        None => {
            return None;
        },
        Some(v) => v,
    };
    let close_time = match parse_cell(rec[6].as_str()) {
        None => {
            return None;
        },
        Some(v) => v,
    };
    let quote_volume = match parse_cell(rec[7].as_str()) {
        None => {
            return None;
        },
        Some(v) => v,
    };
    let count = match parse_cell(rec[8].as_str()) {
        None => {
            return None;
        },
        Some(v) => v,
    };
    let taker_buy_volume = match parse_cell(rec[9].as_str()) {
        None => {
            return None;
        },
        Some(v) => v,
    };
    let taker_buy_quote_volume = match parse_cell(rec[10].as_str()) {
        None => {
            return None;
        },
        Some(v) => v,
    };
    let ignore = match parse_cell(rec[11].as_str()) {
        None => {
            return None;
        },
        Some(v) => v,
    };
    Some(
        Bar {
            open_time,
            open,
            high,
            low,
            close,
            volume,
            close_time,
            quote_volume,
            count,
            taker_buy_volume,
            taker_buy_quote_volume,
            ignore,
        },
    )
}

/// The bars of a record list: each record parsed, rows with missing values
/// dropped.
pub open spec fn spec_clean_bars(recs: Seq<Seq<Seq<char>>>) -> Seq<Bar>
    decreases recs.len(),
{
    if recs.len() == 0 {
        Seq::<Bar>::empty()
    } else if spec_parse_bar(recs[0]) is Some {
        seq![spec_parse_bar(recs[0])->0] + spec_clean_bars(recs.skip(1))
    } else {
        spec_clean_bars(recs.skip(1))
    }
}

/// The typed rows of one repaired partition file: the header record skipped,
/// every data record parsed, rows with missing values dropped.
pub fn partition_bars(records: &Vec<Vec<String>>) -> (r: Vec<Bar>)
    ensures
        records.deep_view().len() >= 1 ==> r@ == spec_clean_bars(records.deep_view().skip(1)),
        records.deep_view().len() == 0 ==> r@.len() == 0,
{
    let ghost all = records.deep_view();
    let mut bars: Vec<Bar> = Vec::new();
    if records.len() == 0 {
        return bars;
    }
    let ghost data = all.skip(1);
    let mut i: usize = 1;
    assert(data.skip(0) =~~= data);
    assert(bars@ + spec_clean_bars(data) =~= spec_clean_bars(data));
    while i < records.len()
        invariant
            1 <= i <= records.len(),
            all == records.deep_view(),
            all.len() >= 1,
            data == all.skip(1),
            bars@ + spec_clean_bars(data.skip(i - 1)) == spec_clean_bars(data),
        decreases records.len() - i,
    {
        let ghost rest = data.skip(i - 1);
        proof {
            assert(rest[0] == all[i as int]);
            assert(rest.skip(1) =~~= data.skip(i as int));
        }
        let bar = parse_bar(&records[i]);
        assert(records[i as int].deep_view() == all[i as int]);
        match bar {
            Some(b) => {
                let ghost prev = bars@;
                bars.push(b);
                assert(bars@ =~= prev + seq![b]);
                assert(spec_clean_bars(rest) == seq![b] + spec_clean_bars(rest.skip(1)));
                assert(bars@ + spec_clean_bars(data.skip(i as int)) =~= prev + spec_clean_bars(
                    rest,
                ));
            },
            None => {
                assert(spec_clean_bars(rest) == spec_clean_bars(rest.skip(1)));
            },
        }
        i = i + 1;
    }
    assert(data.skip(records.len() - 1) =~~= Seq::<Seq<Seq<char>>>::empty());
    assert(bars@ + Seq::<Bar>::empty() =~= bars@);
    bars
}

/// Whether the bars are strictly increasing in open time: the canonical
/// table's hard invariant — time-ordered, no duplicate timestamps.
pub open spec fn sorted_strict(s: Seq<Bar>) -> bool {
    forall|i: int, j: int| 0 <= i < j < s.len() ==> s[i].open_time < s[j].open_time
}

/// The failures of a table build: no partition produced any batch, or the
/// concatenated batches violate the time-ordering invariant.
#[derive(Clone, Copy, PartialEq, Eq, Structural, Debug)]
pub enum BuildError {
    NoData,
    OutOfOrder,
    InvalidTable,
}

/// Proof that adjacent ordering is global ordering.
proof fn lemma_adjacent_sorted(s: Seq<Bar>, i: int, j: int)
    requires
        forall|k: int| 0 <= k < s.len() - 1 ==> #[trigger] s[k].open_time < s[k + 1].open_time,
        0 <= i < j < s.len(),
    ensures
        s[i].open_time < s[j].open_time,
    decreases j - i,
{
    if j > i + 1 {
        lemma_adjacent_sorted(s, i, j - 1);
        assert(s[j - 1].open_time < s[j].open_time);
    }
}

/// The row lists of a batch list.
pub open spec fn batch_views(batches: Seq<Vec<Bar>>) -> Seq<Seq<Bar>> {
    batches.map_values(|v: Vec<Bar>| v@)
}

/// Concatenates per-partition batches into one row list, in batch order.
pub fn concat_bars(batches: &Vec<Vec<Bar>>) -> (r: Vec<Bar>)
    ensures
        r@ == batch_views(batches@).flatten(),
{
    let ghost all = batch_views(batches@);
    let mut out: Vec<Bar> = Vec::new();
    let mut i: usize = 0;
    assert(all.skip(0) =~~= all);
    assert(out@ + all.flatten() =~= all.flatten());
    while i < batches.len()
        invariant
            i <= batches.len(),
            all == batch_views(batches@),
            out@ + all.skip(i as int).flatten() == all.flatten(),
        decreases batches.len() - i,
    {
        let ghost rest = all.skip(i as int);
        proof {
            assert(rest[0] == all[i as int]);
            assert(rest.drop_first() =~~= all.skip(i + 1));
            assert(rest.flatten() == rest.first() + rest.drop_first().flatten());
        }
        let ghost prev = out@;
        let batch = &batches[i];
        assert(batch@ == all[i as int]);
        let mut k: usize = 0;
        while k < batch.len()
            invariant
                k <= batch.len(),
                batch@ == all[i as int],
                out@ == prev + batch@.take(k as int),
            decreases batch.len() - k,
        {
            out.push(batch[k]);
            assert(batch@.take(k + 1) =~= batch@.take(k as int).push(batch@[k as int]));
            k = k + 1;
        }
        assert(batch@.take(batch.len() as int) =~= batch@);
        proof {
            assert(out@ + all.skip(i + 1).flatten() =~= prev + (rest.first()
                + rest.drop_first().flatten()));
        }
        i = i + 1;
    }
    assert(all.skip(batches.len() as int) =~~= Seq::<Seq<Bar>>::empty());
    assert(Seq::<Seq<Bar>>::empty().flatten() =~= Seq::<Bar>::empty());
    assert(out@ + Seq::<Bar>::empty() =~= out@);
    out
}

/// Builds the canonical row list of one symbol: concatenates the partition
/// batches in order and validates the hard time-ordering invariant. An empty
/// batch list means no partition produced data; a violation of the ordering
/// is refused rather than silently reordered.
pub fn build_bars(batches: &Vec<Vec<Bar>>) -> (r: Result<Vec<Bar>, BuildError>)
    ensures
        r matches Ok(v) ==> v@ == batch_views(batches@).flatten() && sorted_strict(v@),
        r matches Err(e) ==> (e == BuildError::NoData <==> batches@.len() == 0),
        r is Err <==> (batches@.len() == 0 || !sorted_strict(batch_views(batches@).flatten())),
{
    if batches.len() == 0 {
        return Err(BuildError::NoData);
    }
    let rows = concat_bars(batches);
    let n = rows.len();
    let mut k: usize = 0;
    while k + 1 < n
        invariant
            k <= n,
            n == rows@.len(),
            n >= 1 ==> k < n,
            batches@.len() > 0,
            rows@ == batch_views(batches@).flatten(),
            forall|t: int| 0 <= t < k ==> #[trigger] rows@[t].open_time < rows@[t + 1].open_time,
        decreases n - k,
    {
        if rows[k].open_time >= rows[k + 1].open_time {
            proof {
                assert(!sorted_strict(rows@));
            }
            return Err(BuildError::OutOfOrder);
        }
        k = k + 1;
    }
    proof {
        assert forall|i: int, j: int|
            0 <= i < j < rows@.len() implies rows@[i].open_time < rows@[j].open_time by {
            lemma_adjacent_sorted(rows@, i, j);
        }
    }
    Ok(rows)
}

/// The largest cell magnitude a table accepts; parsed cells stay well below
/// it, and it keeps every bucket sum inside the cell value's range.
pub const CELL_BOUND: i128 = 100000000000000000000000000000;

/// The largest row count a table accepts; it keeps every bucket sum inside
/// the cell value's range.
pub const MAX_ROWS: usize = 100000000;

/// Whether every cell of the bar is within the accepted magnitude.
pub open spec fn bar_bounded(b: Bar) -> bool {
    &&& -CELL_BOUND <= b.open <= CELL_BOUND
    &&& -CELL_BOUND <= b.high <= CELL_BOUND
    &&& -CELL_BOUND <= b.low <= CELL_BOUND
    &&& -CELL_BOUND <= b.close <= CELL_BOUND
    &&& -CELL_BOUND <= b.volume <= CELL_BOUND
    &&& -CELL_BOUND <= b.close_time <= CELL_BOUND
    &&& -CELL_BOUND <= b.quote_volume <= CELL_BOUND
    &&& -CELL_BOUND <= b.count <= CELL_BOUND
    &&& -CELL_BOUND <= b.taker_buy_volume <= CELL_BOUND
    &&& -CELL_BOUND <= b.taker_buy_quote_volume <= CELL_BOUND
    &&& -CELL_BOUND <= b.ignore <= CELL_BOUND
}

/// Whether every bar's cells are within the accepted magnitude.
pub open spec fn bars_bounded(s: Seq<Bar>) -> bool {
    forall|i: int| 0 <= i < s.len() ==> bar_bounded(#[trigger] s[i])
}

/// Whether every cell of the bar is within the accepted magnitude.
fn bar_bounded_exec(b: &Bar) -> (r: bool)
    ensures
        r == bar_bounded(*b),
{
    -CELL_BOUND <= b.open && b.open <= CELL_BOUND && -CELL_BOUND <= b.high && b.high <= CELL_BOUND
        && -CELL_BOUND <= b.low && b.low <= CELL_BOUND && -CELL_BOUND <= b.close && b.close
        <= CELL_BOUND && -CELL_BOUND <= b.volume && b.volume <= CELL_BOUND && -CELL_BOUND
        <= b.close_time && b.close_time <= CELL_BOUND && -CELL_BOUND <= b.quote_volume
        && b.quote_volume <= CELL_BOUND && -CELL_BOUND <= b.count && b.count <= CELL_BOUND
        && -CELL_BOUND <= b.taker_buy_volume && b.taker_buy_volume <= CELL_BOUND && -CELL_BOUND
        <= b.taker_buy_quote_volume && b.taker_buy_quote_volume <= CELL_BOUND && -CELL_BOUND
        <= b.ignore && b.ignore <= CELL_BOUND
}

/// The divisor pairs of the per-row log return: each row's close over the
/// close before it, the first row over one whole unit — the deliberate
/// boundary convention of the derived-column step.
pub fn return_operands(bars: &Vec<Bar>) -> (r: Vec<(i128, i128)>)
    ensures
        r@.len() == bars@.len(),
        forall|i: int|
            0 <= i < r@.len() ==> #[trigger] r@[i] == (
            bars@[i].close,
            if i == 0 {
                crate::decimal::CELL_ONE as i128
            } else {
                bars@[i - 1].close
            },
            ),
{
    let mut out: Vec<(i128, i128)> = Vec::new();
    let mut i: usize = 0;
    while i < bars.len()
        invariant
            i <= bars.len(),
            i == out@.len(),
            forall|k: int|
                0 <= k < i ==> #[trigger] out@[k] == (
                bars@[k].close,
                if k == 0 {
                    crate::decimal::CELL_ONE as i128
                } else {
                    bars@[k - 1].close
                },
                ),
        decreases bars.len() - i,
    {
        let prev: i128 = if i == 0 {
            crate::decimal::CELL_ONE
        } else {
            bars[i - 1].close
        };
        out.push((bars[i].close, prev));
        i = i + 1;
    }
    out
}

/// The canonical table of one symbol: its strictly time-ordered bars beside
/// the two derived return columns, which the store only carries — their
/// values come from the floating-point engine outside the library.
pub struct Table {
    pub bars: Vec<Bar>,
    pub log_returns: Vec<u64>,
    pub cum_returns: Vec<u64>,
}

/// What a well-formed table requires of its parts: one derived value per
/// row, the hard time-ordering invariant, non-negative time, and the size
/// and magnitude caps that keep resampling exact.
pub open spec fn spec_table_ok(bars: Seq<Bar>, log_returns: Seq<u64>, cum_returns: Seq<u64>)
    -> bool {
    &&& log_returns.len() == bars.len()
    &&& cum_returns.len() == bars.len()
    &&& sorted_strict(bars)
    &&& bars.len() <= MAX_ROWS
    &&& bars_bounded(bars)
    &&& (bars.len() > 0 ==> bars[0].open_time >= 0)
}

impl Table {
    /// A well-formed table.
    pub open spec fn wf(self) -> bool {
        spec_table_ok(self.bars@, self.log_returns@, self.cum_returns@)
    }

    /// A table from its parts, refused unless they satisfy every invariant
    /// of [`spec_table_ok`].
    pub fn new(bars: Vec<Bar>, log_returns: Vec<u64>, cum_returns: Vec<u64>) -> (r: Result<
        Table,
        BuildError,
    >)
        ensures
            r is Ok <==> spec_table_ok(bars@, log_returns@, cum_returns@),
            r matches Err(e) ==> e == BuildError::InvalidTable,
            r matches Ok(t) ==> t.bars@ == bars@ && t.log_returns@ == log_returns@
                && t.cum_returns@ == cum_returns@ && t.wf(),
    {
        if log_returns.len() != bars.len() || cum_returns.len() != bars.len() || bars.len()
            > MAX_ROWS {
            return Err(BuildError::InvalidTable);
        }
        if bars.len() > 0 && bars[0].open_time < 0 {
            return Err(BuildError::InvalidTable);
        }
        let n = bars.len();
        let mut k: usize = 0;
        while k < n
            invariant
                k <= n,
                n == bars@.len(),
                forall|t: int| 0 <= t < k ==> bar_bounded(#[trigger] bars@[t]),
                forall|t: int|
                    0 <= t < k && t + 1 < n ==> #[trigger] bars@[t].open_time < bars@[t
                        + 1].open_time,
            decreases n - k,
        {
            if !bar_bounded_exec(&bars[k]) {
                return Err(BuildError::InvalidTable);
            }
            if k + 1 < n && bars[k].open_time >= bars[k + 1].open_time {
                proof {
                    assert(!sorted_strict(bars@));
                }
                return Err(BuildError::InvalidTable);
            }
            k = k + 1;
        }
        proof {
            assert forall|i: int, j: int|
                0 <= i < j < bars@.len() implies bars@[i].open_time < bars@[j].open_time by {
                lemma_adjacent_sorted(bars@, i, j);
            }
        }
        Ok(Table { bars, log_returns, cum_returns })
    }
}

/// The sum of a cell column.
pub open spec fn seq_sum(s: Seq<i128>) -> int
    decreases s.len(),
{
    if s.len() == 0 {
        0
    } else {
        seq_sum(s.drop_last()) + s.last()
    }
}

/// The largest value of a non-empty cell column.
pub open spec fn seq_max(s: Seq<i128>) -> int
    recommends
        s.len() > 0,
    decreases s.len(),
{
    if s.len() <= 1 {
        if s.len() == 1 {
            s[0] as int
        } else {
            0
        }
    } else if s.last() as int > seq_max(s.drop_last()) {
        s.last() as int
    } else {
        seq_max(s.drop_last())
    }
}

/// The smallest value of a non-empty cell column.
pub open spec fn seq_min(s: Seq<i128>) -> int
    recommends
        s.len() > 0,
    decreases s.len(),
{
    if s.len() <= 1 {
        if s.len() == 1 {
            s[0] as int
        } else {
            0
        }
    } else if (s.last() as int) < seq_min(s.drop_last()) {
        s.last() as int
    } else {
        seq_min(s.drop_last())
    }
}

/// The high column of a row range.
pub open spec fn highs(s: Seq<Bar>) -> Seq<i128> {
    s.map_values(|b: Bar| b.high)
}

/// The low column of a row range.
pub open spec fn lows(s: Seq<Bar>) -> Seq<i128> {
    s.map_values(|b: Bar| b.low)
}

/// The volume column of a row range.
pub open spec fn volumes(s: Seq<Bar>) -> Seq<i128> {
    s.map_values(|b: Bar| b.volume)
}

/// The quote-volume column of a row range.
pub open spec fn quote_volumes(s: Seq<Bar>) -> Seq<i128> {
    s.map_values(|b: Bar| b.quote_volume)
}

/// The trade-count column of a row range.
pub open spec fn counts(s: Seq<Bar>) -> Seq<i128> {
    s.map_values(|b: Bar| b.count)
}

/// The taker-buy-volume column of a row range.
pub open spec fn taker_buy_volumes(s: Seq<Bar>) -> Seq<i128> {
    s.map_values(|b: Bar| b.taker_buy_volume)
}

/// The taker-buy-quote-volume column of a row range.
pub open spec fn taker_buy_quote_volumes(s: Seq<Bar>) -> Seq<i128> {
    s.map_values(|b: Bar| b.taker_buy_quote_volume)
}

/// The left edge of the fixed-width, zero-offset window containing the
/// instant `ts`.
pub open spec fn spec_bucket(ts: int, w: int) -> int
    recommends
        w > 0,
{
    ts - ts % w
}

/// Whether row `i` opens a new window of width `w` in the time-ordered rows
/// `s`.
pub open spec fn is_bucket_start(s: Seq<Bar>, w: int, i: int) -> bool {
    0 <= i < s.len() && (i == 0 || spec_bucket(s[i - 1].open_time as int, w) != spec_bucket(
        s[i].open_time as int,
        w,
    ))
}

/// The window-start row indexes of `s` from row `i` on.
pub open spec fn starts_from(s: Seq<Bar>, w: int, i: int) -> Seq<int>
    decreases s.len() - i,
{
    if i < 0 || i >= s.len() {
        Seq::<int>::empty()
    } else if is_bucket_start(s, w, i) {
        seq![i] + starts_from(s, w, i + 1)
    } else {
        starts_from(s, w, i + 1)
    }
}

/// The window-start row indexes of `s` under width `w`.
pub open spec fn spec_bucket_starts(s: Seq<Bar>, w: int) -> Seq<int> {
    starts_from(s, w, 0)
}

/// Proof of the shape of the window starts from `i` on: they begin at or
/// after `i`, increase strictly, are window starts, start with `i` when it
/// is one, and miss no start at or after `i`.
proof fn lemma_starts_from_props(s: Seq<Bar>, w: int, i: int)
    requires
        0 <= i,
    ensures
        forall|k: int|
            0 <= k < starts_from(s, w, i).len() ==> i <= #[trigger] starts_from(s, w, i)[k]
                < s.len() && is_bucket_start(s, w, starts_from(s, w, i)[k]),
        forall|k1: int, k2: int|
            0 <= k1 < k2 < starts_from(s, w, i).len() ==> #[trigger] starts_from(s, w, i)[k1]
                < #[trigger] starts_from(s, w, i)[k2],
        forall|j: int| i <= j < s.len() && is_bucket_start(s, w, j) ==> starts_from(
            s,
            w,
            i,
        ).contains(j),
        i < s.len() && is_bucket_start(s, w, i) ==> starts_from(s, w, i).len() > 0 && starts_from(
            s,
            w,
            i,
        )[0] == i,
    decreases s.len() - i,
{
    if i < s.len() {
        lemma_starts_from_props(s, w, i + 1);
        let rest = starts_from(s, w, i + 1);
        if is_bucket_start(s, w, i) {
            assert forall|j: int|
                i <= j < s.len() && is_bucket_start(s, w, j) implies #[trigger] starts_from(
                s,
                w,
                i,
            ).contains(j) by {
                if j == i {
                    assert(starts_from(s, w, i)[0] == j);
                } else {
                    assert(rest.contains(j));
                    let k = choose|k: int| 0 <= k < rest.len() && rest[k] == j;
                    assert(starts_from(s, w, i)[k + 1] == j);
                }
            }
        } else {
            assert forall|j: int|
                i <= j < s.len() && is_bucket_start(s, w, j) implies #[trigger] starts_from(
                s,
                w,
                i,
            ).contains(j) by {
                assert(j != i);
                assert(rest.contains(j));
            }
        }
    }
}

/// The window-start row indexes of the table's rows under width `width`.
pub fn bucket_starts(bars: &Vec<Bar>, width: i64) -> (r: Vec<usize>)
    requires
        width > 0,
        sorted_strict(bars@),
        bars@.len() > 0 ==> bars@[0].open_time >= 0,
    ensures
        r@.map_values(|u: usize| u as int) == spec_bucket_starts(bars@, width as int),
        forall|k: int| 0 <= k < r@.len() ==> #[trigger] r@[k] < bars@.len(),
        forall|k1: int, k2: int| 0 <= k1 < k2 < r@.len() ==> #[trigger] r@[k1] < #[trigger] r@[k2],
{
    let ghost w = width as int;
    let mut out: Vec<usize> = Vec::new();
    let mut i: usize = 0;
    assert(out@.map_values(|u: usize| u as int) + starts_from(bars@, w, 0) =~= starts_from(
        bars@,
        w,
        0,
    ));
    while i < bars.len()
        invariant
            i <= bars@.len(),
            width > 0,
            w == width as int,
            sorted_strict(bars@),
            bars@.len() > 0 ==> bars@[0].open_time >= 0,
            out@.map_values(|u: usize| u as int) + starts_from(bars@, w, i as int) == starts_from(
                bars@,
                w,
                0,
            ),
            forall|k: int| 0 <= k < out@.len() ==> #[trigger] out@[k] < i,
        decreases bars.len() - i,
    {
        proof {
            if i > 0 {
                assert(bars@[i - 1].open_time < bars@[i as int].open_time);
                assert(bars@[0].open_time <= bars@[i - 1].open_time) by {
                    if i - 1 > 0 {
                        assert(bars@[0].open_time < bars@[i - 1].open_time);
                    }
                }
            }
        }
        let is_start = if i == 0 {
            true
        } else {
            let a = bars[i - 1].open_time;
            let b = bars[i].open_time;
            (a - a % width) != (b - b % width)
        };
        if is_start {
            let ghost prev = out@.map_values(|u: usize| u as int);
            out.push(i);
            assert(out@.map_values(|u: usize| u as int) =~= prev + seq![i as int]);
            assert(is_bucket_start(bars@, w, i as int));
            assert(starts_from(bars@, w, i as int) == seq![i as int] + starts_from(
                bars@,
                w,
                i + 1,
            ));
            assert(out@.map_values(|u: usize| u as int) + starts_from(bars@, w, i + 1)
                =~= prev + starts_from(bars@, w, i as int));
        } else {
            assert(!is_bucket_start(bars@, w, i as int));
            assert(starts_from(bars@, w, i as int) == starts_from(bars@, w, i + 1));
        }
        i = i + 1;
    }
    assert(starts_from(bars@, w, bars@.len() as int) =~= Seq::<int>::empty());
    assert(out@.map_values(|u: usize| u as int) + Seq::<int>::empty() =~= out@.map_values(
        |u: usize| u as int,
    ));
    proof {
        let m = out@.map_values(|u: usize| u as int);
        assert forall|k1: int, k2: int| 0 <= k1 < k2 < out@.len() implies #[trigger] out@[k1]
            < #[trigger] out@[k2] by {
            lemma_starts_from_props(bars@, w, 0);
            assert(m[k1] < m[k2]);
        }
    }
    out
}

/// One resampled bar: the window's left edge, the aggregated exchange
/// columns, and the two carried return values.
#[derive(Clone, Copy, PartialEq, Eq, Structural, Debug)]
pub struct ResampledBar {
    pub open_time: i64,
    pub open: i128,
    pub high: i128,
    pub low: i128,
    pub close: i128,
    pub volume: i128,
    pub quote_volume: i128,
    pub count: i128,
    pub taker_buy_volume: i128,
    pub taker_buy_quote_volume: i128,
    pub log_return: u64,
    pub cum_return: u64,
}

/// Whether one resampled bar aggregates the rows `s[lo..hi]` of width-`w`
/// windows as the resample step promises: open from the first row, close
/// from the last, the extremes of high and low, the sums of the five
/// additive columns, and the window's left edge as its time.
pub open spec fn aggregates(o: ResampledBar, s: Seq<Bar>, lo: int, hi: int, w: int) -> bool {
    let rows = s.subrange(lo, hi);
    &&& o.open_time == spec_bucket(s[lo].open_time as int, w)
    &&& o.open == s[lo].open
    &&& o.close == s[hi - 1].close
    &&& o.high == seq_max(highs(rows))
    &&& o.low == seq_min(lows(rows))
    &&& o.volume == seq_sum(volumes(rows))
    &&& o.quote_volume == seq_sum(quote_volumes(rows))
    &&& o.count == seq_sum(counts(rows))
    &&& o.taker_buy_volume == seq_sum(taker_buy_volumes(rows))
    &&& o.taker_buy_quote_volume == seq_sum(taker_buy_quote_volumes(rows))
}

/// Aggregates the rows `bars[lo..hi]` — one window — into one resampled bar,
/// carrying the two given return values.
fn aggregate_bucket(
    bars: &Vec<Bar>,
    lo: usize,
    hi: usize,
    width: i64,
    log_return: u64,
    cum_return: u64,
) -> (o: ResampledBar)
    requires
        lo < hi <= bars@.len(),
        bars@.len() <= MAX_ROWS,
        bars_bounded(bars@),
        width > 0,
        bars@[lo as int].open_time >= 0,
    ensures
        aggregates(o, bars@, lo as int, hi as int, width as int),
        o.log_return == log_return,
        o.cum_return == cum_return,
{
    let ghost whole = bars@.subrange(lo as int, hi as int);
    let ts = bars[lo].open_time;
    let open_time = ts - ts % width;
    let open = bars[lo].open;
    let close = bars[hi - 1].close;
    let mut high = bars[lo].high;
    let mut low = bars[lo].low;
    let mut volume: i128 = 0;
    let mut quote_volume: i128 = 0;
    let mut count: i128 = 0;
    let mut taker_buy_volume: i128 = 0;
    let mut taker_buy_quote_volume: i128 = 0;
    let mut k = lo;
    proof {
        assert(whole.subrange(0, 0) =~= Seq::<Bar>::empty());
        assert(volumes(whole.subrange(0, 0)) =~= Seq::<i128>::empty());
        assert(quote_volumes(whole.subrange(0, 0)) =~= Seq::<i128>::empty());
        assert(counts(whole.subrange(0, 0)) =~= Seq::<i128>::empty());
        assert(taker_buy_volumes(whole.subrange(0, 0)) =~= Seq::<i128>::empty());
        assert(taker_buy_quote_volumes(whole.subrange(0, 0)) =~= Seq::<i128>::empty());
        assert(highs(whole.subrange(0, 1)) =~= seq![bars@[lo as int].high]);
        assert(lows(whole.subrange(0, 1)) =~= seq![bars@[lo as int].low]);
    }
    while k < hi
        invariant
            lo <= k <= hi <= bars@.len(),
            bars@.len() <= MAX_ROWS,
            bars_bounded(bars@),
            whole == bars@.subrange(lo as int, hi as int),
            lo < hi,
            k > lo ==> high as int == seq_max(highs(whole.subrange(0, k - lo))),
            k > lo ==> low as int == seq_min(lows(whole.subrange(0, k - lo))),
            k == lo ==> high == bars@[lo as int].high && low == bars@[lo as int].low,
            volume as int == seq_sum(volumes(whole.subrange(0, k - lo))),
            quote_volume as int == seq_sum(quote_volumes(whole.subrange(0, k - lo))),
            count as int == seq_sum(counts(whole.subrange(0, k - lo))),
            taker_buy_volume as int == seq_sum(taker_buy_volumes(whole.subrange(0, k - lo))),
            taker_buy_quote_volume as int == seq_sum(
                taker_buy_quote_volumes(whole.subrange(0, k - lo)),
            ),
            -CELL_BOUND * (k - lo) <= volume as int <= CELL_BOUND * (k - lo),
            -CELL_BOUND * (k - lo) <= quote_volume as int <= CELL_BOUND * (k - lo),
            -CELL_BOUND * (k - lo) <= count as int <= CELL_BOUND * (k - lo),
            -CELL_BOUND * (k - lo) <= taker_buy_volume as int <= CELL_BOUND * (k - lo),
            -CELL_BOUND * (k - lo) <= taker_buy_quote_volume as int <= CELL_BOUND * (k - lo),
        decreases hi - k,
    {
        let b = &bars[k];
        let ghost prefix = whole.subrange(0, k - lo);
        let ghost next = whole.subrange(0, k - lo + 1);
        proof {
            assert(bar_bounded(bars@[k as int]));
            assert(next.drop_last() =~= prefix);
            assert(next.last() == bars@[k as int]);
            assert(volumes(next).drop_last() =~= volumes(prefix));
            assert(quote_volumes(next).drop_last() =~= quote_volumes(prefix));
            assert(counts(next).drop_last() =~= counts(prefix));
            assert(taker_buy_volumes(next).drop_last() =~= taker_buy_volumes(prefix));
            assert(taker_buy_quote_volumes(next).drop_last() =~= taker_buy_quote_volumes(prefix));
            assert(highs(next).drop_last() =~= highs(prefix));
            assert(lows(next).drop_last() =~= lows(prefix));
            lemma_step_bound(volume as int, bars@[k as int].volume as int, (k - lo) as int);
            lemma_step_bound(
                quote_volume as int,
                bars@[k as int].quote_volume as int,
                (k - lo) as int,
            );
            lemma_step_bound(count as int, bars@[k as int].count as int, (k - lo) as int);
            lemma_step_bound(
                taker_buy_volume as int,
                bars@[k as int].taker_buy_volume as int,
                (k - lo) as int,
            );
            lemma_step_bound(
                taker_buy_quote_volume as int,
                bars@[k as int].taker_buy_quote_volume as int,
                (k - lo) as int,
            );
        }
        if k > lo {
            if b.high > high {
                high = b.high;
            }
            if b.low < low {
                low = b.low;
            }
        }
        volume = volume + b.volume;
        quote_volume = quote_volume + b.quote_volume;
        count = count + b.count;
        taker_buy_volume = taker_buy_volume + b.taker_buy_volume;
        taker_buy_quote_volume = taker_buy_quote_volume + b.taker_buy_quote_volume;
        k = k + 1;
    }
    proof {
        assert(whole.subrange(0, hi - lo) =~= whole);
    }
    ResampledBar {
        open_time,
        open,
        high,
        low,
        close,
        volume,
        quote_volume,
        count,
        taker_buy_volume,
        taker_buy_quote_volume,
        log_return,
        cum_return,
    }
}

/// Proof that one more bounded cell keeps a column sum within the range
/// every table guarantees.
proof fn lemma_step_bound(acc: int, v: int, steps: int)
    requires
        0 <= steps < MAX_ROWS,
        -CELL_BOUND * steps <= acc <= CELL_BOUND * steps,
        -CELL_BOUND <= v <= CELL_BOUND,
    ensures
        -CELL_BOUND * (steps + 1) <= acc + v <= CELL_BOUND * (steps + 1),
        -0x80000000000000000000000000000000 <= acc + v < 0x80000000000000000000000000000000,
{
    assert(-CELL_BOUND * (steps + 1) <= acc + v <= CELL_BOUND * (steps + 1)
        && -0x80000000000000000000000000000000 <= acc + v
        < 0x80000000000000000000000000000000) by (nonlinear_arith)
        requires
            CELL_BOUND == 100000000000000000000000000000int,
            0 <= steps < 100000000,
            -CELL_BOUND * steps <= acc <= CELL_BOUND * steps,
            -CELL_BOUND <= v <= CELL_BOUND,
    ;
}

/// The failures of a resample: a window width that is not positive, and a
/// per-window return list of the wrong length.
#[derive(Clone, Copy, PartialEq, Eq, Structural, Debug)]
pub enum ResampleError {
    NonPositiveWidth,
    MismatchedReturns,
}

/// Resamples a canonical table into fixed-width, left-closed, zero-offset
/// windows of `width_ms` milliseconds: per window, open is the first row's,
/// close the last's, high and low the extremes, the five additive columns
/// are summed, the window's log return is taken from `bucket_log_returns`
/// (its values are the caller's — summing the per-row column is
/// floating-point work outside the library), and the cumulative return is
/// the window's last row's.
pub fn resample(table: &Table, width_ms: i64, bucket_log_returns: &Vec<u64>) -> (r: Result<
    Vec<ResampledBar>,
    ResampleError,
>)
    requires
        table.wf(),
    ensures
        r matches Err(e) ==> (e == ResampleError::NonPositiveWidth <==> width_ms <= 0),
        r is Err <==> (width_ms <= 0 || bucket_log_returns@.len() != spec_bucket_starts(
            table.bars@,
            width_ms as int,
        ).len()),
        r matches Ok(out) ==> {
            let starts = spec_bucket_starts(table.bars@, width_ms as int);
            &&& out@.len() == starts.len()
            &&& (forall|k: int|
                0 <= k < starts.len() ==> aggregates(
                    #[trigger] out@[k],
                    table.bars@,
                    starts[k],
                    if k + 1 < starts.len() {
                        starts[k + 1]
                    } else {
                        table.bars@.len() as int
                    },
                    width_ms as int,
                ))
            &&& (forall|k: int|
                0 <= k < starts.len() ==> #[trigger] out@[k].log_return == bucket_log_returns@[k])
            &&& (forall|k: int|
                0 <= k < starts.len() ==> #[trigger] out@[k].cum_return == table.cum_returns@[(
                if k + 1 < starts.len() {
                    starts[k + 1]
                } else {
                    table.bars@.len() as int
                }) - 1])
        },
{
    let ghost w = width_ms as int;
    if width_ms <= 0 {
        return Err(ResampleError::NonPositiveWidth);
    }
    let starts = bucket_starts(&table.bars, width_ms);
    let ghost sstarts = spec_bucket_starts(table.bars@, w);
    proof {
        lemma_starts_from_props(table.bars@, w, 0);
    }
    if bucket_log_returns.len() != starts.len() {
        return Err(ResampleError::MismatchedReturns);
    }
    let mut out: Vec<ResampledBar> = Vec::new();
    let mut k: usize = 0;
    while k < starts.len()
        invariant
            k <= starts.len(),
            table.wf(),
            width_ms > 0,
            w == width_ms as int,
            sstarts == spec_bucket_starts(table.bars@, w),
            starts@.map_values(|u: usize| u as int) == sstarts,
            bucket_log_returns@.len() == starts@.len(),
            forall|t: int| 0 <= t < starts@.len() ==> #[trigger] starts@[t] < table.bars@.len(),
            forall|t1: int, t2: int|
                0 <= t1 < t2 < starts@.len() ==> #[trigger] starts@[t1] < #[trigger] starts@[t2],
            out@.len() == k,
            forall|t: int|
                0 <= t < k ==> aggregates(
                    #[trigger] out@[t],
                    table.bars@,
                    sstarts[t],
                    if t + 1 < sstarts.len() {
                        sstarts[t + 1]
                    } else {
                        table.bars@.len() as int
                    },
                    w,
                ),
            forall|t: int|
                0 <= t < k ==> #[trigger] out@[t].log_return == bucket_log_returns@[t],
            forall|t: int|
                0 <= t < k ==> #[trigger] out@[t].cum_return == table.cum_returns@[(
                if t + 1 < sstarts.len() {
                    sstarts[t + 1]
                } else {
                    table.bars@.len() as int
                }) - 1],
        decreases starts.len() - k,
    {
        let lo = starts[k];
        let hi = if k + 1 < starts.len() {
            starts[k + 1]
        } else {
            table.bars.len()
        };
        proof {
            assert(sstarts[k as int] == starts@[k as int] as int);
            if k + 1 < starts@.len() {
                assert(sstarts[k + 1] == starts@[k + 1] as int);
            }
            if lo > 0 {
                assert(table.bars@[0].open_time <= table.bars@[lo as int].open_time) by {
                    assert(table.bars@[0].open_time < table.bars@[lo as int].open_time);
                }
            }
        }
        let bar = aggregate_bucket(
            &table.bars,
            lo,
            hi,
            width_ms,
            bucket_log_returns[k],
            table.cum_returns[hi - 1],
        );
        out.push(bar);
        k = k + 1;
    }
    Ok(out)
}

/// The width in milliseconds of a timeframe string: one to six digits and a
/// fixed-width unit — seconds, minutes, hours, days or weeks. Calendar units
/// have no fixed width and are refused.
pub open spec fn spec_duration_ms(s: Seq<char>) -> Option<int> {
    if s.len() < 2 {
        None
    } else {
        let digits = s.take(s.len() - 1);
        let unit: int = if s.last() == 's' {
            1000
        } else if s.last() == 'm' {
            60000
        } else if s.last() == 'h' {
            3600000
        } else if s.last() == 'd' {
            86400000
        } else if s.last() == 'w' {
            604800000
        } else {
            0
        };
        if all_digits(digits) && digits.len() <= 6 && unit > 0 {
            Some(digits_val(digits) * unit)
        } else {
            None
        }
    }
}

/// Parses a timeframe string into its window width in milliseconds.
pub fn duration_ms(timeframe: &str) -> (r: Option<i64>)
    ensures
        r is Some <==> spec_duration_ms(timeframe@) is Some,
        r matches Some(v) ==> spec_duration_ms(timeframe@) == Some(v as int),
{
    let n = timeframe.unicode_len();
    if n < 2 || n - 1 > 6 {
        return None;
    }
    let u = timeframe.get_char(n - 1) as u32;
    let unit: i64 = if u == 115 {
        1000
    } else if u == 109 {
        60000
    } else if u == 104 {
        3600000
    } else if u == 100 {
        86400000
    } else if u == 119 {
        604800000
    } else {
        return None;
    };
    let ghost digits = timeframe@.take(n - 1 as int);
    assert(digits =~= timeframe@.subrange(0, n - 1 as int));
    match crate::decimal::digits_val_exec(timeframe, 0, n - 1) {
        None => None,
        Some(v) => {
            proof {
                crate::decimal::lemma_digits_val_bound(digits);
                crate::decimal::lemma_pow10_monotone(digits.len() as nat, 6);
                assert(pow10(6) == 1000000) by {
                    crate::decimal::lemma_pow10_values();
                    assert(pow10(6) * 100 == pow10(8)) by {
                        assert(pow10(8) == 10 * pow10(7));
                        assert(pow10(7) == 10 * pow10(6));
                    }
                }
                assert(v * unit <= 1000000 * 604800000 && 0 <= v * unit) by (nonlinear_arith)
                    requires
                        0 <= v < 1000000,
                        0 < unit <= 604800000i64,
                ;
            }
            Some((v as i64) * unit)
        },
    }
}

/// The reaction of a sync to the store's current state: an artifact already
/// present is read back as is — the freshness policy treats it as complete —
/// while an absent one triggers the full fetch-and-build pipeline.
#[derive(Clone, Copy, PartialEq, Eq, Structural, Debug)]
pub enum SyncAction {
    ReadBack,
    BuildStore,
}

/// Whether symbol `a` sorts at or before `b`, by the lexicographic byte
/// order of their names.
pub open spec fn symbol_le(a: crate::types::Symbol, b: crate::types::Symbol) -> bool {
    crate::text::spec_bytes_le(
        vstd::utf8::encode_utf8(a.name@),
        vstd::utf8::encode_utf8(b.name@),
    )
}

/// The canonical per-symbol store: it names artifacts deterministically and
/// decides what a sync does.
pub struct DataStore {
    pub config: crate::config::DataConfig,
}

impl DataStore {
    /// A store over `config`.
    pub fn new(config: crate::config::DataConfig) -> (r: DataStore)
        ensures
            r.config == config,
    {
        DataStore { config }
    }

    /// The artifact file name of one symbol's table: the symbol, the
    /// timeframe tag for a resampled table, and the columnar extension.
    pub fn store_name_for(&self, symbol: &str, timeframe: Option<&str>) -> (r: String)
        ensures
            r@ == symbol@ + (match timeframe {
                Some(tf) => "-"@ + tf@,
                None => Seq::<char>::empty(),
            }) + ".parquet"@,
    {
        let mut out = String::new();
        out.append(symbol);
        match timeframe {
            Some(tf) => {
                out.append("-");
                out.append(tf);
            },
            None => {
            },
        }
        out.append(".parquet");
        assert(out@ =~= symbol@ + (match timeframe {
            Some(tf) => "-"@ + tf@,
            None => Seq::<char>::empty(),
        }) + ".parquet"@);
        out
    }

    /// The artifact path of one symbol's table under the store root:
    /// `{store_root}/{category}/{symbol}/{name}`.
    pub fn store_path_for(&self, symbol: &str, timeframe: Option<&str>) -> (r: String)
        ensures
            r@ == self.config.base_store_dir@ + "/"@ + self.config.asset_cat.spec_str() + "/"@
                + symbol@ + "/"@ + symbol@ + (match timeframe {
                Some(tf) => "-"@ + tf@,
                None => Seq::<char>::empty(),
            }) + ".parquet"@,
    {
        let mut out = self.config.base_store_dir.clone();
        out.append("/");
        out.append(self.config.asset_cat.as_str());
        out.append("/");
        out.append(symbol);
        out.append("/");
        let name = self.store_name_for(symbol, timeframe);
        out.append(name.as_str());
        out
    }

    /// What a sync does for one symbol, decided by whether the canonical
    /// artifact already exists.
    pub fn sync_action(&self, store_present: bool) -> (r: SyncAction)
        ensures
            store_present <==> r is ReadBack,
            !store_present <==> r is BuildStore,
    {
        if store_present {
            SyncAction::ReadBack
        } else {
            SyncAction::BuildStore
        }
    }

    /// The deterministic scheduling order of a multi-symbol sync: the
    /// symbols sorted by name. The result holds exactly the given symbols.
    pub fn sync_order(&self, symbols: Vec<crate::types::Symbol>) -> (r: Vec<crate::types::Symbol>)
        ensures
            r@.len() == symbols@.len(),
            r@.to_multiset() == symbols@.to_multiset(),
            forall|i: int, j: int| 0 <= i < j < r@.len() ==> symbol_le(#[trigger] r@[i], #[trigger] r@[j]),
    {
        broadcast use vstd::seq_lib::group_to_multiset_ensures;

        let mut input = symbols;
        let mut out: Vec<crate::types::Symbol> = Vec::new();
        assert(out@.to_multiset().add(input@.to_multiset()) =~= symbols@.to_multiset()) by {
            assert(out@ =~= Seq::<crate::types::Symbol>::empty());
            assert(out@.to_multiset().len() == 0);
        }
        while input.len() > 0
            invariant
                out@.len() + input@.len() == symbols@.len(),
                out@.to_multiset().add(input@.to_multiset()) == symbols@.to_multiset(),
                forall|i: int, j: int|
                    0 <= i < j < out@.len() ==> symbol_le(#[trigger] out@[i], #[trigger] out@[j]),
            decreases input@.len(),
        {
            let ghost old_input = input@;
            let ghost old_out = out@;
            let x = match input.pop() {
                Some(x) => x,
                None => {
                    proof {
                        assert(false);
                    }
                    return out;
                },
            };
            proof {
                old_input.to_multiset_ensures();
                assert(input@ =~= old_input.remove(old_input.len() - 1));
                assert(old_input.remove(old_input.len() - 1).to_multiset()
                    =~= old_input.to_multiset().remove(old_input[old_input.len() - 1]));
                assert(input@.to_multiset() =~= old_input.to_multiset().remove(x));
                assert(old_input.contains(x)) by {
                    assert(old_input[old_input.len() - 1] == x);
                }
                assert(old_input.to_multiset().count(x) > 0);
            }
            let mut p: usize = 0;
            while p < out.len() && crate::text::str_le(out[p].name.as_str(), x.name.as_str())
                invariant
                    p <= out@.len(),
                    forall|k: int| 0 <= k < p ==> symbol_le(#[trigger] out@[k], x),
                decreases out@.len() - p,
            {
                p = p + 1;
            }
            proof {
                if p < out@.len() {
                    crate::text::lemma_bytes_le_total(
                        vstd::utf8::encode_utf8(out@[p as int].name@),
                        vstd::utf8::encode_utf8(x.name@),
                    );
                    assert(symbol_le(x, out@[p as int]));
                }
            }
            out.insert(p, x);
            proof {
                assert(out@ == old_out.insert(p as int, x));
                lemma_insert_multiset(old_out, p as int, x);
                assert(out@.to_multiset().add(input@.to_multiset()) =~= symbols@.to_multiset());
                assert forall|i: int, j: int|
                    0 <= i < j < out@.len() implies symbol_le(
                    #[trigger] out@[i],
                    #[trigger] out@[j],
                ) by {
                    let a = if i < p {
                        old_out[i]
                    } else if i == p {
                        x
                    } else {
                        old_out[i - 1]
                    };
                    let b = if j < p {
                        old_out[j]
                    } else if j == p {
                        x
                    } else {
                        old_out[j - 1]
                    };
                    assert(out@[i] == a && out@[j] == b);
                    if j == p {
                        assert(symbol_le(a, x));
                    } else if i == p {
                        assert(j > p);
                        if j - 1 == p {
                            assert(p < old_out.len());
                            assert(symbol_le(x, b));
                        } else {
                            assert(p < old_out.len());
                            assert(symbol_le(x, old_out[p as int]));
                            assert(symbol_le(old_out[p as int], b));
                            crate::text::lemma_bytes_le_trans(
                                vstd::utf8::encode_utf8(x.name@),
                                vstd::utf8::encode_utf8(old_out[p as int].name@),
                                vstd::utf8::encode_utf8(b.name@),
                            );
                        }
                    } else if i < p && j > p {
                        if j - 1 == i {
                            assert(symbol_le(a, x));
                            assert(symbol_le(x, b)) by {
                                assert(p < old_out.len() || j - 1 < p);
                                assert(symbol_le(x, old_out[p as int]));
                                if j - 1 > p {
                                    crate::text::lemma_bytes_le_trans(
                                        vstd::utf8::encode_utf8(x.name@),
                                        vstd::utf8::encode_utf8(old_out[p as int].name@),
                                        vstd::utf8::encode_utf8(b.name@),
                                    );
                                }
                            }
                            crate::text::lemma_bytes_le_trans(
                                vstd::utf8::encode_utf8(a.name@),
                                vstd::utf8::encode_utf8(x.name@),
                                vstd::utf8::encode_utf8(b.name@),
                            );
                        } else {
                            assert(symbol_le(old_out[i], old_out[j - 1]));
                        }
                    } else {
                        assert(symbol_le(a, b));
                    }
                }
            }
        }
        proof {
            assert(input@.to_multiset().len() == 0);
            assert(out@.to_multiset().add(input@.to_multiset()) =~= out@.to_multiset());
        }
        out
    }
}

/// Proof that inserting anywhere adds exactly one occurrence to a sequence's
/// multiset.
proof fn lemma_insert_multiset<A>(s: Seq<A>, i: int, x: A)
    requires
        0 <= i <= s.len(),
    ensures
        s.insert(i, x).to_multiset() =~= s.to_multiset().insert(x),
{
    broadcast use vstd::seq_lib::group_to_multiset_ensures;
    broadcast use vstd::multiset::group_multiset_axioms;

    let t = s.insert(i, x);
    assert(t.remove(i) =~= s);
    assert(t[i] == x);
    assert(t.remove(i).to_multiset() =~= t.to_multiset().remove(x));
    assert(t.contains(x));
    assert(t.to_multiset().count(x) > 0);
    assert forall|y: A| t.to_multiset().count(y) == s.to_multiset().insert(x).count(y) by {
        if y == x {
            assert(s.to_multiset().count(x) == t.to_multiset().remove(x).count(x));
        } else {
            assert(s.to_multiset().count(y) == t.to_multiset().remove(x).count(y));
        }
    }
}

} // verus!
