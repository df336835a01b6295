//! The archive provider: deterministic names and URIs for every partition
//! archive, the full-sync partition plan for a symbol, the no-network-twice
//! fetch step, and the onboarding-date normalization of the symbol universe.

use vstd::prelude::*;
use vstd::string::StrSliceExecFns;
use vstd::string::StringExecFns;
use crate::calendar::Date;
use crate::calendar::CalendarError;
use crate::calendar::Timeperiod;
use crate::calendar::partitions_between;
use crate::config::DataConfig;
use crate::text::spec_four_digits;
use crate::text::spec_replace;
use crate::text::spec_two_digits;
use crate::text::spec_upper;
use crate::types::AssetCategory;

verus! {

/// The rendering of `d` under a date-format string: `%Y`, `%m` and `%d`
/// expand to the zero-padded year, month and day; any other
/// percent-introduced pair and every other character is copied through.
pub open spec fn spec_format_date(d: Date, fmt: Seq<char>) -> Seq<char>
    decreases fmt.len(),
{
    if fmt.len() == 0 {
        Seq::<char>::empty()
    } else if fmt[0] == '%' && fmt.len() >= 2 {
        if fmt[1] == 'Y' {
            spec_four_digits(d.year as int) + spec_format_date(d, fmt.skip(2))
        } else if fmt[1] == 'm' {
            spec_two_digits(d.month as int) + spec_format_date(d, fmt.skip(2))
        } else if fmt[1] == 'd' {
            spec_two_digits(d.day as int) + spec_format_date(d, fmt.skip(2))
        } else {
            seq![fmt[0], fmt[1]] + spec_format_date(d, fmt.skip(2))
        }
    } else {
        seq![fmt[0]] + spec_format_date(d, fmt.skip(1))
    }
}

/// Renders `d` under the date-format string `fmt`.
pub fn format_date(d: &Date, fmt: &str) -> (r: String)
    requires
        d.valid(),
    ensures
        r@ == spec_format_date(*d, fmt@),
{
    let n = fmt.unicode_len();
    let mut out = String::new();
    let mut i: usize = 0;
    assert(fmt@.skip(0) =~= fmt@);
    assert(out@ + spec_format_date(*d, fmt@) =~= spec_format_date(*d, fmt@));
    while i < n
        invariant
            i <= n,
            n == fmt@.len(),
            d.valid(),
            out@ + spec_format_date(*d, fmt@.skip(i as int)) == spec_format_date(*d, fmt@),
        decreases n - i,
    {
        let ghost rest = fmt@.skip(i as int);
        let ghost prev = out@;
        let c = fmt.get_char(i);
        if c as u32 == 37 && i + 1 < n {
            let directive = fmt.get_char(i + 1);
            assert(c == '%' && rest[0] == '%');
            assert(directive == rest[1]);
            let v = directive as u32;
            if v == 89 {
                assert(directive == 'Y');
                let piece = crate::text::four_digits(d.year);
                out.append(piece.as_str());
            } else if v == 109 {
                assert(directive == 'm');
                let piece = crate::text::two_digits(d.month);
                out.append(piece.as_str());
            } else if v == 100 {
                assert(directive == 'd');
                let piece = crate::text::two_digits(d.day);
                out.append(piece.as_str());
            } else {
                assert(directive != 'Y' && directive != 'm' && directive != 'd');
                crate::text::push_char(&mut out, c);
                crate::text::push_char(&mut out, directive);
                assert(out@ =~= prev + seq![rest[0], rest[1]]);
            }
            i = i + 2;
            assert(fmt@.skip(i as int) =~= rest.skip(2));
            assert(out@ + spec_format_date(*d, fmt@.skip(i as int)) =~= prev + spec_format_date(
                *d,
                rest,
            ));
        } else {
            assert(c == rest[0]);
            assert(!(rest[0] == '%' && rest.len() >= 2));
            crate::text::push_char(&mut out, c);
            i = i + 1;
            assert(out@ =~= prev + seq![rest[0]]);
            assert(fmt@.skip(i as int) =~= rest.skip(1));
            assert(out@ + spec_format_date(*d, fmt@.skip(i as int)) =~= prev + spec_format_date(
                *d,
                rest,
            ));
        }
    }
    assert(fmt@.skip(n as int) =~= Seq::<char>::empty());
    assert(out@ + Seq::<char>::empty() =~= out@);
    out
}

/// The provider of raw partition archives for one asset category: it names
/// every local file and remote URI deterministically and plans which
/// partitions a sync must touch.
pub struct DataProvider {
    pub config: DataConfig,
    pub asset_cat: AssetCategory,
}

impl DataProvider {
    /// A provider over `config` for `asset_cat`.
    pub fn new(config: DataConfig, asset_cat: AssetCategory) -> (r: DataProvider)
        ensures
            r.config == config,
            r.asset_cat == asset_cat,
    {
        DataProvider { config, asset_cat }
    }

    /// The local directory holding `symbol`'s raw archives of one
    /// granularity: `{raw_root}/{category}/{granularity}/{SYMBOL}`.
    pub fn base_path_for(&self, symbol: &str, timeperiod: &Timeperiod) -> (r: String)
        ensures
            r@ == self.config.base_raw_dir@ + "/"@ + self.asset_cat.spec_str() + "/"@
                + timeperiod.spec_str() + "/"@ + spec_upper(symbol@),
    {
        let mut out = self.config.base_raw_dir.clone();
        out.append("/");
        out.append(self.asset_cat.as_str());
        out.append("/");
        out.append(timeperiod.as_str());
        out.append("/");
        let upper = crate::text::to_upper(symbol);
        out.append(upper.as_str());
        out
    }

    /// The base URI archives of this granularity are published under.
    pub fn base_uri_for<'a>(&'a self, timeperiod: &Timeperiod) -> (r: &'a str)
        ensures
            r@ == (match timeperiod {
                Timeperiod::Monthly => self.config.hist_klines_monthly_uri@,
                Timeperiod::Daily => self.config.hist_klines_daily_uri@,
            }),
    {
        match timeperiod {
            Timeperiod::Monthly => self.config.hist_klines_monthly_uri.as_str(),
            Timeperiod::Daily => self.config.hist_klines_daily_uri.as_str(),
        }
    }

    /// The date-format string used in this granularity's archive names.
    pub fn date_format_for<'a>(&'a self, timeperiod: &Timeperiod) -> (r: &'a str)
        ensures
            r@ == (match timeperiod {
                Timeperiod::Monthly => self.config.date_format_monthly@,
                Timeperiod::Daily => self.config.date_format_daily@,
            }),
    {
        match timeperiod {
            Timeperiod::Monthly => self.config.date_format_monthly.as_str(),
            Timeperiod::Daily => self.config.date_format_daily.as_str(),
        }
    }

    /// The remote URI of one archive: the base URI with the symbol, the base
    /// timeframe and the file name appended as path segments.
    pub fn uri_for(&self, baseuri: &str, symbol: &str, filename: &str) -> (r: String)
        ensures
            r@ == baseuri@ + symbol@ + "/"@ + "1m"@ + "/"@ + filename@,
    {
        let mut out = String::new();
        out.append(baseuri);
        out.append(symbol);
        out.append("/");
        out.append("1m");
        out.append("/");
        out.append(filename);
        out
    }

    /// The archive file name for one partition: the configured template with
    /// `[[Symbol]]` (upper-cased), `[[Timeframe]]` (the fixed base
    /// timeframe) and `[[Date]]` (the period under `dateformat`) substituted.
    pub fn file_name_for(&self, symbol: &str, date: &Date, dateformat: &str) -> (r: String)
        requires
            date.valid(),
        ensures
            r@ == spec_replace(
                spec_replace(
                    spec_replace(
                        self.config.download_file_format@,
                        "[[Symbol]]"@,
                        spec_upper(symbol@),
                    ),
                    "[[Timeframe]]"@,
                    "1m"@,
                ),
                "[[Date]]"@,
                spec_format_date(*date, dateformat@),
            ),
    {
        proof {
            reveal_strlit("[[Symbol]]");
            reveal_strlit("[[Timeframe]]");
            reveal_strlit("[[Date]]");
        }
        let upper = crate::text::to_upper(symbol);
        let step1 = crate::text::replace_all(
            self.config.download_file_format.as_str(),
            "[[Symbol]]",
            upper.as_str(),
        );
        let step2 = crate::text::replace_all(step1.as_str(), "[[Timeframe]]", "1m");
        let rendered = format_date(date, dateformat);
        crate::text::replace_all(step2.as_str(), "[[Date]]", rendered.as_str())
    }

    /// The start of the range one granularity syncs from: a monthly sync
    /// starts at the symbol's onboarding date, a daily one at the first day
    /// of the catch-up month handed in.
    pub fn fromdate_for(&self, init_date: &Date, timeperiod: &Timeperiod) -> (r: Date)
        requires
            init_date.valid(),
        ensures
            r.valid(),
            r == (match timeperiod {
                Timeperiod::Monthly => *init_date,
                Timeperiod::Daily => init_date.spec_month_start(),
            }),
    {
        match timeperiod {
            Timeperiod::Monthly => *init_date,
            Timeperiod::Daily => init_date.month_start(),
        }
    }

    /// The ordered partition dates covering `fromdate..=todate`; see
    /// [`partitions_between`] for the exact enumeration and the refusal of
    /// reversed ranges.
    pub fn dates_for(&self, fromdate: &Date, todate: &Date, timeperiod: &Timeperiod) -> (r: Result<
        Vec<Date>,
        CalendarError,
    >)
        requires
            fromdate.valid(),
            todate.valid(),
        ensures
            r is Err <==> (match timeperiod {
                Timeperiod::Monthly => fromdate.month_index() > todate.month_index(),
                Timeperiod::Daily => fromdate.day_number() > todate.day_number(),
            }),
            r matches Ok(v) ==> {
                &&& v@.len() >= 1
                &&& (forall|i: int| 0 <= i < v@.len() ==> #[trigger] v@[i].valid())
                &&& (forall|i: int, j: int|
                    0 <= i < j < v@.len() ==> #[trigger] v@[i].day_number()
                        < #[trigger] v@[j].day_number())
                &&& (forall|i: int, j: int|
                    0 <= i < j < v@.len() ==> #[trigger] v@[i] != #[trigger] v@[j])
                &&& (timeperiod is Monthly ==> {
                    &&& v@.len() == todate.month_index() - fromdate.month_index() + 1
                    &&& (forall|i: int|
                        0 <= i < v@.len() ==> #[trigger] v@[i] == crate::calendar::month_of_index(
                            fromdate.month_index() + i,
                        ))
                    &&& v@[0] == fromdate.spec_month_start()
                })
                &&& (timeperiod is Daily ==> {
                    &&& v@.len() == todate.day_number() - fromdate.day_number() + 1
                    &&& (forall|i: int|
                        0 <= i < v@.len() ==> #[trigger] v@[i].day_number()
                            == fromdate.day_number() + i)
                    &&& v@[0] == *fromdate
                    &&& v@[v@.len() - 1] == *todate
                })
            },
    {
        partitions_between(fromdate, todate, timeperiod)
    }

    /// The date-format string of one granularity.
    pub open spec fn spec_date_format(self, timeperiod: Timeperiod) -> Seq<char> {
        match timeperiod {
            Timeperiod::Monthly => self.config.date_format_monthly@,
            Timeperiod::Daily => self.config.date_format_daily@,
        }
    }

    /// One partition's archive file name under the configured template.
    pub open spec fn spec_zip_name(self, symbol: Seq<char>, date: Date, timeperiod: Timeperiod)
        -> Seq<char> {
        spec_replace(
            spec_replace(
                spec_replace(self.config.download_file_format@, "[[Symbol]]"@, spec_upper(symbol)),
                "[[Timeframe]]"@,
                "1m"@,
            ),
            "[[Date]]"@,
            spec_format_date(date, self.spec_date_format(timeperiod)),
        )
    }

    /// One partition's full remote URI.
    pub open spec fn spec_uri(self, symbol: Seq<char>, date: Date, timeperiod: Timeperiod)
        -> Seq<char> {
        (match timeperiod {
            Timeperiod::Monthly => self.config.hist_klines_monthly_uri@,
            Timeperiod::Daily => self.config.hist_klines_daily_uri@,
        }) + symbol + "/"@ + "1m"@ + "/"@ + self.spec_zip_name(symbol, date, timeperiod)
    }

    /// One partition's extracted local file path: the archive name under the
    /// symbol's raw directory, with the archive extension turned into the
    /// tabular one.
    pub open spec fn spec_csv_path(self, symbol: Seq<char>, date: Date, timeperiod: Timeperiod)
        -> Seq<char> {
        self.config.base_raw_dir@ + "/"@ + self.asset_cat.spec_str() + "/"@
            + timeperiod.spec_str() + "/"@ + spec_upper(symbol) + "/"@ + spec_replace(
            self.spec_zip_name(symbol, date, timeperiod),
            ".zip"@,
            ".csv"@,
        )
    }

    /// The local path of one partition's extracted file; what the
    /// idempotency check of a fetch looks for.
    pub fn csv_path_for(&self, symbol: &str, date: &Date, timeperiod: &Timeperiod) -> (r: String)
        requires
            date.valid(),
        ensures
            r@ == self.spec_csv_path(symbol@, *date, *timeperiod),
    {
        proof {
            reveal_strlit(".zip");
            reveal_strlit(".csv");
        }
        let mut out = self.base_path_for(symbol, timeperiod);
        out.append("/");
        let zipname = self.file_name_for(symbol, date, self.date_format_for(timeperiod));
        let csvname = crate::text::replace_all(zipname.as_str(), ".zip", ".csv");
        out.append(csvname.as_str());
        out
    }

    /// The first move of one partition's fetch, decided by whether the
    /// extracted file is already present.
    pub fn fetch_step(&self, symbol: &str, date: &Date, timeperiod: &Timeperiod, csv_present: bool)
        -> (r: FetchStep)
        requires
            date.valid(),
        ensures
            csv_present <==> r is UseLocal,
            r matches FetchStep::Download(uri) ==> uri@ == self.spec_uri(
                symbol@,
                *date,
                *timeperiod,
            ),
    {
        if csv_present {
            FetchStep::UseLocal
        } else {
            let baseuri = self.base_uri_for(timeperiod);
            let zipname = self.file_name_for(symbol, date, self.date_format_for(timeperiod));
            let uri = self.uri_for(baseuri, symbol, zipname.as_str());
            FetchStep::Download(uri)
        }
    }

    /// The full-sync partition plan for a symbol as of `today`: monthly
    /// partitions from the onboarding month through the last month fully in
    /// the past as of yesterday, then daily partitions from the first day of
    /// the current month through yesterday.
    pub fn sync_plan(&self, init_date: &Date, today: &Date) -> (r: SyncPlan)
        requires
            init_date.valid(),
            today.valid(),
            !(today.year == 1 && today.month == 1 && today.day == 1),
        ensures
            r.wf(),
            init_date.month_index() < today.spec_pred().month_index() ==> {
                &&& r.monthly@.len() == today.spec_pred().month_index() - init_date.month_index()
                &&& (forall|i: int|
                    0 <= i < r.monthly@.len() ==> #[trigger] r.monthly@[i]
                        == crate::calendar::month_of_index(init_date.month_index() + i))
            },
            init_date.month_index() >= today.spec_pred().month_index() ==> r.monthly@.len() == 0,
            today.day > 1 ==> {
                &&& r.daily@.len() == today.spec_pred().day_number()
                    - today.spec_month_start().day_number() + 1
                &&& (forall|i: int|
                    0 <= i < r.daily@.len() ==> #[trigger] r.daily@[i].day_number()
                        == today.spec_month_start().day_number() + i)
                &&& r.daily@[0] == today.spec_month_start()
                &&& r.daily@[r.daily@.len() - 1] == today.spec_pred()
            },
            today.day == 1 ==> r.daily@.len() == 0,
    {
        let yesterday = today.pred();
        let monthly: Vec<Date> = if yesterday.month > 1 || yesterday.year > 1 {
            let last_full = if yesterday.month > 1 {
                Date { year: yesterday.year, month: yesterday.month - 1, day: 1 }
            } else {
                Date { year: yesterday.year - 1, month: 12, day: 1 }
            };
            assert(last_full.month_index() == yesterday.month_index() - 1);
            let run_monthly = init_date.year < last_full.year || (init_date.year == last_full.year
                && init_date.month <= last_full.month);
            proof {
                crate::calendar::lemma_midx_orders(*init_date, last_full);
            }
            if run_monthly {
                match partitions_between(init_date, &last_full, &Timeperiod::Monthly) {
                    Ok(v) => v,
                    Err(_) => {
                        proof {
                            assert(false);
                        }
                        Vec::new()
                    },
                }
            } else {
                Vec::new()
            }
        } else {
            assert(yesterday.month_index() == 0);
            assert(init_date.month_index() >= 0);
            Vec::new()
        };
        let daily: Vec<Date> = if today.day > 1 {
            let first = today.month_start();
            proof {
                crate::calendar::lemma_day_number_orders(first, yesterday);
            }
            match partitions_between(&first, &yesterday, &Timeperiod::Daily) {
                Ok(v) => v,
                Err(_) => {
                    proof {
                        assert(false);
                    }
                    Vec::new()
                },
            }
        } else {
            Vec::new()
        };
        SyncPlan { monthly, daily }
    }
}

/// The first move of one partition's fetch: read the already extracted local
/// file, or download the archive from the given URI.
pub enum FetchStep {
    UseLocal,
    Download(String),
}

/// The outcome of one partition's fetch, at the granularity the sync
/// reports: the partition was already there, was fetched, was skipped after
/// an unsuccessful response, or failed in transport, extraction or repair.
#[derive(Clone, Copy, PartialEq, Eq, Structural, Debug)]
pub enum FetchOutcome {
    AlreadyPresent,
    Fetched,
    Skipped,
    Failed,
}

/// What one run of a partition fetch does and leaves behind, as a function
/// of the world it found: whether the extracted file was present, and — when
/// it was not — whether the transport succeeded, the response was a success,
/// and extraction plus repair went through.
#[derive(Clone, Copy, PartialEq, Eq, Structural, Debug)]
pub struct FetchRun {
    /// Whether this run performed network I/O.
    pub downloaded: bool,
    /// The reported outcome.
    pub outcome: FetchOutcome,
    /// Whether the extracted file is present after the run.
    pub present_after: bool,
}

/// The fetch of one partition as a state transition; see [`FetchRun`].
pub open spec fn spec_fetch_run(
    present: bool,
    transport_ok: bool,
    status_ok: bool,
    extract_ok: bool,
) -> FetchRun {
    FetchRun {
        downloaded: !present,
        outcome: if present {
            FetchOutcome::AlreadyPresent
        } else if !transport_ok {
            FetchOutcome::Failed
        } else if !status_ok {
            FetchOutcome::Skipped
        } else if extract_ok {
            FetchOutcome::Fetched
        } else {
            FetchOutcome::Failed
        },
        present_after: present || (transport_ok && status_ok && extract_ok),
    }
}

/// Classifies one run of a partition fetch. The caller performs the I/O and
/// reports what happened; the flags after `present` are ignored when the
/// extracted file was already present (no I/O happened).
pub fn fetch_run(present: bool, transport_ok: bool, status_ok: bool, extract_ok: bool) -> (r:
    FetchRun)
    ensures
        r == spec_fetch_run(present, transport_ok, status_ok, extract_ok),
{
    let outcome = if present {
        FetchOutcome::AlreadyPresent
    } else if !transport_ok {
        FetchOutcome::Failed
    } else if !status_ok {
        FetchOutcome::Skipped
    } else if extract_ok {
        FetchOutcome::Fetched
    } else {
        FetchOutcome::Failed
    };
    FetchRun { downloaded: !present, outcome, present_after: present || (transport_ok && status_ok
        && extract_ok) }
}

/// Law: fetching a partition is idempotent. A run that ends with the
/// partition present — in particular one that reported `Fetched` or
/// `AlreadyPresent` — makes every later run of the same partition a local
/// no-op: it downloads nothing and reports `AlreadyPresent`, whatever its
/// I/O flags would have been.
pub proof fn lemma_fetch_idempotent(
    p: bool,
    t: bool,
    s: bool,
    e: bool,
    t2: bool,
    s2: bool,
    e2: bool,
)
    requires
        spec_fetch_run(p, t, s, e).outcome is Fetched || spec_fetch_run(
            p,
            t,
            s,
            e,
        ).outcome is AlreadyPresent,
    ensures
        spec_fetch_run(p, t, s, e).present_after,
        spec_fetch_run(spec_fetch_run(p, t, s, e).present_after, t2, s2, e2).downloaded == false,
        spec_fetch_run(
            spec_fetch_run(p, t, s, e).present_after,
            t2,
            s2,
            e2,
        ).outcome is AlreadyPresent,
{
}

/// The partitions one full symbol sync walks: every monthly partition first,
/// then the daily catch-up of the current month.
pub struct SyncPlan {
    pub monthly: Vec<Date>,
    pub daily: Vec<Date>,
}

impl SyncPlan {
    /// Both partition lists hold valid dates in strictly increasing order.
    pub open spec fn wf(self) -> bool {
        &&& (forall|i: int| 0 <= i < self.monthly@.len() ==> #[trigger] self.monthly@[i].valid())
        &&& (forall|i: int| 0 <= i < self.daily@.len() ==> #[trigger] self.daily@[i].valid())
        &&& (forall|i: int, j: int|
            0 <= i < j < self.monthly@.len() ==> #[trigger] self.monthly@[i].day_number()
                < #[trigger] self.monthly@[j].day_number())
        &&& (forall|i: int, j: int|
            0 <= i < j < self.daily@.len() ==> #[trigger] self.daily@[i].day_number()
                < #[trigger] self.daily@[j].day_number())
    }
}

/// The provider of the symbol universe for one asset category. Obtaining the
/// feed itself is network I/O and lives outside the library; the
/// normalization of what it returns is here.
pub struct SymbolsProvider {
    pub config: DataConfig,
    pub asset_cat: AssetCategory,
}

impl SymbolsProvider {
    /// A universe provider over `config` for `asset_cat`.
    pub fn new(config: DataConfig, asset_cat: AssetCategory) -> (r: SymbolsProvider)
        ensures
            r.config == config,
            r.asset_cat == asset_cat,
    {
        SymbolsProvider { config, asset_cat }
    }

    /// The onboarding date assumed for a symbol whose feed record carries
    /// none.
    pub open spec fn spec_default_initdate() -> Date {
        Date { year: 2017, month: 1, day: 1 }
    }

    /// The fallback onboarding date.
    pub fn default_initdate(&self) -> (r: Date)
        ensures
            r == SymbolsProvider::spec_default_initdate(),
            r.valid(),
    {
        crate::datetime::create_utc(2017, 1, 1)
    }

    /// The onboarding date of one feed record: its epoch value — seconds or
    /// milliseconds, under the ten-character rule — as a date, or the
    /// fallback date when the record carries none. `None` only for an epoch
    /// value outside the supported calendar, which unverified callers treat
    /// as a malformed feed.
    pub fn initdate_for(&self, onboard_epoch: Option<i64>) -> (r: Option<Date>)
        ensures
            onboard_epoch is None ==> r == Some(SymbolsProvider::spec_default_initdate()),
            r matches Some(d) ==> d.valid(),
            onboard_epoch matches Some(ts) ==> {
                let ms = crate::datetime::spec_normalize_epoch(ts as int);
                r matches Some(d) ==> d.day_number() == crate::datetime::spec_epoch_date(
                ).day_number() + ms / (crate::datetime::MILLIS_PER_DAY as int)
            },
    {
        match onboard_epoch {
            None => Some(self.default_initdate()),
            Some(ts) => {
                let ms = crate::datetime::from_timestamp(&ts);
                crate::datetime::date_of_epoch_millis(ms)
            },
        }
    }
}

} // verus!
