//! Core identifier types: asset categories and column names.

use vstd::prelude::*;
use crate::calendar::Date;

verus! {

/// A tradable instrument: its exchange name and the earliest date for which
/// published history may exist.
#[derive(Clone, Debug)]
pub struct Symbol {
    pub name: String,
    pub initdate: Date,
}

/// The column names of the canonical table.
pub struct Column {}

impl Column {
    pub const OPEN_TIME: &'static str = "open_time";

    pub const OPEN: &'static str = "open";

    pub const HIGH: &'static str = "high";

    pub const LOW: &'static str = "low";

    pub const CLOSE: &'static str = "close";

    pub const VOLUME: &'static str = "volume";

    pub const QUOTE_VOLUME: &'static str = "quote_volume";

    pub const COUNT: &'static str = "count";

    pub const TAKER_BUY_VOLUME: &'static str = "taker_buy_volume";

    pub const TAKER_BUY_QUOTE_VOLUME: &'static str = "taker_buy_quote_volume";

    pub const LOG_RETURNS: &'static str = "log_returns";

    pub const CUM_RETURNS: &'static str = "cum_returns";
}

/// The exchange namespace a store instance works in. Each category maps to a
/// distinct URI namespace and storage sub-path; it is fixed for the lifetime
/// of a provider or store.
#[derive(Clone, Copy, PartialEq, Eq, Structural, Debug)]
pub enum AssetCategory {
    Spot,
    Usdm,
    Coinm,
}

impl AssetCategory {
    /// The path / URI segment this category is addressed by.
    pub fn as_str(&self) -> (r: &'static str)
        ensures
            r@ == self.spec_str(),
    {
        match self {
            AssetCategory::Spot => "spot",
            AssetCategory::Usdm => "um",
            AssetCategory::Coinm => "cm",
        }
    }

    /// The category addressed by a path segment. An unknown segment is a
    /// hard configuration error, so it is excluded up front; unverified
    /// callers must check with [`Self::spec_of_str`]'s executable twin first.
    pub fn as_value(value: &str) -> (r: AssetCategory)
        requires
            AssetCategory::spec_of_str(value@) is Some,
        ensures
            Some(r) == AssetCategory::spec_of_str(value@),
    {
        if crate::text::str_eq(value, "spot") {
            AssetCategory::Spot
        } else if crate::text::str_eq(value, "um") {
            AssetCategory::Usdm
        } else {
            assert(value@ == "cm"@);
            AssetCategory::Coinm
        }
    }

    /// Same segment mapping as [`Self::as_str`], under the name used by the
    /// store layer.
    pub fn to_str(&self) -> (r: &'static str)
        ensures
            r@ == self.spec_str(),
    {
        self.as_str()
    }

    /// Same segment lookup as [`Self::as_value`], under the name used by the
    /// store layer.
    pub fn by_str(category: &str) -> (r: AssetCategory)
        requires
            AssetCategory::spec_of_str(category@) is Some,
        ensures
            Some(r) == AssetCategory::spec_of_str(category@),
    {
        AssetCategory::as_value(category)
    }

    /// Whether a path segment names a category; the check unverified callers
    /// make before handing the segment to [`Self::as_value`].
    pub fn is_category(value: &str) -> (r: bool)
        ensures
            r == (AssetCategory::spec_of_str(value@) is Some),
    {
        crate::text::str_eq(value, "spot") || crate::text::str_eq(value, "um")
            || crate::text::str_eq(value, "cm")
    }

    /// The segment each category is addressed by.
    pub open spec fn spec_str(self) -> Seq<char> {
        match self {
            AssetCategory::Spot => "spot"@,
            AssetCategory::Usdm => "um"@,
            AssetCategory::Coinm => "cm"@,
        }
    }

    /// The category a segment addresses, if any.
    pub open spec fn spec_of_str(s: Seq<char>) -> Option<AssetCategory> {
        if s == "spot"@ {
            Some(AssetCategory::Spot)
        } else if s == "um"@ {
            Some(AssetCategory::Usdm)
        } else if s == "cm"@ {
            Some(AssetCategory::Coinm)
        } else {
            None
        }
    }
}

} // verus!
