//! The price report that an agent sends to the hub.

use chrono::{TimeZone, Utc};
use vstd::prelude::*;
use vstd::string::StringExecFns;

verus! {

/// A point in time, in whole seconds since the Unix epoch.
#[derive(Clone, Copy, Debug, PartialEq, Eq, Structural)]
pub struct TimeStamp(pub u64);

/// What the price source says of one coin. The two real-valued fields are
/// held as the bit patterns of their IEEE 754 double-precision values; the
/// hub passes them on and never computes with them.
#[derive(Clone, Debug, PartialEq, Eq)]
pub struct TokenInfoInnerResponse {
    /// Bits of the confidence, a double.
    pub confidence: u64,
    /// The number of decimals of the price.
    pub decimals: u64,
    /// Bits of the price, a double.
    pub price: u64,
    /// The coin's symbol.
    pub symbol: String,
    /// When the price was taken.
    pub timestamp: TimeStamp,
}

/// A price report: the coins by contract address, in the order in which
/// they travel.
#[derive(Clone, Debug, PartialEq, Eq)]
pub struct TokenInfoResponse {
    /// Contract address and what is known of the coin at it.
    pub coins: Vec<(String, TokenInfoInnerResponse)>,
}

/// The mathematical value of a [`TokenInfoInnerResponse`].
pub struct CoinView {
    pub confidence: u64,
    pub decimals: u64,
    pub price: u64,
    pub symbol: Seq<char>,
    pub timestamp: u64,
}

impl View for TokenInfoInnerResponse {
    type V = CoinView;

    open spec fn view(&self) -> CoinView {
        CoinView {
            confidence: self.confidence,
            decimals: self.decimals,
            price: self.price,
            symbol: self.symbol@,
            timestamp: self.timestamp.0,
        }
    }
}

/// The mathematical value of one entry of a report.
pub open spec fn entry_view(entry: (String, TokenInfoInnerResponse)) -> (Seq<char>, CoinView) {
    (entry.0@, entry.1@)
}

impl View for TokenInfoResponse {
    type V = Seq<(Seq<char>, CoinView)>;

    open spec fn view(&self) -> Seq<(Seq<char>, CoinView)> {
        self.coins@.map_values(|entry: (String, TokenInfoInnerResponse)| entry_view(entry))
    }
}

/// No address occurs twice among `coins`.
pub open spec fn distinct_addresses(coins: Seq<(Seq<char>, CoinView)>) -> bool {
    forall|i: int, j: int|
        0 <= i < j < coins.len() ==> (#[trigger] coins[i]).0 != (#[trigger] coins[j]).0
}

/// The report read as a mapping from contract address to coin. Where an
/// address occurs more than once, its last entry counts.
pub open spec fn by_address(coins: Seq<(Seq<char>, CoinView)>) -> Map<Seq<char>, CoinView>
    decreases coins.len(),
{
    if coins.len() == 0 {
        Map::empty()
    } else {
        by_address(coins.drop_last()).insert(coins.last().0, coins.last().1)
    }
}

/// The entry at `i` is what its address maps to when no later entry has the
/// same address.
proof fn lemma_last_entry_counts(coins: Seq<(Seq<char>, CoinView)>, i: int)
    requires
        0 <= i < coins.len(),
        forall|k: int| i < k < coins.len() ==> (#[trigger] coins[k]).0 != coins[i].0,
    ensures
        by_address(coins).contains_key(coins[i].0),
        by_address(coins)[coins[i].0] == coins[i].1,
    decreases coins.len(),
{
    if i < coins.len() - 1 {
        let init = coins.drop_last();
        assert(init[i] == coins[i]);
        assert forall|k: int| i < k < init.len() implies (#[trigger] init[k]).0 != init[i].0 by {
            assert(init[k] == coins[k]);
        }
        lemma_last_entry_counts(init, i);
        assert(coins[coins.len() - 1].0 != coins[i].0);
    }
}

/// An address that no entry has maps to nothing.
proof fn lemma_absent_address(coins: Seq<(Seq<char>, CoinView)>, address: Seq<char>)
    requires
        forall|k: int| 0 <= k < coins.len() ==> (#[trigger] coins[k]).0 != address,
    ensures
        !by_address(coins).contains_key(address),
    decreases coins.len(),
{
    if coins.len() > 0 {
        let init = coins.drop_last();
        assert forall|k: int| 0 <= k < init.len() implies (#[trigger] init[k]).0 != address by {
            assert(init[k] == coins[k]);
        }
        lemma_absent_address(init, address);
        assert(coins[coins.len() - 1].0 != address);
    }
}

impl TokenInfoResponse {
    /// A report as a price source makes it: no address occurs twice. A
    /// report taken from a frame need not be so; it is then read as
    /// [`by_address`] says.
    pub open spec fn wf(&self) -> bool {
        distinct_addresses(self@)
    }

    /// Whether no address occurs twice in the report.
    pub fn has_distinct_addresses(&self) -> (distinct: bool)
        ensures
            distinct == self.wf(),
    {
        let n: usize = self.coins.len();
        let mut j: usize = 0;
        while j < n
            invariant
                n == self.coins@.len(),
                j <= n,
                forall|a: int, b: int|
                    0 <= a < b < j ==> (#[trigger] self@[a]).0 != (#[trigger] self@[b]).0,
            decreases n - j,
        {
            let mut i: usize = 0;
            while i < j
                invariant
                    n == self.coins@.len(),
                    i <= j < n,
                    forall|a: int| 0 <= a < i ==> (#[trigger] self@[a]).0 != self@[j as int].0,
                decreases j - i,
            {
                if self.coins[i].0 == self.coins[j].0 {
                    assert(self@[i as int].0 == self@[j as int].0);
                    return false;
                }
                i += 1;
            }
            j += 1;
        }
        true
    }

    /// What the report says of the coin at `address`, if it names the
    /// address. Where the address occurs more than once, the last entry
    /// counts.
    pub fn get(&self, address: &String) -> (found: Option<&TokenInfoInnerResponse>)
        ensures
            match found {
                Some(coin) => by_address(self@).contains_key(address@) && by_address(
                    self@,
                )[address@] == coin@,
                None => !by_address(self@).contains_key(address@),
            },
    {
        let n: usize = self.coins.len();
        let mut i: usize = n;
        while i > 0
            invariant
                n == self.coins@.len(),
                i <= n,
                forall|k: int| i <= k < n ==> (#[trigger] self@[k]).0 != address@,
            decreases i,
        {
            i -= 1;
            if self.coins[i].0 == *address {
                proof {
                    lemma_last_entry_counts(self@, i as int);
                }
                return Some(&self.coins[i].1);
            }
        }
        proof {
            lemma_absent_address(self@, address@);
        }
        None
    }
}

/// How a time stamp is written: day, month and year with dashes between,
/// then hours, minutes and seconds with colons between.
pub open spec fn date_pattern() -> Seq<char> {
    "%d-%m-%Y %H:%M:%S"@
}

/// The moment `seconds` after the Unix epoch, in UTC, written as `pattern`
/// says; nothing where the calendar does not reach that far.
pub uninterp spec fn utc_date_time(seconds: i64, pattern: Seq<char>) -> Option<Seq<char>>;

/// Calls chrono: `Utc.timestamp_opt(seconds, 0).single()` for the moment,
/// then `format(pattern)` and `to_string` for its text. The result is a
/// function of the two arguments alone: UTC has no daylight saving and the
/// pattern names no locale. Only the one pattern of this library is let
/// in, since chrono's rendering panics on a pattern that it cannot read.
#[verifier::external_body]
fn format_utc(seconds: i64, pattern: &str) -> (text: Option<String>)
    requires
        pattern@ == date_pattern(),
    ensures
        match text {
            Some(t) => utc_date_time(seconds, pattern@) == Some(t@),
            None => utc_date_time(seconds, pattern@) is None,
        },
{
    match Utc.timestamp_opt(seconds, 0).single() {
        Some(moment) => Some(moment.format(pattern).to_string()),
        None => None,
    }
}

/// The text of a moment, or the words that stand in for a moment that has
/// none.
pub open spec fn text_or_invalid(formatted: Option<Seq<char>>) -> Seq<char> {
    match formatted {
        Some(text) => text,
        None => "Invalid timestamp"@,
    }
}

/// The text of a moment, or `Invalid timestamp` where there is none.
pub fn date_time_or_invalid(formatted: Option<String>) -> (text: String)
    ensures
        text@ == text_or_invalid(
            match formatted {
                Some(t) => Some(t@),
                None => None,
            },
        ),
{
    match formatted {
        Some(text) => text,
        None => String::from_str("Invalid timestamp"),
    }
}

impl TimeStamp {
    /// The time stamp in words. A count of seconds beyond `i64::MAX` lies
    /// beyond every calendar and has no date; it is never read as a
    /// negative count.
    pub open spec fn spec_text(&self) -> Seq<char> {
        if self.0 > i64::MAX as u64 {
            "Invalid timestamp"@
        } else {
            text_or_invalid(utc_date_time(self.0 as i64, date_pattern()))
        }
    }

    /// The time stamp as `DD-MM-YYYY HH:MM:SS` in UTC, or `Invalid
    /// timestamp` where the calendar does not reach that far.
    pub fn to_datetime_string(&self) -> (text: String)
        ensures
            text@ == self.spec_text(),
    {
        if self.0 > i64::MAX as u64 {
            date_time_or_invalid(None)
        } else {
            let seconds: i64 = self.0 as i64;
            date_time_or_invalid(format_utc(seconds, "%d-%m-%Y %H:%M:%S"))
        }
    }
}

} // verus!
