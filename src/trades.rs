use vstd::prelude::*;
use vstd::string::StringExecFns;

verus! {

/// Direction of a trade.
#[derive(Clone, Copy, Debug, PartialEq, Eq, Structural)]
pub enum TradeType {
    Buy,
    Sell,
}

/// Market of a trade.
#[derive(Clone, Copy, Debug, PartialEq, Eq, Structural)]
pub enum Country {
    US,
    CA,
    UK,
    AU,
}

/// What `str::to_uppercase` returns for a text.
pub uninterp spec fn upper_of(s: Seq<char>) -> Seq<char>;

/// What `str::to_lowercase` returns for a text.
pub uninterp spec fn lower_of(s: Seq<char>) -> Seq<char>;

/// Relies on `str::to_uppercase`: the result depends on the characters alone.
#[verifier::external_body]
fn uppercase(s: &str) -> (r: String)
    ensures
        r@ == upper_of(s@),
{
    s.to_uppercase()
}

/// Relies on `str::to_lowercase`: the result depends on the characters alone.
#[verifier::external_body]
fn lowercase(s: &str) -> (r: String)
    ensures
        r@ == lower_of(s@),
{
    s.to_lowercase()
}

/// The market named by an upper-case code; unknown codes give `AU`.
pub open spec fn country_of_code(code: Seq<char>) -> Country {
    if code == "US"@ {
        Country::US
    } else if code == "CA"@ {
        Country::CA
    } else if code == "UK"@ {
        Country::UK
    } else {
        Country::AU
    }
}

/// The direction named by a lower-case word; unknown words give `Buy`.
pub open spec fn trade_type_of_word(word: Seq<char>) -> TradeType {
    if word == "sell"@ {
        TradeType::Sell
    } else {
        TradeType::Buy
    }
}

impl Country {
    /// The market named by an upper-case code.
    pub fn from_code(code: &String) -> (r: Country)
        ensures
            r == country_of_code(code@),
    {
        if *code == String::from_str("US") {
            Country::US
        } else if *code == String::from_str("CA") {
            Country::CA
        } else if *code == String::from_str("UK") {
            Country::UK
        } else {
            Country::AU
        }
    }
}

impl TradeType {
    /// The direction named by a lower-case word.
    pub fn from_word(word: &String) -> (r: TradeType)
        ensures
            r == trade_type_of_word(word@),
    {
        if *word == String::from_str("sell") {
            TradeType::Sell
        } else {
            TradeType::Buy
        }
    }
}

/// What a trade does to the stored holding of its ticker.
#[derive(Clone, Copy, Debug, PartialEq, Eq, Structural)]
pub enum HoldingAction {
    /// No holding yet: store one with this many shares.
    Insert(i32),
    /// Keep the holding with this many shares.
    Update(i32),
    /// The holding drops to zero or below: remove it.
    Delete,
}

/// Shares a trade adds to its holding: the amount for a buy, its negation for
/// a sell; `None` when that does not fit in an `i32`.
pub fn holding_change(trade_type: TradeType, amount: i32) -> (r: Option<i32>)
    ensures
        trade_type is Buy ==> r == Some(amount),
        trade_type is Sell ==> (r is Some <==> amount != i32::MIN) && (r is Some ==> r.unwrap() == -amount),
{
    match trade_type {
        TradeType::Buy => Some(amount),
        TradeType::Sell => {
            if amount == i32::MIN {
                None
            } else {
                Some(-amount)
            }
        },
    }
}

/// The stored holding after a change of `change` shares: a new holding when
/// there was none, else the sum, removed once it is not positive. `None` when
/// the sum does not fit in an `i32`.
pub fn holding_after_trade(existing: Option<i32>, change: i32) -> (r: Option<HoldingAction>)
    ensures
        existing is None ==> r == Some(HoldingAction::Insert(change)),
        existing is Some ==> ({
            let total = existing.unwrap() + change;
            &&& (r is None <==> !(i32::MIN <= total <= i32::MAX))
            &&& (r is Some && total <= 0 ==> r == Some(HoldingAction::Delete))
            &&& (r is Some && total > 0 ==> r == Some(HoldingAction::Update(total as i32)))
        }),
{
    match existing {
        None => Some(HoldingAction::Insert(change)),
        Some(held) => match held.checked_add(change) {
            None => None,
            Some(total) => {
                if total <= 0 {
                    Some(HoldingAction::Delete)
                } else {
                    Some(HoldingAction::Update(total))
                }
            },
        },
    }
}

impl From<String> for Country {
    /// Reads a market code in any case.
    fn from(s: String) -> (r: Country) {
        Country::from_code(&uppercase(s.as_str()))
    }
}

impl vstd::std_specs::convert::FromSpecImpl<String> for Country {
    open spec fn obeys_from_spec() -> bool {
        true
    }

    open spec fn from_spec(s: String) -> Country {
        country_of_code(upper_of(s@))
    }
}

impl From<String> for TradeType {
    /// Reads a trade direction in any case.
    fn from(s: String) -> (r: TradeType) {
        TradeType::from_word(&lowercase(s.as_str()))
    }
}

impl vstd::std_specs::convert::FromSpecImpl<String> for TradeType {
    open spec fn obeys_from_spec() -> bool {
        true
    }

    open spec fn from_spec(s: String) -> TradeType {
        trade_type_of_word(lower_of(s@))
    }
}

} // verus!
