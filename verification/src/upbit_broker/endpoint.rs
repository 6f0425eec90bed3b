//! The endpoints that may be requested.

use vstd::prelude::*;
use vstd::string::*;

use crate::number::{decimal, parse_u32, u64_text, unsigned_value};
use crate::text::{
    ascii_upper, begins_with, has_char, outcome, same_text, strip_prefix, to_ascii_upper, trim,
    trimmed, without_prefix,
};

verus! {

#[derive(Debug, Clone, Copy, PartialEq, Eq, Structural)]
pub enum UpbitHttpMethod {
    Get,
    Post,
    Delete,
}

pub open spec fn method_name(method: UpbitHttpMethod) -> Seq<char> {
    match method {
        UpbitHttpMethod::Get => "GET"@,
        UpbitHttpMethod::Post => "POST"@,
        UpbitHttpMethod::Delete => "DELETE"@,
    }
}

/// The method that a text names, in any ASCII case; none given means `GET`.
pub open spec fn method_of(raw: Option<Seq<char>>) -> Result<UpbitHttpMethod, Seq<char>> {
    let given = match raw {
        Some(text) => text,
        None => "GET"@,
    };
    let name = ascii_upper(trimmed(given));
    if name == "GET"@ {
        Ok(UpbitHttpMethod::Get)
    } else if name == "POST"@ {
        Ok(UpbitHttpMethod::Post)
    } else if name == "DELETE"@ {
        Ok(UpbitHttpMethod::Delete)
    } else {
        Err("unsupported method: "@ + name)
    }
}

impl DeepView for UpbitHttpMethod {
    type V = UpbitHttpMethod;

    open spec fn deep_view(&self) -> UpbitHttpMethod {
        *self
    }
}

impl UpbitHttpMethod {
    /// Reads a method; none given means `GET`.
    pub fn from_input(raw: Option<&str>) -> (method: Result<UpbitHttpMethod, String>)
        ensures
            outcome(method) == method_of(raw.deep_view()),
    {
        let given = match raw {
            Some(text) => text,
            None => "GET",
        };
        let name = to_ascii_upper(trim(given).as_str());
        if same_text(name.as_str(), "GET") {
            Ok(UpbitHttpMethod::Get)
        } else if same_text(name.as_str(), "POST") {
            Ok(UpbitHttpMethod::Post)
        } else if same_text(name.as_str(), "DELETE") {
            Ok(UpbitHttpMethod::Delete)
        } else {
            Err("unsupported method: ".to_owned().concat(name.as_str()))
        }
    }

    pub fn as_str(self) -> (name: &'static str)
        ensures
            name@ == method_name(self),
    {
        match self {
            UpbitHttpMethod::Get => "GET",
            UpbitHttpMethod::Post => "POST",
            UpbitHttpMethod::Delete => "DELETE",
        }
    }
}

#[derive(Debug, Clone, Copy, PartialEq, Eq, Structural)]
pub enum AllowedEndpoint {
    Markets,
    Ticker,
    Orderbook,
    TradesTicks,
    CandleMinutes,
    CandleDays,
    CandleWeeks,
    CandleMonths,
    CandleYears,
    Accounts,
    OrderChance,
    OrderGet,
    OrderCancel,
    OpenOrders,
    ClosedOrders,
    OrderTest,
    OrderCreate,
}

/// The endpoint at a path, for a `GET`.
pub open spec fn get_endpoint(path: Seq<char>) -> Option<AllowedEndpoint> {
    if path == "/v1/market/all"@ {
        Some(AllowedEndpoint::Markets)
    } else if path == "/v1/ticker"@ {
        Some(AllowedEndpoint::Ticker)
    } else if path == "/v1/orderbook"@ {
        Some(AllowedEndpoint::Orderbook)
    } else if path == "/v1/trades/ticks"@ {
        Some(AllowedEndpoint::TradesTicks)
    } else if path == "/v1/candles/days"@ {
        Some(AllowedEndpoint::CandleDays)
    } else if path == "/v1/candles/weeks"@ {
        Some(AllowedEndpoint::CandleWeeks)
    } else if path == "/v1/candles/months"@ {
        Some(AllowedEndpoint::CandleMonths)
    } else if path == "/v1/candles/years"@ {
        Some(AllowedEndpoint::CandleYears)
    } else if candle_minutes(path) is Ok {
        Some(AllowedEndpoint::CandleMinutes)
    } else if path == "/v1/accounts"@ {
        Some(AllowedEndpoint::Accounts)
    } else if path == "/v1/orders/chance"@ {
        Some(AllowedEndpoint::OrderChance)
    } else if path == "/v1/order"@ {
        Some(AllowedEndpoint::OrderGet)
    } else if path == "/v1/orders/open"@ {
        Some(AllowedEndpoint::OpenOrders)
    } else if path == "/v1/orders/closed"@ {
        Some(AllowedEndpoint::ClosedOrders)
    } else {
        None
    }
}

/// The endpoint that a method and a path name, where it may be requested.
pub open spec fn endpoint_of(method: UpbitHttpMethod, path: Seq<char>) -> Option<AllowedEndpoint> {
    match method {
        UpbitHttpMethod::Get => get_endpoint(path),
        UpbitHttpMethod::Delete => if path == "/v1/order"@ {
            Some(AllowedEndpoint::OrderCancel)
        } else {
            None
        },
        UpbitHttpMethod::Post => if path == "/v1/orders/test"@ {
            Some(AllowedEndpoint::OrderTest)
        } else if path == "/v1/orders"@ {
            Some(AllowedEndpoint::OrderCreate)
        } else {
            None
        },
    }
}

/// Whether an endpoint touches the account, so that requests are signed.
pub open spec fn needs_auth(endpoint: AllowedEndpoint) -> bool {
    match endpoint {
        AllowedEndpoint::Accounts => true,
        AllowedEndpoint::OrderChance => true,
        AllowedEndpoint::OrderGet => true,
        AllowedEndpoint::OrderCancel => true,
        AllowedEndpoint::OpenOrders => true,
        AllowedEndpoint::ClosedOrders => true,
        AllowedEndpoint::OrderTest => true,
        AllowedEndpoint::OrderCreate => true,
        _ => false,
    }
}

/// The rate limit group of an endpoint.
pub open spec fn limit_group(endpoint: AllowedEndpoint) -> Seq<char> {
    match endpoint {
        AllowedEndpoint::Markets => "market"@,
        AllowedEndpoint::Ticker => "ticker"@,
        AllowedEndpoint::Orderbook => "orderbook"@,
        AllowedEndpoint::TradesTicks => "trade"@,
        AllowedEndpoint::CandleMinutes => "candle"@,
        AllowedEndpoint::CandleDays => "candle"@,
        AllowedEndpoint::CandleWeeks => "candle"@,
        AllowedEndpoint::CandleMonths => "candle"@,
        AllowedEndpoint::CandleYears => "candle"@,
        AllowedEndpoint::OrderTest => "order-test"@,
        AllowedEndpoint::OrderCreate => "order"@,
        _ => "default"@,
    }
}

impl AllowedEndpoint {
    /// The endpoint that a method and a path name, where it may be requested.
    pub fn classify(method: UpbitHttpMethod, pathname: &str) -> (endpoint: Option<AllowedEndpoint>)
        ensures
            endpoint == endpoint_of(method, pathname@),
    {
        match method {
            UpbitHttpMethod::Get => {
                if same_text(pathname, "/v1/market/all") {
                    Some(AllowedEndpoint::Markets)
                } else if same_text(pathname, "/v1/ticker") {
                    Some(AllowedEndpoint::Ticker)
                } else if same_text(pathname, "/v1/orderbook") {
                    Some(AllowedEndpoint::Orderbook)
                } else if same_text(pathname, "/v1/trades/ticks") {
                    Some(AllowedEndpoint::TradesTicks)
                } else if same_text(pathname, "/v1/candles/days") {
                    Some(AllowedEndpoint::CandleDays)
                } else if same_text(pathname, "/v1/candles/weeks") {
                    Some(AllowedEndpoint::CandleWeeks)
                } else if same_text(pathname, "/v1/candles/months") {
                    Some(AllowedEndpoint::CandleMonths)
                } else if same_text(pathname, "/v1/candles/years") {
                    Some(AllowedEndpoint::CandleYears)
                } else if is_candle_minutes_path(pathname) {
                    Some(AllowedEndpoint::CandleMinutes)
                } else if same_text(pathname, "/v1/accounts") {
                    Some(AllowedEndpoint::Accounts)
                } else if same_text(pathname, "/v1/orders/chance") {
                    Some(AllowedEndpoint::OrderChance)
                } else if same_text(pathname, "/v1/order") {
                    Some(AllowedEndpoint::OrderGet)
                } else if same_text(pathname, "/v1/orders/open") {
                    Some(AllowedEndpoint::OpenOrders)
                } else if same_text(pathname, "/v1/orders/closed") {
                    Some(AllowedEndpoint::ClosedOrders)
                } else {
                    None
                }
            },
            UpbitHttpMethod::Delete => {
                if same_text(pathname, "/v1/order") {
                    Some(AllowedEndpoint::OrderCancel)
                } else {
                    None
                }
            },
            UpbitHttpMethod::Post => {
                if same_text(pathname, "/v1/orders/test") {
                    Some(AllowedEndpoint::OrderTest)
                } else if same_text(pathname, "/v1/orders") {
                    Some(AllowedEndpoint::OrderCreate)
                } else {
                    None
                }
            },
        }
    }

    /// Whether requests to this endpoint are signed.
    pub fn requires_auth(self) -> (yes: bool)
        ensures
            yes == needs_auth(self),
    {
        match self {
            AllowedEndpoint::Accounts
            | AllowedEndpoint::OrderChance
            | AllowedEndpoint::OrderGet
            | AllowedEndpoint::OrderCancel
            | AllowedEndpoint::OpenOrders
            | AllowedEndpoint::ClosedOrders
            | AllowedEndpoint::OrderTest
            | AllowedEndpoint::OrderCreate => true,
            _ => false,
        }
    }

    /// The rate limit group of this endpoint.
    pub fn rate_limit_group(self) -> (group: &'static str)
        ensures
            group@ == limit_group(self),
    {
        match self {
            AllowedEndpoint::Markets => "market",
            AllowedEndpoint::Ticker => "ticker",
            AllowedEndpoint::Orderbook => "orderbook",
            AllowedEndpoint::TradesTicks => "trade",
            AllowedEndpoint::CandleMinutes
            | AllowedEndpoint::CandleDays
            | AllowedEndpoint::CandleWeeks
            | AllowedEndpoint::CandleMonths
            | AllowedEndpoint::CandleYears => "candle",
            AllowedEndpoint::OrderTest => "order-test",
            AllowedEndpoint::OrderCreate => "order",
            _ => "default",
        }
    }
}

pub const UPBIT_DEFAULT_MAX_RETRIES: u32 = 3;

/// The retries that a request gets: what it asks for, up to the default, and
/// none for a real order.
pub open spec fn retries_for(endpoint: AllowedEndpoint, requested: Option<u32>) -> u32 {
    if endpoint == AllowedEndpoint::OrderCreate {
        0
    } else {
        match requested {
            Some(n) => if n < UPBIT_DEFAULT_MAX_RETRIES {
                n
            } else {
                UPBIT_DEFAULT_MAX_RETRIES
            },
            None => UPBIT_DEFAULT_MAX_RETRIES,
        }
    }
}

/// The retries that a request gets.
pub fn clamp_max_retries(endpoint: AllowedEndpoint, requested: Option<u32>) -> (retries: u32)
    ensures
        retries == retries_for(endpoint, requested),
{
    if endpoint == AllowedEndpoint::OrderCreate {
        return 0;
    }
    match requested {
        Some(n) => if n < UPBIT_DEFAULT_MAX_RETRIES {
            n
        } else {
            UPBIT_DEFAULT_MAX_RETRIES
        },
        None => UPBIT_DEFAULT_MAX_RETRIES,
    }
}

// ---------------------------------------------------------------------------
// Paths
// ---------------------------------------------------------------------------

/// A path without surrounding white space, with a slash in front.
pub open spec fn rooted_path(raw: Seq<char>) -> Seq<char> {
    let path = trimmed(raw);
    if "/"@.is_prefix_of(path) {
        path
    } else {
        "/"@ + path
    }
}

/// A path without surrounding white space, with a slash in front.
pub fn normalize_path(raw: &str) -> (path: String)
    ensures
        path@ == rooted_path(raw@),
{
    let path = trim(raw);
    if begins_with(path.as_str(), "/") {
        path
    } else {
        "/".to_owned().concat(path.as_str())
    }
}

/// The lengths, in minutes, of the minute candles.
pub open spec fn is_candle_unit(unit: nat) -> bool {
    unit == 1 || unit == 3 || unit == 5 || unit == 10 || unit == 15 || unit == 30 || unit == 60
        || unit == 240
}

/// The length that a minute candle path names.
pub open spec fn candle_minutes(path: Seq<char>) -> Result<nat, Seq<char>> {
    match without_prefix(path, "/v1/candles/minutes/"@) {
        None => Err("invalid minute candles path."@),
        Some(unit) => if unit.len() == 0 || unit.contains('/') {
            Err("invalid minute candles unit path."@)
        } else {
            match unsigned_value(unit, u32::MAX as nat) {
                None => Err("invalid minute candle unit: "@ + unit),
                Some(n) => if is_candle_unit(n) {
                    Ok(n)
                } else {
                    Err("unsupported minute candle unit: "@ + decimal(n))
                },
            }
        },
    }
}

/// Whether a path names minute candles of a known length.
pub fn is_candle_minutes_path(path: &str) -> (yes: bool)
    ensures
        yes == (candle_minutes(path@) is Ok),
{
    parse_candle_minutes_unit(path).is_ok()
}

/// The length that a minute candle path names.
pub fn parse_candle_minutes_unit(path: &str) -> (unit: Result<u32, String>)
    ensures
        match unit {
            Ok(n) => candle_minutes(path@) == Ok::<nat, Seq<char>>(n as nat),
            Err(message) => candle_minutes(path@) == Err::<nat, Seq<char>>(message@),
        },
{
    let unit = match strip_prefix(path, "/v1/candles/minutes/") {
        None => {
            return Err("invalid minute candles path.".to_owned());
        },
        Some(unit) => unit,
    };
    if unit.as_str().is_empty() || has_char(unit.as_str(), '/') {
        return Err("invalid minute candles unit path.".to_owned());
    }
    match parse_u32(unit.as_str()) {
        None => Err("invalid minute candle unit: ".to_owned().concat(unit.as_str())),
        Some(n) => {
            if n == 1 || n == 3 || n == 5 || n == 10 || n == 15 || n == 30 || n == 60 || n == 240 {
                Ok(n)
            } else {
                Err(
                    "unsupported minute candle unit: ".to_owned().concat(
                        u64_text(n as u64).as_str(),
                    ),
                )
            }
        },
    }
}

} // verus!
