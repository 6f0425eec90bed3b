//! Turning a group's request into one that may be sent.

use vstd::prelude::*;
use vstd::string::*;

use crate::json::{member, member_value, Json, JsonValue};
use crate::number::{decimal, decimal_reads_back, lemma_decimal_digits, u64_text};
use crate::text::{ascii_lower, is_digit, join, joined, outcome, to_ascii_lower};
use crate::upbit_broker::endpoint::{
    candle_minutes, clamp_max_retries, endpoint_of, get_endpoint, is_candle_unit, method_name,
    method_of, needs_auth, normalize_path, parse_candle_minutes_unit, retries_for, rooted_path, AllowedEndpoint,
    UpbitHttpMethod, UPBIT_DEFAULT_MAX_RETRIES,
};
use crate::upbit_broker::fields::{
    ensure_allowed_keys, field_content, field_text, fields_allowed, flag_content, market_field,
    market_list, normalize_markets_csv, parse_bool_like, required_market,
};
use crate::upbit_broker::order::{order_checked, validate_order_payload, PositiveAmounts};
use crate::upbit_broker::query::{
    build_candle_query_pairs, build_order_lookup_query_pairs, build_state_filter_query_pairs,
    candle_pairs, chain, check_only, checked, count_pair, count_pair_content, in_turn,
    lookup_pairs, market_pair, market_pair_content, no_pairs, optional_market,
    optional_market_content, optional_text, optional_text_content, price_unit, price_unit_content,
    single_pair, sort_order, sort_order_content, state_pairs, Pairs,
};
use crate::upbit_broker::wire::{object_literal, pairs_to_json_object};

verus! {

#[derive(Debug)]
pub struct UpbitRequestIntent {
    pub confirm_real_order: Option<bool>,
}

/// A request as a group writes it.
#[derive(Debug)]
pub struct UpbitHttpRequest {
    pub pathname: String,
    pub method: Option<String>,
    pub query: Option<Vec<(String, JsonValue)>>,
    pub body: Option<Vec<(String, JsonValue)>>,
    pub requires_auth: bool,
    pub rate_limit_group_hint: Option<String>,
    pub max_retries: Option<u32>,
    pub intent: Option<UpbitRequestIntent>,
}

/// A request that may be sent.
#[derive(Debug)]
pub struct PreparedRequest {
    pub endpoint: AllowedEndpoint,
    pub method: UpbitHttpMethod,
    pub path: String,
    pub query_pairs: Vec<(String, String)>,
    pub body_pairs: Vec<(String, String)>,
    pub body_json: Option<String>,
    pub max_retries: u32,
    pub idempotency_key: Option<String>,
}

/// The content of a request that may be sent.
pub struct Prepared {
    pub endpoint: AllowedEndpoint,
    pub method: UpbitHttpMethod,
    pub path: Seq<char>,
    pub query_pairs: Pairs,
    pub body_pairs: Pairs,
    pub body_json: Option<Seq<char>>,
    pub max_retries: u32,
    pub idempotency_key: Option<Seq<char>>,
}

impl DeepView for PreparedRequest {
    type V = Prepared;

    open spec fn deep_view(&self) -> Prepared {
        Prepared {
            endpoint: self.endpoint,
            method: self.method,
            path: self.path@,
            query_pairs: self.query_pairs.deep_view(),
            body_pairs: self.body_pairs.deep_view(),
            body_json: self.body_json.deep_view(),
            max_retries: self.max_retries,
            idempotency_key: self.idempotency_key.deep_view(),
        }
    }
}

/// Whether the sender confirmed that a real order is meant.
pub open spec fn is_confirmed(request: UpbitHttpRequest) -> bool {
    match request.intent {
        Some(intent) => intent.confirm_real_order == Some(true),
        None => false,
    }
}

fn confirmed(request: &UpbitHttpRequest) -> (yes: bool)
    ensures
        yes == is_confirmed(*request),
{
    match &request.intent {
        Some(intent) => match intent.confirm_real_order {
            Some(flag) => flag,
            None => false,
        },
        None => false,
    }
}

pub type Members = Seq<(Seq<char>, Json)>;

/// Fields that may be absent, as none at all.
pub open spec fn given(members: Option<Members>) -> Members {
    match members {
        Some(members) => members,
        None => Seq::empty(),
    }
}

// ---------------------------------------------------------------------------
// Read endpoints
// ---------------------------------------------------------------------------

/// Only the named query fields, and no body field.
pub open spec fn only_query(
    query: Option<Members>,
    body: Option<Members>,
    allowed: Seq<Seq<char>>,
) -> Result<Pairs, Seq<char>> {
    in_turn(checked(fields_allowed(query, allowed)), checked(fields_allowed(body, Seq::empty())))
}

fn check_only_query(
    query: Option<&Vec<(String, JsonValue)>>,
    body: Option<&Vec<(String, JsonValue)>>,
    allowed: &Vec<&str>,
) -> (pairs: Result<Vec<(String, String)>, String>)
    ensures
        outcome(pairs) == only_query(query.deep_view(), body.deep_view(), allowed.deep_view()),
{
    let none: Vec<&str> = Vec::new();
    proof {
        assert(none.deep_view() =~= Seq::<Seq<char>>::empty());
    }
    chain(
        check_only(ensure_allowed_keys(query, allowed)),
        check_only(ensure_allowed_keys(body, &none)),
    )
}

pub open spec fn markets_query(query: Option<Members>) -> Result<Pairs, Seq<char>> {
    in_turn(
        checked(fields_allowed(query, seq!["is_details"@])),
        match member_value(given(query), "is_details"@) {
            None => Ok(Seq::empty()),
            Some(value) => match flag_content(value) {
                None => Err("is_details must be boolean or bool-like string."@),
                Some(flag) => Ok(
                    seq![
                        (
                            "is_details"@,
                            if flag {
                                "true"@
                            } else {
                                "false"@
                            },
                        ),
                    ],
                ),
            },
        },
    )
}

fn prepare_markets(query: Option<&Vec<(String, JsonValue)>>, members: &Vec<(String, JsonValue)>) -> (pairs:
    Result<Vec<(String, String)>, String>)
    requires
        members.deep_view() == given(query.deep_view()),
    ensures
        outcome(pairs) == markets_query(query.deep_view()),
{
    let allowed: Vec<&str> = vec!["is_details"];
    proof {
        assert(allowed.deep_view() =~= seq!["is_details"@]);
    }
    let details = match member(members, "is_details") {
        None => Ok(no_pairs()),
        Some(value) => match parse_bool_like(value) {
            None => Err("is_details must be boolean or bool-like string.".to_owned()),
            Some(flag) => {
                let word = if flag {
                    "true".to_owned()
                } else {
                    "false".to_owned()
                };
                Ok(single_pair("is_details", word))
            },
        },
    };
    chain(check_only(ensure_allowed_keys(query, &allowed)), details)
}

pub open spec fn quotes_query(members: Members) -> Result<Pairs, Seq<char>> {
    in_turn(
        checked(fields_allowed(Some(members), seq!["markets"@])),
        match field_content(members, "markets"@) {
            None => Err("markets must be a comma-separated string."@),
            Some(csv) => match market_list(csv) {
                Err(message) => Err(message),
                Ok(markets) => Ok(seq![("markets"@, joined(markets, ","@))]),
            },
        },
    )
}

fn prepare_quotes(members: &Vec<(String, JsonValue)>) -> (pairs: Result<
    Vec<(String, String)>,
    String,
>)
    ensures
        outcome(pairs) == quotes_query(members.deep_view()),
{
    let allowed: Vec<&str> = vec!["markets"];
    proof {
        assert(allowed.deep_view() =~= seq!["markets"@]);
    }
    let markets = match field_text(members, "markets") {
        None => Err("markets must be a comma-separated string.".to_owned()),
        Some(csv) => match normalize_markets_csv(csv.as_str()) {
            Err(message) => Err(message),
            Ok(markets) => Ok(single_pair("markets", join(&markets, ","))),
        },
    };
    chain(check_only(ensure_allowed_keys(Some(members), &allowed)), markets)
}

/// How many days back trades are read from; one to seven, where given.
pub open spec fn days_ago_content(members: Members) -> Result<Pairs, Seq<char>> {
    match member_value(members, "days_ago"@) {
        None => Ok(Seq::empty()),
        Some(_) => count_pair_content(
            members,
            "days_ago"@,
            0,
            7,
            "days_ago must be within 1..=7."@,
        ),
    }
}

fn days_ago(members: &Vec<(String, JsonValue)>) -> (pairs: Result<Vec<(String, String)>, String>)
    ensures
        outcome(pairs) == days_ago_content(members.deep_view()),
{
    match member(members, "days_ago") {
        None => Ok(no_pairs()),
        Some(_) => count_pair(members, "days_ago", 0, 7, "days_ago must be within 1..=7."),
    }
}

pub open spec fn trades_query(members: Members, body: Option<Members>) -> Result<
    Pairs,
    Seq<char>,
> {
    in_turn(
        in_turn(
            in_turn(
                in_turn(
                    in_turn(
                        only_query(
                            Some(members),
                            body,
                            seq!["market"@, "to"@, "count"@, "cursor"@, "days_ago"@],
                        ),
                        market_pair_content(members),
                    ),
                    optional_text_content(members, "to"@),
                ),
                count_pair_content(members, "count"@, 1, 500, "count must be within 1..=500."@),
            ),
            optional_text_content(members, "cursor"@),
        ),
        days_ago_content(members),
    )
}

fn prepare_trades(members: &Vec<(String, JsonValue)>, body: Option<&Vec<(String, JsonValue)>>) -> (pairs:
    Result<Vec<(String, String)>, String>)
    ensures
        outcome(pairs) == trades_query(members.deep_view(), body.deep_view()),
{
    let allowed: Vec<&str> = vec!["market", "to", "count", "cursor", "days_ago"];
    proof {
        assert(allowed.deep_view() =~= seq!["market"@, "to"@, "count"@, "cursor"@, "days_ago"@]);
    }
    chain(
        chain(
            chain(
                chain(
                    chain(
                        check_only_query(Some(members), body, &allowed),
                        market_pair(members),
                    ),
                    optional_text(members, "to"),
                ),
                count_pair(members, "count", 1, 500, "count must be within 1..=500."),
            ),
            optional_text(members, "cursor"),
        ),
        days_ago(members),
    )
}

pub open spec fn candles_query(members: Members, body: Option<Members>) -> Result<
    Pairs,
    Seq<char>,
> {
    in_turn(
        only_query(Some(members), body, seq!["market"@, "to"@, "count"@]),
        candle_pairs(members, 200),
    )
}

fn prepare_candles(members: &Vec<(String, JsonValue)>, body: Option<&Vec<(String, JsonValue)>>) -> (pairs:
    Result<Vec<(String, String)>, String>)
    ensures
        outcome(pairs) == candles_query(members.deep_view(), body.deep_view()),
{
    let allowed: Vec<&str> = vec!["market", "to", "count"];
    proof {
        assert(allowed.deep_view() =~= seq!["market"@, "to"@, "count"@]);
    }
    chain(
        check_only_query(Some(members), body, &allowed),
        build_candle_query_pairs(members, 200),
    )
}

pub open spec fn day_candles_query(members: Members, body: Option<Members>) -> Result<
    Pairs,
    Seq<char>,
> {
    in_turn(
        in_turn(
            only_query(
                Some(members),
                body,
                seq!["market"@, "to"@, "count"@, "converting_price_unit"@],
            ),
            candle_pairs(members, 200),
        ),
        price_unit_content(members),
    )
}

fn prepare_day_candles(
    members: &Vec<(String, JsonValue)>,
    body: Option<&Vec<(String, JsonValue)>>,
) -> (pairs: Result<Vec<(String, String)>, String>)
    ensures
        outcome(pairs) == day_candles_query(members.deep_view(), body.deep_view()),
{
    let allowed: Vec<&str> = vec!["market", "to", "count", "converting_price_unit"];
    proof {
        assert(allowed.deep_view() =~= seq![
            "market"@,
            "to"@,
            "count"@,
            "converting_price_unit"@,
        ]);
    }
    chain(
        chain(
            check_only_query(Some(members), body, &allowed),
            build_candle_query_pairs(members, 200),
        ),
        price_unit(members),
    )
}

pub open spec fn chance_query(members: Members, body: Option<Members>) -> Result<
    Pairs,
    Seq<char>,
> {
    in_turn(only_query(Some(members), body, seq!["market"@]), market_pair_content(members))
}

fn prepare_chance(members: &Vec<(String, JsonValue)>, body: Option<&Vec<(String, JsonValue)>>) -> (pairs:
    Result<Vec<(String, String)>, String>)
    ensures
        outcome(pairs) == chance_query(members.deep_view(), body.deep_view()),
{
    let allowed: Vec<&str> = vec!["market"];
    proof {
        assert(allowed.deep_view() =~= seq!["market"@]);
    }
    chain(check_only_query(Some(members), body, &allowed), market_pair(members))
}

pub open spec fn lookup_query(members: Members, body: Option<Members>) -> Result<
    Pairs,
    Seq<char>,
> {
    in_turn(
        only_query(Some(members), body, seq!["uuid"@, "identifier"@]),
        lookup_pairs(Some(members)),
    )
}

fn prepare_lookup(members: &Vec<(String, JsonValue)>, body: Option<&Vec<(String, JsonValue)>>) -> (pairs:
    Result<Vec<(String, String)>, String>)
    ensures
        outcome(pairs) == lookup_query(members.deep_view(), body.deep_view()),
{
    let allowed: Vec<&str> = vec!["uuid", "identifier"];
    proof {
        assert(allowed.deep_view() =~= seq!["uuid"@, "identifier"@]);
    }
    chain(
        check_only_query(Some(members), body, &allowed),
        build_order_lookup_query_pairs(Some(members)),
    )
}

pub open spec fn open_orders_query(query: Option<Members>, body: Option<Members>) -> Result<
    Pairs,
    Seq<char>,
> {
    let members = given(query);
    in_turn(
        in_turn(
            in_turn(
                in_turn(
                    in_turn(
                        only_query(
                            query,
                            body,
                            seq![
                                "market"@,
                                "state"@,
                                "states[]"@,
                                "page"@,
                                "limit"@,
                                "order_by"@,
                            ],
                        ),
                        optional_market_content(members),
                    ),
                    state_pairs(query, seq!["wait"@, "watch"@], "state"@, "states[]"@),
                ),
                count_pair_content(
                    members,
                    "page"@,
                    1,
                    u32::MAX as nat,
                    "page must be greater than 0."@,
                ),
            ),
            count_pair_content(members, "limit"@, 100, 100, "limit must be within 1..=100."@),
        ),
        sort_order_content(members),
    )
}

fn prepare_open_orders(
    query: Option<&Vec<(String, JsonValue)>>,
    body: Option<&Vec<(String, JsonValue)>>,
    members: &Vec<(String, JsonValue)>,
) -> (pairs: Result<Vec<(String, String)>, String>)
    requires
        members.deep_view() == given(query.deep_view()),
    ensures
        outcome(pairs) == open_orders_query(query.deep_view(), body.deep_view()),
{
    let allowed: Vec<&str> = vec!["market", "state", "states[]", "page", "limit", "order_by"];
    let states: Vec<&str> = vec!["wait", "watch"];
    proof {
        assert(allowed.deep_view() =~= seq![
            "market"@,
            "state"@,
            "states[]"@,
            "page"@,
            "limit"@,
            "order_by"@,
        ]);
        assert(states.deep_view() =~= seq!["wait"@, "watch"@]);
    }
    chain(
        chain(
            chain(
                chain(
                    chain(check_only_query(query, body, &allowed), optional_market(members)),
                    build_state_filter_query_pairs(query, &states, "state", "states[]"),
                ),
                count_pair(members, "page", 1, u32::MAX, "page must be greater than 0."),
            ),
            count_pair(members, "limit", 100, 100, "limit must be within 1..=100."),
        ),
        sort_order(members),
    )
}

pub open spec fn closed_orders_query(query: Option<Members>, body: Option<Members>) -> Result<
    Pairs,
    Seq<char>,
> {
    let members = given(query);
    in_turn(
        in_turn(
            in_turn(
                in_turn(
                    in_turn(
                        in_turn(
                            only_query(
                                query,
                                body,
                                seq![
                                    "market"@,
                                    "state"@,
                                    "states[]"@,
                                    "start_time"@,
                                    "end_time"@,
                                    "limit"@,
                                    "order_by"@,
                                ],
                            ),
                            optional_market_content(members),
                        ),
                        state_pairs(query, seq!["done"@, "cancel"@], "state"@, "states[]"@),
                    ),
                    optional_text_content(members, "start_time"@),
                ),
                optional_text_content(members, "end_time"@),
            ),
            count_pair_content(members, "limit"@, 100, 1_000, "limit must be within 1..=1000."@),
        ),
        sort_order_content(members),
    )
}

fn prepare_closed_orders(
    query: Option<&Vec<(String, JsonValue)>>,
    body: Option<&Vec<(String, JsonValue)>>,
    members: &Vec<(String, JsonValue)>,
) -> (pairs: Result<Vec<(String, String)>, String>)
    requires
        members.deep_view() == given(query.deep_view()),
    ensures
        outcome(pairs) == closed_orders_query(query.deep_view(), body.deep_view()),
{
    let allowed: Vec<&str> = vec![
        "market",
        "state",
        "states[]",
        "start_time",
        "end_time",
        "limit",
        "order_by",
    ];
    let states: Vec<&str> = vec!["done", "cancel"];
    proof {
        assert(allowed.deep_view() =~= seq![
            "market"@,
            "state"@,
            "states[]"@,
            "start_time"@,
            "end_time"@,
            "limit"@,
            "order_by"@,
        ]);
        assert(states.deep_view() =~= seq!["done"@, "cancel"@]);
    }
    chain(
        chain(
            chain(
                chain(
                    chain(
                        chain(check_only_query(query, body, &allowed), optional_market(members)),
                        build_state_filter_query_pairs(query, &states, "state", "states[]"),
                    ),
                    optional_text(members, "start_time"),
                ),
                optional_text(members, "end_time"),
            ),
            count_pair(members, "limit", 100, 1_000, "limit must be within 1..=1000."),
        ),
        sort_order(members),
    )
}

/// The query parameters of an endpoint that takes no body.
pub open spec fn read_query(
    endpoint: AllowedEndpoint,
    query: Option<Members>,
    body: Option<Members>,
) -> Result<Pairs, Seq<char>> {
    match endpoint {
        AllowedEndpoint::Markets => markets_query(query),
        AllowedEndpoint::Accounts => only_query(query, body, Seq::empty()),
        AllowedEndpoint::OpenOrders => open_orders_query(query, body),
        AllowedEndpoint::ClosedOrders => closed_orders_query(query, body),
        _ => match query {
            None => Err(
                match endpoint {
                    AllowedEndpoint::Ticker => "markets query is required."@,
                    AllowedEndpoint::Orderbook => "markets query is required."@,
                    AllowedEndpoint::OrderGet => "uuid or identifier query is required."@,
                    AllowedEndpoint::OrderCancel => "uuid or identifier query is required."@,
                    _ => "market query is required."@,
                },
            ),
            Some(members) => match endpoint {
                AllowedEndpoint::Ticker => quotes_query(members),
                AllowedEndpoint::Orderbook => quotes_query(members),
                AllowedEndpoint::TradesTicks => trades_query(members, body),
                AllowedEndpoint::CandleDays => day_candles_query(members, body),
                AllowedEndpoint::OrderChance => chance_query(members, body),
                AllowedEndpoint::OrderGet => lookup_query(members, body),
                AllowedEndpoint::OrderCancel => lookup_query(members, body),
                _ => candles_query(members, body),
            },
        },
    }
}

fn prepare_query(
    endpoint: AllowedEndpoint,
    query: Option<&Vec<(String, JsonValue)>>,
    body: Option<&Vec<(String, JsonValue)>>,
) -> (pairs: Result<Vec<(String, String)>, String>)
    ensures
        outcome(pairs) == read_query(endpoint, query.deep_view(), body.deep_view()),
{
    let none: Vec<(String, JsonValue)> = Vec::new();
    let no_keys: Vec<&str> = Vec::new();
    proof {
        assert(none.deep_view() =~= Seq::<(Seq<char>, Json)>::empty());
        assert(no_keys.deep_view() =~= Seq::<Seq<char>>::empty());
    }
    let all = match query {
        Some(members) => members,
        None => &none,
    };
    match endpoint {
        AllowedEndpoint::Markets => prepare_markets(query, all),
        AllowedEndpoint::Accounts => check_only_query(query, body, &no_keys),
        AllowedEndpoint::OpenOrders => prepare_open_orders(query, body, all),
        AllowedEndpoint::ClosedOrders => prepare_closed_orders(query, body, all),
        _ => match query {
            None => match endpoint {
                AllowedEndpoint::Ticker | AllowedEndpoint::Orderbook => Err(
                    "markets query is required.".to_owned(),
                ),
                AllowedEndpoint::OrderGet | AllowedEndpoint::OrderCancel => Err(
                    "uuid or identifier query is required.".to_owned(),
                ),
                _ => Err("market query is required.".to_owned()),
            },
            Some(members) => match endpoint {
                AllowedEndpoint::Ticker | AllowedEndpoint::Orderbook => prepare_quotes(members),
                AllowedEndpoint::TradesTicks => prepare_trades(members, body),
                AllowedEndpoint::CandleDays => prepare_day_candles(members, body),
                AllowedEndpoint::OrderChance => prepare_chance(members, body),
                AllowedEndpoint::OrderGet | AllowedEndpoint::OrderCancel => prepare_lookup(
                    members,
                    body,
                ),
                _ => prepare_candles(members, body),
            },
        },
    }
}

// ---------------------------------------------------------------------------
// Orders
// ---------------------------------------------------------------------------

/// A parameter that may be absent.
pub open spec fn optional_pair(key: Seq<char>, value: Option<Seq<char>>) -> Pairs {
    match value {
        Some(value) => seq![(key, value)],
        None => Seq::empty(),
    }
}

pub open spec fn lowered(text: Option<Seq<char>>) -> Option<Seq<char>> {
    match text {
        Some(text) => Some(ascii_lower(text)),
        None => None,
    }
}

/// The parameters of an order in the order in which they are sent.
pub open spec fn order_pairs(
    members: Members,
    market: Seq<char>,
    side: Seq<char>,
    ord_type: Seq<char>,
) -> Pairs {
    seq![("market"@, market), ("side"@, ascii_lower(side)), ("ord_type"@, ascii_lower(ord_type))]
        + optional_pair("volume"@, field_content(members, "volume"@)) + optional_pair(
        "price"@,
        field_content(members, "price"@),
    ) + optional_pair("time_in_force"@, lowered(field_content(members, "time_in_force"@)))
        + optional_pair("smp_type"@, lowered(field_content(members, "smp_type"@)))
        + optional_pair("identifier"@, field_content(members, "identifier"@))
}

/// The fields that an order may have.
pub open spec fn order_fields() -> Seq<Seq<char>> {
    seq![
        "market"@,
        "side"@,
        "ord_type"@,
        "volume"@,
        "price"@,
        "time_in_force"@,
        "smp_type"@,
        "identifier"@,
    ]
}

/// The parameters of an order that follows the rules. A real order is also
/// confirmed and has an identifier.
pub open spec fn order_body(
    members: Members,
    placed: bool,
    confirmed: bool,
    positive: PositiveAmounts,
) -> Result<Pairs, Seq<char>> {
    match required_market(members) {
        Err(message) => Err(message),
        Ok(market) => match field_content(members, "side"@) {
            None => Err("side is required."@),
            Some(side) => match field_content(members, "ord_type"@) {
                None => Err("ord_type is required."@),
                Some(ord_type) => match order_checked(
                    ascii_lower(side),
                    ascii_lower(ord_type),
                    field_content(members, "volume"@) is Some,
                    field_content(members, "price"@) is Some,
                    field_content(members, "time_in_force"@),
                    field_content(members, "smp_type"@),
                    positive,
                ) {
                    Err(message) => Err(message),
                    Ok(_) => if placed && !confirmed {
                        Err("real order is blocked: confirm_real_order must be true."@)
                    } else if placed && field_content(members, "identifier"@) is None {
                        Err("real order requires identifier."@)
                    } else {
                        Ok(order_pairs(members, market, side, ord_type))
                    },
                },
            },
        },
    }
}

fn push_optional(pairs: &mut Vec<(String, String)>, key: &str, value: Option<String>)
    ensures
        final(pairs).deep_view() == old(pairs).deep_view() + optional_pair(
            key@,
            value.deep_view(),
        ),
{
    match value {
        Some(value) => {
            pairs.push((key.to_owned(), value));
            proof {
                assert(pairs.deep_view() =~= old(pairs).deep_view() + seq![(key@, value@)]);
            }
        },
        None => {
            proof {
                assert(pairs.deep_view() =~= old(pairs).deep_view() + Seq::<
                    (Seq<char>, Seq<char>),
                >::empty());
            }
        },
    }
}

fn lower_field(text: &Option<String>) -> (out: Option<String>)
    ensures
        out.deep_view() == lowered(text.deep_view()),
{
    match text {
        Some(text) => Some(to_ascii_lower(text.as_str())),
        None => None,
    }
}

fn borrowed(text: &Option<String>) -> (out: Option<&str>)
    ensures
        out.deep_view() == text.deep_view(),
{
    match text {
        Some(text) => Some(text.as_str()),
        None => None,
    }
}

fn prepare_order(
    members: &Vec<(String, JsonValue)>,
    placed: bool,
    confirmed: bool,
    positive: PositiveAmounts,
) -> (pairs: Result<Vec<(String, String)>, String>)
    ensures
        outcome(pairs) == order_body(members.deep_view(), placed, confirmed, positive),
{
    let market = match market_field(members) {
        Err(message) => {
            return Err(message);
        },
        Ok(market) => market,
    };
    let side = match field_text(members, "side") {
        None => {
            return Err("side is required.".to_owned());
        },
        Some(side) => to_ascii_lower(side.as_str()),
    };
    let ord_type = match field_text(members, "ord_type") {
        None => {
            return Err("ord_type is required.".to_owned());
        },
        Some(ord_type) => to_ascii_lower(ord_type.as_str()),
    };
    let volume = field_text(members, "volume");
    let price = field_text(members, "price");
    let time_in_force = field_text(members, "time_in_force");
    let smp_type = field_text(members, "smp_type");
    let identifier = field_text(members, "identifier");
    match validate_order_payload(
        side.as_str(),
        ord_type.as_str(),
        borrowed(&volume),
        borrowed(&price),
        borrowed(&time_in_force),
        borrowed(&smp_type),
        positive,
    ) {
        Err(message) => {
            return Err(message);
        },
        Ok(_) => {},
    }
    if placed && !confirmed {
        return Err("real order is blocked: confirm_real_order must be true.".to_owned());
    }
    if placed && identifier.is_none() {
        return Err("real order requires identifier.".to_owned());
    }
    let mut pairs: Vec<(String, String)> = Vec::new();
    pairs.push(("market".to_owned(), market));
    pairs.push(("side".to_owned(), side));
    pairs.push(("ord_type".to_owned(), ord_type));
    proof {
        assert(pairs.deep_view() =~= seq![
            ("market"@, market@),
            ("side"@, side@),
            ("ord_type"@, ord_type@),
        ]);
    }
    push_optional(&mut pairs, "volume", volume);
    push_optional(&mut pairs, "price", price);
    push_optional(&mut pairs, "time_in_force", lower_field(&time_in_force));
    push_optional(&mut pairs, "smp_type", lower_field(&smp_type));
    push_optional(&mut pairs, "identifier", identifier);
    Ok(pairs)
}

/// The texts of an order's volume and price, for the caller to judge whether
/// they are positive numbers.
pub fn order_amounts(request: &UpbitHttpRequest) -> (amounts: (Option<String>, Option<String>))
    ensures
        amounts.0.deep_view() == field_content(given(request.body.deep_view()), "volume"@),
        amounts.1.deep_view() == field_content(given(request.body.deep_view()), "price"@),
{
    match &request.body {
        Some(members) => (field_text(members, "volume"), field_text(members, "price")),
        None => {
            proof {
                assert(given(request.body.deep_view()) =~= Seq::<(Seq<char>, Json)>::empty());
            }
            (None, None)
        },
    }
}

// ---------------------------------------------------------------------------
// Requests
// ---------------------------------------------------------------------------

/// The path that a request is sent to. For minute candles the length is
/// written in plain digits.
pub open spec fn sent_path(endpoint: AllowedEndpoint, path: Seq<char>) -> Seq<char> {
    if endpoint == AllowedEndpoint::CandleMinutes {
        "/v1/candles/minutes/"@ + decimal(candle_minutes(path)->Ok_0)
    } else {
        path
    }
}

pub open spec fn is_order(endpoint: AllowedEndpoint) -> bool {
    endpoint == AllowedEndpoint::OrderTest || endpoint == AllowedEndpoint::OrderCreate
}

/// The request to an endpoint that takes no body.
pub open spec fn prepared_read(
    request: UpbitHttpRequest,
    method: UpbitHttpMethod,
    path: Seq<char>,
    endpoint: AllowedEndpoint,
) -> Result<Prepared, Seq<char>> {
    match read_query(endpoint, request.query.deep_view(), request.body.deep_view()) {
        Err(message) => Err(message),
        Ok(pairs) => Ok(
            Prepared {
                endpoint,
                method,
                path: sent_path(endpoint, path),
                query_pairs: pairs,
                body_pairs: Seq::empty(),
                body_json: None,
                max_retries: retries_for(endpoint, request.max_retries),
                idempotency_key: None,
            },
        ),
    }
}

/// The request that places an order, or tests one.
pub open spec fn prepared_order(
    request: UpbitHttpRequest,
    method: UpbitHttpMethod,
    path: Seq<char>,
    endpoint: AllowedEndpoint,
    positive: PositiveAmounts,
) -> Result<Prepared, Seq<char>> {
    match fields_allowed(request.query.deep_view(), Seq::empty()) {
        Err(message) => Err(message),
        Ok(_) => match request.body.deep_view() {
            None => Err("order request body is required."@),
            Some(members) => match fields_allowed(Some(members), order_fields()) {
                Err(message) => Err(message),
                Ok(_) => {
                    let placed = endpoint == AllowedEndpoint::OrderCreate;
                    match order_body(members, placed, is_confirmed(request), positive) {
                        Err(message) => Err(message),
                        Ok(pairs) => Ok(
                            Prepared {
                                endpoint,
                                method,
                                path,
                                query_pairs: Seq::empty(),
                                body_pairs: pairs,
                                body_json: Some(object_literal(pairs)),
                                max_retries: retries_for(endpoint, request.max_retries),
                                idempotency_key: if placed {
                                    field_content(members, "identifier"@)
                                } else {
                                    None
                                },
                            },
                        ),
                    }
                },
            },
        },
    }
}

/// The request that may be sent for what a group asks: its endpoint is allowed,
/// it says rightly whether it is signed, and its fields follow the endpoint's
/// rules. The first rule that fails gives the message.
pub open spec fn prepared(request: UpbitHttpRequest, positive: PositiveAmounts) -> Result<
    Prepared,
    Seq<char>,
> {
    match method_of(request.method.deep_view()) {
        Err(message) => Err(message),
        Ok(method) => {
            let path = rooted_path(request.pathname@);
            match endpoint_of(method, path) {
                None => Err(
                    "endpoint not allowlisted: method="@ + method_name(method) + " path="@ + path,
                ),
                Some(endpoint) => if needs_auth(endpoint) != request.requires_auth {
                    Err("invalid requires_auth value for allowlisted endpoint."@)
                } else if is_order(endpoint) {
                    prepared_order(request, method, path, endpoint, positive)
                } else {
                    prepared_read(request, method, path, endpoint)
                },
            }
        },
    }
}

fn fields_of(members: &Option<Vec<(String, JsonValue)>>) -> (out: Option<
    &Vec<(String, JsonValue)>,
>)
    ensures
        out.deep_view() == members.deep_view(),
{
    match members {
        Some(members) => Some(members),
        None => None,
    }
}

fn prepare_order_request(
    request: &UpbitHttpRequest,
    method: UpbitHttpMethod,
    path: String,
    endpoint: AllowedEndpoint,
    positive: PositiveAmounts,
) -> (out: Result<PreparedRequest, String>)
    ensures
        outcome(out) == prepared_order(*request, method, path@, endpoint, positive),
{
    let none: Vec<&str> = Vec::new();
    proof {
        assert(none.deep_view() =~= Seq::<Seq<char>>::empty());
    }
    match ensure_allowed_keys(fields_of(&request.query), &none) {
        Err(message) => {
            return Err(message);
        },
        Ok(_) => {},
    }
    let members = match &request.body {
        None => {
            return Err("order request body is required.".to_owned());
        },
        Some(members) => members,
    };
    let allowed: Vec<&str> = vec![
        "market",
        "side",
        "ord_type",
        "volume",
        "price",
        "time_in_force",
        "smp_type",
        "identifier",
    ];
    proof {
        assert(allowed.deep_view() =~= order_fields());
    }
    match ensure_allowed_keys(Some(members), &allowed) {
        Err(message) => {
            return Err(message);
        },
        Ok(_) => {},
    }
    let placed = endpoint == AllowedEndpoint::OrderCreate;
    let pairs = match prepare_order(members, placed, confirmed(request), positive) {
        Err(message) => {
            return Err(message);
        },
        Ok(pairs) => pairs,
    };
    let idempotency_key = if placed {
        field_text(members, "identifier")
    } else {
        None
    };
    let body_json = match pairs_to_json_object(&pairs) {
        Err(message) => {
            return Err(message);
        },
        Ok(body) => body,
    };
    Ok(
        PreparedRequest {
            endpoint,
            method,
            path,
            query_pairs: no_pairs(),
            body_pairs: pairs,
            body_json: Some(body_json),
            max_retries: clamp_max_retries(endpoint, request.max_retries),
            idempotency_key,
        },
    )
}

/// The request that may be sent for what a group asks. `positive` says whether
/// the texts that [`order_amounts`] gives are positive numbers.
pub fn prepare_request(request: &UpbitHttpRequest, positive: PositiveAmounts) -> (out: Result<
    PreparedRequest,
    String,
>)
    ensures
        outcome(out) == prepared(*request, positive),
{
    let method = match UpbitHttpMethod::from_input(borrowed(&request.method)) {
        Err(message) => {
            return Err(message);
        },
        Ok(method) => method,
    };
    let path = normalize_path(request.pathname.as_str());
    let endpoint = match AllowedEndpoint::classify(method, path.as_str()) {
        None => {
            return Err(
                "endpoint not allowlisted: method=".to_owned().concat(method.as_str()).concat(
                    " path=",
                ).concat(path.as_str()),
            );
        },
        Some(endpoint) => endpoint,
    };
    if endpoint.requires_auth() != request.requires_auth {
        return Err("invalid requires_auth value for allowlisted endpoint.".to_owned());
    }
    if endpoint == AllowedEndpoint::OrderTest || endpoint == AllowedEndpoint::OrderCreate {
        return prepare_order_request(request, method, path, endpoint, positive);
    }
    let query_pairs = match prepare_query(
        endpoint,
        fields_of(&request.query),
        fields_of(&request.body),
    ) {
        Err(message) => {
            return Err(message);
        },
        Ok(pairs) => pairs,
    };
    let path = if endpoint == AllowedEndpoint::CandleMinutes {
        match parse_candle_minutes_unit(path.as_str()) {
            Err(message) => {
                return Err(message);
            },
            Ok(unit) => "/v1/candles/minutes/".to_owned().concat(u64_text(unit as u64).as_str()),
        }
    } else {
        path
    };
    Ok(
        PreparedRequest {
            endpoint,
            method,
            path,
            query_pairs,
            body_pairs: no_pairs(),
            body_json: None,
            max_retries: clamp_max_retries(endpoint, request.max_retries),
            idempotency_key: None,
        },
    )
}

// ---------------------------------------------------------------------------
// Laws
// ---------------------------------------------------------------------------

/// A real order is only ever sent when it was confirmed; it carries the
/// identifier that makes it idempotent, in its body too, and is never retried.
pub proof fn real_order_is_confirmed_and_sent_once(
    request: UpbitHttpRequest,
    positive: PositiveAmounts,
)
    requires
        prepared(request, positive) is Ok,
        prepared(request, positive)->Ok_0.endpoint == AllowedEndpoint::OrderCreate,
    ensures
        is_confirmed(request),
        prepared(request, positive)->Ok_0.max_retries == 0,
        prepared(request, positive)->Ok_0.idempotency_key is Some,
        prepared(request, positive)->Ok_0.body_pairs.contains(
            ("identifier"@, prepared(request, positive)->Ok_0.idempotency_key->Some_0),
        ),
{
    let out = prepared(request, positive)->Ok_0;
    let members = request.body.deep_view()->Some_0;
    let key = field_content(members, "identifier"@)->Some_0;
    assert(out.body_pairs.last() == ("identifier"@, key));
    assert(out.body_pairs[out.body_pairs.len() - 1] == ("identifier"@, key));
}

proof fn lemma_candle_path(n: nat)
    requires
        n <= u32::MAX,
        is_candle_unit(n),
    ensures
        get_endpoint("/v1/candles/minutes/"@ + decimal(n)) == Some(AllowedEndpoint::CandleMinutes),
{
    let prefix = "/v1/candles/minutes/"@;
    let path = prefix + decimal(n);
    decimal_reads_back(n, u32::MAX as nat);
    lemma_decimal_digits(n);
    assert(prefix.is_prefix_of(path));
    assert(path.skip(prefix.len() as int) =~= decimal(n));
    assert(!decimal(n).contains('/')) by {
        if decimal(n).contains('/') {
            let i = choose|i: int| 0 <= i < decimal(n).len() && decimal(n)[i] == '/';
            assert(is_digit(decimal(n)[i]));
        }
    }
    assert(candle_minutes(path) == Ok::<nat, Seq<char>>(n));
    reveal_strlit("/v1/candles/minutes/");
    reveal_strlit("/v1/market/all");
    reveal_strlit("/v1/ticker");
    reveal_strlit("/v1/orderbook");
    reveal_strlit("/v1/trades/ticks");
    reveal_strlit("/v1/candles/days");
    reveal_strlit("/v1/candles/weeks");
    reveal_strlit("/v1/candles/months");
    reveal_strlit("/v1/candles/years");
    assert(path.len() > 20);
}

/// Only allowed endpoints are ever sent to: the method and the path of a
/// prepared request name its endpoint, and it is signed exactly where the
/// endpoint asks for it.
pub proof fn prepared_request_is_allowed(request: UpbitHttpRequest, positive: PositiveAmounts)
    requires
        prepared(request, positive) is Ok,
    ensures
        ({
            let out = prepared(request, positive)->Ok_0;
            &&& endpoint_of(out.method, out.path) == Some(out.endpoint)
            &&& needs_auth(out.endpoint) == request.requires_auth
            &&& out.max_retries <= UPBIT_DEFAULT_MAX_RETRIES
        }),
{
    let method = method_of(request.method.deep_view())->Ok_0;
    let path = rooted_path(request.pathname@);
    let endpoint = endpoint_of(method, path)->Some_0;
    if endpoint == AllowedEndpoint::CandleMinutes {
        lemma_candle_path(candle_minutes(path)->Ok_0);
    }
}

/// Orders travel in the body alone, everything else in the query alone.
pub proof fn only_orders_have_a_body(request: UpbitHttpRequest, positive: PositiveAmounts)
    requires
        prepared(request, positive) is Ok,
    ensures
        ({
            let out = prepared(request, positive)->Ok_0;
            &&& is_order(out.endpoint) ==> out.query_pairs.len() == 0 && out.body_json == Some(
                object_literal(out.body_pairs),
            )
            &&& !is_order(out.endpoint) ==> out.body_pairs.len() == 0 && out.body_json is None
                && out.idempotency_key is None
        }),
{
}

} // verus!
