use base64::Engine;
use hmac::Mac;
use sha2::Digest;

use rust_claw::ipc_watcher::read_payload;
use rust_claw::json::JsonValue;
use rust_claw::timestamp::Timestamp;
use rust_claw::upbit_broker::endpoint::{
    clamp_max_retries, normalize_path, parse_candle_minutes_unit, AllowedEndpoint, UpbitHttpMethod,
};
use rust_claw::upbit_broker::exchange::{
    authorization_header, error_detail_from_payload, parse_response_payload,
    resolve_upbit_credentials, AttemptOutcome, AttemptState,
};
use rust_claw::upbit_broker::fields::{
    normalize_market_code, normalize_markets_csv, parse_bool_like, parse_u32_like, value_as_string,
};
use rust_claw::upbit_broker::limits::{
    parse_block_window_from_detail, parse_remaining_requests, parse_retry_after_ms,
    retry_delay_ms, RateLimitState,
};
use rust_claw::upbit_broker::order::{validate_order_payload, PositiveAmounts};
use rust_claw::upbit_broker::query::{
    build_candle_query_pairs, build_order_lookup_query_pairs, build_state_filter_query_pairs,
    parse_state_values,
};
use rust_claw::upbit_broker::request::{
    order_amounts, prepare_request, PreparedRequest, UpbitHttpRequest, UpbitRequestIntent,
};
use rust_claw::upbit_broker::task::{
    check_proxy_task, conclude_execution, decide_order, idempotency_file_name,
    is_upbit_proxy_request, plan_execution,
    record_answer, request_fingerprint, validate_request_id, Execution, UpbitProxyResponse,
    UpbitProxyTask,
};
use rust_claw::upbit_broker::wire::{
    build_encoded_query_string, build_query_hash_input, build_raw_query_string, build_request_url,
    create_jwt, create_jwt_with_nonce, encode_component, hex_string, normalize_base_url,
    pairs_to_json_object, sha256_hex,
};

fn json(text: &str) -> JsonValue {
    read_payload(text, "inline").expect("json")
}

fn members(text: &str) -> Vec<(String, JsonValue)> {
    match json(text) {
        JsonValue::Object(members) => members,
        other => panic!("no object: {other:?}"),
    }
}

fn pair(key: &str, value: &str) -> (String, String) {
    (key.to_string(), value.to_string())
}

const BOTH: PositiveAmounts = PositiveAmounts {
    volume: true,
    price: true,
};

fn request(pathname: &str, method: Option<&str>, auth: bool) -> UpbitHttpRequest {
    UpbitHttpRequest {
        pathname: pathname.to_string(),
        method: method.map(|m| m.to_string()),
        query: None,
        body: None,
        requires_auth: auth,
        rate_limit_group_hint: None,
        max_retries: None,
        intent: None,
    }
}

fn with_query(pathname: &str, method: Option<&str>, auth: bool, query: &str) -> UpbitHttpRequest {
    let mut request = request(pathname, method, auth);
    request.query = Some(members(query));
    request
}

fn real_order(body: &str) -> UpbitHttpRequest {
    let mut request = request("/v1/orders", Some("POST"), true);
    request.body = Some(members(body));
    request.intent = Some(UpbitRequestIntent {
        confirm_real_order: Some(true),
    });
    request
}

fn prepare(request: &UpbitHttpRequest) -> Result<PreparedRequest, String> {
    prepare_request(request, BOTH)
}

fn message(result: Result<PreparedRequest, String>) -> String {
    result.map(|_| ()).expect_err("refused")
}

#[test]
fn market_code_validation_requires_dash() {
    assert!(normalize_market_code("KRW-BTC").is_ok());
    assert!(normalize_market_code("KRWBTC").is_err());
}

#[test]
fn order_validation_enforces_best_tif_rule() {
    let err = validate_order_payload("bid", "best", None, Some("1000"), None, None, BOTH);
    assert!(err.is_err());
}

#[test]
fn state_parser_enforces_allowed_values() {
    let ok = parse_state_values(
        &json(r#"["wait", "watch"]"#),
        &vec!["wait", "watch"],
        "states[]",
    )
    .expect("parse states");
    assert_eq!(ok, vec!["wait".to_string(), "watch".to_string()]);
    assert!(parse_state_values(&json(r#"["done"]"#), &vec!["wait", "watch"], "states[]").is_err());
}

#[test]
fn state_filter_rejects_mixed_single_and_multi_keys() {
    let map = members(r#"{"state": "wait", "states[]": ["wait", "watch"]}"#);
    let err =
        build_state_filter_query_pairs(Some(&map), &vec!["wait", "watch"], "state", "states[]")
            .expect_err("mixed key should fail");
    assert!(err.contains("cannot use state and states[] together"));
}

#[test]
fn order_lookup_requires_single_selector() {
    let empty_map = members("{}");
    assert!(build_order_lookup_query_pairs(Some(&empty_map)).is_err());

    let both_map = members(r#"{"uuid": "a", "identifier": "b"}"#);
    assert!(build_order_lookup_query_pairs(Some(&both_map)).is_err());

    let only_uuid_map = members(r#"{"uuid": "abc"}"#);
    let pairs = build_order_lookup_query_pairs(Some(&only_uuid_map)).expect("uuid parse");
    assert_eq!(pairs, vec![("uuid".to_string(), "abc".to_string())]);
}

#[test]
fn candle_minutes_unit_parser_validates_supported_units() {
    let ok = parse_candle_minutes_unit("/v1/candles/minutes/15").expect("unit parse");
    assert_eq!(ok, 15);
    assert!(parse_candle_minutes_unit("/v1/candles/minutes/2").is_err());
    assert!(parse_candle_minutes_unit("/v1/candles/minutes/15/extra").is_err());
}

#[test]
fn candle_query_builder_requires_market_and_count_range() {
    let map = members(r#"{"market": "KRW-BTC", "count": 200}"#);
    let pairs = build_candle_query_pairs(&map, 200).expect("candle query");
    assert_eq!(
        pairs,
        vec![
            ("market".to_string(), "KRW-BTC".to_string()),
            ("count".to_string(), "200".to_string())
        ]
    );

    let bad_map = members(r#"{"market": "KRW-BTC", "count": 201}"#);
    assert!(build_candle_query_pairs(&bad_map, 200).is_err());
}

#[test]
fn pairs_to_json_object_keeps_pair_order() {
    let pairs = vec![
        ("market".to_string(), "KRW-BTC".to_string()),
        ("side".to_string(), "bid".to_string()),
        ("ord_type".to_string(), "price".to_string()),
        ("price".to_string(), "10000".to_string()),
        ("identifier".to_string(), "ord-123".to_string()),
    ];
    let json_body = pairs_to_json_object(&pairs).expect("json body");
    assert_eq!(
        json_body,
        "{\"market\":\"KRW-BTC\",\"side\":\"bid\",\"ord_type\":\"price\",\"price\":\"10000\",\"identifier\":\"ord-123\"}"
    );
}

#[test]
fn json_object_escapes_texts() {
    let body = pairs_to_json_object(&vec![pair("a\"b", "line\n한")]).expect("json body");
    assert_eq!(body, "{\"a\\\"b\":\"line\\n한\"}");
    assert_eq!(pairs_to_json_object(&vec![]).expect("empty"), "{}");
}

#[test]
fn methods_are_read_in_any_case() {
    assert_eq!(
        UpbitHttpMethod::from_input(None),
        Ok(UpbitHttpMethod::Get)
    );
    assert_eq!(
        UpbitHttpMethod::from_input(Some(" post ")),
        Ok(UpbitHttpMethod::Post)
    );
    assert_eq!(
        UpbitHttpMethod::from_input(Some("patch")),
        Err("unsupported method: PATCH".to_string())
    );
    assert_eq!(UpbitHttpMethod::Delete.as_str(), "DELETE");
}

#[test]
fn endpoints_are_classified() {
    assert_eq!(
        AllowedEndpoint::classify(UpbitHttpMethod::Get, "/v1/order"),
        Some(AllowedEndpoint::OrderGet)
    );
    assert_eq!(
        AllowedEndpoint::classify(UpbitHttpMethod::Delete, "/v1/order"),
        Some(AllowedEndpoint::OrderCancel)
    );
    assert_eq!(
        AllowedEndpoint::classify(UpbitHttpMethod::Get, "/v1/candles/minutes/+60"),
        Some(AllowedEndpoint::CandleMinutes)
    );
    assert_eq!(
        AllowedEndpoint::classify(UpbitHttpMethod::Post, "/v1/order"),
        None
    );
    assert!(AllowedEndpoint::Accounts.requires_auth());
    assert!(!AllowedEndpoint::Ticker.requires_auth());
    assert_eq!(AllowedEndpoint::CandleDays.rate_limit_group(), "candle");
    assert_eq!(AllowedEndpoint::OrderTest.rate_limit_group(), "order-test");
    assert_eq!(AllowedEndpoint::OrderGet.rate_limit_group(), "default");
}

#[test]
fn retries_are_clamped() {
    assert_eq!(clamp_max_retries(AllowedEndpoint::Ticker, None), 3);
    assert_eq!(clamp_max_retries(AllowedEndpoint::Ticker, Some(1)), 1);
    assert_eq!(clamp_max_retries(AllowedEndpoint::Ticker, Some(9)), 3);
    assert_eq!(clamp_max_retries(AllowedEndpoint::OrderCreate, Some(2)), 0);
}

#[test]
fn paths_get_a_slash() {
    assert_eq!(normalize_path(" v1/ticker "), "/v1/ticker");
    assert_eq!(normalize_path("/v1/ticker"), "/v1/ticker");
}

#[test]
fn minute_candle_errors_name_the_reason() {
    assert_eq!(
        parse_candle_minutes_unit("/v1/candles/days"),
        Err("invalid minute candles path.".to_string())
    );
    assert_eq!(
        parse_candle_minutes_unit("/v1/candles/minutes/"),
        Err("invalid minute candles unit path.".to_string())
    );
    assert_eq!(
        parse_candle_minutes_unit("/v1/candles/minutes/x"),
        Err("invalid minute candle unit: x".to_string())
    );
    assert_eq!(
        parse_candle_minutes_unit("/v1/candles/minutes/7"),
        Err("unsupported minute candle unit: 7".to_string())
    );
}

#[test]
fn values_are_read_as_texts_flags_and_counts() {
    assert_eq!(value_as_string(&json("\" a \"")), Some("a".to_string()));
    assert_eq!(value_as_string(&json("-5")), Some("-5".to_string()));
    assert_eq!(value_as_string(&json("1.5")), Some("1.5".to_string()));
    assert_eq!(value_as_string(&json("true")), Some("true".to_string()));
    assert_eq!(value_as_string(&json("null")), None);
    assert_eq!(parse_bool_like(&json("\"ON\"")), Some(true));
    assert_eq!(parse_bool_like(&json("\"0\"")), Some(false));
    assert_eq!(parse_bool_like(&json("\"maybe\"")), None);
    assert_eq!(parse_bool_like(&json("1")), None);
    assert_eq!(parse_u32_like(&json("7")), Ok(7));
    assert_eq!(parse_u32_like(&json("\" 42 \"")), Ok(42));
    assert_eq!(
        parse_u32_like(&json("4294967296")),
        Err("number must be an unsigned integer".to_string())
    );
    assert_eq!(
        parse_u32_like(&json("\"x\"")),
        Err("invalid integer: x".to_string())
    );
    assert_eq!(
        parse_u32_like(&json("[]")),
        Err("value must be integer-like".to_string())
    );
}

#[test]
fn market_lists_are_normalized_and_bounded() {
    assert_eq!(
        normalize_markets_csv(" krw-btc,, KRW-ETH "),
        Ok(vec!["KRW-BTC".to_string(), "KRW-ETH".to_string()])
    );
    assert_eq!(
        normalize_markets_csv(" , "),
        Err("at least one market code is required.".to_string())
    );
    assert_eq!(
        normalize_markets_csv(&vec!["KRW-BTC"; 21].join(",")),
        Err("at most 20 markets can be requested at once.".to_string())
    );
    assert_eq!(
        normalize_markets_csv("KRW-BTC,ETH"),
        Err("invalid market code: ETH".to_string())
    );
}

#[test]
fn state_filters_become_parameters() {
    let allowed = vec!["wait", "watch"];
    let single = members(r#"{"state": ["WAIT", "watch"]}"#);
    assert_eq!(
        build_state_filter_query_pairs(Some(&single), &allowed, "state", "states[]"),
        Ok(vec![pair("state", "wait")])
    );
    let multiple = members(r#"{"states[]": ["watch", "WATCH", "wait"]}"#);
    assert_eq!(
        build_state_filter_query_pairs(Some(&multiple), &allowed, "state", "states[]"),
        Ok(vec![pair("states[]", "watch"), pair("states[]", "wait")])
    );
    let bad = members(r#"{"state": "done"}"#);
    assert_eq!(
        build_state_filter_query_pairs(Some(&bad), &allowed, "state", "states[]"),
        Err("state supports only wait, watch.".to_string())
    );
    let empty = members(r#"{"states[]": []}"#);
    assert_eq!(
        build_state_filter_query_pairs(Some(&empty), &allowed, "state", "states[]"),
        Err("states[] cannot be empty.".to_string())
    );
    assert_eq!(
        build_state_filter_query_pairs(None, &allowed, "state", "states[]"),
        Ok(vec![])
    );
}

#[test]
fn read_requests_are_prepared() {
    let markets = with_query("v1/market/all", None, false, r#"{"is_details": "yes"}"#);
    let prepared = prepare(&markets).expect("markets");
    assert_eq!(prepared.endpoint, AllowedEndpoint::Markets);
    assert_eq!(prepared.query_pairs, vec![pair("is_details", "true")]);
    assert_eq!(prepared.max_retries, 3);

    let ticker = with_query("/v1/ticker", None, false, r#"{"markets": "krw-btc,krw-eth"}"#);
    assert_eq!(
        prepare(&ticker).expect("ticker").query_pairs,
        vec![pair("markets", "KRW-BTC,KRW-ETH")]
    );

    let trades = with_query(
        "/v1/trades/ticks",
        None,
        false,
        r#"{"market": "KRW-BTC", "to": "10:00:00", "cursor": "c", "days_ago": 7}"#,
    );
    assert_eq!(
        prepare(&trades).expect("trades").query_pairs,
        vec![
            pair("market", "KRW-BTC"),
            pair("to", "10:00:00"),
            pair("count", "1"),
            pair("cursor", "c"),
            pair("days_ago", "7"),
        ]
    );

    let minutes = with_query(
        "/v1/candles/minutes/+05",
        None,
        false,
        r#"{"market": "KRW-BTC"}"#,
    );
    assert_eq!(prepare(&minutes).expect("minutes").path, "/v1/candles/minutes/5");

    let days = with_query(
        "/v1/candles/days",
        None,
        false,
        r#"{"market": "KRW-BTC", "count": "10", "converting_price_unit": "krw"}"#,
    );
    assert_eq!(
        prepare(&days).expect("days").query_pairs,
        vec![
            pair("market", "KRW-BTC"),
            pair("count", "10"),
            pair("converting_price_unit", "KRW"),
        ]
    );

    let chance = with_query("/v1/orders/chance", None, true, r#"{"market": "krw-btc"}"#);
    assert_eq!(
        prepare(&chance).expect("chance").query_pairs,
        vec![pair("market", "KRW-BTC")]
    );

    let cancel = with_query("/v1/order", Some("delete"), true, r#"{"uuid": " u "}"#);
    let cancel = prepare(&cancel).expect("cancel");
    assert_eq!(cancel.endpoint, AllowedEndpoint::OrderCancel);
    assert_eq!(cancel.query_pairs, vec![pair("uuid", "u")]);

    let open = request("/v1/orders/open", None, true);
    assert_eq!(
        prepare(&open).expect("open").query_pairs,
        vec![
            pair("page", "1"),
            pair("limit", "100"),
            pair("order_by", "desc"),
        ]
    );

    let closed = with_query(
        "/v1/orders/closed",
        None,
        true,
        r#"{"market": "krw-btc", "state": "done", "start_time": "s", "end_time": "e", "limit": 1000, "order_by": "ASC"}"#,
    );
    assert_eq!(
        prepare(&closed).expect("closed").query_pairs,
        vec![
            pair("market", "KRW-BTC"),
            pair("state", "done"),
            pair("start_time", "s"),
            pair("end_time", "e"),
            pair("limit", "1000"),
            pair("order_by", "asc"),
        ]
    );
    assert!(prepare(&request("/v1/accounts", None, true))
        .expect("accounts")
        .query_pairs
        .is_empty());
}

#[test]
fn bad_read_requests_are_refused() {
    assert_eq!(
        message(prepare(&request("/v1/withdraws", None, false))),
        "endpoint not allowlisted: method=GET path=/v1/withdraws"
    );
    assert_eq!(
        message(prepare(&request("/v1/accounts", None, false))),
        "invalid requires_auth value for allowlisted endpoint."
    );
    assert_eq!(
        message(prepare(&request("/v1/ticker", None, false))),
        "markets query is required."
    );
    assert_eq!(
        message(prepare(&request("/v1/candles/weeks", None, false))),
        "market query is required."
    );
    assert_eq!(
        message(prepare(&request("/v1/order", None, true))),
        "uuid or identifier query is required."
    );
    let extra = with_query("/v1/accounts", None, true, r#"{"x": 1}"#);
    assert_eq!(message(prepare(&extra)), "unsupported field: x");
    let count = with_query(
        "/v1/trades/ticks",
        None,
        false,
        r#"{"market": "KRW-BTC", "count": 501}"#,
    );
    assert_eq!(message(prepare(&count)), "count must be within 1..=500.");
    let page = with_query("/v1/orders/open", None, true, r#"{"page": 0}"#);
    assert_eq!(message(prepare(&page)), "page must be greater than 0.");
    let order_by = with_query("/v1/orders/open", None, true, r#"{"order_by": "up"}"#);
    assert_eq!(message(prepare(&order_by)), "order_by must be asc or desc.");
    let to = with_query(
        "/v1/candles/years",
        None,
        false,
        r#"{"market": "KRW-BTC", "to": "  "}"#,
    );
    assert_eq!(message(prepare(&to)), "to cannot be empty.");
}

#[test]
fn real_orders_need_confirmation_and_identifier() {
    let body = r#"{"market": "krw-btc", "side": "BID", "ord_type": "Price", "price": 5000, "identifier": "o-1"}"#;
    let order = real_order(body);
    assert_eq!(order_amounts(&order), (None, Some("5000".to_string())));
    let prepared = prepare(&order).expect("order");
    assert_eq!(prepared.endpoint, AllowedEndpoint::OrderCreate);
    assert_eq!(prepared.max_retries, 0);
    assert_eq!(prepared.idempotency_key, Some("o-1".to_string()));
    assert_eq!(
        prepared.body_pairs,
        vec![
            pair("market", "KRW-BTC"),
            pair("side", "bid"),
            pair("ord_type", "price"),
            pair("price", "5000"),
            pair("identifier", "o-1"),
        ]
    );
    assert_eq!(
        prepared.body_json.as_deref(),
        Some("{\"market\":\"KRW-BTC\",\"side\":\"bid\",\"ord_type\":\"price\",\"price\":\"5000\",\"identifier\":\"o-1\"}")
    );

    let mut unconfirmed = real_order(body);
    unconfirmed.intent = None;
    assert_eq!(
        message(prepare(&unconfirmed)),
        "real order is blocked: confirm_real_order must be true."
    );
    let anonymous = real_order(
        r#"{"market": "krw-btc", "side": "bid", "ord_type": "price", "price": 5000}"#,
    );
    assert_eq!(message(prepare(&anonymous)), "real order requires identifier.");
    let negative = prepare_request(
        &order,
        PositiveAmounts {
            volume: true,
            price: false,
        },
    );
    assert_eq!(
        message(negative),
        "market buy (ord_type=price) requires positive price."
    );

    let mut test_order = real_order(
        r#"{"market": "krw-btc", "side": "ask", "ord_type": "best", "volume": "1", "time_in_force": "IOC", "smp_type": "REDUCE"}"#,
    );
    test_order.pathname = "/v1/orders/test".to_string();
    test_order.intent = None;
    let prepared = prepare(&test_order).expect("test order");
    assert_eq!(prepared.max_retries, 3);
    assert_eq!(prepared.idempotency_key, None);
    assert_eq!(
        prepared.body_pairs[4..],
        [pair("time_in_force", "ioc"), pair("smp_type", "reduce")]
    );
}

#[test]
fn order_rules_name_the_reason() {
    let check = |side: &str,
                 kind: &str,
                 volume: Option<&str>,
                 price: Option<&str>,
                 tif: Option<&str>,
                 smp: Option<&str>| {
        validate_order_payload(side, kind, volume, price, tif, smp, BOTH)
    };
    let reason = |text: &str| Err(text.to_string());
    assert_eq!(check("BID", "LIMIT", Some("1"), Some("2"), None, None), Ok(()));
    assert_eq!(check("ask", "market", Some("1"), None, None, None), Ok(()));
    assert_eq!(
        check("ask", "best", Some("1"), None, Some("FOK"), None),
        Ok(())
    );
    assert_eq!(
        check("buy", "limit", None, None, None, None),
        reason("side must be bid or ask.")
    );
    assert_eq!(
        check("bid", "stop", None, None, None, None),
        reason("ord_type must be one of limit, price, market, best.")
    );
    assert_eq!(
        check("bid", "limit", Some("1"), Some("1"), Some("gtc"), None),
        reason("time_in_force must be ioc, fok, or post_only.")
    );
    assert_eq!(
        check("bid", "price", None, Some("1"), Some("ioc"), None),
        reason("time_in_force is only supported for limit/best orders.")
    );
    assert_eq!(
        check("bid", "limit", Some("1"), Some("1"), None, Some("x")),
        reason("smp_type must be cancel_maker, cancel_taker, or reduce.")
    );
    assert_eq!(
        check("bid", "limit", Some("1"), Some("1"), Some("post_only"), Some("reduce")),
        reason("post_only cannot be used together with smp_type.")
    );
    assert_eq!(
        check("bid", "limit", None, Some("1"), None, None),
        reason("limit order requires positive volume.")
    );
    assert_eq!(
        check("bid", "limit", Some("1"), None, None, None),
        reason("limit order requires positive price.")
    );
    assert_eq!(
        check("bid", "price", Some("1"), Some("1"), None, None),
        reason("market buy (ord_type=price) must not include volume.")
    );
    assert_eq!(
        check("ask", "market", None, None, None, None),
        reason("market sell (ord_type=market) requires positive volume.")
    );
    assert_eq!(
        check("ask", "market", Some("1"), Some("1"), None, None),
        reason("market sell (ord_type=market) must not include price.")
    );
    assert_eq!(
        check("bid", "best", None, None, Some("ioc"), None),
        reason("best bid order requires positive price.")
    );
    assert_eq!(
        check("bid", "best", Some("1"), Some("1"), Some("ioc"), None),
        reason("best bid order must not include volume.")
    );
    assert_eq!(
        check("ask", "best", None, None, Some("ioc"), None),
        reason("best ask order requires positive volume.")
    );
    assert_eq!(
        check("ask", "best", Some("1"), Some("1"), Some("ioc"), None),
        reason("best ask order must not include price.")
    );
    assert_eq!(
        check("ask", "best", Some("1"), None, Some("post_only"), None),
        reason("best order requires time_in_force ioc or fok.")
    );
    assert_eq!(
        check("ask", "price", Some("1"), None, None, None),
        reason("unsupported side/ord_type combination: side=ask, ord_type=price")
    );
}

#[test]
fn query_strings_are_raw_and_encoded() {
    let pairs = vec![pair("states[]", "wait"), pair("to", "a b&c/한")];
    assert_eq!(build_raw_query_string(&pairs), "states[]=wait&to=a b&c/한");
    assert_eq!(
        build_encoded_query_string(&pairs),
        "states[]=wait&to=a%20b%26c%2F%ED%95%9C"
    );
    assert_eq!(encode_component("a-b_c.d~e"), "a-b_c.d~e");
    assert_eq!(
        build_request_url("https://api.upbit.com", "/v1/ticker", &vec![pair("m", "1")]),
        "https://api.upbit.com/v1/ticker?m=1"
    );
    assert_eq!(
        build_request_url("https://api.upbit.com", "/v1/accounts", &vec![]),
        "https://api.upbit.com/v1/accounts"
    );
    assert_eq!(normalize_base_url(None), "https://api.upbit.com");
    assert_eq!(normalize_base_url(Some(" http://x// ")), "http://x");
}

#[test]
fn hash_input_covers_query_and_body() {
    let post = UpbitHttpMethod::Post;
    assert_eq!(build_query_hash_input(UpbitHttpMethod::Get, "q=1", "b=2"), "q=1");
    assert_eq!(build_query_hash_input(post, "q=1", "b=2"), "q=1&b=2");
    assert_eq!(build_query_hash_input(post, "", "b=2"), "b=2");
    assert_eq!(build_query_hash_input(post, "q=1", ""), "q=1");
}

#[test]
fn digests_are_hex() {
    assert_eq!(hex_string(&[0x00, 0x0f, 0xa5, 0xff]), "000fa5ff");
    assert_eq!(
        sha256_hex("abc"),
        "ba7816bf8f01cfea414140de5dae2223b00361a396177a9cb410ff61f20015ad"
    );
}

#[test]
fn tokens_are_signed_and_vouch_for_the_query() {
    let keys = ("access".to_string(), "secret".to_string());
    let jwt = create_jwt_with_nonce(&keys, "nonce-1", "market=KRW-BTC").expect("jwt");
    let parts: Vec<&str> = jwt.split('.').collect();
    assert_eq!(parts.len(), 3);
    let engine = base64::engine::general_purpose::URL_SAFE_NO_PAD;
    assert_eq!(
        engine.decode(parts[0]).expect("header"),
        b"{\"alg\":\"HS512\",\"typ\":\"JWT\"}"
    );
    let claims: serde_json::Value =
        serde_json::from_slice(&engine.decode(parts[1]).expect("claims")).expect("json");
    assert_eq!(claims["access_key"], "access");
    assert_eq!(claims["nonce"], "nonce-1");
    assert_eq!(claims["query_hash_alg"], "SHA512");
    assert_eq!(
        claims["query_hash"],
        hex_string(sha2::Sha512::digest("market=KRW-BTC").as_slice())
    );
    let mut mac = hmac::Hmac::<sha2::Sha512>::new_from_slice(b"secret").expect("key");
    mac.update(format!("{}.{}", parts[0], parts[1]).as_bytes());
    assert_eq!(
        engine.decode(parts[2]).expect("signature"),
        mac.finalize().into_bytes().to_vec()
    );

    let plain = create_jwt_with_nonce(&keys, "n", "").expect("jwt");
    let claims = engine
        .decode(plain.split('.').nth(1).expect("claims"))
        .expect("claims");
    assert_eq!(claims, b"{\"access_key\":\"access\",\"nonce\":\"n\"}");
    assert_ne!(
        create_jwt(&keys, "").expect("jwt"),
        create_jwt(&keys, "").expect("jwt")
    );
}

#[test]
fn authorization_is_only_for_account_endpoints() {
    let ticker = prepare(&with_query("/v1/ticker", None, false, r#"{"markets": "KRW-BTC"}"#))
        .expect("ticker");
    assert_eq!(authorization_header(&ticker, None, None), Ok(None));
    let accounts = prepare(&request("/v1/accounts", None, true)).expect("accounts");
    let header = authorization_header(&accounts, Some("a".to_string()), Some("s".to_string()))
        .expect("header")
        .expect("signed");
    assert!(header.starts_with("Bearer eyJhbGciOiJIUzUxMiIsInR5cCI6IkpXVCJ9."));
    assert_eq!(
        authorization_header(&accounts, None, Some("s".to_string())),
        Err(
            "missing UPBIT_ACCESS_KEY on host environment for authenticated upbit request."
                .to_string()
        )
    );
    assert_eq!(
        resolve_upbit_credentials(Some("a".to_string()), None),
        Err(
            "missing UPBIT_SECRET_KEY on host environment for authenticated upbit request."
                .to_string()
        )
    );
}

#[test]
fn limits_hold_requests_back() {
    let mut state = RateLimitState::new();
    assert_eq!(state.wait_for_group("ticker", 1_000), 0);
    assert_eq!(
        state.update_remaining_req(Some("group=ticker; min=599; sec=0"), 1_000),
        Some("ticker".to_string())
    );
    assert_eq!(state.wait_for_group("ticker", 1_200), 850);
    assert_eq!(state.wait_for_group("ticker", 2_000), 0);
    assert_eq!(state.wait_for_group("order", 1_200), 0);
    state.remember_temporary_block("order", 5_000, 2_000);
    assert_eq!(state.wait_for_group("order", 3_000), 4_000);
    assert_eq!(state.wait_for_group("candle", 3_000), 4_000);
    state.remember_temporary_block("order", 10, 2_000);
    assert_eq!(state.wait_for_group("order", 3_000), 4_000);
    assert_eq!(state.update_remaining_req(Some("nonsense"), 3_000), None);
    assert_eq!(state.update_remaining_req(None, 3_000), None);
}

#[test]
fn remaining_requests_are_read() {
    assert_eq!(
        parse_remaining_requests("group=a; sec=3; GROUP = b"),
        Some(("b".to_string(), Some(3)))
    );
    assert_eq!(
        parse_remaining_requests("sec=x"),
        Some(("default".to_string(), None))
    );
    assert_eq!(parse_remaining_requests("group=a;"), None);
}

#[test]
fn retry_after_is_seconds_or_a_date() {
    let now = Timestamp {
        seconds: 1_445_412_475,
        nanos: 500_000_000,
    };
    assert_eq!(parse_retry_after_ms(Some(" 3 "), now), Some(3_000));
    assert_eq!(
        parse_retry_after_ms(Some("18446744073709551615"), now),
        Some(u64::MAX)
    );
    assert_eq!(
        parse_retry_after_ms(Some("Wed, 21 Oct 2015 07:28:00 GMT"), now),
        Some(4_500)
    );
    assert_eq!(
        parse_retry_after_ms(Some("Wed, 21 Oct 2015 07:27:00 GMT"), now),
        Some(0)
    );
    assert_eq!(parse_retry_after_ms(Some("soon"), now), None);
    assert_eq!(parse_retry_after_ms(None, now), None);
    let later = Timestamp {
        seconds: 1_445_412_476,
        nanos: 499_999_999,
    };
    assert_eq!(retry_delay_ms(later, now), 999);
}

#[test]
fn block_windows_are_read_from_messages() {
    assert_eq!(parse_block_window_from_detail("wait 1500 ms"), Some(1_500));
    assert_eq!(parse_block_window_from_detail("Blocked for 30 SECONDS"), Some(30_000));
    assert_eq!(parse_block_window_from_detail("2 minutes"), Some(120_000));
    assert_eq!(parse_block_window_from_detail("10초 동안"), Some(10_000));
    assert_eq!(parse_block_window_from_detail("5분"), Some(300_000));
    assert_eq!(parse_block_window_from_detail("40 hours"), None);
    assert_eq!(parse_block_window_from_detail("no number sec"), None);
}

#[test]
fn attempts_back_off_and_end() {
    let first = AttemptState::first();
    let second = match first.after_network_error(2, "down") {
        AttemptOutcome::Retry { sleep_ms, next } => {
            assert_eq!(sleep_ms, 250);
            next
        }
        other => panic!("{other:?}"),
    };
    assert_eq!((second.attempt, second.backoff_ms), (1, 500));
    let third = match second.after_response(2, 429, "slow down", Some(10)) {
        AttemptOutcome::Retry { sleep_ms, next } => {
            assert_eq!(sleep_ms, 150);
            next
        }
        other => panic!("{other:?}"),
    };
    assert_eq!(third.backoff_ms, 1_000);
    match third.after_network_error(2, "down") {
        AttemptOutcome::Fail { message } => assert_eq!(message, "upbit network error: down"),
        other => panic!("{other:?}"),
    }
    match third.after_response(2, 429, "slow", None) {
        AttemptOutcome::Fail { message } => assert_eq!(message, "upbit rate limited (429): slow"),
        other => panic!("{other:?}"),
    }
    match first.after_response(0, 418, "wait 90 sec", None) {
        AttemptOutcome::Blocked { block_ms, message } => {
            assert_eq!(block_ms, 90_000);
            assert_eq!(message, "upbit temporary block (418), retry after ~90s");
        }
        other => panic!("{other:?}"),
    }
    match first.after_response(3, 418, "?", Some(1_001)) {
        AttemptOutcome::Blocked { message, .. } => {
            assert_eq!(message, "upbit temporary block (418), retry after ~2s")
        }
        other => panic!("{other:?}"),
    }
    match first.after_response(3, 500, "boom", None) {
        AttemptOutcome::Fail { message } => assert_eq!(message, "upbit request failed (500): boom"),
        other => panic!("{other:?}"),
    }
    assert!(matches!(
        first.after_response(3, 201, "", None),
        AttemptOutcome::Done
    ));
}

#[test]
fn payloads_and_their_errors_are_read() {
    assert_eq!(parse_response_payload("  "), JsonValue::Null);
    assert_eq!(
        parse_response_payload("oops"),
        JsonValue::Text("oops".to_string())
    );
    let payload = parse_response_payload(r#"{"error": {"name": "no_funds", "message": "empty"}}"#);
    assert_eq!(error_detail_from_payload(&payload), "no_funds: empty");
    let nameless = json(r#"{"error": {"message": "empty"}}"#);
    assert_eq!(error_detail_from_payload(&nameless), "error: empty");
    let nested = r#"[1, 2.5, -3, null, true, "a\"b", {}, {"k": [], "b": 1e300}]"#;
    let value: serde_json::Value = serde_json::from_str(nested).expect("json");
    assert_eq!(error_detail_from_payload(&json(nested)), value.to_string());
    assert_eq!(error_detail_from_payload(&json("[1, 2.5, -3]")), "[1,2.5,-3]");
    assert_eq!(error_detail_from_payload(&json("\"text\"")), "text");
}

#[test]
fn tasks_are_checked() {
    assert!(is_upbit_proxy_request(&json(r#"{"type": "upbit_proxy_request"}"#)));
    assert!(!is_upbit_proxy_request(&json(r#"{"type": "message"}"#)));
    assert!(!is_upbit_proxy_request(&json("[]")));
    let task = |kind: &str, action: &str, id: &str| UpbitProxyTask {
        task_type: kind.to_string(),
        request_id: id.to_string(),
        action: action.to_string(),
        request: request("/v1/accounts", None, true),
    };
    assert_eq!(
        check_proxy_task(&task("upbit_proxy_request", "http_request", "a-1_B")),
        Ok(())
    );
    assert_eq!(
        check_proxy_task(&task("x", "http_request", "a")),
        Err("unexpected upbit proxy task type: x".to_string())
    );
    assert_eq!(
        check_proxy_task(&task("upbit_proxy_request", "x", "a")),
        Err("unsupported upbit proxy action: x".to_string())
    );
    assert_eq!(
        validate_request_id(""),
        Err("request_id is required.".to_string())
    );
    assert_eq!(
        validate_request_id("../x"),
        Err("request_id contains unsupported characters.".to_string())
    );
}

#[test]
fn real_orders_are_sent_once() {
    let order = prepare(&real_order(
        r#"{"market": "krw-btc", "side": "bid", "ord_type": "price", "price": "5000", "identifier": "o-1"}"#,
    ))
    .expect("order");
    let hash = request_fingerprint(&order);
    assert_eq!(
        hash,
        sha256_hex("POST:/v1/orders:market=KRW-BTC&side=bid&ord_type=price&price=5000&identifier=o-1")
    );
    match plan_execution(&order, None) {
        Execution::SendAndRecord { key, hash: planned } => {
            assert_eq!(key, "o-1");
            assert_eq!(planned, hash);
        }
        other => panic!("{other:?}"),
    }
    let record = record_answer(
        "o-1".to_string(),
        hash.clone(),
        &json(r#"{"uuid": "u"}"#),
        "now".to_string(),
    );
    assert_eq!(record.created_at, "now");
    match plan_execution(&order, Some(record)) {
        Execution::Replay { response } => assert_eq!(response, json(r#"{"uuid": "u"}"#)),
        other => panic!("{other:?}"),
    }
    let other_record = record_answer("o-1".to_string(), "zz".to_string(), &JsonValue::Null, String::new());
    match plan_execution(&order, Some(other_record)) {
        Execution::Refuse { message } => assert_eq!(
            message,
            "identifier already used with a different order payload."
        ),
        other => panic!("{other:?}"),
    }
    match decide_order(None, hash, None) {
        Execution::Refuse { message } => {
            assert_eq!(message, "real order requires identifier for idempotency.")
        }
        other => panic!("{other:?}"),
    }
    let accounts = prepare(&request("/v1/accounts", None, true)).expect("accounts");
    assert!(matches!(plan_execution(&accounts, None), Execution::Send));
    assert_eq!(
        idempotency_file_name("abc"),
        "ba7816bf8f01cfea414140de5dae2223b00361a396177a9cb410ff61f20015ad.json"
    );
}

#[test]
fn answers_say_whether_they_succeeded() {
    let good = UpbitProxyResponse::ok("r", JsonValue::Bool(true));
    assert!(good.ok && good.error.is_none());
    assert_eq!(good.result, Some(JsonValue::Bool(true)));
    let bad = UpbitProxyResponse::err("r", "no".to_string());
    assert!(!bad.ok && bad.result.is_none());
    assert_eq!(bad.error.as_deref(), Some("no"));
    assert_eq!(bad.request_id, "r");
}

#[test]
fn backoff_doubles_up_to_its_limit() {
    let mut state = AttemptState::first();
    let mut waits = Vec::new();
    while let AttemptOutcome::Retry { sleep_ms, next } = state.after_network_error(7, "down") {
        waits.push(sleep_ms);
        state = next;
    }
    assert_eq!(waits, vec![250, 500, 1_000, 2_000, 4_000, 4_000, 4_000]);
}

fn named_order(price: &str) -> PreparedRequest {
    prepare(&real_order(&format!(
        r#"{{"market": "krw-btc", "side": "bid", "ord_type": "price", "price": "{price}", "identifier": "o-1"}}"#,
    )))
    .expect("order")
}

#[test]
fn an_order_is_placed_once_over_two_requests() {
    let answer = || Ok(json(r#"{"uuid": "u"}"#));

    // What fails is not kept, so that the order may be sent again.
    let plan = plan_execution(&named_order("5000"), None);
    let (reply, record) = conclude_execution(plan, Err("down".to_string()), "then".to_string());
    assert_eq!(reply, Err("down".to_string()));
    assert!(record.is_none());

    let plan = plan_execution(&named_order("5000"), None);
    let (reply, record) = conclude_execution(plan, answer(), "now".to_string());
    assert_eq!(reply, answer());
    let record = record.expect("record");
    assert_eq!(record.idempotency_key, "o-1");
    assert_eq!(record.request_hash, request_fingerprint(&named_order("5000")));
    assert_eq!(record.response, json(r#"{"uuid": "u"}"#));
    assert_eq!(record.created_at, "now");

    let kept = || {
        Some(record_answer(
            record.idempotency_key.clone(),
            record.request_hash.clone(),
            &record.response,
            record.created_at.clone(),
        ))
    };
    let plan = plan_execution(&named_order("5000"), kept());
    assert!(matches!(plan, Execution::Replay { .. }));
    let (reply, again) = conclude_execution(plan, Err("unused".to_string()), String::new());
    assert_eq!(reply, answer());
    assert!(again.is_none());

    let plan = plan_execution(&named_order("6000"), kept());
    assert!(matches!(plan, Execution::Refuse { .. }));
    let (reply, again) = conclude_execution(plan, answer(), String::new());
    assert_eq!(
        reply,
        Err("identifier already used with a different order payload.".to_string())
    );
    assert!(again.is_none());

    let accounts = prepare(&request("/v1/accounts", None, true)).expect("accounts");
    let plan = plan_execution(&accounts, None);
    let (reply, record) = conclude_execution(plan, Ok(JsonValue::Null), String::new());
    assert_eq!(reply, Ok(JsonValue::Null));
    assert!(record.is_none());
}
