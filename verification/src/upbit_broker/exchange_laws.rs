//! What can be relied on when a request is sent: what vouches for it, how long is waited,
//! and what its answer comes to.

use vstd::prelude::*;
use vstd::string::*;
use vstd::utf8::encode_utf8;

use crate::json::{field, json_map_bytes, quoted_json, text_field, Json};
use crate::text::laws::{held_text_stays_held, joined_text_holds_its_parts};
use crate::number::{signed_value, unsigned_value};
use crate::text::{
    ascii_lower, contains_text, joined, occurs_at, split, split_once_at, trimmed, trimmed_end_of,
};
use crate::timestamp::{rfc2822_instant, Timestamp};
use crate::upbit_broker::request::PreparedRequest;
use crate::upbit_broker::endpoint::{limit_group, needs_auth, AllowedEndpoint, UpbitHttpMethod};
use crate::upbit_broker::exchange::{
    after_network_error, after_response, bears_token, credentials_of, error_detail, is_signed,
    payload_of, vouched_text, AttemptState, AttemptView,
};
use crate::upbit_broker::fields::value_content;
use crate::upbit_broker::limits::{
    block_window, first_number, limits_after_block, limits_after_header, limits_wf, masked,
    remaining_in, remaining_requests, retry_after, wait_needed, Limits,
};
use crate::upbit_broker::query::Pairs;
use crate::upbit_broker::wire::{
    base64_url, base_address, component, encoded_parameter, encoded_query, hashed_text, hex_of, hmac_sha512,
    is_unreserved, member_literal, object_literal, percent_encoded, raw_parameter, raw_query,
    request_url, sha512, signing_input, token, token_claims,
};

verus! {

// ---------------------------------------------------------------------------
// What is written
// ---------------------------------------------------------------------------

/// A value is sent as it was written: a text without the white space around it, a flag as
/// its word.
pub proof fn values_are_sent_as_written(text: Seq<char>, flag: bool)
    ensures
        value_content(Json::Text(text)) == Some(trimmed(text)),
        value_content(Json::Bool(true)) == Some("true"@),
        value_content(Json::Bool(false)) == Some("false"@),
        value_content(Json::Other(text)) == Some(text),
        value_content(Json::Null) is None,
{
}

/// The text that stands for parameters holds each of them, name and value in this order.
pub proof fn raw_query_holds_every_parameter(pairs: Pairs, i: int)
    requires
        0 <= i < pairs.len(),
    ensures
        contains_text(raw_query(pairs), pairs[i].0 + "="@ + pairs[i].1),
        contains_text(encoded_query(pairs), component(pairs[i].0) + "="@ + component(pairs[i].1)),
        contains_text(
            object_literal(pairs),
            quoted_json(pairs[i].0) + ":"@ + quoted_json(pairs[i].1),
        ),
{
    let raw = Seq::new(pairs.len(), |k: int| raw_parameter(pairs[k]));
    let encoded = Seq::new(pairs.len(), |k: int| encoded_parameter(pairs[k]));
    let members = Seq::new(pairs.len(), |k: int| member_literal(pairs[k]));
    joined_text_holds_its_parts(raw, "&"@, i);
    joined_text_holds_its_parts(encoded, "&"@, i);
    joined_text_holds_its_parts(members, ","@, i);
    assert(raw[i] == pairs[i].0 + "="@ + pairs[i].1);
    held_text_stays_held("{"@, joined(members, ","@), "}"@, members[i]);
}

/// A request goes to its path under the base address, with its parameters behind it where
/// there are any.
pub proof fn url_leads_to_the_path(base: Seq<char>, path: Seq<char>, query: Pairs)
    ensures
        (base + path).is_prefix_of(request_url(base, path, query)),
        encoded_query(query).is_suffix_of(request_url(base, path, query)),
        query.len() == 0 ==> request_url(base, path, query) == base + path,
        encoded_query(query).len() > 0 ==> request_url(base, path, query).len() == base.len()
            + path.len() + 1 + encoded_query(query).len() && request_url(base, path, query)[(base
            + path).len() as int] == '?',
{
    let url = request_url(base, path, query);
    let encoded = encoded_query(query);
    reveal_strlit("?");
    assert(url.subrange(0, (base + path).len() as int) =~= base + path);
    assert(url.subrange(url.len() - encoded.len(), url.len() as int) =~= encoded);
    if query.len() == 0 {
        assert(encoded.len() == 0);
        assert(url =~= base + path);
    }
}

// ---------------------------------------------------------------------------
// What vouches for a request
// ---------------------------------------------------------------------------

/// The token of a request names the account and vouches for what is sent: it claims the
/// access key, the nonce, and the digest of the text where there is any, and is signed
/// with the secret key, which it does not hold otherwise.
pub proof fn token_vouches_for_what_is_sent(
    access_key: Seq<char>,
    secret_key: Seq<char>,
    other_secret: Seq<char>,
    nonce: Seq<char>,
    text: Seq<char>,
)
    ensures
        ({
            let claims = token_claims(access_key, nonce, text);
            let signed = signing_input(access_key, nonce, text);
            let made = token(access_key, secret_key, nonce, text);
            &&& claims.contains(("access_key"@, access_key))
            &&& claims.contains(("nonce"@, nonce))
            &&& text.len() > 0 ==> claims.contains(
                ("query_hash"@, hex_of(sha512(encode_utf8(text)))),
            ) && claims.contains(("query_hash_alg"@, "SHA512"@))
            &&& text.len() == 0 ==> claims.len() == 2
            &&& base64_url(json_map_bytes(claims)).is_suffix_of(signed)
            &&& signed.is_prefix_of(made)
            &&& signed.is_prefix_of(token(access_key, other_secret, nonce, text))
            &&& base64_url(
                hmac_sha512(encode_utf8(secret_key), encode_utf8(signed)),
            ).is_suffix_of(made)
        }),
{
    let claims = token_claims(access_key, nonce, text);
    let signed = signing_input(access_key, nonce, text);
    let made = token(access_key, secret_key, nonce, text);
    let other = token(access_key, other_secret, nonce, text);
    let signature = base64_url(hmac_sha512(encode_utf8(secret_key), encode_utf8(signed)));
    assert(claims[0] == ("access_key"@, access_key));
    assert(claims[1] == ("nonce"@, nonce));
    if text.len() > 0 {
        assert(claims[2] == ("query_hash"@, hex_of(sha512(encode_utf8(text)))));
        assert(claims[3] == ("query_hash_alg"@, "SHA512"@));
    }
    let payload = base64_url(json_map_bytes(claims));
    assert(signed.subrange(signed.len() - payload.len(), signed.len() as int) =~= payload);
    assert(made.subrange(0, signed.len() as int) =~= signed);
    assert(other.subrange(0, signed.len() as int) =~= signed);
    assert(made.subrange(made.len() - signature.len(), made.len() as int) =~= signature);
}

/// What is vouched for is what is sent: the query of a request without a body, the body
/// of one without a query, and both, one after the other, of one with both.
pub proof fn all_that_is_sent_is_vouched_for(query: Seq<char>, body: Seq<char>)
    ensures
        hashed_text(UpbitHttpMethod::Get, query, body) == query,
        hashed_text(UpbitHttpMethod::Delete, query, body) == query,
        hashed_text(UpbitHttpMethod::Post, query, Seq::empty()) == query,
        hashed_text(UpbitHttpMethod::Post, Seq::empty(), body) == body,
        query.is_prefix_of(hashed_text(UpbitHttpMethod::Post, query, body)),
        body.is_suffix_of(hashed_text(UpbitHttpMethod::Post, query, body)),
{
    let both = hashed_text(UpbitHttpMethod::Post, query, body);
    assert(both.subrange(0, query.len() as int) =~= query);
    assert(both.subrange(both.len() - body.len(), both.len() as int) =~= body);
    assert(hashed_text(UpbitHttpMethod::Post, Seq::empty(), body) =~= body);
}

/// The access key stands for the access key, and the secret for the secret.
pub proof fn credentials_are_not_mixed_up(access_key: Seq<char>, secret_key: Seq<char>)
    ensures
        credentials_of(Some(access_key), Some(secret_key)) == Ok::<
            (Seq<char>, Seq<char>),
            Seq<char>,
        >((access_key, secret_key)),
        credentials_of(None, Some(secret_key)) is Err,
        credentials_of(Some(access_key), None) is Err,
        credentials_of(None, None) is Err,
{
}

/// What touches an account is signed, and what everyone may read is not.
pub proof fn account_requests_are_signed(endpoint: AllowedEndpoint)
    ensures
        endpoint == AllowedEndpoint::OrderCreate || endpoint == AllowedEndpoint::OrderTest
            || endpoint == AllowedEndpoint::OrderCancel || endpoint == AllowedEndpoint::OrderGet
            || endpoint == AllowedEndpoint::OrderChance || endpoint == AllowedEndpoint::OpenOrders
            || endpoint == AllowedEndpoint::ClosedOrders || endpoint == AllowedEndpoint::Accounts
            <==> needs_auth(endpoint),
{
}

// ---------------------------------------------------------------------------
// What an answer comes to
// ---------------------------------------------------------------------------

/// Just an answer that says so is a success. One that asks to slow down is followed by
/// another attempt while there are any left, never before the time that it asks for; one
/// that blocks is not, and the block lasts as long as it says. All others fail, with what
/// the answer says.
pub proof fn answers_are_taken_at_their_word(
    state: AttemptState,
    max_retries: u32,
    status: u16,
    detail: Seq<char>,
    asked: Option<u64>,
)
    ensures
        ({
            let end = after_response(state, max_retries, status, detail, asked);
            &&& end is Done <==> 200 <= status < 300
            &&& end is Retry <==> status == 429 && state.attempt < max_retries
            &&& end is Blocked <==> status == 418
            &&& end matches AttemptView::Retry { sleep_ms, .. } ==> {
                &&& asked matches Some(ms) ==> sleep_ms >= ms
                &&& asked is None ==> sleep_ms >= state.backoff_ms
                &&& sleep_ms >= 150
                &&& asked is Some && asked->Some_0 >= 150 ==> sleep_ms == asked->Some_0
            }
            &&& end matches AttemptView::Blocked { block_ms, .. } ==> (asked matches Some(ms)
                ==> block_ms == ms)
            &&& end matches AttemptView::Fail { message } ==> contains_text(message, detail)
        }),
{
    let end = after_response(state, max_retries, status, detail, asked);
    if let AttemptView::Fail { message } = end {
        let at = message.len() - detail.len();
        assert(message.subrange(at, message.len() as int) =~= detail);
        assert(occurs_at(message, detail, at));
    }
}

/// A request that did not get through is sent again while there are attempts left, after
/// a wait that doubles up to its limit; then the reason is given.
pub proof fn lost_requests_are_sent_again(
    state: AttemptState,
    max_retries: u32,
    error: Seq<char>,
)
    requires
        state.backoff_ms <= 4_000,
    ensures
        ({
            let end = after_network_error(state, max_retries, error);
            &&& end is Retry <==> state.attempt < max_retries
            &&& !(end is Retry) ==> end is Fail
            &&& end matches AttemptView::Retry { sleep_ms, next } ==> {
                &&& sleep_ms == state.backoff_ms
                &&& next.attempt == state.attempt + 1
                &&& next.backoff_ms == 2 * state.backoff_ms || next.backoff_ms == 4_000 && 2
                    * state.backoff_ms > 4_000
            }
            &&& end matches AttemptView::Fail { message } ==> contains_text(message, error)
        }),
{
    let end = after_network_error(state, max_retries, error);
    if let AttemptView::Fail { message } = end {
        let at = message.len() - error.len();
        assert(message.subrange(at, message.len() as int) =~= error);
        assert(occurs_at(message, error, at));
    }
}

/// An answer's content is what it holds: its JSON value, or its text where it is none.
pub proof fn answer_holds_its_body(body: Seq<char>, value: Json, reason: Seq<char>, shown: Seq<char>)
    ensures
        trimmed(body).len() > 0 ==> payload_of(body, Ok(value)) == value,
        trimmed(body).len() > 0 ==> payload_of(body, Err(reason)) == Json::Text(body),
        trimmed(body).len() == 0 ==> payload_of(body, Ok(value)) == Json::Null,
        error_detail(Json::Text(body), shown) == body,
        !(value is Text) && field(value, "error"@) is None ==> error_detail(value, shown) == shown,
        !(value is Text) && (field(value, "error"@) matches Some(error) && text_field(
            error,
            "message"@,
        ) == Some(reason)) ==> contains_text(error_detail(value, shown), reason),
{
    if !(value is Text) && (field(value, "error"@) matches Some(error) && text_field(
        error,
        "message"@,
    ) == Some(reason)) {
        let detail = error_detail(value, shown);
        let at = detail.len() - reason.len();
        assert(detail.subrange(at, detail.len() as int) =~= reason);
        assert(occurs_at(detail, reason, at));
    }
}

// ---------------------------------------------------------------------------
// Limits
// ---------------------------------------------------------------------------

/// A group of requests that is used up waits until its second is over, and no group waits
/// that has requests left and is not blocked.
pub proof fn used_up_group_waits_for_its_second(
    limits: Limits,
    header: Seq<char>,
    seen: i64,
    group: Seq<char>,
    left: int,
    now: int,
)
    requires
        limits_wf(limits),
        0 <= seen <= now,
        i64::MIN <= left <= i64::MAX,
        remaining_requests(header) == Some((group, Some(left))),
    ensures
        ({
            let after = limits_after_header(limits, header, seen);
            &&& left <= 0 && now < seen + 1000 ==> wait_needed(after, group, now) >= seen + 1000
                - now
            &&& (left > 0 || now >= seen + 1000) && limits.global_blocked_until_ms <= now && (
            limits.buckets.contains_key(group) ==> limits.buckets[group].blocked_until_ms <= now)
                ==> wait_needed(after, group, now) == 0
            &&& wait_needed(after, group, now) >= 0
        }),
{
}

/// A block holds for as long as it was imposed, and then no longer.
pub proof fn block_ends_when_it_said(
    limits: Limits,
    group: Seq<char>,
    wait_ms: u64,
    imposed: i64,
    other: Seq<char>,
    now: int,
)
    requires
        limits_wf(limits),
        0 <= imposed,
        imposed + wait_ms <= i64::MAX,
        imposed <= now,
    ensures
        ({
            let after = limits_after_block(limits, group, wait_ms, imposed);
            &&& now < imposed + wait_ms ==> wait_needed(after, other, now) >= imposed + wait_ms
                - now
            &&& now >= imposed + wait_ms ==> wait_needed(after, other, now) == wait_needed(
                limits,
                other,
                now,
            )
        }),
{
}

/// Orders, order tests and the kinds of market data are limited apart from each other.
pub proof fn kinds_are_limited_apart(endpoint: AllowedEndpoint)
    ensures
        limit_group(endpoint) == limit_group(AllowedEndpoint::OrderCreate) <==> endpoint
            == AllowedEndpoint::OrderCreate,
        limit_group(endpoint) == limit_group(AllowedEndpoint::OrderTest) <==> endpoint
            == AllowedEndpoint::OrderTest,
        limit_group(endpoint) == limit_group(AllowedEndpoint::Ticker) <==> endpoint
            == AllowedEndpoint::Ticker,
        limit_group(endpoint) == limit_group(AllowedEndpoint::Accounts) <==> needs_auth(endpoint)
            && endpoint != AllowedEndpoint::OrderCreate && endpoint != AllowedEndpoint::OrderTest,
{
    reveal_strlit("market");
    reveal_strlit("ticker");
    reveal_strlit("orderbook");
    reveal_strlit("trade");
    reveal_strlit("candle");
    reveal_strlit("order-test");
    reveal_strlit("order");
    reveal_strlit("default");
    assert("market"@.len() == 6 && "ticker"@.len() == 6 && "candle"@.len() == 6);
    assert("order"@.len() == 5 && "trade"@.len() == 5);
    assert("order-test"@.len() == 10 && "orderbook"@.len() == 9 && "default"@.len() == 7);
    assert("order"@[0] != "trade"@[0]);
    assert("ticker"@[0] != "market"@[0]);
    assert("ticker"@[0] != "candle"@[0]);
}

/// The header of a request bears a token of the account: named by its access key, signed
/// with its secret, and made for the text that is vouched for.
pub proof fn signed_header_bears_the_account(
    header: Result<Option<String>, String>,
    access_key: Seq<char>,
    secret_key: Seq<char>,
    text: Seq<char>,
)
    requires
        is_signed(header, access_key, secret_key, text),
    ensures
        header matches Ok(Some(value)) && exists|nonce: Seq<char>|
            nonce.len() == 36 && value@ == "Bearer "@ + (#[trigger] signing_input(
                access_key,
                nonce,
                text,
            ) + "."@ + base64_url(
                hmac_sha512(
                    encode_utf8(secret_key),
                    encode_utf8(signing_input(access_key, nonce, text)),
                ),
            )),
{
    let nonce = choose|nonce: Seq<char>|
        nonce.len() == 36 && #[trigger] bears_token(
            header,
            token(access_key, secret_key, nonce, text),
        );
    assert(bears_token(header, token(access_key, secret_key, nonce, text)));
    assert(token(access_key, secret_key, nonce, text) == signing_input(access_key, nonce, text)
        + "."@ + base64_url(
        hmac_sha512(
            encode_utf8(secret_key),
            encode_utf8(signing_input(access_key, nonce, text)),
        ),
    ));
}

/// What is vouched for are the parameters that are sent: those of the query, and of an
/// order those of its body.
pub proof fn parameters_are_vouched_for(request: PreparedRequest)
    ensures
        request.method != UpbitHttpMethod::Post ==> vouched_text(request) == raw_query(
            request.query_pairs.deep_view(),
        ),
        request.method == UpbitHttpMethod::Post && request.query_pairs@.len() == 0 ==> vouched_text(
            request,
        ) == raw_query(request.body_pairs.deep_view()),
{
    let query = raw_query(request.query_pairs.deep_view());
    let body = raw_query(request.body_pairs.deep_view());
    if request.query_pairs@.len() == 0 {
        assert(query.len() == 0);
        assert(query =~= Seq::<char>::empty());
    }
    all_that_is_sent_is_vouched_for(query, body);
}

/// Letters, digits and a few marks are sent as they are; everything else as a percent sign
/// and two digits.
pub proof fn encoding_keeps_plain_bytes(bytes: Seq<u8>, b: u8)
    ensures
        is_unreserved(b) ==> percent_encoded(bytes.push(b)) == percent_encoded(bytes).push(
            b as char,
        ),
        !is_unreserved(b) ==> percent_encoded(bytes.push(b)).len() == percent_encoded(bytes).len()
            + 3 && percent_encoded(bytes.push(b))[percent_encoded(bytes).len() as int] == '%',
        percent_encoded(bytes).is_prefix_of(percent_encoded(bytes.push(b))),
{
    assert(bytes.push(b).drop_last() =~= bytes);
    let before = percent_encoded(bytes);
    let after = percent_encoded(bytes.push(b));
    assert(after.subrange(0, before.len() as int) =~= before);
}

/// A header on what is left says it of the group that it names, and how many are left in
/// this second; what else it says makes no difference.
pub proof fn header_says_what_is_left(
    sections: Seq<Seq<char>>,
    section: Seq<char>,
    group: Seq<char>,
    left: Option<int>,
    key: Seq<char>,
    value: Seq<char>,
)
    requires
        remaining_in(sections) == Some((group, left)),
        split_once_at(section, '=') == Some((key, value)),
    ensures
        ascii_lower(trimmed(key)) == "group"@ ==> remaining_in(sections.push(section)) == Some(
            (trimmed(value), left),
        ),
        ascii_lower(trimmed(key)) == "sec"@ ==> remaining_in(sections.push(section)) == Some(
            (group, signed_value(trimmed(value), i64::MAX as nat)),
        ),
        ascii_lower(trimmed(key)) != "group"@ && ascii_lower(trimmed(key)) != "sec"@
            ==> remaining_in(sections.push(section)) == Some((group, left)),
{
    assert(sections.push(section).drop_last() =~= sections);
    reveal_strlit("group");
    reveal_strlit("sec");
    assert("group"@.len() == 5 && "sec"@.len() == 3);
}

/// A wait that is asked for in seconds is waited in milliseconds.
pub proof fn seconds_are_waited_as_milliseconds(text: Seq<char>, now: Timestamp, seconds: nat)
    requires
        unsigned_value(trimmed(text), u64::MAX as nat) == Some(seconds),
        seconds * 1000 <= u64::MAX,
    ensures
        retry_after(Some(text), now) == Some((seconds * 1000) as int),
        retry_after(None, now) is None,
{
}

/// How long a block lasts is read in the unit that is named.
pub proof fn blocks_last_in_their_unit(detail: Seq<char>, n: nat)
    requires
        first_number(split(masked(ascii_lower(detail)), ' ')) == Some(n),
        n * 60_000 <= u64::MAX,
    ensures
        ({
            let text = ascii_lower(detail);
            &&& contains_text(text, "ms"@) ==> block_window(detail) == Some(n)
            &&& !contains_text(text, "ms"@) && contains_text(text, "sec"@) ==> block_window(detail)
                == Some(n * 1_000)
            &&& !contains_text(text, "ms"@) && !contains_text(text, "sec"@) && !contains_text(
                text,
                "초"@,
            ) && contains_text(text, "min"@) ==> block_window(detail) == Some(n * 60_000)
        }),
{
}

/// A date is waited for until it has come, to the millisecond; one that has passed is not
/// waited for.
pub proof fn dates_are_waited_for(text: Seq<char>, date: Timestamp, now: Timestamp)
    requires
        unsigned_value(trimmed(text), u64::MAX as nat) is None,
        rfc2822_instant(trimmed(text)) == Some(date),
        date.nanos < 1_000_000_000,
    ensures
        retry_after(Some(text), now) is Some,
        ({
            let ms = retry_after(Some(text), now)->Some_0;
            let nanos = date.total_nanos() - now.total_nanos();
            &&& nanos > 0 ==> ms * 1_000_000 <= nanos < (ms + 1) * 1_000_000
            &&& nanos <= 0 ==> ms == 0
        }),
{
}

proof fn lemma_trimmed_end_of(s: Seq<char>, c: char)
    ensures
        trimmed_end_of(s, c).is_prefix_of(s),
        trimmed_end_of(s, c).len() > 0 ==> trimmed_end_of(s, c).last() != c,
        s.len() > 0 && s.last() != c ==> trimmed_end_of(s, c) == s,
        forall|i: int| trimmed_end_of(s, c).len() <= i < s.len() ==> #[trigger] s[i] == c,
    decreases s.len(),
{
    if s.len() > 0 && s.last() == c {
        lemma_trimmed_end_of(s.drop_last(), c);
        let kept = trimmed_end_of(s, c);
        assert(s.subrange(0, kept.len() as int) =~= s.drop_last().subrange(0, kept.len() as int));
        assert forall|i: int| kept.len() <= i < s.len() implies #[trigger] s[i] == c by {
            if i < s.len() - 1 {
                assert(s.drop_last()[i] == c);
            }
        }
    } else {
        assert(s.subrange(0, s.len() as int) =~= s);
    }
}

/// The exchange is reached at the address that is given, but for white space around it and
/// slashes at its end.
pub proof fn address_is_used_as_given(given: Seq<char>)
    ensures
        ({
            let address = base_address(Some(given));
            &&& address.is_prefix_of(trimmed(given))
            &&& address.len() > 0 ==> address.last() != '/'
            &&& trimmed(given).len() > 0 && trimmed(given).last() != '/' ==> address == trimmed(
                given,
            )
            &&& forall|i: int|
                address.len() <= i < trimmed(given).len() ==> #[trigger] trimmed(given)[i] == '/'
        }),
{
    lemma_trimmed_end_of(trimmed(given), '/');
}

} // verus!
