//! What can be relied on of the requests that are sent: they say what the group
//! wrote, no more and no less.

use vstd::prelude::*;
use vstd::seq_lib::*;
use vstd::string::*;

use crate::json::{member_value, Json};
use crate::number::{decimal, decimal_reads_back, lemma_decimal_digits, unsigned_value};
use crate::text::laws::joined_text_holds_its_parts;
use crate::text::{
    ascii_lower, ascii_upper, contains_text, is_digit, is_space, joined, split, trimmed,
    trimmed_end, trimmed_start,
};
use crate::upbit_broker::endpoint::{
    candle_minutes, method_name, rooted_path, AllowedEndpoint, UpbitHttpMethod,
    UPBIT_DEFAULT_MAX_RETRIES,
};
use crate::upbit_broker::fields::{
    field_content, field_count_content, fields_allowed, flag_content, market_entries,
    required_market, value_content,
};
use crate::upbit_broker::order::{order_checked, PositiveAmounts};
use crate::upbit_broker::query::{
    candle_pairs, checked, count_pair_content, distinct_lower, in_turn, listed_contents,
    lookup_pairs, market_pair_content, optional_market_content, optional_text_content,
    price_unit_content, sort_order_content, state_pairs, states_of, Pairs,
};
use crate::upbit_broker::request::{
    closed_orders_query, days_ago_content, is_order, lowered, only_query, open_orders_query,
    optional_pair, order_pairs, prepared, quotes_query, trades_query, Members, UpbitHttpRequest,
};
use crate::upbit_broker::wire::object_literal;

verus! {

// ---------------------------------------------------------------------------
// Orders
// ---------------------------------------------------------------------------

/// Whether a field of a request holds a text, or a number or flag that is written
/// as this text.
pub open spec fn gives(members: Members, key: Seq<char>, text: Seq<char>) -> bool {
    member_value(members, key) matches Some(value) && value_content(value) == Some(text)
}

/// Whether a pair says what the field of its name holds, but for the case of letters
/// and surrounding white space.
pub open spec fn repeats(members: Members, pair: (Seq<char>, Seq<char>)) -> bool {
    exists|text: Seq<char>| #[trigger]
        gives(members, pair.0, text) && (pair.1 == text || pair.1 == ascii_lower(text) || pair.1
            == ascii_upper(trimmed(text)))
}

proof fn lemma_field_names()
    ensures
        "market"@ != "volume"@,
        "ord_type"@ != "smp_type"@,
        "market"@.len() == 6,
        "side"@.len() == 4,
        "ord_type"@.len() == 8,
        "volume"@.len() == 6,
        "price"@.len() == 5,
        "time_in_force"@.len() == 13,
        "smp_type"@.len() == 8,
        "identifier"@.len() == 10,
{
    reveal_strlit("market");
    reveal_strlit("side");
    reveal_strlit("ord_type");
    reveal_strlit("volume");
    reveal_strlit("price");
    reveal_strlit("time_in_force");
    reveal_strlit("smp_type");
    reveal_strlit("identifier");
    assert("market"@[0] != "volume"@[0]);
    assert("ord_type"@[0] != "smp_type"@[0]);
}

proof fn lemma_optional_pair(key: Seq<char>, value: Option<Seq<char>>, pair: (Seq<char>, Seq<char>))
    ensures
        optional_pair(key, value).contains(pair) <==> value is Some && pair == (key, value->Some_0),
{
    if value is Some {
        assert(optional_pair(key, value)[0] == (key, value->Some_0));
    }
}

proof fn lemma_order_pairs(
    members: Members,
    market: Seq<char>,
    side: Seq<char>,
    ord_type: Seq<char>,
    pair: (Seq<char>, Seq<char>),
)
    ensures
        order_pairs(members, market, side, ord_type).contains(pair) <==> {
            ||| pair == ("market"@, market)
            ||| pair == ("side"@, ascii_lower(side))
            ||| pair == ("ord_type"@, ascii_lower(ord_type))
            ||| pair.0 == "volume"@ && field_content(members, "volume"@) == Some(pair.1)
            ||| pair.0 == "price"@ && field_content(members, "price"@) == Some(pair.1)
            ||| pair.0 == "time_in_force"@ && lowered(field_content(members, "time_in_force"@))
                == Some(pair.1)
            ||| pair.0 == "smp_type"@ && lowered(field_content(members, "smp_type"@)) == Some(
                pair.1,
            )
            ||| pair.0 == "identifier"@ && field_content(members, "identifier"@) == Some(pair.1)
        },
{
    let fixed = seq![
        ("market"@, market),
        ("side"@, ascii_lower(side)),
        ("ord_type"@, ascii_lower(ord_type)),
    ];
    let volume = optional_pair("volume"@, field_content(members, "volume"@));
    let price = optional_pair("price"@, field_content(members, "price"@));
    let lifetime = optional_pair(
        "time_in_force"@,
        lowered(field_content(members, "time_in_force"@)),
    );
    let smp = optional_pair("smp_type"@, lowered(field_content(members, "smp_type"@)));
    let identifier = optional_pair("identifier"@, field_content(members, "identifier"@));
    lemma_optional_pair("volume"@, field_content(members, "volume"@), pair);
    lemma_optional_pair("price"@, field_content(members, "price"@), pair);
    lemma_optional_pair("time_in_force"@, lowered(field_content(members, "time_in_force"@)), pair);
    lemma_optional_pair("smp_type"@, lowered(field_content(members, "smp_type"@)), pair);
    lemma_optional_pair("identifier"@, field_content(members, "identifier"@), pair);
    assert(fixed[0] == ("market"@, market));
    assert(fixed[1] == ("side"@, ascii_lower(side)));
    assert(fixed[2] == ("ord_type"@, ascii_lower(ord_type)));
    lemma_seq_concat_contains_all_elements(fixed, volume, pair);
    lemma_seq_concat_contains_all_elements(fixed + volume, price, pair);
    lemma_seq_concat_contains_all_elements(fixed + volume + price, lifetime, pair);
    lemma_seq_concat_contains_all_elements(fixed + volume + price + lifetime, smp, pair);
    lemma_seq_concat_contains_all_elements(
        fixed + volume + price + lifetime + smp,
        identifier,
        pair,
    );
}

/// An order is sent as it was written. Its volume, its price and its identifier are
/// sent under their own names exactly as the request gives them, its side, kind,
/// lifetime and self-match rule in lower case, its market in upper case; a field
/// that is absent is not sent, and nothing else is.
pub proof fn order_is_sent_as_written(request: UpbitHttpRequest, positive: PositiveAmounts)
    requires
        prepared(request, positive) is Ok,
        is_order(prepared(request, positive)->Ok_0.endpoint),
    ensures
        request.body.deep_view() is Some,
        ({
            let sent = prepared(request, positive)->Ok_0.body_pairs;
            let members = request.body.deep_view()->Some_0;
            &&& forall|text: Seq<char>| #[trigger]
                sent.contains(("volume"@, text)) <==> gives(members, "volume"@, text)
            &&& forall|text: Seq<char>| #[trigger]
                sent.contains(("price"@, text)) <==> gives(members, "price"@, text)
            &&& forall|text: Seq<char>| #[trigger]
                sent.contains(("identifier"@, text)) <==> gives(members, "identifier"@, text)
            &&& forall|text: Seq<char>| #[trigger]
                gives(members, "market"@, text) ==> sent.contains(
                    ("market"@, ascii_upper(trimmed(text))),
                )
            &&& forall|text: Seq<char>| #[trigger]
                gives(members, "side"@, text) ==> sent.contains(("side"@, ascii_lower(text)))
            &&& forall|text: Seq<char>| #[trigger]
                gives(members, "ord_type"@, text) ==> sent.contains(
                    ("ord_type"@, ascii_lower(text)),
                )
            &&& forall|text: Seq<char>| #[trigger]
                gives(members, "time_in_force"@, text) ==> sent.contains(
                    ("time_in_force"@, ascii_lower(text)),
                )
            &&& forall|text: Seq<char>| #[trigger]
                gives(members, "smp_type"@, text) ==> sent.contains(
                    ("smp_type"@, ascii_lower(text)),
                )
            &&& forall|i: int|
                0 <= i < sent.len() ==> repeats(members, #[trigger] sent[i])
            &&& forall|i: int, j: int|
                0 <= i < j < sent.len() ==> (#[trigger] sent[i]).0 != (#[trigger] sent[j]).0
        }),
{
    let out = prepared(request, positive)->Ok_0;
    let sent = out.body_pairs;
    let members = request.body.deep_view()->Some_0;
    let market = required_market(members)->Ok_0;
    let side = field_content(members, "side"@)->Some_0;
    let ord_type = field_content(members, "ord_type"@)->Some_0;
    assert(sent == order_pairs(members, market, side, ord_type));
    lemma_field_names();
    assert forall|text: Seq<char>| #[trigger] sent.contains(("volume"@, text)) <==> gives(
        members,
        "volume"@,
        text,
    ) by {
        lemma_order_pairs(members, market, side, ord_type, ("volume"@, text));
    }
    assert forall|text: Seq<char>| #[trigger] sent.contains(("price"@, text)) <==> gives(
        members,
        "price"@,
        text,
    ) by {
        lemma_order_pairs(members, market, side, ord_type, ("price"@, text));
    }
    assert forall|text: Seq<char>| #[trigger] sent.contains(("identifier"@, text)) <==> gives(
        members,
        "identifier"@,
        text,
    ) by {
        lemma_order_pairs(members, market, side, ord_type, ("identifier"@, text));
    }
    assert forall|text: Seq<char>| #[trigger] gives(members, "market"@, text) implies sent.contains(
        ("market"@, ascii_upper(trimmed(text))),
    ) by {
        lemma_order_pairs(
            members,
            market,
            side,
            ord_type,
            ("market"@, ascii_upper(trimmed(text))),
        );
    }
    assert forall|text: Seq<char>| #[trigger] gives(members, "side"@, text) implies sent.contains(
        ("side"@, ascii_lower(text)),
    ) by {
        lemma_order_pairs(members, market, side, ord_type, ("side"@, ascii_lower(text)));
    }
    assert forall|text: Seq<char>| #[trigger]
        gives(members, "ord_type"@, text) implies sent.contains(
        ("ord_type"@, ascii_lower(text)),
    ) by {
        lemma_order_pairs(members, market, side, ord_type, ("ord_type"@, ascii_lower(text)));
    }
    assert forall|text: Seq<char>| #[trigger]
        gives(members, "time_in_force"@, text) implies sent.contains(
        ("time_in_force"@, ascii_lower(text)),
    ) by {
        lemma_order_pairs(members, market, side, ord_type, ("time_in_force"@, ascii_lower(text)));
    }
    assert forall|text: Seq<char>| #[trigger]
        gives(members, "smp_type"@, text) implies sent.contains(
        ("smp_type"@, ascii_lower(text)),
    ) by {
        lemma_order_pairs(members, market, side, ord_type, ("smp_type"@, ascii_lower(text)));
    }
    assert forall|i: int| 0 <= i < sent.len() implies repeats(members, #[trigger] sent[i]) by {
        lemma_order_pairs(members, market, side, ord_type, sent[i]);
        assert(sent.contains(sent[i]));
        assert(gives(members, sent[i].0, field_content(members, sent[i].0)->Some_0));
    }
    lemma_order_keys_differ(members, market, side, ord_type);
}

proof fn lemma_order_keys_differ(
    members: Members,
    market: Seq<char>,
    side: Seq<char>,
    ord_type: Seq<char>,
)
    ensures
        ({
            let sent = order_pairs(members, market, side, ord_type);
            forall|i: int, j: int|
                0 <= i < j < sent.len() ==> (#[trigger] sent[i]).0 != (#[trigger] sent[j]).0
        }),
{
    lemma_field_names();
}

// ---------------------------------------------------------------------------
// The rules of orders
// ---------------------------------------------------------------------------

#[verifier::spinoff_prover]
proof fn lemma_order_words()
    ensures
        "bid"@ != "ask"@,
        "limit"@ != "price"@,
        "limit"@.len() == 5,
        "price"@.len() == 5,
        "market"@.len() == 6,
        "best"@.len() == 4,
        "ioc"@ != "fok"@,
        "ioc"@.len() == 3,
        "fok"@.len() == 3,
        "post_only"@.len() == 9,
{
    reveal_strlit("bid");
    reveal_strlit("ask");
    reveal_strlit("limit");
    reveal_strlit("price");
    reveal_strlit("market");
    reveal_strlit("best");
    reveal_strlit("ioc");
    reveal_strlit("fok");
    reveal_strlit("post_only");
    assert("bid"@[0] != "ask"@[0]);
    assert("limit"@[0] != "price"@[0]);
    assert("ioc"@[0] != "fok"@[0]);
}

/// Just those orders are accepted that can be carried out. A limit order names a volume
/// and a price. A market or best order names what it spends when it buys and what it
/// sells when it sells, and not the other; a best order is also filled at once or not at
/// all, and a market order says nothing of how long it stays. Every amount that is needed
/// is positive, and what is said of lifetime and self-match is known and goes together.
pub proof fn accepted_orders_can_be_carried_out(
    side: Seq<char>,
    ord_type: Seq<char>,
    volume: bool,
    price: bool,
    time_in_force: Option<Seq<char>>,
    smp_type: Option<Seq<char>>,
    positive: PositiveAmounts,
)
    ensures
        ({
            let accepted = order_checked(
                side,
                ord_type,
                volume,
                price,
                time_in_force,
                smp_type,
                positive,
            ) is Ok;
            let kind = ascii_lower(ord_type);
            let buys = ascii_lower(side) == "bid"@;
            let sells = ascii_lower(side) == "ask"@;
            let at_once = time_in_force is Some && (ascii_lower(time_in_force->Some_0) == "ioc"@
                || ascii_lower(time_in_force->Some_0) == "fok"@);
            let waits = time_in_force is Some && ascii_lower(time_in_force->Some_0)
                == "post_only"@;
            let rule = smp_type is Some && (ascii_lower(smp_type->Some_0) == "cancel_maker"@
                || ascii_lower(smp_type->Some_0) == "cancel_taker"@ || ascii_lower(smp_type->Some_0)
                == "reduce"@);
            let spends = price && positive.price && !volume;
            let gives_up = volume && positive.volume && !price;
            accepted <==> {
                &&& buys || sells
                &&& time_in_force is Some ==> at_once || waits
                &&& smp_type is Some ==> rule && !waits
                &&& {
                    ||| kind == "limit"@ && volume && price && positive.volume && positive.price
                    ||| kind == "price"@ && buys && spends && time_in_force is None
                    ||| kind == "market"@ && sells && gives_up && time_in_force is None
                    ||| kind == "best"@ && buys && spends && at_once
                    ||| kind == "best"@ && sells && gives_up && at_once
                }
            }
        }),
{
    lemma_order_words();
}

// ---------------------------------------------------------------------------
// Queries
// ---------------------------------------------------------------------------

/// An order is looked up or cancelled by what the request names it: one thing is sent,
/// its uuid or its identifier, under that name and as it was written.
pub proof fn lookup_names_the_order(request: UpbitHttpRequest, positive: PositiveAmounts)
    requires
        prepared(request, positive) is Ok,
        ({
            let endpoint = prepared(request, positive)->Ok_0.endpoint;
            endpoint == AllowedEndpoint::OrderGet || endpoint == AllowedEndpoint::OrderCancel
        }),
    ensures
        request.query.deep_view() is Some,
        ({
            let sent = prepared(request, positive)->Ok_0.query_pairs;
            let members = request.query.deep_view()->Some_0;
            &&& sent.len() == 1
            &&& sent[0].0 == "uuid"@ || sent[0].0 == "identifier"@
            &&& gives(members, sent[0].0, sent[0].1)
            &&& sent[0].1.len() > 0
            &&& forall|text: Seq<char>| #[trigger]
                gives(members, "uuid"@, text) && text.len() > 0 ==> sent[0] == ("uuid"@, text)
            &&& forall|text: Seq<char>| #[trigger]
                gives(members, "identifier"@, text) && text.len() > 0 ==> sent[0] == (
                    "identifier"@,
                    text,
                )
        }),
{
    let members = request.query.deep_view()->Some_0;
    let sent = prepared(request, positive)->Ok_0.query_pairs;
    let found = lookup_pairs(Some(members))->Ok_0;
    assert(sent =~= found);
}

proof fn lemma_chained(
    first: Result<Pairs, Seq<char>>,
    second: Result<Pairs, Seq<char>>,
    pair: (Seq<char>, Seq<char>),
)
    ensures
        in_turn(first, second) is Ok <==> first is Ok && second is Ok,
        in_turn(first, second) is Ok ==> (in_turn(first, second)->Ok_0.contains(pair)
            <==> first->Ok_0.contains(pair) || second->Ok_0.contains(pair)),
{
    if first is Ok && second is Ok {
        lemma_seq_concat_contains_all_elements(first->Ok_0, second->Ok_0, pair);
    }
}

proof fn lemma_only_query(
    query: Option<Members>,
    body: Option<Members>,
    allowed: Seq<Seq<char>>,
    pair: (Seq<char>, Seq<char>),
)
    ensures
        only_query(query, body, allowed) is Ok ==> !only_query(query, body, allowed)->Ok_0.contains(
            pair,
        ),
{
    lemma_chained(
        checked(fields_allowed(query, allowed)),
        checked(fields_allowed(body, Seq::empty())),
        pair,
    );
}

/// Whether a pair names the market that a request names, in upper case.
pub open spec fn names_market(members: Members, pair: (Seq<char>, Seq<char>)) -> bool {
    pair.0 == "market"@ && exists|text: Seq<char>| #[trigger]
        gives(members, "market"@, text) && pair.1 == ascii_upper(trimmed(text))
}

/// How many a request asks for under a name; as many as usual where it does not say.
pub open spec fn asks_count(members: Members, key: Seq<char>, usual: nat, n: nat) -> bool {
    match member_value(members, key) {
        None => n == usual,
        Some(Json::Unsigned(given)) => n == given,
        Some(Json::Text(text)) => unsigned_value(trimmed(text), u32::MAX as nat) == Some(n),
        _ => false,
    }
}

proof fn lemma_market_piece(members: Members, pair: (Seq<char>, Seq<char>))
    ensures
        market_pair_content(members) is Ok ==> (market_pair_content(members)->Ok_0.contains(pair)
            <==> names_market(members, pair)),
{
    if market_pair_content(members) is Ok {
        let market = required_market(members)->Ok_0;
        let text = field_content(members, "market"@)->Some_0;
        assert(market_pair_content(members)->Ok_0 =~= seq![("market"@, market)]);
        assert(seq![("market"@, market)][0] == ("market"@, market));
        assert(gives(members, "market"@, text));
        assert(market == ascii_upper(trimmed(text)));
    }
}

proof fn lemma_text_piece(members: Members, key: Seq<char>, pair: (Seq<char>, Seq<char>))
    ensures
        optional_text_content(members, key) is Ok ==> (optional_text_content(
            members,
            key,
        )->Ok_0.contains(pair) <==> pair.0 == key && gives(members, key, pair.1)),
{
    if optional_text_content(members, key) is Ok && field_content(members, key) is Some {
        let text = field_content(members, key)->Some_0;
        assert(optional_text_content(members, key)->Ok_0[0] == (key, text));
    }
}

proof fn lemma_count_piece(
    members: Members,
    key: Seq<char>,
    usual: nat,
    max: nat,
    message: Seq<char>,
    pair: (Seq<char>, Seq<char>),
)
    ensures
        count_pair_content(members, key, usual, max, message) is Ok ==> {
            let found = count_pair_content(members, key, usual, max, message)->Ok_0;
            &&& found.contains(pair) ==> pair.0 == key && exists|n: nat| #[trigger]
                asks_count(members, key, usual, n) && 1 <= n <= max && pair.1 == decimal(n)
            &&& forall|n: nat| #[trigger]
                asks_count(members, key, usual, n) && pair == (key, decimal(n)) ==> found.contains(
                    pair,
                )
        },
{
    if count_pair_content(members, key, usual, max, message) is Ok {
        let found = count_pair_content(members, key, usual, max, message)->Ok_0;
        let n = field_count_content(members, key, usual)->Ok_0;
        assert(found[0] == (key, decimal(n)));
        assert(asks_count(members, key, usual, n));
    }
}

#[verifier::spinoff_prover]
proof fn lemma_query_names()
    ensures
        "market"@.len() == 6,
        "to"@.len() == 2,
        "count"@.len() == 5,
        "cursor"@.len() == 6,
        "days_ago"@.len() == 8,
        "market"@[0] == 'm',
        "cursor"@[0] == 'c',
{
    reveal_strlit("market");
    reveal_strlit("to");
    reveal_strlit("count");
    reveal_strlit("cursor");
    reveal_strlit("days_ago");
}

/// Trades are asked for as the request says: of the market that it names, up to the time
/// and from the place that it gives, and as many as it asks for; one where it does not
/// say.
pub proof fn trades_are_asked_for_as_written(members: Members, body: Option<Members>)
    requires
        trades_query(members, body) is Ok,
    ensures
        ({
            let sent = trades_query(members, body)->Ok_0;
            &&& forall|text: Seq<char>| #[trigger]
                sent.contains(("market"@, text)) <==> names_market(members, ("market"@, text))
            &&& forall|text: Seq<char>| #[trigger]
                sent.contains(("to"@, text)) <==> gives(members, "to"@, text)
            &&& forall|text: Seq<char>| #[trigger]
                sent.contains(("cursor"@, text)) <==> gives(members, "cursor"@, text)
            &&& forall|n: nat| #[trigger]
                asks_count(members, "count"@, 1, n) ==> sent.contains(("count"@, decimal(n))) && 1
                    <= n <= 500
            &&& exists|n: nat| #[trigger] asks_count(members, "count"@, 1, n)
        }),
{
    let sent = trades_query(members, body)->Ok_0;
    let names = seq!["market"@, "to"@, "count"@, "cursor"@, "days_ago"@];
    let message = "count must be within 1..=500."@;
    let a = only_query(Some(members), body, names);
    let b = market_pair_content(members);
    let c = optional_text_content(members, "to"@);
    let d = count_pair_content(members, "count"@, 1, 500, message);
    let e = optional_text_content(members, "cursor"@);
    let f = days_ago_content(members);
    lemma_query_names();
    assert forall|pair: (Seq<char>, Seq<char>)| #[trigger]
        sent.contains(pair) <==> b->Ok_0.contains(pair) || c->Ok_0.contains(pair)
            || d->Ok_0.contains(pair) || e->Ok_0.contains(pair) || f->Ok_0.contains(pair) by {
        lemma_only_query(Some(members), body, names, pair);
        lemma_chained(a, b, pair);
        lemma_chained(in_turn(a, b), c, pair);
        lemma_chained(in_turn(in_turn(a, b), c), d, pair);
        lemma_chained(in_turn(in_turn(in_turn(a, b), c), d), e, pair);
        lemma_chained(in_turn(in_turn(in_turn(in_turn(a, b), c), d), e), f, pair);
    }
    lemma_chained(a, b, ("to"@, "to"@));
    lemma_chained(in_turn(a, b), c, ("to"@, "to"@));
    lemma_chained(in_turn(in_turn(a, b), c), d, ("to"@, "to"@));
    lemma_chained(in_turn(in_turn(in_turn(a, b), c), d), e, ("to"@, "to"@));
    lemma_chained(in_turn(in_turn(in_turn(in_turn(a, b), c), d), e), f, ("to"@, "to"@));
    assert forall|pair: (Seq<char>, Seq<char>)| f->Ok_0.contains(pair) implies pair.0
        == "days_ago"@ by {
        lemma_count_piece(
            members,
            "days_ago"@,
            0,
            7,
            "days_ago must be within 1..=7."@,
            pair,
        );
    }
    assert forall|text: Seq<char>| #[trigger] sent.contains(("market"@, text)) <==> names_market(
        members,
        ("market"@, text),
    ) by {
        lemma_market_piece(members, ("market"@, text));
        lemma_text_piece(members, "to"@, ("market"@, text));
        lemma_count_piece(members, "count"@, 1, 500, message, ("market"@, text));
        lemma_text_piece(members, "cursor"@, ("market"@, text));
    }
    assert forall|text: Seq<char>| #[trigger] sent.contains(("to"@, text)) <==> gives(
        members,
        "to"@,
        text,
    ) by {
        lemma_market_piece(members, ("to"@, text));
        lemma_text_piece(members, "to"@, ("to"@, text));
        lemma_count_piece(members, "count"@, 1, 500, message, ("to"@, text));
        lemma_text_piece(members, "cursor"@, ("to"@, text));
    }
    assert forall|text: Seq<char>| #[trigger] sent.contains(("cursor"@, text)) <==> gives(
        members,
        "cursor"@,
        text,
    ) by {
        lemma_market_piece(members, ("cursor"@, text));
        lemma_text_piece(members, "to"@, ("cursor"@, text));
        lemma_count_piece(members, "count"@, 1, 500, message, ("cursor"@, text));
        lemma_text_piece(members, "cursor"@, ("cursor"@, text));
    }
    let count = field_count_content(members, "count"@, 1)->Ok_0;
    assert(asks_count(members, "count"@, 1, count));
    assert forall|n: nat| #[trigger] asks_count(members, "count"@, 1, n) implies sent.contains(
        ("count"@, decimal(n)),
    ) && 1 <= n <= 500 by {
        lemma_count_piece(members, "count"@, 1, 500, message, ("count"@, decimal(n)));
    }
}

/// Candles are asked for as the request says: of the market that it names, up to the time
/// that it gives, and as many as it asks for; one where it does not say.
pub proof fn candles_are_asked_for_as_written(members: Members, max: nat)
    requires
        candle_pairs(members, max) is Ok,
    ensures
        ({
            let sent = candle_pairs(members, max)->Ok_0;
            &&& forall|text: Seq<char>| #[trigger]
                sent.contains(("market"@, text)) <==> names_market(members, ("market"@, text))
            &&& forall|text: Seq<char>| #[trigger]
                sent.contains(("to"@, text)) <==> gives(members, "to"@, text)
            &&& forall|n: nat| #[trigger]
                asks_count(members, "count"@, 1, n) ==> sent.contains(("count"@, decimal(n))) && 1
                    <= n <= max
            &&& exists|n: nat| #[trigger] asks_count(members, "count"@, 1, n)
        }),
{
    let sent = candle_pairs(members, max)->Ok_0;
    let message = "count must be within 1..="@ + decimal(max) + "."@;
    let b = market_pair_content(members);
    let c = optional_text_content(members, "to"@);
    let d = count_pair_content(members, "count"@, 1, max, message);
    lemma_query_names();
    assert forall|pair: (Seq<char>, Seq<char>)| #[trigger]
        sent.contains(pair) <==> b->Ok_0.contains(pair) || c->Ok_0.contains(pair)
            || d->Ok_0.contains(pair) by {
        lemma_chained(b, c, pair);
        lemma_chained(in_turn(b, c), d, pair);
    }
    lemma_chained(b, c, ("to"@, "to"@));
    lemma_chained(in_turn(b, c), d, ("to"@, "to"@));
    assert forall|text: Seq<char>| #[trigger] sent.contains(("market"@, text)) <==> names_market(
        members,
        ("market"@, text),
    ) by {
        lemma_market_piece(members, ("market"@, text));
        lemma_text_piece(members, "to"@, ("market"@, text));
        lemma_count_piece(members, "count"@, 1, max, message, ("market"@, text));
    }
    assert forall|text: Seq<char>| #[trigger] sent.contains(("to"@, text)) <==> gives(
        members,
        "to"@,
        text,
    ) by {
        lemma_market_piece(members, ("to"@, text));
        lemma_text_piece(members, "to"@, ("to"@, text));
        lemma_count_piece(members, "count"@, 1, max, message, ("to"@, text));
    }
    let count = field_count_content(members, "count"@, 1)->Ok_0;
    assert(asks_count(members, "count"@, 1, count));
    assert forall|n: nat| #[trigger] asks_count(members, "count"@, 1, n) implies sent.contains(
        ("count"@, decimal(n)),
    ) && 1 <= n <= max by {
        lemma_count_piece(members, "count"@, 1, max, message, ("count"@, decimal(n)));
    }
}

/// Each endpoint is asked its own question: what is sent to one that takes candles, the
/// trades or an order's chance is what the request says of these.
pub proof fn endpoints_are_asked_their_own_question(
    request: UpbitHttpRequest,
    positive: PositiveAmounts,
)
    requires
        prepared(request, positive) is Ok,
        request.query.deep_view() is Some,
    ensures
        ({
            let out = prepared(request, positive)->Ok_0;
            let members = request.query.deep_view()->Some_0;
            let body = request.body.deep_view();
            &&& out.endpoint == AllowedEndpoint::TradesTicks ==> trades_query(members, body) == Ok::<
                Pairs,
                Seq<char>,
            >(out.query_pairs)
            &&& out.endpoint == AllowedEndpoint::CandleMinutes || out.endpoint
                == AllowedEndpoint::CandleWeeks || out.endpoint == AllowedEndpoint::CandleMonths
                || out.endpoint == AllowedEndpoint::CandleYears ==> candle_pairs(members, 200)
                == Ok::<Pairs, Seq<char>>(out.query_pairs)
            &&& out.endpoint == AllowedEndpoint::CandleDays ==> candle_pairs(members, 200) is Ok
                && candle_pairs(members, 200)->Ok_0.is_prefix_of(out.query_pairs)
            &&& out.endpoint == AllowedEndpoint::OrderChance ==> out.query_pairs.len() == 1
                && names_market(members, out.query_pairs[0])
        }),
{
    let out = prepared(request, positive)->Ok_0;
    let members = request.query.deep_view()->Some_0;
    let none = Seq::<(Seq<char>, Seq<char>)>::empty();
    if candle_pairs(members, 200) is Ok {
        let candles = candle_pairs(members, 200)->Ok_0;
        assert(none + none + candles =~= candles);
        assert(none + none =~= none);
        assert(none + candles =~= candles);
        if out.endpoint == AllowedEndpoint::CandleDays {
            assert(out.query_pairs.subrange(0, candles.len() as int) =~= candles);
        }
    }
    if out.endpoint == AllowedEndpoint::OrderChance {
        let found = market_pair_content(members)->Ok_0;
        assert(none + none + found =~= found);
        assert(out.query_pairs =~= found);
        lemma_market_piece(members, found[0]);
        assert(found.contains(found[0]));
    }
}

/// Candles are asked for of the length that the path names.
pub proof fn candles_keep_their_length(request: UpbitHttpRequest, positive: PositiveAmounts)
    requires
        prepared(request, positive) is Ok,
        prepared(request, positive)->Ok_0.endpoint == AllowedEndpoint::CandleMinutes,
    ensures
        candle_minutes(prepared(request, positive)->Ok_0.path) == candle_minutes(
            rooted_path(request.pathname@),
        ),
{
    let n = candle_minutes(rooted_path(request.pathname@))->Ok_0;
    let prefix = "/v1/candles/minutes/"@;
    let path = prefix + decimal(n);
    decimal_reads_back(n, u32::MAX as nat);
    lemma_decimal_digits(n);
    assert(path.subrange(0, prefix.len() as int) =~= prefix);
    assert(path.skip(prefix.len() as int) =~= decimal(n));
    assert(!decimal(n).contains('/')) by {
        if decimal(n).contains('/') {
            let i = choose|i: int| 0 <= i < decimal(n).len() && decimal(n)[i] == '/';
            assert(is_digit(decimal(n)[i]));
        }
    }
}

/// A request is sent to the path that it names and by the method that it names; to read is
/// usual. Every path but that of candles is sent as it is written.
pub proof fn request_goes_where_it_says(request: UpbitHttpRequest, positive: PositiveAmounts)
    requires
        prepared(request, positive) is Ok,
    ensures
        ({
            let out = prepared(request, positive)->Ok_0;
            let path = trimmed(request.pathname@);
            &&& out.endpoint != AllowedEndpoint::CandleMinutes && "/"@.is_prefix_of(path)
                ==> out.path == path
            &&& out.endpoint != AllowedEndpoint::CandleMinutes && !"/"@.is_prefix_of(path)
                ==> out.path == "/"@ + path
            &&& request.method matches Some(name) ==> ascii_upper(trimmed(name@)) == method_name(
                out.method,
            )
            &&& request.method is None ==> out.method == UpbitHttpMethod::Get
            &&& out.endpoint != AllowedEndpoint::OrderCreate ==> out.max_retries == (
            match request.max_retries {
                Some(n) => if n < 3 {
                    n
                } else {
                    3
                },
                None => 3,
            })
        }),
{
    assert(request.method is None ==> request.method.deep_view() is None);
    reveal_strlit("GET");
    assert(UPBIT_DEFAULT_MAX_RETRIES == 3);
    if request.method is None {
        lemma_get_is_get();
    }
}

proof fn lemma_get_is_get()
    ensures
        ascii_upper(trimmed("GET"@)) == "GET"@,
{
    reveal_strlit("GET");
    let s = "GET"@;
    assert(s.len() == 3);
    assert(!is_space(s[0]));
    assert(!is_space(s.last()));
    assert(trimmed_start(s) == s);
    assert(trimmed_end(s) == s);
    assert(ascii_upper(s) =~= s);
}

/// The markets of quotes are those that are listed: each entry that is not blank, in upper
/// case, and in the order of the list.
pub proof fn quotes_are_asked_for_every_market(pieces: Seq<Seq<char>>)
    ensures
        forall|k: int|
            0 <= k < pieces.len() && trimmed(#[trigger] pieces[k]).len() > 0 ==> market_entries(
                pieces,
            ).contains(ascii_upper(trimmed(pieces[k]))),
        market_entries(pieces).len() == pieces.filter(|p: Seq<char>| trimmed(p).len() > 0).len(),
    decreases pieces.len(),
{
    reveal(Seq::filter);
    if pieces.len() > 0 {
        let rest = pieces.drop_last();
        let before = market_entries(rest);
        let all = market_entries(pieces);
        quotes_are_asked_for_every_market(rest);
        assert(ascii_upper(trimmed(pieces.last())).len() == trimmed(pieces.last()).len());
        assert forall|k: int|
            0 <= k < pieces.len() && trimmed(#[trigger] pieces[k]).len() > 0 implies all.contains(
            ascii_upper(trimmed(pieces[k])),
        ) by {
            let code = ascii_upper(trimmed(pieces[k]));
            if k < rest.len() {
                assert(rest[k] == pieces[k]);
                let i = choose|i: int| 0 <= i < before.len() && before[i] == code;
                assert(all[i] == code);
            } else {
                assert(all[before.len() as int] == code);
            }
        }
    }
}

/// What is sent for quotes names every market of the list, and only up to twenty.
pub proof fn quotes_name_the_listed_markets(members: Members, csv: Seq<char>, k: int)
    requires
        quotes_query(members) is Ok,
        gives(members, "markets"@, csv),
        0 <= k < split(csv, ',').len(),
        trimmed(split(csv, ',')[k]).len() > 0,
    ensures
        quotes_query(members)->Ok_0.len() == 1,
        quotes_query(members)->Ok_0[0].0 == "markets"@,
        contains_text(
            quotes_query(members)->Ok_0[0].1,
            ascii_upper(trimmed(split(csv, ',')[k])),
        ),
        market_entries(split(csv, ',')).len() <= 20,
{
    let entries = market_entries(split(csv, ','));
    let code = ascii_upper(trimmed(split(csv, ',')[k]));
    quotes_are_asked_for_every_market(split(csv, ','));
    let i = choose|i: int| 0 <= i < entries.len() && entries[i] == code;
    joined_text_holds_its_parts(entries, ","@, i);
    assert(quotes_query(members)->Ok_0 =~= seq![("markets"@, joined(entries, ","@))]);
}

/// A word for yes is yes, and one for no is no.
pub proof fn words_for_yes_are_yes(text: Seq<char>)
    ensures
        flag_content(Json::Bool(true)) == Some(true),
        flag_content(Json::Bool(false)) == Some(false),
        ascii_lower(trimmed(text)) == "true"@ || ascii_lower(trimmed(text)) == "yes"@
            || ascii_lower(trimmed(text)) == "on"@ || ascii_lower(trimmed(text)) == "1"@
            <==> flag_content(Json::Text(text)) == Some(true),
        flag_content(Json::Text(text)) == Some(false) <==> ascii_lower(trimmed(text)) == "false"@
            || ascii_lower(trimmed(text)) == "no"@ || ascii_lower(trimmed(text)) == "off"@
            || ascii_lower(trimmed(text)) == "0"@,
{
    reveal_strlit("true");
    reveal_strlit("yes");
    reveal_strlit("on");
    reveal_strlit("1");
    reveal_strlit("false");
    reveal_strlit("no");
    reveal_strlit("off");
    reveal_strlit("0");
    assert("true"@.len() == 4 && "yes"@.len() == 3 && "on"@.len() == 2 && "1"@.len() == 1);
    assert("false"@.len() == 5 && "no"@.len() == 2 && "off"@.len() == 3 && "0"@.len() == 1);
    assert("yes"@[0] != "off"@[0]);
    assert("on"@[0] != "no"@[0]);
    assert("1"@[0] != "0"@[0]);
}

/// Orders that are open and orders that are closed are each asked for by the states that
/// the request names, all of them and no others.
pub proof fn states_are_asked_for_as_written(
    members: Members,
    allowed: Seq<Seq<char>>,
    one: Seq<char>,
    many: Seq<char>,
    text: Seq<char>,
)
    requires
        state_pairs(Some(members), allowed, one, many) is Ok,
        one != many,
    ensures
        ({
            let sent = state_pairs(Some(members), allowed, one, many)->Ok_0;
            &&& member_value(members, one) is None && member_value(members, many) is None
                ==> sent.len() == 0
            &&& member_value(members, one) == Some(Json::Text(text)) ==> sent.len() == 1 && sent[0]
                == (one, ascii_lower(trimmed(text)))
            &&& member_value(members, many) == Some(Json::Text(text)) ==> sent.len() == 1
                && sent[0] == (many, ascii_lower(trimmed(text)))
            &&& forall|i: int|
                0 <= i < sent.len() ==> allowed.contains((#[trigger] sent[i]).1)
        }),
{
    let sent = state_pairs(Some(members), allowed, one, many)->Ok_0;
    reveal_with_fuel(distinct_lower, 2);
    assert(seq![trimmed(text)].drop_last() =~= Seq::<Seq<char>>::empty());
    assert(distinct_lower(seq![trimmed(text)]) =~= seq![ascii_lower(trimmed(text))]);
    if let Some(value) = member_value(members, one) {
        lemma_states_allowed(value, allowed, one);
    }
    if let Some(value) = member_value(members, many) {
        lemma_states_allowed(value, allowed, many);
    }
}

proof fn lemma_states_allowed(value: Json, allowed: Seq<Seq<char>>, name: Seq<char>)
    requires
        states_of(value, allowed, name) is Ok,
    ensures
        states_of(value, allowed, name)->Ok_0.len() > 0,
        forall|i: int|
            0 <= i < states_of(value, allowed, name)->Ok_0.len() ==> allowed.contains(
                #[trigger] states_of(value, allowed, name)->Ok_0[i],
            ),
{
    lemma_distinct_lower(listed_contents(value), allowed);
}

proof fn lemma_distinct_lower(texts: Seq<Seq<char>>, allowed: Seq<Seq<char>>)
    requires
        forall|i: int|
            0 <= i < texts.len() ==> allowed.contains(ascii_lower(#[trigger] texts[i])),
    ensures
        texts.len() > 0 ==> distinct_lower(texts).len() > 0,
        forall|i: int|
            0 <= i < distinct_lower(texts).len() ==> allowed.contains(
                #[trigger] distinct_lower(texts)[i],
            ),
    decreases texts.len(),
{
    if texts.len() > 0 {
        let rest = texts.drop_last();
        assert forall|i: int| 0 <= i < rest.len() implies allowed.contains(
            ascii_lower(#[trigger] rest[i]),
        ) by {
            assert(rest[i] == texts[i]);
        }
        lemma_distinct_lower(rest, allowed);
        assert(allowed.contains(ascii_lower(texts[texts.len() - 1])));
        let before = distinct_lower(rest);
        let all = distinct_lower(texts);
        assert forall|i: int| 0 <= i < all.len() implies allowed.contains(#[trigger] all[i]) by {
            if i < before.len() {
                assert(all[i] == before[i]);
            }
        }
    }
}

proof fn lemma_optional_market_piece(members: Members, pair: (Seq<char>, Seq<char>))
    ensures
        optional_market_content(members) is Ok ==> (optional_market_content(
            members,
        )->Ok_0.contains(pair) <==> names_market(members, pair)),
{
    if optional_market_content(members) is Ok && member_value(members, "market"@) is Some {
        let text = field_content(members, "market"@)->Some_0;
        let found = optional_market_content(members)->Ok_0;
        assert(found[0] == ("market"@, ascii_upper(trimmed(text))));
        assert(gives(members, "market"@, text));
    }
}

proof fn lemma_sort_piece(members: Members, pair: (Seq<char>, Seq<char>))
    ensures
        sort_order_content(members) is Ok ==> (sort_order_content(members)->Ok_0.contains(pair)
            <==> pair.0 == "order_by"@ && sorted_by(members, pair.1)),
{
    if sort_order_content(members) is Ok {
        let found = sort_order_content(members)->Ok_0;
        lemma_desc();
        assert(found[0].0 == "order_by"@);
        assert(sorted_by(members, found[0].1));
    }
}

proof fn lemma_desc()
    ensures
        ascii_lower("desc"@) == "desc"@,
{
    reveal_strlit("desc");
    assert(ascii_lower("desc"@) =~= "desc"@);
}

/// Whether a request asks for an order of the answers; the latest first where it does not
/// say.
pub open spec fn sorted_by(members: Members, order: Seq<char>) -> bool {
    match field_content(members, "order_by"@) {
        Some(text) => order == ascii_lower(text),
        None => order == "desc"@,
    }
}

proof fn lemma_state_piece(members: Members, allowed: Seq<Seq<char>>, pair: (Seq<char>, Seq<char>))
    ensures
        state_pairs(Some(members), allowed, "state"@, "states[]"@) is Ok ==> state_pairs(
            Some(members),
            allowed,
            "state"@,
            "states[]"@,
        )->Ok_0.contains(pair) ==> pair.0 == "state"@ || pair.0 == "states[]"@,
{
}

#[verifier::spinoff_prover]
proof fn lemma_list_names()
    ensures
        "market"@ != "state"@ && "market"@ != "states[]"@ && "market"@ != "page"@ && "market"@
            != "limit"@ && "market"@ != "order_by"@ && "market"@ != "start_time"@ && "market"@
            != "end_time"@,
        "start_time"@ != "state"@ && "start_time"@ != "states[]"@ && "start_time"@ != "limit"@
            && "start_time"@ != "order_by"@ && "start_time"@ != "end_time"@,
        "end_time"@ != "state"@ && "end_time"@ != "states[]"@ && "end_time"@ != "limit"@
            && "end_time"@ != "order_by"@,
        "order_by"@ != "state"@ && "order_by"@ != "states[]"@ && "order_by"@ != "limit"@
            && "order_by"@ != "page"@,
{
    reveal_strlit("market");
    reveal_strlit("state");
    reveal_strlit("states[]");
    reveal_strlit("page");
    reveal_strlit("limit");
    reveal_strlit("order_by");
    reveal_strlit("start_time");
    reveal_strlit("end_time");
    assert("market"@.len() == 6 && "state"@.len() == 5 && "states[]"@.len() == 8);
    assert("page"@.len() == 4 && "limit"@.len() == 5 && "order_by"@.len() == 8);
    assert("start_time"@.len() == 10 && "end_time"@.len() == 8);
    assert("states[]"@[0] == 's' && "order_by"@[0] == 'o' && "end_time"@[0] == 'e');
}

/// Open orders are listed as the request says: those of the market that it names, the page
/// and as many as it asks for, in the order that it asks for.
pub proof fn open_orders_are_listed_as_asked(members: Members, body: Option<Members>)
    requires
        open_orders_query(Some(members), body) is Ok,
    ensures
        ({
            let sent = open_orders_query(Some(members), body)->Ok_0;
            let states = state_pairs(
                Some(members),
                seq!["wait"@, "watch"@],
                "state"@,
                "states[]"@,
            );
            &&& forall|text: Seq<char>| #[trigger]
                sent.contains(("market"@, text)) <==> names_market(members, ("market"@, text))
            &&& forall|text: Seq<char>| #[trigger]
                sent.contains(("order_by"@, text)) <==> sorted_by(members, text)
            &&& forall|n: nat| #[trigger]
                asks_count(members, "page"@, 1, n) ==> sent.contains(("page"@, decimal(n))) && n
                    > 0
            &&& forall|n: nat| #[trigger]
                asks_count(members, "limit"@, 100, n) ==> sent.contains(("limit"@, decimal(n)))
                    && 1 <= n <= 100
            &&& states is Ok
            &&& forall|i: int|
                0 <= i < states->Ok_0.len() ==> sent.contains(#[trigger] states->Ok_0[i])
        }),
{
    let sent = open_orders_query(Some(members), body)->Ok_0;
    let names = seq!["market"@, "state"@, "states[]"@, "page"@, "limit"@, "order_by"@];
    let allowed = seq!["wait"@, "watch"@];
    let of_page = "page must be greater than 0."@;
    let of_limit = "limit must be within 1..=100."@;
    let a = only_query(Some(members), body, names);
    let b = optional_market_content(members);
    let c = state_pairs(Some(members), allowed, "state"@, "states[]"@);
    let d = count_pair_content(members, "page"@, 1, u32::MAX as nat, of_page);
    let e = count_pair_content(members, "limit"@, 100, 100, of_limit);
    let f = sort_order_content(members);
    lemma_list_names();
    assert forall|pair: (Seq<char>, Seq<char>)| #[trigger]
        sent.contains(pair) <==> b->Ok_0.contains(pair) || c->Ok_0.contains(pair)
            || d->Ok_0.contains(pair) || e->Ok_0.contains(pair) || f->Ok_0.contains(pair) by {
        lemma_only_query(Some(members), body, names, pair);
        lemma_chained(a, b, pair);
        lemma_chained(in_turn(a, b), c, pair);
        lemma_chained(in_turn(in_turn(a, b), c), d, pair);
        lemma_chained(in_turn(in_turn(in_turn(a, b), c), d), e, pair);
        lemma_chained(in_turn(in_turn(in_turn(in_turn(a, b), c), d), e), f, pair);
    }
    let pair = ("market"@, "market"@);
    lemma_chained(a, b, pair);
    lemma_chained(in_turn(a, b), c, pair);
    lemma_chained(in_turn(in_turn(a, b), c), d, pair);
    lemma_chained(in_turn(in_turn(in_turn(a, b), c), d), e, pair);
    lemma_chained(in_turn(in_turn(in_turn(in_turn(a, b), c), d), e), f, pair);
    assert forall|text: Seq<char>| #[trigger] sent.contains(("market"@, text)) <==> names_market(
        members,
        ("market"@, text),
    ) by {
        lemma_optional_market_piece(members, ("market"@, text));
        lemma_state_piece(members, allowed, ("market"@, text));
        lemma_count_piece(members, "page"@, 1, u32::MAX as nat, of_page, ("market"@, text));
        lemma_count_piece(members, "limit"@, 100, 100, of_limit, ("market"@, text));
        lemma_sort_piece(members, ("market"@, text));
    }
    assert forall|text: Seq<char>| #[trigger] sent.contains(("order_by"@, text)) <==> sorted_by(
        members,
        text,
    ) by {
        lemma_optional_market_piece(members, ("order_by"@, text));
        lemma_state_piece(members, allowed, ("order_by"@, text));
        lemma_count_piece(members, "page"@, 1, u32::MAX as nat, of_page, ("order_by"@, text));
        lemma_count_piece(members, "limit"@, 100, 100, of_limit, ("order_by"@, text));
        lemma_sort_piece(members, ("order_by"@, text));
    }
    assert forall|n: nat| #[trigger] asks_count(members, "page"@, 1, n) implies sent.contains(
        ("page"@, decimal(n)),
    ) && n > 0 by {
        lemma_count_piece(
            members,
            "page"@,
            1,
            u32::MAX as nat,
            of_page,
            ("page"@, decimal(n)),
        );
    }
    assert forall|n: nat| #[trigger] asks_count(members, "limit"@, 100, n) implies sent.contains(
        ("limit"@, decimal(n)),
    ) && 1 <= n <= 100 by {
        lemma_count_piece(members, "limit"@, 100, 100, of_limit, ("limit"@, decimal(n)));
    }
    assert forall|i: int| 0 <= i < c->Ok_0.len() implies sent.contains(#[trigger] c->Ok_0[i]) by {
        assert(c->Ok_0.contains(c->Ok_0[i]));
    }
}

/// Closed orders are listed as the request says: those of the market that it names, from
/// the time and up to the time that it gives, as many as it asks for and in the order that
/// it asks for.
pub proof fn closed_orders_are_listed_as_asked(members: Members, body: Option<Members>)
    requires
        closed_orders_query(Some(members), body) is Ok,
    ensures
        ({
            let sent = closed_orders_query(Some(members), body)->Ok_0;
            let states = state_pairs(
                Some(members),
                seq!["done"@, "cancel"@],
                "state"@,
                "states[]"@,
            );
            &&& forall|text: Seq<char>| #[trigger]
                sent.contains(("market"@, text)) <==> names_market(members, ("market"@, text))
            &&& forall|text: Seq<char>| #[trigger]
                sent.contains(("start_time"@, text)) <==> gives(members, "start_time"@, text)
            &&& forall|text: Seq<char>| #[trigger]
                sent.contains(("end_time"@, text)) <==> gives(members, "end_time"@, text)
            &&& forall|text: Seq<char>| #[trigger]
                sent.contains(("order_by"@, text)) <==> sorted_by(members, text)
            &&& forall|n: nat| #[trigger]
                asks_count(members, "limit"@, 100, n) ==> sent.contains(("limit"@, decimal(n)))
                    && 1 <= n <= 1_000
            &&& states is Ok
            &&& forall|i: int|
                0 <= i < states->Ok_0.len() ==> sent.contains(#[trigger] states->Ok_0[i])
        }),
{
    let sent = closed_orders_query(Some(members), body)->Ok_0;
    let names = seq![
        "market"@,
        "state"@,
        "states[]"@,
        "start_time"@,
        "end_time"@,
        "limit"@,
        "order_by"@,
    ];
    let allowed = seq!["done"@, "cancel"@];
    let of_limit = "limit must be within 1..=1000."@;
    let a = only_query(Some(members), body, names);
    let b = optional_market_content(members);
    let c = state_pairs(Some(members), allowed, "state"@, "states[]"@);
    let d = optional_text_content(members, "start_time"@);
    let e = optional_text_content(members, "end_time"@);
    let f = count_pair_content(members, "limit"@, 100, 1_000, of_limit);
    let g = sort_order_content(members);
    lemma_list_names();
    assert forall|pair: (Seq<char>, Seq<char>)| #[trigger]
        sent.contains(pair) <==> b->Ok_0.contains(pair) || c->Ok_0.contains(pair)
            || d->Ok_0.contains(pair) || e->Ok_0.contains(pair) || f->Ok_0.contains(pair)
            || g->Ok_0.contains(pair) by {
        lemma_only_query(Some(members), body, names, pair);
        lemma_chained(a, b, pair);
        lemma_chained(in_turn(a, b), c, pair);
        lemma_chained(in_turn(in_turn(a, b), c), d, pair);
        lemma_chained(in_turn(in_turn(in_turn(a, b), c), d), e, pair);
        lemma_chained(in_turn(in_turn(in_turn(in_turn(a, b), c), d), e), f, pair);
        lemma_chained(in_turn(in_turn(in_turn(in_turn(in_turn(a, b), c), d), e), f), g, pair);
    }
    let pair = ("market"@, "market"@);
    lemma_chained(a, b, pair);
    lemma_chained(in_turn(a, b), c, pair);
    lemma_chained(in_turn(in_turn(a, b), c), d, pair);
    lemma_chained(in_turn(in_turn(in_turn(a, b), c), d), e, pair);
    lemma_chained(in_turn(in_turn(in_turn(in_turn(a, b), c), d), e), f, pair);
    lemma_chained(in_turn(in_turn(in_turn(in_turn(in_turn(a, b), c), d), e), f), g, pair);
    assert forall|key: Seq<char>, text: Seq<char>| #[trigger] sent.contains((key, text)) <==> {
        ||| names_market(members, (key, text))
        ||| c->Ok_0.contains((key, text))
        ||| key == "start_time"@ && gives(members, key, text)
        ||| key == "end_time"@ && gives(members, key, text)
        ||| f->Ok_0.contains((key, text))
        ||| key == "order_by"@ && sorted_by(members, text)
    } by {
        lemma_optional_market_piece(members, (key, text));
        lemma_text_piece(members, "start_time"@, (key, text));
        lemma_text_piece(members, "end_time"@, (key, text));
        lemma_sort_piece(members, (key, text));
    }
    assert forall|key: Seq<char>, text: Seq<char>| #[trigger]
        c->Ok_0.contains((key, text)) implies key == "state"@ || key == "states[]"@ by {
        lemma_state_piece(members, allowed, (key, text));
    }
    assert forall|key: Seq<char>, text: Seq<char>| #[trigger]
        f->Ok_0.contains((key, text)) implies key == "limit"@ by {
        lemma_count_piece(members, "limit"@, 100, 1_000, of_limit, (key, text));
    }
    assert forall|n: nat| #[trigger] asks_count(members, "limit"@, 100, n) implies sent.contains(
        ("limit"@, decimal(n)),
    ) && 1 <= n <= 1_000 by {
        lemma_count_piece(members, "limit"@, 100, 1_000, of_limit, ("limit"@, decimal(n)));
    }
    assert forall|i: int| 0 <= i < c->Ok_0.len() implies sent.contains(#[trigger] c->Ok_0[i]) by {
        assert(c->Ok_0.contains(c->Ok_0[i]));
    }
}

/// The lists of orders are asked their own questions, and so are the days of candles and
/// the markets.
pub proof fn lists_are_asked_their_own_question(
    request: UpbitHttpRequest,
    positive: PositiveAmounts,
)
    requires
        prepared(request, positive) is Ok,
        request.query.deep_view() is Some,
    ensures
        ({
            let out = prepared(request, positive)->Ok_0;
            let members = request.query.deep_view()->Some_0;
            let body = request.body.deep_view();
            let unit = field_content(members, "converting_price_unit"@);
            let details = member_value(members, "is_details"@);
            &&& out.endpoint == AllowedEndpoint::OpenOrders ==> open_orders_query(
                Some(members),
                body,
            ) == Ok::<Pairs, Seq<char>>(out.query_pairs)
            &&& out.endpoint == AllowedEndpoint::ClosedOrders ==> closed_orders_query(
                Some(members),
                body,
            ) == Ok::<Pairs, Seq<char>>(out.query_pairs)
            &&& out.endpoint == AllowedEndpoint::CandleDays && unit is Some
                ==> out.query_pairs.len() > 0 && out.query_pairs.last() == (
                "converting_price_unit"@,
                ascii_upper(unit->Some_0),
            )
            &&& out.endpoint == AllowedEndpoint::Markets && details == Some(Json::Bool(true))
                ==> out.query_pairs == seq![("is_details"@, "true"@)]
            &&& out.endpoint == AllowedEndpoint::Markets && details == Some(Json::Bool(false))
                ==> out.query_pairs == seq![("is_details"@, "false"@)]
            &&& out.endpoint == AllowedEndpoint::Markets && details is None
                ==> out.query_pairs.len() == 0
        }),
{
    let out = prepared(request, positive)->Ok_0;
    let members = request.query.deep_view()->Some_0;
    let body = request.body.deep_view();
    if out.endpoint == AllowedEndpoint::CandleDays {
        let names = seq!["market"@, "to"@, "count"@, "converting_price_unit"@];
        let a = only_query(Some(members), body, names);
        let b = candle_pairs(members, 200);
        let c = price_unit_content(members);
        assert(in_turn(in_turn(a, b), c) == Ok::<Pairs, Seq<char>>(out.query_pairs));
    }
    if out.endpoint == AllowedEndpoint::Markets {
        let none = Seq::<(Seq<char>, Seq<char>)>::empty();
        assert(none + none =~= none);
        assert(none + seq![("is_details"@, "true"@)] =~= seq![("is_details"@, "true"@)]);
        assert(none + seq![("is_details"@, "false"@)] =~= seq![("is_details"@, "false"@)]);
    }
}

/// What is asked goes to the place that answers it: orders are placed, tested, looked up,
/// cancelled and listed each at its own path and by its own method, and so is everything
/// that is only read.
pub proof fn every_question_has_its_place(request: UpbitHttpRequest, positive: PositiveAmounts)
    requires
        prepared(request, positive) is Ok,
    ensures
        ({
            let out = prepared(request, positive)->Ok_0;
            &&& out.endpoint == AllowedEndpoint::Markets ==> out.path == "/v1/market/all"@ && out.method
                == UpbitHttpMethod::Get
            &&& out.endpoint == AllowedEndpoint::Ticker ==> out.path == "/v1/ticker"@ && out.method
                == UpbitHttpMethod::Get
            &&& out.endpoint == AllowedEndpoint::Orderbook ==> out.path == "/v1/orderbook"@ && out.method
                == UpbitHttpMethod::Get
            &&& out.endpoint == AllowedEndpoint::TradesTicks ==> out.path == "/v1/trades/ticks"@ && out.method
                == UpbitHttpMethod::Get
            &&& out.endpoint == AllowedEndpoint::CandleDays ==> out.path == "/v1/candles/days"@ && out.method
                == UpbitHttpMethod::Get
            &&& out.endpoint == AllowedEndpoint::CandleWeeks ==> out.path == "/v1/candles/weeks"@ && out.method
                == UpbitHttpMethod::Get
            &&& out.endpoint == AllowedEndpoint::CandleMonths ==> out.path == "/v1/candles/months"@ && out.method
                == UpbitHttpMethod::Get
            &&& out.endpoint == AllowedEndpoint::CandleYears ==> out.path == "/v1/candles/years"@ && out.method
                == UpbitHttpMethod::Get
            &&& out.endpoint == AllowedEndpoint::Accounts ==> out.path == "/v1/accounts"@ && out.method
                == UpbitHttpMethod::Get
            &&& out.endpoint == AllowedEndpoint::OrderChance ==> out.path == "/v1/orders/chance"@ && out.method
                == UpbitHttpMethod::Get
            &&& out.endpoint == AllowedEndpoint::OrderGet ==> out.path == "/v1/order"@ && out.method
                == UpbitHttpMethod::Get
            &&& out.endpoint == AllowedEndpoint::OpenOrders ==> out.path == "/v1/orders/open"@ && out.method
                == UpbitHttpMethod::Get
            &&& out.endpoint == AllowedEndpoint::ClosedOrders ==> out.path == "/v1/orders/closed"@ && out.method
                == UpbitHttpMethod::Get
            &&& out.endpoint == AllowedEndpoint::OrderCancel ==> out.path == "/v1/order"@ && out.method
                == UpbitHttpMethod::Delete
            &&& out.endpoint == AllowedEndpoint::OrderTest ==> out.path == "/v1/orders/test"@ && out.method
                == UpbitHttpMethod::Post
            &&& out.endpoint == AllowedEndpoint::OrderCreate ==> out.path == "/v1/orders"@ && out.method
                == UpbitHttpMethod::Post
            &&& out.endpoint == AllowedEndpoint::CandleMinutes ==> "/v1/candles/minutes/"@.is_prefix_of(
                out.path,
            ) && out.method == UpbitHttpMethod::Get
        }),
{
    let out = prepared(request, positive)->Ok_0;
    if out.endpoint == AllowedEndpoint::CandleMinutes {
        let prefix = "/v1/candles/minutes/"@;
        assert(out.path.subrange(0, prefix.len() as int) =~= prefix);
    }
}

/// A real order is placed only where the request confirms it and names it. Its name is
/// what it is known by later, and its body is sent as one member for each field.
pub proof fn real_orders_are_confirmed_and_named(
    request: UpbitHttpRequest,
    positive: PositiveAmounts,
)
    requires
        prepared(request, positive) is Ok,
    ensures
        ({
            let out = prepared(request, positive)->Ok_0;
            let members = request.body.deep_view()->Some_0;
            &&& out.endpoint == AllowedEndpoint::OrderCreate ==> {
                &&& request.intent is Some
                &&& request.intent->Some_0.confirm_real_order == Some(true)
                &&& out.idempotency_key is Some
                &&& gives(members, "identifier"@, out.idempotency_key->Some_0)
            }
            &&& out.endpoint != AllowedEndpoint::OrderCreate ==> out.idempotency_key is None
            &&& is_order(out.endpoint) ==> out.query_pairs.len() == 0 && out.body_json == Some(
                object_literal(out.body_pairs),
            )
            &&& !is_order(out.endpoint) ==> out.body_pairs.len() == 0 && out.body_json is None
        }),
{
}

} // verus!
