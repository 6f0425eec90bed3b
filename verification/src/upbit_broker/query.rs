//! Query parameters of the read endpoints.

use vstd::prelude::*;
use vstd::string::*;

use crate::json::{lemma_array_content, member, member_value, Json, JsonValue};
use crate::number::{decimal, u64_text};
use crate::text::{
    ascii_lower, ascii_upper, holds_text, join, joined, one_of, outcome, owned_texts, same_text,
    to_ascii_lower, to_ascii_upper,
};
use crate::upbit_broker::fields::{
    field_content, field_count, field_count_content, field_text, market_code, market_field,
    normalize_market_code, required_market, value_as_string, value_content,
};

verus! {

pub type Pairs = Seq<(Seq<char>, Seq<char>)>;

/// The parameters of two rules in turn; the first rule that fails decides.
pub open spec fn in_turn(
    first: Result<Pairs, Seq<char>>,
    second: Result<Pairs, Seq<char>>,
) -> Result<Pairs, Seq<char>> {
    match first {
        Err(message) => Err(message),
        Ok(before) => match second {
            Err(message) => Err(message),
            Ok(after) => Ok(before + after),
        },
    }
}

/// The parameters of two rules in turn; the first rule that fails decides.
pub fn chain(
    first: Result<Vec<(String, String)>, String>,
    second: Result<Vec<(String, String)>, String>,
) -> (both: Result<Vec<(String, String)>, String>)
    ensures
        outcome(both) == in_turn(outcome(first), outcome(second)),
{
    match first {
        Err(message) => Err(message),
        Ok(before) => match second {
            Err(message) => Err(message),
            Ok(after) => {
                let mut both = before;
                let mut rest = after;
                let ghost old_both = both.deep_view();
                let ghost old_rest = rest.deep_view();
                both.append(&mut rest);
                proof {
                    assert(both.deep_view() =~= old_both + old_rest);
                }
                Ok(both)
            },
        },
    }
}

/// One parameter.
pub fn single_pair(key: &str, value: String) -> (pairs: Vec<(String, String)>)
    ensures
        pairs.deep_view() == seq![(key@, value@)],
{
    let mut pairs: Vec<(String, String)> = Vec::new();
    pairs.push((key.to_owned(), value));
    proof {
        assert(pairs.deep_view() =~= seq![(key@, value@)]);
    }
    pairs
}

/// No parameter.
pub fn no_pairs() -> (pairs: Vec<(String, String)>)
    ensures
        pairs.deep_view() == Seq::<(Seq<char>, Seq<char>)>::empty(),
{
    let pairs: Vec<(String, String)> = Vec::new();
    proof {
        assert(pairs.deep_view() =~= Seq::<(Seq<char>, Seq<char>)>::empty());
    }
    pairs
}

/// Whether a check passed, as a rule without parameters.
pub open spec fn checked(check: Result<(), Seq<char>>) -> Result<Pairs, Seq<char>> {
    match check {
        Ok(_) => Ok(Seq::empty()),
        Err(message) => Err(message),
    }
}

/// Whether a check passed, as a rule without parameters.
pub fn check_only(check: Result<(), String>) -> (pairs: Result<Vec<(String, String)>, String>)
    ensures
        outcome(pairs) == checked(outcome(check)),
{
    match check {
        Ok(_) => Ok(no_pairs()),
        Err(message) => Err(message),
    }
}

/// The required market.
pub open spec fn market_pair_content(
    members: Seq<(Seq<char>, Json)>,
) -> Result<Pairs, Seq<char>> {
    match required_market(members) {
        Ok(market) => Ok(seq![("market"@, market)]),
        Err(message) => Err(message),
    }
}

/// The required market.
pub fn market_pair(members: &Vec<(String, JsonValue)>) -> (pairs: Result<Vec<(String, String)>, String>)
    ensures
        outcome(pairs) == market_pair_content(members.deep_view()),
{
    match market_field(members) {
        Ok(market) => Ok(single_pair("market", market)),
        Err(message) => Err(message),
    }
}

/// A market that may be absent.
pub open spec fn optional_market_content(
    members: Seq<(Seq<char>, Json)>,
) -> Result<Pairs, Seq<char>> {
    match member_value(members, "market"@) {
        None => Ok(Seq::empty()),
        Some(value) => match value_content(value) {
            None => Err("market must be a string."@),
            Some(raw) => match market_code(raw) {
                Ok(market) => Ok(seq![("market"@, market)]),
                Err(message) => Err(message),
            },
        },
    }
}

/// A market that may be absent.
pub fn optional_market(members: &Vec<(String, JsonValue)>) -> (pairs: Result<Vec<(String, String)>, String>)
    ensures
        outcome(pairs) == optional_market_content(members.deep_view()),
{
    match member(members, "market") {
        None => Ok(no_pairs()),
        Some(value) => match value_as_string(value) {
            None => Err("market must be a string.".to_owned()),
            Some(raw) => match normalize_market_code(raw.as_str()) {
                Ok(market) => Ok(single_pair("market", market)),
                Err(message) => Err(message),
            },
        },
    }
}

/// A text that may be absent but not empty.
pub open spec fn optional_text_content(
    members: Seq<(Seq<char>, Json)>,
    key: Seq<char>,
) -> Result<Pairs, Seq<char>> {
    match field_content(members, key) {
        None => Ok(Seq::empty()),
        Some(text) => if text.len() == 0 {
            Err(key + " cannot be empty."@)
        } else {
            Ok(seq![(key, text)])
        },
    }
}

/// A text that may be absent but not empty.
pub fn optional_text(members: &Vec<(String, JsonValue)>, key: &str) -> (pairs: Result<
    Vec<(String, String)>,
    String,
>)
    ensures
        outcome(pairs) == optional_text_content(members.deep_view(), key@),
{
    match field_text(members, key) {
        None => Ok(no_pairs()),
        Some(text) => if text.as_str().is_empty() {
            Err(key.to_owned().concat(" cannot be empty."))
        } else {
            Ok(single_pair(key, text))
        },
    }
}

/// A number from one up to `max`; `message` where it is outside.
pub open spec fn count_pair_content(
    members: Seq<(Seq<char>, Json)>,
    key: Seq<char>,
    default: nat,
    max: nat,
    message: Seq<char>,
) -> Result<Pairs, Seq<char>> {
    match field_count_content(members, key, default) {
        Err(reason) => Err(reason),
        Ok(n) => if 1 <= n <= max {
            Ok(seq![(key, decimal(n))])
        } else {
            Err(message)
        },
    }
}

/// A number from one up to `max`; `message` where it is outside.
pub fn count_pair(
    members: &Vec<(String, JsonValue)>,
    key: &str,
    default: u32,
    max: u32,
    message: &str,
) -> (pairs: Result<Vec<(String, String)>, String>)
    ensures
        outcome(pairs) == count_pair_content(
            members.deep_view(),
            key@,
            default as nat,
            max as nat,
            message@,
        ),
{
    match field_count(members, key, default) {
        Err(reason) => Err(reason),
        Ok(n) => if 1 <= n && n <= max {
            Ok(single_pair(key, u64_text(n as u64)))
        } else {
            Err(message.to_owned())
        },
    }
}

/// The sort order: `asc` or `desc`, the latter where none is given.
pub open spec fn sort_order_content(members: Seq<(Seq<char>, Json)>) -> Result<Pairs, Seq<char>> {
    let order = ascii_lower(
        match field_content(members, "order_by"@) {
            Some(text) => text,
            None => "desc"@,
        },
    );
    if order != "asc"@ && order != "desc"@ {
        Err("order_by must be asc or desc."@)
    } else {
        Ok(seq![("order_by"@, order)])
    }
}

/// The sort order: `asc` or `desc`, the latter where none is given.
pub fn sort_order(members: &Vec<(String, JsonValue)>) -> (pairs: Result<Vec<(String, String)>, String>)
    ensures
        outcome(pairs) == sort_order_content(members.deep_view()),
{
    let given = match field_text(members, "order_by") {
        Some(text) => text,
        None => "desc".to_owned(),
    };
    let order = to_ascii_lower(given.as_str());
    if !same_text(order.as_str(), "asc") && !same_text(order.as_str(), "desc") {
        return Err("order_by must be asc or desc.".to_owned());
    }
    Ok(single_pair("order_by", order))
}

// ---------------------------------------------------------------------------
// Candles
// ---------------------------------------------------------------------------

/// The parameters of candle queries: a market, an optional end and a count.
pub open spec fn candle_pairs(
    members: Seq<(Seq<char>, Json)>,
    max_count: nat,
) -> Result<Pairs, Seq<char>> {
    in_turn(
        in_turn(market_pair_content(members), optional_text_content(members, "to"@)),
        count_pair_content(
            members,
            "count"@,
            1,
            max_count,
            "count must be within 1..="@ + decimal(max_count) + "."@,
        ),
    )
}

/// The parameters of candle queries: a market, an optional end and a count.
pub fn build_candle_query_pairs(
    query: &Vec<(String, JsonValue)>,
    max_count: u32,
) -> (pairs: Result<Vec<(String, String)>, String>)
    ensures
        outcome(pairs) == candle_pairs(query.deep_view(), max_count as nat),
{
    let message = "count must be within 1..=".to_owned().concat(
        u64_text(max_count as u64).as_str(),
    ).concat(".");
    chain(
        chain(market_pair(query), optional_text(query, "to")),
        count_pair(query, "count", 1, max_count, message.as_str()),
    )
}

/// The currency that day candles are converted to, in upper case.
pub open spec fn price_unit_content(members: Seq<(Seq<char>, Json)>) -> Result<Pairs, Seq<char>> {
    match field_content(members, "converting_price_unit"@) {
        None => Ok(Seq::empty()),
        Some(unit) => if unit.len() == 0 {
            Err("converting_price_unit cannot be empty."@)
        } else {
            Ok(seq![("converting_price_unit"@, ascii_upper(unit))])
        },
    }
}

/// The currency that day candles are converted to, in upper case.
pub fn price_unit(members: &Vec<(String, JsonValue)>) -> (pairs: Result<Vec<(String, String)>, String>)
    ensures
        outcome(pairs) == price_unit_content(members.deep_view()),
{
    match field_text(members, "converting_price_unit") {
        None => Ok(no_pairs()),
        Some(unit) => if unit.as_str().is_empty() {
            Err("converting_price_unit cannot be empty.".to_owned())
        } else {
            Ok(single_pair("converting_price_unit", to_ascii_upper(unit.as_str())))
        },
    }
}

// ---------------------------------------------------------------------------
// Orders
// ---------------------------------------------------------------------------

/// A text content that is not empty.
pub open spec fn filled_content(
    members: Seq<(Seq<char>, Json)>,
    key: Seq<char>,
) -> Option<Seq<char>> {
    match field_content(members, key) {
        Some(text) => if text.len() == 0 {
            None
        } else {
            Some(text)
        },
        None => None,
    }
}

/// A text content that is not empty.
pub fn filled_field(members: &Vec<(String, JsonValue)>, key: &str) -> (text: Option<String>)
    ensures
        text.deep_view() == filled_content(members.deep_view(), key@),
{
    match field_text(members, key) {
        Some(text) => if text.as_str().is_empty() {
            None
        } else {
            Some(text)
        },
        None => None,
    }
}

/// The selector of one order: its uuid or its identifier, not both.
pub open spec fn lookup_pairs(
    query: Option<Seq<(Seq<char>, Json)>>,
) -> Result<Pairs, Seq<char>> {
    match query {
        None => Err("uuid or identifier query is required."@),
        Some(members) => match (
            filled_content(members, "uuid"@),
            filled_content(members, "identifier"@),
        ) {
            (Some(_), Some(_)) => Err("provide only one of uuid or identifier."@),
            (Some(uuid), None) => Ok(seq![("uuid"@, uuid)]),
            (None, Some(identifier)) => Ok(seq![("identifier"@, identifier)]),
            (None, None) => Err("either uuid or identifier is required."@),
        },
    }
}

/// The selector of one order: its uuid or its identifier, not both.
pub fn build_order_lookup_query_pairs(query: Option<&Vec<(String, JsonValue)>>) -> (pairs: Result<
    Vec<(String, String)>,
    String,
>)
    ensures
        outcome(pairs) == lookup_pairs(query.deep_view()),
{
    let members = match query {
        None => {
            return Err("uuid or identifier query is required.".to_owned());
        },
        Some(members) => members,
    };
    let uuid = filled_field(members, "uuid");
    let identifier = filled_field(members, "identifier");
    match (uuid, identifier) {
        (Some(_), Some(_)) => Err("provide only one of uuid or identifier.".to_owned()),
        (Some(uuid), None) => Ok(single_pair("uuid", uuid)),
        (None, Some(identifier)) => Ok(single_pair("identifier", identifier)),
        (None, None) => Err("either uuid or identifier is required.".to_owned()),
    }
}

/// The text contents among the values.
pub open spec fn contents(values: Seq<Json>) -> Seq<Seq<char>>
    decreases values.len(),
{
    if values.len() == 0 {
        Seq::empty()
    } else {
        let before = contents(values.drop_last());
        match value_content(values.last()) {
            Some(text) => before.push(text),
            None => before,
        }
    }
}

/// The texts that a list, or a single value, stands for.
pub open spec fn listed_contents(value: Json) -> Seq<Seq<char>> {
    match value {
        Json::Array(items) => contents(items),
        _ => match value_content(value) {
            Some(text) => seq![text],
            None => Seq::empty(),
        },
    }
}

/// The texts that a list, or a single value, stands for.
pub fn listed_texts(value: &JsonValue) -> (texts: Vec<String>)
    ensures
        texts.deep_view() == listed_contents(value@),
{
    let mut texts: Vec<String> = Vec::new();
    match value {
        JsonValue::Array(items) => {
            let ghost all = items.deep_view();
            proof {
                lemma_array_content(*items);
            }
            let mut i: usize = 0;
            while i < items.len()
                invariant
                    i <= items@.len(),
                    all == items.deep_view(),
                    texts.deep_view() =~= contents(all.take(i as int)),
                decreases items@.len() - i,
            {
                let ghost before = texts.deep_view();
                proof {
                    assert(all.take(i as int + 1).drop_last() =~= all.take(i as int));
                    assert(all[i as int] == items@[i as int]@);
                }
                match value_as_string(&items[i]) {
                    Some(text) => {
                        texts.push(text);
                        proof {
                            assert(texts.deep_view() =~= before.push(text@));
                        }
                    },
                    None => {},
                }
                i += 1;
            }
            proof {
                assert(all.take(all.len() as int) =~= all);
            }
        },
        _ => match value_as_string(value) {
            Some(text) => {
                texts.push(text);
                proof {
                    assert(texts.deep_view() =~= seq![text@]);
                }
            },
            None => {
                proof {
                    assert(texts.deep_view() =~= Seq::<Seq<char>>::empty());
                }
            },
        },
    }
    texts
}

/// The texts in lower case, each kept where it first occurs.
pub open spec fn distinct_lower(texts: Seq<Seq<char>>) -> Seq<Seq<char>>
    decreases texts.len(),
{
    if texts.len() == 0 {
        Seq::empty()
    } else {
        let before = distinct_lower(texts.drop_last());
        let text = ascii_lower(texts.last());
        if before.contains(text) {
            before
        } else {
            before.push(text)
        }
    }
}

/// The states that a filter names: each one of `allowed`, listed once.
pub open spec fn states_of(
    value: Json,
    allowed: Seq<Seq<char>>,
    field_name: Seq<char>,
) -> Result<Seq<Seq<char>>, Seq<char>> {
    let texts = listed_contents(value);
    if texts.len() == 0 {
        Err(field_name + " cannot be empty."@)
    } else if exists|i: int|
        0 <= i < texts.len() && !allowed.contains(ascii_lower(#[trigger] texts[i])) {
        Err(field_name + " supports only "@ + joined(allowed, ", "@) + "."@)
    } else {
        Ok(distinct_lower(texts))
    }
}

/// The states that a filter names: each one of `allowed`, listed once.
pub fn parse_state_values(
    value: &JsonValue,
    allowed_states: &Vec<&str>,
    field_name: &str,
) -> (states: Result<Vec<String>, String>)
    ensures
        outcome(states) == states_of(value@, allowed_states.deep_view(), field_name@),
{
    let values = listed_texts(value);
    let ghost texts = values.deep_view();
    let ghost allowed = allowed_states.deep_view();
    if values.len() == 0 {
        return Err(field_name.to_owned().concat(" cannot be empty."));
    }
    let mut normalized: Vec<String> = Vec::new();
    let mut i: usize = 0;
    while i < values.len()
        invariant
            i <= values@.len(),
            0 < values@.len(),
            texts == values.deep_view(),
            texts == listed_contents(value@),
            allowed == allowed_states.deep_view(),
            normalized.deep_view() =~= distinct_lower(texts.take(i as int)),
            forall|k: int|
                0 <= k < i ==> allowed.contains(ascii_lower(#[trigger] texts[k])),
        decreases values@.len() - i,
    {
        let ghost before = normalized.deep_view();
        let state = to_ascii_lower(values[i].as_str());
        proof {
            assert(texts[i as int] == values@[i as int]@);
            assert(texts.take(i as int + 1).drop_last() =~= texts.take(i as int));
        }
        if !one_of(allowed_states, state.as_str()) {
            let names = owned_texts(allowed_states);
            return Err(
                field_name.to_owned().concat(" supports only ").concat(
                    join(&names, ", ").as_str(),
                ).concat("."),
            );
        }
        if !holds_text(&normalized, state.as_str()) {
            normalized.push(state);
            proof {
                assert(normalized.deep_view() =~= before.push(state@));
            }
        }
        i += 1;
    }
    proof {
        assert(texts.take(texts.len() as int) =~= texts);
    }
    Ok(normalized)
}

pub proof fn lemma_distinct_nonempty(texts: Seq<Seq<char>>)
    requires
        texts.len() > 0,
    ensures
        distinct_lower(texts).len() > 0,
    decreases texts.len(),
{
    if texts.len() > 1 {
        lemma_distinct_nonempty(texts.drop_last());
    } else {
        assert(distinct_lower(texts.drop_last()) =~= Seq::<Seq<char>>::empty());
    }
}

/// Each of the texts as the value of one parameter.
pub open spec fn repeated(key: Seq<char>, texts: Seq<Seq<char>>) -> Pairs {
    Seq::new(texts.len(), |i: int| (key, texts[i]))
}

/// The state filter: one state, or a list of states, not both.
pub open spec fn state_pairs(
    query: Option<Seq<(Seq<char>, Json)>>,
    allowed: Seq<Seq<char>>,
    single_key: Seq<char>,
    multi_key: Seq<char>,
) -> Result<Pairs, Seq<char>> {
    match query {
        None => Ok(Seq::empty()),
        Some(members) => match (
            member_value(members, single_key),
            member_value(members, multi_key),
        ) {
            (Some(_), Some(_)) => Err(
                "cannot use "@ + single_key + " and "@ + multi_key + " together."@,
            ),
            (Some(value), None) => match states_of(value, allowed, single_key) {
                Ok(states) => Ok(seq![(single_key, states[0])]),
                Err(message) => Err(message),
            },
            (None, Some(value)) => match states_of(value, allowed, multi_key) {
                Ok(states) => Ok(repeated(multi_key, states)),
                Err(message) => Err(message),
            },
            (None, None) => Ok(Seq::empty()),
        },
    }
}

/// The state filter: one state, or a list of states, not both.
pub fn build_state_filter_query_pairs(
    query: Option<&Vec<(String, JsonValue)>>,
    allowed_states: &Vec<&str>,
    single_key: &str,
    multi_key: &str,
) -> (pairs: Result<Vec<(String, String)>, String>)
    ensures
        outcome(pairs) == state_pairs(
            query.deep_view(),
            allowed_states.deep_view(),
            single_key@,
            multi_key@,
        ),
{
    let members = match query {
        None => {
            return Ok(no_pairs());
        },
        Some(members) => members,
    };
    match (member(members, single_key), member(members, multi_key)) {
        (Some(_), Some(_)) => Err(
            "cannot use ".to_owned().concat(single_key).concat(" and ").concat(multi_key).concat(
                " together.",
            ),
        ),
        (Some(value), None) => match parse_state_values(value, allowed_states, single_key) {
            Ok(states) => {
                proof {
                    lemma_distinct_nonempty(listed_contents(value@));
                    assert(states.deep_view().len() == states@.len());
                }
                Ok(single_pair(single_key, states[0].clone()))
            },
            Err(message) => Err(message),
        },
        (None, Some(value)) => match parse_state_values(value, allowed_states, multi_key) {
            Ok(states) => {
                let mut pairs: Vec<(String, String)> = Vec::new();
                let ghost all = states.deep_view();
                let mut i: usize = 0;
                while i < states.len()
                    invariant
                        i <= states@.len(),
                        all == states.deep_view(),
                        pairs.deep_view() =~= repeated(multi_key@, all).take(i as int),
                    decreases states@.len() - i,
                {
                    let ghost before = pairs.deep_view();
                    pairs.push((multi_key.to_owned(), states[i].clone()));
                    proof {
                        assert(all[i as int] == states@[i as int]@);
                        assert(pairs.deep_view() =~= before.push((multi_key@, all[i as int])));
                    }
                    i += 1;
                }
                proof {
                    assert(pairs.deep_view() =~= repeated(multi_key@, all));
                }
                Ok(pairs)
            },
            Err(message) => Err(message),
        },
        (None, None) => Ok(no_pairs()),
    }
}

} // verus!
