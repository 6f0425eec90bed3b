//! The fields of a request: which are allowed and what they may hold.

use vstd::prelude::*;
use vstd::string::*;

use crate::json::{member, member_value, number_text, Json, JsonNumber, JsonValue};
use crate::number::{decimal, parse_u32, signed_decimal, unsigned_value};
use crate::text::{
    ascii_lower, ascii_upper, has_char, one_of, outcome, same_text, split, split_at_char,
    to_ascii_lower, to_ascii_upper, trim, trimmed,
};

verus! {

// ---------------------------------------------------------------------------
// Single values
// ---------------------------------------------------------------------------

/// A text without surrounding white space, or the text of a number or a flag.
pub open spec fn value_content(value: Json) -> Option<Seq<char>> {
    match value {
        Json::Text(text) => Some(trimmed(text)),
        Json::Unsigned(n) => Some(decimal(n)),
        Json::Negative(n) => Some(signed_decimal(n)),
        Json::Other(text) => Some(text),
        Json::Bool(flag) => Some(if flag {
            "true"@
        } else {
            "false"@
        }),
        _ => None,
    }
}

/// A text without surrounding white space, or the text of a number or a flag.
pub fn value_as_string(value: &JsonValue) -> (text: Option<String>)
    ensures
        text.deep_view() == value_content(value@),
{
    match value {
        JsonValue::Text(text) => Some(trim(text.as_str())),
        JsonValue::Number(n) => Some(number_text(n)),
        JsonValue::Bool(flag) => if *flag {
            Some("true".to_owned())
        } else {
            Some("false".to_owned())
        },
        _ => None,
    }
}

/// The flag that a flag or a word stands for.
pub open spec fn flag_content(value: Json) -> Option<bool> {
    match value {
        Json::Bool(flag) => Some(flag),
        Json::Text(text) => {
            let word = ascii_lower(trimmed(text));
            if word == "true"@ || word == "1"@ || word == "yes"@ || word == "on"@ {
                Some(true)
            } else if word == "false"@ || word == "0"@ || word == "no"@ || word == "off"@ {
                Some(false)
            } else {
                None
            }
        },
        _ => None,
    }
}

/// The flag that a flag or a word stands for.
pub fn parse_bool_like(value: &JsonValue) -> (flag: Option<bool>)
    ensures
        flag == flag_content(value@),
{
    match value {
        JsonValue::Bool(flag) => Some(*flag),
        JsonValue::Text(text) => {
            let word = to_ascii_lower(trim(text.as_str()).as_str());
            let word = word.as_str();
            if same_text(word, "true") || same_text(word, "1") || same_text(word, "yes")
                || same_text(word, "on") {
                Some(true)
            } else if same_text(word, "false") || same_text(word, "0") || same_text(word, "no")
                || same_text(word, "off") {
                Some(false)
            } else {
                None
            }
        },
        _ => None,
    }
}

/// The unsigned number that a number or a text stands for.
pub open spec fn count_content(value: Json) -> Result<nat, Seq<char>> {
    match value {
        Json::Unsigned(n) => if n <= u32::MAX {
            Ok(n)
        } else {
            Err("number must be an unsigned integer"@)
        },
        Json::Negative(_) => Err("number must be an unsigned integer"@),
        Json::Other(_) => Err("number must be an unsigned integer"@),
        Json::Text(text) => match unsigned_value(trimmed(text), u32::MAX as nat) {
            Some(n) => Ok(n),
            None => Err("invalid integer: "@ + text),
        },
        _ => Err("value must be integer-like"@),
    }
}

/// The unsigned number that a number or a text stands for.
pub fn parse_u32_like(value: &JsonValue) -> (count: Result<u32, String>)
    ensures
        match count {
            Ok(n) => count_content(value@) == Ok::<nat, Seq<char>>(n as nat),
            Err(message) => count_content(value@) == Err::<nat, Seq<char>>(message@),
        },
{
    match value {
        JsonValue::Number(JsonNumber::Unsigned(n)) => if *n <= u32::MAX as u64 {
            Ok(*n as u32)
        } else {
            Err("number must be an unsigned integer".to_owned())
        },
        JsonValue::Number(_) => Err("number must be an unsigned integer".to_owned()),
        JsonValue::Text(text) => match parse_u32(trim(text.as_str()).as_str()) {
            Some(n) => Ok(n),
            None => Err("invalid integer: ".to_owned().concat(text.as_str())),
        },
        _ => Err("value must be integer-like".to_owned()),
    }
}

// ---------------------------------------------------------------------------
// Field names
// ---------------------------------------------------------------------------

/// Accepts members whose names are all in `allowed`; names the first that is
/// not.
pub open spec fn keys_allowed(
    members: Seq<(Seq<char>, Json)>,
    allowed: Seq<Seq<char>>,
) -> Result<(), Seq<char>>
    decreases members.len(),
{
    if members.len() == 0 {
        Ok(())
    } else if !allowed.contains(members[0].0) {
        Err("unsupported field: "@ + members[0].0)
    } else {
        keys_allowed(members.drop_first(), allowed)
    }
}

/// The same for fields that may be absent as a whole.
pub open spec fn fields_allowed(
    members: Option<Seq<(Seq<char>, Json)>>,
    allowed: Seq<Seq<char>>,
) -> Result<(), Seq<char>> {
    match members {
        None => Ok(()),
        Some(members) => keys_allowed(members, allowed),
    }
}

/// Accepts fields whose names are all in `allowed`; names the first that is
/// not.
pub fn ensure_allowed_keys(
    value: Option<&Vec<(String, JsonValue)>>,
    allowed: &Vec<&str>,
) -> (checked: Result<(), String>)
    ensures
        outcome(checked) == fields_allowed(value.deep_view(), allowed.deep_view()),
{
    let members = match value {
        None => {
            return Ok(());
        },
        Some(members) => members,
    };
    let ghost all = members.deep_view();
    let mut i: usize = 0;
    proof {
        assert(all.skip(0) =~= all);
    }
    while i < members.len()
        invariant
            i <= members@.len(),
            all == members.deep_view(),
            value.deep_view() == Some(all),
            keys_allowed(all, allowed.deep_view()) == keys_allowed(
                all.skip(i as int),
                allowed.deep_view(),
            ),
        decreases members@.len() - i,
    {
        proof {
            assert(all.skip(i as int)[0].0 == members@[i as int].0@);
            assert(all.skip(i as int).drop_first() =~= all.skip(i as int + 1));
        }
        if !one_of(allowed, members[i].0.as_str()) {
            return Err("unsupported field: ".to_owned().concat(members[i].0.as_str()));
        }
        i += 1;
    }
    Ok(())
}

/// The text content of a field, where it has one.
pub open spec fn field_content(
    members: Seq<(Seq<char>, Json)>,
    key: Seq<char>,
) -> Option<Seq<char>> {
    match member_value(members, key) {
        Some(value) => value_content(value),
        None => None,
    }
}

/// The text content of a field, where it has one.
pub fn field_text(members: &Vec<(String, JsonValue)>, key: &str) -> (text: Option<String>)
    ensures
        text.deep_view() == field_content(members.deep_view(), key@),
{
    match member(members, key) {
        Some(value) => value_as_string(value),
        None => None,
    }
}

/// The number in a field, or `default` where there is no such field.
pub open spec fn field_count_content(
    members: Seq<(Seq<char>, Json)>,
    key: Seq<char>,
    default: nat,
) -> Result<nat, Seq<char>> {
    match member_value(members, key) {
        Some(value) => count_content(value),
        None => Ok(default),
    }
}

/// The number in a field, or `default` where there is no such field.
pub fn field_count(
    members: &Vec<(String, JsonValue)>,
    key: &str,
    default: u32,
) -> (count: Result<u32, String>)
    ensures
        match count {
            Ok(n) => field_count_content(members.deep_view(), key@, default as nat) == Ok::<
                nat,
                Seq<char>,
            >(n as nat),
            Err(message) => field_count_content(members.deep_view(), key@, default as nat) == Err::<
                nat,
                Seq<char>,
            >(message@),
        },
{
    match member(members, key) {
        Some(value) => parse_u32_like(value),
        None => Ok(default),
    }
}

// ---------------------------------------------------------------------------
// Markets
// ---------------------------------------------------------------------------

/// A market code in upper case; it holds a dash.
pub open spec fn market_code(raw: Seq<char>) -> Result<Seq<char>, Seq<char>> {
    let code = ascii_upper(trimmed(raw));
    if code.len() == 0 || !code.contains('-') {
        Err("invalid market code: "@ + raw)
    } else {
        Ok(code)
    }
}

/// A market code in upper case; it holds a dash.
pub fn normalize_market_code(raw: &str) -> (code: Result<String, String>)
    ensures
        outcome(code) == market_code(raw@),
{
    let code = to_ascii_upper(trim(raw).as_str());
    if code.as_str().is_empty() || !has_char(code.as_str(), '-') {
        return Err("invalid market code: ".to_owned().concat(raw));
    }
    Ok(code)
}

/// The non-empty entries, in upper case and without surrounding white space.
pub open spec fn market_entries(pieces: Seq<Seq<char>>) -> Seq<Seq<char>>
    decreases pieces.len(),
{
    if pieces.len() == 0 {
        Seq::empty()
    } else {
        let before = market_entries(pieces.drop_last());
        let entry = ascii_upper(trimmed(pieces.last()));
        if entry.len() == 0 {
            before
        } else {
            before.push(entry)
        }
    }
}

/// The message on the first entry that is no market code.
pub open spec fn codes_checked(entries: Seq<Seq<char>>) -> Result<(), Seq<char>>
    decreases entries.len(),
{
    if entries.len() == 0 {
        Ok(())
    } else {
        match market_code(entries[0]) {
            Err(message) => Err(message),
            Ok(_) => codes_checked(entries.drop_first()),
        }
    }
}

/// The market codes of a comma-separated list: at least one, at most twenty.
pub open spec fn market_list(csv: Seq<char>) -> Result<Seq<Seq<char>>, Seq<char>> {
    let entries = market_entries(split(csv, ','));
    if entries.len() == 0 {
        Err("at least one market code is required."@)
    } else if entries.len() > 20 {
        Err("at most 20 markets can be requested at once."@)
    } else {
        match codes_checked(entries) {
            Err(message) => Err(message),
            Ok(_) => Ok(entries),
        }
    }
}

/// The market codes of a comma-separated list: at least one, at most twenty.
pub fn normalize_markets_csv(markets_csv: &str) -> (markets: Result<Vec<String>, String>)
    ensures
        outcome(markets) == market_list(markets_csv@),
{
    let pieces = split_at_char(markets_csv, ',');
    let ghost all = pieces.deep_view();
    let mut markets: Vec<String> = Vec::new();
    let mut i: usize = 0;
    while i < pieces.len()
        invariant
            i <= pieces@.len(),
            all == pieces.deep_view(),
            markets.deep_view() =~= market_entries(all.take(i as int)),
        decreases pieces@.len() - i,
    {
        let ghost before = markets.deep_view();
        proof {
            assert(all.take(i as int + 1).drop_last() =~= all.take(i as int));
            assert(all[i as int] == pieces@[i as int]@);
        }
        let entry = to_ascii_upper(trim(pieces[i].as_str()).as_str());
        if !entry.as_str().is_empty() {
            markets.push(entry);
            proof {
                assert(markets.deep_view() =~= before.push(entry@));
            }
        }
        i += 1;
    }
    let ghost entries = markets.deep_view();
    proof {
        assert(all.take(all.len() as int) =~= all);
        assert(entries == market_entries(all));
        assert(entries.len() == markets@.len());
    }
    if markets.len() == 0 {
        return Err("at least one market code is required.".to_owned());
    }
    if markets.len() > 20 {
        return Err("at most 20 markets can be requested at once.".to_owned());
    }
    let mut i: usize = 0;
    proof {
        assert(entries.skip(0) =~= entries);
    }
    while i < markets.len()
        invariant
            i <= markets@.len(),
            0 < markets@.len() <= 20,
            entries == markets.deep_view(),
            entries == market_entries(split(markets_csv@, ',')),
            codes_checked(entries) == codes_checked(entries.skip(i as int)),
        decreases markets@.len() - i,
    {
        proof {
            assert(entries.skip(i as int)[0] == markets@[i as int]@);
            assert(entries.skip(i as int).drop_first() =~= entries.skip(i as int + 1));
        }
        match normalize_market_code(markets[i].as_str()) {
            Err(message) => {
                return Err(message);
            },
            Ok(_) => {},
        }
        i += 1;
    }
    Ok(markets)
}

/// A required market field.
pub open spec fn required_market(
    members: Seq<(Seq<char>, Json)>,
) -> Result<Seq<char>, Seq<char>> {
    match field_content(members, "market"@) {
        None => Err("market is required."@),
        Some(raw) => market_code(raw),
    }
}

/// A required market field.
pub fn market_field(members: &Vec<(String, JsonValue)>) -> (market: Result<String, String>)
    ensures
        outcome(market) == required_market(members.deep_view()),
{
    match field_text(members, "market") {
        None => Err("market is required.".to_owned()),
        Some(raw) => normalize_market_code(raw.as_str()),
    }
}

} // verus!
