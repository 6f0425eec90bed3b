//! Requests as they go over the wire: query strings, bodies and tokens.

use vstd::prelude::*;
use vstd::slice::*;
use vstd::string::*;
use vstd::utf8::*;

use base64::Engine;
use hmac::Mac;
use sha2::Digest;

use crate::json::{json_map_bytes, quote_json, quoted_json, write_json_map};
use crate::text::{append_char, join, joined, outcome, replace, replaced, trim, trim_end_of, trimmed,
    trimmed_end_of};
use crate::upbit_broker::endpoint::UpbitHttpMethod;
use crate::upbit_broker::query::Pairs;

verus! {

// ---------------------------------------------------------------------------
// Bodies and query strings
// ---------------------------------------------------------------------------

/// One member of a JSON object of texts.
pub open spec fn member_literal(pair: (Seq<char>, Seq<char>)) -> Seq<char> {
    quoted_json(pair.0) + ":"@ + quoted_json(pair.1)
}

/// A JSON object with the pairs as members, in their order.
pub open spec fn object_literal(pairs: Pairs) -> Seq<char> {
    "{"@ + joined(Seq::new(pairs.len(), |i: int| member_literal(pairs[i])), ","@) + "}"@
}

/// A JSON object with the pairs as members, in their order.
pub fn pairs_to_json_object(pairs: &Vec<(String, String)>) -> (object: Result<String, String>)
    ensures
        outcome(object) == Ok::<Seq<char>, Seq<char>>(object_literal(pairs.deep_view())),
{
    let ghost all = pairs.deep_view();
    let ghost wanted = Seq::new(all.len(), |i: int| member_literal(all[i]));
    let mut members: Vec<String> = Vec::new();
    let mut i: usize = 0;
    while i < pairs.len()
        invariant
            i <= pairs@.len(),
            all == pairs.deep_view(),
            wanted == Seq::new(all.len(), |i: int| member_literal(all[i])),
            members.deep_view() =~= wanted.take(i as int),
        decreases pairs@.len() - i,
    {
        let ghost before = members.deep_view();
        let name = match quote_json(pairs[i].0.as_str()) {
            Ok(name) => name,
            Err(_) => {
                return Err("failed to serialize order field key".to_owned());
            },
        };
        let value = match quote_json(pairs[i].1.as_str()) {
            Ok(value) => value,
            Err(_) => {
                return Err("failed to serialize order field value".to_owned());
            },
        };
        let member = name.concat(":").concat(value.as_str());
        members.push(member);
        proof {
            assert(all[i as int] == (pairs@[i as int].0@, pairs@[i as int].1@));
            assert(members.deep_view() =~= before.push(wanted[i as int]));
        }
        i += 1;
    }
    proof {
        assert(members.deep_view() =~= wanted);
    }
    Ok("{".to_owned().concat(join(&members, ",").as_str()).concat("}"))
}

/// One parameter as it stands.
pub open spec fn raw_parameter(pair: (Seq<char>, Seq<char>)) -> Seq<char> {
    pair.0 + "="@ + pair.1
}

/// The parameters as they stand, joined by ampersands.
pub open spec fn raw_query(pairs: Pairs) -> Seq<char> {
    joined(Seq::new(pairs.len(), |i: int| raw_parameter(pairs[i])), "&"@)
}

/// The parameters as they stand, joined by ampersands.
pub fn build_raw_query_string(pairs: &Vec<(String, String)>) -> (query: String)
    ensures
        query@ == raw_query(pairs.deep_view()),
{
    let ghost all = pairs.deep_view();
    let ghost wanted = Seq::new(all.len(), |i: int| raw_parameter(all[i]));
    let mut parts: Vec<String> = Vec::new();
    let mut i: usize = 0;
    while i < pairs.len()
        invariant
            i <= pairs@.len(),
            all == pairs.deep_view(),
            wanted == Seq::new(all.len(), |i: int| raw_parameter(all[i])),
            parts.deep_view() =~= wanted.take(i as int),
        decreases pairs@.len() - i,
    {
        let ghost before = parts.deep_view();
        parts.push(pairs[i].0.clone().concat("=").concat(pairs[i].1.as_str()));
        proof {
            assert(all[i as int] == (pairs@[i as int].0@, pairs@[i as int].1@));
            assert(parts.deep_view() =~= before.push(wanted[i as int]));
        }
        i += 1;
    }
    proof {
        assert(parts.deep_view() =~= wanted);
    }
    join(&parts, "&")
}

/// A byte that stands for itself in a URL.
pub open spec fn is_unreserved(b: u8) -> bool {
    ||| 0x30 <= b <= 0x39
    ||| 0x41 <= b <= 0x5a
    ||| 0x61 <= b <= 0x7a
    ||| b == 0x2d
    ||| b == 0x2e
    ||| b == 0x5f
    ||| b == 0x7e
}

pub open spec fn upper_hex_digit(d: int) -> char {
    if d < 10 {
        (d + 0x30) as char
    } else {
        (d + 0x37) as char
    }
}

/// Percent encoding: letters, digits and `-`, `.`, `_`, `~` stand for
/// themselves, every other byte is a percent sign and two hex digits.
pub open spec fn percent_encoded(bytes: Seq<u8>) -> Seq<char>
    decreases bytes.len(),
{
    if bytes.len() == 0 {
        Seq::empty()
    } else {
        let before = percent_encoded(bytes.drop_last());
        let b = bytes.last();
        if is_unreserved(b) {
            before.push(b as char)
        } else {
            before + seq!['%', upper_hex_digit(b as int / 16), upper_hex_digit(b as int % 16)]
        }
    }
}

/// Percent encoding by `urlencoding::encode`, as its documentation states it:
/// every byte of the UTF-8 text but letters, digits and `-`, `_`, `.`, `~`
/// becomes a percent sign and two upper case hex digits.
#[verifier::external_body]
fn percent_encode(value: &str) -> (encoded: String)
    ensures
        encoded@ == percent_encoded(encode_utf8(value@)),
{
    urlencoding::encode(value).into_owned()
}

/// A key or value in a URL: percent encoded, with square brackets as they are.
pub open spec fn component(value: Seq<char>) -> Seq<char> {
    replaced(replaced(percent_encoded(encode_utf8(value)), "%5B"@, "["@), "%5D"@, "]"@)
}

/// A key or value in a URL: percent encoded, with square brackets as they are.
pub fn encode_component(value: &str) -> (encoded: String)
    ensures
        encoded@ == component(value@),
{
    let encoded = percent_encode(value);
    proof {
        reveal_strlit("%5B");
        reveal_strlit("%5D");
    }
    let opened = replace(encoded.as_str(), "%5B", "[");
    replace(opened.as_str(), "%5D", "]")
}

/// One parameter in a URL.
pub open spec fn encoded_parameter(pair: (Seq<char>, Seq<char>)) -> Seq<char> {
    component(pair.0) + "="@ + component(pair.1)
}

/// The parameters in a URL, joined by ampersands.
pub open spec fn encoded_query(pairs: Pairs) -> Seq<char> {
    joined(Seq::new(pairs.len(), |i: int| encoded_parameter(pairs[i])), "&"@)
}

/// The parameters in a URL, joined by ampersands.
pub fn build_encoded_query_string(pairs: &Vec<(String, String)>) -> (query: String)
    ensures
        query@ == encoded_query(pairs.deep_view()),
{
    let ghost all = pairs.deep_view();
    let ghost wanted = Seq::new(all.len(), |i: int| encoded_parameter(all[i]));
    let mut parts: Vec<String> = Vec::new();
    let mut i: usize = 0;
    while i < pairs.len()
        invariant
            i <= pairs@.len(),
            all == pairs.deep_view(),
            wanted == Seq::new(all.len(), |i: int| encoded_parameter(all[i])),
            parts.deep_view() =~= wanted.take(i as int),
        decreases pairs@.len() - i,
    {
        let ghost before = parts.deep_view();
        let name = encode_component(pairs[i].0.as_str());
        let value = encode_component(pairs[i].1.as_str());
        parts.push(name.concat("=").concat(value.as_str()));
        proof {
            assert(all[i as int] == (pairs@[i as int].0@, pairs@[i as int].1@));
            assert(parts.deep_view() =~= before.push(wanted[i as int]));
        }
        i += 1;
    }
    proof {
        assert(parts.deep_view() =~= wanted);
    }
    join(&parts, "&")
}

/// The address that a request goes to.
pub open spec fn request_url(base: Seq<char>, path: Seq<char>, query: Pairs) -> Seq<char> {
    let encoded = encoded_query(query);
    base + path + (if encoded.len() == 0 {
        Seq::empty()
    } else {
        "?"@ + encoded
    })
}

/// The address that a request goes to.
pub fn build_request_url(base: &str, path: &str, query: &Vec<(String, String)>) -> (url: String)
    ensures
        url@ == request_url(base@, path@, query.deep_view()),
{
    let encoded = build_encoded_query_string(query);
    let suffix = if encoded.as_str().is_empty() {
        String::new()
    } else {
        "?".to_owned().concat(encoded.as_str())
    };
    base.to_owned().concat(path).concat(suffix.as_str())
}

/// The base address: the default where none is given, without surrounding
/// white space and without slashes at the end.
pub open spec fn base_address(raw: Option<Seq<char>>) -> Seq<char> {
    let given = match raw {
        Some(text) => text,
        None => "https://api.upbit.com"@,
    };
    trimmed_end_of(trimmed(given), '/')
}

/// The base address.
pub fn normalize_base_url(raw: Option<&str>) -> (url: String)
    ensures
        url@ == base_address(raw.deep_view()),
{
    let given = match raw {
        Some(text) => text,
        None => "https://api.upbit.com",
    };
    trim_end_of(trim(given).as_str(), '/')
}

/// What a token vouches for: the query, and for a `POST` the body too.
pub open spec fn hashed_text(
    method: UpbitHttpMethod,
    query: Seq<char>,
    body: Seq<char>,
) -> Seq<char> {
    if method != UpbitHttpMethod::Post || body.len() == 0 {
        query
    } else if query.len() == 0 {
        body
    } else {
        query + "&"@ + body
    }
}

/// What a token vouches for: the query, and for a `POST` the body too.
pub fn build_query_hash_input(method: UpbitHttpMethod, query_raw: &str, body_raw: &str) -> (input:
    String)
    ensures
        input@ == hashed_text(method, query_raw@, body_raw@),
{
    if method == UpbitHttpMethod::Get || method == UpbitHttpMethod::Delete {
        return query_raw.to_owned();
    }
    if !query_raw.is_empty() && !body_raw.is_empty() {
        return query_raw.to_owned().concat("&").concat(body_raw);
    }
    if !body_raw.is_empty() {
        return body_raw.to_owned();
    }
    query_raw.to_owned()
}

// ---------------------------------------------------------------------------
// Digests
// ---------------------------------------------------------------------------

pub open spec fn lower_hex_digit(d: int) -> char {
    if d < 10 {
        (d + 0x30) as char
    } else {
        (d + 0x57) as char
    }
}

/// Two lower case hex digits for each byte.
pub open spec fn hex_of(bytes: Seq<u8>) -> Seq<char>
    decreases bytes.len(),
{
    if bytes.len() == 0 {
        Seq::empty()
    } else {
        hex_of(bytes.drop_last()).push(lower_hex_digit(bytes.last() as int / 16)).push(
            lower_hex_digit(bytes.last() as int % 16),
        )
    }
}

/// Other bytes have other hex digits.
pub proof fn hex_tells_bytes_apart(a: Seq<u8>, b: Seq<u8>)
    requires
        hex_of(a) == hex_of(b),
    ensures
        a == b,
    decreases a.len(),
{
    assert(a.len() == 0 <==> hex_of(a).len() == 0);
    assert(b.len() == 0 <==> hex_of(b).len() == 0);
    if a.len() == 0 {
        assert(a =~= b);
    } else {
        let x = hex_of(a.drop_last());
        let y = hex_of(b.drop_last());
        let high = lower_hex_digit(a.last() as int / 16);
        let low = lower_hex_digit(a.last() as int % 16);
        let other_high = lower_hex_digit(b.last() as int / 16);
        let other_low = lower_hex_digit(b.last() as int % 16);
        assert(x.push(high).push(low) == y.push(other_high).push(other_low));
        let n = x.push(high).len() as int;
        assert(x.push(high).push(low).len() == n + 1);
        assert(y.push(other_high).push(other_low).len() == n + 1);
        assert(x.push(high).push(low)[n] == low);
        assert(x.push(high).push(low)[n - 1] == high);
        assert(a.last() == b.last());
        assert(x =~= x.push(high).push(low).take(n - 1));
        assert(y =~= y.push(other_high).push(other_low).take(n - 1));
        hex_tells_bytes_apart(a.drop_last(), b.drop_last());
        assert(a =~= a.drop_last().push(a.last()));
        assert(b =~= b.drop_last().push(b.last()));
    }
}

fn hex_digit(d: u8) -> (c: char)
    requires
        d < 16,
    ensures
        c == lower_hex_digit(d as int),
{
    if d < 10 {
        (d + 0x30) as char
    } else {
        (d + 0x57) as char
    }
}

/// Two lower case hex digits for each byte.
pub fn hex_string(bytes: &[u8]) -> (hex: String)
    ensures
        hex@ == hex_of(bytes@),
{
    let mut hex = String::new();
    let mut i: usize = 0;
    while i < bytes.len()
        invariant
            i <= bytes@.len(),
            hex@ == hex_of(bytes@.take(i as int)),
        decreases bytes@.len() - i,
    {
        proof {
            assert(bytes@.take(i as int + 1).drop_last() =~= bytes@.take(i as int));
        }
        let b = bytes[i];
        append_char(&mut hex, hex_digit(b / 16));
        append_char(&mut hex, hex_digit(b % 16));
        i += 1;
    }
    proof {
        assert(bytes@.take(bytes@.len() as int) =~= bytes@);
    }
    hex
}

/// The SHA-256 digest that `sha2::Sha256` computes.
pub uninterp spec fn sha256(bytes: Seq<u8>) -> Seq<u8>;

/// The SHA-256 digest by `sha2::Sha256::digest`. The contract claims that it is
/// a function of the bytes.
#[verifier::external_body]
fn sha256_digest(bytes: &[u8]) -> (digest: Vec<u8>)
    ensures
        digest@ == sha256(bytes@),
{
    sha2::Sha256::digest(bytes).to_vec()
}

/// The SHA-512 digest that `sha2::Sha512` computes.
pub uninterp spec fn sha512(bytes: Seq<u8>) -> Seq<u8>;

/// The SHA-512 digest by `sha2::Sha512::digest`. The contract claims that it is
/// a function of the bytes.
#[verifier::external_body]
fn sha512_digest(bytes: &[u8]) -> (digest: Vec<u8>)
    ensures
        digest@ == sha512(bytes@),
{
    sha2::Sha512::digest(bytes).to_vec()
}

/// The HMAC-SHA-512 tag that `hmac::Hmac` computes.
pub uninterp spec fn hmac_sha512(key: Seq<u8>, message: Seq<u8>) -> Seq<u8>;

#[verifier::external_type_specification]
#[verifier::external_body]
pub struct ExInvalidLength(hmac::digest::InvalidLength);

/// The HMAC-SHA-512 tag by `hmac::Hmac<sha2::Sha512>`. The contract claims that
/// a key of any length is taken, and that the tag is a function of the key and
/// the message.
#[verifier::external_body]
fn hmac_sha512_tag(key: &[u8], message: &[u8]) -> (tag: Result<Vec<u8>, hmac::digest::InvalidLength>)
    ensures
        tag is Ok,
        tag->Ok_0@ == hmac_sha512(key@, message@),
{
    let mut mac = hmac::Hmac::<sha2::Sha512>::new_from_slice(key)?;
    mac.update(message);
    Ok(mac.finalize().into_bytes().to_vec())
}

/// Base64 in the URL-safe alphabet without padding, as the base64 crate writes
/// it.
pub uninterp spec fn base64_url(bytes: Seq<u8>) -> Seq<char>;

/// Base64 by `base64::engine::general_purpose::URL_SAFE_NO_PAD`. The contract
/// claims that the text is a function of the bytes.
#[verifier::external_body]
fn base64_url_text(bytes: &[u8]) -> (text: String)
    ensures
        text@ == base64_url(bytes@),
{
    base64::engine::general_purpose::URL_SAFE_NO_PAD.encode(bytes)
}

/// The SHA-256 digest of a text, in hex.
pub open spec fn text_digest(text: Seq<char>) -> Seq<char> {
    hex_of(sha256(encode_utf8(text)))
}

/// The SHA-256 digest of a text, in hex.
pub fn sha256_hex(input: &str) -> (hex: String)
    ensures
        hex@ == text_digest(input@),
{
    let digest = sha256_digest(input.as_bytes());
    hex_string(digest.as_slice())
}

// ---------------------------------------------------------------------------
// Tokens
// ---------------------------------------------------------------------------

/// What a token claims: the key, a nonce, and the digest of the hashed text
/// where there is any.
pub open spec fn token_claims(access_key: Seq<char>, nonce: Seq<char>, hashed: Seq<char>) -> Pairs {
    let claims = seq![("access_key"@, access_key), ("nonce"@, nonce)];
    if hashed.len() == 0 {
        claims
    } else {
        claims.push(("query_hash"@, hex_of(sha512(encode_utf8(hashed))))).push(
            ("query_hash_alg"@, "SHA512"@),
        )
    }
}

/// The part of a token that is signed.
pub open spec fn signing_input(
    access_key: Seq<char>,
    nonce: Seq<char>,
    hashed: Seq<char>,
) -> Seq<char> {
    base64_url(encode_utf8("{\"alg\":\"HS512\",\"typ\":\"JWT\"}"@)) + "."@ + base64_url(
        json_map_bytes(token_claims(access_key, nonce, hashed)),
    )
}

/// A token: the signed part and its signature under the secret key.
pub open spec fn token(
    access_key: Seq<char>,
    secret_key: Seq<char>,
    nonce: Seq<char>,
    hashed: Seq<char>,
) -> Seq<char> {
    let signed = signing_input(access_key, nonce, hashed);
    signed + "."@ + base64_url(hmac_sha512(encode_utf8(secret_key), encode_utf8(signed)))
}

/// A token with the given nonce.
pub fn create_jwt_with_nonce(
    credentials: &(String, String),
    nonce: &str,
    query_hash_input: &str,
) -> (jwt: Result<String, String>)
    ensures
        outcome(jwt) == Ok::<Seq<char>, Seq<char>>(
            token(credentials.0@, credentials.1@, nonce@, query_hash_input@),
        ),
{
    let header = base64_url_text("{\"alg\":\"HS512\",\"typ\":\"JWT\"}".as_bytes());
    let mut claims: Vec<(String, String)> = Vec::new();
    claims.push(("access_key".to_owned(), credentials.0.clone()));
    claims.push(("nonce".to_owned(), nonce.to_owned()));
    if !query_hash_input.is_empty() {
        let digest = sha512_digest(query_hash_input.as_bytes());
        claims.push(("query_hash".to_owned(), hex_string(digest.as_slice())));
        claims.push(("query_hash_alg".to_owned(), "SHA512".to_owned()));
    }
    proof {
        assert(claims.deep_view() =~= token_claims(credentials.0@, nonce@, query_hash_input@));
    }
    let payload = match write_json_map(&claims) {
        Ok(bytes) => base64_url_text(bytes.as_slice()),
        Err(_) => {
            return Err("failed to encode upbit jwt payload".to_owned());
        },
    };
    let signed = header.concat(".").concat(payload.as_str());
    let signature = match hmac_sha512_tag(credentials.1.as_str().as_bytes(), signed.as_str().as_bytes()) {
        Ok(tag) => base64_url_text(tag.as_slice()),
        Err(_) => {
            return Err("failed to initialize upbit hmac".to_owned());
        },
    };
    Ok(signed.concat(".").concat(signature.as_str()))
}

/// A fresh nonce: the hyphenated text of a random UUID from
/// `uuid::Uuid::new_v4`, which has 36 characters.
#[verifier::external_body]
fn fresh_nonce() -> (nonce: String)
    ensures
        nonce@.len() == 36,
{
    uuid::Uuid::new_v4().to_string()
}

/// A token with a fresh nonce.
pub fn create_jwt(credentials: &(String, String), query_hash_input: &str) -> (jwt: Result<
    String,
    String,
>)
    ensures
        exists|nonce: Seq<char>|
            nonce.len() == 36 && outcome(jwt) == Ok::<Seq<char>, Seq<char>>(
                #[trigger] token(credentials.0@, credentials.1@, nonce, query_hash_input@),
            ),
{
    let nonce = fresh_nonce();
    create_jwt_with_nonce(credentials, nonce.as_str(), query_hash_input)
}

} // verus!
