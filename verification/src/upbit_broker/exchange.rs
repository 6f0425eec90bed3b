//! Sending a prepared request: what to do after each attempt.

use vstd::prelude::*;
use vstd::string::*;

use crate::json::{
    display_json, displayed_json, field, parse_json, parsed_json, text_field, Json, JsonValue,
};
use crate::number::{decimal, u64_text};
use crate::text::{outcome, trim, trimmed};
use crate::upbit_broker::endpoint::needs_auth;
use crate::upbit_broker::limits::{block_window, parse_block_window_from_detail};
use crate::upbit_broker::request::PreparedRequest;
use crate::upbit_broker::wire::{
    build_query_hash_input, build_raw_query_string, create_jwt, hashed_text, raw_query, token,
};

verus! {

pub const UPBIT_DEFAULT_BACKOFF_MS: u64 = 250;

pub const UPBIT_MAX_BACKOFF_MS: u64 = 4_000;

pub const UPBIT_BLOCK_FALLBACK_MS: u64 = 60_000;

pub const UPBIT_MIN_RETRY_MS: u64 = 150;

/// Where a request stands: how many attempts were made before, and how long to
/// wait after the next failure.
#[derive(Debug, Clone, Copy, PartialEq, Eq, Structural)]
pub struct AttemptState {
    pub attempt: u32,
    pub backoff_ms: u64,
}

/// What to do after an attempt.
#[derive(Debug)]
pub enum AttemptOutcome {
    /// Sleep, then try again.
    Retry { sleep_ms: u64, next: AttemptState },
    /// Give up.
    Fail { message: String },
    /// Note that the group is blocked for a time, then give up.
    Blocked { block_ms: u64, message: String },
    /// The payload is the result.
    Done,
}

/// The content of an [`AttemptOutcome`].
pub enum AttemptView {
    Retry { sleep_ms: int, next: AttemptState },
    Fail { message: Seq<char> },
    Blocked { block_ms: int, message: Seq<char> },
    Done,
}

impl View for AttemptOutcome {
    type V = AttemptView;

    open spec fn view(&self) -> AttemptView {
        match *self {
            AttemptOutcome::Retry { sleep_ms, next } => AttemptView::Retry {
                sleep_ms: sleep_ms as int,
                next,
            },
            AttemptOutcome::Fail { message } => AttemptView::Fail { message: message@ },
            AttemptOutcome::Blocked { block_ms, message } => AttemptView::Blocked {
                block_ms: block_ms as int,
                message: message@,
            },
            AttemptOutcome::Done => AttemptView::Done,
        }
    }
}

/// The first attempt.
pub open spec fn first_attempt() -> AttemptState {
    AttemptState { attempt: 0, backoff_ms: UPBIT_DEFAULT_BACKOFF_MS }
}

/// The attempt after a failed one: the wait doubles, up to the longest.
pub open spec fn next_attempt(state: AttemptState) -> AttemptState {
    AttemptState {
        attempt: (state.attempt + 1) as u32,
        backoff_ms: if state.backoff_ms * 2 > UPBIT_MAX_BACKOFF_MS {
            UPBIT_MAX_BACKOFF_MS
        } else {
            (state.backoff_ms * 2) as u64
        },
    }
}

/// What to do when nothing came back.
pub open spec fn after_network_error(
    state: AttemptState,
    max_retries: u32,
    error: Seq<char>,
) -> AttemptView {
    if state.attempt >= max_retries {
        AttemptView::Fail { message: "upbit network error: "@ + error }
    } else {
        AttemptView::Retry { sleep_ms: state.backoff_ms as int, next: next_attempt(state) }
    }
}

pub open spec fn ceil_seconds(ms: int) -> nat {
    ((ms + 999) / 1000) as nat
}

/// How long a temporary block lasts: what the response says, or a minute.
pub open spec fn block_length(detail: Seq<char>, retry_after: Option<u64>) -> int {
    match retry_after {
        Some(ms) => ms as int,
        None => match block_window(detail) {
            Some(ms) => ms as int,
            None => UPBIT_BLOCK_FALLBACK_MS as int,
        },
    }
}

/// What to do with a response: try again later where there were too many
/// requests, note a temporary block, give up on another failure.
pub open spec fn after_response(
    state: AttemptState,
    max_retries: u32,
    status: u16,
    detail: Seq<char>,
    retry_after: Option<u64>,
) -> AttemptView {
    if status == 429 {
        if state.attempt >= max_retries {
            AttemptView::Fail { message: "upbit rate limited (429): "@ + detail }
        } else {
            let asked = match retry_after {
                Some(ms) => ms,
                None => state.backoff_ms,
            };
            AttemptView::Retry {
                sleep_ms: if asked < UPBIT_MIN_RETRY_MS {
                    UPBIT_MIN_RETRY_MS as int
                } else {
                    asked as int
                },
                next: next_attempt(state),
            }
        }
    } else if status == 418 {
        let block_ms = block_length(detail, retry_after);
        AttemptView::Blocked {
            block_ms,
            message: "upbit temporary block (418), retry after ~"@ + decimal(
                ceil_seconds(block_ms),
            ) + "s"@,
        }
    } else if !(200 <= status < 300) {
        AttemptView::Fail {
            message: "upbit request failed ("@ + decimal(status as nat) + "): "@ + detail,
        }
    } else {
        AttemptView::Done
    }
}

impl AttemptState {
    /// The first attempt.
    pub fn first() -> (state: AttemptState)
        ensures
            state == first_attempt(),
    {
        AttemptState { attempt: 0, backoff_ms: UPBIT_DEFAULT_BACKOFF_MS }
    }

    fn next(self) -> (state: AttemptState)
        requires
            self.attempt < u32::MAX,
        ensures
            state == next_attempt(self),
    {
        let backoff_ms: u64 = if self.backoff_ms > UPBIT_MAX_BACKOFF_MS / 2 {
            UPBIT_MAX_BACKOFF_MS
        } else {
            self.backoff_ms * 2
        };
        AttemptState { attempt: self.attempt + 1, backoff_ms }
    }

    /// What to do when nothing came back.
    pub fn after_network_error(self, max_retries: u32, error: &str) -> (step: AttemptOutcome)
        ensures
            step@ == after_network_error(self, max_retries, error@),
    {
        if self.attempt >= max_retries {
            AttemptOutcome::Fail { message: "upbit network error: ".to_owned().concat(error) }
        } else {
            AttemptOutcome::Retry { sleep_ms: self.backoff_ms, next: self.next() }
        }
    }

    /// What to do with a response.
    pub fn after_response(
        self,
        max_retries: u32,
        status: u16,
        detail: &str,
        retry_after_ms: Option<u64>,
    ) -> (step: AttemptOutcome)
        ensures
            step@ == after_response(self, max_retries, status, detail@, retry_after_ms),
    {
        if status == 429 {
            if self.attempt >= max_retries {
                return AttemptOutcome::Fail {
                    message: "upbit rate limited (429): ".to_owned().concat(detail),
                };
            }
            let asked: u64 = match retry_after_ms {
                Some(ms) => ms,
                None => self.backoff_ms,
            };
            let sleep_ms: u64 = if asked < UPBIT_MIN_RETRY_MS {
                UPBIT_MIN_RETRY_MS
            } else {
                asked
            };
            return AttemptOutcome::Retry { sleep_ms, next: self.next() };
        }
        if status == 418 {
            let block_ms: u64 = match retry_after_ms {
                Some(ms) => ms,
                None => match parse_block_window_from_detail(detail) {
                    Some(ms) => ms,
                    None => UPBIT_BLOCK_FALLBACK_MS,
                },
            };
            let whole: u64 = block_ms / 1000;
            let seconds: u64 = if block_ms % 1000 == 0 {
                whole
            } else {
                whole + 1
            };
            let message = "upbit temporary block (418), retry after ~".to_owned().concat(
                u64_text(seconds).as_str(),
            ).concat("s");
            return AttemptOutcome::Blocked { block_ms, message };
        }
        if !(200 <= status && status < 300) {
            return AttemptOutcome::Fail {
                message: "upbit request failed (".to_owned().concat(
                    u64_text(status as u64).as_str(),
                ).concat("): ").concat(detail),
            };
        }
        AttemptOutcome::Done
    }
}

/// An attempt is only followed by another while retries are left, so a request
/// is tried at most once more than its retries; one without retries is never
/// tried again.
pub proof fn attempts_are_bounded(
    state: AttemptState,
    max_retries: u32,
    error: Seq<char>,
    status: u16,
    detail: Seq<char>,
    retry_after: Option<u64>,
)
    ensures
        after_network_error(state, max_retries, error) matches AttemptView::Retry { next, .. }
            ==> next.attempt == state.attempt + 1 && next.attempt <= max_retries,
        after_response(state, max_retries, status, detail, retry_after) matches AttemptView::Retry {
            next,
            ..
        } ==> next.attempt == state.attempt + 1 && next.attempt <= max_retries,
        max_retries == 0 ==> !(after_network_error(state, max_retries, error) is Retry) && !(
        after_response(state, max_retries, status, detail, retry_after) is Retry),
{
}

pub open spec fn backoff_after(attempts: nat) -> AttemptState
    decreases attempts,
{
    if attempts == 0 {
        first_attempt()
    } else {
        next_attempt(backoff_after((attempts - 1) as nat))
    }
}

/// The waits grow from the first to the longest and stay there.
pub proof fn backoff_stays_in_range(attempts: nat)
    ensures
        UPBIT_DEFAULT_BACKOFF_MS <= backoff_after(attempts).backoff_ms <= UPBIT_MAX_BACKOFF_MS,
        attempts > 0 ==> backoff_after((attempts - 1) as nat).backoff_ms <= backoff_after(
            attempts,
        ).backoff_ms,
    decreases attempts,
{
    if attempts > 0 {
        backoff_stays_in_range((attempts - 1) as nat);
    }
}

// ---------------------------------------------------------------------------
// Responses
// ---------------------------------------------------------------------------

/// The payload of a response body: nothing where it is blank, JSON where it is
/// that, else its text.
pub open spec fn payload_of(body: Seq<char>, parsed: Result<Json, Seq<char>>) -> Json {
    if trimmed(body).len() == 0 {
        Json::Null
    } else {
        match parsed {
            Ok(value) => value,
            Err(_) => Json::Text(body),
        }
    }
}

/// The payload of a response body, given what was read from it as JSON.
pub fn payload_from(body: &str, parsed: Result<JsonValue, String>) -> (payload: JsonValue)
    ensures
        payload@ == payload_of(body@, outcome(parsed)),
{
    if trim(body).as_str().is_empty() {
        return JsonValue::Null;
    }
    match parsed {
        Ok(value) => value,
        Err(_) => JsonValue::Text(body.to_owned()),
    }
}

/// The payload of a response body.
pub fn parse_response_payload(body: &str) -> (payload: JsonValue)
    ensures
        payload@ == payload_of(body@, parsed_json(body@)),
{
    payload_from(body, parse_json(body))
}

/// What a payload says of an error: the text itself, the name and message of
/// its error, or else the whole payload as displayed.
pub open spec fn error_detail(payload: Json, displayed: Seq<char>) -> Seq<char> {
    match payload {
        Json::Text(text) => text,
        _ => match field(payload, "error"@) {
            Some(error) => match text_field(error, "message"@) {
                Some(message) => (match text_field(error, "name"@) {
                    Some(name) => name,
                    None => "error"@,
                }) + ": "@ + message,
                None => displayed,
            },
            None => displayed,
        },
    }
}

/// What a payload says of an error, given how the payload is displayed.
pub fn describe_error(payload: &JsonValue, displayed: String) -> (detail: String)
    ensures
        detail@ == error_detail(payload@, displayed@),
{
    if let JsonValue::Text(text) = payload {
        return text.clone();
    }
    match payload.get("error") {
        Some(error) => match error.get_text("message") {
            Some(message) => {
                let name = match error.get_text("name") {
                    Some(name) => name,
                    None => "error",
                };
                name.to_owned().concat(": ").concat(message)
            },
            None => displayed,
        },
        None => displayed,
    }
}

/// What a payload says of an error.
pub fn error_detail_from_payload(payload: &JsonValue) -> (detail: String)
    ensures
        detail@ == error_detail(payload@, displayed_json(payload@)),
{
    describe_error(payload, display_json(payload))
}

// ---------------------------------------------------------------------------
// Signing
// ---------------------------------------------------------------------------

/// The keys of the account, where both are set.
pub open spec fn credentials_of(
    access_key: Option<Seq<char>>,
    secret_key: Option<Seq<char>>,
) -> Result<(Seq<char>, Seq<char>), Seq<char>> {
    match (access_key, secret_key) {
        (None, _) => Err(
            "missing UPBIT_ACCESS_KEY on host environment for authenticated upbit request."@,
        ),
        (_, None) => Err(
            "missing UPBIT_SECRET_KEY on host environment for authenticated upbit request."@,
        ),
        (Some(access_key), Some(secret_key)) => Ok((access_key, secret_key)),
    }
}

/// The keys of the account, where both are set.
pub fn resolve_upbit_credentials(access_key: Option<String>, secret_key: Option<String>) -> (keys:
    Result<(String, String), String>)
    ensures
        outcome(keys) == credentials_of(access_key.deep_view(), secret_key.deep_view()),
{
    match access_key {
        None => Err(
            "missing UPBIT_ACCESS_KEY on host environment for authenticated upbit request.".to_owned(),
        ),
        Some(access_key) => match secret_key {
            None => Err(
                "missing UPBIT_SECRET_KEY on host environment for authenticated upbit request.".to_owned(),
            ),
            Some(secret_key) => Ok((access_key, secret_key)),
        },
    }
}

/// The text that the token of a request vouches for.
pub open spec fn vouched_text(request: PreparedRequest) -> Seq<char> {
    hashed_text(
        request.method,
        raw_query(request.query_pairs.deep_view()),
        raw_query(request.body_pairs.deep_view()),
    )
}

/// Whether a header carries a token.
pub open spec fn bears_token(header: Result<Option<String>, String>, token: Seq<char>) -> bool {
    match header {
        Ok(Some(text)) => text@ == "Bearer "@ + token,
        _ => false,
    }
}

/// Whether a header carries a token with some nonce that vouches for a text.
pub open spec fn is_signed(
    header: Result<Option<String>, String>,
    access_key: Seq<char>,
    secret_key: Seq<char>,
    text: Seq<char>,
) -> bool {
    exists|nonce: Seq<char>|
        nonce.len() == 36 && #[trigger] bears_token(
            header,
            token(access_key, secret_key, nonce, text),
        )
}

/// The authorization header of a request: a bearer token with a fresh nonce
/// that vouches for its parameters, and none where the endpoint needs none.
pub fn authorization_header(
    request: &PreparedRequest,
    access_key: Option<String>,
    secret_key: Option<String>,
) -> (header: Result<Option<String>, String>)
    ensures
        !needs_auth(request.endpoint) ==> header == Ok::<Option<String>, String>(None),
        needs_auth(request.endpoint) ==> match credentials_of(
            access_key.deep_view(),
            secret_key.deep_view(),
        ) {
            Err(message) => header matches Err(m) && m@ == message,
            Ok(keys) => is_signed(header, keys.0, keys.1, vouched_text(*request)),
        },
{
    if !request.endpoint.requires_auth() {
        return Ok(None);
    }
    let ghost keys = credentials_of(access_key.deep_view(), secret_key.deep_view());
    let credentials = match resolve_upbit_credentials(access_key, secret_key) {
        Err(message) => {
            return Err(message);
        },
        Ok(credentials) => credentials,
    };
    let query = build_raw_query_string(&request.query_pairs);
    let body = build_raw_query_string(&request.body_pairs);
    let vouched = build_query_hash_input(request.method, query.as_str(), body.as_str());
    match create_jwt(&credentials, vouched.as_str()) {
        Err(message) => Err(message),
        Ok(jwt) => {
            let header = "Bearer ".to_owned().concat(jwt.as_str());
            proof {
                let nonce = choose|nonce: Seq<char>|
                    nonce.len() == 36 && jwt@ == #[trigger] token(
                        credentials.0@,
                        credentials.1@,
                        nonce,
                        vouched@,
                    );
                assert(bears_token(
                    Ok(Some(header)),
                    token(credentials.0@, credentials.1@, nonce, vouched_text(*request)),
                ));
                assert(is_signed(
                    Ok(Some(header)),
                    credentials.0@,
                    credentials.1@,
                    vouched_text(*request),
                ));
                assert(keys == Ok::<(Seq<char>, Seq<char>), Seq<char>>(
                    (credentials.0@, credentials.1@),
                ));
            }
            Ok(Some(header))
        },
    }
}

} // verus!
