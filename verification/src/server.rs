//! The rules of the cache server: its options and its configuration, the
//! authorization of requests, the status codes of its API, and the schedule
//! of its periodic eviction.

pub mod api;
pub mod config;

use crate::cache::remote::Operation;
use crate::server::config::CleanupConfig;
use crate::util::clock::TimeDelta;
use crate::util::humanbytes::{parse_bytes_from_str, parse_size, ParsedSize, ParserError};
use biscuit_auth::builder_ext::AuthorizerExt;
use biscuit_auth::{Biscuit, PublicKey};
use vstd::prelude::*;

verus! {

/// A public key of the `biscuit_auth` crate.
#[verifier::external_type_specification]
#[verifier::external_body]
pub struct ExPublicKey(biscuit_auth::PublicKey);

/// The options of the server application.
#[derive(Clone, Copy, Debug, PartialEq, Eq, Structural)]
pub struct Options {
    enable_api_docs: bool,
}

impl Options {
    /// A builder for options, in which nothing is enabled.
    pub fn builder() -> (builder: OptionsBuilder)
        ensures
            !builder.api_docs(),
    {
        OptionsBuilder::new()
    }

    /// Whether the documentation of the API is served.
    pub closed spec fn api_docs(&self) -> bool {
        self.enable_api_docs
    }

    /// Whether the documentation of the API is served.
    pub fn enable_api_docs(&self) -> (enabled: bool)
        ensures
            enabled == self.api_docs(),
    {
        self.enable_api_docs
    }
}

/// A builder for [`Options`].
#[derive(Clone, Copy, Debug, PartialEq, Eq, Structural)]
pub struct OptionsBuilder {
    enable_api_docs: bool,
}

impl OptionsBuilder {
    /// A builder in which nothing is enabled.
    pub fn new() -> (builder: Self)
        ensures
            !builder.api_docs(),
    {
        OptionsBuilder { enable_api_docs: false }
    }

    /// Whether the documentation of the API is to be served.
    pub closed spec fn api_docs(&self) -> bool {
        self.enable_api_docs
    }

    /// Sets whether the documentation of the API is served.
    pub fn enable_api_docs(self, value: bool) -> (builder: Self)
        ensures
            builder.api_docs() == value,
    {
        OptionsBuilder { enable_api_docs: value }
    }

    /// The options that have been chosen.
    pub fn build(self) -> (options: Options)
        ensures
            options.api_docs() == self.api_docs(),
    {
        Options { enable_api_docs: self.enable_api_docs }
    }
}

impl Default for OptionsBuilder {
    fn default() -> (builder: Self)
        ensures
            !builder.api_docs(),
    {
        OptionsBuilder::new()
    }
}

/// How the check of a bearer token ended.
#[derive(Debug, Clone, Copy, PartialEq, Eq, Structural)]
pub enum Authorization {
    /// The token allows the request.
    Granted,
    /// The request has no token.
    Missing,
    /// The token cannot be read, or was not signed with the key of the
    /// server.
    Invalid,
    /// The token does not allow the request.
    Denied,
}

/// A bearer token of the `biscuit_auth` crate whose signatures have been
/// verified.
#[verifier::external_type_specification]
#[verifier::external_body]
pub struct ExBiscuit(biscuit_auth::Biscuit);

/// Whether `Biscuit::from_base64` of the `biscuit_auth` crate reads the
/// text `token` as a bearer token whose signatures are good for `key`.
pub uninterp spec fn token_readable(token: Seq<char>, key: PublicKey) -> bool;

/// Reads a bearer token from its text form and checks its signatures
/// against `public_key` with `Biscuit::from_base64` of the `biscuit_auth`
/// crate, which goes by the text and the key alone. `None` if the crate
/// refuses the token.
#[verifier::external_body]
fn read_token(token: &str, public_key: &PublicKey) -> (r: Option<Biscuit>)
    ensures
        r is Some <==> token_readable(token@, *public_key),
{
    Biscuit::from_base64(token, *public_key).ok()
}

/// Tells whether a bearer token allows a request: builds an authorizer of
/// the `biscuit_auth` crate from `facts`, in which the two names stand for
/// the two texts that are given with them, from the current time and from a
/// policy that allows all, and runs it on the token with
/// `Authorizer::authorize`. The outcome depends on the time at which the
/// token is checked.
#[verifier::external_body]
fn token_allows(token: &Biscuit, facts: &str, first: (&str, &str), second: (&str, &str)) -> (allowed:
    bool) {
    let mut params = std::collections::HashMap::new();
    params.insert(first.0.to_string(), biscuit_auth::builder::Term::Str(first.1.to_string()));
    params.insert(second.0.to_string(), biscuit_auth::builder::Term::Str(second.1.to_string()));
    biscuit_auth::builder::AuthorizerBuilder::new()
        .code_with_params(facts, params, std::collections::HashMap::new())
        .and_then(|builder| builder.time().allow_all().build(token))
        .and_then(|mut authorizer| authorizer.authorize())
        .is_ok()
}

/// The facts that the server states of a request, in the language of the
/// `biscuit_auth` crate: the operation and the cache. `{operation}` and
/// `{cache_id}` stand for the name of the operation and the identifier of
/// the cache.
pub open spec fn authorizer_facts_text() -> Seq<char> {
    "operation({operation}); cache({cache_id});"@
}

/// The facts that the server states of a request; see
/// [`authorizer_facts_text`].
pub fn authorizer_facts() -> (facts: &'static str)
    ensures
        facts@ == authorizer_facts_text(),
{
    "operation({operation}); cache({cache_id});"
}

/// The names that stand for the operation and for the cache in the facts
/// of [`authorizer_facts`].
pub fn authorizer_parameters() -> (names: (&'static str, &'static str))
    ensures
        names.0@ == "operation"@,
        names.1@ == "cache_id"@,
{
    ("operation", "cache_id")
}

/// What follows for a request from its token: a token that could not be
/// read is invalid; one that could be read grants the request if it allows
/// it, and denies it if not.
pub open spec fn authorization_for(readable: bool, allowed: bool) -> Authorization {
    if !readable {
        Authorization::Invalid
    } else if allowed {
        Authorization::Granted
    } else {
        Authorization::Denied
    }
}

/// Tells what follows for a request from whether its token could be read
/// and whether the token allows the request.
pub fn authorization_of(readable: bool, allowed: bool) -> (r: Authorization)
    ensures
        r == authorization_for(readable, allowed),
{
    if !readable {
        Authorization::Invalid
    } else if allowed {
        Authorization::Granted
    } else {
        Authorization::Denied
    }
}

/// Checks whether the token of a request, as far as it could be read,
/// allows `operation` on the cache `cache_id`. A token that could not be
/// read, and no other, is invalid. A token that could be read is checked
/// against the facts of [`authorizer_facts`], with the name of the operation
/// and the identifier of the cache in them, and against the current time;
/// whether it allows the request is for the `biscuit_auth` crate to decide.
pub fn authorize_token(token: Option<Biscuit>, operation: Operation, cache_id: &str) -> (r:
    Authorization)
    ensures
        token is None <==> r == Authorization::Invalid,
        r != Authorization::Missing,
        exists|allowed: bool| r == #[trigger] authorization_for(token is Some, allowed),
{
    match token {
        None => {
            let r = authorization_of(false, false);
            assert(r == authorization_for(false, false));
            r
        },
        Some(token) => {
            let names = authorizer_parameters();
            let allowed = token_allows(
                &token,
                authorizer_facts(),
                (names.0, operation.as_str()),
                (names.1, cache_id),
            );
            let r = authorization_of(true, allowed);
            assert(r == authorization_for(true, allowed));
            r
        },
    }
}

/// Checks whether a request may do `operation` on the cache `cache_id`. A
/// request without a token, and no other, misses its token. The token of any
/// other request is read and its signatures are checked against
/// `public_key`: a token that cannot be read, and no other, is invalid.
/// Whether a token that can be read allows the request is told by
/// [`authorize_token`].
pub fn authorize(token: Option<&str>, public_key: &PublicKey, operation: Operation, cache_id: &str)
    -> (r: Authorization)
    ensures
        token is None <==> r == Authorization::Missing,
        token is Some ==> r != Authorization::Missing,
        token matches Some(text) ==> (r == Authorization::Invalid <==> !token_readable(
            text@,
            *public_key,
        )),
        token matches Some(text) ==> exists|allowed: bool|
            r == #[trigger] authorization_for(token_readable(text@, *public_key), allowed),
{
    match token {
        None => Authorization::Missing,
        Some(text) => {
            let read = read_token(text, public_key);
            let ghost readable = read is Some;
            let r = authorize_token(read, operation, cache_id);
            proof {
                let allowed = choose|allowed: bool|
                    r == #[trigger] authorization_for(readable, allowed);
                assert(r == authorization_for(readable, allowed));
            }
            r
        },
    }
}

/// The request was served and has no content to return.
pub const STATUS_NO_CONTENT: u16 = 204;

/// The request was served; the content follows.
pub const STATUS_OK: u16 = 200;

/// The request has no token, or one that cannot be read.
pub const STATUS_UNAUTHORIZED: u16 = 401;

/// The token does not allow the request.
pub const STATUS_FORBIDDEN: u16 = 403;

/// The cache is not known.
pub const STATUS_NOT_FOUND: u16 = 404;

/// The request failed within the server.
pub const STATUS_INTERNAL_SERVER_ERROR: u16 = 500;

/// How the lookup or the store of a request ended.
#[derive(Debug, Clone, Copy, PartialEq, Eq, Structural)]
pub enum Served {
    /// The cache is not known.
    CacheNotFound,
    /// The lookup found none of the keys.
    CacheMiss,
    /// The lookup found a key.
    CacheHit,
    /// The data was stored.
    Stored,
    /// The cache failed.
    Failed,
}

/// The status code of the response to a request. A request that is not
/// authorized is refused before the cache is looked at: with 401 if it has
/// no token or one that is not valid, with 403 if its token does not allow
/// it.
pub open spec fn status_for(authorization: Authorization, served: Served) -> u16 {
    match authorization {
        Authorization::Missing => STATUS_UNAUTHORIZED,
        Authorization::Invalid => STATUS_UNAUTHORIZED,
        Authorization::Denied => STATUS_FORBIDDEN,
        Authorization::Granted => match served {
            Served::CacheNotFound => STATUS_NOT_FOUND,
            Served::CacheMiss => STATUS_NO_CONTENT,
            Served::CacheHit => STATUS_OK,
            Served::Stored => STATUS_NO_CONTENT,
            Served::Failed => STATUS_INTERNAL_SERVER_ERROR,
        },
    }
}

/// The status code of the response to a request.
pub fn status_code(authorization: Authorization, served: Served) -> (code: u16)
    ensures
        code == status_for(authorization, served),
{
    match authorization {
        Authorization::Missing => STATUS_UNAUTHORIZED,
        Authorization::Invalid => STATUS_UNAUTHORIZED,
        Authorization::Denied => STATUS_FORBIDDEN,
        Authorization::Granted => match served {
            Served::CacheNotFound => STATUS_NOT_FOUND,
            Served::CacheMiss => STATUS_NO_CONTENT,
            Served::CacheHit => STATUS_OK,
            Served::Stored => STATUS_NO_CONTENT,
            Served::Failed => STATUS_INTERNAL_SERVER_ERROR,
        },
    }
}

/// What a text is read as by `parse_duration` of the `humantime` crate:
/// seconds and nanoseconds, or nothing if the crate refuses the text.
pub uninterp spec fn parsed_duration(text: Seq<char>) -> Option<(u64, u32)>;

/// Reads a span of time such as `5min` or `7days` with `parse_duration` of
/// the `humantime` crate.
#[verifier::external_body]
fn parse_duration(text: &str) -> (r: Option<(u64, u32)>)
    ensures
        r == parsed_duration(text@),
{
    humantime::parse_duration(text).ok().map(|d| (d.as_secs(), d.subsec_nanos()))
}

/// The schedule and the limits of the periodic eviction.
#[derive(Debug, Clone, Copy)]
pub struct CleanupTask {
    /// The seconds and nanoseconds between two eviction passes.
    pub cleanup_interval: (u64, u32),
    /// The age beyond which entries are evicted.
    pub cache_expiration: TimeDelta,
    /// The space that the blobs of a cache may take.
    pub max_cache_size: u64,
}

/// Why the settings of the periodic eviction cannot be used.
#[derive(Debug, Clone)]
pub enum CleanupConfigError {
    /// The interval is no span of time.
    Interval,
    /// The expiration is no span of time, or too long a one.
    Expiration,
    /// The size is no size.
    Size(ParserError),
}

/// The seconds of the longest span of time that an expiration can be: as
/// many as there are in the most milliseconds that 63 bits can count.
pub const MAX_EXPIRATION_SECS: u64 = 9_223_372_036_854_775;

/// The nanoseconds that the longest span of time has on top of its seconds.
pub const MAX_EXPIRATION_NANOS: u32 = 807_000_000;

/// Whether a span of time of the given seconds and nanoseconds can be an
/// expiration: it is no longer than the longest.
pub open spec fn expiration_in_range(secs: u64, nanos: u32) -> bool {
    secs < MAX_EXPIRATION_SECS || (secs == MAX_EXPIRATION_SECS && nanos <= MAX_EXPIRATION_NANOS)
}

/// Tells whether a span of time of the given seconds and nanoseconds can be
/// an expiration.
pub fn expiration_fits(secs: u64, nanos: u32) -> (fits: bool)
    ensures
        fits == expiration_in_range(secs, nanos),
{
    secs < MAX_EXPIRATION_SECS || (secs == MAX_EXPIRATION_SECS && nanos <= MAX_EXPIRATION_NANOS)
}

impl CleanupTask {
    /// Reads the settings of the periodic eviction.
    pub fn new(settings: &CleanupConfig) -> (r: Result<Self, CleanupConfigError>)
        ensures
            match parsed_duration(settings.interval@) {
                None => r matches Err(CleanupConfigError::Interval),
                Some(interval) => match parsed_duration(settings.cache_expiration@) {
                    None => r matches Err(CleanupConfigError::Expiration),
                    Some(expiration) => if !expiration_in_range(expiration.0, expiration.1) {
                        r matches Err(CleanupConfigError::Expiration)
                    } else {
                        match parse_size(settings.max_cache_size@) {
                            ParsedSize::Value(size) => r matches Ok(task) && task.cleanup_interval
                                == interval && task.cache_expiration.secs() == expiration.0
                                && task.cache_expiration.nanos() == expiration.1
                                && task.max_cache_size == size,
                            _ => r matches Err(CleanupConfigError::Size(_)),
                        }
                    },
                },
            },
    {
        let cleanup_interval = match parse_duration(settings.interval.as_str()) {
            Some(interval) => interval,
            None => {
                return Err(CleanupConfigError::Interval);
            },
        };
        let expiration = match parse_duration(settings.cache_expiration.as_str()) {
            Some(expiration) => expiration,
            None => {
                return Err(CleanupConfigError::Expiration);
            },
        };
        if !expiration_fits(expiration.0, expiration.1) {
            return Err(CleanupConfigError::Expiration);
        }
        let cache_expiration = TimeDelta::new(expiration.0 as i64, expiration.1);
        let max_cache_size = match parse_bytes_from_str(settings.max_cache_size.as_str()) {
            Ok(size) => size,
            Err(e) => {
                return Err(CleanupConfigError::Size(e));
            },
        };
        Ok(CleanupTask { cleanup_interval, cache_expiration, max_cache_size })
    }

    /// The interval between two passes in nanoseconds.
    pub open spec fn interval_nanos(&self) -> int {
        self.cleanup_interval.0 * 1_000_000_000 + self.cleanup_interval.1
    }

    /// How long the task sleeps before it looks at the time again, after
    /// `elapsed_nanos` nanoseconds since the last pass: what is left of the
    /// interval.
    pub fn park_nanos(&self, elapsed_nanos: u128) -> (r: Option<u128>)
        ensures
            r == (if elapsed_nanos <= self.interval_nanos() {
                Some((self.interval_nanos() - elapsed_nanos) as u128)
            } else {
                None
            }),
    {
        let interval: u128 = self.cleanup_interval.0 as u128 * 1_000_000_000
            + self.cleanup_interval.1 as u128;
        if elapsed_nanos <= interval {
            Some(interval - elapsed_nanos)
        } else {
            None
        }
    }

    /// What the task does when it wakes up: it ends if it was told to, goes
    /// back to sleep if the interval is not over, and else runs a pass.
    pub fn after_wake(&self, aborted: bool, elapsed_nanos: u128) -> (step: CleanupStep)
        ensures
            step == (if aborted {
                CleanupStep::Stop
            } else if elapsed_nanos < self.interval_nanos() {
                CleanupStep::Sleep
            } else {
                CleanupStep::Clean
            }),
    {
        let interval: u128 = self.cleanup_interval.0 as u128 * 1_000_000_000
            + self.cleanup_interval.1 as u128;
        if aborted {
            CleanupStep::Stop
        } else if elapsed_nanos < interval {
            CleanupStep::Sleep
        } else {
            CleanupStep::Clean
        }
    }
}

/// What the task of the periodic eviction does next.
#[derive(Debug, Clone, Copy, PartialEq, Eq, Structural)]
pub enum CleanupStep {
    /// The task ends.
    Stop,
    /// The task sleeps for what is left of the interval.
    Sleep,
    /// The task runs an eviction pass on every cache, and starts the
    /// interval anew.
    Clean,
}

} // verus!
