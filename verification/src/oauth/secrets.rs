//! Hashes, random tokens, expiry times and errors.

use vstd::prelude::*;
use vstd::utf8::encode_utf8;

use crate::escape::escape;
use crate::escape::escaped;
use crate::escape::Escape;
use crate::json::members_of;
use crate::json::object;
use crate::json::push_member;
use crate::json::text;
use crate::json::Json;
use crate::json::Value;
use crate::outside::base64_url_encode;
use crate::outside::base64_url_text;
use crate::outside::hex_text;
use crate::outside::is_common_time;
use crate::outside::is_known_time;
use crate::outside::is_hex;
use crate::outside::parse_rfc3339;
use crate::outside::rfc3339_text;
use crate::outside::rfc3339_time;
use crate::outside::sha256;
use crate::outside::sha256_of;
use crate::outside::simple_uuid;
use crate::outside::write_rfc3339;
use crate::text::byte_len;
use crate::text::concat;
use crate::text::lemma_ascii_bytes;
use crate::time::Timestamp;

verus! {

// ---------------------------------------------------------------------------------------
// Hashes and tokens

/// The hash of a text: its SHA-256 digest in URL-safe Base64.
pub open spec fn hash_of(s: Seq<char>) -> Seq<char> {
    base64_url_text(sha256_of(encode_utf8(s)))
}

/// The hash of a text, as secrets are stored.
pub fn hash(value: &str) -> (r: String)
    ensures
        r@ == hash_of(value@),
{
    let digest = sha256(value);
    base64_url_encode(&digest)
}

/// The PKCE challenge `S256` of a verifier.
pub fn pkce_challenge(verifier: &str) -> (r: String)
    ensures
        r@ == hash_of(verifier@),
{
    let digest = sha256(verifier);
    base64_url_encode(&digest)
}

/// Whether the text is a token with the given prefix: the prefix, an underscore and 64
/// hexadecimal digits.
pub open spec fn is_token(s: Seq<char>, prefix: Seq<char>) -> bool {
    &&& s.len() == prefix.len() + 65
    &&& s.take(prefix.len() as int) == prefix
    &&& s[prefix.len() as int] == '_'
    &&& hex_text(s.skip(prefix.len() as int + 1), 64)
}

/// A token with a prefix of ASCII characters has as many bytes as characters.
pub proof fn lemma_token_bytes(s: Seq<char>, prefix: Seq<char>)
    requires
        is_token(s, prefix),
        forall|i: int| 0 <= i < prefix.len() ==> (#[trigger] prefix[i]) as u32 <= 0x7f,
    ensures
        byte_len(s) == prefix.len() + 65,
{
    let n = prefix.len() as int;
    assert forall|i: int| 0 <= i < s.len() implies (#[trigger] s[i]) as u32 <= 0x7f by {
        if i < n {
            assert(s.take(n)[i] == s[i]);
            assert(prefix[i] == s[i]);
        } else if i > n {
            assert(s.skip(n + 1)[i - n - 1] == s[i]);
        }
    }
    lemma_ascii_bytes(s);
}

/// A random token with the given prefix.
pub fn random_token(prefix: &str) -> (r: String)
    ensures
        is_token(r@, prefix@),
{
    let mut out = concat(prefix, "_");
    let a = simple_uuid();
    let b = simple_uuid();
    out.push_str(a.as_str());
    out.push_str(b.as_str());
    proof {
        reveal_strlit("_");
        let tail = out@.skip(prefix@.len() as int + 1);
        assert(tail =~= a@ + b@);
        assert forall|i: int| 0 <= i < tail.len() implies is_hex(#[trigger] tail[i]) by {
            if i < 32 {
                assert(tail[i] == a@[i]);
            } else {
                assert(tail[i] == b@[i - 32]);
            }
        }
        assert(out@.take(prefix@.len() as int) =~= prefix@);
    }
    out
}

/// Escapes a text for the authorization page.
pub fn esc(raw: &str) -> (r: String)
    ensures
        r@ == escaped(Escape::Html, raw@),
{
    escape(Escape::Html, raw)
}

// ---------------------------------------------------------------------------------------
// Points in time

/// Whether `a` comes before `b`.
pub open spec fn earlier(a: (i64, u32), b: (i64, u32)) -> bool {
    a.0 < b.0 || (a.0 == b.0 && a.1 < b.1)
}

/// Whether a stored expiry time lies in the future. A text that is no time never does.
pub open spec fn in_future(expires_at: Seq<char>, now: Timestamp) -> bool {
    match rfc3339_time(expires_at) {
        Some(t) => earlier((now.secs, now.nanos), t),
        None => false,
    }
}

/// Whether the point in time lies behind `now`.
pub fn is_ahead(t: &Option<(i64, u32)>, now: &Timestamp) -> (r: bool)
    ensures
        r == match *t {
            Some(t) => earlier((now.secs, now.nanos), t),
            None => false,
        },
{
    match t {
        Some((secs, nanos)) => now.secs < *secs || (now.secs == *secs && now.nanos < *nanos),
        None => false,
    }
}

/// Whether a stored expiry time lies in the future.
pub fn not_expired(expires_at: &str, now: &Timestamp) -> (r: bool)
    ensures
        r == in_future(expires_at@, *now),
{
    let t = parse_rfc3339(expires_at);
    is_ahead(&t, now)
}

/// The seconds of a point in time, a while later.
pub open spec fn later_secs(now: Timestamp, secs: u32) -> Option<i64> {
    if now.secs + secs <= i64::MAX {
        Some((now.secs + secs) as i64)
    } else {
        None
    }
}

/// How a point in time, a while after `now`, is stored; where it can be written.
pub open spec fn stored_time(now: Timestamp, secs: u32) -> Option<Seq<char>> {
    match later_secs(now, secs) {
        Some(s) => rfc3339_text(s, now.nanos),
        None => None,
    }
}

/// Whether a point in time, a while after `now`, can be written.
pub open spec fn is_writable_time(now: Timestamp, secs: u32) -> bool {
    later_secs(now, secs) is Some && is_known_time(later_secs(now, secs)->0, now.nanos)
}

/// Whether a point in time, a while after `now`, can be written and read back.
pub open spec fn is_sure_time(now: Timestamp, secs: u32) -> bool {
    later_secs(now, secs) is Some && is_common_time(later_secs(now, secs)->0, now.nanos)
}

/// Writes a point in time a while after `now`.
pub fn time_after(now: &Timestamp, secs: u32) -> (r: Option<String>)
    ensures
        r.deep_view() == stored_time(*now, secs),
        r is Some <==> is_writable_time(*now, secs),
        is_sure_time(*now, secs) ==> r is Some && rfc3339_time(r->0@) == Some(
            (later_secs(*now, secs)->0, now.nanos),
        ),
{
    match now.secs.checked_add(secs as i64) {
        Some(s) => write_rfc3339(s, now.nanos),
        None => None,
    }
}

// ---------------------------------------------------------------------------------------
// Errors

/// An error that a client of the OAuth endpoints gets: the HTTP status, the error's code and
/// what it means.
#[derive(Debug)]
pub struct OAuthError {
    pub status: u16,
    pub code: &'static str,
    pub description: String,
}

/// An error as a mathematical value.
pub struct Refusal {
    pub status: u16,
    pub code: Seq<char>,
    pub description: Seq<char>,
}

impl View for OAuthError {
    type V = Refusal;

    open spec fn view(&self) -> Refusal {
        Refusal { status: self.status, code: self.code@, description: self.description@ }
    }
}

pub const BAD_REQUEST: u16 = 400;

pub const UNAUTHORIZED: u16 = 401;

pub const FORBIDDEN: u16 = 403;

pub const INTERNAL_SERVER_ERROR: u16 = 500;

pub const SERVICE_UNAVAILABLE: u16 = 503;

/// The error with the given status, code and meaning.
pub fn oauth_error(status: u16, code: &'static str, description: &str) -> (r: OAuthError)
    ensures
        r@ == (Refusal { status, code: code@, description: description@ }),
{
    OAuthError { status, code, description: description.to_owned() }
}

/// The error for a failure of the server itself.
pub open spec fn server_error(reason: Seq<char>) -> Refusal {
    Refusal { status: INTERNAL_SERVER_ERROR, code: "server_error"@, description: reason }
}

/// The error for a failure of the server itself.
pub fn internal_oauth(reason: &str) -> (r: OAuthError)
    ensures
        r@ == server_error(reason@),
{
    oauth_error(INTERNAL_SERVER_ERROR, "server_error", reason)
}

/// The reason where a point in time cannot be written.
pub const TIME_OUT_OF_RANGE: &'static str = "time is out of range";

impl OAuthError {
    /// The body of the answer.
    pub fn body(&self) -> (r: Json)
        ensures
            r@ == Value::Object(
                seq![
                    ("error"@, Value::Str(self.code@)),
                    ("error_description"@, Value::Str(self.description@)),
                ],
            ),
    {
        let mut members: Vec<(String, Json)> = Vec::new();
        push_member(&mut members, "error", text(self.code));
        push_member(&mut members, "error_description", text(self.description.as_str()));
        assert(members_of(members@) =~= seq![
            ("error"@, Value::Str(self.code@)),
            ("error_description"@, Value::Str(self.description@)),
        ]);
        object(members)
    }
}

/// What is stored of a secret, and what a PKCE challenge is: the SHA-256 digest of its UTF-8
/// encoding, all of it, in Base64 for URLs.
pub proof fn lemma_hash(s: Seq<char>)
    ensures
        hash_of(s) == base64_url_text(sha256_of(encode_utf8(s))),
{
}

/// When a stored time lies in the future: its seconds are later than now, or they are the same
/// and its nanoseconds are later. The moment itself is no longer in the future, and a text that
/// is no time never is.
pub proof fn lemma_in_future(at: Seq<char>, now: Timestamp)
    ensures
        rfc3339_time(at) is None ==> !in_future(at, now),
        rfc3339_time(at) matches Some((secs, nanos)) ==> {
            &&& secs > now.secs ==> in_future(at, now)
            &&& secs < now.secs ==> !in_future(at, now)
            &&& secs == now.secs ==> (in_future(at, now) <==> nanos > now.nanos)
        },
{
}

/// A time a while after now is stored with the seconds added and the nanoseconds kept.
pub proof fn lemma_stored_time(now: Timestamp, secs: u32)
    ensures
        now.secs + secs <= i64::MAX ==> stored_time(now, secs) == rfc3339_text(
            (now.secs + secs) as i64,
            now.nanos,
        ),
        now.secs + secs > i64::MAX ==> stored_time(now, secs) is None,
{
}

/// The shape of a token: its prefix, an underscore and 64 hexadecimal digits.
pub proof fn lemma_token_shape(s: Seq<char>, prefix: Seq<char>)
    requires
        is_token(s, prefix),
    ensures
        s == prefix + "_"@ + s.skip(prefix.len() as int + 1),
        s.len() == prefix.len() + 65,
        forall|i: int|
            prefix.len() < i < s.len() ==> ('0' <= #[trigger] s[i] && s[i] <= '9') || ('a' <= s[i]
                && s[i] <= 'f'),
{
    reveal_strlit("_");
    let n = prefix.len() as int;
    assert(s =~= s.take(n) + "_"@ + s.skip(n + 1));
    assert forall|i: int| n < i < s.len() implies ('0' <= #[trigger] s[i] && s[i] <= '9') || ('a'
        <= s[i] && s[i] <= 'f') by {
        assert(s.skip(n + 1)[i - n - 1] == s[i]);
    }
}

/// What an error holds, and how a failure of the server is reported.
pub proof fn lemma_what_an_error_holds(e: OAuthError, reason: Seq<char>, now: Timestamp, secs: u32)
    ensures
        e@.status == e.status,
        e@.code == e.code@,
        e@.description == e.description@,
        server_error(reason) == (Refusal {
            status: 500,
            code: "server_error"@,
            description: reason,
        }),
        TIME_OUT_OF_RANGE@ == "time is out of range"@,
        is_writable_time(now, secs) <==> now.secs + secs <= i64::MAX && is_known_time(
            (now.secs + secs) as i64,
            now.nanos,
        ),
        is_sure_time(now, secs) <==> now.secs + secs <= i64::MAX && is_common_time(
            (now.secs + secs) as i64,
            now.nanos,
        ),
{
}

} // verus!
