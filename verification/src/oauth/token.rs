//! The token endpoint: authorization codes and refresh tokens are exchanged for new tokens,
//! and access tokens are checked at the MCP endpoint.

use vstd::prelude::*;
use vstd::utf8::decode_utf8;
use vstd::utf8::valid_utf8;

use crate::json::members_of;
use crate::json::object;
use crate::json::push_member;
use crate::json::text;
use crate::json::Json;
use crate::json::Value;
use crate::oauth::authorize::expires_after;
use crate::oauth::authorize::granted;
use crate::oauth::authorize::AuthorizeForm;
use crate::oauth::authorize::Code;
use crate::oauth::authorize::CodeRow;
use crate::oauth::authorize::CODE_TTL_SECS;
use crate::oauth::clients::resolve_client;
use crate::oauth::clients::resolved_client;
use crate::oauth::clients::Client;
use crate::oauth::clients::StoredClient;
use crate::oauth::secrets::earlier;
use crate::oauth::secrets::hash;
use crate::oauth::secrets::hash_of;
use crate::oauth::secrets::in_future;
use crate::oauth::secrets::internal_oauth;
use crate::oauth::secrets::is_sure_time;
use crate::oauth::secrets::is_token;
use crate::oauth::secrets::is_writable_time;
use crate::oauth::secrets::later_secs;
use crate::oauth::secrets::not_expired;
use crate::oauth::secrets::oauth_error;
use crate::oauth::secrets::pkce_challenge;
use crate::oauth::secrets::random_token;
use crate::oauth::secrets::server_error;
use crate::oauth::secrets::stored_time;
use crate::oauth::secrets::time_after;
use crate::oauth::secrets::OAuthError;
use crate::oauth::secrets::Refusal;
use crate::oauth::secrets::BAD_REQUEST;
use crate::oauth::secrets::TIME_OUT_OF_RANGE;
use crate::oauth::secrets::UNAUTHORIZED;
use crate::outside::base64_bytes;
use crate::outside::base64_decode;
use crate::outside::utf8_text;
use crate::text::after_prefix;
use crate::text::chars_of;
use crate::text::find_char;
use crate::text::same_text;
use crate::text::slice_text;
use crate::text::strip_prefix;
use crate::time::Timestamp;

verus! {

/// How long an access token is accepted, in seconds.
pub const ACCESS_TTL_SECS: u32 = 3600;

/// How long a refresh token can be used, in seconds.
pub const REFRESH_TTL_SECS: u32 = 2_592_000;

/// What a client sends to the token endpoint.
#[derive(Debug)]
pub struct TokenForm {
    pub grant_type: String,
    pub client_id: String,
    pub client_secret: String,
    pub code: String,
    pub redirect_uri: String,
    pub code_verifier: String,
    pub refresh_token: String,
    pub resource: String,
}

// ---------------------------------------------------------------------------------------
// Who the client is

/// The texts before and behind the first colon.
pub open spec fn at_colon(s: Seq<char>) -> Option<(Seq<char>, Seq<char>)>
    decreases s.len(),
{
    if s.len() == 0 {
        None
    } else if s[0] == ':' {
        Some((Seq::<char>::empty(), s.drop_first()))
    } else {
        match at_colon(s.drop_first()) {
            Some((a, b)) => Some((seq![s[0]] + a, b)),
            None => None,
        }
    }
}

proof fn lemma_at_colon(s: Seq<char>, i: int)
    requires
        0 <= i <= s.len(),
        forall|j: int| 0 <= j < i ==> s[j] != ':',
        i < s.len() ==> s[i] == ':',
    ensures
        at_colon(s) == if i < s.len() {
            Some((s.take(i), s.skip(i + 1)))
        } else {
            None
        },
    decreases i,
{
    if s.len() > 0 {
        if i == 0 {
            assert(s.take(0) =~= Seq::<char>::empty());
            assert(s.skip(1) =~= s.drop_first());
        } else {
            lemma_at_colon(s.drop_first(), i - 1);
            if i < s.len() {
                assert(seq![s[0]] + s.drop_first().take(i - 1) =~= s.take(i));
                assert(s.drop_first().skip(i) =~= s.skip(i + 1));
            }
        }
    }
}

/// The identifier and the secret in decoded basic credentials.
pub open spec fn credentials_in(decoded: Option<Seq<u8>>) -> Option<(Seq<char>, Seq<char>)> {
    match decoded {
        Some(bytes) => if valid_utf8(bytes) {
            at_colon(decode_utf8(bytes))
        } else {
            None
        },
        None => None,
    }
}

/// A pair of texts, where there is one.
pub open spec fn pair_view(p: Option<(String, String)>) -> Option<(Seq<char>, Seq<char>)> {
    match p {
        Some((a, b)) => Some((a@, b@)),
        None => None,
    }
}

/// The identifier and the secret in decoded basic credentials.
pub fn split_credentials(decoded: Option<Vec<u8>>) -> (r: Option<(String, String)>)
    ensures
        pair_view(r) == credentials_in(
            match decoded {
                Some(bytes) => Some(bytes@),
                None => None,
            },
        ),
{
    let bytes = match decoded {
        Some(bytes) => bytes,
        None => {
            return None;
        },
    };
    let text = match utf8_text(bytes) {
        Some(text) => text,
        None => {
            return None;
        },
    };
    let v = chars_of(text.as_str());
    match find_char(&v, ':', 0) {
        Some(i) => {
            proof {
                lemma_at_colon(v@, i as int);
                assert(v@.subrange(0, i as int) =~= v@.take(i as int));
                assert(v@.subrange(i + 1, v@.len() as int) =~= v@.skip(i + 1));
            }
            let id = slice_text(&v, 0, i);
            let total: usize = v.len();
            let secret = slice_text(&v, i + 1, total);
            Some((id, secret))
        },
        None => {
            proof {
                lemma_at_colon(v@, v@.len() as int);
            }
            None
        },
    }
}

/// The identifier and the secret in an `Authorization` header with basic credentials.
pub open spec fn basic_credentials(header: Option<Seq<char>>) -> Option<(Seq<char>, Seq<char>)> {
    match header {
        Some(h) => match after_prefix(h, "Basic "@) {
            Some(encoded) => credentials_in(base64_bytes(encoded)),
            None => None,
        },
        None => None,
    }
}

/// The identifier and the secret in an `Authorization` header with basic credentials.
pub fn parse_basic(authorization: &Option<String>) -> (r: Option<(String, String)>)
    ensures
        pair_view(r) == basic_credentials(authorization.deep_view()),
{
    let header = match authorization {
        Some(h) => h.as_str(),
        None => {
            return None;
        },
    };
    match strip_prefix(header, "Basic ") {
        Some(encoded) => {
            let decoded = base64_decode(encoded.as_str());
            split_credentials(decoded)
        },
        None => None,
    }
}

/// Puts credentials from the `Authorization` header, where there are any, in place of those in
/// the form, and refuses a form that names no client.
pub fn identify_client(form: TokenForm, basic: Option<(String, String)>) -> (r: Result<
    TokenForm,
    OAuthError,
>)
    ensures
        ({
            let id = match basic {
                Some((id, _)) => id,
                None => form.client_id,
            };
            if id@.len() == 0 {
                r matches Err(e) && e@ == invalid_client("missing client_id"@)
            } else {
                r matches Ok(f) && f == TokenForm {
                    client_id: id,
                    client_secret: match basic {
                        Some((_, secret)) => secret,
                        None => form.client_secret,
                    },
                    ..form
                }
            }
        }),
{
    let mut form = form;
    if let Some((id, secret)) = basic {
        form.client_id = id;
        form.client_secret = secret;
    }
    if form.client_id.as_str().is_empty() {
        return Err(oauth_error(UNAUTHORIZED, "invalid_client", "missing client_id"));
    }
    Ok(form)
}

/// The error for a client that is not who it says.
pub open spec fn invalid_client(reason: Seq<char>) -> Refusal {
    Refusal { status: UNAUTHORIZED, code: "invalid_client"@, description: reason }
}

/// What is wrong with a client's secret, if anything is.
pub open spec fn authentication_problem(
    client: Result<Client, Seq<char>>,
    supplied: Seq<char>,
) -> Option<Refusal> {
    match client {
        Err(e) => Some(invalid_client(e)),
        Ok(c) => if c.auth_method == "none"@ {
            None
        } else if supplied.len() == 0 || c.secret_hash != Some(hash_of(supplied)) {
            Some(invalid_client("client authentication failed"@))
        } else {
            None
        },
    }
}

/// Says what is wrong with the secret of the client that was looked up.
pub fn authenticate_client(
    lookup: Result<Option<StoredClient>, String>,
    supplied_secret: &str,
) -> (r: Result<(), OAuthError>)
    ensures
        match authentication_problem(resolved_client(lookup), supplied_secret@) {
            None => r is Ok,
            Some(p) => r matches Err(e) && e@ == p,
        },
{
    let client = match resolve_client(lookup) {
        Ok(client) => client,
        Err(e) => {
            return Err(oauth_error(UNAUTHORIZED, "invalid_client", e.as_str()));
        },
    };
    if same_text(client.auth_method.as_str(), "none") {
        return Ok(());
    }
    let supplied = hash(supplied_secret);
    let right = crate::text::is_text(&client.secret_hash, supplied.as_str());
    if supplied_secret.is_empty() || !right {
        return Err(
            oauth_error(UNAUTHORIZED, "invalid_client", "client authentication failed"),
        );
    }
    Ok(())
}

/// What a client gives for new tokens.
#[derive(Debug, Clone, Copy, PartialEq, Eq, Structural)]
pub enum Grant {
    Code,
    Refresh,
}

/// The grant that a type names, or the error for one that is not supported.
pub open spec fn named_grant(grant_type: Seq<char>) -> Result<Grant, Refusal> {
    if grant_type == "authorization_code"@ {
        Ok(Grant::Code)
    } else if grant_type == "refresh_token"@ {
        Ok(Grant::Refresh)
    } else {
        Err(
            Refusal {
                status: BAD_REQUEST,
                code: "unsupported_grant_type"@,
                description: "unsupported grant_type"@,
            },
        )
    }
}

/// A grant or an error as mathematical values.
pub open spec fn grant_view(r: Result<Grant, OAuthError>) -> Result<Grant, Refusal> {
    match r {
        Ok(g) => Ok(g),
        Err(e) => Err(e@),
    }
}

/// The grant that a type names, or the error for one that is not supported.
pub fn grant_of(grant_type: &str) -> (r: Result<Grant, OAuthError>)
    ensures
        grant_view(r) == named_grant(grant_type@),
{
    if same_text(grant_type, "authorization_code") {
        Ok(Grant::Code)
    } else if same_text(grant_type, "refresh_token") {
        Ok(Grant::Refresh)
    } else {
        Err(oauth_error(BAD_REQUEST, "unsupported_grant_type", "unsupported grant_type"))
    }
}

/// Which grant a client asks for, once it has been looked up and has authenticated itself.
pub fn requested_grant(form: &TokenForm, lookup: Result<Option<StoredClient>, String>) -> (r: Result<
    Grant,
    OAuthError,
>)
    ensures
        match authentication_problem(resolved_client(lookup), form.client_secret@) {
            Some(p) => r matches Err(e) && e@ == p,
            None => grant_view(r) == named_grant(form.grant_type@),
        },
{
    match authenticate_client(lookup, form.client_secret.as_str()) {
        Ok(()) => grant_of(form.grant_type.as_str()),
        Err(e) => Err(e),
    }
}

// ---------------------------------------------------------------------------------------
// Tokens

/// What is stored of an access token.
#[derive(Debug)]
pub struct AccessRow {
    pub token_hash: String,
    pub client_id: String,
    pub resource: String,
    pub scope: String,
    pub expires_at: String,
    pub revoked: i64,
    pub created_at: String,
}

/// What is stored of a refresh token.
#[derive(Debug)]
pub struct RefreshRow {
    pub token_hash: String,
    pub client_id: String,
    pub resource: String,
    pub scope: String,
    pub expires_at: String,
    pub revoked: i64,
}

/// What is stored of a token, as a mathematical value.
pub struct Token {
    pub token_hash: Seq<char>,
    pub client_id: Seq<char>,
    pub resource: Seq<char>,
    pub scope: Seq<char>,
    pub expires_at: Seq<char>,
    pub revoked: i64,
}

impl View for AccessRow {
    type V = Token;

    open spec fn view(&self) -> Token {
        Token {
            token_hash: self.token_hash@,
            client_id: self.client_id@,
            resource: self.resource@,
            scope: self.scope@,
            expires_at: self.expires_at@,
            revoked: self.revoked,
        }
    }
}

impl View for RefreshRow {
    type V = Token;

    open spec fn view(&self) -> Token {
        Token {
            token_hash: self.token_hash@,
            client_id: self.client_id@,
            resource: self.resource@,
            scope: self.scope@,
            expires_at: self.expires_at@,
            revoked: self.revoked,
        }
    }
}

/// A new token that expires a while after `now`, where that time can be written.
pub open spec fn new_token(
    token: Seq<char>,
    client_id: Seq<char>,
    resource: Seq<char>,
    scope: Seq<char>,
    now: Timestamp,
    secs: u32,
) -> Option<Token> {
    match stored_time(now, secs) {
        Some(expires_at) => Some(
            Token {
                token_hash: hash_of(token),
                client_id,
                resource,
                scope,
                expires_at,
                revoked: 0,
            },
        ),
        None => None,
    }
}

/// Whether an access token that was looked up opens the resource.
pub open spec fn is_accepted(token: Token, resource: Seq<char>, now: Timestamp) -> bool {
    token.revoked == 0 && token.resource == resource && in_future(token.expires_at, now)
}

/// Whether the times that are stored with new tokens can be written.
pub open spec fn can_issue(now: Timestamp) -> bool {
    &&& is_writable_time(now, 0)
    &&& is_writable_time(now, ACCESS_TTL_SECS)
    &&& is_writable_time(now, REFRESH_TTL_SECS)
}

/// What is stored of a new pair of tokens, where the times can be written.
pub fn issue_tokens(
    access: &str,
    refresh: &str,
    client_id: &str,
    resource: &str,
    scope: &str,
    now: &Timestamp,
) -> (r: Option<(AccessRow, RefreshRow)>)
    ensures
        ({
            let a = new_token(access@, client_id@, resource@, scope@, *now, ACCESS_TTL_SECS);
            let f = new_token(refresh@, client_id@, resource@, scope@, *now, REFRESH_TTL_SECS);
            match r {
                Some((x, y)) => a == Some(x@) && f == Some(y@) && Some(x.created_at@)
                    == stored_time(*now, 0),
                None => a is None || f is None || stored_time(*now, 0) is None,
            }
        }),
        r matches Some((x, y)) ==> {
            &&& expires_after(x.expires_at@, *now, ACCESS_TTL_SECS)
            &&& expires_after(y.expires_at@, *now, REFRESH_TTL_SECS)
        },
        r is Some <==> can_issue(*now),
{
    let access_expiry = time_after(now, ACCESS_TTL_SECS);
    let refresh_expiry = time_after(now, REFRESH_TTL_SECS);
    let created = time_after(now, 0);
    match (access_expiry, refresh_expiry, created) {
        (Some(access_expires_at), Some(refresh_expires_at), Some(created_at)) => {
            let a = AccessRow {
                token_hash: hash(access),
                client_id: client_id.to_owned(),
                resource: resource.to_owned(),
                scope: scope.to_owned(),
                expires_at: access_expires_at,
                revoked: 0,
                created_at,
            };
            let f = RefreshRow {
                token_hash: hash(refresh),
                client_id: client_id.to_owned(),
                resource: resource.to_owned(),
                scope: scope.to_owned(),
                expires_at: refresh_expires_at,
                revoked: 0,
            };
            Some((a, f))
        },
        _ => None,
    }
}

/// The answer with new tokens.
pub open spec fn token_answer(access: Seq<char>, refresh: Seq<char>, scope: Seq<char>) -> Value {
    Value::Object(
        seq![
            ("access_token"@, Value::Str(access)),
            ("token_type"@, Value::Str("Bearer"@)),
            ("expires_in"@, Value::Number("3600"@)),
            ("refresh_token"@, Value::Str(refresh)),
            ("scope"@, Value::Str(scope)),
        ],
    )
}

/// The answer with new tokens.
pub fn token_response(access: &str, refresh: &str, scope: &str) -> (r: Json)
    ensures
        r@ == token_answer(access@, refresh@, scope@),
{
    let mut members: Vec<(String, Json)> = Vec::new();
    push_member(&mut members, "access_token", text(access));
    push_member(&mut members, "token_type", text("Bearer"));
    push_member(&mut members, "expires_in", Json::Number("3600".to_owned()));
    push_member(&mut members, "refresh_token", text(refresh));
    push_member(&mut members, "scope", text(scope));
    assert(members_of(members@) =~= token_answer(access@, refresh@, scope@)->Object_0);
    object(members)
}

// ---------------------------------------------------------------------------------------
// Exchanges

/// The error for a code or token that is not accepted.
pub open spec fn invalid_grant(reason: Seq<char>) -> Refusal {
    Refusal { status: BAD_REQUEST, code: "invalid_grant"@, description: reason }
}

/// The error for another resource than the one that was granted.
pub open spec fn invalid_target() -> Refusal {
    Refusal {
        status: BAD_REQUEST,
        code: "invalid_target"@,
        description: "resource mismatch"@,
    }
}

/// What keeps a code from being exchanged, if anything does.
pub open spec fn code_problem(row: Option<Code>, form: TokenForm, now: Timestamp) -> Option<
    Refusal,
> {
    match row {
        None => Some(invalid_grant("unknown authorization code"@)),
        Some(c) => if c.used != 0 || !in_future(c.expires_at, now) {
            Some(invalid_grant("authorization code expired or used"@))
        } else if c.client_id != form.client_id@ || c.redirect_uri != form.redirect_uri@
            || hash_of(form.code_verifier@) != c.code_challenge {
            Some(invalid_grant("authorization code validation failed"@))
        } else if form.resource@.len() > 0 && form.resource@ != c.resource {
            Some(invalid_target())
        } else {
            None
        },
    }
}

/// What keeps a refresh token from being exchanged, if anything does.
pub open spec fn refresh_problem(row: Option<Token>, form: TokenForm, now: Timestamp) -> Option<
    Refusal,
> {
    match row {
        None => Some(invalid_grant("unknown refresh token"@)),
        Some(t) => if t.client_id != form.client_id@ || t.revoked != 0 || !in_future(
            t.expires_at,
            now,
        ) {
            Some(
                invalid_grant("refresh token expired, revoked, or belongs to another client"@),
            )
        } else if form.resource@.len() > 0 && form.resource@ != t.resource {
            Some(invalid_target())
        } else {
            None
        },
    }
}

/// Says what keeps a code from being exchanged.
fn check_code(row: &CodeRow, form: &TokenForm, now: &Timestamp) -> (r: Result<(), OAuthError>)
    ensures
        match code_problem(Some(row@), *form, *now) {
            None => r is Ok,
            Some(p) => r matches Err(e) && e@ == p,
        },
{
    if row.used != 0 || !not_expired(row.expires_at.as_str(), now) {
        return Err(
            oauth_error(BAD_REQUEST, "invalid_grant", "authorization code expired or used"),
        );
    }
    let challenge = pkce_challenge(form.code_verifier.as_str());
    if !same_text(row.client_id.as_str(), form.client_id.as_str()) || !same_text(
        row.redirect_uri.as_str(),
        form.redirect_uri.as_str(),
    ) || !same_text(challenge.as_str(), row.code_challenge.as_str()) {
        return Err(
            oauth_error(BAD_REQUEST, "invalid_grant", "authorization code validation failed"),
        );
    }
    if !form.resource.as_str().is_empty() && !same_text(
        form.resource.as_str(),
        row.resource.as_str(),
    ) {
        return Err(oauth_error(BAD_REQUEST, "invalid_target", "resource mismatch"));
    }
    Ok(())
}

/// Says what keeps a refresh token from being exchanged.
fn check_refresh(row: &RefreshRow, form: &TokenForm, now: &Timestamp) -> (r: Result<
    (),
    OAuthError,
>)
    ensures
        match refresh_problem(Some(row@), *form, *now) {
            None => r is Ok,
            Some(p) => r matches Err(e) && e@ == p,
        },
{
    if !same_text(row.client_id.as_str(), form.client_id.as_str()) || row.revoked != 0
        || !not_expired(row.expires_at.as_str(), now) {
        return Err(
            oauth_error(
                BAD_REQUEST,
                "invalid_grant",
                "refresh token expired, revoked, or belongs to another client",
            ),
        );
    }
    if !form.resource.as_str().is_empty() && !same_text(
        form.resource.as_str(),
        row.resource.as_str(),
    ) {
        return Err(oauth_error(BAD_REQUEST, "invalid_target", "resource mismatch"));
    }
    Ok(())
}

/// What comes of an exchange: the hash under which what was exchanged is stored, which from now
/// on is spent; what is stored of the new tokens; and the answer.
#[derive(Debug)]
pub struct Exchange {
    pub spent: String,
    pub access: AccessRow,
    pub refresh: RefreshRow,
    pub response: Json,
}

/// A new pair of tokens, as mathematical values.
pub struct NewTokens {
    pub spent: Seq<char>,
    pub access: Token,
    pub refresh: Token,
    pub created_at: Seq<char>,
    pub response: Value,
}

impl View for Exchange {
    type V = NewTokens;

    open spec fn view(&self) -> NewTokens {
        NewTokens {
            spent: self.spent@,
            access: self.access@,
            refresh: self.refresh@,
            created_at: self.access.created_at@,
            response: self.response@,
        }
    }
}

/// New tokens for a client, a resource and a scope, in exchange for what is stored under the
/// hash `spent`.
pub open spec fn new_tokens(
    spent: Seq<char>,
    access: Seq<char>,
    refresh: Seq<char>,
    client_id: Seq<char>,
    resource: Seq<char>,
    scope: Seq<char>,
    now: Timestamp,
) -> Result<NewTokens, Refusal> {
    match (
        new_token(access, client_id, resource, scope, now, ACCESS_TTL_SECS),
        new_token(refresh, client_id, resource, scope, now, REFRESH_TTL_SECS),
        stored_time(now, 0),
    ) {
        (Some(a), Some(f), Some(created_at)) => Ok(
            NewTokens {
                spent,
                access: a,
                refresh: f,
                created_at,
                response: token_answer(access, refresh, scope),
            },
        ),
        _ => Err(server_error(TIME_OUT_OF_RANGE@)),
    }
}

/// The outcome of an exchange as mathematical values.
pub open spec fn exchange_result(r: Result<Exchange, OAuthError>) -> Result<NewTokens, Refusal> {
    match r {
        Ok(x) => Ok(x@),
        Err(e) => Err(e@),
    }
}

/// The times at which new tokens expire, where they can be read back.
pub open spec fn expire_in_time(r: Result<Exchange, OAuthError>, now: Timestamp) -> bool {
    r matches Ok(x) ==> {
        &&& expires_after(x.access.expires_at@, now, ACCESS_TTL_SECS)
        &&& expires_after(x.refresh.expires_at@, now, REFRESH_TTL_SECS)
    }
}

/// Hands out new tokens.
fn hand_out(
    spent: String,
    access: &str,
    refresh: &str,
    client_id: &str,
    resource: &str,
    scope: &str,
    now: &Timestamp,
) -> (r: Result<Exchange, OAuthError>)
    ensures
        exchange_result(r) == new_tokens(
            spent@,
            access@,
            refresh@,
            client_id@,
            resource@,
            scope@,
            *now,
        ),
        expire_in_time(r, *now),
        r is Ok <==> can_issue(*now),
{
    match issue_tokens(access, refresh, client_id, resource, scope, now) {
        Some((a, f)) => {
            let response = token_response(access, refresh, scope);
            Ok(Exchange { spent, access: a, refresh: f, response })
        },
        None => Err(internal_oauth(TIME_OUT_OF_RANGE)),
    }
}

/// What comes of the exchange of a code for the given new tokens.
pub open spec fn code_exchanged(
    row: Option<Code>,
    form: TokenForm,
    access: Seq<char>,
    refresh: Seq<char>,
    now: Timestamp,
) -> Result<NewTokens, Refusal> {
    match code_problem(row, form, now) {
        Some(p) => Err(p),
        None => new_tokens(
            hash_of(form.code@),
            access,
            refresh,
            form.client_id@,
            row->0.resource,
            row->0.scope,
            now,
        ),
    }
}

/// What comes of the exchange of a refresh token for the given new tokens.
pub open spec fn refresh_exchanged(
    row: Option<Token>,
    form: TokenForm,
    access: Seq<char>,
    refresh: Seq<char>,
    now: Timestamp,
) -> Result<NewTokens, Refusal> {
    match refresh_problem(row, form, now) {
        Some(p) => Err(p),
        None => new_tokens(
            hash_of(form.refresh_token@),
            access,
            refresh,
            form.client_id@,
            row->0.resource,
            row->0.scope,
            now,
        ),
    }
}

/// A stored code, where there is one, as a mathematical value.
pub open spec fn code_view(row: Option<CodeRow>) -> Option<Code> {
    match row {
        Some(c) => Some(c@),
        None => None,
    }
}

/// A stored refresh token, where there is one, as a mathematical value.
pub open spec fn refresh_view(row: Option<RefreshRow>) -> Option<Token> {
    match row {
        Some(t) => Some(t@),
        None => None,
    }
}

/// Exchanges the code that was looked up for the given new tokens.
pub fn redeem_code(
    row: &Option<CodeRow>,
    form: &TokenForm,
    access: &str,
    refresh: &str,
    now: &Timestamp,
) -> (r: Result<Exchange, OAuthError>)
    ensures
        exchange_result(r) == code_exchanged(code_view(*row), *form, access@, refresh@, *now),
        expire_in_time(r, *now),
        r is Ok <==> code_problem(code_view(*row), *form, *now) is None && can_issue(*now),
{
    let row = match row {
        Some(row) => row,
        None => {
            return Err(oauth_error(BAD_REQUEST, "invalid_grant", "unknown authorization code"));
        },
    };
    match check_code(row, form, now) {
        Ok(()) => hand_out(
            hash(form.code.as_str()),
            access,
            refresh,
            form.client_id.as_str(),
            row.resource.as_str(),
            row.scope.as_str(),
            now,
        ),
        Err(e) => Err(e),
    }
}

/// Exchanges the refresh token that was looked up for the given new tokens.
pub fn redeem_refresh(
    row: &Option<RefreshRow>,
    form: &TokenForm,
    access: &str,
    refresh: &str,
    now: &Timestamp,
) -> (r: Result<Exchange, OAuthError>)
    ensures
        exchange_result(r) == refresh_exchanged(
            refresh_view(*row),
            *form,
            access@,
            refresh@,
            *now,
        ),
        expire_in_time(r, *now),
        r is Ok <==> refresh_problem(refresh_view(*row), *form, *now) is None && can_issue(*now),
{
    let row = match row {
        Some(row) => row,
        None => {
            return Err(oauth_error(BAD_REQUEST, "invalid_grant", "unknown refresh token"));
        },
    };
    match check_refresh(row, form, now) {
        Ok(()) => hand_out(
            hash(form.refresh_token.as_str()),
            access,
            refresh,
            form.client_id.as_str(),
            row.resource.as_str(),
            row.scope.as_str(),
            now,
        ),
        Err(e) => Err(e),
    }
}

/// Exchanges the code that was looked up for random new tokens.
pub fn exchange_code(row: &Option<CodeRow>, form: &TokenForm, now: &Timestamp) -> (r: Result<
    Exchange,
    OAuthError,
>)
    ensures
        exists|access: Seq<char>, refresh: Seq<char>|
            is_token(access, "pca"@) && is_token(refresh, "pcr"@) && exchange_result(r)
                == #[trigger] code_exchanged(code_view(*row), *form, access, refresh, *now),
        expire_in_time(r, *now),
        r is Ok <==> code_problem(code_view(*row), *form, *now) is None && can_issue(*now),
{
    let access = random_token("pca");
    let refresh = random_token("pcr");
    let r = redeem_code(row, form, access.as_str(), refresh.as_str(), now);
    assert(exchange_result(r) == code_exchanged(
        code_view(*row),
        *form,
        access@,
        refresh@,
        *now,
    ));
    r
}

/// Exchanges the refresh token that was looked up for random new tokens.
pub fn exchange_refresh(row: &Option<RefreshRow>, form: &TokenForm, now: &Timestamp) -> (r: Result<
    Exchange,
    OAuthError,
>)
    ensures
        exists|access: Seq<char>, refresh: Seq<char>|
            is_token(access, "pca"@) && is_token(refresh, "pcr"@) && exchange_result(r)
                == #[trigger] refresh_exchanged(refresh_view(*row), *form, access, refresh, *now),
        expire_in_time(r, *now),
        r is Ok <==> refresh_problem(refresh_view(*row), *form, *now) is None && can_issue(*now),
{
    let access = random_token("pca");
    let refresh = random_token("pcr");
    let r = redeem_refresh(row, form, access.as_str(), refresh.as_str(), now);
    assert(exchange_result(r) == refresh_exchanged(
        refresh_view(*row),
        *form,
        access@,
        refresh@,
        *now,
    ));
    r
}

// ---------------------------------------------------------------------------------------
// What holds of codes and tokens

/// The code that is stored under the hash of the given one.
pub open spec fn code_at(codes: Map<Seq<char>, Code>, code: Seq<char>) -> Option<Code> {
    if codes.contains_key(hash_of(code)) {
        Some(codes[hash_of(code)])
    } else {
        None
    }
}

/// The stored codes once the one under the given hash has been used.
pub open spec fn with_used(codes: Map<Seq<char>, Code>, spent: Seq<char>) -> Map<Seq<char>, Code> {
    codes.insert(spent, Code { used: 1, ..codes[spent] })
}

/// The refresh token that is stored under the hash of the given one.
pub open spec fn token_at(tokens: Map<Seq<char>, Token>, token: Seq<char>) -> Option<Token> {
    if tokens.contains_key(hash_of(token)) {
        Some(tokens[hash_of(token)])
    } else {
        None
    }
}

/// The stored refresh tokens once the one under the given hash has been revoked.
pub open spec fn with_revoked(tokens: Map<Seq<char>, Token>, spent: Seq<char>) -> Map<
    Seq<char>,
    Token,
> {
    tokens.insert(spent, Token { revoked: 1, ..tokens[spent] })
}

/// What is stored: the codes, the access tokens and the refresh tokens, each under its hash.
pub struct Store {
    pub codes: Map<Seq<char>, Code>,
    pub access: Map<Seq<char>, Token>,
    pub refresh: Map<Seq<char>, Token>,
}

/// What is stored once a code has been exchanged: the code is used and the new tokens are
/// there. A refused exchange changes nothing.
pub open spec fn after_code_exchange(s: Store, outcome: Result<NewTokens, Refusal>) -> Store {
    match outcome {
        Ok(new) => Store {
            codes: with_used(s.codes, new.spent),
            access: s.access.insert(new.access.token_hash, new.access),
            refresh: s.refresh.insert(new.refresh.token_hash, new.refresh),
        },
        Err(_) => s,
    }
}

/// What is stored once a refresh token has been exchanged: it is revoked and the new tokens
/// are there. A refused exchange changes nothing.
pub open spec fn after_refresh_exchange(s: Store, outcome: Result<NewTokens, Refusal>) -> Store {
    match outcome {
        Ok(new) => Store {
            codes: s.codes,
            access: s.access.insert(new.access.token_hash, new.access),
            refresh: with_revoked(s.refresh, new.spent).insert(
                new.refresh.token_hash,
                new.refresh,
            ),
        },
        Err(_) => s,
    }
}

/// Whether the times that are stored with new tokens have been written.
pub open spec fn times_are_written(now: Timestamp) -> bool {
    &&& stored_time(now, 0) is Some
    &&& stored_time(now, ACCESS_TTL_SECS) is Some
    &&& stored_time(now, REFRESH_TTL_SECS) is Some
}

/// Whether a token is what is stored of a new one.
pub open spec fn is_new_token(
    t: Token,
    secret: Seq<char>,
    client_id: Seq<char>,
    resource: Seq<char>,
    scope: Seq<char>,
    expires_at: Option<Seq<char>>,
) -> bool {
    &&& t.token_hash == hash_of(secret)
    &&& t.client_id == client_id
    &&& t.resource == resource
    &&& t.scope == scope
    &&& Some(t.expires_at) == expires_at
    &&& t.revoked == 0
}

/// The exchange of a code, as seen in the store. It succeeds exactly where the code is stored,
/// unused and not expired, where client, redirect address and verifier are those of the code,
/// where the resource is the code's or none in particular, and where the times can be written.
/// A success marks the code as used, leaves all other codes alone, stores one new access token
/// and one new refresh token for the code's client, resource and scope, and leaves nothing to
/// exchange for a second time. A refusal changes nothing.
pub proof fn lemma_code_exchange_in_the_store(
    s: Store,
    form: TokenForm,
    access: Seq<char>,
    refresh: Seq<char>,
    now: Timestamp,
    again: TokenForm,
    other_access: Seq<char>,
    other_refresh: Seq<char>,
    later: Timestamp,
)
    requires
        again.code@ == form.code@,
    ensures
        ({
            let row = code_at(s.codes, form.code@);
            let outcome = code_exchanged(row, form, access, refresh, now);
            let after = after_code_exchange(s, outcome);
            let spent = hash_of(form.code@);
            &&& outcome is Ok <==> {
                &&& row is Some
                &&& row->0.used == 0
                &&& in_future(row->0.expires_at, now)
                &&& row->0.client_id == form.client_id@
                &&& row->0.redirect_uri == form.redirect_uri@
                &&& row->0.code_challenge == hash_of(form.code_verifier@)
                &&& form.resource@.len() == 0 || form.resource@ == row->0.resource
                &&& times_are_written(now)
            }
            &&& outcome is Err ==> after == s
            &&& outcome is Ok ==> {
                &&& after.codes == s.codes.insert(spent, Code { used: 1, ..row->0 })
                &&& after.access.dom() == s.access.dom().insert(hash_of(access))
                &&& after.refresh.dom() == s.refresh.dom().insert(hash_of(refresh))
                &&& after.access.remove(hash_of(access)) == s.access.remove(hash_of(access))
                &&& after.refresh.remove(hash_of(refresh)) == s.refresh.remove(hash_of(refresh))
                &&& is_new_token(
                    after.access[hash_of(access)],
                    access,
                    row->0.client_id,
                    row->0.resource,
                    row->0.scope,
                    stored_time(now, ACCESS_TTL_SECS),
                )
                &&& is_new_token(
                    after.refresh[hash_of(refresh)],
                    refresh,
                    row->0.client_id,
                    row->0.resource,
                    row->0.scope,
                    stored_time(now, REFRESH_TTL_SECS),
                )
                &&& code_exchanged(
                    code_at(after.codes, again.code@),
                    again,
                    other_access,
                    other_refresh,
                    later,
                ) == Err::<NewTokens, Refusal>(
                    invalid_grant("authorization code expired or used"@),
                )
            }
        }),
{
    let row = code_at(s.codes, form.code@);
    let outcome = code_exchanged(row, form, access, refresh, now);
    let after = after_code_exchange(s, outcome);
    if outcome is Ok {
        assert(after.access.remove(hash_of(access)) =~= s.access.remove(hash_of(access)));
        assert(after.refresh.remove(hash_of(refresh)) =~= s.refresh.remove(hash_of(refresh)));
    }
}

/// The exchange of a refresh token, as seen in the store. It succeeds exactly where the token
/// is stored, belongs to the client, is neither revoked nor expired, where the resource is the
/// token's or none in particular, and where the times can be written. A success revokes the
/// token, leaves the codes alone, stores one new access token and one new refresh token for the
/// token's client, resource and scope, and leaves nothing to exchange for a second time. A
/// refusal changes nothing. What a success does is said for a new refresh token that is not
/// stored yet.
pub proof fn lemma_refresh_exchange_in_the_store(
    s: Store,
    form: TokenForm,
    access: Seq<char>,
    refresh: Seq<char>,
    now: Timestamp,
    again: TokenForm,
    other_access: Seq<char>,
    other_refresh: Seq<char>,
    later: Timestamp,
)
    requires
        again.refresh_token@ == form.refresh_token@,
    ensures
        ({
            let row = token_at(s.refresh, form.refresh_token@);
            let outcome = refresh_exchanged(row, form, access, refresh, now);
            let after = after_refresh_exchange(s, outcome);
            let spent = hash_of(form.refresh_token@);
            &&& outcome is Ok <==> {
                &&& row is Some
                &&& row->0.client_id == form.client_id@
                &&& row->0.revoked == 0
                &&& in_future(row->0.expires_at, now)
                &&& form.resource@.len() == 0 || form.resource@ == row->0.resource
                &&& times_are_written(now)
            }
            &&& outcome is Err ==> after == s
            &&& outcome is Ok && !s.refresh.contains_key(hash_of(refresh)) ==> {
                &&& after.codes == s.codes
                &&& after.access.dom() == s.access.dom().insert(hash_of(access))
                &&& after.refresh.dom() == s.refresh.dom().insert(hash_of(refresh))
                &&& after.access.remove(hash_of(access)) == s.access.remove(hash_of(access))
                &&& after.refresh.remove(hash_of(refresh)) == s.refresh.insert(
                    spent,
                    Token { revoked: 1, ..row->0 },
                )
                &&& is_new_token(
                    after.access[hash_of(access)],
                    access,
                    row->0.client_id,
                    row->0.resource,
                    row->0.scope,
                    stored_time(now, ACCESS_TTL_SECS),
                )
                &&& is_new_token(
                    after.refresh[hash_of(refresh)],
                    refresh,
                    row->0.client_id,
                    row->0.resource,
                    row->0.scope,
                    stored_time(now, REFRESH_TTL_SECS),
                )
                &&& refresh_exchanged(
                    token_at(after.refresh, again.refresh_token@),
                    again,
                    other_access,
                    other_refresh,
                    later,
                ) == Err::<NewTokens, Refusal>(
                    invalid_grant("refresh token expired, revoked, or belongs to another client"@),
                )
            }
        }),
{
    let row = token_at(s.refresh, form.refresh_token@);
    let outcome = refresh_exchanged(row, form, access, refresh, now);
    let after = after_refresh_exchange(s, outcome);
    let spent = hash_of(form.refresh_token@);
    if outcome is Ok && !s.refresh.contains_key(hash_of(refresh)) {
        assert(after.access.remove(hash_of(access)) =~= s.access.remove(hash_of(access)));
        assert(after.refresh.remove(hash_of(refresh)) =~= s.refresh.insert(
            spent,
            Token { revoked: 1, ..row->0 },
        ));
        assert(after.refresh.dom() =~= s.refresh.dom().insert(hash_of(refresh)));
    }
}

/// A code that has been exchanged cannot be exchanged again, whoever tries and whenever.
pub proof fn lemma_code_is_single_use(
    codes: Map<Seq<char>, Code>,
    form: TokenForm,
    access: Seq<char>,
    refresh: Seq<char>,
    now: Timestamp,
    again: TokenForm,
    later: Timestamp,
)
    requires
        again.code@ == form.code@,
    ensures
        code_exchanged(code_at(codes, form.code@), form, access, refresh, now) matches Ok(new)
            ==> code_problem(code_at(with_used(codes, new.spent), again.code@), again, later)
            == Some(invalid_grant("authorization code expired or used"@)),
{
}

/// A refresh token that has been exchanged cannot be exchanged again, whoever tries and
/// whenever.
pub proof fn lemma_refresh_token_is_single_use(
    tokens: Map<Seq<char>, Token>,
    form: TokenForm,
    access: Seq<char>,
    refresh: Seq<char>,
    now: Timestamp,
    again: TokenForm,
    later: Timestamp,
)
    requires
        again.refresh_token@ == form.refresh_token@,
    ensures
        refresh_exchanged(token_at(tokens, form.refresh_token@), form, access, refresh, now)
            matches Ok(new) ==> refresh_problem(
            token_at(with_revoked(tokens, new.spent), again.refresh_token@),
            again,
            later,
        ) == Some(
            invalid_grant("refresh token expired, revoked, or belongs to another client"@),
        ),
{
}

/// A code is only exchanged by the client that it was granted to, with the redirect address
/// that it was granted for and the verifier of its challenge, for the resource that it was
/// granted for.
pub proof fn lemma_code_exchange_is_bound(code: Code, form: TokenForm, now: Timestamp)
    requires
        code_problem(Some(code), form, now) is None,
    ensures
        form.client_id@ == code.client_id,
        form.redirect_uri@ == code.redirect_uri,
        hash_of(form.code_verifier@) == code.code_challenge,
        form.resource@.len() == 0 || form.resource@ == code.resource,
{
}

/// A code that was granted can be exchanged until it expires, by its client, with its redirect
/// address and the verifier of its challenge, for its resource or for none in particular.
pub proof fn lemma_granted_code_can_be_exchanged(
    asked: AuthorizeForm,
    default_resource: Seq<char>,
    secret: Seq<char>,
    code: Code,
    target: Seq<char>,
    now: Timestamp,
    form: TokenForm,
    later: Timestamp,
)
    requires
        is_sure_time(now, CODE_TTL_SECS),
        earlier((later.secs, later.nanos), (later_secs(now, CODE_TTL_SECS)->0, now.nanos)),
        form.client_id@ == asked.client_id@,
        form.redirect_uri@ == asked.redirect_uri@,
        form.resource@.len() == 0 || form.resource@ == code.resource,
    ensures
        ({
            &&& granted(asked, default_resource, secret, now) == Ok::<
                (Code, Seq<char>),
                (u16, Seq<char>),
            >((code, target))
            &&& expires_after(code.expires_at, now, CODE_TTL_SECS)
            &&& hash_of(form.code_verifier@) == asked.code_challenge@
        }) ==> code_problem(Some(code), form, later) is None,
{
}

/// A new access token opens its own resource until it expires, and no other resource and at no
/// other time.
pub proof fn lemma_new_access_token_is_accepted(
    access: Seq<char>,
    client_id: Seq<char>,
    resource: Seq<char>,
    scope: Seq<char>,
    now: Timestamp,
    token: Token,
    wanted: Seq<char>,
    later: Timestamp,
)
    requires
        is_sure_time(now, ACCESS_TTL_SECS),
    ensures
        new_token(access, client_id, resource, scope, now, ACCESS_TTL_SECS) == Some(token)
            && expires_after(token.expires_at, now, ACCESS_TTL_SECS) ==> (is_accepted(
            token,
            wanted,
            later,
        ) <==> wanted == resource && earlier(
            (later.secs, later.nanos),
            (later_secs(now, ACCESS_TTL_SECS)->0, now.nanos),
        )),
{
}

/// A new refresh token can be exchanged by its client until it expires.
pub proof fn lemma_new_refresh_token_can_be_exchanged(
    refresh: Seq<char>,
    resource: Seq<char>,
    scope: Seq<char>,
    now: Timestamp,
    token: Token,
    form: TokenForm,
    later: Timestamp,
)
    requires
        is_sure_time(now, REFRESH_TTL_SECS),
        earlier((later.secs, later.nanos), (later_secs(now, REFRESH_TTL_SECS)->0, now.nanos)),
        form.resource@.len() == 0 || form.resource@ == resource,
    ensures
        new_token(refresh, form.client_id@, resource, scope, now, REFRESH_TTL_SECS) == Some(token)
            && expires_after(token.expires_at, now, REFRESH_TTL_SECS) ==> refresh_problem(
            Some(token),
            form,
            later,
        ) is None,
{
}

/// Refreshing changes neither the client nor the resource nor the scope.
pub proof fn lemma_refresh_keeps_the_grant(
    token: Token,
    form: TokenForm,
    access: Seq<char>,
    refresh: Seq<char>,
    now: Timestamp,
)
    ensures
        refresh_exchanged(Some(token), form, access, refresh, now) matches Ok(new) ==> {
            &&& new.access.client_id == token.client_id && new.refresh.client_id == token.client_id
            &&& new.access.resource == token.resource && new.refresh.resource == token.resource
            &&& new.access.scope == token.scope && new.refresh.scope == token.scope
        },
{
}

/// The access token that a code is exchanged for opens the resource that the code was granted
/// for, until it expires.
pub proof fn lemma_exchange_opens_the_resource(
    code: Code,
    form: TokenForm,
    access: Seq<char>,
    refresh: Seq<char>,
    now: Timestamp,
    later: Timestamp,
)
    requires
        is_sure_time(now, ACCESS_TTL_SECS),
        earlier((later.secs, later.nanos), (later_secs(now, ACCESS_TTL_SECS)->0, now.nanos)),
    ensures
        match code_exchanged(Some(code), form, access, refresh, now) {
            Ok(new) => expires_after(new.access.expires_at, now, ACCESS_TTL_SECS) ==> {
                &&& new.access.token_hash == hash_of(access)
                &&& is_accepted(new.access, code.resource, later)
            },
            Err(_) => true,
        },
{
}

/// Why a code is not exchanged. One that is not stored is unknown. One that was used or has
/// expired is refused as such, whatever else the request says. Then another client, another
/// address or another verifier is refused, and then another resource.
pub proof fn lemma_why_a_code_is_refused(c: Code, form: TokenForm, now: Timestamp)
    ensures
        ({
            let fresh = c.used == 0 && in_future(c.expires_at, now);
            let right = c.client_id == form.client_id@ && c.redirect_uri == form.redirect_uri@
                && c.code_challenge == hash_of(form.code_verifier@);
            let target = form.resource@.len() == 0 || form.resource@ == c.resource;
            let problem = code_problem(Some(c), form, now);
            &&& code_problem(None, form, now) == Some(
                Refusal {
                    status: 400,
                    code: "invalid_grant"@,
                    description: "unknown authorization code"@,
                },
            )
            &&& problem is None <==> fresh && right && target
            &&& !fresh ==> problem == Some(
                Refusal {
                    status: 400,
                    code: "invalid_grant"@,
                    description: "authorization code expired or used"@,
                },
            )
            &&& fresh && !right ==> problem == Some(
                Refusal {
                    status: 400,
                    code: "invalid_grant"@,
                    description: "authorization code validation failed"@,
                },
            )
            &&& fresh && right && !target ==> problem == Some(
                Refusal {
                    status: 400,
                    code: "invalid_target"@,
                    description: "resource mismatch"@,
                },
            )
        }),
{
}

/// Why a refresh token is not exchanged. One that is not stored is unknown. One of another
/// client, one that was revoked and one that has expired are refused as such, and then another
/// resource.
pub proof fn lemma_why_a_refresh_token_is_refused(t: Token, form: TokenForm, now: Timestamp)
    ensures
        ({
            let usable = t.client_id == form.client_id@ && t.revoked == 0 && in_future(
                t.expires_at,
                now,
            );
            let target = form.resource@.len() == 0 || form.resource@ == t.resource;
            let problem = refresh_problem(Some(t), form, now);
            &&& refresh_problem(None, form, now) == Some(
                Refusal {
                    status: 400,
                    code: "invalid_grant"@,
                    description: "unknown refresh token"@,
                },
            )
            &&& problem is None <==> usable && target
            &&& !usable ==> problem == Some(
                Refusal {
                    status: 400,
                    code: "invalid_grant"@,
                    description: "refresh token expired, revoked, or belongs to another client"@,
                },
            )
            &&& usable && !target ==> problem == Some(
                Refusal {
                    status: 400,
                    code: "invalid_target"@,
                    description: "resource mismatch"@,
                },
            )
        }),
{
}

/// What an exchange hands out, and what is stored of it: two tokens for the client, the resource
/// and the scope that were granted, one for an hour and one for thirty days, neither revoked.
pub proof fn lemma_what_an_exchange_hands_out(
    spent: Seq<char>,
    access: Seq<char>,
    refresh: Seq<char>,
    client_id: Seq<char>,
    resource: Seq<char>,
    scope: Seq<char>,
    now: Timestamp,
)
    ensures
        ({
            let made = new_tokens(spent, access, refresh, client_id, resource, scope, now);
            let times = stored_time(now, 0) is Some && stored_time(now, 3600) is Some
                && stored_time(now, 2_592_000) is Some;
            &&& made is Ok <==> times
            &&& made is Err ==> made == Err::<NewTokens, Refusal>(
                Refusal {
                    status: 500,
                    code: "server_error"@,
                    description: TIME_OUT_OF_RANGE@,
                },
            )
            &&& made matches Ok(new) ==> {
                &&& new.spent == spent
                &&& new.access.token_hash == hash_of(access)
                &&& new.refresh.token_hash == hash_of(refresh)
                &&& Some(new.access.expires_at) == stored_time(now, 3600)
                &&& Some(new.refresh.expires_at) == stored_time(now, 2_592_000)
                &&& Some(new.created_at) == stored_time(now, 0)
                &&& new.access.client_id == client_id && new.refresh.client_id == client_id
                &&& new.access.resource == resource && new.refresh.resource == resource
                &&& new.access.scope == scope && new.refresh.scope == scope
                &&& new.access.revoked == 0 && new.refresh.revoked == 0
                &&& new.response matches Value::Object(m) && {
                    &&& m.contains(("access_token"@, Value::Str(access)))
                    &&& m.contains(("refresh_token"@, Value::Str(refresh)))
                    &&& m.contains(("token_type"@, Value::Str("Bearer"@)))
                    &&& m.contains(("expires_in"@, Value::Number("3600"@)))
                    &&& m.contains(("scope"@, Value::Str(scope)))
                }
            }
        }),
{
    if let Ok(new) = new_tokens(spent, access, refresh, client_id, resource, scope, now) {
        let m = new.response->Object_0;
        assert(m[0].0 == "access_token"@ && m[1].0 == "token_type"@ && m[2].0 == "expires_in"@
            && m[3].0 == "refresh_token"@ && m[4].0 == "scope"@);
    }
}

/// The exchange spends what was exchanged, and hands out tokens for what was granted.
pub proof fn lemma_an_exchange_is_for_the_grant(
    code: Option<Code>,
    token: Option<Token>,
    form: TokenForm,
    access: Seq<char>,
    refresh: Seq<char>,
    now: Timestamp,
)
    ensures
        code_problem(code, form, now) matches Some(p) ==> code_exchanged(
            code,
            form,
            access,
            refresh,
            now,
        ) == Err::<NewTokens, Refusal>(p),
        code_problem(code, form, now) is None ==> code_exchanged(code, form, access, refresh, now)
            == new_tokens(
            hash_of(form.code@),
            access,
            refresh,
            code->0.client_id,
            code->0.resource,
            code->0.scope,
            now,
        ),
        refresh_problem(token, form, now) matches Some(p) ==> refresh_exchanged(
            token,
            form,
            access,
            refresh,
            now,
        ) == Err::<NewTokens, Refusal>(p),
        refresh_problem(token, form, now) is None ==> refresh_exchanged(
            token,
            form,
            access,
            refresh,
            now,
        ) == new_tokens(
            hash_of(form.refresh_token@),
            access,
            refresh,
            token->0.client_id,
            token->0.resource,
            token->0.scope,
            now,
        ),
{
}

/// When an access token is accepted: it is not revoked, it is for the very resource that is
/// asked for, and it has not expired.
pub proof fn lemma_when_a_token_is_accepted(token: Token, resource: Seq<char>, now: Timestamp)
    ensures
        is_accepted(token, resource, now) <==> token.revoked == 0 && token.resource == resource
            && in_future(token.expires_at, now),
{
}

/// When a client has authenticated itself. One that registered without a secret needs none. Any
/// other one has to supply a secret that is not empty and has the hash that is stored; so a
/// client without a stored hash never succeeds. One that is not known is refused.
pub proof fn lemma_when_a_client_is_authenticated(c: Client, reason: Seq<char>, supplied: Seq<char>)
    ensures
        authentication_problem(Err(reason), supplied) == Some(
            Refusal { status: 401, code: "invalid_client"@, description: reason },
        ),
        c.auth_method == "none"@ ==> authentication_problem(Ok(c), supplied) is None,
        c.auth_method != "none"@ ==> (authentication_problem(Ok(c), supplied) is None
            <==> supplied.len() > 0 && c.secret_hash == Some(hash_of(supplied))),
        authentication_problem(Ok(c), supplied) matches Some(p) ==> p == (Refusal {
            status: 401,
            code: "invalid_client"@,
            description: "client authentication failed"@,
        }),
{
}

/// The two grants, and no other.
pub proof fn lemma_grants(grant_type: Seq<char>)
    ensures
        named_grant("authorization_code"@) == Ok::<Grant, Refusal>(Grant::Code),
        named_grant("refresh_token"@) == Ok::<Grant, Refusal>(Grant::Refresh),
        grant_type != "authorization_code"@ && grant_type != "refresh_token"@ ==> named_grant(
            grant_type,
        ) == Err::<Grant, Refusal>(
            Refusal {
                status: 400,
                code: "unsupported_grant_type"@,
                description: "unsupported grant_type"@,
            },
        ),
{
    reveal_strlit("authorization_code");
    reveal_strlit("refresh_token");
    assert("authorization_code"@.len() == 18 && "refresh_token"@.len() == 13);
}

/// Basic credentials: what stands before the first colon is the identifier, and everything
/// behind it, further colons too, is the secret. Without a colon, with bytes that are no text and
/// with another kind of header there are none.
pub proof fn lemma_basic_credentials(
    bytes: Seq<u8>,
    id: Seq<char>,
    secret: Seq<char>,
    encoded: Seq<char>,
    other: Seq<char>,
)
    requires
        !id.contains(':'),
    ensures
        valid_utf8(bytes) && decode_utf8(bytes) == id + seq![':'] + secret && base64_bytes(encoded)
            == Some(bytes) ==> basic_credentials(Some("Basic "@ + encoded)) == Some((id, secret)),
        valid_utf8(bytes) && decode_utf8(bytes) == id && base64_bytes(encoded) == Some(bytes)
            ==> basic_credentials(Some("Basic "@ + encoded)) is None,
        !valid_utf8(bytes) && base64_bytes(encoded) == Some(bytes) ==> basic_credentials(
            Some("Basic "@ + encoded),
        ) is None,
        base64_bytes(encoded) is None ==> basic_credentials(Some("Basic "@ + encoded)) is None,
        !crate::text::begins_with(other, "Basic "@) ==> basic_credentials(Some(other)) is None,
        basic_credentials(None) is None,
{
    let s = id + seq![':'] + secret;
    let n = id.len() as int;
    assert forall|j: int| 0 <= j < n implies s[j] != ':' by {
        assert(s[j] == id[j]);
    }
    lemma_at_colon(s, n);
    assert(s.take(n) =~= id);
    assert(s.skip(n + 1) =~= secret);
    assert forall|j: int| 0 <= j < n implies id[j] != ':' by {}
    lemma_at_colon(id, n);
    let header = "Basic "@ + encoded;
    assert(header.take("Basic "@.len() as int) =~= "Basic "@);
    assert(header.skip("Basic "@.len() as int) =~= encoded);
}

/// What the answer to an exchange says, and no more.
pub proof fn lemma_answer_to_an_exchange(access: Seq<char>, refresh: Seq<char>, scope: Seq<char>)
    ensures
        token_answer(access, refresh, scope) == Value::Object(
            seq![
                ("access_token"@, Value::Str(access)),
                ("token_type"@, Value::Str("Bearer"@)),
                ("expires_in"@, Value::Number("3600"@)),
                ("refresh_token"@, Value::Str(refresh)),
                ("scope"@, Value::Str(scope)),
            ],
        ),
{
}

/// When tokens can be issued: where it is known that the time now, an hour from now and thirty
/// days from now can be written. They expire at these times.
pub proof fn lemma_when_tokens_can_be_issued(now: Timestamp, x: Exchange)
    ensures
        can_issue(now) <==> is_writable_time(now, 0) && is_writable_time(now, 3600)
            && is_writable_time(now, 2_592_000),
        expire_in_time(Ok(x), now) <==> expires_after(x.access.expires_at@, now, 3600)
            && expires_after(x.refresh.expires_at@, now, 2_592_000),
{
}

/// What is stored of tokens, field by field.
pub proof fn lemma_what_stored_tokens_hold(
    a: AccessRow,
    r: RefreshRow,
    c: CodeRow,
    x: Exchange,
    e: OAuthError,
    p: String,
    q: String,
)
    ensures
        a@.token_hash == a.token_hash@ && r@.token_hash == r.token_hash@,
        a@.client_id == a.client_id@ && r@.client_id == r.client_id@,
        a@.resource == a.resource@ && r@.resource == r.resource@,
        a@.scope == a.scope@ && r@.scope == r.scope@,
        a@.expires_at == a.expires_at@ && r@.expires_at == r.expires_at@,
        a@.revoked == a.revoked && r@.revoked == r.revoked,
        x@.spent == x.spent@,
        x@.access == x.access@,
        x@.refresh == x.refresh@,
        x@.created_at == x.access.created_at@,
        x@.response == x.response@,
        exchange_result(Ok(x)) == Ok::<NewTokens, Refusal>(x@),
        exchange_result(Err(e)) == Err::<NewTokens, Refusal>(e@),
        grant_view(Ok(Grant::Code)) == Ok::<Grant, Refusal>(Grant::Code),
        grant_view(Ok(Grant::Refresh)) == Ok::<Grant, Refusal>(Grant::Refresh),
        grant_view(Err(e)) == Err::<Grant, Refusal>(e@),
        code_view(Some(c)) == Some(c@),
        code_view(None) is None,
        refresh_view(Some(r)) == Some(r@),
        refresh_view(None) is None,
        pair_view(Some((p, q))) == Some((p@, q@)),
        pair_view(None) is None,
{
}

} // verus!
