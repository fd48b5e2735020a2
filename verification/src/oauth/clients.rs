//! Clients: where they may redirect to, how they register and how they are looked up.

use vstd::prelude::*;

use crate::json::members_of;
use crate::json::object;
use crate::json::push_member;
use crate::json::text;
use crate::json::text_array;
use crate::json::text_items;
use crate::json::Json;
use crate::json::Value;
use crate::oauth::secrets::hash;
use crate::oauth::secrets::hash_of;
use crate::oauth::secrets::internal_oauth;
use crate::oauth::secrets::is_token;
use crate::oauth::secrets::is_writable_time;
use crate::oauth::secrets::oauth_error;
use crate::oauth::secrets::random_token;
use crate::oauth::secrets::server_error;
use crate::oauth::secrets::stored_time;
use crate::oauth::secrets::time_after;
use crate::oauth::secrets::OAuthError;
use crate::oauth::secrets::Refusal;
use crate::oauth::secrets::BAD_REQUEST;
use crate::oauth::secrets::TIME_OUT_OF_RANGE;
use crate::outside::hex_text;
use crate::outside::json_list;
use crate::outside::json_list_text;
use crate::outside::parse_json_list;
use crate::outside::parse_url;
use crate::outside::parsed_url;
use crate::outside::reads_as;
use crate::outside::simple_uuid;
use crate::outside::write_json_list;
use crate::outside::Address;
use crate::outside::UrlParts;
use crate::startup::url_result;
use crate::text::after_prefix;
use crate::text::begins_with;
use crate::text::concat;
use crate::text::ends_with;
use crate::text::finishes_with;
use crate::text::is_space;
use crate::text::lowered;
use crate::text::lowered_char;
use crate::text::same_text;
use crate::text::strip_prefix;
use crate::text::texts;
use crate::text::to_ascii_lowercase;
use crate::text::trim;
use crate::text::trim_end_char;
use crate::text::trimmed;
use crate::text::trimmed_end;
use crate::text::trimmed_start;
use crate::text::without_trailing;
use crate::text::words1;
use crate::text::words2;
use crate::time::Timestamp;

verus! {

// ---------------------------------------------------------------------------------------
// Redirects

/// Where clients may redirect to.
#[derive(Debug)]
pub struct RedirectPolicy {
    pub production: bool,
    /// The allowed hosts. `*.` at the start stands for any subdomain. Without any, every host
    /// is allowed, but none in production.
    pub allowed_hosts: Vec<String>,
}

/// A host name without dots at its end and in lower case.
pub open spec fn bare_host(host: Seq<char>) -> Seq<char> {
    lowered(without_trailing(host, '.'))
}

/// Whether a host is one that the pattern allows.
pub open spec fn host_matches(host: Seq<char>, pattern: Seq<char>) -> bool {
    let p = bare_host(trimmed(pattern));
    match after_prefix(p, "*."@) {
        Some(suffix) => bare_host(host) != suffix && finishes_with(bare_host(host), "."@ + suffix),
        None => bare_host(host) == p,
    }
}

/// Whether one of the patterns allows the host.
pub open spec fn some_pattern_matches(patterns: Seq<Seq<char>>, host: Seq<char>) -> bool {
    exists|i: int| 0 <= i < patterns.len() && host_matches(host, #[trigger] patterns[i])
}

/// Whether clients may redirect to the host.
pub open spec fn is_host_allowed(policy: RedirectPolicy, host: Seq<char>) -> bool {
    if policy.allowed_hosts@.len() == 0 {
        !policy.production
    } else {
        some_pattern_matches(texts(policy.allowed_hosts@), host)
    }
}

/// A host name without dots at its end and in lower case.
fn bare(host: &str) -> (r: String)
    ensures
        r@ == bare_host(host@),
{
    let h = trim_end_char(host, '.');
    to_ascii_lowercase(h.as_str())
}

/// Whether a host is one that the pattern allows.
fn matches_pattern(host: &str, pattern: &str) -> (r: bool)
    ensures
        r == host_matches(host@, pattern@),
{
    let host = bare(host);
    let pattern = trim(pattern);
    let pattern = bare(pattern.as_str());
    match strip_prefix(pattern.as_str(), "*.") {
        Some(suffix) => {
            let tail = concat(".", suffix.as_str());
            !same_text(host.as_str(), suffix.as_str()) && ends_with(host.as_str(), tail.as_str())
        },
        None => same_text(host.as_str(), pattern.as_str()),
    }
}

/// Whether clients may redirect to the host.
pub fn host_allowed(policy: &RedirectPolicy, host: &str) -> (r: bool)
    ensures
        r == is_host_allowed(*policy, host@),
{
    let patterns = &policy.allowed_hosts;
    if patterns.len() == 0 {
        return !policy.production;
    }
    let mut i: usize = 0;
    while i < patterns.len()
        invariant
            i <= patterns@.len(),
            patterns == policy.allowed_hosts,
            forall|j: int| 0 <= j < i ==> !host_matches(host@, #[trigger] texts(patterns@)[j]),
        decreases patterns@.len() - i,
    {
        assert(texts(patterns@)[i as int] == patterns@[i as int]@);
        if matches_pattern(host, patterns[i].as_str()) {
            return true;
        }
        i += 1;
    }
    false
}

/// Whether clients may redirect to an address, given what it was parsed to.
pub open spec fn is_redirect_allowed(
    policy: RedirectPolicy,
    parsed: Result<Address, Seq<char>>,
) -> bool {
    match parsed {
        Err(_) => false,
        Ok(a) => {
            &&& a.username.len() == 0
            &&& !a.has_password
            &&& !a.has_fragment
            &&& a.host matches Some(host)
            &&& if a.scheme == "https"@ {
                is_host_allowed(policy, host)
            } else {
                &&& a.scheme == "http"@
                &&& !policy.production
                &&& host == "127.0.0.1"@ || host == "localhost"@ || host == "::1"@
                &&& policy.allowed_hosts@.len() == 0 || is_host_allowed(policy, host)
            }
        },
    }
}

/// Whether clients may redirect to an address, given what it was parsed to.
pub fn redirect_allowed(policy: &RedirectPolicy, parsed: &Result<UrlParts, String>) -> (r: bool)
    ensures
        r == is_redirect_allowed(*policy, url_result(*parsed)),
{
    let url = match parsed {
        Ok(url) => url,
        Err(_) => {
            return false;
        },
    };
    if !url.username.as_str().is_empty() || url.has_password || url.has_fragment {
        return false;
    }
    let host = match &url.host {
        Some(host) => host.as_str(),
        None => {
            return false;
        },
    };
    if same_text(url.scheme.as_str(), "https") {
        return host_allowed(policy, host);
    }
    if !same_text(url.scheme.as_str(), "http") || policy.production {
        return false;
    }
    let local = same_text(host, "127.0.0.1") || same_text(host, "localhost") || same_text(
        host,
        "::1",
    );
    local && (policy.allowed_hosts.len() == 0 || host_allowed(policy, host))
}

/// Whether clients may redirect to an address.
pub fn valid_redirect_uri(policy: &RedirectPolicy, raw: &str) -> (r: bool)
    ensures
        r == is_redirect_allowed(*policy, parsed_url(raw@)),
{
    let parsed = parse_url(raw);
    redirect_allowed(policy, &parsed)
}

/// In production, clients redirect by HTTPS only, and only to hosts that are listed.
pub proof fn lemma_production_redirects(policy: RedirectPolicy, parsed: Result<Address, Seq<char>>)
    requires
        policy.production,
        is_redirect_allowed(policy, parsed),
    ensures
        parsed is Ok,
        parsed->Ok_0.scheme == "https"@,
        parsed->Ok_0.host is Some,
        some_pattern_matches(texts(policy.allowed_hosts@), parsed->Ok_0.host->0),
{
    assert("http"@ != "https"@) by {
        reveal_strlit("http");
        reveal_strlit("https");
        assert("http"@.len() != "https"@.len());
    }
}

// ---------------------------------------------------------------------------------------
// Registration

/// What a client registers with.
#[derive(Debug)]
pub struct ClientRegistration {
    pub redirect_uris: Vec<String>,
    pub client_name: Option<String>,
    pub token_endpoint_auth_method: String,
}

/// How clients authenticate that do not say how.
pub fn default_auth_method() -> (r: String)
    ensures
        r@ == "none"@,
{
    "none".to_owned()
}

/// What is stored of a client.
#[derive(Debug)]
pub struct ClientRow {
    pub client_id: String,
    pub client_secret_hash: Option<String>,
    pub redirect_uris: String,
    pub token_endpoint_auth_method: String,
    pub client_name: Option<String>,
    pub created_at: String,
}

/// What is stored of a client, as a mathematical value.
pub struct ClientRecord {
    pub client_id: Seq<char>,
    pub client_secret_hash: Option<Seq<char>>,
    pub redirect_uris: Seq<char>,
    pub token_endpoint_auth_method: Seq<char>,
    pub client_name: Option<Seq<char>>,
    pub created_at: Seq<char>,
}

impl View for ClientRow {
    type V = ClientRecord;

    open spec fn view(&self) -> ClientRecord {
        ClientRecord {
            client_id: self.client_id@,
            client_secret_hash: self.client_secret_hash.deep_view(),
            redirect_uris: self.redirect_uris@,
            token_endpoint_auth_method: self.token_endpoint_auth_method@,
            client_name: self.client_name.deep_view(),
            created_at: self.created_at@,
        }
    }
}

/// Whether clients may redirect to every one of the addresses.
pub open spec fn all_redirects_allowed(policy: RedirectPolicy, uris: Seq<Seq<char>>) -> bool {
    forall|i: int|
        0 <= i < uris.len() ==> is_redirect_allowed(policy, parsed_url(#[trigger] uris[i]))
}

/// Whether clients may authenticate in that way.
pub open spec fn is_auth_method(method: Seq<char>) -> bool {
    method == "none"@ || method == "client_secret_post"@ || method == "client_secret_basic"@
}

/// The error for a registration that is not accepted.
pub open spec fn bad_metadata(reason: Seq<char>) -> Refusal {
    Refusal { status: BAD_REQUEST, code: "invalid_client_metadata"@, description: reason }
}

/// What is wrong with a registration, if anything is.
pub open spec fn registration_problem(policy: RedirectPolicy, input: ClientRegistration) -> Option<
    Refusal,
> {
    if input.redirect_uris@.len() == 0 || !all_redirects_allowed(
        policy,
        texts(input.redirect_uris@),
    ) {
        Some(bad_metadata("invalid redirect_uris"@))
    } else if !is_auth_method(input.token_endpoint_auth_method@) {
        Some(bad_metadata("unsupported token_endpoint_auth_method"@))
    } else {
        None
    }
}

/// Says what is wrong with a registration.
pub fn check_registration(policy: &RedirectPolicy, input: &ClientRegistration) -> (r: Result<
    (),
    OAuthError,
>)
    ensures
        match registration_problem(*policy, *input) {
            None => r is Ok,
            Some(p) => r matches Err(e) && e@ == p,
        },
{
    let uris = &input.redirect_uris;
    if uris.len() == 0 {
        return Err(
            oauth_error(BAD_REQUEST, "invalid_client_metadata", "invalid redirect_uris"),
        );
    }
    let mut i: usize = 0;
    while i < uris.len()
        invariant
            i <= uris@.len(),
            uris == input.redirect_uris,
            forall|j: int|
                0 <= j < i ==> is_redirect_allowed(
                    *policy,
                    parsed_url(#[trigger] texts(uris@)[j]),
                ),
        decreases uris@.len() - i,
    {
        assert(texts(uris@)[i as int] == uris@[i as int]@);
        if !valid_redirect_uri(policy, uris[i].as_str()) {
            return Err(
                oauth_error(BAD_REQUEST, "invalid_client_metadata", "invalid redirect_uris"),
            );
        }
        i += 1;
    }
    let method = input.token_endpoint_auth_method.as_str();
    if !same_text(method, "none") && !same_text(method, "client_secret_post") && !same_text(
        method,
        "client_secret_basic",
    ) {
        return Err(
            oauth_error(
                BAD_REQUEST,
                "invalid_client_metadata",
                "unsupported token_endpoint_auth_method",
            ),
        );
    }
    Ok(())
}

/// A text or nothing, in JSON.
pub open spec fn text_or_null(t: Option<Seq<char>>) -> Value {
    match t {
        Some(s) => Value::Str(s),
        None => Value::Null,
    }
}

/// The answer to a registration.
pub open spec fn registration_answer(
    input: ClientRegistration,
    client_id: Seq<char>,
    secret: Option<Seq<char>>,
) -> Value {
    let base = seq![
        ("client_id"@, Value::Str(client_id)),
        ("redirect_uris"@, text_items(texts(input.redirect_uris@))),
        ("client_name"@, text_or_null(input.client_name.deep_view())),
        ("token_endpoint_auth_method"@, Value::Str(input.token_endpoint_auth_method@)),
        ("grant_types"@, text_items(seq!["authorization_code"@, "refresh_token"@])),
        ("response_types"@, text_items(seq!["code"@])),
    ];
    match secret {
        Some(s) => Value::Object(
            base.push(("client_secret"@, Value::Str(s))).push(
                ("client_secret_expires_at"@, Value::Number("0"@)),
            ),
        ),
        None => Value::Object(base),
    }
}

/// The hash of a secret, where there is one.
pub open spec fn secret_hash_of(secret: Option<Seq<char>>) -> Option<Seq<char>> {
    match secret {
        Some(s) => Some(hash_of(s)),
        None => None,
    }
}

/// What comes of a registration that is accepted: what is stored and what is answered.
pub open spec fn registered(
    input: ClientRegistration,
    client_id: Seq<char>,
    secret: Option<Seq<char>>,
    now: Timestamp,
) -> Result<(ClientRecord, Value), Refusal> {
    match stored_time(now, 0) {
        None => Err(server_error(TIME_OUT_OF_RANGE@)),
        Some(created_at) => Ok(
            (
                ClientRecord {
                    client_id,
                    client_secret_hash: secret_hash_of(secret),
                    redirect_uris: json_list_text(texts(input.redirect_uris@)),
                    token_endpoint_auth_method: input.token_endpoint_auth_method@,
                    client_name: input.client_name.deep_view(),
                    created_at,
                },
                registration_answer(input, client_id, secret),
            ),
        ),
    }
}

/// A registration's outcome as mathematical values.
pub open spec fn registration_result(r: Result<(ClientRow, Json), OAuthError>) -> Result<
    (ClientRecord, Value),
    Refusal,
> {
    match r {
        Ok((row, answer)) => Ok((row@, answer@)),
        Err(e) => Err(e@),
    }
}

/// The answer to a registration.
fn answer_registration(input: &ClientRegistration, client_id: &str, secret: &Option<String>) -> (r:
    Json)
    ensures
        r@ == registration_answer(*input, client_id@, secret.deep_view()),
{
    let mut members: Vec<(String, Json)> = Vec::new();
    push_member(&mut members, "client_id", text(client_id));
    push_member(&mut members, "redirect_uris", text_array(&input.redirect_uris));
    let name = match &input.client_name {
        Some(name) => text(name.as_str()),
        None => Json::Null,
    };
    push_member(&mut members, "client_name", name);
    push_member(
        &mut members,
        "token_endpoint_auth_method",
        text(input.token_endpoint_auth_method.as_str()),
    );
    push_member(
        &mut members,
        "grant_types",
        text_array(&words2("authorization_code", "refresh_token")),
    );
    push_member(&mut members, "response_types", text_array(&words1("code")));
    if let Some(secret) = secret {
        push_member(&mut members, "client_secret", text(secret.as_str()));
        push_member(&mut members, "client_secret_expires_at", Json::Number("0".to_owned()));
    }
    assert(members_of(members@) =~= registration_answer(
        *input,
        client_id@,
        secret.deep_view(),
    )->Object_0);
    object(members)
}

/// Carries out a registration that is accepted, under the given identifier and with the given
/// secret. The stored list of redirect addresses reads back as it was given.
pub fn complete_registration(
    input: &ClientRegistration,
    client_id: String,
    secret: Option<String>,
    now: &Timestamp,
) -> (r: Result<(ClientRow, Json), OAuthError>)
    ensures
        registration_result(r) == registered(*input, client_id@, secret.deep_view(), *now),
        r matches Ok((row, _)) ==> reads_as(row.redirect_uris@, texts(input.redirect_uris@)),
        r is Ok <==> is_writable_time(*now, 0),
{
    let redirect_uris = write_json_list(&input.redirect_uris).unwrap();
    let created_at = match time_after(now, 0) {
        Some(t) => t,
        None => {
            return Err(internal_oauth(TIME_OUT_OF_RANGE));
        },
    };
    let answer = answer_registration(input, client_id.as_str(), &secret);
    let client_secret_hash = match &secret {
        Some(s) => Some(hash(s.as_str())),
        None => None,
    };
    let client_name = match &input.client_name {
        Some(name) => Some(name.clone()),
        None => None,
    };
    let row = ClientRow {
        client_id,
        client_secret_hash,
        redirect_uris,
        token_endpoint_auth_method: input.token_endpoint_auth_method.clone(),
        client_name,
        created_at,
    };
    Ok((row, answer))
}

/// Whether a client with the given way to authenticate gets that secret: one that
/// authenticates gets a fresh token, another one gets none.
pub open spec fn is_fresh_secret(secret: Option<Seq<char>>, method: Seq<char>) -> bool {
    match secret {
        Some(s) => method != "none"@ && is_token(s, "pcs"@),
        None => method == "none"@,
    }
}

/// Registers a client under a random identifier.
pub fn register_client(policy: &RedirectPolicy, input: &ClientRegistration, now: &Timestamp) -> (r:
    Result<(ClientRow, Json), OAuthError>)
    ensures
        match registration_problem(*policy, *input) {
            Some(p) => r matches Err(e) && e@ == p,
            None => exists|id: Seq<char>, secret: Option<Seq<char>>|
                {
                    &&& hex_text(id, 32)
                    &&& is_fresh_secret(secret, input.token_endpoint_auth_method@)
                    &&& registration_result(r) == #[trigger] registered(
                        *input,
                        "pcc_"@ + id,
                        secret,
                        *now,
                    )
                },
        },
        r matches Ok((row, _)) ==> reads_as(row.redirect_uris@, texts(input.redirect_uris@)),
        r is Ok <==> registration_problem(*policy, *input) is None && is_writable_time(*now, 0),
{
    match check_registration(policy, input) {
        Ok(()) => {},
        Err(e) => {
            return Err(e);
        },
    }
    let id = simple_uuid();
    let client_id = concat("pcc_", id.as_str());
    let secret = if same_text(input.token_endpoint_auth_method.as_str(), "none") {
        None
    } else {
        Some(random_token("pcs"))
    };
    let ghost shown = secret.deep_view();
    let r = complete_registration(input, client_id, secret, now);
    assert(registration_result(r) == registered(*input, "pcc_"@ + id@, shown, *now));
    r
}

// ---------------------------------------------------------------------------------------
// Lookup

/// What a lookup of a client finds in the store: the value in each column, or why it cannot be
/// read.
#[derive(Debug)]
pub struct StoredClient {
    pub redirect_uris: Result<String, String>,
    pub token_endpoint_auth_method: Result<String, String>,
    pub client_secret_hash: Result<Option<String>, String>,
}

/// A client that has registered.
#[derive(Debug)]
pub struct ResolvedClient {
    pub redirect_uris: Vec<String>,
    pub auth_method: String,
    pub secret_hash: Option<String>,
}

/// A client that has registered, as a mathematical value.
pub struct Client {
    pub redirect_uris: Seq<Seq<char>>,
    pub auth_method: Seq<char>,
    pub secret_hash: Option<Seq<char>>,
}

impl View for ResolvedClient {
    type V = Client;

    open spec fn view(&self) -> Client {
        Client {
            redirect_uris: texts(self.redirect_uris@),
            auth_method: self.auth_method@,
            secret_hash: self.secret_hash.deep_view(),
        }
    }
}

/// The client that stands in the store, or why it cannot be read.
pub open spec fn client_in(row: StoredClient) -> Result<Client, Seq<char>> {
    match row.redirect_uris {
        Err(e) => Err("read redirect_uris: "@ + e@),
        Ok(raw) => match json_list(raw@) {
            Err(e) => Err("parse redirect_uris: "@ + e),
            Ok(redirect_uris) => match row.token_endpoint_auth_method {
                Err(e) => Err("read auth method: "@ + e@),
                Ok(auth_method) => match row.client_secret_hash {
                    Err(e) => Err("read client secret: "@ + e@),
                    Ok(secret_hash) => Ok(
                        Client {
                            redirect_uris,
                            auth_method: auth_method@,
                            secret_hash: secret_hash.deep_view(),
                        },
                    ),
                },
            },
        },
    }
}

/// The client that was looked up, or why there is none.
pub open spec fn resolved_client(lookup: Result<Option<StoredClient>, String>) -> Result<
    Client,
    Seq<char>,
> {
    match lookup {
        Err(e) => Err("read OAuth client: "@ + e@),
        Ok(None) => Err("unknown client"@),
        Ok(Some(row)) => client_in(row),
    }
}

/// The client that was looked up, or why there is none.
pub fn resolve_client(lookup: Result<Option<StoredClient>, String>) -> (r: Result<
    ResolvedClient,
    String,
>)
    ensures
        match resolved_client(lookup) {
            Ok(c) => r matches Ok(client) && client@ == c,
            Err(m) => r matches Err(e) && e@ == m,
        },
{
    let row = match lookup {
        Err(e) => {
            return Err(concat("read OAuth client: ", e.as_str()));
        },
        Ok(None) => {
            return Err("unknown client".to_owned());
        },
        Ok(Some(row)) => row,
    };
    let raw = match row.redirect_uris {
        Err(e) => {
            return Err(concat("read redirect_uris: ", e.as_str()));
        },
        Ok(raw) => raw,
    };
    let redirect_uris = match parse_json_list(raw.as_str()) {
        Err(e) => {
            return Err(concat("parse redirect_uris: ", e.as_str()));
        },
        Ok(uris) => uris,
    };
    let auth_method = match row.token_endpoint_auth_method {
        Err(e) => {
            return Err(concat("read auth method: ", e.as_str()));
        },
        Ok(method) => method,
    };
    match row.client_secret_hash {
        Err(e) => Err(concat("read client secret: ", e.as_str())),
        Ok(secret_hash) => Ok(ResolvedClient { redirect_uris, auth_method, secret_hash }),
    }
}

/// A client that has registered is found with the redirect addresses, the way to authenticate
/// and the secret that it registered with.
pub proof fn lemma_registered_client_is_found(
    input: ClientRegistration,
    row: ClientRow,
    client_id: Seq<char>,
    secret: Option<Seq<char>>,
    now: Timestamp,
    stored: StoredClient,
)
    requires
        stored.redirect_uris == Ok::<String, String>(row.redirect_uris),
        stored.token_endpoint_auth_method == Ok::<String, String>(row.token_endpoint_auth_method),
        stored.client_secret_hash == Ok::<Option<String>, String>(row.client_secret_hash),
    ensures
        registered(input, client_id, secret, now) is Ok && registered(
            input,
            client_id,
            secret,
            now,
        )->Ok_0.0 == row@ && reads_as(row.redirect_uris@, texts(input.redirect_uris@))
            ==> resolved_client(Ok(Some(stored))) == Ok::<Client, Seq<char>>(
            Client {
                redirect_uris: texts(input.redirect_uris@),
                auth_method: input.token_endpoint_auth_method@,
                secret_hash: secret_hash_of(secret),
            },
        ),
{
}

/// Whether a host is written plainly: in lower case, without a dot at its end and without white
/// space at either end.
pub open spec fn is_plain_host(host: Seq<char>) -> bool {
    &&& host.len() > 0
    &&& lowered(host) == host
    &&& host.last() != '.'
    &&& trimmed(host) == host
}

/// A host pattern that is plain and has no wildcard is for that host alone. One with a wildcard
/// is for all hosts that end with a dot and the rest of it, and not for the rest itself.
pub proof fn lemma_host_patterns(host: Seq<char>, pattern: Seq<char>, name: Seq<char>)
    requires
        is_plain_host(host),
        is_plain_host(pattern),
    ensures
        !begins_with(pattern, "*."@) ==> (host_matches(host, pattern) <==> host == pattern),
        pattern == "*."@ + name ==> (host_matches(host, pattern) <==> finishes_with(
            host,
            "."@ + name,
        )),
        pattern == "*."@ + name ==> !host_matches(name, pattern),
        name.len() > 0 && host == name + "."@ + pattern && is_plain_host("*."@ + pattern)
            ==> host_matches(host, "*."@ + pattern),
{
    lemma_bare_plain(host);
    lemma_bare_plain(pattern);
    reveal_strlit("*.");
    reveal_strlit(".");
    if pattern == "*."@ + name {
        assert(pattern.take(2) =~= "*."@);
        assert(pattern.skip(2) =~= name);
        if finishes_with(host, "."@ + name) {
            assert(host.len() > name.len());
        }
        assert(bare_host(name) == name) by {
            if name.len() > 0 {
                assert(name.last() == pattern.last());
                assert(lowered(name) =~= name) by {
                    assert forall|i: int| 0 <= i < name.len() implies lowered(name)[i] == name[i] by {
                        assert(lowered(pattern)[i + 2] == pattern[i + 2]);
                    }
                }
            } else {
                assert(lowered(name) =~= name);
            }
        }
    }
    if name.len() > 0 && host == name + "."@ + pattern && is_plain_host("*."@ + pattern) {
        let wild = "*."@ + pattern;
        lemma_bare_plain(wild);
        assert(wild.take(2) =~= "*."@);
        assert(wild.skip(2) =~= pattern);
        assert(host.skip(host.len() - ("."@ + pattern).len()) =~= "."@ + pattern);
    }
}

proof fn lemma_bare_plain(host: Seq<char>)
    requires
        host.len() > 0,
        lowered(host) == host,
        host.last() != '.',
    ensures
        bare_host(host) == host,
{
}

/// How a host and a pattern are written makes no difference: neither the case of their letters,
/// nor a dot behind either of them, nor white space around the pattern.
pub proof fn lemma_how_hosts_are_written(host: Seq<char>, pattern: Seq<char>, space: char)
    ensures
        host_matches(host.push('.'), pattern) == host_matches(host, pattern),
        host_matches(lowered(host), pattern) == host_matches(host, pattern),
        is_space(space) ==> {
            &&& host_matches(host, seq![space] + pattern) == host_matches(host, pattern)
            &&& host_matches(host, pattern.push(space)) == host_matches(host, pattern)
        },
        host_matches(host, lowered(pattern)) == host_matches(host, pattern),
        pattern.len() > 0 && !is_space(pattern[0]) && !is_space(pattern.last()) ==> host_matches(
            host,
            pattern.push('.'),
        ) == host_matches(host, pattern),
{
    assert(host.push('.').drop_last() =~= host);
    assert(bare_host(host.push('.')) == bare_host(host));
    lemma_bare_lowered(host);
    if is_space(space) {
        let blank = seq![space];
        crate::text::lemma_trimmed_start(blank, pattern);
        assert(trimmed(blank + pattern) == trimmed(pattern));
        lemma_trimmed_blank_behind(pattern, space);
    }
    if pattern.len() > 0 && !is_space(pattern[0]) && !is_space(pattern.last()) {
        let dotted = pattern.push('.');
        assert(dotted[0] == pattern[0]);
        assert(trimmed(dotted) == dotted && trimmed(pattern) == pattern);
        assert(dotted.drop_last() =~= pattern);
        assert(bare_host(dotted) == bare_host(pattern));
    }
    lemma_trimmed_lowered(pattern);
    lemma_bare_lowered(trimmed(pattern));
}

proof fn lemma_bare_lowered(s: Seq<char>)
    ensures
        bare_host(lowered(s)) == bare_host(s),
    decreases s.len(),
{
    if s.len() > 0 && s.last() == '.' {
        lemma_bare_lowered(s.drop_last());
        assert(lowered(s).drop_last() =~= lowered(s.drop_last()));
        assert(lowered(s).last() == '.');
    } else {
        if s.len() > 0 {
            assert(lowered(s).last() == lowered_char(s.last()));
            assert(lowered_char(s.last()) != '.');
        }
        assert(lowered(lowered(s)) =~= lowered(s));
    }
}

proof fn lemma_trimmed_blank_behind(s: Seq<char>, space: char)
    requires
        is_space(space),
    ensures
        trimmed(s.push(space)) == trimmed(s),
    decreases s.len(),
{
    let t = s.push(space);
    if s.len() == 0 {
        reveal_with_fuel(trimmed_start, 2);
        assert(t.drop_first() =~= Seq::<char>::empty());
        assert(trimmed_start(t) =~= Seq::<char>::empty());
        assert(trimmed_start(s) =~= Seq::<char>::empty());
    } else if is_space(s[0]) {
        assert(t.drop_first() =~= s.drop_first().push(space));
        lemma_trimmed_blank_behind(s.drop_first(), space);
    } else {
        assert(t.drop_last() =~= s);
    }
}

proof fn lemma_trimmed_lowered(s: Seq<char>)
    ensures
        trimmed(lowered(s)) == lowered(trimmed(s)),
{
    lemma_trimmed_start_lowered(s);
    lemma_trimmed_end_lowered(trimmed_start(s));
}

proof fn lemma_trimmed_start_lowered(s: Seq<char>)
    ensures
        trimmed_start(lowered(s)) == lowered(trimmed_start(s)),
    decreases s.len(),
{
    if s.len() > 0 {
        assert(is_space(lowered(s)[0]) == is_space(s[0]));
        if is_space(s[0]) {
            lemma_trimmed_start_lowered(s.drop_first());
            assert(lowered(s).drop_first() =~= lowered(s.drop_first()));
        }
    } else {
        assert(lowered(s) =~= s);
    }
}

proof fn lemma_trimmed_end_lowered(s: Seq<char>)
    ensures
        trimmed_end(lowered(s)) == lowered(trimmed_end(s)),
    decreases s.len(),
{
    if s.len() > 0 {
        assert(lowered(s).last() == lowered_char(s.last()));
        assert(is_space(lowered(s).last()) == is_space(s.last()));
        if is_space(s.last()) {
            lemma_trimmed_end_lowered(s.drop_last());
            assert(lowered(s).drop_last() =~= lowered(s.drop_last()));
        }
    } else {
        assert(lowered(s) =~= s);
    }
}

/// Which hosts are allowed: with a list, each host that one of its patterns is for, whichever it
/// is; without a list, every host, but none in production.
pub proof fn lemma_allowed_hosts(policy: RedirectPolicy, host: Seq<char>, i: int)
    ensures
        policy.allowed_hosts@.len() == 0 ==> (is_host_allowed(policy, host) <==> !policy.production),
        0 <= i < policy.allowed_hosts@.len() && host_matches(host, policy.allowed_hosts@[i]@)
            ==> is_host_allowed(policy, host),
        policy.allowed_hosts@.len() > 0 && is_host_allowed(policy, host) ==> exists|j: int|
            0 <= j < policy.allowed_hosts@.len() && host_matches(
                host,
                (#[trigger] policy.allowed_hosts@[j])@,
            ),
{
    let ps = texts(policy.allowed_hosts@);
    if 0 <= i < policy.allowed_hosts@.len() && host_matches(host, policy.allowed_hosts@[i]@) {
        assert(host_matches(host, ps[i]));
    }
    if policy.allowed_hosts@.len() > 0 && is_host_allowed(policy, host) {
        let j = choose|j: int| 0 <= j < ps.len() && host_matches(host, #[trigger] ps[j]);
        assert(host_matches(host, policy.allowed_hosts@[j]@));
    }
}

/// Which addresses may be redirected to. None that cannot be read, names a user or a password,
/// has a fragment or has no host. With HTTPS every address with an allowed host. With HTTP only
/// this very machine, outside of production and where the list, if there is one, allows it. With
/// another scheme none.
pub proof fn lemma_allowed_redirects(policy: RedirectPolicy, a: Address, reason: Seq<char>)
    ensures
        !is_redirect_allowed(policy, Err(reason)),
        a.username.len() > 0 || a.has_password || a.has_fragment || a.host is None
            ==> !is_redirect_allowed(policy, Ok(a)),
        a.scheme != "https"@ && a.scheme != "http"@ ==> !is_redirect_allowed(policy, Ok(a)),
        a.username.len() == 0 && !a.has_password && !a.has_fragment ==> (a.host matches Some(host)
            ==> {
            &&& a.scheme == "https"@ ==> (is_redirect_allowed(policy, Ok(a)) <==> is_host_allowed(
                policy,
                host,
            ))
            &&& a.scheme == "http"@ ==> (is_redirect_allowed(policy, Ok(a)) <==> !policy.production
                && (host == "127.0.0.1"@ || host == "localhost"@ || host == "::1"@) && (
            policy.allowed_hosts@.len() == 0 || is_host_allowed(policy, host)))
        }),
{
    reveal_strlit("https");
    reveal_strlit("http");
    assert("https"@.len() == 5 && "http"@.len() == 4);
}

/// When a registration is accepted: it names at least one address, all of them are allowed, and
/// it names one of the three ways to authenticate. What is answered otherwise.
pub proof fn lemma_when_a_registration_is_accepted(policy: RedirectPolicy, input: ClientRegistration)
    ensures
        ({
            let uris = input.redirect_uris@;
            let m = input.token_endpoint_auth_method@;
            let addresses = uris.len() > 0 && forall|i: int|
                0 <= i < uris.len() ==> is_redirect_allowed(
                    policy,
                    parsed_url((#[trigger] uris[i])@),
                );
            let method = m == "none"@ || m == "client_secret_post"@ || m == "client_secret_basic"@;
            let problem = registration_problem(policy, input);
            &&& problem is None <==> addresses && method
            &&& !addresses ==> problem == Some(
                Refusal {
                    status: 400,
                    code: "invalid_client_metadata"@,
                    description: "invalid redirect_uris"@,
                },
            )
            &&& addresses && !method ==> problem == Some(
                Refusal {
                    status: 400,
                    code: "invalid_client_metadata"@,
                    description: "unsupported token_endpoint_auth_method"@,
                },
            )
        }),
{
    let uris = input.redirect_uris@;
    let ts = texts(uris);
    if all_redirects_allowed(policy, ts) {
        assert forall|i: int| 0 <= i < uris.len() implies is_redirect_allowed(
            policy,
            parsed_url((#[trigger] uris[i])@),
        ) by {
            assert(ts[i] == uris[i]@);
        }
    }
    if forall|i: int|
        0 <= i < uris.len() ==> is_redirect_allowed(policy, parsed_url((#[trigger] uris[i])@)) {
        assert forall|i: int| 0 <= i < ts.len() implies is_redirect_allowed(
            policy,
            parsed_url(#[trigger] ts[i]),
        ) by {
            assert(ts[i] == uris[i]@);
        }
    }
}

/// What a registration stores and answers: what was asked for, under the identifier that the
/// client gets. A client that authenticates gets a secret, of which only the hash is stored; one
/// that does not gets none.
pub proof fn lemma_what_is_registered(
    input: ClientRegistration,
    client_id: Seq<char>,
    secret: Option<Seq<char>>,
    now: Timestamp,
)
    ensures
        is_fresh_secret(secret, input.token_endpoint_auth_method@) ==> (secret is Some
            <==> input.token_endpoint_auth_method@ != "none"@),
        registered(input, client_id, secret, now) matches Ok((row, answer)) ==> {
            &&& row.client_id == client_id
            &&& row.token_endpoint_auth_method == input.token_endpoint_auth_method@
            &&& row.client_name == input.client_name.deep_view()
            &&& row.redirect_uris == json_list_text(texts(input.redirect_uris@))
            &&& Some(row.created_at) == stored_time(now, 0)
            &&& secret is None ==> row.client_secret_hash is None
            &&& secret matches Some(s) ==> row.client_secret_hash == Some(hash_of(s))
            &&& answer matches Value::Object(m) && {
                &&& m.contains(("client_id"@, Value::Str(client_id)))
                &&& m.contains(("redirect_uris"@, text_items(texts(input.redirect_uris@))))
                &&& m.contains(
                    ("token_endpoint_auth_method"@, Value::Str(input.token_endpoint_auth_method@)),
                )
                &&& input.client_name matches Some(name) ==> m.contains(
                    ("client_name"@, Value::Str(name@)),
                )
                &&& secret matches Some(s) ==> m.contains(("client_secret"@, Value::Str(s)))
                    && m.contains(("client_secret_expires_at"@, Value::Number("0"@)))
                &&& secret is None ==> m.len() == 6
            }
        },
{
    if let Ok((row, answer)) = registered(input, client_id, secret, now) {
        let m = answer->Object_0;
        assert(m[0] == ("client_id"@, Value::Str(client_id)));
        assert(m[1] == ("redirect_uris"@, text_items(texts(input.redirect_uris@))));
        assert(m[2].0 == "client_name"@);
        assert(m[3] == (
            "token_endpoint_auth_method"@,
            Value::Str(input.token_endpoint_auth_method@),
        ));
        if let Some(name) = input.client_name {
            assert(m[2] == ("client_name"@, Value::Str(name@)));
        }
        if let Some(s) = secret {
            assert(m[6] == ("client_secret"@, Value::Str(s)));
            assert(m[7] == ("client_secret_expires_at"@, Value::Number("0"@)));
        }
    }
}

/// What is known of a client that was looked up: its addresses, its way to authenticate and the
/// hash of its secret, as they are stored.
pub proof fn lemma_what_is_known_of_a_client(lookup: Result<Option<StoredClient>, String>)
    ensures
        lookup matches Ok(None) ==> resolved_client(lookup) == Err::<Client, Seq<char>>(
            "unknown client"@,
        ),
        lookup matches Err(e) ==> resolved_client(lookup) == Err::<Client, Seq<char>>(
            "read OAuth client: "@ + e@,
        ),
        lookup matches Ok(Some(row)) ==> {
            let known = row.redirect_uris matches Ok(raw) && json_list(raw@) is Ok
                && row.token_endpoint_auth_method is Ok && row.client_secret_hash is Ok;
            &&& resolved_client(lookup) is Ok <==> known
            &&& resolved_client(lookup) matches Ok(c) ==> {
                &&& Ok::<Seq<Seq<char>>, Seq<char>>(c.redirect_uris) == json_list(
                    row.redirect_uris->Ok_0@,
                )
                &&& c.auth_method == row.token_endpoint_auth_method->Ok_0@
                &&& c.secret_hash == row.client_secret_hash->Ok_0.deep_view()
            }
        },
{
}

/// When a registration is stored: where the time can be written. Then the answer says what was
/// registered, with the secret where there is one, which never expires.
pub proof fn lemma_answer_to_a_registration(
    input: ClientRegistration,
    client_id: Seq<char>,
    secret: Option<Seq<char>>,
    now: Timestamp,
)
    ensures
        ({
            let r = registered(input, client_id, secret, now);
            let name = match input.client_name {
                Some(name) => Value::Str(name@),
                None => Value::Null,
            };
            let members = seq![
                ("client_id"@, Value::Str(client_id)),
                ("redirect_uris"@, text_items(texts(input.redirect_uris@))),
                ("client_name"@, name),
                ("token_endpoint_auth_method"@, Value::Str(input.token_endpoint_auth_method@)),
                ("grant_types"@, text_items(seq!["authorization_code"@, "refresh_token"@])),
                ("response_types"@, text_items(seq!["code"@])),
            ];
            &&& r is Ok <==> stored_time(now, 0) is Some
            &&& r matches Err(e) ==> e == (Refusal {
                status: 500,
                code: "server_error"@,
                description: "time is out of range"@,
            })
            &&& secret is None ==> (r matches Ok((_, answer)) ==> answer == Value::Object(members))
            &&& secret matches Some(s) ==> r matches Ok((_, answer)) ==> answer == Value::Object(
                members + seq![
                    ("client_secret"@, Value::Str(s)),
                    ("client_secret_expires_at"@, Value::Number("0"@)),
                ],
            )
        }),
{
    let base = seq![
        ("client_id"@, Value::Str(client_id)),
        ("redirect_uris"@, text_items(texts(input.redirect_uris@))),
        ("client_name"@, text_or_null(input.client_name.deep_view())),
        ("token_endpoint_auth_method"@, Value::Str(input.token_endpoint_auth_method@)),
        ("grant_types"@, text_items(seq!["authorization_code"@, "refresh_token"@])),
        ("response_types"@, text_items(seq!["code"@])),
    ];
    if let Some(s) = secret {
        assert(base.push(("client_secret"@, Value::Str(s))).push(
            ("client_secret_expires_at"@, Value::Number("0"@)),
        ) =~= base + seq![
            ("client_secret"@, Value::Str(s)),
            ("client_secret_expires_at"@, Value::Number("0"@)),
        ]);
    }
}

/// Why a client cannot be read from the store: the first of its fields that cannot be is named.
pub proof fn lemma_why_a_client_cannot_be_read(row: StoredClient, reason: Seq<char>)
    ensures
        ({
            let r = resolved_client(Ok(Some(row)));
            &&& row.redirect_uris matches Err(e) ==> r == Err::<Client, Seq<char>>(
                "read redirect_uris: "@ + e@,
            )
            &&& row.redirect_uris matches Ok(raw) ==> {
                &&& json_list(raw@) == Err::<Seq<Seq<char>>, Seq<char>>(reason) ==> r == Err::<
                    Client,
                    Seq<char>,
                >("parse redirect_uris: "@ + reason)
                &&& json_list(raw@) is Ok ==> {
                    &&& row.token_endpoint_auth_method matches Err(e) ==> r == Err::<
                        Client,
                        Seq<char>,
                    >("read auth method: "@ + e@)
                    &&& row.token_endpoint_auth_method is Ok ==> (row.client_secret_hash
                        matches Err(e) ==> r == Err::<Client, Seq<char>>(
                        "read client secret: "@ + e@,
                    ))
                }
            }
        }),
{
}

/// Secrets are made for clients that authenticate themselves, and for no others.
pub proof fn lemma_who_gets_a_secret(secret: Seq<char>, method: Seq<char>)
    ensures
        is_fresh_secret(None, method) <==> method == "none"@,
        is_fresh_secret(Some(secret), method) <==> method != "none"@ && is_token(secret, "pcs"@),
        secret_hash_of(None) is None,
        secret_hash_of(Some(secret)) == Some(hash_of(secret)),
{
}

/// What a stored client and one that was read hold, field by field.
pub proof fn lemma_what_a_stored_client_holds(
    row: ClientRow,
    c: ResolvedClient,
    answer: Json,
    e: OAuthError,
)
    ensures
        row@.client_id == row.client_id@,
        row@.client_secret_hash == row.client_secret_hash.deep_view(),
        row@.redirect_uris == row.redirect_uris@,
        row@.token_endpoint_auth_method == row.token_endpoint_auth_method@,
        row@.client_name == row.client_name.deep_view(),
        row@.created_at == row.created_at@,
        c@.redirect_uris == texts(c.redirect_uris@),
        c@.auth_method == c.auth_method@,
        c@.secret_hash == c.secret_hash.deep_view(),
        registration_result(Ok((row, answer))) == Ok::<(ClientRecord, Value), Refusal>(
            (row@, answer@),
        ),
        registration_result(Err(e)) == Err::<(ClientRecord, Value), Refusal>(e@),
{
}

} // verus!
