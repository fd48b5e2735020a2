//! The authorization endpoint: a page that asks for the password, and the code that a client
//! gets for it.

use vstd::prelude::*;

use crate::escape::escaped;
use crate::escape::Escape;
use crate::oauth::clients::is_redirect_allowed;
use crate::oauth::clients::resolve_client;
use crate::oauth::clients::resolved_client;
use crate::oauth::clients::valid_redirect_uri;
use crate::oauth::clients::Client;
use crate::oauth::clients::RedirectPolicy;
use crate::oauth::clients::StoredClient;
use crate::oauth::issuer::DEFAULT_SCOPE;
use crate::oauth::secrets::esc;
use crate::oauth::secrets::hash;
use crate::oauth::secrets::hash_of;
use crate::oauth::secrets::is_sure_time;
use crate::oauth::secrets::is_token;
use crate::oauth::secrets::is_writable_time;
use crate::oauth::secrets::later_secs;
use crate::oauth::secrets::lemma_token_bytes;
use crate::oauth::secrets::random_token;
use crate::oauth::secrets::stored_time;
use crate::oauth::secrets::time_after;
use crate::oauth::secrets::BAD_REQUEST;
use crate::oauth::secrets::FORBIDDEN;
use crate::oauth::secrets::INTERNAL_SERVER_ERROR;
use crate::oauth::secrets::SERVICE_UNAVAILABLE;
use crate::oauth::secrets::TIME_OUT_OF_RANGE;
use crate::oauth::secrets::UNAUTHORIZED;
use crate::outside::append_pairs;
use crate::outside::has_room;
use crate::outside::pairs_room;
use crate::outside::parse_url;
use crate::outside::parsed_url;
use crate::outside::rfc3339_time;
use crate::outside::url_with_pairs;
use crate::outside::UrlParts;
use crate::startup::url_result;
use crate::text::byte_len;
use crate::text::lemma_ascii_bytes;
use crate::text::lemma_byte_len_bound;
use crate::text::same_text;
use crate::text::text_bytes;
use crate::text::texts_contain;
use crate::time::Timestamp;

verus! {

/// How long an authorization code can be used, in seconds.
pub const CODE_TTL_SECS: u32 = 600;

/// The fewest bytes of a PKCE challenge.
pub const MIN_CHALLENGE_BYTES: usize = 43;

/// What a client asks for at the authorization endpoint.
#[derive(Debug)]
pub struct AuthorizeParams {
    pub client_id: String,
    pub redirect_uri: String,
    pub code_challenge: String,
    pub code_challenge_method: Option<String>,
    pub state: Option<String>,
    pub resource: Option<String>,
    pub scope: Option<String>,
}

/// What the authorization page sends back.
#[derive(Debug)]
pub struct AuthorizeForm {
    pub client_id: String,
    pub redirect_uri: String,
    pub code_challenge: String,
    pub code_challenge_method: String,
    pub state: String,
    pub resource: String,
    pub scope: String,
    pub password: String,
}

/// An error that a user of the authorization page gets: the HTTP status and a message.
#[derive(Debug)]
pub struct PageError {
    pub status: u16,
    pub message: String,
}

impl View for PageError {
    type V = (u16, Seq<char>);

    open spec fn view(&self) -> (u16, Seq<char>) {
        (self.status, self.message@)
    }
}

/// The error with the given status and message.
fn page_error(status: u16, message: &str) -> (r: PageError)
    ensures
        r@ == (status, message@),
{
    PageError { status, message: message.to_owned() }
}

// ---------------------------------------------------------------------------------------
// Checking a request

/// The text, or another one where there is none.
pub open spec fn text_or(t: Option<Seq<char>>, other: Seq<char>) -> Seq<char> {
    match t {
        Some(s) => s,
        None => other,
    }
}

/// What is wrong on its own with a request for a client, a redirect address and a challenge, if
/// anything is.
pub open spec fn asked_problem(
    policy: RedirectPolicy,
    client_id: Seq<char>,
    redirect_uri: Seq<char>,
    code_challenge: Seq<char>,
    method: Option<Seq<char>>,
) -> Option<(u16, Seq<char>)> {
    if client_id.len() == 0 || redirect_uri.len() == 0 || code_challenge.len() == 0 {
        Some((BAD_REQUEST, "missing client_id, redirect_uri, or code_challenge"@))
    } else if text_or(method, "S256"@) != "S256"@ || byte_len(code_challenge)
        < MIN_CHALLENGE_BYTES {
        Some((BAD_REQUEST, "PKCE S256 is required"@))
    } else if !is_redirect_allowed(policy, parsed_url(redirect_uri)) {
        Some((FORBIDDEN, "OAuth redirect host is not allowed"@))
    } else {
        None
    }
}

/// What is wrong with a request on its own, if anything is.
pub open spec fn request_problem(policy: RedirectPolicy, p: AuthorizeParams) -> Option<
    (u16, Seq<char>),
> {
    asked_problem(
        policy,
        p.client_id@,
        p.redirect_uri@,
        p.code_challenge@,
        p.code_challenge_method.deep_view(),
    )
}

/// Says what is wrong with a request on its own, before its client is looked up.
pub fn check_request(policy: &RedirectPolicy, params: &AuthorizeParams) -> (r: Result<
    (),
    PageError,
>)
    ensures
        match request_problem(*policy, *params) {
            None => r is Ok,
            Some(p) => r matches Err(e) && e@ == p,
        },
{
    if params.client_id.as_str().is_empty() || params.redirect_uri.as_str().is_empty()
        || params.code_challenge.as_str().is_empty() {
        return Err(
            page_error(BAD_REQUEST, "missing client_id, redirect_uri, or code_challenge"),
        );
    }
    let s256 = match &params.code_challenge_method {
        Some(m) => same_text(m.as_str(), "S256"),
        None => true,
    };
    if !s256 || text_bytes(params.code_challenge.as_str()) < MIN_CHALLENGE_BYTES {
        return Err(page_error(BAD_REQUEST, "PKCE S256 is required"));
    }
    if !valid_redirect_uri(policy, params.redirect_uri.as_str()) {
        return Err(page_error(FORBIDDEN, "OAuth redirect host is not allowed"));
    }
    Ok(())
}

/// What is wrong with a request of the client that was looked up, if anything is.
pub open spec fn client_problem(client: Result<Client, Seq<char>>, redirect_uri: Seq<char>) -> Option<
    (u16, Seq<char>),
> {
    match client {
        Err(e) => Some((BAD_REQUEST, e)),
        Ok(c) => if c.redirect_uris.contains(redirect_uri) {
            None
        } else {
            Some((BAD_REQUEST, "redirect_uri is not registered"@))
        },
    }
}

/// Says what is wrong with a request of the client that was looked up.
pub fn check_client(
    params: &AuthorizeParams,
    lookup: Result<Option<StoredClient>, String>,
) -> (r: Result<(), PageError>)
    ensures
        match client_problem(resolved_client(lookup), params.redirect_uri@) {
            None => r is Ok,
            Some(p) => r matches Err(e) && e@ == p,
        },
{
    match resolve_client(lookup) {
        Err(e) => Err(page_error(BAD_REQUEST, e.as_str())),
        Ok(client) => {
            if texts_contain(&client.redirect_uris, params.redirect_uri.as_str()) {
                Ok(())
            } else {
                Err(page_error(BAD_REQUEST, "redirect_uri is not registered"))
            }
        },
    }
}

/// Says what is wrong with a request, given the client that was looked up.
pub fn validate_authorize(
    policy: &RedirectPolicy,
    params: &AuthorizeParams,
    lookup: Result<Option<StoredClient>, String>,
) -> (r: Result<(), PageError>)
    ensures
        match request_problem(*policy, *params) {
            Some(p) => r matches Err(e) && e@ == p,
            None => match client_problem(resolved_client(lookup), params.redirect_uri@) {
                None => r is Ok,
                Some(p) => r matches Err(e) && e@ == p,
            },
        },
{
    match check_request(policy, params) {
        Ok(()) => check_client(params, lookup),
        Err(e) => Err(e),
    }
}

// ---------------------------------------------------------------------------------------
// The page

/// A hidden field of the page.
pub open spec fn hidden_field(name: Seq<char>, value: Seq<char>) -> Seq<char> {
    "<input type=\"hidden\" name=\""@ + name + "\" value=\""@ + escaped(Escape::Html, value)
        + "\">"@
}

/// The start of the page.
pub const PAGE_HEAD: &'static str =
    "<!doctype html><meta charset=\"utf-8\"><title>Authorize pc</title>\n<style>body{font-family:sans-serif;max-width:42rem;margin:4rem auto;padding:0 1rem}input{width:100%;padding:.7rem;margin:.4rem 0}button{padding:.7rem 1rem}</style>\n<h1>Authorize pc MCP</h1><p>Client: <code>";

/// What follows the client on the page.
pub const PAGE_FORM: &'static str =
    "</code></p><form method=\"post\" action=\"/mcp/oauth/authorize\">\n";

/// The end of the page.
pub const PAGE_TAIL: &'static str =
    "\n<label>pc password</label><input type=\"password\" name=\"password\" autofocus required><button type=\"submit\">Authorize</button></form>";

/// The page that asks for the password.
pub open spec fn page_for(p: AuthorizeParams) -> Seq<char> {
    PAGE_HEAD@ + escaped(Escape::Html, p.client_id@) + PAGE_FORM@ + hidden_field(
        "client_id"@,
        p.client_id@,
    ) + hidden_field("redirect_uri"@, p.redirect_uri@) + "\n"@ + hidden_field(
        "code_challenge"@,
        p.code_challenge@,
    ) + hidden_field(
        "code_challenge_method"@,
        text_or(p.code_challenge_method.deep_view(), "S256"@),
    ) + "\n"@ + hidden_field("state"@, text_or(p.state.deep_view(), ""@)) + hidden_field(
        "resource"@,
        text_or(p.resource.deep_view(), ""@),
    ) + hidden_field("scope"@, text_or(p.scope.deep_view(), DEFAULT_SCOPE@)) + PAGE_TAIL@
}

/// Appends a hidden field.
fn push_hidden(page: &mut String, name: &str, value: &str)
    ensures
        final(page)@ == old(page)@ + hidden_field(name@, value@),
{
    page.push_str("<input type=\"hidden\" name=\"");
    page.push_str(name);
    page.push_str("\" value=\"");
    let safe = esc(value);
    page.push_str(safe.as_str());
    page.push_str("\">");
    assert(page@ =~= old(page)@ + hidden_field(name@, value@));
}

/// The text, or another one where there is none.
fn or_text<'a>(t: &'a Option<String>, other: &'a str) -> (r: &'a str)
    ensures
        r@ == text_or(t.deep_view(), other@),
{
    match t {
        Some(s) => s.as_str(),
        None => other,
    }
}

/// The page that asks for the password.
pub fn authorize_page(params: &AuthorizeParams) -> (r: String)
    ensures
        r@ == page_for(*params),
{
    let mut page = PAGE_HEAD.to_owned();
    let client = esc(params.client_id.as_str());
    page.push_str(client.as_str());
    page.push_str(PAGE_FORM);
    push_hidden(&mut page, "client_id", params.client_id.as_str());
    push_hidden(&mut page, "redirect_uri", params.redirect_uri.as_str());
    page.push_str("\n");
    push_hidden(&mut page, "code_challenge", params.code_challenge.as_str());
    push_hidden(
        &mut page,
        "code_challenge_method",
        or_text(&params.code_challenge_method, "S256"),
    );
    page.push_str("\n");
    push_hidden(&mut page, "state", or_text(&params.state, ""));
    push_hidden(&mut page, "resource", or_text(&params.resource, ""));
    push_hidden(&mut page, "scope", or_text(&params.scope, DEFAULT_SCOPE));
    page.push_str(PAGE_TAIL);
    page
}

/// The page for a request, given the client that was looked up, or what is wrong with the
/// request.
pub fn authorize_get(
    policy: &RedirectPolicy,
    params: &AuthorizeParams,
    lookup: Result<Option<StoredClient>, String>,
) -> (r: Result<String, PageError>)
    ensures
        match request_problem(*policy, *params) {
            Some(p) => r matches Err(e) && e@ == p,
            None => match client_problem(resolved_client(lookup), params.redirect_uri@) {
                Some(p) => r matches Err(e) && e@ == p,
                None => r matches Ok(page) && page@ == page_for(*params),
            },
        },
{
    match validate_authorize(policy, params, lookup) {
        Ok(()) => Ok(authorize_page(params)),
        Err(e) => Err(e),
    }
}

// ---------------------------------------------------------------------------------------
// Granting a code

/// A text, where it is not empty.
pub open spec fn given(t: Seq<char>) -> Option<Seq<char>> {
    if t.len() == 0 {
        None
    } else {
        Some(t)
    }
}

/// A text, where it is not empty.
fn given_text(t: &String) -> (r: Option<String>)
    ensures
        r.deep_view() == given(t@),
{
    if t.as_str().is_empty() {
        None
    } else {
        Some(t.clone())
    }
}

/// What the page sent back, as the request that it was made for.
pub fn form_params(form: &AuthorizeForm) -> (r: AuthorizeParams)
    ensures
        r.client_id == form.client_id,
        r.redirect_uri == form.redirect_uri,
        r.code_challenge == form.code_challenge,
        r.code_challenge_method.deep_view() == Some(form.code_challenge_method@),
        r.state.deep_view() == Some(form.state@),
        r.resource.deep_view() == given(form.resource@),
        r.scope.deep_view() == given(form.scope@),
{
    AuthorizeParams {
        client_id: form.client_id.clone(),
        redirect_uri: form.redirect_uri.clone(),
        code_challenge: form.code_challenge.clone(),
        code_challenge_method: Some(form.code_challenge_method.clone()),
        state: Some(form.state.clone()),
        resource: given_text(&form.resource),
        scope: given_text(&form.scope),
    }
}

/// What is wrong with a password, if anything is.
pub open spec fn password_problem(expected: Option<Seq<char>>, supplied: Seq<char>) -> Option<
    (u16, Seq<char>),
> {
    match expected {
        None => Some((SERVICE_UNAVAILABLE, "OAuth password is not configured"@)),
        Some(p) => if hash_of(p) != hash_of(supplied) {
            Some((UNAUTHORIZED, "invalid password"@))
        } else {
            None
        },
    }
}

/// Says what is wrong with a password.
pub fn check_password(expected: &Option<String>, supplied: &str) -> (r: Result<(), PageError>)
    ensures
        match password_problem(expected.deep_view(), supplied@) {
            None => r is Ok,
            Some(p) => r matches Err(e) && e@ == p,
        },
{
    match expected {
        None => Err(page_error(SERVICE_UNAVAILABLE, "OAuth password is not configured")),
        Some(p) => {
            let a = hash(p.as_str());
            let b = hash(supplied);
            if !same_text(a.as_str(), b.as_str()) {
                Err(page_error(UNAUTHORIZED, "invalid password"))
            } else {
                Ok(())
            }
        },
    }
}

/// What is stored of an authorization code.
#[derive(Debug)]
pub struct CodeRow {
    pub code_hash: String,
    pub client_id: String,
    pub redirect_uri: String,
    pub code_challenge: String,
    pub resource: String,
    pub scope: String,
    pub expires_at: String,
    pub used: i64,
}

/// What is stored of an authorization code, as a mathematical value.
pub struct Code {
    pub code_hash: Seq<char>,
    pub client_id: Seq<char>,
    pub redirect_uri: Seq<char>,
    pub code_challenge: Seq<char>,
    pub resource: Seq<char>,
    pub scope: Seq<char>,
    pub expires_at: Seq<char>,
    pub used: i64,
}

impl View for CodeRow {
    type V = Code;

    open spec fn view(&self) -> Code {
        Code {
            code_hash: self.code_hash@,
            client_id: self.client_id@,
            redirect_uri: self.redirect_uri@,
            code_challenge: self.code_challenge@,
            resource: self.resource@,
            scope: self.scope@,
            expires_at: self.expires_at@,
            used: self.used,
        }
    }
}

/// The code, and the client's state where it is not empty.
pub open spec fn redirect_pairs(code: Seq<char>, state: Seq<char>) -> Seq<(Seq<char>, Seq<char>)> {
    if state.len() == 0 {
        seq![("code"@, code)]
    } else {
        seq![("code"@, code), ("state"@, state)]
    }
}

/// The most bytes that the code and the client's state take in the query, given how many bytes
/// they have.
pub open spec fn redirect_room(code: nat, state: nat) -> nat {
    if state == 0 {
        3 * (4 + code) + 2
    } else {
        3 * (4 + code) + 2 + 3 * (5 + state) + 2
    }
}

/// Whether the address of a redirect is short enough to have the code and the state appended.
pub open spec fn redirect_fits(redirect_uri: Seq<char>, state: Seq<char>, code: nat) -> bool {
    has_room(parsed_url(redirect_uri), redirect_room(code, byte_len(state)))
}

proof fn lemma_redirect_room(code: Seq<char>, state: Seq<char>)
    ensures
        pairs_room(redirect_pairs(code, state)) == redirect_room(byte_len(code), byte_len(state)),
{
    reveal_strlit("code");
    reveal_strlit("state");
    lemma_ascii_bytes("code"@);
    lemma_ascii_bytes("state"@);
    lemma_byte_len_bound(state);
    let one = seq![("code"@, code)];
    reveal_with_fuel(pairs_room, 3);
    assert(one.drop_last() =~= Seq::empty());
    if state.len() > 0 {
        assert(redirect_pairs(code, state).drop_last() =~= one);
    }
}

/// How many bytes a random code has.
pub const CODE_BYTES: u64 = 68;

/// What comes of a form with the right password: what is stored of the code, and where the
/// user is sent with it. An address that is too long is answered as one that cannot be read.
pub open spec fn granted(
    form: AuthorizeForm,
    default_resource: Seq<char>,
    code: Seq<char>,
    now: Timestamp,
) -> Result<(Code, Seq<char>), (u16, Seq<char>)> {
    match (
        stored_time(now, CODE_TTL_SECS),
        if redirect_fits(form.redirect_uri@, form.state@, byte_len(code)) {
            url_with_pairs(form.redirect_uri@, redirect_pairs(code, form.state@))
        } else {
            None
        },
    ) {
        (None, _) => Err((INTERNAL_SERVER_ERROR, TIME_OUT_OF_RANGE@)),
        (Some(_), None) => Err((BAD_REQUEST, "bad redirect_uri"@)),
        (Some(expires_at), Some(target)) => Ok(
            (
                Code {
                    code_hash: hash_of(code),
                    client_id: form.client_id@,
                    redirect_uri: form.redirect_uri@,
                    code_challenge: form.code_challenge@,
                    resource: text_or(given(form.resource@), default_resource),
                    scope: text_or(given(form.scope@), DEFAULT_SCOPE@),
                    expires_at,
                    used: 0,
                },
                target,
            ),
        ),
    }
}

/// The outcome of a form as mathematical values.
pub open spec fn grant_result(r: Result<(CodeRow, String), PageError>) -> Result<
    (Code, Seq<char>),
    (u16, Seq<char>),
> {
    match r {
        Ok((row, target)) => Ok((row@, target@)),
        Err(e) => Err(e@),
    }
}

/// When a code that was granted at `now` expires, where that time can be read back.
pub open spec fn expires_after(expires_at: Seq<char>, now: Timestamp, secs: u32) -> bool {
    is_sure_time(now, secs) ==> rfc3339_time(expires_at) == Some(
        (later_secs(now, secs)->0, now.nanos),
    )
}

/// The text, or another one where it is empty.
fn or_default(t: &String, other: &str) -> (r: String)
    ensures
        r@ == text_or(given(t@), other@),
{
    if t.as_str().is_empty() {
        other.to_owned()
    } else {
        t.clone()
    }
}

/// Whether the address of a redirect, given what was read of it, is short enough to have the
/// code and the state appended.
fn has_room_for(parsed: &Result<UrlParts, String>, code: &str, state: &str) -> (r: bool)
    ensures
        r == has_room(url_result(*parsed), redirect_room(byte_len(code@), byte_len(state@))),
{
    let length: u64 = match parsed {
        Ok(parts) => parts.length,
        Err(_) => {
            return true;
        },
    };
    let code_bytes: u64 = text_bytes(code) as u64;
    let state_bytes: u64 = text_bytes(state) as u64;
    let most: u64 = 0xffff_ffff;
    if length > most || code_bytes > most || state_bytes > most {
        return false;
    }
    let mut room: u64 = 3 * (4 + code_bytes) + 2;
    if state_bytes > 0 {
        room = room + 3 * (5 + state_bytes) + 2;
    }
    length + 1 + room <= most
}

/// Grants the given code for a form with the right password.
pub fn grant_code(form: &AuthorizeForm, default_resource: &str, code: &str, now: &Timestamp) -> (r:
    Result<(CodeRow, String), PageError>)
    ensures
        grant_result(r) == granted(*form, default_resource@, code@, *now),
        r matches Ok((row, _)) ==> expires_after(row.expires_at@, *now, CODE_TTL_SECS),
        r is Ok <==> parsed_url(form.redirect_uri@) is Ok && redirect_fits(
            form.redirect_uri@,
            form.state@,
            byte_len(code@),
        ) && is_writable_time(*now, CODE_TTL_SECS),
{
    let expires_at = match time_after(now, CODE_TTL_SECS) {
        Some(t) => t,
        None => {
            return Err(page_error(INTERNAL_SERVER_ERROR, TIME_OUT_OF_RANGE));
        },
    };
    let mut pairs: Vec<(String, String)> = Vec::new();
    pairs.push(("code".to_owned(), code.to_owned()));
    if !form.state.as_str().is_empty() {
        pairs.push(("state".to_owned(), form.state.clone()));
    }
    assert(crate::text::pairs(pairs@) =~= redirect_pairs(code@, form.state@));
    proof {
        lemma_redirect_room(code@, form.state@);
    }
    let parsed = parse_url(form.redirect_uri.as_str());
    if !has_room_for(&parsed, code, form.state.as_str()) {
        return Err(page_error(BAD_REQUEST, "bad redirect_uri"));
    }
    let target = match append_pairs(form.redirect_uri.as_str(), &pairs) {
        Some(target) => target,
        None => {
            return Err(page_error(BAD_REQUEST, "bad redirect_uri"));
        },
    };
    let row = CodeRow {
        code_hash: hash(code),
        client_id: form.client_id.clone(),
        redirect_uri: form.redirect_uri.clone(),
        code_challenge: form.code_challenge.clone(),
        resource: or_default(&form.resource, default_resource),
        scope: or_default(&form.scope, DEFAULT_SCOPE),
        expires_at,
        used: 0,
    };
    Ok((row, target))
}

/// Grants a random code for a form with the right password.
pub fn authorize(form: &AuthorizeForm, default_resource: &str, now: &Timestamp) -> (r: Result<
    (CodeRow, String),
    PageError,
>)
    ensures
        exists|code: Seq<char>|
            is_token(code, "pcc"@) && grant_result(r) == #[trigger] granted(
                *form,
                default_resource@,
                code,
                *now,
            ),
        r matches Ok((row, _)) ==> expires_after(row.expires_at@, *now, CODE_TTL_SECS),
        r is Ok <==> parsed_url(form.redirect_uri@) is Ok && redirect_fits(
            form.redirect_uri@,
            form.state@,
            CODE_BYTES as nat,
        ) && is_writable_time(*now, CODE_TTL_SECS),
{
    let code = random_token("pcc");
    proof {
        reveal_strlit("pcc");
        lemma_token_bytes(code@, "pcc"@);
    }
    let r = grant_code(form, default_resource, code.as_str(), now);
    assert(is_token(code@, "pcc"@) && grant_result(r) == granted(
        *form,
        default_resource@,
        code@,
        *now,
    ));
    r
}

/// What keeps a form from being granted a code, if anything does: what is wrong with the
/// request, with the client that was looked up or with the password.
pub open spec fn form_problem(
    policy: RedirectPolicy,
    form: AuthorizeForm,
    client: Result<Client, Seq<char>>,
    expected: Option<Seq<char>>,
) -> Option<(u16, Seq<char>)> {
    match asked_problem(
        policy,
        form.client_id@,
        form.redirect_uri@,
        form.code_challenge@,
        Some(form.code_challenge_method@),
    ) {
        Some(p) => Some(p),
        None => match client_problem(client, form.redirect_uri@) {
            Some(p) => Some(p),
            None => password_problem(expected, form.password@),
        },
    }
}

/// Grants a random code for a form, given the client that was looked up and the password that is
/// expected, or says what is wrong.
pub fn authorize_post(
    policy: &RedirectPolicy,
    form: &AuthorizeForm,
    lookup: Result<Option<StoredClient>, String>,
    expected: &Option<String>,
    default_resource: &str,
    now: &Timestamp,
) -> (r: Result<(CodeRow, String), PageError>)
    ensures
        match form_problem(*policy, *form, resolved_client(lookup), expected.deep_view()) {
            Some(p) => r matches Err(e) && e@ == p,
            None => exists|code: Seq<char>|
                is_token(code, "pcc"@) && grant_result(r) == #[trigger] granted(
                    *form,
                    default_resource@,
                    code,
                    *now,
                ),
        },
        r matches Ok((row, _)) ==> expires_after(row.expires_at@, *now, CODE_TTL_SECS),
        r is Ok <==> form_problem(*policy, *form, resolved_client(lookup), expected.deep_view())
            is None && redirect_fits(form.redirect_uri@, form.state@, CODE_BYTES as nat)
            && is_writable_time(*now, CODE_TTL_SECS),
{
    let params = form_params(form);
    match validate_authorize(policy, &params, lookup) {
        Ok(()) => {},
        Err(e) => {
            return Err(e);
        },
    }
    match check_password(expected, form.password.as_str()) {
        Ok(()) => authorize(form, default_resource, now),
        Err(e) => Err(e),
    }
}

/// A code is granted only to a client that has registered, for a redirect address that is
/// allowed and that the client registered, with a PKCE challenge, to somebody whose password
/// has the hash of the one that is set.
pub proof fn lemma_grants_are_guarded(
    policy: RedirectPolicy,
    form: AuthorizeForm,
    client: Result<Client, Seq<char>>,
    expected: Option<Seq<char>>,
)
    ensures
        form_problem(policy, form, client, expected) is None ==> {
            &&& client is Ok && client->Ok_0.redirect_uris.contains(form.redirect_uri@)
            &&& is_redirect_allowed(policy, parsed_url(form.redirect_uri@))
            &&& form.code_challenge_method@ == "S256"@
            &&& byte_len(form.code_challenge@) >= MIN_CHALLENGE_BYTES
            &&& expected is Some && hash_of(expected->0) == hash_of(form.password@)
        },
{
}

/// When a request is complete and allowed, and what is answered otherwise: first that something
/// is missing, then that PKCE is, then that the address is not allowed.
pub proof fn lemma_when_a_request_is_accepted(policy: RedirectPolicy, p: AuthorizeParams)
    ensures
        ({
            let missing = p.client_id@.len() == 0 || p.redirect_uri@.len() == 0
                || p.code_challenge@.len() == 0;
            let pkce = (p.code_challenge_method matches Some(m) ==> m@ == "S256"@) && byte_len(
                p.code_challenge@,
            ) >= 43;
            let allowed = is_redirect_allowed(policy, parsed_url(p.redirect_uri@));
            let problem = request_problem(policy, p);
            &&& problem is None <==> !missing && pkce && allowed
            &&& missing ==> problem == Some(
                (400u16, "missing client_id, redirect_uri, or code_challenge"@),
            )
            &&& !missing && !pkce ==> problem == Some((400u16, "PKCE S256 is required"@))
            &&& !missing && pkce && !allowed ==> problem == Some(
                (403u16, "OAuth redirect host is not allowed"@),
            )
        }),
{
}

/// Every registered redirect address works, and no other one does. A client that cannot be
/// looked up is refused with the reason.
pub proof fn lemma_every_registered_address_works(c: Client, reason: Seq<char>, uri: Seq<char>, i: int)
    ensures
        0 <= i < c.redirect_uris.len() ==> client_problem(Ok(c), c.redirect_uris[i]) is None,
        client_problem(Ok(c), uri) is None ==> exists|j: int|
            0 <= j < c.redirect_uris.len() && #[trigger] c.redirect_uris[j] == uri,
        !c.redirect_uris.contains(uri) ==> client_problem(Ok(c), uri) == Some(
            (400u16, "redirect_uri is not registered"@),
        ),
        client_problem(Err(reason), uri) == Some((400u16, reason)),
{
    if 0 <= i < c.redirect_uris.len() {
        assert(c.redirect_uris.contains(c.redirect_uris[i]));
    }
}

/// The password that is set is accepted. Another one is refused unless its hash is the same, and
/// without a password nobody gets in.
pub proof fn lemma_password_opens(expected: Seq<char>, supplied: Seq<char>)
    ensures
        password_problem(Some(expected), expected) is None,
        hash_of(supplied) != hash_of(expected) ==> password_problem(Some(expected), supplied)
            == Some((401u16, "invalid password"@)),
        password_problem(None, supplied) == Some((503u16, "OAuth password is not configured"@)),
{
}

/// Exactly when a form is granted a code: the request is complete, with PKCE and an allowed
/// address, the client is known and has registered the address, and the password is right.
pub proof fn lemma_when_a_form_is_granted(
    policy: RedirectPolicy,
    form: AuthorizeForm,
    client: Result<Client, Seq<char>>,
    expected: Option<Seq<char>>,
)
    ensures
        form_problem(policy, form, client, expected) is None <==> {
            &&& form.client_id@.len() > 0 && form.redirect_uri@.len() > 0
            &&& form.code_challenge_method@ == "S256"@ && byte_len(form.code_challenge@) >= 43
            &&& is_redirect_allowed(policy, parsed_url(form.redirect_uri@))
            &&& client matches Ok(c) && exists|j: int|
                0 <= j < c.redirect_uris.len() && #[trigger] c.redirect_uris[j]
                    == form.redirect_uri@
            &&& expected matches Some(p) && hash_of(p) == hash_of(form.password@)
        },
{
    crate::text::lemma_byte_len_bound(form.code_challenge@);
    if let Ok(c) = client {
        assert(c.redirect_uris.contains(form.redirect_uri@) <==> exists|j: int|
            0 <= j < c.redirect_uris.len() && #[trigger] c.redirect_uris[j] == form.redirect_uri@);
    }
}

/// What a code is granted for: the client, the address and the challenge of the form, the
/// form's resource and scope or, where it names none, the given resource and the scope `pc`.
/// Only the hash of the code is stored, and the code is not used yet. The user is sent to the
/// address with the code and, where there is one, the client's state.
pub proof fn lemma_what_is_granted(
    form: AuthorizeForm,
    default_resource: Seq<char>,
    secret: Seq<char>,
    now: Timestamp,
)
    ensures
        granted(form, default_resource, secret, now) matches Ok((code, target)) ==> {
            &&& code.code_hash == hash_of(secret)
            &&& code.client_id == form.client_id@
            &&& code.redirect_uri == form.redirect_uri@
            &&& code.code_challenge == form.code_challenge@
            &&& form.resource@.len() > 0 ==> code.resource == form.resource@
            &&& form.resource@.len() == 0 ==> code.resource == default_resource
            &&& form.scope@.len() > 0 ==> code.scope == form.scope@
            &&& form.scope@.len() == 0 ==> code.scope == "pc"@
            &&& code.used == 0
            &&& Some(code.expires_at) == stored_time(now, 600)
            &&& form.state@.len() == 0 ==> Some(target) == url_with_pairs(
                form.redirect_uri@,
                seq![("code"@, secret)],
            )
            &&& form.state@.len() > 0 ==> Some(target) == url_with_pairs(
                form.redirect_uri@,
                seq![("code"@, secret), ("state"@, form.state@)],
            )
        },
{
}

/// The page sends back what was asked: a form for the authorization endpoint with a hidden field
/// for each part of the request, its value escaped, or its default where it was left out. The
/// page names the client, escaped, and asks for the password.
pub proof fn lemma_page_sends_back_the_request(p: AuthorizeParams)
    ensures
        ({
            let field = |name: Seq<char>, value: Seq<char>|
                "<input type=\"hidden\" name=\""@ + name + "\" value=\""@ + escaped(
                    Escape::Html,
                    value,
                ) + "\">"@;
            let or = |given: Option<String>, other: Seq<char>|
                match given {
                    Some(s) => s@,
                    None => other,
                };
            page_for(p) ==
                "<!doctype html><meta charset=\"utf-8\"><title>Authorize pc</title>\n<style>body{font-family:sans-serif;max-width:42rem;margin:4rem auto;padding:0 1rem}input{width:100%;padding:.7rem;margin:.4rem 0}button{padding:.7rem 1rem}</style>\n<h1>Authorize pc MCP</h1><p>Client: <code>"@
                + escaped(Escape::Html, p.client_id@)
                + "</code></p><form method=\"post\" action=\"/mcp/oauth/authorize\">\n"@ + field(
                "client_id"@,
                p.client_id@,
            ) + field("redirect_uri"@, p.redirect_uri@) + "\n"@ + field(
                "code_challenge"@,
                p.code_challenge@,
            ) + field("code_challenge_method"@, or(p.code_challenge_method, "S256"@)) + "\n"@
                + field("state"@, or(p.state, ""@)) + field("resource"@, or(p.resource, ""@))
                + field("scope"@, or(p.scope, "pc"@))
                + "\n<label>pc password</label><input type=\"password\" name=\"password\" autofocus required><button type=\"submit\">Authorize</button></form>"@
        }),
{
}

/// When a code is granted: where the time at which it expires can be written and the address to
/// go back to can be read and takes the code. Else the first of the two is reported.
pub proof fn lemma_when_a_code_is_granted(
    form: AuthorizeForm,
    default_resource: Seq<char>,
    secret: Seq<char>,
    now: Timestamp,
)
    ensures
        ({
            let g = granted(form, default_resource, secret, now);
            let timely = stored_time(now, 600) is Some;
            let pairs = if form.state@.len() == 0 {
                seq![("code"@, secret)]
            } else {
                seq![("code"@, secret), ("state"@, form.state@)]
            };
            let reached = has_room(parsed_url(form.redirect_uri@), pairs_room(pairs))
                && url_with_pairs(form.redirect_uri@, pairs) is Some;
            &&& g is Ok <==> timely && reached
            &&& !timely ==> g == Err::<(Code, Seq<char>), (u16, Seq<char>)>(
                (500u16, "time is out of range"@),
            )
            &&& timely && !reached ==> g == Err::<(Code, Seq<char>), (u16, Seq<char>)>(
                (400u16, "bad redirect_uri"@),
            )
        }),
{
    lemma_redirect_room(secret, form.state@);
}

/// Why a form is refused: for what was asked, then for the client, then for the password.
pub proof fn lemma_why_a_form_is_refused(
    policy: RedirectPolicy,
    form: AuthorizeForm,
    client: Result<Client, Seq<char>>,
    expected: Option<Seq<char>>,
)
    ensures
        ({
            let missing = form.client_id@.len() == 0 || form.redirect_uri@.len() == 0
                || form.code_challenge@.len() == 0;
            let pkce = form.code_challenge_method@ == "S256"@ && byte_len(form.code_challenge@)
                >= 43;
            let allowed = is_redirect_allowed(policy, parsed_url(form.redirect_uri@));
            let asked = !missing && pkce && allowed;
            let problem = form_problem(policy, form, client, expected);
            &&& missing ==> problem == Some(
                (400u16, "missing client_id, redirect_uri, or code_challenge"@),
            )
            &&& !missing && !pkce ==> problem == Some((400u16, "PKCE S256 is required"@))
            &&& !missing && pkce && !allowed ==> problem == Some(
                (403u16, "OAuth redirect host is not allowed"@),
            )
            &&& asked && client_problem(client, form.redirect_uri@) is Some ==> problem
                == client_problem(client, form.redirect_uri@)
            &&& asked && client_problem(client, form.redirect_uri@) is None ==> problem
                == password_problem(expected, form.password@)
        }),
{
}

/// What a stored code and an error hold, field by field.
pub proof fn lemma_what_a_stored_code_holds(
    row: CodeRow,
    e: PageError,
    target: String,
    at: Seq<char>,
    now: Timestamp,
    secs: u32,
)
    ensures
        row@.code_hash == row.code_hash@,
        row@.client_id == row.client_id@,
        row@.redirect_uri == row.redirect_uri@,
        row@.code_challenge == row.code_challenge@,
        row@.resource == row.resource@,
        row@.scope == row.scope@,
        row@.expires_at == row.expires_at@,
        row@.used == row.used,
        e@ == (e.status, e.message@),
        grant_result(Ok((row, target))) == Ok::<(Code, Seq<char>), (u16, Seq<char>)>(
            (row@, target@),
        ),
        grant_result(Err(e)) == Err::<(Code, Seq<char>), (u16, Seq<char>)>(e@),
        is_sure_time(now, secs) && expires_after(at, now, secs) ==> rfc3339_time(at) == Some(
            ((now.secs + secs) as i64, now.nanos),
        ),
{
}

} // verus!
