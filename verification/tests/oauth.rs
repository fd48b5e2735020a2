use pc::json::Json;
use pc::oauth::authorize::{
    authorize, authorize_get, authorize_page, authorize_post, check_client, check_password, check_request, form_params,
    grant_code, validate_authorize, AuthorizeForm, AuthorizeParams, CodeRow, PageError,
};
use pc::oauth::clients::{
    check_registration, complete_registration, default_auth_method, host_allowed, register_client,
    resolve_client, valid_redirect_uri, ClientRegistration, RedirectPolicy, StoredClient,
};
use pc::oauth::guard::{
    bearer_token, challenge, requested_resource, require_mcp_auth, validate_access_token,
};
use pc::oauth::issuer::{
    authorization_server_metadata, issuer, issuer_with, protected_resource_metadata_mcp,
    protected_resource_metadata_root, resource_url, RequestHeaders,
};
use pc::oauth::secrets::{
    esc, hash, internal_oauth, is_ahead, not_expired, oauth_error, pkce_challenge, random_token,
    time_after, OAuthError,
};
use pc::oauth::token::{
    requested_grant, authenticate_client, exchange_code, exchange_refresh, grant_of, identify_client, issue_tokens,
    parse_basic, redeem_code, redeem_refresh, split_credentials, token_response, Grant, TokenForm,
};
use pc::time::Timestamp;

const NOW: Timestamp = Timestamp { secs: 1_700_000_000, nanos: 123_456_789 };

fn later(secs: i64) -> Timestamp {
    Timestamp { secs: NOW.secs + secs, nanos: NOW.nanos }
}

fn some(s: &str) -> Option<String> {
    Some(s.to_string())
}

fn headers() -> RequestHeaders {
    RequestHeaders {
        host: None,
        forwarded_proto: None,
        forwarded: None,
        forwarded_port: None,
        authorization: None,
    }
}

/// The JSON text of a value.
fn render(value: &Json) -> String {
    match value {
        Json::Null => "null".to_string(),
        Json::Bool(b) => b.to_string(),
        Json::Number(n) | Json::Float(n) => n.clone(),
        Json::Str(s) => format!("{s:?}"),
        Json::Array(items) => {
            format!("[{}]", items.iter().map(render).collect::<Vec<_>>().join(","))
        }
        Json::Object(members) => {
            let inner: Vec<String> =
                members.iter().map(|(k, v)| format!("{k:?}:{}", render(v))).collect();
            format!("{{{}}}", inner.join(","))
        }
    }
}

/// A member of an object, as text.
fn member(value: &Json, key: &str) -> String {
    match value {
        Json::Object(members) => match members.iter().find(|(k, _)| k == key) {
            Some((_, Json::Str(s))) => s.clone(),
            Some((_, other)) => render(other),
            None => panic!("no member {key}"),
        },
        other => panic!("{other:?}"),
    }
}

fn refusal<T: std::fmt::Debug>(r: Result<T, OAuthError>) -> (u16, String, String) {
    let e = r.unwrap_err();
    (e.status, e.code.to_string(), e.description)
}

fn page_refusal<T: std::fmt::Debug>(r: Result<T, PageError>) -> (u16, String) {
    let e = r.unwrap_err();
    (e.status, e.message)
}

// ---------------------------------------------------------------------------------------
// Where the server is

#[test]
fn public_url_is_the_issuer() {
    let mut h = headers();
    h.host = some("elsewhere");
    assert_eq!(issuer(&some("https://pc.example"), &h), "https://pc.example");
    assert_eq!(resource_url(&some("https://pc.example"), &h), "https://pc.example/mcp");
}

#[test]
fn issuer_follows_the_request() {
    assert_eq!(issuer(&None, &headers()), "http://127.0.0.1:8686");
    let with = |host: &str| {
        let mut h = headers();
        h.host = some(host);
        h
    };
    assert_eq!(issuer(&None, &with("LocalHost:1")), "http://LocalHost:1");
    assert_eq!(issuer(&None, &with("mcp.example:8443")), "https://mcp.example:8443");
    assert_eq!(issuer(&None, &with("127.0.0.1")), "http://127.0.0.1");
    // A host that is no authority is taken as it is.
    assert_eq!(issuer(&None, &with("::1")), "http://::1");
    assert_eq!(issuer(&None, &with("a b")), "https://a b");
    // An address in brackets keeps them.
    assert_eq!(issuer(&None, &with("[::1]:80")), "https://[::1]:80");

    let mut h = with("localhost");
    h.forwarded_proto = some(" HTTPS , http");
    assert_eq!(issuer(&None, &h), "https://localhost");
    h.forwarded_proto = some("http, https");
    assert_eq!(issuer(&None, &h), "http://localhost");
    h.forwarded = some("for=1; Proto=HTTPS ;by=2");
    assert_eq!(issuer(&None, &h), "https://localhost");
    h.forwarded = some("for=1, proto=https");
    assert_eq!(issuer(&None, &h), "https://localhost");
    h.forwarded = some("for=1;proto=http");
    assert_eq!(issuer(&None, &h), "http://localhost");
    h.forwarded_port = some(" 443 ");
    assert_eq!(issuer(&None, &h), "https://localhost");
    assert_eq!(issuer_with(&None, &with("x"), &some("localhost")), "http://x");
}

#[test]
fn metadata_names_the_endpoints() {
    let url = some("https://p");
    assert_eq!(
        render(&protected_resource_metadata_root(&url, &headers())),
        "{\"resource\":\"https://p/\",\"authorization_servers\":[\"https://p\"],\"scopes_supported\":[\"pc\"],\"bearer_methods_supported\":[\"header\"]}"
    );
    assert_eq!(
        member(&protected_resource_metadata_mcp(&url, &headers()), "resource"),
        "https://p/mcp"
    );
    assert_eq!(
        render(&authorization_server_metadata(&url, &headers())),
        "{\"issuer\":\"https://p\",\"authorization_endpoint\":\"https://p/mcp/oauth/authorize\",\"token_endpoint\":\"https://p/mcp/oauth/token\",\"registration_endpoint\":\"https://p/mcp/oauth/register\",\"response_types_supported\":[\"code\"],\"grant_types_supported\":[\"authorization_code\",\"refresh_token\"],\"code_challenge_methods_supported\":[\"S256\"],\"token_endpoint_auth_methods_supported\":[\"none\",\"client_secret_post\",\"client_secret_basic\"],\"scopes_supported\":[\"pc\"],\"registration_endpoint_auth_methods_supported\":[\"none\"]}"
    );
}

// ---------------------------------------------------------------------------------------
// Secrets and times

#[test]
fn hashes_are_sha256_in_base64url() {
    // The example of RFC 7636, appendix B.
    assert_eq!(
        pkce_challenge("dBjftJeZ4CVP-mB92K27uhbUJU1p1r_wW1gFWFOEjXk"),
        "E9Melhoa2OwvFrEMTJguCHaoeK1t8URWbuGJSstw-cM"
    );
    assert_eq!(hash(""), "47DEQpj8HBSa-_TImW-5JCeuQeRkm5NMpJWZG3hSuFU");
    assert_eq!(hash("x"), pkce_challenge("x"));
    let token = random_token("pca");
    assert!(token.starts_with("pca_"));
    assert_eq!(token.len(), 68);
    assert!(token[4..].bytes().all(|b| b.is_ascii_hexdigit()));
    assert_ne!(token, random_token("pca"));
    assert_eq!(esc("<a&\"b'>"), "&lt;a&amp;&quot;b'&gt;");
}

#[test]
fn times_are_stored_and_read_back() {
    let stored = time_after(&NOW, 600).unwrap();
    assert_eq!(stored, "2023-11-14T22:23:20.123456789+00:00");
    assert!(not_expired(&stored, &NOW));
    assert!(not_expired(&stored, &later(599)));
    assert!(!not_expired(&stored, &later(600)));
    assert!(!not_expired("not a time", &NOW));
    assert!(not_expired("2023-11-15T06:13:21+08:00", &NOW));
    assert!(!not_expired("2023-11-15T06:13:20+08:00", &NOW));
    assert_eq!(time_after(&Timestamp { secs: i64::MAX, nanos: 0 }, 1), None);
    assert!(is_ahead(&Some((NOW.secs, NOW.nanos + 1)), &NOW));
    assert!(!is_ahead(&Some((NOW.secs, NOW.nanos)), &NOW));
    assert!(!is_ahead(&None, &NOW));
}

#[test]
fn errors_have_bodies() {
    let e = oauth_error(400, "invalid_grant", "no");
    assert_eq!(render(&e.body()), "{\"error\":\"invalid_grant\",\"error_description\":\"no\"}");
    let e = internal_oauth("disk");
    assert_eq!((e.status, e.code, e.description.as_str()), (500, "server_error", "disk"));
}

// ---------------------------------------------------------------------------------------
// Clients

fn policy(production: bool, hosts: &[&str]) -> RedirectPolicy {
    RedirectPolicy { production, allowed_hosts: hosts.iter().map(|h| h.to_string()).collect() }
}

#[test]
fn hosts_match_patterns() {
    let p = policy(true, &["ChatGPT.com.", " *.openai.com "]);
    assert!(host_allowed(&p, "chatgpt.com"));
    assert!(host_allowed(&p, "CHATGPT.COM."));
    assert!(!host_allowed(&p, "x.chatgpt.com"));
    assert!(host_allowed(&p, "a.openai.com"));
    assert!(host_allowed(&p, "a.b.openai.com"));
    assert!(!host_allowed(&p, "openai.com"));
    assert!(!host_allowed(&p, "evilopenai.com"));
    assert!(host_allowed(&policy(false, &[]), "anything"));
    assert!(!host_allowed(&policy(true, &[]), "anything"));
}

#[test]
fn redirects_are_restricted() {
    let open = policy(false, &[]);
    let strict = policy(true, &["chatgpt.com"]);
    for uri in ["https://chatgpt.com/cb", "https://CHATGPT.com/cb?x=1"] {
        assert!(valid_redirect_uri(&open, uri) && valid_redirect_uri(&strict, uri));
    }
    assert!(valid_redirect_uri(&open, "https://other.example/cb"));
    assert!(!valid_redirect_uri(&strict, "https://other.example/cb"));
    for uri in ["http://localhost:3000/cb", "http://127.0.0.1/cb"] {
        assert!(valid_redirect_uri(&open, uri) && !valid_redirect_uri(&strict, uri));
        assert!(!valid_redirect_uri(&policy(false, &["chatgpt.com"]), uri));
    }
    for uri in [
        "nonsense",
        "http://chatgpt.com/cb",
        "https://u@chatgpt.com/cb",
        "https://:p@chatgpt.com/cb",
        "https://chatgpt.com/cb#f",
        "custom://chatgpt.com/cb",
        "mailto:x",
    ] {
        assert!(!valid_redirect_uri(&open, uri), "{uri}");
    }
}

fn registration(method: &str) -> ClientRegistration {
    ClientRegistration {
        redirect_uris: vec!["https://chatgpt.com/cb".to_string(), "https://a\"b.c/\u{e9}".to_string()],
        client_name: None,
        token_endpoint_auth_method: method.to_string(),
    }
}

#[test]
fn public_clients_are_registered_without_a_secret() {
    let (row, answer) = register_client(&policy(false, &[]), &{
        let mut r = registration("none");
        r.redirect_uris.truncate(1);
        r.client_name = some("ChatGPT");
        r
    }, &NOW)
    .unwrap();
    assert!(row.client_id.starts_with("pcc_"));
    assert_eq!(row.client_id.len(), 36);
    assert_eq!(row.client_secret_hash, None);
    assert_eq!(row.redirect_uris, "[\"https://chatgpt.com/cb\"]");
    assert_eq!(row.token_endpoint_auth_method, "none");
    assert_eq!(row.client_name.as_deref(), Some("ChatGPT"));
    assert_eq!(row.created_at, "2023-11-14T22:13:20.123456789+00:00");
    assert_eq!(
        render(&answer),
        format!(
            "{{\"client_id\":\"{}\",\"redirect_uris\":[\"https://chatgpt.com/cb\"],\"client_name\":\"ChatGPT\",\"token_endpoint_auth_method\":\"none\",\"grant_types\":[\"authorization_code\",\"refresh_token\"],\"response_types\":[\"code\"]}}",
            row.client_id
        )
    );
}

#[test]
fn confidential_clients_get_a_secret_once() {
    let mut input = registration("client_secret_basic");
    input.redirect_uris.truncate(1);
    let (row, answer) = register_client(&policy(false, &[]), &input, &NOW).unwrap();
    let secret = member(&answer, "client_secret");
    assert!(secret.starts_with("pcs_"));
    assert_eq!(row.client_secret_hash.as_deref(), Some(hash(&secret).as_str()));
    assert_eq!(member(&answer, "client_secret_expires_at"), "0");
    assert_eq!(member(&answer, "client_name"), "null");
}

#[test]
fn registered_client_is_found_again() {
    let input = registration("client_secret_post");
    let (row, _) =
        complete_registration(&input, "id".to_string(), some("s"), &NOW).unwrap();
    let client = resolve_client(Ok(Some(StoredClient {
        redirect_uris: Ok(row.redirect_uris),
        token_endpoint_auth_method: Ok(row.token_endpoint_auth_method),
        client_secret_hash: Ok(row.client_secret_hash),
    })))
    .unwrap();
    assert_eq!(client.redirect_uris, input.redirect_uris);
    assert_eq!(client.auth_method, "client_secret_post");
    assert_eq!(client.secret_hash, Some(hash("s")));
}

#[test]
fn bad_registrations_are_refused() {
    let open = policy(false, &[]);
    let bad_uris =
        (400, "invalid_client_metadata".to_string(), "invalid redirect_uris".to_string());
    let mut input = registration("none");
    input.redirect_uris.clear();
    assert_eq!(refusal(check_registration(&open, &input)), bad_uris);
    input.redirect_uris = vec!["https://a/".to_string(), "ftp://a/".to_string()];
    assert_eq!(refusal(register_client(&open, &input, &NOW)), bad_uris);
    input.redirect_uris.pop();
    input.token_endpoint_auth_method = "private_key_jwt".to_string();
    assert_eq!(
        refusal(check_registration(&open, &input)),
        (
            400,
            "invalid_client_metadata".to_string(),
            "unsupported token_endpoint_auth_method".to_string()
        )
    );
    input.token_endpoint_auth_method = default_auth_method();
    assert!(check_registration(&open, &input).is_ok());
}

#[test]
fn unknown_and_broken_clients_are_reported() {
    assert_eq!(resolve_client(Ok(None)).unwrap_err(), "unknown client");
    assert_eq!(resolve_client(Err("x".to_string())).unwrap_err(), "read OAuth client: x");
    let row = |text: &str| StoredClient {
        redirect_uris: Ok(text.to_string()),
        token_endpoint_auth_method: Ok("none".to_string()),
        client_secret_hash: Ok(None),
    };
    let expected = serde_json::from_str::<Vec<String>>("[1]").unwrap_err().to_string();
    assert_eq!(
        resolve_client(Ok(Some(row("[1]")))).unwrap_err(),
        format!("parse redirect_uris: {expected}")
    );
    assert!(resolve_client(Ok(Some(row("[]")))).unwrap().redirect_uris.is_empty());
    let mut broken = row("[]");
    broken.client_secret_hash = Err("c".to_string());
    assert_eq!(resolve_client(Ok(Some(broken))).unwrap_err(), "read client secret: c");
    let mut broken = row("[]");
    broken.token_endpoint_auth_method = Err("b".to_string());
    broken.client_secret_hash = Err("c".to_string());
    assert_eq!(resolve_client(Ok(Some(broken))).unwrap_err(), "read auth method: b");
    let mut broken = row("[]");
    broken.redirect_uris = Err("a".to_string());
    assert_eq!(resolve_client(Ok(Some(broken))).unwrap_err(), "read redirect_uris: a");
}

// ---------------------------------------------------------------------------------------
// Authorization

const VERIFIER: &str = "dBjftJeZ4CVP-mB92K27uhbUJU1p1r_wW1gFWFOEjXk";

fn params() -> AuthorizeParams {
    AuthorizeParams {
        client_id: "pcc_1".to_string(),
        redirect_uri: "https://chatgpt.com/cb".to_string(),
        code_challenge: pkce_challenge(VERIFIER),
        code_challenge_method: None,
        state: None,
        resource: None,
        scope: None,
    }
}

fn stored(method: &str, secret: Option<&str>) -> Result<Option<StoredClient>, String> {
    Ok(Some(StoredClient {
        redirect_uris: Ok("[\"https://chatgpt.com/cb\"]".to_string()),
        token_endpoint_auth_method: Ok(method.to_string()),
        client_secret_hash: Ok(secret.map(hash)),
    }))
}

fn form(state: &str, resource: &str, scope: &str) -> AuthorizeForm {
    AuthorizeForm {
        client_id: "pcc_1".to_string(),
        redirect_uri: "https://chatgpt.com/cb?x=1".to_string(),
        code_challenge: pkce_challenge(VERIFIER),
        code_challenge_method: "S256".to_string(),
        state: state.to_string(),
        resource: resource.to_string(),
        scope: scope.to_string(),
        password: "pw".to_string(),
    }
}

#[test]
fn authorization_requests_are_checked() {
    let open = policy(false, &[]);
    assert!(validate_authorize(&open, &params(), stored("none", None)).is_ok());
    let missing = (400, "missing client_id, redirect_uri, or code_challenge".to_string());
    let mut p = params();
    p.client_id.clear();
    assert_eq!(page_refusal(check_request(&open, &p)), missing);
    let mut p = params();
    p.redirect_uri.clear();
    assert_eq!(page_refusal(check_request(&open, &p)), missing);
    let mut p = params();
    p.code_challenge.clear();
    assert_eq!(page_refusal(check_request(&open, &p)), missing);
    let pkce = (400, "PKCE S256 is required".to_string());
    let mut p = params();
    p.code_challenge_method = some("plain");
    assert_eq!(page_refusal(check_request(&open, &p)), pkce);
    let mut p = params();
    p.code_challenge.pop();
    assert_eq!(page_refusal(check_request(&open, &p)), pkce);
    assert_eq!(
        page_refusal(check_request(&policy(true, &["x"]), &params())),
        (403, "OAuth redirect host is not allowed".to_string())
    );
    assert_eq!(
        page_refusal(check_client(&params(), Ok(None))),
        (400, "unknown client".to_string())
    );
    let mut p = params();
    p.redirect_uri = "https://chatgpt.com/other".to_string();
    assert_eq!(
        page_refusal(validate_authorize(&open, &p, stored("none", None))),
        (400, "redirect_uri is not registered".to_string())
    );
}

#[test]
fn page_escapes_what_it_shows() {
    let mut p = params();
    p.client_id = "<script>&\"".to_string();
    p.state = some("s\"t");
    let page = authorize_page(&p);
    assert!(!page.contains("<script>"));
    assert_eq!(
        page,
        format!(
            "<!doctype html><meta charset=\"utf-8\"><title>Authorize pc</title>\n<style>body{{font-family:sans-serif;max-width:42rem;margin:4rem auto;padding:0 1rem}}input{{width:100%;padding:.7rem;margin:.4rem 0}}button{{padding:.7rem 1rem}}</style>\n<h1>Authorize pc MCP</h1><p>Client: <code>{id}</code></p><form method=\"post\" action=\"/mcp/oauth/authorize\">\n<input type=\"hidden\" name=\"client_id\" value=\"{id}\"><input type=\"hidden\" name=\"redirect_uri\" value=\"https://chatgpt.com/cb\">\n<input type=\"hidden\" name=\"code_challenge\" value=\"{challenge}\"><input type=\"hidden\" name=\"code_challenge_method\" value=\"S256\">\n<input type=\"hidden\" name=\"state\" value=\"s&quot;t\"><input type=\"hidden\" name=\"resource\" value=\"\"><input type=\"hidden\" name=\"scope\" value=\"pc\">\n<label>pc password</label><input type=\"password\" name=\"password\" autofocus required><button type=\"submit\">Authorize</button></form>",
            id = "&lt;script&gt;&amp;&quot;",
            challenge = pkce_challenge(VERIFIER),
        )
    );
}

#[test]
fn forms_leave_empty_fields_out() {
    let p = form_params(&form("", "", "all"));
    assert_eq!(p.client_id, "pcc_1");
    assert_eq!(p.code_challenge_method.as_deref(), Some("S256"));
    assert_eq!(p.state.as_deref(), Some(""));
    assert_eq!(p.resource, None);
    assert_eq!(p.scope.as_deref(), Some("all"));
}

#[test]
fn password_opens_the_door() {
    assert!(check_password(&some("pw"), "pw").is_ok());
    assert_eq!(
        page_refusal(check_password(&some("pw"), "PW")),
        (401, "invalid password".to_string())
    );
    assert_eq!(
        page_refusal(check_password(&None, "")),
        (503, "OAuth password is not configured".to_string())
    );
}

#[test]
fn codes_are_granted_for_the_redirect() {
    let (row, target) = grant_code(&form("a b", "", ""), "https://p/mcp", "pcc_x", &NOW).unwrap();
    assert_eq!(row.code_hash, hash("pcc_x"));
    assert_eq!(row.client_id, "pcc_1");
    assert_eq!(row.redirect_uri, "https://chatgpt.com/cb?x=1");
    assert_eq!(row.code_challenge, pkce_challenge(VERIFIER));
    assert_eq!((row.resource.as_str(), row.scope.as_str()), ("https://p/mcp", "pc"));
    assert_eq!(row.expires_at, "2023-11-14T22:23:20.123456789+00:00");
    assert_eq!(row.used, 0);
    assert_eq!(target, "https://chatgpt.com/cb?x=1&code=pcc_x&state=a+b");
    let (row, target) = grant_code(&form("", "r", "s"), "d", "c", &NOW).unwrap();
    assert_eq!((row.resource.as_str(), row.scope.as_str()), ("r", "s"));
    assert_eq!(target, "https://chatgpt.com/cb?x=1&code=c");
    let (row, target) = authorize(&form("", "", ""), "d", &NOW).unwrap();
    let code = target.strip_prefix("https://chatgpt.com/cb?x=1&code=").unwrap();
    assert!(code.starts_with("pcc_"));
    assert_eq!(row.code_hash, hash(code));
    let mut bad = form("", "", "");
    bad.redirect_uri = "nonsense".to_string();
    assert_eq!(
        page_refusal(grant_code(&bad, "d", "c", &NOW)),
        (400, "bad redirect_uri".to_string())
    );
}

#[test]
fn forms_are_answered() {
    let open = policy(false, &[]);
    let mut f = form("", "", "");
    f.redirect_uri = "https://chatgpt.com/cb".to_string();
    let post = |f: &AuthorizeForm, lookup, password: Option<&str>| {
        authorize_post(&open, f, lookup, &password.map(str::to_string), "d", &NOW)
    };
    let (row, target) = post(&f, stored("none", None), Some("pw")).unwrap();
    assert!(target.starts_with("https://chatgpt.com/cb?code=pcc_"));
    assert_eq!(row.resource, "d");
    assert_eq!(page_refusal(post(&f, stored("none", None), Some("x"))).0, 401);
    assert_eq!(page_refusal(post(&f, stored("none", None), None)).0, 503);
    assert_eq!(page_refusal(post(&f, Ok(None), Some("x"))), (400, "unknown client".to_string()));
    f.code_challenge_method.clear();
    assert_eq!(
        page_refusal(post(&f, Ok(None), Some("x"))),
        (400, "PKCE S256 is required".to_string())
    );
    assert_eq!(
        authorize_get(&open, &params(), stored("none", None)).unwrap(),
        authorize_page(&params())
    );
    assert!(authorize_get(&open, &params(), Ok(None)).is_err());
}

// ---------------------------------------------------------------------------------------
// Tokens

fn token_form() -> TokenForm {
    TokenForm {
        grant_type: "authorization_code".to_string(),
        client_id: "pcc_1".to_string(),
        client_secret: String::new(),
        code: "pcc_x".to_string(),
        redirect_uri: "https://chatgpt.com/cb?x=1".to_string(),
        code_verifier: VERIFIER.to_string(),
        refresh_token: String::new(),
        resource: String::new(),
    }
}

fn code_row() -> CodeRow {
    grant_code(&form("", "", ""), "https://p/mcp", "pcc_x", &NOW).unwrap().0
}

fn invalid_grant(description: &str) -> (u16, String, String) {
    (400, "invalid_grant".to_string(), description.to_string())
}

#[test]
fn basic_credentials_are_read() {
    // "id:se:cret"
    assert_eq!(
        parse_basic(&some("Basic aWQ6c2U6Y3JldA==")),
        Some(("id".to_string(), "se:cret".to_string()))
    );
    assert_eq!(parse_basic(&some("basic aWQ6c2U6Y3JldA==")), None);
    assert_eq!(parse_basic(&some("Basic aWQ6c2U6Y3JldA")), None);
    assert_eq!(parse_basic(&some("Basic aWQ=")), None);
    assert_eq!(parse_basic(&some("Basic //8=")), None);
    assert_eq!(parse_basic(&None), None);
    assert_eq!(split_credentials(Some(b":".to_vec())), Some((String::new(), String::new())));
    assert_eq!(split_credentials(Some(vec![0xff, b':'])), None);
    assert_eq!(split_credentials(None), None);
}

#[test]
fn client_is_identified() {
    let f = identify_client(token_form(), None).unwrap();
    assert_eq!((f.client_id.as_str(), f.client_secret.as_str()), ("pcc_1", ""));
    let f = identify_client(token_form(), Some(("b".to_string(), "s".to_string()))).unwrap();
    assert_eq!((f.client_id.as_str(), f.client_secret.as_str()), ("b", "s"));
    assert_eq!(f.code, "pcc_x");
    let missing = (401, "invalid_client".to_string(), "missing client_id".to_string());
    assert_eq!(
        refusal(identify_client(token_form(), Some((String::new(), "s".to_string())))),
        missing
    );
    let mut f = token_form();
    f.client_id.clear();
    assert_eq!(refusal(identify_client(f, None)), missing);
}

#[test]
fn client_is_authenticated() {
    assert!(authenticate_client(stored("none", None), "").is_ok());
    assert!(authenticate_client(stored("client_secret_post", Some("s")), "s").is_ok());
    let failed =
        (401, "invalid_client".to_string(), "client authentication failed".to_string());
    for (secret, supplied) in [(Some("s"), "t"), (Some("s"), ""), (Some(""), ""), (None, "s")] {
        assert_eq!(
            refusal(authenticate_client(stored("client_secret_post", secret), supplied)),
            failed
        );
    }
    assert_eq!(
        refusal(authenticate_client(Ok(None), "s")),
        (401, "invalid_client".to_string(), "unknown client".to_string())
    );
    let mut f = token_form();
    assert_eq!(requested_grant(&f, stored("none", None)).unwrap(), Grant::Code);
    f.grant_type = "x".to_string();
    assert_eq!(refusal(requested_grant(&f, Ok(None))).1, "invalid_client");
    assert_eq!(refusal(requested_grant(&f, stored("none", None))).1, "unsupported_grant_type");
    assert_eq!(grant_of("authorization_code").unwrap(), Grant::Code);
    assert_eq!(grant_of("refresh_token").unwrap(), Grant::Refresh);
    assert_eq!(
        refusal(grant_of("password")),
        (400, "unsupported_grant_type".to_string(), "unsupported grant_type".to_string())
    );
}

#[test]
fn code_is_exchanged_once() {
    let form = token_form();
    let exchange = redeem_code(&Some(code_row()), &form, "pca_a", "pcr_r", &later(599)).unwrap();
    assert_eq!(exchange.spent, hash("pcc_x"));
    assert_eq!(exchange.access.token_hash, hash("pca_a"));
    assert_eq!(exchange.refresh.token_hash, hash("pcr_r"));
    for (client, resource, scope, revoked) in [
        (
            &exchange.access.client_id,
            &exchange.access.resource,
            &exchange.access.scope,
            exchange.access.revoked,
        ),
        (
            &exchange.refresh.client_id,
            &exchange.refresh.resource,
            &exchange.refresh.scope,
            exchange.refresh.revoked,
        ),
    ] {
        assert_eq!(
            (client.as_str(), resource.as_str(), scope.as_str(), revoked),
            ("pcc_1", "https://p/mcp", "pc", 0)
        );
    }
    assert_eq!(exchange.access.created_at, "2023-11-14T22:23:19.123456789+00:00");
    assert_eq!(exchange.access.expires_at, "2023-11-14T23:23:19.123456789+00:00");
    assert_eq!(exchange.refresh.expires_at, "2023-12-14T22:23:19.123456789+00:00");
    assert_eq!(
        render(&exchange.response),
        "{\"access_token\":\"pca_a\",\"token_type\":\"Bearer\",\"expires_in\":3600,\"refresh_token\":\"pcr_r\",\"scope\":\"pc\"}"
    );
    assert_eq!(render(&token_response("pca_a", "pcr_r", "pc")), render(&exchange.response));

    let mut used = code_row();
    used.used = 1;
    assert_eq!(
        refusal(exchange_code(&Some(used), &form, &NOW)),
        invalid_grant("authorization code expired or used")
    );
}

#[test]
fn code_is_bound_to_its_grant() {
    assert_eq!(
        refusal(exchange_code(&None, &token_form(), &NOW)),
        invalid_grant("unknown authorization code")
    );
    assert_eq!(
        refusal(exchange_code(&Some(code_row()), &token_form(), &later(600))),
        invalid_grant("authorization code expired or used")
    );
    let failed = invalid_grant("authorization code validation failed");
    let mut f = token_form();
    f.client_id = "other".to_string();
    assert_eq!(refusal(exchange_code(&Some(code_row()), &f, &NOW)), failed);
    let mut f = token_form();
    f.redirect_uri.push('2');
    assert_eq!(refusal(exchange_code(&Some(code_row()), &f, &NOW)), failed);
    let mut f = token_form();
    f.code_verifier.push('2');
    assert_eq!(refusal(exchange_code(&Some(code_row()), &f, &NOW)), failed);
    let mut f = token_form();
    f.resource = "https://p/".to_string();
    assert_eq!(
        refusal(exchange_code(&Some(code_row()), &f, &NOW)),
        (400, "invalid_target".to_string(), "resource mismatch".to_string())
    );
    f.resource = "https://p/mcp".to_string();
    let exchange = exchange_code(&Some(code_row()), &f, &NOW).unwrap();
    assert_eq!(exchange.access.token_hash, hash(&member(&exchange.response, "access_token")));
    assert!(member(&exchange.response, "access_token").starts_with("pca_"));
    assert!(member(&exchange.response, "refresh_token").starts_with("pcr_"));
}

#[test]
fn refresh_token_is_rotated() {
    let first = redeem_code(&Some(code_row()), &token_form(), "pca_a", "pcr_r", &NOW).unwrap();
    let mut form = token_form();
    form.grant_type = "refresh_token".to_string();
    form.refresh_token = "pcr_r".to_string();
    let row = Some(first.refresh);
    let second = redeem_refresh(&row, &form, "pca_b", "pcr_s", &later(100)).unwrap();
    assert_eq!(second.spent, hash("pcr_r"));
    assert_eq!(second.access.token_hash, hash("pca_b"));
    assert_eq!(second.refresh.token_hash, hash("pcr_s"));
    assert_eq!(second.refresh.resource, "https://p/mcp");
    assert_eq!(second.refresh.scope, "pc");
    assert_eq!(member(&second.response, "refresh_token"), "pcr_s");
    assert!(exchange_refresh(&row, &form, &later(2_591_999)).is_ok());
    let refused =
        invalid_grant("refresh token expired, revoked, or belongs to another client");
    assert_eq!(refusal(exchange_refresh(&row, &form, &later(2_592_000))), refused);
    let mut other = form;
    other.client_id = "other".to_string();
    assert_eq!(refusal(exchange_refresh(&row, &other, &NOW)), refused);
    other.client_id = "pcc_1".to_string();
    other.resource = "x".to_string();
    assert_eq!(
        refusal(exchange_refresh(&row, &other, &NOW)),
        (400, "invalid_target".to_string(), "resource mismatch".to_string())
    );
    other.resource.clear();
    let mut revoked = row.unwrap();
    revoked.revoked = 1;
    assert_eq!(refusal(exchange_refresh(&Some(revoked), &other, &NOW)), refused);
    assert_eq!(
        refusal(exchange_refresh(&None, &other, &NOW)),
        invalid_grant("unknown refresh token")
    );
}

#[test]
fn clock_out_of_range_is_a_server_error() {
    let far = Timestamp { secs: i64::MAX, nanos: 0 };
    assert!(issue_tokens("a", "r", "c", "x", "s", &far).is_none());
    let mut row = code_row();
    row.expires_at = "+9999-12-31T00:00:00Z".to_string();
    assert!(grant_code(&form("", "", ""), "d", "c", &far).is_err());
}

// ---------------------------------------------------------------------------------------
// The guard

#[test]
fn access_token_opens_its_resource() {
    let row = || redeem_code(&Some(code_row()), &token_form(), "pca_a", "pcr_r", &NOW).unwrap().access;
    assert!(require_mcp_auth("https://p", "/mcp", &Some(row()), &NOW).is_ok());
    assert!(validate_access_token(&Some(row()), "https://p/mcp", &later(3_599)));
    assert!(!validate_access_token(&Some(row()), "https://p/mcp", &later(3_600)));
    assert!(!validate_access_token(&Some(row()), "https://p/", &NOW));
    assert!(!validate_access_token(&None, "https://p/mcp", &NOW));
    let mut revoked = row();
    revoked.revoked = 1;
    assert!(!validate_access_token(&Some(revoked), "https://p/mcp", &NOW));
    assert_eq!(
        require_mcp_auth("https://p", "/", &Some(row()), &NOW),
        Err("Bearer realm=\"pc\", resource_metadata=\"https://p/.well-known/oauth-protected-resource\", scope=\"pc\"".to_string())
    );
    assert_eq!(
        require_mcp_auth("https://p", "/mcp", &None, &NOW),
        Err("Bearer realm=\"pc\", resource_metadata=\"https://p/.well-known/oauth-protected-resource/mcp\", scope=\"pc\"".to_string())
    );
    assert_eq!(challenge("o", "/x"), challenge("o", "/mcp"));
    assert_eq!(requested_resource("o", "/"), "o/");
    assert_eq!(requested_resource("o", "/mcp"), "o/mcp");
    assert_eq!(bearer_token(&some("Bearer abc")), some("abc"));
    assert_eq!(bearer_token(&some("bearer abc")), None);
    assert_eq!(bearer_token(&None), None);
}

// ---------------------------------------------------------------------------------------
// Late times and the store

#[test]
fn times_can_be_written_as_far_as_they_are_known() {
    let at = |secs: i64, nanos: u32| time_after(&Timestamp { secs, nanos }, 0);
    assert_eq!(at(0, 0).unwrap(), "1970-01-01T00:00:00+00:00");
    assert_eq!(at(253_402_300_800, 0).unwrap(), "+10000-01-01T00:00:00+00:00");
    assert!(at(8_210_266_876_799, 999_999_999).is_some());
    assert_eq!(at(8_210_266_876_800, 0), None);
    assert!(at(-8_334_601_228_800, 0).is_some());
    assert_eq!(at(-8_334_601_228_801, 0), None);
    assert!(at(59, 1_999_999_999).is_some());
    assert!(at(-1, 1_000_000_000).is_some());
    assert_eq!(at(58, 1_000_000_000), None);
    assert_eq!(at(59, 2_000_000_000), None);
}

#[test]
fn tokens_are_issued_after_the_year_9999() {
    let late = Timestamp { secs: 253_402_300_000, nanos: 0 };
    let mut row = code_row();
    row.expires_at = time_after(&late, 600).unwrap();
    let exchange = exchange_code(&Some(row), &token_form(), &late).unwrap();
    assert!(exchange.refresh.expires_at.starts_with("+10000-"));
    assert!(issue_tokens("a", "r", "c", "x", "s", &late).is_some());
    let last = Timestamp { secs: 8_210_266_876_799 - 2_592_000, nanos: 0 };
    assert!(issue_tokens("a", "r", "c", "x", "s", &last).is_some());
    let beyond = Timestamp { secs: last.secs + 1, nanos: 0 };
    assert!(issue_tokens("a", "r", "c", "x", "s", &beyond).is_none());
}

#[test]
fn exchanges_rotate_what_is_stored() {
    let mut code = Some(code_row());
    let first = exchange_code(&code, &token_form(), &NOW).unwrap();
    assert_eq!(first.spent, code.as_ref().unwrap().code_hash);
    code.as_mut().unwrap().used = 1;
    assert_eq!(
        refusal(exchange_code(&code, &token_form(), &NOW)),
        invalid_grant("authorization code expired or used")
    );
    assert_eq!(first.access.client_id, token_form().client_id);
    assert_eq!(first.access.resource, code.as_ref().unwrap().resource);
    assert_eq!(first.refresh.scope, code.as_ref().unwrap().scope);

    let mut form = token_form();
    form.grant_type = "refresh_token".to_string();
    form.refresh_token = member(&first.response, "refresh_token");
    let mut stored = Some(first.refresh);
    let second = exchange_refresh(&stored, &form, &later(1)).unwrap();
    assert_eq!(second.spent, stored.as_ref().unwrap().token_hash);
    assert_ne!(second.refresh.token_hash, second.spent);
    stored.as_mut().unwrap().revoked = 1;
    assert_eq!(
        refusal(exchange_refresh(&stored, &form, &later(1))),
        invalid_grant("refresh token expired, revoked, or belongs to another client")
    );
}

#[test]
fn long_redirects_are_answered() {
    // A state takes up to three times its bytes in the address.
    let long = form(&"x".repeat(1 << 20), "", "");
    let (_, target) = grant_code(&long, "d", "pcc_c", &NOW).unwrap();
    assert!(target.ends_with(&long.state));
    let wide = form(&"\u{e9}".repeat(1000), "", "");
    let (_, target) = authorize(&wide, "d", &NOW).unwrap();
    assert!(target.ends_with(&"%C3%A9".repeat(1000)));
}
