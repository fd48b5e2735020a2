//! Under which address the server is known, and the documents that say so.

use vstd::prelude::*;

use crate::json::members_of;
use crate::json::object;
use crate::json::push_member;
use crate::json::text;
use crate::json::text_array;
use crate::json::text_items;
use crate::json::Json;
use crate::json::Value;
use crate::outside::authority_host;
use crate::outside::parse_authority;
use crate::text::concat;
use crate::text::concat3;
use crate::text::lowered;
use crate::text::parts;
use crate::text::same_ignoring_case;
use crate::text::same_text;
use crate::text::split;
use crate::text::texts;
use crate::text::to_ascii_lowercase;
use crate::text::trim;
use crate::text::trimmed;
use crate::text::words1;
use crate::text::words2;
use crate::text::words3;

verus! {

/// The scope of all tokens.
pub const DEFAULT_SCOPE: &'static str = "pc";

/// The host of requests that do not name one.
pub const DEFAULT_HOST: &'static str = "127.0.0.1:8686";

/// The headers of a request that are looked at, as far as they are text.
#[derive(Debug)]
pub struct RequestHeaders {
    pub host: Option<String>,
    pub forwarded_proto: Option<String>,
    pub forwarded: Option<String>,
    pub forwarded_port: Option<String>,
    pub authorization: Option<String>,
}

/// Whether one of the parts of a header is the given text, but for white space and letter
/// case.
pub open spec fn some_part_is(ps: Seq<Seq<char>>, want: Seq<char>) -> bool {
    exists|i: int| 0 <= i < ps.len() && lowered(trimmed(#[trigger] ps[i])) == lowered(want)
}

/// Whether a proxy says that the client came by HTTPS.
pub open spec fn came_by_https(h: RequestHeaders) -> bool {
    ||| h.forwarded_proto.deep_view() matches Some(v) && lowered(trimmed(parts(v, ',')[0]))
        == lowered("https"@)
    ||| h.forwarded.deep_view() matches Some(v) && (some_part_is(parts(v, ';'), "proto=https"@)
        || some_part_is(parts(v, ','), "proto=https"@))
    ||| h.forwarded_port.deep_view() matches Some(v) && trimmed(v) == "443"@
}

/// Whether one of the parts of a header is the given text.
fn has_part(header: &str, separator: char, want: &str) -> (r: bool)
    ensures
        r == some_part_is(parts(header@, separator), want@),
{
    let ps = split(header, separator);
    let mut i: usize = 0;
    while i < ps.len()
        invariant
            i <= ps@.len(),
            texts(ps@) == parts(header@, separator),
            forall|j: int|
                0 <= j < i ==> lowered(trimmed(#[trigger] texts(ps@)[j])) != lowered(want@),
        decreases ps@.len() - i,
    {
        let part = trim(ps[i].as_str());
        assert(texts(ps@)[i as int] == ps@[i as int]@);
        if same_ignoring_case(part.as_str(), want) {
            return true;
        }
        i += 1;
    }
    false
}

/// Whether a proxy says that the client came by HTTPS.
fn forwarded_https(headers: &RequestHeaders) -> (r: bool)
    ensures
        r == came_by_https(*headers),
{
    if let Some(v) = &headers.forwarded_proto {
        let ps = split(v.as_str(), ',');
        proof {
            crate::text::lemma_parts_nonempty(v@, ',');
            assert(texts(ps@)[0] == ps@[0]@);
        }
        let first = trim(ps[0].as_str());
        if same_ignoring_case(first.as_str(), "https") {
            return true;
        }
    }
    if let Some(v) = &headers.forwarded {
        if has_part(v.as_str(), ';', "proto=https") || has_part(v.as_str(), ',', "proto=https") {
            return true;
        }
    }
    if let Some(v) = &headers.forwarded_port {
        let port = trim(v.as_str());
        if same_text(port.as_str(), "443") {
            return true;
        }
    }
    false
}

/// The host that a request names.
pub open spec fn host_of(h: RequestHeaders) -> Seq<char> {
    match h.host.deep_view() {
        Some(host) => host,
        None => DEFAULT_HOST@,
    }
}

/// Whether the host is the machine itself, given the host in the text as it was parsed.
pub open spec fn is_local(host: Seq<char>, parsed: Option<Seq<char>>) -> bool {
    let name = lowered(
        match parsed {
            Some(name) => name,
            None => host,
        },
    );
    name == "localhost"@ || name == "127.0.0.1"@ || name == "::1"@
}

/// The address of the server, given the host in the `Host` header as it was parsed.
pub open spec fn origin_with(
    public_url: Option<Seq<char>>,
    h: RequestHeaders,
    parsed: Option<Seq<char>>,
) -> Seq<char> {
    match public_url {
        Some(url) => url,
        None => (if came_by_https(h) || !is_local(host_of(h), parsed) {
            "https"@
        } else {
            "http"@
        }) + "://"@ + host_of(h),
    }
}

/// The address of the server.
pub open spec fn origin(public_url: Option<Seq<char>>, h: RequestHeaders) -> Seq<char> {
    origin_with(public_url, h, authority_host(host_of(h)))
}

/// The address of the server, given the host in the `Host` header as it was parsed: the public
/// URL where there is one. Else the host that the request names, by HTTP only on the machine
/// itself and only where no proxy says otherwise.
pub fn issuer_with(public_url: &Option<String>, headers: &RequestHeaders, parsed: &Option<String>) -> (r:
    String)
    ensures
        r@ == origin_with(public_url.deep_view(), *headers, parsed.deep_view()),
{
    if let Some(url) = public_url {
        return url.clone();
    }
    let host = match &headers.host {
        Some(host) => host.as_str(),
        None => DEFAULT_HOST,
    };
    let name = match parsed {
        Some(name) => to_ascii_lowercase(name.as_str()),
        None => to_ascii_lowercase(host),
    };
    let local = same_text(name.as_str(), "localhost") || same_text(name.as_str(), "127.0.0.1")
        || same_text(name.as_str(), "::1");
    let scheme = if forwarded_https(headers) || !local {
        "https"
    } else {
        "http"
    };
    concat3(scheme, "://", host)
}

/// The address of the server.
pub fn issuer(public_url: &Option<String>, headers: &RequestHeaders) -> (r: String)
    ensures
        r@ == origin(public_url.deep_view(), *headers),
{
    let host = match &headers.host {
        Some(host) => host.as_str(),
        None => DEFAULT_HOST,
    };
    let parsed = parse_authority(host);
    issuer_with(public_url, headers, &parsed)
}

/// The address of the MCP endpoint.
pub fn resource_url(public_url: &Option<String>, headers: &RequestHeaders) -> (r: String)
    ensures
        r@ == origin(public_url.deep_view(), *headers) + "/mcp"@,
{
    let base = issuer(public_url, headers);
    concat(base.as_str(), "/mcp")
}

/// Where there is a public URL, the server is known under it, whatever a request says.
pub proof fn lemma_public_url_wins(url: Seq<char>, h: RequestHeaders)
    ensures
        origin(Some(url), h) == url,
{
}

// ---------------------------------------------------------------------------------------
// Metadata

/// The document on a protected resource.
pub open spec fn resource_document(resource: Seq<char>, server: Seq<char>) -> Value {
    Value::Object(
        seq![
            ("resource"@, Value::Str(resource)),
            ("authorization_servers"@, text_items(seq![server])),
            ("scopes_supported"@, text_items(seq![DEFAULT_SCOPE@])),
            ("bearer_methods_supported"@, text_items(seq!["header"@])),
        ],
    )
}

/// The document on a protected resource.
pub fn protected_resource_metadata(resource: &str, authorization_server: &str) -> (r: Json)
    ensures
        r@ == resource_document(resource@, authorization_server@),
{
    let mut members: Vec<(String, Json)> = Vec::new();
    push_member(&mut members, "resource", text(resource));
    push_member(&mut members, "authorization_servers", text_array(&words1(authorization_server)));
    push_member(&mut members, "scopes_supported", text_array(&words1(DEFAULT_SCOPE)));
    push_member(&mut members, "bearer_methods_supported", text_array(&words1("header")));
    assert(members_of(members@) =~= resource_document(
        resource@,
        authorization_server@,
    )->Object_0);
    object(members)
}

/// The document on the server's root as a protected resource.
pub fn protected_resource_metadata_root(public_url: &Option<String>, headers: &RequestHeaders) -> (r:
    Json)
    ensures
        ({
            let o = origin(public_url.deep_view(), *headers);
            r@ == resource_document(o + "/"@, o)
        }),
{
    let base = issuer(public_url, headers);
    let resource = concat(base.as_str(), "/");
    protected_resource_metadata(resource.as_str(), base.as_str())
}

/// The document on the MCP endpoint as a protected resource.
pub fn protected_resource_metadata_mcp(public_url: &Option<String>, headers: &RequestHeaders) -> (r:
    Json)
    ensures
        ({
            let o = origin(public_url.deep_view(), *headers);
            r@ == resource_document(o + "/mcp"@, o)
        }),
{
    let base = issuer(public_url, headers);
    let resource = concat(base.as_str(), "/mcp");
    protected_resource_metadata(resource.as_str(), base.as_str())
}

/// The document on the authorization server.
pub open spec fn server_document(o: Seq<char>) -> Value {
    Value::Object(
        seq![
            ("issuer"@, Value::Str(o)),
            ("authorization_endpoint"@, Value::Str(o + "/mcp/oauth/authorize"@)),
            ("token_endpoint"@, Value::Str(o + "/mcp/oauth/token"@)),
            ("registration_endpoint"@, Value::Str(o + "/mcp/oauth/register"@)),
            ("response_types_supported"@, text_items(seq!["code"@])),
            (
                "grant_types_supported"@,
                text_items(seq!["authorization_code"@, "refresh_token"@]),
            ),
            ("code_challenge_methods_supported"@, text_items(seq!["S256"@])),
            (
                "token_endpoint_auth_methods_supported"@,
                text_items(seq!["none"@, "client_secret_post"@, "client_secret_basic"@]),
            ),
            ("scopes_supported"@, text_items(seq![DEFAULT_SCOPE@])),
            ("registration_endpoint_auth_methods_supported"@, text_items(seq!["none"@])),
        ],
    )
}

/// The document on the authorization server.
pub fn authorization_server_metadata(public_url: &Option<String>, headers: &RequestHeaders) -> (r:
    Json)
    ensures
        r@ == server_document(origin(public_url.deep_view(), *headers)),
{
    let base = issuer(public_url, headers);
    let o = base.as_str();
    let mut members: Vec<(String, Json)> = Vec::new();
    push_member(&mut members, "issuer", text(o));
    push_member(
        &mut members,
        "authorization_endpoint",
        text(concat(o, "/mcp/oauth/authorize").as_str()),
    );
    push_member(&mut members, "token_endpoint", text(concat(o, "/mcp/oauth/token").as_str()));
    push_member(
        &mut members,
        "registration_endpoint",
        text(concat(o, "/mcp/oauth/register").as_str()),
    );
    push_member(&mut members, "response_types_supported", text_array(&words1("code")));
    push_member(
        &mut members,
        "grant_types_supported",
        text_array(&words2("authorization_code", "refresh_token")),
    );
    push_member(&mut members, "code_challenge_methods_supported", text_array(&words1("S256")));
    push_member(
        &mut members,
        "token_endpoint_auth_methods_supported",
        text_array(&words3("none", "client_secret_post", "client_secret_basic")),
    );
    push_member(&mut members, "scopes_supported", text_array(&words1(DEFAULT_SCOPE)));
    push_member(
        &mut members,
        "registration_endpoint_auth_methods_supported",
        text_array(&words1("none")),
    );
    assert(members_of(members@) =~= server_document(o@)->Object_0);
    object(members)
}

/// Where the server says it is, where no public address is set: at the host that the request
/// names, or at the default one where it names none. The scheme is `http` only where the host is
/// this very machine and no proxy says that the request came by HTTPS.
pub proof fn lemma_where_the_server_is(h: RequestHeaders, parsed: Option<Seq<char>>)
    ensures
        ({
            let host = match h.host {
                Some(host) => host@,
                None => "127.0.0.1:8686"@,
            };
            let name = lowered(
                match parsed {
                    Some(name) => name,
                    None => host,
                },
            );
            let local = name == "localhost"@ || name == "127.0.0.1"@ || name == "::1"@;
            &&& local && !came_by_https(h) ==> origin_with(None, h, parsed) == "http://"@ + host
            &&& !local || came_by_https(h) ==> origin_with(None, h, parsed) == "https://"@ + host
            &&& origin(None, h) == origin_with(None, h, authority_host(host))
        }),
{
    reveal_strlit("http");
    reveal_strlit("https");
    reveal_strlit("://");
    reveal_strlit("http://");
    reveal_strlit("https://");
    let host = host_of(h);
    assert("https"@ + "://"@ + host =~= "https://"@ + host);
    assert("http"@ + "://"@ + host =~= "http://"@ + host);
}

/// When a proxy says that a request came by HTTPS: by the first protocol that it forwards, by a
/// `proto=https` among what it forwards, or by the port 443; in whatever case, and with white
/// space around it. Without any of the three headers it does not say so.
pub proof fn lemma_when_a_request_came_by_https(h: RequestHeaders, i: int)
    ensures
        h.forwarded_proto is None && h.forwarded is None && h.forwarded_port is None
            ==> !came_by_https(h),
        h.forwarded_proto matches Some(v) ==> lowered(trimmed(parts(v@, ',')[0])) == "https"@
            ==> came_by_https(h),
        h.forwarded matches Some(v) ==> 0 <= i < parts(v@, ';').len() && lowered(
            trimmed(parts(v@, ';')[i]),
        ) == "proto=https"@ ==> came_by_https(h),
        h.forwarded matches Some(v) ==> 0 <= i < parts(v@, ',').len() && lowered(
            trimmed(parts(v@, ',')[i]),
        ) == "proto=https"@ ==> came_by_https(h),
        h.forwarded_port matches Some(v) ==> trimmed(v@) == "443"@ ==> came_by_https(h),
        came_by_https(h) ==> {
            ||| h.forwarded_proto matches Some(v) && lowered(trimmed(parts(v@, ',')[0]))
                == "https"@
            ||| h.forwarded matches Some(v) && exists|j: int|
                0 <= j < parts(v@, ';').len() && lowered(trimmed(#[trigger] parts(v@, ';')[j]))
                    == "proto=https"@
            ||| h.forwarded matches Some(v) && exists|j: int|
                0 <= j < parts(v@, ',').len() && lowered(trimmed(#[trigger] parts(v@, ',')[j]))
                    == "proto=https"@
            ||| h.forwarded_port matches Some(v) && trimmed(v@) == "443"@
        },
{
    reveal_strlit("https");
    reveal_strlit("proto=https");
    assert(lowered("https"@) =~= "https"@);
    assert(lowered("proto=https"@) =~= "proto=https"@);
    if let Some(v) = h.forwarded {
        if 0 <= i < parts(v@, ';').len() {
            assert(lowered(trimmed(parts(v@, ';')[i])) == lowered("proto=https"@) ==> some_part_is(
                parts(v@, ';'),
                "proto=https"@,
            ));
        }
        if 0 <= i < parts(v@, ',').len() {
            assert(lowered(trimmed(parts(v@, ',')[i])) == lowered("proto=https"@) ==> some_part_is(
                parts(v@, ','),
                "proto=https"@,
            ));
        }
    }
}

/// What the documents say: each resource names the server, and the server names its endpoints,
/// all under the server's own address, and what it supports. They say nothing else.
pub proof fn lemma_documents(resource: Seq<char>, o: Seq<char>)
    ensures
        resource_document(resource, o) == Value::Object(
            seq![
                ("resource"@, Value::Str(resource)),
                ("authorization_servers"@, text_items(seq![o])),
                ("scopes_supported"@, text_items(seq!["pc"@])),
                ("bearer_methods_supported"@, text_items(seq!["header"@])),
            ],
        ),
        server_document(o) == Value::Object(
            seq![
                ("issuer"@, Value::Str(o)),
                ("authorization_endpoint"@, Value::Str(o + "/mcp/oauth/authorize"@)),
                ("token_endpoint"@, Value::Str(o + "/mcp/oauth/token"@)),
                ("registration_endpoint"@, Value::Str(o + "/mcp/oauth/register"@)),
                ("response_types_supported"@, text_items(seq!["code"@])),
                (
                    "grant_types_supported"@,
                    text_items(seq!["authorization_code"@, "refresh_token"@]),
                ),
                ("code_challenge_methods_supported"@, text_items(seq!["S256"@])),
                (
                    "token_endpoint_auth_methods_supported"@,
                    text_items(seq!["none"@, "client_secret_post"@, "client_secret_basic"@]),
                ),
                ("scopes_supported"@, text_items(seq!["pc"@])),
                ("registration_endpoint_auth_methods_supported"@, text_items(seq!["none"@])),
            ],
        ),
{
}

} // verus!
