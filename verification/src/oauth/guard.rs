//! Bearer authentication at the MCP endpoint.

use vstd::prelude::*;

use crate::oauth::issuer::DEFAULT_SCOPE;
use crate::oauth::secrets::not_expired;
use crate::oauth::token::is_accepted;
use crate::oauth::token::AccessRow;
use crate::text::after_prefix;
use crate::text::concat;
use crate::text::concat3;
use crate::text::same_text;
use crate::text::strip_prefix;
use crate::time::Timestamp;

verus! {

/// The resource that a request is for: the server's root or its MCP endpoint.
pub open spec fn resource_of(origin: Seq<char>, path: Seq<char>) -> Seq<char> {
    if path == "/"@ {
        origin + "/"@
    } else {
        origin + "/mcp"@
    }
}

/// The resource that a request is for.
pub fn requested_resource(origin: &str, path: &str) -> (r: String)
    ensures
        r@ == resource_of(origin@, path@),
{
    if same_text(path, "/") {
        concat(origin, "/")
    } else {
        concat(origin, "/mcp")
    }
}

/// The token in an `Authorization` header.
pub fn bearer_token(authorization: &Option<String>) -> (r: Option<String>)
    ensures
        r.deep_view() == (match authorization.deep_view() {
            Some(h) => after_prefix(h, "Bearer "@),
            None => None,
        }),
{
    match authorization {
        Some(h) => strip_prefix(h.as_str(), "Bearer "),
        None => None,
    }
}

/// Whether the access token that was looked up opens the resource. A token that was not found
/// opens nothing.
pub fn validate_access_token(row: &Option<AccessRow>, resource: &str, now: &Timestamp) -> (r: bool)
    ensures
        r == (*row matches Some(token) && is_accepted(token@, resource@, *now)),
{
    match row {
        Some(token) => token.revoked == 0 && same_text(token.resource.as_str(), resource)
            && not_expired(token.expires_at.as_str(), now),
        None => false,
    }
}

/// Where the document on the requested resource is found.
pub open spec fn document_of(origin: Seq<char>, path: Seq<char>) -> Seq<char> {
    if path == "/"@ {
        origin + "/.well-known/oauth-protected-resource"@
    } else {
        origin + "/.well-known/oauth-protected-resource/mcp"@
    }
}

/// What a request without a valid token is answered in the `WWW-Authenticate` header.
pub open spec fn challenge_of(origin: Seq<char>, path: Seq<char>) -> Seq<char> {
    "Bearer realm=\"pc\", resource_metadata=\""@ + document_of(origin, path) + "\", scope=\""@
        + DEFAULT_SCOPE@ + "\""@
}

/// What a request without a valid token is answered in the `WWW-Authenticate` header.
pub fn challenge(origin: &str, path: &str) -> (r: String)
    ensures
        r@ == challenge_of(origin@, path@),
{
    let document = if same_text(path, "/") {
        concat(origin, "/.well-known/oauth-protected-resource")
    } else {
        concat(origin, "/.well-known/oauth-protected-resource/mcp")
    };
    let mut out = concat3(
        "Bearer realm=\"pc\", resource_metadata=\"",
        document.as_str(),
        "\", scope=\"",
    );
    out.push_str(DEFAULT_SCOPE);
    out.push_str("\"");
    out
}

/// Lets a request through where the access token that was looked up for it opens the resource
/// that it is for. Else it says what the request is answered in the `WWW-Authenticate` header.
pub fn require_mcp_auth(origin: &str, path: &str, row: &Option<AccessRow>, now: &Timestamp) -> (r:
    Result<(), String>)
    ensures
        match r {
            Ok(()) => *row matches Some(token) && is_accepted(
                token@,
                resource_of(origin@, path@),
                *now,
            ),
            Err(c) => !(*row matches Some(token) && is_accepted(
                token@,
                resource_of(origin@, path@),
                *now,
            )) && c@ == challenge_of(origin@, path@),
        },
{
    let resource = requested_resource(origin, path);
    if validate_access_token(row, resource.as_str(), now) {
        Ok(())
    } else {
        Err(challenge(origin, path))
    }
}

/// The resource that a token is for: the address of the endpoint that was asked, which is the
/// root or the MCP endpoint. The challenge names the document about that very resource.
pub proof fn lemma_guarded_resources(origin: Seq<char>, path: Seq<char>)
    ensures
        resource_of(origin, "/"@) == origin + "/"@,
        path != "/"@ ==> resource_of(origin, path) == origin + "/mcp"@,
        challenge_of(origin, "/"@) == "Bearer realm=\"pc\", resource_metadata=\""@ + origin
            + "/.well-known/oauth-protected-resource\", scope=\"pc\""@,
        path != "/"@ ==> challenge_of(origin, path) == "Bearer realm=\"pc\", resource_metadata=\""@
            + origin + "/.well-known/oauth-protected-resource/mcp\", scope=\"pc\""@,
{
    reveal_strlit("\", scope=\"");
    reveal_strlit("\"");
    reveal_strlit("pc");
    reveal_strlit("/.well-known/oauth-protected-resource");
    reveal_strlit("/.well-known/oauth-protected-resource/mcp");
    reveal_strlit("/.well-known/oauth-protected-resource\", scope=\"pc\"");
    reveal_strlit("/.well-known/oauth-protected-resource/mcp\", scope=\"pc\"");
    assert(challenge_of(origin, "/"@) =~= "Bearer realm=\"pc\", resource_metadata=\""@ + origin
        + "/.well-known/oauth-protected-resource\", scope=\"pc\""@);
    if path != "/"@ {
        assert(challenge_of(origin, path) =~= "Bearer realm=\"pc\", resource_metadata=\""@ + origin
            + "/.well-known/oauth-protected-resource/mcp\", scope=\"pc\""@);
    }
}

} // verus!
