//! What is checked and set up before the server starts, and what is done to requests before
//! they reach the MCP endpoint.

use vstd::prelude::*;

use crate::json::find_member;
use crate::json::is_shallow;
use crate::json::lemma_default_is_added_where_missing;
use crate::json::lemma_first_member_is_found;
use crate::json::lemma_member_names;
use crate::json::lemma_member_place;
use crate::json::lemma_object;
use crate::json::member_place;
use crate::json::members_of;
use crate::json::push_default;
use crate::json::push_member;
use crate::json::with_default;
use crate::json::Json;
use crate::json::Value;
use crate::outside::json_body;
use crate::outside::json_bytes;
use crate::outside::parse_json;
use crate::outside::parse_url;
use crate::outside::parsed_url;
use crate::outside::write_json;
use crate::outside::Address;
use crate::outside::UrlParts;
use crate::text::begins_with;
use crate::text::byte_len;
use crate::text::concat;
use crate::text::is_space;
use crate::text::lowered;
use crate::text::parts;
use crate::text::same_text;
use crate::text::split;
use crate::text::starts_with;
use crate::text::text_bytes;
use crate::text::texts;
use crate::text::texts_contain;
use crate::text::to_ascii_lowercase;
use crate::text::trim;
use crate::text::trim_end_char;
use crate::text::trimmed;
use crate::text::trimmed_end;
use crate::text::trimmed_start;
use crate::text::without_trailing;

verus! {

// ---------------------------------------------------------------------------------------
// Hosts

/// A host name without white space around it and in lower case.
pub open spec fn normal_host(host: Seq<char>) -> Seq<char> {
    lowered(trimmed(host))
}

/// The host names in their normal form, without empty ones.
pub open spec fn normal_hosts(hosts: Seq<Seq<char>>) -> Seq<Seq<char>>
    decreases hosts.len(),
{
    if hosts.len() == 0 {
        Seq::<Seq<char>>::empty()
    } else if normal_host(hosts.last()).len() == 0 {
        normal_hosts(hosts.drop_last())
    } else {
        normal_hosts(hosts.drop_last()).push(normal_host(hosts.last()))
    }
}

/// Brings host names into their normal form and leaves out empty ones.
pub fn normalize_hosts(hosts: &Vec<String>) -> (r: Vec<String>)
    ensures
        texts(r@) == normal_hosts(texts(hosts@)),
{
    let mut out: Vec<String> = Vec::new();
    let mut i: usize = 0;
    assert(texts(out@) =~= normal_hosts(texts(hosts@).take(0)));
    while i < hosts.len()
        invariant
            i <= hosts@.len(),
            texts(out@) == normal_hosts(texts(hosts@).take(i as int)),
        decreases hosts@.len() - i,
    {
        let ghost before = texts(out@);
        let bare = trim(hosts[i].as_str());
        let host = to_ascii_lowercase(bare.as_str());
        let ghost shown = host@;
        assert(texts(hosts@).take(i + 1).drop_last() =~= texts(hosts@).take(i as int));
        assert(texts(hosts@).take(i + 1).last() == hosts@[i as int]@);
        if !host.as_str().is_empty() {
            out.push(host);
            assert(texts(out@) =~= before.push(shown));
        }
        i += 1;
    }
    assert(texts(hosts@).take(hosts@.len() as int) =~= texts(hosts@));
    out
}

/// The host names in a comma-separated list.
pub fn parse_hosts(raw: &str) -> (r: Vec<String>)
    ensures
        texts(r@) == normal_hosts(parts(raw@, ',')),
{
    let hosts = split(raw, ',');
    normalize_hosts(&hosts)
}

// ---------------------------------------------------------------------------------------
// The public URL and production

/// What is left of a text between white space neither begins nor ends with white space.
proof fn lemma_trimmed(s: Seq<char>)
    ensures
        trimmed(s).len() > 0 ==> !is_space(trimmed(s)[0]) && !is_space(trimmed(s).last()),
{
    lemma_trimmed_start(s);
    lemma_trimmed_end(trimmed_start(s));
}

proof fn lemma_trimmed_start(s: Seq<char>)
    ensures
        trimmed_start(s).len() > 0 ==> !is_space(trimmed_start(s)[0]),
    decreases s.len(),
{
    if s.len() > 0 && is_space(s[0]) {
        lemma_trimmed_start(s.drop_first());
    }
}

proof fn lemma_trimmed_end(s: Seq<char>)
    ensures
        trimmed_end(s).len() > 0 ==> !is_space(trimmed_end(s).last()) && trimmed_end(s)[0] == s[0],
    decreases s.len(),
{
    if s.len() > 0 && is_space(s.last()) {
        lemma_trimmed_end(s.drop_last());
    }
}

/// The normal form of a host name is its own normal form.
proof fn lemma_normal_host(h: Seq<char>)
    ensures
        normal_host(normal_host(h)) == normal_host(h),
{
    lemma_trimmed(h);
    let n = normal_host(h);
    assert(trimmed(n) == n);
    assert(lowered(n) =~= n);
}

/// Host names in their normal form stay as they are: to normalize them once more changes
/// nothing.
pub proof fn lemma_hosts_are_normalized_once(hosts: Seq<Seq<char>>)
    ensures
        normal_hosts(normal_hosts(hosts)) == normal_hosts(hosts),
    decreases hosts.len(),
{
    if hosts.len() > 0 {
        let rest = normal_hosts(hosts.drop_last());
        lemma_hosts_are_normalized_once(hosts.drop_last());
        lemma_normal_host(hosts.last());
        let n = normal_host(hosts.last());
        if n.len() > 0 {
            assert(rest.push(n).drop_last() =~= rest);
        }
    }
}

/// The public URL without white space around it and without slashes at its end, where it is
/// not empty.
pub open spec fn normal_url(url: Option<Seq<char>>) -> Option<Seq<char>> {
    match url {
        Some(u) => if trimmed(u).len() > 0 {
            Some(without_trailing(trimmed(u), '/'))
        } else {
            None
        },
        None => None,
    }
}

/// Brings the public URL into its normal form.
pub fn normalize_public_url(url: &Option<String>) -> (r: Option<String>)
    ensures
        r.deep_view() == normal_url(url.deep_view()),
{
    match url {
        Some(u) => {
            let bare = trim(u.as_str());
            if bare.as_str().is_empty() {
                None
            } else {
                Some(trim_end_char(bare.as_str(), '/'))
            }
        },
        None => None,
    }
}

/// A parsed URL, or why it could not be parsed, as mathematical values.
pub open spec fn url_result(r: Result<UrlParts, String>) -> Result<Address, Seq<char>> {
    match r {
        Ok(parts) => Ok(parts@),
        Err(e) => Err(e@),
    }
}

/// What is wrong with a public URL, if anything is.
pub open spec fn public_url_problem(parsed: Result<Address, Seq<char>>) -> Option<Seq<char>> {
    match parsed {
        Err(e) => Some("parse public_url: "@ + e),
        Ok(a) => if a.host is None {
            Some("public_url must contain a host"@)
        } else if a.username.len() > 0 {
            Some("public_url must not contain username"@)
        } else if a.has_password {
            Some("public_url must not contain password"@)
        } else if a.has_query {
            Some("public_url must not contain query"@)
        } else if a.has_fragment {
            Some("public_url must not contain fragment"@)
        } else {
            None
        },
    }
}

/// Says what is wrong with a public URL, given what it was parsed to.
pub fn check_public_url(parsed: &Result<UrlParts, String>) -> (r: Result<(), String>)
    ensures
        match public_url_problem(url_result(*parsed)) {
            None => r is Ok,
            Some(m) => r matches Err(e) && e@ == m,
        },
{
    match parsed {
        Err(e) => Err(concat("parse public_url: ", e.as_str())),
        Ok(url) => {
            if url.host.is_none() {
                Err("public_url must contain a host".to_owned())
            } else if !url.username.as_str().is_empty() {
                Err("public_url must not contain username".to_owned())
            } else if url.has_password {
                Err("public_url must not contain password".to_owned())
            } else if url.has_query {
                Err("public_url must not contain query".to_owned())
            } else if url.has_fragment {
                Err("public_url must not contain fragment".to_owned())
            } else {
                Ok(())
            }
        },
    }
}

/// Says what is wrong with a public URL.
pub fn validate_public_url(raw: &str) -> (r: Result<(), String>)
    ensures
        match public_url_problem(parsed_url(raw@)) {
            None => r is Ok,
            Some(m) => r matches Err(e) && e@ == m,
        },
{
    let parsed = parse_url(raw);
    check_public_url(&parsed)
}

/// The fewest bytes of a password in production.
pub const MIN_PASSWORD_BYTES: usize = 16;

/// What keeps pc from running in production, if anything does: the public URL as it was
/// parsed, where there is one, the password and the hosts that clients may redirect to.
pub open spec fn production_problem(
    public_url: Option<Result<Address, Seq<char>>>,
    password: Option<Seq<char>>,
    hosts: nat,
) -> Option<Seq<char>> {
    match public_url {
        None => Some("public_url is required in production"@),
        Some(Err(e)) => Some("parse public_url: "@ + e),
        Some(Ok(a)) => if !(a.scheme == "https"@ && a.host is Some) {
            Some("public_url must be an absolute https:// URL in production"@)
        } else if !(password matches Some(p) && byte_len(p) >= MIN_PASSWORD_BYTES) {
            Some("oauth_password must be at least 16 characters in production"@)
        } else if hosts == 0 {
            Some("allowed_redirect_hosts is required in production"@)
        } else {
            None
        },
    }
}

/// Says what keeps pc from running in production.
pub fn check_production(
    public_url: &Option<Result<UrlParts, String>>,
    password: &Option<String>,
    hosts: &Vec<String>,
) -> (r: Result<(), String>)
    ensures
        match production_problem(
            match *public_url {
                Some(u) => Some(url_result(u)),
                None => None,
            },
            password.deep_view(),
            hosts@.len(),
        ) {
            None => r is Ok,
            Some(m) => r matches Err(e) && e@ == m,
        },
{
    let url = match public_url {
        None => {
            return Err("public_url is required in production".to_owned());
        },
        Some(Err(e)) => {
            return Err(concat("parse public_url: ", e.as_str()));
        },
        Some(Ok(url)) => url,
    };
    if !same_text(url.scheme.as_str(), "https") || url.host.is_none() {
        return Err("public_url must be an absolute https:// URL in production".to_owned());
    }
    let long_enough = match password {
        Some(p) => text_bytes(p.as_str()) >= MIN_PASSWORD_BYTES,
        None => false,
    };
    if !long_enough {
        return Err("oauth_password must be at least 16 characters in production".to_owned());
    }
    if hosts.len() == 0 {
        return Err("allowed_redirect_hosts is required in production".to_owned());
    }
    Ok(())
}

/// What keeps pc from starting with the given settings, if anything does.
pub open spec fn startup_problem(
    public_url: Option<Seq<char>>,
    password: Option<Seq<char>>,
    production: bool,
    hosts: nat,
) -> Option<Seq<char>> {
    let first = match public_url {
        Some(u) => public_url_problem(parsed_url(u)),
        None => None,
    };
    match first {
        Some(m) => Some(m),
        None => if production {
            production_problem(
                match public_url {
                    Some(u) => Some(parsed_url(u)),
                    None => None,
                },
                password,
                hosts,
            )
        } else {
            None
        },
    }
}

/// Says what keeps pc from starting with the given settings, which are in their normal form.
pub fn check_startup(
    public_url: &Option<String>,
    password: &Option<String>,
    production: bool,
    hosts: &Vec<String>,
) -> (r: Result<(), String>)
    ensures
        match startup_problem(
            public_url.deep_view(),
            password.deep_view(),
            production,
            hosts@.len(),
        ) {
            None => r is Ok,
            Some(m) => r matches Err(e) && e@ == m,
        },
{
    let parsed = match public_url {
        Some(u) => {
            let parsed = parse_url(u.as_str());
            match check_public_url(&parsed) {
                Ok(()) => {},
                Err(m) => {
                    return Err(m);
                },
            }
            Some(parsed)
        },
        None => None,
    };
    if production {
        check_production(&parsed, password, hosts)
    } else {
        Ok(())
    }
}

// ---------------------------------------------------------------------------------------
// The MCP endpoint

/// How the MCP endpoint is set up.
#[derive(Debug)]
pub struct McpHttpConfig {
    pub allowed_hosts: Vec<String>,
    pub legacy_session_mode: bool,
    pub stateless_protocol_metadata_required: bool,
    pub json_response: bool,
}

/// The hosts that requests may always name.
pub open spec fn local_hosts() -> Seq<Seq<char>> {
    seq!["localhost"@, "127.0.0.1"@, "::1"@]
}

/// The hosts that requests may name: those of the machine itself and the public one.
pub open spec fn guarded_hosts(public: Option<Seq<char>>) -> Seq<Seq<char>> {
    match public {
        Some(host) => if local_hosts().contains(lowered(host)) {
            local_hosts()
        } else {
            local_hosts().push(lowered(host))
        },
        None => local_hosts(),
    }
}

/// The set-up of the MCP endpoint, given the host of the public URL.
pub fn mcp_config_for(host: &Option<String>) -> (r: McpHttpConfig)
    ensures
        texts(r.allowed_hosts@) == guarded_hosts(host.deep_view()),
        !r.legacy_session_mode,
        !r.stateless_protocol_metadata_required,
        !r.json_response,
{
    let mut allowed_hosts = crate::text::words3("localhost", "127.0.0.1", "::1");
    let ghost local = texts(allowed_hosts@);
    if let Some(host) = host {
        let host = to_ascii_lowercase(host.as_str());
        if !texts_contain(&allowed_hosts, host.as_str()) {
            let ghost shown = host@;
            allowed_hosts.push(host);
            assert(texts(allowed_hosts@) =~= local.push(shown));
        }
    }
    McpHttpConfig {
        allowed_hosts,
        legacy_session_mode: false,
        stateless_protocol_metadata_required: false,
        json_response: false,
    }
}

/// The set-up of the MCP endpoint for the given public URL, or why there is none.
pub fn mcp_http_config(public_url: &Option<String>) -> (r: Result<McpHttpConfig, String>)
    ensures
        match r {
            Ok(c) => {
                &&& !c.legacy_session_mode
                &&& !c.stateless_protocol_metadata_required
                &&& !c.json_response
                &&& match public_url.deep_view() {
                    Some(u) => parsed_url(u) matches Ok(a) && texts(c.allowed_hosts@)
                        == guarded_hosts(a.host),
                    None => texts(c.allowed_hosts@) == local_hosts(),
                }
            },
            Err(m) => public_url.deep_view() matches Some(u) && parsed_url(u) matches Err(e) && m@
                == "parse public_url for MCP host guard: "@ + e,
        },
{
    match public_url {
        Some(u) => match parse_url(u.as_str()) {
            Ok(url) => Ok(mcp_config_for(&url.host)),
            Err(e) => Err(concat("parse public_url for MCP host guard: ", e.as_str())),
        },
        None => Ok(mcp_config_for(&None)),
    }
}

/// Whether a response is a stream of events, by its content type.
pub fn is_event_stream(content_type: &Option<String>) -> (r: bool)
    ensures
        r == (content_type.deep_view() matches Some(t) && begins_with(t, "text/event-stream"@)),
{
    match content_type {
        Some(t) => starts_with(t.as_str(), "text/event-stream"),
        None => false,
    }
}

/// The caching rule of event streams.
pub const EVENT_STREAM_CACHE_CONTROL: &'static str = "no-cache, no-transform";

/// Whether a request lists the tools, by its `mcp-method` header.
pub fn is_tools_list(method: &Option<String>) -> (r: bool)
    ensures
        r == (method.deep_view() == Some("tools/list"@)),
{
    match method {
        Some(m) => same_text(m.as_str(), "tools/list"),
        None => false,
    }
}

/// The protocol version of requests that do not name one.
pub const DEFAULT_PROTOCOL_VERSION: &'static str = "2026-07-28";

/// The protocol version of a request, by its `mcp-protocol-version` header.
pub fn scan_protocol_version(header: &Option<String>) -> (r: String)
    ensures
        r@ == (match header.deep_view() {
            Some(v) => v,
            None => DEFAULT_PROTOCOL_VERSION@,
        }),
{
    match header {
        Some(v) => v.clone(),
        None => DEFAULT_PROTOCOL_VERSION.to_owned(),
    }
}

/// The name of the metadata that says which protocol version a request speaks.
pub const META_VERSION: &'static str = "io.modelcontextprotocol/protocolVersion";

/// The name of the metadata that says what a client can do.
pub const META_CAPABILITIES: &'static str = "io.modelcontextprotocol/clientCapabilities";

/// The metadata with the protocol version and the client's capabilities, where they are not
/// given.
pub open spec fn full_meta(meta: Value, version: Seq<char>) -> Value {
    match meta {
        Value::Object(m) => Value::Object(
            with_default(
                with_default(m, META_VERSION@, Value::Str(version)),
                META_CAPABILITIES@,
                Value::Object(Seq::empty()),
            ),
        ),
        _ => meta,
    }
}

/// The parameters with full metadata.
pub open spec fn full_params(params: Value, version: Seq<char>) -> Value {
    match params {
        Value::Object(m) => match member_place(m, "_meta"@, 0) {
            Some(i) => Value::Object(m.update(i, (m[i].0, full_meta(m[i].1, version)))),
            None => Value::Object(
                m.push(("_meta"@, full_meta(Value::Object(Seq::empty()), version))),
            ),
        },
        _ => params,
    }
}

/// The request with full metadata in its parameters, where it has parameters.
pub open spec fn full_request(request: Value, version: Seq<char>) -> Value {
    match request {
        Value::Object(m) => match member_place(m, "params"@, 0) {
            Some(i) => Value::Object(m.update(i, (m[i].0, full_params(m[i].1, version)))),
            None => request,
        },
        _ => request,
    }
}

/// Completes the metadata.
fn complete_meta(meta: Json, version: &str) -> (r: Json)
    ensures
        r@ == full_meta(meta@, version@),
{
    match meta {
        Json::Object(members) => {
            proof {
                lemma_object(members);
            }
            let mut members = members;
            push_default(&mut members, META_VERSION, Json::Str(version.to_owned()));
            let nothing: Vec<(String, Json)> = Vec::new();
            proof {
                lemma_object(nothing);
                assert(members_of(nothing@) =~= Seq::empty());
            }
            push_default(&mut members, META_CAPABILITIES, Json::Object(nothing));
            proof {
                lemma_object(members);
            }
            Json::Object(members)
        },
        other => other,
    }
}

/// Completes the metadata in the parameters.
fn complete_params(params: Json, version: &str) -> (r: Json)
    ensures
        r@ == full_params(params@, version@),
{
    match params {
        Json::Object(members) => {
            proof {
                lemma_object(members);
            }
            let mut members = members;
            let ghost before = members_of(members@);
            match find_member(&members, "_meta") {
                Some(i) => {
                    let (key, meta) = members.remove(i);
                    let meta = complete_meta(meta, version);
                    let ghost now = (key@, meta@);
                    members.insert(i, (key, meta));
                    assert(members_of(members@) =~= before.update(i as int, now));
                },
                None => {
                    let nothing: Vec<(String, Json)> = Vec::new();
                    proof {
                        lemma_object(nothing);
                        assert(members_of(nothing@) =~= Seq::empty());
                    }
                    let meta = complete_meta(Json::Object(nothing), version);
                    push_member(&mut members, "_meta", meta);
                },
            }
            proof {
                lemma_object(members);
            }
            Json::Object(members)
        },
        other => other,
    }
}

/// Completes the metadata of a request that lists the tools, so that a request without any is
/// accepted too.
pub fn complete_request(request: Json, version: &str) -> (r: Json)
    ensures
        r@ == full_request(request@, version@),
{
    match request {
        Json::Object(members) => {
            proof {
                lemma_object(members);
            }
            let mut members = members;
            let ghost before = members_of(members@);
            match find_member(&members, "params") {
                Some(i) => {
                    let (key, params) = members.remove(i);
                    let params = complete_params(params, version);
                    let ghost now = (key@, params@);
                    members.insert(i, (key, params));
                    assert(members_of(members@) =~= before.update(i as int, now));
                },
                None => {},
            }
            proof {
                lemma_object(members);
            }
            Json::Object(members)
        },
        other => other,
    }
}

/// Completing a request makes it no deeper.
proof fn lemma_full_request_is_shallow(request: Value, version: Seq<char>, n: nat)
    requires
        n >= 4,
        is_shallow(request, n),
    ensures
        is_shallow(full_request(request, version), n),
{
    if let Value::Object(m) = request {
        lemma_member_place(m, "params"@, 0);
        if let Some(i) = member_place(m, "params"@, 0) {
            assert(is_shallow(m[i].1, (n - 1) as nat));
            lemma_full_params_are_shallow(m[i].1, version, (n - 1) as nat);
            let done = m.update(i, (m[i].0, full_params(m[i].1, version)));
            assert forall|j: int| 0 <= j < done.len() implies is_shallow(
                (#[trigger] done[j]).1,
                (n - 1) as nat,
            ) by {
                assert(is_shallow(m[j].1, (n - 1) as nat));
            }
        }
    }
}

proof fn lemma_full_params_are_shallow(params: Value, version: Seq<char>, n: nat)
    requires
        n >= 3,
        is_shallow(params, n),
    ensures
        is_shallow(full_params(params, version), n),
{
    if let Value::Object(m) = params {
        let inner = (n - 1) as nat;
        lemma_member_place(m, "_meta"@, 0);
        let done = full_params(params, version)->Object_0;
        let empty = Value::Object(Seq::empty());
        lemma_full_meta_is_shallow(empty, version, inner);
        if let Some(i) = member_place(m, "_meta"@, 0) {
            assert(is_shallow(m[i].1, inner));
            lemma_full_meta_is_shallow(m[i].1, version, inner);
        }
        assert forall|j: int| 0 <= j < done.len() implies is_shallow((#[trigger] done[j]).1, inner) by {
            if j < m.len() {
                assert(is_shallow(m[j].1, inner));
            }
        }
    }
}

proof fn lemma_full_meta_is_shallow(meta: Value, version: Seq<char>, n: nat)
    requires
        n >= 2,
        is_shallow(meta, n),
    ensures
        is_shallow(full_meta(meta, version), n),
{
    if let Value::Object(m) = meta {
        let inner = (n - 1) as nat;
        let done = full_meta(meta, version)->Object_0;
        assert(is_shallow(Value::Object(Seq::empty()), inner));
        assert(is_shallow(Value::Str(version), inner));
        assert forall|j: int| 0 <= j < done.len() implies is_shallow((#[trigger] done[j]).1, inner) by {
            if j < m.len() {
                assert(is_shallow(m[j].1, inner));
            }
        }
    }
}

/// The body of a request that lists the tools, with full metadata. There is none where the body
/// that came in is no JSON.
pub open spec fn completed_body(bytes: Seq<u8>, version: Seq<char>) -> Option<Seq<u8>> {
    match json_body(bytes) {
        Some(request) => json_bytes(full_request(request, version)),
        None => None,
    }
}

/// Completes the metadata in the body of a request that lists the tools. Where nothing comes
/// back, the body that came in is handed on as it is.
pub fn complete_body(bytes: &Vec<u8>, version: &str) -> (r: Option<Vec<u8>>)
    ensures
        match completed_body(bytes@, version@) {
            Some(b) => r matches Some(v) && v@ == b,
            None => r is None,
        },
{
    match parse_json(bytes) {
        Some(request) => {
            proof {
                lemma_full_request_is_shallow(request@, version@, 128);
            }
            write_json(complete_request(request, version))
        },
        None => None,
    }
}

proof fn lemma_default_stays(m: Seq<(Seq<char>, Value)>, key: Seq<char>, a: Value, b: Value)
    ensures
        with_default(with_default(m, key, a), key, b) == with_default(m, key, a),
{
    let w = with_default(m, key, a);
    lemma_member_place(m, key, 0);
    lemma_member_place(w, key, 0);
    if member_place(m, key, 0) is None {
        assert(w[m.len() as int].0 == key);
    }
}

/// A member that is there stays there when another one is added.
proof fn lemma_default_keeps(m: Seq<(Seq<char>, Value)>, key: Seq<char>, other: Seq<char>, v: Value)
    requires
        member_place(m, key, 0) is Some,
    ensures
        member_place(with_default(m, other, v), key, 0) is Some,
{
    lemma_member_names(m, with_default(m, other, v), key, 0);
}

/// Metadata that is complete is not completed further.
proof fn lemma_meta_once(meta: Value, a: Seq<char>, b: Seq<char>)
    ensures
        full_meta(full_meta(meta, a), b) == full_meta(meta, a),
{
    if let Value::Object(m) = meta {
        let nothing = Value::Object(Seq::empty());
        let v = with_default(m, META_VERSION@, Value::Str(a));
        let c = with_default(v, META_CAPABILITIES@, nothing);
        lemma_member_place(v, META_VERSION@, 0);
        lemma_member_place(m, META_VERSION@, 0);
        if member_place(m, META_VERSION@, 0) is None {
            assert(v[m.len() as int].0 == META_VERSION@);
        }
        assert(member_place(v, META_VERSION@, 0) is Some);
        lemma_default_keeps(v, META_VERSION@, META_CAPABILITIES@, nothing);
        lemma_default_stays(v, META_CAPABILITIES@, nothing, nothing);
    }
}

/// A request that is complete is not completed further, whatever version is named.
pub proof fn lemma_request_is_completed_once(request: Value, a: Seq<char>, b: Seq<char>)
    ensures
        full_request(full_request(request, a), b) == full_request(request, a),
{
    if let Value::Object(m) = request {
        if let Some(i) = member_place(m, "params"@, 0) {
            lemma_member_place(m, "params"@, 0);
            let params = m[i].1;
            let done = m.update(i, (m[i].0, full_params(params, a)));
            lemma_member_names(m, done, "params"@, 0);
            lemma_params_once(params, a, b);
            assert(done.update(i, (done[i].0, full_params(done[i].1, b))) =~= done);
        }
    }
}

proof fn lemma_params_once(params: Value, a: Seq<char>, b: Seq<char>)
    ensures
        full_params(full_params(params, a), b) == full_params(params, a),
{
    if let Value::Object(m) = params {
        lemma_member_place(m, "_meta"@, 0);
        match member_place(m, "_meta"@, 0) {
            Some(i) => {
                let done = m.update(i, (m[i].0, full_meta(m[i].1, a)));
                lemma_member_names(m, done, "_meta"@, 0);
                lemma_meta_once(m[i].1, a, b);
                assert(done.update(i, (done[i].0, full_meta(done[i].1, b))) =~= done);
            },
            None => {
                let empty = Value::Object(Seq::empty());
                let done = m.push(("_meta"@, full_meta(empty, a)));
                lemma_member_place(done, "_meta"@, 0);
                let i = m.len() as int;
                assert(done[i].0 == "_meta"@);
                assert(member_place(done, "_meta"@, 0) == Some(i)) by {
                    let p = member_place(done, "_meta"@, 0)->0;
                    if p < i {
                        assert(m[p].0 == done[p].0);
                    } else if p > i {
                        assert(done[i].0 != "_meta"@);
                    }
                }
                lemma_meta_once(empty, a, b);
                assert(done.update(i, (done[i].0, full_meta(done[i].1, b))) =~= done);
            },
        }
    }
}

// ---------------------------------------------------------------------------------------
// What is kept, what is refused and what is added

/// No host gets lost: each host name stands among the normalized ones at its place in the list,
/// without the white space around it and in lower case, unless nothing is left of it.
pub proof fn lemma_no_host_is_lost(
    before: Seq<Seq<char>>,
    host: Seq<char>,
    after: Seq<Seq<char>>,
)
    ensures
        normal_hosts(Seq::empty()) == Seq::<Seq<char>>::empty(),
        trimmed(host).len() == 0 ==> normal_hosts(before + seq![host] + after) == normal_hosts(
            before,
        ) + normal_hosts(after),
        trimmed(host).len() > 0 ==> normal_hosts(before + seq![host] + after) == normal_hosts(
            before,
        ) + seq![lowered(trimmed(host))] + normal_hosts(after),
    decreases after.len(),
{
    let all = before + seq![host] + after;
    if after.len() == 0 {
        assert(all.drop_last() =~= before);
        assert(normal_hosts(after) =~= Seq::<Seq<char>>::empty());
        assert(normal_hosts(before) + normal_hosts(after) =~= normal_hosts(before));
        let n = lowered(trimmed(host));
        assert(normal_hosts(before).push(n) =~= normal_hosts(before) + seq![n] + normal_hosts(
            after,
        ));
    } else {
        lemma_no_host_is_lost(before, host, after.drop_last());
        assert(all.drop_last() =~= before + seq![host] + after.drop_last());
        assert(all.last() == after.last());
        let rest = normal_hosts(after.drop_last());
        let n = lowered(trimmed(after.last()));
        let b = normal_hosts(before);
        let h = seq![lowered(trimmed(host))];
        assert((b + rest).push(n) =~= b + rest.push(n));
        assert((b + h + rest).push(n) =~= b + h + rest.push(n));
    }
}

/// The public URL is what was given without the white space around it, and without the slashes
/// at its end, all of them and nothing else. One that is blank counts as none.
pub proof fn lemma_normal_url(u: Seq<char>, bare: Seq<char>, slashes: nat)
    ensures
        normal_url(None) is None,
        trimmed(u).len() == 0 ==> normal_url(Some(u)) is None,
        trimmed(u).len() > 0 && trimmed(u) == bare + Seq::new(slashes, |i: int| '/') && (bare.len()
            == 0 || bare.last() != '/') ==> normal_url(Some(u)) == Some(bare),
{
    if bare.len() == 0 || bare.last() != '/' {
        crate::text::lemma_without_trailing(bare, '/', slashes);
    }
}

/// A public URL is accepted if and only if it can be parsed and has a host, and has neither a
/// username nor a password, a query or a fragment. The message names the first of these that
/// is wrong.
pub proof fn lemma_when_a_public_url_is_accepted(a: Address, e: Seq<char>)
    ensures
        public_url_problem(Err(e)) == Some("parse public_url: "@ + e),
        public_url_problem(Ok(a)) is None <==> a.host is Some && a.username.len() == 0
            && !a.has_password && !a.has_query && !a.has_fragment,
        a.host is None ==> public_url_problem(Ok(a)) == Some("public_url must contain a host"@),
        a.host is Some && a.username.len() > 0 ==> public_url_problem(Ok(a)) == Some(
            "public_url must not contain username"@,
        ),
        a.host is Some && a.username.len() == 0 && a.has_password ==> public_url_problem(Ok(a))
            == Some("public_url must not contain password"@),
        a.host is Some && a.username.len() == 0 && !a.has_password && a.has_query
            ==> public_url_problem(Ok(a)) == Some("public_url must not contain query"@),
        a.host is Some && a.username.len() == 0 && !a.has_password && !a.has_query
            && a.has_fragment ==> public_url_problem(Ok(a)) == Some(
            "public_url must not contain fragment"@,
        ),
{
}

/// When pc may start: any public URL has to be a good one. In production there has to be one,
/// by HTTPS, and a password of at least sixteen bytes and a host that clients may redirect to.
/// Out of production none of these is asked for.
pub proof fn lemma_when_pc_may_start(
    url: Seq<char>,
    password: Option<Seq<char>>,
    production: bool,
    hosts: nat,
)
    ensures
        startup_problem(None, password, false, hosts) is None,
        startup_problem(None, password, true, hosts) == Some(
            "public_url is required in production"@,
        ),
        startup_problem(Some(url), password, production, hosts) is None <==> {
            &&& parsed_url(url) matches Ok(a)
            &&& a.host is Some && a.username.len() == 0
            &&& !a.has_password && !a.has_query && !a.has_fragment
            &&& production ==> a.scheme == "https"@ && hosts > 0 && (password matches Some(p)
                && byte_len(p) >= 16)
        },
{
}

/// What is missing in production, in the order in which it is looked at: the public URL has to
/// be one by HTTPS, then the password has to be long enough, then there has to be a host that
/// clients may redirect to.
pub proof fn lemma_what_is_missing_in_production(
    a: Address,
    e: Seq<char>,
    password: Option<Seq<char>>,
    hosts: nat,
)
    ensures
        production_problem(None, password, hosts) == Some("public_url is required in production"@),
        production_problem(Some(Err(e)), password, hosts) == Some("parse public_url: "@ + e),
        ({
            let by_https = a.scheme == "https"@ && a.host is Some;
            let long = password matches Some(p) && byte_len(p) >= 16;
            let problem = production_problem(Some(Ok(a)), password, hosts);
            &&& !by_https ==> problem == Some(
                "public_url must be an absolute https:// URL in production"@,
            )
            &&& by_https && !long ==> problem == Some(
                "oauth_password must be at least 16 characters in production"@,
            )
            &&& by_https && long && hosts == 0 ==> problem == Some(
                "allowed_redirect_hosts is required in production"@,
            )
            &&& by_https && long && hosts > 0 ==> problem is None
        }),
{
}

/// The hosts that the MCP endpoint answers to: this very machine under its three names, always,
/// and the host of the public URL in lower case. No other, and none twice.
pub proof fn lemma_hosts_of_the_endpoint(public: Seq<char>, other: Seq<char>)
    ensures
        guarded_hosts(None) == seq!["localhost"@, "127.0.0.1"@, "::1"@],
        guarded_hosts(Some(public)).contains(lowered(public)),
        guarded_hosts(Some(public)).contains("localhost"@),
        guarded_hosts(Some(public)).contains("127.0.0.1"@),
        guarded_hosts(Some(public)).contains("::1"@),
        guarded_hosts(Some(public)).contains(other) ==> other == lowered(public) || other
            == "localhost"@ || other == "127.0.0.1"@ || other == "::1"@,
        guarded_hosts(Some(public)).no_duplicates(),
        guarded_hosts(Some(public)).take(3) == seq!["localhost"@, "127.0.0.1"@, "::1"@],
{
    reveal_strlit("localhost");
    reveal_strlit("127.0.0.1");
    reveal_strlit("::1");
    let local = seq!["localhost"@, "127.0.0.1"@, "::1"@];
    assert("localhost"@[0] != "127.0.0.1"@[0]);
    assert("::1"@.len() == 3);
    let g = guarded_hosts(Some(public));
    assert(g[0] == "localhost"@ && g[1] == "127.0.0.1"@ && g[2] == "::1"@);
    assert(g.take(3) =~= local);
    if !local.contains(lowered(public)) {
        assert(g[3] == lowered(public));
        assert(local[0] != lowered(public) && local[1] != lowered(public) && local[2] != lowered(
            public,
        )) by {
            assert(local.contains(local[0]));
            assert(local.contains(local[1]));
            assert(local.contains(local[2]));
        }
    }
}

/// What is added to the metadata of a request, where it is missing: the protocol version, and
/// that the client has said nothing of what it can do. What the request says itself stays.
pub proof fn lemma_what_is_added_to_metadata(m: Seq<(Seq<char>, Value)>, version: Seq<char>)
    ensures
        ({
            let v = "io.modelcontextprotocol/protocolVersion"@;
            let c = "io.modelcontextprotocol/clientCapabilities"@;
            let has_v = exists|i: int| 0 <= i < m.len() && (#[trigger] m[i]).0 == v;
            let has_c = exists|i: int| 0 <= i < m.len() && (#[trigger] m[i]).0 == c;
            let full = full_meta(Value::Object(m), version);
            let nothing = Value::Object(Seq::empty());
            &&& has_v && has_c ==> full == Value::Object(m)
            &&& !has_v && has_c ==> full == Value::Object(m + seq![(v, Value::Str(version))])
            &&& has_v && !has_c ==> full == Value::Object(m + seq![(c, nothing)])
            &&& !has_v && !has_c ==> full == Value::Object(
                m + seq![(v, Value::Str(version)), (c, nothing)],
            )
        }),
{
    reveal_strlit("io.modelcontextprotocol/protocolVersion");
    reveal_strlit("io.modelcontextprotocol/clientCapabilities");
    let v = "io.modelcontextprotocol/protocolVersion"@;
    let c = "io.modelcontextprotocol/clientCapabilities"@;
    assert(v.len() == 39 && c.len() == 42);
    let nothing = Value::Object(Seq::empty());
    let text = Value::Str(version);
    lemma_default_is_added_where_missing(m, v, text);
    lemma_default_is_added_where_missing(m, c, nothing);
    let with_v = m + seq![(v, text)];
    lemma_default_is_added_where_missing(with_v, c, nothing);
    assert(with_v + seq![(c, nothing)] =~= m + seq![(v, text), (c, nothing)]);
    if exists|i: int| 0 <= i < m.len() && (#[trigger] m[i]).0 == c {
        let i = choose|i: int| 0 <= i < m.len() && (#[trigger] m[i]).0 == c;
        assert(with_v[i].0 == c);
    } else {
        assert forall|i: int| 0 <= i < with_v.len() implies (#[trigger] with_v[i]).0 != c by {
            if i < m.len() {
                assert(with_v[i] == m[i]);
            }
        }
    }
}

/// A request is completed in its parameters' metadata and nowhere else: all other members, of
/// the request and of the parameters, stay as they are and where they are. Parameters without
/// metadata get some, behind their other members. A request without parameters, and whatever is
/// no object, stays as it is.
pub proof fn lemma_what_a_request_is_completed_with(
    before: Seq<(Seq<char>, Value)>,
    value: Value,
    after: Seq<(Seq<char>, Value)>,
    version: Seq<char>,
)
    ensures
        (forall|i: int| 0 <= i < before.len() ==> (#[trigger] before[i]).0 != "params"@) ==> {
            &&& full_request(Value::Object(before), version) == Value::Object(before)
            &&& full_request(
                Value::Object(before + seq![("params"@, value)] + after),
                version,
            ) == Value::Object(before + seq![("params"@, full_params(value, version))] + after)
        },
        (forall|i: int| 0 <= i < before.len() ==> (#[trigger] before[i]).0 != "_meta"@) ==> {
            &&& full_params(Value::Object(before), version) == Value::Object(
                before + seq![("_meta"@, full_meta(Value::Object(Seq::empty()), version))],
            )
            &&& full_params(
                Value::Object(before + seq![("_meta"@, value)] + after),
                version,
            ) == Value::Object(before + seq![("_meta"@, full_meta(value, version))] + after)
        },
        !(value is Object) ==> full_request(value, version) == value && full_params(value, version)
            == value && full_meta(value, version) == value,
{
    let n = before.len() as int;
    if forall|i: int| 0 <= i < before.len() ==> (#[trigger] before[i]).0 != "params"@ {
        lemma_first_member_is_found(before, "params"@, value, after);
        let m = before + seq![("params"@, value)] + after;
        let full = full_params(value, version);
        assert(m[n] == ("params"@, value));
        assert(m.update(n, ("params"@, full)) =~= before + seq![("params"@, full)] + after);
    }
    if forall|i: int| 0 <= i < before.len() ==> (#[trigger] before[i]).0 != "_meta"@ {
        lemma_first_member_is_found(before, "_meta"@, value, after);
        let m = before + seq![("_meta"@, value)] + after;
        let full = full_meta(value, version);
        let new = full_meta(Value::Object(Seq::empty()), version);
        assert(m[n] == ("_meta"@, value));
        assert(m.update(n, ("_meta"@, full)) =~= before + seq![("_meta"@, full)] + after);
        assert(before.push(("_meta"@, new)) =~= before + seq![("_meta"@, new)]);
    }
}

/// What becomes of a request's body: it is read, completed and written again. One that is no JSON
/// is not completed.
pub proof fn lemma_what_becomes_of_a_body(
    bytes: Seq<u8>,
    version: Seq<char>,
    request: Value,
    url: UrlParts,
    reason: String,
)
    ensures
        json_body(bytes) == Some(request) ==> completed_body(bytes, version) == json_bytes(
            full_request(request, version),
        ),
        json_body(bytes) is None ==> completed_body(bytes, version) is None,
        url_result(Ok(url)) == Ok::<Address, Seq<char>>(url@),
        url_result(Err(reason)) == Err::<Address, Seq<char>>(reason@),
        MIN_PASSWORD_BYTES == 16,
        DEFAULT_PROTOCOL_VERSION@ == "2026-07-28"@,
        EVENT_STREAM_CACHE_CONTROL@ == "no-cache, no-transform"@,
{
}

} // verus!
