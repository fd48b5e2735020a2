//! How the server introduces itself.

use vstd::prelude::*;

use crate::config::SecurityMode;
use crate::paths::is_before;
use crate::paths::text_before;
use crate::text::concat3;
use crate::text::texts;

verus! {

/// The protocol versions that are spoken, the newest first.
pub fn protocol_versions() -> (r: Vec<String>)
    ensures
        texts(r@) == seq![
            "2026-07-28"@,
            "2025-11-25"@,
            "2025-06-18"@,
            "2025-03-26"@,
            "2024-11-05"@,
        ],
{
    let mut out: Vec<String> = Vec::new();
    out.push("2026-07-28".to_owned());
    out.push("2025-11-25".to_owned());
    out.push("2025-06-18".to_owned());
    out.push("2025-03-26".to_owned());
    out.push("2024-11-05".to_owned());
    assert(texts(out@) =~= seq![
        "2026-07-28"@,
        "2025-11-25"@,
        "2025-06-18"@,
        "2025-03-26"@,
        "2024-11-05"@,
    ]);
    out
}

/// The first protocol version in which a list of tools may be cached.
pub const CACHING_VERSION: &'static str = "2026-07-28";

/// Whether the list of tools says how it may be cached: to a client that speaks a protocol
/// version in which it can. Versions are dates, and come in the order of their text.
pub fn tells_caching(version: &Option<String>) -> (r: bool)
    ensures
        r == (version.deep_view() matches Some(v) && !text_before(v, CACHING_VERSION@)),
{
    match version {
        Some(version) => !is_before(version.as_str(), CACHING_VERSION),
        None => false,
    }
}

/// The name of a security mode.
pub open spec fn mode_name(mode: SecurityMode) -> Seq<char> {
    match mode {
        SecurityMode::Full => "Full"@,
        SecurityMode::Safe => "Safe"@,
        SecurityMode::Readonly => "Readonly"@,
    }
}

/// What clients are told about the tools.
pub fn instructions(mode: SecurityMode) -> (r: String)
    ensures
        r@ == "Four tools: read/write/edit/bash. Security="@ + mode_name(mode)
            + ". Long bash commands detach after 2s; attach by pid."@,
{
    concat3(
        "Four tools: read/write/edit/bash. Security=",
        match mode {
            SecurityMode::Full => "Full",
            SecurityMode::Safe => "Safe",
            SecurityMode::Readonly => "Readonly",
        },
        ". Long bash commands detach after 2s; attach by pid.",
    )
}

/// The names of the security modes, and the protocol version with which caching came.
pub proof fn lemma_names_of_modes()
    ensures
        mode_name(SecurityMode::Full) == "Full"@,
        mode_name(SecurityMode::Safe) == "Safe"@,
        mode_name(SecurityMode::Readonly) == "Readonly"@,
        CACHING_VERSION@ == "2026-07-28"@,
{
}

} // verus!
