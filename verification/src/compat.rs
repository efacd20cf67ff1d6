use vstd::prelude::*;
use vstd::string::*;

use crate::text::{chars_of, decimal, push_decimal, string_of_range, trim_end_char, trim_end_index};

verus! {

/// The sync protocol version this build speaks.
pub const PROTOCOL_VERSION: u32 = 1;

/// Whether a server speaking `server_protocol` can sync with this build.
pub fn compatible_with(server_protocol: u32) -> (r: bool)
    ensures
        r == (server_protocol == PROTOCOL_VERSION),
{
    server_protocol == PROTOCOL_VERSION
}

/// What a sync server reports about itself.
#[derive(Debug, Clone)]
pub struct ServerInfo {
    pub name: String,
    pub version: String,
    pub protocol_version: u32,
    pub capabilities: Vec<String>,
}

/// Outcome of asking a server which protocol it speaks.
#[derive(Debug, Clone)]
pub enum Handshake {
    Compatible(ServerInfo),
    Incompatible(ServerInfo),
    Unavailable,
}

/// Classifies a server's reply: no usable reply means the server is unavailable, else the
/// reply is compatible exactly when its protocol version matches.
pub fn handshake_from_reply(reply: Option<ServerInfo>) -> (r: Handshake)
    ensures
        reply is None ==> r is Unavailable,
        reply matches Some(info) ==> (if info.protocol_version == PROTOCOL_VERSION {
            r == Handshake::Compatible(info)
        } else {
            r == Handshake::Incompatible(info)
        }),
{
    match reply {
        None => Handshake::Unavailable,
        Some(info) => {
            if compatible_with(info.protocol_version) {
                Handshake::Compatible(info)
            } else {
                Handshake::Incompatible(info)
            }
        },
    }
}

/// The URL of a server's version endpoint: the base without trailing slashes, then
/// `/version`.
pub fn version_url(http_base: &str) -> (r: String)
    ensures
        r@ == trim_end_char(http_base@, '/') + "/version"@,
{
    let cs = chars_of(http_base);
    let end = trim_end_index(cs.as_slice(), cs.len(), '/');
    assert(cs@.subrange(0, cs@.len() as int) =~= cs@);
    let mut out = string_of_range(cs.as_slice(), 0, end);
    out.append("/version");
    out
}

/// Advice when the server speaks a newer protocol.
pub const SERVER_NEWER: &'static str = "The server is newer: upgrade this keeplin client/daemon to a release that speaks the server's protocol.";

/// Advice when this client speaks a newer protocol.
pub const CLIENT_NEWER: &'static str = "The client is newer: upgrade keeplin-srv (its Cargo.toml pins a keeplin-core rev; bump it to a matching release and run its test suite), or downgrade this client.";

/// The explanation shown when a server's protocol does not match this build's.
pub open spec fn spec_incompatible_message(name: Seq<char>, version: Seq<char>, protocol: u32) -> Seq<
    char,
> {
    "incompatible sync server: "@ + (if name.len() == 0 {
        "server"@
    } else {
        name
    }) + " "@ + (if version.len() == 0 {
        "(unknown version)"@
    } else {
        version
    }) + " speaks protocol "@ + decimal(protocol as nat) + " but this client speaks protocol "@
        + decimal(PROTOCOL_VERSION as nat) + ". "@ + (if protocol > PROTOCOL_VERSION {
        SERVER_NEWER@
    } else {
        CLIENT_NEWER@
    }) + " Sync is disabled until the versions match."@
}

/// Explains an incompatible server, naming the side that needs an upgrade.
pub fn incompatible_message(info: &ServerInfo) -> (r: String)
    ensures
        r@ == spec_incompatible_message(info.name@, info.version@, info.protocol_version),
{
    let mut out = String::new();
    out.append("incompatible sync server: ");
    if info.name.as_str().is_empty() {
        out.append("server");
    } else {
        out.append(info.name.as_str());
    }
    out.append(" ");
    if info.version.as_str().is_empty() {
        out.append("(unknown version)");
    } else {
        out.append(info.version.as_str());
    }
    out.append(" speaks protocol ");
    push_decimal(&mut out, info.protocol_version as u64);
    out.append(" but this client speaks protocol ");
    push_decimal(&mut out, PROTOCOL_VERSION as u64);
    out.append(". ");
    if info.protocol_version > PROTOCOL_VERSION {
        out.append(SERVER_NEWER);
    } else {
        out.append(CLIENT_NEWER);
    }
    out.append(" Sync is disabled until the versions match.");
    out
}

} // verus!
