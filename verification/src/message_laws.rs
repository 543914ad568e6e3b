//! What people are told when something goes wrong: the whole of it, with every
//! name and number that is known.

use crate::addr;
use crate::addr::Ipv4Addr;
use crate::allocator;
use crate::allocator::AllocError;
use crate::cloudflare;
use crate::cloudflare::CloudflareErrorModel;
use crate::config;
use crate::config::ConfigErrorModel;
use crate::model;
use crate::model::Protocol;
use crate::net;
use crate::net::{Ipv4Net, NetErrorModel};
use crate::number;
use crate::profile;
use crate::profile::ProfileErrorModel;
use crate::state;
use crate::state::StateErrorModel;
use crate::store;
use crate::store::StoreErrorModel;
use crate::text;
use crate::wg;
use crate::wg::{Base64Error, KeyError};
use vstd::prelude::*;

verus! {

/// Of a network: what was written, or how long its prefix was.
pub proof fn law_network_messages(s: Seq<char>, len: u8)
    ensures
        net::net_error_text(NetErrorModel::Malformed(s)) == "`"@ + s
            + "` is not a CIDR network like 10.99.0.0/24"@,
        net::net_error_text(NetErrorModel::PrefixLen(len)) == "prefix length /"@ + number::decimal(
            len as nat,
        ) + " is out of range"@,
        net::net_error_text(NetErrorModel::Exhausted)
            == "the tunnel subnet has no free addresses left"@,
        model::not_a_protocol_text(s) == "`"@ + text::lower(s) + "` is not tcp or udp"@,
{
}

/// Of a key: what is wrong with its spelling and where, or how long it was.
pub proof fn law_key_messages(at: usize, byte: u8, len: usize)
    ensures
        wg::key_error_text(KeyError::Length(len)) == "key must decode to 32 bytes, got "@
            + number::decimal(len as nat),
        wg::key_error_text(KeyError::Encoding(Base64Error::InvalidByte(at, byte)))
            == "key is not valid base64: "@ + ("Invalid symbol "@ + number::decimal(byte as nat)
            + ", offset "@ + number::decimal(at as nat) + "."@),
        wg::key_error_text(KeyError::Encoding(Base64Error::InvalidLastSymbol(at, byte)))
            == "key is not valid base64: "@ + ("Invalid last symbol "@ + number::decimal(
            byte as nat,
        ) + ", offset "@ + number::decimal(at as nat) + "."@),
        wg::key_error_text(KeyError::Encoding(Base64Error::InvalidLength(len)))
            == "key is not valid base64: "@ + ("Invalid input length: "@ + number::decimal(
            len as nat,
        )),
        wg::key_error_text(KeyError::Encoding(Base64Error::InvalidPadding))
            == "key is not valid base64: "@ + "Invalid padding"@,
{
}

/// Of a text that should be a key: it is one where it decodes to thirty-two
/// bytes, and is otherwise told why it does not decode, or how long it was.
pub proof fn law_keys_have_thirty_two_bytes(s: Seq<char>)
    ensures
        wg::base64_read(s) matches Ok(bytes) ==> bytes.len() == 32 ==> wg::key_fault(s) is None,
        wg::base64_read(s) matches Ok(bytes) ==> bytes.len() != 32 ==> wg::key_fault(s) == Some(
            KeyError::Length(bytes.len() as usize),
        ),
        wg::base64_read(s) matches Err(e) ==> wg::key_fault(s) == Some(KeyError::Encoding(e)),
        wg::public_for(s) is Ok <==> wg::key_fault(s) is None,
        wg::public_for(s) matches Err(e) ==> wg::key_fault(s) == Some(e),
{
}

/// Of the tables.
pub proof fn law_store_messages(s: Seq<char>)
    ensures
        store::store_error_text(StoreErrorModel::Sqlite(s)) == s,
        store::store_error_text(StoreErrorModel::Conflict(s)) == s + " is already taken"@,
        store::store_error_text(StoreErrorModel::NotFound) == "not found"@,
        store::store_error_text(StoreErrorModel::SubnetExhausted)
            == "the tunnel subnet has no free addresses left"@,
        store::store_error_text(StoreErrorModel::Corrupt(s)) == "stored value is corrupt: "@ + s,
        store::store_error_text(StoreErrorModel::IncompatibleSchema)
            == "this database predates the node/service/port model and cannot be upgraded in place; delete it (or the portal-data volume) and start again"@,
{
}

/// Of Cloudflare.
pub proof fn law_cloudflare_messages(s: Seq<char>)
    ensures
        cloudflare::cloudflare_error_text(CloudflareErrorModel::Transport(s))
            == "cloudflare request failed: "@ + s,
        cloudflare::cloudflare_error_text(CloudflareErrorModel::Api(s))
            == "cloudflare rejected the request: "@ + s,
        cloudflare::cloudflare_error_text(CloudflareErrorModel::UnknownRecord(s))
            == "cloudflare returned a record this gateway does not understand: "@ + s,
{
}

/// Of a configuration.
pub proof fn law_config_messages(
    path: Seq<char>,
    source: Seq<char>,
    name: Seq<char>,
    env: Seq<char>,
    key: Seq<char>,
    ip: Ipv4Addr,
    subnet: Ipv4Net,
    e: AllocError,
)
    ensures
        config::config_error_text(ConfigErrorModel::Read { path, source })
            == "failed to read config `"@ + path + "`: "@ + source,
        config::config_error_text(ConfigErrorModel::Parse { path, source })
            == "failed to parse config `"@ + path + "`: "@ + source,
        config::config_error_text(ConfigErrorModel::SecretFile { path, source })
            == "failed to read secret from `"@ + path + "`: "@ + source,
        config::config_error_text(ConfigErrorModel::Range(e)) == "edge port range is invalid: "@
            + allocator::alloc_error_text(e),
        config::config_error_text(ConfigErrorModel::MissingSecret { name, env, key }) == "no "@
            + name + ": set the `"@ + env + "` environment variable, or point `"@ + key
            + "` at a file containing it"@,
        config::config_error_text(ConfigErrorModel::GatewayIpOutsideSubnet(ip, subnet))
            == "the gateway's tunnel address "@ + addr::ipv4_text(ip)
            + " is not inside the tunnel subnet "@ + net::cidr_text(subnet.network(), subnet.len()),
{
}

/// Of profiles.
pub proof fn law_profile_messages(
    a: Seq<char>,
    b: Seq<char>,
    protocol: Protocol,
    port: u16,
)
    ensures
        profile::profile_error_text(ProfileErrorModel::Unknown(a)) == "no profile named `"@ + a
            + "`"@,
        profile::profile_error_text(ProfileErrorModel::DuplicateTemplate(a, b)) == "profile `"@ + a
            + "` declares duplicate port template id `"@ + b + "`"@,
        profile::profile_error_text(ProfileErrorModel::ConflictingPort(a, b, protocol, port))
            == "profiles `"@ + a + "` and `"@ + b + "` both define "@ + protocol.name() + " port "@
            + number::decimal(port as nat) + "; they cannot be combined"@,
        profile::profile_error_text(ProfileErrorModel::Io(a))
            == "failed to read profile directory: "@ + a,
        profile::profile_error_text(ProfileErrorModel::Parse { path: a, source: b })
            == "failed to parse `"@ + a + "`: "@ + b,
{
}

/// Of an agent's state file.
pub proof fn law_state_messages(path: Seq<char>, source: Seq<char>)
    ensures
        state::state_error_text(StateErrorModel::NotEnrolled(path)) == "no agent state at `"@ + path
            + "`; run `portal-agent enroll` first"@,
        state::state_error_text(StateErrorModel::Io { path, source }) == "failed to read `"@ + path
            + "`: "@ + source,
        state::state_error_text(StateErrorModel::Parse { path, source }) == "state file `"@ + path
            + "` is not valid: "@ + source,
{
}

} // verus!
