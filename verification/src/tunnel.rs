//! Bringing up the agent's side of the tunnel.
//!
//! Two backends are foreseen and only one is built. Behind the trait, the
//! Linux/Docker agent hands the work to kernel WireGuard, where it is
//! essentially free. A userspace backend would need no TUN driver and no
//! administrator rights, and the trait exists so adding one does not disturb
//! the forwarding engine, which only ever asked for an address to bind on.
//!
//! A backend decides what is to be done to the machine; the program around it
//! does it.

use crate::addr;
use crate::addr::{IpAddr, Ipv4Addr};
use crate::api::{TunnelConfig, TunnelConfigModel};
use crate::config;
use crate::net;
use crate::number;
use crate::text;
use vstd::prelude::*;

verus! {

/// One thing to do to the machine.
#[derive(Debug, Clone, PartialEq, Eq)]
pub enum TunnelStep {
    /// Write a file only the owner can read.
    WritePrivate { path: String, contents: String },
    /// Run `wg-quick` and go on whatever comes of it.
    Try { action: String, path: String },
    /// Run `wg-quick` and stop where it fails.
    Run { action: String, path: String },
}

/// What a [`TunnelStep`] says.
pub enum TunnelStepModel {
    WritePrivate { path: Seq<char>, contents: Seq<char> },
    Try { action: Seq<char>, path: Seq<char> },
    Run { action: Seq<char>, path: Seq<char> },
}

impl View for TunnelStep {
    type V = TunnelStepModel;

    open spec fn view(&self) -> TunnelStepModel {
        match *self {
            TunnelStep::WritePrivate { path, contents } => TunnelStepModel::WritePrivate {
                path: path@,
                contents: contents@,
            },
            TunnelStep::Try { action, path } => TunnelStepModel::Try {
                action: action@,
                path: path@,
            },
            TunnelStep::Run { action, path } => TunnelStepModel::Run {
                action: action@,
                path: path@,
            },
        }
    }
}

/// What is said where a step's `wg-quick` failed with this output.
pub fn failure_text(action: &str, output: &str) -> (r: String)
    ensures
        r@ == "wg-quick "@ + action@ + " failed: "@ + text::trim(output@),
{
    let mut out = "wg-quick ".to_owned();
    out.append(action);
    out.append(" failed: ");
    let detail = text::trimmed(output);
    out.append(detail.as_str());
    out
}

/// Whatever gets decrypted traffic to the forwarding engine.
pub trait TunnelBackend {
    /// What establishes the tunnel. Must be idempotent: the agent asks on
    /// every start, including after a crash that left the interface up.
    fn bring_up(&self, config: &TunnelConfig, private_key: &str) -> Vec<TunnelStep>;

    /// What takes the tunnel down.
    fn tear_down(&self) -> Vec<TunnelStep>;

    /// Address the forwarder should bind its listeners on.
    fn bind_address(&self, config: &TunnelConfig) -> (r: IpAddr)
        default_ensures
            r == IpAddr::V4(config.tunnel_ip),
    {
        IpAddr::V4(config.tunnel_ip)
    }
}

/// Kernel WireGuard, driven through `wg-quick`.
#[derive(Debug, Clone)]
pub struct KernelTunnel {
    /// `wg-quick` takes the config path and names the interface after the
    /// file, so the path is the whole state this backend needs.
    config_path: String,
}

impl KernelTunnel {
    /// Where the configuration is written.
    pub closed spec fn path(self) -> Seq<char> {
        self.config_path@
    }

    pub fn new(interface: &str, config_dir: &str) -> (r: KernelTunnel)
        ensures
            r.path() == config::joined(config_dir@, interface@ + ".conf"@),
    {
        let mut file = interface.to_owned();
        file.append(".conf");
        KernelTunnel { config_path: config::join_path(config_dir, file.as_str()) }
    }
}

/// What brings kernel WireGuard up.
///
/// `wg-quick up` fails if the interface is already there, which happens every
/// time the agent restarts without the machine rebooting. It is taken down
/// first, whether or not there was one.
pub open spec fn up_steps(
    path: Seq<char>,
    config: TunnelConfigModel,
    private_key: Seq<char>,
) -> Seq<TunnelStepModel> {
    seq![
        TunnelStepModel::WritePrivate { path, contents: config_text(config, private_key) },
        TunnelStepModel::Try { action: "down"@, path },
        TunnelStepModel::Run { action: "up"@, path },
    ]
}

impl TunnelBackend for KernelTunnel {
    fn bring_up(&self, config: &TunnelConfig, private_key: &str) -> (r: Vec<TunnelStep>)
        ensures
            text::views(r@) == up_steps(self.path(), config@, private_key@),
    {
        let mut out: Vec<TunnelStep> = Vec::new();
        out.push(
            TunnelStep::WritePrivate {
                path: self.config_path.clone(),
                contents: render_config(config, private_key),
            },
        );
        out.push(TunnelStep::Try { action: "down".to_owned(), path: self.config_path.clone() });
        out.push(TunnelStep::Run { action: "up".to_owned(), path: self.config_path.clone() });
        proof {
            assert(text::views(out@) =~= up_steps(self.path(), config@, private_key@));
        }
        out
    }

    fn tear_down(&self) -> (r: Vec<TunnelStep>)
        ensures
            text::views(r@) == seq![TunnelStepModel::Run { action: "down"@, path: self.path() }],
    {
        let mut out: Vec<TunnelStep> = Vec::new();
        out.push(TunnelStep::Run { action: "down".to_owned(), path: self.config_path.clone() });
        proof {
            assert(text::views(out@) =~= seq![
                TunnelStepModel::Run { action: "down"@, path: self.path() },
            ]);
        }
        out
    }
}

/// A backend for machines where the tunnel is somebody else's problem —
/// an existing WireGuard interface, or a test.
#[derive(Debug, Clone, Copy)]
pub struct ExistingTunnel;

impl TunnelBackend for ExistingTunnel {
    fn bring_up(&self, _config: &TunnelConfig, _private_key: &str) -> (r: Vec<TunnelStep>)
        ensures
            r@.len() == 0,
    {
        Vec::new()
    }

    fn tear_down(&self) -> (r: Vec<TunnelStep>)
        ensures
            r@.len() == 0,
    {
        Vec::new()
    }
}

/// The prefix length that a mask is made of; nothing is longer than an
/// address.
pub open spec fn mask_len(prefix_len: u8) -> u8 {
    if prefix_len > 32 {
        32
    } else {
        prefix_len
    }
}

/// The agent's `wg-quick` configuration.
///
/// Only the tunnel subnet is routed: sending everything through the VPS would
/// move the household's whole internet connection over it, which is not what
/// anyone asked for by publishing a game server. The gateway can never dial
/// home through NAT, so the agent keeps the binding open from its side.
pub open spec fn config_text(config: TunnelConfigModel, private_key: Seq<char>) -> Seq<char> {
    "# Managed by portal-agent. Edits here are overwritten.\n"@ + "[Interface]\n"@
        + "PrivateKey = "@ + private_key + "\n"@ + "Address = "@ + addr::ipv4_text(
        config.tunnel_ip,
    ) + "/"@ + number::decimal(config.tunnel_prefix_len as nat) + "\n"@ + "\n"@ + "[Peer]\n"@
        + "PublicKey = "@ + config.gateway_public_key + "\n"@ + "Endpoint = "@
        + config.gateway_endpoint + "\n"@ + "AllowedIPs = "@ + addr::ipv4_text(
        net::network_of(config.tunnel_ip, mask_len(config.tunnel_prefix_len)),
    ) + "/"@ + number::decimal(config.tunnel_prefix_len as nat) + "\n"@ + "PersistentKeepalive = "@
        + number::decimal(config.persistent_keepalive as nat) + "\n"@
}

/// Render the agent's `wg-quick` configuration.
pub fn render_config(config: &TunnelConfig, private_key: &str) -> (r: String)
    ensures
        r@ == config_text(config@, private_key@),
{
    let mut out = "# Managed by portal-agent. Edits here are overwritten.\n".to_owned();
    out.append("[Interface]\n");
    out.append("PrivateKey = ");
    out.append(private_key);
    out.append("\n");
    out.append("Address = ");
    let own = config.tunnel_ip.to_string();
    out.append(own.as_str());
    out.append("/");
    number::push_decimal(&mut out, config.tunnel_prefix_len as u64);
    out.append("\n");
    out.append("\n");
    out.append("[Peer]\n");
    out.append("PublicKey = ");
    out.append(config.gateway_public_key.as_str());
    out.append("\n");
    out.append("Endpoint = ");
    out.append(config.gateway_endpoint.as_str());
    out.append("\n");
    out.append("AllowedIPs = ");
    let base = subnet_base(config);
    let base = base.to_string();
    out.append(base.as_str());
    out.append("/");
    number::push_decimal(&mut out, config.tunnel_prefix_len as u64);
    out.append("\n");
    out.append("PersistentKeepalive = ");
    number::push_decimal(&mut out, config.persistent_keepalive as u64);
    out.append("\n");
    out
}

/// The network that the agent's address lies in.
pub fn subnet_base(config: &TunnelConfig) -> (r: Ipv4Addr)
    ensures
        r == net::network_of(config.tunnel_ip, mask_len(config.tunnel_prefix_len)),
{
    let len: u8 = if config.tunnel_prefix_len > 32 {
        32
    } else {
        config.tunnel_prefix_len
    };
    net::network_base(config.tunnel_ip, len)
}

} // verus!
