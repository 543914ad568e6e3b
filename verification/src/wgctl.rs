//! Driving kernel WireGuard on the VPS.
//!
//! The gateway owns the peer list: every enrolled agent is a peer whose
//! allowed-ips is exactly its own tunnel address, so one compromised agent
//! cannot source traffic as another. Peers are synced wholesale, matching how
//! the rest of the gateway works — desired state computed, then applied.
//!
//! Agents are behind home NAT and the gateway can never dial them, so no peer
//! here has an endpoint. The agent connects out and the binding is held open
//! from its side by persistent-keepalive.

use crate::addr;
use crate::addr::Ipv4Addr;
use crate::clock::Timestamp;
use crate::model::{Agent, AgentModel, Node, NodeModel};
use crate::number;
use crate::text;
use crate::wg;
use vstd::prelude::*;

verus! {

/// Interface-level settings for the gateway's own WireGuard device.
#[derive(Debug, Clone)]
pub struct InterfaceConfig {
    pub private_key: String,
    pub listen_port: u16,
    pub address: Ipv4Addr,
    pub prefix_len: u8,
}

/// What an [`InterfaceConfig`] says.
pub struct InterfaceConfigModel {
    pub private_key: Seq<char>,
    pub listen_port: u16,
    pub address: Ipv4Addr,
    pub prefix_len: u8,
}

impl View for InterfaceConfig {
    type V = InterfaceConfigModel;

    open spec fn view(&self) -> InterfaceConfigModel {
        InterfaceConfigModel {
            private_key: self.private_key@,
            listen_port: self.listen_port,
            address: self.address,
            prefix_len: self.prefix_len,
        }
    }
}

// ---- peers --------------------------------------------------------------

/// The peer that a node is once its agent has announced a key.
pub open spec fn peer_of(node: NodeModel) -> Option<AgentModel> {
    match node.public_key {
        Some(public_key) => Some(
            AgentModel {
                id: node.id,
                name: node.name,
                public_key,
                tunnel_ip: node.tunnel_ip,
                last_handshake: node.last_handshake,
                created_at: node.created_at,
            },
        ),
        None => None,
    }
}

/// The peers among nodes, in their order.
pub open spec fn peers_among(nodes: Seq<NodeModel>) -> Seq<AgentModel>
    decreases nodes.len(),
{
    if nodes.len() == 0 {
        Seq::empty()
    } else {
        let before = peers_among(nodes.drop_last());
        match peer_of(nodes.last()) {
            Some(peer) => before.push(peer),
            None => before,
        }
    }
}

/// The nodes whose agents have announced a key. The others have nothing that
/// WireGuard could know them by yet.
pub fn peers_of(nodes: &[Node]) -> (r: Vec<Agent>)
    ensures
        text::views(r@) == peers_among(text::views(nodes@)),
{
    let ghost all = text::views(nodes@);
    let mut out: Vec<Agent> = Vec::new();
    let mut i: usize = 0;
    proof {
        assert(all.take(0) =~= Seq::<NodeModel>::empty());
        assert(text::views(out@) =~= Seq::<AgentModel>::empty());
    }
    while i < nodes.len()
        invariant
            i <= nodes@.len(),
            all == text::views(nodes@),
            text::views(out@) == peers_among(all.take(i as int)),
        decreases nodes@.len() - i,
    {
        proof {
            text::lemma_views_step(nodes@, i as int);
        }
        let node: &Node = &nodes[i];
        if let Some(key) = &node.public_key {
            let peer = Agent {
                id: node.id,
                name: node.name.clone(),
                public_key: key.clone(),
                tunnel_ip: node.tunnel_ip,
                last_handshake: node.last_handshake,
                created_at: node.created_at,
            };
            proof {
                text::lemma_views_push(out@, peer);
            }
            out.push(peer);
        }
        i += 1;
    }
    proof {
        assert(all.take(i as int) =~= all);
    }
    out
}

// ---- configuration ------------------------------------------------------

/// The section of one peer. It is allowed a single address, not the subnet:
/// this is the cryptokey routing table, and a wider allowed-ips would let any
/// agent impersonate any other one.
pub open spec fn peer_text(agent: AgentModel) -> Seq<char> {
    "\n"@ + "# "@ + agent.name + "\n"@ + "[Peer]\n"@ + "PublicKey = "@ + agent.public_key + "\n"@
        + "AllowedIPs = "@ + addr::ipv4_text(agent.tunnel_ip) + "/32\n"@
}

/// The sections of peers, in their order.
pub open spec fn peers_text(agents: Seq<AgentModel>) -> Seq<char>
    decreases agents.len(),
{
    if agents.len() == 0 {
        Seq::empty()
    } else {
        peers_text(agents.drop_last()) + peer_text(agents.last())
    }
}

/// The section of the gateway's own device.
pub open spec fn interface_text(iface: InterfaceConfigModel) -> Seq<char> {
    "# Managed by portal. Edits here are overwritten.\n"@ + "[Interface]\n"@ + "PrivateKey = "@
        + iface.private_key + "\n"@ + "ListenPort = "@ + number::decimal(iface.listen_port as nat)
        + "\n"@ + "Address = "@ + addr::ipv4_text(iface.address) + "/"@ + number::decimal(
        iface.prefix_len as nat,
    ) + "\n"@
}

/// A `wg-quick`-compatible configuration.
pub open spec fn config_text(iface: InterfaceConfigModel, agents: Seq<AgentModel>) -> Seq<char> {
    interface_text(iface) + peers_text(agents)
}

fn push_peer(out: &mut String, agent: &Agent)
    ensures
        final(out)@ == old(out)@ + peer_text(agent@),
{
    out.append("\n");
    out.append("# ");
    out.append(agent.name.as_str());
    out.append("\n");
    out.append("[Peer]\n");
    out.append("PublicKey = ");
    out.append(agent.public_key.as_str());
    out.append("\n");
    out.append("AllowedIPs = ");
    let tunnel_ip = agent.tunnel_ip.to_string();
    out.append(tunnel_ip.as_str());
    out.append("/32\n");
    proof {
        assert(out@ =~= old(out)@ + peer_text(agent@));
    }
}

/// Render a `wg-quick`-compatible configuration.
///
/// Written as a file rather than a series of `wg set` calls so that the
/// interface can be brought up by hand from the same content when something
/// has gone wrong and the gateway is not the thing you want in the loop.
pub fn render_config(iface: &InterfaceConfig, agents: &[Agent]) -> (r: String)
    ensures
        r@ == config_text(iface@, text::views(agents@)),
{
    let mut out = "# Managed by portal. Edits here are overwritten.\n".to_owned();
    out.append("[Interface]\n");
    out.append("PrivateKey = ");
    out.append(iface.private_key.as_str());
    out.append("\n");
    out.append("ListenPort = ");
    number::push_decimal(&mut out, iface.listen_port as u64);
    out.append("\n");
    out.append("Address = ");
    let address = iface.address.to_string();
    out.append(address.as_str());
    out.append("/");
    number::push_decimal(&mut out, iface.prefix_len as u64);
    out.append("\n");
    let ghost head = out@;
    let ghost all = text::views(agents@);
    let mut i: usize = 0;
    proof {
        assert(head =~= interface_text(iface@));
        assert(all.take(0) =~= Seq::<AgentModel>::empty());
        assert(head + peers_text(all.take(0)) =~= head);
    }
    while i < agents.len()
        invariant
            i <= agents@.len(),
            all == text::views(agents@),
            out@ == head + peers_text(all.take(i as int)),
        decreases agents@.len() - i,
    {
        proof {
            text::lemma_views_step(agents@, i as int);
        }
        push_peer(&mut out, &agents[i]);
        proof {
            assert(out@ =~= head + peers_text(all.take(i + 1)));
        }
        i += 1;
    }
    proof {
        assert(all.take(i as int) =~= all);
    }
    out
}

proof fn lemma_peer_within(agents: Seq<AgentModel>, i: int) -> (r: (Seq<char>, Seq<char>))
    requires
        0 <= i < agents.len(),
    ensures
        peers_text(agents) == r.0 + peer_text(agents[i]) + r.1,
    decreases agents.len(),
{
    if i == agents.len() - 1 {
        let r = (peers_text(agents.drop_last()), Seq::<char>::empty());
        assert(peers_text(agents) =~= r.0 + peer_text(agents[i]) + r.1);
        r
    } else {
        let (before, after) = lemma_peer_within(agents.drop_last(), i);
        let r = (before, after + peer_text(agents.last()));
        assert(peers_text(agents) =~= r.0 + peer_text(agents[i]) + r.1);
        r
    }
}

/// Every agent is a peer in the configuration, allowed exactly its own
/// address.
pub proof fn law_every_agent_is_a_peer(
    iface: InterfaceConfigModel,
    agents: Seq<AgentModel>,
    i: int,
)
    requires
        0 <= i < agents.len(),
    ensures
        exists|before: Seq<char>, after: Seq<char>|
            config_text(iface, agents) == #[trigger] (before + peer_text(agents[i]) + after),
{
    let (before, after) = lemma_peer_within(agents, i);
    let head = interface_text(iface) + before;
    assert(config_text(iface, agents) =~= head + peer_text(agents[i]) + after);
}

// ---- liveness -----------------------------------------------------------

/// One peer's liveness, from `wg show <iface> dump`.
#[derive(Debug, Clone, PartialEq, Eq)]
pub struct PeerStatus {
    pub public_key: String,
    /// `None` when the peer has never completed a handshake.
    pub last_handshake: Option<Timestamp>,
    pub rx_bytes: u64,
    pub tx_bytes: u64,
}

/// What a [`PeerStatus`] says.
pub struct PeerStatusModel {
    pub public_key: Seq<char>,
    pub last_handshake: Option<Timestamp>,
    pub rx_bytes: u64,
    pub tx_bytes: u64,
}

impl View for PeerStatus {
    type V = PeerStatusModel;

    open spec fn view(&self) -> PeerStatusModel {
        PeerStatusModel {
            public_key: self.public_key@,
            last_handshake: self.last_handshake,
            rx_bytes: self.rx_bytes,
            tx_bytes: self.tx_bytes,
        }
    }
}

/// The handshake a column tells of: `0` means never, which is not the same as
/// at the epoch.
pub open spec fn handshake_of(column: Seq<char>) -> Option<Timestamp> {
    match number::signed(column) {
        Some(seconds) => if seconds > 0 {
            Timestamp::at_second(seconds)
        } else {
            None
        },
        None => None,
    }
}

/// A handshake that WireGuard tells of can be stored.
pub proof fn law_handshake_can_be_written(column: Seq<char>)
    ensures
        handshake_of(column) matches Some(at) ==> at.writable(),
{
}

/// The counter in a column; what is no number counts as zero.
pub open spec fn counter_of(column: Seq<char>) -> u64 {
    match number::unsigned(column, u64::MAX as nat) {
        Some(n) => n as u64,
        None => 0,
    }
}

/// The peer a line of a dump tells of: at least seven columns, tab separated.
pub open spec fn status_of(line: Seq<char>) -> Option<PeerStatusModel> {
    let columns = text::split(line, '\t');
    if columns.len() < 7 {
        None
    } else {
        Some(
            PeerStatusModel {
                public_key: columns[0],
                last_handshake: handshake_of(columns[4]),
                rx_bytes: counter_of(columns[5]),
                tx_bytes: counter_of(columns[6]),
            },
        )
    }
}

/// The peers that the first `n` lines of a dump tell of; line 0 describes the
/// interface itself.
pub open spec fn statuses(lines: Seq<Seq<char>>, n: nat) -> Seq<PeerStatusModel>
    decreases n,
{
    if n <= 1 {
        Seq::empty()
    } else {
        let before = statuses(lines, (n - 1) as nat);
        match status_of(lines[n - 1]) {
            Some(status) => before.push(status),
            None => before,
        }
    }
}

/// The peers that a dump tells of.
pub open spec fn dump_statuses(dump: Seq<char>) -> Seq<PeerStatusModel> {
    statuses(text::lines(dump), text::lines(dump).len())
}

fn read_counter(column: &str) -> (r: u64)
    ensures
        r == counter_of(column@),
{
    match number::parse_unsigned(column, u64::MAX) {
        Some(n) => n,
        None => 0,
    }
}

fn read_handshake(column: &str) -> (r: Option<Timestamp>)
    ensures
        r == handshake_of(column@),
{
    match number::parse_signed(column) {
        Some(seconds) => if seconds > 0 {
            Timestamp::from_unix_seconds(seconds)
        } else {
            None
        },
        None => None,
    }
}

fn read_status(line: &str) -> (r: Option<PeerStatus>)
    ensures
        text::opt_view(r) == status_of(line@),
{
    let columns = text::split_on(line, '\t');
    let ghost cols = text::split(line@, '\t');
    proof {
        assert(cols.len() == columns@.len());
    }
    if columns.len() < 7 {
        return None;
    }
    proof {
        assert(columns@[0]@ == cols[0]);
        assert(columns@[4]@ == cols[4]);
        assert(columns@[5]@ == cols[5]);
        assert(columns@[6]@ == cols[6]);
    }
    Some(
        PeerStatus {
            public_key: columns[0].clone(),
            last_handshake: read_handshake(columns[4].as_str()),
            rx_bytes: read_counter(columns[5].as_str()),
            tx_bytes: read_counter(columns[6].as_str()),
        },
    )
}

/// Parse `wg show <iface> dump`.
///
/// The first line describes the interface itself and is skipped; each
/// remaining line is a peer, tab separated:
/// `pubkey  psk  endpoint  allowed-ips  latest-handshake  rx  tx  keepalive`.
/// A handshake of `0` means "never", which is not the same as "at the epoch".
pub fn parse_dump(dump: &str) -> (r: Vec<PeerStatus>)
    ensures
        text::views(r@) == dump_statuses(dump@),
{
    let lines = text::lines_of(dump);
    let ghost all = text::views(lines@);
    let mut out: Vec<PeerStatus> = Vec::new();
    proof {
        assert(text::views(out@) =~= Seq::<PeerStatusModel>::empty());
    }
    if lines.len() == 0 {
        return out;
    }
    let mut i: usize = 1;
    while i < lines.len()
        invariant
            1 <= i <= lines@.len(),
            all == text::views(lines@),
            text::views(out@) == statuses(all, i as nat),
        decreases lines@.len() - i,
    {
        proof {
            assert(all[i as int] == lines@[i as int]@);
        }
        if let Some(status) = read_status(lines[i].as_str()) {
            proof {
                text::lemma_views_push(out@, status);
            }
            out.push(status);
        }
        i += 1;
    }
    out
}

// ---- the gateway's own key ----------------------------------------------

/// The private key that a key file holds: what is left of its contents without
/// the space around it.
pub open spec fn key_in(contents: Option<Seq<char>>) -> Option<Seq<char>> {
    match contents {
        Some(s) => if text::trim(s).len() > 0 {
            Some(text::trim(s))
        } else {
            None
        },
        None => None,
    }
}

/// The private key in a key file, where the file could be read and is not
/// blank.
pub fn stored_key(contents: Option<&str>) -> (r: Option<String>)
    ensures
        text::opt_view(r) == key_in(
            match contents {
                Some(s) => Some(s@),
                None => None,
            },
        ),
{
    match contents {
        Some(s) => {
            let key = text::trimmed(s);
            let chars = text::chars_of(key.as_str());
            if chars.len() > 0 {
                Some(key)
            } else {
                None
            }
        },
        None => None,
    }
}

/// A private key and what is written to its file.
pub struct KeyFile {
    pub private: String,
    pub contents: String,
}

/// A fresh private key for a gateway that has none. The file that keeps it
/// gives it back on the next start: another key would orphan every enrolled
/// agent.
pub fn create_key() -> (r: KeyFile)
    ensures
        r.contents@ == r.private@ + "\n"@,
        key_in(Some(r.contents@)) == Some(r.private@),
        wg::public_for(r.private@) is Ok,
{
    let pair = wg::generate_keypair();
    let mut contents = pair.private.clone();
    contents.append("\n");
    proof {
        reveal_strlit("\n");
        let key = pair.private@;
        let whole = contents@;
        assert(whole =~= key.push('\n'));
        assert(!text::is_white(key[0]));
        assert(!text::is_white(key.last()));
        assert(text::trim_start(whole) == whole);
        assert(whole.drop_last() =~= key);
        assert(text::trim_end(whole) == text::trim_end(key));
        assert(text::trim_end(key) == key);
    }
    KeyFile { private: pair.private, contents }
}

} // verus!
