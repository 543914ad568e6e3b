//! What the texts that are handed to the kernel say: the packet filter's
//! ruleset and both ends of the tunnel.

use crate::addr;
use crate::addr::Ipv4Addr;
use crate::api::TunnelConfigModel;
use crate::clock::Timestamp;
use crate::ids;
use crate::model::{AgentModel, NodeModel, Protocol};
use crate::net;
use crate::nft;
use crate::number;
use crate::store::ActiveForward;
use crate::table;
use crate::text;
use crate::text_laws;
use crate::tunnel;
use crate::tunnel::TunnelStepModel;
use crate::wgctl;
use crate::wgctl::InterfaceConfigModel;
use vstd::prelude::*;

verus! {

// ---- the packet filter --------------------------------------------------

/// A forward's rule sends its public port to the same port of the node's tunnel
/// address: one decimal stands after `dport` and after the address, it reads as
/// the public port, and the address reads as the node's.
pub proof fn law_rule_changes_only_the_address(
    table: Seq<char>,
    tunnel_subnet: Seq<char>,
    forwards: Seq<ActiveForward>,
    i: int,
) -> (r: (Seq<char>, Seq<char>))
    requires
        0 <= i < forwards.len(),
    ensures
        ({
            let port = r.0;
            let ip = r.1;
            let protocol = match forwards[i].protocol {
                Protocol::Tcp => "tcp"@,
                Protocol::Udp => "udp"@,
            };
            &&& number::unsigned(port, 65535) == Some(forwards[i].edge_port as nat)
            &&& addr::ipv4_read(ip) == Some(forwards[i].tunnel_ip)
            &&& text_laws::has_part(
                nft::ruleset_text(table, tunnel_subnet, forwards),
                "    "@ + protocol + " dport "@ + port + " dnat to "@ + ip + ":"@ + port
                    + "  # service "@ + ids::uuid_text(forwards[i].service_id) + "\n"@,
            )
        }),
{
    let f = forwards[i];
    let port = number::decimal(f.edge_port as nat);
    let ip = addr::ipv4_text(f.tunnel_ip);
    number::law_decimal_round_trip(f.edge_port as nat, 65535);
    addr::law_ipv4_round_trip(f.tunnel_ip);
    nft::law_every_forward_has_its_rule(table, tunnel_subnet, forwards, i);
    (port, ip)
}

/// What a game server listens on at home makes no difference to the ruleset.
pub proof fn law_ruleset_does_not_know_the_home_port(
    table: Seq<char>,
    tunnel_subnet: Seq<char>,
    forwards: Seq<ActiveForward>,
    others: Seq<ActiveForward>,
)
    requires
        forwards.len() == others.len(),
        forall|i: int|
            0 <= i < forwards.len() ==> (#[trigger] forwards[i]) == (ActiveForward {
                local_port: forwards[i].local_port,
                ..others[i]
            }),
    ensures
        nft::ruleset_text(table, tunnel_subnet, forwards) == nft::ruleset_text(
            table,
            tunnel_subnet,
            others,
        ),
{
    lemma_same_rules(forwards, others);
}

proof fn lemma_same_rules(forwards: Seq<ActiveForward>, others: Seq<ActiveForward>)
    requires
        forwards.len() == others.len(),
        forall|i: int|
            0 <= i < forwards.len() ==> (#[trigger] forwards[i]) == (ActiveForward {
                local_port: forwards[i].local_port,
                ..others[i]
            }),
    ensures
        nft::rules_text(forwards) == nft::rules_text(others),
    decreases forwards.len(),
{
    if forwards.len() > 0 {
        let head = forwards.drop_last();
        assert forall|i: int| 0 <= i < head.len() implies (#[trigger] head[i]) == (ActiveForward {
            local_port: head[i].local_port,
            ..others.drop_last()[i]
        }) by {
            assert(head[i] == forwards[i]);
        }
        lemma_same_rules(head, others.drop_last());
        let n = forwards.len() - 1;
        assert(forwards[n].edge_port == others[n].edge_port);
    }
}

/// With nothing to forward, the ruleset replaces the table in one go, takes
/// packets as they arrive, and masquerades what goes into the tunnel.
pub proof fn law_ruleset_replaces_the_table(table: Seq<char>, tunnel_subnet: Seq<char>)
    ensures
        nft::ruleset_text(table, tunnel_subnet, Seq::empty()) == (
        "# Managed by portal. Edits here are overwritten.\n"@ + "table ip "@ + table + "\n"@
            + "delete table ip "@ + table + "\n"@ + "table ip "@ + table + " {\n"@
            + "  chain prerouting {\n"@
            + "    type nat hook prerouting priority dstnat; policy accept;\n"@) + ("  }\n"@
            + "  chain postrouting {\n"@
            + "    type nat hook postrouting priority srcnat; policy accept;\n"@ + "    ip daddr "@
            + tunnel_subnet + " masquerade\n"@ + "  }\n"@ + "}\n"@),
{
    let empty = Seq::<ActiveForward>::empty();
    assert(nft::preamble_text(table) + nft::rules_text(empty) =~= nft::preamble_text(table));
}

/// Each further forward adds one line to the ruleset, before the first chain
/// closes, and changes nothing else.
pub proof fn law_each_forward_adds_one_rule(
    table: Seq<char>,
    tunnel_subnet: Seq<char>,
    forwards: Seq<ActiveForward>,
    f: ActiveForward,
) -> (r: (Seq<char>, Seq<char>, Seq<char>))
    ensures
        nft::ruleset_text(table, tunnel_subnet, forwards) == r.0 + r.2,
        nft::ruleset_text(table, tunnel_subnet, forwards.push(f)) == r.0 + r.1 + r.2,
        "  }\n"@.is_prefix_of(r.2),
        !has_newline(r.1.drop_last()),
        r.1.last() == '\n',
{
    let head = nft::preamble_text(table) + nft::rules_text(forwards);
    let line = nft::rule_text(f);
    let tail = nft::ending_text(tunnel_subnet);
    assert(forwards.push(f).drop_last() =~= forwards);
    assert(nft::ruleset_text(table, tunnel_subnet, forwards.push(f)) =~= head + line + tail);
    assert("  }\n"@ =~= tail.subrange(0, "  }\n"@.len() as int));
    lemma_rule_is_one_line(f);
    (head, line, tail)
}

/// Whether a text goes over more than one line.
pub open spec fn has_newline(s: Seq<char>) -> bool {
    exists|i: int| 0 <= i < s.len() && #[trigger] s[i] == '\n'
}

proof fn lemma_no_newline_joined(a: Seq<char>, b: Seq<char>)
    requires
        !has_newline(a),
        !has_newline(b),
    ensures
        !has_newline(a + b),
{
    assert forall|i: int| 0 <= i < (a + b).len() implies #[trigger] (a + b)[i] != '\n' by {
        if i < a.len() {
            assert((a + b)[i] == a[i]);
        } else {
            assert((a + b)[i] == b[i - a.len()]);
        }
    }
}

proof fn lemma_decimal_has_no_newline(n: nat)
    ensures
        !has_newline(number::decimal(n)),
{
    text_laws::law_decimal_is_digits(n);
}

proof fn lemma_address_has_no_newline(a: Ipv4Addr)
    ensures
        !has_newline(addr::ipv4_text(a)),
{
    lemma_decimal_has_no_newline(a.octet(0));
    lemma_decimal_has_no_newline(a.octet(1));
    lemma_decimal_has_no_newline(a.octet(2));
    lemma_decimal_has_no_newline(a.octet(3));
    let dot = seq!['.'];
    let x = number::decimal(a.octet(0)) + dot;
    lemma_no_newline_joined(number::decimal(a.octet(0)), dot);
    let y = x + number::decimal(a.octet(1));
    lemma_no_newline_joined(x, number::decimal(a.octet(1)));
    lemma_no_newline_joined(y, dot);
    let z = y + dot + number::decimal(a.octet(2));
    lemma_no_newline_joined(y + dot, number::decimal(a.octet(2)));
    lemma_no_newline_joined(z, dot);
    lemma_no_newline_joined(z + dot, number::decimal(a.octet(3)));
    assert(addr::ipv4_text(a) =~= z + dot + number::decimal(a.octet(3)));
}

proof fn lemma_id_has_no_newline(id: ids::Uuid)
    ensures
        !has_newline(ids::uuid_text(id)),
{
    assert forall|n: nat| n < 16 implies #[trigger] number::hex_char(n) != '\n' by {}
}

proof fn lemma_rule_is_one_line(f: ActiveForward)
    ensures
        nft::rule_text(f).len() > 0,
        nft::rule_text(f).last() == '\n',
        !has_newline(nft::rule_text(f).drop_last()),
{
    reveal_strlit("    ");
    reveal_strlit("tcp");
    reveal_strlit("udp");
    reveal_strlit(" dport ");
    reveal_strlit(" dnat to ");
    reveal_strlit(":");
    reveal_strlit("  # service ");
    reveal_strlit("\n");
    let port = number::decimal(f.edge_port as nat);
    let ip = addr::ipv4_text(f.tunnel_ip);
    let id = ids::uuid_text(f.service_id);
    lemma_decimal_has_no_newline(f.edge_port as nat);
    lemma_address_has_no_newline(f.tunnel_ip);
    lemma_id_has_no_newline(f.service_id);
    let a = "    "@ + f.protocol.name();
    lemma_no_newline_joined("    "@, f.protocol.name());
    let b = a + " dport "@;
    lemma_no_newline_joined(a, " dport "@);
    let c = b + port;
    lemma_no_newline_joined(b, port);
    let d = c + " dnat to "@;
    lemma_no_newline_joined(c, " dnat to "@);
    let e = d + ip;
    lemma_no_newline_joined(d, ip);
    let g = e + ":"@;
    lemma_no_newline_joined(e, ":"@);
    let h = g + port;
    lemma_no_newline_joined(g, port);
    let k = h + "  # service "@;
    lemma_no_newline_joined(h, "  # service "@);
    let l = k + id;
    lemma_no_newline_joined(k, id);
    assert(nft::rule_text(f) =~= l + "\n"@);
    assert(nft::rule_text(f).drop_last() =~= l);
}

// ---- the gateway's peers ------------------------------------------------

/// A node whose agent has announced a key.
pub open spec fn has_key() -> spec_fn(NodeModel) -> bool {
    |n: NodeModel| n.public_key is Some
}

/// The peers are the nodes with a public key, whatever else they say: as many
/// of them and in their order, each under its own key and tunnel address.
pub proof fn law_every_keyed_node_is_a_peer(nodes: Seq<NodeModel>)
    ensures
        ({
            let peers = wgctl::peers_among(nodes);
            let keyed = nodes.filter(has_key());
            &&& peers.len() == keyed.len()
            &&& forall|k: int|
                0 <= k < keyed.len() ==> {
                    &&& Some((#[trigger] peers[k]).public_key) == keyed[k].public_key
                    &&& peers[k].tunnel_ip == keyed[k].tunnel_ip
                    &&& peers[k].id == keyed[k].id
                    &&& peers[k].name == keyed[k].name
                    &&& peers[k].last_handshake == keyed[k].last_handshake
                    &&& peers[k].created_at == keyed[k].created_at
                }
        }),
    decreases nodes.len(),
{
    reveal(Seq::filter);
    if nodes.len() > 0 {
        law_every_keyed_node_is_a_peer(nodes.drop_last());
        let before = wgctl::peers_among(nodes.drop_last());
        let peers = wgctl::peers_among(nodes);
        let keyed = nodes.filter(has_key());
        let kept = nodes.drop_last().filter(has_key());
        assert forall|k: int| 0 <= k < keyed.len() implies {
            &&& Some((#[trigger] peers[k]).public_key) == keyed[k].public_key
            &&& peers[k].tunnel_ip == keyed[k].tunnel_ip
            &&& peers[k].id == keyed[k].id
            &&& peers[k].name == keyed[k].name
            &&& peers[k].last_handshake == keyed[k].last_handshake
            &&& peers[k].created_at == keyed[k].created_at
        } by {
            if k < kept.len() {
                assert(peers[k] == before[k]);
                assert(keyed[k] == kept[k]);
            }
        }
    }
}

/// A node with a key is found among the peers.
pub proof fn law_keyed_node_is_among_the_peers(nodes: Seq<NodeModel>, i: int)
    requires
        0 <= i < nodes.len(),
        nodes[i].public_key is Some,
    ensures
        exists|j: int|
            0 <= j < wgctl::peers_among(nodes).len() && Some(
                (#[trigger] wgctl::peers_among(nodes)[j]).public_key,
            ) == nodes[i].public_key && wgctl::peers_among(nodes)[j].tunnel_ip
                == nodes[i].tunnel_ip,
{
    let keyed = nodes.filter(has_key());
    law_every_keyed_node_is_a_peer(nodes);
    table::lemma_filter_members(nodes, has_key());
    assert(nodes.contains(nodes[i]));
    assert(keyed.contains(nodes[i]));
    let j = choose|j: int| 0 <= j < keyed.len() && keyed[j] == nodes[i];
    assert(Some(wgctl::peers_among(nodes)[j].public_key) == nodes[i].public_key);
}

/// The gateway's configuration begins with its own device: the private key, the
/// port that agents dial, and its address in the tunnel.
pub proof fn law_gateway_device_comes_first(iface: InterfaceConfigModel)
    ensures
        wgctl::config_text(iface, Seq::empty()) == (
        "# Managed by portal. Edits here are overwritten.\n"@ + "[Interface]\n"@) + (
        "PrivateKey = "@ + iface.private_key + "\n"@) + ("ListenPort = "@ + number::decimal(
            iface.listen_port as nat,
        ) + "\n"@) + ("Address = "@ + addr::ipv4_text(iface.address) + "/"@ + number::decimal(
            iface.prefix_len as nat,
        ) + "\n"@),
{
    assert(wgctl::config_text(iface, Seq::empty()) =~= wgctl::interface_text(iface));
    assert(wgctl::interface_text(iface) =~= (
    "# Managed by portal. Edits here are overwritten.\n"@ + "[Interface]\n"@) + ("PrivateKey = "@
        + iface.private_key + "\n"@) + ("ListenPort = "@ + number::decimal(
        iface.listen_port as nat,
    ) + "\n"@) + ("Address = "@ + addr::ipv4_text(iface.address) + "/"@ + number::decimal(
        iface.prefix_len as nat,
    ) + "\n"@));
}

/// Each further agent adds one section at the end, under its name: its key, and
/// its own address as the only one it may use.
pub proof fn law_each_agent_adds_its_section(
    iface: InterfaceConfigModel,
    agents: Seq<AgentModel>,
    a: AgentModel,
)
    ensures
        wgctl::config_text(iface, agents.push(a)) == wgctl::config_text(iface, agents) + ("\n# "@
            + a.name + "\n[Peer]\nPublicKey = "@ + a.public_key + "\nAllowedIPs = "@
            + addr::ipv4_text(a.tunnel_ip) + "/32\n"@),
{
    reveal_strlit("\n");
    reveal_strlit("# ");
    reveal_strlit("\n# ");
    reveal_strlit("[Peer]\n");
    reveal_strlit("PublicKey = ");
    reveal_strlit("\n[Peer]\nPublicKey = ");
    reveal_strlit("AllowedIPs = ");
    reveal_strlit("\nAllowedIPs = ");
    assert("\n"@ + "# "@ =~= "\n# "@);
    assert("\n"@ + "[Peer]\n"@ + "PublicKey = "@ =~= "\n[Peer]\nPublicKey = "@);
    assert("\n"@ + "AllowedIPs = "@ =~= "\nAllowedIPs = "@);
    let ip = addr::ipv4_text(a.tunnel_ip);
    assert(wgctl::peer_text(a) =~= ("\n"@ + "# "@) + a.name + ("\n"@ + "[Peer]\n"@ + "PublicKey = "@)
        + a.public_key + ("\n"@ + "AllowedIPs = "@) + ip + "/32\n"@);
    assert(agents.push(a).drop_last() =~= agents);
    assert(wgctl::config_text(iface, agents.push(a)) =~= wgctl::config_text(iface, agents)
        + wgctl::peer_text(a));
}

/// Every node with a key has its section in the gateway's configuration.
pub proof fn law_keyed_node_is_configured(
    iface: InterfaceConfigModel,
    nodes: Seq<NodeModel>,
    i: int,
)
    requires
        0 <= i < nodes.len(),
        nodes[i].public_key is Some,
    ensures
        text_laws::has_part(
            wgctl::config_text(iface, wgctl::peers_among(nodes)),
            "[Peer]\n"@ + "PublicKey = "@ + nodes[i].public_key->0 + "\n"@ + "AllowedIPs = "@
                + addr::ipv4_text(nodes[i].tunnel_ip) + "/32\n"@,
        ),
{
    let peers = wgctl::peers_among(nodes);
    law_keyed_node_is_among_the_peers(nodes, i);
    let j = choose|j: int|
        0 <= j < peers.len() && Some((#[trigger] peers[j]).public_key) == nodes[i].public_key
            && peers[j].tunnel_ip == nodes[i].tunnel_ip;
    let whole = wgctl::config_text(iface, peers);
    wgctl::law_every_agent_is_a_peer(iface, peers, j);
    let (before, after) = choose|before: Seq<char>, after: Seq<char>|
        whole == #[trigger] (before + wgctl::peer_text(peers[j]) + after);
    let part = "[Peer]\n"@ + "PublicKey = "@ + nodes[i].public_key->0 + "\n"@ + "AllowedIPs = "@
        + addr::ipv4_text(nodes[i].tunnel_ip) + "/32\n"@;
    let title = "\n"@ + "# "@ + peers[j].name + "\n"@;
    assert(wgctl::peer_text(peers[j]) =~= title + part + Seq::<char>::empty());
    text_laws::lemma_part_of_part(whole, before, wgctl::peer_text(peers[j]), after, part);
}

// ---- the agent's end ----------------------------------------------------

/// The agent's private key stands on its own line of the `[Interface]` section
/// and nowhere else: with another key only that line is another.
pub proof fn law_private_key_has_its_line(config: TunnelConfigModel) -> (r: (
    Seq<char>,
    Seq<char>,
))
    ensures
        forall|key: Seq<char>| #[trigger]
            tunnel::config_text(config, key) == r.0 + ("PrivateKey = "@ + key + "\n"@) + r.1,
        text_laws::has_part(r.0, "[Interface]\n"@),
        text_laws::has_part(r.1, "[Peer]\n"@),
{
    let before = "# Managed by portal-agent. Edits here are overwritten.\n"@ + "[Interface]\n"@;
    let address = "Address = "@ + addr::ipv4_text(config.tunnel_ip) + "/"@ + number::decimal(
        config.tunnel_prefix_len as nat,
    ) + "\n"@ + "\n"@;
    let peer = peer_section(config);
    let after = address + "[Peer]\n"@ + peer;
    assert(before =~= "# Managed by portal-agent. Edits here are overwritten.\n"@ + "[Interface]\n"@
        + Seq::<char>::empty());
    assert forall|key: Seq<char>| #[trigger]
        tunnel::config_text(config, key) == before + ("PrivateKey = "@ + key + "\n"@) + after by {
        lemma_agent_config(config, key);
        assert(before + ("PrivateKey = "@ + key + "\n"@) + after =~= before + ("PrivateKey = "@
            + key + "\n"@) + address + "[Peer]\n"@ + peer);
    }
    (before, after)
}

/// What the agent's configuration says of the gateway.
spec fn peer_section(config: TunnelConfigModel) -> Seq<char> {
    "PublicKey = "@ + config.gateway_public_key + "\n"@ + ("Endpoint = "@ + config.gateway_endpoint
        + "\n"@) + ("AllowedIPs = "@ + addr::ipv4_text(
        net::network_of(config.tunnel_ip, tunnel::mask_len(config.tunnel_prefix_len)),
    ) + "/"@ + number::decimal(config.tunnel_prefix_len as nat) + "\n"@) + (
    "PersistentKeepalive = "@ + number::decimal(config.persistent_keepalive as nat) + "\n"@)
}

/// An agent's configuration is these lines and no others: the device with its
/// key and address, then the gateway with its key, its endpoint, the tunnel's
/// network and the keepalive.
pub proof fn law_agent_config_is_these_lines(config: TunnelConfigModel, private_key: Seq<char>)
    ensures
        config.tunnel_prefix_len <= 32 ==> tunnel::config_text(config, private_key) == (
        "# Managed by portal-agent. Edits here are overwritten.\n"@ + "[Interface]\n"@) + (
        "PrivateKey = "@ + private_key + "\n"@) + ("Address = "@ + addr::ipv4_text(
            config.tunnel_ip,
        ) + "/"@ + number::decimal(config.tunnel_prefix_len as nat) + "\n"@ + "\n"@) + "[Peer]\n"@
            + ("PublicKey = "@ + config.gateway_public_key + "\n"@ + ("Endpoint = "@
            + config.gateway_endpoint + "\n"@) + ("AllowedIPs = "@ + addr::ipv4_text(
            net::network_of(config.tunnel_ip, config.tunnel_prefix_len),
        ) + "/"@ + number::decimal(config.tunnel_prefix_len as nat) + "\n"@) + (
        "PersistentKeepalive = "@ + number::decimal(config.persistent_keepalive as nat) + "\n"@)),
{
    lemma_agent_config(config, private_key);
}

proof fn lemma_agent_config(config: TunnelConfigModel, key: Seq<char>)
    ensures
        tunnel::config_text(config, key) == (
        "# Managed by portal-agent. Edits here are overwritten.\n"@ + "[Interface]\n"@) + (
        "PrivateKey = "@ + key + "\n"@) + ("Address = "@ + addr::ipv4_text(config.tunnel_ip) + "/"@
            + number::decimal(config.tunnel_prefix_len as nat) + "\n"@ + "\n"@) + "[Peer]\n"@
            + peer_section(config),
{
    let ip = addr::ipv4_text(config.tunnel_ip);
    let len = number::decimal(config.tunnel_prefix_len as nat);
    let base = addr::ipv4_text(
        net::network_of(config.tunnel_ip, tunnel::mask_len(config.tunnel_prefix_len)),
    );
    let keep = number::decimal(config.persistent_keepalive as nat);
    let nl = "\n"@;
    let a = "# Managed by portal-agent. Edits here are overwritten.\n"@ + "[Interface]\n"@;
    lemma_line(a, "PrivateKey = "@, key, nl);
    let b = a + ("PrivateKey = "@ + key + nl);
    lemma_long_line(b, "Address = "@, ip, "/"@, len, nl);
    let address = "Address = "@ + ip + "/"@ + len + nl;
    lemma_together(b, address, nl);
    let d = b + (address + nl) + "[Peer]\n"@;
    let p = "PublicKey = "@ + config.gateway_public_key + nl;
    lemma_line(d, "PublicKey = "@, config.gateway_public_key, nl);
    lemma_line(d + p, "Endpoint = "@, config.gateway_endpoint, nl);
    let e = "Endpoint = "@ + config.gateway_endpoint + nl;
    lemma_together(d, p, e);
    lemma_long_line(d + (p + e), "AllowedIPs = "@, base, "/"@, len, nl);
    let f = "AllowedIPs = "@ + base + "/"@ + len + nl;
    lemma_together(d, p + e, f);
    lemma_line(d + (p + e + f), "PersistentKeepalive = "@, keep, nl);
    let g = "PersistentKeepalive = "@ + keep + nl;
    lemma_together(d, p + e + f, g);
}

proof fn lemma_together(a: Seq<char>, b: Seq<char>, c: Seq<char>)
    ensures
        a + b + c == a + (b + c),
{
    assert(a + b + c =~= a + (b + c));
}

proof fn lemma_line(a: Seq<char>, label: Seq<char>, value: Seq<char>, end: Seq<char>)
    ensures
        a + label + value + end == a + (label + value + end),
{
    assert(a + label + value + end =~= a + (label + value + end));
}

proof fn lemma_long_line(
    a: Seq<char>,
    label: Seq<char>,
    x: Seq<char>,
    mid: Seq<char>,
    y: Seq<char>,
    end: Seq<char>,
)
    ensures
        a + label + x + mid + y + end == a + (label + x + mid + y + end),
{
    assert(a + label + x + mid + y + end =~= a + (label + x + mid + y + end));
}

/// The `[Peer]` section names the gateway's key, on a line of its own right
/// below its title: with another gateway key only that line is another, so two
/// configurations that differ in it are different texts.
pub proof fn law_gateway_key_has_its_line(config: TunnelConfigModel, private_key: Seq<char>) -> (r:
    (Seq<char>, Seq<char>))
    ensures
        forall|key: Seq<char>| #[trigger]
            tunnel::config_text(
                TunnelConfigModel { gateway_public_key: key, ..config },
                private_key,
            ) == r.0 + "[Peer]\n"@ + ("PublicKey = "@ + key + "\n"@) + r.1,
        text_laws::has_part(r.0, "PrivateKey = "@ + private_key + "\n"@),
        forall|key: Seq<char>|
            key != config.gateway_public_key ==> #[trigger] tunnel::config_text(
                TunnelConfigModel { gateway_public_key: key, ..config },
                private_key,
            ) != tunnel::config_text(config, private_key),
{
    let title = "# Managed by portal-agent. Edits here are overwritten.\n"@ + "[Interface]\n"@;
    let address = "Address = "@ + addr::ipv4_text(config.tunnel_ip) + "/"@ + number::decimal(
        config.tunnel_prefix_len as nat,
    ) + "\n"@ + "\n"@;
    let before = title + ("PrivateKey = "@ + private_key + "\n"@) + address;
    let after = ("Endpoint = "@ + config.gateway_endpoint + "\n"@) + ("AllowedIPs = "@
        + addr::ipv4_text(
        net::network_of(config.tunnel_ip, tunnel::mask_len(config.tunnel_prefix_len)),
    ) + "/"@ + number::decimal(config.tunnel_prefix_len as nat) + "\n"@) + (
    "PersistentKeepalive = "@ + number::decimal(config.persistent_keepalive as nat) + "\n"@);
    assert forall|key: Seq<char>| #[trigger]
        tunnel::config_text(
            TunnelConfigModel { gateway_public_key: key, ..config },
            private_key,
        ) == before + "[Peer]\n"@ + ("PublicKey = "@ + key + "\n"@) + after by {
        let other = TunnelConfigModel { gateway_public_key: key, ..config };
        lemma_agent_config(other, private_key);
        let line = "PublicKey = "@ + key + "\n"@;
        assert(peer_section(other) =~= line + after);
        assert(before + "[Peer]\n"@ + peer_section(other) =~= before + "[Peer]\n"@ + line + after);
    }
    let start = before + "[Peer]\n"@;
    assert forall|key: Seq<char>|
        key != config.gateway_public_key implies #[trigger] tunnel::config_text(
        TunnelConfigModel { gateway_public_key: key, ..config },
        private_key,
    ) != tunnel::config_text(config, private_key) by {
        let theirs = tunnel::config_text(
            TunnelConfigModel { gateway_public_key: key, ..config },
            private_key,
        );
        let own = config.gateway_public_key;
        assert(config == TunnelConfigModel { gateway_public_key: own, ..config });
        let ours = tunnel::config_text(
            TunnelConfigModel { gateway_public_key: own, ..config },
            private_key,
        );
        assert(theirs == start + ("PublicKey = "@ + key + "\n"@) + after);
        assert(ours == start + ("PublicKey = "@ + own + "\n"@) + after);
        if theirs == ours {
            lemma_line_tells_its_value(start, "PublicKey = "@, key, own, after);
        }
    }
    (before, after)
}

/// Two texts that differ in the value of one line are different.
proof fn lemma_line_tells_its_value(
    before: Seq<char>,
    label: Seq<char>,
    a: Seq<char>,
    b: Seq<char>,
    after: Seq<char>,
)
    requires
        before + (label + a + "\n"@) + after == before + (label + b + "\n"@) + after,
    ensures
        a == b,
{
    let s = before + (label + a + "\n"@) + after;
    let t = before + (label + b + "\n"@) + after;
    assert(s.len() == t.len());
    let from = (before.len() + label.len()) as int;
    assert(a =~= s.subrange(from, from + a.len()));
    assert(b =~= t.subrange(from, from + b.len()));
}

/// Below its title, the `[Peer]` section says where the gateway is dialled,
/// that only the tunnel's own network goes there, and how often the binding is
/// refreshed; above it, the agent takes its own address.
pub proof fn law_agent_config_says_everything(
    config: TunnelConfigModel,
    private_key: Seq<char>,
) -> (r: (Seq<char>, Seq<char>))
    ensures
        tunnel::config_text(config, private_key) == r.0 + "[Peer]\n"@ + r.1,
        text_laws::has_part(r.0, "[Interface]\n"@ + ("PrivateKey = "@ + private_key + "\n"@)),
        text_laws::has_part(
            r.0,
            "Address = "@ + addr::ipv4_text(config.tunnel_ip) + "/"@ + number::decimal(
                config.tunnel_prefix_len as nat,
            ) + "\n"@,
        ),
        text_laws::has_part(r.1, "PublicKey = "@ + config.gateway_public_key + "\n"@),
        text_laws::has_part(r.1, "Endpoint = "@ + config.gateway_endpoint + "\n"@),
        config.tunnel_prefix_len <= 32 ==> text_laws::has_part(
            r.1,
            "AllowedIPs = "@ + addr::ipv4_text(
                net::network_of(config.tunnel_ip, config.tunnel_prefix_len),
            ) + "/"@ + number::decimal(config.tunnel_prefix_len as nat) + "\n"@,
        ),
        config.tunnel_prefix_len > 32 ==> text_laws::has_part(
            r.1,
            "AllowedIPs = "@ + addr::ipv4_text(net::network_of(config.tunnel_ip, 32)) + "/"@
                + number::decimal(config.tunnel_prefix_len as nat) + "\n"@,
        ),
        text_laws::has_part(
            r.1,
            "PersistentKeepalive = "@ + number::decimal(config.persistent_keepalive as nat)
                + "\n"@,
        ),
{
    lemma_agent_config(config, private_key);
    let none = Seq::<char>::empty();
    let first = "# Managed by portal-agent. Edits here are overwritten.\n"@;
    let own = "PrivateKey = "@ + private_key + "\n"@;
    let address = "Address = "@ + addr::ipv4_text(config.tunnel_ip) + "/"@ + number::decimal(
        config.tunnel_prefix_len as nat,
    ) + "\n"@;
    let above = (first + "[Interface]\n"@) + own + (address + "\n"@);
    let key = "PublicKey = "@ + config.gateway_public_key + "\n"@;
    let endpoint = "Endpoint = "@ + config.gateway_endpoint + "\n"@;
    let allowed = "AllowedIPs = "@ + addr::ipv4_text(
        net::network_of(config.tunnel_ip, tunnel::mask_len(config.tunnel_prefix_len)),
    ) + "/"@ + number::decimal(config.tunnel_prefix_len as nat) + "\n"@;
    let keep = "PersistentKeepalive = "@ + number::decimal(config.persistent_keepalive as nat)
        + "\n"@;
    let below = peer_section(config);
    assert(above =~= first + ("[Interface]\n"@ + own) + (address + "\n"@));
    assert(above =~= (first + "[Interface]\n"@ + own) + address + "\n"@);
    assert(below =~= none + key + (endpoint + allowed + keep));
    assert(below =~= key + endpoint + (allowed + keep));
    assert(below =~= (key + endpoint) + allowed + keep);
    assert(below =~= (key + endpoint + allowed) + keep + none);
    (above, below)
}

/// An agent is only ever sent its own network: two agents of one network are
/// given the same route, and the route is that network's address.
pub proof fn law_agents_of_a_network_share_its_route(a: Ipv4Addr, b: Ipv4Addr, len: u8)
    requires
        len <= 32,
        net::network_of(a, len) == net::network_of(b, len),
    ensures
        net::network_of(a, tunnel::mask_len(len)) == net::network_of(b, tunnel::mask_len(len)),
        net::network_of(a, tunnel::mask_len(len)) == net::network_of(a, len),
{
}

/// The tunnel comes up in three steps on one file: the configuration is written
/// there first, an interface that may be left over is taken down without regard
/// to what comes of it, and only then is it brought up.
pub proof fn law_tunnel_comes_up_in_order(
    path: Seq<char>,
    config: TunnelConfigModel,
    private_key: Seq<char>,
)
    ensures
        ({
            let steps = tunnel::up_steps(path, config, private_key);
            &&& steps.len() == 3
            &&& steps[0] matches TunnelStepModel::WritePrivate { path: at, contents } && at == path
                && text_laws::has_part(contents, "PublicKey = "@ + config.gateway_public_key + "\n"@)
                && text_laws::has_part(contents, "PrivateKey = "@ + private_key + "\n"@)
            &&& steps[1] matches TunnelStepModel::Try { action, path: at } && action == "down"@ && at
                == path
            &&& steps[2] matches TunnelStepModel::Run { action, path: at } && action == "up"@ && at
                == path
        }),
{
    let contents = tunnel::config_text(config, private_key);
    let (above, below) = law_agent_config_says_everything(config, private_key);
    let none = Seq::<char>::empty();
    assert(contents =~= (above + "[Peer]\n"@) + below + none);
    text_laws::lemma_part_of_part(
        contents,
        above + "[Peer]\n"@,
        below,
        none,
        "PublicKey = "@ + config.gateway_public_key + "\n"@,
    );
    let (x, y) = law_private_key_has_its_line(config);
    assert(contents == x + ("PrivateKey = "@ + private_key + "\n"@) + y);
}

// ---- liveness -----------------------------------------------------------

/// Whether no piece holds the separator.
pub open spec fn free_of(pieces: Seq<Seq<char>>, sep: char) -> bool {
    forall|i: int| 0 <= i < pieces.len() ==> !(#[trigger] pieces[i]).contains(sep)
}

/// Pieces that are put together with a separator come apart again as they were.
pub proof fn law_pieces_come_apart(pieces: Seq<Seq<char>>, sep: char)
    requires
        pieces.len() > 0,
        free_of(pieces, sep),
    ensures
        text::split(text_laws::rejoined(pieces, sep), sep) == pieces,
    decreases pieces.len(),
{
    if pieces.len() == 1 {
        lemma_one_piece(pieces[0], sep);
        assert(text::split(pieces[0], sep) =~= pieces);
    } else {
        let head = pieces.drop_last();
        assert(free_of(head, sep)) by {
            assert forall|i: int| 0 <= i < head.len() implies !(#[trigger] head[i]).contains(
                sep,
            ) by {
                assert(head[i] == pieces[i]);
            }
        }
        law_pieces_come_apart(head, sep);
        let start = text_laws::rejoined(head, sep);
        assert(start.push(sep).drop_last() =~= start);
        assert(!pieces[pieces.len() - 1].contains(sep));
        lemma_piece_after(start.push(sep), pieces.last(), sep);
        assert(text::split(start.push(sep) + pieces.last(), sep) =~= pieces);
    }
}

proof fn lemma_one_piece(piece: Seq<char>, sep: char)
    requires
        !piece.contains(sep),
    ensures
        text::split(piece, sep) == seq![piece],
    decreases piece.len(),
{
    if piece.len() > 0 {
        let head = piece.drop_last();
        assert(!head.contains(sep)) by {
            if head.contains(sep) {
                let k = choose|k: int| 0 <= k < head.len() && head[k] == sep;
                assert(piece[k] == sep);
            }
        }
        lemma_one_piece(head, sep);
        assert(piece[piece.len() - 1] != sep);
        assert(piece =~= head.push(piece.last()));
        assert(text::split(piece, sep) =~= seq![piece]);
    } else {
        assert(piece =~= Seq::<char>::empty());
    }
}

/// What stands after the last separator is the last piece.
proof fn lemma_piece_after(start: Seq<char>, piece: Seq<char>, sep: char)
    requires
        start.len() > 0,
        start.last() == sep,
        !piece.contains(sep),
    ensures
        text::split(start + piece, sep) == text::split(start.drop_last(), sep).push(piece),
    decreases piece.len(),
{
    if piece.len() == 0 {
        assert(start + piece =~= start);
        assert(piece =~= Seq::<char>::empty());
    } else {
        let head = piece.drop_last();
        assert(!head.contains(sep)) by {
            if head.contains(sep) {
                let k = choose|k: int| 0 <= k < head.len() && head[k] == sep;
                assert(piece[k] == sep);
            }
        }
        lemma_piece_after(start, head, sep);
        assert((start + piece).drop_last() =~= start + head);
        assert((start + piece).last() == piece.last());
        assert(piece[piece.len() - 1] != sep);
        let before = text::split(start + head, sep);
        assert(before.last() == head);
        assert(before.drop_last() =~= text::split(start.drop_last(), sep));
        assert(head.push(piece.last()) =~= piece);
    }
}

/// A line of WireGuard's dump is read by its columns: the first is the key, the
/// fifth the handshake, the sixth and seventh the traffic, whatever stands in
/// the others. A line with fewer than seven tells of no peer.
pub proof fn law_dump_line_is_read_by_column(columns: Seq<Seq<char>>)
    requires
        columns.len() > 0,
        free_of(columns, '\t'),
    ensures
        ({
            let status = wgctl::status_of(text_laws::rejoined(columns, '\t'));
            &&& status is Some <==> columns.len() >= 7
            &&& status matches Some(s) ==> {
                &&& s.public_key == columns[0]
                &&& s.last_handshake == match number::signed(columns[4]) {
                    Some(n) => if 0 < n <= 253402300799 {
                        Some(Timestamp { unix_nanos: (n * 1_000_000_000) as i128, offset_seconds: 0 })
                    } else {
                        None
                    },
                    None => None,
                }
                &&& s.rx_bytes == (match number::unsigned(columns[5], 0xffff_ffff_ffff_ffff) {
                    Some(n) => n,
                    None => 0,
                })
                &&& s.tx_bytes == (match number::unsigned(columns[6], 0xffff_ffff_ffff_ffff) {
                    Some(n) => n,
                    None => 0,
                })
            }
        }),
{
    law_pieces_come_apart(columns, '\t');
}

/// A line of a dump that tells of a peer.
pub open spec fn tells_of_a_peer() -> spec_fn(Seq<char>) -> bool {
    |line: Seq<char>| wgctl::status_of(line) is Some
}

/// A dump tells of a peer for each line that does, in their order; its first
/// line is about the interface itself and tells of none.
pub proof fn law_dump_tells_of_each_peer(dump: Seq<char>)
    ensures
        ({
            let lines = text::lines(dump);
            let peers = wgctl::dump_statuses(dump);
            lines.len() > 0 ==> {
                let telling = lines.drop_first().filter(tells_of_a_peer());
                &&& peers.len() == telling.len()
                &&& forall|k: int|
                    0 <= k < peers.len() ==> Some(#[trigger] peers[k]) == wgctl::status_of(
                        telling[k],
                    )
            }
        }),
        text::lines(dump).len() == 0 ==> wgctl::dump_statuses(dump).len() == 0,
{
    let lines = text::lines(dump);
    if lines.len() > 0 {
        lemma_statuses(lines, lines.len());
        assert(lines.take(lines.len() as int).drop_first() =~= lines.drop_first());
    }
}

proof fn lemma_statuses(lines: Seq<Seq<char>>, n: nat)
    requires
        1 <= n <= lines.len(),
    ensures
        ({
            let telling = lines.take(n as int).drop_first().filter(tells_of_a_peer());
            let peers = wgctl::statuses(lines, n);
            &&& peers.len() == telling.len()
            &&& forall|k: int|
                0 <= k < peers.len() ==> Some(#[trigger] peers[k]) == wgctl::status_of(telling[k])
        }),
    decreases n,
{
    reveal(Seq::filter);
    let part = lines.take(n as int).drop_first();
    let telling = part.filter(tells_of_a_peer());
    let peers = wgctl::statuses(lines, n);
    if n > 1 {
        lemma_statuses(lines, (n - 1) as nat);
        let less = lines.take(n - 1).drop_first();
        assert(part.drop_last() =~= less);
        assert(part.last() == lines[n - 1]);
        let before = less.filter(tells_of_a_peer());
        let told = wgctl::statuses(lines, (n - 1) as nat);
        assert forall|k: int| 0 <= k < peers.len() implies Some(#[trigger] peers[k])
            == wgctl::status_of(telling[k]) by {
            if k < told.len() {
                assert(peers[k] == told[k]);
                assert(telling[k] == before[k]);
            }
        }
    } else {
        assert(part =~= Seq::<Seq<char>>::empty());
    }
}

/// A handshake in whole seconds is read as that instant; zero means there has
/// been none. Traffic is read as it is counted.
pub proof fn law_dump_numbers_are_read(n: nat)
    ensures
        0 < n <= 253402300799 ==> wgctl::handshake_of(number::decimal(n)) == Some(
            Timestamp { unix_nanos: (n * 1_000_000_000) as i128, offset_seconds: 0 },
        ),
        n == 0 ==> wgctl::handshake_of(number::decimal(n)) is None,
        n <= u64::MAX ==> wgctl::counter_of(number::decimal(n)) == n,
{
    text_laws::law_decimal_is_digits(n);
    text_laws::law_decimal_digits(n, 0);
    assert('0' <= number::decimal(n)[0] <= '9');
    if n <= 0x7fff_ffff_ffff_ffff {
        number::law_decimal_round_trip(n, 0x7fff_ffff_ffff_ffff);
    }
    if n <= u64::MAX {
        number::law_decimal_round_trip(n, u64::MAX as nat);
    }
}

/// A key file gives its key without the space around it, and a blank or missing
/// file gives none.
pub proof fn law_key_file_is_trimmed(contents: Seq<char>)
    ensures
        wgctl::key_in(None) is None,
        wgctl::key_in(Some(contents)) is None <==> text_laws::blank(contents),
        wgctl::key_in(Some(contents)) matches Some(key) ==> {
            &&& text_laws::has_part(contents, key)
            &&& key.len() > 0
            &&& !text::is_white(key[0])
            &&& !text::is_white(key.last())
            &&& wgctl::key_in(Some(key)) == Some(key)
        },
{
    let (a, b) = text_laws::law_trim_takes_only_space(contents);
    text::law_trim_is_idempotent(contents);
}

} // verus!
