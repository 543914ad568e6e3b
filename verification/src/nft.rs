//! The nftables ruleset that actually moves game traffic.
//!
//! This is the only place game packets are dealt with, and the gateway process
//! is not in the path: it writes rules, the kernel forwards. That is why a
//! gateway restart does not drop anyone's connection, and why the latency cost
//! of this whole system is the WireGuard encryption and nothing else.
//!
//! The ruleset is replaced wholesale rather than edited. Computing the desired
//! state and swapping it in atomically means the rules cannot drift away from
//! the database, and a crash half way through leaves the old ruleset intact.

use crate::addr;
use crate::addr::Ipv4Addr;
use crate::ids;
use crate::ids::Uuid;
use crate::number;
use crate::store::ActiveForward;
use vstd::prelude::*;

verus! {

/// The rule that moves one forward into the tunnel. Only the address changes,
/// not the port.
pub open spec fn rule_text(f: ActiveForward) -> Seq<char> {
    "    "@ + f.protocol.name() + " dport "@ + number::decimal(f.edge_port as nat) + " dnat to "@
        + addr::ipv4_text(f.tunnel_ip) + ":"@ + number::decimal(f.edge_port as nat)
        + "  # service "@ + ids::uuid_text(f.service_id) + "\n"@
}

/// One rule per forward, in their order.
pub open spec fn rules_text(forwards: Seq<ActiveForward>) -> Seq<char>
    decreases forwards.len(),
{
    if forwards.len() == 0 {
        Seq::empty()
    } else {
        rules_text(forwards.drop_last()) + rule_text(forwards.last())
    }
}

/// What comes before the rules: the table replaced, and its first chain opened.
pub open spec fn preamble_text(table: Seq<char>) -> Seq<char> {
    "# Managed by portal. Edits here are overwritten.\n"@ + "table ip "@ + table + "\n"@
        + "delete table ip "@ + table + "\n"@ + "table ip "@ + table + " {\n"@
        + "  chain prerouting {\n"@
        + "    type nat hook prerouting priority dstnat; policy accept;\n"@
}

/// What comes after the rules: replies masqueraded into the tunnel.
pub open spec fn ending_text(tunnel_subnet: Seq<char>) -> Seq<char> {
    "  }\n"@ + "  chain postrouting {\n"@
        + "    type nat hook postrouting priority srcnat; policy accept;\n"@ + "    ip daddr "@
        + tunnel_subnet + " masquerade\n"@ + "  }\n"@ + "}\n"@
}

/// The complete ruleset for the gateway's table.
pub open spec fn ruleset_text(
    table: Seq<char>,
    tunnel_subnet: Seq<char>,
    forwards: Seq<ActiveForward>,
) -> Seq<char> {
    preamble_text(table) + rules_text(forwards) + ending_text(tunnel_subnet)
}

fn push_rule(out: &mut String, f: &ActiveForward)
    ensures
        final(out)@ == old(out)@ + rule_text(*f),
{
    out.append("    ");
    out.append(f.protocol.as_str());
    out.append(" dport ");
    number::push_decimal(out, f.edge_port as u64);
    out.append(" dnat to ");
    let tunnel_ip = f.tunnel_ip.to_string();
    out.append(tunnel_ip.as_str());
    out.append(":");
    number::push_decimal(out, f.edge_port as u64);
    out.append("  # service ");
    let service_id = f.service_id.to_string();
    out.append(service_id.as_str());
    out.append("\n");
    proof {
        assert(out@ =~= old(out)@ + rule_text(*f));
    }
}

/// Build the complete ruleset for the gateway's table.
///
/// The `table` / `delete table` / `table` preamble is the standard atomic
/// replace: the first line creates the table if it does not exist so the
/// delete cannot fail on a fresh boot, and because `nft -f` applies a file as
/// a single transaction, there is no window where the table is missing and
/// players are refused.
pub fn ruleset(table: &str, tunnel_subnet: &str, forwards: &[ActiveForward]) -> (r: String)
    ensures
        r@ == ruleset_text(table@, tunnel_subnet@, forwards@),
{
    let mut out = "# Managed by portal. Edits here are overwritten.\n".to_owned();
    out.append("table ip ");
    out.append(table);
    out.append("\n");
    out.append("delete table ip ");
    out.append(table);
    out.append("\n");
    out.append("table ip ");
    out.append(table);
    out.append(" {\n");
    out.append("  chain prerouting {\n");
    out.append("    type nat hook prerouting priority dstnat; policy accept;\n");
    let ghost head = out@;
    let mut i: usize = 0;
    proof {
        assert(forwards@.take(0) =~= Seq::<ActiveForward>::empty());
        assert(head + rules_text(forwards@.take(0)) =~= head);
    }
    while i < forwards.len()
        invariant
            i <= forwards@.len(),
            out@ == head + rules_text(forwards@.take(i as int)),
        decreases forwards@.len() - i,
    {
        proof {
            assert(forwards@.take(i + 1).drop_last() =~= forwards@.take(i as int));
        }
        push_rule(&mut out, &forwards[i]);
        proof {
            assert(out@ =~= head + rules_text(forwards@.take(i + 1)));
        }
        i += 1;
    }
    proof {
        assert(forwards@.take(i as int) =~= forwards@);
    }
    out.append("  }\n");
    out.append("  chain postrouting {\n");
    out.append("    type nat hook postrouting priority srcnat; policy accept;\n");
    // Without this the game server would reply straight to the player's real
    // address, which it has no route to; masquerading makes the agent talk
    // only to the gateway's tunnel address. The cost is that the server sees
    // the tunnel address instead of the player's IP.
    out.append("    ip daddr ");
    out.append(tunnel_subnet);
    out.append(" masquerade\n");
    out.append("  }\n");
    out.append("}\n");
    proof {
        assert(head =~= preamble_text(table@));
        assert(out@ =~= ruleset_text(table@, tunnel_subnet@, forwards@));
    }
    out
}

/// Every forward has its rule in the ruleset, on a line of its own.
pub proof fn law_every_forward_has_its_rule(
    table: Seq<char>,
    tunnel_subnet: Seq<char>,
    forwards: Seq<ActiveForward>,
    i: int,
)
    requires
        0 <= i < forwards.len(),
    ensures
        exists|before: Seq<char>, after: Seq<char>|
            ruleset_text(table, tunnel_subnet, forwards) == #[trigger] (before + rule_text(
                forwards[i],
            ) + after),
{
    let (before, after) = lemma_rule_within(forwards, i);
    let head = preamble_text(table) + before;
    let tail = after + ending_text(tunnel_subnet);
    assert(ruleset_text(table, tunnel_subnet, forwards) =~= head + rule_text(forwards[i]) + tail);
}

proof fn lemma_rule_within(forwards: Seq<ActiveForward>, i: int) -> (r: (Seq<char>, Seq<char>))
    requires
        0 <= i < forwards.len(),
    ensures
        rules_text(forwards) == r.0 + rule_text(forwards[i]) + r.1,
    decreases forwards.len(),
{
    if i == forwards.len() - 1 {
        let r = (rules_text(forwards.drop_last()), Seq::<char>::empty());
        assert(rules_text(forwards) =~= r.0 + rule_text(forwards[i]) + r.1);
        r
    } else {
        let (before, after) = lemma_rule_within(forwards.drop_last(), i);
        let r = (before, after + rule_text(forwards.last()));
        assert(rules_text(forwards) =~= r.0 + rule_text(forwards[i]) + r.1);
        r
    }
}

/// How many of these characters a text has.
pub open spec fn count_char(s: Seq<char>, c: char) -> nat
    decreases s.len(),
{
    if s.len() == 0 {
        0
    } else {
        count_char(s.drop_last(), c) + if s.last() == c {
            1nat
        } else {
            0nat
        }
    }
}

/// Whether a text opens as many braces as it closes.
pub open spec fn balanced(s: Seq<char>) -> bool {
    count_char(s, '{') == count_char(s, '}')
}

proof fn lemma_count_joined(a: Seq<char>, b: Seq<char>, c: char)
    ensures
        count_char(a + b, c) == count_char(a, c) + count_char(b, c),
    decreases b.len(),
{
    if b.len() == 0 {
        assert(a + b =~= a);
    } else {
        assert((a + b).drop_last() =~= a + b.drop_last());
        lemma_count_joined(a, b.drop_last(), c);
    }
}

proof fn lemma_joined(a: Seq<char>, b: Seq<char>)
    ensures
        count_char(a + b, '{') == count_char(a, '{') + count_char(b, '{'),
        count_char(a + b, '}') == count_char(a, '}') + count_char(b, '}'),
{
    lemma_count_joined(a, b, '{');
    lemma_count_joined(a, b, '}');
}

proof fn lemma_count_none(s: Seq<char>, c: char)
    requires
        forall|i: int| 0 <= i < s.len() ==> #[trigger] s[i] != c,
    ensures
        count_char(s, c) == 0,
    decreases s.len(),
{
    if s.len() > 0 {
        assert(s[s.len() - 1] != c);
        assert forall|i: int| 0 <= i < s.drop_last().len() implies #[trigger] s.drop_last()[i]
            != c by {
            assert(s[i] != c);
        }
        lemma_count_none(s.drop_last(), c);
    }
}

/// Whether a text has no braces at all.
spec fn plain(s: Seq<char>) -> bool {
    forall|i: int| 0 <= i < s.len() ==> #[trigger] s[i] != '{' && s[i] != '}'
}

proof fn lemma_plain_joined(a: Seq<char>, b: Seq<char>)
    requires
        plain(a),
        plain(b),
    ensures
        plain(a + b),
{
    assert forall|i: int| 0 <= i < (a + b).len() implies #[trigger] (a + b)[i] != '{' && (a + b)[i]
        != '}' by {
        if i < a.len() {
            assert((a + b)[i] == a[i]);
        } else {
            assert((a + b)[i] == b[i - a.len()]);
        }
    }
}

proof fn lemma_decimal_plain(n: nat)
    ensures
        plain(number::decimal(n)),
    decreases n,
{
    if n >= 10 {
        lemma_decimal_plain(n / 10);
    }
}

proof fn lemma_rule_plain(f: ActiveForward)
    ensures
        plain(rule_text(f)),
{
    reveal_strlit("    ");
    reveal_strlit("tcp");
    reveal_strlit("udp");
    reveal_strlit(" dport ");
    reveal_strlit(" dnat to ");
    reveal_strlit(":");
    reveal_strlit("  # service ");
    reveal_strlit("\n");
    let port = number::decimal(f.edge_port as nat);
    let ip = addr::ipv4_text(f.tunnel_ip);
    let id = ids::uuid_text(f.service_id);
    lemma_decimal_plain(f.edge_port as nat);
    lemma_address_plain(f.tunnel_ip);
    lemma_id_plain(f.service_id);
    let a = "    "@ + f.protocol.name();
    lemma_plain_joined("    "@, f.protocol.name());
    lemma_plain_joined(a, " dport "@);
    let b = a + " dport "@ + port;
    lemma_plain_joined(a + " dport "@, port);
    lemma_plain_joined(b, " dnat to "@);
    let c = b + " dnat to "@ + ip;
    lemma_plain_joined(b + " dnat to "@, ip);
    lemma_plain_joined(c, ":"@);
    let d = c + ":"@ + port;
    lemma_plain_joined(c + ":"@, port);
    lemma_plain_joined(d, "  # service "@);
    let e = d + "  # service "@ + id;
    lemma_plain_joined(d + "  # service "@, id);
    lemma_plain_joined(e, "\n"@);
}

proof fn lemma_address_plain(a: Ipv4Addr)
    ensures
        plain(addr::ipv4_text(a)),
{
    lemma_decimal_plain(a.octet(0));
    lemma_decimal_plain(a.octet(1));
    lemma_decimal_plain(a.octet(2));
    lemma_decimal_plain(a.octet(3));
    let x = number::decimal(a.octet(0)).push('.');
    lemma_plain_joined(x, number::decimal(a.octet(1)));
    let y = (x + number::decimal(a.octet(1))).push('.');
    lemma_plain_joined(y, number::decimal(a.octet(2)));
    let z = (y + number::decimal(a.octet(2))).push('.');
    lemma_plain_joined(z, number::decimal(a.octet(3)));
}

proof fn lemma_id_plain(id: Uuid)
    ensures
        plain(ids::uuid_text(id)),
{
    assert forall|n: nat| n < 16 implies #[trigger] number::hex_char(n) != '{' && number::hex_char(
        n,
    ) != '}' by {}
}

proof fn lemma_rules_balanced(forwards: Seq<ActiveForward>)
    ensures
        balanced(rules_text(forwards)),
    decreases forwards.len(),
{
    if forwards.len() > 0 {
        lemma_rules_balanced(forwards.drop_last());
        let rule = rule_text(forwards.last());
        lemma_rule_plain(forwards.last());
        lemma_count_none(rule, '{');
        lemma_count_none(rule, '}');
        lemma_joined(rules_text(forwards.drop_last()), rule);
    }
}

/// Braces balance whatever is forwarded, so that `nft` can parse the ruleset.
pub proof fn law_braces_balance(
    table: Seq<char>,
    tunnel_subnet: Seq<char>,
    forwards: Seq<ActiveForward>,
)
    requires
        balanced(table),
        balanced(tunnel_subnet),
    ensures
        balanced(ruleset_text(table, tunnel_subnet, forwards)),
{
    lemma_rules_balanced(forwards);
    let t0 = "# Managed by portal. Edits here are overwritten.\n"@;
    let t3 = "    type nat hook prerouting priority dstnat; policy accept;\n"@;
    let t5 = "    type nat hook postrouting priority srcnat; policy accept;\n"@;
    reveal_strlit("# Managed by portal. Edits here are overwritten.\n");
    reveal_strlit("table ip ");
    reveal_strlit("delete table ip ");
    reveal_strlit("\n");
    reveal_strlit(" {\n");
    reveal_strlit("  chain prerouting {\n");
    reveal_strlit("    type nat hook prerouting priority dstnat; policy accept;\n");
    reveal_strlit("  }\n");
    reveal_strlit("  chain postrouting {\n");
    reveal_strlit("    type nat hook postrouting priority srcnat; policy accept;\n");
    reveal_strlit("    ip daddr ");
    reveal_strlit(" masquerade\n");
    reveal_strlit("}\n");
    assert(plain(t0) && plain(t3) && plain(t5) && plain("table ip "@) && plain(
        "delete table ip "@,
    ) && plain("\n"@) && plain("    ip daddr "@) && plain(" masquerade\n"@));
    lemma_plain_counts(t0);
    lemma_plain_counts(t3);
    lemma_plain_counts(t5);
    lemma_plain_counts("table ip "@);
    lemma_plain_counts("delete table ip "@);
    lemma_plain_counts("\n"@);
    lemma_plain_counts("    ip daddr "@);
    lemma_plain_counts(" masquerade\n"@);
    lemma_one(" {\n"@, 1, '{', '}');
    lemma_one("  chain prerouting {\n"@, 19, '{', '}');
    lemma_one("  }\n"@, 2, '}', '{');
    lemma_one("  chain postrouting {\n"@, 20, '{', '}');
    lemma_one("}\n"@, 0, '}', '{');

    let a1 = t0 + "table ip "@;
    lemma_joined(t0, "table ip "@);
    let a2 = a1 + table;
    lemma_joined(a1, table);
    let a3 = a2 + "\n"@;
    lemma_joined(a2, "\n"@);
    let a4 = a3 + "delete table ip "@;
    lemma_joined(a3, "delete table ip "@);
    let a5 = a4 + table;
    lemma_joined(a4, table);
    let a6 = a5 + "\n"@;
    lemma_joined(a5, "\n"@);
    let a7 = a6 + "table ip "@;
    lemma_joined(a6, "table ip "@);
    let a8 = a7 + table;
    lemma_joined(a7, table);
    let a9 = a8 + " {\n"@;
    lemma_joined(a8, " {\n"@);
    let a10 = a9 + "  chain prerouting {\n"@;
    lemma_joined(a9, "  chain prerouting {\n"@);
    lemma_joined(a10, t3);

    let b1 = "  }\n"@ + "  chain postrouting {\n"@;
    lemma_joined("  }\n"@, "  chain postrouting {\n"@);
    let b2 = b1 + t5;
    lemma_joined(b1, t5);
    let b3 = b2 + "    ip daddr "@;
    lemma_joined(b2, "    ip daddr "@);
    let b4 = b3 + tunnel_subnet;
    lemma_joined(b3, tunnel_subnet);
    let b5 = b4 + " masquerade\n"@;
    lemma_joined(b4, " masquerade\n"@);
    let b6 = b5 + "  }\n"@;
    lemma_joined(b5, "  }\n"@);
    lemma_joined(b6, "}\n"@);

    lemma_joined(preamble_text(table), rules_text(forwards));
    lemma_joined(preamble_text(table) + rules_text(forwards), ending_text(tunnel_subnet));
}

proof fn lemma_plain_counts(s: Seq<char>)
    requires
        plain(s),
    ensures
        count_char(s, '{') == 0,
        count_char(s, '}') == 0,
{
    lemma_count_none(s, '{');
    lemma_count_none(s, '}');
}

/// A text with one `c`, at place `at`, and no `d`.
proof fn lemma_one(s: Seq<char>, at: int, c: char, d: char)
    requires
        0 <= at < s.len(),
        s[at] == c,
        c != d,
        forall|i: int| 0 <= i < s.len() && i != at ==> #[trigger] s[i] != c && s[i] != d,
    ensures
        count_char(s, c) == 1,
        count_char(s, d) == 0,
{
    let a = s.take(at);
    let b = s.skip(at + 1);
    let m = seq![c];
    assert(s =~= a + m + b);
    lemma_count_joined(a + m, b, c);
    lemma_count_joined(a, m, c);
    lemma_count_joined(a + m, b, d);
    lemma_count_joined(a, m, d);
    lemma_count_none(a, c);
    lemma_count_none(b, c);
    lemma_count_none(a, d);
    lemma_count_none(b, d);
    lemma_count_none(m, d);
    assert(m.drop_last() =~= Seq::<char>::empty());
    assert(count_char(m.drop_last(), c) == 0);
}

} // verus!
