//! What holds of everything an agent does: what it serves, how long it waits,
//! and what it makes of the gateway's answers.

use crate::agent;
use crate::api::ForwardModel;
use crate::cli;
use crate::client;
use crate::client::{Answer, BodyKind, ClientErrorModel};
use crate::forward;
use crate::forward::{PeerAddr, Sending, Session};
use crate::model::Protocol;
use crate::number;
use crate::table;
use crate::text;
use vstd::prelude::*;

verus! {

// ---- what is served -----------------------------------------------------

/// Whether no later entry is for the same protocol and port.
pub open spec fn last_of_its_port(forwards: Seq<ForwardModel>, i: int) -> bool {
    forall|j: int|
        i < j < forwards.len() ==> (#[trigger] forwards[j]).protocol != forwards[i].protocol
            || forwards[j].tunnel_port != forwards[i].tunnel_port
}

/// Of several entries for one protocol and port the last one counts.
pub proof fn law_the_last_entry_counts(forwards: Seq<ForwardModel>, i: int)
    requires
        0 <= i < forwards.len(),
        last_of_its_port(forwards, i),
    ensures
        forward::wanted(forwards, (forwards[i].protocol, forwards[i].tunnel_port)) == Some(
            forwards[i],
        ),
    decreases forwards.len(),
{
    let head = forwards.drop_last();
    let last = forwards.len() - 1;
    if i < last {
        assert(forwards[last].protocol != forwards[i].protocol || forwards[last].tunnel_port
            != forwards[i].tunnel_port);
        assert forall|j: int| i < j < head.len() implies (#[trigger] head[j]).protocol
            != head[i].protocol || head[j].tunnel_port != head[i].tunnel_port by {
            assert(head[j] == forwards[j]);
        }
        law_the_last_entry_counts(head, i);
    }
}

proof fn lemma_wanted_is_assigned(
    forwards: Seq<ForwardModel>,
    protocol: Protocol,
    port: u16,
) -> (i: int)
    requires
        forward::wanted(forwards, (protocol, port)) is Some,
    ensures
        0 <= i < forwards.len(),
        forwards[i] == forward::wanted(forwards, (protocol, port))->0,
        forwards[i].protocol == protocol,
        forwards[i].tunnel_port == port,
    decreases forwards.len(),
{
    let last = forwards.len() - 1;
    if forward::key_of(forwards.last()) == (protocol, port) {
        last
    } else {
        lemma_wanted_is_assigned(forwards.drop_last(), protocol, port)
    }
}

/// Every assigned port is served, by the protocol, on the port and towards the
/// host and port that the assignment says last.
pub proof fn law_every_assigned_port_is_served(
    running: Seq<ForwardModel>,
    forwards: Seq<ForwardModel>,
    i: int,
) -> (k: int)
    requires
        forward::keys_apart(running),
        0 <= i < forwards.len(),
        last_of_its_port(forwards, i),
    ensures
        0 <= k < forward::in_place(running, forwards).len(),
        forward::in_place(running, forwards)[k] == forwards[i],
{
    let key = (forwards[i].protocol, forwards[i].tunnel_port);
    let after = forward::in_place(running, forwards);
    law_the_last_entry_counts(forwards, i);
    forward::law_assignment_is_what_is_served(running, forwards, key);
    let f = forward::served(after, key)->0;
    table::lemma_first(after, forward::with_key(key));
    let k = choose|k: int| 0 <= k < after.len() && after[k] == f;
    assert(after[k] == forwards[i]);
    k
}

/// Nothing is served that the assignment does not say.
pub proof fn law_only_assigned_ports_are_served(
    running: Seq<ForwardModel>,
    forwards: Seq<ForwardModel>,
    k: int,
) -> (i: int)
    requires
        forward::keys_apart(running),
        0 <= k < forward::in_place(running, forwards).len(),
    ensures
        0 <= i < forwards.len(),
        forwards[i] == forward::in_place(running, forwards)[k],
{
    let after = forward::in_place(running, forwards);
    let f = after[k];
    let key = (f.protocol, f.tunnel_port);
    let p = forward::with_key(key);
    forward::law_assignment_is_what_is_served(running, forwards, key);
    assert forall|j: int| 0 <= j < after.len() && p(#[trigger] after[j]) implies after[j]
        == after[k] by {
        if j < k {
            assert(forward::key_of(after[j]) != forward::key_of(after[k]));
        } else if k < j {
            assert(forward::key_of(after[k]) != forward::key_of(after[j]));
        }
    }
    table::lemma_first_is(after, p, k);
    lemma_wanted_is_assigned(forwards, f.protocol, f.tunnel_port)
}

/// No two listeners are for one protocol and port.
pub proof fn law_one_listener_for_a_port(
    running: Seq<ForwardModel>,
    forwards: Seq<ForwardModel>,
)
    requires
        forward::keys_apart(running),
    ensures
        ({
            let after = forward::in_place(running, forwards);
            forall|i: int, j: int|
                0 <= i < j < after.len() ==> (#[trigger] after[i]).protocol != (
                #[trigger] after[j]).protocol || after[i].tunnel_port != after[j].tunnel_port
        }),
{
    let after = forward::in_place(running, forwards);
    forward::law_assignment_is_what_is_served(running, forwards, (Protocol::Tcp, 0u16));
    assert forall|i: int, j: int| 0 <= i < j < after.len() implies (#[trigger] after[i]).protocol
        != (#[trigger] after[j]).protocol || after[i].tunnel_port != after[j].tunnel_port by {
        assert(forward::key_of(after[i]) != forward::key_of(after[j]));
    }
}

/// A listener is stopped exactly where the assignment says of its protocol and
/// port something else, or nothing.
pub proof fn law_a_listener_stops_where_it_changed(
    running: Seq<ForwardModel>,
    forwards: Seq<ForwardModel>,
    k: int,
)
    requires
        0 <= k < running.len(),
    ensures
        running.filter(forward::in_the_way(forwards)).contains(running[k]) <==> !(exists|i: int|
            0 <= i < forwards.len() && #[trigger] forwards[i] == running[k] && last_of_its_port(
                forwards,
                i,
            )),
{
    let f = running[k];
    let key = (f.protocol, f.tunnel_port);
    table::lemma_filter_members(running, forward::in_the_way(forwards));
    assert(running.contains(f));
    if exists|i: int|
        0 <= i < forwards.len() && #[trigger] forwards[i] == f && last_of_its_port(forwards, i) {
        let i = choose|i: int|
            0 <= i < forwards.len() && #[trigger] forwards[i] == f && last_of_its_port(forwards, i);
        law_the_last_entry_counts(forwards, i);
    } else if forward::wanted(forwards, key) is Some {
        let i = lemma_last_one(forwards, f.protocol, f.tunnel_port);
        if forward::targets_match(forwards[i], f) {
            assert(forwards[i] == f);
        }
    }
}

proof fn lemma_last_one(forwards: Seq<ForwardModel>, protocol: Protocol, port: u16) -> (i: int)
    requires
        forward::wanted(forwards, (protocol, port)) is Some,
    ensures
        0 <= i < forwards.len(),
        forwards[i] == forward::wanted(forwards, (protocol, port))->0,
        forwards[i].protocol == protocol,
        forwards[i].tunnel_port == port,
        last_of_its_port(forwards, i),
    decreases forwards.len(),
{
    let last = forwards.len() - 1;
    if forward::key_of(forwards.last()) == (protocol, port) {
        last
    } else {
        let head = forwards.drop_last();
        let i = lemma_last_one(head, protocol, port);
        assert forall|j: int| i < j < forwards.len() implies (#[trigger] forwards[j]).protocol
            != forwards[i].protocol || forwards[j].tunnel_port != forwards[i].tunnel_port by {
            if j < last {
                assert(forwards[j] == head[j]);
            }
        }
        i
    }
}

/// What is started is what the assignment says last of ports that nothing
/// serves yet.
pub proof fn law_missing_ports_are_started(
    running: Seq<ForwardModel>,
    forwards: Seq<ForwardModel>,
    f: ForwardModel,
)
    ensures
        forward::to_start(running, forwards, forwards.len()).contains(f) <==> {
            &&& exists|i: int|
                0 <= i < forwards.len() && #[trigger] forwards[i] == f && last_of_its_port(
                    forwards,
                    i,
                )
            &&& forall|k: int|
                0 <= k < running.len() ==> (#[trigger] running[k]).protocol != f.protocol
                    || running[k].tunnel_port != f.tunnel_port
        },
{
    let key = (f.protocol, f.tunnel_port);
    table::lemma_first(running, forward::with_key(key));
    lemma_started(running, forwards, forwards.len(), f);
    if forward::served(running, key) is Some {
        let k = choose|k: int| 0 <= k < running.len() && forward::with_key(key)(#[trigger] running[k]);
        assert(running[k].protocol == f.protocol && running[k].tunnel_port == f.tunnel_port);
    } else {
        assert forall|k: int| 0 <= k < running.len() implies (#[trigger] running[k]).protocol
            != f.protocol || running[k].tunnel_port != f.tunnel_port by {
            assert(!forward::with_key(key)(running[k]));
        }
    }
}

proof fn lemma_last_word(forwards: Seq<ForwardModel>, i: int)
    requires
        0 <= i < forwards.len(),
    ensures
        forward::has_last_word(forwards, i) == last_of_its_port(forwards, i),
{
    if forward::has_last_word(forwards, i) {
        assert forall|j: int| i < j < forwards.len() implies (#[trigger] forwards[j]).protocol
            != forwards[i].protocol || forwards[j].tunnel_port != forwards[i].tunnel_port by {
            assert(forward::key_of(forwards[j]) != forward::key_of(forwards[i]));
        }
    }
    if last_of_its_port(forwards, i) {
        assert forall|j: int| i < j < forwards.len() implies forward::key_of(
            #[trigger] forwards[j],
        ) != forward::key_of(forwards[i]) by {
            assert(forwards[j].protocol != forwards[i].protocol || forwards[j].tunnel_port
                != forwards[i].tunnel_port);
        }
    }
}

proof fn lemma_started(
    running: Seq<ForwardModel>,
    forwards: Seq<ForwardModel>,
    n: nat,
    f: ForwardModel,
)
    requires
        n <= forwards.len(),
    ensures
        forward::to_start(running, forwards, n).contains(f) <==> forward::served(
            running,
            (f.protocol, f.tunnel_port),
        ) is None && exists|i: int|
            0 <= i < n && #[trigger] forwards[i] == f && last_of_its_port(forwards, i),
    decreases n,
{
    if n > 0 {
        let before = forward::to_start(running, forwards, (n - 1) as nat);
        let all = forward::to_start(running, forwards, n);
        let last = forwards[n - 1];
        lemma_started(running, forwards, (n - 1) as nat, f);
        lemma_last_word(forwards, n - 1);
        if all.len() > before.len() {
            assert(all == before.push(last));
            if all.contains(f) {
                let k = choose|k: int| 0 <= k < all.len() && all[k] == f;
                if k < before.len() {
                    assert(before[k] == f);
                } else {
                    assert(forwards[n - 1] == f);
                }
            }
            if before.contains(f) {
                let k = choose|k: int| 0 <= k < before.len() && before[k] == f;
                assert(all[k] == f);
            }
            if last == f {
                assert(all[before.len() as int] == f);
            }
        }
    }
}

/// Listeners are listed by protocol, TCP first, and then by port.
pub proof fn law_listeners_are_listed_in_order(running: Seq<ForwardModel>, i: int, j: int)
    requires
        forward::in_order(running),
        0 <= i < j < running.len(),
    ensures
        running[i].protocol == running[j].protocol ==> running[i].tunnel_port
            < running[j].tunnel_port,
        running[i].protocol != running[j].protocol ==> running[i].protocol == Protocol::Tcp
            && running[j].protocol == Protocol::Udp,
{
    assert(forward::listed_before(forward::key_of(running[i]), forward::key_of(running[j])));
}

// ---- flows --------------------------------------------------------------

/// A flow is over once nothing was heard of it for a minute.
pub proof fn law_flows_end_after_a_minute(now: u64, seen: u64)
    ensures
        forward::quiet(now, seen) <==> now - seen >= 60 * 1_000_000_000,
{
}

/// A flow that was sent on was heard at that moment; one that could not be sent
/// on is gone; all others are as they were.
pub proof fn law_sending_touches_one_flow(
    sessions: Seq<Session>,
    peer: PeerAddr,
    now: u64,
    outcome: Sending,
    s: Session,
)
    ensures
        s.peer != peer ==> (forward::after_sending(sessions, peer, now, outcome).contains(s)
            <==> sessions.contains(s)),
        s.peer == peer && outcome == Sending::Sent ==> (forward::after_sending(
            sessions,
            peer,
            now,
            outcome,
        ).contains(s) <==> s.seen == now),
        s.peer == peer && outcome == Sending::Failed ==> !forward::after_sending(
            sessions,
            peer,
            now,
            outcome,
        ).contains(s),
        outcome == Sending::NotOpened ==> forward::after_sending(sessions, peer, now, outcome)
            == sessions,
{
    let kept = sessions.filter(forward::not_of_peer(peer));
    let heard = Session { peer, seen: now };
    let after = kept.push(heard);
    table::lemma_filter_members(sessions, forward::not_of_peer(peer));
    assert(after.contains(s) <==> kept.contains(s) || s == heard) by {
        if kept.contains(s) {
            let k = choose|k: int| 0 <= k < kept.len() && kept[k] == s;
            assert(after[k] == s);
        }
        if s == heard {
            assert(after[kept.len() as int] == s);
        }
        if after.contains(s) {
            let k = choose|k: int| 0 <= k < after.len() && after[k] == s;
            if k < kept.len() {
                assert(kept[k] == s);
            }
        }
    }
}

// ---- waiting ------------------------------------------------------------

/// The first wait is two seconds. Each is twice the one before, and never over a
/// minute.
pub proof fn law_waits_double_up_to_a_minute(n: nat)
    ensures
        agent::wait_before(0) == 2,
        2 * agent::wait_before(n) <= 60 ==> agent::wait_before(n + 1) == 2 * agent::wait_before(n),
        2 * agent::wait_before(n) > 60 ==> agent::wait_before(n + 1) == 60,
{
    agent::law_waits_are_bounded(n);
}

/// An assignment is applied unless the one in place has its revision number.
pub proof fn law_new_revisions_are_applied(in_place: Option<u64>, revision: u64)
    ensures
        !agent::to_be_applied(in_place, revision) <==> (in_place matches Some(r) && r == revision),
{
}

// ---- the gateway's answers ----------------------------------------------

/// The base of every address is the written one without the space around it and
/// without the slashes at its end.
pub proof fn law_only_slashes_are_taken_off(written: Seq<char>) -> (slashes: Seq<char>)
    ensures
        client::base_url_of(written) + slashes == text::trim(written),
        forall|i: int| 0 <= i < slashes.len() ==> #[trigger] slashes[i] == '/',
        client::base_url_of(written).len() > 0 ==> client::base_url_of(written).last() != '/',
{
    client::law_base_url_has_no_trailing_slash(written);
    lemma_slashes(text::trim(written))
}

proof fn lemma_slashes(s: Seq<char>) -> (slashes: Seq<char>)
    ensures
        client::without_slashes(s) + slashes == s,
        forall|i: int| 0 <= i < slashes.len() ==> #[trigger] slashes[i] == '/',
    decreases s.len(),
{
    if s.len() > 0 && s.last() == '/' {
        let fewer = lemma_slashes(s.drop_last());
        assert(s =~= s.drop_last().push('/'));
        assert(client::without_slashes(s) + fewer.push('/') =~= s);
        fewer.push('/')
    } else {
        assert(client::without_slashes(s) + Seq::<char>::empty() =~= s);
        Seq::empty()
    }
}

/// A success has a value; a key that is not recognised has its own error; any
/// other answer is an error with its status, and the gateway's words where it
/// gave any.
pub proof fn law_status_tells_what_came<T>(answer: Answer<T>)
    ensures
        client::body_kind_of(answer.status) == BodyKind::Value <==> 200 <= answer.status <= 299,
        client::body_kind_of(answer.status) == BodyKind::Nothing <==> answer.status == 401,
        client::refusal_of(answer) == ClientErrorModel::Unauthorized <==> answer.status == 401,
        answer.status != 401 && answer.refusal is Some ==> client::refusal_of(answer)
            == (ClientErrorModel::Api {
            status: answer.status,
            message: answer.refusal->0.error@,
        }),
        answer.status != 401 && answer.refusal is None ==> client::refusal_of(answer)
            == (ClientErrorModel::Api { status: answer.status, message: answer.status_text@ }),
{
}

/// What went wrong is told with all that is known of it.
pub proof fn law_client_errors_tell_everything(
    url: Seq<char>,
    source: Seq<char>,
    status: u16,
    message: Seq<char>,
)
    ensures
        client::client_error_text(ClientErrorModel::Transport { url, source })
            == "could not reach the gateway at "@ + url + ": "@ + source,
        client::client_error_text(ClientErrorModel::Api { status, message }) == "gateway returned "@
            + number::decimal(status as nat) + ": "@ + message,
{
}

// ---- switches -----------------------------------------------------------

/// A switch is on where it says one of four words, and off where it says one of
/// four others or nothing.
pub proof fn law_switches_have_their_words(word: Seq<char>)
    ensures
        cli::says_yes(word) <==> (word == "1"@ || word == "true"@ || word == "yes"@ || word
            == "on"@),
        cli::says_no(word) <==> (word == "0"@ || word == "false"@ || word == "no"@ || word
            == "off"@ || word == ""@),
{
}

} // verus!
