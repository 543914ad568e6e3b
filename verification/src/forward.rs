//! The forwarding engine's decisions.
//!
//! For each assigned port the agent accepts on its tunnel address and bridges
//! to the game server on the local machine. The sockets are the program's;
//! which of them are stopped, started and kept is decided here.
//!
//! Listeners are keyed by protocol and port so an assignment change only
//! disturbs what actually changed. Adding a second server does not interrupt
//! the game already in progress on the first.

use crate::addr::IpAddr;
use crate::api::{Forward, ForwardModel};
use crate::model::Protocol;
use crate::number;
use crate::table;
use crate::table::Ordered;
use crate::text;
use vstd::prelude::*;

verus! {

// ---- forwards -----------------------------------------------------------

/// What a listener is known by.
pub open spec fn key_of(f: ForwardModel) -> (Protocol, u16) {
    (f.protocol, f.tunnel_port)
}

/// A forward with a key.
pub open spec fn with_key(key: (Protocol, u16)) -> spec_fn(ForwardModel) -> bool {
    |f: ForwardModel| key_of(f) == key
}

/// A forward with another key.
pub open spec fn without_key(key: (Protocol, u16)) -> spec_fn(ForwardModel) -> bool {
    |f: ForwardModel| key_of(f) != key
}

/// Whether two forwards go to the same server.
pub open spec fn targets_match(a: ForwardModel, b: ForwardModel) -> bool {
    a.local_host == b.local_host && a.local_port == b.local_port
}

/// Whether two forwards go to the same server.
pub fn same_target(a: &Forward, b: &Forward) -> (r: bool)
    ensures
        r == targets_match(a@, b@),
{
    text::same_text(a.local_host.as_str(), b.local_host.as_str()) && a.local_port == b.local_port
}

/// Where a forward's traffic goes, as the program dials it.
pub fn local_target(forward: &Forward) -> (r: String)
    ensures
        r@ == forward.local_host@ + ":"@ + number::decimal(forward.local_port as nat),
{
    let mut out = forward.local_host.clone();
    out.append(":");
    number::push_decimal(&mut out, forward.local_port as u64);
    out
}

/// Listeners are listed by protocol, and by port within one.
impl Ordered for Forward {
    open spec fn le(a: ForwardModel, b: ForwardModel) -> bool {
        match (a.protocol, b.protocol) {
            (Protocol::Tcp, Protocol::Udp) => true,
            (Protocol::Udp, Protocol::Tcp) => false,
            _ => a.tunnel_port <= b.tunnel_port,
        }
    }

    fn not_after(&self, other: &Forward) -> (r: bool) {
        match (self.protocol, other.protocol) {
            (Protocol::Tcp, Protocol::Udp) => true,
            (Protocol::Udp, Protocol::Tcp) => false,
            _ => self.tunnel_port <= other.tunnel_port,
        }
    }
}

// ---- the assignment -----------------------------------------------------

/// What an assignment wants under a key; the last word counts.
pub open spec fn wanted(forwards: Seq<ForwardModel>, key: (Protocol, u16)) -> Option<ForwardModel>
    decreases forwards.len(),
{
    if forwards.len() == 0 {
        None
    } else if key_of(forwards.last()) == key {
        Some(forwards.last())
    } else {
        wanted(forwards.drop_last(), key)
    }
}

/// What is served under a key.
pub open spec fn served(running: Seq<ForwardModel>, key: (Protocol, u16)) -> Option<ForwardModel> {
    table::first(running, with_key(key))
}

/// Whether a running listener is in the way of an assignment: nothing wants
/// its port any more, or something wants it for another server.
pub open spec fn in_the_way(forwards: Seq<ForwardModel>) -> spec_fn(ForwardModel) -> bool {
    |f: ForwardModel|
        match wanted(forwards, key_of(f)) {
            Some(w) => !targets_match(w, f),
            None => true,
        }
}

/// Whether a running listener is left alone by an assignment.
pub open spec fn undisturbed(forwards: Seq<ForwardModel>) -> spec_fn(ForwardModel) -> bool {
    |f: ForwardModel| !in_the_way(forwards)(f)
}

/// Those of the first `n` forwards of an assignment that have the last word on
/// their key and are not served.
pub open spec fn to_start(running: Seq<ForwardModel>, forwards: Seq<ForwardModel>, n: nat) -> Seq<
    ForwardModel,
>
    decreases n,
{
    if n == 0 {
        Seq::empty()
    } else {
        let before = to_start(running, forwards, (n - 1) as nat);
        let f = forwards[n - 1];
        if has_last_word(forwards, n - 1) && served(running, key_of(f)) is None {
            before.push(f)
        } else {
            before
        }
    }
}

/// Whether no later forward of an assignment has the same key.
pub open spec fn has_last_word(forwards: Seq<ForwardModel>, i: int) -> bool {
    forall|j: int|
        i < j < forwards.len() ==> key_of(#[trigger] forwards[j]) != key_of(forwards[i])
}

/// The listeners after one more was started; it takes the place of one with
/// its key.
pub open spec fn with_started(running: Seq<ForwardModel>, f: ForwardModel) -> Seq<ForwardModel> {
    table::place(running.filter(without_key(key_of(f))), f, table::le_of::<Forward>())
}

/// The listeners after several were started, in their order.
pub open spec fn with_all_started(running: Seq<ForwardModel>, new: Seq<ForwardModel>) -> Seq<
    ForwardModel,
>
    decreases new.len(),
{
    if new.len() == 0 {
        running
    } else {
        with_started(with_all_started(running, new.drop_last()), new.last())
    }
}

/// The listeners once an assignment is in place: what is in the way stopped,
/// what is missing started.
pub open spec fn in_place(running: Seq<ForwardModel>, forwards: Seq<ForwardModel>) -> Seq<
    ForwardModel,
> {
    let kept = running.filter(undisturbed(forwards));
    with_all_started(kept, to_start(kept, forwards, forwards.len()))
}

/// Finds what an assignment wants under a key.
fn find_wanted(forwards: &[Forward], protocol: Protocol, port: u16) -> (r: Option<usize>)
    ensures
        match r {
            Some(i) => i < forwards@.len() && wanted(text::views(forwards@), (protocol, port))
                == Some(forwards@[i as int]@),
            None => wanted(text::views(forwards@), (protocol, port)) is None,
        },
{
    let ghost all = text::views(forwards@);
    let mut n: usize = forwards.len();
    proof {
        assert(all.take(n as int) =~= all);
    }
    while n > 0
        invariant
            n <= forwards@.len(),
            all == text::views(forwards@),
            wanted(all.take(n as int), (protocol, port)) == wanted(all, (protocol, port)),
        decreases n,
    {
        proof {
            assert(all.take(n as int).last() == forwards@[n - 1]@);
            assert(all.take(n as int).drop_last() =~= all.take(n - 1));
        }
        let f: &Forward = &forwards[n - 1];
        if f.protocol == protocol && f.tunnel_port == port {
            return Some(n - 1);
        }
        n -= 1;
    }
    None
}

/// Which listeners run for the current assignment.
#[derive(Debug)]
pub struct Forwarder {
    running: Vec<Forward>,
}

impl View for Forwarder {
    type V = Seq<ForwardModel>;

    closed spec fn view(&self) -> Seq<ForwardModel> {
        text::views(self.running@)
    }
}

/// Whether a port is listed before another: TCP before UDP, and low before
/// high.
pub open spec fn listed_before(a: (Protocol, u16), b: (Protocol, u16)) -> bool {
    match (a.0, b.0) {
        (Protocol::Tcp, Protocol::Udp) => true,
        (Protocol::Udp, Protocol::Tcp) => false,
        _ => a.1 < b.1,
    }
}

/// Whether listeners stand in the order of their ports, each port once.
pub open spec fn in_order(running: Seq<ForwardModel>) -> bool {
    forall|i: int, j: int|
        0 <= i < j < running.len() ==> listed_before(
            key_of(#[trigger] running[i]),
            key_of(#[trigger] running[j]),
        )
}

impl Forwarder {
    #[verifier::type_invariant]
    spec fn well_formed(self) -> bool {
        in_order(text::views(self.running@))
    }
}

/// The keys of listeners, in their order.
pub open spec fn keys_of(running: Seq<ForwardModel>) -> Seq<(Protocol, u16)> {
    Seq::new(running.len(), |i: int| key_of(running[i]))
}

impl Default for Forwarder {
    fn default() -> (r: Forwarder)
        ensures
            r@ == Seq::<ForwardModel>::empty(),
    {
        Forwarder::new()
    }
}

impl Forwarder {
    pub fn new() -> (r: Forwarder)
        ensures
            r@ == Seq::<ForwardModel>::empty(),
    {
        let r = Forwarder { running: Vec::new() };
        proof {
            assert(r@ =~= Seq::<ForwardModel>::empty());
        }
        r
    }

    /// Ports currently being served, for logging and tests.
    pub fn active(&self) -> (r: Vec<(Protocol, u16)>)
        ensures
            r@ == keys_of(self@),
            in_order(self@),
            keys_apart(self@),
    {
        proof {
            use_type_invariant(self);
        }
        let mut out: Vec<(Protocol, u16)> = Vec::new();
        let mut i: usize = 0;
        while i < self.running.len()
            invariant
                i <= self.running@.len(),
                out@.len() == i,
                forall|k: int| 0 <= k < i ==> #[trigger] out@[k] == key_of(self.running@[k]@),
            decreases self.running@.len() - i,
        {
            out.push((self.running[i].protocol, self.running[i].tunnel_port));
            i += 1;
        }
        proof {
            assert(out@ =~= keys_of(self@));
        }
        out
    }

    /// Listeners that are gone from an assignment or whose target moved. Each
    /// has to be stopped, and its port free, before anything is bound.
    pub fn stale(&self, forwards: &[Forward]) -> (r: Vec<(Protocol, u16)>)
        ensures
            r@ == keys_of(self@.filter(in_the_way(text::views(forwards@)))),
    {
        let keep = |f: &Forward| -> (b: bool)
            ensures
                b == in_the_way(text::views(forwards@))(f@),
            {
                match find_wanted(forwards, f.protocol, f.tunnel_port) {
                    Some(i) => !same_target(&forwards[i], f),
                    None => true,
                }
            };
        let rows = table::chosen(
            &self.running,
            keep,
            Ghost(in_the_way(text::views(forwards@))),
        );
        let mut out: Vec<(Protocol, u16)> = Vec::new();
        let mut i: usize = 0;
        while i < rows.len()
            invariant
                i <= rows@.len(),
                out@.len() == i,
                forall|k: int| 0 <= k < i ==> #[trigger] out@[k] == key_of(rows@[k]@),
            decreases rows@.len() - i,
        {
            out.push((rows[i].protocol, rows[i].tunnel_port));
            i += 1;
        }
        proof {
            assert(out@ =~= keys_of(text::views(rows@)));
        }
        out
    }

    /// Forwards of an assignment that nothing serves yet.
    pub fn missing(&self, forwards: &[Forward]) -> (r: Vec<Forward>)
        ensures
            text::views(r@) == to_start(self@, text::views(forwards@), forwards@.len()),
    {
        let ghost all = text::views(forwards@);
        let mut out: Vec<Forward> = Vec::new();
        let mut i: usize = 0;
        proof {
            assert(text::views(out@) =~= Seq::<ForwardModel>::empty());
        }
        while i < forwards.len()
            invariant
                i <= forwards@.len(),
                all == text::views(forwards@),
                text::views(out@) == to_start(self@, all, i as nat),
            decreases forwards@.len() - i,
        {
            let f: &Forward = &forwards[i];
            let ghost key = key_of(f@);
            proof {
                assert(all[i as int] == f@);
            }
            let mut last = true;
            let mut j: usize = i + 1;
            while j < forwards.len()
                invariant
                    i < j <= forwards@.len(),
                    all == text::views(forwards@),
                    f@ == all[i as int],
                    last == (forall|k: int|
                        i < k < j ==> key_of(#[trigger] all[k]) != key_of(all[i as int])),
                decreases forwards@.len() - j,
            {
                proof {
                    assert(all[j as int] == forwards@[j as int]@);
                }
                if forwards[j].protocol == f.protocol && forwards[j].tunnel_port == f.tunnel_port {
                    last = false;
                }
                j += 1;
            }
            let hit = |g: &Forward| -> (b: bool)
                ensures
                    b == with_key(key)(g@),
                { g.protocol == f.protocol && g.tunnel_port == f.tunnel_port };
            let running = table::find(&self.running, hit, Ghost(with_key(key)));
            if last && running.is_none() {
                let copy = f.clone();
                proof {
                    text::lemma_views_push(out@, copy);
                }
                out.push(copy);
            }
            i += 1;
        }
        out
    }

    /// Notes that a listener was stopped.
    pub fn stopped(&mut self, protocol: Protocol, port: u16)
        ensures
            final(self)@ == old(self)@.filter(without_key((protocol, port))),
    {
        let keep = |f: &Forward| -> (b: bool)
            ensures
                b == without_key((protocol, port))(f@),
            { !(f.protocol == protocol && f.tunnel_port == port) };
        proof {
            use_type_invariant(&*self);
            lemma_order_filtered(self@, without_key((protocol, port)));
        }
        let mut running: Vec<Forward> = Vec::new();
        std::mem::swap(&mut running, &mut self.running);
        table::retain(&mut running, keep, Ghost(without_key((protocol, port))));
        self.running = running;
    }

    /// Notes that a listener was started.
    pub fn started(&mut self, forward: Forward)
        ensures
            final(self)@ == with_started(old(self)@, forward@),
    {
        proof {
            use_type_invariant(&*self);
            lemma_order_started(self@, forward@);
        }
        self.stopped(forward.protocol, forward.tunnel_port);
        let mut running: Vec<Forward> = Vec::new();
        std::mem::swap(&mut running, &mut self.running);
        table::insert_in_order(&mut running, forward);
        self.running = running;
    }

    /// Notes that everything was stopped.
    pub fn shutdown(&mut self)
        ensures
            final(self)@ == Seq::<ForwardModel>::empty(),
    {
        self.running = Vec::new();
        proof {
            assert(self@ =~= Seq::<ForwardModel>::empty());
        }
    }
}

// ---- what holds of every assignment -------------------------------------

/// Stopping listeners keeps the others in order.
proof fn lemma_order_filtered(running: Seq<ForwardModel>, keep: spec_fn(ForwardModel) -> bool)
    requires
        in_order(running),
    ensures
        in_order(running.filter(keep)),
{
    let before = |a: ForwardModel, b: ForwardModel| listed_before(key_of(a), key_of(b));
    assert(table::ascending(running, before)) by {
        assert forall|i: int, j: int| 0 <= i < j < running.len() implies #[trigger] before(
            running[i],
            running[j],
        ) by {}
    }
    table::lemma_ascending_filtered(running, keep, before);
    let kept = running.filter(keep);
    assert forall|i: int, j: int| 0 <= i < j < kept.len() implies listed_before(
        key_of(#[trigger] kept[i]),
        key_of(#[trigger] kept[j]),
    ) by {
        assert(before(kept[i], kept[j]));
    }
}

/// Starting a listener keeps them in order.
proof fn lemma_order_started(running: Seq<ForwardModel>, f: ForwardModel)
    requires
        in_order(running),
    ensures
        in_order(with_started(running, f)),
{
    let le = table::le_of::<Forward>();
    let others = running.filter(without_key(key_of(f)));
    lemma_order_filtered(running, without_key(key_of(f)));
    assert(keys_apart(running));
    law_started_is_served(running, f);
    assert(table::preorder(le)) by {
        assert forall|a: ForwardModel, b: ForwardModel| #[trigger] le(a, b) || le(b, a) by {}
    }
    assert(table::ascending(others, le)) by {
        assert forall|i: int, j: int| 0 <= i < j < others.len() implies #[trigger] le(
            others[i],
            others[j],
        ) by {
            assert(listed_before(key_of(others[i]), key_of(others[j])));
        }
    }
    table::lemma_place(others, f, le);
    let all = with_started(running, f);
    assert forall|i: int, j: int| 0 <= i < j < all.len() implies listed_before(
        key_of(#[trigger] all[i]),
        key_of(#[trigger] all[j]),
    ) by {
        assert(le(all[i], all[j]));
        assert(key_of(all[i]) != key_of(all[j]));
    }
}

proof fn lemma_wanted_is_there(forwards: Seq<ForwardModel>, key: (Protocol, u16))
    ensures
        match wanted(forwards, key) {
            Some(f) => key_of(f) == key && exists|i: int|
                0 <= i < forwards.len() && #[trigger] forwards[i] == f && has_last_word(
                    forwards,
                    i,
                ),
            None => forall|i: int|
                0 <= i < forwards.len() ==> key_of(#[trigger] forwards[i]) != key,
        },
    decreases forwards.len(),
{
    if forwards.len() > 0 {
        let head = forwards.drop_last();
        lemma_wanted_is_there(head, key);
        if key_of(forwards.last()) == key {
            assert(has_last_word(forwards, forwards.len() - 1));
            assert(forwards[forwards.len() - 1] == forwards.last());
        } else {
            match wanted(head, key) {
                Some(f) => {
                    let i = choose|i: int|
                        0 <= i < head.len() && #[trigger] head[i] == f && has_last_word(head, i);
                    assert(forwards[i] == f);
                    assert forall|j: int| i < j < forwards.len() implies key_of(
                        #[trigger] forwards[j],
                    ) != key_of(forwards[i]) by {
                        if j < head.len() {
                            assert(key_of(head[j]) != key_of(head[i]));
                        }
                    }
                    assert(has_last_word(forwards, i));
                },
                None => {
                    assert forall|i: int| 0 <= i < forwards.len() implies key_of(
                        #[trigger] forwards[i],
                    ) != key by {
                        if i < head.len() {
                            assert(key_of(head[i]) != key);
                        }
                    }
                },
            }
        }
    }
}

/// Whether each key is served once.
pub open spec fn keys_apart(running: Seq<ForwardModel>) -> bool {
    forall|i: int, j: int|
        0 <= i < j < running.len() ==> key_of(#[trigger] running[i]) != key_of(
            #[trigger] running[j],
        )
}

proof fn lemma_keys_filtered(running: Seq<ForwardModel>, keep: spec_fn(ForwardModel) -> bool)
    requires
        keys_apart(running),
    ensures
        keys_apart(running.filter(keep)),
        forall|f: ForwardModel|
            running.filter(keep).contains(f) <==> running.contains(f) && keep(f),
{
    let apart = |a: ForwardModel, b: ForwardModel| key_of(a) != key_of(b);
    let kept = running.filter(keep);
    table::lemma_filter_members(running, keep);
    table::lemma_ascending_filtered(running, keep, apart);
    assert forall|i: int, j: int| 0 <= i < j < kept.len() implies key_of(#[trigger] kept[i])
        != key_of(#[trigger] kept[j]) by {
        assert(apart(kept[i], kept[j]));
    }
}

/// What is served under a key, told by membership.
proof fn lemma_served(running: Seq<ForwardModel>, f: ForwardModel)
    requires
        keys_apart(running),
    ensures
        running.contains(f) <==> served(running, key_of(f)) == Some(f),
        served(running, key_of(f)) matches Some(g) ==> running.contains(g) && key_of(g) == key_of(
            f,
        ),
{
    let p = with_key(key_of(f));
    table::lemma_first(running, p);
    if running.contains(f) {
        let k = choose|k: int| 0 <= k < running.len() && running[k] == f;
        assert forall|i: int| 0 <= i < running.len() && p(#[trigger] running[i]) implies running[i]
            == running[k] by {
            if i < k {
                assert(key_of(running[i]) != key_of(running[k]));
            } else if k < i {
                assert(key_of(running[k]) != key_of(running[i]));
            }
        }
        table::lemma_first_is(running, p, k);
    }
}

/// Starting a listener serves it under its key, and disturbs no other.
pub proof fn law_started_is_served(running: Seq<ForwardModel>, f: ForwardModel)
    requires
        keys_apart(running),
    ensures
        keys_apart(with_started(running, f)),
        served(with_started(running, f), key_of(f)) == Some(f),
        forall|key: (Protocol, u16)|
            key != key_of(f) ==> #[trigger] served(with_started(running, f), key) == served(
                running,
                key,
            ),
{
    let others = running.filter(without_key(key_of(f)));
    let all = with_started(running, f);
    lemma_keys_filtered(running, without_key(key_of(f)));
    table::lemma_place_members(others, f, table::le_of::<Forward>());
    assert forall|i: int| 0 <= i < others.len() implies key_of(#[trigger] others[i]) != key_of(
        f,
    ) by {
        assert(others.contains(others[i]));
    }
    lemma_place_keys(others, f);
    assert(all.contains(f));
    lemma_served(all, f);
    assert forall|key: (Protocol, u16)| key != key_of(f) implies #[trigger] served(all, key)
        == served(running, key) by {
        table::lemma_first(all, with_key(key));
        table::lemma_first(running, with_key(key));
        match served(running, key) {
            Some(g) => {
                assert(others.contains(g));
                assert(all.contains(g));
                lemma_served(all, g);
            },
            None => {
                if let Some(g) = served(all, key) {
                    assert(others.contains(g));
                    assert(running.contains(g));
                    let k = choose|k: int| 0 <= k < running.len() && running[k] == g;
                    assert(with_key(key)(running[k]));
                }
            },
        }
    }
}

proof fn lemma_place_keys(s: Seq<ForwardModel>, x: ForwardModel)
    requires
        keys_apart(s),
        forall|i: int| 0 <= i < s.len() ==> key_of(#[trigger] s[i]) != key_of(x),
    ensures
        keys_apart(table::place(s, x, table::le_of::<Forward>())),
    decreases s.len(),
{
    let le = table::le_of::<Forward>();
    let out = table::place(s, x, le);
    if s.len() > 0 && !le(s.last(), x) {
        let head = s.drop_last();
        assert forall|i: int, j: int| 0 <= i < j < head.len() implies key_of(#[trigger] head[i])
            != key_of(#[trigger] head[j]) by {
            assert(key_of(s[i]) != key_of(s[j]));
        }
        assert forall|i: int| 0 <= i < head.len() implies key_of(#[trigger] head[i]) != key_of(
            x,
        ) by {
            assert(key_of(s[i]) != key_of(x));
        }
        lemma_place_keys(head, x);
        let inner = table::place(head, x, le);
        table::lemma_place_members(head, x, le);
        assert forall|i: int, j: int| 0 <= i < j < out.len() implies key_of(#[trigger] out[i])
            != key_of(#[trigger] out[j]) by {
            if j < inner.len() {
                assert(key_of(inner[i]) != key_of(inner[j]));
            } else {
                assert(inner.contains(inner[i]));
                assert(key_of(s[s.len() - 1]) != key_of(x));
                if inner[i] != x {
                    let k = choose|k: int| 0 <= k < head.len() && head[k] == inner[i];
                    assert(key_of(s[k]) != key_of(s[s.len() - 1]));
                }
            }
        }
    }
}

/// A listener that an assignment wants as it is, is neither stopped nor
/// started again.
pub proof fn law_only_what_changed_is_disturbed(
    running: Seq<ForwardModel>,
    forwards: Seq<ForwardModel>,
    f: ForwardModel,
)
    requires
        keys_apart(running),
        running.contains(f),
        wanted(forwards, key_of(f)) matches Some(w) && targets_match(w, f),
    ensures
        running.filter(undisturbed(forwards)).contains(f),
        forall|i: int|
            0 <= i < to_start(
                running.filter(undisturbed(forwards)),
                forwards,
                forwards.len(),
            ).len() ==> key_of(
                #[trigger] to_start(
                    running.filter(undisturbed(forwards)),
                    forwards,
                    forwards.len(),
                )[i],
            ) != key_of(f),
{
    let kept = running.filter(undisturbed(forwards));
    lemma_keys_filtered(running, undisturbed(forwards));
    lemma_served(kept, f);
    lemma_starting(kept, forwards, forwards.len());
}

/// What is started: it is wanted, has the last word and is not served yet.
proof fn lemma_starting(running: Seq<ForwardModel>, forwards: Seq<ForwardModel>, n: nat)
    requires
        n <= forwards.len(),
    ensures
        forall|i: int|
            0 <= i < to_start(running, forwards, n).len() ==> served(
                running,
                key_of(#[trigger] to_start(running, forwards, n)[i]),
            ) is None && exists|k: int|
                0 <= k < n && #[trigger] forwards[k] == to_start(running, forwards, n)[i]
                    && has_last_word(forwards, k),
        forall|k: int|
            0 <= k < n && has_last_word(forwards, k) && served(
                running,
                key_of(#[trigger] forwards[k]),
            ) is None ==> to_start(running, forwards, n).contains(forwards[k]),
        keys_apart(to_start(running, forwards, n)),
    decreases n,
{
    if n > 0 {
        lemma_starting(running, forwards, (n - 1) as nat);
        let before = to_start(running, forwards, (n - 1) as nat);
        let out = to_start(running, forwards, n);
        let f = forwards[n - 1];
        if has_last_word(forwards, n - 1) && served(running, key_of(f)) is None {
            assert(out =~= before.push(f));
            assert forall|i: int| 0 <= i < out.len() implies served(
                running,
                key_of(#[trigger] out[i]),
            ) is None && exists|k: int|
                0 <= k < n && #[trigger] forwards[k] == out[i] && has_last_word(forwards, k) by {
                if i < before.len() {
                    assert(out[i] == before[i]);
                    let k = choose|k: int|
                        0 <= k < n - 1 && #[trigger] forwards[k] == before[i] && has_last_word(
                            forwards,
                            k,
                        );
                    assert(forwards[k] == out[i]);
                } else {
                    assert(forwards[n - 1] == out[i]);
                }
            }
            assert forall|k: int|
                0 <= k < n && has_last_word(forwards, k) && served(
                    running,
                    key_of(#[trigger] forwards[k]),
                ) is None implies out.contains(forwards[k]) by {
                if k < n - 1 {
                    let i = choose|i: int| 0 <= i < before.len() && before[i] == forwards[k];
                    assert(out[i] == forwards[k]);
                } else {
                    assert(out[before.len() as int] == f);
                }
            }
            assert forall|i: int, j: int| 0 <= i < j < out.len() implies key_of(#[trigger] out[i])
                != key_of(#[trigger] out[j]) by {
                if j < before.len() {
                    assert(before[i] == out[i] && before[j] == out[j]);
                } else {
                    assert(before[i] == out[i]);
                    let k = choose|k: int|
                        0 <= k < n - 1 && #[trigger] forwards[k] == before[i] && has_last_word(
                            forwards,
                            k,
                        );
                    assert(key_of(forwards[n - 1]) != key_of(forwards[k]));
                }
            }
        } else {
            assert(out == before);
            assert forall|i: int| 0 <= i < out.len() implies served(
                running,
                key_of(#[trigger] out[i]),
            ) is None && exists|k: int|
                0 <= k < n && #[trigger] forwards[k] == out[i] && has_last_word(forwards, k) by {
                let k = choose|k: int|
                    0 <= k < n - 1 && #[trigger] forwards[k] == before[i] && has_last_word(
                        forwards,
                        k,
                    );
                assert(forwards[k] == out[i]);
            }
        }
    }
}

proof fn lemma_all_started(running: Seq<ForwardModel>, new: Seq<ForwardModel>)
    requires
        keys_apart(running),
        keys_apart(new),
    ensures
        keys_apart(with_all_started(running, new)),
        forall|i: int|
            0 <= i < new.len() ==> served(
                with_all_started(running, new),
                key_of(#[trigger] new[i]),
            ) == Some(new[i]),
        forall|key: (Protocol, u16)|
            (forall|i: int| 0 <= i < new.len() ==> key_of(#[trigger] new[i]) != key)
                ==> #[trigger] served(with_all_started(running, new), key) == served(running, key),
    decreases new.len(),
{
    if new.len() > 0 {
        let head = new.drop_last();
        let last = new.last();
        assert forall|i: int, j: int| 0 <= i < j < head.len() implies key_of(#[trigger] head[i])
            != key_of(#[trigger] head[j]) by {
            assert(key_of(new[i]) != key_of(new[j]));
        }
        lemma_all_started(running, head);
        let before = with_all_started(running, head);
        law_started_is_served(before, last);
        let after = with_all_started(running, new);
        assert forall|i: int| 0 <= i < new.len() implies served(after, key_of(#[trigger] new[i]))
            == Some(new[i]) by {
            if i < head.len() {
                assert(key_of(new[i]) != key_of(new[new.len() - 1]));
                assert(head[i] == new[i]);
                assert(served(before, key_of(head[i])) == Some(head[i]));
            }
        }
        assert forall|key: (Protocol, u16)|
            (forall|i: int| 0 <= i < new.len() ==> key_of(#[trigger] new[i]) != key) implies
            #[trigger] served(after, key) == served(running, key) by {
            assert(key_of(new[new.len() - 1]) != key);
            assert forall|i: int| 0 <= i < head.len() implies key_of(#[trigger] head[i]) != key by {
                assert(key_of(new[i]) != key);
            }
            assert(served(before, key) == served(running, key));
        }
    }
}

/// Once an assignment is in place, a port is served exactly where the
/// assignment wants it, and by the target it wants; nothing else is.
pub proof fn law_assignment_is_what_is_served(
    running: Seq<ForwardModel>,
    forwards: Seq<ForwardModel>,
    key: (Protocol, u16),
)
    requires
        keys_apart(running),
    ensures
        keys_apart(in_place(running, forwards)),
        match wanted(forwards, key) {
            Some(w) => served(in_place(running, forwards), key) matches Some(f) && targets_match(
                w,
                f,
            ) && key_of(f) == key,
            None => served(in_place(running, forwards), key) is None,
        },
{
    let kept = running.filter(undisturbed(forwards));
    let new = to_start(kept, forwards, forwards.len());
    let after = in_place(running, forwards);
    lemma_keys_filtered(running, undisturbed(forwards));
    lemma_starting(kept, forwards, forwards.len());
    lemma_all_started(kept, new);
    lemma_wanted_is_there(forwards, key);
    table::lemma_first(kept, with_key(key));
    if let Some(g) = served(kept, key) {
        assert(kept.contains(g));
        assert(undisturbed(forwards)(g));
        assert forall|i: int| 0 <= i < new.len() implies key_of(#[trigger] new[i]) != key by {
            assert(served(kept, key_of(new[i])) is None);
        }
        assert(served(after, key) == served(kept, key));
    } else {
        match wanted(forwards, key) {
            Some(w) => {
                let k = choose|k: int|
                    0 <= k < forwards.len() && #[trigger] forwards[k] == w && has_last_word(
                        forwards,
                        k,
                    );
                assert(new.contains(forwards[k]));
                let i = choose|i: int| 0 <= i < new.len() && new[i] == w;
                assert(served(after, key_of(new[i])) == Some(new[i]));
            },
            None => {
                assert forall|i: int| 0 <= i < new.len() implies key_of(#[trigger] new[i])
                    != key by {
                    let k = choose|k: int|
                        0 <= k < forwards.len() && #[trigger] forwards[k] == new[i]
                            && has_last_word(forwards, k);
                    assert(key_of(forwards[k]) != key);
                }
                assert(served(after, key) == served(kept, key));
            },
        }
    }
}

/// The listeners left once those with these keys were stopped, one after
/// another.
pub open spec fn with_all_stopped(
    running: Seq<ForwardModel>,
    keys: Seq<(Protocol, u16)>,
) -> Seq<ForwardModel>
    decreases keys.len(),
{
    if keys.len() == 0 {
        running
    } else {
        with_all_stopped(running, keys.drop_last()).filter(without_key(keys.last()))
    }
}

proof fn lemma_all_stopped(running: Seq<ForwardModel>, keys: Seq<(Protocol, u16)>)
    ensures
        with_all_stopped(running, keys) == running.filter(
            |f: ForwardModel| !keys.contains(key_of(f)),
        ),
    decreases keys.len(),
{
    let left = |f: ForwardModel| !keys.contains(key_of(f));
    if keys.len() == 0 {
        reveal(Seq::filter);
        table::lemma_filter_same(running, left, |f: ForwardModel| true);
        lemma_filter_everything(running);
    } else {
        let head = keys.drop_last();
        let before = |f: ForwardModel| !head.contains(key_of(f));
        lemma_all_stopped(running, head);
        assert forall|i: int| 0 <= i < running.len() implies left(#[trigger] running[i]) == (before(
            running[i],
        ) && without_key(keys.last())(running[i])) by {
            let key = key_of(running[i]);
            if head.contains(key) {
                let k = choose|k: int| 0 <= k < head.len() && head[k] == key;
                assert(keys[k] == key);
            }
            if keys.contains(key) && key != keys.last() {
                let k = choose|k: int| 0 <= k < keys.len() && keys[k] == key;
                assert(head[k] == key);
            }
            if key == keys.last() {
                assert(keys[keys.len() - 1] == key);
            }
        }
        table::lemma_filter_twice(running, before, without_key(keys.last()), left);
    }
}

proof fn lemma_filter_everything(running: Seq<ForwardModel>)
    ensures
        running.filter(|f: ForwardModel| true) == running,
    decreases running.len(),
{
    reveal(Seq::filter);
    if running.len() > 0 {
        lemma_filter_everything(running.drop_last());
        assert(running.drop_last().push(running.last()) =~= running);
    } else {
        assert(running.filter(|f: ForwardModel| true) =~= running);
    }
}

/// Stopping what is stale, one listener after another, and then starting what
/// is missing ends with the assignment in place.
pub proof fn law_steps_put_the_assignment_in_place(
    running: Seq<ForwardModel>,
    forwards: Seq<ForwardModel>,
)
    requires
        keys_apart(running),
    ensures
        ({
            let stale = keys_of(running.filter(in_the_way(forwards)));
            let left = with_all_stopped(running, stale);
            let missing = to_start(left, forwards, forwards.len());
            &&& left == running.filter(undisturbed(forwards))
            &&& with_all_started(left, missing) == in_place(running, forwards)
        }),
{
    let gone = running.filter(in_the_way(forwards));
    let stale = keys_of(gone);
    let left = |f: ForwardModel| !stale.contains(key_of(f));
    lemma_all_stopped(running, stale);
    lemma_keys_filtered(running, in_the_way(forwards));
    assert forall|i: int| 0 <= i < running.len() implies left(#[trigger] running[i])
        == undisturbed(forwards)(running[i]) by {
        let f = running[i];
        assert(running.contains(f));
        if in_the_way(forwards)(f) {
            assert(gone.contains(f));
            let k = choose|k: int| 0 <= k < gone.len() && gone[k] == f;
            assert(stale[k] == key_of(f));
        }
        if stale.contains(key_of(f)) {
            let k = choose|k: int| 0 <= k < stale.len() && stale[k] == key_of(f);
            assert(gone.contains(gone[k]));
            assert(running.contains(gone[k]) && in_the_way(forwards)(gone[k]));
            let j = choose|j: int| 0 <= j < running.len() && running[j] == gone[k];
            assert(key_of(running[j]) == key_of(running[i]));
            assert(i == j);
        }
    }
    table::lemma_filter_same(running, left, undisturbed(forwards));
}

/// Applying an assignment that is in place again stops nothing and starts
/// nothing.
pub proof fn law_applying_twice_changes_nothing(
    running: Seq<ForwardModel>,
    forwards: Seq<ForwardModel>,
)
    requires
        keys_apart(running),
    ensures
        in_place(running, forwards).filter(in_the_way(forwards)).len() == 0,
        to_start(in_place(running, forwards), forwards, forwards.len()).len() == 0,
{
    let after = in_place(running, forwards);
    law_assignment_is_what_is_served(running, forwards, (Protocol::Tcp, 0));
    let stale = after.filter(in_the_way(forwards));
    if stale.len() > 0 {
        lemma_keys_filtered(after, in_the_way(forwards));
        let f = stale[0];
        assert(stale.contains(f));
        assert(after.contains(f));
        lemma_served(after, f);
        law_assignment_is_what_is_served(running, forwards, key_of(f));
    }
    let new = to_start(after, forwards, forwards.len());
    if new.len() > 0 {
        lemma_starting(after, forwards, forwards.len());
        let f = new[0];
        assert(served(after, key_of(f)) is None);
        let k = choose|k: int|
            0 <= k < forwards.len() && #[trigger] forwards[k] == f && has_last_word(forwards, k);
        law_assignment_is_what_is_served(running, forwards, key_of(f));
        lemma_wanted_is_there(forwards, key_of(f));
        assert(key_of(forwards[k]) == key_of(f));
    }
}

// ---- datagram sessions --------------------------------------------------

/// How long a UDP flow with no traffic is kept in the session table, in
/// nanoseconds: one minute.
///
/// UDP has no close, so the only way to release a session is to time it out.
/// Minecraft voice sends continuously while connected, and a player who stops
/// sending for a full minute has left; a longer timeout only wastes sockets.
pub const UDP_SESSION_TIMEOUT_NANOS: u64 = 60_000_000_000;

/// Buffer for a single datagram. Larger than any sane game packet, and far
/// under the 64 KiB a UDP datagram can theoretically be.
pub const UDP_BUFFER: usize = 8192;

/// The far end of a flow.
#[derive(Debug, Clone, Copy, PartialEq, Eq, Hash, Structural)]
pub struct PeerAddr {
    pub ip: IpAddr,
    pub port: u16,
    /// Flow label of an IPv6 address; zero for IPv4.
    pub flowinfo: u32,
    /// Scope of an IPv6 address; zero for IPv4.
    pub scope_id: u32,
}

/// One player's flow: who it is and when it was last heard.
#[derive(Debug, Clone, Copy, PartialEq, Eq, Structural)]
pub struct Session {
    pub peer: PeerAddr,
    /// On a clock that never goes back, in nanoseconds.
    pub seen: u64,
}

impl View for Session {
    type V = Session;

    open spec fn view(&self) -> Session {
        *self
    }
}

/// Whether a flow last heard at `seen` is over at `now`.
pub open spec fn quiet(now: u64, seen: u64) -> bool {
    now - seen >= UDP_SESSION_TIMEOUT_NANOS
}

/// Flows that are over.
pub open spec fn gone_quiet(now: u64) -> spec_fn(Session) -> bool {
    |s: Session| quiet(now, s.seen)
}

/// Flows that are not over.
pub open spec fn still_heard(now: u64) -> spec_fn(Session) -> bool {
    |s: Session| !quiet(now, s.seen)
}

/// The flow of a peer.
pub open spec fn of_peer(peer: PeerAddr) -> spec_fn(Session) -> bool {
    |s: Session| s.peer == peer
}

/// The flow of another peer.
pub open spec fn not_of_peer(peer: PeerAddr) -> spec_fn(Session) -> bool {
    |s: Session| s.peer != peer
}

/// Whose the flows are.
pub open spec fn peers_of(sessions: Seq<Session>) -> Seq<PeerAddr> {
    Seq::new(sessions.len(), |i: int| sessions[i].peer)
}

/// How a datagram reaches the game server: through the session that its peer
/// has, or through one that is to be opened for it.
#[derive(Debug, Clone, Copy, PartialEq, Eq, Structural)]
pub enum Route {
    Reuse,
    Open,
}

/// What a datagram calls for: how to forward it, and whose sessions are over
/// and to be closed.
#[derive(Debug)]
pub struct Arrival {
    pub route: Route,
    pub over: Vec<PeerAddr>,
}

/// What became of a datagram.
#[derive(Debug, Clone, Copy, PartialEq, Eq, Structural)]
pub enum Sending {
    /// No session could be opened for it, so it was dropped.
    NotOpened,
    /// The session took it.
    Sent,
    /// The session did not take it, and is to be closed.
    Failed,
}

/// How a datagram from `peer` is forwarded, once the flows that are over are
/// gone.
pub open spec fn route(sessions: Seq<Session>, peer: PeerAddr, now: u64) -> Route {
    if table::any(sessions.filter(still_heard(now)), of_peer(peer)) {
        Route::Reuse
    } else {
        Route::Open
    }
}

/// The flows after a datagram from `peer` that came at `now` was dealt with: its
/// session is kept, as just heard, only where it took the datagram.
pub open spec fn after_sending(
    sessions: Seq<Session>,
    peer: PeerAddr,
    now: u64,
    outcome: Sending,
) -> Seq<Session> {
    match outcome {
        Sending::NotOpened => sessions,
        Sending::Sent => sessions.filter(not_of_peer(peer)).push(Session { peer, seen: now }),
        Sending::Failed => sessions.filter(not_of_peer(peer)),
    }
}

/// Which flows a UDP listener has a session for: one per remote address,
/// reused for that player's datagrams and reaped when they go quiet.
#[derive(Debug)]
pub struct SessionTable {
    sessions: Vec<Session>,
}

impl View for SessionTable {
    type V = Seq<Session>;

    closed spec fn view(&self) -> Seq<Session> {
        text::views(self.sessions@)
    }
}

impl SessionTable {
    #[verifier::type_invariant]
    spec fn well_formed(self) -> bool {
        sessions_apart(text::views(self.sessions@))
    }
}

impl SessionTable {
    pub fn new() -> (r: SessionTable)
        ensures
            r@ == Seq::<Session>::empty(),
    {
        let r = SessionTable { sessions: Vec::new() };
        proof {
            assert(r@ =~= Seq::<Session>::empty());
        }
        r
    }

    /// Whether a peer has a session.
    pub fn has(&self, peer: PeerAddr) -> (r: bool)
        ensures
            r == table::any(self@, of_peer(peer)),
            sessions_apart(self@),
    {
        proof {
            use_type_invariant(self);
        }
        let hit = |s: &Session| -> (b: bool)
            ensures
                b == of_peer(peer)(s@),
            { s.peer == peer };
        table::holds_some(&self.sessions, hit, Ghost(of_peer(peer)))
    }

    /// Drops the flows that are over and says whose they were.
    pub fn reap(&mut self, now: u64) -> (r: Vec<PeerAddr>)
        ensures
            final(self)@ == old(self)@.filter(still_heard(now)),
            r@ == peers_of(old(self)@.filter(gone_quiet(now))),
    {
        let is_quiet = |s: &Session| -> (b: bool)
            ensures
                b == gone_quiet(now)(s@),
            { now >= s.seen && now - s.seen >= UDP_SESSION_TIMEOUT_NANOS };
        let over = table::chosen(&self.sessions, is_quiet, Ghost(gone_quiet(now)));
        let mut out: Vec<PeerAddr> = Vec::new();
        let mut i: usize = 0;
        while i < over.len()
            invariant
                i <= over@.len(),
                out@.len() == i,
                forall|k: int| 0 <= k < i ==> #[trigger] out@[k] == over@[k]@.peer,
            decreases over@.len() - i,
        {
            out.push(over[i].peer);
            i += 1;
        }
        proof {
            assert(out@ =~= peers_of(text::views(over@)));
        }
        let heard = |s: &Session| -> (b: bool)
            ensures
                b == still_heard(now)(s@),
            { now < s.seen || now - s.seen < UDP_SESSION_TIMEOUT_NANOS };
        proof {
            use_type_invariant(&*self);
            lemma_sessions_filtered(self@, still_heard(now));
        }
        let mut sessions: Vec<Session> = Vec::new();
        std::mem::swap(&mut sessions, &mut self.sessions);
        table::retain(&mut sessions, heard, Ghost(still_heard(now)));
        self.sessions = sessions;
        out
    }

    /// Notes that a peer was heard, and that it has a session.
    pub fn heard(&mut self, peer: PeerAddr, now: u64)
        ensures
            final(self)@ == old(self)@.filter(not_of_peer(peer)).push(Session { peer, seen: now }),
    {
        proof {
            use_type_invariant(&*self);
            law_sessions_stay_apart(self@, peer, now, Sending::Sent);
        }
        self.drop_session(peer);
        let session = Session { peer, seen: now };
        let mut sessions: Vec<Session> = Vec::new();
        std::mem::swap(&mut sessions, &mut self.sessions);
        proof {
            text::lemma_views_push(sessions@, session);
        }
        sessions.push(session);
        self.sessions = sessions;
    }

    /// Forgets a peer's session, after a datagram could not be forwarded.
    pub fn drop_session(&mut self, peer: PeerAddr)
        ensures
            final(self)@ == old(self)@.filter(not_of_peer(peer)),
    {
        let keep = |s: &Session| -> (b: bool)
            ensures
                b == not_of_peer(peer)(s@),
            { s.peer != peer };
        proof {
            use_type_invariant(&*self);
            lemma_sessions_filtered(self@, not_of_peer(peer));
        }
        let mut sessions: Vec<Session> = Vec::new();
        std::mem::swap(&mut sessions, &mut self.sessions);
        table::retain(&mut sessions, keep, Ghost(not_of_peer(peer)));
        self.sessions = sessions;
    }

    /// A datagram came from `peer`: drops the flows that are over, and says
    /// whose they were and whether the peer still has a session.
    pub fn arrived(&mut self, peer: PeerAddr, now: u64) -> (r: Arrival)
        ensures
            final(self)@ == old(self)@.filter(still_heard(now)),
            r.over@ == peers_of(old(self)@.filter(gone_quiet(now))),
            r.route == route(old(self)@, peer, now),
    {
        let over = self.reap(now);
        let route = if self.has(peer) {
            Route::Reuse
        } else {
            Route::Open
        };
        Arrival { route, over }
    }

    /// Notes what became of the datagram that came from `peer` at `now`.
    pub fn sent(&mut self, peer: PeerAddr, now: u64, outcome: Sending)
        ensures
            final(self)@ == after_sending(old(self)@, peer, now, outcome),
    {
        match outcome {
            Sending::NotOpened => {},
            Sending::Sent => self.heard(peer, now),
            Sending::Failed => self.drop_session(peer),
        }
    }
}

/// Whether each peer has one session at most, so that nobody gets another
/// player's replies.
pub open spec fn sessions_apart(sessions: Seq<Session>) -> bool {
    forall|i: int, j: int|
        0 <= i < j < sessions.len() ==> (#[trigger] sessions[i]).peer != (
        #[trigger] sessions[j]).peer
}

proof fn lemma_sessions_filtered(sessions: Seq<Session>, keep: spec_fn(Session) -> bool)
    requires
        sessions_apart(sessions),
    ensures
        sessions_apart(sessions.filter(keep)),
        forall|s: Session|
            sessions.filter(keep).contains(s) <==> sessions.contains(s) && keep(s),
{
    let apart = |a: Session, b: Session| a.peer != b.peer;
    let kept = sessions.filter(keep);
    table::lemma_filter_members(sessions, keep);
    table::lemma_ascending_filtered(sessions, keep, apart);
    assert forall|i: int, j: int| 0 <= i < j < kept.len() implies (#[trigger] kept[i]).peer != (
    #[trigger] kept[j]).peer by {
        assert(apart(kept[i], kept[j]));
    }
}

/// Whether a peer has a session is a matter of which sessions there are.
proof fn lemma_any_session(sessions: Seq<Session>, keep: spec_fn(Session) -> bool, peer: PeerAddr)
    ensures
        table::any(sessions.filter(keep), of_peer(peer)) <==> exists|i: int|
            0 <= i < sessions.len() && keep(#[trigger] sessions[i]) && sessions[i].peer == peer,
{
    let kept = sessions.filter(keep);
    table::lemma_filter_members(sessions, keep);
    if table::any(kept, of_peer(peer)) {
        let k = choose|k: int| 0 <= k < kept.len() && of_peer(peer)(#[trigger] kept[k]);
        assert(kept.contains(kept[k]));
        let i = choose|i: int| 0 <= i < sessions.len() && sessions[i] == kept[k];
        assert(keep(sessions[i]) && sessions[i].peer == peer);
    }
    if exists|i: int|
        0 <= i < sessions.len() && keep(#[trigger] sessions[i]) && sessions[i].peer == peer {
        let i = choose|i: int|
            0 <= i < sessions.len() && keep(#[trigger] sessions[i]) && sessions[i].peer == peer;
        assert(kept.contains(sessions[i]));
        let k = choose|k: int| 0 <= k < kept.len() && kept[k] == sessions[i];
        assert(of_peer(peer)(kept[k]));
    }
}

/// No step leaves a peer with two sessions.
pub proof fn law_sessions_stay_apart(
    sessions: Seq<Session>,
    peer: PeerAddr,
    now: u64,
    outcome: Sending,
)
    requires
        sessions_apart(sessions),
    ensures
        sessions_apart(sessions.filter(still_heard(now))),
        sessions_apart(after_sending(sessions, peer, now, outcome)),
{
    let others = sessions.filter(not_of_peer(peer));
    lemma_sessions_filtered(sessions, not_of_peer(peer));
    lemma_sessions_filtered(sessions, still_heard(now));
    assert forall|i: int| 0 <= i < others.len() implies (#[trigger] others[i]).peer != peer by {
        assert(others.contains(others[i]));
    }
}

/// A peer's datagram reuses its session where it was heard less than a minute
/// ago, and only there.
pub proof fn law_recent_flow_is_reused(sessions: Seq<Session>, i: int, now: u64)
    requires
        sessions_apart(sessions),
        0 <= i < sessions.len(),
    ensures
        route(sessions, sessions[i].peer, now) == Route::Reuse <==> now - sessions[i].seen
            < UDP_SESSION_TIMEOUT_NANOS,
        now - sessions[i].seen < UDP_SESSION_TIMEOUT_NANOS <==> sessions.filter(
            still_heard(now),
        ).contains(sessions[i]),
{
    lemma_any_session(sessions, still_heard(now), sessions[i].peer);
    table::lemma_filter_members(sessions, still_heard(now));
    assert(sessions.contains(sessions[i]));
    assert forall|j: int| 0 <= j < sessions.len() && (#[trigger] sessions[j]).peer
        == sessions[i].peer implies j == i by {
        if j < i {
            assert(sessions[j].peer != sessions[i].peer);
        } else if i < j {
            assert(sessions[i].peer != sessions[j].peer);
        }
    }
}

/// The sessions that are closed when a datagram comes are those of the peers
/// that had one and no longer do.
pub proof fn law_closed_sessions_are_over(sessions: Seq<Session>, peer: PeerAddr, now: u64)
    requires
        sessions_apart(sessions),
    ensures
        peers_of(sessions.filter(gone_quiet(now))).contains(peer) <==> table::any(
            sessions,
            of_peer(peer),
        ) && route(sessions, peer, now) == Route::Open,
{
    let gone = sessions.filter(gone_quiet(now));
    let peers = peers_of(gone);
    table::lemma_filter_members(sessions, gone_quiet(now));
    if peers.contains(peer) {
        let k = choose|k: int| 0 <= k < peers.len() && peers[k] == peer;
        assert(gone.contains(gone[k]));
        let i = choose|i: int| 0 <= i < sessions.len() && sessions[i] == gone[k];
        assert(of_peer(peer)(sessions[i]));
        law_recent_flow_is_reused(sessions, i, now);
    }
    if table::any(sessions, of_peer(peer)) && route(sessions, peer, now) == Route::Open {
        let i = choose|i: int| 0 <= i < sessions.len() && of_peer(peer)(#[trigger] sessions[i]);
        law_recent_flow_is_reused(sessions, i, now);
        assert(sessions.contains(sessions[i]));
        assert(gone.contains(sessions[i]));
        let k = choose|k: int| 0 <= k < gone.len() && gone[k] == sessions[i];
        assert(peers[k] == peer);
    }
}

/// A datagram that was taken keeps its peer's session for a minute; after one
/// that was not, or for which none could be opened, the next one opens a new
/// session.
pub proof fn law_outcome_decides_the_next_route(
    sessions: Seq<Session>,
    peer: PeerAddr,
    at: u64,
    now: u64,
)
    ensures
        route(after_sending(sessions, peer, at, Sending::Sent), peer, now) == Route::Reuse
            <==> now - at < UDP_SESSION_TIMEOUT_NANOS,
        route(after_sending(sessions, peer, at, Sending::Failed), peer, now) == Route::Open,
        !table::any(sessions, of_peer(peer)) ==> route(
            after_sending(sessions, peer, at, Sending::NotOpened),
            peer,
            now,
        ) == Route::Open,
{
    let others = sessions.filter(not_of_peer(peer));
    let after = others.push(Session { peer, seen: at });
    table::lemma_filter_members(sessions, not_of_peer(peer));
    assert forall|i: int| 0 <= i < others.len() implies (#[trigger] others[i]).peer != peer by {
        assert(others.contains(others[i]));
    }
    lemma_any_session(after, still_heard(now), peer);
    lemma_any_session(others, still_heard(now), peer);
    lemma_any_session(sessions, still_heard(now), peer);
    assert(after[others.len() as int] == Session { peer, seen: at });
    if !table::any(sessions, of_peer(peer)) {
        assert forall|i: int| 0 <= i < sessions.len() implies (#[trigger] sessions[i]).peer
            != peer by {
            assert(!of_peer(peer)(sessions[i]));
        }
    }
}

/// What becomes of one peer's datagram changes nothing for another peer.
pub proof fn law_flows_do_not_mix(
    sessions: Seq<Session>,
    peer: PeerAddr,
    other: PeerAddr,
    at: u64,
    now: u64,
    outcome: Sending,
)
    requires
        other != peer,
    ensures
        route(after_sending(sessions, peer, at, outcome), other, now) == route(
            sessions,
            other,
            now,
        ),
{
    let others = sessions.filter(not_of_peer(peer));
    let after = after_sending(sessions, peer, at, outcome);
    let heard = still_heard(now);
    table::lemma_filter_members(sessions, not_of_peer(peer));
    lemma_any_session(after, heard, other);
    lemma_any_session(sessions, heard, other);
    if exists|i: int|
        0 <= i < after.len() && heard(#[trigger] after[i]) && after[i].peer == other {
        let i = choose|i: int|
            0 <= i < after.len() && heard(#[trigger] after[i]) && after[i].peer == other;
        if outcome != Sending::NotOpened {
            assert(others[i] == after[i]);
            assert(others.contains(others[i]));
            let k = choose|k: int| 0 <= k < sessions.len() && sessions[k] == after[i];
            assert(heard(sessions[k]));
        }
    }
    if exists|i: int|
        0 <= i < sessions.len() && heard(#[trigger] sessions[i]) && sessions[i].peer == other {
        let i = choose|i: int|
            0 <= i < sessions.len() && heard(#[trigger] sessions[i]) && sessions[i].peer == other;
        if outcome != Sending::NotOpened {
            assert(sessions.contains(sessions[i]));
            assert(others.contains(sessions[i]));
            let k = choose|k: int| 0 <= k < others.len() && others[k] == sessions[i];
            assert(after[k] == sessions[i]);
        }
    }
}

} // verus!
