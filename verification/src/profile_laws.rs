//! What holds of every set of profiles and every selection from one.

use crate::number;
use crate::profile;
use crate::profile::{PortTemplateModel, ProfileErrorModel, ProfileModel, ResolvedModel};
use crate::table;
use crate::text;
use crate::text_laws;
use vstd::prelude::*;

verus! {

/// Whether the templates have ids of their own.
pub open spec fn ids_apart(ports: Seq<PortTemplateModel>) -> bool {
    forall|i: int, j: int|
        0 <= i < j < ports.len() ==> (#[trigger] ports[i]).id != (#[trigger] ports[j]).id
}

/// A profile is accepted where no two of its templates share an id; one that is
/// not is told the id of the first template that repeats one.
pub proof fn law_repeated_templates_are_found(ports: Seq<PortTemplateModel>)
    ensures
        profile::duplicate_template(ports) is None <==> ids_apart(ports),
        profile::duplicate_template(ports) matches Some(id) ==> exists|i: int, j: int|
            0 <= i < j < ports.len() && (#[trigger] ports[i]).id == id && (#[trigger] ports[j]).id
                == id && ids_apart(ports.take(j)),
    decreases ports.len(),
{
    if ports.len() > 0 {
        let head = ports.drop_last();
        let last = ports.last();
        law_repeated_templates_are_found(head);
        match profile::duplicate_template(head) {
            Some(id) => {
                let (i, j) = choose|i: int, j: int|
                    0 <= i < j < head.len() && (#[trigger] head[i]).id == id && (
                    #[trigger] head[j]).id == id && ids_apart(head.take(j));
                assert(ports[i] == head[i] && ports[j] == head[j]);
                assert(ports.take(j) =~= head.take(j));
            },
            None => {
                let p = profile::template_with_id(last.id);
                if table::any(head, p) {
                    let i = choose|i: int| 0 <= i < head.len() && p(#[trigger] head[i]);
                    let j = ports.len() - 1;
                    assert(ports[i].id == last.id && ports[j].id == last.id);
                    assert(ports.take(j) =~= head);
                } else {
                    assert forall|i: int, j: int| 0 <= i < j < ports.len() implies (
                    #[trigger] ports[i]).id != (#[trigger] ports[j]).id by {
                        assert(ports[i] == head[i]);
                        if j == head.len() {
                            assert(!p(head[i]));
                        } else {
                            assert(ports[j] == head[j]);
                        }
                    }
                }
            },
        }
    }
}

/// A set lists its profiles by id. One more takes the place of the profile of
/// the same id and leaves every other.
pub proof fn law_adding_replaces_by_id(
    profiles: Seq<ProfileModel>,
    p: ProfileModel,
    x: ProfileModel,
)
    ensures
        profile::added(profiles, p).contains(x) <==> x == p || profiles.contains(x) && x.id != p.id,
{
    table::lemma_filter_members(profiles, profile::profile_without_id(p.id));
    table::lemma_place_members(
        profiles.filter(profile::profile_without_id(p.id)),
        p,
        table::le_of::<profile::Profile>(),
    );
}

/// A profile is found under its id, and nothing is found under an id that no
/// profile has.
pub proof fn law_profiles_are_found_by_id(profiles: Seq<ProfileModel>, id: Seq<char>)
    requires
        profile::keyed(profiles),
    ensures
        forall|i: int|
            0 <= i < profiles.len() && (#[trigger] profiles[i]).id == id ==> table::first(
                profiles,
                profile::profile_with_id(id),
            ) == Some(profiles[i]),
        (forall|i: int| 0 <= i < profiles.len() ==> (#[trigger] profiles[i]).id != id)
            ==> table::first(profiles, profile::profile_with_id(id)) is None,
{
    let p = profile::profile_with_id(id);
    table::lemma_first(profiles, p);
    assert forall|i: int|
        0 <= i < profiles.len() && (#[trigger] profiles[i]).id == id implies table::first(
        profiles,
        p,
    ) == Some(profiles[i]) by {
        assert forall|j: int| 0 <= j < profiles.len() && p(#[trigger] profiles[j]) implies
            profiles[j] == profiles[i] by {
            if j < i {
                assert(profiles[j].id != profiles[i].id);
            } else if i < j {
                assert(profiles[i].id != profiles[j].id);
            }
        }
        table::lemma_first_is(profiles, p, i);
    }
    if table::any(profiles, p) {
        let i = choose|i: int| 0 <= i < profiles.len() && p(#[trigger] profiles[i]);
        assert(profiles[i].id == id);
    }
}

/// The templates of a profile, each beside the profile it is from.
pub open spec fn templates_of(p: ProfileModel) -> Seq<ResolvedModel> {
    Seq::new(p.ports.len(), |i: int| ResolvedModel { profile: p, template: p.ports[i] })
}

/// All templates of all chosen profiles, in the order of the choice.
pub open spec fn all_templates(chosen: Seq<ProfileModel>) -> Seq<ResolvedModel>
    decreases chosen.len(),
{
    if chosen.len() == 0 {
        Seq::empty()
    } else {
        all_templates(chosen.drop_last()) + templates_of(chosen.last())
    }
}

/// Whether these are the profiles with these ids, one for each.
pub open spec fn chosen_by(
    profiles: Seq<ProfileModel>,
    ids: Seq<Seq<char>>,
    chosen: Seq<ProfileModel>,
) -> bool {
    &&& chosen.len() == ids.len()
    &&& forall|i: int|
        0 <= i < ids.len() ==> (#[trigger] chosen[i]).id == ids[i] && profiles.contains(chosen[i])
}

/// Whether an error names two templates that want one port: the profiles they
/// are from, in order, and the port.
pub open spec fn names_a_clash(all: Seq<ResolvedModel>, e: ProfileErrorModel) -> bool {
    exists|i: int, j: int|
        0 <= i < j < all.len() && (#[trigger] all[i]).template.protocol == (
        #[trigger] all[j]).template.protocol && all[i].template.default_port
            == all[j].template.default_port && e == ProfileErrorModel::ConflictingPort(
            all[i].profile.id,
            all[j].profile.id,
            all[j].template.protocol,
            all[j].template.default_port,
        )
}

proof fn lemma_clash_stays(all: Seq<ResolvedModel>, more: Seq<ResolvedModel>, e: ProfileErrorModel)
    requires
        names_a_clash(all, e),
    ensures
        names_a_clash(all + more, e),
{
    let (i, j) = choose|i: int, j: int|
        0 <= i < j < all.len() && (#[trigger] all[i]).template.protocol == (
        #[trigger] all[j]).template.protocol && all[i].template.default_port
            == all[j].template.default_port && e == ProfileErrorModel::ConflictingPort(
            all[i].profile.id,
            all[j].profile.id,
            all[j].template.protocol,
            all[j].template.default_port,
        );
    assert((all + more)[i] == all[i] && (all + more)[j] == all[j]);
}

/// A selection resolves to every template of every profile in it, in order,
/// where no two of them want one port; where two do, it is refused with two such
/// templates.
pub proof fn law_selection_is_every_template(
    profiles: Seq<ProfileModel>,
    ids: Seq<Seq<char>>,
    chosen: Seq<ProfileModel>,
)
    requires
        profile::keyed(profiles),
        chosen_by(profiles, ids, chosen),
    ensures
        profile::ports_apart(all_templates(chosen)) ==> profile::resolution(profiles, ids) == Ok::<
            Seq<ResolvedModel>,
            ProfileErrorModel,
        >(all_templates(chosen)),
        !profile::ports_apart(all_templates(chosen)) ==> (profile::resolution(profiles, ids)
            matches Err(e) && names_a_clash(all_templates(chosen), e)),
    decreases ids.len(),
{
    if ids.len() == 0 {
        assert(profile::ports_apart(all_templates(chosen)));
    } else {
        let fewer = chosen.drop_last();
        assert(chosen_by(profiles, ids.drop_last(), fewer)) by {
            assert forall|i: int| 0 <= i < ids.drop_last().len() implies (#[trigger] fewer[i]).id
                == ids.drop_last()[i] && profiles.contains(fewer[i]) by {
                assert(chosen[i].id == ids[i]);
            }
        }
        law_selection_is_every_template(profiles, ids.drop_last(), fewer);
        let before = all_templates(fewer);
        let p = chosen.last();
        assert(chosen[chosen.len() - 1].id == ids[ids.len() - 1]);
        let k = choose|k: int| 0 <= k < profiles.len() && profiles[k] == p;
        assert(profiles[k].id == ids.last());
        law_profiles_are_found_by_id(profiles, ids.last());
        if profile::ports_apart(before) {
            lemma_extended(before, p, p.ports.len());
            assert(templates_of(p).take(p.ports.len() as int) =~= templates_of(p));
        } else {
            let all = all_templates(chosen);
            lemma_clash_stays(
                before,
                templates_of(p),
                profile::resolution(profiles, ids.drop_last())->Err_0,
            );
            assert(!profile::ports_apart(all)) by {
                if profile::ports_apart(all) {
                    assert forall|i: int, j: int| 0 <= i < j < before.len() implies (
                    #[trigger] before[i]).template.protocol != (
                    #[trigger] before[j]).template.protocol || before[i].template.default_port
                        != before[j].template.default_port by {
                        assert(all[i] == before[i] && all[j] == before[j]);
                    }
                }
            }
        }
    }
}

proof fn lemma_extended(resolved: Seq<ResolvedModel>, p: ProfileModel, n: nat)
    requires
        profile::ports_apart(resolved),
        n <= p.ports.len(),
    ensures
        ({
            let all = resolved + templates_of(p).take(n as int);
            &&& profile::ports_apart(all) ==> profile::extended(resolved, p, n) == Ok::<
                Seq<ResolvedModel>,
                ProfileErrorModel,
            >(all)
            &&& !profile::ports_apart(all) ==> (profile::extended(resolved, p, n) matches Err(e)
                && names_a_clash(all, e))
        }),
    decreases n,
{
    let all = resolved + templates_of(p).take(n as int);
    if n == 0 {
        assert(all =~= resolved);
    } else {
        lemma_extended(resolved, p, (n - 1) as nat);
        let fewer = resolved + templates_of(p).take(n - 1);
        let last = ResolvedModel { profile: p, template: p.ports[n - 1] };
        assert(all =~= fewer.push(last));
        let q = profile::same_port(p.ports[n - 1]);
        table::lemma_first(fewer, q);
        if profile::ports_apart(fewer) {
            if table::any(fewer, q) {
                let found = table::first(fewer, q)->0;
                let i = choose|i: int| 0 <= i < fewer.len() && fewer[i] == found;
                let j = fewer.len() as int;
                assert(all[i] == fewer[i]);
                assert(all[j] == last);
                assert(all[i].template.protocol == all[j].template.protocol);
            } else {
                assert forall|i: int, j: int| 0 <= i < j < all.len() implies (
                #[trigger] all[i]).template.protocol != (#[trigger] all[j]).template.protocol
                    || all[i].template.default_port != all[j].template.default_port by {
                    assert(all[i] == fewer[i]);
                    if j < fewer.len() {
                        assert(all[j] == fewer[j]);
                    } else {
                        assert(!q(fewer[i]));
                    }
                }
            }
        } else {
            let e = profile::extended(resolved, p, (n - 1) as nat)->Err_0;
            lemma_clash_stays(fewer, seq![last], e);
            assert(fewer + seq![last] =~= all);
            if profile::ports_apart(all) {
                assert forall|i: int, j: int| 0 <= i < j < fewer.len() implies (
                #[trigger] fewer[i]).template.protocol != (#[trigger] fewer[j]).template.protocol
                    || fewer[i].template.default_port != fewer[j].template.default_port by {
                    assert(all[i] == fewer[i] && all[j] == fewer[j]);
                }
            }
        }
    }
}

/// A selection that names a profile nobody has is refused.
pub proof fn law_unknown_profiles_are_refused(
    profiles: Seq<ProfileModel>,
    ids: Seq<Seq<char>>,
    i: int,
)
    requires
        0 <= i < ids.len(),
        forall|k: int| 0 <= k < profiles.len() ==> (#[trigger] profiles[k]).id != ids[i],
    ensures
        profile::resolution(profiles, ids) is Err,
        i == 0 ==> profile::resolution(profiles, ids) == Err::<
            Seq<ResolvedModel>,
            ProfileErrorModel,
        >(ProfileErrorModel::Unknown(ids[0])),
    decreases ids.len(),
{
    if i == ids.len() - 1 {
        let p = profile::profile_with_id(ids[i]);
        table::lemma_first(profiles, p);
        if table::any(profiles, p) {
            let k = choose|k: int| 0 <= k < profiles.len() && p(#[trigger] profiles[k]);
            assert(profiles[k].id == ids[i]);
        }
        assert(ids.drop_last().len() == 0 ==> profile::resolution(profiles, ids.drop_last()) is Ok);
    } else {
        assert(ids.drop_last()[i] == ids[i]);
        law_unknown_profiles_are_refused(profiles, ids.drop_last(), i);
    }
}

/// Whether a text has no opening brace.
pub open spec fn braceless(s: Seq<char>) -> bool {
    forall|i: int| 0 <= i < s.len() ==> #[trigger] s[i] != '{'
}

proof fn lemma_braceless_stays(s: Seq<char>, pattern: Seq<char>, with: Seq<char>)
    requires
        braceless(s),
        pattern.len() > 0,
        pattern[0] == '{',
    ensures
        text::replace(s, pattern, with) == s,
{
    assert(!text_laws::has_part(s, pattern)) by {
        if text_laws::has_part(s, pattern) {
            let (a, b) = choose|a: Seq<char>, b: Seq<char>| s == #[trigger] (a + pattern + b);
            assert(s[a.len() as int] == '{');
        }
    }
    text_laws::law_nothing_to_replace(s, pattern, with);
}

/// A hint is rendered by putting the host and the public port where the
/// template names them, and leaving everything else.
pub proof fn law_hints_name_host_and_port(
    a: Seq<char>,
    b: Seq<char>,
    c: Seq<char>,
    host: Seq<char>,
    edge_port: u16,
)
    requires
        braceless(a),
        braceless(b),
        braceless(c),
        braceless(host),
    ensures
        profile::rendered(a + "{host}"@ + (b + "{edge_port}"@ + c), host, edge_port) == a + host + b
            + number::decimal(edge_port as nat) + c,
        profile::rendered(a, host, edge_port) == a,
{
    reveal_strlit("{host}");
    reveal_strlit("{edge_port}");
    let h = "{host}"@;
    let p = "{edge_port}"@;
    let port = number::decimal(edge_port as nat);
    let tail = b + p + c;
    let whole = a + h + tail;
    assert forall|i: int| 0 <= i < a.len() implies !h.is_prefix_of(
        whole.skip(#[trigger] text_laws::id_int(i)),
    ) by {
        assert(whole.skip(i)[0] == a[i]);
        if h.is_prefix_of(whole.skip(i)) {
            assert(whole.skip(i).subrange(0, h.len() as int)[0] == h[0]);
        }
    }
    text_laws::law_first_place_is_replaced(a, h, tail, host);
    assert(!text_laws::has_part(tail, h)) by {
        if text_laws::has_part(tail, h) {
            let (x, y) = choose|x: Seq<char>, y: Seq<char>| tail == #[trigger] (x + h + y);
            let at = x.len() as int;
            assert(tail[at] == '{' && tail[at + 1] == 'h');
            if at < b.len() {
                assert(tail[at] == b[at]);
            } else if at < b.len() + p.len() {
                assert(tail[at] == p[at - b.len()]);
                assert(at == b.len());
                assert(tail[at + 1] == p[1]);
            } else {
                assert(tail[at] == c[at - b.len() - p.len()]);
            }
        }
    }
    text_laws::law_nothing_to_replace(tail, h, host);
    let once = a + host + tail;
    let start = a + host + b;
    assert(once =~= start + p + c);
    assert forall|i: int| 0 <= i < start.len() implies #[trigger] start[i] != '{' by {
        if i < a.len() {
            assert(start[i] == a[i]);
        } else if i < a.len() + host.len() {
            assert(start[i] == host[i - a.len()]);
        } else {
            assert(start[i] == b[i - a.len() - host.len()]);
        }
    }
    assert forall|i: int| 0 <= i < start.len() implies !p.is_prefix_of(
        (start + p + c).skip(#[trigger] text_laws::id_int(i)),
    ) by {
        assert((start + p + c).skip(i)[0] == start[i]);
        if p.is_prefix_of((start + p + c).skip(i)) {
            assert((start + p + c).skip(i).subrange(0, p.len() as int)[0] == p[0]);
        }
    }
    text_laws::law_first_place_is_replaced(start, p, c, port);
    lemma_braceless_stays(c, p, port);
    lemma_braceless_stays(a, h, host);
    lemma_braceless_stays(a, p, port);
}

proof fn lemma_skipped(s: Seq<char>, n: int, pattern: Seq<char>, with: Seq<char>)
    requires
        0 <= n <= s.len(),
        pattern.len() > 0,
        forall|i: int|
            0 <= i < n ==> !pattern.is_prefix_of(s.skip(#[trigger] text_laws::id_int(i))),
    ensures
        text::replace(s, pattern, with) == s.take(n) + text::replace(s.skip(n), pattern, with),
    decreases n,
{
    if n == 0 {
        assert(s.skip(0) =~= s);
        assert(s.take(0) + text::replace(s, pattern, with) =~= text::replace(s, pattern, with));
    } else {
        let rest = s.drop_first();
        assert(text_laws::id_int(0) == 0);
        assert(s.skip(0) =~= s);
        assert(!pattern.is_prefix_of(s.skip(text_laws::id_int(0))));
        assert forall|i: int| 0 <= i < n - 1 implies !pattern.is_prefix_of(
            rest.skip(#[trigger] text_laws::id_int(i)),
        ) by {
            assert(rest.skip(i) =~= s.skip(i + 1));
            assert(!pattern.is_prefix_of(s.skip(text_laws::id_int(i + 1))));
        }
        lemma_skipped(rest, n - 1, pattern, with);
        assert(rest.skip(n - 1) =~= s.skip(n));
        assert(seq![s[0]] + (rest.take(n - 1) + text::replace(s.skip(n), pattern, with)) =~= s.take(
            n,
        ) + text::replace(s.skip(n), pattern, with));
    }
}

proof fn lemma_no_place(s: Seq<char>, i: int, pattern: Seq<char>)
    requires
        0 <= i < s.len(),
        pattern.len() > 0,
        s[i] != pattern[0] || (i + 1 < s.len() && pattern.len() > 1 && s[i + 1] != pattern[1]),
    ensures
        !pattern.is_prefix_of(s.skip(i)),
{
    if pattern.is_prefix_of(s.skip(i)) {
        assert(s.skip(i).subrange(0, pattern.len() as int)[0] == pattern[0]);
        assert(s.skip(i)[0] == s[i]);
        if pattern.len() > 1 {
            assert(s.skip(i).subrange(0, pattern.len() as int)[1] == pattern[1]);
            assert(s.skip(i)[1] == s[i + 1]);
        }
    }
}

/// A hint is filled in from the left, however often it names the host and the
/// port and in whichever order: each place gets its value, and what is left is
/// filled in the same way.
pub proof fn law_hints_are_filled_in_from_the_left(
    x: Seq<char>,
    y: Seq<char>,
    host: Seq<char>,
    edge_port: u16,
)
    requires
        braceless(x),
        braceless(host),
    ensures
        profile::rendered(x + "{host}"@ + y, host, edge_port) == x + host + profile::rendered(
            y,
            host,
            edge_port,
        ),
        profile::rendered(x + "{edge_port}"@ + y, host, edge_port) == x + number::decimal(
            edge_port as nat,
        ) + profile::rendered(y, host, edge_port),
{
    reveal_strlit("{host}");
    reveal_strlit("{edge_port}");
    let h = "{host}"@;
    let p = "{edge_port}"@;
    let port = number::decimal(edge_port as nat);
    let filled = text::replace(y, h, host);
    let first = x + h + y;
    assert forall|i: int| 0 <= i < x.len() implies !h.is_prefix_of(
        first.skip(#[trigger] text_laws::id_int(i)),
    ) by {
        assert(first[i] == x[i]);
        lemma_no_place(first, i, h);
    }
    text_laws::law_first_place_is_replaced(x, h, y, host);
    let once = x + host + filled;
    let n = (x + host).len() as int;
    assert forall|i: int| 0 <= i < n implies !p.is_prefix_of(
        once.skip(#[trigger] text_laws::id_int(i)),
    ) by {
        if i < x.len() {
            assert(once[i] == x[i]);
        } else {
            assert(once[i] == host[i - x.len()]);
        }
        lemma_no_place(once, i, p);
    }
    lemma_skipped(once, n, p, port);
    assert(once.take(n) =~= x + host);
    assert(once.skip(n) =~= filled);
    let second = x + p + y;
    let m = (x + p).len() as int;
    assert forall|i: int| 0 <= i < m implies !h.is_prefix_of(
        second.skip(#[trigger] text_laws::id_int(i)),
    ) by {
        if i < x.len() {
            assert(second[i] == x[i]);
        } else {
            assert(second[i] == p[i - x.len()]);
            if i == x.len() {
                assert(second[i + 1] == p[1]);
            }
        }
        lemma_no_place(second, i, h);
    }
    lemma_skipped(second, m, h, host);
    assert(second.take(m) =~= x + p);
    assert(second.skip(m) =~= y);
    let then = x + p + filled;
    assert forall|i: int| 0 <= i < x.len() implies !p.is_prefix_of(
        then.skip(#[trigger] text_laws::id_int(i)),
    ) by {
        assert(then[i] == x[i]);
        lemma_no_place(then, i, p);
    }
    text_laws::law_first_place_is_replaced(x, p, filled, port);
}

} // verus!
