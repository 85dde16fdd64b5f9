//! The precomputed read-only tables behind the personalized page: the
//! policy index keyed by canonical route URL, and the per-identity table
//! of resolved destination lists.
use vstd::prelude::*;

use crate::config;
use crate::config::RouteView;
use crate::config::RouteDataView;
use crate::config::routes_view;
use crate::pomerium;
use crate::pomerium::Policy;
use crate::pomerium::policy::ActionView;
use crate::pomerium::policy::spec_policy_check;
use crate::pomerium::spec_allow_all;
use crate::strutil::str_eq;
use crate::strutil::strs_contain;

verus! {

/// A leaf is visible when its routing key has a policy in the index and
/// that policy grants the identity access; an unknown key denies.
pub open spec fn leaf_visible(
    ph: Map<Seq<char>, Seq<ActionView>>,
    key: Seq<char>,
    email: Seq<char>,
) -> bool {
    ph.contains_key(key) && spec_policy_check(ph[key], email)
}

/// A route is visible when its leaf is, or, for a group, when at least one
/// of its children is.
pub open spec fn route_visible(
    ph: Map<Seq<char>, Seq<ActionView>>,
    r: RouteView,
    email: Seq<char>,
) -> bool
    decreases r,
{
    match r.data {
        RouteDataView::Path(p) => leaf_visible(ph, p, email),
        RouteDataView::Group(g) => any_visible(ph, g, email),
    }
}

/// Whether at least one route of the list is visible.
pub open spec fn any_visible(
    ph: Map<Seq<char>, Seq<ActionView>>,
    g: Seq<RouteView>,
    email: Seq<char>,
) -> bool
    decreases g,
{
    exists|i: int| 0 <= i < g.len() && route_visible(ph, g[i], email)
}

/// A visible route as it appears in the resolved list: a leaf unchanged, a
/// group with only its visible children, in order.
pub open spec fn spec_prune(
    ph: Map<Seq<char>, Seq<ActionView>>,
    r: RouteView,
    email: Seq<char>,
) -> RouteView
    decreases r,
{
    match r.data {
        RouteDataView::Path(_) => r,
        RouteDataView::Group(g) => RouteView { data: RouteDataView::Group(spec_resolve(ph, g, email)), ..r },
    }
}

/// The ordered list of destinations the identity may see: visible routes
/// in configuration order, groups pruned to their visible children.
pub open spec fn spec_resolve(
    ph: Map<Seq<char>, Seq<ActionView>>,
    rs: Seq<RouteView>,
    email: Seq<char>,
) -> Seq<RouteView>
    decreases rs,
{
    if rs.len() == 0 {
        Seq::empty()
    } else {
        let rest = spec_resolve(ph, rs.drop_first(), email);
        if route_visible(ph, rs[0], email) {
            seq![spec_prune(ph, rs[0], email)] + rest
        } else {
            rest
        }
    }
}

/// Resolution distributes over concatenation of route lists.
pub proof fn lemma_resolve_concat(
    ph: Map<Seq<char>, Seq<ActionView>>,
    a: Seq<RouteView>,
    b: Seq<RouteView>,
    email: Seq<char>,
)
    ensures
        spec_resolve(ph, a + b, email) =~= spec_resolve(ph, a, email) + spec_resolve(ph, b, email),
    decreases a,
{
    if a.len() == 0 {
        assert(a + b =~= b);
        assert(spec_resolve(ph, a, email) =~= Seq::empty());
    } else {
        lemma_resolve_concat(ph, a.drop_first(), b, email);
        assert((a + b).drop_first() =~= a.drop_first() + b);
        assert((a + b)[0] == a[0]);
    }
}

/// Resolving twice with the same index, route tree and identity yields
/// the same ordered list: the resolver is a function of its inputs alone.
pub proof fn lemma_resolver_deterministic(
    ph: Map<Seq<char>, Seq<ActionView>>,
    rs: Seq<RouteView>,
    email: Seq<char>,
    r1: Seq<RouteView>,
    r2: Seq<RouteView>,
)
    requires
        r1 == spec_resolve(ph, rs, email),
        r2 == spec_resolve(ph, rs, email),
    ensures
        r1 == r2,
{
}

/// A group route is visible exactly when at least one of its children is.
pub proof fn lemma_group_visibility(
    ph: Map<Seq<char>, Seq<ActionView>>,
    r: RouteView,
    email: Seq<char>,
)
    requires
        r.data is Group,
    ensures
        route_visible(ph, r, email) <==> exists|i: int|
            0 <= i < r.data->Group_0.len() && route_visible(ph, r.data->Group_0[i], email),
{
}

/// What a resolved list holds: every entry is some visible configured
/// route, pruned; and every visible configured route appears, pruned.
#[verifier::rlimit(60)]
pub proof fn lemma_resolve_membership(
    ph: Map<Seq<char>, Seq<ActionView>>,
    rs: Seq<RouteView>,
    email: Seq<char>,
)
    ensures
        forall|j: int| #![trigger spec_resolve(ph, rs, email)[j]]
            0 <= j < spec_resolve(ph, rs, email).len() ==> exists|i: int|
                #![trigger spec_prune(ph, rs[i], email)]
                0 <= i < rs.len() && route_visible(ph, rs[i], email) && spec_resolve(
                    ph,
                    rs,
                    email,
                )[j] == spec_prune(ph, rs[i], email),
        forall|i: int| #![trigger route_visible(ph, rs[i], email)]
            0 <= i < rs.len() && route_visible(ph, rs[i], email) ==> exists|j: int|
                #![trigger spec_resolve(ph, rs, email)[j]]
                0 <= j < spec_resolve(ph, rs, email).len() && spec_resolve(ph, rs, email)[j]
                    == spec_prune(ph, rs[i], email),
    decreases rs,
{
    if rs.len() > 0 {
        lemma_resolve_membership(ph, rs.drop_first(), email);
        let res = spec_resolve(ph, rs, email);
        let rest = spec_resolve(ph, rs.drop_first(), email);
        let off: int = if route_visible(ph, rs[0], email) {
            1
        } else {
            0
        };
        assert forall|j: int| #![trigger res[j]] 0 <= j < res.len() implies exists|i: int|
            #![trigger spec_prune(ph, rs[i], email)]
            0 <= i < rs.len() && route_visible(ph, rs[i], email) && res[j] == spec_prune(
                ph,
                rs[i],
                email,
            ) by {
            if off == 1 && j == 0 {
                assert(route_visible(ph, rs[0], email) && res[0] == spec_prune(ph, rs[0], email));
            } else {
                assert(res[j] == rest[j - off]);
                let i0 = choose|i0: int|
                    #![trigger spec_prune(ph, rs.drop_first()[i0], email)]
                    0 <= i0 < rs.drop_first().len() && route_visible(
                        ph,
                        rs.drop_first()[i0],
                        email,
                    ) && rest[j - off] == spec_prune(ph, rs.drop_first()[i0], email);
                assert(rs.drop_first()[i0] == rs[i0 + 1]);
                assert(route_visible(ph, rs[i0 + 1], email) && res[j] == spec_prune(
                    ph,
                    rs[i0 + 1],
                    email,
                ));
            }
        }
        assert forall|i: int| #![trigger route_visible(ph, rs[i], email)]
            0 <= i < rs.len() && route_visible(ph, rs[i], email) implies exists|j: int|
            #![trigger spec_resolve(ph, rs, email)[j]]
            0 <= j < res.len() && res[j] == spec_prune(ph, rs[i], email) by {
            if i == 0 {
                assert(res[0] == spec_prune(ph, rs[0], email));
            } else {
                assert(rs.drop_first()[i - 1] == rs[i]);
                assert(route_visible(ph, rs.drop_first()[i - 1], email));
                let j0 = choose|j0: int|
                    #![trigger rest[j0]]
                    0 <= j0 < rest.len() && rest[j0] == spec_prune(
                        ph,
                        rs.drop_first()[i - 1],
                        email,
                    );
                assert(res[j0 + off] == rest[j0]);
                assert(res[j0 + off] == spec_prune(ph, rs[i], email));
            }
        }
    }
}

/// Looking a publicly overridden route up in the index grants every
/// identity access, the anonymous one included.
pub proof fn lemma_public_route_visible(
    ph: Map<Seq<char>, Seq<ActionView>>,
    key: Seq<char>,
    email: Seq<char>,
)
    requires
        ph.contains_key(key),
        ph[key] == spec_allow_all(),
    ensures
        leaf_visible(ph, key, email),
{
    pomerium::lemma_allow_all_passes(email);
}

/// The policy index: canonical route URL to compiled policy.
#[derive(Debug)]
pub struct PolicyHolder {
    pub dict: Vec<(String, Policy)>,
}

/// The association list read as a map; a later entry for the same key
/// overrides an earlier one.
pub open spec fn pol_entries_map(s: Seq<(String, Policy)>) -> Map<Seq<char>, Seq<ActionView>>
    decreases s,
{
    if s.len() == 0 {
        Map::empty()
    } else {
        pol_entries_map(s.drop_last()).insert(s.last().0@, s.last().1@)
    }
}

pub proof fn lemma_pol_entries_map(s: Seq<(String, Policy)>)
    ensures
        forall|k: Seq<char>|
            #[trigger] pol_entries_map(s).contains_key(k) <==> exists|i: int|
                0 <= i < s.len() && s[i].0@ == k,
        (forall|i: int, j: int| 0 <= i < j < s.len() ==> s[i].0@ != s[j].0@) ==> forall|i: int|
            0 <= i < s.len() ==> pol_entries_map(s)[#[trigger] s[i].0@] == s[i].1@,
    decreases s,
{
    if s.len() > 0 {
        lemma_pol_entries_map(s.drop_last());
        assert forall|k: Seq<char>|
            #[trigger] pol_entries_map(s).contains_key(k) implies exists|i: int|
            0 <= i < s.len() && s[i].0@ == k by {
            if s.last().0@ == k {
                assert(s[s.len() - 1].0@ == k);
            } else {
                assert(pol_entries_map(s.drop_last()).contains_key(k));
                let i = choose|i: int| 0 <= i < s.drop_last().len() && s.drop_last()[i].0@ == k;
                assert(s[i].0@ == k);
            }
        }
        assert forall|k: Seq<char>| (exists|i: int| 0 <= i < s.len() && s[i].0@ == k) implies
            pol_entries_map(s).contains_key(k) by {
            let i = choose|i: int| 0 <= i < s.len() && s[i].0@ == k;
            if i < s.len() - 1 {
                assert(s.drop_last()[i].0@ == k);
                assert(pol_entries_map(s.drop_last()).contains_key(k));
            } else {
                assert(s.last().0@ == k);
            }
        }
        if forall|i: int, j: int| 0 <= i < j < s.len() ==> s[i].0@ != s[j].0@ {
            assert forall|i: int, j: int|
                0 <= i < j < s.drop_last().len() implies s.drop_last()[i].0@ != s.drop_last()[j].0@ by {
                assert(s[i].0@ != s[j].0@);
            }
            assert forall|i: int| 0 <= i < s.len() implies pol_entries_map(s)[#[trigger] s[i].0@]
                == s[i].1@ by {
                if i < s.len() - 1 {
                    assert(s[i].0@ != s[s.len() - 1].0@);
                    assert(s.drop_last()[i].0@ == s[i].0@);
                    assert(pol_entries_map(s.drop_last())[s.drop_last()[i].0@]
                        == s.drop_last()[i].1@);
                }
            }
        }
    }
}

/// The canonical lookup URL of a policy-document route: its base, path and
/// prefix concatenated in that order.
pub open spec fn spec_make_url(r: pomerium::RouteView) -> Seq<char> {
    r.from + r.path + r.prefix
}

/// The policy that governs a route once the public-access override is
/// taken into account.
pub open spec fn spec_effective_policy(r: pomerium::RouteView) -> Seq<ActionView> {
    if r.allow_public_unauthenticated_access {
        spec_allow_all()
    } else {
        r.policy
    }
}

/// The index built from a policy document: every route keyed by its
/// canonical URL, a later route winning over an earlier one with the same
/// URL.
pub open spec fn spec_build_index(rs: Seq<pomerium::RouteView>) -> Map<Seq<char>, Seq<ActionView>>
    decreases rs,
{
    if rs.len() == 0 {
        Map::empty()
    } else {
        let m = spec_build_index(rs.drop_first());
        if m.contains_key(spec_make_url(rs[0])) {
            m
        } else {
            m.insert(spec_make_url(rs[0]), spec_effective_policy(rs[0]))
        }
    }
}

/// The index holds exactly the canonical URLs of the document's routes.
pub proof fn lemma_build_index_keys(rs: Seq<pomerium::RouteView>)
    ensures
        forall|k: Seq<char>|
            #[trigger] spec_build_index(rs).contains_key(k) <==> exists|i: int|
                0 <= i < rs.len() && spec_make_url(rs[i]) == k,
    decreases rs,
{
    if rs.len() > 0 {
        lemma_build_index_keys(rs.drop_first());
        assert forall|k: Seq<char>|
            #[trigger] spec_build_index(rs).contains_key(k) implies exists|i: int|
            0 <= i < rs.len() && spec_make_url(rs[i]) == k by {
            if spec_make_url(rs[0]) == k {
                assert(spec_make_url(rs[0]) == k);
            } else {
                assert(spec_build_index(rs.drop_first()).contains_key(k));
                let i = choose|i: int|
                    0 <= i < rs.drop_first().len() && spec_make_url(rs.drop_first()[i]) == k;
                assert(spec_make_url(rs[i + 1]) == k);
            }
        }
        assert forall|k: Seq<char>| (exists|i: int| 0 <= i < rs.len() && spec_make_url(rs[i]) == k)
            implies spec_build_index(rs).contains_key(k) by {
            let i = choose|i: int| 0 <= i < rs.len() && spec_make_url(rs[i]) == k;
            if i > 0 {
                assert(spec_make_url(rs.drop_first()[i - 1]) == k);
                assert(spec_build_index(rs.drop_first()).contains_key(k));
            }
        }
    }
}

/// The index stores, under each URL, the effective policy of the last
/// route of the document that uses that URL.
pub proof fn lemma_build_index_wins(rs: Seq<pomerium::RouteView>, i: int)
    requires
        0 <= i < rs.len(),
        forall|j: int| i < j < rs.len() ==> spec_make_url(rs[j]) != spec_make_url(rs[i]),
    ensures
        spec_build_index(rs).contains_key(spec_make_url(rs[i])),
        spec_build_index(rs)[spec_make_url(rs[i])] == spec_effective_policy(rs[i]),
    decreases rs,
{
    let url = spec_make_url(rs[i]);
    if i == 0 {
        lemma_build_index_keys(rs.drop_first());
        assert(!spec_build_index(rs.drop_first()).contains_key(url)) by {
            if spec_build_index(rs.drop_first()).contains_key(url) {
                let l = choose|l: int|
                    0 <= l < rs.drop_first().len() && spec_make_url(rs.drop_first()[l]) == url;
                assert(spec_make_url(rs[l + 1]) == url);
            }
        }
    } else {
        assert(rs.drop_first()[i - 1] == rs[i]);
        assert forall|j: int| #![trigger rs.drop_first()[j]]
            i - 1 < j < rs.drop_first().len() implies spec_make_url(rs.drop_first()[j])
            != spec_make_url(rs.drop_first()[i - 1]) by {
            assert(rs.drop_first()[j] == rs[j + 1]);
        }
        lemma_build_index_wins(rs.drop_first(), i - 1);
    }
}

/// After the load-time override, a publicly accessible route that no
/// later route shadows is visible to every identity, the anonymous one
/// included, whatever its configured policy says.
pub proof fn lemma_public_override_end_to_end(
    rs: Seq<pomerium::RouteView>,
    i: int,
    email: Seq<char>,
)
    requires
        0 <= i < rs.len(),
        rs[i].allow_public_unauthenticated_access,
        forall|j: int| i < j < rs.len() ==> spec_make_url(rs[j]) != spec_make_url(rs[i]),
    ensures
        leaf_visible(spec_build_index(rs), spec_make_url(rs[i]), email),
{
    lemma_build_index_wins(rs, i);
    pomerium::lemma_allow_all_passes(email);
}

fn make_url(from: String, path: &String, prefix: &String) -> (r: String)
    ensures
        r@ == from@ + path@ + prefix@,
{
    let mut r = from;
    r.append(path.as_str());
    r.append(prefix.as_str());
    r
}

impl PolicyHolder {
    pub open spec fn view(&self) -> Map<Seq<char>, Seq<ActionView>> {
        pol_entries_map(self.dict@)
    }

    /// No two entries share a key, so a linear scan agrees with the map.
    pub open spec fn wf(&self) -> bool {
        forall|i: int, j: int| 0 <= i < j < self.dict@.len() ==> self.dict@[i].0@ != self.dict@[j].0@
    }

    /// Whether some entry already uses this key.
    fn contains_key(&self, key: &str) -> (r: bool)
        ensures
            r == exists|i: int| 0 <= i < self.dict@.len() && self.dict@[i].0@ == key@,
    {
        let n = self.dict.len();
        for i in 0..n
            invariant
                n == self.dict@.len(),
                forall|k: int| 0 <= k < i ==> self.dict@[k].0@ != key@,
        {
            if str_eq(self.dict[i].0.as_str(), key) {
                return true;
            }
        }
        false
    }

    /// Builds the index from the policy document: each route keyed by its
    /// canonical URL, the public-access override applied, a later route
    /// overriding an earlier one with the same URL.
    #[verifier::loop_isolation(false)]
    pub fn from(pomerium_data: Vec<pomerium::Route>) -> (r: Self)
        ensures
            r.wf(),
            r@ == spec_build_index(pomerium::policy_routes_view(pomerium_data@)),
    {
        let ghost orig = pomerium_data@;
        let ghost views = pomerium::policy_routes_view(pomerium_data@);
        let mut data = pomerium_data;
        let mut holder = PolicyHolder { dict: Vec::new() };
        while data.len() > 0
            invariant
                data@.len() <= orig.len(),
                data@ =~= orig.take(data@.len() as int),
                holder.wf(),
                holder@ == spec_build_index(views.skip(data@.len() as int)),
            decreases data@.len(),
        {
            let ghost m = data@.len() as int;
            let r = data.pop().unwrap();
            proof {
                assert(r == orig[m - 1]);
                assert(data@ =~= orig.take(m - 1));
                assert(views.skip(m - 1).drop_first() =~= views.skip(m));
                assert(views.skip(m - 1)[0] == r.view());
            }
            let url = make_url(r.from, &r.path, &r.prefix);
            let policy = if r.allow_public_unauthenticated_access {
                Policy::allow_all()
            } else {
                r.policy
            };
            proof {
                assert(url@ == spec_make_url(views[m - 1]));
                assert(policy@ == spec_effective_policy(views[m - 1]));
            }
            let present = holder.contains_key(url.as_str());
            proof {
                lemma_pol_entries_map(holder.dict@);
                assert(present == holder@.contains_key(url@));
            }
            if !present {
                let ghost d = holder.dict@;
                holder.dict.push((url, policy));
                proof {
                    assert(holder.dict@.drop_last() =~= d);
                    assert(holder@ =~= spec_build_index(views.skip(m - 1)));
                }
            } else {
                proof {
                    assert(holder@ =~= spec_build_index(views.skip(m - 1)));
                }
            }
        }
        proof {
            assert(views.skip(0) =~= views);
        }
        holder
    }

    /// The policy stored for a canonical URL, if any.
    pub fn get(&self, from: &str) -> (r: Option<&Policy>)
        requires
            self.wf(),
        ensures
            match r {
                Some(p) => self@.contains_key(from@) && p@ == self@[from@],
                None => !self@.contains_key(from@),
            },
    {
        proof {
            lemma_pol_entries_map(self.dict@);
        }
        let n = self.dict.len();
        #[verifier::loop_isolation(false)]
        for i in 0..n
            invariant
                forall|k: int| 0 <= k < i ==> self.dict@[k].0@ != from@,
        {
            if str_eq(self.dict[i].0.as_str(), from) {
                return Some(&self.dict[i].1);
            }
        }
        None
    }
}

/// The configured route tree, in its configured order.
#[derive(Debug)]
pub struct RouteHolder {
    pub routes: Vec<config::Route>,
}

/// Whether the route is visible to the identity.
fn check_route(ph: &PolicyHolder, r: &config::Route, email: &str) -> (b: bool)
    requires
        ph.wf(),
    ensures
        b == route_visible(ph@, r.view(), email@),
    decreases *r, 0int,
{
    match &r.data {
        config::RouteData::Path(path) => {
            let res = match ph.get(path.as_str()) {
                Some(policy) => policy.check_authorized(email),
                None => false,
            };
            proof {
                assert(r.view().data == RouteDataView::Path(path@));
                assert(res == leaf_visible(ph@, path@, email@));
            }
            res
        },
        config::RouteData::Group(group) => {
            let res = any_route_visible(ph, group, email);
            proof {
                assert(r.view().data == RouteDataView::Group(routes_view(group@)));
            }
            res
        },
    }
}

/// Whether at least one route of the group is visible to the identity.
fn any_route_visible(ph: &PolicyHolder, group: &Vec<config::Route>, email: &str) -> (b: bool)
    requires
        ph.wf(),
    ensures
        b == any_visible(ph@, routes_view(group@), email@),
    decreases group@, 1int,
{
    proof {
        crate::config::lemma_routes_view(group@);
    }
    let n = group.len();
    #[verifier::loop_isolation(false)]
    for i in 0..n
        invariant
            forall|k: int| 0 <= k < i ==> !route_visible(ph@, routes_view(group@)[k], email@),
    {
        if check_route(ph, &group[i], email) {
            proof {
                assert(route_visible(ph@, routes_view(group@)[i as int], email@));
            }
            return true;
        }
    }
    false
}

/// A visible route as the identity sees it: a leaf copied as it is, a
/// group copied with only its visible children.
fn prune_route(ph: &PolicyHolder, r: &config::Route, email: &str) -> (res: config::Route)
    requires
        ph.wf(),
    ensures
        res.view() == spec_prune(ph@, r.view(), email@),
    decreases *r, 0int,
{
    match &r.data {
        config::RouteData::Path(p) => {
            let res = config::Route {
                icon: r.icon.clone(),
                label: r.label.clone(),
                data: config::RouteData::Path(p.clone()),
                button_color: r.button_color.clone(),
                escaped_label: r.escaped_label.clone(),
                is_group: r.is_group,
            };
            proof {
                assert(res.view() =~~= spec_prune(ph@, r.view(), email@));
            }
            res
        },
        config::RouteData::Group(g) => {
            let res = config::Route {
                icon: r.icon.clone(),
                label: r.label.clone(),
                data: config::RouteData::Group(resolve_routes(ph, g, email)),
                button_color: r.button_color.clone(),
                escaped_label: r.escaped_label.clone(),
                is_group: r.is_group,
            };
            proof {
                assert(res.view() =~~= spec_prune(ph@, r.view(), email@));
            }
            res
        },
    }
}

/// The resolved destination list for one identity: visible routes in
/// configuration order, groups pruned to their visible children.
fn resolve_routes(ph: &PolicyHolder, rs: &Vec<config::Route>, email: &str) -> (out: Vec<
    config::Route,
>)
    requires
        ph.wf(),
    ensures
        routes_view(out@) == spec_resolve(ph@, routes_view(rs@), email@),
    decreases rs@, 1int,
{
    let mut out: Vec<config::Route> = Vec::new();
    let n = rs.len();
    #[verifier::loop_isolation(false)]
    for i in 0..n
        invariant
            routes_view(out@) =~= spec_resolve(ph@, routes_view(rs@.take(i as int)), email@),
    {
        let ghost prev = out@;
        if check_route(ph, &rs[i], email) {
            let pr = prune_route(ph, &rs[i], email);
            out.push(pr);
        }
        proof {
            crate::config::lemma_routes_view(rs@);
            assert(rs@.take(i + 1) =~= rs@.take(i as int).push(rs@[i as int]));
            lemma_routes_view_push(rs@.take(i as int), rs@[i as int]);
            lemma_resolve_concat(
                ph@,
                routes_view(rs@.take(i as int)),
                seq![rs@[i as int].view()],
                email@,
            );
            assert(seq![rs@[i as int].view()].drop_first() =~= Seq::empty());
            assert(spec_resolve(ph@, Seq::empty(), email@) =~= Seq::empty());
            if route_visible(ph@, rs@[i as int].view(), email@) {
                assert(spec_resolve(ph@, seq![rs@[i as int].view()], email@) =~= seq![
                    spec_prune(ph@, rs@[i as int].view(), email@),
                ]);
                lemma_routes_view_push(prev, out@.last());
                assert(out@ =~= prev.push(out@.last()));
                assert(routes_view(out@) =~= routes_view(prev) + seq![
                    spec_prune(ph@, rs@[i as int].view(), email@),
                ]);
            } else {
                assert(spec_resolve(ph@, seq![rs@[i as int].view()], email@) =~= Seq::empty());
            }
            assert(routes_view(out@) =~= spec_resolve(
                ph@,
                routes_view(rs@.take(i + 1)),
                email@,
            ));
        }
    }
    proof {
        assert(rs@.take(n as int) =~= rs@);
    }
    out
}

/// Appending one route appends its view.
pub proof fn lemma_routes_view_push(s: Seq<config::Route>, r: config::Route)
    ensures
        routes_view(s.push(r)) =~= routes_view(s) + seq![r.view()],
{
    crate::config::lemma_routes_view(s.push(r));
    crate::config::lemma_routes_view(s);
    assert(s.push(r)[s.len() as int] == r);
}

/// A copy of a route, equal in every observable respect.
fn copy_route(r: &config::Route) -> (res: config::Route)
    ensures
        res.view() == r.view(),
    decreases *r, 0int,
{
    match &r.data {
        config::RouteData::Path(p) => {
            let res = config::Route {
                icon: r.icon.clone(),
                label: r.label.clone(),
                data: config::RouteData::Path(p.clone()),
                button_color: r.button_color.clone(),
                escaped_label: r.escaped_label.clone(),
                is_group: r.is_group,
            };
            proof {
                assert(res.view() =~~= r.view());
            }
            res
        },
        config::RouteData::Group(g) => {
            let res = config::Route {
                icon: r.icon.clone(),
                label: r.label.clone(),
                data: config::RouteData::Group(copy_routes(g)),
                button_color: r.button_color.clone(),
                escaped_label: r.escaped_label.clone(),
                is_group: r.is_group,
            };
            proof {
                assert(res.view() =~~= r.view());
            }
            res
        },
    }
}

/// A copy of a route list, equal in every observable respect.
fn copy_routes(rs: &Vec<config::Route>) -> (res: Vec<config::Route>)
    ensures
        routes_view(res@) == routes_view(rs@),
    decreases rs@, 1int,
{
    let mut out: Vec<config::Route> = Vec::new();
    let n = rs.len();
    #[verifier::loop_isolation(false)]
    for i in 0..n
        invariant
            out@.len() == i,
            forall|j: int| #![auto] 0 <= j < i ==> out@[j].view() == rs@[j].view(),
    {
        let c = copy_route(&rs[i]);
        out.push(c);
    }
    proof {
        crate::config::lemma_routes_view(out@);
        crate::config::lemma_routes_view(rs@);
        assert(routes_view(out@) =~= routes_view(rs@));
    }
    out
}

impl RouteHolder {
    /// Takes ownership of the configured route tree.
    pub fn from(hallway_data: Vec<config::Route>) -> (r: Self)
        ensures
            r.routes == hallway_data,
    {
        RouteHolder { routes: hallway_data }
    }

    /// The ordered list of destinations the identity may see.
    pub fn can_be_accessed_by(&self, email: &str, policy_holder: &PolicyHolder) -> (v: Vec<
        config::Route,
    >)
        requires
            policy_holder.wf(),
        ensures
            routes_view(v@) == spec_resolve(policy_holder@, routes_view(self.routes@), email@),
    {
        resolve_routes(policy_holder, &self.routes, email)
    }
}

/// The destinations one identity may see.
#[derive(Debug)]
pub struct UserData {
    pub accessible_routes: Vec<config::Route>,
}

/// The precomputed per-identity table: every identity the policy document
/// mentions, with its resolved destination list, plus the anonymous list.
#[derive(Debug)]
pub struct UserDataHolder {
    pub dict: Vec<(String, UserData)>,
    pub public_urls: Vec<config::Route>,
}

/// The association list read as a map; a later entry for the same key
/// overrides an earlier one.
pub open spec fn ud_entries_map(s: Seq<(String, UserData)>) -> Map<Seq<char>, Seq<RouteView>>
    decreases s,
{
    if s.len() == 0 {
        Map::empty()
    } else {
        ud_entries_map(s.drop_last()).insert(
            s.last().0@,
            routes_view(s.last().1.accessible_routes@),
        )
    }
}

pub proof fn lemma_ud_entries_map(s: Seq<(String, UserData)>)
    ensures
        forall|k: Seq<char>|
            #[trigger] ud_entries_map(s).contains_key(k) <==> exists|i: int|
                0 <= i < s.len() && s[i].0@ == k,
        (forall|i: int, j: int| 0 <= i < j < s.len() ==> s[i].0@ != s[j].0@) ==> forall|i: int|
            0 <= i < s.len() ==> ud_entries_map(s)[#[trigger] s[i].0@] == routes_view(
                s[i].1.accessible_routes@,
            ),
    decreases s,
{
    if s.len() > 0 {
        lemma_ud_entries_map(s.drop_last());
        assert forall|k: Seq<char>|
            #[trigger] ud_entries_map(s).contains_key(k) implies exists|i: int|
            0 <= i < s.len() && s[i].0@ == k by {
            if s.last().0@ == k {
                assert(s[s.len() - 1].0@ == k);
            } else {
                assert(ud_entries_map(s.drop_last()).contains_key(k));
                let i = choose|i: int| 0 <= i < s.drop_last().len() && s.drop_last()[i].0@ == k;
                assert(s[i].0@ == k);
            }
        }
        assert forall|k: Seq<char>| (exists|i: int| 0 <= i < s.len() && s[i].0@ == k) implies
            ud_entries_map(s).contains_key(k) by {
            let i = choose|i: int| 0 <= i < s.len() && s[i].0@ == k;
            if i < s.len() - 1 {
                assert(s.drop_last()[i].0@ == k);
                assert(ud_entries_map(s.drop_last()).contains_key(k));
            } else {
                assert(s.last().0@ == k);
            }
        }
        if forall|i: int, j: int| 0 <= i < j < s.len() ==> s[i].0@ != s[j].0@ {
            assert forall|i: int, j: int|
                0 <= i < j < s.drop_last().len() implies s.drop_last()[i].0@ != s.drop_last()[j].0@ by {
                assert(s[i].0@ != s[j].0@);
            }
            assert forall|i: int| 0 <= i < s.len() implies ud_entries_map(s)[#[trigger] s[i].0@]
                == routes_view(s[i].1.accessible_routes@) by {
                if i < s.len() - 1 {
                    assert(s[i].0@ != s[s.len() - 1].0@);
                    assert(s.drop_last()[i].0@ == s[i].0@);
                    assert(ud_entries_map(s.drop_last())[s.drop_last()[i].0@]
                        == routes_view(s.drop_last()[i].1.accessible_routes@));
                }
            }
        }
    }
}

impl UserDataHolder {
    pub open spec fn view(&self) -> Map<Seq<char>, Seq<RouteView>> {
        ud_entries_map(self.dict@)
    }

    /// No two entries share a key, so a linear scan agrees with the map.
    pub open spec fn wf(&self) -> bool {
        forall|i: int, j: int| 0 <= i < j < self.dict@.len() ==> self.dict@[i].0@ != self.dict@[j].0@
    }

    /// Whether some entry already uses this key.
    fn contains_key(&self, key: &str) -> (r: bool)
        ensures
            r == exists|i: int| 0 <= i < self.dict@.len() && self.dict@[i].0@ == key@,
    {
        let n = self.dict.len();
        for i in 0..n
            invariant
                n == self.dict@.len(),
                forall|k: int| 0 <= k < i ==> self.dict@[k].0@ != key@,
        {
            if str_eq(self.dict[i].0.as_str(), key) {
                return true;
            }
        }
        false
    }

    /// Resolves every known identity once, and the anonymous identity,
    /// before any request is served.
    #[verifier::loop_isolation(false)]
    pub fn from(emails: Vec<String>, routes: &RouteHolder, policies: PolicyHolder) -> (r: Self)
        requires
            policies.wf(),
        ensures
            r.wf(),
            r@ == Map::new(
                |k: Seq<char>| strs_contain(emails@, k),
                |k: Seq<char>| spec_resolve(policies@, routes_view(routes.routes@), k),
            ),
            routes_view(r.public_urls@) == spec_resolve(
                policies@,
                routes_view(routes.routes@),
                Seq::empty(),
            ),
    {
        let mut holder = UserDataHolder { dict: Vec::new(), public_urls: Vec::new() };
        let n = emails.len();
        for i in 0..n
            invariant
                holder.wf(),
                holder.public_urls@.len() == 0,
                holder@ =~= Map::new(
                    |k: Seq<char>| strs_contain(emails@.take(i as int), k),
                    |k: Seq<char>| spec_resolve(policies@, routes_view(routes.routes@), k),
                ),
        {
            let e = &emails[i];
            let present = holder.contains_key(e.as_str());
            proof {
                lemma_ud_entries_map(holder.dict@);
                crate::strutil::lemma_strs_contain_take(emails@, i as int);
            }
            if !present {
                let resolved = routes.can_be_accessed_by(e.as_str(), &policies);
                let ghost d = holder.dict@;
                holder.dict.push((e.clone(), UserData { accessible_routes: resolved }));
                proof {
                    assert(holder.dict@.drop_last() =~= d);
                    assert(holder@ =~= Map::new(
                        |k: Seq<char>| strs_contain(emails@.take(i + 1), k),
                        |k: Seq<char>| spec_resolve(policies@, routes_view(routes.routes@), k),
                    ));
                }
            } else {
                proof {
                    assert(strs_contain(emails@.take(i + 1), emails@[i as int]@));
                    assert(holder@ =~= Map::new(
                        |k: Seq<char>| strs_contain(emails@.take(i + 1), k),
                        |k: Seq<char>| spec_resolve(policies@, routes_view(routes.routes@), k),
                    ));
                }
            }
        }
        proof {
            assert(emails@.take(n as int) =~= emails@);
        }
        let public_urls = routes.can_be_accessed_by("", &policies);
        proof {
            assert(""@ =~= Seq::<char>::empty()) by {
                reveal_strlit("");
            }
        }
        UserDataHolder { dict: holder.dict, public_urls }
    }

    /// The page data for one request: the identity's precomputed list
    /// when it is known, the anonymous list otherwise.
    pub fn get_render(&self, user: &crate::common::CurrentUserData) -> (r:
        crate::rendering::UserDataRender)
        requires
            self.wf(),
        ensures
            r.name@ == user.name@,
            r.email@ == user.email@,
            r.background@ == "background.avif"@,
            routes_view(r.accessible_routes@) == (if self@.contains_key(user.email@) {
                self@[user.email@]
            } else {
                routes_view(self.public_urls@)
            }),
    {
        proof {
            lemma_ud_entries_map(self.dict@);
        }
        let n = self.dict.len();
        #[verifier::loop_isolation(false)]
        for i in 0..n
            invariant
                forall|k: int| 0 <= k < i ==> self.dict@[k].0@ != user.email@,
        {
            if str_eq(self.dict[i].0.as_str(), user.email.as_str()) {
                return crate::rendering::UserDataRender {
                    name: user.name.clone(),
                    email: user.email.clone(),
                    background: crate::consts::background().to_owned(),
                    accessible_routes: copy_routes(&self.dict[i].1.accessible_routes),
                };
            }
        }
        crate::rendering::UserDataRender {
            name: user.name.clone(),
            email: user.email.clone(),
            background: crate::consts::background().to_owned(),
            accessible_routes: copy_routes(&self.public_urls),
        }
    }
}

} // verus!
