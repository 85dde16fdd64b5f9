//! The route tree shown on the personalized page: an ordered forest of
//! destinations, each either a single routed path or a named group of
//! further destinations.
use vstd::prelude::*;

verus! {

/// Default colour of a destination button.
pub fn button_color() -> (r: String)
    ensures
        r@ == "#FEFFE8"@,
{
    "#FEFFE8".to_owned()
}

/// A destination in the configured route tree.
#[derive(Debug)]
pub struct Route {
    pub icon: String,
    pub label: String,
    pub data: RouteData,
    pub button_color: String,
    pub escaped_label: String,
    pub is_group: bool,
}

/// What a destination points at: a routed path, or a group of destinations.
#[derive(Debug)]
pub enum RouteData {
    Path(String),
    Group(Vec<Route>),
}

/// The domain the service answers for.
#[derive(Debug)]
pub struct Domain {
    pub name: String,
}

/// The route-tree configuration: the served domain and the ordered forest
/// of destinations.
#[derive(Debug)]
pub struct Config {
    pub domain: Domain,
    pub routes: Vec<Route>,
}

/// Mathematical image of a `Route`: every string replaced by its
/// character sequence.
#[verifier::ext_equal]
pub struct RouteView {
    pub icon: Seq<char>,
    pub label: Seq<char>,
    pub data: RouteDataView,
    pub button_color: Seq<char>,
    pub escaped_label: Seq<char>,
    pub is_group: bool,
}

/// Mathematical image of `RouteData`.
#[verifier::ext_equal]
pub enum RouteDataView {
    Path(Seq<char>),
    Group(Seq<RouteView>),
}

impl Route {
    pub open spec fn view(&self) -> RouteView
        decreases *self,
    {
        RouteView {
            icon: self.icon@,
            label: self.label@,
            data: match self.data {
                RouteData::Path(p) => RouteDataView::Path(p@),
                RouteData::Group(g) => RouteDataView::Group(routes_view(g@)),
            },
            button_color: self.button_color@,
            escaped_label: self.escaped_label@,
            is_group: self.is_group,
        }
    }
}

/// The views of a sequence of routes, in order.
pub open spec fn routes_view(rs: Seq<Route>) -> Seq<RouteView>
    decreases rs,
{
    if rs.len() == 0 {
        Seq::empty()
    } else {
        seq![rs[0].view()] + routes_view(rs.drop_first())
    }
}

pub proof fn lemma_routes_view(rs: Seq<Route>)
    ensures
        routes_view(rs).len() == rs.len(),
        forall|i: int| 0 <= i < rs.len() ==> routes_view(rs)[i] == rs[i].view(),
    decreases rs,
{
    if rs.len() > 0 {
        lemma_routes_view(rs.drop_first());
    }
}

/// Label characters that may not appear in an HTML identifier, replaced.
pub open spec fn spec_escape(s: Seq<char>) -> Seq<char> {
    s.map_values(|c: char| if c == ' ' || c == '.' { '_' } else { c })
}

/// A copy of `s` with every space and dot replaced by an underscore.
pub fn escape_label(s: &str) -> (r: String)
    ensures
        r@ == spec_escape(s@),
{
    let n = s.unicode_len();
    let mut out = String::new();
    let mut i: usize = 0;
    while i < n
        invariant
            n == s@.len(),
            i <= n,
            out@ == spec_escape(s@.take(i as int)),
        decreases n - i,
    {
        let c = s.get_char(i);
        if c == ' ' || c == '.' {
            out.append("_");
        } else {
            let piece = s.substring_char(i, i + 1);
            out.append(piece);
        }
        proof {
            reveal_strlit("_");
            assert(out@ =~= spec_escape(s@.take(i + 1)));
        }
        i = i + 1;
    }
    proof {
        assert(s@.take(n as int) =~= s@);
    }
    out
}

/// What the startup pass makes of one route: the escaped label and the
/// group flag filled in, children handled the same way.
pub open spec fn spec_fill_route(r: RouteView) -> RouteView
    decreases r,
{
    RouteView {
        escaped_label: spec_escape(r.label),
        is_group: r.data is Group,
        data: match r.data {
            RouteDataView::Path(p) => RouteDataView::Path(p),
            RouteDataView::Group(g) => RouteDataView::Group(spec_fill_routes(g)),
        },
        ..r
    }
}

/// The startup pass over a whole forest of routes.
pub open spec fn spec_fill_routes(rs: Seq<RouteView>) -> Seq<RouteView>
    decreases rs,
{
    if rs.len() == 0 {
        Seq::empty()
    } else {
        seq![spec_fill_route(rs[0])] + spec_fill_routes(rs.drop_first())
    }
}

pub proof fn lemma_fill_routes(rs: Seq<RouteView>)
    ensures
        spec_fill_routes(rs).len() == rs.len(),
        forall|i: int| 0 <= i < rs.len() ==> spec_fill_routes(rs)[i] == spec_fill_route(rs[i]),
    decreases rs,
{
    if rs.len() > 0 {
        lemma_fill_routes(rs.drop_first());
    }
}

/// One route after the startup pass: label escaped, group flag set,
/// children filled in recursively; every other field kept.
pub fn fill_route(r: &Route) -> (res: Route)
    ensures
        res.view() == spec_fill_route(r.view()),
    decreases *r, 0int,
{
    let escaped = escape_label(r.label.as_str());
    match &r.data {
        RouteData::Path(p) => Route {
            icon: r.icon.clone(),
            label: r.label.clone(),
            data: RouteData::Path(p.clone()),
            button_color: r.button_color.clone(),
            escaped_label: escaped,
            is_group: false,
        },
        RouteData::Group(g) => Route {
            icon: r.icon.clone(),
            label: r.label.clone(),
            data: RouteData::Group(fill_in_internals(g)),
            button_color: r.button_color.clone(),
            escaped_label: escaped,
            is_group: true,
        },
    }
}

/// The pass the loader runs once over the configured route forest before
/// any request is served.
pub fn fill_in_internals(routes: &Vec<Route>) -> (res: Vec<Route>)
    ensures
        routes_view(res@) == spec_fill_routes(routes_view(routes@)),
    decreases routes@, 1int,
{
    let mut out: Vec<Route> = Vec::new();
    let n = routes.len();
    for i in 0..n
        invariant
            n == routes@.len(),
            out@.len() == i,
            forall|j: int| #![auto] 0 <= j < i ==> out@[j].view() == spec_fill_route(
                routes@[j].view(),
            ),
    {
        let filled = fill_route(&routes[i]);
        out.push(filled);
    }
    proof {
        lemma_routes_view(out@);
        lemma_routes_view(routes@);
        lemma_fill_routes(routes_view(routes@));
        assert(routes_view(out@) =~= spec_fill_routes(routes_view(routes@)));
    }
    out
}

} // verus!
