//! The access-policy document: routes with their allow/deny rules, the
//! public-access override, and the collection of every identity the
//! document mentions.
use vstd::prelude::*;

pub mod matchers;
pub mod policy;

use matchers::MatcherView;
use matchers::matcher_emails;
use policy::ActionView;
use policy::CriterionView;
use policy::OperatorView;
use policy::PolicyChecker;
use policy::crits_emails;
use policy::crits_view;
use policy::spec_action_permissive;
use policy::spec_policy_check;
use policy::AndPolicy;
use policy::NorPolicy;
use policy::NotPolicy;
use policy::OrPolicy;
use crate::strutil::strs_contain;

verus! {

/// The whole policy document: one entry per upstream route.
#[derive(Debug)]
pub struct Config {
    pub routes: Vec<Route>,
}

/// One route of the policy document.
#[derive(Debug)]
pub struct Route {
    pub from: String,
    pub prefix: String,
    pub path: String,
    pub allow_public_unauthenticated_access: bool,
    pub policy: Policy,
}

/// Mathematical image of a policy-document route.
#[verifier::ext_equal]
pub struct RouteView {
    pub from: Seq<char>,
    pub prefix: Seq<char>,
    pub path: Seq<char>,
    pub allow_public_unauthenticated_access: bool,
    pub policy: Seq<ActionView>,
}

impl Route {
    pub open spec fn view(&self) -> RouteView {
        RouteView {
            from: self.from@,
            prefix: self.prefix@,
            path: self.path@,
            allow_public_unauthenticated_access: self.allow_public_unauthenticated_access,
            policy: self.policy@,
        }
    }
}

/// The views of a sequence of policy-document routes.
pub open spec fn policy_routes_view(rs: Seq<Route>) -> Seq<RouteView> {
    rs.map_values(|r: Route| r.view())
}

/// An ordered list of actions; access is granted when any action is
/// permissive, and an empty list denies everyone.
#[derive(Debug)]
pub struct Policy(pub Vec<PolicyAction>);

impl View for Policy {
    type V = Seq<ActionView>;

    open spec fn view(&self) -> Seq<ActionView> {
        self.0@.map_values(|a: PolicyAction| a.view())
    }
}

/// An allow rule paired with a deny rule.
#[derive(Debug)]
pub struct PolicyAction {
    pub allow: ActionOperator,
    pub deny: ActionOperator,
}

impl PolicyAction {
    pub open spec fn view(&self) -> ActionView {
        ActionView { allow: self.allow.view(), deny: self.deny.view() }
    }

    pub fn extract_emails(&self, hash_set: &mut Vec<String>)
        ensures
            forall|e: Seq<char>|
                strs_contain(final(hash_set)@, e) <==> strs_contain(old(hash_set)@, e)
                    || policy::action_emails(self.view()).contains(e),
    {
        self.allow.extract_emails(hash_set);
        self.deny.extract_emails(hash_set);
    }
}

/// The four criterion lists a rule may carry.
#[derive(Debug)]
pub struct ActionOperator {
    pub or: OrPolicy,
    pub and: AndPolicy,
    pub not: NotPolicy,
    pub nor: NorPolicy,
}

impl ActionOperator {
    pub open spec fn view(&self) -> OperatorView {
        OperatorView {
            or: crits_view(self.or.0@),
            and: crits_view(self.and.0@),
            not: crits_view(self.not.0@),
            nor: crits_view(self.nor.0@),
        }
    }

    /// An operator that accepts every identity.
    pub fn any() -> (r: ActionOperator)
        ensures
            r.view() == spec_any_operator(),
    {
        let mut or_vec: Vec<ActionCriteria> = Vec::new();
        or_vec.push(ActionCriteria::Accept);
        let r = ActionOperator {
            or: OrPolicy(or_vec),
            and: AndPolicy(Vec::new()),
            not: NotPolicy(Vec::new()),
            nor: NorPolicy(Vec::new()),
        };
        proof {
            assert(r.view() =~~= spec_any_operator());
        }
        r
    }

    /// An operator with no rule configured at all.
    pub fn empty() -> (r: ActionOperator)
        ensures
            r.view() == spec_empty_operator(),
    {
        let r = ActionOperator {
            or: OrPolicy(Vec::new()),
            and: AndPolicy(Vec::new()),
            not: NotPolicy(Vec::new()),
            nor: NorPolicy(Vec::new()),
        };
        proof {
            assert(r.view() =~~= spec_empty_operator());
        }
        r
    }

    pub fn extract_emails(&self, hash_set: &mut Vec<String>)
        ensures
            forall|e: Seq<char>|
                strs_contain(final(hash_set)@, e) <==> strs_contain(old(hash_set)@, e)
                    || policy::operator_emails(self.view()).contains(e),
    {
        self.or.extract_emails(hash_set);
        self.and.extract_emails(hash_set);
        self.not.extract_emails(hash_set);
        self.nor.extract_emails(hash_set);
    }
}

/// The operator holding one `accept` criterion under `or`.
pub open spec fn spec_any_operator() -> OperatorView {
    OperatorView {
        or: seq![CriterionView::Accept],
        and: Seq::empty(),
        not: Seq::empty(),
        nor: Seq::empty(),
    }
}

/// The operator with all four lists empty.
pub open spec fn spec_empty_operator() -> OperatorView {
    OperatorView { or: Seq::empty(), and: Seq::empty(), not: Seq::empty(), nor: Seq::empty() }
}

/// The policy that grants access to everyone: a single action whose allow
/// rule accepts unconditionally and whose deny rule is empty.
pub open spec fn spec_allow_all() -> Seq<ActionView> {
    seq![ActionView { allow: spec_any_operator(), deny: spec_empty_operator() }]
}

/// When all four combinators are empty, a rule evaluates to `Empty`; an
/// action whose allow and deny rules are both empty is `Empty` as well,
/// and a policy holding only that action treats it as permissive.
pub proof fn lemma_empty_combinators_neutral(email: Seq<char>)
    ensures
        policy::spec_operator_check(spec_empty_operator(), email)
            == policy::PolicyCheckerResult::Empty,
        policy::spec_action_check(
            ActionView { allow: spec_empty_operator(), deny: spec_empty_operator() },
            email,
        ) == policy::PolicyCheckerResult::Empty,
        spec_policy_check(
            seq![ActionView { allow: spec_empty_operator(), deny: spec_empty_operator() }],
            email,
        ),
{
    let a = ActionView { allow: spec_empty_operator(), deny: spec_empty_operator() };
    assert(seq![a][0] == a);
    assert(spec_action_permissive(seq![a][0], email));
}

/// The always-allow policy grants access to every identity.
pub proof fn lemma_allow_all_passes(email: Seq<char>)
    ensures
        spec_policy_check(spec_allow_all(), email),
{
    let o = spec_any_operator();
    assert(o.or[0] == CriterionView::Accept);
    assert(policy::spec_crit_bool(o.or[0], email, false));
    assert(policy::spec_any_passes(o.or, email, false) == policy::PolicyCheckerResult::Passed);
    assert(policy::spec_operator_check(o, email) == policy::PolicyCheckerResult::Passed);
    assert(spec_allow_all()[0] == ActionView { allow: o, deny: spec_empty_operator() });
    assert(spec_action_permissive(spec_allow_all()[0], email));
}

/// A criterion judges the user field, the email field, or accepts
/// unconditionally. Both fields are sourced from the identity's email.
#[derive(Debug)]
pub enum ActionCriteria {
    User { user: matchers::String },
    Email { email: matchers::String },
    Accept,
}

impl ActionCriteria {
    pub open spec fn view(&self) -> CriterionView {
        match self {
            ActionCriteria::User { user } => CriterionView::User(user.view()),
            ActionCriteria::Email { email } => CriterionView::Email(email.view()),
            ActionCriteria::Accept => CriterionView::Accept,
        }
    }

    pub fn extract_emails(&self, hash_set: &mut Vec<String>)
        ensures
            forall|e: Seq<char>|
                strs_contain(final(hash_set)@, e) <==> strs_contain(old(hash_set)@, e)
                    || crit_emails(self.view()).contains(e),
    {
        match self {
            ActionCriteria::User { user } => user.extract_emails(hash_set),
            ActionCriteria::Email { email } => email.extract_emails(hash_set),
            ActionCriteria::Accept => {},
        }
    }
}

/// The literals a single criterion mentions.
pub open spec fn crit_emails(c: CriterionView) -> Set<Seq<char>> {
    match c {
        CriterionView::User(m) => matcher_emails(m),
        CriterionView::Email(m) => matcher_emails(m),
        CriterionView::Accept => Set::empty(),
    }
}

impl Policy {
    /// The always-allow policy that replaces the configured one on routes
    /// marked publicly accessible.
    pub fn allow_all() -> (r: Policy)
        ensures
            r@ == spec_allow_all(),
    {
        let mut actions: Vec<PolicyAction> = Vec::new();
        actions.push(PolicyAction { allow: ActionOperator::any(), deny: ActionOperator::empty() });
        let r = Policy(actions);
        proof {
            assert(r@ =~~= spec_allow_all());
        }
        r
    }

    pub fn extract_emails(&self, hash_set: &mut Vec<String>)
        ensures
            forall|e: Seq<char>|
                strs_contain(final(hash_set)@, e) <==> strs_contain(old(hash_set)@, e)
                    || policy::policy_emails(self@).contains(e),
    {
        let n = self.0.len();
        for i in 0..n
            invariant
                n == self.0@.len(),
                forall|e: Seq<char>|
                    strs_contain(hash_set@, e) <==> strs_contain(old(hash_set)@, e)
                        || policy::policy_emails(self@.take(i as int)).contains(e),
        {
            proof {
                assert(self@[i as int] == self.0@[i as int].view());
            }
            self.0[i].extract_emails(hash_set);
            proof {
                policy::lemma_policy_emails_take(self@, i + 1);
            }
        }
        proof {
            assert(self@.take(n as int) =~= self@);
        }
    }

    /// Whether the policy grants access to the given identity: false for an
    /// empty action list, else true when any action is permissive.
    pub fn check_authorized(&self, email: &str) -> (r: bool)
        ensures
            r == spec_policy_check(self@, email@),
    {
        if self.0.len() == 0 {
            return false;
        }
        let n = self.0.len();
        for i in 0..n
            invariant
                n == self.0@.len(),
                n > 0,
                forall|k: int| 0 <= k < i ==> !spec_action_permissive(self@[k], email@),
        {
            let res = self.0[i].check_authorized(email);
            let permissive = match res {
                policy::PolicyCheckerResult::NotPassed => false,
                _ => true,
            };
            if permissive {
                assert(spec_action_permissive(self@[i as int], email@));
                return true;
            }
            proof {
                assert(self@[i as int] == self.0@[i as int].view());
            }
        }
        false
    }
}

/// All identity literals mentioned anywhere in the policy document: these
/// are the known identities.
pub open spec fn routes_emails(rs: Seq<RouteView>) -> Set<Seq<char>>
    decreases rs,
{
    if rs.len() == 0 {
        Set::empty()
    } else {
        policy::policy_emails(rs[0].policy) + routes_emails(rs.drop_first())
    }
}

pub proof fn lemma_routes_emails_take(rs: Seq<RouteView>, i: int)
    requires
        0 < i <= rs.len(),
    ensures
        routes_emails(rs.take(i)) =~= routes_emails(rs.take(i - 1)) + policy::policy_emails(
            rs[i - 1].policy,
        ),
    decreases i,
{
    if i == 1 {
        assert(rs.take(1).drop_first() =~= Seq::empty());
        assert(rs.take(0) =~= Seq::empty());
        assert(routes_emails(rs.take(1)) =~= policy::policy_emails(rs[0].policy) + routes_emails(
            Seq::empty(),
        ));
    } else {
        lemma_routes_emails_take(rs.drop_first(), i - 1);
        assert(rs.take(i).drop_first() =~= rs.drop_first().take(i - 1));
        assert(rs.take(i - 1).drop_first() =~= rs.drop_first().take(i - 2));
    }
}

/// What the load-time override makes of one route: a route marked publicly
/// accessible has its policy replaced with the always-allow policy.
pub open spec fn spec_apply_route(r: RouteView) -> RouteView {
    if r.allow_public_unauthenticated_access {
        RouteView { policy: spec_allow_all(), ..r }
    } else {
        r
    }
}

/// Applies the public-access override to every route of the document,
/// before any evaluation runs.
pub fn apply_modifications(conf: &mut Config)
    ensures
        policy_routes_view(final(conf).routes@) == policy_routes_view(old(conf).routes@)
            .map_values(|r: RouteView| spec_apply_route(r)),
{
    let ghost orig = conf.routes@;
    let mut tmp: Vec<Route> = Vec::new();
    core::mem::swap(&mut conf.routes, &mut tmp);
    let n = tmp.len();
    for i in 0..n
        invariant
            n == tmp@.len() + i,
            orig.len() == n,
            tmp@ == orig.skip(i as int),
            conf.routes@.len() == i,
            forall|j: int| #![auto] 0 <= j < i ==> conf.routes@[j].view() == spec_apply_route(
                orig[j].view(),
            ),
    {
        let r = tmp.remove(0);
        proof {
            assert(r == orig[i as int]);
            assert(tmp@ =~= orig.skip(i + 1));
        }
        if r.allow_public_unauthenticated_access {
            let r2 = Route { policy: Policy::allow_all(), ..r };
            proof {
                assert(r2.view() =~~= spec_apply_route(orig[i as int].view()));
            }
            conf.routes.push(r2);
        } else {
            proof {
                assert(r.view() =~~= spec_apply_route(orig[i as int].view()));
            }
            conf.routes.push(r);
        }
    }
    proof {
        assert(policy_routes_view(conf.routes@) =~= policy_routes_view(orig).map_values(
            |r: RouteView| spec_apply_route(r),
        ));
    }
}

} // verus!
