//! Three-valued policy logic. A rule evaluates to passed, not passed, or
//! empty ("no rule configured"), so that an absent combinator can stay
//! neutral when results are merged.
use vstd::prelude::*;

use super::ActionCriteria;
use crate::pomerium::matchers::MatcherView;
use crate::pomerium::matchers::spec_match;
use crate::strutil::strs_contain;

verus! {

/// Outcome of evaluating a policy rule against an identity.
#[derive(Clone, Copy, Debug, PartialEq, Eq, Structural)]
pub enum PolicyCheckerResult {
    Passed,
    NotPassed,
    Empty,
}

impl PolicyCheckerResult {
    /// Priority merge: a definite pass on either side dominates, then a
    /// definite failure; `Empty` only survives when both sides are empty.
    pub open spec fn spec_add(self, rhs: Self) -> Self {
        match (self, rhs) {
            (PolicyCheckerResult::Passed, _) => PolicyCheckerResult::Passed,
            (_, PolicyCheckerResult::Passed) => PolicyCheckerResult::Passed,
            (PolicyCheckerResult::NotPassed, _) => PolicyCheckerResult::NotPassed,
            (_, PolicyCheckerResult::NotPassed) => PolicyCheckerResult::NotPassed,
            (PolicyCheckerResult::Empty, PolicyCheckerResult::Empty) => PolicyCheckerResult::Empty,
        }
    }

    pub fn add(self, rhs: Self) -> (r: Self)
        ensures
            r == self.spec_add(rhs),
    {
        match (self, rhs) {
            (PolicyCheckerResult::Passed, _) => PolicyCheckerResult::Passed,
            (_, PolicyCheckerResult::Passed) => PolicyCheckerResult::Passed,
            (PolicyCheckerResult::NotPassed, _) => PolicyCheckerResult::NotPassed,
            (_, PolicyCheckerResult::NotPassed) => PolicyCheckerResult::NotPassed,
            (PolicyCheckerResult::Empty, PolicyCheckerResult::Empty) => PolicyCheckerResult::Empty,
        }
    }

    /// Logical inversion; an empty result stays empty.
    pub open spec fn spec_not(self) -> Self {
        match self {
            PolicyCheckerResult::Passed => PolicyCheckerResult::NotPassed,
            PolicyCheckerResult::NotPassed => PolicyCheckerResult::Passed,
            PolicyCheckerResult::Empty => PolicyCheckerResult::Empty,
        }
    }

    pub fn not(self) -> (r: Self)
        ensures
            r == self.spec_not(),
    {
        match self {
            PolicyCheckerResult::Passed => PolicyCheckerResult::NotPassed,
            PolicyCheckerResult::NotPassed => PolicyCheckerResult::Passed,
            PolicyCheckerResult::Empty => PolicyCheckerResult::Empty,
        }
    }

    /// The definite result that stands for a plain boolean.
    pub open spec fn spec_from_bool(value: bool) -> Self {
        if value {
            PolicyCheckerResult::Passed
        } else {
            PolicyCheckerResult::NotPassed
        }
    }

    /// The boolean a definite result stands for; an empty result has none.
    pub fn try_into(self) -> (r: Result<bool, ()>)
        ensures
            r == (match self {
                PolicyCheckerResult::Passed => Result::<bool, ()>::Ok(true),
                PolicyCheckerResult::NotPassed => Result::<bool, ()>::Ok(false),
                PolicyCheckerResult::Empty => Result::<bool, ()>::Err(()),
            }),
    {
        match self {
            PolicyCheckerResult::Passed => Ok(true),
            PolicyCheckerResult::NotPassed => Ok(false),
            PolicyCheckerResult::Empty => Err(()),
        }
    }

    pub fn to_string(&self) -> (r: String)
        ensures
            r@ == (match self {
                PolicyCheckerResult::Passed => "passed"@,
                PolicyCheckerResult::NotPassed => "not passed"@,
                PolicyCheckerResult::Empty => "empty"@,
            }),
    {
        match self {
            PolicyCheckerResult::Passed => "passed".to_owned(),
            PolicyCheckerResult::NotPassed => "not passed".to_owned(),
            PolicyCheckerResult::Empty => "empty".to_owned(),
        }
    }
}

impl core::convert::From<bool> for PolicyCheckerResult {
    fn from(value: bool) -> Self {
        if value {
            PolicyCheckerResult::Passed
        } else {
            PolicyCheckerResult::NotPassed
        }
    }
}

impl vstd::std_specs::convert::FromSpecImpl<bool> for PolicyCheckerResult {
    open spec fn obeys_from_spec() -> bool {
        true
    }

    open spec fn from_spec(v: bool) -> Self {
        PolicyCheckerResult::spec_from_bool(v)
    }
}

/// Anything that can judge an identity: the specification result is a pure
/// function of the identity's characters, and the executable check returns
/// exactly it.
pub trait PolicyChecker {
    spec fn spec_check(&self, email: Seq<char>) -> PolicyCheckerResult;

    fn check_authorized(&self, email: &str) -> (r: PolicyCheckerResult)
        ensures
            r == self.spec_check(email@),
    ;
}

/// Mathematical image of a criterion.
#[verifier::ext_equal]
pub enum CriterionView {
    User(MatcherView),
    Email(MatcherView),
    Accept,
}

/// Mathematical image of a rule's four criterion lists.
#[verifier::ext_equal]
pub struct OperatorView {
    pub or: Seq<CriterionView>,
    pub and: Seq<CriterionView>,
    pub not: Seq<CriterionView>,
    pub nor: Seq<CriterionView>,
}

/// Mathematical image of an allow/deny pair.
#[verifier::ext_equal]
pub struct ActionView {
    pub allow: OperatorView,
    pub deny: OperatorView,
}

/// The result a single criterion yields; never `Empty`.
pub open spec fn spec_crit_check(c: CriterionView, email: Seq<char>) -> PolicyCheckerResult {
    match c {
        CriterionView::User(m) => PolicyCheckerResult::spec_from_bool(spec_match(m, email)),
        CriterionView::Email(m) => PolicyCheckerResult::spec_from_bool(spec_match(m, email)),
        CriterionView::Accept => PolicyCheckerResult::Passed,
    }
}

/// A single criterion forced to a boolean, with optional inversion.
pub open spec fn spec_crit_bool(c: CriterionView, email: Seq<char>, inverted: bool) -> bool {
    (spec_crit_check(c, email) is Passed) != inverted
}

/// The views of a sequence of criteria.
pub open spec fn crits_view(l: Seq<ActionCriteria>) -> Seq<CriterionView> {
    l.map_values(|c: ActionCriteria| c.view())
}

/// Empty list: `Empty`; otherwise pass iff any (possibly inverted)
/// criterion passes.
pub open spec fn spec_any_passes(l: Seq<CriterionView>, email: Seq<char>, inverted: bool) -> PolicyCheckerResult {
    if l.len() == 0 {
        PolicyCheckerResult::Empty
    } else {
        PolicyCheckerResult::spec_from_bool(
            exists|i: int| 0 <= i < l.len() && spec_crit_bool(l[i], email, inverted),
        )
    }
}

/// Empty list: `Empty`; otherwise pass iff all (possibly inverted)
/// criteria pass.
pub open spec fn spec_all_pass(l: Seq<CriterionView>, email: Seq<char>, inverted: bool) -> PolicyCheckerResult {
    if l.len() == 0 {
        PolicyCheckerResult::Empty
    } else {
        PolicyCheckerResult::spec_from_bool(
            forall|i: int| 0 <= i < l.len() ==> spec_crit_bool(l[i], email, inverted),
        )
    }
}

// The `inverted` flag of the boolean checks: the second operand of an
// exclusive or, so `NOT_PASSES` flips the criterion's own result.
const PASSES: bool = false;

const NOT_PASSES: bool = true;

/// One criterion forced to a boolean, with optional inversion.
pub fn check_into_bool(c: &ActionCriteria, email: &str, inverted: bool) -> (r: bool)
    ensures
        r == spec_crit_bool(c.view(), email@, inverted),
{
    let res = c.check_authorized(email);
    let passed = match res {
        PolicyCheckerResult::Passed => true,
        PolicyCheckerResult::NotPassed => false,
        PolicyCheckerResult::Empty => false,
    };
    passed != inverted
}

/// Empty list: `Empty`; otherwise whether any criterion passes.
pub fn any_passes(crit_vec: &Vec<ActionCriteria>, email: &str, inverted: bool) -> (r: PolicyCheckerResult)
    ensures
        r == spec_any_passes(crits_view(crit_vec@), email@, inverted),
{
    if crit_vec.len() == 0 {
        return PolicyCheckerResult::Empty;
    }
    let n = crit_vec.len();
    for i in 0..n
        invariant
            n == crit_vec@.len(),
            forall|k: int| 0 <= k < i ==> !spec_crit_bool(crits_view(crit_vec@)[k], email@, inverted),
    {
        if check_into_bool(&crit_vec[i], email, inverted) {
            assert(spec_crit_bool(crits_view(crit_vec@)[i as int], email@, inverted));
            return PolicyCheckerResult::Passed;
        }
    }
    PolicyCheckerResult::NotPassed
}

/// Empty list: `Empty`; otherwise whether all criteria pass.
pub fn all_pass(crit_vec: &Vec<ActionCriteria>, email: &str, inverted: bool) -> (r: PolicyCheckerResult)
    ensures
        r == spec_all_pass(crits_view(crit_vec@), email@, inverted),
{
    if crit_vec.len() == 0 {
        return PolicyCheckerResult::Empty;
    }
    let n = crit_vec.len();
    for i in 0..n
        invariant
            n == crit_vec@.len(),
            forall|k: int| 0 <= k < i ==> spec_crit_bool(crits_view(crit_vec@)[k], email@, inverted),
    {
        if !check_into_bool(&crit_vec[i], email, inverted) {
            assert(!spec_crit_bool(crits_view(crit_vec@)[i as int], email@, inverted));
            return PolicyCheckerResult::NotPassed;
        }
    }
    PolicyCheckerResult::Passed
}

/// Criteria listed under `or`: pass iff any criterion matches.
#[derive(Debug)]
pub struct OrPolicy(pub Vec<ActionCriteria>);

/// Criteria listed under `nor`: pass iff any criterion does not match.
#[derive(Debug)]
pub struct NorPolicy(pub Vec<ActionCriteria>);

/// Criteria listed under `and`: pass iff all criteria match.
#[derive(Debug)]
pub struct AndPolicy(pub Vec<ActionCriteria>);

/// Criteria listed under `not`: pass iff no criterion matches.
#[derive(Debug)]
pub struct NotPolicy(pub Vec<ActionCriteria>);

impl PolicyChecker for OrPolicy {
    open spec fn spec_check(&self, email: Seq<char>) -> PolicyCheckerResult {
        spec_any_passes(crits_view(self.0@), email, false)
    }

    fn check_authorized(&self, email: &str) -> (r: PolicyCheckerResult) {
        any_passes(&self.0, email, PASSES)
    }
}

impl PolicyChecker for NorPolicy {
    open spec fn spec_check(&self, email: Seq<char>) -> PolicyCheckerResult {
        spec_any_passes(crits_view(self.0@), email, true)
    }

    fn check_authorized(&self, email: &str) -> (r: PolicyCheckerResult) {
        any_passes(&self.0, email, NOT_PASSES)
    }
}

impl PolicyChecker for AndPolicy {
    open spec fn spec_check(&self, email: Seq<char>) -> PolicyCheckerResult {
        spec_all_pass(crits_view(self.0@), email, false)
    }

    fn check_authorized(&self, email: &str) -> (r: PolicyCheckerResult) {
        all_pass(&self.0, email, PASSES)
    }
}

impl PolicyChecker for NotPolicy {
    open spec fn spec_check(&self, email: Seq<char>) -> PolicyCheckerResult {
        spec_all_pass(crits_view(self.0@), email, true)
    }

    fn check_authorized(&self, email: &str) -> (r: PolicyCheckerResult) {
        all_pass(&self.0, email, NOT_PASSES)
    }
}

impl OrPolicy {
    pub fn extract_emails(&self, hash_set: &mut Vec<String>)
        ensures
            forall|e: Seq<char>|
                strs_contain(final(hash_set)@, e) <==> strs_contain(old(hash_set)@, e)
                    || crits_emails(crits_view(self.0@)).contains(e),
    {
        extract_crit_emails(&self.0, hash_set)
    }
}

impl NorPolicy {
    pub fn extract_emails(&self, hash_set: &mut Vec<String>)
        ensures
            forall|e: Seq<char>|
                strs_contain(final(hash_set)@, e) <==> strs_contain(old(hash_set)@, e)
                    || crits_emails(crits_view(self.0@)).contains(e),
    {
        extract_crit_emails(&self.0, hash_set)
    }
}

impl AndPolicy {
    pub fn extract_emails(&self, hash_set: &mut Vec<String>)
        ensures
            forall|e: Seq<char>|
                strs_contain(final(hash_set)@, e) <==> strs_contain(old(hash_set)@, e)
                    || crits_emails(crits_view(self.0@)).contains(e),
    {
        extract_crit_emails(&self.0, hash_set)
    }
}

impl NotPolicy {
    pub fn extract_emails(&self, hash_set: &mut Vec<String>)
        ensures
            forall|e: Seq<char>|
                strs_contain(final(hash_set)@, e) <==> strs_contain(old(hash_set)@, e)
                    || crits_emails(crits_view(self.0@)).contains(e),
    {
        extract_crit_emails(&self.0, hash_set)
    }
}

/// All string literals mentioned by a list of criteria.
pub open spec fn crits_emails(l: Seq<CriterionView>) -> Set<Seq<char>>
    decreases l,
{
    if l.len() == 0 {
        Set::empty()
    } else {
        super::crit_emails(l[0]) + crits_emails(l.drop_first())
    }
}

/// Collects the literals of every criterion in the list into the set.
fn extract_crit_emails(crit_vec: &Vec<ActionCriteria>, hash_set: &mut Vec<String>)
    ensures
        forall|e: Seq<char>|
            strs_contain(final(hash_set)@, e) <==> strs_contain(old(hash_set)@, e)
                || crits_emails(crits_view(crit_vec@)).contains(e),
{
    let n = crit_vec.len();
    for i in 0..n
        invariant
            n == crit_vec@.len(),
            forall|e: Seq<char>|
                strs_contain(hash_set@, e) <==> strs_contain(old(hash_set)@, e)
                    || crits_emails(crits_view(crit_vec@).take(i as int)).contains(e),
    {
        crit_vec[i].extract_emails(hash_set);
        proof {
            lemma_crits_emails_take(crits_view(crit_vec@), i + 1);
        }
    }
    proof {
        assert(crits_view(crit_vec@).take(n as int) =~= crits_view(crit_vec@));
    }
}

proof fn lemma_crits_emails_take(l: Seq<CriterionView>, i: int)
    requires
        0 < i <= l.len(),
    ensures
        crits_emails(l.take(i)) =~= crits_emails(l.take(i - 1)) + super::crit_emails(l[i - 1]),
    decreases i,
{
    if i == 1 {
        assert(l.take(1).drop_first() =~= Seq::empty());
        assert(l.take(0) =~= Seq::empty());
        assert(crits_emails(l.take(1)) =~= super::crit_emails(l[0]) + crits_emails(Seq::empty()));
    } else {
        lemma_crits_emails_take(l.drop_first(), i - 1);
        assert(l.take(i).drop_first() =~= l.drop_first().take(i - 1));
        assert(l.take(i - 1).drop_first() =~= l.drop_first().take(i - 2));
    }
}

/// The four criterion lists merged by the priority rule: `or` and `and`
/// judged directly, `not` and `nor` with each criterion inverted.
pub open spec fn spec_operator_check(o: OperatorView, email: Seq<char>) -> PolicyCheckerResult {
    spec_any_passes(o.or, email, false).spec_add(spec_all_pass(o.and, email, false)).spec_add(
        spec_all_pass(o.not, email, true),
    ).spec_add(spec_any_passes(o.nor, email, true))
}

/// The allow rule merged with the inverted deny rule.
pub open spec fn spec_action_check(a: ActionView, email: Seq<char>) -> PolicyCheckerResult {
    spec_operator_check(a.allow, email).spec_add(spec_operator_check(a.deny, email).spec_not())
}

/// An action grants access unless its result is a definite failure; an
/// empty result counts as permissive at this level.
pub open spec fn spec_action_permissive(a: ActionView, email: Seq<char>) -> bool {
    !(spec_action_check(a, email) is NotPassed)
}

/// An empty action list denies everyone; otherwise access is granted when
/// any action is permissive.
pub open spec fn spec_policy_check(actions: Seq<ActionView>, email: Seq<char>) -> bool {
    actions.len() > 0 && exists|i: int|
        0 <= i < actions.len() && spec_action_permissive(actions[i], email)
}

/// All literals mentioned under the operator's four lists.
pub open spec fn operator_emails(o: OperatorView) -> Set<Seq<char>> {
    crits_emails(o.or) + crits_emails(o.and) + crits_emails(o.not) + crits_emails(o.nor)
}

/// All literals mentioned by the allow or the deny rule.
pub open spec fn action_emails(a: ActionView) -> Set<Seq<char>> {
    operator_emails(a.allow) + operator_emails(a.deny)
}

/// All literals mentioned anywhere in a policy.
pub open spec fn policy_emails(p: Seq<ActionView>) -> Set<Seq<char>>
    decreases p,
{
    if p.len() == 0 {
        Set::empty()
    } else {
        action_emails(p[0]) + policy_emails(p.drop_first())
    }
}

pub proof fn lemma_policy_emails_take(p: Seq<ActionView>, i: int)
    requires
        0 < i <= p.len(),
    ensures
        policy_emails(p.take(i)) =~= policy_emails(p.take(i - 1)) + action_emails(p[i - 1]),
    decreases i,
{
    if i == 1 {
        assert(p.take(1).drop_first() =~= Seq::empty());
        assert(p.take(0) =~= Seq::empty());
        assert(policy_emails(p.take(1)) =~= action_emails(p[0]) + policy_emails(Seq::empty()));
    } else {
        lemma_policy_emails_take(p.drop_first(), i - 1);
        assert(p.take(i).drop_first() =~= p.drop_first().take(i - 1));
        assert(p.take(i - 1).drop_first() =~= p.drop_first().take(i - 2));
    }
}

/// A policy with an empty action list denies every identity.
pub proof fn lemma_empty_policy_denies(email: Seq<char>)
    ensures
        !spec_policy_check(Seq::empty(), email),
{
}

/// A single-criterion list behaves as the criterion itself: `or` and
/// `and` agree with its own result, `not` and `nor` with its inverse.
pub proof fn lemma_singleton_combinators(c: CriterionView, email: Seq<char>)
    ensures
        spec_any_passes(seq![c], email, false) == PolicyCheckerResult::spec_from_bool(
            spec_crit_bool(c, email, false),
        ),
        spec_all_pass(seq![c], email, false) == PolicyCheckerResult::spec_from_bool(
            spec_crit_bool(c, email, false),
        ),
        spec_any_passes(seq![c], email, true) == PolicyCheckerResult::spec_from_bool(
            !spec_crit_bool(c, email, false),
        ),
        spec_all_pass(seq![c], email, true) == PolicyCheckerResult::spec_from_bool(
            !spec_crit_bool(c, email, false),
        ),
{
    let l = seq![c];
    assert(l[0] == c);
    if spec_crit_bool(c, email, false) {
        assert(spec_crit_bool(l[0], email, false));
    }
    if spec_crit_bool(c, email, true) {
        assert(spec_crit_bool(l[0], email, true));
    }
    if exists|i: int| 0 <= i < l.len() && spec_crit_bool(l[i], email, false) {
        let i = choose|i: int| 0 <= i < l.len() && spec_crit_bool(l[i], email, false);
        assert(i == 0);
    }
    if exists|i: int| 0 <= i < l.len() && spec_crit_bool(l[i], email, true) {
        let i = choose|i: int| 0 <= i < l.len() && spec_crit_bool(l[i], email, true);
        assert(i == 0);
    }
    assert(spec_crit_bool(c, email, true) == !spec_crit_bool(c, email, false));
}

impl PolicyChecker for super::ActionCriteria {
    open spec fn spec_check(&self, email: Seq<char>) -> PolicyCheckerResult {
        spec_crit_check(self.view(), email)
    }

    fn check_authorized(&self, email_in: &str) -> (r: PolicyCheckerResult) {
        match self {
            super::ActionCriteria::User { user } => user.check_authorized(email_in),
            super::ActionCriteria::Email { email } => email.check_authorized(email_in),
            super::ActionCriteria::Accept => PolicyCheckerResult::Passed,
        }
    }
}

impl PolicyChecker for super::ActionOperator {
    open spec fn spec_check(&self, email: Seq<char>) -> PolicyCheckerResult {
        spec_operator_check(self.view(), email)
    }

    fn check_authorized(&self, email: &str) -> (r: PolicyCheckerResult) {
        let or_pol = self.or.check_authorized(email);
        let and_pol = self.and.check_authorized(email);
        let not_pol = self.not.check_authorized(email);
        let nor_pol = self.nor.check_authorized(email);

        or_pol.add(and_pol).add(not_pol).add(nor_pol)
    }
}

impl PolicyChecker for super::PolicyAction {
    open spec fn spec_check(&self, email: Seq<char>) -> PolicyCheckerResult {
        spec_action_check(self.view(), email)
    }

    fn check_authorized(&self, email: &str) -> (r: PolicyCheckerResult) {
        let allowed = self.allow.check_authorized(email);
        let denied = self.deny.check_authorized(email);

        allowed.add(denied.not())
    }
}

} // verus!
