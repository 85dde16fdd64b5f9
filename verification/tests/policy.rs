use hallway::pomerium::matchers;
use hallway::pomerium::policy::PolicyChecker;
use hallway::pomerium::policy::PolicyCheckerResult;
use hallway::pomerium::policy::{AndPolicy, NorPolicy, NotPolicy, OrPolicy};
use hallway::pomerium::{ActionCriteria, ActionOperator, Policy, PolicyAction};
use PolicyCheckerResult::{Empty, NotPassed, Passed};

fn matcher_is(s: &str) -> matchers::String {
    matchers::String {
        is: Some(s.to_string()),
        starts_with: None,
        ends_with: None,
        contains: None,
    }
}

fn email_crit(s: &str) -> ActionCriteria {
    ActionCriteria::Email { email: matcher_is(s) }
}

#[test]
fn no_policy_restricts_user() {
    let policy = Policy(vec![]);
    assert_eq!(policy.check_authorized("myemail@place.com"), false);
}

#[test]
fn empty_policy_denies_everyone() {
    let policy = Policy(vec![]);
    assert!(!policy.check_authorized("a@x.com"));
    assert!(!policy.check_authorized(""));
}

#[test]
fn empty_combinators_are_neutral_and_permissive() {
    let op = ActionOperator::empty();
    assert_eq!(op.check_authorized("anyone@x.com"), PolicyCheckerResult::Empty);

    let policy = Policy(vec![PolicyAction {
        allow: ActionOperator::empty(),
        deny: ActionOperator::empty(),
    }]);
    assert!(policy.check_authorized("anyone@x.com"));
}

#[test]
fn singleton_or_and_agree_with_criterion() {
    let hit = OrPolicy(vec![email_crit("a@x.com")]);
    assert_eq!(hit.check_authorized("a@x.com"), PolicyCheckerResult::Passed);
    assert_eq!(hit.check_authorized("b@x.com"), PolicyCheckerResult::NotPassed);

    let hit = AndPolicy(vec![email_crit("a@x.com")]);
    assert_eq!(hit.check_authorized("a@x.com"), PolicyCheckerResult::Passed);
    assert_eq!(hit.check_authorized("b@x.com"), PolicyCheckerResult::NotPassed);
}

#[test]
fn singleton_not_nor_agree_with_inverse() {
    let miss = NotPolicy(vec![email_crit("a@x.com")]);
    assert_eq!(miss.check_authorized("a@x.com"), PolicyCheckerResult::NotPassed);
    assert_eq!(miss.check_authorized("b@x.com"), PolicyCheckerResult::Passed);

    let miss = NorPolicy(vec![email_crit("a@x.com")]);
    assert_eq!(miss.check_authorized("a@x.com"), PolicyCheckerResult::NotPassed);
    assert_eq!(miss.check_authorized("b@x.com"), PolicyCheckerResult::Passed);
}

#[test]
fn empty_combinator_lists_evaluate_to_empty() {
    let email = "someone@x.com";
    assert_eq!(OrPolicy(vec![]).check_authorized(email), PolicyCheckerResult::Empty);
    assert_eq!(AndPolicy(vec![]).check_authorized(email), PolicyCheckerResult::Empty);
    assert_eq!(NotPolicy(vec![]).check_authorized(email), PolicyCheckerResult::Empty);
    assert_eq!(NorPolicy(vec![]).check_authorized(email), PolicyCheckerResult::Empty);
}

#[test]
fn priority_or_merge() {
    assert_eq!(Passed.add(NotPassed), Passed);
    assert_eq!(NotPassed.add(Passed), Passed);
    assert_eq!(NotPassed.add(Empty), NotPassed);
    assert_eq!(Empty.add(NotPassed), NotPassed);
    assert_eq!(Empty.add(Empty), Empty);
    assert_eq!(Passed.add(Empty), Passed);
}

#[test]
fn result_inversion() {
    assert_eq!(Passed.not(), NotPassed);
    assert_eq!(NotPassed.not(), Passed);
    assert_eq!(Empty.not(), Empty);
}

#[test]
fn result_conversions() {
    assert_eq!(PolicyCheckerResult::from(true), Passed);
    assert_eq!(PolicyCheckerResult::from(false), NotPassed);
    assert_eq!(Passed.try_into(), Ok(true));
    assert_eq!(NotPassed.try_into(), Ok(false));
    assert_eq!(Empty.try_into(), Err(()));
    assert_eq!(Passed.to_string(), "passed");
    assert_eq!(NotPassed.to_string(), "not passed");
    assert_eq!(Empty.to_string(), "empty");
}

#[test]
fn or_passes_when_any_matches() {
    let or = OrPolicy(vec![email_crit("a@x.com"), email_crit("b@x.com")]);
    assert_eq!(or.check_authorized("b@x.com"), PolicyCheckerResult::Passed);
    assert_eq!(or.check_authorized("c@x.com"), PolicyCheckerResult::NotPassed);
}

#[test]
fn mixed_combinators_merge_with_priority_or() {
    // A pass from `or` cannot be vetoed by a failure from `and`.
    let op = ActionOperator {
        or: OrPolicy(vec![email_crit("a@x.com")]),
        and: AndPolicy(vec![email_crit("b@x.com")]),
        not: NotPolicy(vec![]),
        nor: NorPolicy(vec![]),
    };
    assert_eq!(op.check_authorized("a@x.com"), PolicyCheckerResult::Passed);
}

#[test]
fn deny_without_allow_flips_to_failure() {
    let policy = Policy(vec![PolicyAction {
        allow: ActionOperator::empty(),
        deny: ActionOperator {
            or: OrPolicy(vec![email_crit("bad@x.com")]),
            and: AndPolicy(vec![]),
            not: NotPolicy(vec![]),
            nor: NorPolicy(vec![]),
        },
    }]);
    assert!(!policy.check_authorized("bad@x.com"));
    // A non-matching deny evaluates to a definite pass of the inverted
    // check, so everyone else is let through.
    assert!(policy.check_authorized("good@x.com"));
}

#[test]
fn definite_allow_dominates_matching_deny() {
    // The merge is a priority OR: a definite pass from the allow rule is
    // not vetoed by a matching deny rule.
    let policy = Policy(vec![PolicyAction {
        allow: ActionOperator::any(),
        deny: ActionOperator {
            or: OrPolicy(vec![email_crit("bad@x.com")]),
            and: AndPolicy(vec![]),
            not: NotPolicy(vec![]),
            nor: NorPolicy(vec![]),
        },
    }]);
    assert!(policy.check_authorized("bad@x.com"));
    assert!(policy.check_authorized("good@x.com"));
}

#[test]
fn compound_matcher_needs_every_condition() {
    let m = matchers::String {
        is: None,
        starts_with: Some("adm".to_string()),
        ends_with: Some("@x.com".to_string()),
        contains: Some("min".to_string()),
    };
    assert_eq!(m.check_authorized("admin@x.com"), PolicyCheckerResult::Passed);
    assert_eq!(m.check_authorized("admin@y.com"), PolicyCheckerResult::NotPassed);
    assert_eq!(m.check_authorized("adxyz@x.com"), PolicyCheckerResult::NotPassed);
    assert_eq!(m.check_authorized("minad@x.com"), PolicyCheckerResult::NotPassed);
}

#[test]
fn vacuous_matcher_accepts_everything() {
    let m = matchers::String { is: None, starts_with: None, ends_with: None, contains: None };
    assert_eq!(m.check_authorized("whoever@x.com"), PolicyCheckerResult::Passed);
    assert_eq!(m.check_authorized(""), PolicyCheckerResult::Passed);
}

#[test]
fn accept_criterion_always_passes() {
    let c = ActionCriteria::Accept;
    assert_eq!(c.check_authorized("anyone"), PolicyCheckerResult::Passed);
}

#[test]
fn user_criterion_reads_the_email_string() {
    let c = ActionCriteria::User { user: matcher_is("a@x.com") };
    assert_eq!(c.check_authorized("a@x.com"), PolicyCheckerResult::Passed);
    assert_eq!(c.check_authorized("b@x.com"), PolicyCheckerResult::NotPassed);
}

#[test]
fn allow_all_accepts_everyone() {
    let policy = Policy::allow_all();
    assert!(policy.check_authorized("a@x.com"));
    assert!(policy.check_authorized(""));
}

#[test]
fn extract_emails_collects_every_literal() {
    let policy = Policy(vec![PolicyAction {
        allow: ActionOperator {
            or: OrPolicy(vec![email_crit("a@x.com")]),
            and: AndPolicy(vec![]),
            not: NotPolicy(vec![email_crit("b@x.com")]),
            nor: NorPolicy(vec![]),
        },
        deny: ActionOperator {
            or: OrPolicy(vec![ActionCriteria::User {
                user: matchers::String {
                    is: None,
                    starts_with: Some("evil".to_string()),
                    ends_with: None,
                    contains: None,
                },
            }]),
            and: AndPolicy(vec![]),
            not: NotPolicy(vec![]),
            nor: NorPolicy(vec![]),
        },
    }]);
    let mut emails: Vec<String> = Vec::new();
    policy.extract_emails(&mut emails);
    assert_eq!(emails.len(), 3);
    assert!(emails.iter().any(|e| e == "a@x.com"));
    assert!(emails.iter().any(|e| e == "b@x.com"));
    assert!(emails.iter().any(|e| e == "evil"));
}
