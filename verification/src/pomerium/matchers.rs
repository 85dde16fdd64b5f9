//! The leaf predicate of the policy language: a compound string matcher.
//! Every condition present in the record must hold of the identity string;
//! absent conditions hold vacuously.
use vstd::prelude::*;

use super::policy::PolicyChecker;
use super::policy::PolicyCheckerResult;
use crate::strutil::has_substring;
use crate::strutil::str_contains;
use crate::strutil::str_ends_with;
use crate::strutil::str_eq;
use crate::strutil::str_starts_with;
use crate::strutil::strs_contain;
use crate::strutil::insert_str;

verus! {

/// A compound matcher over one identity string.
#[derive(Debug)]
pub struct String {
    pub is: Option<std::string::String>,
    pub starts_with: Option<std::string::String>,
    pub ends_with: Option<std::string::String>,
    pub contains: Option<std::string::String>,
}

/// Mathematical image of a compound matcher.
#[verifier::ext_equal]
pub struct MatcherView {
    pub is: Option<Seq<char>>,
    pub starts_with: Option<Seq<char>>,
    pub ends_with: Option<Seq<char>>,
    pub contains: Option<Seq<char>>,
}

impl String {
    pub open spec fn view(&self) -> MatcherView {
        MatcherView {
            is: match self.is {
                Some(s) => Some(s@),
                None => None,
            },
            starts_with: match self.starts_with {
                Some(s) => Some(s@),
                None => None,
            },
            ends_with: match self.ends_with {
                Some(s) => Some(s@),
                None => None,
            },
            contains: match self.contains {
                Some(s) => Some(s@),
                None => None,
            },
        }
    }

    /// Every literal this matcher mentions; these are the identities the
    /// startup pass precomputes views for.
    pub fn extract_emails(&self, hash_set: &mut Vec<std::string::String>)
        ensures
            forall|e: Seq<char>|
                strs_contain(final(hash_set)@, e) <==> strs_contain(old(hash_set)@, e)
                    || matcher_emails(self.view()).contains(e),
    {
        if let Some(s) = &self.is {
            insert_str(hash_set, s);
        }
        if let Some(s) = &self.starts_with {
            insert_str(hash_set, s);
        }
        if let Some(s) = &self.ends_with {
            insert_str(hash_set, s);
        }
        if let Some(s) = &self.contains {
            insert_str(hash_set, s);
        }
    }
}

/// Whether every condition present in the matcher holds of `v`.
pub open spec fn spec_match(m: MatcherView, v: Seq<char>) -> bool {
    &&& (match m.is {
        Some(p) => p == v,
        None => true,
    })
    &&& (match m.starts_with {
        Some(p) => p.is_prefix_of(v),
        None => true,
    })
    &&& (match m.ends_with {
        Some(p) => p.is_suffix_of(v),
        None => true,
    })
    &&& (match m.contains {
        Some(p) => has_substring(v, p),
        None => true,
    })
}

/// The literals a matcher mentions.
pub open spec fn matcher_emails(m: MatcherView) -> Set<Seq<char>> {
    (match m.is {
        Some(p) => Set::empty().insert(p),
        None => Set::<Seq<char>>::empty(),
    }) + (match m.starts_with {
        Some(p) => Set::empty().insert(p),
        None => Set::<Seq<char>>::empty(),
    }) + (match m.ends_with {
        Some(p) => Set::empty().insert(p),
        None => Set::<Seq<char>>::empty(),
    }) + (match m.contains {
        Some(p) => Set::empty().insert(p),
        None => Set::<Seq<char>>::empty(),
    })
}

impl PolicyChecker for String {
    open spec fn spec_check(&self, email: Seq<char>) -> PolicyCheckerResult {
        PolicyCheckerResult::spec_from_bool(spec_match(self.view(), email))
    }

    fn check_authorized(&self, email: &str) -> (r: PolicyCheckerResult) {
        let is = match &self.is {
            Some(s) => str_eq(s.as_str(), email),
            None => true,
        };
        let starts_with = match &self.starts_with {
            Some(s) => str_starts_with(email, s.as_str()),
            None => true,
        };
        let ends_with = match &self.ends_with {
            Some(s) => str_ends_with(email, s.as_str()),
            None => true,
        };
        let contains = match &self.contains {
            Some(s) => str_contains(email, s.as_str()),
            None => true,
        };
        if is && starts_with && ends_with && contains {
            PolicyCheckerResult::Passed
        } else {
            PolicyCheckerResult::NotPassed
        }
    }
}

} // verus!
