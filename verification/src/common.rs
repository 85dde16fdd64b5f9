//! The identity asserted for the current request by the authentication
//! layer in front of the service.
use vstd::prelude::*;

verus! {

/// A verified visitor: the email is the unique key throughout the service.
#[derive(Debug)]
pub struct CurrentUserData {
    pub email: String,
    pub name: String,
    pub picture: Option<String>,
}

} // verus!
