//! The well-known endpoints of the proxy in front of the service. Without
//! a proxy to ask, the fixed development values are used.
use vstd::prelude::*;

verus! {

/// The proxy endpoints the service needs: where to send a sign-out, and
/// where the token-signing keys live.
#[derive(Debug)]
pub struct KnownRoutes {
    pub frontchannel_logout_uri: String,
    pub jwks_uri: String,
}

/// The development stand-in for asking the proxy for its endpoints.
pub fn obtain_known(_domain: &str) -> (r: KnownRoutes)
    ensures
        r.frontchannel_logout_uri@ == "/test/logout"@,
        r.jwks_uri@ == "/test/jwks.json"@,
{
    KnownRoutes {
        frontchannel_logout_uri: "/test/logout".to_owned(),
        jwks_uri: "/test/jwks.json".to_owned(),
    }
}

} // verus!
