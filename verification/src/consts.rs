//! Fixed settings of the service: cache lifetimes, default file locations,
//! and the helpers that turn human time units into seconds.
use vstd::prelude::*;

verus! {

/// Seconds between two runs of the cache eviction sweep.
pub const CLEAN_TIME: u64 = 5 * 60 * 60;

/// Maximum age, in seconds, of a cached render before the sweep removes it.
pub const MAX_TIME: u64 = 2 * 24 * 60 * 60;

/// Default port the service listens on.
pub const HTTP_PORT: u16 = 8080;

/// Background image handed to every rendered page.
pub fn background() -> (r: &'static str)
    ensures
        r@ == "background.avif"@,
{
    "background.avif"
}

/// Identity used when no authentication layer is in front of the service.
pub fn debug_email() -> (r: &'static str)
    ensures
        r@ == "testuser@testmail.com"@,
{
    "testuser@testmail.com"
}

/// Display name used when no authentication layer is in front of the service.
pub fn debug_name() -> (r: &'static str)
    ensures
        r@ == "Test User"@,
{
    "Test User"
}

pub fn weeks(n: u64) -> (r: u64)
    requires
        n * 7 * 24 * 60 * 60 <= u64::MAX,
    ensures
        r == n * 7 * 24 * 60 * 60,
{
    days(n * 7)
}

pub fn days(n: u64) -> (r: u64)
    requires
        n * 24 * 60 * 60 <= u64::MAX,
    ensures
        r == n * 24 * 60 * 60,
{
    hours(n * 24)
}

pub fn hours(n: u64) -> (r: u64)
    requires
        n * 60 * 60 <= u64::MAX,
    ensures
        r == n * 60 * 60,
{
    minutes(n * 60)
}

pub fn minutes(n: u64) -> (r: u64)
    requires
        n * 60 <= u64::MAX,
    ensures
        r == n * 60,
{
    60 * n
}

/// Directory that holds the route and policy configuration files.
pub fn get_conf_dir() -> (r: &'static str)
    ensures
        r@ == "./"@,
{
    "./"
}

/// Directory that holds the page templates and static assets.
pub fn get_html_files_dir() -> (r: &'static str)
    ensures
        r@ == "./html_files"@,
{
    "./html_files"
}

} // verus!
