pub mod common;
pub mod config;
pub mod consts;
pub mod pomerium;
pub mod pomerium_routes;
pub mod rendering;
pub mod strutil;
