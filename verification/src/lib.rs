//! Session-token verification service: a stateless proxy that accepts a bearer
//! token, forwards it to an upstream identity provider, and maps the upstream
//! outcome to a normalized verified-session payload or a normalized error.
//! Alongside the service core live the small data stores shared by the desktop
//! companion tools that consume it.

pub mod app_settings;
pub mod auth;
pub mod client;
pub mod community;
pub mod config;
pub mod granger;
pub mod json;
pub mod routes;
pub mod trade_entries;
pub mod urls;
pub mod watch;
pub mod user_layers;
