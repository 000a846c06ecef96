//! Verified core of an IP address lookup service.
pub mod text;
pub mod headers;
pub mod ip;
pub mod ip_text;
pub mod user_agent;
pub mod geo;
pub mod response;
pub mod cache;
pub mod config;
pub mod error;
pub mod server;
pub mod db_updater;
