//! Campus network auto-login: the decisions of a tray client that watches the
//! connection, recognises the configured captive portal and signs in.
//!
//! Everything here is pure: network, files, clocks and windows belong to the
//! program around the library, which hands in what it observed and carries out
//! what it is told.

pub mod auth;
pub mod capture;
pub mod clock;
pub mod config;
pub mod desktop;
pub mod json;
pub mod logger;
pub mod login;
pub mod logs;
pub mod model;
pub mod paths;
pub mod portal;
pub mod probe;
pub mod redact;
pub mod runtime;
pub mod secrecy;
pub mod secure_store;
pub mod startup;
pub mod text;
pub mod web;
