//! Core of a multi-user playlist mirroring service.
//!
//! A user links accounts on several music services and configures watchers:
//! rules that mirror a source playlist on one service into a target playlist
//! on another on a recurring schedule.  This crate holds the verified core:
//! the sync planner, the watcher scheduler's decision logic, the sync
//! journal, the credential store, and the OAuth flow bookkeeping.  Network
//! and database edges live outside; they hand this crate plain values.

pub mod api;
pub mod catalog;
pub mod config;
pub mod credentials;
pub mod crypto;
pub mod engine;
pub mod journal;
pub mod oauth;
pub mod songlink;
pub mod scheduler;
pub mod session;
pub mod strutil;
pub mod sync_service;
pub mod track;
pub mod user_model;
pub mod users;
pub mod watchers;
