use vstd::prelude::*;

pub mod access;
pub mod alias;
pub mod audit;
pub mod backup;
pub mod bundle;
pub mod config;
pub mod diff;
pub mod clock;
pub mod cmds;
pub mod compress;
pub mod env;
pub mod error;
pub mod expire;
pub mod export;
pub mod fmt;
pub mod import;
pub mod keyring;
pub mod lines;
pub mod lint;
pub mod lock;
pub mod merge;
pub mod notify;
pub mod path;
pub mod pin;
pub mod policy;
pub mod prune;
pub mod quota;
pub mod redact;
pub mod replay;
pub mod report;
pub mod resolve;
pub mod rotate;
pub mod search;
pub mod snapshot;
pub mod store;
pub mod strmap;
pub mod tag;
pub mod template;
pub mod text;
pub mod ttl;

verus! {
} // verus!
