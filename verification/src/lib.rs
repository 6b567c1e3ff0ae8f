//! Verified core of the computed-style sniffer: configuration and option
//! parsing, the CSS property catalog, snapshot naming and storage rules,
//! the offline checks' decisions (per-node structural rules, paint order,
//! the uniformity check's property plan, check bookkeeping), snapshot
//! loading and the structural tree diff (sibling matching, forest
//! reconstruction, property-level changes), the persisted session state
//! (cookie restoring, the `localStorage` restore script), and the DevTools
//! transport's routing and error texts.

pub mod text;
pub mod error;
pub mod properties;
pub mod config;
pub mod wait;
pub mod action;
pub mod snapshot;
pub mod store;
pub mod cdp;
pub mod endpoint;
pub mod types;
pub mod cli;
pub mod tools;
pub mod diff;
pub mod rules;
pub mod checks;
pub mod stacking;
pub mod json;
pub mod load;
pub mod delta;
pub mod uniformity;
pub mod storage;
pub mod facts;
