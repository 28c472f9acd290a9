//! What the library is for, stated of whole operations: how the results of calls relate to
//! what went in and to each other.

pub mod auth;
pub mod book;
pub mod calendar;
pub mod calldata;
pub mod capped;
pub mod custody;
pub mod digest;
pub mod errors;
pub mod exit_rescue;
pub mod feed;
pub mod fingerprint;
pub mod firerate;
pub mod flatten;
pub mod funding;
pub mod guardwatch;
pub mod history;
pub mod holdings;
pub mod incidents;
pub mod laneid;
pub mod latency;
pub mod ledger;
pub mod limits;
pub mod merge;
pub mod mergeclaim;
pub mod mergeverify;
pub mod mergewatch;
pub mod orphan;
pub mod pairledger;
pub mod positions;
pub mod presign;
pub mod provenance;
pub mod race;
pub mod race_send;
pub mod reanchor;
pub mod response_times;
pub mod resting;
pub mod restwatch;
pub mod risk;
pub mod rows;
pub mod settlement;
pub mod snapshot;
pub mod sorting;
pub mod sweep;
pub mod text;
pub mod units;
pub mod words;
