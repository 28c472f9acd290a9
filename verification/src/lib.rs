//! The decision core of a copy-trading engine for a binary-outcome venue.

pub mod auth;
pub mod big;
pub mod book;
pub mod calendar;
pub mod calldata;
pub mod capped;
pub mod custody;
pub mod digest;
pub mod digests;
pub mod errors;
pub mod exit_rescue;
pub mod feed;
pub mod fingerprint;
pub mod firerate;
pub mod flatten;
pub mod funding;
pub mod guardwatch;
pub mod history;
pub mod incidents;
pub mod journal;
pub mod json;
pub mod laneid;
pub mod latency;
pub mod laws;
pub mod lease;
pub mod ledger;
pub mod merge;
pub mod mergeclaim;
pub mod mergeverify;
pub mod mergewatch;
pub mod numerals;
pub mod orphan;
pub mod pairledger;
pub mod positions;
pub mod presign;
pub mod provenance;
pub mod race;
pub mod race_send;
pub mod readback;
pub mod reanchor;
pub mod response_times;
pub mod resting;
pub mod restwatch;
pub mod risk;
pub mod rows;
pub mod settlement;
pub mod snapshot;
pub mod sorting;
pub mod split;
pub mod sweep;
pub mod table;
pub mod text;
pub mod units;
pub mod words;
