use vstd::prelude::*;

pub mod text;
pub mod numeric;
pub mod options;
pub mod symbols;
pub mod conditions;
pub mod naming;
pub mod timeframes;
pub mod order;
pub mod events;
pub mod cli;
pub mod routing;
pub mod clock;
pub mod pivots;
pub mod sisters;
pub mod windows;
pub mod retries;
pub mod candle_sql;
pub mod contracts;
pub mod condition_stats;
pub mod playbook;
pub mod storage;
pub mod coverage;

verus! {
} // verus!
