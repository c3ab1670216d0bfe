//! Verified core logic of the Zaino indexer.
use vstd::prelude::*;

pub mod encoding;
pub mod types;
pub mod metadata;
pub mod txout_set;
pub mod commitment;
pub mod addr_history;
pub mod checksum;
pub mod tx_list;
pub mod proto_utils;
pub mod history_map;
pub mod network_upgrade;
pub mod cli;
pub mod stored_entry;
pub mod txout_set_info;

verus! {

} // verus!
