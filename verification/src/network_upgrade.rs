//! Network upgrade metadata reported by the validator.
use vstd::prelude::*;

use indexmap::IndexMap;

verus! {

#[verifier::external_type_specification]
#[verifier::external_body]
#[verifier::reject_recursive_types(K)]
#[verifier::reject_recursive_types(V)]
#[verifier::reject_recursive_types(S)]
pub struct ExIndexMap<K, V, S>(IndexMap<K, V, S>);

/// Activation status of a network upgrade.
#[derive(Clone, Copy, Debug, PartialEq, Eq, Structural)]
pub enum NetworkUpgradeStatus {
    Active,
    Disabled,
    Pending,
}

/// One network upgrade as the validator reports it: name, activation height and status.
#[derive(Debug)]
pub struct NetworkUpgradeInfo {
    pub name: String,
    pub activation_height: u32,
    pub status: NetworkUpgradeStatus,
}

/// The entries of an upgrade map, keyed by consensus branch id, in insertion order.
pub uninterp spec fn upgrade_entries(m: IndexMap<u32, NetworkUpgradeInfo>) -> Seq<(u32, NetworkUpgradeInfo)>;

/// The last entry's value of an upgrade map, by `IndexMap::last`, which returns the last
/// key-value pair in the map's order, or `None` for an empty map.
#[verifier::external_body]
fn upgrade_map_last(m: &IndexMap<u32, NetworkUpgradeInfo>) -> (r: Option<&NetworkUpgradeInfo>)
    ensures
        match r {
            None => upgrade_entries(*m).len() == 0,
            Some(v) => upgrade_entries(*m).len() > 0 && *v == upgrade_entries(*m).last().1,
        },
{
    m.last().map(|(_, upgrade)| upgrade)
}

/// Status code of an error answered to a client.
#[derive(Clone, Copy, Debug, PartialEq, Eq, Structural)]
pub enum StatusCode {
    FailedPrecondition,
}

/// The validator reported no network upgrade metadata.
#[derive(Debug, PartialEq, Eq, Structural)]
pub struct NoUpgradeMetadata;

impl NoUpgradeMetadata {
    /// The status code this error is answered with.
    pub fn code(&self) -> (r: StatusCode)
        ensures
            r == StatusCode::FailedPrecondition,
    {
        StatusCode::FailedPrecondition
    }

    /// The message this error is answered with.
    pub fn message(&self) -> (r: &'static str)
        ensures
            r@ == "validator returned no network upgrade metadata"@,
    {
        "validator returned no network upgrade metadata"
    }
}

/// The most recent network upgrade: the last entry of the validator's upgrade map; an empty map
/// is a failed precondition.
pub fn latest_network_upgrade(upgrades: &IndexMap<u32, NetworkUpgradeInfo>) -> (r: Result<
    &NetworkUpgradeInfo,
    NoUpgradeMetadata,
>)
    ensures
        upgrade_entries(*upgrades).len() == 0 <==> r is Err,
        r matches Ok(u) ==> *u == upgrade_entries(*upgrades).last().1,
{
    match upgrade_map_last(upgrades) {
        Some(upgrade) => Ok(upgrade),
        None => Err(NoUpgradeMetadata),
    }
}

} // verus!
