use indexmap::IndexMap;
use zaino::network_upgrade::{
    latest_network_upgrade, NetworkUpgradeInfo, NetworkUpgradeStatus, StatusCode,
};

#[test]
fn latest_network_upgrade_rejects_empty_metadata() {
    let upgrades = IndexMap::new();
    let err = latest_network_upgrade(&upgrades).expect_err("empty upgrades must fail");

    assert_eq!(err.code(), StatusCode::FailedPrecondition);
    assert_eq!(
        err.message(),
        "validator returned no network upgrade metadata"
    );
}

#[test]
fn latest_network_upgrade_is_the_last_inserted() {
    let mut upgrades = IndexMap::new();
    upgrades.insert(
        0x5ba8_1b19u32,
        NetworkUpgradeInfo {
            name: "Overwinter".to_string(),
            activation_height: 1,
            status: NetworkUpgradeStatus::Active,
        },
    );
    upgrades.insert(
        0xc8e7_1055u32,
        NetworkUpgradeInfo {
            name: "Nu6".to_string(),
            activation_height: 2,
            status: NetworkUpgradeStatus::Pending,
        },
    );
    let latest = latest_network_upgrade(&upgrades).unwrap();
    assert_eq!(latest.name, "Nu6");
    assert_eq!(latest.activation_height, 2);
    assert_eq!(latest.status, NetworkUpgradeStatus::Pending);
}
