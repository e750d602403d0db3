use std::time::Instant;

use siprs::ua::device_registry::{DeviceOnlineStatus, DeviceTreeNode, SubscriptionStateInfo};

#[test]
fn test_online_status_display() {
    assert_eq!(DeviceOnlineStatus::Online.to_string(), "ONLINE");
    assert_eq!(DeviceOnlineStatus::Offline.to_string(), "OFFLINE");
    assert_eq!(DeviceOnlineStatus::Unknown.to_string(), "UNKNOWN");
}

#[test]
fn test_online_status_equality() {
    assert_eq!(DeviceOnlineStatus::Online, DeviceOnlineStatus::Online);
    assert_ne!(DeviceOnlineStatus::Online, DeviceOnlineStatus::Offline);
    assert_ne!(DeviceOnlineStatus::Offline, DeviceOnlineStatus::Unknown);
}

#[test]
fn test_device_tree_node() {
    let mut root = DeviceTreeNode::new("34020000002000000001");
    root.name = Some("Platform".to_string());
    root.status = DeviceOnlineStatus::Online;

    let child1 = DeviceTreeNode {
        device_id: "34020000001320000001".to_string(),
        name: Some("Camera1".to_string()),
        status: DeviceOnlineStatus::Online,
        children: Vec::new(),
    };

    let child2 = DeviceTreeNode {
        device_id: "34020000001320000002".to_string(),
        name: Some("Camera2".to_string()),
        status: DeviceOnlineStatus::Offline,
        children: Vec::new(),
    };

    root.children.push(child1);
    root.children.push(child2);

    assert_eq!(root.total_count(), 3);
    assert_eq!(root.children.len(), 2);
}

#[test]
fn test_device_tree_node_nested() {
    let mut root = DeviceTreeNode::new("root");
    let mut child = DeviceTreeNode::new("child1");
    child.children.push(DeviceTreeNode::new("grandchild1"));
    child.children.push(DeviceTreeNode::new("grandchild2"));
    root.children.push(child);

    assert_eq!(root.total_count(), 4);
}

#[test]
fn test_subscription_state_info_is_expired() {
    let info = SubscriptionStateInfo {
        subscription_id: "sub-001".to_string(),
        event: "Catalog".to_string(),
        expires: 3600,
        created_at: Instant::now(),
        active: true,
    };
    assert!(!info.is_expired());

    let expired_info = SubscriptionStateInfo {
        subscription_id: "sub-002".to_string(),
        event: "Catalog".to_string(),
        expires: 0,
        created_at: Instant::now() - std::time::Duration::from_secs(1),
        active: true,
    };
    assert!(expired_info.is_expired());
}
