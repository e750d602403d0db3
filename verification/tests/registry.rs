use std::time::{Duration, Instant};

use siprs::ua::device_registry::{CascadingDirection, DeviceOnlineStatus, DeviceRegistryEvent};
use siprs::ua::registry::{CatalogItem, DeviceRegistry, RegisteredDevice};

const DEV1: &str = "34020000001320000001";
const CONTACT1: &str = "sip:34020000001320000001@192.168.1.100:5060";
const SERVER: &str = "192.168.1.1:5060";

fn make_registry() -> DeviceRegistry {
    DeviceRegistry::new(180)
}

fn registered_one() -> DeviceRegistry {
    let mut registry = make_registry();
    registry.register_device(DEV1, CONTACT1, SERVER, 3600, "call-123");
    registry
}

fn device_with(registered_at: Instant, last_keepalive: Instant) -> RegisteredDevice {
    RegisteredDevice {
        device_id: DEV1.to_string(),
        contact: CONTACT1.to_string(),
        server_addr: SERVER.to_string(),
        status: DeviceOnlineStatus::Online,
        registered_at,
        last_keepalive,
        expires: 3600,
        call_id: "call-123".to_string(),
        name: None,
        manufacturer: None,
        model: None,
        ip_address: None,
        port: None,
        sub_devices: Vec::new(),
        cascading_platforms: Vec::new(),
        subscriptions: Vec::new(),
    }
}

fn item(id: &str, name: Option<&str>, status: Option<&str>) -> CatalogItem {
    CatalogItem {
        device_id: id.to_string(),
        name: name.map(|s| s.to_string()),
        status: status.map(|s| s.to_string()),
    }
}

fn is_event(e: &DeviceRegistryEvent, kind: &str, id: &str) -> bool {
    match e {
        DeviceRegistryEvent::DeviceOnline { device_id } => kind == "online" && device_id == id,
        DeviceRegistryEvent::DeviceOffline { device_id } => kind == "offline" && device_id == id,
        DeviceRegistryEvent::DeviceRegistered { device_id } => {
            kind == "registered" && device_id == id
        }
        DeviceRegistryEvent::DeviceUnregistered { device_id } => {
            kind == "unregistered" && device_id == id
        }
        DeviceRegistryEvent::DevicePositionUpdated { device_id } => {
            kind == "position" && device_id == id
        }
        DeviceRegistryEvent::CascadingPlatformRegistered { platform_id } => {
            kind == "platform" && platform_id == id
        }
        DeviceRegistryEvent::CascadingPlatformUnregistered { platform_id } => {
            kind == "platform_gone" && platform_id == id
        }
        DeviceRegistryEvent::DeviceCatalogUpdated { .. } => false,
    }
}

#[test]
fn test_registered_device_remaining_expires() {
    let device = device_with(Instant::now(), Instant::now());
    assert!(device.remaining_expires() <= 3600);
    assert!(device.remaining_expires() >= 3599);
    assert!(!device.is_expired());
}

#[test]
fn test_registered_device_expired() {
    let past = Instant::now() - Duration::from_secs(7200);
    let device = device_with(past, past);
    assert!(device.is_expired());
    assert_eq!(device.remaining_expires(), 0);
}

#[test]
fn test_registered_device_keepalive_timeout() {
    let device = device_with(Instant::now(), Instant::now() - Duration::from_secs(200));
    assert!(device.is_keepalive_timeout(180));
    assert!(!device.is_keepalive_timeout(300));
}

#[test]
fn test_registered_device_clock_free_forms() {
    let device = device_with(Instant::now(), Instant::now());
    assert_eq!(device.remaining_expires_after(100), 3500);
    assert_eq!(device.remaining_expires_after(3600), 0);
    assert_eq!(device.remaining_expires_after(9000), 0);
    assert!(!device.is_expired_after(3599));
    assert!(device.is_expired_after(3600));
    assert!(device.is_keepalive_timeout_after(181, 180));
    assert!(!device.is_keepalive_timeout_after(180, 180));
}

#[test]
fn test_heartbeat_timeout_config() {
    let mut registry = DeviceRegistry::new(180);
    assert_eq!(registry.heartbeat_timeout(), 180);

    registry.set_heartbeat_timeout(300);
    assert_eq!(registry.heartbeat_timeout(), 300);
}

#[test]
fn test_register_device() {
    let registry = registered_one();
    let device = registry.get_device(DEV1);
    assert!(device.is_some());
    let device = device.unwrap();
    assert_eq!(device.device_id, DEV1);
    assert_eq!(device.contact, CONTACT1);
    assert_eq!(device.server_addr, SERVER);
    assert_eq!(device.status, DeviceOnlineStatus::Online);
    assert_eq!(device.expires, 3600);
    assert_eq!(device.call_id, "call-123");
}

#[test]
fn test_register_device_events() {
    let mut registry = registered_one();
    let events = registry.take_events();
    assert_eq!(events.len(), 2);
    assert!(is_event(&events[0], "registered", DEV1));
    assert!(is_event(&events[1], "online", DEV1));
    assert!(registry.take_events().is_empty());
}

#[test]
fn test_unregister_device() {
    let mut registry = registered_one();
    assert!(registry.unregister_device(DEV1));
    assert!(registry.get_device(DEV1).is_none());
}

#[test]
fn test_unregister_unknown_device() {
    let mut registry = make_registry();
    assert!(!registry.unregister_device("unknown"));
    assert!(registry.take_events().is_empty());
}

#[test]
fn test_unregister_device_events() {
    let mut registry = registered_one();
    let _ = registry.take_events();
    registry.unregister_device(DEV1);
    let events = registry.take_events();
    assert_eq!(events.len(), 2);
    assert!(is_event(&events[0], "offline", DEV1));
    assert!(is_event(&events[1], "unregistered", DEV1));
}

#[test]
fn test_re_register_device() {
    let mut registry = registered_one();
    registry.register_device(
        DEV1,
        "sip:34020000001320000001@192.168.1.200:5060",
        "192.168.1.2:5060",
        7200,
        "call-456",
    );
    let device = registry.get_device(DEV1).unwrap();
    assert_eq!(device.contact, "sip:34020000001320000001@192.168.1.200:5060");
    assert_eq!(device.server_addr, "192.168.1.2:5060");
    assert_eq!(device.expires, 7200);
    assert_eq!(device.call_id, "call-456");
    assert_eq!(device.status, DeviceOnlineStatus::Online);
    assert_eq!(registry.device_count(), 1);
}

#[test]
fn test_update_keepalive() {
    let mut registry = registered_one();
    assert!(registry.update_keepalive(DEV1));
    assert!(!registry.update_keepalive("unknown"));
}

#[test]
fn test_check_heartbeat_no_timeout() {
    let mut registry = registered_one();
    let offline_count = registry.check_heartbeat();
    assert_eq!(offline_count, 0);
    assert_eq!(registry.get_device(DEV1).unwrap().status, DeviceOnlineStatus::Online);
}

#[test]
fn test_check_heartbeat_with_timeout() {
    let mut registry = registered_one();
    // The device last sent a heartbeat 300 s ago; the timeout is 180 s.
    let offline_count = registry.apply_heartbeat_check(&vec![300]);
    assert_eq!(offline_count, 1);
    assert_eq!(registry.get_device(DEV1).unwrap().status, DeviceOnlineStatus::Offline);
}

#[test]
fn test_check_heartbeat_offline_event() {
    let mut registry = registered_one();
    let _ = registry.take_events();
    registry.apply_heartbeat_check(&vec![300]);
    let events = registry.take_events();
    assert_eq!(events.len(), 1);
    assert!(is_event(&events[0], "offline", DEV1));
}

#[test]
fn test_heartbeat_at_the_timeout_keeps_online() {
    let mut registry = registered_one();
    assert_eq!(registry.apply_heartbeat_check(&vec![180]), 0);
    assert_eq!(registry.online_device_count(), 1);
    // An offline device is not counted again.
    assert_eq!(registry.apply_heartbeat_check(&vec![181]), 1);
    assert_eq!(registry.apply_heartbeat_check(&vec![500]), 0);
}

#[test]
fn test_heartbeat_count_is_drop_of_online_count() {
    let mut registry = make_registry();
    for i in 1..=4 {
        registry.register_device(&format!("3402000000132000000{}", i), CONTACT1, SERVER, 3600, "c");
    }
    let before = registry.online_device_count();
    let n = registry.apply_heartbeat_check(&vec![10, 200, 179, 1000]);
    assert_eq!(n, 2);
    assert_eq!(before - n, registry.online_device_count());
}

#[test]
fn test_keepalive_revive_offline_device() {
    let mut registry = registered_one();
    registry.apply_heartbeat_check(&vec![300]);
    let _ = registry.take_events();
    assert!(registry.update_keepalive(DEV1));
    assert_eq!(registry.get_device(DEV1).unwrap().status, DeviceOnlineStatus::Online);
    let events = registry.take_events();
    assert_eq!(events.len(), 1);
    assert!(is_event(&events[0], "online", DEV1));
}

#[test]
fn test_update_device_info() {
    let mut registry = registered_one();
    let result = registry.update_device_info(
        DEV1,
        Some("Camera1".to_string()),
        Some("Hikvision".to_string()),
        Some("DS-2CD2143".to_string()),
        Some("192.168.1.100".to_string()),
        Some(5060),
    );
    assert!(result);
    let device = registry.get_device(DEV1).unwrap();
    assert_eq!(device.name.as_deref(), Some("Camera1"));
    assert_eq!(device.manufacturer.as_deref(), Some("Hikvision"));
    assert_eq!(device.model.as_deref(), Some("DS-2CD2143"));
    assert_eq!(device.ip_address.as_deref(), Some("192.168.1.100"));
    assert_eq!(device.port, Some(5060));
}

#[test]
fn test_update_device_info_partial() {
    let mut registry = registered_one();
    let result = registry.update_device_info(DEV1, Some("Camera1".to_string()), None, None, None, None);
    assert!(result);
    let device = registry.get_device(DEV1).unwrap();
    assert_eq!(device.name.as_deref(), Some("Camera1"));
    assert!(device.manufacturer.is_none());
    assert!(device.model.is_none());
}

#[test]
fn test_update_device_info_unknown_device() {
    let mut registry = make_registry();
    let result =
        registry.update_device_info("unknown", Some("Camera1".to_string()), None, None, None, None);
    assert!(!result);
}

#[test]
fn test_update_catalog() {
    let mut registry = registered_one();
    let sub_devices = vec![
        item("34020000001320000001", Some("Camera1"), Some("ON")),
        item("34020000001310000001", Some("Encoder1"), Some("OFF")),
    ];
    assert!(registry.update_catalog(DEV1, sub_devices));
    let sub = registry.get_sub_devices(DEV1);
    assert_eq!(sub.len(), 2);
    assert_eq!(sub[0].name.as_deref(), Some("Camera1"));
    assert_eq!(sub[1].name.as_deref(), Some("Encoder1"));
}

#[test]
fn test_update_catalog_event() {
    let mut registry = registered_one();
    let _ = registry.take_events();
    registry.update_catalog(DEV1, vec![item("34020000001320000001", None, None)]);
    let events = registry.take_events();
    assert_eq!(events.len(), 1);
    assert!(matches!(
        &events[0],
        DeviceRegistryEvent::DeviceCatalogUpdated { device_id, count: 1 }
        if device_id == DEV1
    ));
}

#[test]
fn test_update_catalog_unknown_device() {
    let mut registry = make_registry();
    assert!(!registry.update_catalog("unknown", vec![]));
}

#[test]
fn test_list_devices() {
    let mut registry = registered_one();
    registry.register_device(
        "34020000001310000001",
        "sip:34020000001310000001@192.168.1.101:5060",
        SERVER,
        3600,
        "call-456",
    );
    let devices = registry.list_devices();
    assert_eq!(devices.len(), 2);
    assert_eq!(devices[0].device_id, DEV1);
    assert_eq!(devices[1].device_id, "34020000001310000001");
}

#[test]
fn test_list_online_devices() {
    let mut registry = make_registry();
    registry.register_device(
        "34020000001310000001",
        "sip:34020000001310000001@192.168.1.101:5060",
        SERVER,
        3600,
        "call-456",
    );
    registry.register_device(DEV1, CONTACT1, SERVER, 3600, "call-123");
    // The first device goes offline.
    registry.apply_heartbeat_check(&vec![300, 0]);
    let online = registry.list_online_devices();
    assert_eq!(online.len(), 1);
    assert_eq!(online[0].device_id, DEV1);
}

#[test]
fn test_device_count() {
    let mut registry = make_registry();
    assert_eq!(registry.device_count(), 0);
    registry.register_device(DEV1, CONTACT1, SERVER, 3600, "call-123");
    assert_eq!(registry.device_count(), 1);
    assert_eq!(registry.online_device_count(), 1);
}

#[test]
fn test_get_device_tree() {
    let mut registry = registered_one();
    registry.update_device_info(DEV1, Some("Camera1".to_string()), None, None, None, None);
    let tree = registry.get_device_tree("34020000002000000001");
    assert_eq!(tree.root.device_id, "34020000002000000001");
    assert_eq!(tree.root.children.len(), 1);
    assert_eq!(tree.root.children[0].device_id, DEV1);
    assert_eq!(tree.root.children[0].name.as_deref(), Some("Camera1"));
    assert_eq!(tree.root.children[0].status, DeviceOnlineStatus::Online);
}

#[test]
fn test_device_tree_with_sub_devices() {
    let mut registry = registered_one();
    registry.update_catalog(
        DEV1,
        vec![
            item("34020000001320000002", Some("SubCamera1"), Some("ON")),
            item("34020000001320000003", Some("SubCamera2"), Some("OFF")),
        ],
    );
    let tree = registry.get_device_tree("34020000002000000001");
    assert_eq!(tree.root.children.len(), 1);
    let device_node = &tree.root.children[0];
    assert_eq!(device_node.children.len(), 2);
    assert_eq!(device_node.children[0].device_id, "34020000001320000002");
    assert_eq!(device_node.children[0].status, DeviceOnlineStatus::Online);
    assert_eq!(device_node.children[1].device_id, "34020000001320000003");
    assert_eq!(device_node.children[1].status, DeviceOnlineStatus::Offline);
}

#[test]
fn test_device_tree_catalog_status_unknown() {
    let mut registry = registered_one();
    registry.update_catalog(
        DEV1,
        vec![item("a", None, Some("on")), item("b", None, None), item("c", None, Some("OFFLINE"))],
    );
    let tree = registry.get_device_tree("root");
    let node = &tree.root.children[0];
    assert_eq!(node.children[0].status, DeviceOnlineStatus::Unknown);
    assert_eq!(node.children[1].status, DeviceOnlineStatus::Unknown);
    assert_eq!(node.children[2].status, DeviceOnlineStatus::Unknown);
}

#[test]
fn test_device_tree_empty() {
    let registry = make_registry();
    let tree = registry.get_device_tree("34020000002000000001");
    assert_eq!(tree.root.device_id, "34020000002000000001");
    assert!(tree.root.children.is_empty());
    assert_eq!(tree.total_count(), 1);
}

#[test]
fn test_device_tree_total_count() {
    let mut registry = registered_one();
    registry.update_catalog(
        DEV1,
        vec![item("34020000001320000002", None, None), item("34020000001320000003", None, None)],
    );
    let tree = registry.get_device_tree("34020000002000000001");
    assert_eq!(tree.total_count(), 4);
}

#[test]
fn test_get_sub_devices() {
    let mut registry = make_registry();
    assert!(registry.get_sub_devices("unknown").is_empty());
    registry.register_device(DEV1, CONTACT1, SERVER, 3600, "call-123");
    assert!(registry.get_sub_devices(DEV1).is_empty());
    registry.update_catalog(DEV1, vec![item("34020000001320000002", Some("SubCamera1"), None)]);
    let sub = registry.get_sub_devices(DEV1);
    assert_eq!(sub.len(), 1);
    assert_eq!(sub[0].name.as_deref(), Some("SubCamera1"));
}

#[test]
fn test_multiple_devices() {
    let mut registry = make_registry();
    for i in 1..=5 {
        let device_id = format!("3402000000132000000{}", i);
        let contact = format!("sip:{}@192.168.1.{}:5060", device_id, 100 + i);
        registry.register_device(&device_id, &contact, SERVER, 3600, &format!("call-{}", i));
    }
    assert_eq!(registry.device_count(), 5);
    assert_eq!(registry.online_device_count(), 5);
    assert!(registry.unregister_device("34020000001320000002"));
    assert!(registry.unregister_device("34020000001320000004"));
    assert_eq!(registry.device_count(), 3);
}

#[test]
fn test_catalog_update_replaces_sub_devices() {
    let mut registry = registered_one();
    registry.update_catalog(DEV1, vec![item("34020000001320000002", None, None)]);
    assert_eq!(registry.get_sub_devices(DEV1).len(), 1);
    registry.update_catalog(
        DEV1,
        vec![item("34020000001320000003", None, None), item("34020000001320000004", None, None)],
    );
    let sub = registry.get_sub_devices(DEV1);
    assert_eq!(sub.len(), 2);
    assert_eq!(sub[0].device_id, "34020000001320000003");
    assert_eq!(sub[1].device_id, "34020000001320000004");
}

#[test]
fn test_position_update_event() {
    let mut registry = registered_one();
    let _ = registry.take_events();
    assert!(registry.mark_position_updated(DEV1));
    assert!(!registry.mark_position_updated("unknown"));
    let events = registry.take_events();
    assert_eq!(events.len(), 1);
    assert!(is_event(&events[0], "position", DEV1));
}

#[test]
fn test_add_cascading_platform() {
    let mut registry = make_registry();
    let result = registry.add_cascading_platform(
        "34020000002000000002",
        "3402000000",
        "192.168.1.2",
        5060,
        CascadingDirection::Downstream,
    );
    assert!(result);
    let device = registry.get_device("34020000002000000002");
    assert!(device.is_some());
    let device = device.unwrap();
    assert_eq!(device.cascading_platforms.len(), 1);
    assert_eq!(device.cascading_platforms[0].platform_id, "34020000002000000002");
    assert_eq!(device.cascading_platforms[0].direction, CascadingDirection::Downstream);
    assert!(device.cascading_platforms[0].online);
    assert_eq!(device.contact, "sip:34020000002000000002@192.168.1.2:5060");
    assert_eq!(device.server_addr, "192.168.1.2:5060");
    assert_eq!(device.expires, 3600);
    assert_eq!(device.call_id, "");
    assert_eq!(device.ip_address.as_deref(), Some("192.168.1.2"));
    assert_eq!(device.port, Some(5060));
    let events = registry.take_events();
    assert_eq!(events.len(), 1);
    assert!(is_event(&events[0], "platform", "34020000002000000002"));
}

#[test]
fn test_add_cascading_platform_again_renews_entry() {
    let mut registry = make_registry();
    let id = "34020000002000000002";
    registry.add_cascading_platform(id, "3402000000", "192.168.1.2", 5060, CascadingDirection::Downstream);
    registry.add_cascading_platform(id, "3402000001", "192.168.1.9", 5070, CascadingDirection::Downstream);
    registry.add_cascading_platform(id, "3402000000", "192.168.1.2", 5060, CascadingDirection::Upstream);
    let device = registry.get_device(id).unwrap();
    assert_eq!(device.cascading_platforms.len(), 2);
    assert_eq!(device.cascading_platforms[0].domain, "3402000001");
    assert_eq!(device.cascading_platforms[0].sip_ip, "192.168.1.9");
    assert_eq!(device.cascading_platforms[0].sip_port, 5070);
    assert_eq!(device.cascading_platforms[1].direction, CascadingDirection::Upstream);
    assert_eq!(registry.device_count(), 1);
}

#[test]
fn test_list_downstream_platforms() {
    let mut registry = make_registry();
    registry.add_cascading_platform(
        "34020000002000000002",
        "3402000000",
        "192.168.1.2",
        5060,
        CascadingDirection::Downstream,
    );
    registry.add_cascading_platform(
        "34020000002000000003",
        "3402000000",
        "192.168.1.3",
        5060,
        CascadingDirection::Upstream,
    );
    let downstream = registry.list_downstream_platforms();
    assert_eq!(downstream.len(), 1);
    assert_eq!(downstream[0].platform_id, "34020000002000000002");
    let upstream = registry.list_upstream_platforms();
    assert_eq!(upstream.len(), 1);
    assert_eq!(upstream[0].platform_id, "34020000002000000003");
}

#[test]
fn test_remove_cascading_platform() {
    let mut registry = make_registry();
    registry.add_cascading_platform(
        "34020000002000000002",
        "3402000000",
        "192.168.1.2",
        5060,
        CascadingDirection::Downstream,
    );
    let result = registry.remove_cascading_platform("34020000002000000002");
    assert!(result);
    let device = registry.get_device("34020000002000000002");
    assert!(device.is_some());
    assert!(device.unwrap().cascading_platforms.is_empty());
    let events = registry.take_events();
    assert!(is_event(&events[1], "platform_gone", "34020000002000000002"));
}

#[test]
fn remove_cascading_platform_of_unknown_device_is_false() {
    let mut registry = make_registry();
    let result = registry.remove_cascading_platform("34020000002000000002");
    assert!(!result);
    assert_eq!(registry.device_count(), 0);
    let events = registry.take_events();
    assert_eq!(events.len(), 1);
    assert!(is_event(&events[0], "platform_gone", "34020000002000000002"));
}

#[test]
fn remove_cascading_platform_twice_is_false_the_second_time() {
    let mut registry = make_registry();
    registry.add_cascading_platform(
        "34020000002000000002",
        "3402000000",
        "192.168.1.2",
        5060,
        CascadingDirection::Upstream,
    );
    assert!(registry.remove_cascading_platform("34020000002000000002"));
    assert!(!registry.remove_cascading_platform("34020000002000000002"));
    assert!(registry.get_device("34020000002000000002").is_some());
}

#[test]
fn test_cascading_direction_display() {
    assert_eq!(CascadingDirection::Upstream.to_string(), "upstream");
    assert_eq!(CascadingDirection::Downstream.to_string(), "downstream");
}

#[test]
fn test_add_subscription() {
    let mut registry = registered_one();
    assert!(registry.add_subscription(DEV1, "sub-001", "Catalog", 3600));
    let device = registry.get_device(DEV1).unwrap();
    assert_eq!(device.subscriptions.len(), 1);
    assert_eq!(device.subscriptions[0].subscription_id, "sub-001");
    assert_eq!(device.subscriptions[0].event, "Catalog");
    assert!(device.subscriptions[0].active);
    assert!(!registry.add_subscription("unknown", "sub-001", "Catalog", 3600));
}

#[test]
fn test_add_subscription_duplicate() {
    let mut registry = registered_one();
    registry.add_subscription(DEV1, "sub-001", "Catalog", 3600);
    registry.add_subscription(DEV1, "sub-001", "Catalog", 3600);
    let device = registry.get_device(DEV1).unwrap();
    assert_eq!(device.subscriptions.len(), 1);
}

#[test]
fn test_remove_subscription() {
    let mut registry = registered_one();
    registry.add_subscription(DEV1, "sub-001", "Catalog", 3600);
    registry.add_subscription(DEV1, "sub-002", "Alarm", 3600);
    assert!(registry.remove_subscription(DEV1, "sub-001"));
    let device = registry.get_device(DEV1).unwrap();
    assert_eq!(device.subscriptions.len(), 1);
    assert_eq!(device.subscriptions[0].subscription_id, "sub-002");
    assert!(!registry.remove_subscription(DEV1, "sub-001"));
    assert!(!registry.remove_subscription("unknown", "sub-002"));
}

#[test]
fn test_get_subscriptions() {
    let mut registry = registered_one();
    registry.add_subscription(DEV1, "sub-001", "Catalog", 3600);
    registry.add_subscription(DEV1, "sub-002", "Alarm", 3600);
    let subs = registry.get_subscriptions(DEV1);
    assert_eq!(subs.len(), 2);
    assert!(registry.get_subscriptions("unknown").is_empty());
}

#[test]
fn test_get_subscriptions_by_event() {
    let mut registry = registered_one();
    registry.add_subscription(DEV1, "sub-001", "Catalog", 3600);
    registry.add_subscription(DEV1, "sub-002", "Alarm", 3600);
    registry.add_subscription(DEV1, "sub-003", "Catalog", 7200);
    assert_eq!(registry.get_subscriptions_by_event(DEV1, "Catalog").len(), 2);
    assert_eq!(registry.get_subscriptions_by_event(DEV1, "Alarm").len(), 1);
    assert_eq!(registry.get_subscriptions_by_event(DEV1, "catalog").len(), 2);
}

#[test]
fn test_register_unregister_restores_devices() {
    let mut registry = registered_one();
    registry.register_device("other", "sip:other@h", SERVER, 60, "x");
    assert!(registry.unregister_device("other"));
    let devices = registry.list_devices();
    assert_eq!(devices.len(), 1);
    assert_eq!(devices[0].device_id, DEV1);
}
